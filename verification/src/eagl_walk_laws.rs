//! What a dry walk of descriptors foretells of the walk that commits.
use vstd::prelude::*;
use crate::eagl_apply;
use crate::eagl_apply::{Clamp, Shape, Walk, APPLY_MAX_DEPTH};
use crate::eagl_laws;
use crate::virtual_mem;
use crate::virtual_mem::Space;

verus! {

/// The same walk, with its values written.
pub open spec fn committing(w: Walk) -> Walk {
    Walk { commit: true, ..w }
}

/// No byte of the word at a virtual address belongs to the destination.
pub open spec fn is_apart(s: Space, at: i32, dst: spec_fn(int) -> bool) -> bool {
    forall|p: int| #[trigger] eagl_laws::covers(s, at, p) ==> !dst(p)
}

/// The word at a virtual address can be written and belongs to the destination.
pub open spec fn lands(s: Space, at: i32, dst: spec_fn(int) -> bool) -> bool {
    &&& eagl_laws::can_write_word(s, at)
    &&& forall|p: int| #[trigger] eagl_laws::covers(s, at, p) ==> dst(p)
}

/// The cursors of a walk are no part of the destination.
pub open spec fn cursors_apart(s: Space, w: Walk, dst: spec_fn(int) -> bool) -> bool {
    &&& is_apart(s, w.desc_cur, dst)
    &&& is_apart(s, w.src_cur, dst)
    &&& is_apart(s, w.dst_cur, dst)
    &&& is_apart(s, w.budget, dst)
}

/// The words of a column are read outside the destination and written inside it.
pub open spec fn column_apart(
    s: Space,
    h: Shape,
    from: i32,
    to: i32,
    j: int,
    n: int,
    dst: spec_fn(int) -> bool,
) -> bool {
    forall|i: int| #[trigger] cell_apart(s, h, from, to, j, i, n, dst)
}

/// So is the `i`-th word of the column.
pub open spec fn cell_apart(
    s: Space,
    h: Shape,
    from: i32,
    to: i32,
    j: int,
    i: int,
    n: int,
    dst: spec_fn(int) -> bool,
) -> bool {
    0 <= i < n ==> {
        &&& is_apart(s, from.wrapping_add(((j + i * h.cols) * 4) as i32), dst)
        &&& lands(s, to.wrapping_add((i * 4) as i32), dst)
    }
}

/// So are the columns from the `j`-th on, as far as a dry walk gets.
#[verifier::opaque]
pub open spec fn columns_apart(
    s: Space,
    w: Walk,
    h: Shape,
    from: i32,
    c: Clamp,
    j: int,
    dst: spec_fn(int) -> bool,
) -> bool
    decreases h.cols - j,
{
    if j >= h.cols {
        true
    } else {
        match (s.word(w.budget), s.word(w.dst_cur)) {
            (Some(left), Some(to)) => left == 0 || {
                let d = c.under(w.layout, left as u32);
                let next = s.with_word(w.dst_cur, to.wrapping_add(d.stride(w.layout) as i32));
                let spent = ((left as u32 - d.cost(w.layout)) as u32) as i32;
                let n = d.count(w.layout) as int;
                &&& column_apart(s, h, from, to, j, n, dst)
                &&& eagl_apply::column_applied(s, w, h, from, to, j, 0, n).1 ==> match next {
                    Some(u) => match u.with_word(w.budget, spent) {
                        Some(x) => columns_apart(x, w, h, from, d, j + 1, dst),
                        None => true,
                    },
                    None => true,
                }
            },
            _ => true,
        }
    }
}

/// So are the items of a descriptor from the `k`-th on.
#[verifier::opaque]
pub open spec fn items_apart(
    s: Space,
    w: Walk,
    h: Shape,
    c: Clamp,
    k: int,
    items: int,
    dst: spec_fn(int) -> bool,
) -> bool
    decreases items - k,
{
    if k >= items {
        true
    } else {
        match (s.word(w.budget), s.word(w.src_cur)) {
            (Some(left), Some(from)) => left == 0 || {
                let (t, d, ok) = eagl_apply::columns_applied(s, w, h, from, c, 0);
                let next = from.wrapping_add((h.cols * h.rows * 4) as i32);
                &&& columns_apart(s, w, h, from, c, 0, dst)
                &&& ok ==> match t.with_word(w.src_cur, next) {
                    Some(u) => items_apart(u, w, h, d, k + 1, items, dst),
                    None => true,
                }
            },
            _ => true,
        }
    }
}

/// A descriptor of values is read outside the destination, and so on for its values.
#[verifier::opaque]
pub open spec fn values_apart(
    s: Space,
    w: Walk,
    d: i32,
    items: int,
    dst: spec_fn(int) -> bool,
) -> bool {
    &&& is_apart(s, d, dst)
    &&& is_apart(s, d.wrapping_add(0x14), dst)
    &&& is_apart(s, d.wrapping_add(0x18), dst)
    &&& match (s.word(d), s.word(d.wrapping_add(0x14)), s.word(d.wrapping_add(0x18))) {
        (Some(mode), Some(rows), Some(cols)) => {
            let h = Shape { mode: mode as u32, rows: rows as u32, cols: cols as u32 };
            1 <= h.mode <= 3 && h.rows <= 64 && h.cols <= 64 ==> items_apart(
                s,
                w,
                h,
                Clamp::start(h.rows),
                0,
                items,
                dst,
            )
        },
        _ => true,
    }
}

/// So are the children of a container from the `i`-th on.
#[verifier::opaque]
pub open spec fn children_apart(
    s: Space,
    w: Walk,
    child: spec_fn(Space) -> (Space, Option<i32>),
    apart: spec_fn(Space) -> bool,
    i: int,
    n: int,
) -> bool
    decreases n - i,
{
    if i >= n {
        true
    } else {
        match s.word(w.budget) {
            Some(left) => left == 0 || {
                let (t, r) = child(s);
                &&& apart(s)
                &&& r is Some && r->0 >= 0 ==> children_apart(t, w, child, apart, i + 1, n)
            },
            None => true,
        }
    }
}

/// So are the items of a container from the `k`-th on.
#[verifier::opaque]
pub open spec fn containers_apart(
    s: Space,
    w: Walk,
    d: i32,
    child: spec_fn(Space) -> (Space, Option<i32>),
    apart: spec_fn(Space) -> bool,
    last: i32,
    k: int,
    items: int,
    n: int,
) -> bool
    decreases items - k,
{
    if k >= items {
        true
    } else {
        match (s.word(w.budget), s.with_word(w.desc_cur, d.wrapping_add(0x18))) {
            (Some(left), Some(t)) => left == 0 || {
                let (u, r) = eagl_apply::children_applied(t, w, child, last, 0, n);
                &&& children_apart(t, w, child, apart, 0, n)
                &&& r is Some && r->0 >= 0 ==> containers_apart(
                    u,
                    w,
                    d,
                    child,
                    apart,
                    r->0,
                    k + 1,
                    items,
                    n,
                )
            },
            _ => true,
        }
    }
}

/// So is one level of descriptors.
#[verifier::opaque]
pub open spec fn level_apart(
    s: Space,
    w: Walk,
    child: spec_fn(Space) -> (Space, Option<i32>),
    apart: spec_fn(Space) -> bool,
    dst: spec_fn(int) -> bool,
) -> bool {
    match s.word(w.desc_cur) {
        None => true,
        Some(d) => {
            &&& is_apart(s, d.wrapping_add(4), dst)
            &&& is_apart(s, d.wrapping_add(0x10), dst)
            &&& is_apart(s, d.wrapping_add(0x14), dst)
            &&& match (s.word(d.wrapping_add(4)), s.word(d.wrapping_add(0x10))) {
                (Some(class), Some(word)) => {
                    let items = eagl_apply::item_count(word) as int;
                    &&& items <= 1024 && 0 <= class <= 3 ==> values_apart(s, w, d, items, dst)
                    &&& items <= 1024 && class == 5 ==> match (
                        s.word(d.wrapping_add(0x14)),
                        s.with_word(w.desc_cur, d.wrapping_add(0x18)),
                    ) {
                        (Some(n), Some(t)) => n as u32 > 64 || containers_apart(
                            t,
                            w,
                            d,
                            child,
                            apart,
                            0,
                            0,
                            items,
                            n as u32 as int,
                        ),
                        _ => true,
                    }
                },
                _ => true,
            }
        },
    }
}

/// A dry walk from a state on reads no word of the destination, and every word that it would
/// write can be written and belongs to the destination.
pub open spec fn walk_apart(w: Walk, depth: u32, dst: spec_fn(int) -> bool) -> spec_fn(Space) -> bool
    decreases APPLY_MAX_DEPTH + 1 - depth,
{
    if depth > APPLY_MAX_DEPTH {
        |s: Space| true
    } else {
        let child = eagl_apply::walker(eagl_apply::child_walk(w), (depth + 1) as u32);
        let apart = walk_apart(eagl_apply::child_walk(w), (depth + 1) as u32, dst);
        |s: Space| level_apart(s, w, child, apart, dst)
    }
}

/// Two states differ in the destination only.
pub open spec fn same_outside(s: Space, t: Space, dst: spec_fn(int) -> bool) -> bool {
    &&& virtual_mem::same_pages(s, t)
    &&& forall|p: int| 0 <= p < s.ram.len() && !dst(p) ==> #[trigger] t.ram[p] == s.ram[p]
}

proof fn lemma_reads(s: Space, u: Space, at: i32, dst: spec_fn(int) -> bool)
    requires
        same_outside(s, u, dst),
        is_apart(s, at, dst),
    ensures
        u.word(at) == s.word(at),
{
    reveal(Space::word);
    if s.word(at) is Some {
        assert(eagl_laws::covers(s, at, s.place(at as u32)->0));
        assert(eagl_laws::covers(s, at, s.place(virtual_mem::beyond(at, 1))->0));
        assert(eagl_laws::covers(s, at, s.place(virtual_mem::beyond(at, 2))->0));
        assert(eagl_laws::covers(s, at, s.place(virtual_mem::beyond(at, 3))->0));
    }
}

proof fn lemma_writes(s: Space, u: Space, at: i32, x: i32, dst: spec_fn(int) -> bool)
    requires
        same_outside(s, u, dst),
    ensures
        s.with_word(at, x) is Some <==> u.with_word(at, x) is Some,
        s.with_word(at, x) is Some ==> {
            &&& same_outside(s.with_word(at, x)->0, u.with_word(at, x)->0, dst)
            &&& virtual_mem::same_pages(s, s.with_word(at, x)->0)
        },
{
    reveal(Space::with_word);
}

proof fn lemma_lands(s: Space, u: Space, at: i32, x: i32, dst: spec_fn(int) -> bool)
    requires
        same_outside(s, u, dst),
        lands(s, at, dst),
    ensures
        u.with_word(at, x) is Some,
        same_outside(s, u.with_word(at, x)->0, dst),
{
    reveal(Space::with_word);
    assert(eagl_laws::covers(s, at, s.place(at as u32)->0));
    assert(eagl_laws::covers(s, at, s.place(virtual_mem::beyond(at, 1))->0));
    assert(eagl_laws::covers(s, at, s.place(virtual_mem::beyond(at, 2))->0));
    assert(eagl_laws::covers(s, at, s.place(virtual_mem::beyond(at, 3))->0));
}

proof fn lemma_cursors(s: Space, t: Space, w: Walk, dst: spec_fn(int) -> bool)
    requires
        virtual_mem::same_pages(s, t),
        cursors_apart(s, w, dst),
    ensures
        cursors_apart(t, w, dst),
{
    assert forall|at: i32, p: int| #[trigger] eagl_laws::covers(t, at, p) implies eagl_laws::covers(
        s,
        at,
        p,
    ) by {}
}

proof fn lemma_column(
    s: Space,
    u: Space,
    w: Walk,
    h: Shape,
    from: i32,
    to: i32,
    j: int,
    i: int,
    n: int,
    dst: spec_fn(int) -> bool,
)
    requires
        !w.commit,
        same_outside(s, u, dst),
        column_apart(s, h, from, to, j, n, dst),
        0 <= i,
    ensures
        ({
            let (t, ok) = eagl_apply::column_applied(s, w, h, from, to, j, i, n);
            let (x, done) = eagl_apply::column_applied(u, committing(w), h, from, to, j, i, n);
            &&& t == s
            &&& ok == done
            &&& same_outside(s, x, dst)
        }),
    decreases n - i,
{
    if i < n {
        let at = from.wrapping_add(((j + i * h.cols) * 4) as i32);
        assert(cell_apart(s, h, from, to, j, i, n, dst));
        lemma_reads(s, u, at, dst);
        if s.word(at) is Some {
            let v = eagl_apply::applied(w.family, h.mode, s.word(at)->0);
            let cell = to.wrapping_add((i * 4) as i32);
            lemma_lands(s, u, cell, v, dst);
            lemma_column(s, u.with_word(cell, v)->0, w, h, from, to, j, i + 1, n, dst);
        }
    }
}

proof fn lemma_columns(
    s: Space,
    u: Space,
    w: Walk,
    h: Shape,
    from: i32,
    c: Clamp,
    j: int,
    dst: spec_fn(int) -> bool,
)
    requires
        !w.commit,
        same_outside(s, u, dst),
        cursors_apart(s, w, dst),
        columns_apart(s, w, h, from, c, j, dst),
    ensures
        ({
            let (t, d, ok) = eagl_apply::columns_applied(s, w, h, from, c, j);
            let (x, e, done) = eagl_apply::columns_applied(u, committing(w), h, from, c, j);
            &&& virtual_mem::same_pages(s, t)
            &&& same_outside(t, x, dst)
            &&& d == e
            &&& ok == done
        }),
    decreases h.cols - j,
{
    reveal_with_fuel(columns_apart, 1);
    reveal_with_fuel(eagl_apply::columns_applied, 1);
    lemma_reads(s, u, w.budget, dst);
    lemma_reads(s, u, w.dst_cur, dst);
    if j < h.cols && s.word(w.budget) is Some && s.word(w.dst_cur) is Some {
        let left = s.word(w.budget)->0;
        let to = s.word(w.dst_cur)->0;
        if left != 0 {
            let d = c.under(w.layout, left as u32);
            let n = d.count(w.layout) as int;
            let next = to.wrapping_add(d.stride(w.layout) as i32);
            let spent = ((left as u32 - d.cost(w.layout)) as u32) as i32;
            lemma_column(s, u, w, h, from, to, j, 0, n, dst);
            let x = eagl_apply::column_applied(u, committing(w), h, from, to, j, 0, n).0;
            lemma_writes(s, x, w.dst_cur, next, dst);
            if s.with_word(w.dst_cur, next) is Some {
                let s1 = s.with_word(w.dst_cur, next)->0;
                let x1 = x.with_word(w.dst_cur, next)->0;
                lemma_writes(s1, x1, w.budget, spent, dst);
                if s1.with_word(w.budget, spent) is Some {
                    let s2 = s1.with_word(w.budget, spent)->0;
                    let x2 = x1.with_word(w.budget, spent)->0;
                    lemma_cursors(s, s2, w, dst);
                    if eagl_apply::column_applied(s, w, h, from, to, j, 0, n).1 {
                        lemma_columns(s2, x2, w, h, from, d, j + 1, dst);
                    }
                }
            }
        }
    }
}

proof fn lemma_items(
    s: Space,
    u: Space,
    w: Walk,
    h: Shape,
    c: Clamp,
    k: int,
    items: int,
    dst: spec_fn(int) -> bool,
)
    requires
        !w.commit,
        same_outside(s, u, dst),
        cursors_apart(s, w, dst),
        items_apart(s, w, h, c, k, items, dst),
    ensures
        ({
            let (t, ok) = eagl_apply::items_applied(s, w, h, c, k, items);
            let (x, done) = eagl_apply::items_applied(u, committing(w), h, c, k, items);
            &&& virtual_mem::same_pages(s, t)
            &&& same_outside(t, x, dst)
            &&& ok == done
        }),
    decreases items - k,
{
    reveal_with_fuel(items_apart, 1);
    reveal_with_fuel(eagl_apply::items_applied, 1);
    lemma_reads(s, u, w.budget, dst);
    lemma_reads(s, u, w.src_cur, dst);
    if k < items && s.word(w.budget) is Some && s.word(w.src_cur) is Some {
        let from = s.word(w.src_cur)->0;
        if s.word(w.budget)->0 != 0 {
            let next = from.wrapping_add((h.cols * h.rows * 4) as i32);
            lemma_columns(s, u, w, h, from, c, 0, dst);
            let (t, d, ok) = eagl_apply::columns_applied(s, w, h, from, c, 0);
            let x = eagl_apply::columns_applied(u, committing(w), h, from, c, 0).0;
            lemma_writes(t, x, w.src_cur, next, dst);
            if ok && t.with_word(w.src_cur, next) is Some {
                let t1 = t.with_word(w.src_cur, next)->0;
                lemma_cursors(s, t1, w, dst);
                lemma_items(t1, x.with_word(w.src_cur, next)->0, w, h, d, k + 1, items, dst);
            }
        }
    }
}

proof fn lemma_values(
    s: Space,
    u: Space,
    w: Walk,
    d: i32,
    items: int,
    dst: spec_fn(int) -> bool,
)
    requires
        !w.commit,
        same_outside(s, u, dst),
        cursors_apart(s, w, dst),
        values_apart(s, w, d, items, dst),
    ensures
        ({
            let (t, r) = eagl_apply::values_applied(s, w, d, items);
            let (x, q) = eagl_apply::values_applied(u, committing(w), d, items);
            &&& virtual_mem::same_pages(s, t)
            &&& same_outside(t, x, dst)
            &&& r == q
        }),
{
    reveal(values_apart);
    reveal(eagl_apply::values_applied);
    lemma_reads(s, u, d, dst);
    lemma_reads(s, u, d.wrapping_add(0x14), dst);
    lemma_reads(s, u, d.wrapping_add(0x18), dst);
    let (mode, rows, cols) = (s.word(d), s.word(d.wrapping_add(0x14)), s.word(d.wrapping_add(0x18)));
    if mode is Some && rows is Some && cols is Some {
        let h = Shape {
            mode: (mode->0) as u32,
            rows: (rows->0) as u32,
            cols: (cols->0) as u32,
        };
        let c = Clamp::start(h.rows);
        if 1 <= h.mode <= 3 && h.rows <= 64 && h.cols <= 64 {
            lemma_items(s, u, w, h, c, 0, items, dst);
            lemma_writes(
                eagl_apply::items_applied(s, w, h, c, 0, items).0,
                eagl_apply::items_applied(u, committing(w), h, c, 0, items).0,
                w.desc_cur,
                d.wrapping_add(0x1c),
                dst,
            );
        }
    }
}

/// What one walk does is what the other does outside the destination, from states on which the
/// walk stays apart from the destination.
spec fn is_foretold(
    child: spec_fn(Space) -> (Space, Option<i32>),
    other: spec_fn(Space) -> (Space, Option<i32>),
    apart: spec_fn(Space) -> bool,
    dst: spec_fn(int) -> bool,
    w: Walk,
) -> bool {
    forall|a: Space, b: Space|
        apart(a) && same_outside(a, b, dst) && cursors_apart(a, w, dst) ==> agree(
            a,
            #[trigger] child(a),
            #[trigger] other(b),
            dst,
        )
}

spec fn agree(
    s: Space,
    t: (Space, Option<i32>),
    x: (Space, Option<i32>),
    dst: spec_fn(int) -> bool,
) -> bool {
    &&& virtual_mem::same_pages(s, t.0)
    &&& same_outside(t.0, x.0, dst)
    &&& t.1 == x.1
}

proof fn lemma_children(
    s: Space,
    u: Space,
    w: Walk,
    child: spec_fn(Space) -> (Space, Option<i32>),
    other: spec_fn(Space) -> (Space, Option<i32>),
    apart: spec_fn(Space) -> bool,
    last: i32,
    i: int,
    n: int,
    dst: spec_fn(int) -> bool,
)
    requires
        is_foretold(child, other, apart, dst, w),
        same_outside(s, u, dst),
        cursors_apart(s, w, dst),
        children_apart(s, w, child, apart, i, n),
    ensures
        agree(
            s,
            eagl_apply::children_applied(s, w, child, last, i, n),
            eagl_apply::children_applied(u, committing(w), other, last, i, n),
            dst,
        ),
    decreases n - i,
{
    reveal_with_fuel(children_apart, 1);
    reveal_with_fuel(eagl_apply::children_applied, 1);
    lemma_reads(s, u, w.budget, dst);
    if i < n && s.word(w.budget) is Some && s.word(w.budget)->0 != 0 {
        assert(agree(s, child(s), other(u), dst));
        let (t, r) = child(s);
        if r is Some && r->0 >= 0 {
            lemma_cursors(s, t, w, dst);
            lemma_children(t, other(u).0, w, child, other, apart, r->0, i + 1, n, dst);
        }
    }
}

proof fn lemma_containers(
    s: Space,
    u: Space,
    w: Walk,
    d: i32,
    child: spec_fn(Space) -> (Space, Option<i32>),
    other: spec_fn(Space) -> (Space, Option<i32>),
    apart: spec_fn(Space) -> bool,
    last: i32,
    k: int,
    items: int,
    n: int,
    dst: spec_fn(int) -> bool,
)
    requires
        is_foretold(child, other, apart, dst, w),
        same_outside(s, u, dst),
        cursors_apart(s, w, dst),
        containers_apart(s, w, d, child, apart, last, k, items, n),
    ensures
        agree(
            s,
            eagl_apply::containers_applied(s, w, d, child, last, k, items, n),
            eagl_apply::containers_applied(u, committing(w), d, other, last, k, items, n),
            dst,
        ),
    decreases items - k,
{
    reveal_with_fuel(containers_apart, 1);
    reveal_with_fuel(eagl_apply::containers_applied, 1);
    let first = d.wrapping_add(0x18);
    lemma_reads(s, u, w.budget, dst);
    lemma_writes(s, u, w.desc_cur, first, dst);
    if k < items && s.word(w.budget) is Some && s.word(w.budget)->0 != 0 && s.with_word(
        w.desc_cur,
        first,
    ) is Some {
        let t = s.with_word(w.desc_cur, first)->0;
        let x = u.with_word(w.desc_cur, first)->0;
        lemma_cursors(s, t, w, dst);
        lemma_children(t, x, w, child, other, apart, last, 0, n, dst);
        let (t1, r) = eagl_apply::children_applied(t, w, child, last, 0, n);
        let x1 = eagl_apply::children_applied(x, committing(w), other, last, 0, n).0;
        if r is Some && r->0 >= 0 {
            lemma_cursors(s, t1, w, dst);
            lemma_containers(t1, x1, w, d, child, other, apart, r->0, k + 1, items, n, dst);
        }
    }
}

proof fn lemma_level(
    s: Space,
    u: Space,
    w: Walk,
    child: spec_fn(Space) -> (Space, Option<i32>),
    other: spec_fn(Space) -> (Space, Option<i32>),
    apart: spec_fn(Space) -> bool,
    dst: spec_fn(int) -> bool,
)
    requires
        !w.commit,
        is_foretold(child, other, apart, dst, w),
        same_outside(s, u, dst),
        cursors_apart(s, w, dst),
        level_apart(s, w, child, apart, dst),
    ensures
        agree(
            s,
            eagl_apply::level_walked(s, w, child),
            eagl_apply::level_walked(u, committing(w), other),
            dst,
        ),
{
    reveal(level_apart);
    reveal(eagl_apply::level_walked);
    lemma_reads(s, u, w.desc_cur, dst);
    if s.word(w.desc_cur) is Some {
        let d = s.word(w.desc_cur)->0;
        lemma_reads(s, u, d.wrapping_add(4), dst);
        lemma_reads(s, u, d.wrapping_add(0x10), dst);
        lemma_reads(s, u, d.wrapping_add(0x14), dst);
        let class = s.word(d.wrapping_add(4));
        let word = s.word(d.wrapping_add(0x10));
        let n = s.word(d.wrapping_add(0x14));
        if class is Some && word is Some {
            let items = eagl_apply::item_count(word->0) as int;
            let first = d.wrapping_add(0x18);
            lemma_writes(s, u, w.desc_cur, first, dst);
            if items <= 1024 && 0 <= class->0 <= 3 {
                lemma_values(s, u, w, d, items, dst);
            } else if items <= 1024 && class->0 == 5 && n is Some && s.with_word(
                w.desc_cur,
                first,
            ) is Some {
                let t = s.with_word(w.desc_cur, first)->0;
                let x = u.with_word(w.desc_cur, first)->0;
                let count = ((n->0) as u32) as int;
                if count <= 64 {
                    lemma_cursors(s, t, w, dst);
                    lemma_containers(t, x, w, d, child, other, apart, 0, 0, items, count, dst);
                }
            }
        }
    }
}

proof fn lemma_walk(s: Space, u: Space, w: Walk, depth: u32, dst: spec_fn(int) -> bool)
    requires
        !w.commit,
        same_outside(s, u, dst),
        cursors_apart(s, w, dst),
        walk_apart(w, depth, dst)(s),
    ensures
        agree(
            s,
            eagl_apply::walked(s, w, depth),
            eagl_apply::walked(u, committing(w), depth),
            dst,
        ),
    decreases APPLY_MAX_DEPTH + 1 - depth,
{
    if depth <= APPLY_MAX_DEPTH {
        let inner = eagl_apply::child_walk(w);
        let next = (depth + 1) as u32;
        let child = eagl_apply::walker(inner, next);
        let other = eagl_apply::walker(committing(inner), next);
        let apart = walk_apart(inner, next, dst);
        assert(eagl_apply::child_walk(committing(w)) == committing(inner));
        assert forall|a: Space, b: Space|
            apart(a) && same_outside(a, b, dst) && cursors_apart(a, w, dst) implies agree(
            a,
            #[trigger] child(a),
            #[trigger] other(b),
            dst,
        ) by {
            lemma_walk(a, b, inner, next, dst);
            assert(eagl_apply::walked(a, inner, next) == child(a));
            assert(eagl_apply::walked(b, committing(inner), next) == other(b));
        }
        lemma_level(s, u, w, child, other, apart, dst);
    }
}

/// A dry walk foretells the walk that commits: where the words that the walk would write can be
/// written and lie apart from everything that it reads and from its cursors, both return the
/// same, leave the same in the four cursors and in all memory outside the destination, and the
/// dry walk leaves the destination as it was.
pub proof fn law_a_dry_walk_foretells_the_commit(
    s: Space,
    w: Walk,
    depth: u32,
    dst: spec_fn(int) -> bool,
)
    requires
        !w.commit,
        cursors_apart(s, w, dst),
        walk_apart(w, depth, dst)(s),
    ensures
        ({
            let (t, r) = eagl_apply::walked(s, w, depth);
            let (x, q) = eagl_apply::walked(s, committing(w), depth);
            &&& r == q
            &&& x.word(w.desc_cur) == t.word(w.desc_cur)
            &&& x.word(w.src_cur) == t.word(w.src_cur)
            &&& x.word(w.dst_cur) == t.word(w.dst_cur)
            &&& x.word(w.budget) == t.word(w.budget)
            &&& same_outside(t, x, dst)
            &&& forall|p: int| 0 <= p < s.ram.len() && dst(p) ==> #[trigger] t.ram[p] == s.ram[p]
        }),
{
    lemma_walk(s, s, w, depth, dst);
    let t = eagl_apply::walked(s, w, depth).0;
    let x = eagl_apply::walked(s, committing(w), depth).0;
    lemma_cursors(s, t, w, dst);
    lemma_reads(t, x, w.desc_cur, dst);
    lemma_reads(t, x, w.src_cur, dst);
    lemma_reads(t, x, w.dst_cur, dst);
    lemma_reads(t, x, w.budget, dst);
    assert forall|p: int| 0 <= p < s.ram.len() && dst(p) implies #[trigger] t.ram[p]
        == s.ram[p] by {
        assert(!eagl_laws::in_cursors(s, w, p));
        eagl_laws::law_a_dry_walk_moves_only_its_cursors(s, w, depth, p);
    }
}

} // verus!
