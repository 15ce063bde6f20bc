//! What the walks of descriptors leave as it was.
use vstd::prelude::*;
use crate::eagl_apply;
use crate::eagl_apply::{ApplyFamily, ApplyLayout, Clamp, Shape, Walk, APPLY_MAX_DEPTH};
use crate::eagl_tokens;
use crate::virtual_mem;
use crate::virtual_mem::Space;

verus! {

/// A byte of the word at a virtual address stands at a place.
pub open spec fn covers(s: Space, v: i32, p: int) -> bool {
    ||| s.place(v as u32) == Some(p)
    ||| s.place(virtual_mem::beyond(v, 1)) == Some(p)
    ||| s.place(virtual_mem::beyond(v, 2)) == Some(p)
    ||| s.place(virtual_mem::beyond(v, 3)) == Some(p)
}

/// The place belongs to a cursor of the walk.
pub open spec fn in_cursors(s: Space, w: Walk, p: int) -> bool {
    ||| covers(s, w.desc_cur, p)
    ||| covers(s, w.src_cur, p)
    ||| covers(s, w.dst_cur, p)
    ||| covers(s, w.budget, p)
}

/// A walk can lead from one state to the other: pages stay mapped, and one that does not commit
/// writes no more than its cursors.
pub open spec fn leads(s: Space, w: Walk, t: Space) -> bool {
    &&& virtual_mem::same_pages(s, t)
    &&& !w.commit ==> forall|p: int|
        0 <= p < s.ram.len() && !in_cursors(s, w, p) ==> #[trigger] t.ram[p] == s.ram[p]
}

/// All bytes of the word at a virtual address can be written.
pub open spec fn can_write_word(s: Space, v: i32) -> bool {
    &&& s.can_write(v as u32)
    &&& s.can_write(virtual_mem::beyond(v, 1))
    &&& s.can_write(virtual_mem::beyond(v, 2))
    &&& s.can_write(virtual_mem::beyond(v, 3))
}

proof fn lemma_word_written(s: Space, v: i32, x: i32)
    requires
        s.with_word(v, x) is Some,
    ensures
        virtual_mem::same_pages(s, s.with_word(v, x)->0),
        forall|p: int|
            0 <= p < s.ram.len() && !covers(s, v, p) ==> #[trigger] (s.with_word(v, x)->0).ram[p]
                == s.ram[p],
{
    reveal(Space::with_word);
}

/// The cursors of a walk lie at the same places in both states.
proof fn lemma_same_places(s: Space, t: Space, w: Walk)
    requires
        virtual_mem::same_pages(s, t),
    ensures
        forall|p: int| in_cursors(s, w, p) == #[trigger] in_cursors(t, w, p),
{
}

proof fn lemma_on(s: Space, w: Walk, t: Space, u: Space)
    requires
        leads(s, w, t),
        leads(t, w, u),
    ensures
        leads(s, w, u),
{
    lemma_same_places(s, t, w);
    if !w.commit {
        assert forall|p: int| 0 <= p < s.ram.len() && !in_cursors(s, w, p) implies #[trigger]
        u.ram[p] == s.ram[p] by {
            assert(!in_cursors(t, w, p));
            assert(t.ram[p] == s.ram[p]);
        }
    }
}

/// A cursor is written.
proof fn lemma_cursor(s: Space, w: Walk, at: i32, x: i32)
    requires
        at == w.desc_cur || at == w.src_cur || at == w.dst_cur || at == w.budget,
        s.with_word(at, x) is Some,
    ensures
        leads(s, w, s.with_word(at, x)->0),
{
    lemma_word_written(s, at, x);
}

proof fn lemma_column(s: Space, w: Walk, h: Shape, from: i32, to: i32, j: int, i: int, n: int)
    ensures
        leads(s, w, eagl_apply::column_applied(s, w, h, from, to, j, i, n).0),
    decreases n - i,
{
    if i < n {
        match s.word(from.wrapping_add(((j + i * h.cols) * 4) as i32)) {
            None => {},
            Some(v) => {
                let x = eagl_apply::applied(w.family, h.mode, v);
                let at = to.wrapping_add((i * 4) as i32);
                if !w.commit {
                    lemma_column(s, w, h, from, to, j, i + 1, n);
                } else if s.with_word(at, x) is Some {
                    let t = s.with_word(at, x)->0;
                    lemma_word_written(s, at, x);
                    lemma_column(t, w, h, from, to, j, i + 1, n);
                }
            },
        }
    }
}

proof fn lemma_columns(s: Space, w: Walk, h: Shape, from: i32, c: Clamp, j: int)
    ensures
        leads(s, w, eagl_apply::columns_applied(s, w, h, from, c, j).0),
    decreases h.cols - j,
{
    reveal_with_fuel(eagl_apply::columns_applied, 1);
    if j < h.cols && s.word(w.budget) is Some && s.word(w.dst_cur) is Some {
        let left = s.word(w.budget)->0;
        let to = s.word(w.dst_cur)->0;
        let d = c.under(w.layout, left as u32);
        let n = d.count(w.layout) as int;
        let t = eagl_apply::column_applied(s, w, h, from, to, j, 0, n).0;
        lemma_column(s, w, h, from, to, j, 0, n);
        let next = to.wrapping_add(d.stride(w.layout) as i32);
        if t.with_word(w.dst_cur, next) is Some {
            let u = t.with_word(w.dst_cur, next)->0;
            lemma_cursor(t, w, w.dst_cur, next);
            lemma_on(s, w, t, u);
            let rest = ((left as u32 - d.cost(w.layout)) as u32) as i32;
            if u.with_word(w.budget, rest) is Some {
                let x = u.with_word(w.budget, rest)->0;
                lemma_cursor(u, w, w.budget, rest);
                lemma_on(s, w, u, x);
                lemma_columns(x, w, h, from, d, j + 1);
                lemma_on(s, w, x, eagl_apply::columns_applied(x, w, h, from, d, j + 1).0);
            }
        }
    }
}

proof fn lemma_items(s: Space, w: Walk, h: Shape, c: Clamp, k: int, items: int)
    ensures
        leads(s, w, eagl_apply::items_applied(s, w, h, c, k, items).0),
    decreases items - k,
{
    reveal_with_fuel(eagl_apply::items_applied, 1);
    if k < items && s.word(w.src_cur) is Some {
        let from = s.word(w.src_cur)->0;
        let (t, d, ok) = eagl_apply::columns_applied(s, w, h, from, c, 0);
        lemma_columns(s, w, h, from, c, 0);
        let next = from.wrapping_add((h.cols * h.rows * 4) as i32);
        if t.with_word(w.src_cur, next) is Some {
            let u = t.with_word(w.src_cur, next)->0;
            lemma_cursor(t, w, w.src_cur, next);
            lemma_on(s, w, t, u);
            lemma_items(u, w, h, d, k + 1, items);
            lemma_on(s, w, u, eagl_apply::items_applied(u, w, h, d, k + 1, items).0);
        }
    }
}

proof fn lemma_values(s: Space, w: Walk, d: i32, items: int)
    ensures
        leads(s, w, eagl_apply::values_applied(s, w, d, items).0),
{
    reveal(eagl_apply::values_applied);
    let (mode, rows, cols) = (s.word(d), s.word(d.wrapping_add(0x14)), s.word(d.wrapping_add(0x18)));
    if mode is Some && rows is Some && cols is Some {
        let h = Shape {
            mode: (mode->0) as u32,
            rows: (rows->0) as u32,
            cols: (cols->0) as u32,
        };
        let c = Clamp::start(h.rows);
        let t = eagl_apply::items_applied(s, w, h, c, 0, items).0;
        lemma_items(s, w, h, c, 0, items);
        let next = d.wrapping_add(0x1c);
        if t.with_word(w.desc_cur, next) is Some {
            lemma_cursor(t, w, w.desc_cur, next);
            lemma_on(s, w, t, t.with_word(w.desc_cur, next)->0);
        }
    }
}

/// The walk of a child leads from any state to another.
spec fn is_walk(w: Walk, child: spec_fn(Space) -> (Space, Option<i32>)) -> bool {
    forall|a: Space| leads(a, w, (#[trigger] child(a)).0)
}

proof fn lemma_children(
    s: Space,
    w: Walk,
    child: spec_fn(Space) -> (Space, Option<i32>),
    last: i32,
    i: int,
    n: int,
)
    requires
        is_walk(w, child),
    ensures
        leads(s, w, eagl_apply::children_applied(s, w, child, last, i, n).0),
    decreases n - i,
{
    reveal_with_fuel(eagl_apply::children_applied, 1);
    if i < n && s.word(w.budget) is Some {
        let (t, r) = child(s);
        if r is Some {
            let v = r->0;
            lemma_children(t, w, child, v, i + 1, n);
            lemma_on(s, w, t, eagl_apply::children_applied(t, w, child, v, i + 1, n).0);
        }
    }
}

proof fn lemma_containers(
    s: Space,
    w: Walk,
    d: i32,
    child: spec_fn(Space) -> (Space, Option<i32>),
    last: i32,
    k: int,
    items: int,
    n: int,
)
    requires
        is_walk(w, child),
    ensures
        leads(s, w, eagl_apply::containers_applied(s, w, d, child, last, k, items, n).0),
    decreases items - k,
{
    reveal_with_fuel(eagl_apply::containers_applied, 1);
    let first = d.wrapping_add(0x18);
    if k < items && s.with_word(w.desc_cur, first) is Some {
        let t = s.with_word(w.desc_cur, first)->0;
        lemma_cursor(s, w, w.desc_cur, first);
        let (u, r) = eagl_apply::children_applied(t, w, child, last, 0, n);
        lemma_children(t, w, child, last, 0, n);
        lemma_on(s, w, t, u);
        if r is Some {
            let v = r->0;
            lemma_containers(u, w, d, child, v, k + 1, items, n);
            lemma_on(
                s,
                w,
                u,
                eagl_apply::containers_applied(u, w, d, child, v, k + 1, items, n).0,
            );
        }
    }
}

proof fn lemma_level(s: Space, w: Walk, child: spec_fn(Space) -> (Space, Option<i32>))
    requires
        is_walk(w, child),
    ensures
        leads(s, w, eagl_apply::level_walked(s, w, child).0),
{
    reveal(eagl_apply::level_walked);
    if s.word(w.desc_cur) is Some {
        let d = s.word(w.desc_cur)->0;
        let word = s.word(d.wrapping_add(0x10));
        let n = s.word(d.wrapping_add(0x14));
        if word is Some {
            let items = eagl_apply::item_count(word->0) as int;
            lemma_values(s, w, d, items);
            let first = d.wrapping_add(0x18);
            if n is Some && s.with_word(w.desc_cur, first) is Some {
                let t = s.with_word(w.desc_cur, first)->0;
                let count = ((n->0) as u32) as int;
                lemma_cursor(s, w, w.desc_cur, first);
                lemma_containers(t, w, d, child, 0, 0, items, count);
                lemma_on(
                    s,
                    w,
                    t,
                    eagl_apply::containers_applied(t, w, d, child, 0, 0, items, count).0,
                );
            }
        }
    }
}

proof fn lemma_walk(s: Space, w: Walk, depth: u32)
    ensures
        leads(s, w, eagl_apply::walked(s, w, depth).0),
    decreases APPLY_MAX_DEPTH + 1 - depth,
{
    if depth <= APPLY_MAX_DEPTH {
        let inner = eagl_apply::child_walk(w);
        let next = (depth + 1) as u32;
        let child = eagl_apply::walker(inner, next);
        assert forall|a: Space| leads(a, w, (#[trigger] child(a)).0) by {
            lemma_walk(a, inner, next);
            assert(eagl_apply::walked(a, inner, next) == child(a));
        }
        lemma_level(s, w, child);
    }
}

/// A walk that does not commit writes nothing but its cursors.
pub proof fn law_a_dry_walk_moves_only_its_cursors(s: Space, w: Walk, depth: u32, p: int)
    requires
        !w.commit,
        0 <= p < s.ram.len(),
        !in_cursors(s, w, p),
    ensures
        eagl_apply::walked(s, w, depth).0.ram[p] == s.ram[p],
        eagl_apply::walked(s, w, depth).0.pages == s.pages,
{
    lemma_walk(s, w, depth);
}

/// A byte is what it was at the start.
spec fn is_back(e: Space, s: Space, p: int) -> bool {
    s.ram[p] == e.ram[p]
}

proof fn lemma_put_back(e: Space, s: Space, at: i32)
    requires
        virtual_mem::same_pages(e, s),
        e.word(at) is Some,
        can_write_word(e, at),
    ensures
        ({
            let t = eagl_apply::put_back(s, at, e.word(at)->0);
            &&& virtual_mem::same_pages(e, t)
            &&& forall|p: int|
                0 <= p < e.ram.len() && (covers(e, at, p) || is_back(e, s, p))
                    ==> #[trigger] is_back(e, t, p)
        }),
{
    reveal(Space::word);
    reveal(Space::with_word);
    let x = e.word(at)->0;
    virtual_mem::lemma_bytes_come_back(
        e.byte(at as u32)->0,
        e.byte(virtual_mem::beyond(at, 1))->0,
        e.byte(virtual_mem::beyond(at, 2))->0,
        e.byte(virtual_mem::beyond(at, 3))->0,
    );
}

proof fn lemma_reads_back(e: Space, s: Space, at: i32)
    requires
        virtual_mem::same_pages(e, s),
        e.word(at) is Some,
        forall|p: int| 0 <= p < e.ram.len() && covers(e, at, p) ==> #[trigger] is_back(e, s, p),
    ensures
        s.word(at) == e.word(at),
{
    reveal(Space::word);
    assert(is_back(e, s, e.place(at as u32)->0));
    assert(is_back(e, s, e.place(virtual_mem::beyond(at, 1))->0));
    assert(is_back(e, s, e.place(virtual_mem::beyond(at, 2))->0));
    assert(is_back(e, s, e.place(virtual_mem::beyond(at, 3))->0));
}

/// A call that is left to the guest leaves the four cursors as they were, whether or not they
/// overlap, where they can be written.
pub proof fn law_a_refused_call_restores_the_cursors(
    s: Space,
    family: ApplyFamily,
    layout: ApplyLayout,
    esp: i32,
)
    requires
        eagl_apply::walk_asked(s, family, layout, esp) is Some,
        eagl_apply::apply_called(s, family, layout, esp).1 is None,
        ({
            let w = (eagl_apply::walk_asked(s, family, layout, esp)->0).0;
            &&& can_write_word(s, w.desc_cur)
            &&& can_write_word(s, w.src_cur)
            &&& can_write_word(s, w.dst_cur)
            &&& can_write_word(s, w.budget)
        }),
    ensures
        ({
            let w = (eagl_apply::walk_asked(s, family, layout, esp)->0).0;
            let t = eagl_apply::apply_called(s, family, layout, esp).0;
            &&& t.word(w.desc_cur) == s.word(w.desc_cur)
            &&& t.word(w.src_cur) == s.word(w.src_cur)
            &&& t.word(w.dst_cur) == s.word(w.dst_cur)
            &&& t.word(w.budget) == s.word(w.budget)
        }),
{
    reveal(eagl_apply::walk_asked);
    let (w, v) = eagl_apply::walk_asked(s, family, layout, esp)->0;
    if v[3] as u32 <= 4096 {
        let t0 = eagl_apply::walked(s, w, 0).0;
        lemma_walk(s, w, 0);
        let t1 = eagl_apply::put_back(t0, w.desc_cur, v[0]);
        let t2 = eagl_apply::put_back(t1, w.src_cur, v[1]);
        let t3 = eagl_apply::put_back(t2, w.dst_cur, v[2]);
        let t4 = eagl_apply::put_back(t3, w.budget, v[3]);
        lemma_put_back(s, t0, w.desc_cur);
        lemma_put_back(s, t1, w.src_cur);
        lemma_put_back(s, t2, w.dst_cur);
        lemma_put_back(s, t3, w.budget);
        assert forall|p: int| 0 <= p < s.ram.len() && in_cursors(s, w, p) implies #[trigger]
        is_back(s, t4, p) by {
            assert(covers(s, w.desc_cur, p) ==> is_back(s, t1, p));
            assert(covers(s, w.desc_cur, p) || covers(s, w.src_cur, p) ==> is_back(s, t2, p));
            assert(covers(s, w.desc_cur, p) || covers(s, w.src_cur, p) || covers(s, w.dst_cur, p)
                ==> is_back(s, t3, p));
        }
        lemma_reads_back(s, t4, w.desc_cur);
        lemma_reads_back(s, t4, w.src_cur);
        lemma_reads_back(s, t4, w.dst_cur);
        lemma_reads_back(s, t4, w.budget);
    }
}

/// Where word `i` of a call stands that begins at `at`.
pub open spec fn word_at(at: i32, i: int) -> i32 {
    at.wrapping_add((i * 4) as i32)
}

/// The place belongs to a call of at most five words that begins at `at`.
pub open spec fn in_call(s: Space, at: i32, p: int) -> bool {
    exists|i: int| 0 <= i < 5 && covers(s, #[trigger] word_at(at, i), p)
}

proof fn lemma_call_written(s: Space, at: i32, ws: Seq<i32>, i: int)
    requires
        0 <= i,
        ws.len() <= 5,
    ensures
        ({
            let t = eagl_tokens::words_written(s, at, ws, i).0;
            &&& virtual_mem::same_pages(s, t)
            &&& forall|p: int|
                0 <= p < s.ram.len() && !in_call(s, at, p) ==> #[trigger] t.ram[p] == s.ram[p]
        }),
    decreases ws.len() - i,
{
    if i < ws.len() {
        let v = word_at(at, i);
        if s.with_word(v, ws[i]) is Some {
            let u = s.with_word(v, ws[i])->0;
            lemma_word_written(s, v, ws[i]);
            lemma_call_written(u, at, ws, i + 1);
            assert forall|p: int| 0 <= p < s.ram.len() && !in_call(s, at, p) implies #[trigger]
            eagl_tokens::words_written(s, at, ws, i).0.ram[p] == s.ram[p] by {
                assert(!covers(s, v, p));
                assert(u.ram[p] == s.ram[p]);
                if in_call(u, at, p) {
                    let j = choose|j: int| 0 <= j < 5 && covers(u, #[trigger] word_at(at, j), p);
                    assert(covers(s, word_at(at, j), p));
                }
            }
        }
    }
}

/// A state that is left to the guest is not lost: whatever does not lie under the bytes of a
/// call past the end of the ring holds what it held. The end of the ring and the state's place
/// in the shadow are such words, so the guest does not take for set what never was.
pub proof fn law_a_declined_state_is_not_lost(
    c: Seq<i32>,
    s: Space,
    dev: i32,
    vt: i32,
    class: u32,
    number: i32,
    stage: i32,
    n: i32,
    cell: i32,
)
    requires
        eagl_tokens::simple(c, s, dev, vt, class, number, stage, n).1 is None,
        s.word(cell) is Some,
        s.word(c[eagl_tokens::RING_CTRL as int]) matches Some(head) ==> forall|p: int|
            #![trigger covers(s, cell, p)]
            covers(s, cell, p) ==> !in_call(
                s,
                c[eagl_tokens::RING_BASE as int].wrapping_add(head),
                p,
            ),
    ensures
        eagl_tokens::simple(c, s, dev, vt, class, number, stage, n).0.word(cell) == s.word(cell),
{
    reveal(eagl_tokens::simple);
    let ctrl = s.word(c[eagl_tokens::RING_CTRL as int]);
    match (s.word(n.wrapping_add(0x68)), eagl_tokens::setter(c, class, number, stage)) {
        (Some(v), Some(t)) => match (eagl_tokens::stub(s, vt, t.slot, t.fid), ctrl) {
            (Some(fid), Some(head)) => {
                let call = eagl_tokens::state_call(fid, dev, t, stage, number, v);
                let at = c[eagl_tokens::RING_BASE as int].wrapping_add(head);
                let u = eagl_tokens::words_written(s, at, call, 0).0;
                lemma_call_written(s, at, call, 0);
                assert forall|p: int| 0 <= p < s.ram.len() && covers(s, cell, p) implies #[trigger]
                is_back(s, u, p) by {
                    assert(!in_call(s, at, p));
                    assert(u.ram[p] == s.ram[p]);
                }
                lemma_reads_back(s, u, cell);
            },
            _ => {},
        },
        _ => {},
    }
}

} // verus!
