//! Where the walk of a descriptor takes its values from, and where it puts them.
use vstd::prelude::*;
use crate::codegen_value_laws;
use crate::codegen_value_laws::word_of;
use crate::eagl_apply;
use crate::eagl_apply::{ApplyLayout, Clamp, Shape, Walk};
use crate::eagl_batch_laws;
use crate::eagl_batch_laws::are_apart;
use crate::virtual_mem;
use crate::virtual_mem::Space;

verus! {

/// A walk over the values of one descriptor: where its source and its destination start, what the
/// budget is, and how many items there are.
pub struct Job {
    pub w: Walk,
    pub h: Shape,
    pub src: i32,
    pub dst: i32,
    pub left: u32,
    pub items: int,
}

/// A value: a row and a column of an item.
pub struct Place {
    pub item: int,
    pub column: int,
    pub row: int,
}

impl Job {
    /// The descriptor is small, and the budget lasts for all of it.
    pub open spec fn fits(self) -> bool {
        &&& 1 <= self.h.mode <= 3
        &&& 1 <= self.h.rows <= 64
        &&& 1 <= self.h.cols <= 64
        &&& 1 <= self.items <= 1024
        &&& self.w.commit
        &&& self.items * self.h.cols * self.cost() <= self.left
    }

    /// What a column costs: its registers of four words, or its words.
    pub open spec fn cost(self) -> int {
        match self.w.layout {
            ApplyLayout::Register => (self.h.rows + 3) / 4,
            ApplyLayout::Packed => self.h.rows as int,
        }
    }

    /// How many bytes a column takes.
    pub open spec fn stride(self) -> int {
        match self.w.layout {
            ApplyLayout::Register => 16 * self.cost(),
            ApplyLayout::Packed => 4 * self.cost(),
        }
    }

    pub open spec fn has(self, a: Place) -> bool {
        &&& 0 <= a.item < self.items
        &&& 0 <= a.column < self.h.cols
        &&& 0 <= a.row < self.h.rows
    }

    /// The rows of an item follow each other.
    pub open spec fn source(self, a: Place) -> i32 {
        word_of(self.src + 4 * ((a.item * self.h.rows + a.row) * self.h.cols + a.column))
    }

    /// The columns follow each other, each from its own start.
    pub open spec fn target(self, a: Place) -> i32 {
        word_of(self.dst + self.stride() * (a.item * self.h.cols + a.column) + 4 * a.row)
    }

    /// One of the words that the walk keeps its state in.
    pub open spec fn is_cursor(self, x: i32) -> bool {
        x == self.w.dst_cur || x == self.w.src_cur || x == self.w.budget || x == self.w.desc_cur
    }

    /// What is written is apart from what is read, and from what else is written.
    pub open spec fn is_apart(self, s: Space) -> bool {
        &&& forall|a: Place, b: Place|
            self.has(a) && self.has(b) ==> are_apart(
                s,
                #[trigger] self.target(a),
                #[trigger] self.source(b),
            )
        &&& forall|a: Place, b: Place|
            self.has(a) && self.has(b) && a != b ==> are_apart(
                s,
                #[trigger] self.target(a),
                #[trigger] self.target(b),
            )
        &&& forall|a: Place, x: i32|
            #![trigger self.target(a), self.is_cursor(x)]
            self.has(a) && self.is_cursor(x) ==> are_apart(s, self.target(a), x) && are_apart(
                s,
                x,
                self.target(a),
            )
        &&& forall|a: Place, x: i32|
            #![trigger self.source(a), self.is_cursor(x)]
            self.has(a) && self.is_cursor(x) ==> are_apart(s, x, self.source(a))
        &&& forall|x: i32, y: i32|
            #![trigger self.is_cursor(x), self.is_cursor(y)]
            self.is_cursor(x) && self.is_cursor(y) && x != y ==> are_apart(s, x, y)
        &&& self.w.dst_cur != self.w.src_cur
        &&& self.w.dst_cur != self.w.budget
        &&& self.w.dst_cur != self.w.desc_cur
        &&& self.w.src_cur != self.w.budget
        &&& self.w.src_cur != self.w.desc_cur
        &&& self.w.budget != self.w.desc_cur
    }
}

/// What the walk has kept: nothing that is still read was changed, and the values before one were
/// put in their places.
spec fn keeps(g: Job, s: Space, t: Space, k: int, j: int, i: int) -> bool {
    &&& virtual_mem::same_pages(s, t)
    &&& t.wf()
    &&& forall|a: Place| g.has(a) ==> t.word(#[trigger] g.source(a)) == s.word(g.source(a))
    &&& forall|a: Place|
        g.has(a) && is_before(a, k, j, i) ==> {
            &&& s.word(g.source(a)) is Some
            &&& t.word(#[trigger] g.target(a)) == Some(
                eagl_apply::applied(g.w.family, g.h.mode, s.word(g.source(a))->0),
            )
        }
}

spec fn is_before(a: Place, k: int, j: int, i: int) -> bool {
    a.item < k || (a.item == k && (a.column < j || (a.column == j && a.row < i)))
}

/// The cursors after so many items and so many columns in all.
spec fn stands(g: Job, t: Space, k: int, n: int) -> bool {
    &&& t.word(g.w.src_cur) == Some(word_of(g.src + 4 * (k * g.h.rows * g.h.cols)))
    &&& t.word(g.w.dst_cur) == Some(word_of(g.dst + g.stride() * n))
    &&& t.word(g.w.budget) == Some(((g.left - g.cost() * n) as u32) as i32)
}

proof fn lemma_add(x: int, y: int)
    requires
        0 <= y < 0x1000_0000,
    ensures
        word_of(x).wrapping_add(y as i32) == word_of(x + y),
{
    codegen_value_laws::lemma_word(y as i32);
    codegen_value_laws::lemma_sum(x, y);
}

/// A write to a cursor keeps what was reached, and the other cursors.
proof fn lemma_cursor(g: Job, s: Space, u: Space, x: i32, v: i32, k: int, j: int, i: int)
    requires
        g.is_apart(s),
        g.is_cursor(x),
        keeps(g, s, u, k, j, i),
        u.with_word(x, v) is Some,
    ensures
        ({
            let t = u.with_word(x, v)->0;
            &&& keeps(g, s, t, k, j, i)
            &&& t.word(x) == Some(v)
            &&& forall|y: i32| #[trigger] g.is_cursor(y) && y != x ==> t.word(y) == u.word(y)
        }),
{
    let t = u.with_word(x, v)->0;
    virtual_mem::law_a_written_word_reads_back(u, x, v);
    assert(virtual_mem::same_pages(s, t)) by {
        reveal(Space::with_word);
    }
    assert forall|a: Place| g.has(a) implies t.word(#[trigger] g.source(a)) == s.word(
        g.source(a),
    ) by {
        eagl_batch_laws::lemma_other_word(s, u, x, v, g.source(a));
    }
    assert forall|a: Place| g.has(a) && is_before(a, k, j, i) implies ({
        &&& s.word(g.source(a)) is Some
        &&& t.word(#[trigger] g.target(a)) == Some(
            eagl_apply::applied(g.w.family, g.h.mode, s.word(g.source(a))->0),
        )
    }) by {
        eagl_batch_laws::lemma_other_word(s, u, x, v, g.target(a));
    }
    assert forall|y: i32| #[trigger] g.is_cursor(y) && y != x implies t.word(y) == u.word(y) by {
        eagl_batch_laws::lemma_other_word(s, u, x, v, y);
    }
}

/// A value is put in its place.
proof fn lemma_value(g: Job, s: Space, u: Space, a: Place)
    requires
        g.is_apart(s),
        g.has(a),
        keeps(g, s, u, a.item, a.column, a.row),
        u.word(g.source(a)) is Some,
        u.with_word(
            g.target(a),
            eagl_apply::applied(g.w.family, g.h.mode, u.word(g.source(a))->0),
        ) is Some,
    ensures
        ({
            let t = u.with_word(
                g.target(a),
                eagl_apply::applied(g.w.family, g.h.mode, u.word(g.source(a))->0),
            )->0;
            &&& keeps(g, s, t, a.item, a.column, a.row + 1)
            &&& forall|y: i32| #[trigger] g.is_cursor(y) ==> t.word(y) == u.word(y)
        }),
{
    let v = eagl_apply::applied(g.w.family, g.h.mode, u.word(g.source(a))->0);
    let p = g.target(a);
    let t = u.with_word(p, v)->0;
    virtual_mem::law_a_written_word_reads_back(u, p, v);
    assert(virtual_mem::same_pages(s, t)) by {
        reveal(Space::with_word);
    }
    assert forall|b: Place| g.has(b) implies t.word(#[trigger] g.source(b)) == s.word(
        g.source(b),
    ) by {
        eagl_batch_laws::lemma_other_word(s, u, p, v, g.source(b));
    }
    assert forall|b: Place| g.has(b) && is_before(b, a.item, a.column, a.row + 1) implies ({
        &&& s.word(g.source(b)) is Some
        &&& t.word(#[trigger] g.target(b)) == Some(
            eagl_apply::applied(g.w.family, g.h.mode, s.word(g.source(b))->0),
        )
    }) by {
        assert(u.word(g.source(b)) == s.word(g.source(b)));
        if b != a {
            assert(is_before(b, a.item, a.column, a.row));
            eagl_batch_laws::lemma_other_word(s, u, p, v, g.target(b));
        }
    }
    assert forall|y: i32| #[trigger] g.is_cursor(y) implies t.word(y) == u.word(y) by {
        eagl_batch_laws::lemma_other_word(s, u, p, v, y);
    }
}

proof fn lemma_places(g: Job, k: int, j: int, i: int)
    requires
        g.fits(),
        g.has(Place { item: k, column: j, row: i }),
    ensures
        ({
            let a = Place { item: k, column: j, row: i };
            &&& word_of(g.src + 4 * (k * g.h.rows * g.h.cols)).wrapping_add(
                ((j + i * g.h.cols) * 4) as i32,
            ) == g.source(a)
            &&& word_of(g.dst + g.stride() * (k * g.h.cols + j)).wrapping_add((i * 4) as i32)
                == g.target(a)
        }),
{
    let x = g.src + 4 * (k * g.h.rows * g.h.cols);
    let y = (j + i * g.h.cols) * 4;
    assert(0 <= i * g.h.cols <= 64 * 64) by (nonlinear_arith)
        requires
            0 <= i < 64,
            0 <= g.h.cols <= 64,
    ;
    assert(4 * (k * g.h.rows * g.h.cols) + y == 4 * ((k * g.h.rows + i) * g.h.cols + j))
        by (nonlinear_arith)
        requires
            y == (j + i * g.h.cols) * 4,
    ;
    lemma_add(x, y);
    lemma_add(g.dst + g.stride() * (k * g.h.cols + j), i * 4);
}

#[verifier::spinoff_prover]
proof fn lemma_column(g: Job, s: Space, u: Space, k: int, j: int, i: int)
    requires
        g.fits(),
        g.is_apart(s),
        0 <= k < g.items,
        0 <= j < g.h.cols,
        0 <= i <= g.h.rows,
        keeps(g, s, u, k, j, i),
    ensures
        ({
            let (t, ok) = eagl_apply::column_applied(
                u,
                g.w,
                g.h,
                word_of(g.src + 4 * (k * g.h.rows * g.h.cols)),
                word_of(g.dst + g.stride() * (k * g.h.cols + j)),
                j,
                i,
                g.h.rows as int,
            );
            ok ==> {
                &&& keeps(g, s, t, k, j, g.h.rows as int)
                &&& forall|y: i32| #[trigger] g.is_cursor(y) ==> t.word(y) == u.word(y)
            }
        }),
    decreases g.h.rows - i,
{
    let from = word_of(g.src + 4 * (k * g.h.rows * g.h.cols));
    let to = word_of(g.dst + g.stride() * (k * g.h.cols + j));
    if i < g.h.rows {
        let a = Place { item: k, column: j, row: i };
        lemma_places(g, k, j, i);
        match u.word(from.wrapping_add(((j + i * g.h.cols) * 4) as i32)) {
            None => {},
            Some(v) => match u.with_word(
                to.wrapping_add((i * 4) as i32),
                eagl_apply::applied(g.w.family, g.h.mode, v),
            ) {
                None => {},
                Some(t) => {
                    lemma_value(g, s, u, a);
                    lemma_column(g, s, t, k, j, i + 1);
                },
            },
        }
    }
}

/// The budget lasts for one more column.
proof fn lemma_budget(g: Job, k: int, j: int)
    requires
        g.fits(),
        0 <= k < g.items,
        0 <= j < g.h.cols,
    ensures
        ({
            let n = k * g.h.cols + j;
            let left = (g.left - g.cost() * n) as u32;
            &&& 0 <= n < 65536
            &&& g.cost() * (n + 1) <= g.left
            &&& 1 <= g.cost() <= 64
            &&& left == g.left - g.cost() * n
            &&& g.cost() <= left
            &&& left as i32 != 0
            &&& (left as i32) as u32 == left
            &&& (left - g.cost()) as u32 == (g.left - g.cost() * (n + 1)) as u32
            &&& 0 <= g.stride() <= 256
            &&& g.stride() * n + g.stride() == g.stride() * (n + 1)
        }),
{
    let n = k * g.h.cols + j;
    let c = g.cost();
    assert(0 <= n < g.items * g.h.cols <= 65536) by (nonlinear_arith)
        requires
            n == k * g.h.cols + j,
            0 <= k < g.items,
            g.items <= 1024,
            0 <= j < g.h.cols,
            g.h.cols <= 64,
    ;
    assert(c * (n + 1) <= g.items * g.h.cols * c) by (nonlinear_arith)
        requires
            n + 1 <= g.items * g.h.cols,
            c >= 0,
    ;
    assert(c * (n + 1) == c * n + c) by (nonlinear_arith);
    assert(g.stride() * (n + 1) == g.stride() * n + g.stride()) by (nonlinear_arith);
    assert(c * n >= 0) by (nonlinear_arith)
        requires
            c >= 0,
            n >= 0,
    ;
    codegen_value_laws::lemma_cast((g.left - c * n) as u32);
}

#[verifier::spinoff_prover]
proof fn lemma_columns(g: Job, s: Space, u: Space, k: int, j: int)
    requires
        g.fits(),
        g.is_apart(s),
        0 <= k < g.items,
        0 <= j <= g.h.cols,
        keeps(g, s, u, k, j, 0),
        stands(g, u, k, k * g.h.cols + j),
        u.word(g.w.desc_cur) == s.word(g.w.desc_cur),
    ensures
        ({
            let (t, d, ok) = eagl_apply::columns_applied(
                u,
                g.w,
                g.h,
                word_of(g.src + 4 * (k * g.h.rows * g.h.cols)),
                Clamp::start(g.h.rows),
                j,
            );
            ok ==> {
                &&& d == Clamp::start(g.h.rows)
                &&& keeps(g, s, t, k, g.h.cols as int, 0)
                &&& stands(g, t, k, k * g.h.cols + g.h.cols)
                &&& t.word(g.w.desc_cur) == s.word(g.w.desc_cur)
            }
        }),
    decreases g.h.cols - j,
{
    reveal_with_fuel(eagl_apply::columns_applied, 2);
    if j < g.h.cols {
        let n = k * g.h.cols + j;
        let c = Clamp::start(g.h.rows);
        lemma_budget(g, k, j);
        let left = (g.left - g.cost() * n) as u32;
        assert(c.cost(g.w.layout) == g.cost());
        assert(c.under(g.w.layout, left) == c);
        assert(c.stride(g.w.layout) == g.stride());
        assert(c.count(g.w.layout) == g.h.rows);
        let from = word_of(g.src + 4 * (k * g.h.rows * g.h.cols));
        let to = word_of(g.dst + g.stride() * n);
        assert(g.is_cursor(g.w.dst_cur) && g.is_cursor(g.w.src_cur) && g.is_cursor(g.w.budget)
            && g.is_cursor(g.w.desc_cur));
        lemma_column(g, s, u, k, j, 0);
        let (t, ok) = eagl_apply::column_applied(
            u,
            g.w,
            g.h,
            from,
            to,
            j,
            0,
            g.h.rows as int,
        );
        if ok {
            lemma_add(g.dst + g.stride() * n, g.stride());
            let v = to.wrapping_add(g.stride() as i32);
            assert(keeps(g, s, t, k, j + 1, 0)) by {
                assert forall|a: Place| g.has(a) && is_before(a, k, j + 1, 0) implies is_before(
                    a,
                    k,
                    j,
                    g.h.rows as int,
                ) by {}
            }
            match t.with_word(g.w.dst_cur, v) {
                None => {},
                Some(x) => {
                    lemma_cursor(g, s, t, g.w.dst_cur, v, k, j + 1, 0);
                    let b = ((left - g.cost()) as u32) as i32;
                    match x.with_word(g.w.budget, b) {
                        None => {},
                        Some(y) => {
                            lemma_cursor(g, s, x, g.w.budget, b, k, j + 1, 0);
                            assert(stands(g, y, k, n + 1));
                            lemma_columns(g, s, y, k, j + 1);
                        },
                    }
                },
            }
        }
    }
}

#[verifier::spinoff_prover]
proof fn lemma_items(g: Job, s: Space, u: Space, k: int)
    requires
        g.fits(),
        g.is_apart(s),
        0 <= k <= g.items,
        keeps(g, s, u, k, 0, 0),
        stands(g, u, k, k * g.h.cols),
        u.word(g.w.desc_cur) == s.word(g.w.desc_cur),
    ensures
        ({
            let (t, ok) = eagl_apply::items_applied(
                u,
                g.w,
                g.h,
                Clamp::start(g.h.rows),
                k,
                g.items,
            );
            ok ==> {
                &&& keeps(g, s, t, g.items, 0, 0)
                &&& stands(g, t, g.items, g.items * g.h.cols)
                &&& t.word(g.w.desc_cur) == s.word(g.w.desc_cur)
            }
        }),
    decreases g.items - k,
{
    reveal_with_fuel(eagl_apply::items_applied, 2);
    if k < g.items {
        lemma_budget(g, k, 0);
        let from = word_of(g.src + 4 * (k * g.h.rows * g.h.cols));
        let c = Clamp::start(g.h.rows);
        lemma_columns(g, s, u, k, 0);
        let (t, d, ok) = eagl_apply::columns_applied(u, g.w, g.h, from, c, 0);
        if ok {
            let step = g.h.cols * g.h.rows * 4;
            assert(0 <= step <= 64 * 64 * 4) by (nonlinear_arith)
                requires
                    0 <= g.h.cols <= 64,
                    0 <= g.h.rows <= 64,
                    step == g.h.cols * g.h.rows * 4,
            ;
            lemma_add(g.src + 4 * (k * g.h.rows * g.h.cols), step);
            assert(4 * (k * g.h.rows * g.h.cols) + step == 4 * ((k + 1) * g.h.rows * g.h.cols))
                by (nonlinear_arith)
                requires
                    step == g.h.cols * g.h.rows * 4,
            ;
            assert((k + 1) * g.h.cols == k * g.h.cols + g.h.cols) by (nonlinear_arith);
            let v = from.wrapping_add(step as i32);
            assert(g.is_cursor(g.w.dst_cur) && g.is_cursor(g.w.src_cur) && g.is_cursor(
                g.w.budget,
            ) && g.is_cursor(g.w.desc_cur));
            assert(keeps(g, s, t, k + 1, 0, 0)) by {
                assert forall|a: Place| g.has(a) && is_before(a, k + 1, 0, 0) implies is_before(
                    a,
                    k,
                    g.h.cols as int,
                    0,
                ) by {}
            }
            match t.with_word(g.w.src_cur, v) {
                None => {},
                Some(x) => {
                    lemma_cursor(g, s, t, g.w.src_cur, v, k + 1, 0, 0);
                    lemma_items(g, s, x, k + 1);
                },
            }
        }
    }
}

/// The walk of a descriptor of values, where the budget lasts for all of them: the value in a row
/// and a column of an item, which stand row by row, goes to its place in the column, and columns
/// follow each other, in registers of four words or word by word. Each is converted on the way.
/// The cursors move behind what was read and written, the budget shrinks by what was used, and
/// the descriptor is passed.
pub proof fn law_values_go_to_their_columns(g: Job, s: Space, d: i32, class: i32, count: i32, depth: u32)
    requires
        s.wf(),
        depth <= 8,
        g.fits(),
        g.is_apart(s),
        0 <= class <= 3,
        g.items == (if count == 0 {
            1
        } else {
            count as u32 as int
        }),
        s.word(g.w.desc_cur) == Some(d),
        s.word(g.w.src_cur) == Some(g.src),
        s.word(g.w.dst_cur) == Some(g.dst),
        s.word(g.w.budget) == Some(g.left as i32),
        s.word(d) == Some(g.h.mode as i32),
        s.word(d.wrapping_add(4)) == Some(class),
        s.word(d.wrapping_add(16)) == Some(count),
        s.word(d.wrapping_add(20)) == Some(g.h.rows as i32),
        s.word(d.wrapping_add(24)) == Some(g.h.cols as i32),
    ensures
        ({
            let (t, r) = eagl_apply::walked(s, g.w, depth);
            let columns = g.items * g.h.cols;
            r is Some ==> {
                &&& r == Some(0i32)
                &&& forall|a: Place|
                    g.has(a) ==> {
                        &&& s.word(g.source(a)) is Some
                        &&& t.word(#[trigger] g.target(a)) == Some(
                            eagl_apply::applied(g.w.family, g.h.mode, s.word(g.source(a))->0),
                        )
                    }
                &&& t.word(g.w.src_cur) == Some(
                    word_of(g.src + 4 * (g.items * g.h.rows * g.h.cols)),
                )
                &&& t.word(g.w.dst_cur) == Some(word_of(g.dst + g.stride() * columns))
                &&& t.word(g.w.budget) == Some(((g.left - g.cost() * columns) as u32) as i32)
                &&& t.word(g.w.desc_cur) == Some(word_of(d + 28))
            }
        }),
{
    reveal(eagl_apply::level_walked);
    reveal(eagl_apply::values_applied);
    codegen_value_laws::lemma_cast(g.h.mode);
    codegen_value_laws::lemma_cast(g.h.rows);
    codegen_value_laws::lemma_cast(g.h.cols);
    codegen_value_laws::lemma_word(g.src);
    codegen_value_laws::lemma_word(g.dst);
    codegen_value_laws::lemma_word(d);
    lemma_add(d as int, 28);
    assert(0 * g.h.rows * g.h.cols == 0) by (nonlinear_arith);
    assert(0 * g.h.cols == 0) by (nonlinear_arith);
    assert(g.stride() * 0 == 0 && g.cost() * 0 == 0) by (nonlinear_arith);
    assert(stands(g, s, 0, 0 * g.h.cols));
    assert(keeps(g, s, s, 0, 0, 0));
    lemma_items(g, s, s, 0);
    let (t, ok) = eagl_apply::items_applied(s, g.w, g.h, Clamp::start(g.h.rows), 0, g.items);
    assert(g.is_cursor(g.w.dst_cur) && g.is_cursor(g.w.src_cur) && g.is_cursor(g.w.budget)
        && g.is_cursor(g.w.desc_cur));
    if ok {
        let v = d.wrapping_add(28);
        if t.with_word(g.w.desc_cur, v) is Some {
            lemma_cursor(g, s, t, g.w.desc_cur, v, g.items, 0, 0);
            assert forall|a: Place| g.has(a) implies is_before(a, g.items, 0, 0) by {}
        }
    }
}

} // verus!
