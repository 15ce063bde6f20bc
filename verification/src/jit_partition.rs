//! Each place of the function table is in one hand: it is free, or a function in it holds the
//! code of a page, or a function is being compiled for it, or a unit is staged for it.
use vstd::prelude::*;
use crate::jit_free;
use crate::jit_state;
use crate::jit_state::{Entered, Jit, Slot, WASM_TABLE_SIZE};

verus! {

/// The place can hold a function.
pub open spec fn is_place(x: u16) -> bool {
    1 <= x < WASM_TABLE_SIZE
}

impl Jit {
    /// A function is being compiled, or a unit is staged, for a place.
    pub open spec fn held(self, x: u16) -> bool {
        ||| self.compiling is Some && self.compiling->0.index == x
        ||| self.staged is Some && self.staged->0.index == x
    }

    /// The free places are places, and none is free twice.
    pub open spec fn free_fits(self) -> bool {
        &&& self.free.no_duplicates()
        &&& forall|k: int| 0 <= k < self.free.len() ==> is_place(#[trigger] self.free[k])
    }

    /// No page has its code twice.
    pub open spec fn pages_distinct(self) -> bool {
        forall|i: int, j: int|
            0 <= i < j < self.pages.len() ==> (#[trigger] self.pages[i]).page != (
            #[trigger] self.pages[j]).page
    }

    /// The places of functions that hold code are neither free nor held for another.
    pub open spec fn code_fits(self) -> bool {
        forall|i: int| #![trigger self.pages[i]]
            0 <= i < self.pages.len() ==> {
                let x = self.pages[i].info.index;
                is_place(x) && !self.free.contains(x) && !self.held(x)
            }
    }

    /// A function that held the code of a page before still holds the code of another, or is
    /// about to be given up.
    pub open spec fn hidden_fits(self, stack: Seq<u16>) -> bool {
        forall|i: int, k: int|
            0 <= i < self.pages.len() && 0 <= k < self.pages[i].info.hidden.len() ==> {
                let x = #[trigger] self.pages[i].info.hidden[k];
                is_place(x) && !self.free.contains(x) && !self.held(x) && (jit_state::used(
                    self.pages,
                    x,
                ) || stack.contains(x))
            }
    }

    /// What is compiled and what is staged have places of their own, which are not free.
    pub open spec fn work_fits(self) -> bool {
        &&& self.compiling is Some ==> is_place(self.compiling->0.index) && !self.free.contains(
            self.compiling->0.index,
        )
        &&& self.staged is Some ==> is_place(self.staged->0.index) && !self.free.contains(
            self.staged->0.index,
        )
        &&& self.compiling is Some && self.staged is Some ==> self.compiling->0.index
            != self.staged->0.index
    }

    /// No place is lost.
    pub open spec fn none_lost(self, stack: Seq<u16>) -> bool {
        forall|x: u16|
            is_place(x) ==> self.free.contains(x) || #[trigger] jit_state::used(self.pages, x)
                || self.held(x) || stack.contains(x)
    }

    /// The functions that are about to be given up have places that are not free, but for those
    /// that were given up already.
    pub open spec fn stack_fits(self, stack: Seq<u16>, seen: Seq<u16>) -> bool {
        &&& forall|k: int|
            0 <= k < stack.len() ==> {
                let x = #[trigger] stack[k];
                is_place(x) && (!seen.contains(x) ==> !self.free.contains(x) && !self.held(x))
            }
        &&& forall|k: int| 0 <= k < seen.len() ==> self.free.contains(#[trigger] seen[k])
    }

    /// Every place is in one hand, while functions are given up.
    pub open spec fn partitioned_while(self, stack: Seq<u16>, seen: Seq<u16>) -> bool {
        &&& self.free_fits()
        &&& self.pages_distinct()
        &&& self.code_fits()
        &&& self.hidden_fits(stack)
        &&& self.work_fits()
        &&& self.none_lost(stack)
        &&& self.stack_fits(stack, seen)
    }

    /// Every place is in one hand.
    pub open spec fn partitioned(self) -> bool {
        self.partitioned_while(Seq::empty(), Seq::empty())
    }
}

/// A list without a number holds the others, and only them.
proof fn lemma_without(v: Seq<u16>, x: u16, n: int)
    requires
        0 <= n <= v.len(),
    ensures
        forall|k: int|
            0 <= k < jit_free::without(v, x, n).len() ==> #[trigger] jit_free::without(v, x, n)[k]
                != x && v.contains(jit_free::without(v, x, n)[k]),
    decreases n,
{
    if n > 0 {
        lemma_without(v, x, n - 1);
        let w = jit_free::without(v, x, n);
        let b = jit_free::without(v, x, n - 1);
        assert forall|k: int| 0 <= k < w.len() implies #[trigger] w[k] != x && v.contains(
            w[k],
        ) by {
            if k < b.len() {
                assert(w[k] == b[k]);
            } else {
                assert(w[k] == v[n - 1]);
            }
        }
    }
}

/// Where a page that remains came from.
proof fn lemma_remaining_from(pages: Seq<Slot>, index: u16, n: int, j: int) -> (i: int)
    requires
        0 <= n <= pages.len(),
        0 <= j < jit_free::remaining(pages, index, n).len(),
    ensures
        0 <= i < n,
        i >= j,
        pages[i].info.index != index,
        jit_free::remaining(pages, index, n)[j] == jit_free::stripped(pages[i], index),
        j + 1 < jit_free::remaining(pages, index, n).len() ==> i < n - 1,
    decreases n,
{
    let before = jit_free::remaining(pages, index, n - 1);
    if j < before.len() {
        lemma_remaining_len(pages, index, n - 1);
        lemma_remaining_from(pages, index, n - 1, j)
    } else {
        lemma_remaining_len(pages, index, n - 1);
        n - 1
    }
}

proof fn lemma_remaining_len(pages: Seq<Slot>, index: u16, n: int)
    requires
        0 <= n <= pages.len(),
    ensures
        jit_free::remaining(pages, index, n).len() <= n,
    decreases n,
{
    if n > 0 {
        lemma_remaining_len(pages, index, n - 1);
    }
}

/// A page whose code another function holds remains.
proof fn lemma_remaining_to(pages: Seq<Slot>, index: u16, n: int, i: int) -> (j: int)
    requires
        0 <= i < n <= pages.len(),
        pages[i].info.index != index,
    ensures
        0 <= j < jit_free::remaining(pages, index, n).len(),
        jit_free::remaining(pages, index, n)[j] == jit_free::stripped(pages[i], index),
    decreases n,
{
    if i == n - 1 {
        jit_free::remaining(pages, index, n - 1).len() as int
    } else {
        lemma_remaining_to(pages, index, n - 1, i)
    }
}

/// Pages that remain are distinct.
proof fn lemma_remaining_distinct(pages: Seq<Slot>, index: u16, n: int)
    requires
        0 <= n <= pages.len(),
        forall|i: int, j: int|
            0 <= i < j < pages.len() ==> (#[trigger] pages[i]).page != (#[trigger] pages[j]).page,
    ensures
        forall|i: int, j: int|
            0 <= i < j < jit_free::remaining(pages, index, n).len() ==> (
            #[trigger] jit_free::remaining(pages, index, n)[i]).page != (
            #[trigger] jit_free::remaining(pages, index, n)[j]).page,
    decreases n,
{
    if n > 0 {
        lemma_remaining_distinct(pages, index, n - 1);
        let r = jit_free::remaining(pages, index, n);
        let b = jit_free::remaining(pages, index, n - 1);
        assert forall|i: int, j: int| 0 <= i < j < r.len() implies (#[trigger] r[i]).page != (
        #[trigger] r[j]).page by {
            if j < b.len() {
                assert(r[i] == b[i] && r[j] == b[j]);
            } else {
                let k = lemma_remaining_from(pages, index, n - 1, i);
                assert(r[i] == b[i]);
                assert(r[j].page == pages[n - 1].page);
                assert(pages[k].page != pages[n - 1].page);
            }
        }
    }
}

/// Where a function that is about to be given up came from.
proof fn lemma_hidden_from(pages: Seq<Slot>, index: u16, n: int, k: int) -> (r: (int, int))
    requires
        0 <= n <= pages.len(),
        0 <= k < jit_free::hidden_of(pages, index, n).len(),
    ensures
        0 <= r.0 < n,
        0 <= r.1 < pages[r.0].info.hidden.len(),
        pages[r.0].info.hidden[r.1] == jit_free::hidden_of(pages, index, n)[k],
    decreases n,
{
    let before = jit_free::hidden_of(pages, index, n - 1);
    if k < before.len() {
        lemma_hidden_from(pages, index, n - 1, k)
    } else {
        (n - 1, k - before.len())
    }
}

/// What giving one function up does to the places.
spec fn step_done(j: Jit, a: Jit, index: u16) -> bool {
    let n = j.pages.len() as int;
    &&& a.pages == jit_free::remaining(j.pages, index, n)
    &&& a.free == j.free.push(index)
    &&& a.compiling == j.compiling
    &&& a.staged == j.staged
}

proof fn lemma_step_code(j: Jit, a: Jit, stack: Seq<u16>, seen: Seq<u16>)
    requires
        stack.len() > 0,
        j.partitioned_while(stack, seen),
        !seen.contains(stack.last()),
        step_done(j, a, stack.last()),
    ensures
        a.free_fits(),
        a.pages_distinct(),
        a.code_fits(),
        a.work_fits(),
{
    let index = stack.last();
    let n = j.pages.len() as int;
    assert(!j.free.contains(index));
    assert forall|x: int, y: int| 0 <= x < a.free.len() && 0 <= y < a.free.len() && x != y implies a.free[x]
        != a.free[y] by {
        if x < j.free.len() {
            assert(j.free.contains(j.free[x]));
        }
        if y < j.free.len() {
            assert(j.free.contains(j.free[y]));
        }
    }
    assert forall|k: int| 0 <= k < a.free.len() implies is_place(#[trigger] a.free[k]) by {
        if k < j.free.len() {
            assert(a.free[k] == j.free[k]);
        }
    }
    lemma_remaining_distinct(j.pages, index, n);
    assert forall|x: u16| a.free.contains(x) implies j.free.contains(x) || x == index by {
        let k = choose|k: int| 0 <= k < a.free.len() && a.free[k] == x;
        if k < j.free.len() {
            assert(j.free[k] == x);
        }
    }
    assert forall|i: int| #![trigger a.pages[i]] 0 <= i < a.pages.len() implies ({
        let x = a.pages[i].info.index;
        is_place(x) && !a.free.contains(x) && !a.held(x)
    }) by {
        let k = lemma_remaining_from(j.pages, index, n, i);
        assert(j.pages[k].info.index == a.pages[i].info.index);
    }
}

proof fn lemma_step_hidden(j: Jit, a: Jit, stack: Seq<u16>, seen: Seq<u16>)
    requires
        stack.len() > 0,
        j.partitioned_while(stack, seen),
        !seen.contains(stack.last()),
        step_done(j, a, stack.last()),
    ensures
        ({
            let index = stack.last();
            let more = jit_free::hidden_of(j.pages, index, j.pages.len() as int);
            let next = stack.drop_last() + more;
            a.hidden_fits(next) && a.none_lost(next) && a.stack_fits(next, seen.push(index))
        }),
{
    let index = stack.last();
    let n = j.pages.len() as int;
    let more = jit_free::hidden_of(j.pages, index, n);
    let rest = stack.drop_last();
    let next = rest + more;
    assert forall|x: u16| a.free.contains(x) implies j.free.contains(x) || x == index by {
        let k = choose|k: int| 0 <= k < a.free.len() && a.free[k] == x;
        if k < j.free.len() {
            assert(j.free[k] == x);
        }
    }
    assert forall|x: u16| j.free.contains(x) || x == index implies a.free.contains(x) by {
        if x == index {
            assert(a.free[j.free.len() as int] == x);
        } else {
            let k = choose|k: int| 0 <= k < j.free.len() && j.free[k] == x;
            assert(a.free[k] == x);
        }
    }
    assert forall|x: u16| x != index && stack.contains(x) implies next.contains(x) by {
        let k = choose|k: int| 0 <= k < stack.len() && stack[k] == x;
        assert(next[k] == x);
    }
    assert forall|x: u16| x != index && jit_state::used(j.pages, x) implies jit_state::used(
        a.pages,
        x,
    ) by {
        let i = choose|i: int| 0 <= i < n && (#[trigger] j.pages[i]).info.index == x;
        let k = lemma_remaining_to(j.pages, index, n, i);
        assert(a.pages[k].info.index == x);
    }
    assert forall|i: int, k: int|
        0 <= i < a.pages.len() && 0 <= k < a.pages[i].info.hidden.len() implies ({
        let x = #[trigger] a.pages[i].info.hidden[k];
        is_place(x) && !a.free.contains(x) && !a.held(x) && (jit_state::used(a.pages, x)
            || next.contains(x))
    }) by {
        let b = lemma_remaining_from(j.pages, index, n, i);
        let h = j.pages[b].info.hidden;
        lemma_without(h, index, h.len() as int);
        let x = a.pages[i].info.hidden[k];
        assert(x == jit_free::without(h, index, h.len() as int)[k]);
        let m = choose|m: int| 0 <= m < h.len() && h[m] == x;
        assert(j.pages[b].info.hidden[m] == x);
    }
    assert forall|x: u16| is_place(x) implies a.free.contains(x) || #[trigger] jit_state::used(
        a.pages,
        x,
    ) || a.held(x) || next.contains(x) by {
        assert(j.free.contains(x) || jit_state::used(j.pages, x) || j.held(x) || stack.contains(x));
    }
    let after = seen.push(index);
    assert forall|x: u16| seen.contains(x) || x == index implies after.contains(x) by {
        if x == index {
            assert(after[seen.len() as int] == x);
        } else {
            let k = choose|k: int| 0 <= k < seen.len() && seen[k] == x;
            assert(after[k] == x);
        }
    }
    assert forall|k: int| 0 <= k < next.len() implies ({
        let x = #[trigger] next[k];
        is_place(x) && (!after.contains(x) ==> !a.free.contains(x) && !a.held(x))
    }) by {
        if k < rest.len() {
            assert(next[k] == stack[k]);
        } else {
            let (i, m) = lemma_hidden_from(j.pages, index, n, k - rest.len());
            assert(next[k] == more[k - rest.len()]);
            assert(j.pages[i].info.hidden[m] == next[k]);
        }
    }
    assert forall|k: int| 0 <= k < after.len() implies a.free.contains(#[trigger] after[k]) by {
        if k < seen.len() {
            assert(after[k] == seen[k]);
        }
    }
}

/// Giving one function up leaves every place in one hand, or about to be given up.
pub proof fn lemma_step(j: Jit, a: Jit, stack: Seq<u16>, seen: Seq<u16>)
    requires
        stack.len() > 0,
        j.partitioned_while(stack, seen),
        !seen.contains(stack.last()),
        a.pages == jit_free::remaining(j.pages, stack.last(), j.pages.len() as int),
        a.free == j.free.push(stack.last()),
        a.compiling == j.compiling,
        a.staged == j.staged,
    ensures
        a.partitioned_while(
            stack.drop_last() + jit_free::hidden_of(
                j.pages,
                stack.last(),
                j.pages.len() as int,
            ),
            seen.push(stack.last()),
        ),
{
    lemma_step_code(j, a, stack, seen);
    lemma_step_hidden(j, a, stack, seen);
}

proof fn lemma_skip(j: Jit, stack: Seq<u16>, seen: Seq<u16>)
    requires
        stack.len() > 0,
        j.partitioned_while(stack, seen),
        seen.contains(stack.last()),
    ensures
        j.partitioned_while(stack.drop_last(), seen),
{
    let index = stack.last();
    let rest = stack.drop_last();
    assert(j.free.contains(index)) by {
        let k = choose|k: int| 0 <= k < seen.len() && seen[k] == index;
        assert(j.free.contains(seen[k]));
    }
    assert forall|x: u16| x != index && stack.contains(x) implies rest.contains(x) by {
        let k = choose|k: int| 0 <= k < stack.len() && stack[k] == x;
        assert(rest[k] == x);
    }
    assert forall|k: int| 0 <= k < rest.len() implies ({
        let x = #[trigger] rest[k];
        is_place(x) && (!seen.contains(x) ==> !j.free.contains(x) && !j.held(x))
    }) by {
        assert(rest[k] == stack[k]);
    }
    assert forall|i: int, k: int|
        0 <= i < j.pages.len() && 0 <= k < j.pages[i].info.hidden.len() implies ({
        let x = #[trigger] j.pages[i].info.hidden[k];
        is_place(x) && !j.free.contains(x) && !j.held(x) && (jit_state::used(j.pages, x)
            || rest.contains(x))
    }) by {}
    assert forall|x: u16| is_place(x) implies j.free.contains(x) || #[trigger] jit_state::used(
        j.pages,
        x,
    ) || j.held(x) || rest.contains(x) by {}
}

/// While functions are given up, every place stays in one hand, and no place becomes free twice.
pub proof fn lemma_forest_keeps_partition(j: Jit, stack: Seq<u16>, seen: Seq<u16>)
    requires
        j.partitioned_while(stack, seen),
    ensures
        j.forest_freed(stack, seen).partitioned(),
        j.forest_freed(stack, seen).run.counts.double_free_skipped
            == j.run.counts.double_free_skipped,
    decreases jit_free::hidden_total(j.pages, j.pages.len() as int) + stack.len(),
{
    if stack.len() == 0 {
        assert(stack =~= Seq::empty());
        assert(j.stack_fits(Seq::empty(), Seq::empty()));
    } else {
        let index = stack.last();
        let rest = stack.drop_last();
        if seen.contains(index) {
            lemma_skip(j, stack, seen);
            lemma_forest_keeps_partition(j, rest, seen);
        } else {
            let (a, more) = j.module_freed(index);
            reveal(Jit::module_freed);
            reveal(Jit::index_freed);
            jit_free::lemma_total_shrinks(j.pages, index, j.pages.len() as int);
            assert(!j.free.contains(index));
            jit_free::lemma_audit_keeps(
                j.run,
                a.dispatch.meta,
                a.tlb,
                index,
                crate::dispatch::DISPATCH_PAGES as int,
            );
            lemma_step(j, a, stack, seen);
            lemma_forest_keeps_partition(a, rest + more, seen.push(index));
        }
    }
}

/// The place of a page is that of the first slot that names it.
pub proof fn lemma_place(pages: Seq<Slot>, page: u32, i: int)
    requires
        0 <= i <= pages.len(),
    ensures
        i <= jit_state::place_of(pages, page, i) <= pages.len(),
        jit_state::place_of(pages, page, i) < pages.len() ==> pages[jit_state::place_of(
            pages,
            page,
            i,
        )].page == page,
        forall|k: int|
            i <= k < jit_state::place_of(pages, page, i) ==> (#[trigger] pages[k]).page != page,
    decreases pages.len() - i,
{
    if i < pages.len() && pages[i].page != page {
        lemma_place(pages, page, i + 1);
    }
}

/// The place of an entered page is that of the first that names it.
pub proof fn lemma_entered_place(pages: Seq<Entered>, page: u32, i: int)
    requires
        0 <= i <= pages.len(),
    ensures
        i <= jit_state::entered_at(pages, page, i) <= pages.len(),
        jit_state::entered_at(pages, page, i) < pages.len() ==> pages[jit_state::entered_at(
            pages,
            page,
            i,
        )].page == page,
        forall|k: int|
            i <= k < jit_state::entered_at(pages, page, i) ==> (#[trigger] pages[k]).page != page,
    decreases pages.len() - i,
{
    if i < pages.len() && pages[i].page != page {
        lemma_entered_place(pages, page, i + 1);
    }
}

/// A page has code.
pub open spec fn names_page(pages: Seq<Slot>, page: u32) -> bool {
    exists|i: int| 0 <= i < pages.len() && (#[trigger] pages[i]).page == page
}

/// Giving functions up gives no page code.
proof fn lemma_forest_adds_no_page(j: Jit, stack: Seq<u16>, seen: Seq<u16>, page: u32)
    ensures
        names_page(j.forest_freed(stack, seen).pages, page) ==> names_page(j.pages, page),
    decreases jit_free::hidden_total(j.pages, j.pages.len() as int) + stack.len(),
{
    if stack.len() > 0 {
        let index = stack.last();
        let rest = stack.drop_last();
        if seen.contains(index) {
            lemma_forest_adds_no_page(j, rest, seen, page);
        } else {
            let (a, more) = j.module_freed(index);
            reveal(Jit::module_freed);
            reveal(Jit::index_freed);
            let n = j.pages.len() as int;
            jit_free::lemma_total_shrinks(j.pages, index, n);
            lemma_forest_adds_no_page(a, rest + more, seen.push(index), page);
            if names_page(a.pages, page) {
                let k = choose|k: int| 0 <= k < a.pages.len() && (#[trigger] a.pages[k]).page
                    == page;
                let i = lemma_remaining_from(j.pages, index, n, k);
                assert(j.pages[i].page == page);
            }
        }
    }
}

/// A page that loses its code leaves every place in one hand, or about to be given up.
proof fn lemma_page_out(j: Jit, k: int)
    requires
        j.partitioned(),
        0 <= k < j.pages.len(),
    ensures
        ({
            let info = j.pages[k].info;
            (Jit { pages: j.pages.remove(k), ..j }).partitioned_while(
                info.hidden.push(info.index),
                Seq::empty(),
            )
        }),
{
    let info = j.pages[k].info;
    let a = Jit { pages: j.pages.remove(k), ..j };
    let stack = info.hidden.push(info.index);
    let old_at = |i: int| if i < k { i } else { i + 1 };
    assert forall|i: int| 0 <= i < a.pages.len() implies #[trigger] a.pages[i] == j.pages[old_at(
        i,
    )] by {}
    assert(stack[info.hidden.len() as int] == info.index);
    assert(j.pages[k].info.index == info.index);
    assert forall|x: u16| x != info.index && jit_state::used(j.pages, x) implies jit_state::used(
        a.pages,
        x,
    ) by {
        let i = choose|i: int| 0 <= i < j.pages.len() && (#[trigger] j.pages[i]).info.index == x;
        let b = if i < k {
            i
        } else {
            i - 1
        };
        assert(a.pages[b] == j.pages[i]);
    }
    assert(a.pages_distinct()) by {
        assert forall|x: int, y: int| 0 <= x < y < a.pages.len() implies (
        #[trigger] a.pages[x]).page != (#[trigger] a.pages[y]).page by {
            assert(a.pages[x] == j.pages[old_at(x)] && a.pages[y] == j.pages[old_at(y)]);
        }
    }
    assert(a.code_fits()) by {
        assert forall|i: int| #![trigger a.pages[i]] 0 <= i < a.pages.len() implies ({
            let x = a.pages[i].info.index;
            is_place(x) && !a.free.contains(x) && !a.held(x)
        }) by {
            assert(a.pages[i] == j.pages[old_at(i)]);
        }
    }
    assert(a.hidden_fits(stack)) by {
        assert forall|i: int, m: int|
            0 <= i < a.pages.len() && 0 <= m < a.pages[i].info.hidden.len() implies ({
            let x = #[trigger] a.pages[i].info.hidden[m];
            is_place(x) && !a.free.contains(x) && !a.held(x) && (jit_state::used(a.pages, x)
                || stack.contains(x))
        }) by {
            assert(a.pages[i] == j.pages[old_at(i)]);
            let x = j.pages[old_at(i)].info.hidden[m];
            assert(jit_state::used(j.pages, x));
        }
    }
    assert(a.none_lost(stack)) by {
        assert forall|x: u16| is_place(x) implies a.free.contains(x) || #[trigger] jit_state::used(
            a.pages,
            x,
        ) || a.held(x) || stack.contains(x) by {
            assert(j.free.contains(x) || jit_state::used(j.pages, x) || j.held(x));
        }
    }
    assert(a.stack_fits(stack, Seq::empty())) by {
        assert forall|m: int| 0 <= m < stack.len() implies ({
            let x = #[trigger] stack[m];
            is_place(x) && !a.free.contains(x) && !a.held(x)
        }) by {
            if m < info.hidden.len() {
                assert(stack[m] == j.pages[k].info.hidden[m]);
            }
        }
    }
}

/// A write to a page leaves every place of the function table in one hand, and makes none free
/// twice.
pub proof fn law_a_write_keeps_the_places(j: Jit, page: u32)
    requires
        j.partitioned(),
    ensures
        j.dirtied(page).partitioned(),
        j.dirtied(page).run.counts.double_free_skipped == j.run.counts.double_free_skipped,
{
    reveal(Jit::dirtied);
    let k = jit_state::place_of(j.pages, page, 0);
    lemma_place(j.pages, page, 0);
    if k < j.pages.len() {
        let info = j.pages[k].info;
        let a = Jit { pages: j.pages.remove(k), ..j };
        lemma_page_out(j, k);
        lemma_forest_keeps_partition(a, info.hidden.push(info.index), Seq::empty());
        jit_free::lemma_forest_keeps(a, info.hidden.push(info.index), Seq::empty());
        let b = a.forest_freed(info.hidden.push(info.index), Seq::empty());
        lemma_same_places(b, j.dirtied(page));
    } else {
        lemma_same_places(j, j.dirtied(page));
    }
}

/// Only the places count.
pub proof fn lemma_same_places(a: Jit, b: Jit)
    requires
        a.partitioned(),
        b.free == a.free,
        b.pages == a.pages,
        b.staged == a.staged,
        b.compiling is Some <==> a.compiling is Some,
        b.compiling is Some ==> b.compiling->0.index == a.compiling->0.index,
    ensures
        b.partitioned(),
{
    assert forall|x: u16| b.held(x) == a.held(x) by {}
    assert(b.code_fits()) by {
        assert forall|i: int| #![trigger b.pages[i]] 0 <= i < b.pages.len() implies ({
            let x = b.pages[i].info.index;
            is_place(x) && !b.free.contains(x) && !b.held(x)
        }) by {
            assert(a.pages[i] == b.pages[i]);
        }
    }
    assert(b.hidden_fits(Seq::empty())) by {
        assert forall|i: int, k: int|
            0 <= i < b.pages.len() && 0 <= k < b.pages[i].info.hidden.len() implies ({
            let x = #[trigger] b.pages[i].info.hidden[k];
            is_place(x) && !b.free.contains(x) && !b.held(x) && (jit_state::used(b.pages, x)
                || Seq::<u16>::empty().contains(x))
        }) by {
            assert(a.pages[i].info.hidden[k] == b.pages[i].info.hidden[k]);
        }
    }
    assert(b.none_lost(Seq::empty())) by {
        assert forall|x: u16| is_place(x) implies b.free.contains(x) || #[trigger] jit_state::used(
            b.pages,
            x,
        ) || b.held(x) || Seq::<u16>::empty().contains(x) by {
            assert(jit_state::used(a.pages, x) == jit_state::used(b.pages, x));
        }
    }
}

impl Jit {
    /// No page is entered twice.
    pub open spec fn entered_distinct(self) -> bool {
        forall|i: int, j: int|
            0 <= i < j < self.entered.len() ==> (#[trigger] self.entered[i]).page != (
            #[trigger] self.entered[j]).page
    }
}

/// A page that was written has no code, and has not been entered since.
pub proof fn law_a_written_page_has_no_code(j: Jit, page: u32)
    requires
        j.pages_distinct(),
        j.entered_distinct(),
    ensures
        !j.dirtied(page).has_code(page),
{
    reveal(Jit::dirtied);
    let d = j.dirtied(page);
    let k = jit_state::place_of(j.pages, page, 0);
    let e = jit_state::entered_at(j.entered, page, 0);
    lemma_place(j.pages, page, 0);
    lemma_entered_place(j.entered, page, 0);
    lemma_place(d.pages, page, 0);
    lemma_entered_place(d.entered, page, 0);
    if k < j.pages.len() {
        let info = j.pages[k].info;
        let a = Jit { pages: j.pages.remove(k), ..j };
        let stack = info.hidden.push(info.index);
        jit_free::lemma_forest_keeps(a, stack, Seq::empty());
        lemma_forest_adds_no_page(a, stack, Seq::empty(), page);
        if names_page(a.pages, page) {
            let i = choose|i: int| 0 <= i < a.pages.len() && (#[trigger] a.pages[i]).page == page;
            let b = if i < k {
                i
            } else {
                i + 1
            };
            assert(a.pages[i] == j.pages[b]);
            assert(j.pages[k].page == page && j.pages[b].page == page);
        }
        assert(!names_page(a.pages, page));
    }
    if e < j.entered.len() {
        let after = j.entered.remove(e);
        assert forall|i: int| 0 <= i < after.len() implies (#[trigger] after[i]).page != page by {
            let b = if i < e {
                i
            } else {
                i + 1
            };
            assert(after[i] == j.entered[b]);
            assert(j.entered[e].page == page);
        }
        assert(d.entered == after);
    }
}

/// Writing to a page keeps pages distinct, and gives none code.
proof fn lemma_dirtied_adds_nothing(j: Jit, page: u32)
    requires
        j.partitioned(),
        j.entered_distinct(),
    ensures
        j.dirtied(page).partitioned(),
        j.dirtied(page).entered_distinct(),
        forall|p: u32| #[trigger] j.dirtied(page).has_code(p) ==> j.has_code(p) && p != page,
{
    law_a_write_keeps_the_places(j, page);
    law_a_written_page_has_no_code(j, page);
    let d = j.dirtied(page);
    assert forall|p: u32| #[trigger] d.has_code(p) implies j.has_code(p) && p != page by {
        reveal(Jit::dirtied);
        let k = jit_state::place_of(j.pages, page, 0);
        let e = jit_state::entered_at(j.entered, page, 0);
        lemma_place(j.pages, page, 0);
        lemma_place(j.pages, p, 0);
        lemma_place(d.pages, p, 0);
        lemma_entered_place(j.entered, page, 0);
        lemma_entered_place(j.entered, p, 0);
        lemma_entered_place(d.entered, p, 0);
        if k < j.pages.len() {
            let info = j.pages[k].info;
            let a = Jit { pages: j.pages.remove(k), ..j };
            let stack = info.hidden.push(info.index);
            jit_free::lemma_forest_keeps(a, stack, Seq::empty());
            lemma_forest_adds_no_page(a, stack, Seq::empty(), p);
            if names_page(a.pages, p) {
                let i = choose|i: int| 0 <= i < a.pages.len() && (#[trigger] a.pages[i]).page == p;
                let b = if i < k {
                    i
                } else {
                    i + 1
                };
                assert(a.pages[i] == j.pages[b]);
            }
        }
        if jit_state::entered_at(d.entered, p, 0) < d.entered.len() && e < j.entered.len() {
            let i = jit_state::entered_at(d.entered, p, 0);
            let b = if i < e {
                i
            } else {
                i + 1
            };
            assert(d.entered[i] == j.entered[b]);
        }
    }
    assert(d.entered_distinct()) by {
        reveal(Jit::dirtied);
        let k = jit_state::place_of(j.pages, page, 0);
        let e = jit_state::entered_at(j.entered, page, 0);
        lemma_place(j.pages, page, 0);
        lemma_entered_place(j.entered, page, 0);
        if k < j.pages.len() {
            let info = j.pages[k].info;
            jit_free::lemma_forest_keeps(
                Jit { pages: j.pages.remove(k), ..j },
                info.hidden.push(info.index),
                Seq::empty(),
            );
        }
        if e < j.entered.len() {
            assert forall|x: int, y: int| 0 <= x < y < d.entered.len() implies (
            #[trigger] d.entered[x]).page != (#[trigger] d.entered[y]).page by {
                let x2 = if x < e {
                    x
                } else {
                    x + 1
                };
                let y2 = if y < e {
                    y
                } else {
                    y + 1
                };
                assert(d.entered[x] == j.entered[x2] && d.entered[y] == j.entered[y2]);
            }
        }
    }
}

proof fn lemma_all_dirtied(j: Jit, pages: Seq<u32>, n: int)
    requires
        j.partitioned(),
        j.entered_distinct(),
        0 <= n <= pages.len(),
    ensures
        j.all_dirtied(pages, n).partitioned(),
        j.all_dirtied(pages, n).entered_distinct(),
        forall|p: u32|
            #![trigger j.all_dirtied(pages, n).has_code(p)]
            j.all_dirtied(pages, n).has_code(p) ==> j.has_code(p) && !pages.take(n).contains(p),
    decreases n,
{
    if n > 0 {
        lemma_all_dirtied(j, pages, n - 1);
        let b = j.all_dirtied(pages, n - 1);
        lemma_dirtied_adds_nothing(b, pages[n - 1]);
        assert forall|p: u32|
            #![trigger j.all_dirtied(pages, n).has_code(p)]
            j.all_dirtied(pages, n).has_code(p) implies j.has_code(p) && !pages.take(n).contains(
            p,
        ) by {
            assert(b.dirtied(pages[n - 1]).has_code(p));
            assert(b.has_code(p));
            if pages.take(n).contains(p) {
                let k = choose|k: int| 0 <= k < n && pages.take(n)[k] == p;
                if k < n - 1 {
                    assert(pages.take(n - 1)[k] == p);
                }
            }
        }
    }
}

/// After a write to a range of addresses no page of it has code, and every place of the function
/// table is in one hand.
pub proof fn law_a_written_range_has_no_code(j: Jit, start_addr: u32, end_addr: u32, page: u32)
    requires
        j.partitioned(),
        j.entered_distinct(),
        start_addr < end_addr,
        start_addr / 0x1000 <= page <= (end_addr - 1) / 0x1000,
    ensures
        ({
            let t = jit_free::touched(start_addr, end_addr);
            let d = j.all_dirtied(t, t.len() as int);
            d.partitioned() && !d.has_code(page)
        }),
{
    let t = jit_free::touched(start_addr, end_addr);
    lemma_all_dirtied(j, t, t.len() as int);
    let k = page - start_addr / 0x1000;
    assert(t.take(t.len() as int)[k] == page);
}

proof fn lemma_coded(j: Jit, n: int, p: u32)
    requires
        0 <= n <= j.pages.len(),
        (exists|i: int| 0 <= i < n && (#[trigger] j.pages[i]).page == p) || exists|i: int|
            0 <= i < j.entered.len() && (#[trigger] j.entered[i]).page == p,
    ensures
        jit_free::coded_pages(j.entered, j.pages, n).contains(p),
    decreases n,
{
    let all = jit_free::coded_pages(j.entered, j.pages, n);
    if exists|i: int| 0 <= i < n - 1 && (#[trigger] j.pages[i]).page == p {
        lemma_coded(j, n - 1, p);
        let before = jit_free::coded_pages(j.entered, j.pages, n - 1);
        let k = choose|k: int| 0 <= k < before.len() && before[k] == p;
        assert(all[k] == p);
    } else if n > 0 && j.pages[n - 1].page == p {
        let before = jit_free::coded_pages(j.entered, j.pages, n - 1);
        if !before.contains(p) {
            assert(all[before.len() as int] == p);
        }
    } else {
        let i = choose|i: int| 0 <= i < j.entered.len() && (#[trigger] j.entered[i]).page == p;
        if n > 0 {
            lemma_coded(j, n - 1, p);
            let before = jit_free::coded_pages(j.entered, j.pages, n - 1);
            let k = choose|k: int| 0 <= k < before.len() && before[k] == p;
            assert(all[k] == p);
        } else {
            assert(all[i] == p);
        }
    }
}

/// Once all code is given up, no page has code, and a place is free unless something is in work
/// for it.
pub proof fn law_a_cleared_cache_is_empty(j: Jit)
    requires
        j.partitioned(),
        j.entered_distinct(),
    ensures
        j.cache_cleared().pages.len() == 0,
        j.cache_cleared().entered.len() == 0,
        j.cache_cleared().partitioned(),
        forall|x: u16|
            is_place(x) && !j.cache_cleared().held(x) ==> #[trigger] j.cache_cleared().free.contains(
                x,
            ),
{
    let n = j.pages.len() as int;
    let all = jit_free::coded_pages(j.entered, j.pages, n);
    let c = j.cache_cleared();
    lemma_all_dirtied(j, all, all.len() as int);
    assert(all.take(all.len() as int) =~= all);
    assert forall|p: u32| !#[trigger] c.has_code(p) by {
        if c.has_code(p) {
            assert(j.has_code(p));
            lemma_place(j.pages, p, 0);
            lemma_entered_place(j.entered, p, 0);
            let k = jit_state::place_of(j.pages, p, 0);
            let e = jit_state::entered_at(j.entered, p, 0);
            if k < j.pages.len() {
                assert(j.pages[k].page == p);
            } else {
                assert(j.entered[e].page == p);
            }
            lemma_coded(j, n, p);
        }
    }
    if c.pages.len() > 0 {
        let p = c.pages[0].page;
        lemma_place(c.pages, p, 0);
        assert(c.has_code(p));
    }
    if c.entered.len() > 0 {
        let p = c.entered[0].page;
        lemma_entered_place(c.entered, p, 0);
        assert(c.has_code(p));
    }
    assert forall|x: u16| is_place(x) && !c.held(x) implies #[trigger] c.free.contains(x) by {
        assert(c.free.contains(x) || jit_state::used(c.pages, x) || c.held(x));
    }
}

/// A fresh state has every place free.
pub proof fn law_a_fresh_state_is_partitioned(j: Jit)
    requires
        j.empty(),
    ensures
        j.partitioned(),
        j.entered_distinct(),
{
    assert forall|x: u16| is_place(x) implies j.free.contains(x) || #[trigger] jit_state::used(
        j.pages,
        x,
    ) || j.held(x) || Seq::<u16>::empty().contains(x) by {
        assert(j.free[x - 1] == x);
    }
}

} // verus!
