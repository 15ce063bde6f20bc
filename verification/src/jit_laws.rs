//! What holds of the places of the function table while code is compiled, published and staged.
use vstd::prelude::*;
use crate::jit_free;
use crate::jit_partition;
use crate::jit_publish;
use crate::jit_state;
use crate::jit_state::{CachedCode, InWork, Jit, Slot, WasmTableIndex};

verus! {

/// What is compiled is in order: its pages are distinct, and only its own function holds them.
pub open spec fn work_in_order(c: InWork) -> bool {
    &&& c.pages.len() > 0
    &&& forall|i: int| #![trigger c.pages[i]]
        0 <= i < c.pages.len() ==> c.pages[i].info.index == c.index && c.pages[i].info.hidden.len()
            == 0
    &&& forall|i: int, j: int|
        0 <= i < j < c.pages.len() ==> (#[trigger] c.pages[i]).page != (#[trigger] c.pages[j]).page
}

/// One of the first `n` new pages.
spec fn among(new: Seq<Slot>, n: int, page: u32) -> bool {
    exists|m: int| 0 <= m < n && (#[trigger] new[m]).page == page
}

/// How pages relate to those that were there before.
spec fn follows(pages: Seq<Slot>, new: Seq<Slot>, n: int, p: Seq<Slot>, lost: Seq<u16>, c: u16) -> bool {
    &&& p.len() >= pages.len()
    &&& forall|i: int| #![trigger p[i]]
        0 <= i < pages.len() ==> {
            &&& p[i].page == pages[i].page
            &&& p[i] == pages[i] || {
                &&& p[i].info.index == c
                &&& p[i].info.hidden =~= pages[i].info.hidden.push(pages[i].info.index)
                &&& lost.contains(pages[i].info.index)
                &&& among(new, n, p[i].page)
            }
        }
    &&& forall|i: int| #![trigger p[i]]
        pages.len() <= i < p.len() ==> {
            &&& p[i].info.index == c
            &&& p[i].info.hidden.len() == 0
            &&& among(new, n, p[i].page)
        }
    &&& forall|i: int, j: int|
        0 <= i < j < p.len() ==> (#[trigger] p[i]).page != (#[trigger] p[j]).page
    &&& forall|k: int| 0 <= k < lost.len() ==> jit_state::used(pages, #[trigger] lost[k])
    &&& lost.no_duplicates()
    &&& n > 0 ==> jit_state::used(p, c)
}

proof fn lemma_replaced(pages: Seq<Slot>, w: InWork, n: int)
    requires
        0 <= n <= w.pages.len(),
        work_in_order(w),
        forall|i: int, j: int|
            0 <= i < j < pages.len() ==> (#[trigger] pages[i]).page != (#[trigger] pages[j]).page,
    ensures
        ({
            let (p, lost) = jit_publish::replaced(pages, w.pages, n);
            follows(pages, w.pages, n, p, lost, w.index)
        }),
    decreases n,
{
    let new = w.pages;
    let c = w.index;
    if n > 0 {
        lemma_replaced(pages, w, n - 1);
        let (b, before) = jit_publish::replaced(pages, new, n - 1);
        let (p, lost) = jit_publish::replaced(pages, new, n);
        let page = new[n - 1].page;
        let k = jit_state::place_of(b, page, 0);
        jit_partition::lemma_place(b, page, 0);
        assert forall|q: u32| among(new, n - 1, q) implies among(new, n, q) by {
            let m = choose|m: int| 0 <= m < n - 1 && (#[trigger] new[m]).page == q;
            assert(new[m].page == q);
        }
        assert(among(new, n, page)) by {
            assert(new[n - 1].page == page);
        }
        assert(!among(new, n - 1, page));
        if k < b.len() {
            assert(b[k].page == page);
            assert(k < pages.len() && b[k] == pages[k]);
            let x = b[k].info.index;
            assert(p[k].info.index == c);
            assert(p[k].info.hidden =~= pages[k].info.hidden.push(x));
            assert(lost.contains(x)) by {
                if before.contains(x) {
                } else {
                    assert(lost[before.len() as int] == x);
                }
            }
            assert forall|y: u16| before.contains(y) implies lost.contains(y) by {
                let m = choose|m: int| 0 <= m < before.len() && before[m] == y;
                assert(lost[m] == y);
            }
            assert forall|m: int| 0 <= m < lost.len() implies jit_state::used(
                pages,
                #[trigger] lost[m],
            ) by {
                if m < before.len() {
                    assert(lost[m] == before[m]);
                } else {
                    assert(pages[k].info.index == lost[m]);
                }
            }
            assert forall|i: int, j: int| 0 <= i < j < p.len() implies (#[trigger] p[i]).page != (
            #[trigger] p[j]).page by {
                assert(p[i].page == b[i].page && p[j].page == b[j].page);
            }
            assert(lost.no_duplicates()) by {
                assert forall|x1: int, y1: int|
                    0 <= x1 < lost.len() && 0 <= y1 < lost.len() && x1 != y1 implies lost[x1]
                    != lost[y1] by {
                    if !before.contains(x) {
                        if x1 == before.len() {
                            assert(before.contains(before[y1]));
                        } else if y1 == before.len() {
                            assert(before.contains(before[x1]));
                        }
                    }
                }
            }
            assert forall|i: int| #![trigger p[i]] 0 <= i < pages.len() implies ({
                &&& p[i].page == pages[i].page
                &&& p[i] == pages[i] || {
                    &&& p[i].info.index == c
                    &&& p[i].info.hidden =~= pages[i].info.hidden.push(pages[i].info.index)
                    &&& lost.contains(pages[i].info.index)
                    &&& among(new, n, p[i].page)
                }
            }) by {
                if i != k {
                    assert(p[i] == b[i]);
                }
            }
            assert forall|i: int| #![trigger p[i]] pages.len() <= i < p.len() implies ({
                &&& p[i].info.index == c
                &&& p[i].info.hidden.len() == 0
                &&& among(new, n, p[i].page)
            }) by {
                assert(p[i] == b[i]);
            }
            assert(jit_state::used(p, c));
        } else {
            assert(p[b.len() as int] == new[n - 1]);
            assert(p[b.len() as int].info.index == c);
            assert forall|i: int| #![trigger p[i]] 0 <= i < pages.len() implies ({
                &&& p[i].page == pages[i].page
                &&& p[i] == pages[i] || {
                    &&& p[i].info.index == c
                    &&& p[i].info.hidden =~= pages[i].info.hidden.push(pages[i].info.index)
                    &&& lost.contains(pages[i].info.index)
                    &&& among(new, n, p[i].page)
                }
            }) by {
                assert(p[i] == b[i]);
            }
            assert forall|i: int| #![trigger p[i]] pages.len() <= i < p.len() implies ({
                &&& p[i].info.index == c
                &&& p[i].info.hidden.len() == 0
                &&& among(new, n, p[i].page)
            }) by {
                if i < b.len() {
                    assert(p[i] == b[i]);
                }
            }
            assert forall|i: int, j: int| 0 <= i < j < p.len() implies (#[trigger] p[i]).page != (
            #[trigger] p[j]).page by {
                assert(p[i] == b[i]);
                if j < b.len() {
                    assert(p[j] == b[j]);
                }
            }
            assert(jit_state::used(p, c));
        }
    }
}

proof fn lemma_unused(p: Seq<Slot>, lost: Seq<u16>, n: int)
    requires
        0 <= n <= lost.len(),
        lost.no_duplicates(),
    ensures
        ({
            let u = jit_publish::unused(p, lost, n);
            &&& u.no_duplicates()
            &&& forall|k: int|
                0 <= k < u.len() ==> !jit_state::used(p, #[trigger] u[k]) && lost.take(n).contains(
                    u[k],
                )
            &&& forall|k: int|
                0 <= k < n && !jit_state::used(p, #[trigger] lost[k]) ==> u.contains(lost[k])
        }),
    decreases n,
{
    if n > 0 {
        lemma_unused(p, lost, n - 1);
        let b = jit_publish::unused(p, lost, n - 1);
        let u = jit_publish::unused(p, lost, n);
        assert forall|y: u16| lost.take(n - 1).contains(y) implies lost.take(n).contains(y) by {
            let t = lost.take(n - 1);
            let m = choose|m: int| 0 <= m < t.len() && t[m] == y;
            assert(lost.take(n)[m] == y);
        }
        assert(lost.take(n)[n - 1] == lost[n - 1]);
        assert forall|y: u16| b.contains(y) implies u.contains(y) by {
            let m = choose|m: int| 0 <= m < b.len() && b[m] == y;
            assert(u[m] == y);
        }
        if !jit_state::used(p, lost[n - 1]) {
            assert(u[b.len() as int] == lost[n - 1]);
            assert forall|x: int, y: int| 0 <= x < u.len() && 0 <= y < u.len() && x != y implies u[x]
                != u[y] by {
                if x == b.len() {
                    assert(lost.take(n - 1).contains(b[y]));
                } else if y == b.len() {
                    assert(lost.take(n - 1).contains(b[x]));
                }
            }
        }
    }
}

/// Pages of which a function holds none lose only what they knew of it.
proof fn lemma_stripped_remain(pages: Seq<Slot>, index: u16, n: int)
    requires
        0 <= n <= pages.len(),
        !jit_state::used(pages, index),
    ensures
        jit_free::remaining(pages, index, n) =~= jit_publish::all_stripped(pages, index).take(n),
        jit_free::hidden_of(pages, index, n) =~= Seq::empty(),
    decreases n,
{
    if n > 0 {
        lemma_stripped_remain(pages, index, n - 1);
        assert(pages[n - 1].info.index != index);
    }
}

proof fn lemma_unused_freed(j: Jit, list: Seq<u16>, seen: Seq<u16>)
    requires
        j.partitioned_while(list, seen),
        list.no_duplicates(),
        forall|k: int|
            0 <= k < list.len() ==> !jit_state::used(j.pages, #[trigger] list[k])
                && !seen.contains(list[k]),
    ensures
        j.unused_freed(list).partitioned(),
        j.unused_freed(list).run.counts.double_free_skipped == j.run.counts.double_free_skipped,
    decreases list.len(),
{
    if list.len() == 0 {
        assert(list =~= Seq::empty());
        assert(j.stack_fits(Seq::empty(), Seq::empty()));
    } else {
        let index = list.last();
        let rest = list.drop_last();
        let a = Jit { pages: jit_publish::all_stripped(j.pages, index), ..j };
        let b = a.index_freed(index);
        assert(list[list.len() - 1] == index);
        assert(!j.free.contains(index));
        let n = j.pages.len() as int;
        lemma_stripped_remain(j.pages, index, n);
        assert(jit_free::remaining(j.pages, index, n) =~= a.pages);
        reveal(Jit::index_freed);
        jit_free::lemma_audit_keeps(
            j.run,
            a.dispatch.meta,
            a.tlb,
            index,
            crate::dispatch::DISPATCH_PAGES as int,
        );
        jit_partition::lemma_step(j, b, list, seen);
        assert(rest + jit_free::hidden_of(j.pages, index, n) =~= rest);
        assert forall|k: int| 0 <= k < rest.len() implies !jit_state::used(
            b.pages,
            #[trigger] rest[k],
        ) && !seen.push(index).contains(rest[k]) by {
            assert(rest[k] == list[k]);
            if jit_state::used(b.pages, rest[k]) {
                let i = choose|i: int| 0 <= i < b.pages.len() && (
                #[trigger] b.pages[i]).info.index == rest[k];
                assert(j.pages[i].info.index == rest[k]);
            }
            if seen.push(index).contains(rest[k]) {
                let m = choose|m: int| 0 <= m < seen.push(index).len() && seen.push(index)[m]
                    == rest[k];
                if m < seen.len() {
                    assert(seen[m] == rest[k]);
                }
            }
        }
        lemma_unused_freed(b, rest, seen.push(index));
    }
}

/// Publishing what was compiled leaves every place of the function table in one hand, and makes
/// none free twice.
pub proof fn law_publishing_keeps_the_places(j: Jit, flags: u32)
    requires
        j.partitioned(),
        j.compiling is Some,
        !j.compiling->0.written ==> work_in_order(j.compiling->0),
    ensures
        j.finished(j.compiling->0.index, flags).partitioned(),
        j.finished(j.compiling->0.index, flags).compiling is None,
        j.finished(j.compiling->0.index, flags).run.counts.double_free_skipped
            == j.run.counts.double_free_skipped,
{
    reveal(Jit::finished);
    let w = j.compiling->0;
    let index = w.index;
    if w.written {
        lemma_given_back(j);
    } else {
        let n = w.pages.len() as int;
        let (p, lost) = jit_publish::replaced(j.pages, w.pages, n);
        let list = jit_publish::unused(p, lost, lost.len() as int);
        lemma_replaced(j.pages, w, n);
        lemma_unused(p, lost, lost.len() as int);
        let a = Jit {
            compiling: None,
            dispatch: jit_publish::stamped(
                j.dispatch,
                j.tlb,
                j.mem8,
                w.pages,
                index,
                flags,
                j.tlb.len() as int,
            ),
            pages: p,
            ..j
        };
        lemma_taken_over(j, a, lost, list);
        lemma_unused_freed(a, list, Seq::empty());
        lemma_unused_keeps(a, list);
    }
}

proof fn lemma_unused_keeps(j: Jit, list: Seq<u16>)
    ensures
        j.unused_freed(list).compiling == j.compiling,
        j.unused_freed(list).staged == j.staged,
        j.unused_freed(list).entered == j.entered,
    decreases list.len(),
{
    if list.len() > 0 {
        reveal(Jit::index_freed);
        let a = (Jit { pages: jit_publish::all_stripped(j.pages, list.last()), ..j }).index_freed(
            list.last(),
        );
        lemma_unused_keeps(a, list.drop_last());
    }
}

proof fn lemma_taken_over(j: Jit, a: Jit, lost: Seq<u16>, list: Seq<u16>)
    requires
        j.partitioned(),
        j.compiling is Some,
        work_in_order(j.compiling->0),
        follows(
            j.pages,
            j.compiling->0.pages,
            j.compiling->0.pages.len() as int,
            a.pages,
            lost,
            j.compiling->0.index,
        ),
        forall|k: int|
            0 <= k < list.len() ==> !jit_state::used(a.pages, #[trigger] list[k]) && lost.take(
                lost.len() as int,
            ).contains(list[k]),
        forall|k: int|
            0 <= k < lost.len() && !jit_state::used(a.pages, #[trigger] lost[k]) ==> list.contains(
                lost[k],
            ),
        a.compiling is None,
        a.free == j.free,
        a.staged == j.staged,
    ensures
        a.partitioned_while(list, Seq::empty()),
{
    let c = j.compiling->0.index;
    assert(lost.take(lost.len() as int) =~= lost);
    assert forall|x: u16| jit_state::used(j.pages, x) implies jit_state::used(a.pages, x)
        || list.contains(x) by {
        let i = choose|i: int| 0 <= i < j.pages.len() && (#[trigger] j.pages[i]).info.index == x;
        if a.pages[i] != j.pages[i] {
            let k = choose|k: int| 0 <= k < lost.len() && lost[k] == x;
            assert(lost[k] == x);
        }
    }
    assert forall|x: u16| a.held(x) implies j.held(x) by {}
    assert forall|x: u16| jit_state::used(j.pages, x) implies is_open(j, x) by {
        let i = choose|i: int| 0 <= i < j.pages.len() && (#[trigger] j.pages[i]).info.index == x;
        assert(j.pages[i].info.index == x);
    }
    assert(a.code_fits()) by {
        assert forall|i: int| #![trigger a.pages[i]] 0 <= i < a.pages.len() implies ({
            let x = a.pages[i].info.index;
            jit_partition::is_place(x) && !a.free.contains(x) && !a.held(x)
        }) by {
            if i < j.pages.len() && a.pages[i] == j.pages[i] {
                assert(j.pages[i].info.index == a.pages[i].info.index);
            } else {
                assert(a.pages[i].info.index == c);
            }
        }
    }
    assert(a.hidden_fits(list)) by {
        assert forall|i: int, k: int|
            0 <= i < a.pages.len() && 0 <= k < a.pages[i].info.hidden.len() implies ({
            let x = #[trigger] a.pages[i].info.hidden[k];
            jit_partition::is_place(x) && !a.free.contains(x) && !a.held(x) && (jit_state::used(
                a.pages,
                x,
            ) || list.contains(x))
        }) by {
            let x = a.pages[i].info.hidden[k];
            assert(i < j.pages.len());
            if k < j.pages[i].info.hidden.len() {
                assert(j.pages[i].info.hidden[k] == x);
                assert(jit_state::used(j.pages, x));
            } else {
                assert(j.pages[i].info.index == x);
                assert(jit_state::used(j.pages, x));
            }
            assert(is_open(j, x));
        }
    }
    assert(a.none_lost(list)) by {
        assert forall|x: u16| jit_partition::is_place(x) implies a.free.contains(x)
            || #[trigger] jit_state::used(a.pages, x) || a.held(x) || list.contains(x) by {
            assert(j.free.contains(x) || jit_state::used(j.pages, x) || j.held(x));
        }
    }
    assert(a.stack_fits(list, Seq::empty())) by {
        assert forall|k: int| 0 <= k < list.len() implies ({
            let x = #[trigger] list[k];
            jit_partition::is_place(x) && !a.free.contains(x) && !a.held(x)
        }) by {
            let m = choose|m: int| 0 <= m < lost.len() && lost[m] == list[k];
            assert(jit_state::used(j.pages, lost[m]));
            assert(is_open(j, list[k]));
        }
    }
}

/// A place in which a function holds code.
spec fn is_open(j: Jit, x: u16) -> bool {
    jit_partition::is_place(x) && !j.free.contains(x) && !j.held(x)
}

/// The place of what is in work is given back.
proof fn lemma_given_back(j: Jit)
    requires
        j.partitioned(),
        j.compiling is Some,
    ensures
        ({
            let b = (Jit { compiling: None, ..j }).index_freed(j.compiling->0.index);
            b.partitioned() && b.compiling is None && b.run.counts.double_free_skipped
                == j.run.counts.double_free_skipped
        }),
{
    let index = j.compiling->0.index;
    let a = Jit { compiling: None, ..j };
    let stack = seq![index];
    assert(stack[0] == index);
    assert(a.partitioned_while(stack, Seq::empty())) by {
        assert forall|x: u16| a.held(x) implies j.held(x) by {}
        assert forall|i: int| #![trigger a.pages[i]] 0 <= i < a.pages.len() implies ({
            let x = a.pages[i].info.index;
            jit_partition::is_place(x) && !a.free.contains(x) && !a.held(x)
        }) by {
            assert(j.pages[i].info.index == a.pages[i].info.index);
        }
        assert forall|i: int, k: int|
            0 <= i < a.pages.len() && 0 <= k < a.pages[i].info.hidden.len() implies ({
            let x = #[trigger] a.pages[i].info.hidden[k];
            jit_partition::is_place(x) && !a.free.contains(x) && !a.held(x) && (jit_state::used(
                a.pages,
                x,
            ) || stack.contains(x))
        }) by {
            assert(j.pages[i].info.hidden[k] == a.pages[i].info.hidden[k]);
        }
        assert forall|x: u16| jit_partition::is_place(x) implies a.free.contains(x)
            || #[trigger] jit_state::used(a.pages, x) || a.held(x) || stack.contains(x) by {
            assert(j.free.contains(x) || jit_state::used(j.pages, x) || j.held(x));
        }
    }
    lemma_place_freed(a, index);
}

/// A place that nothing uses becomes free.
pub proof fn lemma_place_freed(a: Jit, index: u16)
    requires
        a.partitioned_while(seq![index], Seq::empty()),
        !jit_state::used(a.pages, index),
        forall|i: int, k: int|
            0 <= i < a.pages.len() && 0 <= k < a.pages[i].info.hidden.len()
                ==> #[trigger] a.pages[i].info.hidden[k] != index,
    ensures
        a.index_freed(index).partitioned(),
        a.index_freed(index).run.counts.double_free_skipped == a.run.counts.double_free_skipped,
        a.index_freed(index).compiling == a.compiling,
        a.index_freed(index).staged == a.staged,
{
    let stack = seq![index];
    let b = a.index_freed(index);
    assert(stack[0] == index);
    assert(!a.free.contains(index));
    reveal(Jit::index_freed);
    jit_free::lemma_audit_keeps(
        a.run,
        a.dispatch.meta,
        a.tlb,
        index,
        crate::dispatch::DISPATCH_PAGES as int,
    );
    assert(b.free == a.free.push(index));
    assert(b.pages == a.pages);
    assert forall|x: u16| b.free.contains(x) implies a.free.contains(x) || x == index by {
        let k = choose|k: int| 0 <= k < b.free.len() && b.free[k] == x;
        if k < a.free.len() {
            assert(a.free[k] == x);
        }
    }
    assert forall|x: u16| a.free.contains(x) || x == index implies b.free.contains(x) by {
        if x == index {
            assert(b.free[a.free.len() as int] == x);
        } else {
            let k = choose|k: int| 0 <= k < a.free.len() && a.free[k] == x;
            assert(b.free[k] == x);
        }
    }
    assert(b.free.no_duplicates()) by {
        assert forall|x: int, y: int|
            0 <= x < b.free.len() && 0 <= y < b.free.len() && x != y implies b.free[x]
            != b.free[y] by {
            if x < a.free.len() {
                assert(a.free.contains(a.free[x]));
            }
            if y < a.free.len() {
                assert(a.free.contains(a.free[y]));
            }
        }
    }
    assert forall|k: int| 0 <= k < b.free.len() implies jit_partition::is_place(
        #[trigger] b.free[k],
    ) by {
        if k < a.free.len() {
            assert(b.free[k] == a.free[k]);
        }
    }
    assert(b.code_fits()) by {
        assert forall|i: int| #![trigger b.pages[i]] 0 <= i < b.pages.len() implies ({
            let x = b.pages[i].info.index;
            jit_partition::is_place(x) && !b.free.contains(x) && !b.held(x)
        }) by {
            assert(a.pages[i].info.index == b.pages[i].info.index);
        }
    }
    assert(b.hidden_fits(Seq::empty())) by {
        assert forall|i: int, k: int|
            0 <= i < b.pages.len() && 0 <= k < b.pages[i].info.hidden.len() implies ({
            let x = #[trigger] b.pages[i].info.hidden[k];
            jit_partition::is_place(x) && !b.free.contains(x) && !b.held(x) && (jit_state::used(
                b.pages,
                x,
            ) || Seq::<u16>::empty().contains(x))
        }) by {
            let x = a.pages[i].info.hidden[k];
            if stack.contains(x) {
                assert(x == index);
            }
        }
    }
    assert(b.work_fits()) by {
        if b.compiling is Some {
            assert(a.held(b.compiling->0.index));
        }
        if b.staged is Some {
            assert(a.held(b.staged->0.index));
        }
    }
    assert(b.none_lost(Seq::empty())) by {
        assert forall|x: u16| jit_partition::is_place(x) implies b.free.contains(x)
            || #[trigger] jit_state::used(b.pages, x) || b.held(x) || Seq::<u16>::empty().contains(
            x,
        ) by {
            assert(a.free.contains(x) || jit_state::used(a.pages, x) || a.held(x)
                || stack.contains(x));
            if stack.contains(x) {
                assert(x == index);
            }
        }
    }
}

/// A compilation that failed gives its place back.
pub proof fn law_a_failure_keeps_the_places(j: Jit, index: u16, phys: u32, kind: u32)
    requires
        j.partitioned(),
    ensures
        j.failed(index, phys, kind).0.partitioned(),
        j.failed(index, phys, kind).1 == 0 ==> j.failed(index, phys, kind).0.free.contains(index),
{
    let r = j.failed(index, phys, kind).0;
    if j.compiling is Some && j.compiling->0.index == index {
        lemma_given_back(j);
        let b = (Jit { compiling: None, ..j }).index_freed(index);
        jit_partition::lemma_same_places(b, r);
        assert(b.free.contains(index)) by {
            reveal(Jit::index_freed);
            assert(!j.free.contains(index));
            assert(b.free[j.free.len() as int] == index);
        }
    } else {
        jit_partition::lemma_same_places(j, r);
    }
}

/// The two hold the same code, whoever held it before.
spec fn same_code(a: Slot, b: Slot) -> bool {
    &&& a.page == b.page
    &&& a.info.index == b.info.index
    &&& a.info.entries == b.info.entries
    &&& a.info.flags == b.info.flags
}

/// Some page holds the same code.
spec fn holds_code(pages: Seq<Slot>, s: Slot) -> bool {
    exists|i: int| 0 <= i < pages.len() && same_code(#[trigger] pages[i], s)
}

proof fn lemma_replaced_holds(pages: Seq<Slot>, w: InWork, n: int, m: int)
    requires
        0 <= m < n <= w.pages.len(),
        work_in_order(w),
    ensures
        holds_code(jit_publish::replaced(pages, w.pages, n).0, w.pages[m]),
    decreases n,
{
    let new = w.pages;
    let (b, before) = jit_publish::replaced(pages, new, n - 1);
    let (p, lost) = jit_publish::replaced(pages, new, n);
    let k = jit_state::place_of(b, new[n - 1].page, 0);
    jit_partition::lemma_place(b, new[n - 1].page, 0);
    if m == n - 1 {
        if k < b.len() {
            assert(same_code(p[k], new[m]));
        } else {
            assert(same_code(p[b.len() as int], new[m]));
        }
    } else {
        lemma_replaced_holds(pages, w, n - 1, m);
        let i = choose|i: int| 0 <= i < b.len() && same_code(#[trigger] b[i], new[m]);
        assert(new[m].page != new[n - 1].page);
        assert(p[i] == b[i]);
    }
}

/// Giving up functions that hold no code keeps the code of every page.
proof fn lemma_unused_keeps_code(j: Jit, list: Seq<u16>)
    ensures
        j.unused_freed(list).pages.len() == j.pages.len(),
        forall|i: int|
            0 <= i < j.pages.len() ==> same_code(
                #[trigger] j.unused_freed(list).pages[i],
                j.pages[i],
            ),
    decreases list.len(),
{
    if list.len() > 0 {
        reveal(Jit::index_freed);
        let a = (Jit { pages: jit_publish::all_stripped(j.pages, list.last()), ..j }).index_freed(
            list.last(),
        );
        lemma_unused_keeps_code(a, list.drop_last());
        let end = j.unused_freed(list);
        assert forall|i: int| 0 <= i < j.pages.len() implies same_code(
            #[trigger] end.pages[i],
            j.pages[i],
        ) by {
            assert(same_code(a.pages[i], j.pages[i]));
            assert(same_code(a.unused_freed(list.drop_last()).pages[i], a.pages[i]));
        }
    }
}

/// What was compiled is found once it is published: at an address at which the function was
/// compiled to be entered, for the state of the CPU that it was compiled for, the search gives
/// that function and the block that belongs to the address. No page that it covers was written
/// meanwhile.
pub proof fn law_published_code_is_found(j: Jit, flags: u32, m: int, offset: u16)
    requires
        j.partitioned(),
        j.compiling is Some,
        !j.compiling->0.written,
        work_in_order(j.compiling->0),
        0 <= m < j.compiling->0.pages.len(),
        j.compiling->0.pages[m].page < 0x10_0000,
        offset < 0x1000,
        jit_state::block_at(j.compiling->0.pages[m].info.entries, offset, 0) is Some,
    ensures
        ({
            let s = j.compiling->0.pages[m];
            j.finished(j.compiling->0.index, flags).found(
                (s.page * 0x1000 + offset) as u32,
                s.info.flags,
            ) == CachedCode {
                wasm_table_index: WasmTableIndex(j.compiling->0.index),
                initial_state: jit_state::block_at(s.info.entries, offset, 0)->0,
            }
        }),
{
    reveal(Jit::finished);
    let w = j.compiling->0;
    let s = w.pages[m];
    let n = w.pages.len() as int;
    let (p, lost) = jit_publish::replaced(j.pages, w.pages, n);
    let list = jit_publish::unused(p, lost, lost.len() as int);
    let a = Jit {
        compiling: None,
        dispatch: jit_publish::stamped(
            j.dispatch,
            j.tlb,
            j.mem8,
            w.pages,
            w.index,
            flags,
            j.tlb.len() as int,
        ),
        pages: p,
        ..j
    };
    let end = a.unused_freed(list);
    assert(end == j.finished(w.index, flags));
    lemma_replaced(j.pages, w, n);
    lemma_replaced_holds(j.pages, w, n, m);
    lemma_unused_keeps_code(a, list);
    let i = choose|i: int| 0 <= i < p.len() && same_code(#[trigger] p[i], s);
    assert(same_code(end.pages[i], p[i]));
    let k = jit_state::place_of(end.pages, s.page, 0);
    jit_partition::lemma_place(end.pages, s.page, 0);
    assert(k < end.pages.len()) by {
        if k >= end.pages.len() {
            assert(end.pages[i].page != s.page);
        }
    }
    assert(k == i) by {
        assert(same_code(end.pages[k], p[k]));
        if k < i {
            assert(p[k].page != p[i].page);
        } else if i < k {
            assert(p[i].page != p[k].page);
        }
    }
    let at = (s.page * 0x1000 + offset) as u32;
    assert(at / 0x1000 == s.page);
    assert(at % 0x1000 == offset);
}

} // verus!
