//! What staging a unit step by step leads to: given up, it leaves nothing behind; committed, its
//! pages read back as they were staged.
use vstd::prelude::*;
use crate::jit_aot;
use crate::jit_aot::{AOT_TX_BAD_STATE, AOT_TX_OK};
use crate::jit_partition;
use crate::jit_state;
use crate::jit_state::{Jit, Slot, Staged};

verus! {

/// A step of staging.
pub enum AotStep {
    PageBegin { phys: u32, flags: u32, count: u32, ram: u32 },
    EntryPush { offset: u32, state: u32 },
    PageFinish,
    PrepareFinish,
}

pub open spec fn stepped(j: Jit, step: AotStep) -> (Jit, u32) {
    match step {
        AotStep::PageBegin { phys, flags, count, ram } => j.aot_page_begun(
            phys,
            flags,
            count,
            ram,
        ),
        AotStep::EntryPush { offset, state } => j.aot_entry_pushed(offset, state),
        AotStep::PageFinish => j.aot_page_finished(),
        AotStep::PrepareFinish => j.aot_prepared(),
    }
}

/// After some steps, one after the other, whatever each of them gave.
pub open spec fn staged_on(j: Jit, steps: Seq<AotStep>) -> Jit
    decreases steps.len(),
{
    if steps.len() == 0 {
        j
    } else {
        stepped(staged_on(j, steps.drop_last()), steps.last()).0
    }
}

/// Steps change the staged unit alone, and not its place; pages that it has stay.
spec fn leads(j: Jit, k: Jit) -> bool {
    &&& j.staged is Some && k.staged is Some
    &&& k == (Jit { staged: k.staged, ..j })
    &&& k.staged->0.index == j.staged->0.index
    &&& k.staged->0.pages.len() >= j.staged->0.pages.len()
    &&& forall|i: int|
        0 <= i < j.staged->0.pages.len() ==> #[trigger] k.staged->0.pages[i]
            == j.staged->0.pages[i]
}

/// A page can be staged: no other code is there.
spec fn slot_fits(j: Jit, t: Staged, s: Slot) -> bool {
    &&& s.info.index == t.index
    &&& s.info.hidden.len() == 0
    &&& !jit_partition::names_page(j.pages, s.page)
}

/// The pages of the unit are distinct, and none of them has code.
spec fn in_order(j: Jit) -> bool {
    let t = j.staged->0;
    &&& j.staged is Some
    &&& forall|i: int|
        #![trigger t.pages[i]]
        0 <= i < t.pages.len() ==> slot_fits(j, t, t.pages[i])
    &&& forall|i: int, k: int|
        0 <= i < k < t.pages.len() ==> (#[trigger] t.pages[i]).page != (#[trigger] t.pages[k]).page
    &&& t.building matches Some(b) ==> {
        &&& slot_fits(j, t, b.0)
        &&& forall|i: int| 0 <= i < t.pages.len() ==> (#[trigger] t.pages[i]).page != b.0.page
    }
}

proof fn lemma_not_held(pages: Seq<Slot>, page: u32)
    requires
        !jit_state::holds_page(pages, page),
    ensures
        !jit_partition::names_page(pages, page),
{
    jit_partition::lemma_place(pages, page, 0);
}

proof fn lemma_step(j: Jit, step: AotStep)
    requires
        j.staged is Some,
    ensures
        leads(j, stepped(j, step).0),
        in_order(j) ==> in_order(stepped(j, step).0),
{
    let k = stepped(j, step).0;
    let t = j.staged->0;
    match step {
        AotStep::PageBegin { phys, flags, count, ram } => {
            if stepped(j, step).1 == AOT_TX_OK && in_order(j) {
                lemma_not_held(j.pages, phys / 0x1000);
                lemma_not_held(t.pages, phys / 0x1000);
                let u = k.staged->0;
                assert(u.pages == t.pages);
                assert forall|i: int| 0 <= i < u.pages.len() implies (#[trigger] u.pages[i]).page
                    != phys / 0x1000 by {
                    assert(t.pages[i].page != phys / 0x1000);
                }
                assert forall|i: int| #![trigger u.pages[i]] 0 <= i < u.pages.len() implies slot_fits(
                    k,
                    u,
                    u.pages[i],
                ) by {
                    assert(slot_fits(j, t, t.pages[i]));
                }
            }
        },
        AotStep::EntryPush { offset, state } => {
            if in_order(j) {
                let u = k.staged->0;
                assert(u.pages == t.pages);
                assert forall|i: int| #![trigger u.pages[i]] 0 <= i < u.pages.len() implies slot_fits(
                    k,
                    u,
                    u.pages[i],
                ) by {
                    assert(slot_fits(j, t, t.pages[i]));
                }
            }
        },
        AotStep::PageFinish => {
            if in_order(j) && stepped(j, step).1 == AOT_TX_OK {
                let u = k.staged->0;
                let b = (t.building->0).0;
                let n = t.pages.len();
                assert forall|i: int| #![trigger u.pages[i]] 0 <= i < u.pages.len() implies slot_fits(
                    k,
                    u,
                    u.pages[i],
                ) by {
                    if i < n {
                        assert(slot_fits(j, t, t.pages[i]));
                    }
                }
                assert forall|i: int, m: int| 0 <= i < m < u.pages.len() implies (
                #[trigger] u.pages[i]).page != (#[trigger] u.pages[m]).page by {
                    assert(u.pages[i] == t.pages[i]);
                    if m < n {
                        assert(u.pages[m] == t.pages[m]);
                    } else {
                        assert(t.pages[i].page != b.page);
                    }
                }
            }
        },
        AotStep::PrepareFinish => {
            if in_order(j) {
                let u = k.staged->0;
                assert(u.pages == t.pages);
                assert forall|i: int| #![trigger u.pages[i]] 0 <= i < u.pages.len() implies slot_fits(
                    k,
                    u,
                    u.pages[i],
                ) by {
                    assert(slot_fits(j, t, t.pages[i]));
                }
            }
        },
    }
}

proof fn lemma_steps(j: Jit, steps: Seq<AotStep>)
    requires
        j.staged is Some,
    ensures
        leads(j, staged_on(j, steps)),
        in_order(j) ==> in_order(staged_on(j, steps)),
    decreases steps.len(),
{
    if steps.len() > 0 {
        let before = staged_on(j, steps.drop_last());
        lemma_steps(j, steps.drop_last());
        lemma_step(before, steps.last());
        let k = staged_on(j, steps);
        assert forall|i: int| 0 <= i < j.staged->0.pages.len() implies #[trigger] k.staged->0.pages[i]
            == j.staged->0.pages[i] by {
            assert(before.staged->0.pages[i] == j.staged->0.pages[i]);
        }
    }
}

/// A unit that was begun and is given up, whatever was staged of it, leaves nothing behind: the
/// same places are free as before, no page was published, and there is no unit to give up again.
pub proof fn law_giving_up_leaves_nothing_behind(
    j: Jit,
    index: u32,
    page_count: u32,
    fp_lo: u32,
    fp_hi: u32,
    steps: Seq<AotStep>,
)
    requires
        j.wf(),
        j.aot_begun(index, page_count, fp_lo, fp_hi).1 == AOT_TX_OK,
    ensures
        ({
            let b = j.aot_begun(index, page_count, fp_lo, fp_hi).0;
            let (a, r) = staged_on(b, steps).aot_aborted();
            &&& r == AOT_TX_OK
            &&& a.free.len() == j.free.len()
            &&& forall|x: u16| #[trigger] a.free.contains(x) <==> j.free.contains(x)
            &&& a.free.contains(index as u16)
            &&& a.pages == j.pages
            &&& a.dispatch == j.dispatch
            &&& a.staged is None
            &&& j.partitioned() ==> a.partitioned()
            &&& a.aot_aborted() == (a, AOT_TX_BAD_STATE)
        }),
{
    let b = j.aot_begun(index, page_count, fp_lo, fp_hi).0;
    let k = staged_on(b, steps);
    let x0 = index as u16;
    lemma_steps(b, steps);
    assert(k.staged->0.index == x0);
    if j.partitioned() {
        jit_aot::law_reserving_keeps_the_places(j, index, page_count, fp_lo, fp_hi);
        assert(forall|x: u16| k.held(x) == b.held(x));
        assert(k.partitioned()) by {
            lemma_partitioned(b, k);
        }
        jit_aot::law_giving_up_frees_the_place(k);
    }
    let a = k.aot_aborted().0;
    let n = j.free.len() - 1;
    let m = jit_aot::position(j.free, x0, 0);
    jit_aot::lemma_position(j.free, x0, 0);
    assert(!b.free.contains(x0)) by {
        if b.free.contains(x0) {
            let i = choose|i: int| 0 <= i < b.free.len() && b.free[i] == x0;
            if i == m {
                assert(j.free[n as int] == x0 && j.free[m] == x0);
            } else {
                assert(j.free[i] == x0 && j.free[m] == x0);
            }
        }
    }
    reveal(Jit::index_freed);
    assert(a.dispatch == j.dispatch);
    assert(a.free == b.free.push(x0));
    assert(a.free[n as int] == x0);
    assert forall|x: u16| #[trigger] a.free.contains(x) implies j.free.contains(x) by {
        let i = choose|i: int| 0 <= i < a.free.len() && a.free[i] == x;
        if i == n {
            assert(j.free[m] == x);
        } else if i == m {
            assert(j.free[n as int] == x);
        } else {
            assert(j.free[i] == x);
        }
    }
    assert forall|x: u16| j.free.contains(x) implies #[trigger] a.free.contains(x) by {
        let i = choose|i: int| 0 <= i < j.free.len() && j.free[i] == x;
        if i == m {
            assert(a.free[n as int] == x);
        } else if i == n {
            assert(a.free[m] == x);
        } else {
            assert(a.free[i] == x);
        }
    }
}

/// Whether places are in one hand does not depend on what is staged but for its place.
proof fn lemma_partitioned(b: Jit, k: Jit)
    requires
        b.partitioned(),
        k == (Jit { staged: k.staged, ..b }),
        forall|x: u16| k.held(x) == b.held(x),
        b.staged is Some && k.staged is Some && b.staged->0.index == k.staged->0.index,
    ensures
        k.partitioned(),
{
    assert forall|i: int| #![trigger k.pages[i]] 0 <= i < k.pages.len() implies ({
        let x = k.pages[i].info.index;
        jit_partition::is_place(x) && !k.free.contains(x) && !k.held(x)
    }) by {
        assert(b.pages[i] == k.pages[i]);
    }
    assert forall|i: int, m: int|
        0 <= i < k.pages.len() && 0 <= m < k.pages[i].info.hidden.len() implies ({
        let x = #[trigger] k.pages[i].info.hidden[m];
        jit_partition::is_place(x) && !k.free.contains(x) && !k.held(x) && (jit_state::used(
            k.pages,
            x,
        ) || Seq::<u16>::empty().contains(x))
    }) by {
        assert(b.pages[i].info.hidden[m] == k.pages[i].info.hidden[m]);
    }
    assert forall|x: u16| jit_partition::is_place(x) implies k.free.contains(x)
        || #[trigger] jit_state::used(k.pages, x) || k.held(x) || Seq::<u16>::empty().contains(
        x,
    ) by {
        assert(b.free.contains(x) || jit_state::used(b.pages, x) || b.held(x));
    }
}

/// The entries of a page are pushed one after the other.
pub open spec fn pushes(list: Seq<(u16, u16)>) -> Seq<AotStep> {
    Seq::new(
        list.len(),
        |i: int| AotStep::EntryPush { offset: list[i].0 as u32, state: list[i].1 as u32 },
    )
}

proof fn lemma_pushed(j: Jit, list: Seq<(u16, u16)>)
    requires
        j.staged is Some,
        !j.staged->0.ready,
        j.staged->0.building matches Some(b) && b.0.info.entries.len() == 0 && b.1 >= list.len(),
        forall|i: int| 0 <= i < list.len() ==> (#[trigger] list[i]).0 < 0x1000,
    ensures
        ({
            let k = staged_on(j, pushes(list));
            let b = j.staged->0.building->0;
            let e = k.staged->0.building->0;
            &&& k.staged is Some && k.staged->0.building is Some && !k.staged->0.ready
            &&& k.staged->0.pages == j.staged->0.pages
            &&& e.0.info.entries == list
            &&& e.0.page == b.0.page && e.0.info.flags == b.0.info.flags
            &&& e.1 == b.1
            &&& e.0.info.index == b.0.info.index
        }),
    decreases list.len(),
{
    if list.len() > 0 {
        let less = list.drop_last();
        assert forall|i: int| 0 <= i < less.len() implies (#[trigger] less[i]).0 < 0x1000 by {
            assert(less[i] == list[i]);
        }
        lemma_pushed(j, less);
        assert(pushes(list).drop_last() =~= pushes(less));
        assert(list[list.len() - 1].0 < 0x1000);
        let k = staged_on(j, pushes(list));
        assert((k.staged->0.building->0).0.info.entries =~= list);
    } else {
        assert((j.staged->0.building->0).0.info.entries =~= list);
        assert(pushes(list) =~= Seq::empty());
    }
}

/// A page that was staged with its entries and committed reads back as it was staged: its
/// entries in the order in which they were pushed, its state flags, and the place of the unit.
pub proof fn law_committed_pages_read_back(
    j: Jit,
    index: u32,
    page_count: u32,
    fp_lo: u32,
    fp_hi: u32,
    first: Seq<AotStep>,
    phys: u32,
    flags: u32,
    ram: u32,
    list: Seq<(u16, u16)>,
    more: Seq<AotStep>,
)
    requires
        j.aot_begun(index, page_count, fp_lo, fp_hi).1 == AOT_TX_OK,
        list.len() <= u32::MAX,
        forall|i: int| 0 <= i < list.len() ==> (#[trigger] list[i]).0 < 0x1000,
        ({
            let j1 = staged_on(j.aot_begun(index, page_count, fp_lo, fp_hi).0, first);
            let (j2, r2) = j1.aot_page_begun(phys, flags, list.len() as u32, ram);
            let j3 = staged_on(j2, pushes(list));
            let j4 = staged_on(j3.aot_page_finished().0, more);
            r2 == AOT_TX_OK && j4.staged->0.ready
        }),
    ensures
        ({
            let j1 = staged_on(j.aot_begun(index, page_count, fp_lo, fp_hi).0, first);
            let j2 = j1.aot_page_begun(phys, flags, list.len() as u32, ram).0;
            let j3 = staged_on(j2, pushes(list));
            let j4 = staged_on(j3.aot_page_finished().0, more);
            let (j5, r) = j4.aot_committed();
            let k = jit_state::place_of(j5.pages, phys / 0x1000, 0);
            &&& r == AOT_TX_OK
            &&& k < j5.pages.len()
            &&& j5.pages[k].info.entries == list
            &&& j5.pages[k].info.flags == flags
            &&& j5.pages[k].info.index == index
        }),
{
    let j0 = j.aot_begun(index, page_count, fp_lo, fp_hi).0;
    let j1 = staged_on(j0, first);
    let step = AotStep::PageBegin { phys, flags, count: list.len() as u32, ram };
    let j2 = stepped(j1, step).0;
    let j3 = staged_on(j2, pushes(list));
    let jf = stepped(j3, AotStep::PageFinish).0;
    let j4 = staged_on(jf, more);
    let page = phys / 0x1000;
    assert(in_order(j0));
    lemma_steps(j0, first);
    lemma_step(j1, step);
    lemma_steps(j2, pushes(list));
    lemma_pushed(j2, list);
    lemma_step(j3, AotStep::PageFinish);
    lemma_steps(jf, more);
    let n = j3.staged->0.pages.len();
    let t = j4.staged->0;
    assert(jf.staged->0.pages == j3.staged->0.pages.push((j3.staged->0.building->0).0));
    assert(t.pages[n as int] == jf.staged->0.pages[n as int]);
    assert(t.pages[n as int].page == page);
    let a = Jit { staged: None, ..j4 };
    assert(jit_aot::unit_in_order(a, t)) by {
        assert forall|i: int| #![trigger t.pages[i]] 0 <= i < t.pages.len() implies ({
            &&& t.pages[i].info.index == t.index
            &&& t.pages[i].info.hidden.len() == 0
            &&& !jit_partition::names_page(a.pages, t.pages[i].page)
        }) by {
            assert(slot_fits(j4, t, t.pages[i]));
        }
    }
    let all = t.pages.len() as int;
    jit_aot::lemma_published(a, t, all);
    assert(t.pages.take(all) =~= t.pages);
    let b = j4.aot_committed().0;
    assert(b.pages == a.pages + t.pages);
    let m = a.pages.len() as int;
    jit_partition::lemma_place(b.pages, page, 0);
    let k = jit_state::place_of(b.pages, page, 0);
    assert(b.pages[m + n] == t.pages[n as int]);
    assert(k <= m + n);
    if k < m {
        assert(b.pages[k] == a.pages[k]);
        assert(slot_fits(j4, t, t.pages[n as int]));
        assert(jit_partition::names_page(j4.pages, page));
    } else if k < m + n {
        assert(b.pages[k] == t.pages[k - m]);
        assert(t.pages[k - m].page != t.pages[n as int].page);
    }
}

} // verus!
