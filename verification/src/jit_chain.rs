//! How compiled code is entered: functions are found by address, entries are counted, functions
//! that are entered often get a larger budget, and dispatches can be held against what was
//! published.
use vstd::prelude::*;
use crate::dispatch;
use crate::dispatch::{
    dispatch_meta_get, dispatch_meta_state_flags, dispatch_meta_table_index, dispatch_state_lookup,
    Dispatched, NO_STATE,
};
use crate::jit_aot;
use crate::jit_aot::drop_page;
use crate::jit_config;
use crate::jit_config::dispatch_stats_enabled;
use crate::jit_search;
use crate::jit_state;
use crate::jit_state::{
    contains_u16, contains_u32, Counts, Jit, JitState, PageSlot, Run, Runtime, Slot, NO_TARGET,
    TIER2_PAGE_SET_CAP, TIER2_PENDING_CAP,
};

verus! {

/// Where the places of compiled functions begin in the function table.
pub const WASM_TABLE_OFFSET: u32 = 1024;

/// A function and a block of it, as one number.
pub open spec fn packed_target(index: u16, state: u16) -> i32 {
    (((index + WASM_TABLE_OFFSET) % 0x1_0000 * 0x1_0000 + state) as u32) as i32
}

/// The function and block for a virtual address, [`NO_TARGET`] where there is none.
pub open spec fn resolved(d: Dispatched, virt: u32, state_flags: u32) -> i32 {
    let meta = d.word(virt / 0x1000);
    if meta != 0 && dispatch::flags_of(meta) == state_flags && d.state_at(meta, virt) != NO_STATE {
        packed_target(dispatch::index_of(meta), d.state_at(meta, virt))
    } else {
        NO_TARGET
    }
}

impl Run {
    /// With an entry of a function counted; whether it has now been entered so often that it gets
    /// the larger budget.
    pub open spec fn entry_counted(self, index: u16, threshold: u32) -> (Run, bool) {
        let i = index as int;
        let totals = self.entry_totals.update(i, self.entry_totals[i].wrapping_add(1));
        let count = self.exec_counts[i].wrapping_add(1);
        if threshold == 0 {
            (Run { entry_totals: totals, ..self }, false)
        } else if count < threshold {
            (
                Run {
                    entry_totals: totals,
                    exec_counts: self.exec_counts.update(i, count),
                    ..self
                },
                false,
            )
        } else {
            (
                Run { entry_totals: totals, exec_counts: self.exec_counts.update(i, 0), ..self },
                true,
            )
        }
    }

    /// With an entry from another function counted; one that has been entered often enough waits
    /// for the larger budget.
    pub open spec fn chain_noted(self, target: i32, accounting: bool, threshold: u32) -> Run {
        let index = target as int / 0x1_0000 - WASM_TABLE_OFFSET;
        if index < 0 || index > 0xFFFF {
            self
        } else {
            let c = self.counts;
            let a = Run {
                counts: Counts { chain_entries: c.chain_entries.wrapping_add(1), ..c },
                ..self
            };
            if !accounting {
                a
            } else {
                let (b, crossed) = a.entry_counted(index as u16, threshold);
                if !crossed {
                    b
                } else if b.pending.contains(index as u16) {
                    b
                } else if b.pending.len() >= TIER2_PENDING_CAP {
                    let d = b.counts;
                    Run {
                        counts: Counts {
                            pending_dropped: d.pending_dropped.wrapping_add(1),
                            ..d
                        },
                        ..b
                    }
                } else {
                    Run { pending: b.pending.push(index as u16), ..b }
                }
            }
        }
    }

    /// With a dispatch from another function counted, where that is asked for.
    pub open spec fn chain_tried(self, stats: bool, hit: bool) -> Run {
        let c = self.counts;
        if !stats {
            self
        } else if hit {
            Run { counts: Counts { chain_hits: c.chain_hits.wrapping_add(1), ..c }, ..self }
        } else {
            Run { counts: Counts { chain_misses: c.chain_misses.wrapping_add(1), ..c }, ..self }
        }
    }
}

/// The first `n` pages whose code a function holds.
pub open spec fn module_pages(pages: Seq<Slot>, index: u16, n: int) -> Seq<u32>
    decreases n,
{
    if n <= 0 {
        Seq::empty()
    } else if pages[n - 1].info.index == index {
        module_pages(pages, index, n - 1).push(pages[n - 1].page)
    } else {
        module_pages(pages, index, n - 1)
    }
}

/// With the first `n` of some pages, each once.
pub open spec fn joined(v: Seq<u32>, pages: Seq<u32>, n: int) -> Seq<u32>
    decreases n,
{
    if n <= 0 {
        v
    } else {
        jit_search::with(joined(v, pages, n - 1), pages[n - 1])
    }
}

/// Without the first `n` of some pages.
pub open spec fn parted(v: Seq<u32>, pages: Seq<u32>, n: int) -> Seq<u32>
    decreases n,
{
    if n <= 0 {
        v
    } else {
        let before = parted(v, pages, n - 1);
        jit_aot::page_out(before, pages[n - 1], before.len() as int)
    }
}

/// With the first `n` of some pages that are not in another list.
pub open spec fn joined_but(v: Seq<u32>, pages: Seq<u32>, other: Seq<u32>, n: int) -> Seq<u32>
    decreases n,
{
    if n <= 0 {
        v
    } else {
        let before = joined_but(v, pages, other, n - 1);
        if other.contains(pages[n - 1]) {
            before
        } else {
            jit_search::with(before, pages[n - 1])
        }
    }
}

impl Jit {
    /// With the larger budget for the pages of a function, and the function given up so that it
    /// is compiled anew; whether that was done.
    #[verifier::opaque]
    pub open spec fn promoted(self, index: u16) -> (Jit, bool) {
        let pages = module_pages(self.pages, index, self.pages.len() as int);
        let n = pages.len() as int;
        let c = self.run.counts;
        if n == 0 || (forall|i: int| 0 <= i < n ==> self.tier2.contains(#[trigger] pages[i])) {
            (self, false)
        } else if self.tier2.len() + n > TIER2_PAGE_SET_CAP {
            (
                Jit {
                    blocked: joined_but(self.blocked, pages, self.tier2, n),
                    run: Run {
                        counts: Counts { blocked_by_cap: c.blocked_by_cap.wrapping_add(1), ..c },
                        ..self.run
                    },
                    ..self
                },
                false,
            )
        } else {
            (
                (Jit {
                    tier2: joined(self.tier2, pages, n),
                    blocked: parted(self.blocked, pages, n),
                    run: Run {
                        counts: Counts { promotions: c.promotions.wrapping_add(1), ..c },
                        ..self.run
                    },
                    ..self
                }).forest_freed(seq![index], Seq::empty()),
                true,
            )
        }
    }

    /// With an entry from outside counted; whether the function was given up for the larger
    /// budget.
    pub open spec fn execution_noted(self, index: u16) -> (Jit, bool) {
        let c = self.run.counts;
        let r = Run {
            counts: Counts { direct_entries: c.direct_entries.wrapping_add(1), ..c },
            ..self.run
        };
        let (s, crossed) = r.entry_counted(
            index,
            self.config.values@[jit_config::TIER2_THRESHOLD as int],
        );
        let j = Jit { run: s, ..self };
        if crossed {
            j.promoted(index)
        } else {
            (j, false)
        }
    }

    /// With the larger budget for the first `n` of some functions.
    pub open spec fn all_promoted(self, list: Seq<u16>, n: int) -> Jit
        decreases n,
    {
        if n <= 0 {
            self
        } else {
            self.all_promoted(list, n - 1).promoted(list[n - 1]).0
        }
    }

    /// With the larger budget for the functions that wait for it.
    pub open spec fn drained(self) -> Jit {
        let list = self.run.pending;
        (Jit { run: Run { pending: Seq::empty(), ..self.run }, ..self }).all_promoted(
            list,
            list.len() as int,
        )
    }

    /// A dispatch within a page: the block, or [`NO_TARGET`].
    pub open spec fn page_dispatched(self, virt: u32, index: u16, state_flags: u32) -> (Jit, i32) {
        let meta = self.dispatch.word(virt / 0x1000);
        let state = self.dispatch.state_at(meta, virt);
        let hit = meta != 0 && dispatch::flags_of(meta) == state_flags && dispatch::index_of(meta)
            == index && state != NO_STATE;
        let c = self.run.counts;
        let counted = if self.config.dispatch_stats {
            Counts {
                page_dispatches: c.page_dispatches.wrapping_add(1),
                page_misses: if hit {
                    c.page_misses
                } else {
                    c.page_misses.wrapping_add(1)
                },
                ..c
            }
        } else {
            c
        };
        (
            Jit { run: Run { counts: counted, ..self.run }, ..self },
            if hit {
                state as i32
            } else {
                NO_TARGET
            },
        )
    }
}

impl Runtime {
    /// Counts an entry of a function. Returns whether it now asks for the larger budget.
    pub fn tier2_count_entry(&mut self, index: u16, threshold: u32) -> (r: bool)
        requires
            old(self)@.wf(),
        ensures
            final(self)@.wf(),
            (final(self)@, r) == old(self)@.entry_counted(index, threshold),
    {
        let ghost before = self@;
        let i: usize = index as usize;
        let total: u32 = self.entry_totals[i].wrapping_add(1);
        self.entry_totals.set(i, total);
        if threshold == 0 {
            assert(self@ =~= before.entry_counted(index, threshold).0);
            return false;
        }
        let count: u32 = self.exec_counts[i].wrapping_add(1);
        if count < threshold {
            self.exec_counts.set(i, count);
            assert(self@ =~= before.entry_counted(index, threshold).0);
            return false;
        }
        self.exec_counts.set(i, 0);
        assert(self@ =~= before.entry_counted(index, threshold).0);
        true
    }

    /// Counts an entry from another function.
    pub fn chain_note_execution(&mut self, target: i32, accounting: bool, threshold: u32)
        requires
            old(self)@.wf(),
        ensures
            final(self)@.wf(),
            final(self)@ == old(self)@.chain_noted(target, accounting, threshold),
    {
        let index: i64 = (target as i64 + 0x8000_0000) / 0x1_0000 - 0x8000 - 1024;
        if index < 0 || index > 0xFFFF {
            return ;
        }
        self.counts.chain_entries = self.counts.chain_entries.wrapping_add(1);
        if !accounting {
            return ;
        }
        if !self.tier2_count_entry(index as u16, threshold) {
            return ;
        }
        if contains_u16(&self.pending, index as u16) {
            return ;
        }
        if self.pending.len() >= TIER2_PENDING_CAP {
            self.counts.pending_dropped = self.counts.pending_dropped.wrapping_add(1);
            return ;
        }
        self.pending.push(index as u16);
    }

    /// Counts a dispatch from another function, where that is asked for.
    pub fn chain_try(&mut self, stats: bool, hit: bool)
        ensures
            final(self)@ == old(self)@.chain_tried(stats, hit),
    {
        if stats {
            if hit {
                self.counts.chain_hits = self.counts.chain_hits.wrapping_add(1);
            } else {
                self.counts.chain_misses = self.counts.chain_misses.wrapping_add(1);
            }
        }
    }
}

/// The pages whose code a function holds.
pub fn find_module_pages(pages: &Vec<PageSlot>, index: u16) -> (r: Vec<u32>)
    ensures
        r@ == module_pages(jit_state::slots(pages@), index, pages@.len() as int),
{
    let mut r: Vec<u32> = Vec::new();
    let n: usize = pages.len();
    let mut i: usize = 0;
    while i < n
        invariant
            i <= n == pages@.len(),
            r@ == module_pages(jit_state::slots(pages@), index, i as int),
        decreases n - i,
    {
        assert(jit_state::slots(pages@)[i as int] == pages@[i as int]@);
        if pages[i].info.wasm_table_index == index {
            r.push(pages[i].page);
        }
        i = i + 1;
    }
    r
}

fn all_in(pages: &Vec<u32>, v: &Vec<u32>) -> (r: bool)
    ensures
        r == (forall|i: int| 0 <= i < pages@.len() ==> v@.contains(#[trigger] pages@[i])),
{
    let n: usize = pages.len();
    let mut i: usize = 0;
    while i < n
        invariant
            i <= n == pages@.len(),
            forall|k: int| 0 <= k < i ==> v@.contains(#[trigger] pages@[k]),
        decreases n - i,
    {
        if !contains_u32(v, pages[i]) {
            return false;
        }
        i = i + 1;
    }
    true
}

impl JitState {
    fn block_pages(&mut self, pages: &Vec<u32>)
        requires
            old(self).wf(),
        ensures
            final(self).wf(),
            final(self)@ == (Jit {
                blocked: joined_but(
                    old(self)@.blocked,
                    pages@,
                    old(self)@.tier2,
                    pages@.len() as int,
                ),
                ..old(self)@
            }),
    {
        let n: usize = pages.len();
        let mut i: usize = 0;
        while i < n
            invariant
                i <= n == pages@.len(),
                self.wf(),
                self@ == (Jit {
                    blocked: joined_but(
                        old(self)@.blocked,
                        pages@,
                        old(self)@.tier2,
                        i as int,
                    ),
                    ..old(self)@
                }),
            decreases n - i,
        {
            let page: u32 = pages[i];
            if !contains_u32(&self.tier2_pages, page) && !contains_u32(
                &self.tier2_blocked_pages,
                page,
            ) {
                self.tier2_blocked_pages.push(page);
            }
            i = i + 1;
        }
    }

    fn promote_pages(&mut self, pages: &Vec<u32>)
        requires
            old(self).wf(),
        ensures
            final(self).wf(),
            final(self)@ == (Jit {
                tier2: joined(old(self)@.tier2, pages@, pages@.len() as int),
                blocked: parted(old(self)@.blocked, pages@, pages@.len() as int),
                ..old(self)@
            }),
    {
        let n: usize = pages.len();
        let mut i: usize = 0;
        while i < n
            invariant
                i <= n == pages@.len(),
                self.wf(),
                self@ == (Jit {
                    tier2: joined(old(self)@.tier2, pages@, i as int),
                    blocked: parted(old(self)@.blocked, pages@, i as int),
                    ..old(self)@
                }),
            decreases n - i,
        {
            let page: u32 = pages[i];
            if !contains_u32(&self.tier2_pages, page) {
                self.tier2_pages.push(page);
            }
            self.tier2_blocked_pages = drop_page(&self.tier2_blocked_pages, page);
            i = i + 1;
        }
    }

    fn tier2_promote(&mut self, index: u16) -> (r: bool)
        requires
            old(self).wf(),
        ensures
            final(self).wf(),
            (final(self)@, r) == old(self)@.promoted(index),
    {
        reveal(Jit::promoted);
        let pages: Vec<u32> = find_module_pages(&self.pages, index);
        if pages.len() == 0 {
            return false;
        }
        if all_in(&pages, &self.tier2_pages) {
            return false;
        }
        if pages.len() > TIER2_PAGE_SET_CAP || self.tier2_pages.len() > TIER2_PAGE_SET_CAP
            - pages.len() {
            self.run.counts.blocked_by_cap = self.run.counts.blocked_by_cap.wrapping_add(1);
            self.block_pages(&pages);
            return false;
        }
        self.promote_pages(&pages);
        self.run.counts.promotions = self.run.counts.promotions.wrapping_add(1);
        self.free_wasm_module_tree(index);
        true
    }

    /// Counts an entry of a function from outside. Returns whether it was given up for the larger
    /// budget, and must not be entered.
    pub fn jit_tier2_note_execution(&mut self, index: u16) -> (r: bool)
        requires
            old(self).wf(),
        ensures
            final(self).wf(),
            (final(self)@, r) == old(self)@.execution_noted(index),
    {
        self.run.counts.direct_entries = self.run.counts.direct_entries.wrapping_add(1);
        let threshold: u32 = self.config.values[jit_config::TIER2_THRESHOLD];
        if self.run.tier2_count_entry(index, threshold) {
            self.tier2_promote(index)
        } else {
            false
        }
    }

    /// Gives the functions that wait for the larger budget up.
    pub fn jit_tier2_drain_pending(&mut self)
        requires
            old(self).wf(),
        ensures
            final(self).wf(),
            final(self)@ == old(self)@.drained(),
    {
        let ghost before = self@;
        let mut list: Vec<u16> = Vec::new();
        list.append(&mut self.run.pending);
        assert(list@ =~= before.run.pending);
        let ghost start = self@;
        assert(start =~= Jit { run: Run { pending: Seq::empty(), ..before.run }, ..before });
        let n: usize = list.len();
        let mut i: usize = 0;
        while i < n
            invariant
                i <= n == list@.len(),
                self.wf(),
                self@ == start.all_promoted(list@, i as int),
            decreases n - i,
        {
            self.tier2_promote(list[i]);
            i = i + 1;
        }
    }

    /// The block of a function at an address that is reached by a computed jump.
    pub fn jit_find_cache_entry_in_page(&mut self, virt: u32, index: u16, state_flags: u32) -> (r:
        i32)
        requires
            old(self).wf(),
        ensures
            final(self).wf(),
            (final(self)@, r) == old(self)@.page_dispatched(virt, index, state_flags),
    {
        let ghost before = self@;
        let stats: bool = dispatch_stats_enabled(&self.config);
        if stats {
            self.run.counts.page_dispatches = self.run.counts.page_dispatches.wrapping_add(1);
        }
        let meta: u64 = dispatch_meta_get(&self.dispatch, virt / 0x1000);
        if meta != 0 && dispatch_meta_state_flags(meta) == state_flags
            && dispatch_meta_table_index(meta) == index {
            let state: u16 = dispatch_state_lookup(&self.dispatch, meta, virt);
            if state != NO_STATE {
                assert(self@ =~= before.page_dispatched(virt, index, state_flags).0);
                return state as i32;
            }
        }
        if stats {
            self.run.counts.page_misses = self.run.counts.page_misses.wrapping_add(1);
        }
        assert(self@ =~= before.page_dispatched(virt, index, state_flags).0);
        NO_TARGET
    }
}

} // verus!
