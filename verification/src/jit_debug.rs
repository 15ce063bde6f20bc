//! What can be read of the compiler's state: counters, records, what was published, and a
//! snapshot of the pages with code.
use vstd::prelude::*;
use crate::jit_aot::{NO_INDEX, NO_PAGE};
use crate::jit_chain;
use crate::jit_state;
use crate::jit_state::{contains_u16, find_slot, Jit, JitState, PageSlot, Slot, FUNCTION_COUNTERS};

verus! {

/// The address of a page.
pub open spec fn address_of(page: u32) -> u32 {
    page.wrapping_mul(0x1000)
}

/// The first `n` functions that hold code, each once.
pub open spec fn modules(pages: Seq<Slot>, n: int) -> Seq<u16>
    decreases n,
{
    if n <= 0 {
        Seq::empty()
    } else {
        crate::jit_publish::with(modules(pages, n - 1), pages[n - 1].info.index)
    }
}

/// How many of the first `n` pages a function holds the code of.
pub open spec fn pages_held(pages: Seq<Slot>, index: u16, n: int) -> nat
    decreases n,
{
    if n <= 0 {
        0
    } else if pages[n - 1].info.index == index {
        pages_held(pages, index, n - 1) + 1
    } else {
        pages_held(pages, index, n - 1)
    }
}

/// The most pages that one of the functions of the first `n` pages holds the code of.
pub open spec fn most_held(pages: Seq<Slot>, n: int) -> nat
    decreases n,
{
    if n <= 0 {
        0
    } else {
        let before = most_held(pages, n - 1);
        let here = pages_held(pages, pages[n - 1].info.index, pages.len() as int);
        if here > before {
            here
        } else {
            before
        }
    }
}

/// How many entries the first `n` pages have.
pub open spec fn entry_total(pages: Seq<Slot>, n: int) -> nat
    decreases n,
{
    if n <= 0 {
        0
    } else {
        entry_total(pages, n - 1) + pages[n - 1].info.entries.len()
    }
}

/// A line of a snapshot.
pub open spec fn line_of(s: Slot) -> (u16, u32, u16) {
    (s.info.index, address_of(s.page), s.info.entries.len() as u16)
}

/// The lines of pages.
pub open spec fn lines_of(pages: Seq<Slot>) -> Seq<(u16, u32, u16)> {
    Seq::new(pages.len(), |i: int| line_of(pages[i]))
}

/// Lines are in the order of their addresses.
pub open spec fn by_address(v: Seq<(u16, u32, u16)>) -> bool {
    forall|i: int, j: int| 0 <= i <= j < v.len() ==> (#[trigger] v[i]).1 <= (#[trigger] v[j]).1
}

fn count_held(pages: &Vec<PageSlot>, index: u16) -> (r: usize)
    ensures
        r == pages_held(jit_state::slots(pages@), index, pages@.len() as int),
{
    let n: usize = pages.len();
    let mut r: usize = 0;
    let mut i: usize = 0;
    while i < n
        invariant
            i <= n == pages@.len(),
            r <= i,
            r == pages_held(jit_state::slots(pages@), index, i as int),
        decreases n - i,
    {
        assert(jit_state::slots(pages@)[i as int] == pages@[i as int]@);
        if pages[i].info.wasm_table_index == index {
            r = r + 1;
        }
        i = i + 1;
    }
    r
}

impl JitState {
    pub fn jit_get_double_free_skipped(&self) -> (r: u32)
        ensures
            r == self@.run.counts.double_free_skipped,
    {
        self.run.counts.double_free_skipped
    }

    /// A word of a record of a wrong dispatch, zero where there is none.
    pub fn jit_get_wrong_entry_ring(&self, i: u32, f: u32) -> (r: u32)
        ensures
            r == if i < self@.run.ring.len() {
                self@.run.ring[i as int].field(f)
            } else {
                0
            },
    {
        if (i as usize) < self.run.ring.len() {
            self.run.ring[i as usize].get(f)
        } else {
            0
        }
    }

    pub fn jit_get_wrong_entry_ring_len(&self) -> (r: u32)
        ensures
            r == self@.run.ring.len() as u32,
    {
        self.run.ring.len() as u32
    }

    pub fn jit_get_wrong_entry_direct(&self) -> (r: u32)
        ensures
            r == self@.run.counts.wrong_direct,
    {
        self.run.counts.wrong_direct
    }

    pub fn jit_get_wrong_entry_chain(&self) -> (r: u32)
        ensures
            r == self@.run.counts.wrong_chain,
    {
        self.run.counts.wrong_chain
    }

    pub fn jit_get_ret_memo_mismatch(&self) -> (r: u32)
        ensures
            r == self@.run.counts.memo_mismatch,
    {
        self.run.counts.memo_mismatch
    }

    /// A word of the record of the last wrong dispatch.
    pub fn jit_get_wrong_entry_info(&self, i: u32) -> (r: u32)
        ensures
            r == self@.run.counts.wrong_last.field(i),
    {
        self.run.counts.wrong_last.get(i)
    }

    pub fn jit_get_ret_memo_stale_live(&self) -> (r: u32)
        ensures
            r == self@.run.counts.memo_stale_live,
    {
        self.run.counts.memo_stale_live
    }

    pub fn jit_get_ret_memo_stale_dead(&self) -> (r: u32)
        ensures
            r == self@.run.counts.memo_stale_dead,
    {
        self.run.counts.memo_stale_dead
    }

    pub fn jit_get_stale_meta_at_free(&self) -> (r: u32)
        ensures
            r == self@.run.counts.stale_meta,
    {
        self.run.counts.stale_meta
    }

    pub fn jit_get_stale_meta_tlb_live(&self) -> (r: u32)
        ensures
            r == self@.run.counts.stale_meta_live,
    {
        self.run.counts.stale_meta_live
    }

    pub fn jit_get_stale_meta_tlb_dead(&self) -> (r: u32)
        ensures
            r == self@.run.counts.stale_meta_dead,
    {
        self.run.counts.stale_meta_dead
    }

    /// How often a function has been entered since it took its place.
    pub fn jit_get_module_entry_total(&self, index: u32) -> (r: u32)
        requires
            self.wf(),
        ensures
            r == self@.run.entry_totals[index as int % FUNCTION_COUNTERS as int],
    {
        self.run.entry_totals[index as usize % FUNCTION_COUNTERS]
    }

    pub fn jit_get_tier2_page_count(&self) -> (r: u32)
        ensures
            r == self@.tier2.len() as u32,
    {
        self.tier2_pages.len() as u32
    }

    pub fn jit_get_tier2_promotions(&self) -> (r: u32)
        ensures
            r == self@.run.counts.promotions,
    {
        self.run.counts.promotions
    }

    pub fn jit_get_tier2_blocked_by_cap(&self) -> (r: u32)
        ensures
            r == self@.run.counts.blocked_by_cap,
    {
        self.run.counts.blocked_by_cap
    }

    pub fn jit_get_tier2_blocked_distinct(&self) -> (r: u32)
        ensures
            r == self@.blocked.len() as u32,
    {
        self.tier2_blocked_pages.len() as u32
    }

    /// The address of a page with the larger budget, zero beyond the last.
    pub fn jit_get_tier2_page_at(&self, i: u32) -> (r: u32)
        ensures
            r == if i < self@.tier2.len() {
                address_of(self@.tier2[i as int])
            } else {
                0
            },
    {
        if (i as usize) < self.tier2_pages.len() {
            self.tier2_pages[i as usize].wrapping_mul(0x1000)
        } else {
            0
        }
    }

    pub fn jit_get_tier2_chain_entries(&self) -> (r: u64)
        ensures
            r == self@.run.counts.chain_entries,
    {
        self.run.counts.chain_entries
    }

    pub fn jit_get_tier2_direct_entries(&self) -> (r: u64)
        ensures
            r == self@.run.counts.direct_entries,
    {
        self.run.counts.direct_entries
    }

    pub fn jit_get_tier2_pending_dropped(&self) -> (r: u32)
        ensures
            r == self@.run.counts.pending_dropped,
    {
        self.run.counts.pending_dropped
    }

    /// The place of the function that holds the code of a page.
    pub fn jit_aot_page_table_index(&self, phys: u32) -> (r: u32)
        ensures
            ({
                let k = jit_state::place_of(self@.pages, phys / 0x1000, 0);
                r == if k < self@.pages.len() {
                    self@.pages[k].info.index as u32
                } else {
                    NO_INDEX
                }
            }),
    {
        let k: usize = find_slot(&self.pages, phys / 0x1000);
        if k < self.pages.len() {
            assert(self@.pages[k as int] == self.pages@[k as int]@);
            self.pages[k].info.wasm_table_index as u32
        } else {
            NO_INDEX
        }
    }

    /// The state of the CPU that the code of a page is for.
    pub fn jit_aot_page_state_flags(&self, phys: u32) -> (r: u32)
        ensures
            ({
                let k = jit_state::place_of(self@.pages, phys / 0x1000, 0);
                r == if k < self@.pages.len() {
                    self@.pages[k].info.flags
                } else {
                    NO_PAGE
                }
            }),
    {
        let k: usize = find_slot(&self.pages, phys / 0x1000);
        if k < self.pages.len() {
            assert(self@.pages[k as int] == self.pages@[k as int]@);
            self.pages[k].info.state_flags
        } else {
            NO_PAGE
        }
    }

    /// How many pages a function holds the code of.
    pub fn jit_aot_module_page_count(&self, index: u32) -> (r: u32)
        ensures
            r == jit_chain::module_pages(
                self@.pages,
                index as u16,
                self@.pages.len() as int,
            ).len() as u32,
    {
        jit_chain::find_module_pages(&self.pages, index as u16).len() as u32
    }

    /// The address of a page that a function holds the code of.
    pub fn jit_aot_module_page_at(&self, index: u32, n: u32) -> (r: u32)
        ensures
            ({
                let pages = jit_chain::module_pages(
                    self@.pages,
                    index as u16,
                    self@.pages.len() as int,
                );
                r == if n < pages.len() {
                    address_of(pages[n as int])
                } else {
                    NO_PAGE
                }
            }),
    {
        let pages: Vec<u32> = jit_chain::find_module_pages(&self.pages, index as u16);
        if (n as usize) < pages.len() {
            pages[n as usize].wrapping_mul(0x1000)
        } else {
            NO_PAGE
        }
    }

    /// How many entries the code of a page has.
    pub fn jit_aot_page_entry_count(&self, phys: u32) -> (r: u32)
        ensures
            ({
                let k = jit_state::place_of(self@.pages, phys / 0x1000, 0);
                r == if k < self@.pages.len() {
                    self@.pages[k].info.entries.len() as u32
                } else {
                    0
                }
            }),
    {
        let k: usize = find_slot(&self.pages, phys / 0x1000);
        if k < self.pages.len() {
            assert(self@.pages[k as int] == self.pages@[k as int]@);
            self.pages[k].info.entry_points.len() as u32
        } else {
            0
        }
    }

    /// An entry of the code of a page: the offset in the upper half, the block in the lower.
    pub fn jit_aot_page_entry_at(&self, phys: u32, i: u32) -> (r: u32)
        ensures
            ({
                let k = jit_state::place_of(self@.pages, phys / 0x1000, 0);
                let entries = self@.pages[k].info.entries;
                r == if k < self@.pages.len() && i < entries.len() {
                    (entries[i as int].0 * 0x1_0000 + entries[i as int].1) as u32
                } else {
                    NO_PAGE
                }
            }),
    {
        let k: usize = find_slot(&self.pages, phys / 0x1000);
        if k < self.pages.len() {
            assert(self@.pages[k as int] == self.pages@[k as int]@);
            let entries: &Vec<(u16, u16)> = &self.pages[k].info.entry_points;
            if (i as usize) < entries.len() {
                return entries[i as usize].0 as u32 * 0x1_0000 + entries[i as usize].1 as u32;
            }
        }
        NO_PAGE
    }

    /// How many places of the function table are free, where that is profiled.
    pub fn jit_get_wasm_table_index_free_list_count(&self, profiler: bool) -> (r: u32)
        ensures
            r == if profiler {
                self@.free.len() as u32
            } else {
                0
            },
    {
        if profiler {
            self.free.len() as u32
        } else {
            0
        }
    }

    /// How many entries there are in all, where that is profiled.
    pub fn jit_get_cache_size(&self, profiler: bool) -> (r: u32)
        requires
            entry_total(self@.pages, self@.pages.len() as int) <= u32::MAX,
        ensures
            r == if profiler {
                entry_total(self@.pages, self@.pages.len() as int)
            } else {
                0
            },
    {
        if !profiler {
            return 0;
        }
        let n: usize = self.pages.len();
        let mut r: u32 = 0;
        let mut i: usize = 0;
        while i < n
            invariant
                i <= n == self.pages@.len(),
                entry_total(self@.pages, n as int) <= u32::MAX,
                r == entry_total(self@.pages, i as int),
            decreases n - i,
        {
            assert(self@.pages[i as int] == self.pages@[i as int]@);
            proof {
                lemma_entry_total(self@.pages, i + 1, n as int);
            }
            r = r + self.pages[i].info.entry_points.len() as u32;
            i = i + 1;
        }
        r
    }

    pub fn jit_debug_free_slots(&self) -> (r: u32)
        ensures
            r == self@.free.len() as u32,
    {
        self.free.len() as u32
    }

    /// How many functions hold code.
    pub fn jit_debug_module_count(&self) -> (r: u32)
        ensures
            r == modules(self@.pages, self@.pages.len() as int).len() as u32,
    {
        let mut seen: Vec<u16> = Vec::new();
        let n: usize = self.pages.len();
        let mut i: usize = 0;
        while i < n
            invariant
                i <= n == self.pages@.len(),
                seen@ == modules(self@.pages, i as int),
            decreases n - i,
        {
            assert(self@.pages[i as int] == self.pages@[i as int]@);
            let index: u16 = self.pages[i].info.wasm_table_index;
            if !contains_u16(&seen, index) {
                seen.push(index);
            }
            i = i + 1;
        }
        seen.len() as u32
    }

    pub fn jit_debug_page_count(&self) -> (r: u32)
        ensures
            r == self@.pages.len() as u32,
    {
        self.pages.len() as u32
    }

    /// How many functions that held the code of pages before are known.
    pub fn jit_debug_hidden_count(&self) -> (r: u32)
        requires
            crate::jit_free::hidden_total(self@.pages, self@.pages.len() as int) <= u32::MAX,
        ensures
            r == crate::jit_free::hidden_total(self@.pages, self@.pages.len() as int),
    {
        let n: usize = self.pages.len();
        let mut r: u32 = 0;
        let mut i: usize = 0;
        while i < n
            invariant
                i <= n == self.pages@.len(),
                crate::jit_free::hidden_total(self@.pages, n as int) <= u32::MAX,
                r == crate::jit_free::hidden_total(self@.pages, i as int),
            decreases n - i,
        {
            assert(self@.pages[i as int] == self.pages@[i as int]@);
            proof {
                lemma_hidden_total(self@.pages, i + 1, n as int);
            }
            r = r + self.pages[i].info.hidden.len() as u32;
            i = i + 1;
        }
        r
    }

    /// The most pages that one function holds the code of.
    pub fn jit_debug_max_region_pages(&self) -> (r: u32)
        ensures
            r == most_held(self@.pages, self@.pages.len() as int) as u32,
    {
        let n: usize = self.pages.len();
        let mut r: usize = 0;
        let mut i: usize = 0;
        while i < n
            invariant
                i <= n == self.pages@.len(),
                r == most_held(self@.pages, i as int),
            decreases n - i,
        {
            assert(self@.pages[i as int] == self.pages@[i as int]@);
            let here: usize = count_held(&self.pages, self.pages[i].info.wasm_table_index);
            if here > r {
                r = here;
            }
            i = i + 1;
        }
        r as u32
    }

    /// Takes a snapshot of the pages with code, in the order of their addresses. Returns how many
    /// there are.
    pub fn jit_snapshot_cache(&mut self) -> (r: u32)
        requires
            old(self).wf(),
        ensures
            final(self).wf(),
            r == old(self)@.pages.len() as u32,
            final(self)@.snapshot.len() == old(self)@.pages.len(),
            by_address(final(self)@.snapshot),
            final(self)@.snapshot.to_multiset() == lines_of(old(self)@.pages).to_multiset(),
            final(self)@ == (Jit { snapshot: final(self)@.snapshot, ..old(self)@ }),
    {
        let ghost all = lines_of(self@.pages);
        let mut out: Vec<(u16, u32, u16)> = Vec::new();
        let n: usize = self.pages.len();
        let mut i: usize = 0;
        assert(out@ =~= all.take(0));
        while i < n
            invariant
                i <= n == self.pages@.len(),
                all == lines_of(self@.pages),
                self@ == old(self)@,
                self.wf(),
                out@.len() == i,
                by_address(out@),
                out@.to_multiset() == all.take(i as int).to_multiset(),
            decreases n - i,
        {
            assert(self@.pages[i as int] == self.pages@[i as int]@);
            let line: (u16, u32, u16) = (
                self.pages[i].info.wasm_table_index,
                self.pages[i].page.wrapping_mul(0x1000),
                self.pages[i].info.entry_points.len() as u16,
            );
            assert(line == all[i as int]);
            put_in_order(&mut out, line);
            proof {
                assert(all.take(i + 1) =~= all.take(i as int).push(line));
                vstd::seq_lib::to_multiset_build(all.take(i as int), line);
            }
            i = i + 1;
        }
        assert(all.take(n as int) =~= all);
        self.snapshot = out;
        n as u32
    }

    pub fn jit_snapshot_get_wasm_idx(&self, i: u32) -> (r: u32)
        ensures
            r == if i < self@.snapshot.len() {
                self@.snapshot[i as int].0 as u32
            } else {
                0
            },
    {
        if (i as usize) < self.snapshot.len() {
            self.snapshot[i as usize].0 as u32
        } else {
            0
        }
    }

    pub fn jit_snapshot_get_phys_addr(&self, i: u32) -> (r: u32)
        ensures
            r == if i < self@.snapshot.len() {
                self@.snapshot[i as int].1
            } else {
                0
            },
    {
        if (i as usize) < self.snapshot.len() {
            self.snapshot[i as usize].1
        } else {
            0
        }
    }

    pub fn jit_snapshot_get_entry_count(&self, i: u32) -> (r: u32)
        ensures
            r == if i < self@.snapshot.len() {
                self@.snapshot[i as int].2 as u32
            } else {
                0
            },
    {
        if (i as usize) < self.snapshot.len() {
            self.snapshot[i as usize].2 as u32
        } else {
            0
        }
    }
}

proof fn lemma_entry_total(pages: Seq<Slot>, i: int, n: int)
    requires
        0 <= i <= n,
    ensures
        entry_total(pages, i) <= entry_total(pages, n),
    decreases n - i,
{
    if i < n {
        lemma_entry_total(pages, i, n - 1);
    }
}

proof fn lemma_hidden_total(pages: Seq<Slot>, i: int, n: int)
    requires
        0 <= i <= n,
    ensures
        crate::jit_free::hidden_total(pages, i) <= crate::jit_free::hidden_total(pages, n),
    decreases n - i,
{
    if i < n {
        lemma_hidden_total(pages, i, n - 1);
    }
}

fn put_in_order(v: &mut Vec<(u16, u32, u16)>, line: (u16, u32, u16))
    requires
        by_address(old(v)@),
    ensures
        by_address(final(v)@),
        final(v)@.len() == old(v)@.len() + 1,
        final(v)@.to_multiset() == old(v)@.to_multiset().insert(line),
{
    let mut k: usize = v.len();
    while k > 0 && v[k - 1].1 > line.1
        invariant
            k <= v@.len(),
            v@ == old(v)@,
            by_address(v@),
            forall|j: int| k <= j < v@.len() ==> (#[trigger] v@[j]).1 > line.1,
        decreases k,
    {
        k = k - 1;
    }
    proof {
        assert forall|j: int| 0 <= j < k implies (#[trigger] v@[j]).1 <= line.1 by {
            assert(v@[k - 1].1 <= line.1);
        }
        vstd::seq_lib::to_multiset_insert(v@, k as int, line);
    }
    v.insert(k, line);
}

impl JitState {
    /// Whether a page has code for a state of the CPU, though it could not be entered at an
    /// address.
    pub fn check_missed_entry_points(&self, phys: u32, state_flags: u32) -> (r: bool)
        ensures
            r == ({
                let k = jit_state::place_of(self@.pages, phys / 0x1000, 0);
                k < self@.pages.len() && self@.pages[k].info.flags == state_flags
            }),
    {
        let k: usize = find_slot(&self.pages, phys / 0x1000);
        if k < self.pages.len() {
            assert(self@.pages[k as int] == self.pages@[k as int]@);
            self.pages[k].info.state_flags == state_flags
        } else {
            false
        }
    }
}

/// Whether a number names one of the blocks of a function.
pub fn check_dispatcher_target(target_index: i32, max: i32) -> (r: bool)
    ensures
        r == (0 <= target_index < max),
{
    0 <= target_index && target_index < max
}

/// Whether the instruction pointer, by its physical address, stands on the page of the block
/// that is entered.
pub fn enter_basic_block(phys_eip: u32, eip: u32) -> (r: bool)
    ensures
        r == (eip / 0x1000 == phys_eip / 0x1000),
{
    eip / 0x1000 == phys_eip / 0x1000
}

} // verus!
