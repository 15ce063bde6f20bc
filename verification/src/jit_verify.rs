//! Dispatches held against what was published, and computed jumps from one function to another.
use vstd::prelude::*;
use crate::dispatch;
use crate::dispatch::{
    dispatch_meta_get, dispatch_meta_state_flags, dispatch_meta_table_index, dispatch_state_lookup,
    DispatchTable, DISPATCH_PAGES, DISPATCH_SLAB_COUNT, NO_STATE, SLAB_CELLS,
};
use crate::jit_chain;
use crate::jit_chain::WASM_TABLE_OFFSET;
use crate::jit_config;
use crate::jit_config::{
    dispatch_stats_enabled, jit_wrong_entry_refuse_enabled, wrong_entry_verify_enabled,
};
use crate::jit_state;
use crate::jit_state::{
    contains_u16, find_slot, CachedCode, Counts, Jit, JitState, Record, RetCell, Run, Slot,
    NO_TARGET, RET_CACHE_SIZE,
};

verus! {

/// Up to two things that were found, and how many there were.
#[derive(Clone, Copy, Debug, PartialEq, Eq, Structural)]
pub struct Found {
    pub count: u32,
    pub first: u32,
    pub second: u32,
}

impl Found {
    pub open spec fn none() -> Found {
        Found { count: 0, first: 0, second: 0 }
    }

    /// With one more, which is kept where there is room for it.
    pub open spec fn plus(self, x: u32, keep: bool) -> Found {
        Found {
            count: (self.count + 1) as u32,
            first: if keep && self.count == 0 {
                x
            } else {
                self.first
            },
            second: if keep && self.count == 1 {
                x
            } else {
                self.second
            },
        }
    }

    fn add_one(self, x: u32, keep: bool) -> (r: Found)
        requires
            self.count < u32::MAX,
        ensures
            r == self.plus(x, keep),
    {
        Found {
            count: self.count + 1,
            first: if keep && self.count == 0 {
                x
            } else {
                self.first
            },
            second: if keep && self.count == 1 {
                x
            } else {
                self.second
            },
        }
    }
}

/// Blocks in the first `n` cells of a slab, each with its offset.
pub open spec fn cells_found(slabs: Seq<u16>, slab: int, n: int) -> Found
    decreases n,
{
    if n <= 0 {
        Found::none()
    } else {
        let before = cells_found(slabs, slab, n - 1);
        let cell = slabs[slab * SLAB_CELLS + n - 1];
        if cell == 0 {
            before
        } else {
            before.plus(((n - 1) * 0x1_0000 + cell - 1) as u32, true)
        }
    }
}

/// Pages among the first `n` that have a slab; all but one are kept.
pub open spec fn sharers(meta: Seq<u64>, slab: int, page: u32, n: int) -> Found
    decreases n,
{
    if n <= 0 {
        Found::none()
    } else {
        let before = sharers(meta, slab, page, n - 1);
        let w = meta[n - 1];
        if w != 0 && dispatch::slab_of(w) == slab {
            before.plus(((n - 1) * 0x1000) as u32, n - 1 != page)
        } else {
            before
        }
    }
}

/// An entry of a page as one number, zero where there is none.
pub open spec fn entry_word(entries: Seq<(u16, u16)>, i: int) -> u32 {
    if i < entries.len() {
        (entries[i].0 * 0x1_0000 + entries[i].1) as u32
    } else {
        0
    }
}

/// A function and block as one number.
pub open spec fn code_word(index: u16, state: u16) -> u32 {
    (index * 0x1_0000 + state) as u32
}

impl Jit {
    /// Records of what the dispatch table has for an address.
    pub open spec fn table_recorded(self, virt: u32) -> Run {
        let meta = self.dispatch.word(virt / 0x1000);
        if meta == 0 {
            self.run
        } else {
            let slab = dispatch::slab_of(meta);
            let cells = cells_found(self.dispatch.slabs, slab, SLAB_CELLS as int);
            let shared = sharers(self.dispatch.meta, slab, virt / 0x1000, DISPATCH_PAGES as int);
            self.run.recorded(
                Record {
                    a: (virt / 0x1000 * 0x1000 + cells.count % 0x1000) as u32,
                    b: cells.first,
                    c: cells.second,
                    tag: 4,
                },
            ).recorded(
                Record {
                    a: (shared.count % 0x1_0000 * 0x1_0000 + slab) as u32,
                    b: shared.first,
                    c: shared.second,
                    tag: 6,
                },
            )
        }
    }

    /// Records of what was published for a physical page.
    pub open spec fn page_recorded(self, phys: u32) -> Run {
        let k = jit_state::place_of(self.pages, phys / 0x1000, 0);
        if k < self.pages.len() {
            let entries = self.pages[k].info.entries;
            self.run.recorded(
                Record {
                    a: (phys / 0x1000 * 0x1000 + entries.len() as u32 % 0x1000) as u32,
                    b: entry_word(entries, 0),
                    c: entry_word(entries, 1),
                    tag: 5,
                },
            )
        } else {
            self.run
        }
    }

    /// A dispatch held against what was published: whether they agree. Where they do not, that is
    /// counted and recorded.
    #[verifier::opaque]
    pub open spec fn verified(
        self,
        phys: u32,
        state_flags: u32,
        index: u16,
        state: u16,
        virt: u32,
        chain: bool,
    ) -> (Jit, bool) {
        let entry = self.found(phys, state_flags);
        if entry.wasm_table_index.0 == index && entry.initial_state == state {
            (self, true)
        } else {
            let c = self.run.counts;
            let last = Record {
                a: virt,
                b: phys,
                c: code_word(index, state),
                tag: code_word(entry.wasm_table_index.0, entry.initial_state),
            };
            let r = (Run {
                counts: Counts {
                    wrong_chain: if chain {
                        c.wrong_chain.wrapping_add(1)
                    } else {
                        c.wrong_chain
                    },
                    wrong_direct: if chain {
                        c.wrong_direct
                    } else {
                        c.wrong_direct.wrapping_add(1)
                    },
                    wrong_last: last,
                    ..c
                },
                ..self.run
            }).recorded(last);
            let s = (Jit { run: r, ..self }).table_recorded(virt);
            (Jit { run: (Jit { run: s, ..self }).page_recorded(phys), ..self }, false)
        }
    }
}

fn find_cells(slabs: &Vec<u16>, slab: usize) -> (r: Found)
    requires
        slab < DISPATCH_SLAB_COUNT,
        slabs@.len() == DISPATCH_SLAB_COUNT * SLAB_CELLS,
    ensures
        r == cells_found(slabs@, slab as int, SLAB_CELLS as int),
{
    let mut r: Found = Found { count: 0, first: 0, second: 0 };
    let mut i: usize = 0;
    while i < SLAB_CELLS
        invariant
            i <= SLAB_CELLS,
            slab < DISPATCH_SLAB_COUNT,
            slabs@.len() == DISPATCH_SLAB_COUNT * SLAB_CELLS,
            r.count <= i,
            r == cells_found(slabs@, slab as int, i as int),
        decreases SLAB_CELLS - i,
    {
        let cell: u16 = slabs[slab * SLAB_CELLS + i];
        if cell != 0 {
            r = r.add_one(i as u32 * 0x1_0000 + (cell as u32 - 1), true);
        }
        i = i + 1;
    }
    r
}

fn find_sharers(meta: &Vec<u64>, slab: usize, page: u32) -> (r: Found)
    requires
        meta@.len() == DISPATCH_PAGES,
        slab < DISPATCH_SLAB_COUNT,
    ensures
        r == sharers(meta@, slab as int, page, DISPATCH_PAGES as int),
{
    let mut r: Found = Found { count: 0, first: 0, second: 0 };
    let mut i: usize = 0;
    while i < DISPATCH_PAGES
        invariant
            i <= DISPATCH_PAGES,
            meta@.len() == DISPATCH_PAGES,
            slab < DISPATCH_SLAB_COUNT,
            r.count <= i,
            r == sharers(meta@, slab as int, page, i as int),
        decreases DISPATCH_PAGES - i,
    {
        let w: u64 = meta[i];
        if w != 0 && (w % 0x1_0000) as usize == slab {
            r = r.add_one(i as u32 * 0x1000, i as u32 != page);
        }
        i = i + 1;
    }
    r
}

fn word_of_entry(entries: &Vec<(u16, u16)>, i: usize) -> (r: u32)
    ensures
        r == entry_word(entries@, i as int),
{
    if i < entries.len() {
        entries[i].0 as u32 * 0x1_0000 + entries[i].1 as u32
    } else {
        0
    }
}

impl JitState {
    fn record_table(&mut self, virt: u32)
        requires
            old(self).wf(),
        ensures
            final(self).wf(),
            final(self)@ == (Jit { run: old(self)@.table_recorded(virt), ..old(self)@ }),
    {
        let meta: u64 = dispatch_meta_get(&self.dispatch, virt / 0x1000);
        if meta == 0 {
            return ;
        }
        let slab: usize = (meta % 0x1_0000) as usize;
        let cells: Found = find_cells(&self.dispatch.slabs, slab);
        let shared: Found = find_sharers(&self.dispatch.meta, slab, virt / 0x1000);
        self.run.wrong_entry_ring_push(
            Record {
                a: virt / 0x1000 * 0x1000 + cells.count % 0x1000,
                b: cells.first,
                c: cells.second,
                tag: 4,
            },
        );
        self.run.wrong_entry_ring_push(
            Record {
                a: shared.count % 0x1_0000 * 0x1_0000 + slab as u32,
                b: shared.first,
                c: shared.second,
                tag: 6,
            },
        );
    }

    fn record_page(&mut self, phys: u32)
        requires
            old(self).wf(),
        ensures
            final(self).wf(),
            final(self)@ == (Jit { run: old(self)@.page_recorded(phys), ..old(self)@ }),
    {
        let k: usize = find_slot(&self.pages, phys / 0x1000);
        if k < self.pages.len() {
            assert(self@.pages[k as int] == self.pages@[k as int]@);
            let n: u32 = self.pages[k].info.entry_points.len() as u32;
            let first: u32 = word_of_entry(&self.pages[k].info.entry_points, 0);
            let second: u32 = word_of_entry(&self.pages[k].info.entry_points, 1);
            self.run.wrong_entry_ring_push(
                Record {
                    a: phys / 0x1000 * 0x1000 + n % 0x1000,
                    b: first,
                    c: second,
                    tag: 5,
                },
            );
        }
    }

    /// Holds a dispatch against what was published. Returns whether they agree.
    pub fn jit_verify_dispatch_entry(
        &mut self,
        phys: u32,
        state_flags: u32,
        index: u16,
        state: u16,
        virt: u32,
        chain: bool,
    ) -> (r: bool)
        requires
            old(self).wf(),
        ensures
            final(self).wf(),
            (final(self)@, r) == old(self)@.verified(phys, state_flags, index, state, virt, chain),
    {
        reveal(Jit::verified);
        let entry: CachedCode = self.jit_find_cache_entry(phys, state_flags);
        if entry.wasm_table_index.0 == index && entry.initial_state == state {
            return true;
        }
        if chain {
            self.run.counts.wrong_chain = self.run.counts.wrong_chain.wrapping_add(1);
        } else {
            self.run.counts.wrong_direct = self.run.counts.wrong_direct.wrapping_add(1);
        }
        let last: Record = Record {
            a: virt,
            b: phys,
            c: index as u32 * 0x1_0000 + state as u32,
            tag: entry.wasm_table_index.0 as u32 * 0x1_0000 + entry.initial_state as u32,
        };
        self.run.counts.wrong_last = last;
        self.run.wrong_entry_ring_push(last);
        self.record_table(virt);
        self.record_page(phys);
        false
    }
}

/// What a computed jump from one function to another goes by: the state of the CPU, the address
/// that is jumped to and where it is mapped, and whether the time slice lets it.
#[derive(Clone, Copy, Debug, PartialEq, Eq, Structural)]
pub struct Jump {
    pub state_flags: u32,
    pub virt: u32,
    pub phys: Option<u32>,
    /// Instructions of a time slice; none left where it is zero.
    pub limit: u32,
    pub instruction_counter: u32,
    pub slice_start: u32,
    pub in_hlt: bool,
}

impl Jump {
    /// The time slice is over.
    pub open spec fn must_leave(self) -> bool {
        self.limit == 0 || self.instruction_counter.wrapping_sub(self.slice_start) >= self.limit
            || self.in_hlt
    }

    /// Where the jump is remembered.
    pub open spec fn cell(self) -> int {
        self.virt as int / 4 % RET_CACHE_SIZE as int
    }
}

/// A function holds the code of a page, or did before.
pub open spec fn is_live(pages: Seq<Slot>, index: u16) -> bool {
    exists|i: int|
        0 <= i < pages.len() && ((#[trigger] pages[i]).info.index == index
            || pages[i].info.hidden.contains(index))
}

/// The place of the function that a number names.
pub open spec fn place_in(target: i32) -> u16 {
    (target as int / 0x1_0000 - WASM_TABLE_OFFSET) as u16
}

impl Jit {
    pub open spec fn stats(self) -> bool {
        self.config.dispatch_stats
    }

    pub open spec fn checks(self) -> bool {
        self.config.on(jit_config::WRONG_ENTRY_REFUSE)
    }

    pub open spec fn refuses(self) -> bool {
        self.config.values@[jit_config::WRONG_ENTRY_REFUSE as int] >= 2
    }

    /// With a jump made to a function.
    pub open spec fn jumped(self, target: i32) -> Jit {
        Jit {
            run: self.run.chain_tried(self.stats(), true).chain_noted(
                target,
                self.config.on(jit_config::CHAIN_TIER2_ACCOUNTING),
                self.config.values@[jit_config::TIER2_THRESHOLD as int],
            ),
            ..self
        }
    }

    /// With a remembered jump that the dispatch table does not lead to counted and recorded.
    pub open spec fn mismatched(self, virt: u32, target: i32, fresh: i32) -> Jit {
        let c = self.run.counts;
        let live = is_live(self.pages, place_in(target));
        let d = Counts {
            memo_mismatch: c.memo_mismatch.wrapping_add(1),
            memo_stale_live: if live {
                c.memo_stale_live.wrapping_add(1)
            } else {
                c.memo_stale_live
            },
            memo_stale_dead: if live {
                c.memo_stale_dead
            } else {
                c.memo_stale_dead.wrapping_add(1)
            },
            ..c
        };
        let r = Run { counts: d, ..self.run };
        Jit {
            run: if d.memo_mismatch <= 8 {
                r.recorded(Record { a: virt, b: target as u32, c: fresh as u32, tag: 2 })
            } else {
                r
            },
            ..self
        }
    }

    /// With what is remembered in a cell forgotten.
    pub open spec fn forgotten(self, cell: int) -> Jit {
        Jit {
            run: Run {
                ret_cache: self.run.ret_cache.update(
                    cell,
                    RetCell { target: NO_TARGET, ..self.run.ret_cache[cell] },
                ),
                ..self.run
            },
            ..self
        }
    }

    /// A jump by the dispatch table.
    #[verifier::opaque]
    pub open spec fn looked_up(self, j: Jump) -> (Jit, i32) {
        let target = jit_chain::resolved(self.dispatch, j.virt, j.state_flags);
        let missed = |x: Jit| Jit { run: x.run.chain_tried(x.stats(), false), ..x };
        if target == NO_TARGET {
            (missed(self), NO_TARGET)
        } else {
            let meta = self.dispatch.word(j.virt / 0x1000);
            let (a, ok) = if !self.checks() {
                (self, true)
            } else {
                match j.phys {
                    Some(phys) => self.verified(
                        phys,
                        j.state_flags,
                        dispatch::index_of(meta),
                        self.dispatch.state_at(meta, j.virt),
                        j.virt,
                        true,
                    ),
                    None => (self, false),
                }
            };
            if ok || !self.refuses() {
                let r = a.run;
                let cell = RetCell {
                    virt: j.virt,
                    state_flags: j.state_flags,
                    target,
                    epoch: r.epoch,
                };
                (
                    (Jit {
                        run: Run { ret_cache: r.ret_cache.update(j.cell(), cell), ..r },
                        ..a
                    }).jumped(target),
                    target,
                )
            } else {
                (missed(a), NO_TARGET)
            }
        }
    }

    /// What is remembered of a jump, where it still holds.
    pub open spec fn remembered(self, j: Jump) -> Option<i32> {
        let cell = self.run.ret_cache[j.cell()];
        if cell.virt == j.virt && cell.state_flags == j.state_flags && cell.target >= 0
            && cell.epoch == self.run.epoch {
            Some(cell.target)
        } else {
            None
        }
    }

    /// A computed jump from one function to another: the function and block, or [`NO_TARGET`].
    pub open spec fn chained(self, j: Jump) -> (Jit, i32) {
        if j.must_leave() {
            (Jit { run: self.run.chain_tried(self.stats(), false), ..self }, NO_TARGET)
        } else {
            match self.remembered(j) {
                None => self.looked_up(j),
                Some(target) => {
                    let fresh = jit_chain::resolved(self.dispatch, j.virt, j.state_flags);
                    if !self.checks() || fresh == target {
                        (self.jumped(target), target)
                    } else {
                        let m = self.mismatched(j.virt, target, fresh);
                        if !self.refuses() {
                            (m.jumped(target), target)
                        } else {
                            m.forgotten(j.cell()).looked_up(j)
                        }
                    }
                },
            }
        }
    }
}

fn resolve(d: &DispatchTable, virt: u32, state_flags: u32) -> (r: i32)
    requires
        d.wf(),
    ensures
        r == jit_chain::resolved(d@, virt, state_flags),
{
    let meta: u64 = dispatch_meta_get(d, virt / 0x1000);
    if meta != 0 && dispatch_meta_state_flags(meta) == state_flags {
        let state: u16 = dispatch_state_lookup(d, meta, virt);
        if state != NO_STATE {
            let index: u16 = dispatch_meta_table_index(meta);
            return ((index as u32 + WASM_TABLE_OFFSET) % 0x1_0000 * 0x1_0000 + state as u32) as i32;
        }
    }
    NO_TARGET
}

impl JitState {
    fn jump_to(&mut self, target: i32)
        requires
            old(self).wf(),
        ensures
            final(self).wf(),
            final(self)@ == old(self)@.jumped(target),
    {
        let stats: bool = dispatch_stats_enabled(&self.config);
        let accounting: bool = self.config.is_on(jit_config::CHAIN_TIER2_ACCOUNTING);
        let threshold: u32 = self.config.values[jit_config::TIER2_THRESHOLD];
        self.run.chain_try(stats, true);
        self.run.chain_note_execution(target, accounting, threshold);
    }

    fn miss(&mut self)
        requires
            old(self).wf(),
        ensures
            final(self).wf(),
            final(self)@ == (Jit {
                run: old(self)@.run.chain_tried(old(self)@.stats(), false),
                ..old(self)@
            }),
    {
        let stats: bool = dispatch_stats_enabled(&self.config);
        self.run.chain_try(stats, false);
    }

    fn lives(&self, index: u16) -> (r: bool)
        ensures
            r == is_live(self@.pages, index),
    {
        let n: usize = self.pages.len();
        let mut i: usize = 0;
        while i < n
            invariant
                i <= n == self.pages@.len(),
                forall|k: int|
                    0 <= k < i ==> (#[trigger] self@.pages[k]).info.index != index
                        && !self@.pages[k].info.hidden.contains(index),
            decreases n - i,
        {
            assert(self@.pages[i as int] == self.pages@[i as int]@);
            if self.pages[i].info.wasm_table_index == index || contains_u16(
                &self.pages[i].info.hidden,
                index,
            ) {
                return true;
            }
            i = i + 1;
        }
        false
    }

    fn note_mismatch(&mut self, virt: u32, target: i32, fresh: i32)
        requires
            old(self).wf(),
            target >= 0,
        ensures
            final(self).wf(),
            final(self)@ == old(self)@.mismatched(virt, target, fresh),
    {
        self.run.counts.memo_mismatch = self.run.counts.memo_mismatch.wrapping_add(1);
        let index: u16 = (target / 0x1_0000 - 1024) as u16;
        if self.lives(index) {
            self.run.counts.memo_stale_live = self.run.counts.memo_stale_live.wrapping_add(1);
        } else {
            self.run.counts.memo_stale_dead = self.run.counts.memo_stale_dead.wrapping_add(1);
        }
        if self.run.counts.memo_mismatch <= 8 {
            self.run.wrong_entry_ring_push(
                Record { a: virt, b: target as u32, c: fresh as u32, tag: 2 },
            );
        }
    }

    fn look_up(&mut self, j: Jump) -> (r: i32)
        requires
            old(self).wf(),
        ensures
            final(self).wf(),
            (final(self)@, r) == old(self)@.looked_up(j),
    {
        reveal(Jit::looked_up);
        let ghost before = self@;
        let target: i32 = resolve(&self.dispatch, j.virt, j.state_flags);
        if target == NO_TARGET {
            self.miss();
            return NO_TARGET;
        }
        let mut ok: bool = true;
        if wrong_entry_verify_enabled(&self.config) {
            let meta: u64 = dispatch_meta_get(&self.dispatch, j.virt / 0x1000);
            let index: u16 = dispatch_meta_table_index(meta);
            let state: u16 = dispatch_state_lookup(&self.dispatch, meta, j.virt);
            ok = match j.phys {
                Some(phys) => self.jit_verify_dispatch_entry(
                    phys,
                    j.state_flags,
                    index,
                    state,
                    j.virt,
                    true,
                ),
                None => false,
            };
            proof {
                reveal(Jit::verified);
            }
        }
        if ok || !jit_wrong_entry_refuse_enabled(&self.config) {
            let k: usize = (j.virt / 4) as usize % RET_CACHE_SIZE;
            let epoch: u64 = self.run.epoch;
            self.run.ret_cache.set(
                k,
                RetCell { virt: j.virt, state_flags: j.state_flags, target, epoch },
            );
            self.jump_to(target);
            target
        } else {
            self.miss();
            NO_TARGET
        }
    }

    /// Finds the function and block for a computed jump from one function to another.
    pub fn jit_find_cache_entry_for_dynamic_chaining(&mut self, j: Jump) -> (r: i32)
        requires
            old(self).wf(),
        ensures
            final(self).wf(),
            (final(self)@, r) == old(self)@.chained(j),
    {
        let elapsed: u32 = j.instruction_counter.wrapping_sub(j.slice_start);
        if j.limit == 0 || elapsed >= j.limit || j.in_hlt {
            self.miss();
            return NO_TARGET;
        }
        let k: usize = (j.virt / 4) as usize % RET_CACHE_SIZE;
        let cell: RetCell = self.run.ret_cache[k];
        if cell.virt == j.virt && cell.state_flags == j.state_flags && cell.target >= 0
            && cell.epoch == self.run.epoch {
            if !wrong_entry_verify_enabled(&self.config) {
                self.jump_to(cell.target);
                return cell.target;
            }
            let fresh: i32 = resolve(&self.dispatch, j.virt, j.state_flags);
            if fresh == cell.target {
                self.jump_to(cell.target);
                return cell.target;
            }
            self.note_mismatch(j.virt, cell.target, fresh);
            if !jit_wrong_entry_refuse_enabled(&self.config) {
                self.jump_to(cell.target);
                return cell.target;
            }
            self.run.ret_cache.set(
                k,
                RetCell {
                    virt: cell.virt,
                    state_flags: cell.state_flags,
                    target: NO_TARGET,
                    epoch: cell.epoch,
                },
            );
        }
        self.look_up(j)
    }
}

/// What is remembered was noted at some time until now.
pub open spec fn noted_before(r: Run) -> bool {
    forall|k: int| 0 <= k < r.ret_cache.len() ==> (#[trigger] r.ret_cache[k]).epoch <= r.epoch
}

/// Once a place of the function table is free, no jump is remembered, and its function waits for
/// nothing: whatever takes the place next inherits none of it.
pub proof fn law_a_freed_place_is_forgotten(j: Jit, index: u16, jump: Jump)
    requires
        j.wf(),
        noted_before(j.run),
        j.run.epoch < u64::MAX,
        !j.free.contains(index),
    ensures
        j.index_freed(index).remembered(jump) is None,
        !j.index_freed(index).run.pending.contains(index),
        j.index_freed(index).run.exec_counts[index as int] == 0,
        j.index_freed(index).run.entry_totals[index as int] == 0,
        noted_before(j.index_freed(index).run),
{
    reveal(Jit::index_freed);
    let b = j.index_freed(index);
    let n = DISPATCH_PAGES as int;
    crate::jit_free::lemma_audit_keeps(j.run, j.dispatch.meta, j.tlb, index, n);
    assert(b.run.ret_cache == j.run.ret_cache);
    assert(b.run.epoch == j.run.epoch + 1);
    assert(j.run.ret_cache[jump.cell()].epoch <= j.run.epoch);
    lemma_without_is_out(j.run.pending, index, j.run.pending.len() as int);
}

proof fn lemma_without_is_out(v: Seq<u16>, x: u16, n: int)
    requires
        0 <= n <= v.len(),
    ensures
        !crate::jit_free::without(v, x, n).contains(x),
    decreases n,
{
    if n > 0 {
        lemma_without_is_out(v, x, n - 1);
        let b = crate::jit_free::without(v, x, n - 1);
        let w = crate::jit_free::without(v, x, n);
        if w.contains(x) {
            let k = choose|k: int| 0 <= k < w.len() && w[k] == x;
            if k < b.len() {
                assert(b[k] == x);
            }
        }
    }
}

/// A jump does not go on past a request to leave, or past the end of the time slice: it goes
/// nowhere, and what is remembered stays.
pub proof fn law_no_jump_passes_a_request_to_leave(j: Jit, jump: Jump)
    requires
        jump.limit == 0 || jump.in_hlt || jump.instruction_counter.wrapping_sub(jump.slice_start)
            >= jump.limit,
    ensures
        j.chained(jump).1 == NO_TARGET,
        j.chained(jump).0.run.ret_cache == j.run.ret_cache,
        j.chained(jump).0.run.pending == j.run.pending,
        j.chained(jump).0.pages == j.pages,
{
}

proof fn lemma_jumped(j: Jit, target: i32)
    ensures
        j.jumped(target).run.ret_cache == j.run.ret_cache,
        j.jumped(target).run.epoch == j.run.epoch,
{
}

proof fn lemma_looked_up(j: Jit, jump: Jump)
    requires
        j.run.ret_cache.len() == RET_CACHE_SIZE,
    ensures
        ({
            let (a, target) = j.looked_up(jump);
            &&& a.run.epoch == j.run.epoch
            &&& target >= 0 ==> a.remembered(jump) == Some(target)
            &&& noted_before(j.run) ==> noted_before(a.run)
        }),
{
    reveal(Jit::looked_up);
    reveal(Jit::verified);
}

/// A jump that went somewhere is remembered, and is made again the same way until a place of the
/// function table is freed; nothing is remembered from a time that is yet to come.
pub proof fn law_jumps_are_remembered(j: Jit, jump: Jump)
    requires
        j.wf(),
        noted_before(j.run),
        j.chained(jump).1 >= 0,
    ensures
        j.chained(jump).0.remembered(jump) == Some(j.chained(jump).1),
        j.chained(jump).0.run.epoch == j.run.epoch,
        noted_before(j.chained(jump).0.run),
{
    lemma_looked_up(j, jump);
    if let Some(target) = j.remembered(jump) {
        let fresh = jit_chain::resolved(j.dispatch, jump.virt, jump.state_flags);
        let m = j.mismatched(jump.virt, target, fresh);
        lemma_jumped(j, target);
        lemma_jumped(m, target);
        lemma_looked_up(m.forgotten(jump.cell()), jump);
    }
}

/// Dispatches that are only watched go where they would go unwatched.
pub proof fn law_watching_changes_no_dispatch(a: Jit, b: Jit, jump: Jump)
    requires
        !a.checks(),
        b.checks(),
        !b.refuses(),
        a.run == b.run,
        a.dispatch == b.dispatch,
    ensures
        a.chained(jump).1 == b.chained(jump).1,
{
    reveal(Jit::looked_up);
    assert(a.remembered(jump) == b.remembered(jump));
}

/// A dispatch that is refused goes nowhere: where wrong dispatches are refused, a jump goes to
/// the function and block that were published for its address, or stays.
pub proof fn law_refused_dispatches_stay(j: Jit, jump: Jump)
    requires
        j.wf(),
        j.refuses(),
        j.remembered(jump) is None,
        jump.phys is Some,
    ensures
        ({
            let r = j.chained(jump).1;
            let entry = j.found(jump.phys->0, jump.state_flags);
            r == NO_TARGET || r == jit_chain::packed_target(
                entry.wasm_table_index.0,
                entry.initial_state,
            )
        }),
{
    reveal(Jit::looked_up);
    reveal(Jit::verified);
}

proof fn lemma_joined(v: Seq<u32>, pages: Seq<u32>, n: int)
    requires
        0 <= n <= pages.len(),
    ensures
        jit_chain::joined(v, pages, n).len() <= v.len() + n,
    decreases n,
{
    if n > 0 {
        lemma_joined(v, pages, n - 1);
    }
}

/// The pages with the larger budget stay within their limit.
pub proof fn law_the_larger_budget_is_limited(j: Jit, index: u16)
    requires
        j.tier2.len() <= crate::jit_state::TIER2_PAGE_SET_CAP,
    ensures
        j.promoted(index).0.tier2.len() <= crate::jit_state::TIER2_PAGE_SET_CAP,
{
    reveal(Jit::promoted);
    let pages = jit_chain::module_pages(j.pages, index, j.pages.len() as int);
    let n = pages.len() as int;
    lemma_joined(j.tier2, pages, n);
    let c = j.run.counts;
    let a = Jit {
        tier2: jit_chain::joined(j.tier2, pages, n),
        blocked: jit_chain::parted(j.blocked, pages, n),
        run: Run {
            counts: Counts { promotions: c.promotions.wrapping_add(1), ..c },
            ..j.run
        },
        ..j
    };
    crate::jit_free::lemma_forest_keeps(a, seq![index], Seq::empty());
}

proof fn lemma_module_pages(pages: Seq<Slot>, index: u16, n: int)
    requires
        0 <= n <= pages.len(),
        jit_chain::module_pages(pages, index, n).len() > 0,
    ensures
        jit_state::used(pages, index),
    decreases n,
{
    if n > 0 {
        if pages[n - 1].info.index != index {
            lemma_module_pages(pages, index, n - 1);
        }
    }
}

/// Giving a function the larger budget leaves every place of the function table in one hand.
pub proof fn law_the_larger_budget_keeps_the_places(j: Jit, index: u16)
    requires
        j.partitioned(),
    ensures
        j.promoted(index).0.partitioned(),
        j.promoted(index).0.run.counts.double_free_skipped == j.run.counts.double_free_skipped,
{
    reveal(Jit::promoted);
    let pages = jit_chain::module_pages(j.pages, index, j.pages.len() as int);
    let n = pages.len() as int;
    let (b, done) = j.promoted(index);
    if !done {
        crate::jit_partition::lemma_same_places(j, b);
    } else {
        lemma_module_pages(j.pages, index, j.pages.len() as int);
        let c = j.run.counts;
        let a = Jit {
            tier2: jit_chain::joined(j.tier2, pages, n),
            blocked: jit_chain::parted(j.blocked, pages, n),
            run: Run {
                counts: Counts { promotions: c.promotions.wrapping_add(1), ..c },
                ..j.run
            },
            ..j
        };
        crate::jit_partition::lemma_same_places(j, a);
        let stack = seq![index];
        assert(a.partitioned_while(stack, Seq::empty())) by {
            let i = choose|i: int| 0 <= i < j.pages.len() && (#[trigger] j.pages[i]).info.index
                == index;
            assert(a.pages[i].info.index == index);
            assert forall|x: u16| crate::jit_partition::is_place(x) implies a.free.contains(x)
                || #[trigger] jit_state::used(a.pages, x) || a.held(x) || stack.contains(x) by {}
        }
        crate::jit_partition::lemma_forest_keeps_partition(a, stack, Seq::empty());
    }
}

} // verus!
