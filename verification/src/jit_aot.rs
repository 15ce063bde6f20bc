//! Units that were compiled ahead of time take the place of compiled functions. A unit is staged
//! page by page for a place of the function table that it reserves; then all of its pages are
//! published at once, or none.
use vstd::prelude::*;
use crate::jit_config;
use crate::jit_config::jit_codegen_fingerprint;
use crate::jit_laws;
use crate::jit_partition;
use crate::jit_state;
use crate::jit_state::{
    contains_u16, contains_u32, find_slot, AotStagedPage, AotTransaction, Counts, Info, Jit,
    JitState, PageInfo, PageSlot, Run, Slot, Staged, AOT_TX_MAX_ENTRIES, TIER2_PAGE_SET_CAP,
    WASM_TABLE_SIZE,
};

verus! {

/// Pages of a unit, at most.
pub const AOT_TX_MAX_PAGES: u32 = 256;

/// Entries of a page, at most.
pub const AOT_TX_MAX_ENTRIES_PER_PAGE: usize = 4096;

/// What the steps of staging give.
pub const AOT_TX_OK: u32 = 0;

pub const AOT_TX_BAD_STATE: u32 = 1;

pub const AOT_TX_BAD_INDEX: u32 = 2;

pub const AOT_TX_SLOT_UNAVAILABLE: u32 = 3;

pub const AOT_TX_FINGERPRINT_MISMATCH: u32 = 4;

pub const AOT_TX_BAD_PAGE_COUNT: u32 = 5;

pub const AOT_TX_BAD_PAGE: u32 = 6;

pub const AOT_TX_PAGE_OWNED: u32 = 7;

pub const AOT_TX_BAD_FLAGS: u32 = 8;

pub const AOT_TX_BAD_ENTRY: u32 = 9;

pub const AOT_TX_NO_ENTRIES: u32 = 10;

/// No place of the function table.
pub const NO_INDEX: u32 = 0xFFFF;

/// No page, no flags, no entry.
pub const NO_PAGE: u32 = 0xFFFF_FFFF;

/// The place of a number in a list from the `i`-th on, the length where there is none.
pub open spec fn position(v: Seq<u16>, x: u16, i: int) -> int
    decreases v.len() - i,
{
    if i >= v.len() {
        v.len() as int
    } else if v[i] == x {
        i
    } else {
        position(v, x, i + 1)
    }
}

/// A list without its `k`-th number: the last one takes its place.
pub open spec fn swapped_out(v: Seq<u16>, k: int) -> Seq<u16> {
    v.update(k, v.last()).drop_last()
}

/// A function held the code of one of the first `n` pages before.
pub open spec fn known_before(pages: Seq<Slot>, index: u16) -> bool {
    exists|i: int| 0 <= i < pages.len() && (#[trigger] pages[i]).info.hidden.contains(index)
}

impl Jit {
    /// The place is taken: something is compiled for it, or a function in it holds code or did.
    pub open spec fn taken(self, index: u16) -> bool {
        ||| self.compiling is Some && self.compiling->0.index == index
        ||| jit_state::used(self.pages, index)
        ||| known_before(self.pages, index)
    }

    /// A unit begun for a place, with so many pages.
    pub open spec fn aot_begun(self, index: u32, page_count: u32, fp_lo: u32, fp_hi: u32) -> (
        Jit,
        u32,
    ) {
        let print = jit_config::fingerprint(self.config);
        let k = position(self.free, index as u16, 0);
        if self.staged is Some {
            (self, AOT_TX_BAD_STATE)
        } else if index == 0 || index >= WASM_TABLE_SIZE {
            (self, AOT_TX_BAD_INDEX)
        } else if page_count == 0 || page_count > AOT_TX_MAX_PAGES {
            (self, AOT_TX_BAD_PAGE_COUNT)
        } else if fp_lo != (print % 0x1_0000_0000) as u32 || fp_hi != (print / 0x1_0000_0000) as u32 {
            (self, AOT_TX_FINGERPRINT_MISMATCH)
        } else if self.taken(index as u16) || k >= self.free.len() {
            (self, AOT_TX_SLOT_UNAVAILABLE)
        } else {
            (
                Jit {
                    free: swapped_out(self.free, k),
                    staged: Some(
                        Staged {
                            index: index as u16,
                            expected_pages: page_count as usize,
                            pages: Seq::empty(),
                            building: None,
                            entry_total: 0,
                            ready: false,
                        },
                    ),
                    ..self
                },
                AOT_TX_OK,
            )
        }
    }

    /// The unit that is staged and not yet complete.
    pub open spec fn open_unit(self) -> Option<Staged> {
        match self.staged {
            Some(t) => if t.ready {
                None
            } else {
                Some(t)
            },
            None => None,
        }
    }

    /// A page of the unit begun, with so many entries; guest memory has `ram` bytes.
    pub open spec fn aot_page_begun(self, phys: u32, flags: u32, count: u32, ram: u32) -> (
        Jit,
        u32,
    ) {
        if phys % 0x1000 != 0 || phys > ram || ram - phys < 0x1000 {
            (self, AOT_TX_BAD_PAGE)
        } else if flags > 15 {
            (self, AOT_TX_BAD_FLAGS)
        } else if jit_state::holds_page(self.pages, phys / 0x1000) {
            (self, AOT_TX_PAGE_OWNED)
        } else {
            match self.open_unit() {
                None => (self, AOT_TX_BAD_STATE),
                Some(t) => if t.building is Some || t.pages.len() >= t.expected_pages {
                    (self, AOT_TX_BAD_STATE)
                } else if count > AOT_TX_MAX_ENTRIES_PER_PAGE || t.entry_total + count
                    > AOT_TX_MAX_ENTRIES {
                    (self, AOT_TX_BAD_ENTRY)
                } else if jit_state::holds_page(t.pages, phys / 0x1000) {
                    (self, AOT_TX_PAGE_OWNED)
                } else {
                    let slot = Slot {
                        page: phys / 0x1000,
                        info: Info {
                            index: t.index,
                            hidden: Seq::empty(),
                            entries: Seq::empty(),
                            flags,
                        },
                    };
                    (
                        Jit {
                            staged: Some(
                                Staged { building: Some((slot, count as usize)), ..t },
                            ),
                            ..self
                        },
                        AOT_TX_OK,
                    )
                },
            }
        }
    }

    /// An entry added to the page that was begun.
    pub open spec fn aot_entry_pushed(self, offset: u32, state: u32) -> (Jit, u32) {
        match self.open_unit() {
            None => (self, AOT_TX_BAD_STATE),
            Some(t) => match t.building {
                None => (self, AOT_TX_BAD_STATE),
                Some((slot, expected)) => if offset > 0xFFF || state > 0xFFFF
                    || slot.info.entries.len() >= expected {
                    (self, AOT_TX_BAD_ENTRY)
                } else {
                    let more = Slot {
                        page: slot.page,
                        info: Info {
                            entries: slot.info.entries.push((offset as u16, state as u16)),
                            ..slot.info
                        },
                    };
                    (
                        Jit {
                            staged: Some(Staged { building: Some((more, expected)), ..t }),
                            ..self
                        },
                        AOT_TX_OK,
                    )
                },
            },
        }
    }

    /// The page that was begun is complete.
    pub open spec fn aot_page_finished(self) -> (Jit, u32) {
        match self.open_unit() {
            None => (self, AOT_TX_BAD_STATE),
            Some(t) => match t.building {
                None => (self, AOT_TX_BAD_STATE),
                Some((slot, expected)) => if slot.info.entries.len() != expected {
                    (self, AOT_TX_BAD_ENTRY)
                } else {
                    (
                        Jit {
                            staged: Some(
                                Staged {
                                    building: None,
                                    entry_total: (t.entry_total + expected) as usize,
                                    pages: t.pages.push(slot),
                                    ..t
                                },
                            ),
                            ..self
                        },
                        AOT_TX_OK,
                    )
                },
            },
        }
    }

    /// The unit is complete.
    pub open spec fn aot_prepared(self) -> (Jit, u32) {
        match self.open_unit() {
            None => (self, AOT_TX_BAD_STATE),
            Some(t) => if t.building is Some || t.pages.len() != t.expected_pages {
                (self, AOT_TX_BAD_STATE)
            } else if t.entry_total == 0 {
                (self, AOT_TX_NO_ENTRIES)
            } else {
                (Jit { staged: Some(Staged { ready: true, ..t }), ..self }, AOT_TX_OK)
            },
        }
    }

    /// The unit is given up, and its place is free.
    pub open spec fn aot_aborted(self) -> (Jit, u32) {
        match self.staged {
            None => (self, AOT_TX_BAD_STATE),
            Some(t) => ((Jit { staged: None, ..self }).index_freed(t.index), AOT_TX_OK),
        }
    }

    /// With one page of a unit published. The page has the larger budget from now on, unless
    /// too many others have it.
    pub open spec fn page_published(self, s: Slot) -> Jit {
        let k = jit_state::place_of(self.pages, s.page, 0);
        let pages = if k < self.pages.len() {
            self.pages.update(k, s)
        } else {
            self.pages.push(s)
        };
        if self.tier2.len() < TIER2_PAGE_SET_CAP || self.tier2.contains(s.page) {
            Jit {
                pages,
                tier2: crate::jit_search::with(self.tier2, s.page),
                blocked: page_out(self.blocked, s.page, self.blocked.len() as int),
                ..self
            }
        } else {
            let c = self.run.counts;
            Jit {
                pages,
                blocked: crate::jit_search::with(self.blocked, s.page),
                run: Run {
                    counts: Counts {
                        aot_blocked_by_cap: c.aot_blocked_by_cap.wrapping_add(1),
                        ..c
                    },
                    ..self.run
                },
                ..self
            }
        }
    }

    /// With the first `n` of some pages published.
    pub open spec fn pages_published(self, s: Seq<Slot>, n: int) -> Jit
        decreases n,
    {
        if n <= 0 {
            self
        } else {
            self.pages_published(s, n - 1).page_published(s[n - 1])
        }
    }

    /// The unit is published, where it is complete.
    pub open spec fn aot_committed(self) -> (Jit, u32) {
        match self.staged {
            None => (self, AOT_TX_BAD_STATE),
            Some(t) => if !t.ready {
                (self, AOT_TX_BAD_STATE)
            } else {
                let j = (Jit { staged: None, ..self }).pages_published(
                    t.pages,
                    t.pages.len() as int,
                );
                let c = j.run.counts;
                (
                    Jit {
                        run: Run {
                            counts: Counts {
                                aot_registered: c.aot_registered.wrapping_add(
                                    t.pages.len() as u32,
                                ),
                                ..c
                            },
                            ..j.run
                        },
                        ..j
                    },
                    AOT_TX_OK,
                )
            },
        }
    }
}

/// The first `n` pages of a list without one.
pub open spec fn page_out(v: Seq<u32>, page: u32, n: int) -> Seq<u32>
    decreases n,
{
    if n <= 0 {
        Seq::empty()
    } else if v[n - 1] == page {
        page_out(v, page, n - 1)
    } else {
        page_out(v, page, n - 1).push(v[n - 1])
    }
}

/// A list of pages without one.
pub fn drop_page(v: &Vec<u32>, page: u32) -> (r: Vec<u32>)
    ensures
        r@ == page_out(v@, page, v@.len() as int),
{
    let mut r: Vec<u32> = Vec::new();
    let n: usize = v.len();
    let mut i: usize = 0;
    while i < n
        invariant
            i <= n == v@.len(),
            r@ == page_out(v@, page, i as int),
        decreases n - i,
    {
        if v[i] != page {
            r.push(v[i]);
        }
        i = i + 1;
    }
    r
}

fn find_place(v: &Vec<u16>, x: u16) -> (r: usize)
    ensures
        r == position(v@, x, 0),
        r <= v@.len(),
        r < v@.len() ==> v@[r as int] == x,
{
    let n: usize = v.len();
    let mut i: usize = 0;
    while i < n
        invariant
            i <= n == v@.len(),
            position(v@, x, i as int) == position(v@, x, 0),
        decreases n - i,
    {
        if v[i] == x {
            return i;
        }
        i = i + 1;
    }
    i
}

impl JitState {
    fn is_taken(&self, index: u16) -> (r: bool)
        ensures
            r == self@.taken(index),
    {
        if let Some(c) = &self.compiling {
            if c.wasm_table_index == index {
                return true;
            }
        }
        let n: usize = self.pages.len();
        let mut i: usize = 0;
        while i < n
            invariant
                i <= n == self.pages@.len(),
                !(self@.compiling is Some && self@.compiling->0.index == index),
                forall|k: int|
                    0 <= k < i ==> (#[trigger] self@.pages[k]).info.index != index
                        && !self@.pages[k].info.hidden.contains(index),
            decreases n - i,
        {
            assert(self@.pages[i as int] == self.pages@[i as int]@);
            if self.pages[i].info.wasm_table_index == index || contains_u16(
                &self.pages[i].info.hidden,
                index,
            ) {
                return true;
            }
            i = i + 1;
        }
        false
    }

    /// Begins a unit for a place of the function table, with so many pages. The unit must have
    /// been compiled with the settings that are in force.
    pub fn jit_aot_tx_begin(&mut self, index: u32, page_count: u32, fp_lo: u32, fp_hi: u32) -> (r:
        u32)
        requires
            old(self).wf(),
        ensures
            final(self).wf(),
            (final(self)@, r) == old(self)@.aot_begun(index, page_count, fp_lo, fp_hi),
    {
        if self.staged.is_some() {
            return AOT_TX_BAD_STATE;
        }
        if index == 0 || index >= WASM_TABLE_SIZE {
            return AOT_TX_BAD_INDEX;
        }
        if page_count == 0 || page_count > AOT_TX_MAX_PAGES {
            return AOT_TX_BAD_PAGE_COUNT;
        }
        let print: u64 = jit_codegen_fingerprint(&self.config);
        if fp_lo != (print % 0x1_0000_0000) as u32 || fp_hi != (print / 0x1_0000_0000) as u32 {
            return AOT_TX_FINGERPRINT_MISMATCH;
        }
        if self.is_taken(index as u16) {
            return AOT_TX_SLOT_UNAVAILABLE;
        }
        let k: usize = find_place(&self.free, index as u16);
        if k >= self.free.len() {
            return AOT_TX_SLOT_UNAVAILABLE;
        }
        let ghost before = self@;
        self.free.swap_remove(k);
        assert(self.free@ =~= swapped_out(before.free, k as int));
        let unit: AotTransaction = AotTransaction {
            wasm_table_index: index as u16,
            expected_pages: page_count as usize,
            pages: Vec::new(),
            building: None,
            entry_total: 0,
            ready: false,
        };
        assert(unit@.pages =~= Seq::empty());
        self.staged = Some(unit);
        assert(self@ =~= before.aot_begun(index, page_count, fp_lo, fp_hi).0);
        AOT_TX_OK
    }

    /// Begins a page of the unit, with so many entries; guest memory has `ram` bytes.
    pub fn jit_aot_tx_page_begin(&mut self, phys: u32, flags: u32, entry_count: u32, ram: u32) -> (
    r: u32)
        requires
            old(self).wf(),
        ensures
            final(self).wf(),
            (final(self)@, r) == old(self)@.aot_page_begun(phys, flags, entry_count, ram),
    {
        if phys % 0x1000 != 0 || phys > ram || ram - phys < 0x1000 {
            return AOT_TX_BAD_PAGE;
        }
        if flags > 15 {
            return AOT_TX_BAD_FLAGS;
        }
        let page: u32 = phys / 0x1000;
        if find_slot(&self.pages, page) < self.pages.len() {
            return AOT_TX_PAGE_OWNED;
        }
        let ghost before = self@;
        match self.staged.take() {
            None => AOT_TX_BAD_STATE,
            Some(unit) => {
                let mut unit: AotTransaction = unit;
                let ghost t = unit@;
                if unit.ready || unit.building.is_some() || unit.pages.len() >= unit.expected_pages {
                    self.staged = Some(unit);
                    return AOT_TX_BAD_STATE;
                }
                let count: usize = entry_count as usize;
                if count > AOT_TX_MAX_ENTRIES_PER_PAGE || unit.entry_total + count
                    > AOT_TX_MAX_ENTRIES {
                    self.staged = Some(unit);
                    return AOT_TX_BAD_ENTRY;
                }
                if find_slot(&unit.pages, page) < unit.pages.len() {
                    self.staged = Some(unit);
                    return AOT_TX_PAGE_OWNED;
                }
                let slot: PageSlot = PageSlot {
                    page,
                    info: PageInfo {
                        wasm_table_index: unit.wasm_table_index,
                        hidden: Vec::new(),
                        entry_points: Vec::new(),
                        state_flags: flags,
                    },
                };
                assert(slot@ =~= Slot {
                    page,
                    info: Info {
                        index: t.index,
                        hidden: Seq::empty(),
                        entries: Seq::empty(),
                        flags,
                    },
                });
                unit.building = Some(AotStagedPage { slot, expected_entries: count });
                self.staged = Some(unit);
                assert(self@ =~= before.aot_page_begun(phys, flags, entry_count, ram).0);
                AOT_TX_OK
            },
        }
    }

    /// Adds an entry to the page that was begun.
    pub fn jit_aot_tx_entry_push(&mut self, page_offset: u32, initial_state: u32) -> (r: u32)
        requires
            old(self).wf(),
        ensures
            final(self).wf(),
            (final(self)@, r) == old(self)@.aot_entry_pushed(page_offset, initial_state),
    {
        let ghost before = self@;
        match self.staged.take() {
            None => AOT_TX_BAD_STATE,
            Some(unit) => {
                let mut unit: AotTransaction = unit;
                if unit.ready {
                    self.staged = Some(unit);
                    return AOT_TX_BAD_STATE;
                }
                let ghost t = unit@;
                match unit.building.take() {
                    None => {
                        self.staged = Some(unit);
                        AOT_TX_BAD_STATE
                    },
                    Some(page) => {
                        let mut page: AotStagedPage = page;
                        let ghost slot = page.slot@;
                        if page_offset > 0xFFF || initial_state > 0xFFFF
                            || page.slot.info.entry_points.len() >= page.expected_entries {
                            unit.building = Some(page);
                            self.staged = Some(unit);
                            assert(self@ =~= before);
                            return AOT_TX_BAD_ENTRY;
                        }
                        page.slot.info.entry_points.push(
                            (page_offset as u16, initial_state as u16),
                        );
                        let ghost more = page.slot@;
                        proof {
                            assert forall|i: int, m: int|
                                0 <= i < 1 && 0 <= m < seq![more][i].info.entries.len() implies (
                            #[trigger] seq![more][i].info.entries[m]).0 < 0x1000 by {
                                if m < slot.info.entries.len() {
                                    assert(seq![slot][0].info.entries[m].0 < 0x1000);
                                    assert(more.info.entries[m] == slot.info.entries[m]);
                                }
                            }
                        }
                        unit.building = Some(page);
                        self.staged = Some(unit);
                        assert(self@ =~= before.aot_entry_pushed(page_offset, initial_state).0);
                        AOT_TX_OK
                    },
                }
            },
        }
    }

    /// Completes the page that was begun.
    pub fn jit_aot_tx_page_finish(&mut self) -> (r: u32)
        requires
            old(self).wf(),
        ensures
            final(self).wf(),
            (final(self)@, r) == old(self)@.aot_page_finished(),
    {
        let ghost before = self@;
        match self.staged.take() {
            None => AOT_TX_BAD_STATE,
            Some(unit) => {
                let mut unit: AotTransaction = unit;
                if unit.ready {
                    self.staged = Some(unit);
                    return AOT_TX_BAD_STATE;
                }
                let ghost t = unit@;
                match unit.building.take() {
                    None => {
                        self.staged = Some(unit);
                        AOT_TX_BAD_STATE
                    },
                    Some(page) => {
                        let ghost slot = page.slot@;
                        if page.slot.info.entry_points.len() != page.expected_entries {
                            unit.building = Some(page);
                            self.staged = Some(unit);
                            assert(self@ =~= before);
                            return AOT_TX_BAD_ENTRY;
                        }
                        unit.entry_total = unit.entry_total + page.expected_entries;
                        unit.pages.push(page.slot);
                        proof {
                            let a = t.pages;
                            let b = jit_state::slots(unit.pages@);
                            assert(b =~= a.push(slot));
                            assert forall|i: int, m: int|
                                0 <= i < b.len() && 0 <= m < b[i].info.entries.len() implies (
                            #[trigger] b[i].info.entries[m]).0 < 0x1000 by {
                                if i < a.len() {
                                    assert(a[i].info.entries[m].0 < 0x1000);
                                } else {
                                    assert(seq![slot][0].info.entries[m].0 < 0x1000);
                                }
                            }
                        }
                        self.staged = Some(unit);
                        assert(self@ =~= before.aot_page_finished().0);
                        AOT_TX_OK
                    },
                }
            },
        }
    }

    /// Completes the unit.
    pub fn jit_aot_tx_prepare_finish(&mut self) -> (r: u32)
        requires
            old(self).wf(),
        ensures
            final(self).wf(),
            (final(self)@, r) == old(self)@.aot_prepared(),
    {
        let ghost before = self@;
        match self.staged.take() {
            None => AOT_TX_BAD_STATE,
            Some(unit) => {
                let mut unit: AotTransaction = unit;
                if unit.ready || unit.building.is_some() || unit.pages.len()
                    != unit.expected_pages {
                    self.staged = Some(unit);
                    return AOT_TX_BAD_STATE;
                }
                if unit.entry_total == 0 {
                    self.staged = Some(unit);
                    return AOT_TX_NO_ENTRIES;
                }
                unit.ready = true;
                self.staged = Some(unit);
                assert(self@ =~= before.aot_prepared().0);
                AOT_TX_OK
            },
        }
    }

    /// Gives the unit up.
    pub fn jit_aot_tx_abort(&mut self) -> (r: u32)
        requires
            old(self).wf(),
        ensures
            final(self).wf(),
            (final(self)@, r) == old(self)@.aot_aborted(),
    {
        match self.staged.take() {
            None => AOT_TX_BAD_STATE,
            Some(unit) => {
                self.free_wasm_table_index(unit.wasm_table_index);
                AOT_TX_OK
            },
        }
    }

    fn publish_page(&mut self, slot: PageSlot)
        requires
            old(self).wf(),
            jit_state::entries_fit(seq![slot@]),
        ensures
            final(self).wf(),
            final(self)@ == old(self)@.page_published(slot@),
    {
        let ghost before = self@;
        let ghost view = slot@;
        let page: u32 = slot.page;
        let k: usize = find_slot(&self.pages, page);
        proof {
            crate::jit_publish::lemma_fits_update(before.pages, k as int, view);
        }
        if k < self.pages.len() {
            self.pages.set(k, slot);
            assert(self@.pages =~= before.pages.update(k as int, view));
        } else {
            self.pages.push(slot);
            assert(self@.pages =~= before.pages.push(view));
        }
        let has_budget: bool = contains_u32(&self.tier2_pages, page);
        if self.tier2_pages.len() < TIER2_PAGE_SET_CAP || has_budget {
            if !has_budget {
                self.tier2_pages.push(page);
            }
            self.tier2_blocked_pages = drop_page(&self.tier2_blocked_pages, page);
        } else {
            self.run.counts.aot_blocked_by_cap = self.run.counts.aot_blocked_by_cap.wrapping_add(1);
            if !contains_u32(&self.tier2_blocked_pages, page) {
                self.tier2_blocked_pages.push(page);
            }
        }
        assert(self@ =~= before.page_published(view));
    }

    fn publish_pages(&mut self, slots: Vec<PageSlot>)
        requires
            old(self).wf(),
            jit_state::entries_fit(jit_state::slots(slots@)),
        ensures
            final(self).wf(),
            final(self)@ == old(self)@.pages_published(
                jit_state::slots(slots@),
                slots@.len() as int,
            ),
    {
        let ghost all = jit_state::slots(slots@);
        let ghost mut n: int = 0;
        let mut left: Vec<PageSlot> = slots;
        assert(jit_state::slots(left@) =~= all.subrange(0, all.len() as int));
        while left.len() > 0
            invariant
                0 <= n <= all.len(),
                self.wf(),
                all == jit_state::slots(slots@),
                jit_state::entries_fit(all),
                jit_state::slots(left@) == all.subrange(n, all.len() as int),
                self@ == old(self)@.pages_published(all, n),
            decreases left@.len(),
        {
            let ghost rest = jit_state::slots(left@);
            assert(rest[0] == left@[0]@);
            assert(rest.len() == left@.len());
            let slot: PageSlot = left.remove(0);
            assert(slot@ == all[n]);
            assert forall|i: int| 0 <= i < left@.len() implies #[trigger] jit_state::slots(
                left@,
            )[i] == all[n + 1 + i] by {
                assert(rest[i + 1] == all[n + 1 + i]);
            }
            assert(jit_state::slots(left@) =~= all.subrange(n + 1, all.len() as int));
            assert forall|i: int, m: int|
                0 <= i < 1 && 0 <= m < seq![slot@][i].info.entries.len() implies (
            #[trigger] seq![slot@][i].info.entries[m]).0 < 0x1000 by {
                assert(all[n].info.entries[m].0 < 0x1000);
            }
            self.publish_page(slot);
            proof {
                n = n + 1;
            }
        }
        proof {
            assert(jit_state::slots(left@).len() == left@.len());
            assert(n == all.len());
        }
    }

    /// Publishes the unit, where it is complete.
    pub fn jit_aot_tx_commit(&mut self) -> (r: u32)
        requires
            old(self).wf(),
        ensures
            final(self).wf(),
            (final(self)@, r) == old(self)@.aot_committed(),
    {
        let ghost before = self@;
        match self.staged.take() {
            None => AOT_TX_BAD_STATE,
            Some(unit) => {
                if !unit.ready {
                    self.staged = Some(unit);
                    return AOT_TX_BAD_STATE;
                }
                let n: usize = unit.pages.len();
                self.publish_pages(unit.pages);
                self.run.counts.aot_registered = self.run.counts.aot_registered.wrapping_add(
                    n as u32,
                );
                assert(self@ =~= before.aot_committed().0);
                AOT_TX_OK
            },
        }
    }

    /// The place that the unit reserves.
    pub fn jit_aot_tx_staged_index(&self) -> (r: u32)
        ensures
            r == match self@.staged {
                Some(t) => t.index as u32,
                None => NO_INDEX,
            },
    {
        match &self.staged {
            Some(t) => t.wasm_table_index as u32,
            None => NO_INDEX,
        }
    }

    pub fn jit_aot_free_table_index_count(&self) -> (r: u32)
        ensures
            r == self@.free.len() as u32,
    {
        self.free.len() as u32
    }

    pub fn jit_aot_tier2_blocked_count(&self) -> (r: u32)
        ensures
            r == self@.run.counts.aot_blocked_by_cap,
    {
        self.run.counts.aot_blocked_by_cap
    }

    pub fn jit_aot_registered_count(&self) -> (r: u32)
        ensures
            r == self@.run.counts.aot_registered,
    {
        self.run.counts.aot_registered
    }
}

/// Places are reserved by beginning a unit, and by nothing else.
pub fn jit_aot_alloc_table_index() -> (r: u32)
    ensures
        r == NO_INDEX,
{
    NO_INDEX
}

/// Places are given back by giving a unit up, and by nothing else.
pub fn jit_aot_free_table_index(state: &mut JitState, index: u32)
    ensures
        *final(state) == *old(state),
{
}

/// Pages are published by committing a unit, and by nothing else.
pub fn jit_register_aot_module(index: u32, phys: u32, flags: u32) -> (r: u32)
    ensures
        r == AOT_TX_BAD_STATE,
{
    AOT_TX_BAD_STATE
}

/// A step that is refused changes nothing.
pub proof fn law_a_refused_step_changes_nothing(
    j: Jit,
    index: u32,
    page_count: u32,
    fp_lo: u32,
    fp_hi: u32,
    phys: u32,
    flags: u32,
    count: u32,
    ram: u32,
    offset: u32,
    state: u32,
)
    ensures
        j.aot_begun(index, page_count, fp_lo, fp_hi).1 != AOT_TX_OK ==> j.aot_begun(
            index,
            page_count,
            fp_lo,
            fp_hi,
        ).0 == j,
        j.aot_page_begun(phys, flags, count, ram).1 != AOT_TX_OK ==> j.aot_page_begun(
            phys,
            flags,
            count,
            ram,
        ).0 == j,
        j.aot_entry_pushed(offset, state).1 != AOT_TX_OK ==> j.aot_entry_pushed(offset, state).0
            == j,
        j.aot_page_finished().1 != AOT_TX_OK ==> j.aot_page_finished().0 == j,
        j.aot_prepared().1 != AOT_TX_OK ==> j.aot_prepared().0 == j,
        j.aot_aborted().1 != AOT_TX_OK ==> j.aot_aborted().0 == j,
        j.aot_committed().1 != AOT_TX_OK ==> j.aot_committed().0 == j,
{
}

pub proof fn lemma_position(v: Seq<u16>, x: u16, i: int)
    requires
        0 <= i <= v.len(),
    ensures
        i <= position(v, x, i) <= v.len(),
        position(v, x, i) < v.len() ==> v[position(v, x, i)] == x,
    decreases v.len() - i,
{
    if i < v.len() && v[i] != x {
        lemma_position(v, x, i + 1);
    }
}

/// Beginning a unit leaves every place of the function table in one hand: that of the unit is no
/// longer free.
pub proof fn law_reserving_keeps_the_places(
    j: Jit,
    index: u32,
    page_count: u32,
    fp_lo: u32,
    fp_hi: u32,
)
    requires
        j.partitioned(),
    ensures
        j.aot_begun(index, page_count, fp_lo, fp_hi).0.partitioned(),
        j.aot_begun(index, page_count, fp_lo, fp_hi).1 == AOT_TX_OK ==> !j.aot_begun(
            index,
            page_count,
            fp_lo,
            fp_hi,
        ).0.free.contains(index as u16) && j.free.contains(index as u16),
{
    let (b, r) = j.aot_begun(index, page_count, fp_lo, fp_hi);
    let x0 = index as u16;
    if r == AOT_TX_OK {
        let k = position(j.free, x0, 0);
        lemma_position(j.free, x0, 0);
        let n = j.free.len() - 1;
        assert(j.free[k] == x0);
        assert(b.free.len() == n);
        assert forall|m: int| 0 <= m < n implies #[trigger] b.free[m] == (if m == k {
            j.free[n]
        } else {
            j.free[m]
        }) by {}
        assert forall|x: u16| b.free.contains(x) implies j.free.contains(x) && x != x0 by {
            let m = choose|m: int| 0 <= m < b.free.len() && b.free[m] == x;
            if m == k {
                assert(j.free[n] == x);
            } else {
                assert(j.free[m] == x);
            }
        }
        assert forall|x: u16| j.free.contains(x) && x != x0 implies b.free.contains(x) by {
            let m = choose|m: int| 0 <= m < j.free.len() && j.free[m] == x;
            if m == n {
                assert(b.free[k] == x);
            } else {
                assert(b.free[m] == x);
            }
        }
        assert(b.free.no_duplicates());
        assert forall|m: int| 0 <= m < b.free.len() implies jit_partition::is_place(
            #[trigger] b.free[m],
        ) by {
            assert(jit_partition::is_place(j.free[n]));
        }
        assert forall|x: u16| b.held(x) == (j.held(x) || x == x0) by {}
        assert(b.code_fits()) by {
            assert forall|i: int| #![trigger b.pages[i]] 0 <= i < b.pages.len() implies ({
                let x = b.pages[i].info.index;
                jit_partition::is_place(x) && !b.free.contains(x) && !b.held(x)
            }) by {
                assert(j.pages[i] == b.pages[i]);
            }
        }
        assert(b.hidden_fits(Seq::empty())) by {
            assert forall|i: int, m: int|
                0 <= i < b.pages.len() && 0 <= m < b.pages[i].info.hidden.len() implies ({
                let x = #[trigger] b.pages[i].info.hidden[m];
                jit_partition::is_place(x) && !b.free.contains(x) && !b.held(x)
                    && (jit_state::used(b.pages, x) || Seq::<u16>::empty().contains(x))
            }) by {
                assert(j.pages[i].info.hidden[m] == b.pages[i].info.hidden[m]);
            }
        }
        assert(b.none_lost(Seq::empty())) by {
            assert forall|x: u16| jit_partition::is_place(x) implies b.free.contains(x)
                || #[trigger] jit_state::used(b.pages, x) || b.held(x)
                || Seq::<u16>::empty().contains(x) by {
                assert(j.free.contains(x) || jit_state::used(j.pages, x) || j.held(x));
            }
        }
    }
}

/// Giving a unit up frees its place, and leaves every place in one hand.
pub proof fn law_giving_up_frees_the_place(j: Jit)
    requires
        j.partitioned(),
        j.staged is Some,
    ensures
        j.aot_aborted().0.partitioned(),
        j.aot_aborted().0.staged is None,
        j.aot_aborted().0.pages == j.pages,
        j.aot_aborted().0.free == j.free.push(j.staged->0.index),
        j.aot_aborted().0.run.counts.double_free_skipped == j.run.counts.double_free_skipped,
{
    let index = j.staged->0.index;
    let a = Jit { staged: None, ..j };
    let stack = seq![index];
    assert(stack[0] == index);
    assert(a.partitioned_while(stack, Seq::empty())) by {
        assert forall|x: u16| a.held(x) implies j.held(x) by {}
        assert forall|i: int| #![trigger a.pages[i]] 0 <= i < a.pages.len() implies ({
            let x = a.pages[i].info.index;
            jit_partition::is_place(x) && !a.free.contains(x) && !a.held(x)
        }) by {
            assert(j.pages[i] == a.pages[i]);
        }
        assert forall|i: int, k: int|
            0 <= i < a.pages.len() && 0 <= k < a.pages[i].info.hidden.len() implies ({
            let x = #[trigger] a.pages[i].info.hidden[k];
            jit_partition::is_place(x) && !a.free.contains(x) && !a.held(x) && (jit_state::used(
                a.pages,
                x,
            ) || stack.contains(x))
        }) by {
            assert(j.pages[i].info.hidden[k] == a.pages[i].info.hidden[k]);
        }
        assert forall|x: u16| jit_partition::is_place(x) implies a.free.contains(x)
            || #[trigger] jit_state::used(a.pages, x) || a.held(x) || stack.contains(x) by {
            assert(j.free.contains(x) || jit_state::used(j.pages, x) || j.held(x));
        }
    }
    jit_laws::lemma_place_freed(a, index);
    reveal(Jit::index_freed);
}

/// The pages of a unit are in order, and none of them has code.
pub open spec fn unit_in_order(j: Jit, t: Staged) -> bool {
    &&& t.pages.len() > 0
    &&& forall|i: int| #![trigger t.pages[i]]
        0 <= i < t.pages.len() ==> {
            &&& t.pages[i].info.index == t.index
            &&& t.pages[i].info.hidden.len() == 0
            &&& !jit_partition::names_page(j.pages, t.pages[i].page)
        }
    &&& forall|i: int, k: int|
        0 <= i < k < t.pages.len() ==> (#[trigger] t.pages[i]).page != (#[trigger] t.pages[k]).page
}

pub proof fn lemma_published(j: Jit, t: Staged, n: int)
    requires
        0 <= n <= t.pages.len(),
        unit_in_order(j, t),
    ensures
        ({
            let b = j.pages_published(t.pages, n);
            &&& b.pages == j.pages + t.pages.take(n)
            &&& b.free == j.free
            &&& b.compiling == j.compiling
            &&& b.staged == j.staged
        }),
    decreases n,
{
    if n > 0 {
        lemma_published(j, t, n - 1);
        let a = j.pages_published(t.pages, n - 1);
        let page = t.pages[n - 1].page;
        jit_partition::lemma_place(a.pages, page, 0);
        let k = jit_state::place_of(a.pages, page, 0);
        if k < a.pages.len() {
            assert(a.pages[k].page == page);
            if k < j.pages.len() {
                assert(a.pages[k] == j.pages[k]);
                assert(jit_partition::names_page(j.pages, page));
            } else {
                let m = k - j.pages.len();
                assert(a.pages[k] == t.pages[m]);
            }
        }
        assert(j.pages + t.pages.take(n) =~= (j.pages + t.pages.take(n - 1)).push(t.pages[n - 1]));
    } else {
        assert(j.pages + t.pages.take(0) =~= j.pages);
    }
}

/// A complete unit whose pages have no code is published as a whole: each of its pages has its
/// code, every other page keeps its own, and every place stays in one hand.
pub proof fn law_committing_publishes_the_unit(j: Jit)
    requires
        j.partitioned(),
        j.staged is Some,
        j.staged->0.ready,
        unit_in_order(j, j.staged->0),
    ensures
        j.aot_committed().1 == AOT_TX_OK,
        j.aot_committed().0.pages == j.pages + j.staged->0.pages,
        j.aot_committed().0.staged is None,
        j.aot_committed().0.partitioned(),
{
    let t = j.staged->0;
    let a = Jit { staged: None, ..j };
    let n = t.pages.len() as int;
    assert(unit_in_order(a, t));
    lemma_published(a, t, n);
    assert(t.pages.take(n) =~= t.pages);
    let b = j.aot_committed().0;
    assert(b.pages == j.pages + t.pages);
    let m = j.pages.len();
    assert forall|x: u16| b.held(x) implies j.held(x) && x != t.index by {}
    assert forall|x: u16| jit_state::used(j.pages, x) implies jit_state::used(b.pages, x) by {
        let i = choose|i: int| 0 <= i < j.pages.len() && (#[trigger] j.pages[i]).info.index == x;
        assert(b.pages[i] == j.pages[i]);
    }
    assert(jit_state::used(b.pages, t.index)) by {
        assert(b.pages[m as int] == t.pages[0]);
    }
    assert(b.pages_distinct()) by {
        assert forall|x: int, y: int| 0 <= x < y < b.pages.len() implies (
        #[trigger] b.pages[x]).page != (#[trigger] b.pages[y]).page by {
            if y < m {
                assert(b.pages[x] == j.pages[x] && b.pages[y] == j.pages[y]);
            } else if x < m {
                assert(b.pages[x] == j.pages[x] && b.pages[y] == t.pages[y - m]);
                assert(!jit_partition::names_page(j.pages, t.pages[y - m].page));
            } else {
                assert(b.pages[x] == t.pages[x - m] && b.pages[y] == t.pages[y - m]);
            }
        }
    }
    assert(b.code_fits()) by {
        assert forall|i: int| #![trigger b.pages[i]] 0 <= i < b.pages.len() implies ({
            let x = b.pages[i].info.index;
            jit_partition::is_place(x) && !b.free.contains(x) && !b.held(x)
        }) by {
            if i < m {
                assert(b.pages[i] == j.pages[i]);
            } else {
                assert(b.pages[i] == t.pages[i - m]);
            }
        }
    }
    assert(b.hidden_fits(Seq::empty())) by {
        assert forall|i: int, k: int|
            0 <= i < b.pages.len() && 0 <= k < b.pages[i].info.hidden.len() implies ({
            let x = #[trigger] b.pages[i].info.hidden[k];
            jit_partition::is_place(x) && !b.free.contains(x) && !b.held(x) && (jit_state::used(
                b.pages,
                x,
            ) || Seq::<u16>::empty().contains(x))
        }) by {
            if i >= m {
                assert(b.pages[i] == t.pages[i - m]);
            }
            assert(b.pages[i] == j.pages[i]);
            assert(j.pages[i].info.hidden[k] == b.pages[i].info.hidden[k]);
        }
    }
    assert(b.none_lost(Seq::empty())) by {
        assert forall|x: u16| jit_partition::is_place(x) implies b.free.contains(x)
            || #[trigger] jit_state::used(b.pages, x) || b.held(x) || Seq::<u16>::empty().contains(
            x,
        ) by {
            assert(j.free.contains(x) || jit_state::used(j.pages, x) || j.held(x));
        }
    }
}

} // verus!
