//! What the compiler keeps of the code that it compiled: where guest code has been entered, which
//! function holds the code of each physical page, which places of the function table are free,
//! and what is being compiled or staged.
//!
//! A page of memory is named by its number, its address divided by the size of a page.
use vstd::prelude::*;
use crate::cpu_state::TLB_HAS_CODE;
use crate::dispatch;
use crate::dispatch::{dispatch_meta_init, DispatchTable, Dispatched};
use crate::jit_config::JitConfig;

verus! {

/// A page that has been entered so much is compiled.
pub const JIT_THRESHOLD: u32 = 200000;

/// Places of the function table; place 0 is never used.
pub const WASM_TABLE_SIZE: u32 = 900;

/// Counters of functions.
pub const FUNCTION_COUNTERS: usize = 0x10000;

/// Cells that remember where returns lead.
pub const RET_CACHE_SIZE: usize = 512;

/// No function and block.
pub const NO_TARGET: i32 = -1;

/// Records of wrong dispatches that are kept.
pub const WRONG_ENTRY_RING_CAP: usize = 32;

/// Pages that are compiled with the larger budget, at most.
pub const TIER2_PAGE_SET_CAP: usize = 256;

/// Functions that wait for the larger budget, at most.
pub const TIER2_PENDING_CAP: usize = 64;

/// Entries of a staged unit, at most.
pub const AOT_TX_MAX_ENTRIES: usize = 65536;

/// A place of the function table.
#[derive(Clone, Copy, Debug, PartialEq, Eq, Structural)]
pub struct WasmTableIndex(pub u16);

impl WasmTableIndex {
    pub fn to_u16(self) -> (r: u16)
        ensures
            r == self.0,
    {
        self.0
    }
}

/// A function and the block of it to start with.
#[derive(Clone, Copy, Debug, PartialEq, Eq, Structural)]
pub struct CachedCode {
    pub wasm_table_index: WasmTableIndex,
    pub initial_state: u16,
}

impl CachedCode {
    /// No code.
    pub open spec fn none() -> CachedCode {
        CachedCode { wasm_table_index: WasmTableIndex(0), initial_state: 0 }
    }
}

/// The compiled code of a page: the function that holds it, the functions that held it before
/// and are still in use, where it can be entered, and for which state of the CPU it is.
pub struct PageInfo {
    pub wasm_table_index: u16,
    pub hidden: Vec<u16>,
    pub entry_points: Vec<(u16, u16)>,
    pub state_flags: u32,
}

/// What a [`PageInfo`] holds.
#[verifier::ext_equal]
pub struct Info {
    pub index: u16,
    pub hidden: Seq<u16>,
    pub entries: Seq<(u16, u16)>,
    pub flags: u32,
}

impl View for PageInfo {
    type V = Info;

    open spec fn view(&self) -> Info {
        Info {
            index: self.wasm_table_index,
            hidden: self.hidden@,
            entries: self.entry_points@,
            flags: self.state_flags,
        }
    }
}

/// A page and its compiled code.
pub struct PageSlot {
    pub page: u32,
    pub info: PageInfo,
}

/// What a [`PageSlot`] holds.
#[verifier::ext_equal]
pub struct Slot {
    pub page: u32,
    pub info: Info,
}

impl View for PageSlot {
    type V = Slot;

    open spec fn view(&self) -> Slot {
        Slot { page: self.page, info: self.info@ }
    }
}

/// What pages with their code hold.
pub open spec fn slots(v: Seq<PageSlot>) -> Seq<Slot> {
    Seq::new(v.len(), |i: int| v[i]@)
}

/// A page that has been entered: how often, and at which offsets.
pub struct EnteredPage {
    pub page: u32,
    pub heat: u32,
    pub offsets: Vec<u16>,
}

/// What an [`EnteredPage`] holds.
#[verifier::ext_equal]
pub struct Entered {
    pub page: u32,
    pub heat: u32,
    pub offsets: Seq<u16>,
}

impl View for EnteredPage {
    type V = Entered;

    open spec fn view(&self) -> Entered {
        Entered { page: self.page, heat: self.heat, offsets: self.offsets@ }
    }
}

/// What entered pages hold.
pub open spec fn entereds(v: Seq<EnteredPage>) -> Seq<Entered> {
    Seq::new(v.len(), |i: int| v[i]@)
}

/// A function that is being compiled: its place, whether one of its pages was written meanwhile,
/// and its pages.
pub struct Compiling {
    pub wasm_table_index: u16,
    pub written: bool,
    pub pages: Vec<PageSlot>,
}

/// What a [`Compiling`] holds.
#[verifier::ext_equal]
pub struct InWork {
    pub index: u16,
    pub written: bool,
    pub pages: Seq<Slot>,
}

impl View for Compiling {
    type V = InWork;

    open spec fn view(&self) -> InWork {
        InWork { index: self.wasm_table_index, written: self.written, pages: slots(self.pages@) }
    }
}

/// A page of a unit that is staged, and how many entries it is to have.
pub struct AotStagedPage {
    pub slot: PageSlot,
    pub expected_entries: usize,
}

/// A unit that is staged: its place, how many pages it is to have, those that are complete, the
/// one that is being built, and how many entries there are in all.
pub struct AotTransaction {
    pub wasm_table_index: u16,
    pub expected_pages: usize,
    pub pages: Vec<PageSlot>,
    pub building: Option<AotStagedPage>,
    pub entry_total: usize,
    pub ready: bool,
}

/// What an [`AotTransaction`] holds.
#[verifier::ext_equal]
pub struct Staged {
    pub index: u16,
    pub expected_pages: usize,
    pub pages: Seq<Slot>,
    pub building: Option<(Slot, usize)>,
    pub entry_total: usize,
    pub ready: bool,
}

impl Staged {
    /// The entries that are there, and those that the page in work is to have, are not too many.
    pub open spec fn in_bounds(self) -> bool {
        match self.building {
            Some((slot, expected)) => slot.info.entries.len() <= expected && self.entry_total
                + expected <= AOT_TX_MAX_ENTRIES,
            None => self.entry_total <= AOT_TX_MAX_ENTRIES,
        }
    }
}

impl View for AotTransaction {
    type V = Staged;

    open spec fn view(&self) -> Staged {
        Staged {
            index: self.wasm_table_index,
            expected_pages: self.expected_pages,
            pages: slots(self.pages@),
            building: match self.building {
                Some(b) => Some((b.slot@, b.expected_entries)),
                None => None,
            },
            entry_total: self.entry_total,
            ready: self.ready,
        }
    }
}

/// An entry of the translation buffer: a virtual page and what is kept of it.
#[derive(Clone, Copy, Debug, PartialEq, Eq, Structural)]
pub struct TlbEntry {
    pub page: u32,
    pub data: i32,
}

/// The physical page that an entry leads to; guest memory stands at `mem8`.
pub open spec fn frame_of(e: TlbEntry, mem8: u32) -> u32 {
    ((e.data as u32 / 0x1000) ^ e.page).wrapping_sub(mem8 / 0x1000)
}

/// What the buffer keeps of a virtual page, from the `i`-th entry on.
pub open spec fn data_of(tlb: Seq<TlbEntry>, page: u32, i: int) -> i32
    decreases tlb.len() - i,
{
    if i >= tlb.len() {
        0
    } else if tlb[i].page == page {
        tlb[i].data
    } else {
        data_of(tlb, page, i + 1)
    }
}

/// The entries with the mark that their page holds code set or taken away, where they lead to a
/// page.
pub open spec fn marked(tlb: Seq<TlbEntry>, mem8: u32, page: u32, on: bool) -> Seq<TlbEntry> {
    Seq::new(
        tlb.len(),
        |i: int|
            if tlb[i].data != 0 && frame_of(tlb[i], mem8) == page {
                TlbEntry {
                    page: tlb[i].page,
                    data: if on {
                        tlb[i].data | TLB_HAS_CODE
                    } else {
                        tlb[i].data & !TLB_HAS_CODE
                    },
                }
            } else {
                tlb[i]
            },
    )
}

/// A record of a wrong dispatch.
#[derive(Clone, Copy, Debug, PartialEq, Eq, Structural)]
pub struct Record {
    pub a: u32,
    pub b: u32,
    pub c: u32,
    pub tag: u32,
}

/// Where a return to an address led: the address, the state of the CPU, the function and block,
/// and when that was noted.
#[derive(Clone, Copy, Debug, PartialEq, Eq, Structural)]
pub struct RetCell {
    pub virt: u32,
    pub state_flags: u32,
    pub target: i32,
    pub epoch: u64,
}

/// What is counted while compiled code runs.
#[derive(Clone, Copy, Debug, PartialEq, Eq, Structural)]
pub struct Counts {
    pub double_free_skipped: u32,
    pub wrong_direct: u32,
    pub wrong_chain: u32,
    pub memo_mismatch: u32,
    pub memo_stale_live: u32,
    pub memo_stale_dead: u32,
    pub stale_meta: u32,
    pub stale_meta_live: u32,
    pub stale_meta_dead: u32,
    pub promotions: u32,
    pub blocked_by_cap: u32,
    pub chain_entries: u64,
    pub direct_entries: u64,
    pub pending_dropped: u32,
    pub finalize_failures: u32,
    pub finalize_last: Record,
    pub aot_blocked_by_cap: u32,
    pub aot_registered: u32,
    pub page_dispatches: u64,
    pub page_misses: u64,
    pub chain_hits: u64,
    pub chain_misses: u64,
    pub wrong_last: Record,
}

/// What changes while compiled code runs.
pub struct Runtime {
    pub ret_cache: Vec<RetCell>,
    pub epoch: u64,
    pub exec_counts: Vec<u32>,
    pub entry_totals: Vec<u32>,
    pub pending: Vec<u16>,
    pub ring: Vec<Record>,
    pub counts: Counts,
}

/// What a [`Runtime`] holds.
#[verifier::ext_equal]
pub struct Run {
    pub ret_cache: Seq<RetCell>,
    pub epoch: u64,
    pub exec_counts: Seq<u32>,
    pub entry_totals: Seq<u32>,
    pub pending: Seq<u16>,
    pub ring: Seq<Record>,
    pub counts: Counts,
}

impl View for Runtime {
    type V = Run;

    open spec fn view(&self) -> Run {
        Run {
            ret_cache: self.ret_cache@,
            epoch: self.epoch,
            exec_counts: self.exec_counts@,
            entry_totals: self.entry_totals@,
            pending: self.pending@,
            ring: self.ring@,
            counts: self.counts,
        }
    }
}

impl Run {
    pub open spec fn wf(self) -> bool {
        &&& self.ret_cache.len() == RET_CACHE_SIZE
        &&& self.exec_counts.len() == FUNCTION_COUNTERS
        &&& self.entry_totals.len() == FUNCTION_COUNTERS
        &&& self.pending.len() <= TIER2_PENDING_CAP
        &&& self.ring.len() <= WRONG_ENTRY_RING_CAP
    }

    /// With a record kept, where there is room.
    pub open spec fn recorded(self, r: Record) -> Run {
        if self.ring.len() < WRONG_ENTRY_RING_CAP {
            Run { ring: self.ring.push(r), ..self }
        } else {
            self
        }
    }
}

impl Runtime {
    pub fn wrong_entry_ring_push(&mut self, r: Record)
        ensures
            final(self)@ == old(self)@.recorded(r),
    {
        if self.ring.len() < WRONG_ENTRY_RING_CAP {
            self.ring.push(r);
        }
        assert(self@ =~= old(self)@.recorded(r));
    }
}

/// All that the compiler keeps.
pub struct JitState {
    pub entry_points: Vec<EnteredPage>,
    pub pages: Vec<PageSlot>,
    /// The places of the function table that are free, the next one last.
    pub free: Vec<u16>,
    pub compiling: Option<Compiling>,
    pub staged: Option<AotTransaction>,
    /// Pages that are compiled with the larger budget, and those that were refused it.
    pub tier2_pages: Vec<u32>,
    pub tier2_blocked_pages: Vec<u32>,
    pub run: Runtime,
    pub dispatch: DispatchTable,
    pub tlb: Vec<TlbEntry>,
    /// Where guest memory stands.
    pub mem8: u32,
    pub config: JitConfig,
    /// Places of the function table that were emptied and have not been reported.
    pub emptied: Vec<u16>,
    /// Pages of the last snapshot: place, address and number of entries.
    pub snapshot: Vec<(u16, u32, u16)>,
}

/// What a [`JitState`] holds.
#[verifier::ext_equal]
pub struct Jit {
    pub entered: Seq<Entered>,
    pub pages: Seq<Slot>,
    pub free: Seq<u16>,
    pub compiling: Option<InWork>,
    pub staged: Option<Staged>,
    pub tier2: Seq<u32>,
    pub blocked: Seq<u32>,
    pub run: Run,
    pub dispatch: Dispatched,
    pub tlb: Seq<TlbEntry>,
    pub mem8: u32,
    pub config: JitConfig,
    pub emptied: Seq<u16>,
    pub snapshot: Seq<(u16, u32, u16)>,
}

impl View for JitState {
    type V = Jit;

    open spec fn view(&self) -> Jit {
        Jit {
            entered: entereds(self.entry_points@),
            pages: slots(self.pages@),
            free: self.free@,
            compiling: match self.compiling {
                Some(c) => Some(c@),
                None => None,
            },
            staged: match self.staged {
                Some(t) => Some(t@),
                None => None,
            },
            tier2: self.tier2_pages@,
            blocked: self.tier2_blocked_pages@,
            run: self.run@,
            dispatch: self.dispatch@,
            tlb: self.tlb@,
            mem8: self.mem8,
            config: self.config,
            emptied: self.emptied@,
            snapshot: self.snapshot@,
        }
    }
}

/// Entries of pages stand within them.
pub open spec fn entries_fit(pages: Seq<Slot>) -> bool {
    forall|i: int, k: int|
        0 <= i < pages.len() && 0 <= k < pages[i].info.entries.len() ==> (
        #[trigger] pages[i].info.entries[k]).0 < 0x1000
}

/// The place of a page among those from the `i`-th on, the length where there is none.
pub open spec fn place_of(pages: Seq<Slot>, page: u32, i: int) -> int
    decreases pages.len() - i,
{
    if i >= pages.len() {
        pages.len() as int
    } else if pages[i].page == page {
        i
    } else {
        place_of(pages, page, i + 1)
    }
}

/// The place of an entered page among those from the `i`-th on, the length where there is none.
pub open spec fn entered_at(pages: Seq<Entered>, page: u32, i: int) -> int
    decreases pages.len() - i,
{
    if i >= pages.len() {
        pages.len() as int
    } else if pages[i].page == page {
        i
    } else {
        entered_at(pages, page, i + 1)
    }
}

/// The page has code.
pub open spec fn holds_page(pages: Seq<Slot>, page: u32) -> bool {
    place_of(pages, page, 0) < pages.len()
}

/// A function holds the code of a page.
pub open spec fn used(pages: Seq<Slot>, index: u16) -> bool {
    exists|i: int| 0 <= i < pages.len() && (#[trigger] pages[i]).info.index == index
}

impl Jit {
    /// What every operation relies on and keeps.
    pub open spec fn wf(self) -> bool {
        &&& self.run.wf()
        &&& self.config.wf()
        &&& self.free.no_duplicates()
        &&& entries_fit(self.pages)
        &&& self.compiling is Some ==> entries_fit(self.compiling->0.pages)
        &&& self.staged is Some ==> {
            &&& entries_fit(self.staged->0.pages)
            &&& self.staged->0.building is Some ==> entries_fit(
                seq![(self.staged->0.building->0).0],
            )
            &&& self.staged->0.in_bounds()
        }
    }

    /// The page has been entered.
    pub open spec fn entered_page(self, page: u32) -> bool {
        entered_at(self.entered, page, 0) < self.entered.len()
    }

    /// The page has code, or has been entered.
    pub open spec fn has_code(self, page: u32) -> bool {
        holds_page(self.pages, page) || self.entered_page(page)
    }

    /// The function and block for a physical address.
    pub open spec fn found(self, phys: u32, state_flags: u32) -> CachedCode {
        let k = place_of(self.pages, phys / 0x1000, 0);
        if k < self.pages.len() && self.pages[k].info.flags == state_flags {
            let info = self.pages[k].info;
            match block_at(info.entries, (phys % 0x1000) as u16, 0) {
                Some(state) => CachedCode {
                    wasm_table_index: WasmTableIndex(info.index),
                    initial_state: state,
                },
                None => CachedCode::none(),
            }
        } else {
            CachedCode::none()
        }
    }
}

/// The block that is entered at an offset, by the entries from the `i`-th on.
pub open spec fn block_at(entries: Seq<(u16, u16)>, offset: u16, i: int) -> Option<u16>
    decreases entries.len() - i,
{
    if i >= entries.len() {
        None
    } else if entries[i].0 == offset {
        Some(entries[i].1)
    } else {
        block_at(entries, offset, i + 1)
    }
}

/// Finds the place of a page, the length where there is none.
pub fn find_slot(pages: &Vec<PageSlot>, page: u32) -> (r: usize)
    ensures
        r == place_of(slots(pages@), page, 0),
        r <= pages@.len(),
        r < pages@.len() ==> pages@[r as int].page == page,
{
    let n: usize = pages.len();
    let mut i: usize = 0;
    while i < n
        invariant
            i <= n == pages@.len(),
            place_of(slots(pages@), page, i as int) == place_of(slots(pages@), page, 0),
        decreases n - i,
    {
        assert(slots(pages@)[i as int] == pages@[i as int]@);
        if pages[i].page == page {
            return i;
        }
        i = i + 1;
    }
    i
}

/// Finds the place of an entered page, the length where there is none.
pub fn find_entered(pages: &Vec<EnteredPage>, page: u32) -> (r: usize)
    ensures
        r == entered_at(entereds(pages@), page, 0),
        r <= pages@.len(),
        r < pages@.len() ==> pages@[r as int].page == page,
{
    let n: usize = pages.len();
    let mut i: usize = 0;
    while i < n
        invariant
            i <= n == pages@.len(),
            entered_at(entereds(pages@), page, i as int) == entered_at(
                entereds(pages@),
                page,
                0,
            ),
        decreases n - i,
    {
        assert(entereds(pages@)[i as int] == pages@[i as int]@);
        if pages[i].page == page {
            return i;
        }
        i = i + 1;
    }
    i
}

/// Finds the block that is entered at an offset.
pub fn find_block(entries: &Vec<(u16, u16)>, offset: u16) -> (r: Option<u16>)
    ensures
        r == block_at(entries@, offset, 0),
{
    let n: usize = entries.len();
    let mut i: usize = 0;
    while i < n
        invariant
            i <= n == entries@.len(),
            block_at(entries@, offset, i as int) == block_at(entries@, offset, 0),
        decreases n - i,
    {
        if entries[i].0 == offset {
            return Some(entries[i].1);
        }
        i = i + 1;
    }
    None
}

/// Whether a number is in a list.
pub fn contains_u16(v: &Vec<u16>, x: u16) -> (r: bool)
    ensures
        r == v@.contains(x),
{
    let n: usize = v.len();
    let mut i: usize = 0;
    while i < n
        invariant
            i <= n == v@.len(),
            forall|j: int| 0 <= j < i ==> #[trigger] v@[j] != x,
        decreases n - i,
    {
        if v[i] == x {
            return true;
        }
        i = i + 1;
    }
    false
}

/// Whether a page is in a list.
pub fn contains_u32(v: &Vec<u32>, x: u32) -> (r: bool)
    ensures
        r == v@.contains(x),
{
    let n: usize = v.len();
    let mut i: usize = 0;
    while i < n
        invariant
            i <= n == v@.len(),
            forall|j: int| 0 <= j < i ==> #[trigger] v@[j] != x,
        decreases n - i,
    {
        if v[i] == x {
            return true;
        }
        i = i + 1;
    }
    false
}

/// The physical page that an entry leads to.
pub fn tlb_frame(e: TlbEntry, mem8: u32) -> (r: u32)
    ensures
        r == frame_of(e, mem8),
{
    ((e.data as u32 / 0x1000) ^ e.page).wrapping_sub(mem8 / 0x1000)
}

/// What the buffer keeps of a virtual page.
pub fn tlb_data(tlb: &Vec<TlbEntry>, page: u32) -> (r: i32)
    ensures
        r == data_of(tlb@, page, 0),
{
    let n: usize = tlb.len();
    let mut i: usize = 0;
    while i < n
        invariant
            i <= n == tlb@.len(),
            data_of(tlb@, page, i as int) == data_of(tlb@, page, 0),
        decreases n - i,
    {
        if tlb[i].page == page {
            return tlb[i].data;
        }
        i = i + 1;
    }
    0
}

/// Sets or takes away the mark that a page holds code, in every entry that leads to it.
pub fn tlb_set_has_code(tlb: &mut Vec<TlbEntry>, mem8: u32, page: u32, on: bool)
    ensures
        final(tlb)@ == marked(old(tlb)@, mem8, page, on),
{
    let n: usize = tlb.len();
    let mut i: usize = 0;
    while i < n
        invariant
            i <= n == tlb@.len(),
            tlb@.len() == old(tlb)@.len(),
            forall|j: int|
                0 <= j < n ==> #[trigger] tlb@[j] == (if j < i {
                    marked(old(tlb)@, mem8, page, on)[j]
                } else {
                    old(tlb)@[j]
                }),
        decreases n - i,
    {
        let e: TlbEntry = tlb[i];
        if e.data != 0 && tlb_frame(e, mem8) == page {
            let data: i32 = if on {
                e.data | TLB_HAS_CODE
            } else {
                e.data & !TLB_HAS_CODE
            };
            tlb.set(i, TlbEntry { page: e.page, data });
        }
        i = i + 1;
    }
    assert(tlb@ =~= marked(old(tlb)@, mem8, page, on));
}

fn zeros(n: usize) -> (r: Vec<u32>)
    ensures
        r@ == Seq::new(n as nat, |i: int| 0u32),
{
    let mut r: Vec<u32> = Vec::new();
    let mut i: usize = 0;
    while i < n
        invariant
            i <= n,
            r@ == Seq::new(i as nat, |j: int| 0u32),
        decreases n - i,
    {
        r.push(0);
        i = i + 1;
        assert(r@ =~= Seq::new(i as nat, |j: int| 0u32));
    }
    r
}

impl Jit {
    /// Nothing compiled, and every place of the function table free.
    pub open spec fn empty(self) -> bool {
        &&& self.entered.len() == 0
        &&& self.pages.len() == 0
        &&& self.free == Seq::new((WASM_TABLE_SIZE - 1) as nat, |i: int| (i + 1) as u16)
        &&& self.compiling is None
        &&& self.staged is None
        &&& self.tier2.len() == 0
        &&& self.blocked.len() == 0
        &&& self.run.epoch == 1
        &&& self.run.pending.len() == 0
        &&& self.run.ring.len() == 0
        &&& self.run.ret_cache == Seq::new(
            RET_CACHE_SIZE as nat,
            |i: int| RetCell { virt: 0, state_flags: 0, target: NO_TARGET, epoch: 0 },
        )
        &&& self.run.exec_counts == Seq::new(FUNCTION_COUNTERS as nat, |i: int| 0u32)
        &&& self.run.entry_totals == Seq::new(FUNCTION_COUNTERS as nat, |i: int| 0u32)
        &&& self.emptied.len() == 0
        &&& self.snapshot.len() == 0
    }

    /// Nothing compiled, nothing published, nothing counted, and the settings of the start.
    pub open spec fn initial(self) -> bool {
        &&& self.empty()
        &&& forall|p: u32| #[trigger] self.dispatch.word(p) == 0
        &&& self.dispatch.intact()
        &&& self.dispatch.free == Seq::new(
            (dispatch::DISPATCH_SLAB_COUNT - 1) as nat,
            |i: int| (i + 1) as u16,
        )
        &&& self.dispatch.high_water == 0
        &&& self.dispatch.overflows == 0
        &&& self.config.is_initial()
        &&& self.run.counts == no_counts()
        &&& self.tlb.len() == 0
        &&& self.mem8 == 0
    }
}

/// Nothing was counted.
pub open spec fn no_counts() -> Counts {
    let none = Record { a: 0, b: 0, c: 0, tag: 0 };
    Counts {
        double_free_skipped: 0,
        wrong_direct: 0,
        wrong_chain: 0,
        memo_mismatch: 0,
        memo_stale_live: 0,
        memo_stale_dead: 0,
        stale_meta: 0,
        stale_meta_live: 0,
        stale_meta_dead: 0,
        promotions: 0,
        blocked_by_cap: 0,
        chain_entries: 0,
        direct_entries: 0,
        pending_dropped: 0,
        finalize_failures: 0,
        finalize_last: none,
        aot_blocked_by_cap: 0,
        aot_registered: 0,
        page_dispatches: 0,
        page_misses: 0,
        chain_hits: 0,
        chain_misses: 0,
        wrong_last: none,
    }
}

impl JitState {
    /// A state in which nothing is compiled.
    pub fn create_and_initialise() -> (r: JitState)
        ensures
            r@.wf(),
            r@.initial(),
            r.dispatch.wf(),
    {
        let mut free: Vec<u16> = Vec::new();
        let mut i: u16 = 1;
        while i < 900
            invariant
                1 <= i <= 900,
                free@ == Seq::new((i - 1) as nat, |j: int| (j + 1) as u16),
            decreases 900 - i,
        {
            free.push(i);
            i = i + 1;
            assert(free@ =~= Seq::new((i - 1) as nat, |j: int| (j + 1) as u16));
        }
        let mut ret_cache: Vec<RetCell> = Vec::new();
        let mut k: usize = 0;
        let cell: RetCell = RetCell { virt: 0, state_flags: 0, target: NO_TARGET, epoch: 0 };
        while k < RET_CACHE_SIZE
            invariant
                k <= RET_CACHE_SIZE,
                ret_cache@ == Seq::new(k as nat, |j: int| cell),
            decreases RET_CACHE_SIZE - k,
        {
            ret_cache.push(cell);
            k = k + 1;
            assert(ret_cache@ =~= Seq::new(k as nat, |j: int| cell));
        }
        let none: Record = Record { a: 0, b: 0, c: 0, tag: 0 };
        let run: Runtime = Runtime {
            ret_cache,
            epoch: 1,
            exec_counts: zeros(FUNCTION_COUNTERS),
            entry_totals: zeros(FUNCTION_COUNTERS),
            pending: Vec::new(),
            ring: Vec::new(),
            counts: Counts {
                double_free_skipped: 0,
                wrong_direct: 0,
                wrong_chain: 0,
                memo_mismatch: 0,
                memo_stale_live: 0,
                memo_stale_dead: 0,
                stale_meta: 0,
                stale_meta_live: 0,
                stale_meta_dead: 0,
                promotions: 0,
                blocked_by_cap: 0,
                chain_entries: 0,
                direct_entries: 0,
                pending_dropped: 0,
                finalize_failures: 0,
                finalize_last: none,
                aot_blocked_by_cap: 0,
                aot_registered: 0,
                page_dispatches: 0,
                page_misses: 0,
                chain_hits: 0,
                chain_misses: 0,
                wrong_last: none,
            },
        };
        let table: DispatchTable = dispatch_meta_init();
        assert forall|p: u32| #[trigger] table@.word(p) == 0 by {
            assert(table.word(p) == 0);
        }
        JitState {
            entry_points: Vec::new(),
            pages: Vec::new(),
            free,
            compiling: None,
            staged: None,
            tier2_pages: Vec::new(),
            tier2_blocked_pages: Vec::new(),
            run,
            dispatch: table,
            tlb: Vec::new(),
            mem8: 0,
            config: JitConfig::new(),
            emptied: Vec::new(),
            snapshot: Vec::new(),
        }
    }

    /// The function and block for a physical address.
    pub fn jit_find_cache_entry(&self, phys: u32, state_flags: u32) -> (r: CachedCode)
        ensures
            r == self@.found(phys, state_flags),
    {
        let k: usize = find_slot(&self.pages, phys / 0x1000);
        if k < self.pages.len() {
            assert(slots(self.pages@)[k as int] == self.pages@[k as int]@);
            let info: &PageInfo = &self.pages[k].info;
            if info.state_flags == state_flags {
                if let Some(state) = find_block(&info.entry_points, (phys % 0x1000) as u16) {
                    return CachedCode {
                        wasm_table_index: WasmTableIndex(info.wasm_table_index),
                        initial_state: state,
                    };
                }
            }
        }
        CachedCode { wasm_table_index: WasmTableIndex(0), initial_state: 0 }
    }

    /// Whether a page has code, or has been entered.
    pub fn jit_page_has_code(&self, page: u32) -> (r: bool)
        ensures
            r == self@.has_code(page),
    {
        find_slot(&self.pages, page) < self.pages.len() || find_entered(&self.entry_points, page)
            < self.entry_points.len()
    }
}

} // verus!
