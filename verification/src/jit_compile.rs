//! Pages that are entered often are compiled: entries are counted, the blocks of a page that has
//! become hot are searched, and a function is compiled from them once they are arranged.
use vstd::prelude::*;
use std::collections::HashMap;
use crate::jit_blocks;
use crate::jit_blocks::{is_near_end_of_page, BasicBlock};
use crate::jit_config;
use crate::jit_context::JitContext;
use crate::jit_emit;
use crate::jit_emit::Unit;
use crate::jit_free::copied;
use crate::jit_laws;
use crate::jit_module;
use crate::jit_module::{jit_generate_module, Choices, WasmStructure};
use crate::jit_partition;
use crate::jit_search;
use crate::jit_search::{jit_find_basic_blocks, Guest, Limits};
use crate::jit_state;
use crate::jit_state::{
    contains_u16, contains_u32, find_entered, find_slot, tlb_set_has_code, Compiling, Entered,
    EnteredPage, InWork, Info, Jit, JitState, PageInfo, PageSlot, Slot, TlbEntry, JIT_THRESHOLD,
};

verus! {

broadcast use vstd::std_specs::hash::group_hash_axioms;

/// A page entered at an address once more.
pub open spec fn heated(e: Entered, phys: u32, heat: u32) -> Entered {
    Entered {
        heat: e.heat.wrapping_add(heat),
        offsets: if jit_blocks::near_end_of_page(phys) {
            e.offsets
        } else {
            jit_search::with(e.offsets, (phys % 0x1000) as u16)
        },
        ..e
    }
}

impl Jit {
    /// With a page known as entered.
    pub open spec fn known(self, page: u32) -> Jit {
        if self.entered_page(page) {
            self
        } else {
            Jit {
                entered: self.entered.push(Entered { page, heat: 0, offsets: Seq::empty() }),
                tlb: jit_state::marked(self.tlb, self.mem8, page, true),
                ..self
            }
        }
    }

    /// With an entry at an address counted.
    pub open spec fn warmed(self, phys: u32, heat: u32) -> Jit {
        let a = self.known(phys / 0x1000);
        let k = jit_state::entered_at(a.entered, phys / 0x1000, 0);
        Jit { entered: a.entered.update(k, heated(a.entered[k], phys, heat)), ..a }
    }

    /// The page of an address is hot.
    pub open spec fn is_hot(self, phys: u32) -> bool {
        let k = jit_state::entered_at(self.entered, phys / 0x1000, 0);
        self.entered[k].heat >= JIT_THRESHOLD
    }

    /// With the page of an address cold again.
    pub open spec fn cooled(self, phys: u32) -> Jit {
        let k = jit_state::entered_at(self.entered, phys / 0x1000, 0);
        Jit { entered: self.entered.update(k, Entered { heat: 0, ..self.entered[k] }), ..self }
    }

    /// The offsets at which the code of a page can be entered.
    pub open spec fn compiled_offsets(self, page: u32) -> Seq<u16> {
        let k = jit_state::place_of(self.pages, page, 0);
        if k < self.pages.len() {
            offsets_of(self.pages[k].info.entries)
        } else {
            Seq::empty()
        }
    }

    /// A page has been entered where its code cannot be.
    pub open spec fn wants_code(self, page: u32) -> bool {
        let k = jit_state::entered_at(self.entered, page, 0);
        k < self.entered.len() && exists|i: int|
            0 <= i < self.entered[k].offsets.len() && !self.compiled_offsets(page).contains(
                #[trigger] self.entered[k].offsets[i],
            )
    }

    /// The virtual addresses at which the page of an address has been entered.
    pub open spec fn starts(self, virt: i32, phys: u32) -> Seq<i32> {
        let k = jit_state::entered_at(self.entered, phys / 0x1000, 0);
        let offsets = self.entered[k].offsets;
        Seq::new(
            offsets.len(),
            |i: int| ((virt as u32 / 0x1000 * 0x1000) as u32 | offsets[i] as u32) as i32,
        )
    }
}

/// The offsets of entries.
pub open spec fn offsets_of(entries: Seq<(u16, u16)>) -> Seq<u16> {
    Seq::new(entries.len(), |i: int| entries[i].0)
}

/// A guest shows what the compiler knows of its pages.
pub open spec fn mirrors(g: Guest, j: Jit) -> bool {
    &&& forall|page: u32| #[trigger]
        g.entry_points@.contains_key(page) <==> j.entered_page(page)
    &&& forall|page: u32| #[trigger]
        g.entry_points@.contains_key(page) ==> g.entry_points@[page]@
            == j.entered[jit_state::entered_at(j.entered, page, 0)].offsets
    &&& forall|page: u32| #[trigger]
        g.compiled@.contains_key(page) <==> jit_state::holds_page(j.pages, page)
    &&& forall|page: u32| #[trigger]
        g.compiled@.contains_key(page) ==> g.compiled@[page]@ == j.compiled_offsets(page)
    &&& g.exclude_lo == j.config.region_exclude_lo
    &&& g.exclude_hi == j.config.region_exclude_hi
    &&& g.indirect_regions == j.config.on(jit_config::INDIRECT_REGIONS)
}

/// The memory of two guests is the same.
pub open spec fn same_memory(a: Guest, b: Guest) -> bool {
    &&& a.ram == b.ram
    &&& a.listing == b.listing
    &&& a.translation == b.translation
    &&& a.hot_targets == b.hot_targets
    &&& a.cs_offset == b.cs_offset
}

fn entry_offsets(v: &Vec<(u16, u16)>) -> (r: Vec<u16>)
    ensures
        r@ == offsets_of(v@),
{
    let mut r: Vec<u16> = Vec::new();
    let n: usize = v.len();
    let mut i: usize = 0;
    while i < n
        invariant
            i <= n == v@.len(),
            r@ == offsets_of(v@).take(i as int),
        decreases n - i,
    {
        r.push(v[i].0);
        i = i + 1;
    }
    assert(r@ =~= offsets_of(v@));
    r
}

/// Looked at from the last page on, the place of a page is that of the last one that names it.
proof fn lemma_entered_first(s: Seq<Entered>, page: u32, i: int)
    requires
        0 <= i < s.len(),
    ensures
        s[i].page == page ==> jit_state::entered_at(s, page, i) == i,
        s[i].page != page ==> jit_state::entered_at(s, page, i) == jit_state::entered_at(
            s,
            page,
            i + 1,
        ),
{
}

impl JitState {
    fn show_entered(&self) -> (r: HashMap<u32, Vec<u16>>)
        ensures
            forall|page: u32| #[trigger] r@.contains_key(page) <==> self@.entered_page(page),
            forall|page: u32| #[trigger]
                r@.contains_key(page) ==> r@[page]@ == self@.entered[jit_state::entered_at(
                    self@.entered,
                    page,
                    0,
                )].offsets,
    {
        let ghost s = self@.entered;
        let mut r: HashMap<u32, Vec<u16>> = HashMap::new();
        let n: usize = self.entry_points.len();
        let mut i: usize = n;
        while i > 0
            invariant
                i <= n == self.entry_points@.len(),
                s == self@.entered,
                s.len() == n,
                forall|page: u32| #[trigger]
                    r@.contains_key(page) <==> jit_state::entered_at(s, page, i as int) < n,
                forall|page: u32| #[trigger]
                    r@.contains_key(page) ==> r@[page]@ == s[jit_state::entered_at(
                        s,
                        page,
                        i as int,
                    )].offsets,
            decreases i,
        {
            i = i - 1;
            let ghost before = r@;
            assert(s[i as int] == self.entry_points@[i as int]@);
            let page: u32 = self.entry_points[i].page;
            r.insert(page, copied(&self.entry_points[i].offsets));
            assert forall|p: u32| #[trigger]
                r@.contains_key(p) <==> jit_state::entered_at(s, p, i as int) < n by {
                lemma_entered_first(s, p, i as int);
                assert(before.contains_key(p) <==> jit_state::entered_at(s, p, i + 1) < n);
            }
            assert forall|p: u32| #[trigger] r@.contains_key(p) implies r@[p]@
                == s[jit_state::entered_at(s, p, i as int)].offsets by {
                lemma_entered_first(s, p, i as int);
                assert(p != page ==> before.contains_key(p));
            }
        }
        r
    }

    fn show_compiled(&self) -> (r: HashMap<u32, Vec<u16>>)
        ensures
            forall|page: u32| #[trigger]
                r@.contains_key(page) <==> jit_state::holds_page(self@.pages, page),
            forall|page: u32| #[trigger]
                r@.contains_key(page) ==> r@[page]@ == self@.compiled_offsets(page),
    {
        let ghost s = self@.pages;
        let mut r: HashMap<u32, Vec<u16>> = HashMap::new();
        let n: usize = self.pages.len();
        let mut i: usize = n;
        while i > 0
            invariant
                i <= n == self.pages@.len(),
                s == self@.pages,
                s.len() == n,
                forall|page: u32| #[trigger]
                    r@.contains_key(page) <==> jit_state::place_of(s, page, i as int) < n,
                forall|page: u32| #[trigger]
                    r@.contains_key(page) ==> r@[page]@ == offsets_of(
                        s[jit_state::place_of(s, page, i as int)].info.entries,
                    ),
            decreases i,
        {
            i = i - 1;
            let ghost before = r@;
            assert(s[i as int] == self.pages@[i as int]@);
            let page: u32 = self.pages[i].page;
            r.insert(page, entry_offsets(&self.pages[i].info.entry_points));
            assert forall|p: u32| #[trigger]
                r@.contains_key(p) <==> jit_state::place_of(s, p, i as int) < n by {
                assert(before.contains_key(p) <==> jit_state::place_of(s, p, i + 1) < n);
            }
            assert forall|p: u32| #[trigger] r@.contains_key(p) implies r@[p]@ == offsets_of(
                s[jit_state::place_of(s, p, i as int)].info.entries,
            ) by {
                assert(p != page ==> before.contains_key(p));
            }
        }
        r
    }

    /// Shows a guest what the compiler knows of its pages.
    pub fn show(&self, guest: &mut Guest)
        requires
            self.wf(),
            old(guest).wf(),
        ensures
            final(guest).wf(),
            mirrors(*final(guest), self@),
            same_memory(*final(guest), *old(guest)),
    {
        guest.entry_points = self.show_entered();
        guest.compiled = self.show_compiled();
        guest.exclude_lo = self.config.region_exclude_lo;
        guest.exclude_hi = self.config.region_exclude_hi;
        guest.indirect_regions = self.config.is_on(jit_config::INDIRECT_REGIONS);
    }

    fn know(&mut self, page: u32) -> (k: usize)
        requires
            old(self).wf(),
        ensures
            final(self).wf(),
            final(self)@ == old(self)@.known(page),
            k == jit_state::entered_at(final(self)@.entered, page, 0),
            k < final(self)@.entered.len(),
    {
        let k: usize = find_entered(&self.entry_points, page);
        if k < self.entry_points.len() {
            return k;
        }
        let fresh: EnteredPage = EnteredPage { page, heat: 0, offsets: Vec::new() };
        assert(fresh@ =~= Entered { page, heat: 0, offsets: Seq::empty() });
        let ghost view = fresh@;
        let ghost before = self@.entered;
        self.entry_points.push(fresh);
        tlb_set_has_code(&mut self.tlb, self.mem8, page, true);
        assert(self@.entered =~= before.push(view));
        proof {
            jit_partition::lemma_entered_place(self@.entered, page, 0);
            assert(self@.entered[before.len() as int].page == page);
        }
        find_entered(&self.entry_points, page)
    }

    /// Counts an entry at an address.
    fn warm(&mut self, phys: u32, heat: u32) -> (k: usize)
        requires
            old(self).wf(),
        ensures
            final(self).wf(),
            final(self)@ == old(self)@.warmed(phys, heat),
            k == jit_state::entered_at(final(self)@.entered, phys / 0x1000, 0),
            k < final(self)@.entered.len(),
    {
        let k: usize = self.know(phys / 0x1000);
        let ghost before = self@.entered;
        assert(before[k as int] == self.entry_points@[k as int]@);
        if !is_near_end_of_page(phys) {
            let offset: u16 = (phys % 0x1000) as u16;
            if !contains_u16(&self.entry_points[k].offsets, offset) {
                self.entry_points[k].offsets.push(offset);
            }
        }
        let now: u32 = self.entry_points[k].heat.wrapping_add(heat);
        self.entry_points[k].heat = now;
        assert(self.entry_points@[k as int]@ =~= heated(before[k as int], phys, heat));
        assert(self@.entered =~= before.update(
            k as int,
            heated(before[k as int], phys, heat),
        ));
        proof {
            lemma_same_names(before, self@.entered, phys / 0x1000, 0);
        }
        k
    }

    fn cool(&mut self, k: usize, phys: u32)
        requires
            old(self).wf(),
            k == jit_state::entered_at(old(self)@.entered, phys / 0x1000, 0),
            k < old(self)@.entered.len(),
        ensures
            final(self).wf(),
            final(self)@ == old(self)@.cooled(phys),
    {
        let ghost before = self@.entered;
        assert(before[k as int] == self.entry_points@[k as int]@);
        self.entry_points[k].heat = 0;
        assert(self.entry_points@[k as int]@ =~= Entered { heat: 0, ..before[k as int] });
        assert(self@.entered =~= before.update(k as int, Entered { heat: 0, ..before[k as int] }));
    }

    fn wants(&self, page: u32) -> (r: bool)
        ensures
            r == self@.wants_code(page),
    {
        let k: usize = find_entered(&self.entry_points, page);
        if k >= self.entry_points.len() {
            return false;
        }
        assert(self@.entered[k as int] == self.entry_points@[k as int]@);
        let p: usize = find_slot(&self.pages, page);
        let mut have: Vec<u16> = Vec::new();
        if p < self.pages.len() {
            assert(self@.pages[p as int] == self.pages@[p as int]@);
            have = entry_offsets(&self.pages[p].info.entry_points);
        }
        assert(have@ =~= self@.compiled_offsets(page));
        let n: usize = self.entry_points[k].offsets.len();
        let mut i: usize = 0;
        while i < n
            invariant
                i <= n == self@.entered[k as int].offsets.len(),
                k < self.entry_points@.len(),
                k == jit_state::entered_at(self@.entered, page, 0),
                self@.entered[k as int] == self.entry_points@[k as int]@,
                have@ == self@.compiled_offsets(page),
                forall|m: int|
                    0 <= m < i ==> have@.contains(#[trigger] self@.entered[k as int].offsets[m]),
            decreases n - i,
        {
            if !contains_u16(&have, self.entry_points[k].offsets[i]) {
                assert(!have@.contains(self@.entered[k as int].offsets[i as int]));
                return true;
            }
            i = i + 1;
        }
        false
    }
}

proof fn lemma_same_names(a: Seq<Entered>, b: Seq<Entered>, page: u32, i: int)
    requires
        a.len() == b.len(),
        0 <= i <= a.len(),
        forall|k: int| 0 <= k < a.len() ==> (#[trigger] a[k]).page == b[k].page,
    ensures
        jit_state::entered_at(a, page, i) == jit_state::entered_at(b, page, i),
    decreases a.len() - i,
{
    if i < a.len() {
        assert(a[i].page == b[i].page);
        lemma_same_names(a, b, page, i + 1);
    }
}

/// What the search for the blocks of a hot page found: blocks that are to be arranged and
/// compiled.
pub open spec fn search_done(
    g: Guest,
    j: Jit,
    limits: Limits,
    virt: i32,
    phys: u32,
    is_32: bool,
    blocks: Seq<BasicBlock>,
) -> bool {
    let starts = j.starts(virt, phys);
    let tier2 = jit_search::starts_hot(g, starts, j.tier2);
    let h = jit_search::hunted(g, starts);
    &&& g.max_pages == limits.pages(g.indirect_regions, tier2, is_32)
    &&& jit_search::describes(
        blocks,
        jit_search::all_settled(h),
        jit_search::remembered(h, g, limits, tier2),
    )
}

/// The budgets of a search.
pub open spec fn budgets(j: Jit) -> Limits {
    let v = j.config.values@;
    Limits {
        max_pages: v[jit_config::MAX_PAGES as int],
        region_max_pages: v[jit_config::INDIRECT_REGION_MAX_PAGES as int],
        tier2_max_pages: v[jit_config::TIER2_MAX_PAGES as int],
        ret_speculation: j.config.on(jit_config::RET_SPECULATION),
        ret_spec_max_instr: v[jit_config::RET_SPEC_MAX_INSTR as int],
        tier2_ret_spec_max_instr: v[jit_config::TIER2_RET_SPEC_MAX_INSTR as int],
    }
}

impl JitState {
    fn start_addresses(&self, virt: i32, phys: u32, k: usize) -> (r: Vec<i32>)
        requires
            k == jit_state::entered_at(self@.entered, phys / 0x1000, 0),
            k < self@.entered.len(),
        ensures
            r@ == self@.starts(virt, phys),
    {
        let ghost goal = self@.starts(virt, phys);
        assert(self@.entered[k as int] == self.entry_points@[k as int]@);
        let page: u32 = virt as u32 / 0x1000 * 0x1000;
        let mut r: Vec<i32> = Vec::new();
        let n: usize = self.entry_points[k].offsets.len();
        let mut i: usize = 0;
        while i < n
            invariant
                i <= n == self.entry_points@[k as int].offsets@.len(),
                k < self.entry_points@.len(),
                self@.entered[k as int] == self.entry_points@[k as int]@,
                k == jit_state::entered_at(self@.entered, phys / 0x1000, 0),
                page == virt as u32 / 0x1000 * 0x1000,
                goal == self@.starts(virt, phys),
                r@ == goal.take(i as int),
            decreases n - i,
        {
            let at: i32 = (page | self.entry_points[k].offsets[i] as u32) as i32;
            assert(goal[i as int] == at);
            r.push(at);
            i = i + 1;
            assert(r@ =~= goal.take(i as int));
        }
        assert(r@ =~= goal);
        r
    }

    /// Counts an entry at an address. Where its page has become hot, nothing is being compiled,
    /// the address is mapped there, and the page has been entered where its code cannot be, the
    /// blocks to compile are returned.
    pub fn jit_increase_hotness_and_maybe_compile(
        &mut self,
        guest: &mut Guest,
        virt: i32,
        phys: u32,
        is_32: bool,
        heat: u32,
    ) -> (r: Option<Vec<BasicBlock>>)
        requires
            old(self).wf(),
            old(guest).wf(),
        ensures
            final(self).wf(),
            final(guest).wf(),
            same_memory(*final(guest), *old(guest)),
            ({
                let before = old(self)@;
                let warm = before.warmed(phys, heat);
                let hot = warm.is_hot(phys) && before.compiling is None && old(guest).translated(
                    virt,
                ) == Some(phys);
                if before.config.on(jit_config::JIT_DISABLED) {
                    r is None && final(self)@ == before
                } else if !hot {
                    r is None && final(self)@ == warm
                } else {
                    let cold = warm.cooled(phys);
                    &&& final(self)@ == cold
                    &&& r is Some <==> cold.wants_code(phys / 0x1000)
                    &&& r is Some ==> {
                        &&& mirrors(*final(guest), cold)
                        &&& search_done(
                            *final(guest),
                            cold,
                            budgets(cold),
                            virt,
                            phys,
                            is_32,
                            r->0@,
                        )
                        &&& jit_blocks::blocks_wf(r->0@)
                    }
                }
            }),
    {
        if self.config.is_on(jit_config::JIT_DISABLED) {
            return None;
        }
        let k: usize = self.warm(phys, heat);
        assert(self@.entered[k as int] == self.entry_points@[k as int]@);
        if self.entry_points[k].heat < JIT_THRESHOLD || self.compiling.is_some() {
            return None;
        }
        match guest.translate_address(virt) {
            Some(at) => {
                if at != phys {
                    return None;
                }
            },
            None => return None,
        }
        let ghost warm = self@;
        self.cool(k, phys);
        proof {
            lemma_same_names(warm.entered, self@.entered, phys / 0x1000, 0);
        }
        if !self.wants(phys / 0x1000) {
            return None;
        }
        let starts: Vec<i32> = self.start_addresses(virt, phys, k);
        self.show(guest);
        let limits: Limits = self.config.limits();
        let ghost shown = *guest;
        let (blocks, _) = jit_find_basic_blocks(guest, &starts, &limits, &self.tier2_pages, is_32);
        proof {
            assert(jit_search::starts_hot(shown, starts@, self@.tier2) == jit_search::starts_hot(
                *guest,
                starts@,
                self@.tier2,
            )) by {
                assert forall|v: i32| shown.translated(v) == guest.translated(v) by {}
                lemma_same_heat(shown, *guest, starts@, self@.tier2);
            }
            assert(limits == budgets(self@));
            assert(mirrors(*guest, self@));
        }
        Some(blocks)
    }
}

impl JitState {
    /// Compiles the page of an address now: it counts as hot.
    pub fn jit_force_generate_unsafe(&mut self, guest: &mut Guest, virt: i32, is_32: bool) -> (r:
        Option<Vec<BasicBlock>>)
        requires
            old(self).wf(),
            old(guest).wf(),
            old(guest).translated(virt) is Some,
            !jit_blocks::near_end_of_page(virt as u32),
        ensures
            final(self).wf(),
            final(guest).wf(),
            same_memory(*final(guest), *old(guest)),
            ({
                let before = old(self)@;
                let phys = old(guest).translated(virt)->0;
                let warm = before.warmed(phys, JIT_THRESHOLD);
                let cold = warm.cooled(phys);
                let hot = warm.is_hot(phys) && before.compiling is None;
                &&& before.config.on(jit_config::JIT_DISABLED) ==> r is None && final(self)@
                    == before
                &&& !before.config.on(jit_config::JIT_DISABLED) && !hot ==> {
                    r is None && final(self)@ == warm
                }
                &&& !before.config.on(jit_config::JIT_DISABLED) && hot ==> {
                    &&& final(self)@ == cold
                    &&& r is Some <==> cold.wants_code(phys / 0x1000)
                    &&& r is Some ==> mirrors(*final(guest), cold) && search_done(
                        *final(guest),
                        cold,
                        budgets(cold),
                        virt,
                        phys,
                        is_32,
                        r->0@,
                    ) && jit_blocks::blocks_wf(r->0@)
                }
            }),
    {
        match guest.translate_address(virt) {
            Some(phys) => self.jit_increase_hotness_and_maybe_compile(
                guest,
                virt,
                phys,
                is_32,
                JIT_THRESHOLD,
            ),
            None => None,
        }
    }
}

/// Counting an entry leaves every place of the function table in one hand, and enters no page
/// twice.
pub proof fn law_counting_keeps_the_places(j: Jit, phys: u32, heat: u32)
    requires
        j.partitioned(),
        j.entered_distinct(),
    ensures
        j.warmed(phys, heat).partitioned(),
        j.warmed(phys, heat).entered_distinct(),
        j.warmed(phys, heat).entered_page(phys / 0x1000),
{
    let page = phys / 0x1000;
    let a = j.known(page);
    let w = j.warmed(phys, heat);
    jit_partition::lemma_same_places(j, w);
    jit_partition::lemma_entered_place(j.entered, page, 0);
    jit_partition::lemma_entered_place(a.entered, page, 0);
    if !j.entered_page(page) {
        assert(a.entered[j.entered.len() as int].page == page);
    }
    assert(a.entered_distinct());
    assert forall|x: int, y: int| 0 <= x < y < w.entered.len() implies (
    #[trigger] w.entered[x]).page != (#[trigger] w.entered[y]).page by {
        assert(w.entered[x].page == a.entered[x].page && w.entered[y].page == a.entered[y].page);
    }
    lemma_same_names(a.entered, w.entered, page, 0);
}

/// Where addresses are mapped decides alone whether they are on pages that are executed often.
pub proof fn lemma_same_heat(a: Guest, b: Guest, starts: Seq<i32>, tier2: Seq<u32>)
    requires
        a.translation == b.translation,
    ensures
        jit_search::starts_hot(a, starts, tier2) == jit_search::starts_hot(b, starts, tier2),
{
    assert forall|v: i32| #[trigger] a.translated(v) == b.translated(v) by {}
    if jit_search::starts_hot(a, starts, tier2) {
        let i = choose|i: int|
            0 <= i < starts.len() && {
                let phys = a.translated(#[trigger] starts[i]);
                phys is Some && tier2.contains(phys->0 / 0x1000)
            };
        assert(b.translated(starts[i]) == a.translated(starts[i]));
    }
    if jit_search::starts_hot(b, starts, tier2) {
        let i = choose|i: int|
            0 <= i < starts.len() && {
                let phys = b.translated(#[trigger] starts[i]);
                phys is Some && tier2.contains(phys->0 / 0x1000)
            };
        assert(b.translated(starts[i]) == a.translated(starts[i]));
    }
}

/// The pages of the first `n` blocks, each once.
pub open spec fn block_pages(blocks: Seq<BasicBlock>, n: int) -> Seq<u32>
    decreases n,
{
    if n <= 0 {
        Seq::empty()
    } else {
        jit_search::with(block_pages(blocks, n - 1), blocks[n - 1].addr / 0x1000)
    }
}

/// A page without an entry.
pub open spec fn bare(page: u32, index: u16, flags: u32) -> Slot {
    Slot { page, info: Info { index, hidden: Seq::empty(), entries: Seq::empty(), flags } }
}

/// A page with one more entry.
pub open spec fn with_entry(s: Slot, addr: u32, state: u16) -> Slot {
    Slot {
        page: s.page,
        info: Info { entries: s.info.entries.push(((addr % 0x1000) as u16, state)), ..s.info },
    }
}

/// The pages of the first `n` entries of a function, each with its entries.
pub open spec fn grouped(entries: Seq<(u32, u16)>, index: u16, flags: u32, n: int) -> Seq<Slot>
    decreases n,
{
    if n <= 0 {
        Seq::empty()
    } else {
        let before = grouped(entries, index, flags, n - 1);
        let (addr, state) = entries[n - 1];
        let k = jit_state::place_of(before, addr / 0x1000, 0);
        if k < before.len() {
            before.update(k, with_entry(before[k], addr, state))
        } else {
            before.push(with_entry(bare(addr / 0x1000, index, flags), addr, state))
        }
    }
}

/// With the first `n` of some pages, where they are not there.
pub open spec fn completed(s: Seq<Slot>, pages: Seq<u32>, index: u16, flags: u32, n: int) -> Seq<
    Slot,
>
    decreases n,
{
    if n <= 0 {
        s
    } else {
        let before = completed(s, pages, index, flags, n - 1);
        if jit_state::holds_page(before, pages[n - 1]) {
            before
        } else {
            before.push(bare(pages[n - 1], index, flags))
        }
    }
}

/// With the first `n` of some pages known as entered.
pub open spec fn all_entered(entered: Seq<Entered>, pages: Seq<u32>, n: int) -> Seq<Entered>
    decreases n,
{
    if n <= 0 {
        entered
    } else {
        let before = all_entered(entered, pages, n - 1);
        if jit_state::entered_at(before, pages[n - 1], 0) < before.len() {
            before
        } else {
            before.push(Entered { page: pages[n - 1], heat: 0, offsets: Seq::empty() })
        }
    }
}

/// The translation buffer with the first `n` of some pages marked as holding code.
pub open spec fn all_marked(tlb: Seq<TlbEntry>, mem8: u32, pages: Seq<u32>, n: int) -> Seq<TlbEntry>
    decreases n,
{
    if n <= 0 {
        tlb
    } else {
        jit_state::marked(all_marked(tlb, mem8, pages, n - 1), mem8, pages[n - 1], true)
    }
}

impl Jit {
    /// With a free place, where there can be one: all code is given up where there is none.
    pub open spec fn roomy(self) -> Jit {
        if self.free.len() == 0 {
            self.cache_cleared()
        } else {
            self
        }
    }

    /// With a function in work for the next free place.
    pub open spec fn begun(self, entries: Seq<(u32, u16)>, pages: Seq<u32>, flags: u32) -> Jit {
        let index = self.free.last();
        let slots = completed(
            grouped(entries, index, flags, entries.len() as int),
            pages,
            index,
            flags,
            pages.len() as int,
        );
        Jit {
            free: self.free.drop_last(),
            entered: all_entered(self.entered, pages, pages.len() as int),
            tlb: all_marked(self.tlb, self.mem8, pages, pages.len() as int),
            compiling: Some(InWork { index, written: false, pages: slots }),
            ..self
        }
    }
}

/// The pages of blocks, each once.
pub fn pages_of(blocks: &Vec<BasicBlock>) -> (r: Vec<u32>)
    ensures
        r@ == block_pages(blocks@, blocks@.len() as int),
{
    let mut r: Vec<u32> = Vec::new();
    let n: usize = blocks.len();
    let mut i: usize = 0;
    while i < n
        invariant
            i <= n == blocks@.len(),
            r@ == block_pages(blocks@, i as int),
        decreases n - i,
    {
        let page: u32 = blocks[i].addr / 0x1000;
        if !contains_u32(&r, page) {
            r.push(page);
        }
        i = i + 1;
    }
    r
}

fn group(entries: &Vec<(u32, u16)>, index: u16, flags: u32) -> (r: Vec<PageSlot>)
    ensures
        jit_state::slots(r@) == grouped(entries@, index, flags, entries@.len() as int),
        jit_state::entries_fit(jit_state::slots(r@)),
{
    let mut r: Vec<PageSlot> = Vec::new();
    let n: usize = entries.len();
    let mut i: usize = 0;
    assert(jit_state::slots(r@) =~= Seq::empty());
    while i < n
        invariant
            i <= n == entries@.len(),
            jit_state::slots(r@) == grouped(entries@, index, flags, i as int),
            jit_state::entries_fit(jit_state::slots(r@)),
        decreases n - i,
    {
        let ghost before = jit_state::slots(r@);
        let (addr, state): (u32, u16) = entries[i];
        let page: u32 = addr / 0x1000;
        let k: usize = find_slot(&r, page);
        if k < r.len() {
            assert(before[k as int] == r@[k as int]@);
            r[k].info.entry_points.push(((addr % 0x1000) as u16, state));
            assert(r@[k as int]@ =~= with_entry(before[k as int], addr, state));
            assert(jit_state::slots(r@) =~= before.update(
                k as int,
                with_entry(before[k as int], addr, state),
            ));
        } else {
            let mut entry_points: Vec<(u16, u16)> = Vec::new();
            entry_points.push(((addr % 0x1000) as u16, state));
            let slot: PageSlot = PageSlot {
                page,
                info: PageInfo {
                    wasm_table_index: index,
                    hidden: Vec::new(),
                    entry_points,
                    state_flags: flags,
                },
            };
            assert(slot@ =~= with_entry(bare(page, index, flags), addr, state));
            let ghost view = slot@;
            r.push(slot);
            assert(jit_state::slots(r@) =~= before.push(view));
        }
        i = i + 1;
        proof {
            let after = jit_state::slots(r@);
            assert forall|x: int, m: int|
                0 <= x < after.len() && 0 <= m < after[x].info.entries.len() implies (
            #[trigger] after[x].info.entries[m]).0 < 0x1000 by {
                if x < before.len() && m < before[x].info.entries.len() {
                    assert(before[x].info.entries[m].0 < 0x1000);
                    assert(after[x].info.entries[m] == before[x].info.entries[m]);
                }
            }
        }
    }
    r
}

fn complete(slots: &mut Vec<PageSlot>, pages: &Vec<u32>, index: u16, flags: u32)
    requires
        jit_state::entries_fit(jit_state::slots(old(slots)@)),
    ensures
        jit_state::slots(final(slots)@) == completed(
            jit_state::slots(old(slots)@),
            pages@,
            index,
            flags,
            pages@.len() as int,
        ),
        jit_state::entries_fit(jit_state::slots(final(slots)@)),
{
    let n: usize = pages.len();
    let mut i: usize = 0;
    while i < n
        invariant
            i <= n == pages@.len(),
            jit_state::slots(slots@) == completed(
                jit_state::slots(old(slots)@),
                pages@,
                index,
                flags,
                i as int,
            ),
            jit_state::entries_fit(jit_state::slots(slots@)),
        decreases n - i,
    {
        let ghost before = jit_state::slots(slots@);
        if find_slot(slots, pages[i]) >= slots.len() {
            let slot: PageSlot = PageSlot {
                page: pages[i],
                info: PageInfo {
                    wasm_table_index: index,
                    hidden: Vec::new(),
                    entry_points: Vec::new(),
                    state_flags: flags,
                },
            };
            assert(slot@ =~= bare(pages@[i as int], index, flags));
            let ghost view = slot@;
            slots.push(slot);
            assert(jit_state::slots(slots@) =~= before.push(view));
        }
        i = i + 1;
        proof {
            let after = jit_state::slots(slots@);
            assert forall|x: int, m: int|
                0 <= x < after.len() && 0 <= m < after[x].info.entries.len() implies (
            #[trigger] after[x].info.entries[m]).0 < 0x1000 by {
                assert(x < before.len());
                assert(before[x].info.entries[m].0 < 0x1000);
            }
        }
    }
}

/// A function that was compiled: its code, where it can be entered, and its place.
pub struct Compiled {
    pub code: JitContext,
    pub entries: Vec<(u32, u16)>,
    pub wasm_table_index: u16,
}

impl JitState {
    fn enter_all(&mut self, pages: &Vec<u32>)
        requires
            old(self).wf(),
        ensures
            final(self).wf(),
            final(self)@ == (Jit {
                entered: all_entered(old(self)@.entered, pages@, pages@.len() as int),
                tlb: all_marked(old(self)@.tlb, old(self)@.mem8, pages@, pages@.len() as int),
                ..old(self)@
            }),
    {
        let n: usize = pages.len();
        let mut i: usize = 0;
        while i < n
            invariant
                i <= n == pages@.len(),
                self.wf(),
                self@ == (Jit {
                    entered: all_entered(old(self)@.entered, pages@, i as int),
                    tlb: all_marked(old(self)@.tlb, old(self)@.mem8, pages@, i as int),
                    ..old(self)@
                }),
            decreases n - i,
        {
            let page: u32 = pages[i];
            if find_entered(&self.entry_points, page) >= self.entry_points.len() {
                let fresh: EnteredPage = EnteredPage { page, heat: 0, offsets: Vec::new() };
                assert(fresh@ =~= Entered { page, heat: 0, offsets: Seq::empty() });
                let ghost view = fresh@;
                let ghost before = self@.entered;
                self.entry_points.push(fresh);
                assert(self@.entered =~= before.push(view));
            }
            tlb_set_has_code(&mut self.tlb, self.mem8, page, true);
            i = i + 1;
        }
    }

    /// Compiles a function from blocks that were arranged, for the next free place; all code is
    /// given up where none is free. Nothing where there is no place even then.
    pub fn jit_analyze_and_generate<F: Fn(JitContext) -> (JitContext, u32)>(
        &mut self,
        structure: &Vec<WasmStructure>,
        unit: &Unit,
        choices: Choices,
        jit_instruction: &F,
    ) -> (r: Option<Compiled>)
        requires
            old(self).wf(),
            unit.wf(),
            jit_module::structure_fits(structure@, unit.blocks@),
            jit_emit::acts_as(*jit_instruction, jit_emit::action(*jit_instruction)),
        ensures
            final(self).wf(),
            r is Some <==> old(self)@.roomy().free.len() > 0,
            r is None ==> final(self)@ == old(self)@.roomy(),
            r is Some ==> {
                let w = r->0;
                &&& w.wasm_table_index == old(self)@.roomy().free.last()
                &&& jit_module::compiled(
                    w.code@,
                    structure@,
                    *unit,
                    (Choices { wasm_table_index: w.wasm_table_index, ..choices }),
                    jit_emit::action(*jit_instruction),
                )
                &&& w.entries@ == Seq::new(
                    (jit_module::entry_blocks(structure@)->0).len(),
                    |i: int| ((jit_module::entry_blocks(structure@)->0)[i], i as u16),
                )
                &&& final(self)@ == old(self)@.roomy().begun(
                    w.entries@,
                    block_pages(unit.blocks@, unit.blocks@.len() as int),
                    choices.state_flags,
                )
            },
    {
        let pages: Vec<u32> = pages_of(&unit.blocks);
        if self.free.len() == 0 {
            self.jit_clear_cache_js();
        }
        let ghost room = self@;
        let index: u16 = match self.free.pop() {
            Some(index) => index,
            None => {
                assert(self@ =~= room);
                return None;
            },
        };
        let flags: u32 = choices.state_flags;
        let mut made: Choices = choices;
        made.wasm_table_index = index;
        let (code, entries) = jit_generate_module(structure, unit, &made, jit_instruction);
        let mut slots: Vec<PageSlot> = group(&entries, index, flags);
        complete(&mut slots, &pages, index, flags);
        self.enter_all(&pages);
        let work: Compiling = Compiling { wasm_table_index: index, written: false, pages: slots };
        self.compiling = Some(work);
        assert(self@ =~= room.begun(entries@, pages@, flags));
        Some(Compiled { code, entries, wasm_table_index: index })
    }
}

proof fn lemma_grouped(entries: Seq<(u32, u16)>, index: u16, flags: u32, n: int)
    requires
        0 <= n <= entries.len(),
    ensures
        ({
            let s = grouped(entries, index, flags, n);
            in_order(s, index) && (n > 0 ==> s.len() > 0)
        }),
    decreases n,
{
    if n > 0 {
        lemma_grouped(entries, index, flags, n - 1);
        let b = grouped(entries, index, flags, n - 1);
        let s = grouped(entries, index, flags, n);
        let page = entries[n - 1].0 / 0x1000;
        jit_partition::lemma_place(b, page, 0);
        let k = jit_state::place_of(b, page, 0);
        assert forall|i: int| #![trigger s[i]] 0 <= i < s.len() implies s[i].info.index == index
            && s[i].info.hidden.len() == 0 by {
            if i < b.len() {
                assert(b[i].info.index == index);
            }
        }
        assert forall|i: int, j: int| 0 <= i < j < s.len() implies (#[trigger] s[i]).page != (
        #[trigger] s[j]).page by {
            assert(s[i].page == b[i].page);
            if j < b.len() {
                assert(s[j].page == b[j].page);
            }
        }
    }
}

/// Pages of one function, each once.
pub open spec fn in_order(s: Seq<Slot>, index: u16) -> bool {
    &&& forall|i: int| #![trigger s[i]]
        0 <= i < s.len() ==> s[i].info.index == index && s[i].info.hidden.len() == 0
    &&& forall|i: int, j: int|
        0 <= i < j < s.len() ==> (#[trigger] s[i]).page != (#[trigger] s[j]).page
}

proof fn lemma_completed(s: Seq<Slot>, pages: Seq<u32>, index: u16, flags: u32, n: int)
    requires
        0 <= n <= pages.len(),
        in_order(s, index),
    ensures
        ({
            let c = completed(s, pages, index, flags, n);
            &&& in_order(c, index)
            &&& c.len() >= s.len()
            &&& forall|i: int| 0 <= i < n ==> jit_partition::names_page(c, #[trigger] pages[i])
        }),
    decreases n,
{
    if n > 0 {
        lemma_completed(s, pages, index, flags, n - 1);
        let b = completed(s, pages, index, flags, n - 1);
        let c = completed(s, pages, index, flags, n);
        jit_partition::lemma_place(b, pages[n - 1], 0);
        assert forall|i: int| #![trigger c[i]] 0 <= i < c.len() implies c[i].info.index == index
            && c[i].info.hidden.len() == 0 by {
            if i < b.len() {
                assert(c[i] == b[i]);
            }
        }
        assert forall|i: int, j: int| 0 <= i < j < c.len() implies (#[trigger] c[i]).page != (
        #[trigger] c[j]).page by {
            assert(c[i] == b[i]);
            if j < b.len() {
                assert(c[j] == b[j]);
            }
        }
        assert forall|i: int| 0 <= i < n implies jit_partition::names_page(
            c,
            #[trigger] pages[i],
        ) by {
            if jit_partition::names_page(b, pages[i]) {
                let k = choose|k: int| 0 <= k < b.len() && (#[trigger] b[k]).page == pages[i];
                assert(c[k] == b[k]);
            } else {
                let k = jit_state::place_of(b, pages[n - 1], 0);
                if k < b.len() {
                    assert(b[k].page == pages[n - 1]);
                } else {
                    assert(c[b.len() as int].page == pages[n - 1]);
                }
            }
        }
    }
}

/// What is put in work is in order, and every page of its code is among its pages: a write to
/// any of them is noticed.
pub proof fn law_work_covers_its_pages(
    j: Jit,
    entries: Seq<(u32, u16)>,
    pages: Seq<u32>,
    flags: u32,
    page: u32,
)
    requires
        pages.contains(page),
    ensures
        ({
            let w = j.begun(entries, pages, flags).compiling->0;
            jit_laws::work_in_order(w) && jit_state::holds_page(w.pages, page)
        }),
{
    let index = j.free.last();
    let g = grouped(entries, index, flags, entries.len() as int);
    let n = pages.len() as int;
    lemma_grouped(entries, index, flags, entries.len() as int);
    lemma_completed(g, pages, index, flags, n);
    let w = j.begun(entries, pages, flags).compiling->0;
    let i = choose|i: int| 0 <= i < pages.len() && pages[i] == page;
    assert(jit_partition::names_page(w.pages, pages[i]));
    let k = choose|k: int| 0 <= k < w.pages.len() && (#[trigger] w.pages[k]).page == page;
    jit_partition::lemma_place(w.pages, page, 0);
}

/// Putting a function in work leaves every place of the function table in one hand.
pub proof fn law_beginning_keeps_the_places(
    j: Jit,
    entries: Seq<(u32, u16)>,
    pages: Seq<u32>,
    flags: u32,
)
    requires
        j.partitioned(),
        j.compiling is None,
        j.free.len() > 0,
    ensures
        j.begun(entries, pages, flags).partitioned(),
{
    let b = j.begun(entries, pages, flags);
    let index = j.free.last();
    assert(j.free[j.free.len() - 1] == index);
    assert forall|x: u16| b.free.contains(x) implies j.free.contains(x) && x != index by {
        let k = choose|k: int| 0 <= k < b.free.len() && b.free[k] == x;
        assert(j.free[k] == x);
    }
    assert forall|x: u16| j.free.contains(x) && x != index implies b.free.contains(x) by {
        let k = choose|k: int| 0 <= k < j.free.len() && j.free[k] == x;
        assert(b.free[k] == x);
    }
    assert forall|x: u16| b.held(x) == (j.held(x) || x == index) by {}
    assert forall|k: int| 0 <= k < b.free.len() implies jit_partition::is_place(
        #[trigger] b.free[k],
    ) by {
        assert(b.free[k] == j.free[k]);
    }
    assert(b.code_fits()) by {
        assert forall|i: int| #![trigger b.pages[i]] 0 <= i < b.pages.len() implies ({
            let x = b.pages[i].info.index;
            jit_partition::is_place(x) && !b.free.contains(x) && !b.held(x)
        }) by {
            assert(j.pages[i] == b.pages[i]);
            assert(j.free.contains(index));
        }
    }
    assert(b.hidden_fits(Seq::empty())) by {
        assert forall|i: int, k: int|
            0 <= i < b.pages.len() && 0 <= k < b.pages[i].info.hidden.len() implies ({
            let x = #[trigger] b.pages[i].info.hidden[k];
            jit_partition::is_place(x) && !b.free.contains(x) && !b.held(x) && (jit_state::used(
                b.pages,
                x,
            ) || Seq::<u16>::empty().contains(x))
        }) by {
            assert(j.pages[i].info.hidden[k] == b.pages[i].info.hidden[k]);
            assert(j.free.contains(index));
        }
    }
    assert(b.none_lost(Seq::empty())) by {
        assert forall|x: u16| jit_partition::is_place(x) implies b.free.contains(x)
            || #[trigger] jit_state::used(b.pages, x) || b.held(x) || Seq::<u16>::empty().contains(
            x,
        ) by {
            assert(j.free.contains(x) || jit_state::used(j.pages, x) || j.held(x));
        }
    }
}

/// There is always a place for a function: where none is free, giving all code up frees one.
pub proof fn law_there_is_always_a_place(j: Jit)
    requires
        j.partitioned(),
        j.entered_distinct(),
    ensures
        j.roomy().free.len() > 0,
{
    if j.free.len() == 0 {
        jit_partition::law_a_cleared_cache_is_empty(j);
        let c = j.roomy();
        let x = if !c.held(1u16) {
            1u16
        } else if !c.held(2u16) {
            2u16
        } else {
            3u16
        };
        assert(!c.held(x));
        assert(c.free.contains(x));
    }
}

} // verus!
