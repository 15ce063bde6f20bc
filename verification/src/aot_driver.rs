//! Pages compiled ahead of time: the same search and the same code as for a hot page, without
//! anything being published.
use vstd::prelude::*;
use crate::jit_blocks;
use crate::jit_blocks::BasicBlock;
use crate::jit_compile;
use crate::jit_context::JitContext;
use crate::jit_emit;
use crate::jit_emit::Unit;
use crate::jit_module;
use crate::jit_module::{jit_generate_module, Choices, WasmStructure};
use crate::jit_search;
use crate::jit_search::{jit_find_basic_blocks, Guest, Limits};
use crate::jit_state;
use crate::jit_state::{contains_u16, find_entered, find_slot, Entered, EnteredPage, Jit, JitState};

verus! {

/// What a compilation ahead of time starts from and gives.
pub struct AotDriver {
    /// The offsets at which the page is entered.
    pub offsets: Vec<u16>,
    pub entries: Vec<(u32, u16)>,
    pub block_count: u32,
    pub page_count: u32,
}

/// What an [`AotDriver`] holds.
#[verifier::ext_equal]
pub struct Driver {
    pub offsets: Seq<u16>,
    pub entries: Seq<(u32, u16)>,
    pub block_count: u32,
    pub page_count: u32,
}

impl View for AotDriver {
    type V = Driver;

    open spec fn view(&self) -> Driver {
        Driver {
            offsets: self.offsets@,
            entries: self.entries@,
            block_count: self.block_count,
            page_count: self.page_count,
        }
    }
}

/// The offsets at which a page has been entered, nothing where it has not been.
pub open spec fn seeds(j: Jit, page: u32) -> Seq<u16> {
    let k = jit_state::entered_at(j.entered, page, 0);
    if k < j.entered.len() {
        j.entered[k].offsets
    } else {
        Seq::empty()
    }
}

/// With an entry of a page known to the compiler.
pub open spec fn entry_known(j: Jit, page: u32, offset: u16) -> Jit {
    let k = jit_state::entered_at(j.entered, page, 0);
    if k < j.entered.len() {
        let e = j.entered[k];
        Jit {
            entered: j.entered.update(
                k,
                Entered { offsets: jit_search::with(e.offsets, offset), ..e },
            ),
            ..j
        }
    } else {
        Jit { entered: j.entered.push(Entered { page, heat: 0, offsets: seq![offset] }), ..j }
    }
}

/// The virtual addresses at which a page is entered.
pub open spec fn virtual_starts(offsets: Seq<u16>, virt: i32) -> Seq<i32> {
    Seq::new(
        offsets.len(),
        |i: int| ((virt as u32 / 0x1000 * 0x1000) as u32 | offsets[i] as u32) as i32,
    )
}

impl AotDriver {
    pub fn new() -> (r: AotDriver)
        ensures
            r@.offsets.len() == 0,
            r@.entries.len() == 0,
            r@.block_count == 0,
            r@.page_count == 0,
    {
        AotDriver { offsets: Vec::new(), entries: Vec::new(), block_count: 0, page_count: 0 }
    }

    /// Forgets the offsets and what was compiled; the numbers of blocks and pages stay.
    pub fn aot_drv_reset(&mut self)
        ensures
            final(self)@ == (Driver {
                offsets: Seq::empty(),
                entries: Seq::empty(),
                ..old(self)@
            }),
    {
        self.offsets = Vec::new();
        self.entries = Vec::new();
        assert(self@ =~= Driver { offsets: Seq::empty(), entries: Seq::empty(), ..old(self)@ });
    }

    /// Adds an offset.
    pub fn aot_drv_push_entry(&mut self, offset: u32)
        ensures
            final(self)@ == (Driver {
                offsets: old(self)@.offsets.push((offset % 0x1000) as u16),
                ..old(self)@
            }),
    {
        self.offsets.push((offset % 0x1000) as u16);
    }

    /// Adds the offsets at which the compiler has seen a page entered. Returns how many.
    pub fn aot_drv_seed_from_ctx(&mut self, state: &JitState, phys: u32) -> (r: u32)
        ensures
            r == seeds(state@, phys / 0x1000).len() as u32,
            final(self)@ == (Driver {
                offsets: old(self)@.offsets + seeds(state@, phys / 0x1000),
                ..old(self)@
            }),
    {
        let ghost before = self@;
        let ghost more = seeds(state@, phys / 0x1000);
        let k: usize = find_entered(&state.entry_points, phys / 0x1000);
        if k >= state.entry_points.len() {
            assert(before.offsets + more =~= before.offsets);
            return 0;
        }
        assert(state@.entered[k as int] == state.entry_points@[k as int]@);
        let n: usize = state.entry_points[k].offsets.len();
        let mut i: usize = 0;
        assert(before.offsets + more.take(0) =~= before.offsets);
        while i < n
            invariant
                i <= n == more.len(),
                k < state.entry_points@.len(),
                more == state.entry_points@[k as int].offsets@,
                self@ == (Driver { offsets: before.offsets + more.take(i as int), ..before }),
            decreases n - i,
        {
            self.offsets.push(state.entry_points[k].offsets[i]);
            i = i + 1;
            assert(self@.offsets =~= before.offsets + more.take(i as int));
        }
        assert(more.take(n as int) =~= more);
        n as u32
    }

    fn start_addresses(&self, virt: i32) -> (r: Vec<i32>)
        ensures
            r@ == virtual_starts(self@.offsets, virt),
    {
        let ghost goal = virtual_starts(self@.offsets, virt);
        let page: u32 = virt as u32 / 0x1000 * 0x1000;
        let mut r: Vec<i32> = Vec::new();
        let n: usize = self.offsets.len();
        let mut i: usize = 0;
        while i < n
            invariant
                i <= n == self.offsets@.len(),
                page == virt as u32 / 0x1000 * 0x1000,
                goal == virtual_starts(self@.offsets, virt),
                r@ == goal.take(i as int),
            decreases n - i,
        {
            let at: i32 = (page | self.offsets[i] as u32) as i32;
            assert(goal[i as int] == at);
            r.push(at);
            i = i + 1;
            assert(r@ =~= goal.take(i as int));
        }
        assert(r@ =~= goal);
        r
    }

    /// Finds the blocks of a page: those that are reached from its offsets, where it has no code.
    pub fn aot_drv_find(
        &self,
        state: &JitState,
        guest: &mut Guest,
        virt_entry: i32,
        phys_entry: u32,
        is_32: bool,
    ) -> (r: Option<Vec<BasicBlock>>)
        requires
            state.wf(),
            old(guest).wf(),
        ensures
            final(guest).wf(),
            jit_compile::same_memory(*final(guest), *old(guest)),
            ({
                let starts = virtual_starts(self@.offsets, virt_entry);
                let g = *final(guest);
                let tier2 = jit_search::starts_hot(g, starts, state@.tier2);
                let limits = jit_compile::budgets(state@);
                let h = jit_search::hunted(g, starts);
                let refused = self@.offsets.len() == 0 || jit_state::holds_page(
                    state@.pages,
                    phys_entry / 0x1000,
                );
                &&& refused ==> r is None
                &&& !refused ==> {
                    &&& jit_compile::mirrors(g, state@)
                    &&& g.max_pages == limits.pages(g.indirect_regions, tier2, is_32)
                    &&& r is None <==> jit_search::all_settled(h).len() == 0
                    &&& r is Some ==> jit_search::describes(
                        r->0@,
                        jit_search::all_settled(h),
                        jit_search::remembered(h, g, limits, tier2),
                    ) && jit_blocks::blocks_wf(r->0@)
                }
            }),
    {
        if self.offsets.len() == 0 {
            return None;
        }
        if find_slot(&state.pages, phys_entry / 0x1000) < state.pages.len() {
            return None;
        }
        let starts: Vec<i32> = self.start_addresses(virt_entry);
        state.show(guest);
        let limits: Limits = state.config.limits();
        let ghost shown = *guest;
        let (blocks, _) = jit_find_basic_blocks(guest, &starts, &limits, &state.tier2_pages, is_32);
        proof {
            jit_compile::lemma_same_heat(shown, *guest, starts@, state@.tier2);
            assert(limits == jit_compile::budgets(state@));
        }
        if blocks.len() == 0 {
            None
        } else {
            Some(blocks)
        }
    }

    /// Compiles a function from the blocks that were found, once they are arranged. Returns its
    /// code; where it can be entered is kept.
    pub fn aot_drv_compile<F: Fn(JitContext) -> (JitContext, u32)>(
        &mut self,
        structure: &Vec<WasmStructure>,
        unit: &Unit,
        choices: &Choices,
        jit_instruction: &F,
    ) -> (r: JitContext)
        requires
            unit.wf(),
            jit_module::structure_fits(structure@, unit.blocks@),
            jit_emit::acts_as(*jit_instruction, jit_emit::action(*jit_instruction)),
        ensures
            jit_module::compiled(
                r@,
                structure@,
                *unit,
                *choices,
                jit_emit::action(*jit_instruction),
            ),
            final(self)@.offsets == old(self)@.offsets,
            final(self)@.entries == Seq::new(
                (jit_module::entry_blocks(structure@)->0).len(),
                |i: int| ((jit_module::entry_blocks(structure@)->0)[i], i as u16),
            ),
            final(self)@.block_count == unit.blocks@.len() as u32,
            final(self)@.page_count == jit_compile::block_pages(
                unit.blocks@,
                unit.blocks@.len() as int,
            ).len() as u32,
    {
        self.block_count = unit.blocks.len() as u32;
        self.page_count = jit_compile::pages_of(&unit.blocks).len() as u32;
        let (code, entries) = jit_generate_module(structure, unit, choices, jit_instruction);
        self.entries = entries;
        code
    }

    pub fn aot_drv_entry_count(&self) -> (r: u32)
        ensures
            r == self@.entries.len() as u32,
    {
        self.entries.len() as u32
    }

    /// The address of a block that the function can be entered at.
    pub fn aot_drv_entry_addr(&self, i: u32) -> (r: u32)
        requires
            i < self@.entries.len(),
        ensures
            r == self@.entries[i as int].0,
    {
        self.entries[i as usize].0
    }

    /// The index of a block that the function can be entered at.
    pub fn aot_drv_entry_state(&self, i: u32) -> (r: u32)
        requires
            i < self@.entries.len(),
        ensures
            r == self@.entries[i as int].1,
    {
        self.entries[i as usize].1 as u32
    }

    pub fn aot_drv_block_count(&self) -> (r: u32)
        ensures
            r == self@.block_count,
    {
        self.block_count
    }

    pub fn aot_drv_page_count(&self) -> (r: u32)
        ensures
            r == self@.page_count,
    {
        self.page_count
    }
}

/// Makes an entry of a page known to the compiler.
pub fn aot_drv_add_ctx_entry(state: &mut JitState, phys: u32, offset: u32)
    requires
        old(state).wf(),
    ensures
        final(state).wf(),
        final(state)@ == entry_known(old(state)@, phys / 0x1000, (offset % 0x1000) as u16),
{
    let page: u32 = phys / 0x1000;
    let low: u16 = (offset % 0x1000) as u16;
    let ghost before = state@;
    let k: usize = find_entered(&state.entry_points, page);
    if k < state.entry_points.len() {
        assert(before.entered[k as int] == state.entry_points@[k as int]@);
        if !contains_u16(&state.entry_points[k].offsets, low) {
            state.entry_points[k].offsets.push(low);
        }
        let ghost e = before.entered[k as int];
        assert(state.entry_points@[k as int]@ =~= Entered {
            offsets: jit_search::with(e.offsets, low),
            ..e
        });
        assert(state@.entered =~= before.entered.update(
            k as int,
            Entered { offsets: jit_search::with(e.offsets, low), ..e },
        ));
    } else {
        let mut offsets: Vec<u16> = Vec::new();
        offsets.push(low);
        let fresh: EnteredPage = EnteredPage { page, heat: 0, offsets };
        assert(fresh@ =~= Entered { page, heat: 0, offsets: seq![low] });
        let ghost view = fresh@;
        state.entry_points.push(fresh);
        assert(state@.entered =~= before.entered.push(view));
    }
    assert(state@ =~= entry_known(before, page, low));
}

/// Whether a page has code.
pub fn aot_drv_page_owned(state: &JitState, phys: u32) -> (r: u32)
    ensures
        r == if jit_state::holds_page(state@.pages, phys / 0x1000) {
            1u32
        } else {
            0
        },
{
    if find_slot(&state.pages, phys / 0x1000) < state.pages.len() {
        1
    } else {
        0
    }
}

} // verus!
