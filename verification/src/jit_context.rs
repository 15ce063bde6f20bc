//! The state that code generation threads through the instructions of one compiled unit.
use vstd::prelude::*;
use crate::cpu_state::CpuContext;
use crate::opstats::OpstatSites;
use crate::wasm::{Emit, Label, Op, WasmBuilder, WasmLocal, WasmLocalI64, E};

verus! {

/// Where an instruction left its result.
#[derive(Clone, Copy, Debug, PartialEq, Eq, Structural)]
pub enum InstructionOperandDest {
    WasmLocal(WasmLocal),
    Other,
}

/// What an instruction took as its second operand.
#[derive(Clone, Copy, Debug, PartialEq, Eq, Structural)]
pub enum InstructionOperand {
    WasmLocal(WasmLocal),
    Immediate(i32),
    Other,
}

impl InstructionOperand {
    /// Whether the operand is the constant zero.
    pub fn is_zero(&self) -> (r: bool)
        ensures
            r == (*self == InstructionOperand::Immediate(0)),
    {
        match self {
            InstructionOperand::Immediate(i) => *i == 0,
            _ => false,
        }
    }

    /// A destination read as an operand.
    pub fn of_dest(dest: InstructionOperandDest) -> (r: InstructionOperand)
        ensures
            r == (match dest {
                InstructionOperandDest::WasmLocal(l) => InstructionOperand::WasmLocal(l),
                InstructionOperandDest::Other => InstructionOperand::Other,
            }),
    {
        match dest {
            InstructionOperandDest::WasmLocal(l) => InstructionOperand::WasmLocal(l),
            InstructionOperandDest::Other => InstructionOperand::Other,
        }
    }
}

/// The instruction that last defined the status flags, as far as code generation can use it.
#[derive(Clone, Copy, Debug, PartialEq, Eq, Structural)]
pub enum Instruction {
    Cmp { dest: InstructionOperandDest, source: InstructionOperand, opsize: i32 },
    Sub { dest: InstructionOperandDest, source: InstructionOperand, opsize: i32, is_dec: bool },
    Add { dest: InstructionOperandDest, source: InstructionOperand, opsize: i32, is_inc: bool },
    AdcSbb { dest: InstructionOperandDest, source: InstructionOperand, opsize: i32 },
    NonZeroShift { dest: InstructionOperandDest, opsize: i32 },
    Bitwise { dest: InstructionOperandDest, opsize: i32 },
    Other,
}

/// The locals that stand for one x87 register.
#[derive(Clone, Copy, Debug, PartialEq, Eq, Structural)]
pub struct X87LocalCacheSlot {
    pub bits: WasmLocalI64,
    pub valid: WasmLocal,
}

/// The locals that remember the translation entry of the last pushed-to page.
#[derive(Clone, Copy, Debug, PartialEq, Eq, Structural)]
pub struct Push32WriteCache {
    pub page: WasmLocal,
    pub entry: WasmLocal,
    pub valid: WasmLocal,
}

/// The locals that remember the translation entry of the last page read from.
#[derive(Clone, Copy, Debug, PartialEq, Eq, Structural)]
pub struct ReadTlbCache {
    pub page: WasmLocal,
    pub entry: WasmLocal,
    pub valid: WasmLocal,
}

/// Addresses and switches that are fixed while a unit is compiled.
#[derive(Clone, Copy, Debug, PartialEq, Eq, Structural)]
pub struct CodegenEnv {
    /// Where guest memory starts in linear memory; 0 before it is allocated.
    pub mem8: u32,
    /// Where the translation entries start.
    pub tlb_data: u32,
    /// Where the read-permission map starts.
    pub perm_map: u32,
    /// Where the store map starts.
    pub write_map: u32,
    pub perm_map_reads: bool,
    /// The page reads of this unit go through the read cache.
    pub read_tlb_cache: bool,
    pub read_tlb_cache_census: bool,
    pub push_run_coalescing: bool,
    pub x87_locals: bool,
    pub x87_pc_local: bool,
    /// x87 registers hold doubles where they can.
    pub fpu_relaxed: bool,
    pub fpu_relaxed_stats: bool,
    /// Unchecked stack accesses: 0 for none, 1 for constant stack operands, 2 for all.
    pub stack_raw_mode: u32,
    /// Counters of the instruction census.
    pub opstats: OpstatSites,
}

/// How often the optional fast paths were compiled.
#[derive(Clone, Copy, Debug, PartialEq, Eq, Structural)]
pub struct CodegenCounters {
    pub speculated_stores: u32,
    pub push_sites: u32,
    pub push_reuse_branches: u32,
    pub x87_load_sites: u32,
    pub x87_stores: u32,
    pub x87_invalidates: u32,
}

impl CodegenCounters {
    /// A load that may find its register in locals was compiled.
    pub fn x87_locals_note_cache_load_site_compiled(&mut self)
        ensures
            *final(self) == (CodegenCounters {
                x87_load_sites: old(self).x87_load_sites.saturating_add(1),
                ..*old(self)
            }),
    {
        self.x87_load_sites = self.x87_load_sites.saturating_add(1);
    }

    /// A store that keeps its register in locals was compiled.
    pub fn x87_locals_note_cache_store_compiled(&mut self)
        ensures
            *final(self) == (CodegenCounters {
                x87_stores: old(self).x87_stores.saturating_add(1),
                ..*old(self)
            }),
    {
        self.x87_stores = self.x87_stores.saturating_add(1);
    }

    /// Code that forgets the registers in locals was compiled.
    pub fn x87_locals_note_cache_invalidate_compiled(&mut self)
        ensures
            *final(self) == (CodegenCounters {
                x87_invalidates: old(self).x87_invalidates.saturating_add(1),
                ..*old(self)
            }),
    {
        self.x87_invalidates = self.x87_invalidates.saturating_add(1);
    }

    /// A push that may follow another was compiled.
    pub fn push_run_note_site_compiled(&mut self)
        ensures
            *final(self) == (CodegenCounters {
                push_sites: old(self).push_sites.saturating_add(1),
                ..*old(self)
            }),
    {
        self.push_sites = self.push_sites.saturating_add(1);
    }

    /// The part of a push that follows another was compiled.
    pub fn push_run_note_reuse_branch_compiled(&mut self)
        ensures
            *final(self) == (CodegenCounters {
                push_reuse_branches: old(self).push_reuse_branches.saturating_add(1),
                ..*old(self)
            }),
    {
        self.push_reuse_branches = self.push_reuse_branches.saturating_add(1);
    }

    pub fn x87_locals_get_cache_load_sites_compiled(&self) -> (r: u32)
        ensures
            r == self.x87_load_sites,
    {
        self.x87_load_sites
    }

    pub fn x87_locals_get_cache_stores_compiled(&self) -> (r: u32)
        ensures
            r == self.x87_stores,
    {
        self.x87_stores
    }

    pub fn x87_locals_get_cache_invalidates_compiled(&self) -> (r: u32)
        ensures
            r == self.x87_invalidates,
    {
        self.x87_invalidates
    }

    pub fn push_run_get_sites_compiled(&self) -> (r: u32)
        ensures
            r == self.push_sites,
    {
        self.push_sites
    }

    pub fn push_run_get_reuse_branches_compiled(&self) -> (r: u32)
        ensures
            r == self.push_reuse_branches,
    {
        self.push_reuse_branches
    }

    /// With what was compiled in one unit.
    pub open spec fn with_unit(self, unit: CodegenCounters) -> CodegenCounters {
        CodegenCounters {
            speculated_stores: self.speculated_stores.saturating_add(unit.speculated_stores),
            push_sites: self.push_sites.saturating_add(unit.push_sites),
            push_reuse_branches: self.push_reuse_branches.saturating_add(
                unit.push_reuse_branches,
            ),
            x87_load_sites: self.x87_load_sites.saturating_add(unit.x87_load_sites),
            x87_stores: self.x87_stores.saturating_add(unit.x87_stores),
            x87_invalidates: self.x87_invalidates.saturating_add(unit.x87_invalidates),
        }
    }

    /// Adds what was compiled in one unit.
    pub fn add_unit(&mut self, unit: CodegenCounters)
        ensures
            *final(self) == old(self).with_unit(unit),
    {
        self.speculated_stores = self.speculated_stores.saturating_add(unit.speculated_stores);
        self.push_sites = self.push_sites.saturating_add(unit.push_sites);
        self.push_reuse_branches = self.push_reuse_branches.saturating_add(
            unit.push_reuse_branches,
        );
        self.x87_load_sites = self.x87_load_sites.saturating_add(unit.x87_load_sites);
        self.x87_stores = self.x87_stores.saturating_add(unit.x87_stores);
        self.x87_invalidates = self.x87_invalidates.saturating_add(unit.x87_invalidates);
    }
}

/// What code generation keeps of one unit besides the code.
pub struct UnitState {
    pub cpu: CpuContext,
    pub regs: Vec<WasmLocal>,
    pub start_of_current_instruction: u32,
    /// The first eight bytes of the current instruction, low bytes first.
    pub current_bytes: u64,
    pub exit_with_fault_label: Label,
    pub exit_label: Label,
    pub current_instruction: Instruction,
    pub previous_instruction: Instruction,
    pub fpu_simd_dirty_marked: bool,
    pub elide_current_flags: bool,
    pub instruction_counter: WasmLocal,
    /// Stores go through the store map.
    pub fastmem_writes: bool,
    pub push32_write_cache: Option<Push32WriteCache>,
    pub read_tlb_cache: Option<ReadTlbCache>,
    pub perm_map_off: Option<WasmLocal>,
    pub fpu_pc_cache: Option<WasmLocal>,
    /// The current instruction kept the cached precision control.
    pub fpu_pc_cache_kept: bool,
    /// The current instruction kept the cached x87 registers coherent.
    pub x87_cache_kept: bool,
    pub env: CodegenEnv,
    pub counters: CodegenCounters,
}

/// The state of code generation for one unit.
pub struct JitContext {
    pub builder: WasmBuilder,
    pub x87_local_cache: Vec<Option<X87LocalCacheSlot>>,
    pub st: UnitState,
}

/// What a [`JitContext`] holds.
pub struct Ctx {
    pub e: Emit,
    pub x87: Seq<Option<X87LocalCacheSlot>>,
    pub st: UnitState,
}

impl View for JitContext {
    type V = Ctx;

    open spec fn view(&self) -> Ctx {
        Ctx { e: self.builder@, x87: self.x87_local_cache@, st: self.st }
    }
}

impl Ctx {
    /// One local for each general register and one cache slot for each x87 register.
    pub open spec fn wf(self) -> bool {
        self.st.regs@.len() == 8 && self.x87.len() == 8
    }

    /// With the builder in state `e`.
    pub open spec fn on(self, e: Emit) -> Ctx {
        Ctx { e, ..self }
    }

    /// The code of an expression.
    pub open spec fn val(self, e: E) -> Ctx {
        self.on(self.e.val(e))
    }

    /// One more instruction.
    pub open spec fn emit(self, op: Op) -> Ctx {
        self.on(self.e.op(op))
    }

    /// A new local takes the value on the stack.
    pub open spec fn to_new(self) -> Ctx {
        self.on(self.e.take_i32().op(Op::LocalSet(self.e.next_i32())))
    }

    pub open spec fn to_new_i64(self) -> Ctx {
        self.on(self.e.take_i64().op(Op::LocalSet(self.e.next_i64())))
    }

    /// A local is given back.
    pub open spec fn free(self, x: usize) -> Ctx {
        self.on(self.e.give_i32(x))
    }

    pub open spec fn free_i64(self, x: usize) -> Ctx {
        self.on(self.e.give_i64(x))
    }

    /// General register `r`.
    pub open spec fn reg32(self, r: int) -> E {
        E::L(self.st.regs@[r].0)
    }

    /// The offset of the current instruction within its page.
    pub open spec fn here(self) -> E {
        E::C(crate::cpu_state::page_offset(self.st.start_of_current_instruction))
    }
}

impl JitContext {
    /// The local of general register `i`.
    pub fn reg(&self, i: u32) -> (l: WasmLocal)
        requires
            self@.wf(),
            i < 8,
        ensures
            l == self@.st.regs@[i as int],
    {
        self.st.regs[i as usize]
    }
}

} // verus!
