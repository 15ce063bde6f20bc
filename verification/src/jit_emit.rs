//! Code of one basic block: its instructions in order, with the bookkeeping between them.
use vstd::prelude::*;
use crate::codegen_mem::{
    gen_perm_map_off_free, gen_push32_write_cache_free, gen_read_tlb_cache_free,
};
use crate::codegen_reg::{
    gen_dispatch_stat_increment, gen_set_eip_low_bits,
    gen_set_previous_eip_offset_from_eip_with_low_bits,
};
use crate::codegen_x87::{
    gen_fpu_pc_cache_free, gen_x87_local_cache_free_all,
    gen_x87_local_cache_invalidate_all_runtime, x87_cache_in_use,
};
use crate::cpu_state;
use crate::cpu_state::{offset_in_page, Stat, AT_PREVIOUS_IP};
use crate::guest_ram;
use crate::guest_ram::Ram;
use crate::jit_blocks;
use crate::jit_blocks::{
    is_near_end_of_page, should_elide_current_flags, BasicBlock, BasicBlockType, Code, Listing,
    JIT_INSTR_BLOCK_BOUNDARY_FLAG,
};
use crate::jit_context::{Ctx, Instruction, JitContext, UnitState};
use crate::opstats;
use crate::opstats::{gen_opstats, is_prefix_byte};
use crate::wasm::{Bin, Sig, Width, E};
use std::collections::HashMap;

verus! {

broadcast use {
    crate::wasm::group_code,
    crate::codegen_reg::group_events,
    vstd::std_specs::hash::group_hash_axioms,
};

/// What is compiled: the code of the guest, and which of it is watched.
pub struct Unit {
    pub ram: Ram,
    pub listing: Listing,
    pub blocks: Vec<BasicBlock>,
    /// Flags that are never read are not computed.
    pub dead_flag_elision: bool,
    /// Pages whose blocks are profiled.
    pub watched_pages: Vec<u32>,
    /// The counters of profiled blocks, by address.
    pub trace_counters: HashMap<u32, u32>,
}

impl Unit {
    pub open spec fn code(self) -> Code {
        Code { ram: self.ram@, listing: self.listing@, blocks: self.blocks@ }
    }

    pub open spec fn wf(self) -> bool {
        &&& guest_ram::ram_wf(self.ram@)
        &&& jit_blocks::blocks_wf(self.blocks@)
        &&& forall|i: int|
            0 <= i < self.blocks@.len() ==> (#[trigger] self.blocks@[i]).end_addr <= 0xFFFF_F000
    }

    /// The flags that the instruction at an address sets are not computed.
    pub open spec fn elides(self, address: u32, block: BasicBlock) -> bool {
        self.dead_flag_elision && self.code().elidable(address, block)
    }
}

/// The instruction is an x87 instruction, after at most `n` prefixes.
pub open spec fn x87_opcode(ram: Seq<u8>, address: int, n: nat) -> bool
    decreases n,
{
    let b = guest_ram::byte_at(ram, address);
    if n == 0 {
        false
    } else if opstats::is_prefix(b) {
        x87_opcode(ram, address + 1, (n - 1) as nat)
    } else {
        0xD8 <= b <= 0xDF
    }
}

/// The instruction may use MMX registers, which share the storage of the x87 registers, after
/// at most `n` prefixes.
pub open spec fn mmx_opcode(ram: Seq<u8>, address: int, n: nat) -> bool
    decreases n,
{
    let b = guest_ram::byte_at(ram, address);
    let op = guest_ram::byte_at(ram, address + 1);
    if n == 0 {
        false
    } else if opstats::is_prefix(b) {
        mmx_opcode(ram, address + 1, (n - 1) as nat)
    } else {
        b == 0x0F && (0x60 <= op <= 0x77 || op == 0x7E || op == 0x7F || 0xD1 <= op <= 0xFE)
    }
}

fn opcode_is_x87(ram: &Ram, eip: u32) -> (r: bool)
    requires
        eip <= 0xFFFF_F000,
    ensures
        r == x87_opcode(ram@, eip as int, 4),
{
    let mut at: u32 = eip;
    let mut n: u32 = 4;
    while n > 0
        invariant
            n <= 4,
            at + n <= 0xFFFF_F004,
            x87_opcode(ram@, eip as int, 4) == x87_opcode(ram@, at as int, n as nat),
        decreases n,
    {
        let b: u8 = ram.read8(at);
        if !is_prefix_byte(b) {
            return 0xD8 <= b && b <= 0xDF;
        }
        at = at + 1;
        n = n - 1;
    }
    false
}

fn opcode_is_mmx(ram: &Ram, eip: u32) -> (r: bool)
    requires
        eip <= 0xFFFF_F000,
    ensures
        r == mmx_opcode(ram@, eip as int, 4),
{
    let mut at: u32 = eip;
    let mut n: u32 = 4;
    while n > 0
        invariant
            n <= 4,
            at + n <= 0xFFFF_F004,
            mmx_opcode(ram@, eip as int, 4) == mmx_opcode(ram@, at as int, n as nat),
        decreases n,
    {
        let b: u8 = ram.read8(at);
        if !is_prefix_byte(b) {
            let op: u8 = ram.read8(at + 1);
            return b == 0x0F && ((0x60 <= op && op <= 0x77) || op == 0x7E || op == 0x7F || (0xD1
                <= op && op <= 0xFE));
        }
        at = at + 1;
        n = n - 1;
    }
    false
}

/// The context stands at an instruction that can be compiled: not in the last page of the
/// address space.
pub open spec fn can_step(c: Ctx) -> bool {
    c.wf() && c.st.cpu.eip < 0xFFFF_F000
}

/// `f` compiles one instruction as `step` says: the context after it, and its flags. It moves
/// on to the next instruction.
pub open spec fn acts_as<F: Fn(JitContext) -> (JitContext, u32)>(
    f: F,
    step: spec_fn(Ctx) -> (Ctx, u32),
) -> bool {
    &&& forall|c: JitContext| can_step(c@) ==> #[trigger] call_requires(f, (c,))
    &&& forall|c: JitContext, r: (JitContext, u32)|
        can_step(c@) && #[trigger] call_ensures(f, (c,), r) ==> (r.0@, r.1) == step(c@)
    &&& forall|c: Ctx|
        can_step(c) ==> (#[trigger] step(c)).0.wf() && step(c).0.st.cpu.eip > c.st.cpu.eip
}

/// What `f` does to the context.
pub open spec fn action<F: Fn(JitContext) -> (JitContext, u32)>(f: F) -> spec_fn(Ctx) -> (Ctx, u32) {
    choose|step: spec_fn(Ctx) -> (Ctx, u32)| acts_as(f, step)
}

/// A compiler that acts as some `step` says acts as its action says.
pub proof fn law_the_action_is_what_is_done<F: Fn(JitContext) -> (JitContext, u32)>(
    f: F,
    step: spec_fn(Ctx) -> (Ctx, u32),
)
    requires
        acts_as(f, step),
    ensures
        acts_as(f, action(f)),
{
}

/// Compiles an instruction of one byte that does nothing.
pub fn gen_nop(context: JitContext) -> (r: (JitContext, u32))
    requires
        can_step(context@),
    ensures
        (r.0@, r.1) == context@.nop(),
{
    let mut ctx: JitContext = context;
    ctx.st.cpu.eip = ctx.st.cpu.eip + 1;
    (ctx, 0)
}

/// A compiler of instructions that do nothing acts as code generation asks of one.
pub proof fn law_nops_can_be_compiled()
    ensures
        acts_as(gen_nop, |c: Ctx| c.nop()),
        acts_as(gen_nop, action(gen_nop)),
{
    law_the_action_is_what_is_done(gen_nop, |c: Ctx| c.nop());
}

impl Ctx {
    /// After an instruction of one byte that does nothing.
    pub open spec fn nop(self) -> (Ctx, u32) {
        (
            Ctx {
                st: UnitState {
                    cpu: crate::cpu_state::CpuContext {
                        eip: (self.st.cpu.eip + 1) as u32,
                        ..self.st.cpu
                    },
                    ..self.st
                },
                ..self
            },
            0,
        )
    }

    /// The locals that live for one block are given back.
    #[verifier::opaque]
    pub open spec fn block_locals_freed(self) -> Ctx {
        self.x87_freed().push_cache_freed().read_cache_freed().perm_slot_freed().pc_freed()
    }

    pub open spec fn push_cache_freed(self) -> Ctx {
        match self.st.push32_write_cache {
            Some(cache) => Ctx {
                e: self.e.give_i32(cache.page.0).give_i32(cache.entry.0).give_i32(cache.valid.0),
                st: UnitState { push32_write_cache: None, ..self.st },
                ..self
            },
            None => self,
        }
    }

    pub open spec fn read_cache_freed(self) -> Ctx {
        match self.st.read_tlb_cache {
            Some(cache) => Ctx {
                e: self.e.give_i32(cache.page.0).give_i32(cache.entry.0).give_i32(cache.valid.0),
                st: UnitState { read_tlb_cache: None, ..self.st },
                ..self
            },
            None => self,
        }
    }

    pub open spec fn perm_slot_freed(self) -> Ctx {
        match self.st.perm_map_off {
            Some(off) => Ctx {
                e: self.e.give_i32(off.0),
                st: UnitState { perm_map_off: None, ..self.st },
                ..self
            },
            None => self,
        }
    }

    pub open spec fn pc_freed(self) -> Ctx {
        match self.st.fpu_pc_cache {
            Some(l) => Ctx {
                e: self.e.give_i32(l.0),
                st: UnitState { fpu_pc_cache: None, ..self.st },
                ..self
            },
            None => self,
        }
    }

    /// The start of a block: its instructions are counted.
    #[verifier::opaque]
    pub open spec fn block_opened(self, block: BasicBlock, unit: Unit) -> Ctx {
        let c = if self.e.opt.profiler {
            self.val(E::C(block.addr as i32).call("enter_basic_block", Sig::Fn1))
        } else {
            self
        };
        let counter = self.st.instruction_counter.0;
        let e = c.e.set(
            counter,
            E::L(counter).binc(Bin::Add, block.number_of_instructions as i32),
        ).dispatch_event(Stat::BlockExecution);
        let e2 = if unit.watched_pages@.contains(block.addr / 0x1000)
            && unit.trace_counters@.contains_key(block.addr) {
            e.count(unit.trace_counters@[block.addr])
        } else {
            e
        };
        Ctx {
            e: e2,
            st: UnitState {
                cpu: crate::cpu_state::CpuContext { eip: block.addr, ..self.st.cpu },
                current_instruction: Instruction::Other,
                previous_instruction: Instruction::Other,
                fpu_simd_dirty_marked: false,
                elide_current_flags: false,
                ..self.st
            },
            ..self
        }
    }

    /// What comes before the code of one instruction.
    #[verifier::opaque]
    pub open spec fn instruction_opened(self, block: BasicBlock, unit: Unit) -> Ctx {
        let eip = self.st.cpu.eip;
        let bytes = guest_ram::word_at(unit.ram@, eip as int, 8) as u64;
        let e1 = self.e.opstats(self.st.env.opstats, bytes);
        let e2 = if eip == block.last_instruction_addr && block.ty is Exit {
            e1.store_fixed(
                Width::A32,
                AT_PREVIOUS_IP,
                E::eip_at(cpu_state::page_offset(block.last_instruction_addr)),
            ).set_eip(E::eip_at(cpu_state::page_offset(block.end_addr)))
        } else {
            e1
        };
        Ctx {
            e: e2,
            st: UnitState {
                start_of_current_instruction: eip,
                current_bytes: bytes,
                elide_current_flags: unit.elides(eip, block),
                x87_cache_kept: false,
                fpu_pc_cache_kept: false,
                ..self.st
            },
            ..self
        }
    }

    /// What comes after the code of the instruction at `start`: the caches that it did not
    /// keep are dropped.
    #[verifier::opaque]
    pub open spec fn instruction_closed(self, start: u32, unit: Unit) -> Ctx {
        let c = if !self.st.x87_cache_kept && self.x87_in_use() && (x87_opcode(
            unit.ram@,
            start as int,
            4,
        ) || mmx_opcode(unit.ram@, start as int, 4)) {
            self.x87_dropped()
        } else {
            self
        };
        if c.st.fpu_pc_cache_kept {
            c
        } else {
            c.pc_freed()
        }
    }

    /// The next instruction knows the last one.
    pub open spec fn instruction_passed(self) -> Ctx {
        Ctx {
            st: UnitState {
                previous_instruction: self.st.current_instruction,
                current_instruction: Instruction::Other,
                ..self.st
            },
            ..self
        }
    }

    /// The code of the instructions from the current one to the end of the block.
    #[verifier::opaque]
    pub open spec fn block_from(
        self,
        block: BasicBlock,
        unit: Unit,
        step: spec_fn(Ctx) -> (Ctx, u32),
    ) -> Ctx
        decreases block.end_addr - self.st.cpu.eip,
    {
        let start = self.st.cpu.eip;
        let (c, flags) = step(self.instruction_opened(block, unit));
        let d = c.instruction_closed(start, unit);
        let end = d.st.cpu.eip;
        if end <= start || end >= block.end_addr || flags & JIT_INSTR_BLOCK_BOUNDARY_FLAG != 0
            || jit_blocks::near_end_of_page(end) {
            d.block_locals_freed()
        } else {
            d.instruction_passed().block_from(block, unit, step)
        }
    }

    /// The code of a block.
    #[verifier::opaque]
    pub open spec fn block_code(
        self,
        block: BasicBlock,
        unit: Unit,
        step: spec_fn(Ctx) -> (Ctx, u32),
    ) -> Ctx {
        self.block_opened(block, unit).block_from(block, unit, step)
    }
}

fn contains_page(pages: &Vec<u32>, page: u32) -> (r: bool)
    ensures
        r == pages@.contains(page),
{
    let n: usize = pages.len();
    let mut i: usize = 0;
    while i < n
        invariant
            i <= n,
            n == pages@.len(),
            forall|j: int| 0 <= j < i ==> pages@[j] != page,
        decreases n - i,
    {
        if pages[i] == page {
            return true;
        }
        i = i + 1;
    }
    false
}

impl Unit {
    /// Whether the page is profiled.
    pub fn is_page_watched(&self, page: u32) -> (r: bool)
        ensures
            r == self.watched_pages@.contains(page),
    {
        contains_page(&self.watched_pages, page)
    }
}

fn gen_block_locals_free(ctx: &mut JitContext)
    ensures
        final(ctx)@ == old(ctx)@.block_locals_freed(),
        old(ctx)@.wf() ==> final(ctx)@.wf(),
{
    reveal(Ctx::block_locals_freed);
    gen_x87_local_cache_free_all(ctx);
    gen_push32_write_cache_free(ctx);
    gen_read_tlb_cache_free(ctx);
    gen_perm_map_off_free(ctx);
    gen_fpu_pc_cache_free(ctx);
}

fn gen_block_open(ctx: &mut JitContext, block: &BasicBlock, unit: &Unit)
    ensures
        final(ctx)@ == old(ctx)@.block_opened(*block, *unit),
        old(ctx)@.wf() ==> final(ctx)@.wf(),
        final(ctx)@.st.cpu.eip == block.addr,
{
    reveal(Ctx::block_opened);
    if ctx.builder.opt.profiler {
        ctx.builder.const_i32(block.addr as i32);
        ctx.builder.call("enter_basic_block", Sig::Fn1);
    }
    ctx.builder.get_local(ctx.st.instruction_counter);
    ctx.builder.binc(Bin::Add, block.number_of_instructions as i32);
    ctx.builder.set_local(ctx.st.instruction_counter);
    gen_dispatch_stat_increment(&mut ctx.builder, Stat::BlockExecution);
    if unit.is_page_watched(block.addr / 0x1000) {
        if let Some(counter) = unit.trace_counters.get(&block.addr) {
            ctx.builder.increment_fixed_i64(*counter);
        }
    }
    ctx.st.cpu.eip = block.addr;
    ctx.st.current_instruction = Instruction::Other;
    ctx.st.previous_instruction = Instruction::Other;
    ctx.st.fpu_simd_dirty_marked = false;
    ctx.st.elide_current_flags = false;
}

fn gen_instruction_open(ctx: &mut JitContext, block: &BasicBlock, unit: &Unit)
    requires
        unit.wf(),
        old(ctx)@.st.cpu.eip <= 0xFFFF_F000,
        block.end_addr <= 0xFFFF_F000,
    ensures
        final(ctx)@ == old(ctx)@.instruction_opened(*block, *unit),
        old(ctx)@.wf() ==> final(ctx)@.wf(),
        final(ctx)@.st.cpu.eip == old(ctx)@.st.cpu.eip,
{
    reveal(Ctx::instruction_opened);
    let eip: u32 = ctx.st.cpu.eip;
    let bytes: u64 = unit.ram.read64(eip);
    gen_opstats(&mut ctx.builder, &ctx.st.env.opstats, bytes);
    if let BasicBlockType::Exit = block.ty {
        if eip == block.last_instruction_addr {
            let before: i32 = offset_in_page(block.last_instruction_addr);
            let after: i32 = offset_in_page(block.end_addr);
            gen_set_previous_eip_offset_from_eip_with_low_bits(&mut ctx.builder, before);
            gen_set_eip_low_bits(&mut ctx.builder, after);
        }
    }
    ctx.st.start_of_current_instruction = eip;
    ctx.st.current_bytes = bytes;
    ctx.st.elide_current_flags = should_elide_current_flags(
        unit.dead_flag_elision,
        &unit.ram,
        &unit.listing,
        eip,
        block,
        &unit.blocks,
    );
    ctx.st.x87_cache_kept = false;
    ctx.st.fpu_pc_cache_kept = false;
}

fn gen_instruction_close(ctx: &mut JitContext, start_eip: u32, unit: &Unit)
    requires
        start_eip <= 0xFFFF_F000,
    ensures
        final(ctx)@ == old(ctx)@.instruction_closed(start_eip, *unit),
        old(ctx)@.wf() ==> final(ctx)@.wf(),
        final(ctx)@.st.cpu.eip == old(ctx)@.st.cpu.eip,
{
    reveal(Ctx::instruction_closed);
    assert(old(ctx)@.x87_dropped().st.cpu == old(ctx)@.st.cpu) by {
        reveal(Ctx::x87_dropped);
    }
    if !ctx.st.x87_cache_kept && x87_cache_in_use(ctx) && (opcode_is_x87(&unit.ram, start_eip)
        || opcode_is_mmx(&unit.ram, start_eip)) {
        gen_x87_local_cache_invalidate_all_runtime(ctx);
    }
    if !ctx.st.fpu_pc_cache_kept {
        gen_fpu_pc_cache_free(ctx);
    }
}

/// Compiles a block. `jit_instruction` compiles the instruction that the context stands at,
/// and gives the context after it with the flags of the instruction.
pub fn jit_generate_basic_block<F: Fn(JitContext) -> (JitContext, u32)>(
    context: JitContext,
    block: &BasicBlock,
    unit: &Unit,
    jit_instruction: &F,
) -> (r: JitContext)
    requires
        context@.wf(),
        unit.wf(),
        block.addr < block.end_addr <= 0xFFFF_F000,
        acts_as(*jit_instruction, action(*jit_instruction)),
    ensures
        r@ == context@.block_code(*block, *unit, action(*jit_instruction)),
        r@.wf(),
{
    reveal(Ctx::block_code);
    let ghost step = action(*jit_instruction);
    let mut ctx: JitContext = context;
    gen_block_open(&mut ctx, block, unit);
    let ghost goal = ctx@.block_from(*block, *unit, step);
    loop
        invariant
            ctx@.wf(),
            unit.wf(),
            block.end_addr <= 0xFFFF_F000,
            ctx@.st.cpu.eip < block.end_addr,
            step == action(*jit_instruction),
            acts_as(*jit_instruction, step),
            goal == context@.block_code(*block, *unit, step),
            ctx@.block_from(*block, *unit, step) == goal,
        decreases block.end_addr - ctx@.st.cpu.eip,
    {
        reveal_with_fuel(Ctx::block_from, 1);
        let start_eip: u32 = ctx.st.cpu.eip;
        gen_instruction_open(&mut ctx, block, unit);
        let ghost opened = ctx@;
        let (next, flags): (JitContext, u32) = jit_instruction(ctx);
        ctx = next;
        assert((ctx@, flags) == step(opened));
        gen_instruction_close(&mut ctx, start_eip, unit);
        let end_addr: u32 = ctx.st.cpu.eip;
        if end_addr >= block.end_addr || flags & JIT_INSTR_BLOCK_BOUNDARY_FLAG != 0
            || is_near_end_of_page(end_addr) {
            gen_block_locals_free(&mut ctx);
            return ctx;
        }
        ctx.st.previous_instruction = ctx.st.current_instruction;
        ctx.st.current_instruction = Instruction::Other;
    }
}

} // verus!
