//! Code that reads and writes registers, the instruction pointer and segment state.
use vstd::prelude::*;
use crate::cpu_state;
use crate::cpu_state::{
    offset_in_page, Stat, AT_FPU_SIMD_DIRTY, AT_INSTRUCTION_COUNTER, AT_INSTRUCTION_POINTER,
    AT_PREVIOUS_IP, AT_REG_XMM, AT_SEG_OFFSET, AT_SREG, AT_SSE_SCRATCH, CS, CX, ECX, NOT_BYTE_1,
    NOT_LOW_16, NOT_LOW_8, PAGE_MASK, SS,
};
use crate::jit_context::{Ctx, JitContext, UnitState};
use crate::modrm;
use crate::modrm::ModrmByte;
use crate::wasm::{
    Bin, Emit, FlagSlot, Op, Sig, WasmBuilder, WasmLocal, Width, E, HINT_GROUP_MEM, HINT_UNLIKELY,
};

verus! {

broadcast use crate::wasm::group_code;

impl E {
    /// The instruction pointer.
    pub open spec fn eip() -> E {
        E::fixed(Width::A32, AT_INSTRUCTION_POINTER)
    }

    /// The instruction pointer moved to offset `low` of its page.
    pub open spec fn eip_at(low: i32) -> E {
        E::eip().and(PAGE_MASK).binc(Bin::Or, low)
    }

    /// The sign-extended low byte.
    pub open spec fn sext8(self) -> E {
        self.binc(Bin::Shl, 24).binc(Bin::ShrS, 24)
    }

    /// The sign-extended low half-word.
    pub open spec fn sext16(self) -> E {
        self.binc(Bin::Shl, 16).binc(Bin::ShrS, 16)
    }
}

impl Emit {
    pub open spec fn set_eip(self, value: E) -> Emit {
        self.store_fixed(Width::A32, AT_INSTRUCTION_POINTER, value)
    }

    pub open spec fn mark_fpu_simd_dirty(self) -> Emit {
        self.store_fixed(Width::W8, AT_FPU_SIMD_DIRTY, E::C(1))
    }

    /// One more event of the profiler, where it counts.
    #[verifier::opaque]
    pub open spec fn profile(self, stat: Stat) -> Emit {
        if self.opt.profiler {
            self.count(stat.address(self.opt.stat_base))
        } else {
            self
        }
    }

    /// One more event of the dispatcher, where it counts.
    #[verifier::opaque]
    pub open spec fn dispatch_event(self, stat: Stat) -> Emit {
        if self.opt.dispatch_stats {
            self.count(stat.address(self.opt.stat_base))
        } else {
            self
        }
    }

    /// The profiler is told where compiled code is left.
    #[verifier::opaque]
    pub open spec fn track_exit(self, address: u32) -> Emit {
        if self.opt.profiler {
            self.val(E::C(address as i32).call("track_jit_exit", Sig::Fn1))
        } else {
            self
        }
    }
}

/// Counting events leaves the locals and the options alone.
pub broadcast proof fn profile_keeps(e: Emit, stat: Stat)
    ensures
        (#[trigger] e.profile(stat)).opt == e.opt,
        e.profile(stat).flag_locals == e.flag_locals,
{
    reveal(Emit::profile);
}

pub broadcast proof fn dispatch_event_keeps(e: Emit, stat: Stat)
    ensures
        (#[trigger] e.dispatch_event(stat)).opt == e.opt,
        e.dispatch_event(stat).flag_locals == e.flag_locals,
{
    reveal(Emit::dispatch_event);
}

pub broadcast group group_events {
    profile_keeps,
    dispatch_event_keeps,
}

impl Ctx {
    /// General register `r` as a 16-bit value.
    pub open spec fn reg16(self, r: int) -> E {
        self.reg32(r).and(0xffff)
    }

    /// The 8-bit register `r`: the low bytes of the first four general registers, then
    /// their second bytes.
    pub open spec fn reg8(self, r: int) -> E {
        if r < 4 {
            self.reg32(r).and(0xff)
        } else {
            self.reg32(r - 4).binc(Bin::ShrU, 8).and(0xff)
        }
    }

    pub open spec fn set_reg32(self, r: int, value: E) -> Ctx {
        self.on(self.e.set(self.st.regs@[r].0, value))
    }

    /// The low half of register `r` takes the low half of `value`.
    pub open spec fn set_reg16(self, r: int, value: E) -> Ctx {
        self.set_reg32(r, value.and(0xffff).bin(Bin::Or, self.reg32(r).and(NOT_LOW_16)))
    }

    /// The 8-bit register `r` takes the low byte of `value`.
    pub open spec fn set_reg8(self, r: int, value: E) -> Ctx {
        if r < 4 {
            self.set_reg32(r, value.and(0xff).bin(Bin::Or, self.reg32(r).and(NOT_LOW_8)))
        } else {
            self.set_reg32(
                r - 4,
                value.binc(Bin::Shl, 8).and(0xff00).bin(Bin::Or, self.reg32(r - 4).and(NOT_BYTE_1)),
            )
        }
    }

    /// The value on the stack is known to have no bits of `mask`; checked where generated
    /// code is checked.
    pub open spec fn checked_top(self, mask: i32) -> Ctx {
        if self.e.opt.debug_checks {
            let v = self.e.next_i32();
            self.on(
                self.e.take_i32().op(Op::LocalSet(v)).if_void(E::L(v).and(mask)).op(
                    Op::Unreachable,
                ).end().val(E::L(v)).give_i32(v),
            )
        } else {
            self
        }
    }

    /// The 8-bit register `r` takes the value on the stack, which is known to be a byte.
    pub open spec fn set_reg8_unmasked(self, r: int) -> Ctx {
        let c = self.checked_top(NOT_LOW_8);
        if r < 4 {
            c.set_reg32(r, E::Top.bin(Bin::Or, c.reg32(r).and(NOT_LOW_8)))
        } else {
            c.set_reg8(r, E::Top)
        }
    }

    /// The 16-bit register `r` takes the value on the stack, which is known to be a half-word.
    pub open spec fn set_reg16_unmasked(self, r: int) -> Ctx {
        let c = self.checked_top(NOT_LOW_16);
        c.set_reg32(r, E::Top.bin(Bin::Or, c.reg32(r).and(NOT_LOW_16)))
    }

    pub open spec fn mark_fpu_simd_dirty_once(self) -> Ctx {
        if self.st.fpu_simd_dirty_marked {
            self
        } else {
            Ctx {
                e: self.e.mark_fpu_simd_dirty(),
                st: UnitState { fpu_simd_dirty_marked: true, ..self.st },
                ..self
            }
        }
    }

    /// `address + size` bytes are probed by a helper; on a fault the unit is left.
    pub open spec fn probe(self, helper: &'static str, address: WasmLocal, size: i32) -> Ctx {
        let faulted = E::L(address.0).both(E::C(size)).both(self.here()).call(helper, Sig::Fn3Ret);
        if self.e.opt.profiler {
            self.on(
                self.e.if_void(faulted).track_exit(self.st.start_of_current_instruction).br(
                    self.st.exit_with_fault_label,
                ).end(),
            )
        } else {
            self.on(
                self.e.br_if_hinted(
                    faulted,
                    self.st.exit_with_fault_label,
                    HINT_GROUP_MEM,
                    HINT_UNLIKELY,
                ),
            )
        }
    }
}

/// Adds the base of the code segment to the value on the stack.
pub fn gen_add_cs_offset(ctx: &mut JitContext)
    ensures
        final(ctx)@ == (if old(ctx)@.st.cpu.flat_segmentation {
            old(ctx)@
        } else {
            old(ctx)@.val(
                E::Top.bin(
                    Bin::Add,
                    E::fixed(Width::A32, cpu_state::seg_offset_address(CS as int) as u32),
                ),
            )
        }),
{
    if !ctx.st.cpu.flat_segmentation {
        ctx.builder.load_fixed(Width::A32, AT_SEG_OFFSET + 4 * CS);
        ctx.builder.bin(Bin::Add);
    }
}

/// Pushes the instruction pointer.
pub fn gen_get_eip(builder: &mut WasmBuilder)
    ensures
        final(builder)@ == old(builder)@.val(E::eip()),
{
    builder.load_fixed(Width::A32, AT_INSTRUCTION_POINTER);
}

/// Records that the FPU or SIMD state changed.
pub fn gen_mark_fpu_simd_dirty(builder: &mut WasmBuilder)
    ensures
        final(builder)@ == old(builder)@.mark_fpu_simd_dirty(),
{
    builder.const_i32(AT_FPU_SIMD_DIRTY as i32);
    builder.const_i32(1);
    builder.store(Width::W8, 0);
}

/// Records that the FPU or SIMD state changed, unless this unit already does.
pub fn gen_mark_fpu_simd_dirty_once(ctx: &mut JitContext)
    ensures
        final(ctx)@ == old(ctx)@.mark_fpu_simd_dirty_once(),
{
    if ctx.st.fpu_simd_dirty_marked {
        return ;
    }
    gen_mark_fpu_simd_dirty(&mut ctx.builder);
    ctx.st.fpu_simd_dirty_marked = true;
}

fn gen_eip_at(builder: &mut WasmBuilder, low_bits: i32)
    ensures
        final(builder)@ == old(builder)@.val(E::eip_at(low_bits)),
{
    gen_get_eip(builder);
    builder.binc(Bin::And, PAGE_MASK);
    builder.binc(Bin::Or, low_bits);
}

/// Moves the instruction pointer past the current instruction, within its page.
pub fn gen_set_eip_to_after_current_instruction(ctx: &mut JitContext)
    ensures
        final(ctx)@ == old(ctx)@.on(
            old(ctx)@.e.set_eip(E::eip_at(cpu_state::page_offset(old(ctx)@.st.cpu.eip))),
        ),
{
    let low: i32 = offset_in_page(ctx.st.cpu.eip);
    ctx.builder.const_i32(AT_INSTRUCTION_POINTER as i32);
    gen_eip_at(&mut ctx.builder, low);
    ctx.builder.store(Width::A32, 0);
}

/// Sets the previous instruction pointer to offset `low_bits` of the current page.
pub fn gen_set_previous_eip_offset_from_eip_with_low_bits(builder: &mut WasmBuilder, low_bits: i32)
    requires
        0 <= low_bits < 0x1000,
    ensures
        final(builder)@ == old(builder)@.store_fixed(
            Width::A32,
            AT_PREVIOUS_IP,
            E::eip_at(low_bits),
        ),
{
    builder.const_i32(AT_PREVIOUS_IP as i32);
    gen_eip_at(builder, low_bits);
    builder.store(Width::A32, 0);
}

/// Moves the instruction pointer to offset `low_bits` of its page.
pub fn gen_set_eip_low_bits(builder: &mut WasmBuilder, low_bits: i32)
    requires
        0 <= low_bits < 0x1000,
    ensures
        final(builder)@ == old(builder)@.set_eip(E::eip_at(low_bits)),
{
    builder.const_i32(AT_INSTRUCTION_POINTER as i32);
    gen_eip_at(builder, low_bits);
    builder.store(Width::A32, 0);
}

/// Moves the instruction pointer to `n` bytes after offset `low_bits` of its page.
pub fn gen_set_eip_low_bits_and_jump_rel32(builder: &mut WasmBuilder, low_bits: i32, n: i32)
    requires
        0 <= low_bits < 0x1000,
    ensures
        final(builder)@ == old(builder)@.set_eip(
            if n != 0 {
                E::eip_at(low_bits).binc(Bin::Add, n)
            } else {
                E::eip_at(low_bits)
            },
        ),
{
    builder.const_i32(AT_INSTRUCTION_POINTER as i32);
    gen_eip_at(builder, low_bits);
    if n != 0 {
        builder.binc(Bin::Add, n);
    }
    builder.store(Width::A32, 0);
}

/// Moves the instruction pointer by `n` bytes.
pub fn gen_relative_jump(builder: &mut WasmBuilder, n: i32)
    ensures
        final(builder)@ == (if n != 0 {
            old(builder)@.set_eip(E::eip().binc(Bin::Add, n))
        } else {
            old(builder)@
        }),
{
    if n != 0 {
        builder.const_i32(AT_INSTRUCTION_POINTER as i32);
        gen_get_eip(builder);
        builder.binc(Bin::Add, n);
        builder.store(Width::A32, 0);
    }
}

/// Adds the instructions counted in this unit to the global count.
pub fn gen_update_instruction_counter(ctx: &mut JitContext)
    ensures
        final(ctx)@ == old(ctx)@.on(
            old(ctx)@.e.store_fixed(
                Width::A32,
                AT_INSTRUCTION_COUNTER,
                E::fixed(Width::A32, AT_INSTRUCTION_COUNTER).bin(
                    Bin::Add,
                    E::L(old(ctx)@.st.instruction_counter.0),
                ),
            ),
        ),
{
    ctx.builder.const_i32(AT_INSTRUCTION_COUNTER as i32);
    ctx.builder.load_fixed(Width::A32, AT_INSTRUCTION_COUNTER);
    ctx.builder.get_local(ctx.st.instruction_counter);
    ctx.builder.bin(Bin::Add);
    ctx.builder.store(Width::A32, 0);
}

/// Pushes an 8-bit register.
pub fn gen_get_reg8(ctx: &mut JitContext, r: u32)
    requires
        old(ctx)@.wf(),
        r < 8,
    ensures
        final(ctx)@ == old(ctx)@.val(old(ctx)@.reg8(r as int)),
{
    if r < 4 {
        ctx.builder.get_local(ctx.st.regs[r as usize]);
        ctx.builder.binc(Bin::And, 0xff);
    } else {
        ctx.builder.get_local(ctx.st.regs[(r - 4) as usize]);
        ctx.builder.binc(Bin::ShrU, 8);
        ctx.builder.binc(Bin::And, 0xff);
    }
}

/// A local whose low byte is the 8-bit register `r`: the register's own local, or a new one.
pub fn gen_get_reg8_or_alias_to_reg32(ctx: &mut JitContext, r: u32) -> (l: WasmLocal)
    requires
        old(ctx)@.wf(),
        r < 8,
    ensures
        r < 4 ==> final(ctx)@ == old(ctx)@ && l == old(ctx)@.st.regs@[r as int],
        r >= 4 ==> {
            &&& l.0 == old(ctx)@.e.next_i32()
            &&& final(ctx)@ == old(ctx)@.on(
                old(ctx)@.e.set_new(old(ctx)@.reg32(r - 4).binc(Bin::ShrU, 8)),
            )
        },
{
    if r < 4 {
        ctx.st.regs[r as usize]
    } else {
        ctx.builder.get_local(ctx.st.regs[(r - 4) as usize]);
        ctx.builder.binc(Bin::ShrU, 8);
        ctx.builder.set_new_local()
    }
}

/// Gives back a local from [`gen_get_reg8_or_alias_to_reg32`].
pub fn gen_free_reg8_or_alias(ctx: &mut JitContext, r: u32, local: WasmLocal)
    requires
        r < 8,
    ensures
        final(ctx)@ == (if r < 4 {
            old(ctx)@
        } else {
            old(ctx)@.on(old(ctx)@.e.give_i32(local.0))
        }),
{
    if r >= 4 {
        ctx.builder.free_local(local);
    }
}

/// Pushes a 16-bit register.
pub fn gen_get_reg16(ctx: &mut JitContext, r: u32)
    requires
        old(ctx)@.wf(),
        r < 8,
    ensures
        final(ctx)@ == old(ctx)@.val(old(ctx)@.reg16(r as int)),
{
    ctx.builder.get_local(ctx.st.regs[r as usize]);
    ctx.builder.binc(Bin::And, 0xffff);
}

/// Pushes a 32-bit register.
pub fn gen_get_reg32(ctx: &mut JitContext, r: u32)
    requires
        old(ctx)@.wf(),
        r < 8,
    ensures
        final(ctx)@ == old(ctx)@.val(old(ctx)@.reg32(r as int)),
{
    ctx.builder.get_local(ctx.st.regs[r as usize]);
}

/// Pops the low byte of the stack top into an 8-bit register.
pub fn gen_set_reg8(ctx: &mut JitContext, r: u32)
    requires
        old(ctx)@.wf(),
        r < 8,
    ensures
        final(ctx)@ == old(ctx)@.set_reg8(r as int, E::Top),
{
    if r < 4 {
        ctx.builder.binc(Bin::And, 0xff);
        ctx.builder.get_local(ctx.st.regs[r as usize]);
        ctx.builder.binc(Bin::And, NOT_LOW_8);
        ctx.builder.bin(Bin::Or);
        ctx.builder.set_local(ctx.st.regs[r as usize]);
    } else {
        ctx.builder.binc(Bin::Shl, 8);
        ctx.builder.binc(Bin::And, 0xff00);
        ctx.builder.get_local(ctx.st.regs[(r - 4) as usize]);
        ctx.builder.binc(Bin::And, NOT_BYTE_1);
        ctx.builder.bin(Bin::Or);
        ctx.builder.set_local(ctx.st.regs[(r - 4) as usize]);
    }
}

fn gen_check_top(ctx: &mut JitContext, mask: i32)
    ensures
        final(ctx)@ == old(ctx)@.checked_top(mask),
{
    if ctx.builder.opt.debug_checks {
        let val: WasmLocal = ctx.builder.set_new_local();
        ctx.builder.get_local(val);
        ctx.builder.binc(Bin::And, mask);
        ctx.builder.if_void();
        ctx.builder.emit(Op::Unreachable);
        ctx.builder.block_end();
        ctx.builder.get_local(val);
        ctx.builder.free_local(val);
    }
}

/// Pops a byte into an 8-bit register.
pub fn gen_set_reg8_unmasked(ctx: &mut JitContext, r: u32)
    requires
        old(ctx)@.wf(),
        r < 8,
    ensures
        final(ctx)@ == old(ctx)@.set_reg8_unmasked(r as int),
{
    gen_check_top(ctx, NOT_LOW_8);
    if r < 4 {
        ctx.builder.get_local(ctx.st.regs[r as usize]);
        ctx.builder.binc(Bin::And, NOT_LOW_8);
        ctx.builder.bin(Bin::Or);
        ctx.builder.set_local(ctx.st.regs[r as usize]);
    } else {
        gen_set_reg8(ctx, r);
    }
}

/// Pops the low half of the stack top into a 16-bit register.
pub fn gen_set_reg16(ctx: &mut JitContext, r: u32)
    requires
        old(ctx)@.wf(),
        r < 8,
    ensures
        final(ctx)@ == old(ctx)@.set_reg16(r as int, E::Top),
{
    let l: WasmLocal = ctx.st.regs[r as usize];
    gen_set_reg16_local(&mut ctx.builder, &l);
}

/// Pops a half-word into a 16-bit register.
pub fn gen_set_reg16_unmasked(ctx: &mut JitContext, r: u32)
    requires
        old(ctx)@.wf(),
        r < 8,
    ensures
        final(ctx)@ == old(ctx)@.set_reg16_unmasked(r as int),
{
    gen_check_top(ctx, NOT_LOW_16);
    ctx.builder.get_local(ctx.st.regs[r as usize]);
    ctx.builder.binc(Bin::And, NOT_LOW_16);
    ctx.builder.bin(Bin::Or);
    ctx.builder.set_local(ctx.st.regs[r as usize]);
}

/// Pops the low half of the stack top into the low half of a local.
pub fn gen_set_reg16_local(builder: &mut WasmBuilder, local: &WasmLocal)
    ensures
        final(builder)@ == old(builder)@.set(
            local.0,
            E::Top.and(0xffff).bin(Bin::Or, E::L(local.0).and(NOT_LOW_16)),
        ),
{
    builder.binc(Bin::And, 0xffff);
    builder.get_local(*local);
    builder.binc(Bin::And, NOT_LOW_16);
    builder.bin(Bin::Or);
    builder.set_local(*local);
}

/// Pops the stack top into a 32-bit register.
pub fn gen_set_reg32(ctx: &mut JitContext, r: u32)
    requires
        old(ctx)@.wf(),
        r < 8,
    ensures
        final(ctx)@ == old(ctx)@.set_reg32(r as int, E::Top),
{
    ctx.builder.set_local(ctx.st.regs[r as usize]);
}

/// Counts the loop register down by one, in 32 or 16 bits.
pub fn decr_exc_asize(ctx: &mut JitContext)
    requires
        old(ctx)@.wf(),
    ensures
        ({
            let next = old(ctx)@.reg32(ECX as int).binc(Bin::Sub, 1);
            final(ctx)@ == (if old(ctx)@.st.cpu.asize_32 {
                old(ctx)@.set_reg32(ECX as int, next)
            } else {
                old(ctx)@.set_reg16(CX as int, next)
            })
        }),
{
    gen_get_reg32(ctx, ECX);
    ctx.builder.binc(Bin::Sub, 1);
    if ctx.st.cpu.asize_32 {
        gen_set_reg32(ctx, ECX);
    } else {
        gen_set_reg16(ctx, CX);
    }
}

/// Copies an XMM register to the scratch register.
pub fn gen_read_reg_xmm128_into_scratch(ctx: &mut JitContext, r: u32)
    requires
        r < 8,
    ensures
        ({
            let from = cpu_state::xmm_address(r as int);
            final(ctx)@ == old(ctx)@.on(
                old(ctx)@.e.store_fixed(
                    Width::A64,
                    AT_SSE_SCRATCH,
                    E::fixed(Width::A64, from as u32),
                ).store_fixed(
                    Width::A64,
                    (AT_SSE_SCRATCH + 8) as u32,
                    E::fixed(Width::A64, (from + 8) as u32),
                ),
            )
        }),
{
    let from: u32 = AT_REG_XMM + 16 * r;
    ctx.builder.const_i32(AT_SSE_SCRATCH as i32);
    ctx.builder.load_fixed(Width::A64, from);
    ctx.builder.store(Width::A64, 0);
    ctx.builder.const_i32((AT_SSE_SCRATCH + 8) as i32);
    ctx.builder.load_fixed(Width::A64, from + 8);
    ctx.builder.store(Width::A64, 0);
}

/// Pushes a segment selector.
pub fn gen_get_sreg(ctx: &mut JitContext, r: u32)
    requires
        r < 8,
    ensures
        final(ctx)@ == old(ctx)@.val(
            E::fixed(Width::A16, cpu_state::sreg_address(r as int) as u32),
        ),
{
    ctx.builder.load_fixed(Width::A16, AT_SREG + 2 * r);
}

/// Pushes the base of the stack segment.
pub fn gen_get_ss_offset(ctx: &mut JitContext)
    ensures
        final(ctx)@ == old(ctx)@.val(
            E::fixed(Width::A32, cpu_state::seg_offset_address(SS as int) as u32),
        ),
{
    ctx.builder.load_fixed(Width::A32, AT_SEG_OFFSET + 4 * SS);
}

/// Pushes the stored flags.
pub fn gen_get_flags(builder: &mut WasmBuilder)
    ensures
        final(builder)@ == old(builder)@.val(old(builder)@.flag_word(FlagSlot::Flags)),
{
    builder.get_flag_word(FlagSlot::Flags);
}

fn gen_probe(ctx: &mut JitContext, helper: &'static str, address_local: &WasmLocal, size: i32)
    ensures
        final(ctx)@ == old(ctx)@.probe(helper, *address_local, size),
{
    let here: i32 = offset_in_page(ctx.st.start_of_current_instruction);
    ctx.builder.get_local(*address_local);
    ctx.builder.const_i32(size);
    ctx.builder.const_i32(here);
    ctx.builder.call(helper, Sig::Fn3Ret);
    if ctx.builder.opt.profiler {
        ctx.builder.if_void();
        gen_debug_track_jit_exit(&mut ctx.builder, ctx.st.start_of_current_instruction);
        ctx.builder.br(ctx.st.exit_with_fault_label);
        ctx.builder.block_end();
    } else {
        ctx.builder.br_if_hinted(ctx.st.exit_with_fault_label, HINT_GROUP_MEM, HINT_UNLIKELY);
    }
}

/// Leaves the unit with a fault unless `size` bytes at the address can be read.
pub fn gen_readable_or_pagefault(ctx: &mut JitContext, address_local: &WasmLocal, size: i32)
    ensures
        final(ctx)@ == old(ctx)@.probe("readable_or_pagefault_jit", *address_local, size),
{
    gen_probe(ctx, "readable_or_pagefault_jit", address_local, size);
}

/// Leaves the unit with a fault unless `size` bytes at the address can be written.
pub fn gen_writable_or_pagefault(ctx: &mut JitContext, address_local: &WasmLocal, size: i32)
    ensures
        final(ctx)@ == old(ctx)@.probe("writable_or_pagefault_jit", *address_local, size),
{
    gen_probe(ctx, "writable_or_pagefault_jit", address_local, size);
}

/// Sign-extends the byte on the stack.
pub fn sign_extend_i8(builder: &mut WasmBuilder)
    ensures
        final(builder)@ == old(builder)@.val(E::Top.sext8()),
{
    builder.binc(Bin::Shl, 24);
    builder.binc(Bin::ShrS, 24);
}

/// Sign-extends the half-word on the stack.
pub fn sign_extend_i16(builder: &mut WasmBuilder)
    ensures
        final(builder)@ == old(builder)@.val(E::Top.sext16()),
{
    builder.binc(Bin::Shl, 16);
    builder.binc(Bin::ShrS, 16);
}

/// Calls a helper without arguments.
pub fn gen_fn0_const(builder: &mut WasmBuilder, name: &'static str)
    ensures
        final(builder)@ == old(builder)@.val(E::Nothing.call(name, Sig::Fn0)),
{
    builder.call(name, Sig::Fn0);
}

/// Calls a helper with one constant.
pub fn gen_fn1_const(builder: &mut WasmBuilder, name: &'static str, arg0: u32)
    ensures
        final(builder)@ == old(builder)@.val(E::C(arg0 as i32).call(name, Sig::Fn1)),
{
    builder.const_i32(arg0 as i32);
    builder.call(name, Sig::Fn1);
}

/// Calls a helper with two constants.
pub fn gen_fn2_const(builder: &mut WasmBuilder, name: &'static str, arg0: u32, arg1: u32)
    ensures
        final(builder)@ == old(builder)@.val(
            E::C(arg0 as i32).both(E::C(arg1 as i32)).call(name, Sig::Fn2),
        ),
{
    builder.const_i32(arg0 as i32);
    builder.const_i32(arg1 as i32);
    builder.call(name, Sig::Fn2);
}

/// Calls a helper with the value on the stack.
pub fn gen_modrm_fn0(builder: &mut WasmBuilder, name: &'static str)
    ensures
        final(builder)@ == old(builder)@.val(E::Top.call(name, Sig::Fn1)),
{
    builder.call(name, Sig::Fn1);
}

/// Calls a helper with the value on the stack and a constant.
pub fn gen_modrm_fn1(builder: &mut WasmBuilder, name: &'static str, arg0: u32)
    ensures
        final(builder)@ == old(builder)@.val(E::Top.both(E::C(arg0 as i32)).call(name, Sig::Fn2)),
{
    builder.const_i32(arg0 as i32);
    builder.call(name, Sig::Fn2);
}

/// Pushes the address of a memory operand.
pub fn gen_modrm_resolve(ctx: &mut JitContext, modrm_byte: ModrmByte)
    requires
        old(ctx)@.wf(),
        modrm_byte.wf(),
    ensures
        final(ctx)@ == old(ctx)@.val(old(ctx)@.address(modrm_byte, 0)),
{
    modrm::gen(ctx, modrm_byte, 0);
}

/// Pushes the address of a memory operand, with the stack pointer taken `esp_offset` higher.
pub fn gen_modrm_resolve_with_esp_offset(
    ctx: &mut JitContext,
    modrm_byte: ModrmByte,
    esp_offset: i32,
)
    requires
        old(ctx)@.wf(),
        modrm_byte.wf(),
    ensures
        final(ctx)@ == old(ctx)@.val(old(ctx)@.address(modrm_byte, esp_offset)),
{
    modrm::gen(ctx, modrm_byte, esp_offset);
}

/// Copies an 8-bit register.
pub fn gen_set_reg8_r(ctx: &mut JitContext, dest: u32, src: u32)
    requires
        old(ctx)@.wf(),
        dest < 8,
        src < 8,
    ensures
        final(ctx)@ == (if src == dest {
            old(ctx)@
        } else {
            old(ctx)@.val(old(ctx)@.reg8(src as int)).set_reg8_unmasked(dest as int)
        }),
{
    if src != dest {
        gen_get_reg8(ctx, src);
        gen_set_reg8_unmasked(ctx, dest);
    }
}

/// Copies a 16-bit register.
pub fn gen_set_reg16_r(ctx: &mut JitContext, dest: u32, src: u32)
    requires
        old(ctx)@.wf(),
        dest < 8,
        src < 8,
    ensures
        final(ctx)@ == (if src == dest {
            old(ctx)@
        } else {
            old(ctx)@.val(old(ctx)@.reg16(src as int)).set_reg16_unmasked(dest as int)
        }),
{
    if src != dest {
        gen_get_reg16(ctx, src);
        gen_set_reg16_unmasked(ctx, dest);
    }
}

/// Copies a 32-bit register.
pub fn gen_set_reg32_r(ctx: &mut JitContext, dest: u32, src: u32)
    requires
        old(ctx)@.wf(),
        dest < 8,
        src < 8,
    ensures
        final(ctx)@ == (if src == dest {
            old(ctx)@
        } else {
            old(ctx)@.set_reg32(dest as int, old(ctx)@.reg32(src as int))
        }),
{
    if src != dest {
        gen_get_reg32(ctx, src);
        gen_set_reg32(ctx, dest);
    }
}

/// Counts an event of the profiler, where it counts.
pub fn gen_profiler_stat_increment(builder: &mut WasmBuilder, stat: Stat)
    ensures
        final(builder)@ == old(builder)@.profile(stat),
{
    reveal(Emit::profile);
    if builder.opt.profiler {
        let address: u32 = stat.counter_address(builder.opt.stat_base);
        builder.increment_fixed_i64(address);
    }
}

/// Counts an event of the dispatcher, where it counts.
pub fn gen_dispatch_stat_increment(builder: &mut WasmBuilder, stat: Stat)
    ensures
        final(builder)@ == old(builder)@.dispatch_event(stat),
{
    reveal(Emit::dispatch_event);
    if builder.opt.dispatch_stats {
        let address: u32 = stat.counter_address(builder.opt.stat_base);
        builder.increment_fixed_i64(address);
    }
}

/// Tells the profiler where compiled code is left.
pub fn gen_debug_track_jit_exit(builder: &mut WasmBuilder, address: u32)
    ensures
        final(builder)@ == old(builder)@.track_exit(address),
{
    reveal(Emit::track_exit);
    if builder.opt.profiler {
        gen_fn1_const(builder, "track_jit_exit", address);
    }
}

} // verus!
