//! Code for stack instructions, jumps relative to the code segment, faults, and the words of
//! the lazy flag state.
use vstd::prelude::*;
use crate::codegen_mem::{
    gen_push32_coalesced_write, gen_safe_read16, gen_safe_read32, gen_safe_write16,
    gen_safe_write32, BitSize, GenSafeWriteValue,
};
use crate::codegen_reg::{
    gen_debug_track_jit_exit, gen_get_eip, gen_get_flags, gen_get_reg16, gen_get_reg32,
    gen_get_sreg, gen_get_ss_offset, gen_set_reg16, gen_set_reg32,
};
use crate::cpu_state;
use crate::cpu_state::{
    offset_in_page, AT_CREG, AT_INSTRUCTION_POINTER, AT_REG32, AT_SEG_OFFSET, BP, CR0_EM, CR0_TS,
    CS, EBP, ESP, OPSIZE_16, OPSIZE_32, OPSIZE_8, PAGE_MASK, SP, SS,
};
use crate::jit_context::{Ctx, JitContext};
use crate::opstats::gen_opstat_unguarded_register;
use crate::wasm::{
    flag_slot_address, Bin, Emit, FlagSlot, Op, Sig, WasmBuilder, WasmLocal, Width, E,
};

verus! {

broadcast use crate::wasm::group_code;

impl E {
    /// The stack offset on the wasm stack as a linear address.
    #[verifier::opaque]
    pub open spec fn stack_address(flat: bool) -> E {
        if flat {
            E::Top
        } else {
            E::Top.bin(
                Bin::Add,
                E::fixed(Width::A32, cpu_state::seg_offset_address(SS as int) as u32),
            )
        }
    }

    /// The stack offset on the wasm stack, cut to the width of the stack.
    #[verifier::opaque]
    pub open spec fn stack_offset(wide: bool) -> E {
        if wide {
            E::Top
        } else {
            E::Top.and(0xffff)
        }
    }

    /// General register `r`, in the width of the stack.
    #[verifier::opaque]
    pub open spec fn stack_reg(l: WasmLocal, wide: bool) -> E {
        if wide {
            E::L(l.0)
        } else {
            E::L(l.0).and(0xffff)
        }
    }
}

impl Ctx {
    /// The stack pointer, in the width of the stack.
    pub open spec fn stack_pointer(self) -> E {
        E::stack_reg(self.st.regs@[ESP as int], self.st.cpu.ssize_32)
    }

    /// The stack pointer takes a value, in the width of the stack.
    #[verifier::opaque]
    pub open spec fn set_stack_pointer(self, value: E) -> Ctx {
        if self.st.cpu.ssize_32 {
            self.set_reg32(ESP as int, value)
        } else {
            self.set_reg16(SP as int, value)
        }
    }

    /// The value at the stack offset on the wasm stack is pushed, through a new local for its
    /// address.
    #[verifier::opaque]
    pub open spec fn read_stack(self, bits: BitSize) -> Ctx {
        let a = self.e.next_i32();
        let c = self.on(
            self.e.set_new(E::stack_address(self.st.cpu.flat_segmentation)),
        ).safe_read(bits, a, 0);
        c.on(c.e.give_i32(a))
    }

    /// Pops a value off a 16-bit stack.
    pub open spec fn pop_ss16(self, bits: BitSize) -> Ctx {
        let c = self.val(self.reg16(SP as int)).read_stack(bits);
        c.set_reg16(SP as int, c.reg16(SP as int).binc(Bin::Add, bits.size() as i32))
    }

    /// Pops a value off a 32-bit stack.
    pub open spec fn pop_ss32(self, bits: BitSize) -> Ctx {
        let c = if self.st.cpu.flat_segmentation && bits is DWORD {
            self.safe_read(bits, self.st.regs@[ESP as int].0, 0)
        } else {
            self.val(self.reg32(ESP as int)).read_stack(bits)
        };
        c.set_reg32(ESP as int, c.reg32(ESP as int).binc(Bin::Add, bits.size() as i32))
    }

    pub open spec fn pop(self, bits: BitSize) -> Ctx {
        if self.st.cpu.ssize_32 {
            self.pop_ss32(bits)
        } else {
            self.pop_ss16(bits)
        }
    }

    /// The value goes to the stack offset on the wasm stack, through a new local for its
    /// address.
    #[verifier::opaque]
    pub open spec fn write_stack(self, bits: BitSize, value: WasmLocal) -> Ctx {
        let cut = self.e.val(E::stack_offset(self.st.cpu.ssize_32));
        let a = cut.next_i32();
        let c = self.on(cut.set_new(E::stack_address(self.st.cpu.flat_segmentation))).safe_write(
            bits,
            a,
            GenSafeWriteValue::I32(value),
        );
        c.on(c.e.give_i32(a))
    }

    /// The value goes to the address in `n`, which is the new stack pointer; 32-bit pushes may
    /// go through the push cache.
    pub open spec fn write_flat_stack(
        self,
        bits: BitSize,
        n: usize,
        value: WasmLocal,
        cached: bool,
    ) -> Ctx {
        if cached && self.st.env.push_run_coalescing {
            self.push_write(n, value.0)
        } else {
            self.safe_write(bits, n, GenSafeWriteValue::I32(value))
        }
    }

    /// The new stack pointer, on the wasm stack, is kept in `n`; the value goes there, and the
    /// new stack pointer is on the wasm stack again.
    #[verifier::opaque]
    pub open spec fn write_pushed(
        self,
        bits: BitSize,
        n: usize,
        value: WasmLocal,
        cached: bool,
    ) -> Ctx {
        if self.st.cpu.ssize_32 && self.st.cpu.flat_segmentation {
            self.val(E::Top.tee(n)).write_flat_stack(bits, n, value, cached)
        } else {
            self.val(E::Top.tee(n)).write_stack(bits, value).val(E::L(n))
        }
    }

    /// The stack pointer goes down by `step` and the value goes there.
    pub open spec fn push(self, bits: BitSize, step: i32, value: WasmLocal, cached: bool) -> Ctx {
        let n = self.e.next_i32();
        let c = self.on(self.e.take_i32()).val(
            self.stack_pointer().binc(Bin::Sub, step),
        ).write_pushed(bits, n, value, cached).set_stack_pointer(E::Top);
        c.on(c.e.give_i32(n))
    }

    /// Where x87 and SSE instructions trap, the helper is called and the unit is left.
    pub open spec fn trap_test(self, helper: &'static str) -> Ctx {
        self.on(
            self.e.if_void(E::fixed(Width::W8, AT_CREG).and(CR0_EM | CR0_TS)).track_exit(
                self.st.start_of_current_instruction,
            ).val(self.here().call(helper, Sig::Fn1)).br(self.st.exit_with_fault_label).end(),
        )
    }

    /// The frame pointer, in the width of the stack.
    pub open spec fn frame_pointer(self) -> E {
        E::stack_reg(self.st.regs@[EBP as int], self.st.cpu.ssize_32)
    }

    /// The frame pointer takes the value at the stack offset on the wasm stack.
    #[verifier::opaque]
    pub open spec fn pop_frame(self, os32: bool) -> Ctx {
        if os32 {
            self.read_stack(BitSize::DWORD).set_reg32(EBP as int, E::Top)
        } else {
            self.read_stack(BitSize::WORD).set_reg16(BP as int, E::Top)
        }
    }

    /// The frame is left: the frame pointer is popped and the stack pointer follows it.
    pub open spec fn leave(self, os32: bool) -> Ctx {
        let old = self.e.next_i32();
        let c = self.on(self.e.take_i32()).val(self.frame_pointer().tee(old)).pop_frame(
            os32,
        ).val(
            E::L(old).binc(
                Bin::Add,
                if os32 {
                    4
                } else {
                    2
                },
            ),
        ).set_stack_pointer(E::Top);
        c.on(c.e.give_i32(old))
    }
}

/// Jumps `rel16` bytes ahead within the 64 KiB of the code segment.
pub fn gen_jmp_rel16(builder: &mut WasmBuilder, rel16: u16)
    ensures
        ({
            let e = old(builder)@;
            let cs = e.next_i32();
            final(builder)@ == e.set_new(
                E::fixed(Width::A32, cpu_state::seg_offset_address(CS as int) as u32),
            ).set_eip(
                E::eip().bin(Bin::Sub, E::L(cs)).binc(Bin::Add, rel16 as i32).and(0xffff).bin(
                    Bin::Add,
                    E::L(cs),
                ),
            ).give_i32(cs)
        }),
{
    builder.load_fixed(Width::A32, AT_SEG_OFFSET + 4 * CS);
    let local: WasmLocal = builder.set_new_local();
    builder.const_i32(AT_INSTRUCTION_POINTER as i32);
    gen_get_eip(builder);
    builder.get_local(local);
    builder.bin(Bin::Sub);
    builder.binc(Bin::Add, rel16 as i32);
    builder.binc(Bin::And, 0xffff);
    builder.get_local(local);
    builder.bin(Bin::Add);
    builder.store(Width::A32, 0);
    builder.free_local(local);
}

/// Makes the stack offset on the wasm stack a linear address.
fn gen_stack_address(ctx: &mut JitContext)
    ensures
        final(ctx)@ == old(ctx)@.val(E::stack_address(old(ctx)@.st.cpu.flat_segmentation)),
{
    reveal(E::stack_address);
    if !ctx.st.cpu.flat_segmentation {
        gen_get_ss_offset(ctx);
        ctx.builder.bin(Bin::Add);
    }
}

/// Replaces the stack offset on the wasm stack by the value there.
fn gen_read_stack(ctx: &mut JitContext, wide: bool)
    requires
        old(ctx)@.wf(),
    ensures
        final(ctx)@ == old(ctx)@.read_stack(
            if wide {
                BitSize::DWORD
            } else {
                BitSize::WORD
            },
        ),
        final(ctx)@.wf(),
{
    reveal(Ctx::read_stack);
    gen_stack_address(ctx);
    let a: WasmLocal = ctx.builder.set_new_local();
    gen_read(ctx, wide, a);
    ctx.builder.free_local(a);
}

fn gen_read(ctx: &mut JitContext, wide: bool, a: WasmLocal)
    requires
        old(ctx)@.wf(),
    ensures
        final(ctx)@ == old(ctx)@.safe_read(
            if wide {
                BitSize::DWORD
            } else {
                BitSize::WORD
            },
            a.0,
            0,
        ),
        final(ctx)@.wf(),
{
    if wide {
        gen_safe_read32(ctx, &a);
    } else {
        gen_safe_read16(ctx, &a);
    }
}

/// Pops 16 bits off a 16-bit stack.
pub fn gen_pop16_ss16(ctx: &mut JitContext)
    requires
        old(ctx)@.wf(),
    ensures
        final(ctx)@ == old(ctx)@.pop_ss16(BitSize::WORD),
        final(ctx)@.wf(),
{
    gen_get_reg16(ctx, SP);
    gen_read_stack(ctx, false);
    gen_get_reg16(ctx, SP);
    ctx.builder.binc(Bin::Add, 2);
    gen_set_reg16(ctx, SP);
}

/// Pops 16 bits off a 32-bit stack.
pub fn gen_pop16_ss32(ctx: &mut JitContext)
    requires
        old(ctx)@.wf(),
    ensures
        final(ctx)@ == old(ctx)@.pop_ss32(BitSize::WORD),
        final(ctx)@.wf(),
{
    gen_get_reg32(ctx, ESP);
    gen_read_stack(ctx, false);
    gen_get_reg32(ctx, ESP);
    ctx.builder.binc(Bin::Add, 2);
    gen_set_reg32(ctx, ESP);
}

/// Pops 16 bits.
pub fn gen_pop16(ctx: &mut JitContext)
    requires
        old(ctx)@.wf(),
    ensures
        final(ctx)@ == old(ctx)@.pop(BitSize::WORD),
        final(ctx)@.wf(),
{
    if ctx.st.cpu.ssize_32 {
        gen_pop16_ss32(ctx);
    } else {
        gen_pop16_ss16(ctx);
    }
}

/// Pops 32 bits off a 16-bit stack.
pub fn gen_pop32s_ss16(ctx: &mut JitContext)
    requires
        old(ctx)@.wf(),
    ensures
        final(ctx)@ == old(ctx)@.pop_ss16(BitSize::DWORD),
        final(ctx)@.wf(),
{
    gen_get_reg16(ctx, SP);
    gen_read_stack(ctx, true);
    gen_get_reg16(ctx, SP);
    ctx.builder.binc(Bin::Add, 4);
    gen_set_reg16(ctx, SP);
}

/// Pops 32 bits off a 32-bit stack.
pub fn gen_pop32s_ss32(ctx: &mut JitContext)
    requires
        old(ctx)@.wf(),
    ensures
        final(ctx)@ == old(ctx)@.pop_ss32(BitSize::DWORD),
        final(ctx)@.wf(),
{
    if ctx.st.cpu.flat_segmentation {
        let esp: WasmLocal = ctx.reg(ESP);
        gen_safe_read32(ctx, &esp);
    } else {
        gen_get_reg32(ctx, ESP);
        gen_read_stack(ctx, true);
    }
    gen_get_reg32(ctx, ESP);
    ctx.builder.binc(Bin::Add, 4);
    gen_set_reg32(ctx, ESP);
}

/// Pops 32 bits.
pub fn gen_pop32s(ctx: &mut JitContext)
    requires
        old(ctx)@.wf(),
    ensures
        final(ctx)@ == old(ctx)@.pop(BitSize::DWORD),
        final(ctx)@.wf(),
{
    if ctx.st.cpu.ssize_32 {
        gen_pop32s_ss32(ctx);
    } else {
        gen_pop32s_ss16(ctx);
    }
}

/// Moves the stack pointer up by `offset`.
pub fn gen_adjust_stack_reg(ctx: &mut JitContext, offset: u32)
    requires
        old(ctx)@.wf(),
    ensures
        final(ctx)@ == old(ctx)@.val(
            old(ctx)@.stack_pointer().binc(Bin::Add, offset as i32),
        ).set_stack_pointer(E::Top),
{
    gen_get_stack_pointer(ctx);
    ctx.builder.binc(Bin::Add, offset as i32);
    gen_set_stack_pointer(ctx);
}

/// Pushes the stack pointer, in the width of the stack.
fn gen_get_stack_pointer(ctx: &mut JitContext)
    requires
        old(ctx)@.wf(),
    ensures
        final(ctx)@ == old(ctx)@.val(old(ctx)@.stack_pointer()),
{
    reveal(E::stack_reg);
    if ctx.st.cpu.ssize_32 {
        gen_get_reg32(ctx, ESP);
    } else {
        gen_get_reg16(ctx, SP);
    }
}

/// Pushes the frame pointer, in the width of the stack.
fn gen_get_frame_pointer(ctx: &mut JitContext)
    requires
        old(ctx)@.wf(),
    ensures
        final(ctx)@ == old(ctx)@.val(old(ctx)@.frame_pointer()),
{
    reveal(E::stack_reg);
    if ctx.st.cpu.ssize_32 {
        gen_get_reg32(ctx, EBP);
    } else {
        gen_get_reg16(ctx, BP);
    }
}

fn gen_set_stack_pointer(ctx: &mut JitContext)
    requires
        old(ctx)@.wf(),
    ensures
        final(ctx)@ == old(ctx)@.set_stack_pointer(E::Top),
        final(ctx)@.wf(),
{
    reveal(Ctx::set_stack_pointer);
    if ctx.st.cpu.ssize_32 {
        gen_set_reg32(ctx, ESP);
    } else {
        gen_set_reg16(ctx, SP);
    }
}

fn gen_pop_frame(ctx: &mut JitContext, os32: bool)
    requires
        old(ctx)@.wf(),
    ensures
        final(ctx)@ == old(ctx)@.pop_frame(os32),
        final(ctx)@.wf(),
{
    reveal(Ctx::pop_frame);
    gen_read_stack(ctx, os32);
    if os32 {
        gen_set_reg32(ctx, EBP);
    } else {
        gen_set_reg16(ctx, BP);
    }
}

/// Leaves a stack frame.
pub fn gen_leave(ctx: &mut JitContext, os32: bool)
    requires
        old(ctx)@.wf(),
    ensures
        final(ctx)@ == old(ctx)@.leave(os32),
        final(ctx)@.wf(),
{
    gen_get_frame_pointer(ctx);
    let old_vbp: WasmLocal = ctx.builder.tee_new_local();
    gen_pop_frame(ctx, os32);
    ctx.builder.get_local(old_vbp);
    ctx.builder.binc(
        Bin::Add,
        if os32 {
            4
        } else {
            2
        },
    );
    gen_set_stack_pointer(ctx);
    ctx.builder.free_local(old_vbp);
}

fn gen_trap_test(ctx: &mut JitContext, helper: &'static str)
    ensures
        final(ctx)@ == old(ctx)@.trap_test(helper),
{
    ctx.builder.load_fixed(Width::W8, AT_CREG);
    ctx.builder.binc(Bin::And, CR0_EM | CR0_TS);
    ctx.builder.if_void();
    gen_debug_track_jit_exit(&mut ctx.builder, ctx.st.start_of_current_instruction);
    let here: i32 = offset_in_page(ctx.st.start_of_current_instruction);
    ctx.builder.const_i32(here);
    ctx.builder.call(helper, Sig::Fn1);
    ctx.builder.br(ctx.st.exit_with_fault_label);
    ctx.builder.block_end();
}

/// Leaves the unit where x87 instructions trap.
pub fn gen_task_switch_test(ctx: &mut JitContext)
    ensures
        final(ctx)@ == old(ctx)@.trap_test("task_switch_test_jit"),
{
    gen_trap_test(ctx, "task_switch_test_jit");
}

/// Leaves the unit where MMX instructions trap.
pub fn gen_task_switch_test_mmx(ctx: &mut JitContext)
    ensures
        final(ctx)@ == old(ctx)@.trap_test("task_switch_test_mmx_jit"),
{
    gen_trap_test(ctx, "task_switch_test_mmx_jit");
}

/// Cuts the stack offset on the wasm stack to the width of the stack.
fn gen_cut_stack_offset(ctx: &mut JitContext)
    ensures
        final(ctx)@ == old(ctx)@.val(E::stack_offset(old(ctx)@.st.cpu.ssize_32)),
{
    reveal(E::stack_offset);
    if !ctx.st.cpu.ssize_32 {
        ctx.builder.binc(Bin::And, 0xffff);
    }
}

/// Writes the value to the stack offset on the wasm stack.
fn gen_write_stack(ctx: &mut JitContext, wide: bool, value: WasmLocal)
    requires
        old(ctx)@.wf(),
    ensures
        final(ctx)@ == old(ctx)@.write_stack(
            if wide {
                BitSize::DWORD
            } else {
                BitSize::WORD
            },
            value,
        ),
        final(ctx)@.wf(),
{
    reveal(Ctx::write_stack);
    gen_cut_stack_offset(ctx);
    gen_stack_address(ctx);
    let a: WasmLocal = ctx.builder.set_new_local();
    gen_write(ctx, wide, a, value);
    ctx.builder.free_local(a);
}

fn gen_write_flat_stack(
    ctx: &mut JitContext,
    wide: bool,
    n: WasmLocal,
    value: WasmLocal,
    cached: bool,
)
    requires
        old(ctx)@.wf(),
    ensures
        final(ctx)@ == old(ctx)@.write_flat_stack(
            if wide {
                BitSize::DWORD
            } else {
                BitSize::WORD
            },
            n.0,
            value,
            cached,
        ),
        final(ctx)@.wf(),
{
    if !(cached && gen_push32_coalesced_write(ctx, &n, &value)) {
        gen_write(ctx, wide, n, value);
    }
}

/// Keeps the new stack pointer on the wasm stack and writes the value there.
fn gen_write_pushed(
    ctx: &mut JitContext,
    wide: bool,
    n: WasmLocal,
    value: WasmLocal,
    cached: bool,
)
    requires
        old(ctx)@.wf(),
    ensures
        final(ctx)@ == old(ctx)@.write_pushed(
            if wide {
                BitSize::DWORD
            } else {
                BitSize::WORD
            },
            n.0,
            value,
            cached,
        ),
        final(ctx)@.wf(),
{
    reveal(Ctx::write_pushed);
    let flat: bool = ctx.st.cpu.ssize_32 && ctx.st.cpu.flat_segmentation;
    ctx.builder.tee_local(n);
    if flat {
        gen_write_flat_stack(ctx, wide, n, value, cached);
    } else {
        gen_write_stack(ctx, wide, value);
        ctx.builder.get_local(n);
    }
}

/// Moves the stack pointer down and writes the value there.
fn gen_push(ctx: &mut JitContext, wide: bool, step: i32, value: WasmLocal, cached: bool)
    requires
        old(ctx)@.wf(),
    ensures
        final(ctx)@ == old(ctx)@.push(
            if wide {
                BitSize::DWORD
            } else {
                BitSize::WORD
            },
            step,
            value,
            cached,
        ),
        final(ctx)@.wf(),
{
    let n: WasmLocal = ctx.builder.new_local();
    gen_get_stack_pointer(ctx);
    ctx.builder.binc(Bin::Sub, step);
    gen_write_pushed(ctx, wide, n, value, cached);
    gen_set_stack_pointer(ctx);
    ctx.builder.free_local(n);
}

fn gen_write(ctx: &mut JitContext, wide: bool, a: WasmLocal, value: WasmLocal)
    requires
        old(ctx)@.wf(),
    ensures
        final(ctx)@ == old(ctx)@.safe_write(
            if wide {
                BitSize::DWORD
            } else {
                BitSize::WORD
            },
            a.0,
            GenSafeWriteValue::I32(value),
        ),
        final(ctx)@.wf(),
{
    if wide {
        gen_safe_write32(ctx, &a, &value);
    } else {
        gen_safe_write16(ctx, &a, &value);
    }
}

/// Pushes 16 bits.
pub fn gen_push16(ctx: &mut JitContext, value_local: &WasmLocal)
    requires
        old(ctx)@.wf(),
    ensures
        final(ctx)@ == old(ctx)@.push(BitSize::WORD, 2, *value_local, false),
        final(ctx)@.wf(),
{
    gen_push(ctx, false, 2, *value_local, false);
}

/// Pushes 32 bits.
pub fn gen_push32(ctx: &mut JitContext, value_local: &WasmLocal)
    requires
        old(ctx)@.wf(),
    ensures
        final(ctx)@ == old(ctx)@.push(BitSize::DWORD, 4, *value_local, true),
        final(ctx)@.wf(),
{
    gen_push(ctx, true, 4, *value_local, true);
}

/// Pushes a segment selector: moves the stack pointer by four bytes and writes two.
pub fn gen_push32_sreg(ctx: &mut JitContext, reg: u32)
    requires
        old(ctx)@.wf(),
        reg < 8,
    ensures
        ({
            let v = old(ctx)@.e.next_i32();
            let c = old(ctx)@.on(
                old(ctx)@.e.set_new(
                    E::fixed(Width::A16, cpu_state::sreg_address(reg as int) as u32),
                ),
            ).push(BitSize::WORD, 4, WasmLocal(v), false);
            final(ctx)@ == c.on(c.e.give_i32(v))
        }),
        final(ctx)@.wf(),
{
    gen_get_sreg(ctx, reg);
    let value: WasmLocal = ctx.builder.set_new_local();
    gen_push(ctx, false, 4, value, false);
    ctx.builder.free_local(value);
}

/// Pushes the instruction pointer relative to the code segment.
pub fn gen_get_real_eip(ctx: &mut JitContext)
    ensures
        ({
            let eip = E::eip_at(cpu_state::page_offset(old(ctx)@.st.cpu.eip));
            final(ctx)@ == old(ctx)@.val(
                if old(ctx)@.st.cpu.flat_segmentation {
                    eip
                } else {
                    eip.bin(
                        Bin::Sub,
                        E::fixed(Width::A32, cpu_state::seg_offset_address(CS as int) as u32),
                    )
                },
            )
        }),
{
    let low: i32 = offset_in_page(ctx.st.cpu.eip);
    gen_get_eip(&mut ctx.builder);
    ctx.builder.binc(Bin::And, PAGE_MASK);
    ctx.builder.binc(Bin::Or, low);
    if !ctx.st.cpu.flat_segmentation {
        ctx.builder.load_fixed(Width::A32, AT_SEG_OFFSET + 4 * CS);
        ctx.builder.bin(Bin::Sub);
    }
}

/// Prepares to set a word of the lazy flag state: its address goes first unless it is a local.
fn gen_begin_flag_word(builder: &mut WasmBuilder, slot: FlagSlot)
    ensures
        final(builder)@ == (if old(builder)@.flag_locals is Some {
            old(builder)@
        } else {
            old(builder)@.op(Op::ConstI32(crate::wasm::flag_address(slot) as i32))
        }),
{
    if builder.flag_locals.is_none() {
        builder.const_i32(flag_slot_address(slot) as i32);
    }
}

/// Sets a word of the lazy flag state to the value on the stack.
fn gen_end_flag_word(builder: &mut WasmBuilder, slot: FlagSlot)
    ensures
        final(builder)@ == (match old(builder)@.flag_locals {
            Some(f) => old(builder)@.op(Op::LocalSet(f.at(slot))),
            None => old(builder)@.op(Op::Store(Width::A32, 0)),
        }),
{
    match builder.flag_locals {
        Some(f) => {
            builder.set_local(f.get(slot));
        },
        None => {
            builder.store(Width::A32, 0);
        },
    }
}

/// Records the first operand of the last arithmetic instruction.
pub fn gen_set_last_op1(builder: &mut WasmBuilder, source: &WasmLocal)
    ensures
        final(builder)@ == old(builder)@.set_flag_word(FlagSlot::LastOp1, E::L(source.0)),
{
    gen_begin_flag_word(builder, FlagSlot::LastOp1);
    builder.get_local(*source);
    gen_end_flag_word(builder, FlagSlot::LastOp1);
}

/// Records the result of the last arithmetic instruction.
pub fn gen_set_last_result(builder: &mut WasmBuilder, source: &WasmLocal)
    ensures
        final(builder)@ == old(builder)@.set_flag_word(FlagSlot::LastResult, E::L(source.0)),
{
    gen_begin_flag_word(builder, FlagSlot::LastResult);
    builder.get_local(*source);
    gen_end_flag_word(builder, FlagSlot::LastResult);
}

/// Takes some flags out of those that are computed lazily.
pub fn gen_clear_flags_changed_bits(builder: &mut WasmBuilder, bits_to_clear: i32)
    ensures
        final(builder)@ == old(builder)@.set_flag_word(
            FlagSlot::FlagsChanged,
            old(builder)@.flag_word(FlagSlot::FlagsChanged).and(cpu_state::flipped(bits_to_clear)),
        ),
{
    gen_begin_flag_word(builder, FlagSlot::FlagsChanged);
    builder.get_flag_word(FlagSlot::FlagsChanged);
    builder.binc(Bin::And, -1 - bits_to_clear);
    gen_end_flag_word(builder, FlagSlot::FlagsChanged);
}

/// Two 32-bit words as one 64-bit constant, the first in the low half.
pub open spec fn word_pair(low: i32, high: i32) -> i64 {
    (low as u32 as i64) | ((high as u32 as i64) << 32)
}

/// Records the operand size of the last arithmetic instruction and the flags that are
/// computed lazily from now on.
pub fn gen_set_last_op_size_and_flags_changed(
    builder: &mut WasmBuilder,
    last_op_size: i32,
    flags_changed: i32,
)
    requires
        last_op_size == OPSIZE_8 || last_op_size == OPSIZE_16 || last_op_size == OPSIZE_32,
    ensures
        final(builder)@ == (match old(builder)@.flag_locals {
            Some(f) => old(builder)@.set(f.last_op_size.0, E::C(last_op_size)).set(
                f.flags_changed.0,
                E::C(flags_changed),
            ),
            None => old(builder)@.store_fixed(
                Width::A64,
                crate::wasm::flag_address(FlagSlot::LastOpSize),
                E::C64(word_pair(last_op_size, flags_changed)),
            ),
        }),
{
    if let Some(f) = builder.flag_locals {
        builder.const_i32(last_op_size);
        builder.set_local(f.last_op_size);
        builder.const_i32(flags_changed);
        builder.set_local(f.flags_changed);
        return ;
    }
    builder.const_i32(flag_slot_address(FlagSlot::LastOpSize) as i32);
    builder.emit(
        Op::ConstI64((last_op_size as u32 as i64) | ((flags_changed as u32 as i64) << 32)),
    );
    builder.store(Width::A64, 0);
}

/// Sets some of the stored flags.
pub fn gen_set_flags_bits(builder: &mut WasmBuilder, bits_to_set: i32)
    ensures
        final(builder)@ == old(builder)@.set_flag_word(
            FlagSlot::Flags,
            old(builder)@.flag_word(FlagSlot::Flags).binc(Bin::Or, bits_to_set),
        ),
{
    gen_begin_flag_word(builder, FlagSlot::Flags);
    gen_get_flags(builder);
    builder.binc(Bin::Or, bits_to_set);
    gen_end_flag_word(builder, FlagSlot::Flags);
}

/// Clears some of the stored flags.
pub fn gen_clear_flags_bits(builder: &mut WasmBuilder, bits_to_clear: i32)
    ensures
        final(builder)@ == old(builder)@.set_flag_word(
            FlagSlot::Flags,
            old(builder)@.flag_word(FlagSlot::Flags).and(cpu_state::flipped(bits_to_clear)),
        ),
{
    gen_begin_flag_word(builder, FlagSlot::Flags);
    gen_get_flags(builder);
    builder.binc(Bin::And, -1 - bits_to_clear);
    gen_end_flag_word(builder, FlagSlot::Flags);
}

impl Ctx {
    /// A helper raises a fault and the unit is left.
    pub open spec fn fault(self, helper_call: E) -> Ctx {
        self.on(
            self.e.val(helper_call).track_exit(self.st.start_of_current_instruction).br(
                self.st.exit_with_fault_label,
            ),
        )
    }
}

/// Raises a divide error.
pub fn gen_trigger_de(ctx: &mut JitContext)
    ensures
        final(ctx)@ == old(ctx)@.fault(old(ctx)@.here().call("trigger_de_jit", Sig::Fn1)),
{
    let here: i32 = offset_in_page(ctx.st.start_of_current_instruction);
    ctx.builder.const_i32(here);
    ctx.builder.call("trigger_de_jit", Sig::Fn1);
    gen_debug_track_jit_exit(&mut ctx.builder, ctx.st.start_of_current_instruction);
    ctx.builder.br(ctx.st.exit_with_fault_label);
}

/// Raises an invalid-opcode fault.
pub fn gen_trigger_ud(ctx: &mut JitContext)
    ensures
        final(ctx)@ == old(ctx)@.fault(old(ctx)@.here().call("trigger_ud_jit", Sig::Fn1)),
{
    let here: i32 = offset_in_page(ctx.st.start_of_current_instruction);
    ctx.builder.const_i32(here);
    ctx.builder.call("trigger_ud_jit", Sig::Fn1);
    gen_debug_track_jit_exit(&mut ctx.builder, ctx.st.start_of_current_instruction);
    ctx.builder.br(ctx.st.exit_with_fault_label);
}

/// Raises a general-protection fault.
pub fn gen_trigger_gp(ctx: &mut JitContext, error_code: u32)
    ensures
        final(ctx)@ == old(ctx)@.fault(
            E::C(error_code as i32).both(old(ctx)@.here()).call("trigger_gp_jit", Sig::Fn2),
        ),
{
    let here: i32 = offset_in_page(ctx.st.start_of_current_instruction);
    ctx.builder.const_i32(error_code as i32);
    ctx.builder.const_i32(here);
    ctx.builder.call("trigger_gp_jit", Sig::Fn2);
    gen_debug_track_jit_exit(&mut ctx.builder, ctx.st.start_of_current_instruction);
    ctx.builder.br(ctx.st.exit_with_fault_label);
}

impl Ctx {
    /// The first `n` registers go to memory.
    pub open spec fn spilled_regs(self, n: int) -> Emit
        decreases n,
    {
        if n <= 0 {
            self.e.opstat_unguarded(self.st.env.opstats, self.st.current_bytes as u32)
        } else {
            self.spilled_regs(n - 1).store_fixed(
                Width::A32,
                cpu_state::reg32_address(n - 1) as u32,
                self.reg32(n - 1),
            )
        }
    }

    /// The first `n` registers are read back from memory.
    pub open spec fn reloaded_regs(self, n: int) -> Emit
        decreases n,
    {
        if n <= 0 {
            self.e.opstat_unguarded(self.st.env.opstats, self.st.current_bytes as u32)
        } else {
            self.reloaded_regs(n - 1).set(
                self.st.regs@[n - 1].0,
                E::fixed(Width::A32, cpu_state::reg32_address(n - 1) as u32),
            )
        }
    }
}

/// Writes all registers and the lazy flag state to memory.
pub fn gen_move_registers_from_locals_to_memory(ctx: &mut JitContext)
    requires
        old(ctx)@.wf(),
    ensures
        final(ctx)@ == old(ctx)@.on(old(ctx)@.spilled_regs(8).spill_flags()),
{
    gen_opstat_unguarded_register(
        &mut ctx.builder,
        &ctx.st.env.opstats,
        ctx.st.current_bytes as u32,
    );
    let mut i: usize = 0;
    while i < 8
        invariant
            i <= 8,
            old(ctx)@.wf(),
            ctx@ == old(ctx)@.on(old(ctx)@.spilled_regs(i as int)),
        decreases 8 - i,
    {
        ctx.builder.const_i32((AT_REG32 + 4 * i as u32) as i32);
        ctx.builder.get_local(ctx.st.regs[i]);
        ctx.builder.store(Width::A32, 0);
        i = i + 1;
    }
    ctx.builder.emit_flag_spill();
}

/// Reads all registers and the lazy flag state back from memory.
pub fn gen_move_registers_from_memory_to_locals(ctx: &mut JitContext)
    requires
        old(ctx)@.wf(),
    ensures
        final(ctx)@ == old(ctx)@.on(old(ctx)@.reloaded_regs(8).reload_flags()),
{
    gen_opstat_unguarded_register(
        &mut ctx.builder,
        &ctx.st.env.opstats,
        ctx.st.current_bytes as u32,
    );
    let mut i: usize = 0;
    while i < 8
        invariant
            i <= 8,
            old(ctx)@.wf(),
            ctx@ == old(ctx)@.on(old(ctx)@.reloaded_regs(i as int)),
        decreases 8 - i,
    {
        ctx.builder.load_fixed(Width::A32, AT_REG32 + 4 * i as u32);
        ctx.builder.set_local(ctx.st.regs[i]);
        i = i + 1;
    }
    ctx.builder.emit_flag_reload();
}

} // verus!
