//! x87 instructions that move registers or store to memory, inline on registers that hold
//! doubles, with a helper as the way out for every other value.
use vstd::prelude::*;
use crate::codegen_fpu::{
    gen_fpu_get_sti, FPU_RELAXED_TAG, NOT_FPU_C1,
};
use crate::codegen_mem::{
    gen_safe_write16, gen_safe_write32, gen_safe_write64, BitSize, GenSafeWriteValue,
};
use crate::codegen_reg::{
    gen_fn1_const, gen_mark_fpu_simd_dirty_once, gen_modrm_resolve,
};
use crate::codegen_x87::{
    gen_fpu_clamp_i32_to_i16,
    gen_fpu_copy_raw, gen_fpu_load_relaxed_st_f64, gen_fpu_relaxed_st_ok,
    gen_fpu_round_f64_bits_to_i32, gen_fpu_st_addr, gen_fpu_store_relaxed_f64_st, gen_st_bits,
    gen_x87_local_cache_invalidate_all_runtime,
};
use crate::codegen_x87_ops::{gen_otherwise, gen_unless};
use crate::cpu_state::{
    AT_FPU_ST, AT_FPU_STACK_EMPTY, AT_FPU_STACK_PTR, AT_FPU_STATUS_WORD,
};
use crate::jit_context::{Ctx, JitContext};
use crate::modrm::ModrmByte;
use crate::wasm::{
    Bin, BlockType, Emit, Op, Sig, Un, WasmBuilder, WasmLocal, WasmLocalI64, Width, E,
};

verus! {

broadcast use {crate::wasm::group_code, crate::codegen_reg::group_events};

impl Emit {
    /// The top register becomes empty and the stack shrinks by one.
    #[verifier::opaque]
    pub open spec fn popped(self) -> Emit {
        let ptr = self.next_i32();
        let empty = self.take_i32().next_i32();
        let new_ptr = self.take_i32().take_i32().next_i32();
        self.take_i32().take_i32().take_i32().set(ptr, E::fixed(Width::W8, AT_FPU_STACK_PTR)).set(
            empty,
            E::C(1).bin(Bin::Shl, E::L(ptr)).bin(
                Bin::Or,
                E::fixed(Width::W8, AT_FPU_STACK_EMPTY),
            ),
        ).store_fixed(Width::W8, AT_FPU_STACK_EMPTY, E::L(empty)).set(
            new_ptr,
            E::fixed(Width::W8, AT_FPU_STACK_PTR).binc(Bin::Add, 1).and(7),
        ).store_fixed(Width::W8, AT_FPU_STACK_PTR, E::L(new_ptr)).give_i32(ptr).give_i32(
            new_ptr,
        ).give_i32(empty)
    }

    /// A register takes the mantissa and the tag in two locals, on top of the stack. The helper
    /// does it where the register is not empty.
    #[verifier::opaque]
    pub open spec fn pushed(self, mantissa: usize, tag: usize) -> Emit {
        let ptr = self.next_i32();
        let empty = self.take_i32().next_i32();
        let st = self.take_i32().take_i32().next_i32();
        self.take_i32().take_i32().take_i32().set(
            ptr,
            E::fixed(Width::W8, AT_FPU_STACK_PTR).binc(Bin::Sub, 1).and(7),
        ).if_void(
            E::fixed(Width::W8, AT_FPU_STACK_EMPTY).bin(Bin::ShrU, E::L(ptr)).and(1).eqz(),
        ).val(E::L(mantissa).both(E::L(tag)).call("fpu_push", Sig::Fn2I64I32)).else_().store_fixed(
            Width::W8,
            AT_FPU_STACK_PTR,
            E::L(ptr),
        ).set(
            empty,
            E::C(1).bin(Bin::Shl, E::L(ptr)).binc(Bin::Xor, -1i32).bin(
                Bin::And,
                E::fixed(Width::W8, AT_FPU_STACK_EMPTY),
            ),
        ).store_fixed(Width::W8, AT_FPU_STACK_EMPTY, E::L(empty)).store_fixed(
            Width::A16,
            AT_FPU_STATUS_WORD,
            E::fixed(Width::A16, AT_FPU_STATUS_WORD).and(NOT_FPU_C1),
        ).set(st, E::L(ptr).st_slot()).store(Width::W64, 0, E::L(st), E::L(mantissa)).store(
            Width::W16,
            8,
            E::L(st),
            E::L(tag),
        ).give_i32(st).give_i32(empty).end().give_i32(ptr)
    }

    /// The two registers at the addresses in two locals change places.
    #[verifier::opaque]
    pub open spec fn exchanged(self, x: usize, y: usize) -> Emit {
        let x_lo = self.next_i64();
        let x_hi = self.take_i64().next_i64();
        let y_lo = self.take_i64().take_i64().next_i64();
        let y_hi = self.take_i64().take_i64().take_i64().next_i64();
        self.take_i64().take_i64().take_i64().take_i64().set(
            x_lo,
            E::L(x).load(Width::W64, 0),
        ).set(x_hi, E::L(x).load(Width::W64, 8)).set(y_lo, E::L(y).load(Width::W64, 0)).set(
            y_hi,
            E::L(y).load(Width::W64, 8),
        ).store(Width::W64, 0, E::L(x), E::L(y_lo)).store(
            Width::W64,
            8,
            E::L(x),
            E::L(y_hi),
        ).store(Width::W64, 0, E::L(y), E::L(x_lo)).store(
            Width::W64,
            8,
            E::L(y),
            E::L(x_hi),
        ).give_i64(y_hi).give_i64(y_lo).give_i64(x_hi).give_i64(x_lo)
    }

    /// `ST(i)` is no longer empty.
    #[verifier::opaque]
    pub open spec fn sti_filled(self, i: u32) -> Emit {
        self.store_fixed(
            Width::W8,
            AT_FPU_STACK_EMPTY,
            E::fixed(Width::W8, AT_FPU_STACK_EMPTY).bin(
                Bin::And,
                E::C(1).bin(Bin::Shl, E::st_index(i)).binc(Bin::Xor, -1i32),
            ),
        )
    }
}

impl Ctx {
    /// The top of the x87 stack is popped.
    #[verifier::opaque]
    pub open spec fn fpu_popped(self) -> Ctx {
        let c = self.mark_fpu_simd_dirty_once();
        if !self.st.env.fpu_relaxed {
            c.emit(Op::Call("fpu_pop", Sig::Fn0))
        } else {
            let d = c.x87_dropped();
            d.on(d.e.popped())
        }
    }

    pub open spec fn fpu_popped_n(self, n: nat) -> Ctx
        decreases n,
    {
        if n == 0 {
            self
        } else {
            self.fpu_popped_n((n - 1) as nat).fpu_popped()
        }
    }

    pub open spec fn fpu_popped_if(self, pop: bool) -> Ctx {
        if pop {
            self.fpu_popped()
        } else {
            self
        }
    }

    /// The mantissa and the tag on the stack become the top of the x87 stack.
    #[verifier::opaque]
    pub open spec fn fpu_pushed(self) -> Ctx {
        let c = self.mark_fpu_simd_dirty_once();
        if !self.st.env.fpu_relaxed {
            c.emit(Op::Call("fpu_push", Sig::Fn2I64I32))
        } else {
            let tag = c.e.next_i32();
            let c1 = c.to_new();
            let mantissa = c1.e.next_i64();
            let c2 = c1.to_new_i64().x87_dropped();
            c2.on(c2.e.pushed(mantissa, tag)).free(tag).free_i64(mantissa)
        }
    }

    /// `ST(0)` and `ST(i)` change places.
    #[verifier::opaque]
    pub open spec fn fxch(self, i: u32) -> Ctx {
        let c = self.mark_fpu_simd_dirty_once();
        if !self.st.env.fpu_relaxed {
            c.val(E::C(i as i32).call("fpu_fxch", Sig::Fn1))
        } else {
            let c1 = c.x87_dropped();
            let st0 = c1.e.next_i32();
            let c2 = c1.st_addr(0);
            let sti = c2.e.next_i32();
            let c3 = c2.st_addr(i);
            c3.on(c3.e.exchanged(st0, sti)).free(sti).free(st0)
        }
    }

    /// `ST(i)` takes the value of `ST(0)`.
    #[verifier::opaque]
    pub open spec fn fst(self, i: u32, pop: bool) -> Ctx {
        let helper = if pop {
            "fpu_fstp"
        } else {
            "fpu_fst"
        };
        let slow = E::C(i as i32).call(helper, Sig::Fn1);
        if !self.st.env.fpu_relaxed {
            self.val(slow)
        } else {
            let c = self.mark_fpu_simd_dirty_once().val(
                E::fixed(Width::W8, AT_FPU_STACK_EMPTY).bin(
                    Bin::ShrU,
                    E::fixed(Width::W8, AT_FPU_STACK_PTR),
                ).and(1),
            ).emit(Op::If(BlockType::Void, None)).val(slow).x87_dropped().emit(Op::Else);
            let st0 = c.e.next_i32();
            let c1 = c.st_addr(0);
            let sti = c1.e.next_i32();
            let c2 = c1.st_addr(i).copy_raw(st0, sti);
            c2.on(c2.e.sti_filled(i)).x87_dropped().fpu_popped_if(pop).free(sti).free(st0).emit(
                Op::End,
            )
        }
    }

    /// `ST(0)` changes its sign, or loses it.
    #[verifier::opaque]
    pub open spec fn fchs_or_fabs(self, r: u32) -> Ctx {
        let slow = E::C(r as i32).call("instr16_D9_4_reg", Sig::Fn1);
        if !self.st.env.fpu_relaxed {
            self.val(slow)
        } else {
            let st0 = self.e.next_i32();
            self.st_addr(0).st_ok(0, st0).unless().val(slow).otherwise().st_double(0, st0).emit(
                Op::Un(
                    if r == 0 {
                        Un::NegF64
                    } else {
                        Un::AbsF64
                    },
                ),
            ).st_store(0, st0).emit(Op::End).free(st0)
        }
    }

    /// A constant, given by the bits of a double, is pushed on the x87 stack.
    #[verifier::opaque]
    pub open spec fn push_constant(self, bits: u64, slow_r: u32) -> Ctx {
        if !self.st.env.fpu_relaxed {
            self.val(E::C(slow_r as i32).call("instr16_D9_5_reg", Sig::Fn1))
        } else {
            self.val(E::CF64(bits).tagged()).fpu_pushed()
        }
    }
}

fn gen_popped(builder: &mut WasmBuilder)
    ensures
        final(builder)@ == old(builder)@.popped(),
{
    reveal(Emit::popped);
    builder.load_fixed(Width::W8, AT_FPU_STACK_PTR);
    let ptr_local: WasmLocal = builder.set_new_local();
    builder.const_i32(1);
    builder.get_local(ptr_local);
    builder.bin(Bin::Shl);
    builder.load_fixed(Width::W8, AT_FPU_STACK_EMPTY);
    builder.bin(Bin::Or);
    let new_empty: WasmLocal = builder.set_new_local();
    builder.const_i32(AT_FPU_STACK_EMPTY as i32);
    builder.get_local(new_empty);
    builder.store(Width::W8, 0);
    builder.load_fixed(Width::W8, AT_FPU_STACK_PTR);
    builder.binc(Bin::Add, 1);
    builder.binc(Bin::And, 7);
    let new_ptr: WasmLocal = builder.set_new_local();
    builder.const_i32(AT_FPU_STACK_PTR as i32);
    builder.get_local(new_ptr);
    builder.store(Width::W8, 0);
    builder.free_local(ptr_local);
    builder.free_local(new_ptr);
    builder.free_local(new_empty);
}

/// Pops the x87 stack.
pub fn gen_fpu_relaxed_pop(ctx: &mut JitContext)
    ensures
        final(ctx)@ == old(ctx)@.fpu_popped(),
        old(ctx)@.wf() ==> final(ctx)@.wf(),
{
    reveal(Ctx::fpu_popped);
    gen_mark_fpu_simd_dirty_once(ctx);
    if !ctx.st.env.fpu_relaxed {
        ctx.builder.call("fpu_pop", Sig::Fn0);
        return ;
    }
    gen_x87_local_cache_invalidate_all_runtime(ctx);
    gen_popped(&mut ctx.builder);
}

pub(crate) fn gen_fpu_relaxed_pop_n(ctx: &mut JitContext, count: u32)
    requires
        old(ctx)@.wf(),
    ensures
        final(ctx)@ == old(ctx)@.fpu_popped_n(count as nat),
        final(ctx)@.wf(),
{
    let mut i: u32 = 0;
    while i < count
        invariant
            i <= count,
            ctx@ == old(ctx)@.fpu_popped_n(i as nat),
            ctx@.wf(),
        decreases count - i,
    {
        gen_fpu_relaxed_pop(ctx);
        i = i + 1;
    }
}

pub(crate) fn gen_pop_if(ctx: &mut JitContext, pop: bool)
    ensures
        final(ctx)@ == old(ctx)@.fpu_popped_if(pop),
        old(ctx)@.wf() ==> final(ctx)@.wf(),
{
    if pop {
        gen_fpu_relaxed_pop(ctx);
    }
}

fn gen_pushed(builder: &mut WasmBuilder, mantissa: WasmLocalI64, tag: WasmLocal)
    ensures
        final(builder)@ == old(builder)@.pushed(mantissa.0, tag.0),
{
    reveal(Emit::pushed);
    builder.load_fixed(Width::W8, AT_FPU_STACK_PTR);
    builder.binc(Bin::Sub, 1);
    builder.binc(Bin::And, 7);
    let new_ptr: WasmLocal = builder.set_new_local();
    builder.load_fixed(Width::W8, AT_FPU_STACK_EMPTY);
    builder.get_local(new_ptr);
    builder.bin(Bin::ShrU);
    builder.binc(Bin::And, 1);
    builder.un(Un::Eqz);
    builder.if_void();
    builder.get_local_i64(mantissa);
    builder.get_local(tag);
    builder.call("fpu_push", Sig::Fn2I64I32);
    builder.else_();
    builder.const_i32(AT_FPU_STACK_PTR as i32);
    builder.get_local(new_ptr);
    builder.store(Width::W8, 0);
    builder.const_i32(1);
    builder.get_local(new_ptr);
    builder.bin(Bin::Shl);
    builder.binc(Bin::Xor, -1);
    builder.load_fixed(Width::W8, AT_FPU_STACK_EMPTY);
    builder.bin(Bin::And);
    let new_empty: WasmLocal = builder.set_new_local();
    builder.const_i32(AT_FPU_STACK_EMPTY as i32);
    builder.get_local(new_empty);
    builder.store(Width::W8, 0);
    builder.const_i32(AT_FPU_STATUS_WORD as i32);
    builder.load_fixed(Width::A16, AT_FPU_STATUS_WORD);
    builder.binc(Bin::And, NOT_FPU_C1);
    builder.store(Width::A16, 0);
    builder.get_local(new_ptr);
    builder.binc(Bin::Mul, 16);
    builder.binc(Bin::Add, AT_FPU_ST as i32);
    let st_addr: WasmLocal = builder.set_new_local();
    builder.get_local(st_addr);
    builder.get_local_i64(mantissa);
    builder.store(Width::W64, 0);
    builder.get_local(st_addr);
    builder.get_local(tag);
    builder.store(Width::W16, 8);
    builder.free_local(st_addr);
    builder.free_local(new_empty);
    builder.block_end();
    builder.free_local(new_ptr);
}

/// Pushes the mantissa and the tag on the wasm stack on the x87 stack.
pub fn gen_fpu_relaxed_push_loaded(ctx: &mut JitContext)
    ensures
        final(ctx)@ == old(ctx)@.fpu_pushed(),
        old(ctx)@.wf() ==> final(ctx)@.wf(),
{
    reveal(Ctx::fpu_pushed);
    gen_mark_fpu_simd_dirty_once(ctx);
    if !ctx.st.env.fpu_relaxed {
        ctx.builder.call("fpu_push", Sig::Fn2I64I32);
        return ;
    }
    let tag: WasmLocal = ctx.builder.set_new_local();
    let mantissa: WasmLocalI64 = ctx.builder.set_new_local_i64();
    gen_x87_local_cache_invalidate_all_runtime(ctx);
    gen_pushed(&mut ctx.builder, mantissa, tag);
    ctx.builder.free_local(tag);
    ctx.builder.free_local_i64(mantissa);
}

fn gen_exchanged(builder: &mut WasmBuilder, x: WasmLocal, y: WasmLocal)
    ensures
        final(builder)@ == old(builder)@.exchanged(x.0, y.0),
{
    reveal(Emit::exchanged);
    builder.get_local(x);
    builder.load(Width::W64, 0);
    let st0_lo: WasmLocalI64 = builder.set_new_local_i64();
    builder.get_local(x);
    builder.load(Width::W64, 8);
    let st0_hi: WasmLocalI64 = builder.set_new_local_i64();
    builder.get_local(y);
    builder.load(Width::W64, 0);
    let sti_lo: WasmLocalI64 = builder.set_new_local_i64();
    builder.get_local(y);
    builder.load(Width::W64, 8);
    let sti_hi: WasmLocalI64 = builder.set_new_local_i64();
    builder.get_local(x);
    builder.get_local_i64(sti_lo);
    builder.store(Width::W64, 0);
    builder.get_local(x);
    builder.get_local_i64(sti_hi);
    builder.store(Width::W64, 8);
    builder.get_local(y);
    builder.get_local_i64(st0_lo);
    builder.store(Width::W64, 0);
    builder.get_local(y);
    builder.get_local_i64(st0_hi);
    builder.store(Width::W64, 8);
    builder.free_local_i64(sti_hi);
    builder.free_local_i64(sti_lo);
    builder.free_local_i64(st0_hi);
    builder.free_local_i64(st0_lo);
}

/// Exchanges `ST(0)` and `ST(i)`.
pub fn gen_fpu_relaxed_fxch(ctx: &mut JitContext, i: u32)
    ensures
        final(ctx)@ == old(ctx)@.fxch(i),
        old(ctx)@.wf() ==> final(ctx)@.wf(),
{
    reveal(Ctx::fxch);
    gen_mark_fpu_simd_dirty_once(ctx);
    if !ctx.st.env.fpu_relaxed {
        ctx.builder.const_i32(i as i32);
        ctx.builder.call("fpu_fxch", Sig::Fn1);
        return ;
    }
    gen_x87_local_cache_invalidate_all_runtime(ctx);
    let st0_addr: WasmLocal = gen_fpu_st_addr(ctx, 0);
    let sti_addr: WasmLocal = gen_fpu_st_addr(ctx, i);
    gen_exchanged(&mut ctx.builder, st0_addr, sti_addr);
    ctx.builder.free_local(sti_addr);
    ctx.builder.free_local(st0_addr);
}

fn gen_fpu_clear_stack_empty_sti(builder: &mut WasmBuilder, i: u32)
    ensures
        final(builder)@ == old(builder)@.sti_filled(i),
{
    reveal(Emit::sti_filled);
    builder.const_i32(AT_FPU_STACK_EMPTY as i32);
    builder.load_fixed(Width::W8, AT_FPU_STACK_EMPTY);
    builder.const_i32(1);
    builder.load_fixed(Width::W8, AT_FPU_STACK_PTR);
    builder.binc(Bin::Add, i as i32);
    builder.binc(Bin::And, 7);
    builder.bin(Bin::Shl);
    builder.binc(Bin::Xor, -1);
    builder.bin(Bin::And);
    builder.store(Width::W8, 0);
}

/// Stores `ST(0)` to `ST(i)`.
pub fn gen_fpu_relaxed_fst(ctx: &mut JitContext, i: u32, pop: bool)
    ensures
        final(ctx)@ == old(ctx)@.fst(i, pop),
        old(ctx)@.wf() ==> final(ctx)@.wf(),
{
    reveal(Ctx::fst);
    let helper: &'static str = if pop {
        "fpu_fstp"
    } else {
        "fpu_fst"
    };
    if !ctx.st.env.fpu_relaxed {
        gen_fn1_const(&mut ctx.builder, helper, i);
        return ;
    }
    gen_mark_fpu_simd_dirty_once(ctx);
    ctx.builder.load_fixed(Width::W8, AT_FPU_STACK_EMPTY);
    ctx.builder.load_fixed(Width::W8, AT_FPU_STACK_PTR);
    ctx.builder.bin(Bin::ShrU);
    ctx.builder.binc(Bin::And, 1);
    ctx.builder.if_void();
    gen_fn1_const(&mut ctx.builder, helper, i);
    gen_x87_local_cache_invalidate_all_runtime(ctx);
    ctx.builder.else_();
    let st0_addr: WasmLocal = gen_fpu_st_addr(ctx, 0);
    let sti_addr: WasmLocal = gen_fpu_st_addr(ctx, i);
    gen_fpu_copy_raw(ctx, st0_addr, sti_addr);
    gen_fpu_clear_stack_empty_sti(&mut ctx.builder, i);
    gen_x87_local_cache_invalidate_all_runtime(ctx);
    gen_pop_if(ctx, pop);
    ctx.builder.free_local(sti_addr);
    ctx.builder.free_local(st0_addr);
    ctx.builder.block_end();
}

/// Changes the sign of `ST(0)`, for 0, or removes it.
pub fn gen_fpu_relaxed_fchs_or_fabs(ctx: &mut JitContext, r: u32)
    requires
        old(ctx)@.wf(),
    ensures
        final(ctx)@ == old(ctx)@.fchs_or_fabs(r),
        final(ctx)@.wf(),
{
    reveal(Ctx::fchs_or_fabs);
    if !ctx.st.env.fpu_relaxed {
        gen_fn1_const(&mut ctx.builder, "instr16_D9_4_reg", r);
        return ;
    }
    let st0_addr: WasmLocal = gen_fpu_st_addr(ctx, 0);
    gen_fpu_relaxed_st_ok(ctx, 0, st0_addr);
    gen_unless(ctx);
    gen_fn1_const(&mut ctx.builder, "instr16_D9_4_reg", r);
    gen_otherwise(ctx);
    gen_fpu_load_relaxed_st_f64(ctx, 0, st0_addr);
    ctx.builder.un(
        if r == 0 {
            Un::NegF64
        } else {
            Un::AbsF64
        },
    );
    gen_fpu_store_relaxed_f64_st(ctx, 0, st0_addr);
    ctx.builder.block_end();
    ctx.builder.free_local(st0_addr);
}

/// Pushes a constant, given by the bits of a double, on the x87 stack.
pub fn gen_fpu_relaxed_push_const_f64(ctx: &mut JitContext, bits: u64, slow_r: u32)
    ensures
        final(ctx)@ == old(ctx)@.push_constant(bits, slow_r),
        old(ctx)@.wf() ==> final(ctx)@.wf(),
{
    reveal(Ctx::push_constant);
    if !ctx.st.env.fpu_relaxed {
        gen_fn1_const(&mut ctx.builder, "instr16_D9_5_reg", slow_r);
        return ;
    }
    ctx.builder.const_f64(bits);
    ctx.builder.un(Un::ReinterpretF64AsI64);
    ctx.builder.const_i32(FPU_RELAXED_TAG);
    gen_fpu_relaxed_push_loaded(ctx);
}

/// What a store instruction writes to memory. Integers are truncated, or rounded as rounding
/// control says.
#[derive(Clone, Copy, Debug, PartialEq, Eq, Structural)]
pub enum FpuMemDest {
    M32,
    M64,
    I32 { truncate: bool },
    I16 { truncate: bool },
}

impl FpuMemDest {
    pub open spec fn bits(self) -> BitSize {
        match self {
            FpuMemDest::M32 => BitSize::DWORD,
            FpuMemDest::M64 => BitSize::QWORD,
            FpuMemDest::I32 { .. } => BitSize::DWORD,
            FpuMemDest::I16 { .. } => BitSize::WORD,
        }
    }

    /// The helper that converts an 80-bit value.
    pub open spec fn helper(self) -> (&'static str, Sig) {
        match self {
            FpuMemDest::M32 => ("f80_to_f32", Sig::Fn2I64I32Ret),
            FpuMemDest::M64 => ("f80_to_f64", Sig::Fn2I64I32RetI64),
            FpuMemDest::I32 { truncate } => if truncate {
                ("fpu_truncate_to_i32", Sig::Fn2I64I32Ret)
            } else {
                ("fpu_convert_to_i32", Sig::Fn2I64I32Ret)
            },
            FpuMemDest::I16 { truncate } => if truncate {
                ("fpu_truncate_to_i16", Sig::Fn2I64I32Ret)
            } else {
                ("fpu_convert_to_i16", Sig::Fn2I64I32Ret)
            },
        }
    }

    fn helper_name(self) -> (r: (&'static str, Sig))
        ensures
            r == self.helper(),
    {
        match self {
            FpuMemDest::M32 => ("f80_to_f32", Sig::Fn2I64I32Ret),
            FpuMemDest::M64 => ("f80_to_f64", Sig::Fn2I64I32RetI64),
            FpuMemDest::I32 { truncate } => if truncate {
                ("fpu_truncate_to_i32", Sig::Fn2I64I32Ret)
            } else {
                ("fpu_convert_to_i32", Sig::Fn2I64I32Ret)
            },
            FpuMemDest::I16 { truncate } => if truncate {
                ("fpu_truncate_to_i16", Sig::Fn2I64I32Ret)
            } else {
                ("fpu_convert_to_i16", Sig::Fn2I64I32Ret)
            },
        }
    }
}

impl Ctx {
    /// The value on the stack is kept in a new local and written to the address in a local.
    #[verifier::opaque]
    pub open spec fn write_top(self, bits: BitSize, address: usize) -> Ctx {
        if bits is QWORD {
            let v = self.e.next_i64();
            self.to_new_i64().safe_write(bits, address, GenSafeWriteValue::I64(WasmLocalI64(v)))
        } else {
            let v = self.e.next_i32();
            self.to_new().safe_write(bits, address, GenSafeWriteValue::I32(WasmLocal(v)))
        }
    }

    /// The local that [`Ctx::write_top`] keeps the value in.
    pub open spec fn write_local(self, bits: BitSize) -> usize {
        if bits is QWORD {
            self.e.next_i64()
        } else {
            self.e.next_i32()
        }
    }

    pub open spec fn free_written(self, bits: BitSize, l: usize) -> Ctx {
        if bits is QWORD {
            self.free_i64(l)
        } else {
            self.free(l)
        }
    }

    /// The helper converts `ST(0)`, which is pushed.
    #[verifier::opaque]
    pub open spec fn converted(self, dest: FpuMemDest) -> Ctx {
        self.get_sti(0).emit(Op::Call(dest.helper().0, dest.helper().1))
    }

    /// The double in `ST(0)` is converted inline and written to the address in a local.
    #[verifier::opaque]
    pub open spec fn store_inline(self, dest: FpuMemDest, address: usize, st0: usize) -> Ctx {
        match dest {
            FpuMemDest::M32 => {
                let c = self.st_double(0, st0).val(
                    E::Top.un(Un::DemoteF64).un(Un::ReinterpretF32AsI32),
                );
                c.write_top(BitSize::DWORD, address).free(c.e.next_i32())
            },
            FpuMemDest::M64 => {
                let c = self.st_bits(0, st0);
                c.write_top(BitSize::QWORD, address).free_i64(c.e.next_i64())
            },
            FpuMemDest::I32 { truncate } => {
                let c = self.st_bits(0, st0);
                let bits = c.e.next_i64();
                let d = c.to_new_i64();
                let v = d.on(d.e.to_i32(bits, truncate));
                v.write_top(BitSize::DWORD, address).free(v.e.next_i32()).free_i64(bits)
            },
            FpuMemDest::I16 { truncate } => {
                let c = self.st_bits(0, st0);
                let bits = c.e.next_i64();
                let d = c.to_new_i64();
                let v = d.on(d.e.to_i32(bits, truncate));
                let rounded = v.e.next_i32();
                let w = v.to_new().val(E::clamped_i16(rounded));
                w.write_top(BitSize::WORD, address).free(w.e.next_i32()).free(rounded).free_i64(
                    bits,
                )
            },
        }
    }

    /// `ST(0)` is converted and written to the memory operand, and popped where `pop` holds.
    #[verifier::opaque]
    pub open spec fn fpu_store(self, m: ModrmByte, dest: FpuMemDest, pop: bool) -> Ctx {
        let bits = dest.bits();
        let address = self.e.next_i32();
        let c = self.on(self.e.set_new(self.address(m, 0)));
        if !self.st.env.fpu_relaxed {
            let v = c.converted(dest);
            let w = v.write_top(bits, address).free(address).free_written(
                bits,
                v.write_local(bits),
            );
            if pop {
                w.emit(Op::Call("fpu_pop", Sig::Fn0))
            } else {
                w
            }
        } else {
            let st0 = c.e.next_i32();
            let v = c.st_addr(0).st_ok(0, st0).unless().converted(dest);
            v.write_top(bits, address).free_written(
                bits,
                v.write_local(bits),
            ).otherwise().store_inline(dest, address, st0).emit(Op::End).fpu_popped_if(pop).free(
                st0,
            ).free(address)
        }
    }
}

/// Keeps the value on the stack in a new local and writes it.
fn gen_write_top32(ctx: &mut JitContext, address: WasmLocal) -> (l: WasmLocal)
    requires
        old(ctx)@.wf(),
    ensures
        final(ctx)@ == old(ctx)@.write_top(BitSize::DWORD, address.0),
        l.0 == old(ctx)@.e.next_i32(),
        final(ctx)@.wf(),
{
    reveal(Ctx::write_top);
    let value: WasmLocal = ctx.builder.set_new_local();
    gen_safe_write32(ctx, &address, &value);
    value
}

fn gen_write_top16(ctx: &mut JitContext, address: WasmLocal) -> (l: WasmLocal)
    requires
        old(ctx)@.wf(),
    ensures
        final(ctx)@ == old(ctx)@.write_top(BitSize::WORD, address.0),
        l.0 == old(ctx)@.e.next_i32(),
        final(ctx)@.wf(),
{
    reveal(Ctx::write_top);
    let value: WasmLocal = ctx.builder.set_new_local();
    gen_safe_write16(ctx, &address, &value);
    value
}

fn gen_write_top64(ctx: &mut JitContext, address: WasmLocal) -> (l: WasmLocalI64)
    requires
        old(ctx)@.wf(),
    ensures
        final(ctx)@ == old(ctx)@.write_top(BitSize::QWORD, address.0),
        l.0 == old(ctx)@.e.next_i64(),
        final(ctx)@.wf(),
{
    reveal(Ctx::write_top);
    let value: WasmLocalI64 = ctx.builder.set_new_local_i64();
    gen_safe_write64(ctx, &address, &value);
    value
}

/// Keeps the value on the stack in a new local, writes it, and gives both locals back: the one
/// of the address only where `both` holds.
fn gen_write_and_free(ctx: &mut JitContext, dest: FpuMemDest, address: WasmLocal, both: bool)
    requires
        old(ctx)@.wf(),
    ensures
        ({
            let bits = dest.bits();
            let w = old(ctx)@.write_top(bits, address.0);
            let f = if both {
                w.free(address.0)
            } else {
                w
            };
            final(ctx)@ == f.free_written(bits, old(ctx)@.write_local(bits))
        }),
        final(ctx)@.wf(),
{
    match dest {
        FpuMemDest::M64 => {
            let value: WasmLocalI64 = gen_write_top64(ctx, address);
            if both {
                ctx.builder.free_local(address);
            }
            ctx.builder.free_local_i64(value);
        },
        FpuMemDest::I16 { .. } => {
            let value: WasmLocal = gen_write_top16(ctx, address);
            if both {
                ctx.builder.free_local(address);
            }
            ctx.builder.free_local(value);
        },
        _ => {
            let value: WasmLocal = gen_write_top32(ctx, address);
            if both {
                ctx.builder.free_local(address);
            }
            ctx.builder.free_local(value);
        },
    }
}

fn gen_converted(ctx: &mut JitContext, dest: FpuMemDest)
    ensures
        final(ctx)@ == old(ctx)@.converted(dest),
        old(ctx)@.wf() ==> final(ctx)@.wf(),
{
    reveal(Ctx::converted);
    let (helper, sig): (&'static str, Sig) = dest.helper_name();
    gen_fpu_get_sti(ctx, 0);
    ctx.builder.call(helper, sig);
}

fn gen_store_inline(ctx: &mut JitContext, dest: FpuMemDest, address: WasmLocal, st0: WasmLocal)
    requires
        old(ctx)@.wf(),
    ensures
        final(ctx)@ == old(ctx)@.store_inline(dest, address.0, st0.0),
        final(ctx)@.wf(),
{
    reveal(Ctx::store_inline);
    match dest {
        FpuMemDest::M32 => {
            gen_fpu_load_relaxed_st_f64(ctx, 0, st0);
            ctx.builder.un(Un::DemoteF64);
            ctx.builder.un(Un::ReinterpretF32AsI32);
            let value: WasmLocal = gen_write_top32(ctx, address);
            ctx.builder.free_local(value);
        },
        FpuMemDest::M64 => {
            gen_st_bits(ctx, 0, st0);
            let value: WasmLocalI64 = gen_write_top64(ctx, address);
            ctx.builder.free_local_i64(value);
        },
        FpuMemDest::I32 { truncate } => {
            gen_st_bits(ctx, 0, st0);
            let bits: WasmLocalI64 = ctx.builder.set_new_local_i64();
            gen_fpu_round_f64_bits_to_i32(&mut ctx.builder, bits, truncate);
            let value: WasmLocal = gen_write_top32(ctx, address);
            ctx.builder.free_local(value);
            ctx.builder.free_local_i64(bits);
        },
        FpuMemDest::I16 { truncate } => {
            gen_st_bits(ctx, 0, st0);
            let bits: WasmLocalI64 = ctx.builder.set_new_local_i64();
            gen_fpu_round_f64_bits_to_i32(&mut ctx.builder, bits, truncate);
            let rounded: WasmLocal = ctx.builder.set_new_local();
            gen_fpu_clamp_i32_to_i16(&mut ctx.builder, rounded);
            let value: WasmLocal = gen_write_top16(ctx, address);
            ctx.builder.free_local(value);
            ctx.builder.free_local(rounded);
            ctx.builder.free_local_i64(bits);
        },
    }
}

fn gen_fpu_store(ctx: &mut JitContext, m: ModrmByte, dest: FpuMemDest, pop: bool)
    requires
        old(ctx)@.wf(),
        m.wf(),
    ensures
        final(ctx)@ == old(ctx)@.fpu_store(m, dest, pop),
        final(ctx)@.wf(),
{
    reveal(Ctx::fpu_store);
    gen_modrm_resolve(ctx, m);
    let address: WasmLocal = ctx.builder.set_new_local();
    if !ctx.st.env.fpu_relaxed {
        gen_converted(ctx, dest);
        gen_write_and_free(ctx, dest, address, true);
        if pop {
            ctx.builder.call("fpu_pop", Sig::Fn0);
        }
        return ;
    }
    let st0_addr: WasmLocal = gen_fpu_st_addr(ctx, 0);
    gen_fpu_relaxed_st_ok(ctx, 0, st0_addr);
    gen_unless(ctx);
    gen_converted(ctx, dest);
    gen_write_and_free(ctx, dest, address, false);
    gen_otherwise(ctx);
    gen_store_inline(ctx, dest, address, st0_addr);
    ctx.builder.block_end();
    gen_pop_if(ctx, pop);
    ctx.builder.free_local(st0_addr);
    ctx.builder.free_local(address);
}

/// Stores `ST(0)` as a 32-bit float.
pub fn gen_fpu_relaxed_store_m32(ctx: &mut JitContext, modrm_byte: ModrmByte, pop: bool)
    requires
        old(ctx)@.wf(),
        modrm_byte.wf(),
    ensures
        final(ctx)@ == old(ctx)@.fpu_store(modrm_byte, FpuMemDest::M32, pop),
        final(ctx)@.wf(),
{
    gen_fpu_store(ctx, modrm_byte, FpuMemDest::M32, pop);
}

/// Stores `ST(0)` as a 64-bit float.
pub fn gen_fpu_relaxed_store_m64(ctx: &mut JitContext, modrm_byte: ModrmByte, pop: bool)
    requires
        old(ctx)@.wf(),
        modrm_byte.wf(),
    ensures
        final(ctx)@ == old(ctx)@.fpu_store(modrm_byte, FpuMemDest::M64, pop),
        final(ctx)@.wf(),
{
    gen_fpu_store(ctx, modrm_byte, FpuMemDest::M64, pop);
}

/// Stores `ST(0)` as a 32-bit integer.
pub fn gen_fpu_relaxed_fist_m32(
    ctx: &mut JitContext,
    modrm_byte: ModrmByte,
    pop: bool,
    truncate: bool,
)
    requires
        old(ctx)@.wf(),
        modrm_byte.wf(),
    ensures
        final(ctx)@ == old(ctx)@.fpu_store(modrm_byte, (FpuMemDest::I32 { truncate }), pop),
        final(ctx)@.wf(),
{
    gen_fpu_store(ctx, modrm_byte, FpuMemDest::I32 { truncate }, pop);
}

/// Stores `ST(0)` as a 16-bit integer.
pub fn gen_fpu_relaxed_fist_m16(
    ctx: &mut JitContext,
    modrm_byte: ModrmByte,
    pop: bool,
    truncate: bool,
)
    requires
        old(ctx)@.wf(),
        modrm_byte.wf(),
    ensures
        final(ctx)@ == old(ctx)@.fpu_store(modrm_byte, (FpuMemDest::I16 { truncate }), pop),
        final(ctx)@.wf(),
{
    gen_fpu_store(ctx, modrm_byte, FpuMemDest::I16 { truncate }, pop);
}

} // verus!
