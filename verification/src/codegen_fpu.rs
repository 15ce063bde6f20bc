//! Code for x87 instructions. Registers hold either 80-bit values, which helpers work on, or
//! doubles under a tag of their own, which generated code works on directly. The doubles of
//! registers that were just used are also cached in locals.
use vstd::prelude::*;
use crate::codegen_mem::{
    gen_modrm_resolve_safe_read16, gen_modrm_resolve_safe_read32, gen_modrm_resolve_safe_read64,
    BitSize,
};
use crate::codegen_reg::{gen_mark_fpu_simd_dirty, sign_extend_i16};
use crate::cpu_state::{
    AT_FPU_ST, AT_FPU_STACK_EMPTY, AT_FPU_STACK_PTR, AT_FPU_STATUS_WORD, AT_SSE_SCRATCH,
};
use crate::jit_context::{Ctx, JitContext};
use crate::modrm::ModrmByte;
use crate::wasm::{Bin, Emit, Op, Sig, Un, WasmBuilder, WasmLocal, Width, E};

verus! {

broadcast use {crate::wasm::group_code, crate::codegen_reg::group_events};

/// The sign and exponent that mark a register as holding a double.
pub const FPU_RELAXED_TAG: i32 = 0x7FFE;

// Condition bits of the status word.
pub const FPU_C0: i32 = 0x100;
pub const FPU_C1: i32 = 0x200;
pub const FPU_C2: i32 = 0x400;
pub const FPU_C3: i32 = 0x4000;
/// The condition bits that a comparison sets.
pub const FPU_RESULT_FLAGS: i32 = 0x4700;
pub const NOT_FPU_RESULT_FLAGS: i32 = -18177;
pub const NOT_FPU_C1: i32 = -513;
/// Invalid operation and stack fault.
pub const FPU_EX_SF_AND_I: i32 = 0x41;
/// The mantissa of the indefinite value, 0xC000000000000000.
pub const F80_INDEFINITE_NAN_MANTISSA: i64 = -4611686018427387904;
pub const F80_INDEFINITE_NAN_SIGN_EXPONENT: i32 = 0x7FFF;

/// The arithmetic instructions with an inline form. The reversed ones take their operands in
/// the other order.
#[derive(Clone, Copy, Debug, PartialEq, Eq, Structural)]
pub enum FpuFastBinOp {
    Add,
    Mul,
    Sub,
    SubR,
    Div,
    DivR,
}

impl FpuFastBinOp {
    pub open spec fn is_reversed(self) -> bool {
        self is SubR || self is DivR
    }

    pub(crate) fn reversed(self) -> (r: bool)
        ensures
            r == self.is_reversed(),
    {
        match self {
            FpuFastBinOp::SubR => true,
            FpuFastBinOp::DivR => true,
            _ => false,
        }
    }

    pub open spec fn instruction(self) -> Bin {
        match self {
            FpuFastBinOp::Add => Bin::AddF64,
            FpuFastBinOp::Mul => Bin::MulF64,
            FpuFastBinOp::Sub => Bin::SubF64,
            FpuFastBinOp::SubR => Bin::SubF64,
            FpuFastBinOp::Div => Bin::DivF64,
            FpuFastBinOp::DivR => Bin::DivF64,
        }
    }

    pub(crate) fn wasm(self) -> (b: Bin)
        ensures
            b == self.instruction(),
    {
        match self {
            FpuFastBinOp::Add => Bin::AddF64,
            FpuFastBinOp::Mul => Bin::MulF64,
            FpuFastBinOp::Sub => Bin::SubF64,
            FpuFastBinOp::SubR => Bin::SubF64,
            FpuFastBinOp::Div => Bin::DivF64,
            FpuFastBinOp::DivR => Bin::DivF64,
        }
    }
}

/// What a memory operand holds. Each converts to a double exactly.
#[derive(Clone, Copy, Debug, PartialEq, Eq, Structural)]
pub enum FpuMemSrc {
    M32,
    I32,
    I16,
    M64,
}

impl E {
    /// The number of the physical register `ST(i)`.
    pub open spec fn st_index(i: u32) -> E {
        E::fixed(Width::W8, AT_FPU_STACK_PTR).binc(Bin::Add, i as i32).and(7)
    }

    /// Where the physical register lies.
    pub open spec fn st_slot(self) -> E {
        self.binc(Bin::Mul, 16).binc(Bin::Add, AT_FPU_ST as i32)
    }

    /// An 80-bit value in the scratch register: its mantissa, and its sign and exponent.
    pub open spec fn scratch80() -> E {
        E::fixed(Width::A64, AT_SSE_SCRATCH).both(
            E::fixed(Width::A16, (AT_SSE_SCRATCH + 8) as u32),
        )
    }

    /// The double with the bits in a local.
    pub open spec fn double(bits: usize) -> E {
        E::L(bits).un(Un::ReinterpretI64AsF64)
    }

    /// Whether the double with the bits in a local is not a number.
    pub open spec fn is_nan(bits: usize) -> E {
        E::double(bits).bin(Bin::NeF64, E::double(bits))
    }

    /// Whether the register at the address in a local holds a double.
    pub open spec fn tag_ok(addr: usize) -> E {
        E::L(addr).load(Width::W16, 8).binc(Bin::Eq, FPU_RELAXED_TAG)
    }

    /// The double on the stack, as a register that holds a double: its bits and the tag.
    pub open spec fn tagged(self) -> E {
        self.un(Un::ReinterpretF64AsI64).both(E::C(FPU_RELAXED_TAG))
    }
}

impl Emit {
    /// `ST(i)` is pushed; a stack fault is raised, and the indefinite value pushed, where the
    /// register is empty.
    #[verifier::opaque]
    pub open spec fn get_sti_relaxed(self, i: u32) -> Emit {
        let index = self.next_i32();
        let addr = self.take_i32().next_i32();
        let empty = self.take_i32().take_i32().next_i32();
        self.take_i32().take_i32().take_i32().set(addr, E::st_index(i).tee(index).st_slot()).set(
            empty,
            E::fixed(Width::W8, AT_FPU_STACK_EMPTY).bin(Bin::ShrU, E::L(index)).and(1),
        ).if_void(E::L(empty)).mark_fpu_simd_dirty().store_fixed(
            Width::A16,
            AT_FPU_STATUS_WORD,
            E::fixed(Width::A16, AT_FPU_STATUS_WORD).and(NOT_FPU_C1).binc(
                Bin::Or,
                FPU_EX_SF_AND_I,
            ),
        ).end().val(
            E::C64(F80_INDEFINITE_NAN_MANTISSA).select(
                E::L(addr).load(Width::W64, 0),
                E::L(empty),
            ),
        ).val(
            E::C(F80_INDEFINITE_NAN_SIGN_EXPONENT).select(
                E::L(addr).load(Width::W16, 8),
                E::L(empty),
            ),
        ).give_i32(empty).give_i32(addr).give_i32(index)
    }
}

impl Ctx {
    /// `ST(i)` is pushed: its mantissa, and its sign and exponent.
    #[verifier::opaque]
    pub open spec fn get_sti(self, i: u32) -> Ctx {
        if self.st.env.fpu_relaxed {
            self.on(self.e.get_sti_relaxed(i))
        } else {
            self.val(
                E::C(AT_SSE_SCRATCH as i32).both(E::C(i as i32)).call(
                    "fpu_get_sti_jit",
                    Sig::Fn2,
                ),
            ).val(E::scratch80())
        }
    }

    /// The memory operand is pushed as it is; 16-bit integers are extended.
    #[verifier::opaque]
    pub open spec fn fpu_read(self, src: FpuMemSrc, m: ModrmByte) -> Ctx {
        match src {
            FpuMemSrc::M32 => self.read_operand32(m),
            FpuMemSrc::I32 => self.read_operand32(m),
            FpuMemSrc::I16 => self.read_operand(BitSize::WORD, m, 0).val(E::Top.sext16()),
            FpuMemSrc::M64 => self.read_operand(BitSize::QWORD, m, 0),
        }
    }

    /// The memory operand is pushed as a double.
    #[verifier::opaque]
    pub open spec fn fpu_read_f64(self, src: FpuMemSrc, m: ModrmByte) -> Ctx {
        self.fpu_read(src, m).val(
            match src {
                FpuMemSrc::M32 => E::Top.un(Un::ReinterpretI32AsF32).un(Un::PromoteF32),
                FpuMemSrc::I32 => E::Top.un(Un::ConvertI32ToF64),
                FpuMemSrc::I16 => E::Top.un(Un::ConvertI32ToF64),
                FpuMemSrc::M64 => E::Top.un(Un::ReinterpretI64AsF64),
            },
        )
    }

    /// The memory operand is pushed as an 80-bit value that a helper makes of it.
    #[verifier::opaque]
    pub open spec fn fpu_read_f80(self, src: FpuMemSrc, m: ModrmByte) -> Ctx {
        let (helper, sig) = match src {
            FpuMemSrc::M32 => ("f32_to_f80_jit", Sig::Fn2),
            FpuMemSrc::I32 => ("i32_to_f80_jit", Sig::Fn2),
            FpuMemSrc::I16 => ("i32_to_f80_jit", Sig::Fn2),
            FpuMemSrc::M64 => ("f64_to_f80_jit", Sig::Fn2I32I64),
        };
        self.val(E::C(AT_SSE_SCRATCH as i32)).fpu_read(src, m).emit(Op::Call(helper, sig)).val(
            E::scratch80(),
        )
    }

    /// A 64-bit integer in memory is pushed as an 80-bit value, which holds all of its bits.
    #[verifier::opaque]
    pub open spec fn fpu_read_i64(self, m: ModrmByte) -> Ctx {
        self.val(E::C(AT_SSE_SCRATCH as i32)).read_operand(BitSize::QWORD, m, 0).emit(
            Op::Call("i64_to_f80_jit", Sig::Fn2I32I64),
        ).val(E::scratch80())
    }

    /// The memory operand is pushed as a register holds it: a double under its tag, or an
    /// 80-bit value.
    #[verifier::opaque]
    pub open spec fn fpu_load(self, src: FpuMemSrc, m: ModrmByte) -> Ctx {
        if !self.st.env.fpu_relaxed {
            self.fpu_read_f80(src, m)
        } else if src is M64 {
            self.fpu_read(src, m).val(E::C(FPU_RELAXED_TAG))
        } else {
            self.fpu_read_f64(src, m).val(E::Top.tagged())
        }
    }
}

pub(crate) fn gen_scratch80(builder: &mut WasmBuilder)
    ensures
        final(builder)@ == old(builder)@.val(E::scratch80()),
{
    builder.load_fixed(Width::A64, AT_SSE_SCRATCH);
    builder.load_fixed(Width::A16, AT_SSE_SCRATCH + 8);
}

pub(crate) fn gen_get_sti_relaxed(builder: &mut WasmBuilder, i: u32)
    ensures
        final(builder)@ == old(builder)@.get_sti_relaxed(i),
{
    reveal(Emit::get_sti_relaxed);
    builder.load_fixed(Width::W8, AT_FPU_STACK_PTR);
    builder.binc(Bin::Add, i as i32);
    builder.binc(Bin::And, 7);
    let index: WasmLocal = builder.tee_new_local();
    builder.binc(Bin::Mul, 16);
    builder.binc(Bin::Add, AT_FPU_ST as i32);
    let addr_local: WasmLocal = builder.set_new_local();
    builder.load_fixed(Width::W8, AT_FPU_STACK_EMPTY);
    builder.get_local(index);
    builder.bin(Bin::ShrU);
    builder.binc(Bin::And, 1);
    let empty: WasmLocal = builder.set_new_local();
    builder.get_local(empty);
    builder.if_void();
    gen_mark_fpu_simd_dirty(builder);
    builder.const_i32(AT_FPU_STATUS_WORD as i32);
    builder.load_fixed(Width::A16, AT_FPU_STATUS_WORD);
    builder.binc(Bin::And, NOT_FPU_C1);
    builder.binc(Bin::Or, FPU_EX_SF_AND_I);
    builder.store(Width::A16, 0);
    builder.block_end();
    builder.const_i64(F80_INDEFINITE_NAN_MANTISSA);
    builder.get_local(addr_local);
    builder.load(Width::W64, 0);
    builder.get_local(empty);
    builder.select();
    builder.const_i32(F80_INDEFINITE_NAN_SIGN_EXPONENT);
    builder.get_local(addr_local);
    builder.load(Width::W16, 8);
    builder.get_local(empty);
    builder.select();
    builder.free_local(empty);
    builder.free_local(addr_local);
    builder.free_local(index);
}

/// Pushes `ST(i)`: its mantissa, and its sign and exponent. An empty register raises a stack
/// fault and reads as the indefinite value.
pub fn gen_fpu_get_sti(ctx: &mut JitContext, i: u32)
    ensures
        final(ctx)@ == old(ctx)@.get_sti(i),
        old(ctx)@.wf() ==> final(ctx)@.wf(),
{
    reveal(Ctx::get_sti);
    if ctx.st.env.fpu_relaxed {
        gen_get_sti_relaxed(&mut ctx.builder, i);
    } else {
        ctx.builder.const_i32(AT_SSE_SCRATCH as i32);
        ctx.builder.const_i32(i as i32);
        ctx.builder.call("fpu_get_sti_jit", Sig::Fn2);
        gen_scratch80(&mut ctx.builder);
    }
}

pub(crate) fn gen_fpu_read(ctx: &mut JitContext, src: FpuMemSrc, m: ModrmByte)
    requires
        old(ctx)@.wf(),
        m.wf(),
    ensures
        final(ctx)@ == old(ctx)@.fpu_read(src, m),
        final(ctx)@.wf(),
{
    reveal(Ctx::fpu_read);
    match src {
        FpuMemSrc::M32 => {
            gen_modrm_resolve_safe_read32(ctx, m);
        },
        FpuMemSrc::I32 => {
            gen_modrm_resolve_safe_read32(ctx, m);
        },
        FpuMemSrc::I16 => {
            gen_modrm_resolve_safe_read16(ctx, m);
            sign_extend_i16(&mut ctx.builder);
        },
        FpuMemSrc::M64 => {
            gen_modrm_resolve_safe_read64(ctx, m);
        },
    }
}

/// Pushes a memory operand as a double.
pub(crate) fn gen_fpu_load_mem_as_f64(ctx: &mut JitContext, src: FpuMemSrc, modrm_byte: ModrmByte)
    requires
        old(ctx)@.wf(),
        modrm_byte.wf(),
    ensures
        final(ctx)@ == old(ctx)@.fpu_read_f64(src, modrm_byte),
        final(ctx)@.wf(),
{
    reveal(Ctx::fpu_read_f64);
    gen_fpu_read(ctx, src, modrm_byte);
    match src {
        FpuMemSrc::M32 => {
            ctx.builder.un(Un::ReinterpretI32AsF32);
            ctx.builder.un(Un::PromoteF32);
        },
        FpuMemSrc::I32 => {
            ctx.builder.un(Un::ConvertI32ToF64);
        },
        FpuMemSrc::I16 => {
            ctx.builder.un(Un::ConvertI32ToF64);
        },
        FpuMemSrc::M64 => {
            ctx.builder.un(Un::ReinterpretI64AsF64);
        },
    }
}

pub(crate) fn gen_fpu_load_f80(ctx: &mut JitContext, src: FpuMemSrc, m: ModrmByte)
    requires
        old(ctx)@.wf(),
        m.wf(),
    ensures
        final(ctx)@ == old(ctx)@.fpu_read_f80(src, m),
        final(ctx)@.wf(),
{
    reveal(Ctx::fpu_read_f80);
    let (helper, sig): (&'static str, Sig) = match src {
        FpuMemSrc::M32 => ("f32_to_f80_jit", Sig::Fn2),
        FpuMemSrc::I32 => ("i32_to_f80_jit", Sig::Fn2),
        FpuMemSrc::I16 => ("i32_to_f80_jit", Sig::Fn2),
        FpuMemSrc::M64 => ("f64_to_f80_jit", Sig::Fn2I32I64),
    };
    ctx.builder.const_i32(AT_SSE_SCRATCH as i32);
    gen_fpu_read(ctx, src, m);
    ctx.builder.call(helper, sig);
    gen_scratch80(&mut ctx.builder);
}

pub(crate) fn gen_fpu_load(ctx: &mut JitContext, src: FpuMemSrc, m: ModrmByte)
    requires
        old(ctx)@.wf(),
        m.wf(),
    ensures
        final(ctx)@ == old(ctx)@.fpu_load(src, m),
        final(ctx)@.wf(),
{
    reveal(Ctx::fpu_load);
    if !ctx.st.env.fpu_relaxed {
        gen_fpu_load_f80(ctx, src, m);
        return ;
    }
    if let FpuMemSrc::M64 = src {
        gen_fpu_read(ctx, src, m);
    } else {
        gen_fpu_load_mem_as_f64(ctx, src, m);
        ctx.builder.un(Un::ReinterpretF64AsI64);
    }
    ctx.builder.const_i32(FPU_RELAXED_TAG);
}

/// Pushes a 32-bit float operand.
pub fn gen_fpu_load_m32(ctx: &mut JitContext, modrm_byte: ModrmByte)
    requires
        old(ctx)@.wf(),
        modrm_byte.wf(),
    ensures
        final(ctx)@ == old(ctx)@.fpu_load(FpuMemSrc::M32, modrm_byte),
        final(ctx)@.wf(),
{
    gen_fpu_load(ctx, FpuMemSrc::M32, modrm_byte);
}

/// Pushes a 64-bit float operand.
pub fn gen_fpu_load_m64(ctx: &mut JitContext, modrm_byte: ModrmByte)
    requires
        old(ctx)@.wf(),
        modrm_byte.wf(),
    ensures
        final(ctx)@ == old(ctx)@.fpu_load(FpuMemSrc::M64, modrm_byte),
        final(ctx)@.wf(),
{
    gen_fpu_load(ctx, FpuMemSrc::M64, modrm_byte);
}

/// Pushes a 16-bit integer operand as an 80-bit value.
pub fn gen_fpu_load_i16_f80(ctx: &mut JitContext, modrm_byte: ModrmByte)
    requires
        old(ctx)@.wf(),
        modrm_byte.wf(),
    ensures
        final(ctx)@ == old(ctx)@.fpu_read_f80(FpuMemSrc::I16, modrm_byte),
        final(ctx)@.wf(),
{
    gen_fpu_load_f80(ctx, FpuMemSrc::I16, modrm_byte);
}

/// Pushes a 32-bit integer operand as an 80-bit value.
pub fn gen_fpu_load_i32_f80(ctx: &mut JitContext, modrm_byte: ModrmByte)
    requires
        old(ctx)@.wf(),
        modrm_byte.wf(),
    ensures
        final(ctx)@ == old(ctx)@.fpu_read_f80(FpuMemSrc::I32, modrm_byte),
        final(ctx)@.wf(),
{
    gen_fpu_load_f80(ctx, FpuMemSrc::I32, modrm_byte);
}

/// Pushes a 64-bit integer operand as an 80-bit value.
pub fn gen_fpu_load_i64_f80(ctx: &mut JitContext, modrm_byte: ModrmByte)
    requires
        old(ctx)@.wf(),
        modrm_byte.wf(),
    ensures
        final(ctx)@ == old(ctx)@.fpu_read_i64(modrm_byte),
        final(ctx)@.wf(),
{
    reveal(Ctx::fpu_read_i64);
    ctx.builder.const_i32(AT_SSE_SCRATCH as i32);
    gen_modrm_resolve_safe_read64(ctx, modrm_byte);
    ctx.builder.call("i64_to_f80_jit", Sig::Fn2I32I64);
    gen_scratch80(&mut ctx.builder);
}

/// Pushes a 16-bit integer operand.
pub fn gen_fpu_load_i16(ctx: &mut JitContext, modrm_byte: ModrmByte)
    requires
        old(ctx)@.wf(),
        modrm_byte.wf(),
    ensures
        final(ctx)@ == old(ctx)@.fpu_load(FpuMemSrc::I16, modrm_byte),
        final(ctx)@.wf(),
{
    gen_fpu_load(ctx, FpuMemSrc::I16, modrm_byte);
}

/// Pushes a 32-bit integer operand.
pub fn gen_fpu_load_i32(ctx: &mut JitContext, modrm_byte: ModrmByte)
    requires
        old(ctx)@.wf(),
        modrm_byte.wf(),
    ensures
        final(ctx)@ == old(ctx)@.fpu_load(FpuMemSrc::I32, modrm_byte),
        final(ctx)@.wf(),
{
    gen_fpu_load(ctx, FpuMemSrc::I32, modrm_byte);
}

/// Pushes a 64-bit integer operand, always as an 80-bit value: a double has too few bits.
pub fn gen_fpu_load_i64(ctx: &mut JitContext, modrm_byte: ModrmByte)
    requires
        old(ctx)@.wf(),
        modrm_byte.wf(),
    ensures
        final(ctx)@ == old(ctx)@.fpu_read_i64(modrm_byte),
        final(ctx)@.wf(),
{
    gen_fpu_load_i64_f80(ctx, modrm_byte);
}

} // verus!
