//! x87 arithmetic, inline on registers that hold doubles, with a helper as the way out for
//! every other value.
use vstd::prelude::*;
use crate::codegen_fpu::{
    gen_fpu_get_sti, gen_fpu_load, gen_fpu_load_f80, gen_fpu_load_mem_as_f64, FpuFastBinOp,
    FpuMemSrc,
};
use crate::codegen_mem::BitSize;
use crate::codegen_x87::{
    gen_fpu_apply_f64_binop, gen_fpu_load_relaxed_st_f64, gen_fpu_pc_cache_prepare,
    gen_fpu_relaxed_st_ok, gen_fpu_relaxed_stat_increment, gen_fpu_st_addr,
    gen_fpu_store_relaxed_f64_st, gen_x87_local_cache_invalidate_all_runtime,
};
use crate::cpu_state::Stat;
use crate::jit_context::{Ctx, JitContext};
use crate::modrm::ModrmByte;
use crate::wasm::{Bin, BlockType, Op, Sig, Un, WasmLocal, E};

verus! {

broadcast use {crate::wasm::group_code, crate::codegen_reg::group_events};

impl Ctx {
    /// The environment and the cached precision control are those of `c`.
    pub open spec fn same_pc(self, c: Ctx) -> bool {
        self.st.env == c.st.env && self.st.fpu_pc_cache == c.st.fpu_pc_cache
    }

    /// The code that follows runs only where the condition on the stack fails; leaving the
    /// inline path is counted.
    pub open spec fn unless(self) -> Ctx {
        self.val(E::Top.eqz()).emit(Op::If(BlockType::Void, None)).relaxed_event(
            Stat::FpuRelaxedFallback,
        )
    }

    /// The helper has done the instruction; what follows is the inline path.
    pub open spec fn otherwise(self) -> Ctx {
        self.x87_dropped().emit(Op::Else).relaxed_event(Stat::FpuRelaxedHit)
    }

    /// The memory operand of a helper that does arithmetic is pushed.
    #[verifier::opaque]
    pub open spec fn arithmetic_operand(self, src: FpuMemSrc, m: ModrmByte) -> Ctx {
        if src is M32 || src is M64 {
            self.fpu_load(src, m)
        } else {
            self.fpu_read_f80(src, m)
        }
    }

    /// `ST(0)` and the memory operand are pushed as doubles, in the order of the operation.
    #[verifier::opaque]
    pub open spec fn operands_mem(
        self,
        op: FpuFastBinOp,
        st0: usize,
        src: FpuMemSrc,
        m: ModrmByte,
    ) -> Ctx {
        if op.is_reversed() {
            self.fpu_read_f64(src, m).st_double(0, st0)
        } else {
            self.st_double(0, st0).fpu_read_f64(src, m)
        }
    }

    /// `ST(0)` and `ST(i)` are pushed as doubles, in the order of the operation.
    #[verifier::opaque]
    pub open spec fn operands_sti(
        self,
        op: FpuFastBinOp,
        st0: usize,
        i: u32,
        sti: usize,
    ) -> Ctx {
        if op.is_reversed() {
            self.st_double(i, sti).st_double(0, st0)
        } else {
            self.st_double(0, st0).st_double(i, sti)
        }
    }

    /// The helper does arithmetic on `ST(target)` and the memory operand.
    #[verifier::opaque]
    pub open spec fn slow_binop_mem(
        self,
        target: u32,
        helper: &'static str,
        src: FpuMemSrc,
        m: ModrmByte,
    ) -> Ctx {
        self.val(E::C(target as i32)).arithmetic_operand(src, m).emit(
            Op::Call(helper, Sig::Fn3I32I64I32),
        )
    }

    /// The helper does arithmetic on `ST(target)` and `ST(i)`.
    #[verifier::opaque]
    pub open spec fn slow_binop_sti(self, target: u32, helper: &'static str, i: u32) -> Ctx {
        self.val(E::C(target as i32)).get_sti(i).emit(Op::Call(helper, Sig::Fn3I32I64I32))
    }

    /// The address of `ST(i)` in a new local, unless `alias` says that a local has it.
    pub open spec fn st_addr_unless(self, alias: bool, i: u32) -> Ctx {
        if alias {
            self
        } else {
            self.st_addr(i)
        }
    }

    pub open spec fn free_unless(self, alias: bool, l: usize) -> Ctx {
        if alias {
            self
        } else {
            self.free(l)
        }
    }

    /// `ST(target)` takes the result of an operation on `ST(0)` and the memory operand.
    #[verifier::opaque]
    pub open spec fn binop_mem(
        self,
        m: ModrmByte,
        target_sti: u32,
        op: FpuFastBinOp,
        helper: &'static str,
        src: FpuMemSrc,
    ) -> Ctx {
        if !self.st.env.fpu_relaxed {
            self.slow_binop_mem(target_sti, helper, src, m)
        } else {
            let c0 = self.pc_prepared();
            let target = c0.e.next_i32();
            let c1 = c0.st_addr(target_sti);
            let st0 = if target_sti == 0 {
                target
            } else {
                c1.e.next_i32()
            };
            c1.st_addr_unless(target_sti == 0, 0).st_ok(0, st0).unless().slow_binop_mem(
                target_sti,
                helper,
                src,
                m,
            ).otherwise().operands_mem(op, st0, src, m).binop(op).st_store(
                target_sti,
                target,
            ).emit(Op::End).free_unless(target_sti == 0, st0).free(target)
        }
    }

    /// `ST(target)` takes the result of an operation on `ST(0)` and `ST(i)`.
    #[verifier::opaque]
    pub open spec fn binop_sti(
        self,
        i: u32,
        target_sti: u32,
        op: FpuFastBinOp,
        helper: &'static str,
    ) -> Ctx {
        if !self.st.env.fpu_relaxed {
            self.slow_binop_sti(target_sti, helper, i)
        } else {
            let c0 = self.pc_prepared();
            let target = c0.e.next_i32();
            let c1 = c0.st_addr(target_sti);
            let st0 = if target_sti == 0 {
                target
            } else {
                c1.e.next_i32()
            };
            let c2 = c1.st_addr_unless(target_sti == 0, 0);
            let sti = if i == target_sti {
                target
            } else if i == 0 {
                st0
            } else {
                c2.e.next_i32()
            };
            let alias = i == target_sti || i == 0;
            c2.st_addr_unless(alias, i).st_ok(0, st0).st_ok(i, sti).emit(
                Op::Bin(Bin::And),
            ).unless().slow_binop_sti(target_sti, helper, i).otherwise().operands_sti(
                op,
                st0,
                i,
                sti,
            ).binop(op).st_store(target_sti, target).emit(Op::End).free_unless(
                alias,
                sti,
            ).free_unless(target_sti == 0, st0).free(target)
        }
    }
}

/// Opens the code for values that are not doubles.
pub(crate) fn gen_unless(ctx: &mut JitContext)
    ensures
        final(ctx)@ == old(ctx)@.unless(),
{
    ctx.builder.un(Un::Eqz);
    ctx.builder.if_void();
    gen_fpu_relaxed_stat_increment(ctx, Stat::FpuRelaxedFallback);
}

/// Closes the code for values that are not doubles and opens the inline path.
pub(crate) fn gen_otherwise(ctx: &mut JitContext)
    ensures
        final(ctx)@ == old(ctx)@.otherwise(),
        old(ctx)@.wf() ==> final(ctx)@.wf(),
        final(ctx)@.same_pc(old(ctx)@),
{
    assert(old(ctx)@.x87_dropped().same_pc(old(ctx)@)) by {
        reveal(Ctx::x87_dropped);
    }
    gen_x87_local_cache_invalidate_all_runtime(ctx);
    ctx.builder.else_();
    gen_fpu_relaxed_stat_increment(ctx, Stat::FpuRelaxedHit);
}

fn gen_fpu_load_mem_binop_slow(ctx: &mut JitContext, src: FpuMemSrc, modrm_byte: ModrmByte)
    requires
        old(ctx)@.wf(),
        modrm_byte.wf(),
    ensures
        final(ctx)@ == old(ctx)@.arithmetic_operand(src, modrm_byte),
        final(ctx)@.wf(),
{
    reveal(Ctx::arithmetic_operand);
    match src {
        FpuMemSrc::M32 => {
            gen_fpu_load(ctx, src, modrm_byte);
        },
        FpuMemSrc::M64 => {
            gen_fpu_load(ctx, src, modrm_byte);
        },
        _ => {
            gen_fpu_load_f80(ctx, src, modrm_byte);
        },
    }
}

/// Reads keep the environment and the cached precision control.
proof fn read_keeps_pc(c: Ctx, bits: BitSize, m: ModrmByte, to: u32)
    ensures
        c.read_operand(bits, m, to).same_pc(c),
        c.read_operand32(m).same_pc(c),
{
    reveal(Ctx::read_operand);
    reveal(Ctx::read_operand32);
    reveal(Ctx::safe_read);
}

proof fn fpu_read_keeps_pc(c: Ctx, src: FpuMemSrc, m: ModrmByte)
    ensures
        c.fpu_read(src, m).same_pc(c),
        c.fpu_read_f64(src, m).same_pc(c),
{
    reveal(Ctx::fpu_read);
    reveal(Ctx::fpu_read_f64);
    read_keeps_pc(c, BitSize::WORD, m, 0);
    read_keeps_pc(c, BitSize::QWORD, m, 0);
}

proof fn arithmetic_operand_keeps_pc(c: Ctx, src: FpuMemSrc, m: ModrmByte)
    ensures
        c.arithmetic_operand(src, m).same_pc(c),
{
    reveal(Ctx::arithmetic_operand);
    reveal(Ctx::fpu_load);
    reveal(Ctx::fpu_read_f80);
    fpu_read_keeps_pc(c, src, m);
    fpu_read_keeps_pc(c.val(E::C(crate::cpu_state::AT_SSE_SCRATCH as i32)), src, m);
}

proof fn st_ok_keeps_pc(c: Ctx, i: u32, addr: usize)
    ensures
        c.st_ok(i, addr).same_pc(c),
        c.st_bits(i, addr).same_pc(c),
        c.st_double(i, addr).same_pc(c),
{
    reveal(Ctx::st_ok);
    reveal(Ctx::st_bits);
    reveal(Ctx::st_double);
    reveal(Ctx::x87_slot);
}

proof fn get_sti_keeps_pc(c: Ctx, i: u32)
    ensures
        c.get_sti(i).same_pc(c),
{
    reveal(Ctx::get_sti);
}

fn gen_slow_binop_mem(
    ctx: &mut JitContext,
    target_sti: u32,
    helper: &'static str,
    src: FpuMemSrc,
    m: ModrmByte,
)
    requires
        old(ctx)@.wf(),
        m.wf(),
    ensures
        final(ctx)@ == old(ctx)@.slow_binop_mem(target_sti, helper, src, m),
        final(ctx)@.wf(),
        final(ctx)@.same_pc(old(ctx)@),
{
    reveal(Ctx::slow_binop_mem);
    ctx.builder.const_i32(target_sti as i32);
    proof {
        arithmetic_operand_keeps_pc(ctx@, src, m);
    }
    gen_fpu_load_mem_binop_slow(ctx, src, m);
    ctx.builder.call(helper, Sig::Fn3I32I64I32);
}

fn gen_slow_binop_sti(ctx: &mut JitContext, target_sti: u32, helper: &'static str, i: u32)
    requires
        old(ctx)@.wf(),
    ensures
        final(ctx)@ == old(ctx)@.slow_binop_sti(target_sti, helper, i),
        final(ctx)@.wf(),
        final(ctx)@.same_pc(old(ctx)@),
{
    reveal(Ctx::slow_binop_sti);
    ctx.builder.const_i32(target_sti as i32);
    proof {
        get_sti_keeps_pc(ctx@, i);
    }
    gen_fpu_get_sti(ctx, i);
    ctx.builder.call(helper, Sig::Fn3I32I64I32);
}

fn gen_fpu_relaxed_load_binop_operands_mem(
    ctx: &mut JitContext,
    op: FpuFastBinOp,
    st0_addr: WasmLocal,
    src: FpuMemSrc,
    modrm_byte: ModrmByte,
)
    requires
        old(ctx)@.wf(),
        modrm_byte.wf(),
    ensures
        final(ctx)@ == old(ctx)@.operands_mem(op, st0_addr.0, src, modrm_byte),
        final(ctx)@.wf(),
        final(ctx)@.same_pc(old(ctx)@),
{
    reveal(Ctx::operands_mem);
    if op.reversed() {
        proof {
            fpu_read_keeps_pc(ctx@, src, modrm_byte);
        }
        gen_fpu_load_mem_as_f64(ctx, src, modrm_byte);
        proof {
            st_ok_keeps_pc(ctx@, 0, st0_addr.0);
        }
        gen_fpu_load_relaxed_st_f64(ctx, 0, st0_addr);
    } else {
        proof {
            st_ok_keeps_pc(ctx@, 0, st0_addr.0);
        }
        gen_fpu_load_relaxed_st_f64(ctx, 0, st0_addr);
        proof {
            fpu_read_keeps_pc(ctx@, src, modrm_byte);
        }
        gen_fpu_load_mem_as_f64(ctx, src, modrm_byte);
    }
}

fn gen_fpu_relaxed_load_binop_operands_sti(
    ctx: &mut JitContext,
    op: FpuFastBinOp,
    st0_addr: WasmLocal,
    op_sti: u32,
    op_addr: WasmLocal,
)
    requires
        old(ctx)@.wf(),
        op_sti < 8,
    ensures
        final(ctx)@ == old(ctx)@.operands_sti(op, st0_addr.0, op_sti, op_addr.0),
        final(ctx)@.wf(),
        final(ctx)@.same_pc(old(ctx)@),
{
    reveal(Ctx::operands_sti);
    if op.reversed() {
        proof {
            st_ok_keeps_pc(ctx@, op_sti, op_addr.0);
        }
        gen_fpu_load_relaxed_st_f64(ctx, op_sti, op_addr);
        proof {
            st_ok_keeps_pc(ctx@, 0, st0_addr.0);
        }
        gen_fpu_load_relaxed_st_f64(ctx, 0, st0_addr);
    } else {
        proof {
            st_ok_keeps_pc(ctx@, 0, st0_addr.0);
        }
        gen_fpu_load_relaxed_st_f64(ctx, 0, st0_addr);
        proof {
            st_ok_keeps_pc(ctx@, op_sti, op_addr.0);
        }
        gen_fpu_load_relaxed_st_f64(ctx, op_sti, op_addr);
    }
}

/// The address of `ST(i)`: in the local `alias`, or else in a new one.
fn gen_st_addr_unless(ctx: &mut JitContext, alias: Option<WasmLocal>, i: u32) -> (l: WasmLocal)
    ensures
        final(ctx)@ == old(ctx)@.st_addr_unless(alias is Some, i),
        l.0 == (match alias {
            Some(a) => a.0,
            None => old(ctx)@.e.next_i32(),
        }),
        old(ctx)@.wf() ==> final(ctx)@.wf(),
        final(ctx)@.same_pc(old(ctx)@),
{
    match alias {
        Some(l) => l,
        None => gen_fpu_st_addr(ctx, i),
    }
}

fn gen_free_unless(ctx: &mut JitContext, alias: bool, l: WasmLocal)
    ensures
        final(ctx)@ == old(ctx)@.free_unless(alias, l.0),
        old(ctx)@.wf() ==> final(ctx)@.wf(),
{
    if !alias {
        ctx.builder.free_local(l);
    }
}

fn alias_if(same: bool, l: WasmLocal) -> (r: Option<WasmLocal>)
    ensures
        r == (if same {
            Some(l)
        } else {
            None
        }),
{
    if same {
        Some(l)
    } else {
        None
    }
}

fn gen_fpu_relaxed_binop_mem(
    ctx: &mut JitContext,
    modrm_byte: ModrmByte,
    target_sti: u32,
    op: FpuFastBinOp,
    slow_helper: &'static str,
    src: FpuMemSrc,
)
    requires
        old(ctx)@.wf(),
        modrm_byte.wf(),
        target_sti < 8,
    ensures
        final(ctx)@ == old(ctx)@.binop_mem(modrm_byte, target_sti, op, slow_helper, src),
        final(ctx)@.wf(),
{
    reveal(Ctx::binop_mem);
    if !ctx.st.env.fpu_relaxed {
        gen_slow_binop_mem(ctx, target_sti, slow_helper, src, modrm_byte);
        return ;
    }
    gen_fpu_pc_cache_prepare(ctx);
    let target_addr: WasmLocal = gen_fpu_st_addr(ctx, target_sti);
    let st0_addr: WasmLocal = gen_st_addr_unless(ctx, alias_if(target_sti == 0, target_addr), 0);
    proof {
        st_ok_keeps_pc(ctx@, 0, st0_addr.0);
    }
    gen_fpu_relaxed_st_ok(ctx, 0, st0_addr);
    gen_unless(ctx);
    gen_slow_binop_mem(ctx, target_sti, slow_helper, src, modrm_byte);
    gen_otherwise(ctx);
    gen_fpu_relaxed_load_binop_operands_mem(ctx, op, st0_addr, src, modrm_byte);
    gen_fpu_apply_f64_binop(ctx, op);
    gen_fpu_store_relaxed_f64_st(ctx, target_sti, target_addr);
    ctx.builder.block_end();
    gen_free_unless(ctx, target_sti == 0, st0_addr);
    ctx.builder.free_local(target_addr);
}

/// Arithmetic with a 32-bit float in memory.
pub fn gen_fpu_relaxed_binop_m32(
    ctx: &mut JitContext,
    modrm_byte: ModrmByte,
    target_sti: u32,
    op: FpuFastBinOp,
    slow_helper: &'static str,
)
    requires
        old(ctx)@.wf(),
        modrm_byte.wf(),
        target_sti < 8,
    ensures
        final(ctx)@ == old(ctx)@.binop_mem(
            modrm_byte,
            target_sti,
            op,
            slow_helper,
            FpuMemSrc::M32,
        ),
        final(ctx)@.wf(),
{
    gen_fpu_relaxed_binop_mem(ctx, modrm_byte, target_sti, op, slow_helper, FpuMemSrc::M32);
}

/// Arithmetic with a 32-bit integer in memory.
pub fn gen_fpu_relaxed_binop_i32(
    ctx: &mut JitContext,
    modrm_byte: ModrmByte,
    target_sti: u32,
    op: FpuFastBinOp,
    slow_helper: &'static str,
)
    requires
        old(ctx)@.wf(),
        modrm_byte.wf(),
        target_sti < 8,
    ensures
        final(ctx)@ == old(ctx)@.binop_mem(
            modrm_byte,
            target_sti,
            op,
            slow_helper,
            FpuMemSrc::I32,
        ),
        final(ctx)@.wf(),
{
    gen_fpu_relaxed_binop_mem(ctx, modrm_byte, target_sti, op, slow_helper, FpuMemSrc::I32);
}

/// Arithmetic with a 16-bit integer in memory.
pub fn gen_fpu_relaxed_binop_i16(
    ctx: &mut JitContext,
    modrm_byte: ModrmByte,
    target_sti: u32,
    op: FpuFastBinOp,
    slow_helper: &'static str,
)
    requires
        old(ctx)@.wf(),
        modrm_byte.wf(),
        target_sti < 8,
    ensures
        final(ctx)@ == old(ctx)@.binop_mem(
            modrm_byte,
            target_sti,
            op,
            slow_helper,
            FpuMemSrc::I16,
        ),
        final(ctx)@.wf(),
{
    gen_fpu_relaxed_binop_mem(ctx, modrm_byte, target_sti, op, slow_helper, FpuMemSrc::I16);
}

/// Arithmetic with a 64-bit float in memory.
pub fn gen_fpu_relaxed_binop_m64(
    ctx: &mut JitContext,
    modrm_byte: ModrmByte,
    target_sti: u32,
    op: FpuFastBinOp,
    slow_helper: &'static str,
)
    requires
        old(ctx)@.wf(),
        modrm_byte.wf(),
        target_sti < 8,
    ensures
        final(ctx)@ == old(ctx)@.binop_mem(
            modrm_byte,
            target_sti,
            op,
            slow_helper,
            FpuMemSrc::M64,
        ),
        final(ctx)@.wf(),
{
    gen_fpu_relaxed_binop_mem(ctx, modrm_byte, target_sti, op, slow_helper, FpuMemSrc::M64);
}

/// Arithmetic with `ST(sti)`.
pub fn gen_fpu_relaxed_binop_sti(
    ctx: &mut JitContext,
    sti: u32,
    target_sti: u32,
    op: FpuFastBinOp,
    slow_helper: &'static str,
)
    requires
        old(ctx)@.wf(),
        sti < 8,
        target_sti < 8,
    ensures
        final(ctx)@ == old(ctx)@.binop_sti(sti, target_sti, op, slow_helper),
        final(ctx)@.wf(),
{
    reveal(Ctx::binop_sti);
    if !ctx.st.env.fpu_relaxed {
        gen_slow_binop_sti(ctx, target_sti, slow_helper, sti);
        return ;
    }
    gen_fpu_pc_cache_prepare(ctx);
    let target_addr: WasmLocal = gen_fpu_st_addr(ctx, target_sti);
    let st0_addr: WasmLocal = gen_st_addr_unless(ctx, alias_if(target_sti == 0, target_addr), 0);
    let alias: Option<WasmLocal> = if sti == target_sti {
        Some(target_addr)
    } else {
        alias_if(sti == 0, st0_addr)
    };
    let op_addr: WasmLocal = gen_st_addr_unless(ctx, alias, sti);
    proof {
        st_ok_keeps_pc(ctx@, 0, st0_addr.0);
    }
    gen_fpu_relaxed_st_ok(ctx, 0, st0_addr);
    proof {
        st_ok_keeps_pc(ctx@, sti, op_addr.0);
    }
    gen_fpu_relaxed_st_ok(ctx, sti, op_addr);
    ctx.builder.bin(Bin::And);
    gen_unless(ctx);
    gen_slow_binop_sti(ctx, target_sti, slow_helper, sti);
    gen_otherwise(ctx);
    gen_fpu_relaxed_load_binop_operands_sti(ctx, op, st0_addr, sti, op_addr);
    gen_fpu_apply_f64_binop(ctx, op);
    gen_fpu_store_relaxed_f64_st(ctx, target_sti, target_addr);
    ctx.builder.block_end();
    gen_free_unless(ctx, alias.is_some(), op_addr);
    gen_free_unless(ctx, target_sti == 0, st0_addr);
    ctx.builder.free_local(target_addr);
}

} // verus!
