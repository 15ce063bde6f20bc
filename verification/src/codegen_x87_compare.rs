//! x87 comparisons, inline on registers that hold doubles, with a helper as the way out for
//! every other value.
use vstd::prelude::*;
use crate::codegen_fpu::{
    gen_fpu_get_sti, gen_fpu_load, gen_fpu_load_mem_as_f64, FpuMemSrc,
};
use crate::codegen_reg::gen_fn1_const;
use crate::codegen_x87::{
    gen_fpu_compare_eflags_from_bits, gen_fpu_compare_status_from_bits, gen_fpu_relaxed_st_ok,
    gen_fpu_st_addr, gen_st_bits,
};
use crate::codegen_x87_ops::{gen_otherwise, gen_unless};
use crate::codegen_x87_stack::gen_fpu_relaxed_pop_n;
use crate::jit_context::{Ctx, JitContext};
use crate::modrm::ModrmByte;
use crate::wasm::{Bin, Emit, Op, Sig, Un, WasmBuilder, WasmLocal, WasmLocalI64, E};

verus! {

broadcast use {crate::wasm::group_code, crate::codegen_reg::group_events};

impl Emit {
    /// The helper that pops the x87 stack is called `n` times.
    pub open spec fn pop_called(self, n: nat) -> Emit
        decreases n,
    {
        if n == 0 {
            self
        } else {
            self.pop_called((n - 1) as nat).op(Op::Call("fpu_pop", Sig::Fn0))
        }
    }
}

/// How often the stack is popped after the helper, which may pop once itself.
pub open spec fn pops_after(helper: &'static str, pop_count: u32) -> nat {
    if pop_count > 0 && helper@ == "fpu_fcomp"@ {
        (pop_count - 1) as nat
    } else {
        pop_count as nat
    }
}

impl Ctx {
    /// Whether `ST(0)` and `ST(i)`, at the addresses in two locals, both hold doubles.
    pub open spec fn both_ok(self, st0: usize, i: u32, sti: usize) -> Ctx {
        self.st_ok(0, st0).st_ok(i, sti).emit(Op::Bin(Bin::And))
    }

    /// Two doubles, given by locals with their bits, are compared: into the status flags, or
    /// else into the status word.
    pub open spec fn compare(self, x: usize, y: usize, eflags: bool) -> Ctx {
        if eflags {
            self.compare_eflags(x, y)
        } else {
            self.compare_status(x, y)
        }
    }

    /// `ST(0)` and `ST(i)`, at the addresses in two locals, are compared as doubles.
    #[verifier::opaque]
    pub open spec fn compare_sti(self, st0: usize, i: u32, sti: usize, eflags: bool) -> Ctx {
        let c = self.st_bits(0, st0);
        let x = c.e.next_i64();
        let d = c.to_new_i64().st_bits(i, sti);
        let y = d.e.next_i64();
        d.to_new_i64().compare(x, y, eflags).free_i64(y).free_i64(x)
    }

    /// `ST(0)`, at the address in a local, and the memory operand are compared as doubles.
    #[verifier::opaque]
    pub open spec fn compare_mem(self, st0: usize, src: FpuMemSrc, m: ModrmByte) -> Ctx {
        let c = self.st_bits(0, st0);
        let x = c.e.next_i64();
        let d = c.to_new_i64().fpu_read_f64(src, m).val(E::Top.un(Un::ReinterpretF64AsI64));
        let y = d.e.next_i64();
        d.to_new_i64().compare(x, y, false).free_i64(y).free_i64(x)
    }

    /// The helper compares `ST(0)` with `ST(i)`, which is handed to it.
    #[verifier::opaque]
    pub open spec fn slow_fcom(self, i: u32, pop_count: u32, helper: &'static str) -> Ctx {
        let c = self.get_sti(i).emit(Op::Call(helper, Sig::Fn2I64I32));
        c.on(c.e.pop_called(pops_after(helper, pop_count)))
    }

    /// The inline path of a comparison of two registers: what follows the helper's.
    #[verifier::opaque]
    pub open spec fn compare_inline(
        self,
        st0: usize,
        i: u32,
        sti: usize,
        eflags: bool,
        pops: u32,
    ) -> Ctx {
        self.otherwise().compare_sti(st0, i, sti, eflags).fpu_popped_n(pops as nat).emit(
            Op::End,
        ).free(sti).free(st0)
    }

    /// `ST(0)` is compared with `ST(i)` into the status word.
    #[verifier::opaque]
    pub open spec fn fcom_sti(self, i: u32, pop_count: u32, helper: &'static str) -> Ctx {
        if !self.st.env.fpu_relaxed {
            self.slow_fcom(i, pop_count, helper)
        } else {
            let st0 = self.e.next_i32();
            let c = self.st_addr(0);
            let sti = c.e.next_i32();
            c.st_addr(i).both_ok(st0, i, sti).unless().slow_fcom(
                i,
                pop_count,
                helper,
            ).compare_inline(st0, i, sti, false, pop_count)
        }
    }

    /// `ST(0)` is compared with `ST(i)`; the helper takes no value, and `slow` calls it.
    #[verifier::opaque]
    pub open spec fn compare_or_call(self, i: u32, slow: E, eflags: bool, pops: u32) -> Ctx {
        if !self.st.env.fpu_relaxed {
            self.val(slow)
        } else {
            let st0 = self.e.next_i32();
            let c = self.st_addr(0);
            let sti = c.e.next_i32();
            c.st_addr(i).both_ok(st0, i, sti).unless().val(slow).compare_inline(
                st0,
                i,
                sti,
                eflags,
                pops,
            )
        }
    }

    /// `ST(0)` is compared with the memory operand into the status word.
    #[verifier::opaque]
    pub open spec fn fcom_mem(
        self,
        m: ModrmByte,
        pop_count: u32,
        helper: &'static str,
        src: FpuMemSrc,
    ) -> Ctx {
        if !self.st.env.fpu_relaxed {
            self.fpu_load(src, m).emit(Op::Call(helper, Sig::Fn2I64I32))
        } else {
            let st0 = self.e.next_i32();
            self.st_addr(0).st_ok(0, st0).unless().fpu_load(src, m).emit(
                Op::Call(helper, Sig::Fn2I64I32),
            ).otherwise().compare_mem(st0, src, m).fpu_popped_n(pop_count as nat).emit(
                Op::End,
            ).free(st0)
        }
    }
}

fn gen_both_ok(ctx: &mut JitContext, st0: WasmLocal, i: u32, sti: WasmLocal)
    requires
        old(ctx)@.wf(),
        i < 8,
    ensures
        final(ctx)@ == old(ctx)@.both_ok(st0.0, i, sti.0),
        final(ctx)@.wf(),
{
    gen_fpu_relaxed_st_ok(ctx, 0, st0);
    gen_fpu_relaxed_st_ok(ctx, i, sti);
    ctx.builder.bin(Bin::And);
}

fn gen_compare(ctx: &mut JitContext, x: WasmLocalI64, y: WasmLocalI64, eflags: bool)
    ensures
        final(ctx)@ == old(ctx)@.compare(x.0, y.0, eflags),
        old(ctx)@.wf() ==> final(ctx)@.wf(),
{
    if eflags {
        gen_fpu_compare_eflags_from_bits(ctx, x, y);
    } else {
        gen_fpu_compare_status_from_bits(ctx, x, y);
    }
}

fn gen_compare_sti(ctx: &mut JitContext, st0: WasmLocal, i: u32, sti: WasmLocal, eflags: bool)
    requires
        old(ctx)@.wf(),
        i < 8,
    ensures
        final(ctx)@ == old(ctx)@.compare_sti(st0.0, i, sti.0, eflags),
        final(ctx)@.wf(),
{
    reveal(Ctx::compare_sti);
    gen_st_bits(ctx, 0, st0);
    let x_bits: WasmLocalI64 = ctx.builder.set_new_local_i64();
    gen_st_bits(ctx, i, sti);
    let y_bits: WasmLocalI64 = ctx.builder.set_new_local_i64();
    gen_compare(ctx, x_bits, y_bits, eflags);
    ctx.builder.free_local_i64(y_bits);
    ctx.builder.free_local_i64(x_bits);
}

fn gen_compare_mem(ctx: &mut JitContext, st0: WasmLocal, src: FpuMemSrc, m: ModrmByte)
    requires
        old(ctx)@.wf(),
        m.wf(),
    ensures
        final(ctx)@ == old(ctx)@.compare_mem(st0.0, src, m),
        final(ctx)@.wf(),
{
    reveal(Ctx::compare_mem);
    gen_st_bits(ctx, 0, st0);
    let x_bits: WasmLocalI64 = ctx.builder.set_new_local_i64();
    gen_fpu_load_mem_as_f64(ctx, src, m);
    ctx.builder.un(Un::ReinterpretF64AsI64);
    let y_bits: WasmLocalI64 = ctx.builder.set_new_local_i64();
    gen_compare(ctx, x_bits, y_bits, false);
    ctx.builder.free_local_i64(y_bits);
    ctx.builder.free_local_i64(x_bits);
}

fn gen_pop_called(builder: &mut WasmBuilder, n: u32)
    ensures
        final(builder)@ == old(builder)@.pop_called(n as nat),
{
    let mut i: u32 = 0;
    while i < n
        invariant
            i <= n,
            builder@ == old(builder)@.pop_called(i as nat),
        decreases n - i,
    {
        builder.call("fpu_pop", Sig::Fn0);
        i = i + 1;
    }
}

fn gen_slow_fcom(ctx: &mut JitContext, i: u32, pop_count: u32, slow_helper: &'static str)
    ensures
        final(ctx)@ == old(ctx)@.slow_fcom(i, pop_count, slow_helper),
        old(ctx)@.wf() ==> final(ctx)@.wf(),
{
    reveal(Ctx::slow_fcom);
    gen_fpu_get_sti(ctx, i);
    ctx.builder.call(slow_helper, Sig::Fn2I64I32);
    let pops: u32 = if pop_count > 0 && slow_helper.to_string() == "fpu_fcomp".to_string() {
        pop_count - 1
    } else {
        pop_count
    };
    gen_pop_called(&mut ctx.builder, pops);
}

fn gen_compare_inline(
    ctx: &mut JitContext,
    st0: WasmLocal,
    i: u32,
    sti: WasmLocal,
    eflags: bool,
    pops: u32,
)
    requires
        old(ctx)@.wf(),
        i < 8,
    ensures
        final(ctx)@ == old(ctx)@.compare_inline(st0.0, i, sti.0, eflags, pops),
        final(ctx)@.wf(),
{
    reveal(Ctx::compare_inline);
    gen_otherwise(ctx);
    gen_compare_sti(ctx, st0, i, sti, eflags);
    gen_fpu_relaxed_pop_n(ctx, pops);
    ctx.builder.block_end();
    ctx.builder.free_local(sti);
    ctx.builder.free_local(st0);
}

/// Compares `ST(0)` with `ST(i)`.
pub fn gen_fpu_relaxed_fcom_sti(
    ctx: &mut JitContext,
    i: u32,
    pop_count: u32,
    slow_helper: &'static str,
)
    requires
        old(ctx)@.wf(),
        i < 8,
    ensures
        final(ctx)@ == old(ctx)@.fcom_sti(i, pop_count, slow_helper),
        final(ctx)@.wf(),
{
    reveal(Ctx::fcom_sti);
    if !ctx.st.env.fpu_relaxed {
        gen_slow_fcom(ctx, i, pop_count, slow_helper);
        return ;
    }
    let st0_addr: WasmLocal = gen_fpu_st_addr(ctx, 0);
    let sti_addr: WasmLocal = gen_fpu_st_addr(ctx, i);
    gen_both_ok(ctx, st0_addr, i, sti_addr);
    gen_unless(ctx);
    gen_slow_fcom(ctx, i, pop_count, slow_helper);
    gen_compare_inline(ctx, st0_addr, i, sti_addr, false, pop_count);
}

fn gen_fpu_relaxed_fcom_mem(
    ctx: &mut JitContext,
    modrm_byte: ModrmByte,
    pop_count: u32,
    slow_helper: &'static str,
    src: FpuMemSrc,
)
    requires
        old(ctx)@.wf(),
        modrm_byte.wf(),
    ensures
        final(ctx)@ == old(ctx)@.fcom_mem(modrm_byte, pop_count, slow_helper, src),
        final(ctx)@.wf(),
{
    reveal(Ctx::fcom_mem);
    if !ctx.st.env.fpu_relaxed {
        gen_fpu_load(ctx, src, modrm_byte);
        ctx.builder.call(slow_helper, Sig::Fn2I64I32);
        return ;
    }
    let st0_addr: WasmLocal = gen_fpu_st_addr(ctx, 0);
    gen_fpu_relaxed_st_ok(ctx, 0, st0_addr);
    gen_unless(ctx);
    gen_fpu_load(ctx, src, modrm_byte);
    ctx.builder.call(slow_helper, Sig::Fn2I64I32);
    gen_otherwise(ctx);
    gen_compare_mem(ctx, st0_addr, src, modrm_byte);
    gen_fpu_relaxed_pop_n(ctx, pop_count);
    ctx.builder.block_end();
    ctx.builder.free_local(st0_addr);
}

/// Compares `ST(0)` with a 32-bit float in memory.
pub fn gen_fpu_relaxed_fcom_m32(
    ctx: &mut JitContext,
    modrm_byte: ModrmByte,
    pop_count: u32,
    slow_helper: &'static str,
)
    requires
        old(ctx)@.wf(),
        modrm_byte.wf(),
    ensures
        final(ctx)@ == old(ctx)@.fcom_mem(modrm_byte, pop_count, slow_helper, FpuMemSrc::M32),
        final(ctx)@.wf(),
{
    gen_fpu_relaxed_fcom_mem(ctx, modrm_byte, pop_count, slow_helper, FpuMemSrc::M32);
}

/// Compares `ST(0)` with a 64-bit float in memory.
pub fn gen_fpu_relaxed_fcom_m64(
    ctx: &mut JitContext,
    modrm_byte: ModrmByte,
    pop_count: u32,
    slow_helper: &'static str,
)
    requires
        old(ctx)@.wf(),
        modrm_byte.wf(),
    ensures
        final(ctx)@ == old(ctx)@.fcom_mem(modrm_byte, pop_count, slow_helper, FpuMemSrc::M64),
        final(ctx)@.wf(),
{
    gen_fpu_relaxed_fcom_mem(ctx, modrm_byte, pop_count, slow_helper, FpuMemSrc::M64);
}

/// Compares `ST(0)` with a 16-bit integer in memory.
pub fn gen_fpu_relaxed_fcom_i16(
    ctx: &mut JitContext,
    modrm_byte: ModrmByte,
    pop_count: u32,
    slow_helper: &'static str,
)
    requires
        old(ctx)@.wf(),
        modrm_byte.wf(),
    ensures
        final(ctx)@ == old(ctx)@.fcom_mem(modrm_byte, pop_count, slow_helper, FpuMemSrc::I16),
        final(ctx)@.wf(),
{
    gen_fpu_relaxed_fcom_mem(ctx, modrm_byte, pop_count, slow_helper, FpuMemSrc::I16);
}

/// Compares `ST(0)` with a 32-bit integer in memory.
pub fn gen_fpu_relaxed_fcom_i32(
    ctx: &mut JitContext,
    modrm_byte: ModrmByte,
    pop_count: u32,
    slow_helper: &'static str,
)
    requires
        old(ctx)@.wf(),
        modrm_byte.wf(),
    ensures
        final(ctx)@ == old(ctx)@.fcom_mem(modrm_byte, pop_count, slow_helper, FpuMemSrc::I32),
        final(ctx)@.wf(),
{
    gen_fpu_relaxed_fcom_mem(ctx, modrm_byte, pop_count, slow_helper, FpuMemSrc::I32);
}

fn gen_two_addrs(ctx: &mut JitContext, i: u32) -> (r: (WasmLocal, WasmLocal))
    requires
        old(ctx)@.wf(),
        i < 8,
    ensures
        ({
            let st0 = old(ctx)@.e.next_i32();
            let c = old(ctx)@.st_addr(0);
            let sti = c.e.next_i32();
            &&& r.0.0 == st0
            &&& r.1.0 == sti
            &&& final(ctx)@ == c.st_addr(i).both_ok(st0, i, sti).unless()
        }),
        final(ctx)@.wf(),
{
    let st0_addr: WasmLocal = gen_fpu_st_addr(ctx, 0);
    let sti_addr: WasmLocal = gen_fpu_st_addr(ctx, i);
    gen_both_ok(ctx, st0_addr, i, sti_addr);
    gen_unless(ctx);
    (st0_addr, sti_addr)
}

/// Compares `ST(0)` with `ST(i)` without raising an exception for quiet values.
pub fn gen_fpu_relaxed_fucom_sti(
    ctx: &mut JitContext,
    i: u32,
    pop_count: u32,
    slow_helper: &'static str,
)
    requires
        old(ctx)@.wf(),
        i < 8,
    ensures
        final(ctx)@ == old(ctx)@.compare_or_call(
            i,
            E::C(i as i32).call(slow_helper, Sig::Fn1),
            false,
            pop_count,
        ),
        final(ctx)@.wf(),
{
    reveal(Ctx::compare_or_call);
    if !ctx.st.env.fpu_relaxed {
        gen_fn1_const(&mut ctx.builder, slow_helper, i);
        return ;
    }
    let (st0_addr, sti_addr): (WasmLocal, WasmLocal) = gen_two_addrs(ctx, i);
    gen_fn1_const(&mut ctx.builder, slow_helper, i);
    gen_compare_inline(ctx, st0_addr, i, sti_addr, false, pop_count);
}

/// Compares `ST(0)` with `ST(1)` and pops both.
pub fn gen_fpu_relaxed_fucompp(ctx: &mut JitContext)
    requires
        old(ctx)@.wf(),
    ensures
        final(ctx)@ == old(ctx)@.compare_or_call(
            1,
            E::Nothing.call("fpu_fucompp", Sig::Fn0),
            false,
            2,
        ),
        final(ctx)@.wf(),
{
    reveal(Ctx::compare_or_call);
    if !ctx.st.env.fpu_relaxed {
        ctx.builder.call("fpu_fucompp", Sig::Fn0);
        return ;
    }
    let (st0_addr, st1_addr): (WasmLocal, WasmLocal) = gen_two_addrs(ctx, 1);
    ctx.builder.call("fpu_fucompp", Sig::Fn0);
    gen_compare_inline(ctx, st0_addr, 1, st1_addr, false, 2);
}

/// Compares `ST(0)` with `ST(i)` into the status flags.
pub fn gen_fpu_relaxed_fcomi(ctx: &mut JitContext, i: u32, pop: bool, slow_helper: &'static str)
    requires
        old(ctx)@.wf(),
        i < 8,
    ensures
        final(ctx)@ == old(ctx)@.compare_or_call(
            i,
            E::C(i as i32).call(slow_helper, Sig::Fn1),
            true,
            if pop {
                1
            } else {
                0
            },
        ),
        final(ctx)@.wf(),
{
    reveal(Ctx::compare_or_call);
    if !ctx.st.env.fpu_relaxed {
        gen_fn1_const(&mut ctx.builder, slow_helper, i);
        return ;
    }
    let (st0_addr, sti_addr): (WasmLocal, WasmLocal) = gen_two_addrs(ctx, i);
    gen_fn1_const(&mut ctx.builder, slow_helper, i);
    gen_compare_inline(
        ctx,
        st0_addr,
        i,
        sti_addr,
        true,
        if pop {
            1
        } else {
            0
        },
    );
}

} // verus!
