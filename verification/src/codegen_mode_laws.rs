//! Code that is the same whether x87 registers may hold doubles or not.
use vstd::prelude::*;
use crate::codegen_mem::BitSize;
use crate::cpu_state::AT_SSE_SCRATCH;
use crate::jit_context::{CodegenEnv, Ctx, UnitState};
use crate::modrm::ModrmByte;
use crate::wasm::{Bin, Emit, Label, Op, Sig, E};

verus! {

/// The context where registers may hold doubles, or not.
#[verifier::opaque]
pub open spec fn in_mode(c: Ctx, relaxed: bool) -> Ctx {
    Ctx {
        st: UnitState { env: CodegenEnv { fpu_relaxed: relaxed, ..c.st.env }, ..c.st },
        ..c
    }
}

proof fn mode_on(c: Ctx, relaxed: bool, e: Emit)
    ensures
        in_mode(c, relaxed).on(e) == in_mode(c.on(e), relaxed),
        in_mode(c, relaxed).e == c.e,
        c.on(c.e) == c,
{
    reveal(in_mode);
}

proof fn same_cached_entry(c: Ctx, relaxed: bool, a: usize, entry: usize, page: usize, bits: BitSize)
    ensures
        in_mode(c, relaxed).cached_entry(a, entry, page, bits) == c.cached_entry(
            a,
            entry,
            page,
            bits,
        ),
{
    reveal(in_mode);
    reveal(Ctx::cached_entry);
    reveal(Ctx::read_cache_event);
}

proof fn same_direct_read(
    c: Ctx,
    relaxed: bool,
    a: usize,
    entry: usize,
    page: usize,
    bits: BitSize,
    cont: Label,
)
    ensures
        in_mode(c, relaxed).direct_read(a, entry, page, bits, cont) == c.direct_read(
            a,
            entry,
            page,
            bits,
            cont,
        ),
{
    reveal(in_mode);
    reveal(Ctx::direct_read);
    reveal(Ctx::read_cache_event);
}

proof fn same_asked(c: Ctx, relaxed: bool, a: usize, entry: usize, bits: BitSize)
    ensures
        in_mode(c, relaxed).ask_read_cache(a, entry, bits) == c.ask_read_cache(a, entry, bits),
        in_mode(c, relaxed).page_local(entry) == c.page_local(entry),
{
    let e = c.e.set_new(E::L(a).binc(Bin::ShrU, 12));
    mode_on(c, relaxed, e);
    assert(in_mode(c, relaxed).st.env.read_tlb_cache == c.st.env.read_tlb_cache) by {
        reveal(in_mode);
    }
    reveal(Ctx::ask_read_cache);
    same_cached_entry(c.on(e), relaxed, a, entry, c.page_local(entry), bits);
}

proof fn same_translate(c: Ctx, relaxed: bool, a: usize, entry: usize, bits: BitSize)
    ensures
        in_mode(c, relaxed).translate_read(a, entry, bits) == c.translate_read(a, entry, bits),
{
    let d = in_mode(c, relaxed);
    reveal(Ctx::translate_read);
    let page = c.page_local(entry);
    same_asked(c, relaxed, a, entry, bits);
    let e1 = c.ask_read_cache(a, entry, bits);
    mode_on(c, relaxed, e1.block());
    same_direct_read(c.on(e1.block()), relaxed, a, entry, page, bits, e1.label());
    assert(d.here() == c.here() && d.st.env.read_tlb_cache == c.st.env.read_tlb_cache
        && d.st.start_of_current_instruction == c.st.start_of_current_instruction
        && d.st.exit_with_fault_label == c.st.exit_with_fault_label) by {
        reveal(in_mode);
    }
}

proof fn same_load(c: Ctx, relaxed: bool, bits: BitSize, a: usize, to: u32)
    ensures
        in_mode(c, relaxed).translated_load(bits, a, to) == c.translated_load(bits, a, to),
{
    let d = in_mode(c, relaxed);
    reveal(Ctx::translated_load);
    let e = c.e.set_new(E::C(0));
    mode_on(c, relaxed, e);
    same_translate(c.on(e), relaxed, a, c.e.next_i32(), bits);
    assert(d.perm_probed() == c.perm_probed() && d.st.perm_map_off == c.st.perm_map_off) by {
        reveal(in_mode);
    }
}

proof fn same_slots(c: Ctx, relaxed: bool)
    ensures
        in_mode(c, relaxed).read_cache_slot() == in_mode(c.read_cache_slot(), relaxed),
        in_mode(c, relaxed).perm_slot() == in_mode(c.perm_slot(), relaxed),
        in_mode(c, relaxed).perm_probed() == c.perm_probed(),
        in_mode(c, relaxed).st.perm_map_off == c.st.perm_map_off,
{
    reveal(in_mode);
}

proof fn same_ask(c: Ctx, relaxed: bool, a: usize, bits: BitSize, off: usize)
    ensures
        in_mode(c, relaxed).perm_asked(a, bits, off) == c.perm_asked(a, bits, off),
{
    reveal(in_mode);
    reveal(Ctx::perm_asked);
}

proof fn same_probe(c: Ctx, relaxed: bool, a: usize, bits: BitSize)
    ensures
        in_mode(c, relaxed).perm_probe(a, bits) == in_mode(c.perm_probe(a, bits), relaxed),
{
    same_slots(c, relaxed);
    let c2 = c.perm_slot();
    same_slots(c2, relaxed);
    let off = (c2.st.perm_map_off->0).0;
    same_ask(c2, relaxed, a, bits, off);
    mode_on(c2, relaxed, c2.perm_asked(a, bits, off));
}

proof fn same_read(c: Ctx, relaxed: bool, bits: BitSize, a: usize, to: u32)
    ensures
        in_mode(c, relaxed).safe_read(bits, a, to) == in_mode(c.safe_read(bits, a, to), relaxed),
{
    reveal(Ctx::safe_read);
    same_slots(c, relaxed);
    let c1 = c.read_cache_slot();
    same_probe(c1, relaxed, a, bits);
    let c3 = c1.perm_probe(a, bits);
    same_load(c3, relaxed, bits, a, to);
    mode_on(c3, relaxed, c3.translated_load(bits, a, to));
}

proof fn same_address(c: Ctx, relaxed: bool, m: ModrmByte)
    ensures
        in_mode(c, relaxed).lone_register(m) == c.lone_register(m),
        in_mode(c, relaxed).address(m, 0) == c.address(m, 0),
        in_mode(c, relaxed).st.regs == c.st.regs,
{
    reveal(in_mode);
}

proof fn same_operand(c: Ctx, relaxed: bool, bits: BitSize, m: ModrmByte, to: u32)
    ensures
        in_mode(c, relaxed).read_operand(bits, m, to) == in_mode(
            c.read_operand(bits, m, to),
            relaxed,
        ),
{
    reveal(Ctx::read_operand);
    same_address(c, relaxed, m);
    mode_on(c, relaxed, c.e.set_new(c.address(m, 0)));
    let (c2, a) = c.resolved(m);
    same_read(c2, relaxed, bits, a, to);
    let c3 = c2.safe_read(bits, a, to);
    same_address(c3, relaxed, m);
    mode_on(c3, relaxed, c3.e.give_i32(a));
}

/// A 64-bit integer is loaded by the same code whether registers may hold doubles or not: a guest
/// read, one call of the helper that converts it, and loads of the two parts of the 80-bit value.
pub proof fn law_integers_load_alike_in_both_modes(c: Ctx, relaxed: bool, m: ModrmByte)
    ensures
        in_mode(c, relaxed).fpu_read_i64(m) == in_mode(c.fpu_read_i64(m), relaxed),
        in_mode(c, relaxed).fpu_read_i64(m).e == c.fpu_read_i64(m).e,
        c.fpu_read_i64(m) == c.val(E::C(AT_SSE_SCRATCH as i32)).read_operand(
            BitSize::QWORD,
            m,
            0,
        ).emit(Op::Call("i64_to_f80_jit", Sig::Fn2I32I64)).val(E::scratch80()),
{
    reveal(Ctx::fpu_read_i64);
    let e1 = c.e.val(E::C(AT_SSE_SCRATCH as i32));
    mode_on(c, relaxed, e1);
    let c1 = c.on(e1);
    same_operand(c1, relaxed, BitSize::QWORD, m, 0);
    let c2 = c1.read_operand(BitSize::QWORD, m, 0);
    let e2 = c2.e.op(Op::Call("i64_to_f80_jit", Sig::Fn2I32I64));
    mode_on(c2, relaxed, e2);
    let c3 = c2.on(e2);
    let e3 = c3.e.val(E::scratch80());
    mode_on(c3, relaxed, e3);
    mode_on(c3.on(e3), relaxed, e3);
}

} // verus!
