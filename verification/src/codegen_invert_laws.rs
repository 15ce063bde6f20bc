//! The code of a condition and the code of its inverse: exactly one of the two leaves zero.
use vstd::prelude::*;
use crate::codegen_cond::sign_bit;
use crate::codegen_cond_laws;
use crate::cpu_state::{Stat, FLAG_CARRY, FLAG_SIGN, FLAG_ZERO};
use crate::jit_context::{Ctx, Instruction, InstructionOperand};
use crate::wasm::{Bin, Emit, FlagSlot, Op, Sig, E};
use crate::wasm_run;
use crate::wasm_run::Words;

verus! {

/// One of two values is zero and the other is not.
spec fn are_inverse(t: Words, u: Words) -> bool {
    t.stack.last() != 0 <==> u.stack.last() == 0
}

/// Relations of which exactly one holds.
spec fn are_complements(x: Bin, y: Bin) -> bool {
    ||| x is Eq && y is Ne
    ||| x is LtU && y is GeU
    ||| x is LeU && y is GtU
    ||| x is LtS && y is GeS
    ||| x is LeS && y is GtS
}

proof fn invert_bin(plain: Bin, inverse: Bin, x: E, y: E, s: Words)
    requires
        are_complements(plain, inverse),
    ensures
        are_inverse(x.bin(plain, y).done(s), x.bin(inverse, y).done(s)),
{
    reveal_with_fuel(E::done, 2);
}

proof fn invert_eqz(x: E, s: Words)
    ensures
        are_inverse(x.eqz_if(false).done(s), x.eqz_if(true).done(s)),
        are_inverse(x.eqz_if(true).done(s), x.eqz_if(false).done(s)),
{
    reveal(E::eqz_if);
    reveal_with_fuel(E::done, 2);
}

/// The code that an event of the profiler adds, where it counts.
proof fn lead_event(e: Emit, stat: Stat, s: Words) -> (t: Words)
    ensures
        wasm_run::leads(e.code, e.profile(stat).code, s, t),
        e.profile(stat) == (Emit { code: e.profile(stat).code, ..e }),
{
    reveal(Emit::profile);
    if e.opt.profiler {
        let address = stat.address(e.opt.stat_base);
        wasm_run::lemma_count(e, address, s);
        s.counted(address)
    } else {
        lemma_stay(e, s);
        s
    }
}

proof fn lemma_stay(e: Emit, s: Words)
    ensures
        wasm_run::leads(e.code, e.code, s, s),
{
    wasm_run::law_expressions_run(E::Top, e.code, s);
    reveal_with_fuel(E::code, 1);
}

proof fn lead_value(e: Emit, g: Emit, x: E, s: Words)
    requires
        codegen_cond_laws::is_value(e, g, x),
    ensures
        wasm_run::leads(e.code, g.code, s, x.done(s)),
{
    wasm_run::law_expressions_run(x, e.code, s);
}

proof fn lemma_plain_val(e: Emit, x: E)
    ensures
        codegen_cond_laws::is_value(e, e.val(x), x),
{
    reveal(Emit::val);
}

/// Code that leads on by an expression.
proof fn lead_val(c: Seq<Op>, e: Emit, x: E, s: Words, t: Words)
    requires
        wasm_run::leads(c, e.code, s, t),
    ensures
        wasm_run::leads(c, e.val(x).code, s, x.done(t)),
{
    lemma_plain_val(e, x);
    lead_value(e, e.val(x), x, t);
    wasm_run::lemma_leads_on(c, e.code, e.val(x).code, s, t, x.done(t));
}

proof fn lead_op(c: Seq<Op>, e: Emit, b: Bin, s: Words, t: Words)
    requires
        wasm_run::leads(c, e.code, s, t),
    ensures
        wasm_run::leads(c, e.op(Op::Bin(b)).code, s, wasm_run::step(Op::Bin(b), t)),
{
    reveal(Emit::op);
    wasm_run::lemma_op(e.code, Op::Bin(b), t);
    wasm_run::lemma_leads_on(
        c,
        e.code,
        e.op(Op::Bin(b)).code,
        s,
        t,
        wasm_run::step(Op::Bin(b), t),
    );
}

/// Two pieces of code that lead to inverse values.
spec fn give_inverses(c: Seq<Op>, x: Emit, y: Emit, s: Words) -> bool {
    exists|t: Words, u: Words|
        #![trigger wasm_run::leads(c, x.code, s, t), wasm_run::leads(c, y.code, s, u)]
        wasm_run::leads(c, x.code, s, t) && wasm_run::leads(c, y.code, s, u) && are_inverse(t, u)
}

/// The same from further back.
proof fn invert_from(c: Seq<Op>, e: Emit, x: Emit, y: Emit, s: Words, t: Words)
    requires
        wasm_run::leads(c, e.code, s, t),
        give_inverses(e.code, x, y, t),
    ensures
        give_inverses(c, x, y, s),
{
    let (v, w) = choose|v: Words, w: Words|
        #![trigger wasm_run::leads(e.code, x.code, t, v), wasm_run::leads(e.code, y.code, t, w)]
        wasm_run::leads(e.code, x.code, t, v) && wasm_run::leads(e.code, y.code, t, w)
            && are_inverse(v, w);
    wasm_run::lemma_leads_on(c, e.code, x.code, s, t, v);
    wasm_run::lemma_leads_on(c, e.code, y.code, s, t, w);
}

/// Code and the same code with its value inverted.
proof fn invert_last(c: Seq<Op>, e: Emit, s: Words, t: Words)
    requires
        wasm_run::leads(c, e.code, s, t),
    ensures
        give_inverses(c, e.val(E::Top.eqz_if(false)), e.val(E::Top.eqz_if(true)), s),
{
    lead_val(c, e, E::Top.eqz_if(false), s, t);
    lead_val(c, e, E::Top.eqz_if(true), s, t);
    invert_eqz(E::Top, t);
}

proof fn invert_values(e: Emit, x: Emit, y: Emit, ex: E, ey: E, s: Words)
    requires
        codegen_cond_laws::is_value(e, x, ex),
        codegen_cond_laws::is_value(e, y, ey),
        are_inverse(ex.done(s), ey.done(s)),
    ensures
        give_inverses(e.code, x, y, s),
{
    lead_value(e, x, ex, s);
    lead_value(e, y, ey, s);
}

/// The code for the zero flag, once its event is counted.
spec fn zf_from(e: Emit, p: Instruction) -> Emit {
    if p is Other {
        e.profile(Stat::ConditionUnoptimised)
    } else {
        e.profile(Stat::ConditionOptimised)
    }
}

spec fn cf_from(e: Emit, p: Instruction) -> Emit {
    match p {
        Instruction::Sub { is_dec, .. } => if is_dec {
            e
        } else {
            e.profile(Stat::ConditionOptimised)
        },
        Instruction::Add { .. } => e,
        Instruction::Other => e.profile(Stat::ConditionUnoptimised),
        _ => e.profile(Stat::ConditionOptimised),
    }
}

spec fn sf_from(e: Emit, p: Instruction) -> Emit {
    match p.opsize() {
        Some(_) => e.profile(Stat::ConditionOptimised),
        None => e.profile(Stat::ConditionUnoptimised),
    }
}

spec fn of_from(e: Emit, p: Instruction) -> Emit {
    if p is Other {
        e.profile(Stat::ConditionUnoptimised)
    } else {
        e.profile(Stat::ConditionOptimised)
    }
}

/// The code of a flag starts behind its event, in a setting that is otherwise the same.
proof fn lead_flag(e: Emit, g: Emit, s: Words) -> (t: Words)
    requires
        g == e || g == e.profile(Stat::ConditionOptimised) || g == e.profile(
            Stat::ConditionUnoptimised,
        ),
    ensures
        wasm_run::leads(e.code, g.code, s, t),
        g == (Emit { code: g.code, ..e }),
{
    lemma_stay(e, s);
    let a = lead_event(e, Stat::ConditionOptimised, s);
    let b = lead_event(e, Stat::ConditionUnoptimised, s);
    if g == e {
        s
    } else if g == e.profile(Stat::ConditionOptimised) {
        a
    } else {
        b
    }
}

proof fn code_of_zf(e: Emit, p: Instruction, negate: bool)
    ensures
        codegen_cond_laws::is_value(
            zf_from(e, p),
            e.zf(p, negate),
            codegen_cond_laws::zf_expression(zf_from(e, p), p, negate),
        ),
{
    let s = arbitrary();
    let t = lead_flag(e, zf_from(e, p), s);
    reveal(Emit::zf);
    reveal(Emit::zf_lazy);
    reveal(Emit::val);
    reveal(Emit::take_i32);
    reveal(Emit::give_i32);
}

proof fn code_of_cf(e: Emit, p: Instruction, negate: bool)
    ensures
        codegen_cond_laws::is_value(
            cf_from(e, p),
            e.cf(p, negate),
            codegen_cond_laws::cf_expression(cf_from(e, p), p, negate),
        ),
{
    let s = arbitrary();
    let t = lead_flag(e, cf_from(e, p), s);
    reveal(Emit::cf);
    reveal(Emit::cf_lazy);
    reveal(Emit::val);
    reveal(Emit::take_i32);
    reveal(Emit::give_i32);
}

proof fn code_of_sf(e: Emit, p: Instruction, negate: bool)
    ensures
        codegen_cond_laws::is_value(
            sf_from(e, p),
            e.sf(p, negate),
            codegen_cond_laws::sf_expression(sf_from(e, p), p, negate),
        ),
{
    let s = arbitrary();
    let t = lead_flag(e, sf_from(e, p), s);
    reveal(Emit::sf);
    reveal(Emit::val);
}

proof fn code_of_of(e: Emit, p: Instruction)
    ensures
        codegen_cond_laws::is_value(
            of_from(e, p),
            e.of(p),
            codegen_cond_laws::of_expression(of_from(e, p), p),
        ),
{
    let s = arbitrary();
    let t = lead_flag(e, of_from(e, p), s);
    reveal(Emit::of);
    reveal(Emit::of_lazy);
    reveal(Emit::val);
    reveal(Emit::take_i32);
    reveal(Emit::give_i32);
}

/// Code that leads on by a flag.
proof fn lead_zf(c: Seq<Op>, e: Emit, p: Instruction, s: Words, t: Words) -> (u: Words)
    requires
        wasm_run::leads(c, e.code, s, t),
    ensures
        wasm_run::leads(c, e.zf(p, false).code, s, u),
{
    let g = zf_from(e, p);
    let x = codegen_cond_laws::zf_expression(g, p, false);
    let v = lead_flag(e, g, t);
    code_of_zf(e, p, false);
    lead_value(g, e.zf(p, false), x, v);
    wasm_run::lemma_leads_on(c, e.code, g.code, s, t, v);
    wasm_run::lemma_leads_on(c, g.code, e.zf(p, false).code, s, v, x.done(v));
    x.done(v)
}

proof fn lead_cf(c: Seq<Op>, e: Emit, p: Instruction, s: Words, t: Words) -> (u: Words)
    requires
        wasm_run::leads(c, e.code, s, t),
    ensures
        wasm_run::leads(c, e.cf(p, false).code, s, u),
{
    let g = cf_from(e, p);
    let x = codegen_cond_laws::cf_expression(g, p, false);
    let v = lead_flag(e, g, t);
    code_of_cf(e, p, false);
    lead_value(g, e.cf(p, false), x, v);
    wasm_run::lemma_leads_on(c, e.code, g.code, s, t, v);
    wasm_run::lemma_leads_on(c, g.code, e.cf(p, false).code, s, v, x.done(v));
    x.done(v)
}

proof fn lead_sf(c: Seq<Op>, e: Emit, p: Instruction, s: Words, t: Words) -> (u: Words)
    requires
        wasm_run::leads(c, e.code, s, t),
    ensures
        wasm_run::leads(c, e.sf(p, false).code, s, u),
{
    let g = sf_from(e, p);
    let x = codegen_cond_laws::sf_expression(g, p, false);
    let v = lead_flag(e, g, t);
    code_of_sf(e, p, false);
    lead_value(g, e.sf(p, false), x, v);
    wasm_run::lemma_leads_on(c, e.code, g.code, s, t, v);
    wasm_run::lemma_leads_on(c, g.code, e.sf(p, false).code, s, v, x.done(v));
    x.done(v)
}

proof fn lead_of(c: Seq<Op>, e: Emit, p: Instruction, s: Words, t: Words) -> (u: Words)
    requires
        wasm_run::leads(c, e.code, s, t),
    ensures
        wasm_run::leads(c, e.of(p).code, s, u),
{
    let g = of_from(e, p);
    let x = codegen_cond_laws::of_expression(g, p);
    let v = lead_flag(e, g, t);
    code_of_of(e, p);
    lead_value(g, e.of(p), x, v);
    wasm_run::lemma_leads_on(c, e.code, g.code, s, t, v);
    wasm_run::lemma_leads_on(c, g.code, e.of(p).code, s, v, x.done(v));
    x.done(v)
}

proof fn zf_values(e: Emit, p: Instruction, s: Words)
    ensures
        are_inverse(
            codegen_cond_laws::zf_expression(e, p, false).done(s),
            codegen_cond_laws::zf_expression(e, p, true).done(s),
        ),
{
    reveal(E::zf);
    let f = e.flag_locals;
    invert_eqz(E::last_result(f, p), s);
    invert_eqz(E::flag_low(f, FlagSlot::LastResult, false), s);
    invert_eqz(E::flag_low(f, FlagSlot::LastResult, true), s);
    invert_eqz(E::Top, s);
    match p {
        Instruction::Cmp { dest, source, opsize } => match (dest.whole(opsize), source) {
            (Some(l), InstructionOperand::WasmLocal(r)) => {
                invert_bin(Bin::Eq, Bin::Ne, E::L(l.0), E::L(r.0), s);
            },
            (Some(l), InstructionOperand::Immediate(i)) => {
                invert_eqz(E::L(l.0), s);
                invert_bin(Bin::Eq, Bin::Ne, E::L(l.0), E::C(i), s);
            },
            _ => {},
        },
        Instruction::Other => {
            let t = e.next_i32();
            invert_eqz(
                E::flag_is_lazy(f, FLAG_ZERO).choose_i32(
                    E::flag(f, FlagSlot::LastResult).tee(t).binc(Bin::Xor, -1i32).bin(
                        Bin::And,
                        E::L(t).binc(Bin::Sub, 1),
                    ).at_opsize(f),
                    E::flag_bit(f, FLAG_ZERO),
                ),
                s,
            );
        },
        _ => {},
    }
}

proof fn cf_values(e: Emit, p: Instruction, s: Words)
    ensures
        are_inverse(
            codegen_cond_laws::cf_expression(e, p, false).done(s),
            codegen_cond_laws::cf_expression(e, p, true).done(s),
        ),
{
    let f = e.flag_locals;
    invert_eqz(E::flag_bit(f, FLAG_CARRY), s);
    match p {
        Instruction::Cmp { source, opsize, .. } => {
            invert_bin(
                Bin::LtU,
                Bin::GeU,
                E::last_op1(f, p),
                E::operand_or(opsize, source, E::last_result(f, p)),
                s,
            );
        },
        Instruction::Sub { source, opsize, .. } => {
            invert_bin(
                Bin::LtU,
                Bin::GeU,
                E::last_op1(f, p),
                E::operand_or(opsize, source, E::last_result(f, p)),
                s,
            );
        },
        Instruction::Add { source, opsize, .. } => {
            invert_bin(
                Bin::LtU,
                Bin::GeU,
                E::last_result(f, p),
                E::operand_or(opsize, source, E::last_op1(f, p)),
                s,
            );
        },
        Instruction::Other => {
            let t = e.next_i32();
            invert_eqz(
                E::flag(f, FlagSlot::FlagsChanged).tee(t).and(FLAG_CARRY).choose_i32(
                    E::L(t).binc(Bin::ShrS, 31).keep(t).both(
                        E::flag(f, FlagSlot::LastResult).bin(Bin::Xor, E::L(t)).bin(
                            Bin::LtU,
                            E::flag(f, FlagSlot::LastOp1).bin(Bin::Xor, E::L(t)),
                        ),
                    ),
                    E::flag_bit(f, FLAG_CARRY),
                ),
                s,
            );
        },
        _ => {},
    }
}

proof fn sf_values(e: Emit, p: Instruction, s: Words)
    ensures
        are_inverse(
            codegen_cond_laws::sf_expression(e, p, false).done(s),
            codegen_cond_laws::sf_expression(e, p, true).done(s),
        ),
{
    let f = e.flag_locals;
    match p.opsize() {
        Some(opsize) => {
            invert_bin(Bin::LtS, Bin::GeS, E::last_result(f, p), E::C(0), s);
            invert_eqz(E::last_result(f, p).and(sign_bit(opsize)), s);
        },
        None => {
            invert_eqz(
                E::flag_is_lazy(f, FLAG_SIGN).choose_i32(
                    E::flag(f, FlagSlot::LastResult).at_opsize(f),
                    E::flag_bit(f, FLAG_SIGN),
                ),
                s,
            );
        },
    }
}

proof fn invert_zf(e: Emit, p: Instruction, s: Words)
    ensures
        give_inverses(e.code, e.zf(p, false), e.zf(p, true), s),
{
    let g = zf_from(e, p);
    let t = lead_flag(e, g, s);
    code_of_zf(e, p, false);
    code_of_zf(e, p, true);
    zf_values(g, p, t);
    invert_values(
        g,
        e.zf(p, false),
        e.zf(p, true),
        codegen_cond_laws::zf_expression(g, p, false),
        codegen_cond_laws::zf_expression(g, p, true),
        t,
    );
    invert_from(e.code, g, e.zf(p, false), e.zf(p, true), s, t);
}

proof fn invert_cf(e: Emit, p: Instruction, s: Words)
    ensures
        give_inverses(e.code, e.cf(p, false), e.cf(p, true), s),
{
    let g = cf_from(e, p);
    let t = lead_flag(e, g, s);
    code_of_cf(e, p, false);
    code_of_cf(e, p, true);
    cf_values(g, p, t);
    invert_values(
        g,
        e.cf(p, false),
        e.cf(p, true),
        codegen_cond_laws::cf_expression(g, p, false),
        codegen_cond_laws::cf_expression(g, p, true),
        t,
    );
    invert_from(e.code, g, e.cf(p, false), e.cf(p, true), s, t);
}

proof fn invert_sf(e: Emit, p: Instruction, s: Words)
    ensures
        give_inverses(e.code, e.sf(p, false), e.sf(p, true), s),
{
    let g = sf_from(e, p);
    let t = lead_flag(e, g, s);
    code_of_sf(e, p, false);
    code_of_sf(e, p, true);
    sf_values(g, p, t);
    invert_values(
        g,
        e.sf(p, false),
        e.sf(p, true),
        codegen_cond_laws::sf_expression(g, p, false),
        codegen_cond_laws::sf_expression(g, p, true),
        t,
    );
    invert_from(e.code, g, e.sf(p, false), e.sf(p, true), s, t);
}

proof fn invert_of(e: Emit, p: Instruction, s: Words)
    ensures
        give_inverses(e.code, e.of(p), e.of(p).val(E::Top.eqz()), s),
{
    lemma_stay(e, s);
    let t = lead_of(e.code, e, p, s, s);
    invert_last(e.code, e.of(p), s, t);
    reveal(E::eqz_if);
    reveal(Emit::val);
    reveal_with_fuel(E::code, 1);
    assert(e.of(p).val(E::Top.eqz_if(false)).code == e.of(p).code);
}

proof fn invert_cf_or_zf(e: Emit, p: Instruction, s: Words)
    ensures
        give_inverses(e.code, e.cf_or_zf(p, false), e.cf_or_zf(p, true), s),
{
    lemma_stay(e, s);
    let e1 = e.cf(p, false);
    let e2 = e1.zf(p, false);
    let s1 = lead_cf(e.code, e, p, s, s);
    let s2 = lead_zf(e.code, e1, p, s, s1);
    lead_op(e.code, e2, Bin::Or, s, s2);
    invert_last(e.code, e2.op(Op::Bin(Bin::Or)), s, wasm_run::step(Op::Bin(Bin::Or), s2));
}

/// A comparison and the inverse one, behind an event.
proof fn invert_compared(e: Emit, stat: Stat, plain: Bin, inverse: Bin, x: E, y: E, s: Words)
    requires
        are_complements(plain, inverse),
    ensures
        give_inverses(
            e.code,
            e.profile(stat).val(x.bin(plain, y)),
            e.profile(stat).val(x.bin(inverse, y)),
            s,
        ),
{
    let g = e.profile(stat);
    let t = lead_event(e, stat, s);
    invert_bin(plain, inverse, x, y, t);
    lemma_plain_val(g, x.bin(plain, y));
    lemma_plain_val(g, x.bin(inverse, y));
    invert_values(
        g,
        g.val(x.bin(plain, y)),
        g.val(x.bin(inverse, y)),
        x.bin(plain, y),
        x.bin(inverse, y),
        t,
    );
    invert_from(e.code, g, g.val(x.bin(plain, y)), g.val(x.bin(inverse, y)), s, t);
}

proof fn invert_be(e: Emit, p: Instruction, s: Words)
    ensures
        give_inverses(e.code, e.be(p, false), e.be(p, true), s),
{
    reveal(Emit::be);
    let f = e.flag_locals;
    let fast = e.profile(Stat::ConditionOptimised);
    let slow = e.profile(Stat::ConditionUnoptimised);
    let t = lead_event(e, Stat::ConditionOptimised, s);
    let u = lead_event(e, Stat::ConditionUnoptimised, s);
    match p {
        Instruction::Cmp { dest, source, opsize } => {
            invert_compared(
                e,
                Stat::ConditionOptimised,
                Bin::LeU,
                Bin::GtU,
                E::unsigned_left(f, p, dest, opsize),
                E::unsigned_right(f, p, source, opsize),
                s,
            );
        },
        Instruction::Sub { source, opsize, is_dec, .. } => {
            if is_dec {
                invert_cf_or_zf(fast, p, t);
                invert_from(e.code, fast, fast.cf_or_zf(p, false), fast.cf_or_zf(p, true), s, t);
            } else {
                invert_compared(
                    e,
                    Stat::ConditionOptimised,
                    Bin::LeU,
                    Bin::GtU,
                    E::last_op1(f, p),
                    E::operand_or(opsize, source, E::last_op2(f, p).masked(opsize)),
                    s,
                );
            }
        },
        Instruction::Bitwise { .. } => {
            invert_zf(fast, p, t);
            invert_from(e.code, fast, fast.zf(p, false), fast.zf(p, true), s, t);
        },
        Instruction::Add { .. } => {
            invert_cf_or_zf(fast, p, t);
            invert_from(e.code, fast, fast.cf_or_zf(p, false), fast.cf_or_zf(p, true), s, t);
        },
        _ => {
            invert_cf_or_zf(slow, p, u);
            invert_from(e.code, slow, slow.cf_or_zf(p, false), slow.cf_or_zf(p, true), s, u);
        },
    }
}

/// The value of a signed comparison after `p`, and of the inverse one.
proof fn invert_signed(e: Emit, p: Instruction, plain: Bin, inverse: Bin, s: Words)
    requires
        p is Cmp || p is Sub,
        are_complements(plain, inverse),
    ensures
        give_inverses(
            e.code,
            e.profile(Stat::ConditionOptimised).val(
                E::compare_signed(e.flag_locals, p, plain),
            ),
            e.profile(Stat::ConditionOptimised).val(
                E::compare_signed(e.flag_locals, p, inverse),
            ),
            s,
        ),
{
    let f = e.flag_locals;
    match p {
        Instruction::Cmp { dest, source, opsize } => {
            invert_compared(
                e,
                Stat::ConditionOptimised,
                plain,
                inverse,
                E::signed_left(f, p, dest, opsize),
                E::signed_right(f, p, source, opsize),
                s,
            );
        },
        Instruction::Sub { source, opsize, .. } => {
            invert_compared(
                e,
                Stat::ConditionOptimised,
                plain,
                inverse,
                E::last_op1(f, p).signed(opsize),
                E::signed_subtrahend(f, p, source, opsize),
                s,
            );
        },
        _ => {},
    }
}

/// The events of a condition without a fast path.
proof fn lead_unoptimised(e: Emit, p: Instruction, after_add: Stat, s: Words) -> (t: Words)
    ensures
        wasm_run::leads(e.code, e.unoptimised(p, after_add).code, s, t),
{
    let g = e.profile(Stat::ConditionUnoptimised);
    let t = lead_event(e, Stat::ConditionUnoptimised, s);
    if p is Add {
        let u = lead_event(g, after_add, t);
        wasm_run::lemma_leads_on(e.code, g.code, g.profile(after_add).code, s, t, u);
        u
    } else {
        t
    }
}

/// The code that `sf_is_not_of` ends, and where it leads.
proof fn lead_sf_xor_of(e: Emit, p: Instruction, s: Words) -> (t: Words)
    ensures
        wasm_run::leads(
            e.code,
            e.sf(p, false).val(E::Top.eqz()).of(p).val(E::Top.eqz()).op(Op::Bin(Bin::Xor)).code,
            s,
            t,
        ),
{
    let e1 = e.sf(p, false);
    let e2 = e1.val(E::Top.eqz());
    let e3 = e2.of(p);
    let e4 = e3.val(E::Top.eqz());
    lemma_stay(e, s);
    let s1 = lead_sf(e.code, e, p, s, s);
    lead_val(e.code, e1, E::Top.eqz(), s, s1);
    let s2 = E::Top.eqz().done(s1);
    let s3 = lead_of(e.code, e2, p, s, s2);
    lead_val(e.code, e3, E::Top.eqz(), s, s3);
    let s4 = E::Top.eqz().done(s3);
    lead_op(e.code, e4, Bin::Xor, s, s4);
    wasm_run::step(Op::Bin(Bin::Xor), s4)
}

proof fn invert_less(e: Emit, p: Instruction, s: Words)
    ensures
        give_inverses(e.code, e.less(p, false), e.less(p, true), s),
{
    reveal(Emit::less);
    let fast = e.profile(Stat::ConditionOptimised);
    if p is Cmp || p is Sub {
        invert_signed(e, p, Bin::LtS, Bin::GeS, s);
    } else if p is Bitwise {
        let t = lead_event(e, Stat::ConditionOptimised, s);
        invert_sf(fast, p, t);
        invert_from(e.code, fast, fast.sf(p, false), fast.sf(p, true), s, t);
    } else {
        let slow = e.unoptimised(p, Stat::ConditionUnoptimisedUnhandledL);
        let t = lead_unoptimised(e, p, Stat::ConditionUnoptimisedUnhandledL, s);
        let u = lead_sf_xor_of(slow, p, t);
        let g = slow.sf(p, false).val(E::Top.eqz()).of(p).val(E::Top.eqz()).op(Op::Bin(Bin::Xor));
        invert_last(slow.code, g, t, u);
        invert_from(
            e.code,
            slow,
            g.val(E::Top.eqz_if(false)),
            g.val(E::Top.eqz_if(true)),
            s,
            t,
        );
    }
}

/// Less or the zero flag, and its inverse.
proof fn invert_less_or_zf(e: Emit, p: Instruction, s: Words)
    ensures
        give_inverses(e.code, e.less_or_zf(p, false), e.less_or_zf(p, true), s),
{
    invert_less(e, p, s);
    let e1 = e.less(p, false);
    let e2 = e1.zf(p, false);
    let s1 = choose|t: Words| wasm_run::leads(e.code, e1.code, s, t);
    let s2 = lead_zf(e.code, e1, p, s, s1);
    lead_op(e.code, e2, Bin::Or, s, s2);
    invert_last(e.code, e2.op(Op::Bin(Bin::Or)), s, wasm_run::step(Op::Bin(Bin::Or), s2));
}

proof fn invert_less_equal(e: Emit, p: Instruction, s: Words)
    ensures
        give_inverses(e.code, e.less_equal(p, false), e.less_equal(p, true), s),
{
    reveal(Emit::less_equal);
    let fast = e.profile(Stat::ConditionOptimised);
    if p is Cmp || p is Sub {
        invert_signed(e, p, Bin::LeS, Bin::GtS, s);
    } else if p is Bitwise {
        let t = lead_event(e, Stat::ConditionOptimised, s);
        invert_less_or_zf(fast, p, t);
        invert_from(e.code, fast, fast.less_or_zf(p, false), fast.less_or_zf(p, true), s, t);
    } else {
        let slow = e.unoptimised(p, Stat::ConditionUnoptimisedUnhandledLe);
        let t = lead_unoptimised(e, p, Stat::ConditionUnoptimisedUnhandledLe, s);
        invert_less_or_zf(slow, p, t);
        invert_from(e.code, slow, slow.less_or_zf(p, false), slow.less_or_zf(p, true), s, t);
    }
}

/// The code of the parity conditions asks a helper, which tells the flag or its inverse.
proof fn lead_parity(e: Emit, helper: &'static str, s: Words) -> (t: Words)
    requires
        helper@ == "test_p"@ || helper@ == "test_np"@,
    ensures
        wasm_run::leads(e.code, e.parity(helper).code, s, t),
        t.stack == s.stack.push(wasm_run::truth(s.parity == (helper@ == "test_p"@))),
{
    reveal_strlit("test_p");
    reveal_strlit("test_np");
    let e1 = e.profile(Stat::ConditionUnoptimised);
    let e2 = e1.profile(Stat::ConditionUnoptimisedPf);
    let s1 = lead_counted(e, Stat::ConditionUnoptimised, s);
    let s2 = lead_counted(e1, Stat::ConditionUnoptimisedPf, s1);
    wasm_run::lemma_leads_on(e.code, e1.code, e2.code, s, s1, s2);
    let op = Op::Call(helper, Sig::Fn0Ret);
    reveal(Emit::op);
    wasm_run::lemma_op(e2.code, op, s2);
    let t = wasm_run::step(op, s2);
    wasm_run::lemma_leads_on(e.code, e2.code, e2.op(op).code, s, s2, t);
    t
}

/// An event of the profiler changes no value and no flag.
proof fn lead_counted(e: Emit, stat: Stat, s: Words) -> (t: Words)
    ensures
        wasm_run::leads(e.code, e.profile(stat).code, s, t),
        t.stack == s.stack,
        t.parity == s.parity,
{
    reveal(Emit::profile);
    if e.opt.profiler {
        let address = stat.address(e.opt.stat_base);
        wasm_run::lemma_count(e, address, s);
        s.counted(address)
    } else {
        lemma_stay(e, s);
        s
    }
}

/// The code of a parity condition leaves one more value on the stack, which is not zero exactly
/// where the flag is set, or for the inverse condition where it is clear.
pub proof fn law_parity_conditions_tell_the_flag(c: Ctx, number: u8, s: Words)
    requires
        number == 10 || number == 11,
    ensures
        ({
            let t = wasm_run::run(
                wasm_run::added(c.e.code, c.flag_condition(number).e.code),
                s,
            );
            &&& t.stack == s.stack.push(t.stack.last())
            &&& t.stack.last() != 0 <==> s.parity == (number == 10)
        }),
{
    reveal(Ctx::flag_condition);
    reveal_strlit("test_p");
    reveal_strlit("test_np");
    assert("test_p"@.len() == 6 && "test_np"@.len() == 7);
    let t = if number == 10 {
        lead_parity(c.e, "test_p", s)
    } else {
        lead_parity(c.e, "test_np", s)
    };
    wasm_run::lemma_ends(c.e.code, c.flag_condition(number).e.code, s, t);
}

proof fn invert_parity(e: Emit, s: Words)
    ensures
        give_inverses(e.code, e.parity("test_p"), e.parity("test_np"), s),
{
    reveal_strlit("test_p");
    reveal_strlit("test_np");
    let t = lead_parity(e, "test_p", s);
    let u = lead_parity(e, "test_np", s);
    assert("test_p"@.len() == 6 && "test_np"@.len() == 7);
    assert(are_inverse(t, u));
}

/// A condition and its inverse: whatever instruction came before, whatever the locals and memory
/// hold, and whether events are counted or not, exactly one of the two leaves zero.
pub proof fn law_conditions_invert(c: Ctx, number: u8, s: Words)
    requires
        number < 16,
        number % 2 == 0,
    ensures
        ({
            let t = wasm_run::run(
                wasm_run::added(c.e.code, c.flag_condition(number).e.code),
                s,
            );
            let u = wasm_run::run(
                wasm_run::added(c.e.code, c.flag_condition((number + 1) as u8).e.code),
                s,
            );
            t.stack.last() != 0 <==> u.stack.last() == 0
        }),
{
    reveal(Ctx::flag_condition);
    let p = c.st.previous_instruction;
    let e = c.e;
    let x = c.flag_condition(number).e;
    let y = c.flag_condition((number + 1) as u8).e;
    if number == 0 {
        invert_of(e, p, s);
    } else if number == 2 {
        invert_cf(e, p, s);
    } else if number == 4 {
        invert_zf(e, p, s);
    } else if number == 6 {
        invert_be(e, p, s);
    } else if number == 8 {
        invert_sf(e, p, s);
    } else if number == 10 {
        invert_parity(e, s);
    } else if number == 12 {
        invert_less(e, p, s);
    } else {
        invert_less_equal(e, p, s);
    }
    assert(give_inverses(e.code, x, y, s));
    let (t, u) = choose|t: Words, u: Words|
        #![trigger wasm_run::leads(e.code, x.code, s, t), wasm_run::leads(e.code, y.code, s, u)]
        wasm_run::leads(e.code, x.code, s, t) && wasm_run::leads(e.code, y.code, s, u)
            && are_inverse(t, u);
    wasm_run::lemma_ends(e.code, x.code, s, t);
    wasm_run::lemma_ends(e.code, y.code, s, u);
}

pub proof fn bits_of_conditions(condition: u8)
    by (bit_vector)
    ensures
        (condition ^ 1) & 0xF0 == condition & 0xF0,
        (condition ^ 1) & 0xF == (if condition & 0xF == 2 * ((condition & 0xF) / 2) {
            (condition & 0xF) + 1
        } else {
            (condition & 0xF) - 1
        }),
        condition & 0xF < 16,
        0xE2u8 ^ 1u8 == 0xE3u8,
        0xE3u8 ^ 1u8 == 0xE2u8,
        0xE2u8 & 0xF0u8 == 0xE0u8,
        0xE3u8 & 0xF0u8 == 0xE0u8,
{
}

/// The code of a negated condition leaves zero exactly where the code of the condition does not,
/// for every opcode with a condition on the flags. Only the low four bits of the opcode count.
pub proof fn law_negated_conditions_invert(c: Ctx, condition: u8, other: u8, s: Words)
    requires
        crate::codegen_cond::is_flag_condition(condition),
        crate::codegen_cond::is_flag_condition(other),
    ensures
        ({
            let t = wasm_run::run(wasm_run::added(c.e.code, c.condition(condition).e.code), s);
            let u = wasm_run::run(
                wasm_run::added(c.e.code, c.condition(condition ^ 1).e.code),
                s,
            );
            t.stack.last() != 0 <==> u.stack.last() == 0
        }),
        condition & 0xF == other & 0xF ==> c.condition(condition) == c.condition(other),
{
    reveal(Ctx::condition);
    bits_of_conditions(condition);
    let n = condition & 0xF;
    if n % 2 == 0 {
        law_conditions_invert(c, n, s);
    } else {
        law_conditions_invert(c, (n - 1) as u8, s);
    }
}

} // verus!
