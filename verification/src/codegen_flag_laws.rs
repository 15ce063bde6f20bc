//! What the code of a condition computes after an instruction that changed the flags: the
//! condition on the flags that the instruction leaves.
use vstd::prelude::*;
use crate::codegen_cond_laws;
use crate::codegen_cond_laws::{
    difference, half, holds, is_size, low, shift, signed_value, size_mask,
};
use crate::cpu_state::{FLAG_CARRY, FLAG_OVERFLOW, OPSIZE_32, OPSIZE_8};
use crate::jit_context::{Ctx, Instruction, InstructionOperand};
use crate::wasm::{Bin, Emit, FlagLocals, FlagSlot, Op, Width, E};
use crate::wasm_run;
use crate::wasm_run::Words;

verus! {

/// The operands of an instruction, its result, and their size.
pub struct Change {
    pub a: u32,
    pub b: u32,
    pub r: u32,
    pub n: i32,
}

/// The sum of two operands.
pub open spec fn sum(a: u32, b: u32, n: i32) -> u32 {
    if a + b <= size_mask(n) {
        (a + b) as u32
    } else {
        (a + b - size_mask(n) - 1) as u32
    }
}

/// What is known of the second operand holds still.
pub open spec fn operand_known(s: Words, source: InstructionOperand, x: Change) -> bool {
    match source {
        InstructionOperand::WasmLocal(l) => x.n == OPSIZE_32 ==> s.locals[l.0] == x.b as i32,
        InstructionOperand::Immediate(i) => i == x.b as i32,
        InstructionOperand::Other => true,
    }
}

/// The instruction before has recorded its operands and its result, and what is known of them
/// holds still. It is one that changed the flags, and no comparison.
pub open spec fn changed(s: Words, f: Option<FlagLocals>, p: Instruction, x: Change) -> bool {
    let result = s.flag(f, FlagSlot::LastResult);
    &&& is_size(x.n)
    &&& p.opsize() == Some(x.n)
    &&& x.a <= size_mask(x.n) && x.b <= size_mask(x.n) && x.r <= size_mask(x.n)
    &&& p.result_at() matches Some(l) ==> s.locals[l.0] == x.r as i32
    &&& match p {
        Instruction::Sub { source, .. } => {
            &&& s.flag(f, FlagSlot::LastOp1) == x.a as i32
            &&& x.r == difference(x.a, x.b, x.n)
            &&& result == x.r as i32
            &&& operand_known(s, source, x)
        },
        Instruction::Add { source, .. } => {
            &&& s.flag(f, FlagSlot::LastOp1) == x.a as i32
            &&& x.r == sum(x.a, x.b, x.n)
            &&& result == x.r as i32
            &&& operand_known(s, source, x)
        },
        Instruction::Bitwise { .. } => low(result, x.n) == x.r,
        Instruction::AdcSbb { .. } => result == x.r as i32,
        Instruction::NonZeroShift { .. } => result == x.r as i32,
        _ => false,
    }
}

/// A flag that is not computed lazily.
pub open spec fn flag_set(s: Words, f: Option<FlagLocals>, bit: i32) -> bool {
    s.flag(f, FlagSlot::Flags) & bit != 0
}

/// The carry flag that an instruction leaves. Increments and decrements leave it as it was.
pub open spec fn carry_after(s: Words, f: Option<FlagLocals>, p: Instruction, x: Change) -> bool {
    match p {
        Instruction::Sub { is_dec, .. } => if is_dec {
            flag_set(s, f, FLAG_CARRY)
        } else {
            x.a < x.b
        },
        Instruction::Add { is_inc, .. } => if is_inc {
            flag_set(s, f, FLAG_CARRY)
        } else {
            x.a + x.b > size_mask(x.n)
        },
        Instruction::Bitwise { .. } => false,
        _ => flag_set(s, f, FLAG_CARRY),
    }
}

/// The overflow flag that an instruction leaves.
pub open spec fn overflow_after(s: Words, f: Option<FlagLocals>, p: Instruction, x: Change) -> bool {
    let exact = signed_value(x.a, x.n) + signed_value(x.b, x.n);
    match p {
        Instruction::Sub { .. } => holds(0, x.a, x.b, x.n),
        Instruction::Add { .. } => exact < -half(x.n) || exact >= half(x.n),
        Instruction::Bitwise { .. } => false,
        _ => flag_set(s, f, FLAG_OVERFLOW),
    }
}

/// The condition that a number names, on the flags that an instruction leaves. Odd numbers name
/// the inverse of the number before; 10 and 11 are parity, which is not here.
pub open spec fn holds_after(
    number: u8,
    s: Words,
    f: Option<FlagLocals>,
    p: Instruction,
    x: Change,
) -> bool {
    let carry = carry_after(s, f, p, x);
    let overflow = overflow_after(s, f, p, x);
    let zero = x.r == 0;
    let sign = x.r >= half(x.n);
    let plain = if number / 2 == 0 {
        overflow
    } else if number / 2 == 1 {
        carry
    } else if number / 2 == 2 {
        zero
    } else if number / 2 == 3 {
        carry || zero
    } else if number / 2 == 4 {
        sign
    } else if number / 2 == 6 {
        sign != overflow
    } else {
        zero || sign != overflow
    };
    plain != (number % 2 == 1)
}

proof fn bits_of_sum(a: u32, b: u32, r: u32, q: u32, m: u32, h: u32)
    by (bit_vector)
    requires
        (m == 0xff && h == 0x80) || (m == 0xffff && h == 0x8000) || (m == 0xffff_ffff && h
            == 0x8000_0000),
        a <= m,
        b <= m,
        a + b <= m ==> r == a + b,
        a + b > m ==> r == a + b - m - 1,
        r >= a ==> q == r - a,
        r < a ==> q == r - a + 0x1_0000_0000,
    ensures
        (((a ^ r) & (r ^ q)) & h != 0) == ((a >= h) == (b >= h) && (a >= h) != (r >= h)),
        (r & h != 0) == (r >= h),
{
}

proof fn bits_of_sign(r: u32, n: i32)
    requires
        is_size(n),
        r <= size_mask(n),
    ensures
        (r & half(n) != 0) == (r >= half(n)),
{
    bits_of_sum(r, 0, r, 0, size_mask(n), half(n));
}

/// The result, in the word that the code takes it from.
proof fn lemma_result(s: Words, f: Option<FlagLocals>, p: Instruction, x: Change) -> (v: i32)
    requires
        changed(s, f, p, x),
    ensures
        wasm_run::evaluates(E::last_result(f, p), s, v, s),
        low(v, x.n) == x.r,
        !(p is Bitwise) || x.n == OPSIZE_32 ==> v == x.r as i32,
{
    reveal(E::last_result);
    wasm_run::evaluate_flag(f, FlagSlot::LastResult, s);
    codegen_cond_laws::lemma_low(x.r, x.n);
    match p.result_at() {
        Some(l) => {
            wasm_run::evaluate_local(l.0, s);
            s.locals[l.0]
        },
        None => {
            let v = s.flag(f, FlagSlot::LastResult);
            if p is Bitwise && x.n == OPSIZE_32 {
                codegen_cond_laws::lemma_whole(v, x.r);
            }
            v
        },
    }
}

proof fn lemma_op1(s: Words, f: Option<FlagLocals>, p: Instruction, x: Change)
    requires
        changed(s, f, p, x),
        p is Sub || p is Add,
    ensures
        wasm_run::evaluates(E::last_op1(f, p), s, x.a as i32, s),
{
    reveal(E::last_op1);
    wasm_run::evaluate_flag(f, FlagSlot::LastOp1, s);
}

proof fn evaluate_flag_low(f: Option<FlagLocals>, byte: bool, s: Words)
    ensures
        wasm_run::evaluates(
            E::flag_low(f, FlagSlot::LastResult, byte),
            s,
            s.flag(f, FlagSlot::LastResult) & (if byte {
                0xff
            } else {
                0xffff
            }),
            s,
        ),
{
    reveal(E::flag_low);
    let mask: i32 = if byte {
        0xff
    } else {
        0xffff
    };
    match f {
        Some(l) => {
            let at = l.at(FlagSlot::LastResult);
            wasm_run::evaluate_local(at, s);
            wasm_run::evaluate_binc(Bin::And, E::L(at), mask, s, s.locals[at], s);
        },
        None => {
            let address = crate::wasm::flag_address(FlagSlot::LastResult);
            let w = if byte {
                Width::W8
            } else {
                Width::A16
            };
            wasm_run::evaluate_constant(address as i32, s);
            wasm_run::evaluate_load(E::C(address as i32), w, 0, s, address as i32, s);
            assert(((address as i32) as u32).wrapping_add(0) == address);
        },
    }
}

proof fn value_zf(s: Words, f: Option<FlagLocals>, p: Instruction, negate: bool, x: Change) -> (v: i32)
    requires
        changed(s, f, p, x),
    ensures
        wasm_run::evaluates(E::zf(f, p, negate), s, v, s),
        v != 0 <==> (x.r == 0) != negate,
{
    reveal(E::zf);
    let w = lemma_result(s, f, p, x);
    codegen_cond_laws::lemma_binary(x.r, 0);
    wasm_run::evaluate_eqz_if(E::last_result(f, p), !negate, s, w, s);
    if p is Bitwise && x.n != OPSIZE_32 {
        let byte = x.n == OPSIZE_8;
        let slot = s.flag(f, FlagSlot::LastResult);
        let u = slot & (if byte {
            0xffi32
        } else {
            0xffff
        });
        evaluate_flag_low(f, byte, s);
        wasm_run::evaluate_eqz_if(
            E::flag_low(f, FlagSlot::LastResult, byte),
            !negate,
            s,
            u,
            s,
        );
        codegen_cond_laws::bits_of_casts(slot);
        codegen_cond_laws::lemma_binary(slot as u32, size_mask(x.n));
        assert(u == x.r as i32);
        wasm_run::inverted(!negate, u)
    } else {
        wasm_run::inverted(!negate, w)
    }
}

proof fn value_sf(s: Words, f: Option<FlagLocals>, p: Instruction, negate: bool, x: Change) -> (v: i32)
    requires
        changed(s, f, p, x),
    ensures
        wasm_run::evaluates(E::sf(f, p, x.n, negate), s, v, s),
        v != 0 <==> (x.r >= half(x.n)) != negate,
{
    let w = lemma_result(s, f, p, x);
    let rel = crate::codegen_cond::relation(negate, Bin::LtS, Bin::GeS);
    codegen_cond_laws::lemma_binary(x.r, 0);
    bits_of_sign(x.r, x.n);
    if x.n == OPSIZE_32 {
        wasm_run::evaluate_binc(rel, E::last_result(f, p), 0, s, w, s);
        wasm_run::binary(rel, w, 0)
    } else {
        let bit = (w as u32) & half(x.n);
        codegen_cond_laws::bits_of_casts(w);
        codegen_cond_laws::lemma_sign_bit(x.n);
        codegen_cond_laws::lemma_binary(w as u32, half(x.n));
        codegen_cond_laws::lemma_binary(bit, 0);
        bits_of_low_sign(w as u32);
        wasm_run::evaluate_binc(
            Bin::And,
            E::last_result(f, p),
            crate::codegen_cond::sign_bit(x.n),
            s,
            w,
            s,
        );
        wasm_run::evaluate_eqz_if(
            E::last_result(f, p).and(crate::codegen_cond::sign_bit(x.n)),
            negate,
            s,
            bit as i32,
            s,
        );
        wasm_run::inverted(negate, bit as i32)
    }
}

proof fn bits_of_low_sign(w: u32)
    by (bit_vector)
    ensures
        (w & 0xff) & 0x80 == w & 0x80,
        (w & 0xffff) & 0x8000 == w & 0x8000,
{
}

/// A flag that is not computed lazily, or its inverse.
proof fn value_bit(s: Words, f: Option<FlagLocals>, bit: i32, negate: bool) -> (v: i32)
    ensures
        wasm_run::evaluates(E::flag_bit(f, bit).eqz_if(negate), s, v, s),
        wasm_run::evaluates(E::flag_bit(f, bit), s, s.flag(f, FlagSlot::Flags) & bit, s),
        v != 0 <==> flag_set(s, f, bit) != negate,
{
    let w = s.flag(f, FlagSlot::Flags);
    wasm_run::evaluate_flag(f, FlagSlot::Flags, s);
    wasm_run::evaluate_binc(Bin::And, E::flag(f, FlagSlot::Flags), bit, s, w, s);
    wasm_run::evaluate_eqz_if(E::flag_bit(f, bit), negate, s, w & bit, s);
    wasm_run::inverted(negate, w & bit)
}

/// The second operand where it is known, else another word.
proof fn value_operand(s: Words, source: InstructionOperand, other: E, y: u32, x: Change) -> (v: u32)
    requires
        operand_known(s, source, x),
        wasm_run::evaluates(other, s, y as i32, s),
    ensures
        wasm_run::evaluates(E::operand_or(x.n, source, other), s, v as i32, s),
        v == x.b || v == y,
{
    reveal(E::operand_or);
    match source {
        InstructionOperand::WasmLocal(l) => if x.n == OPSIZE_32 {
            wasm_run::evaluate_local(l.0, s);
            x.b
        } else {
            y
        },
        InstructionOperand::Immediate(i) => {
            wasm_run::evaluate_constant(i, s);
            x.b
        },
        InstructionOperand::Other => y,
    }
}

proof fn value_cf(
    e: Emit,
    s: Words,
    p: Instruction,
    negate: bool,
    x: Change,
) -> (v: i32)
    requires
        changed(s, e.flag_locals, p, x),
    ensures
        wasm_run::evaluates(codegen_cond_laws::cf_expression(e, p, negate), s, v, s),
        v != 0 <==> carry_after(s, e.flag_locals, p, x) != negate,
{
    let f = e.flag_locals;
    let u = value_bit(s, f, FLAG_CARRY, negate);
    let w = lemma_result(s, f, p, x);
    let rel = crate::codegen_cond::relation(negate, Bin::LtU, Bin::GeU);
    match p {
        Instruction::Sub { source, is_dec, .. } => if is_dec {
            u
        } else {
            lemma_op1(s, f, p, x);
            codegen_cond_laws::lemma_overflow(x.a, x.b, x.n);
            let y = value_operand(s, source, E::last_result(f, p), x.r, x);
            codegen_cond_laws::lemma_binary(x.a, y);
            wasm_run::evaluate_bin(
                rel,
                E::last_op1(f, p),
                E::operand_or(x.n, source, E::last_result(f, p)),
                s,
                x.a as i32,
                s,
                y as i32,
                s,
            );
            wasm_run::binary(rel, x.a as i32, y as i32)
        },
        Instruction::Add { source, is_inc, .. } => if is_inc {
            u
        } else {
            lemma_op1(s, f, p, x);
            let y = value_operand(s, source, E::last_op1(f, p), x.a, x);
            codegen_cond_laws::lemma_binary(x.r, y);
            wasm_run::evaluate_bin(
                rel,
                E::last_result(f, p),
                E::operand_or(x.n, source, E::last_op1(f, p)),
                s,
                x.r as i32,
                s,
                y as i32,
                s,
            );
            wasm_run::binary(rel, x.r as i32, y as i32)
        },
        Instruction::Bitwise { .. } => {
            let c: i32 = if negate {
                1
            } else {
                0
            };
            wasm_run::evaluate_constant(c, s);
            c
        },
        _ => u,
    }
}

proof fn value_of(e: Emit, s: Words, p: Instruction, x: Change) -> (v: i32)
    requires
        changed(s, e.flag_locals, p, x),
    ensures
        wasm_run::evaluates(codegen_cond_laws::of_expression(e, p), s, v, s),
        v != 0 <==> overflow_after(s, e.flag_locals, p, x),
{
    let f = e.flag_locals;
    let u = value_bit(s, f, FLAG_OVERFLOW, false);
    let w = lemma_result(s, f, p, x);
    let h = half(x.n);
    let result = E::last_result(f, p);
    let op1 = E::last_op1(f, p);
    if p is Bitwise {
        wasm_run::evaluate_constant(0, s);
        0
    } else if p is Sub || p is Add {
        lemma_op1(s, f, p, x);
        codegen_cond_laws::lemma_sign_bit(x.n);
        // The second operand, from the first and the result; its place in the two formulas.
        let (q, y, z) = if p is Sub {
            (x.a.wrapping_sub(x.r), x.a, op1)
        } else {
            (x.r.wrapping_sub(x.a), x.r, result)
        };
        let second = if p is Sub {
            op1.bin(Bin::Sub, result)
        } else {
            result.bin(Bin::Sub, op1)
        };
        codegen_cond_laws::lemma_binary(x.a, x.r);
        codegen_cond_laws::lemma_binary(x.r, x.a);
        if p is Sub {
            codegen_cond_laws::lemma_difference(x.a, x.b, x.n);
            wasm_run::evaluate_bin(Bin::Sub, op1, result, s, x.a as i32, s, x.r as i32, s);
        } else {
            bits_of_sum(x.a, x.b, x.r, q, size_mask(x.n), h);
            wasm_run::evaluate_bin(Bin::Sub, result, op1, s, x.r as i32, s, x.a as i32, s);
        }
        codegen_cond_laws::lemma_binary(y, q);
        codegen_cond_laws::lemma_binary(x.a ^ x.r, y ^ q);
        codegen_cond_laws::lemma_binary((x.a ^ x.r) & (y ^ q), h);
        codegen_cond_laws::lemma_binary(((x.a ^ x.r) & (y ^ q)) & h, 0);
        let left = op1.bin(Bin::Xor, result);
        let right = z.bin(Bin::Xor, second);
        wasm_run::evaluate_bin(Bin::Xor, op1, result, s, x.a as i32, s, x.r as i32, s);
        wasm_run::evaluate_bin(Bin::Xor, z, second, s, y as i32, s, q as i32, s);
        wasm_run::evaluate_bin(
            Bin::And,
            left,
            right,
            s,
            (x.a ^ x.r) as i32,
            s,
            (y ^ q) as i32,
            s,
        );
        wasm_run::evaluate_binc(
            Bin::And,
            left.bin(Bin::And, right),
            crate::codegen_cond::sign_bit(x.n),
            s,
            ((x.a ^ x.r) & (y ^ q)) as i32,
            s,
        );
        (((x.a ^ x.r) & (y ^ q)) & h) as i32
    } else {
        s.flag(f, FlagSlot::Flags) & FLAG_OVERFLOW
    }
}

/// The code of an expression on top of other values.
proof fn push_value(c: Seq<Op>, e: Emit, g: Emit, y: E, s: Words, k: Seq<i32>, v: i32)
    requires
        wasm_run::leads(c, e.code, s, s.on(k)),
        codegen_cond_laws::is_value(e, g, y),
        wasm_run::evaluates(y, s, v, s),
    ensures
        wasm_run::leads(c, g.code, s, s.on(k.push(v))),
{
    wasm_run::law_expressions_run(y, e.code, s.on(k));
    assert(y.done(s.on(k)) == s.on(k.push(v)));
    wasm_run::lemma_leads_on(c, e.code, g.code, s, s.on(k), s.on(k.push(v)));
}

proof fn lemma_start(e: Emit, s: Words)
    ensures
        wasm_run::leads(e.code, e.code, s, s.on(s.stack)),
{
    wasm_run::law_expressions_run(E::Top, e.code, s);
    reveal_with_fuel(E::code, 1);
    assert(s.on(s.stack) == s);
}

/// What a condition relies on: nothing is counted, and the instruction before is recorded.
pub open spec fn is_ready(e: Emit, s: Words, p: Instruction, x: Change) -> bool {
    !e.opt.profiler && changed(s, e.flag_locals, p, x)
}

proof fn push_zf(c: Seq<Op>, e: Emit, p: Instruction, negate: bool, s: Words, k: Seq<i32>, x: Change) -> (v: i32)
    requires
        is_ready(e, s, p, x),
        wasm_run::leads(c, e.code, s, s.on(k)),
    ensures
        wasm_run::leads(c, e.zf(p, negate).code, s, s.on(k.push(v))),
        is_ready(e.zf(p, negate), s, p, x),
        v != 0 <==> (x.r == 0) != negate,
{
    let v = value_zf(s, e.flag_locals, p, negate, x);
    codegen_cond_laws::lemma_zf_code(e, p, negate);
    push_value(
        c,
        e,
        e.zf(p, negate),
        codegen_cond_laws::zf_expression(e, p, negate),
        s,
        k,
        v,
    );
    v
}

proof fn push_cf(c: Seq<Op>, e: Emit, p: Instruction, negate: bool, s: Words, k: Seq<i32>, x: Change) -> (v: i32)
    requires
        is_ready(e, s, p, x),
        wasm_run::leads(c, e.code, s, s.on(k)),
    ensures
        wasm_run::leads(c, e.cf(p, negate).code, s, s.on(k.push(v))),
        is_ready(e.cf(p, negate), s, p, x),
        v != 0 <==> carry_after(s, e.flag_locals, p, x) != negate,
{
    let v = value_cf(e, s, p, negate, x);
    codegen_cond_laws::lemma_cf_code(e, p, negate);
    push_value(
        c,
        e,
        e.cf(p, negate),
        codegen_cond_laws::cf_expression(e, p, negate),
        s,
        k,
        v,
    );
    v
}

proof fn push_sf(c: Seq<Op>, e: Emit, p: Instruction, negate: bool, s: Words, k: Seq<i32>, x: Change) -> (v: i32)
    requires
        is_ready(e, s, p, x),
        wasm_run::leads(c, e.code, s, s.on(k)),
    ensures
        wasm_run::leads(c, e.sf(p, negate).code, s, s.on(k.push(v))),
        is_ready(e.sf(p, negate), s, p, x),
        v != 0 <==> (x.r >= half(x.n)) != negate,
{
    let v = value_sf(s, e.flag_locals, p, negate, x);
    codegen_cond_laws::lemma_sf_code(e, p, negate);
    push_value(
        c,
        e,
        e.sf(p, negate),
        codegen_cond_laws::sf_expression(e, p, negate),
        s,
        k,
        v,
    );
    v
}

proof fn push_of(c: Seq<Op>, e: Emit, p: Instruction, s: Words, k: Seq<i32>, x: Change) -> (v: i32)
    requires
        is_ready(e, s, p, x),
        wasm_run::leads(c, e.code, s, s.on(k)),
    ensures
        wasm_run::leads(c, e.of(p).code, s, s.on(k.push(v))),
        is_ready(e.of(p), s, p, x),
        v != 0 <==> overflow_after(s, e.flag_locals, p, x),
{
    let v = value_of(e, s, p, x);
    codegen_cond_laws::lemma_of_code(e, p);
    push_value(c, e, e.of(p), codegen_cond_laws::of_expression(e, p), s, k, v);
    v
}

/// The value on top is inverted where `negate` holds.
proof fn push_inverted(c: Seq<Op>, e: Emit, negate: bool, s: Words, k: Seq<i32>, u: i32)
    requires
        wasm_run::leads(c, e.code, s, s.on(k.push(u))),
    ensures
        wasm_run::leads(
            c,
            e.val(E::Top.eqz_if(negate)).code,
            s,
            s.on(k.push(wasm_run::inverted(negate, u))),
        ),
        e.val(E::Top.eqz_if(negate)).opt == e.opt,
        e.val(E::Top.eqz_if(negate)).flag_locals == e.flag_locals,
{
    reveal(Emit::val);
    let t = s.on(k.push(u));
    codegen_cond_laws::add_eqz_if(c, e, negate, s, t, k, u);
    let v = wasm_run::inverted(negate, u);
    assert(t.on(k.push(v)) == s.on(k.push(v)));
}

proof fn push_bin(c: Seq<Op>, e: Emit, b: Bin, s: Words, k: Seq<i32>, u: i32, v: i32)
    requires
        !(b is AddI64),
        wasm_run::leads(c, e.code, s, s.on(k.push(u).push(v))),
    ensures
        wasm_run::leads(
            c,
            e.op(Op::Bin(b)).code,
            s,
            s.on(k.push(wasm_run::binary(b, u, v))),
        ),
        e.op(Op::Bin(b)).opt == e.opt,
        e.op(Op::Bin(b)).flag_locals == e.flag_locals,
{
    reveal(Emit::op);
    let t = s.on(k.push(u).push(v));
    codegen_cond_laws::add_bin(c, e, b, s, t, k, u, v);
    let w = wasm_run::binary(b, u, v);
    assert(t.on(k.push(w)) == s.on(k.push(w)));
}

proof fn push_cf_or_zf(c: Seq<Op>, e: Emit, p: Instruction, negate: bool, s: Words, k: Seq<i32>, x: Change) -> (v: i32)
    requires
        is_ready(e, s, p, x),
        wasm_run::leads(c, e.code, s, s.on(k)),
    ensures
        wasm_run::leads(c, e.cf_or_zf(p, negate).code, s, s.on(k.push(v))),
        v != 0 <==> (carry_after(s, e.flag_locals, p, x) || x.r == 0) != negate,
{
    let u = push_cf(c, e, p, false, s, k, x);
    let e1 = e.cf(p, false);
    let w = push_zf(c, e1, p, false, s, k.push(u), x);
    let e2 = e1.zf(p, false);
    push_bin(c, e2, Bin::Or, s, k, u, w);
    codegen_cond_laws::bits_of_truths(u, w);
    let both = wasm_run::binary(Bin::Or, u, w);
    push_inverted(c, e2.op(Op::Bin(Bin::Or)), negate, s, k, both);
    wasm_run::inverted(negate, both)
}

/// A comparison of the operands of a subtraction.
proof fn push_compared(
    c: Seq<Op>,
    e: Emit,
    y: E,
    z: E,
    rel: Bin,
    s: Words,
    k: Seq<i32>,
    u: i32,
    w: i32,
) -> (v: i32)
    requires
        !(rel is AddI64),
        wasm_run::evaluates(y, s, u, s),
        wasm_run::evaluates(z, s, w, s),
        wasm_run::leads(c, e.code, s, s.on(k)),
    ensures
        wasm_run::leads(c, e.val(y.bin(rel, z)).code, s, s.on(k.push(v))),
        v == wasm_run::binary(rel, u, w),
{
    reveal(Emit::val);
    wasm_run::evaluate_bin(rel, y, z, s, u, s, w, s);
    let v = wasm_run::binary(rel, u, w);
    push_value(c, e, e.val(y.bin(rel, z)), y.bin(rel, z), s, k, v);
    v
}

proof fn push_be(c: Seq<Op>, e: Emit, p: Instruction, negate: bool, s: Words, k: Seq<i32>, x: Change) -> (v: i32)
    requires
        is_ready(e, s, p, x),
        wasm_run::leads(c, e.code, s, s.on(k)),
    ensures
        wasm_run::leads(c, e.be(p, negate).code, s, s.on(k.push(v))),
        v != 0 <==> (carry_after(s, e.flag_locals, p, x) || x.r == 0) != negate,
{
    reveal(Emit::be);
    codegen_cond_laws::lemma_all_quiet(e);
    let f = e.flag_locals;
    match p {
        Instruction::Sub { source, is_dec, .. } => if is_dec {
            push_cf_or_zf(c, e, p, negate, s, k, x)
        } else {
            let rel = crate::codegen_cond::relation(negate, Bin::LeU, Bin::GtU);
            let q = x.a.wrapping_sub(x.r);
            let w = lemma_result(s, f, p, x);
            lemma_op1(s, f, p, x);
            codegen_cond_laws::lemma_binary(x.a, x.r);
            codegen_cond_laws::lemma_difference(x.a, x.b, x.n);
            codegen_cond_laws::lemma_overflow(x.a, x.b, x.n);
            wasm_run::evaluate_bin(
                Bin::Sub,
                E::last_op1(f, p),
                E::last_result(f, p),
                s,
                x.a as i32,
                s,
                x.r as i32,
                s,
            );
            codegen_cond_laws::lemma_masked(E::last_op2(f, p), s, q as i32, x.n);
            codegen_cond_laws::lemma_binary(q, 0);
            let y = value_operand(s, source, E::last_op2(f, p).masked(x.n), x.b, x);
            codegen_cond_laws::lemma_binary(x.a, y);
            push_compared(
                c,
                e,
                E::last_op1(f, p),
                E::operand_or(x.n, source, E::last_op2(f, p).masked(x.n)),
                rel,
                s,
                k,
                x.a as i32,
                y as i32,
            )
        },
        Instruction::Bitwise { .. } => push_zf(c, e, p, negate, s, k, x),
        _ => push_cf_or_zf(c, e, p, negate, s, k, x),
    }
}

/// The operands of a subtraction, with their signs in the sign bits of words.
proof fn push_signed(c: Seq<Op>, e: Emit, p: Instruction, rel: Bin, s: Words, k: Seq<i32>, x: Change) -> (v: i32)
    requires
        is_ready(e, s, p, x),
        p is Sub,
        rel is LtS || rel is GeS || rel is LeS || rel is GtS,
        wasm_run::leads(c, e.code, s, s.on(k)),
    ensures
        wasm_run::leads(c, e.val(E::compare_signed(e.flag_locals, p, rel)).code, s, s.on(k.push(v))),
        v != 0 <==> codegen_cond_laws::signed_relation(
            rel,
            signed_value(x.a, x.n),
            signed_value(x.b, x.n),
        ),
{
    reveal(E::signed_subtrahend);
    let f = e.flag_locals;
    let source = p->Sub_source;
    let w = lemma_result(s, f, p, x);
    let q = x.a.wrapping_sub(x.r);
    lemma_op1(s, f, p, x);
    codegen_cond_laws::lemma_binary(x.a, x.r);
    codegen_cond_laws::lemma_difference(x.a, x.b, x.n);
    codegen_cond_laws::lemma_low(x.a, x.n);
    codegen_cond_laws::lemma_low(x.b, x.n);
    codegen_cond_laws::lemma_binary(q, 0);
    codegen_cond_laws::lemma_signed(E::last_op1(f, p), s, x.a as i32, x.n);
    wasm_run::evaluate_bin(
        Bin::Sub,
        E::last_op1(f, p),
        E::last_result(f, p),
        s,
        x.a as i32,
        s,
        x.r as i32,
        s,
    );
    codegen_cond_laws::lemma_signed(E::last_op2(f, p), s, q as i32, x.n);
    codegen_cond_laws::bits_of_signs(x.b, 0, shift(x.n), size_mask(x.n), half(x.n));
    let y: i32 = match source {
        InstructionOperand::WasmLocal(l) => if x.n == OPSIZE_32 {
            wasm_run::evaluate_local(l.0, s);
            x.b as i32
        } else {
            q as i32
        },
        InstructionOperand::Immediate(i) => {
            wasm_run::evaluate_constant(crate::codegen_cond::shifted_constant(i, x.n), s);
            i
        },
        InstructionOperand::Other => q as i32,
    };
    codegen_cond_laws::lemma_signs_of(x.a as i32, y, x.a, x.b, x.n);
    push_compared(
        c,
        e,
        E::last_op1(f, p).signed(x.n),
        E::signed_subtrahend(f, p, source, x.n),
        rel,
        s,
        k,
        (x.a as i32) << shift(x.n),
        y << shift(x.n),
    )
}

proof fn push_less(c: Seq<Op>, e: Emit, p: Instruction, negate: bool, s: Words, k: Seq<i32>, x: Change) -> (v: i32)
    requires
        is_ready(e, s, p, x),
        wasm_run::leads(c, e.code, s, s.on(k)),
    ensures
        wasm_run::leads(c, e.less(p, negate).code, s, s.on(k.push(v))),
        is_ready(e.less(p, negate), s, p, x),
        v != 0 <==> ((x.r >= half(x.n)) != overflow_after(s, e.flag_locals, p, x)) != negate,
{
    reveal(Emit::less);
    codegen_cond_laws::lemma_all_quiet(e);
    let f = e.flag_locals;
    if p is Sub {
        assert(is_ready(e.less(p, negate), s, p, x)) by {
            reveal(Emit::val);
        }
        codegen_cond_laws::lemma_less(x.a, x.b, x.n);
        push_signed(
            c,
            e,
            p,
            crate::codegen_cond::relation(negate, Bin::LtS, Bin::GeS),
            s,
            k,
            x,
        )
    } else if p is Bitwise {
        push_sf(c, e, p, negate, s, k, x)
    } else {
        let u = push_sf(c, e, p, false, s, k, x);
        let e1 = e.sf(p, false);
        codegen_cond_laws::lemma_sf_code(e, p, false);
        reveal(E::eqz_if);
        push_inverted(c, e1, true, s, k, u);
        let e2 = e1.val(E::Top.eqz());
        let u1 = wasm_run::truth(u == 0);
        let w = push_of(c, e2, p, s, k.push(u1), x);
        let e3 = e2.of(p);
        push_inverted(c, e3, true, s, k.push(u1), w);
        let e4 = e3.val(E::Top.eqz());
        let w1 = wasm_run::truth(w == 0);
        push_bin(c, e4, Bin::Xor, s, k, u1, w1);
        codegen_cond_laws::bits_of_truths(u1, w1);
        let both = wasm_run::binary(Bin::Xor, u1, w1);
        push_inverted(c, e4.op(Op::Bin(Bin::Xor)), negate, s, k, both);
        wasm_run::inverted(negate, both)
    }
}

proof fn push_less_or_zf(c: Seq<Op>, e: Emit, p: Instruction, negate: bool, s: Words, k: Seq<i32>, x: Change) -> (v: i32)
    requires
        is_ready(e, s, p, x),
        wasm_run::leads(c, e.code, s, s.on(k)),
    ensures
        wasm_run::leads(c, e.less_or_zf(p, negate).code, s, s.on(k.push(v))),
        v != 0 <==> ((x.r == 0) || (x.r >= half(x.n)) != overflow_after(s, e.flag_locals, p, x))
            != negate,
{
    let u = push_less(c, e, p, false, s, k, x);
    let e1 = e.less(p, false);
    let w = push_zf(c, e1, p, false, s, k.push(u), x);
    let e2 = e1.zf(p, false);
    push_bin(c, e2, Bin::Or, s, k, u, w);
    codegen_cond_laws::bits_of_truths(u, w);
    let both = wasm_run::binary(Bin::Or, u, w);
    push_inverted(c, e2.op(Op::Bin(Bin::Or)), negate, s, k, both);
    wasm_run::inverted(negate, both)
}

proof fn push_less_equal(c: Seq<Op>, e: Emit, p: Instruction, negate: bool, s: Words, k: Seq<i32>, x: Change) -> (v: i32)
    requires
        is_ready(e, s, p, x),
        wasm_run::leads(c, e.code, s, s.on(k)),
    ensures
        wasm_run::leads(c, e.less_equal(p, negate).code, s, s.on(k.push(v))),
        v != 0 <==> ((x.r == 0) || (x.r >= half(x.n)) != overflow_after(s, e.flag_locals, p, x))
            != negate,
{
    reveal(Emit::less_equal);
    codegen_cond_laws::lemma_all_quiet(e);
    if p is Sub {
        codegen_cond_laws::lemma_less(x.a, x.b, x.n);
        codegen_cond_laws::lemma_overflow(x.a, x.b, x.n);
        push_signed(
            c,
            e,
            p,
            crate::codegen_cond::relation(negate, Bin::LeS, Bin::GtS),
            s,
            k,
            x,
        )
    } else {
        push_less_or_zf(c, e, p, negate, s, k, x)
    }
}

/// The code of a condition computes it: run after an addition, a subtraction, a logical
/// operation, a shift or an operation with carry, it leaves one more value on the stack, which is
/// not zero exactly where the condition holds on the flags that the instruction leaves, and it
/// changes nothing else.
pub proof fn law_conditions_hold_after_changes(c: Ctx, number: u8, s: Words, x: Change)
    requires
        number < 16,
        number != 10,
        number != 11,
        is_ready(c.e, s, c.st.previous_instruction, x),
    ensures
        ({
            let t = wasm_run::run(
                wasm_run::added(c.e.code, c.flag_condition(number).e.code),
                s,
            );
            &&& t == s.on(s.stack.push(t.stack.last()))
            &&& t.stack.last() != 0 <==> holds_after(
                number,
                s,
                c.e.flag_locals,
                c.st.previous_instruction,
                x,
            )
        }),
{
    reveal(Ctx::flag_condition);
    let p = c.st.previous_instruction;
    let e = c.e;
    let k = s.stack;
    let d = e.code;
    lemma_start(e, s);
    let v: i32 = if number == 0 {
        push_of(d, e, p, s, k, x)
    } else if number == 1 {
        let u = push_of(d, e, p, s, k, x);
        reveal(E::eqz_if);
        push_inverted(d, e.of(p), true, s, k, u);
        wasm_run::inverted(true, u)
    } else if number == 2 || number == 3 {
        push_cf(d, e, p, number == 3, s, k, x)
    } else if number == 4 || number == 5 {
        push_zf(d, e, p, number == 5, s, k, x)
    } else if number == 6 || number == 7 {
        push_be(d, e, p, number == 7, s, k, x)
    } else if number == 8 || number == 9 {
        push_sf(d, e, p, number == 9, s, k, x)
    } else if number == 12 || number == 13 {
        push_less(d, e, p, number == 13, s, k, x)
    } else {
        push_less_equal(d, e, p, number == 15, s, k, x)
    };
    let t = s.on(k.push(v));
    assert(wasm_run::leads(d, c.flag_condition(number).e.code, s, t));
    wasm_run::lemma_ends(d, c.flag_condition(number).e.code, s, t);
    assert(t.stack.last() == v);
}

} // verus!
