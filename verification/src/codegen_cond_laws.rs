//! What the code of a condition computes: the condition itself, from the operands of the
//! comparison that came before it, on every path.
use vstd::prelude::*;
use crate::codegen_cond::sign_bit;
use crate::cpu_state::{
    FLAG_CARRY, FLAG_OVERFLOW, FLAG_SIGN, FLAG_ZERO, OPSIZE_16, OPSIZE_32, OPSIZE_8,
};
use crate::jit_context::{Ctx, Instruction, InstructionOperand, InstructionOperandDest};
use crate::wasm::{Bin, Emit, FlagLocals, FlagSlot, Op, E};
use crate::wasm_run;
use crate::wasm_run::Words;

verus! {

/// The operand sizes: the number of the highest bit.
pub open spec fn is_size(n: i32) -> bool {
    n == OPSIZE_8 || n == OPSIZE_16 || n == OPSIZE_32
}

/// The largest operand.
pub open spec fn size_mask(n: i32) -> u32 {
    if n == OPSIZE_8 {
        0xff
    } else if n == OPSIZE_16 {
        0xffff
    } else {
        0xffff_ffff
    }
}

/// The operand with only its highest bit.
pub open spec fn half(n: i32) -> u32 {
    if n == OPSIZE_8 {
        0x80
    } else if n == OPSIZE_16 {
        0x8000
    } else {
        0x8000_0000
    }
}

/// An operand as a signed number.
pub open spec fn signed_value(x: u32, n: i32) -> int {
    if x >= half(n) {
        x - size_mask(n) - 1
    } else {
        x as int
    }
}

/// The difference of two operands.
pub open spec fn difference(a: u32, b: u32, n: i32) -> u32 {
    if a >= b {
        (a - b) as u32
    } else {
        (a - b + size_mask(n) + 1) as u32
    }
}

/// The part of a word that an operand of the size takes.
pub open spec fn low(v: i32, n: i32) -> u32 {
    v as u32 & size_mask(n)
}

/// The condition that a number names, after a comparison of `a` with `b`. Odd numbers name the
/// inverse of the number before; 10 and 11 are parity, which is not here.
pub open spec fn holds(number: u8, a: u32, b: u32, n: i32) -> bool {
    let d = signed_value(a, n) - signed_value(b, n);
    let plain = if number / 2 == 0 {
        d < -half(n) || d >= half(n)
    } else if number / 2 == 1 {
        a < b
    } else if number / 2 == 2 {
        a == b
    } else if number / 2 == 3 {
        a <= b
    } else if number / 2 == 4 {
        difference(a, b, n) >= half(n)
    } else if number / 2 == 6 {
        signed_value(a, n) < signed_value(b, n)
    } else {
        signed_value(a, n) <= signed_value(b, n)
    };
    plain != (number % 2 == 1)
}

proof fn bits_of_words(x: u32, y: u32)
    by (bit_vector)
    ensures
        (x as i32) as u32 == x,
        (x as i32) ^ (y as i32) == (x ^ y) as i32,
        (x as i32) & (y as i32) == (x & y) as i32,
        (x as i32) | (y as i32) == (x | y) as i32,
        ((x as i32) & 31i32) as u32 == x & 31,
        (x as i32) < 0i32 <==> x >= 0x8000_0000u32,
{
}

pub proof fn bits_of_casts(v: i32)
    by (bit_vector)
    ensures
        (v as u32) as i32 == v,
        v >= 0 ==> v as u32 == v,
        v < 0 ==> v as u32 == v + 0x1_0000_0000,
{
}

/// Instructions on words that stand for unsigned numbers.
pub proof fn lemma_binary(x: u32, y: u32)
    ensures
        wasm_run::binary(Bin::Xor, x as i32, y as i32) == (x ^ y) as i32,
        wasm_run::binary(Bin::And, x as i32, y as i32) == (x & y) as i32,
        wasm_run::binary(Bin::Or, x as i32, y as i32) == (x | y) as i32,
        wasm_run::binary(Bin::ShrU, x as i32, y as i32) == (x >> (y & 31)) as i32,
        wasm_run::binary(Bin::Sub, x as i32, y as i32) == x.wrapping_sub(y) as i32,
        wasm_run::binary(Bin::LtU, x as i32, y as i32) == wasm_run::truth(x < y),
        wasm_run::binary(Bin::LeU, x as i32, y as i32) == wasm_run::truth(x <= y),
        wasm_run::binary(Bin::GtU, x as i32, y as i32) == wasm_run::truth(x > y),
        wasm_run::binary(Bin::GeU, x as i32, y as i32) == wasm_run::truth(x >= y),
        wasm_run::binary(Bin::Eq, x as i32, y as i32) == wasm_run::truth(x == y),
        wasm_run::binary(Bin::Ne, x as i32, y as i32) == wasm_run::truth(x != y),
        (x as i32) as u32 == x,
        (y as i32) as u32 == y,
        x as i32 == 0 <==> x == 0,
        (x as i32) < 0 <==> x >= 0x8000_0000,
{
    bits_of_words(x, y);
    bits_of_words(y, x);
    bits_of_casts(x as i32);
    bits_of_casts(y as i32);
    let d = (x as i32).wrapping_sub(y as i32);
    bits_of_casts(d);
    assert(d as u32 == x.wrapping_sub(y));
}

/// A size with its masks.
spec fn masks(k: u32, m: u32, h: u32) -> bool {
    ||| k == 24 && m == 0xff && h == 0x80
    ||| k == 16 && m == 0xffff && h == 0x8000
    ||| k == 0 && m == 0xffff_ffff && h == 0x8000_0000
}

proof fn bits_of_difference(a: u32, b: u32, d: u32, q: u32, k: u32, m: u32, h: u32)
    by (bit_vector)
    requires
        (k == 24 && m == 0xff && h == 0x80) || (k == 16 && m == 0xffff && h == 0x8000) || (k == 0
            && m == 0xffff_ffff && h == 0x8000_0000),
        a <= m,
        b <= m,
        a >= b ==> d == a - b,
        a < b ==> d == a - b + m + 1,
        a >= d ==> q == a - d,
        a < d ==> q == a - d + 0x1_0000_0000,
    ensures
        d <= m,
        q & m == b,
        (((a ^ d) & (a ^ q)) & h != 0) == ((a >= h) != (d >= h) && (a >= h) != (b >= h)),
        (d & h != 0) == (d >= h),
{
}

pub proof fn bits_of_signs(x: u32, y: u32, k: u32, m: u32, h: u32)
    by (bit_vector)
    requires
        (k == 24 && m == 0xff && h == 0x80) || (k == 16 && m == 0xffff && h == 0x8000) || (k == 0
            && m == 0xffff_ffff && h == 0x8000_0000),
    ensures
        (x as i32) << k == (x << k) as i32,
        (y as i32) << k == (y << k) as i32,
        ((x << k) as i32) < ((y << k) as i32) <==> ((x & m) ^ h) < ((y & m) ^ h),
        ((x << k) as i32) <= ((y << k) as i32) <==> ((x & m) ^ h) <= ((y & m) ^ h),
        (x & m) >= h ==> (x & m) ^ h == (x & m) - h,
        (x & m) < h ==> (x & m) ^ h == (x & m) + h,
        (y & m) >= h ==> (y & m) ^ h == (y & m) - h,
        (y & m) < h ==> (y & m) ^ h == (y & m) + h,
        x & 0xffff_ffff == x,
        k == 0 ==> x << k == x && y << k == y,
        24i32 & 31i32 == 24i32,
        16i32 & 31i32 == 16i32,
        31i32 & 31i32 == 31i32,
        15i32 & 31i32 == 15i32,
        7i32 & 31i32 == 7i32,
{
}

/// How far an operand is shifted for its sign to become that of the word.
pub open spec fn shift(n: i32) -> u32 {
    if n == OPSIZE_8 {
        24
    } else if n == OPSIZE_16 {
        16
    } else {
        0
    }
}

pub proof fn lemma_overflow(a: u32, b: u32, n: i32)
    requires
        is_size(n),
        a <= size_mask(n),
        b <= size_mask(n),
    ensures
        ({
            let h = half(n);
            let d = difference(a, b, n);
            ((a >= h) != (d >= h) && (a >= h) != (b >= h)) <==> holds(0, a, b, n)
        }),
        difference(a, b, n) <= size_mask(n),
        difference(a, b, n) == 0 <==> a == b,
        a < difference(a, b, n) <==> a < b,
{
}

/// The second operand, from the first and the difference.
pub open spec fn op2(a: u32, b: u32, n: i32) -> u32 {
    a.wrapping_sub(difference(a, b, n))
}

pub proof fn lemma_difference(a: u32, b: u32, n: i32)
    requires
        is_size(n),
        a <= size_mask(n),
        b <= size_mask(n),
    ensures
        ({
            let h = half(n);
            let d = difference(a, b, n);
            let q = op2(a, b, n);
            &&& q & size_mask(n) == b
            &&& (((a ^ d) & (a ^ q)) & h != 0) <==> holds(0, a, b, n)
            &&& (d & h != 0) <==> d >= h
        }),
{
    lemma_overflow(a, b, n);
    bits_of_difference(
        a,
        b,
        difference(a, b, n),
        op2(a, b, n),
        shift(n),
        size_mask(n),
        half(n),
    );
}

/// Words whose signs have been moved to the top compare as the operands do.
proof fn lemma_signs(x: u32, y: u32, n: i32)
    requires
        is_size(n),
    ensures
        ({
            let a = x & size_mask(n);
            let b = y & size_mask(n);
            let k = shift(n);
            &&& ((x as i32) << k) < ((y as i32) << k) <==> signed_value(a, n) < signed_value(b, n)
            &&& ((x as i32) << k) <= ((y as i32) << k) <==> signed_value(a, n) <= signed_value(
                b,
                n,
            )
            &&& k == 0 ==> (x as i32) << k == x as i32 && (y as i32) << k == y as i32
        }),
{
    bits_of_signs(x, y, shift(n), size_mask(n), half(n));
}

/// The instruction before has recorded that it subtracted `b` from `a`.
pub open spec fn recorded(s: Words, f: Option<FlagLocals>, a: u32, b: u32, n: i32) -> bool {
    let changed = s.flag(f, FlagSlot::FlagsChanged);
    &&& is_size(n)
    &&& a <= size_mask(n)
    &&& b <= size_mask(n)
    &&& s.flag(f, FlagSlot::LastOp1) == a as i32
    &&& s.flag(f, FlagSlot::LastResult) == difference(a, b, n) as i32
    &&& s.flag(f, FlagSlot::LastOpSize) == n
    &&& changed < 0
    &&& changed & FLAG_CARRY != 0
    &&& changed & FLAG_ZERO != 0
    &&& changed & FLAG_SIGN != 0
    &&& changed & FLAG_OVERFLOW != 0
}

/// The instruction before compared `a` with `b`, and what is known of its operands holds still.
pub open spec fn compared(s: Words, p: Instruction, a: u32, b: u32, n: i32) -> bool {
    match p {
        Instruction::Cmp { dest, source, opsize } => {
            &&& opsize == n
            &&& dest matches InstructionOperandDest::WasmLocal(l) ==> low(s.locals[l.0], n) == a
            &&& match source {
                InstructionOperand::WasmLocal(l) => low(s.locals[l.0], n) == b,
                InstructionOperand::Immediate(i) => i == b as i32,
                InstructionOperand::Other => true,
            }
        },
        _ => false,
    }
}

/// A word of which the whole is an operand.
pub proof fn lemma_whole(v: i32, x: u32)
    requires
        low(v, OPSIZE_32) == x,
    ensures
        v == x as i32,
{
    bits_of_casts(v);
    bits_of_signs(v as u32, 0, 0, 0xffff_ffff, 0x8000_0000);
}

proof fn lemma_op1(s: Words, f: Option<FlagLocals>, p: Instruction, a: u32, b: u32, n: i32)
    requires
        recorded(s, f, a, b, n),
        compared(s, p, a, b, n),
    ensures
        wasm_run::evaluates(E::last_op1(f, p), s, a as i32, s),
{
    reveal(E::last_op1);
    wasm_run::evaluate_flag(f, FlagSlot::LastOp1, s);
    match p.op1_at() {
        Some(l) => {
            wasm_run::evaluate_local(l.0, s);
            lemma_whole(s.locals[l.0], a);
        },
        None => {},
    }
}

proof fn lemma_result(s: Words, f: Option<FlagLocals>, p: Instruction, a: u32, b: u32, n: i32)
    requires
        recorded(s, f, a, b, n),
        compared(s, p, a, b, n),
    ensures
        wasm_run::evaluates(E::last_result(f, p), s, difference(a, b, n) as i32, s),
{
    reveal(E::last_result);
    wasm_run::evaluate_flag(f, FlagSlot::LastResult, s);
    match p.result_at() {
        Some(l) => {
            wasm_run::evaluate_local(l.0, s);
            lemma_whole(s.locals[l.0], a);
            lemma_binary(b, 0);
            assert(b == 0);
        },
        None => {},
    }
}

proof fn lemma_op2(s: Words, f: Option<FlagLocals>, p: Instruction, a: u32, b: u32, n: i32)
    requires
        recorded(s, f, a, b, n),
        compared(s, p, a, b, n),
    ensures
        wasm_run::evaluates(E::last_op2(f, p), s, op2(a, b, n) as i32, s),
{
    let d = difference(a, b, n);
    lemma_op1(s, f, p, a, b, n);
    lemma_result(s, f, p, a, b, n);
    wasm_run::evaluate_bin(
        Bin::Sub,
        E::last_op1(f, p),
        E::last_result(f, p),
        s,
        a as i32,
        s,
        d as i32,
        s,
    );
    lemma_binary(a, d);
}

pub proof fn lemma_masked(x: E, s: Words, v: i32, n: i32)
    requires
        is_size(n),
        wasm_run::evaluates(x, s, v, s),
    ensures
        wasm_run::evaluates(x.masked(n), s, low(v, n) as i32, s),
{
    reveal(E::masked);
    bits_of_casts(v);
    lemma_binary(v as u32, size_mask(n));
    bits_of_signs(v as u32, 0, 0, 0xffff_ffff, 0x8000_0000);
    if n == OPSIZE_8 {
        wasm_run::evaluate_binc(Bin::And, x, 0xff, s, v, s);
    } else if n == OPSIZE_16 {
        wasm_run::evaluate_binc(Bin::And, x, 0xffff, s, v, s);
    }
}

pub proof fn lemma_signed(x: E, s: Words, v: i32, n: i32)
    requires
        is_size(n),
        wasm_run::evaluates(x, s, v, s),
    ensures
        wasm_run::evaluates(x.signed(n), s, v << shift(n), s),
{
    reveal(E::signed);
    bits_of_casts(v);
    bits_of_signs(v as u32, 0, 24, 0xff, 0x80);
    bits_of_signs(v as u32, 0, 0, 0xffff_ffff, 0x8000_0000);
    if n == OPSIZE_8 {
        wasm_run::evaluate_binc(Bin::Shl, x, 24, s, v, s);
    } else if n == OPSIZE_16 {
        wasm_run::evaluate_binc(Bin::Shl, x, 16, s, v, s);
    }
}

proof fn fast_zf(
    s: Words,
    f: Option<FlagLocals>,
    p: Instruction,
    negate: bool,
    a: u32,
    b: u32,
    n: i32,
) -> (v: i32)
    requires
        recorded(s, f, a, b, n),
        compared(s, p, a, b, n),
    ensures
        wasm_run::evaluates(E::zf(f, p, negate), s, v, s),
        v != 0 <==> (a == b) != negate,
{
    reveal(E::zf);
    let d = difference(a, b, n);
    let rel = crate::codegen_cond::relation(negate, Bin::Eq, Bin::Ne);
    lemma_overflow(a, b, n);
    lemma_binary(a, b);
    lemma_binary(d, 0);
    lemma_result(s, f, p, a, b, n);
    wasm_run::evaluate_eqz_if(E::last_result(f, p), !negate, s, d as i32, s);
    match p {
        Instruction::Cmp { dest, source, opsize } => match (dest.whole(opsize), source) {
            (Some(l), InstructionOperand::WasmLocal(r)) => {
                lemma_whole(s.locals[l.0], a);
                lemma_whole(s.locals[r.0], b);
                wasm_run::evaluate_local(l.0, s);
                wasm_run::evaluate_local(r.0, s);
                wasm_run::evaluate_bin(rel, E::L(l.0), E::L(r.0), s, a as i32, s, b as i32, s);
                wasm_run::binary(rel, a as i32, b as i32)
            },
            (Some(l), InstructionOperand::Immediate(i)) => {
                lemma_whole(s.locals[l.0], a);
                wasm_run::evaluate_local(l.0, s);
                lemma_binary(b, 0);
                if i == 0 {
                    lemma_binary(a, 0);
                    wasm_run::evaluate_eqz_if(E::L(l.0), !negate, s, a as i32, s);
                    wasm_run::inverted(!negate, a as i32)
                } else {
                    wasm_run::evaluate_binc(rel, E::L(l.0), i, s, a as i32, s);
                    wasm_run::binary(rel, a as i32, i)
                }
            },
            _ => wasm_run::inverted(!negate, d as i32),
        },
        _ => 0,
    }
}

proof fn fast_cf(
    s: Words,
    f: Option<FlagLocals>,
    p: Instruction,
    negate: bool,
    a: u32,
    b: u32,
    n: i32,
) -> (v: i32)
    requires
        recorded(s, f, a, b, n),
        compared(s, p, a, b, n),
    ensures
        p matches Instruction::Cmp { source, opsize, .. } && wasm_run::evaluates(
            E::borrow(f, p, opsize, source, negate),
            s,
            v,
            s,
        ),
        v != 0 <==> (a < b) != negate,
{
    reveal(E::operand_or);
    let d = difference(a, b, n);
    let rel = crate::codegen_cond::relation(negate, Bin::LtU, Bin::GeU);
    let source = p->Cmp_source;
    let other = E::operand_or(n, source, E::last_result(f, p));
    lemma_overflow(a, b, n);
    lemma_op1(s, f, p, a, b, n);
    lemma_result(s, f, p, a, b, n);
    let y: u32 = match source {
        InstructionOperand::WasmLocal(l) => if n == OPSIZE_32 {
            lemma_whole(s.locals[l.0], b);
            wasm_run::evaluate_local(l.0, s);
            b
        } else {
            d
        },
        InstructionOperand::Immediate(i) => {
            wasm_run::evaluate_constant(i, s);
            b
        },
        InstructionOperand::Other => d,
    };
    lemma_binary(a, y);
    wasm_run::evaluate_bin(rel, E::last_op1(f, p), other, s, a as i32, s, y as i32, s);
    wasm_run::binary(rel, a as i32, y as i32)
}

proof fn fast_be(
    s: Words,
    f: Option<FlagLocals>,
    p: Instruction,
    negate: bool,
    a: u32,
    b: u32,
    n: i32,
) -> (v: i32)
    requires
        recorded(s, f, a, b, n),
        compared(s, p, a, b, n),
    ensures
        p matches Instruction::Cmp { dest, source, opsize } && wasm_run::evaluates(
            E::unsigned_left(f, p, dest, opsize).bin(
                crate::codegen_cond::relation(negate, Bin::LeU, Bin::GtU),
                E::unsigned_right(f, p, source, opsize),
            ),
            s,
            v,
            s,
        ),
        v != 0 <==> (a <= b) != negate,
{
    reveal(E::unsigned_left);
    reveal(E::unsigned_right);
    let rel = crate::codegen_cond::relation(negate, Bin::LeU, Bin::GtU);
    let dest = p->Cmp_dest;
    let source = p->Cmp_source;
    lemma_op1(s, f, p, a, b, n);
    lemma_op2(s, f, p, a, b, n);
    lemma_difference(a, b, n);
    lemma_binary(op2(a, b, n), b);
    match dest {
        InstructionOperandDest::WasmLocal(l) => {
            wasm_run::evaluate_local(l.0, s);
            lemma_masked(E::L(l.0), s, s.locals[l.0], n);
        },
        InstructionOperandDest::Other => {},
    }
    match source {
        InstructionOperand::WasmLocal(l) => {
            wasm_run::evaluate_local(l.0, s);
            lemma_masked(E::L(l.0), s, s.locals[l.0], n);
        },
        InstructionOperand::Immediate(i) => {
            wasm_run::evaluate_constant(i, s);
        },
        InstructionOperand::Other => {
            lemma_masked(E::last_op2(f, p), s, op2(a, b, n) as i32, n);
        },
    }
    lemma_binary(a, b);
    wasm_run::evaluate_bin(
        rel,
        E::unsigned_left(f, p, dest, n),
        E::unsigned_right(f, p, source, n),
        s,
        a as i32,
        s,
        b as i32,
        s,
    );
    wasm_run::binary(rel, a as i32, b as i32)
}

/// A word whose operand is `a`, and how it compares with one whose operand is `b`.
pub proof fn lemma_signs_of(v: i32, w: i32, a: u32, b: u32, n: i32)
    requires
        is_size(n),
        low(v, n) == a,
        low(w, n) == b,
    ensures
        (v << shift(n)) < (w << shift(n)) <==> signed_value(a, n) < signed_value(b, n),
        (v << shift(n)) <= (w << shift(n)) <==> signed_value(a, n) <= signed_value(b, n),
{
    bits_of_casts(v);
    bits_of_casts(w);
    lemma_signs(v as u32, w as u32, n);
}

pub proof fn lemma_low(x: u32, n: i32)
    requires
        is_size(n),
        x <= size_mask(n),
    ensures
        low(x as i32, n) == x,
{
    lemma_binary(x, 0);
    assert((x <= 0xff ==> x & 0xff == x) && (x <= 0xffff ==> x & 0xffff == x)) by (bit_vector);
    bits_of_signs(x, 0, 0, 0xffff_ffff, 0x8000_0000);
}

/// The relations that a signed comparison is made with.
pub open spec fn signed_relation(rel: Bin, x: int, y: int) -> bool {
    match rel {
        Bin::LtS => x < y,
        Bin::GeS => x >= y,
        Bin::LeS => x <= y,
        _ => x > y,
    }
}

proof fn fast_signed(
    s: Words,
    f: Option<FlagLocals>,
    p: Instruction,
    rel: Bin,
    a: u32,
    b: u32,
    n: i32,
) -> (v: i32)
    requires
        recorded(s, f, a, b, n),
        compared(s, p, a, b, n),
        rel is LtS || rel is GeS || rel is LeS || rel is GtS,
    ensures
        wasm_run::evaluates(E::compare_signed(f, p, rel), s, v, s),
        v != 0 <==> signed_relation(rel, signed_value(a, n), signed_value(b, n)),
{
    reveal(E::signed_left);
    reveal(E::signed_right);
    let dest = p->Cmp_dest;
    let source = p->Cmp_source;
    let q = op2(a, b, n);
    lemma_op1(s, f, p, a, b, n);
    lemma_op2(s, f, p, a, b, n);
    lemma_difference(a, b, n);
    lemma_low(a, n);
    lemma_low(b, n);
    lemma_binary(q, 0);
    let x: i32 = match dest {
        InstructionOperandDest::WasmLocal(l) => {
            wasm_run::evaluate_local(l.0, s);
            lemma_signed(E::L(l.0), s, s.locals[l.0], n);
            s.locals[l.0]
        },
        InstructionOperandDest::Other => {
            lemma_signed(E::last_op1(f, p), s, a as i32, n);
            a as i32
        },
    };
    let y: i32 = match source {
        InstructionOperand::WasmLocal(l) => {
            wasm_run::evaluate_local(l.0, s);
            lemma_signed(E::L(l.0), s, s.locals[l.0], n);
            s.locals[l.0]
        },
        InstructionOperand::Immediate(i) => {
            wasm_run::evaluate_constant(i, s);
            lemma_signed(E::C(i), s, i, n);
            i
        },
        InstructionOperand::Other => {
            lemma_signed(E::last_op2(f, p), s, q as i32, n);
            q as i32
        },
    };
    lemma_signs_of(x, y, a, b, n);
    wasm_run::evaluate_bin(
        rel,
        E::signed_left(f, p, dest, n),
        E::signed_right(f, p, source, n),
        s,
        x << shift(n),
        s,
        y << shift(n),
        s,
    );
    wasm_run::binary(rel, x << shift(n), y << shift(n))
}

proof fn fast_sf(
    s: Words,
    f: Option<FlagLocals>,
    p: Instruction,
    negate: bool,
    a: u32,
    b: u32,
    n: i32,
) -> (v: i32)
    requires
        recorded(s, f, a, b, n),
        compared(s, p, a, b, n),
    ensures
        wasm_run::evaluates(E::sf(f, p, n, negate), s, v, s),
        v != 0 <==> (difference(a, b, n) >= half(n)) != negate,
{
    let d = difference(a, b, n);
    let rel = crate::codegen_cond::relation(negate, Bin::LtS, Bin::GeS);
    lemma_result(s, f, p, a, b, n);
    lemma_difference(a, b, n);
    if n == OPSIZE_32 {
        lemma_binary(d, 0);
        wasm_run::evaluate_binc(rel, E::last_result(f, p), 0, s, d as i32, s);
        wasm_run::binary(rel, d as i32, 0)
    } else {
        let bit = d & half(n);
        lemma_binary(d, half(n));
        lemma_binary(bit, 0);
        wasm_run::evaluate_binc(Bin::And, E::last_result(f, p), sign_bit(n), s, d as i32, s);
        wasm_run::evaluate_eqz_if(
            E::last_result(f, p).and(sign_bit(n)),
            negate,
            s,
            bit as i32,
            s,
        );
        wasm_run::inverted(negate, bit as i32)
    }
}

pub proof fn lemma_sign_bit(n: i32)
    requires
        is_size(n),
    ensures
        sign_bit(n) == half(n) as i32,
{
    assert(0x8000_0000u32 as i32 == -2147483648i32) by (bit_vector);
}

proof fn fast_of(
    s: Words,
    f: Option<FlagLocals>,
    p: Instruction,
    a: u32,
    b: u32,
    n: i32,
) -> (v: i32)
    requires
        recorded(s, f, a, b, n),
        compared(s, p, a, b, n),
    ensures
        wasm_run::evaluates(E::of_sub(f, p, n), s, v, s),
        v != 0 <==> holds(0, a, b, n),
{
    let d = difference(a, b, n);
    let q = op2(a, b, n);
    let op1 = E::last_op1(f, p);
    let left = op1.bin(Bin::Xor, E::last_result(f, p));
    let right = op1.bin(Bin::Xor, E::last_op2(f, p));
    lemma_op1(s, f, p, a, b, n);
    lemma_result(s, f, p, a, b, n);
    lemma_op2(s, f, p, a, b, n);
    lemma_difference(a, b, n);
    lemma_sign_bit(n);
    lemma_binary(a, d);
    lemma_binary(a, q);
    lemma_binary(a ^ d, a ^ q);
    lemma_binary((a ^ d) & (a ^ q), half(n));
    lemma_binary(((a ^ d) & (a ^ q)) & half(n), 0);
    wasm_run::evaluate_bin(
        Bin::Xor,
        op1,
        E::last_result(f, p),
        s,
        a as i32,
        s,
        d as i32,
        s,
    );
    wasm_run::evaluate_bin(Bin::Xor, op1, E::last_op2(f, p), s, a as i32, s, q as i32, s);
    wasm_run::evaluate_bin(
        Bin::And,
        left,
        right,
        s,
        (a ^ d) as i32,
        s,
        (a ^ q) as i32,
        s,
    );
    wasm_run::evaluate_binc(
        Bin::And,
        left.bin(Bin::And, right),
        sign_bit(n),
        s,
        ((a ^ d) & (a ^ q)) as i32,
        s,
    );
    (((a ^ d) & (a ^ q)) & half(n)) as i32
}

/// The locals that the builder hands out are no flag locals, and there is room for `k` more.
pub open spec fn apart(e: Emit, k: int) -> bool {
    &&& e.locals.len() + k <= usize::MAX
    &&& e.free_i32.no_duplicates()
    &&& forall|i: int| 0 <= i < e.free_i32.len() ==> #[trigger] e.free_i32[i] < e.locals.len()
    &&& e.flag_locals matches Some(f) ==> forall|slot: FlagSlot|
        #[trigger] f.at(slot) < e.locals.len() && !e.free_i32.contains(f.at(slot))
}

/// A local that is handed out and that nothing else uses.
spec fn is_own(e: Emit, t: usize) -> bool {
    &&& t < e.locals.len()
    &&& !e.free_i32.contains(t)
    &&& e.flag_locals matches Some(f) ==> forall|slot: FlagSlot| #[trigger] f.at(slot) != t
}

proof fn lemma_take(e: Emit, k: int)
    requires
        apart(e, k),
        k > 0,
    ensures
        ({
            let t = e.next_i32();
            let r = e.take_i32();
            &&& apart(r, k - 1)
            &&& is_own(r, t)
            &&& r.code == e.code
            &&& r.opt == e.opt
            &&& r.flag_locals == e.flag_locals
            &&& forall|x: usize| #[trigger] is_own(e, x) ==> is_own(r, x) && x != t
        }),
{
    reveal(Emit::next_i32);
    reveal(Emit::take_i32);
    let t = e.next_i32();
    let r = e.take_i32();
    if e.free_i32.len() > 0 {
        let z = e.free_i32.len() - 1;
        assert(e.free_i32[z] == t);
        assert(e.free_i32.contains(t));
        assert forall|x: usize| r.free_i32.contains(x) implies e.free_i32.contains(x) && x != t by {
            let i = choose|i: int| 0 <= i < r.free_i32.len() && r.free_i32[i] == x;
            assert(e.free_i32[i] == x);
        }
    }
}

proof fn lemma_give(e: Emit, t: usize, k: int)
    requires
        apart(e, k),
        is_own(e, t),
    ensures
        ({
            let r = e.give_i32(t);
            &&& apart(r, k)
            &&& r.code == e.code
            &&& r.opt == e.opt
            &&& r.flag_locals == e.flag_locals
            &&& forall|x: usize| #[trigger] is_own(e, x) && x != t ==> is_own(r, x)
        }),
{
    reveal(Emit::give_i32);
    let r = e.give_i32(t);
    assert forall|x: usize| r.free_i32.contains(x) implies e.free_i32.contains(x) || x == t by {
        let i = choose|i: int| 0 <= i < r.free_i32.len() && r.free_i32[i] == x;
        if i < e.free_i32.len() {
            assert(e.free_i32[i] == x);
        }
    }
    assert forall|i: int, j: int|
        0 <= i < r.free_i32.len() && 0 <= j < r.free_i32.len() && i != j implies r.free_i32[i]
        != r.free_i32[j] by {
        if i < e.free_i32.len() && j < e.free_i32.len() {
            assert(e.free_i32[i] != e.free_i32[j]);
        } else if i < e.free_i32.len() {
            assert(e.free_i32.contains(e.free_i32[i]));
        } else {
            assert(e.free_i32.contains(e.free_i32[j]));
        }
    }
}

proof fn lemma_quiet(e: Emit, stat: crate::cpu_state::Stat)
    requires
        !e.opt.profiler,
    ensures
        e.profile(stat) == e,
{
    reveal(Emit::profile);
}

/// Another local does not change the lazy flag state.
proof fn lemma_kept(s: Words, f: Option<FlagLocals>, t: usize, v: i32, a: u32, b: u32, n: i32)
    requires
        recorded(s, f, a, b, n),
        f matches Some(l) ==> forall|slot: FlagSlot| #[trigger] l.at(slot) != t,
    ensures
        recorded(s.set(t, v), f, a, b, n),
        forall|slot: FlagSlot| #[trigger] s.set(t, v).flag(f, slot) == s.flag(f, slot),
{
    assert forall|slot: FlagSlot| #[trigger] s.set(t, v).flag(f, slot) == s.flag(f, slot) by {
        match f {
            Some(l) => {
                assert(l.at(slot) != t);
            },
            None => {},
        }
    }
}

proof fn bits_of_lazy(a: u32, b: u32, d: u32, d1: u32, w: u32, n: u32, m: u32, h: u32)
    by (bit_vector)
    requires
        (n == 7 && m == 0xff && h == 0x80) || (n == 15 && m == 0xffff && h == 0x8000) || (n == 31
            && m == 0xffff_ffff && h == 0x8000_0000),
        a <= m,
        b <= m,
        a >= b ==> d == a - b,
        a < b ==> d == a - b + m + 1,
        d > 0 ==> d1 == d - 1,
        d == 0 ==> d1 == 0xffff_ffff,
        d > a ==> w == d - a - 1,
        d <= a ==> w == d - a - 1 + 0x1_0000_0000,
    ensures
        n & 31 == n,
        ((((d ^ 0xffff_ffff) & d1) >> n) & 1 != 0) == (d == 0),
        ((d >> n) & 1 != 0) == (d >= h),
        ((((a ^ d) & (w ^ d)) >> n) & 1 != 0) == ((a >= h) != (d >= h) && (a >= h) != (b >= h)),
        ((d ^ 0xffff_ffff) < (a ^ 0xffff_ffff)) == (a < d),
{
}

proof fn bits_of_changed(c: i32)
    by (bit_vector)
    requires
        c < 0,
    ensures
        c >> 31u32 == -1i32,
        (c as u32 >> 31u32) as i32 == 1i32,
        0xffff_ffffu32 as i32 == -1i32,
        31i32 & 31i32 == 31i32,
{
}

/// The value of the bit that the operand size names.
proof fn lemma_at_opsize(x: E, f: Option<FlagLocals>, s: Words, u: u32, t: Words, a: u32, b: u32, n: i32)
    requires
        wasm_run::evaluates(x, s, u as i32, t),
        recorded(t, f, a, b, n),
    ensures
        wasm_run::evaluates(x.at_opsize(f), s, ((u >> (n as u32 & 31)) & 1) as i32, t),
{
    let w = u >> (n as u32 & 31);
    wasm_run::evaluate_flag(f, FlagSlot::LastOpSize, t);
    lemma_binary(u, n as u32);
    assert((n as u32) as i32 == n);
    wasm_run::evaluate_bin(
        Bin::ShrU,
        x,
        E::flag(f, FlagSlot::LastOpSize),
        s,
        u as i32,
        t,
        n,
        t,
    );
    lemma_binary(w, 1);
    wasm_run::evaluate_binc(
        Bin::And,
        x.bin(Bin::ShrU, E::flag(f, FlagSlot::LastOpSize)),
        1,
        s,
        w as i32,
        t,
    );
}

proof fn lemma_lazy_bits(a: u32, b: u32, n: i32)
    requires
        is_size(n),
        a <= size_mask(n),
        b <= size_mask(n),
    ensures
        ({
            let d = difference(a, b, n);
            let k = n as u32 & 31;
            let w = d.wrapping_sub(a).wrapping_sub(1);
            &&& ((((d ^ 0xffff_ffff) & d.wrapping_sub(1)) >> k) & 1 != 0) <==> a == b
            &&& ((d >> k) & 1 != 0) <==> d >= half(n)
            &&& ((((a ^ d) & (w ^ d)) >> k) & 1 != 0) <==> holds(0, a, b, n)
            &&& (d ^ 0xffff_ffff) < (a ^ 0xffff_ffff) <==> a < b
        }),
{
    let d = difference(a, b, n);
    lemma_overflow(a, b, n);
    bits_of_lazy(
        a,
        b,
        d,
        d.wrapping_sub(1),
        d.wrapping_sub(a).wrapping_sub(1),
        n as u32,
        size_mask(n),
        half(n),
    );
}

/// No word of the lazy flag state stands in the local.
spec fn no_flag(f: Option<FlagLocals>, t: usize) -> bool {
    f matches Some(l) ==> forall|slot: FlagSlot| #[trigger] l.at(slot) != t
}

proof fn lazy_zf(
    s: Words,
    f: Option<FlagLocals>,
    t: usize,
    negate: bool,
    a: u32,
    b: u32,
    n: i32,
) -> (v: i32)
    requires
        recorded(s, f, a, b, n),
        no_flag(f, t),
    ensures
        wasm_run::evaluates(
            E::zf_lazy(f, t, negate),
            s,
            v,
            s.set(t, difference(a, b, n) as i32),
        ),
        v != 0 <==> (a == b) != negate,
{
    let d = difference(a, b, n);
    let k = n as u32 & 31;
    let c = s.flag(f, FlagSlot::FlagsChanged);
    let s1 = s.set(t, d as i32);
    let result = E::flag(f, FlagSlot::LastResult);
    lemma_kept(s, f, t, d as i32, a, b, n);
    lemma_lazy_bits(a, b, n);
    bits_of_changed(c);
    wasm_run::evaluate_flag(f, FlagSlot::FlagsChanged, s);
    wasm_run::evaluate_binc(Bin::And, E::flag(f, FlagSlot::FlagsChanged), FLAG_ZERO, s, c, s);
    wasm_run::evaluate_flag(f, FlagSlot::LastResult, s);
    wasm_run::evaluate_tee(result, t, s, d as i32, s);
    let x1 = d ^ 0xffff_ffff;
    lemma_binary(d, 0xffff_ffff);
    wasm_run::evaluate_binc(Bin::Xor, result.tee(t), -1i32, s, d as i32, s1);
    let d1 = d.wrapping_sub(1);
    lemma_binary(d, 1);
    wasm_run::evaluate_local(t, s1);
    wasm_run::evaluate_binc(Bin::Sub, E::L(t), 1, s1, d as i32, s1);
    lemma_binary(x1, d1);
    let left = result.tee(t).binc(Bin::Xor, -1i32);
    let right = E::L(t).binc(Bin::Sub, 1);
    wasm_run::evaluate_bin(Bin::And, left, right, s, x1 as i32, s1, d1 as i32, s1);
    lemma_at_opsize(left.bin(Bin::And, right), f, s, x1 & d1, s1, a, b, n);
    let u = ((x1 & d1) >> k) & 1;
    lemma_binary(u, 0);
    wasm_run::evaluate_choice(
        E::flag_is_lazy(f, FLAG_ZERO),
        left.bin(Bin::And, right).at_opsize(f),
        E::flag_bit(f, FLAG_ZERO),
        s,
        c & FLAG_ZERO,
        s,
        u as i32,
        s1,
    );
    wasm_run::evaluate_eqz_if(
        E::flag_is_lazy(f, FLAG_ZERO).choose_i32(
            left.bin(Bin::And, right).at_opsize(f),
            E::flag_bit(f, FLAG_ZERO),
        ),
        negate,
        s,
        u as i32,
        s1,
    );
    wasm_run::inverted(negate, u as i32)
}

proof fn lazy_cf(
    s: Words,
    f: Option<FlagLocals>,
    t: usize,
    negate: bool,
    a: u32,
    b: u32,
    n: i32,
) -> (v: i32)
    requires
        recorded(s, f, a, b, n),
        no_flag(f, t),
    ensures
        wasm_run::evaluates(
            E::cf_lazy(f, t, negate),
            s,
            v,
            s.set(t, s.flag(f, FlagSlot::FlagsChanged)).set(t, -1i32),
        ),
        v != 0 <==> (a < b) != negate,
{
    let d = difference(a, b, n);
    let c = s.flag(f, FlagSlot::FlagsChanged);
    let s1 = s.set(t, c);
    let s2 = s1.set(t, -1i32);
    let changed = E::flag(f, FlagSlot::FlagsChanged);
    let result = E::flag(f, FlagSlot::LastResult);
    let op1 = E::flag(f, FlagSlot::LastOp1);
    lemma_kept(s, f, t, c, a, b, n);
    lemma_kept(s1, f, t, -1i32, a, b, n);
    lemma_lazy_bits(a, b, n);
    bits_of_changed(c);
    wasm_run::evaluate_flag(f, FlagSlot::FlagsChanged, s);
    wasm_run::evaluate_tee(changed, t, s, c, s);
    wasm_run::evaluate_binc(Bin::And, changed.tee(t), FLAG_CARRY, s, c, s1);
    wasm_run::evaluate_local(t, s1);
    wasm_run::evaluate_binc(Bin::ShrS, E::L(t), 31, s1, c, s1);
    wasm_run::evaluate_flag(f, FlagSlot::LastResult, s2);
    wasm_run::evaluate_flag(f, FlagSlot::LastOp1, s2);
    wasm_run::evaluate_local(t, s2);
    lemma_binary(d, 0xffff_ffff);
    lemma_binary(a, 0xffff_ffff);
    let x = d ^ 0xffff_ffff;
    let y = a ^ 0xffff_ffff;
    wasm_run::evaluate_bin(Bin::Xor, result, E::L(t), s2, d as i32, s2, -1i32, s2);
    wasm_run::evaluate_bin(Bin::Xor, op1, E::L(t), s2, a as i32, s2, -1i32, s2);
    lemma_binary(x, y);
    let test = result.bin(Bin::Xor, E::L(t)).bin(Bin::LtU, op1.bin(Bin::Xor, E::L(t)));
    let u = wasm_run::truth(x < y);
    wasm_run::evaluate_bin(
        Bin::LtU,
        result.bin(Bin::Xor, E::L(t)),
        op1.bin(Bin::Xor, E::L(t)),
        s2,
        x as i32,
        s2,
        y as i32,
        s2,
    );
    wasm_run::evaluate_kept(E::L(t).binc(Bin::ShrS, 31), t, test, s1, -1i32, s1, u, s2);
    wasm_run::evaluate_choice(
        changed.tee(t).and(FLAG_CARRY),
        E::L(t).binc(Bin::ShrS, 31).keep(t).both(test),
        E::flag_bit(f, FLAG_CARRY),
        s,
        c & FLAG_CARRY,
        s1,
        u,
        s2,
    );
    wasm_run::evaluate_eqz_if(
        changed.tee(t).and(FLAG_CARRY).choose_i32(
            E::L(t).binc(Bin::ShrS, 31).keep(t).both(test),
            E::flag_bit(f, FLAG_CARRY),
        ),
        negate,
        s,
        u,
        s2,
    );
    wasm_run::inverted(negate, u)
}

proof fn lazy_sf(
    s: Words,
    f: Option<FlagLocals>,
    negate: bool,
    a: u32,
    b: u32,
    n: i32,
) -> (v: i32)
    requires
        recorded(s, f, a, b, n),
    ensures
        wasm_run::evaluates(E::sf_lazy(f, negate), s, v, s),
        v != 0 <==> (difference(a, b, n) >= half(n)) != negate,
{
    let d = difference(a, b, n);
    let c = s.flag(f, FlagSlot::FlagsChanged);
    let u = (d >> (n as u32 & 31)) & 1;
    lemma_lazy_bits(a, b, n);
    wasm_run::evaluate_flag(f, FlagSlot::FlagsChanged, s);
    wasm_run::evaluate_binc(Bin::And, E::flag(f, FlagSlot::FlagsChanged), FLAG_SIGN, s, c, s);
    wasm_run::evaluate_flag(f, FlagSlot::LastResult, s);
    lemma_at_opsize(E::flag(f, FlagSlot::LastResult), f, s, d, s, a, b, n);
    lemma_binary(u, 0);
    wasm_run::evaluate_choice(
        E::flag_is_lazy(f, FLAG_SIGN),
        E::flag(f, FlagSlot::LastResult).at_opsize(f),
        E::flag_bit(f, FLAG_SIGN),
        s,
        c & FLAG_SIGN,
        s,
        u as i32,
        s,
    );
    wasm_run::evaluate_eqz_if(
        E::flag_is_lazy(f, FLAG_SIGN).choose_i32(
            E::flag(f, FlagSlot::LastResult).at_opsize(f),
            E::flag_bit(f, FLAG_SIGN),
        ),
        negate,
        s,
        u as i32,
        s,
    );
    wasm_run::inverted(negate, u as i32)
}

proof fn lazy_of(
    s: Words,
    f: Option<FlagLocals>,
    t0: usize,
    t1: usize,
    t2: usize,
    a: u32,
    b: u32,
    n: i32,
) -> (v: i32)
    requires
        recorded(s, f, a, b, n),
        no_flag(f, t0),
        no_flag(f, t1),
        no_flag(f, t2),
        t1 != t2,
    ensures
        wasm_run::evaluates(
            E::of_lazy(f, t0, t1, t2),
            s,
            v,
            s.set(t0, s.flag(f, FlagSlot::FlagsChanged)).set(t1, a as i32).set(
                t2,
                difference(a, b, n) as i32,
            ),
        ),
        v != 0 <==> holds(0, a, b, n),
{
    let d = difference(a, b, n);
    let c = s.flag(f, FlagSlot::FlagsChanged);
    let s0 = s.set(t0, c);
    let s1 = s0.set(t1, a as i32);
    let s2 = s1.set(t2, d as i32);
    let changed = E::flag(f, FlagSlot::FlagsChanged);
    let result = E::flag(f, FlagSlot::LastResult);
    let op1 = E::flag(f, FlagSlot::LastOp1);
    lemma_kept(s, f, t0, c, a, b, n);
    lemma_kept(s0, f, t1, a as i32, a, b, n);
    lemma_kept(s1, f, t2, d as i32, a, b, n);
    lemma_lazy_bits(a, b, n);
    bits_of_changed(c);
    wasm_run::evaluate_flag(f, FlagSlot::FlagsChanged, s);
    wasm_run::evaluate_tee(changed, t0, s, c, s);
    wasm_run::evaluate_binc(Bin::And, changed.tee(t0), FLAG_OVERFLOW, s, c, s0);
    wasm_run::evaluate_flag(f, FlagSlot::LastOp1, s0);
    wasm_run::evaluate_tee(op1, t1, s0, a as i32, s0);
    wasm_run::evaluate_flag(f, FlagSlot::LastResult, s1);
    wasm_run::evaluate_tee(result, t2, s1, d as i32, s1);
    let left = op1.tee(t1).bin(Bin::Xor, result.tee(t2));
    lemma_binary(a, d);
    wasm_run::evaluate_bin(
        Bin::Xor,
        op1.tee(t1),
        result.tee(t2),
        s0,
        a as i32,
        s1,
        d as i32,
        s2,
    );
    wasm_run::evaluate_local(t1, s2);
    wasm_run::evaluate_local(t2, s2);
    let w1 = d.wrapping_sub(a);
    let w = w1.wrapping_sub(1);
    lemma_binary(d, a);
    wasm_run::evaluate_bin(Bin::Sub, E::L(t2), E::L(t1), s2, d as i32, s2, a as i32, s2);
    wasm_run::evaluate_flag(f, FlagSlot::FlagsChanged, s2);
    wasm_run::evaluate_binc(Bin::ShrU, changed, 31, s2, c, s2);
    lemma_binary(w1, 1);
    let inner = E::L(t2).bin(Bin::Sub, E::L(t1)).bin(Bin::Sub, changed.binc(Bin::ShrU, 31));
    wasm_run::evaluate_bin(
        Bin::Sub,
        E::L(t2).bin(Bin::Sub, E::L(t1)),
        changed.binc(Bin::ShrU, 31),
        s2,
        w1 as i32,
        s2,
        1,
        s2,
    );
    lemma_binary(w, d);
    let right = inner.bin(Bin::Xor, E::L(t2));
    wasm_run::evaluate_bin(Bin::Xor, inner, E::L(t2), s2, w as i32, s2, d as i32, s2);
    lemma_binary(a ^ d, w ^ d);
    wasm_run::evaluate_bin(
        Bin::And,
        left,
        right,
        s0,
        (a ^ d) as i32,
        s2,
        (w ^ d) as i32,
        s2,
    );
    lemma_at_opsize(left.bin(Bin::And, right), f, s0, (a ^ d) & (w ^ d), s2, a, b, n);
    let u = (((a ^ d) & (w ^ d)) >> (n as u32 & 31)) & 1;
    lemma_binary(u, 0);
    wasm_run::evaluate_choice(
        changed.tee(t0).and(FLAG_OVERFLOW),
        left.bin(Bin::And, right).at_opsize(f),
        E::flag_bit(f, FLAG_OVERFLOW),
        s,
        c & FLAG_OVERFLOW,
        s0,
        u as i32,
        s2,
    );
    u as i32
}

/// The expression for the zero flag after `p`.
pub open spec fn zf_expression(e: Emit, p: Instruction, negate: bool) -> E {
    if p is Other {
        E::zf_lazy(e.flag_locals, e.next_i32(), negate)
    } else {
        E::zf(e.flag_locals, p, negate)
    }
}

/// The expression for the carry flag after `p`.
pub open spec fn cf_expression(e: Emit, p: Instruction, negate: bool) -> E {
    let f = e.flag_locals;
    let bit = E::flag_bit(f, FLAG_CARRY).eqz_if(negate);
    match p {
        Instruction::Cmp { source, opsize, .. } => E::borrow(f, p, opsize, source, negate),
        Instruction::Sub { source, opsize, is_dec, .. } => if is_dec {
            bit
        } else {
            E::borrow(f, p, opsize, source, negate)
        },
        Instruction::Add { source, opsize, is_inc, .. } => if is_inc {
            bit
        } else {
            E::carry(f, p, opsize, source, negate)
        },
        Instruction::Bitwise { .. } => E::C(
            if negate {
                1
            } else {
                0
            },
        ),
        Instruction::NonZeroShift { .. } => bit,
        Instruction::AdcSbb { .. } => bit,
        Instruction::Other => E::cf_lazy(f, e.next_i32(), negate),
    }
}

/// The expression for the sign flag after `p`.
pub open spec fn sf_expression(e: Emit, p: Instruction, negate: bool) -> E {
    match p.opsize() {
        Some(opsize) => E::sf(e.flag_locals, p, opsize, negate),
        None => E::sf_lazy(e.flag_locals, negate),
    }
}

/// The expression for the overflow flag after `p`.
pub open spec fn of_expression(e: Emit, p: Instruction) -> E {
    let f = e.flag_locals;
    match p {
        Instruction::Cmp { opsize, .. } => E::of_sub(f, p, opsize),
        Instruction::Sub { opsize, .. } => E::of_sub(f, p, opsize),
        Instruction::Add { opsize, .. } => E::of_add(f, p, opsize),
        Instruction::Bitwise { .. } => E::C(0),
        Instruction::NonZeroShift { .. } => E::flag_bit(f, FLAG_OVERFLOW),
        Instruction::AdcSbb { .. } => E::flag_bit(f, FLAG_OVERFLOW),
        Instruction::Other => E::of_lazy(
            f,
            e.next_i32(),
            e.take_i32().next_i32(),
            e.take_i32().take_i32().next_i32(),
        ),
    }
}

/// Code that is the code of an expression, in an otherwise unchanged setting.
pub open spec fn is_value(e: Emit, r: Emit, x: E) -> bool {
    &&& r.code == x.code(e.code)
    &&& r.opt == e.opt
    &&& r.flag_locals == e.flag_locals
}

pub proof fn lemma_all_quiet(e: Emit)
    requires
        !e.opt.profiler,
    ensures
        forall|stat: crate::cpu_state::Stat| #[trigger] e.profile(stat) == e,
{
    assert forall|stat: crate::cpu_state::Stat| #[trigger] e.profile(stat) == e by {
        lemma_quiet(e, stat);
    }
}

pub proof fn lemma_zf_code(e: Emit, p: Instruction, negate: bool)
    requires
        !e.opt.profiler,
    ensures
        is_value(e, e.zf(p, negate), zf_expression(e, p, negate)),
{
    reveal(Emit::zf);
    reveal(Emit::zf_lazy);
    reveal(Emit::val);
    reveal(Emit::take_i32);
    reveal(Emit::give_i32);
    lemma_all_quiet(e);
}

pub proof fn lemma_cf_code(e: Emit, p: Instruction, negate: bool)
    requires
        !e.opt.profiler,
    ensures
        is_value(e, e.cf(p, negate), cf_expression(e, p, negate)),
{
    reveal(Emit::cf);
    reveal(Emit::cf_lazy);
    reveal(Emit::val);
    reveal(Emit::take_i32);
    reveal(Emit::give_i32);
    lemma_all_quiet(e);
}

pub proof fn lemma_sf_code(e: Emit, p: Instruction, negate: bool)
    requires
        !e.opt.profiler,
    ensures
        is_value(e, e.sf(p, negate), sf_expression(e, p, negate)),
{
    reveal(Emit::sf);
    reveal(Emit::val);
    lemma_all_quiet(e);
}

pub proof fn lemma_of_code(e: Emit, p: Instruction)
    requires
        !e.opt.profiler,
    ensures
        is_value(e, e.of(p), of_expression(e, p)),
{
    reveal(Emit::of);
    reveal(Emit::of_lazy);
    reveal(Emit::val);
    reveal(Emit::take_i32);
    reveal(Emit::give_i32);
    lemma_all_quiet(e);
}

/// A binary instruction on the two values that code has left.
pub proof fn add_bin(
    c: Seq<Op>,
    r: Emit,
    b: Bin,
    s: Words,
    t: Words,
    k: Seq<i32>,
    u: i32,
    v: i32,
)
    requires
        !(b is AddI64),
        wasm_run::leads(c, r.code, s, t),
        t.stack == k.push(u).push(v),
    ensures
        wasm_run::leads(
            c,
            r.op(Op::Bin(b)).code,
            s,
            t.on(k.push(wasm_run::binary(b, u, v))),
        ),
{
    reveal(Emit::op);
    let w = wasm_run::step(Op::Bin(b), t);
    assert(k.push(u).push(v).drop_last() =~= k.push(u));
    assert(k.push(u).drop_last() =~= k);
    wasm_run::lemma_op(r.code, Op::Bin(b), t);
    wasm_run::lemma_leads_on(c, r.code, r.op(Op::Bin(b)).code, s, t, w);
    assert(w == t.on(k.push(wasm_run::binary(b, u, v))));
}

/// The value that code has left is inverted where `negate` holds.
pub proof fn add_eqz_if(
    c: Seq<Op>,
    r: Emit,
    negate: bool,
    s: Words,
    t: Words,
    k: Seq<i32>,
    u: i32,
)
    requires
        wasm_run::leads(c, r.code, s, t),
        t.stack == k.push(u),
    ensures
        wasm_run::leads(
            c,
            r.val(E::Top.eqz_if(negate)).code,
            s,
            t.on(k.push(wasm_run::inverted(negate, u))),
        ),
{
    reveal(Emit::val);
    reveal(E::eqz_if);
    reveal_with_fuel(E::done, 2);
    let x = E::Top.eqz_if(negate);
    assert(k.push(u).drop_last() =~= k);
    wasm_run::law_expressions_run(x, r.code, t);
    wasm_run::lemma_leads_on(c, r.code, r.val(x).code, s, t, x.done(t));
    assert(x.done(t) == t.on(k.push(wasm_run::inverted(negate, u))));
}

pub proof fn bits_of_truths(u: i32, v: i32)
    by (bit_vector)
    ensures
        (u | v != 0) == (u != 0 || v != 0),
        0i32 ^ 0i32 == 0i32,
        1i32 ^ 1i32 == 0i32,
        1i32 ^ 0i32 != 0i32,
        0i32 ^ 1i32 != 0i32,
{
}

/// The code that a condition adds can rely on: nothing is counted in it, the locals it takes are
/// its own, and the instruction before is recorded.
pub open spec fn is_ready(
    e: Emit,
    s: Words,
    p: Instruction,
    a: u32,
    b: u32,
    n: i32,
    k: int,
) -> bool {
    &&& !e.opt.profiler
    &&& apart(e, k)
    &&& recorded(s, e.flag_locals, a, b, n)
    &&& p is Other || (p is Cmp && compared(s, p, a, b, n))
}

/// Taking a local for a value and giving it back.
proof fn lemma_take_and_give(e: Emit, x: E, k: int)
    requires
        apart(e, k),
        k > 0,
    ensures
        apart(e.take_i32().val(x).give_i32(e.next_i32()), k - 1),
        is_own(e.take_i32(), e.next_i32()),
{
    reveal(Emit::val);
    lemma_take(e, k);
    lemma_give(e.take_i32().val(x), e.next_i32(), k - 1);
}

proof fn piece_zf(
    e: Emit,
    s: Words,
    p: Instruction,
    negate: bool,
    a: u32,
    b: u32,
    n: i32,
    k: int,
) -> (r: (i32, Words))
    requires
        is_ready(e, s, p, a, b, n, k),
        k > 0,
    ensures
        wasm_run::leads(e.code, e.zf(p, negate).code, s, r.1),
        r.1.stack == s.stack.push(r.0),
        r.1.memory == s.memory,
        r.0 != 0 <==> (a == b) != negate,
        p is Other ==> is_ready(e.zf(p, negate), r.1, p, a, b, n, k - 1),
{
    let f = e.flag_locals;
    let x = zf_expression(e, p, negate);
    let g = e.zf(p, negate);
    lemma_zf_code(e, p, negate);
    if p is Other {
        let t = e.next_i32();
        lemma_take_and_give(e, x, k);
        lemma_take(e, k);
        reveal(Emit::zf);
        reveal(Emit::zf_lazy);
        lemma_all_quiet(e);
        let v = lazy_zf(s, f, t, negate, a, b, n);
        let d = difference(a, b, n) as i32;
        lemma_kept(s, f, t, d, a, b, n);
        lemma_val(e, g, x, s, v, s.set(t, d));
        let end = s.set(t, d).on(s.stack.push(v));
        assert(recorded(end, f, a, b, n)) by {
            lemma_on(s.set(t, d), s.stack.push(v), f, a, b, n);
        }
        (v, end)
    } else {
        let v = fast_zf(s, f, p, negate, a, b, n);
        lemma_val(e, g, x, s, v, s);
        (v, s.on(s.stack.push(v)))
    }
}

/// The stack is no part of what is recorded.
proof fn lemma_on(s: Words, stack: Seq<i32>, f: Option<FlagLocals>, a: u32, b: u32, n: i32)
    requires
        recorded(s, f, a, b, n),
    ensures
        recorded(s.on(stack), f, a, b, n),
{
    assert forall|slot: FlagSlot| #[trigger] s.on(stack).flag(f, slot) == s.flag(f, slot) by {}
}

proof fn lemma_val(e: Emit, g: Emit, x: E, s: Words, v: i32, t: Words)
    requires
        is_value(e, g, x),
        wasm_run::evaluates(x, s, v, t),
    ensures
        wasm_run::leads(e.code, g.code, s, t.on(s.stack.push(v))),
{
    wasm_run::law_expressions_run(x, e.code, s);
    assert(s.on(s.stack) == s);
    assert(x.done(s.on(s.stack)) == t.on(s.stack.push(v)));
}

proof fn piece_cf(
    e: Emit,
    s: Words,
    p: Instruction,
    negate: bool,
    a: u32,
    b: u32,
    n: i32,
    k: int,
) -> (r: (i32, Words))
    requires
        is_ready(e, s, p, a, b, n, k),
        k > 0,
    ensures
        wasm_run::leads(e.code, e.cf(p, negate).code, s, r.1),
        r.1.stack == s.stack.push(r.0),
        r.1.memory == s.memory,
        r.0 != 0 <==> (a < b) != negate,
        p is Other ==> is_ready(e.cf(p, negate), r.1, p, a, b, n, k - 1),
{
    let f = e.flag_locals;
    let x = cf_expression(e, p, negate);
    let g = e.cf(p, negate);
    lemma_cf_code(e, p, negate);
    if p is Other {
        let t = e.next_i32();
        let c = s.flag(f, FlagSlot::FlagsChanged);
        lemma_take_and_give(e, x, k);
        lemma_take(e, k);
        reveal(Emit::cf);
        reveal(Emit::cf_lazy);
        lemma_all_quiet(e);
        let v = lazy_cf(s, f, t, negate, a, b, n);
        let after = s.set(t, c).set(t, -1i32);
        lemma_kept(s, f, t, c, a, b, n);
        lemma_kept(s.set(t, c), f, t, -1i32, a, b, n);
        lemma_val(e, g, x, s, v, after);
        lemma_on(after, s.stack.push(v), f, a, b, n);
        (v, after.on(s.stack.push(v)))
    } else {
        let v = fast_cf(s, f, p, negate, a, b, n);
        lemma_val(e, g, x, s, v, s);
        (v, s.on(s.stack.push(v)))
    }
}

proof fn piece_sf(
    e: Emit,
    s: Words,
    p: Instruction,
    negate: bool,
    a: u32,
    b: u32,
    n: i32,
    k: int,
) -> (r: (i32, Words))
    requires
        is_ready(e, s, p, a, b, n, k),
    ensures
        wasm_run::leads(e.code, e.sf(p, negate).code, s, r.1),
        r.1.stack == s.stack.push(r.0),
        r.1.memory == s.memory,
        r.0 != 0 <==> (difference(a, b, n) >= half(n)) != negate,
        p is Other ==> is_ready(e.sf(p, negate), r.1, p, a, b, n, k),
{
    let f = e.flag_locals;
    let x = sf_expression(e, p, negate);
    let g = e.sf(p, negate);
    lemma_sf_code(e, p, negate);
    if p is Other {
        reveal(Emit::sf);
        reveal(Emit::val);
        lemma_all_quiet(e);
        let v = lazy_sf(s, f, negate, a, b, n);
        lemma_val(e, g, x, s, v, s);
        lemma_on(s, s.stack.push(v), f, a, b, n);
        (v, s.on(s.stack.push(v)))
    } else {
        let v = fast_sf(s, f, p, negate, a, b, n);
        lemma_val(e, g, x, s, v, s);
        (v, s.on(s.stack.push(v)))
    }
}

proof fn piece_of(
    e: Emit,
    s: Words,
    p: Instruction,
    a: u32,
    b: u32,
    n: i32,
    k: int,
) -> (r: (i32, Words))
    requires
        is_ready(e, s, p, a, b, n, k),
        k > 2,
    ensures
        wasm_run::leads(e.code, e.of(p).code, s, r.1),
        r.1.stack == s.stack.push(r.0),
        r.1.memory == s.memory,
        r.0 != 0 <==> holds(0, a, b, n),
        p is Other ==> is_ready(e.of(p), r.1, p, a, b, n, k - 3),
{
    let f = e.flag_locals;
    let x = of_expression(e, p);
    let g = e.of(p);
    lemma_of_code(e, p);
    if p is Other {
        let e1 = e.take_i32();
        let e2 = e1.take_i32();
        let e3 = e2.take_i32();
        let t0 = e.next_i32();
        let t1 = e1.next_i32();
        let t2 = e2.next_i32();
        lemma_take(e, k);
        lemma_take(e1, k - 1);
        lemma_take(e2, k - 2);
        assert(is_own(e1, t0));
        assert(is_own(e2, t0));
        assert(is_own(e3, t0));
        assert(is_own(e2, t1));
        assert(is_own(e3, t1));
        let e4 = e3.val(x);
        assert(apart(e4, k - 3) && is_own(e4, t0) && is_own(e4, t1) && is_own(e4, t2)) by {
            reveal(Emit::val);
        }
        lemma_give(e4, t1, k - 3);
        let e5 = e4.give_i32(t1);
        assert(is_own(e5, t0) && is_own(e5, t2));
        lemma_give(e5, t2, k - 3);
        let e6 = e5.give_i32(t2);
        assert(is_own(e6, t0));
        lemma_give(e6, t0, k - 3);
        reveal(Emit::of);
        reveal(Emit::of_lazy);
        lemma_all_quiet(e);
        let c = s.flag(f, FlagSlot::FlagsChanged);
        let d = difference(a, b, n) as i32;
        let v = lazy_of(s, f, t0, t1, t2, a, b, n);
        lemma_kept(s, f, t0, c, a, b, n);
        lemma_kept(s.set(t0, c), f, t1, a as i32, a, b, n);
        lemma_kept(s.set(t0, c).set(t1, a as i32), f, t2, d, a, b, n);
        let after = s.set(t0, c).set(t1, a as i32).set(t2, d);
        lemma_val(e, g, x, s, v, after);
        lemma_on(after, s.stack.push(v), f, a, b, n);
        (v, after.on(s.stack.push(v)))
    } else {
        let v = fast_of(s, f, p, a, b, n);
        lemma_val(e, g, x, s, v, s);
        (v, s.on(s.stack.push(v)))
    }
}

/// More code of plain instructions changes nothing that a condition relies on.
proof fn lemma_still_ready(
    e: Emit,
    g: Emit,
    s: Words,
    stack: Seq<i32>,
    p: Instruction,
    a: u32,
    b: u32,
    n: i32,
    k: int,
)
    requires
        is_ready(e, s, p, a, b, n, k),
        p is Other,
        g == (Emit { code: g.code, ..e }),
    ensures
        is_ready(g, s.on(stack), p, a, b, n, k),
{
    lemma_on(s, stack, e.flag_locals, a, b, n);
}

proof fn lemma_top_eqz()
    ensures
        E::Top.eqz() == E::Top.eqz_if(true),
{
    reveal(E::eqz_if);
}

pub proof fn lemma_less(a: u32, b: u32, n: i32)
    requires
        is_size(n),
        a <= size_mask(n),
        b <= size_mask(n),
    ensures
        (difference(a, b, n) >= half(n)) != holds(0, a, b, n) <==> signed_value(a, n)
            < signed_value(b, n),
        signed_value(a, n) == signed_value(b, n) <==> a == b,
{
}

proof fn piece_be(
    e: Emit,
    s: Words,
    p: Instruction,
    negate: bool,
    a: u32,
    b: u32,
    n: i32,
) -> (r: (i32, Words))
    requires
        is_ready(e, s, p, a, b, n, 8),
    ensures
        wasm_run::leads(e.code, e.be(p, negate).code, s, r.1),
        r.1.stack == s.stack.push(r.0),
        r.1.memory == s.memory,
        r.0 != 0 <==> (a <= b) != negate,
{
    reveal(Emit::be);
    lemma_all_quiet(e);
    let f = e.flag_locals;
    if p is Other {
        let (u, t) = piece_cf(e, s, p, false, a, b, n, 8);
        let e1 = e.cf(p, false);
        let (v, w) = piece_zf(e1, t, p, false, a, b, n, 7);
        let e2 = e1.zf(p, false);
        wasm_run::lemma_leads_on(e.code, e1.code, e2.code, s, t, w);
        add_bin(e.code, e2, Bin::Or, s, w, s.stack, u, v);
        let both = wasm_run::binary(Bin::Or, u, v);
        bits_of_truths(u, v);
        let w1 = w.on(s.stack.push(both));
        add_eqz_if(e.code, e2.op(Op::Bin(Bin::Or)), negate, s, w1, s.stack, both);
        let last = wasm_run::inverted(negate, both);
        (last, w1.on(s.stack.push(last)))
    } else {
        let v = fast_be(s, f, p, negate, a, b, n);
        let x = E::unsigned_left(f, p, p->Cmp_dest, p->Cmp_opsize).bin(
            crate::codegen_cond::relation(negate, Bin::LeU, Bin::GtU),
            E::unsigned_right(f, p, p->Cmp_source, p->Cmp_opsize),
        );
        wasm_run::lemma_val(e, x, s, v, s);
        (v, s.on(s.stack.push(v)))
    }
}

proof fn piece_less(
    e: Emit,
    s: Words,
    p: Instruction,
    negate: bool,
    a: u32,
    b: u32,
    n: i32,
    k: int,
) -> (r: (i32, Words))
    requires
        is_ready(e, s, p, a, b, n, k),
        k > 3,
    ensures
        wasm_run::leads(e.code, e.less(p, negate).code, s, r.1),
        r.1.stack == s.stack.push(r.0),
        r.1.memory == s.memory,
        r.0 != 0 <==> (signed_value(a, n) < signed_value(b, n)) != negate,
        p is Other ==> is_ready(e.less(p, negate), r.1, p, a, b, n, k - 3),
{
    reveal(Emit::less);
    lemma_all_quiet(e);
    lemma_less(a, b, n);
    let f = e.flag_locals;
    if p is Other {
        lemma_top_eqz();
        let (u, t) = piece_sf(e, s, p, false, a, b, n, k);
        let e1 = e.sf(p, false);
        add_eqz_if(e.code, e1, true, s, t, s.stack, u);
        let e2 = e1.val(E::Top.eqz());
        let x = wasm_run::truth(u == 0);
        let t1 = t.on(s.stack.push(x));
        assert(e2 == (Emit { code: e2.code, ..e1 })) by {
            reveal(Emit::val);
        }
        lemma_still_ready(e1, e2, t, s.stack.push(x), p, a, b, n, k);
        let (v, t2) = piece_of(e2, t1, p, a, b, n, k);
        let e3 = e2.of(p);
        wasm_run::lemma_leads_on(e.code, e2.code, e3.code, s, t1, t2);
        add_eqz_if(e.code, e3, true, s, t2, s.stack.push(x), v);
        let e4 = e3.val(E::Top.eqz());
        let y = wasm_run::truth(v == 0);
        let t3 = t2.on(s.stack.push(x).push(y));
        add_bin(e.code, e4, Bin::Xor, s, t3, s.stack, x, y);
        bits_of_truths(x, y);
        let z = wasm_run::binary(Bin::Xor, x, y);
        let t4 = t3.on(s.stack.push(z));
        let e5 = e4.op(Op::Bin(Bin::Xor));
        add_eqz_if(e.code, e5, negate, s, t4, s.stack, z);
        let last = wasm_run::inverted(negate, z);
        let e6 = e5.val(E::Top.eqz_if(negate));
        assert(e6 == (Emit { code: e6.code, ..e3 })) by {
            reveal(Emit::val);
            reveal(Emit::op);
        }
        lemma_still_ready(e3, e6, t2, s.stack.push(last), p, a, b, n, k - 3);
        (last, t4.on(s.stack.push(last)))
    } else {
        let rel = crate::codegen_cond::relation(negate, Bin::LtS, Bin::GeS);
        let v = fast_signed(s, f, p, rel, a, b, n);
        wasm_run::lemma_val(e, E::compare_signed(f, p, rel), s, v, s);
        (v, s.on(s.stack.push(v)))
    }
}

proof fn piece_less_equal(
    e: Emit,
    s: Words,
    p: Instruction,
    negate: bool,
    a: u32,
    b: u32,
    n: i32,
) -> (r: (i32, Words))
    requires
        is_ready(e, s, p, a, b, n, 8),
    ensures
        wasm_run::leads(e.code, e.less_equal(p, negate).code, s, r.1),
        r.1.stack == s.stack.push(r.0),
        r.1.memory == s.memory,
        r.0 != 0 <==> (signed_value(a, n) <= signed_value(b, n)) != negate,
{
    reveal(Emit::less_equal);
    lemma_all_quiet(e);
    lemma_less(a, b, n);
    let f = e.flag_locals;
    if p is Other {
        let (u, t) = piece_less(e, s, p, false, a, b, n, 8);
        let e1 = e.less(p, false);
        let (v, w) = piece_zf(e1, t, p, false, a, b, n, 5);
        let e2 = e1.zf(p, false);
        wasm_run::lemma_leads_on(e.code, e1.code, e2.code, s, t, w);
        add_bin(e.code, e2, Bin::Or, s, w, s.stack, u, v);
        let both = wasm_run::binary(Bin::Or, u, v);
        bits_of_truths(u, v);
        let w1 = w.on(s.stack.push(both));
        add_eqz_if(e.code, e2.op(Op::Bin(Bin::Or)), negate, s, w1, s.stack, both);
        let last = wasm_run::inverted(negate, both);
        (last, w1.on(s.stack.push(last)))
    } else {
        let rel = crate::codegen_cond::relation(negate, Bin::LeS, Bin::GtS);
        let v = fast_signed(s, f, p, rel, a, b, n);
        wasm_run::lemma_val(e, E::compare_signed(f, p, rel), s, v, s);
        (v, s.on(s.stack.push(v)))
    }
}

/// The code of a condition computes it: run after a comparison of `a` with `b`, it leaves one
/// more value on the stack, which is not zero exactly where the condition holds, and it leaves
/// memory alone. That is so where the operands are known to stand in locals or to be constants,
/// and where the lazy flag state alone tells of them.
pub proof fn law_conditions_hold(c: Ctx, number: u8, s: Words, a: u32, b: u32, n: i32)
    requires
        number < 16,
        number != 10,
        number != 11,
        is_ready(c.e, s, c.st.previous_instruction, a, b, n, 8),
    ensures
        ({
            let t = wasm_run::run(
                wasm_run::added(c.e.code, c.flag_condition(number).e.code),
                s,
            );
            &&& t.stack == s.stack.push(t.stack.last())
            &&& t.stack.last() != 0 <==> holds(number, a, b, n)
            &&& t.memory == s.memory
        }),
{
    reveal(Ctx::flag_condition);
    let p = c.st.previous_instruction;
    let e = c.e;
    lemma_top_eqz();
    let (v, t): (i32, Words) = if number == 0 {
        piece_of(e, s, p, a, b, n, 8)
    } else if number == 1 {
        let (u, w) = piece_of(e, s, p, a, b, n, 8);
        add_eqz_if(e.code, e.of(p), true, s, w, s.stack, u);
        (wasm_run::truth(u == 0), w.on(s.stack.push(wasm_run::truth(u == 0))))
    } else if number == 2 || number == 3 {
        piece_cf(e, s, p, number == 3, a, b, n, 8)
    } else if number == 4 || number == 5 {
        piece_zf(e, s, p, number == 5, a, b, n, 8)
    } else if number == 6 || number == 7 {
        piece_be(e, s, p, number == 7, a, b, n)
    } else if number == 8 || number == 9 {
        piece_sf(e, s, p, number == 9, a, b, n, 8)
    } else if number == 12 || number == 13 {
        piece_less(e, s, p, number == 13, a, b, n, 8)
    } else {
        piece_less_equal(e, s, p, number == 15, a, b, n)
    };
    assert(wasm_run::leads(e.code, c.flag_condition(number).e.code, s, t));
    wasm_run::lemma_ends(e.code, c.flag_condition(number).e.code, s, t);
    assert(t.stack.last() == v);
}

} // verus!
