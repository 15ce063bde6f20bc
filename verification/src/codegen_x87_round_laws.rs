//! What inline x87 code makes of one double: its sign changed, or rounded to an integer.
use vstd::prelude::*;
use crate::codegen_x87_laws;
use crate::codegen_x87_laws::{
    double_at, holds_double, holds_wide, holds_word, is_inline, is_tidy, register,
};
use crate::jit_context::Ctx;
use crate::wasm::{Bin, BlockType, Emit, Op, Sig, Un, Width, E};
use crate::wasm_flow;
use crate::wasm_values;
use crate::wasm_values::{Doubles, Value, Values};

verus! {

/// A double rounded to an integer, as the rounding-control field of the control word says.
pub open spec fn rounded_by_field(b: u64, memory: Map<u32, i32>, a: Doubles) -> u64 {
    let field = memory[1036] as u32 / 0x400 % 4;
    if field == 0 {
        (a.rounded_to_nearest)(b)
    } else if field == 1 {
        (a.rounded_down)(b)
    } else if field == 2 {
        (a.rounded_up)(b)
    } else {
        (a.rounded_to_zero)(b)
    }
}

/// A rounded double as an integer of 32 bits: the smallest one where it is no number, or does not
/// fit. The two bounds are the doubles 2147483648 and -2147483648.
pub open spec fn to_integer(b: u64, a: Doubles) -> i32 {
    if !(a.equal)(b, b) || (a.at_least)(b, 0x41E0_0000_0000_0000) || (a.less)(
        b,
        0xC1E0_0000_0000_0000,
    ) {
        i32::MIN
    } else {
        (a.to_word)(b)
    }
}

#[verifier::spinoff_prover]
proof fn lemma_field(e: Emit, bits: usize, b: u64, s: Values, a: Doubles, room: nat) -> (t: Values)
    requires
        is_tidy(e, room + 1),
        holds_wide(e, bits),
        s.locals[bits] == Value::Wide(b),
    ensures
        wasm_values::takes(e, e.rounded_by_control(bits), s, t, a),
        is_tidy(e.rounded_by_control(bits), room),
        codegen_x87_laws::keeps_locals(e, e.rounded_by_control(bits)),
        codegen_x87_laws::keeps_words(e, s, t),
        t.stack == s.push(Value::Wide(rounded_by_field(b, s.memory, a))).stack,
        t.memory == s.memory,
{
    reveal(Emit::rounded_by_control);
    reveal_with_fuel(wasm_flow::calls_nothing, 10);
    reveal_with_fuel(E::leaves, 10);
    let rc = e.next_i32();
    let x = E::fixed(Width::A16, 1036).binc(Bin::ShrU, 10).and(3);
    let field = (s.memory[1036] as u32 / 0x400 % 4) as i32;
    codegen_x87_laws::bits_of_registers(0, 0, s.memory[1036], 0);
    assert((1036i32 as u32).wrapping_add(0) == 1036);
    assert(x.leaves(s, a) == s.push(Value::Word(field)));
    codegen_x87_laws::goes_new(e, x, Value::Word(field), s, a, room);
    let e1 = e.set_new(x);
    let s1 = s.set(rc, Value::Word(field));
    let y = E::L(rc).binc(Bin::Eq, 1).choose_i64(
        E::rounded(bits, Un::FloorF64),
        E::L(rc).binc(Bin::Eq, 2).choose_i64(
            E::rounded(bits, Un::CeilF64),
            E::L(rc).binc(Bin::Eq, 3).choose_i64(
                E::rounded(bits, Un::TruncF64),
                E::rounded(bits, Un::NearestF64),
            ),
        ),
    );
    let t = s1.push(Value::Wide(rounded_by_field(b, s.memory, a)));
    assert(s1.locals[bits] == Value::Wide(b)) by {
        codegen_x87_laws::lemma_take_word(e, room);
    }
    assert(E::rounded(bits, Un::NearestF64).leaves(s1, a) == s1.push(
        Value::Wide((a.rounded_to_nearest)(b)),
    ));
    assert(y.leaves(s1, a) == t);
    codegen_x87_laws::goes_val(e1, y, s1, t, a, room);
    let e2 = e1.val(y);
    codegen_x87_laws::goes_further(e, e1, e2, s, s1, t, a, room, room);
    assert(holds_word(e2, rc)) by {
        assert(holds_word(e2, rc) || !holds_word(e1, rc));
    }
    codegen_x87_laws::lemma_give_word(e, e2, rc, room);
    let e3 = e2.give_i32(rc);
    wasm_values::takes_nothing(e2, e3, t, a);
    wasm_values::takes_on(e, e2, e3, s, t, t, a);
    assert(e3 == e.rounded_by_control(bits));
    t
}

/// A double becomes an integer: rounded to zero where that is asked for, else as the control word
/// says.
#[verifier::spinoff_prover]
pub proof fn law_doubles_are_rounded(
    e: Emit,
    bits: usize,
    truncate: bool,
    b: u64,
    s: Values,
    a: Doubles,
)
    requires
        is_tidy(e, 4),
        holds_wide(e, bits),
        s.locals[bits] == Value::Wide(b),
    ensures
        ({
            let t = wasm_values::flows(e.to_i32(bits, truncate).code, e.code.len() as int, s, a);
            let r = if truncate {
                (a.rounded_to_zero)(b)
            } else {
                rounded_by_field(b, s.memory, a)
            };
            &&& t.stack == s.push(Value::Word(to_integer(r, a))).stack
            &&& t.memory == s.memory
        }),
{
    reveal(Emit::to_i32);
    reveal_with_fuel(wasm_flow::calls_nothing, 8);
    reveal_with_fuel(E::leaves, 8);
    codegen_x87_laws::bits_of_registers(0, 0, 0, 0);
    let r = if truncate {
        (a.rounded_to_zero)(b)
    } else {
        rounded_by_field(b, s.memory, a)
    };
    let x = E::rounded(bits, Un::TruncF64);
    let e1 = if truncate {
        e.val(x)
    } else {
        e.rounded_by_control(bits)
    };
    let s1: Values = if truncate {
        let t = s.push(Value::Wide(r));
        assert(x.leaves(s, a) == t);
        codegen_x87_laws::goes_val(e, x, s, t, a, 3);
        t
    } else {
        lemma_field(e, bits, b, s, a, 3)
    };
    let l = e1.next_i64();
    codegen_x87_laws::lemma_take_wide(e1, 2);
    let e2 = e1.take_i64();
    wasm_values::takes_nothing(e1, e2, s1, a);
    wasm_values::takes_on(e, e1, e2, s, s1, s1, a);
    let op = Op::LocalSet(l);
    let e3 = e2.op(op);
    let s2 = s1.pop().set(l, Value::Wide(r));
    wasm_values::takes_op(e2, op, s1, a);
    assert(wasm_values::step(op, s1, a) == s2);
    wasm_values::takes_on(e, e2, e3, s, s1, s2, a);
    let y = E::integer(l);
    let t = s2.push(Value::Word(to_integer(r, a)));
    let no_number = E::is_nan(l);
    assert(no_number.leaves(s2, a) == s2.push(wasm_values::truth(!(a.equal)(r, r))));
    assert(y.leaves(s2, a) == t);
    wasm_values::takes_val(e3, y, s2, a);
    let e4 = e3.val(y);
    wasm_values::takes_on(e, e3, e4, s, s2, t, a);
    assert(e.to_i32(bits, truncate).code == e4.code) by {
        reveal(Emit::give_i64);
    }
    reveal(wasm_values::takes);
    assert(e4.code.is_prefix_of(e4.code));
}

/// Where `ST(0)` holds a double, it takes the double of the other sign, or, for the other
/// instruction, the double without its sign.
#[verifier::spinoff_prover]
pub proof fn law_signs_are_changed(c: Ctx, r: u32, s: Values, a: Doubles)
    requires
        is_inline(c, s),
        holds_double(s.memory, 0),
    ensures
        codegen_x87_laws::takes_double(
            s,
            wasm_values::flows(c.fchs_or_fabs(r).e.code, c.e.code.len() as int, s, a),
            0,
            if r == 0 {
                (a.opposite)(double_at(s.memory, 0))
            } else {
                (a.magnitude)(double_at(s.memory, 0))
            },
        ),
{
    reveal(Ctx::fchs_or_fabs);
    reveal_with_fuel(wasm_flow::calls_nothing, 3);
    reveal_with_fuel(E::leaves, 3);
    let st0 = c.e.next_i32();
    let c1 = c.st_addr(0);
    let p = Value::Word(register(s.memory, 0) as i32);
    codegen_x87_laws::goes_address(c, 0, s, a, 19);
    let s1 = s.set(st0, p);
    let c2 = c1.st_ok(0, st0);
    codegen_x87_laws::goes_tag(c1, 0, st0, s1, a, 19);
    let s2 = s1.push(Value::Word(1));
    codegen_x87_laws::goes_further(c.e, c1.e, c2.e, s, s1, s2, a, 19, 19);
    let x = E::Top.eqz();
    let e3 = c2.e.val(x);
    let s3 = s1.push(Value::Word(0));
    codegen_x87_laws::goes_val(c2.e, x, s2, s3, a, 19);
    codegen_x87_laws::goes_further(c.e, c2.e, e3, s, s2, s3, a, 19, 19);
    let if_op = Op::If(BlockType::Void, None);
    let c4 = c2.unless();
    assert(c4.e == e3.op(if_op));
    reveal(Emit::op);
    codegen_x87_laws::lemma_same_locals(e3, c4.e, 19);
    let slow = E::C(r as i32).call("instr16_D9_4_reg", Sig::Fn1);
    codegen_x87_laws::stays_val(c4.e, slow, 19);
    let c5 = c4.val(slow);
    let d5 = c5.otherwise();
    reveal(Ctx::x87_dropped);
    assert(!c5.x87_in_use());
    let e6 = c5.e.op(Op::Else);
    assert(d5.e == e6);
    codegen_x87_laws::lemma_same_locals(c5.e, e6, 19);
    assert(holds_word(c2.e, st0) || !holds_word(c1.e, st0));
    assert(holds_word(e3, st0) || !holds_word(c2.e, st0));
    assert(holds_word(c4.e, st0) || !holds_word(e3, st0));
    assert(holds_word(c5.e, st0) || !holds_word(c4.e, st0));
    assert(holds_word(e6, st0) || !holds_word(c5.e, st0));
    assert(s3.pop() == s1);
    let d7 = d5.st_double(0, st0);
    let s7 = codegen_x87_laws::goes_double(d5, 0, st0, s1, a, 18);
    let v = double_at(s.memory, 0);
    let u = if r == 0 {
        Un::NegF64
    } else {
        Un::AbsF64
    };
    let w = if r == 0 {
        (a.opposite)(v)
    } else {
        (a.magnitude)(v)
    };
    let s8 = s7.pop().push(Value::Double(w));
    assert(wasm_values::step(Op::Un(u), s7, a) == s8);
    codegen_x87_laws::goes_op(d7.e, Op::Un(u), s7, s8, a, 18);
    let d8 = d7.emit(Op::Un(u));
    codegen_x87_laws::goes_further(d5.e, d7.e, d8.e, s1, s7, s8, a, 18, 18);
    assert(holds_word(d8.e, st0) || !holds_word(d5.e, st0));
    let t = codegen_x87_laws::goes_stored(d8, 0, st0, w, s8, a, 17);
    let f = d8.st_store(0, st0);
    codegen_x87_laws::goes_further(d5.e, d8.e, f.e, s1, s8, t, a, 18, 17);
    wasm_values::takes_second(e3, if_op, c5.e, f.e, s3, t, a);
    let e9 = f.e.op(Op::End);
    wasm_values::takes_on(c.e, e3, e9, s, s3, t, a);
    let g = c.fchs_or_fabs(r).e;
    assert(g.code == e9.code) by {
        reveal(Emit::give_i32);
    }
    assert(wasm_values::flows(g.code, c.e.code.len() as int, s, a) == t) by {
        reveal(wasm_values::takes);
        assert(e9.code.is_prefix_of(e9.code));
    }
    codegen_x87_laws::lemma_takes_double(s, t, d8.st.fpu_simd_dirty_marked, 0, w);
}

} // verus!
