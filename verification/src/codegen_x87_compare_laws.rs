//! What inline x87 code makes of two doubles that are compared.
use vstd::prelude::*;
use crate::codegen_x87_laws;
use crate::codegen_x87_laws::{
    double_at, goes_on, holds_double, holds_wide, holds_word, is_tidy, register,
};
use crate::codegen_x87_stack_laws;
use crate::jit_context::Ctx;
use crate::wasm::{Bin, BlockType, Emit, FlagSlot, Op, Sig, Width, E};
use crate::wasm_flow;
use crate::wasm_run;
use crate::wasm_values;
use crate::wasm_values::{Doubles, Value, Values};

verus! {

/// One of four codes: where the doubles are unordered, as one is no number; where the first is
/// less; where they are equal; and zero where the first is greater.
pub open spec fn code_of(x: u64, y: u64, unordered: i32, less: i32, equal: i32, a: Doubles) -> i32 {
    if !(a.equal)(x, x) || !(a.equal)(y, y) {
        unordered
    } else if (a.less)(x, y) {
        less
    } else if (a.equal)(x, y) {
        equal
    } else {
        0
    }
}

proof fn lemma_codes(
    x: usize,
    y: usize,
    unordered: i32,
    less: i32,
    equal: i32,
    s: Values,
    a: Doubles,
)
    requires
        s.locals[x] is Wide,
        s.locals[y] is Wide,
    ensures
        wasm_flow::calls_nothing(E::compared(x, y, unordered, less, equal)),
        E::compared(x, y, unordered, less, equal).leaves(s, a) == s.push(
            Value::Word(
                code_of(s.locals[x].wide(), s.locals[y].wide(), unordered, less, equal, a),
            ),
        ),
{
    reveal_with_fuel(wasm_flow::calls_nothing, 7);
    reveal_with_fuel(E::leaves, 7);
    codegen_x87_laws::bits_of_registers(0, 0, 0, 0);
    let u = s.locals[x].wide();
    let v = s.locals[y].wide();
    let n = E::is_nan(x).bin(Bin::Or, E::is_nan(y));
    assert(E::is_nan(x).leaves(s, a) == s.push(wasm_values::truth(!(a.equal)(u, u))));
    let s1 = s.push(wasm_values::truth(!(a.equal)(u, u)));
    assert(E::is_nan(y).leaves(s1, a) == s1.push(wasm_values::truth(!(a.equal)(v, v))));
    assert(n.leaves(s, a) == s.push(
        wasm_values::truth(!(a.equal)(u, u) || !(a.equal)(v, v)),
    ));
    let l = E::double(x).bin(Bin::LtF64, E::double(y));
    assert(l.leaves(s, a) == s.push(wasm_values::truth((a.less)(u, v))));
    let q = E::double(x).bin(Bin::EqF64, E::double(y));
    assert(q.leaves(s, a) == s.push(wasm_values::truth((a.equal)(u, v))));
}

/// The condition bits of the status word took a code; the other bits, and what is elsewhere, are
/// as they were.
pub open spec fn takes_code(m: Map<u32, i32>, n: Map<u32, i32>, code: i32) -> bool {
    &&& n[1040] as u32 % 0x1_0000 == (m[1040] as u32 & 0xb8ff) | code as u32
    &&& forall|q: u32|
        (q + 4 <= 1040 || 1042 <= q) && (q + 4 <= 1044 || 1045 <= q) ==> #[trigger] n[q] == m[q]
}

proof fn lemma_status_value(flags: usize, f: i32, s: Values, a: Doubles)
    requires
        s.locals[flags] == Value::Word(f),
    ensures
        ({
            let x = E::fixed(Width::A16, 1040).and(-18177i32).bin(Bin::Or, E::L(flags));
            &&& wasm_flow::calls_nothing(x)
            &&& x.leaves(s, a) == s.push(
                Value::Word(((s.memory[1040] & 0xffff) & -18177i32) | f),
            )
            &&& wasm_flow::calls_nothing(E::C(1040))
            &&& E::C(1040).leaves(s, a) == s.push(Value::Word(1040))
        }),
{
    reveal_with_fuel(wasm_flow::calls_nothing, 6);
    reveal_with_fuel(E::leaves, 6);
    assert((1040i32 as u32).wrapping_add(0) == 1040);
}

#[verifier::spinoff_prover]
proof fn goes_status(c: Ctx, x: usize, y: usize, s: Values, a: Doubles, room: nat) -> (t: Values)
    requires
        is_tidy(c.e, room + 1),
        s.locals[x] is Wide,
        s.locals[y] is Wide,
        holds_wide(c.e, x),
        holds_wide(c.e, y),
    ensures
        goes_on(c.e, c.compare_status(x, y).e, s, t, a, room),
        c.compare_status(x, y).st.env == c.st.env,
        c.compare_status(x, y).x87 == c.x87,
        t.stack == s.stack,
        takes_code(
            s.memory,
            t.memory,
            code_of(s.locals[x].wide(), s.locals[y].wide(), 0x4500, 0x100, 0x4000, a),
        ),
{
    reveal(Ctx::compare_status);
    reveal(Ctx::status_compared);
    let f = code_of(s.locals[x].wide(), s.locals[y].wide(), 0x4500, 0x100, 0x4000, a);
    codegen_x87_stack_laws::bits_of_stack(0, 0, 0, 0, s.memory[1040], f, 0);
    lemma_codes(x, y, 0x4500, 0x100, 0x4000, s, a);
    let k = E::compared(x, y, 0x4500, 0x100, 0x4000);
    let flags = c.e.next_i32();
    codegen_x87_laws::goes_new(c.e, k, Value::Word(f), s, a, room);
    let c1 = c.on(c.e.set_new(k));
    let s1 = s.set(flags, Value::Word(f));
    let c2 = c1.mark_fpu_simd_dirty_once();
    let s2 = codegen_x87_laws::goes_marked(c1, s1, a, room);
    codegen_x87_laws::goes_further(c.e, c1.e, c2.e, s, s1, s2, a, room, room);
    let z = E::fixed(Width::A16, 1040).and(-18177i32).bin(Bin::Or, E::L(flags));
    assert(s2.memory[1040] == s.memory[1040]);
    let v = ((s.memory[1040] & 0xffff) & -18177i32) | f;
    let s3 = s2.with(wasm_run::stored(Width::A16, s2.memory, 1040, v));
    lemma_status_value(flags, f, s2, a);
    lemma_status_value(flags, f, s2.push(Value::Word(1040)), a);
    assert((1040i32 as u32).wrapping_add(0) == 1040);
    codegen_x87_laws::goes_store(c2.e, Width::A16, 0, E::C(1040), z, s2, s3, a, room);
    let e3 = c2.e.store_fixed(Width::A16, 1040, z);
    codegen_x87_laws::goes_further(c.e, c2.e, e3, s, s2, s3, a, room, room);
    wasm_run::law_stored_values_are_loaded(Width::A16, s2.memory, 1040, v);
    codegen_x87_laws::bits_of_registers(s3.memory[1040], 0, 0, 0);
    assert forall|q: u32|
        (q + 4 <= 1040 || 1042 <= q) && (q + 4 <= 1044 || 1045 <= q) implies #[trigger] s3.memory[q]
        == s.memory[q] by {
        wasm_run::lemma_stored_apart(Width::A16, s2.memory, 1040, v, q);
    }
    assert(holds_word(c2.e, flags) || !holds_word(c1.e, flags));
    assert(holds_word(e3, flags)) by {
        reveal(Emit::op);
        reveal(Emit::val);
    }
    codegen_x87_laws::lemma_give_word(c.e, e3, flags, room);
    let e4 = e3.give_i32(flags);
    wasm_values::takes_nothing(e3, e4, s3, a);
    wasm_values::takes_on(c.e, e3, e4, s, s3, s3, a);
    assert(c.compare_status(x, y).e == e4);
    s3
}

/// The status flags took a code, and none of them is computed lazily.
pub open spec fn takes_flags(m: Map<u32, i32>, n: Map<u32, i32>, code: i32) -> bool {
    &&& n[100] == 0
    &&& n[120] as u32 == (m[120] as u32 & 0xffff_f72a) | code as u32
    &&& forall|q: u32|
        (q + 4 <= 100 || 104 <= q) && (q + 4 <= 120 || 124 <= q) ==> #[trigger] n[q] == m[q]
}

proof fn lemma_flags_value(l: usize, f: i32, s: Values, a: Doubles)
    requires
        s.locals[l] == Value::Word(f),
    ensures
        ({
            let x = E::flag(None, FlagSlot::Flags).and(-2262i32).bin(Bin::Or, E::L(l));
            &&& wasm_flow::calls_nothing(x)
            &&& x.leaves(s, a) == s.push(Value::Word((s.memory[120] & -2262i32) | f))
            &&& wasm_flow::calls_nothing(E::C(120))
            &&& E::C(120).leaves(s, a) == s.push(Value::Word(120))
            &&& wasm_flow::calls_nothing(E::C(100))
            &&& E::C(100).leaves(s, a) == s.push(Value::Word(100))
            &&& wasm_flow::calls_nothing(E::C(0))
            &&& E::C(0).leaves(s, a) == s.push(Value::Word(0))
        }),
{
    reveal(E::flag);
    reveal_with_fuel(wasm_flow::calls_nothing, 6);
    reveal_with_fuel(E::leaves, 6);
    assert((120i32 as u32).wrapping_add(0) == 120);
}

proof fn lemma_flag_memory(m: Map<u32, i32>, v: i32)
    ensures
        ({
            let m1 = wasm_run::stored(Width::A32, m, 100, 0);
            let m2 = wasm_run::stored(Width::A32, m1, 120, v);
            &&& m1[120] == m[120]
            &&& m2[100] == 0
            &&& m2[120] == v
            &&& forall|q: u32|
                (q + 4 <= 100 || 104 <= q) && (q + 4 <= 120 || 124 <= q) ==> #[trigger] m2[q]
                    == m[q]
        }),
{
    let m1 = wasm_run::stored(Width::A32, m, 100, 0);
    let m2 = wasm_run::stored(Width::A32, m1, 120, v);
    wasm_run::lemma_stored_apart(Width::A32, m, 100, 0, 120);
    wasm_run::law_stored_values_are_loaded(Width::A32, m, 100, 0);
    wasm_run::lemma_stored_apart(Width::A32, m1, 120, v, 100);
    wasm_run::law_stored_values_are_loaded(Width::A32, m1, 120, v);
    assert forall|q: u32|
        (q + 4 <= 100 || 104 <= q) && (q + 4 <= 120 || 124 <= q) implies #[trigger] m2[q] == m[q] by {
        wasm_run::lemma_stored_apart(Width::A32, m, 100, 0, q);
        wasm_run::lemma_stored_apart(Width::A32, m1, 120, v, q);
    }
}

proof fn lemma_keeps_flag_locals(e: Emit, w: Width, p: E, x: E)
    ensures
        e.set_new(x).flag_locals == e.flag_locals,
        e.val(p.both(x)).flag_locals == e.flag_locals,
        e.store(w, 0, p, x).flag_locals == e.flag_locals,
        e.store(w, 0, p, x).locals == e.locals,
        e.store(w, 0, p, x).free_i32 == e.free_i32,
{
    reveal(Emit::val);
    reveal(Emit::op);
    reveal(Emit::take_i32);
}

proof fn lemma_flag_code(m: Map<u32, i32>, f: i32)
    requires
        f == 0 || f == 1 || f == 64 || f == 69,
    ensures
        ({
            let m1 = wasm_run::stored(Width::A32, m, 100, 0);
            let m2 = wasm_run::stored(Width::A32, m1, 120, (m[120] & -2262i32) | f);
            m1[120] == m[120] && takes_flags(m, m2, f)
        }),
{
    lemma_flag_memory(m, (m[120] & -2262i32) | f);
    codegen_x87_stack_laws::bits_of_stack(0, 0, 0, 0, m[120], f, 0);
}

#[verifier::spinoff_prover]
proof fn goes_flag_stores(e: Emit, l: usize, f: i32, s: Values, a: Doubles, room: nat) -> (t: Values)
    requires
        is_tidy(e, room),
        e.flag_locals is None,
        s.locals[l] == Value::Word(f),
        f == 0 || f == 1 || f == 64 || f == 69,
    ensures
        goes_on(e, e.eflags_compared(l), s, t, a, room),
        e.eflags_compared(l).locals == e.locals,
        e.eflags_compared(l).free_i32 == e.free_i32,
        t.stack == s.stack,
        takes_flags(s.memory, t.memory, f),
{
    reveal(Emit::eflags_compared);
    assert((100i32 as u32).wrapping_add(0) == 100);
    assert((120i32 as u32).wrapping_add(0) == 120);
    lemma_flags_value(l, f, s, a);
    lemma_flags_value(l, f, s.push(Value::Word(100)), a);
    let m1 = wasm_run::stored(Width::A32, s.memory, 100, 0);
    let s2 = s.with(m1);
    assert(m1[120] == s.memory[120]) by {
        lemma_flag_code(s.memory, f);
    }
    codegen_x87_laws::goes_store(e, Width::A32, 0, E::C(100), E::C(0), s, s2, a, room);
    let e2 = e.store(Width::A32, 0, E::C(100), E::C(0));
    lemma_keeps_flag_locals(e, Width::A32, E::C(100), E::C(0));
    let z = E::flag(None, FlagSlot::Flags).and(-2262i32).bin(Bin::Or, E::L(l));
    let v = (s.memory[120] & -2262i32) | f;
    let s3 = s2.with(wasm_run::stored(Width::A32, m1, 120, v));
    lemma_flags_value(l, f, s2, a);
    lemma_flags_value(l, f, s2.push(Value::Word(120)), a);
    codegen_x87_laws::goes_store(e2, Width::A32, 0, E::C(120), z, s2, s3, a, room);
    let e3 = e2.store(Width::A32, 0, E::C(120), z);
    lemma_keeps_flag_locals(e2, Width::A32, E::C(120), z);
    codegen_x87_laws::goes_further(e, e2, e3, s, s2, s3, a, room, room);
    assert(e.eflags_compared(l) == e3);
    assert(takes_flags(s.memory, s3.memory, f)) by {
        lemma_flag_code(s.memory, f);
    }
    s3
}

#[verifier::spinoff_prover]
proof fn goes_eflags(c: Ctx, x: usize, y: usize, s: Values, a: Doubles, room: nat) -> (t: Values)
    requires
        is_tidy(c.e, room + 1),
        c.e.flag_locals is None,
        s.locals[x] is Wide,
        s.locals[y] is Wide,
    ensures
        goes_on(c.e, c.compare_eflags(x, y).e, s, t, a, room),
        c.compare_eflags(x, y).st == c.st,
        c.compare_eflags(x, y).x87 == c.x87,
        t.stack == s.stack,
        takes_flags(
            s.memory,
            t.memory,
            code_of(s.locals[x].wide(), s.locals[y].wide(), 69, 1, 64, a),
        ),
{
    reveal(Ctx::compare_eflags);
    let f = code_of(s.locals[x].wide(), s.locals[y].wide(), 69, 1, 64, a);
    let k = E::compared(x, y, 69, 1, 64);
    assert(k == E::compared(x, y, 1i32 | 4i32 | 64i32, 1, 64)) by {
        codegen_x87_stack_laws::bits_of_stack(0, 0, 0, 0, 0, 0, 0);
    }
    lemma_codes(x, y, 69, 1, 64, s, a);
    let l = c.e.next_i32();
    codegen_x87_laws::goes_new(c.e, k, Value::Word(f), s, a, room);
    let e1 = c.e.set_new(k);
    lemma_keeps_flag_locals(c.e, Width::A32, E::C(100), k);
    let s1 = s.set(l, Value::Word(f));
    let t = goes_flag_stores(e1, l, f, s1, a, room);
    let e3 = e1.eflags_compared(l);
    codegen_x87_laws::goes_further(c.e, e1, e3, s, s1, t, a, room, room);
    assert(holds_word(e3, l));
    codegen_x87_laws::lemma_give_word(c.e, e3, l, room);
    let e4 = e3.give_i32(l);
    wasm_values::takes_nothing(e3, e4, t, a);
    wasm_values::takes_on(c.e, e3, e4, s, t, t, a);
    assert(c.compare_eflags(x, y).e == e4);
    t
}

/// Registers are popped so many times.
pub open spec fn is_popped_by(m: Map<u32, i32>, n: Map<u32, i32>, k: nat) -> bool {
    &&& codegen_x87_stack_laws::top(n) == (codegen_x87_stack_laws::top(m) + k) % 8
    &&& forall|j: u32|
        j < 8 ==> (#[trigger] codegen_x87_stack_laws::is_empty(n, j)
            <==> codegen_x87_stack_laws::is_empty(m, j) || (j + 8 - codegen_x87_stack_laws::top(m))
            % 8 < k)
    &&& forall|q: u32|
        codegen_x87_stack_laws::is_elsewhere(q) ==> #[trigger] n[q] == m[q]
}

proof fn lemma_one_more(m: Map<u32, i32>, n: Map<u32, i32>, o: Map<u32, i32>, k: nat)
    requires
        codegen_x87_stack_laws::top(m) < 8,
        k < 8,
        is_popped_by(m, n, k),
        codegen_x87_stack_laws::is_popped(n, o),
    ensures
        is_popped_by(m, o, k + 1),
{
    let t = codegen_x87_stack_laws::top(m);
    assert forall|j: u32| j < 8 implies (#[trigger] codegen_x87_stack_laws::is_empty(o, j)
        <==> codegen_x87_stack_laws::is_empty(m, j) || (j + 8 - t) % 8 < k + 1) by {
        assert(codegen_x87_stack_laws::is_empty(n, j) <==> codegen_x87_stack_laws::is_empty(m, j)
            || (j + 8 - t) % 8 < k);
        assert(j == (t + k) % 8 <==> (j + 8 - t) % 8 == k);
    }
}

proof fn goes_popped_by(c: Ctx, n: nat, s: Values, a: Doubles, room: nat) -> (t: Values)
    requires
        n <= 8,
        c.st.env.fpu_relaxed,
        !c.x87_in_use(),
        is_tidy(c.e, room + 3 * n),
        codegen_x87_stack_laws::top(s.memory) < 8,
    ensures
        goes_on(c.e, c.fpu_popped_n(n).e, s, t, a, room),
        c.fpu_popped_n(n).st.env == c.st.env,
        !c.fpu_popped_n(n).x87_in_use(),
        t.stack == s.stack,
        is_popped_by(s.memory, t.memory, n),
    decreases n,
{
    if n == 0 {
        codegen_x87_laws::goes_nowhere(c.e, s, a, room);
        assert(codegen_x87_stack_laws::top(s.memory) % 8 == codegen_x87_stack_laws::top(s.memory));
        s
    } else {
        let k = (n - 1) as nat;
        let u = goes_popped_by(c, k, s, a, room + 3);
        let d = c.fpu_popped_n(k);
        let t = codegen_x87_stack_laws::goes_popped(d, u, a, room);
        codegen_x87_laws::goes_further(
            c.e,
            d.e,
            d.fpu_popped().e,
            s,
            u,
            t,
            a,
            room + 3,
            room,
        );
        lemma_one_more(s.memory, u.memory, t.memory, k);
        t
    }
}

/// What a comparison of `ST(0)` with `ST(i)` leaves in memory.
pub open spec fn compares(
    m: Map<u32, i32>,
    n: Map<u32, i32>,
    i: u32,
    eflags: bool,
    a: Doubles,
) -> bool {
    let x = double_at(m, 0);
    let y = double_at(m, i);
    if eflags {
        takes_flags(m, n, code_of(x, y, 69, 1, 64, a))
    } else {
        takes_code(m, n, code_of(x, y, 0x4500, 0x100, 0x4000, a))
    }
}

/// Two registers are compared as doubles into the status word or the status flags.
#[verifier::spinoff_prover]
proof fn goes_compared(
    c: Ctx,
    st0: usize,
    i: u32,
    sti: usize,
    eflags: bool,
    s: Values,
    a: Doubles,
    room: nat,
) -> (t: Values)
    requires
        is_tidy(c.e, room + 3),
        i < 8,
        !c.x87_cached(),
        eflags ==> c.e.flag_locals is None,
        holds_word(c.e, st0),
        holds_word(c.e, sti),
        s.locals[st0] == Value::Word(register(s.memory, 0) as i32),
        s.locals[sti] == Value::Word(register(s.memory, i) as i32),
    ensures
        goes_on(c.e, c.compare_sti(st0, i, sti, eflags).e, s, t, a, room),
        c.compare_sti(st0, i, sti, eflags).st.env == c.st.env,
        c.compare_sti(st0, i, sti, eflags).x87 == c.x87,
        t.stack == s.stack,
        compares(s.memory, t.memory, i, eflags, a),
{
    reveal(Ctx::compare_sti);
    let vx = Value::Wide(double_at(s.memory, 0));
    let vy = Value::Wide(double_at(s.memory, i));
    let c1 = c.st_bits(0, st0);
    codegen_x87_laws::goes_bits(c, 0, st0, s, a, room + 3);
    let x = c1.e.next_i64();
    codegen_x87_laws::goes_new_wide(c1.e, vx, s, a, room + 2);
    let c2 = c1.to_new_i64();
    let s2 = s.set(x, vx);
    codegen_x87_laws::goes_further(c.e, c1.e, c2.e, s, s.push(vx), s2, a, room + 3, room + 2);
    assert(holds_word(c2.e, sti) || !holds_word(c.e, sti));
    let c3 = c2.st_bits(i, sti);
    codegen_x87_laws::goes_bits(c2, i, sti, s2, a, room + 2);
    let y = c3.e.next_i64();
    codegen_x87_laws::goes_new_wide(c3.e, vy, s2, a, room + 1);
    let c4 = c3.to_new_i64();
    let s4 = s2.set(y, vy);
    codegen_x87_laws::goes_further(
        c2.e,
        c3.e,
        c4.e,
        s2,
        s2.push(vy),
        s4,
        a,
        room + 2,
        room + 1,
    );
    codegen_x87_laws::goes_further(c.e, c2.e, c4.e, s, s2, s4, a, room + 2, room + 1);
    assert(holds_wide(c3.e, x) || !holds_wide(c2.e, x));
    assert(holds_wide(c4.e, x) || !holds_wide(c2.e, x));
    assert(x != y);
    let c5 = c4.compare(x, y, eflags);
    assert(c4.e.flag_locals == c.e.flag_locals) by {
        broadcast use crate::wasm::group_code;

        reveal(Ctx::st_bits);
        reveal(Ctx::x87_slot);
    }
    let t: Values = if eflags {
        goes_eflags(c4, x, y, s4, a, room)
    } else {
        goes_status(c4, x, y, s4, a, room)
    };
    codegen_x87_laws::goes_further(c.e, c4.e, c5.e, s, s4, t, a, room + 1, room);
    assert(holds_wide(c5.e, x) || !holds_wide(c4.e, x));
    assert(holds_wide(c5.e, y) || !holds_wide(c4.e, y));
    assert(holds_wide(c1.e, x) || !holds_wide(c.e, x));
    assert(holds_wide(c3.e, y) || !holds_wide(c2.e, y));
    assert(holds_wide(c2.e, y) || !holds_wide(c.e, y));
    codegen_x87_laws::lemma_give_wide(c.e, c5.e, y, room);
    let e6 = c5.e.give_i64(y);
    assert(holds_wide(e6, x)) by {
        reveal(Emit::give_i64);
        assert forall|l: usize| #[trigger] e6.free_i64.contains(l) implies c5.e.free_i64.contains(l)
            || l == y by {
            let j = choose|j: int| 0 <= j < e6.free_i64.len() && e6.free_i64[j] == l;
            if j < c5.e.free_i64.len() {
                assert(c5.e.free_i64[j] == l);
            }
        }
    }
    codegen_x87_laws::lemma_give_wide(c.e, e6, x, room);
    let e7 = e6.give_i64(x);
    wasm_values::takes_nothing(c5.e, e7, t, a);
    wasm_values::takes_on(c.e, c5.e, e7, s, t, t, a);
    assert(c.compare_sti(st0, i, sti, eflags).e == e7);
    t
}

/// The code of a comparison up to where the helper is called.
pub open spec fn before_helper(c: Ctx, i: u32) -> Ctx {
    let c1 = c.st_addr(0);
    c1.st_addr(i).both_ok(c.e.next_i32(), i, c1.e.next_i32()).unless()
}

/// The inline path of a comparison, behind the helper's.
#[verifier::spinoff_prover]
proof fn lemma_inline(
    c: Ctx,
    i: u32,
    c8: Ctx,
    eflags: bool,
    pops: u32,
    s: Values,
    a: Doubles,
) -> (t: (Values, Values))
    requires
        codegen_x87_laws::is_inline(c, s),
        i < 8,
        pops <= 2,
        eflags ==> c.e.flag_locals is None,
        codegen_x87_stack_laws::top(s.memory) < 8,
        holds_double(s.memory, 0),
        holds_double(s.memory, i),
        ({
            let c7 = before_helper(c, i);
            is_tidy(c7.e, 18) ==> {
                &&& codegen_x87_laws::stays(c7.e, c8.e, 15)
                &&& c8.st == c7.st
                &&& c8.x87 == c7.x87
                &&& c8.e.flag_locals == c7.e.flag_locals
            }
        }),
    ensures
        wasm_values::flows(
            c8.compare_inline(
                c.e.next_i32(),
                i,
                c.st_addr(0).e.next_i32(),
                eflags,
                pops,
            ).e.code,
            c.e.code.len() as int,
            s,
            a,
        ) == t.1,
        t.1.stack == s.stack,
        compares(s.memory, t.0.memory, i, eflags, a),
        is_popped_by(t.0.memory, t.1.memory, pops as nat),
{
    reveal(Ctx::compare_inline);
    reveal_with_fuel(wasm_flow::calls_nothing, 3);
    reveal_with_fuel(E::leaves, 3);
    codegen_x87_laws::bits_of_registers(0, 0, 0, 0);
    let st0 = c.e.next_i32();
    let c1 = c.st_addr(0);
    let v0 = Value::Word(register(s.memory, 0) as i32);
    let vi = Value::Word(register(s.memory, i) as i32);
    codegen_x87_laws::goes_address(c, 0, s, a, 19);
    let s1 = s.set(st0, v0);
    let sti = c1.e.next_i32();
    let c2 = c1.st_addr(i);
    codegen_x87_laws::goes_address(c1, i, s1, a, 18);
    let s2 = s1.set(sti, vi);
    codegen_x87_laws::goes_further(c.e, c1.e, c2.e, s, s1, s2, a, 19, 18);
    assert(holds_word(c2.e, st0) || !holds_word(c1.e, st0));
    assert(s2.locals[st0] == v0);
    let c3 = c2.st_ok(0, st0);
    codegen_x87_laws::goes_tag(c2, 0, st0, s2, a, 18);
    let s3 = s2.push(Value::Word(1));
    let c4 = c3.st_ok(i, sti);
    codegen_x87_laws::goes_tag(c3, i, sti, s3, a, 18);
    let s4 = s3.push(Value::Word(1));
    codegen_x87_laws::goes_further(c2.e, c3.e, c4.e, s2, s3, s4, a, 18, 18);
    let c5 = c4.emit(Op::Bin(Bin::And));
    let s5 = s2.push(Value::Word(1));
    codegen_x87_laws::goes_op(c4.e, Op::Bin(Bin::And), s4, s5, a, 18);
    codegen_x87_laws::goes_further(c2.e, c4.e, c5.e, s2, s4, s5, a, 18, 18);
    let x = E::Top.eqz();
    let e6 = c5.e.val(x);
    let s6 = s2.push(Value::Word(0));
    codegen_x87_laws::goes_val(c5.e, x, s5, s6, a, 18);
    codegen_x87_laws::goes_further(c2.e, c5.e, e6, s2, s5, s6, a, 18, 18);
    codegen_x87_laws::goes_further(c.e, c2.e, e6, s, s2, s6, a, 18, 18);
    let if_op = Op::If(BlockType::Void, None);
    let c7 = c5.unless();
    assert(c7.e == e6.op(if_op));
    reveal(Emit::op);
    codegen_x87_laws::lemma_same_locals(e6, c7.e, 18);
    assert(c7 == before_helper(c, i));
    let d8 = c8.otherwise();
    reveal(Ctx::x87_dropped);
    assert(!c8.x87_in_use());
    let e9 = c8.e.op(Op::Else);
    assert(d8.e == e9);
    codegen_x87_laws::lemma_same_locals(c8.e, e9, 15);
    assert forall|y: usize| #[trigger] holds_word(e9, y) || !holds_word(c2.e, y) by {
        assert(holds_word(e6, y) || !holds_word(c2.e, y));
        assert(holds_word(c7.e, y) || !holds_word(e6, y));
        assert(holds_word(c8.e, y) || !holds_word(c7.e, y));
    }
    assert(holds_word(e9, st0) || !holds_word(c2.e, st0));
    assert(holds_word(e9, sti) || !holds_word(c2.e, sti));
    assert(s6.pop() == s2);
    let d9 = d8.compare_sti(st0, i, sti, eflags);
    assert(d8.e.flag_locals == c.e.flag_locals) by {
        broadcast use crate::wasm::group_code;

    }
    let t1 = goes_compared(d8, st0, i, sti, eflags, s2, a, 12);
    assert(!d9.x87_in_use());
    assert(t1.memory[1032] == s.memory[1032]);
    assert(t1.memory[816] == s.memory[816]);
    let f = d9.fpu_popped_n(pops as nat);
    let t = goes_popped_by(d9, pops as nat, t1, a, 6);
    codegen_x87_laws::goes_further(d8.e, d9.e, f.e, s2, t1, t, a, 12, 6);
    wasm_values::takes_second(e6, if_op, c8.e, f.e, s6, t, a);
    let e10 = f.e.op(Op::End);
    wasm_values::takes_on(c.e, e6, e10, s, s6, t, a);
    let g = c8.compare_inline(st0, i, sti, eflags, pops).e;
    assert(g.code == e10.code) by {
        reveal(Emit::give_i32);
    }
    assert(wasm_values::flows(g.code, c.e.code.len() as int, s, a) == t) by {
        reveal(wasm_values::takes);
        assert(e10.code.is_prefix_of(e10.code));
    }
    (t1, t)
}

proof fn stays_called(e: Emit, n: nat, room: nat)
    requires
        is_tidy(e, room),
    ensures
        codegen_x87_laws::stays(e, e.pop_called(n), room),
        e.pop_called(n).flag_locals == e.flag_locals,
    decreases n,
{
    broadcast use crate::wasm::group_code;

    if n == 0 {
        wasm_values::takes_nothing(e, e, arbitrary(), arbitrary());
    } else {
        let k = (n - 1) as nat;
        stays_called(e, k, room);
        let op = Op::Call("fpu_pop", Sig::Fn0);
        codegen_x87_laws::stays_op(e.pop_called(k), op, room);
        codegen_x87_laws::stays_further(e, e.pop_called(k), e.pop_called(k).op(op), room, room);
    }
}

/// The helper's way through a comparison.
proof fn stays_helped(c: Ctx, i: u32, pops: u32, helper: &'static str, room: nat)
    requires
        is_tidy(c.e, room + 3),
        c.st.env.fpu_relaxed,
    ensures
        codegen_x87_laws::stays(c.e, c.slow_fcom(i, pops, helper).e, room),
        c.slow_fcom(i, pops, helper).e.flag_locals == c.e.flag_locals,
{
    broadcast use crate::wasm::group_code;

    reveal(Ctx::slow_fcom);
    reveal(Ctx::get_sti);
    codegen_x87_laws::stays_pushed(c.e, i, room);
    let e1 = c.e.get_sti_relaxed(i);
    let op = Op::Call(helper, Sig::Fn2I64I32);
    codegen_x87_laws::stays_op(e1, op, room);
    codegen_x87_laws::stays_further(c.e, e1, e1.op(op), room, room);
    let n = crate::codegen_x87_compare::pops_after(helper, pops);
    stays_called(e1.op(op), n, room);
    codegen_x87_laws::stays_further(c.e, e1.op(op), e1.op(op).pop_called(n), room, room);
    assert(e1.flag_locals == c.e.flag_locals) by {
        reveal(Emit::get_sti_relaxed);
    }
}

/// A comparison of `ST(0)` with `ST(i)`, which both hold doubles, that calls a helper otherwise:
/// the status word takes C3, C2 and C0 where one is no number, C0 where `ST(0)` is less, C3 where
/// they are equal, and none of them where it is greater. Then the stack is popped as often as the
/// instruction asks.
#[verifier::spinoff_prover]
pub proof fn law_comparisons_reach_the_status_word(
    c: Ctx,
    i: u32,
    slow: E,
    pops: u32,
    s: Values,
    a: Doubles,
)
    requires
        codegen_x87_laws::is_inline(c, s),
        i < 8,
        pops <= 2,
        codegen_x87_stack_laws::top(s.memory) < 8,
        holds_double(s.memory, 0),
        holds_double(s.memory, i),
    ensures
        ({
            let t = wasm_values::flows(
                c.compare_or_call(i, slow, false, pops).e.code,
                c.e.code.len() as int,
                s,
                a,
            );
            let x = double_at(s.memory, 0);
            let y = double_at(s.memory, i);
            let code: u32 = if !(a.equal)(x, x) || !(a.equal)(y, y) {
                0x4500
            } else if (a.less)(x, y) {
                0x100
            } else if (a.equal)(x, y) {
                0x4000
            } else {
                0
            };
            &&& t.stack == s.stack
            &&& t.memory[1040] as u32 % 0x1_0000 == (s.memory[1040] as u32 & 0xb8ff) | code
            &&& codegen_x87_stack_laws::top(t.memory) == (codegen_x87_stack_laws::top(s.memory)
                + pops) % 8
            &&& forall|j: u32|
                j < 8 ==> (#[trigger] codegen_x87_stack_laws::is_empty(t.memory, j)
                    <==> codegen_x87_stack_laws::is_empty(s.memory, j) || (j + 8
                    - codegen_x87_stack_laws::top(s.memory)) % 8 < pops)
            &&& forall|q: u32|
                codegen_x87_stack_laws::is_elsewhere(q) && (q + 4 <= 1040 || 1042 <= q)
                    ==> #[trigger] t.memory[q] == s.memory[q]
        }),
{
    reveal(Ctx::compare_or_call);
    let c7 = before_helper(c, i);
    let c8 = c7.val(slow);
    assert(is_tidy(c7.e, 18) ==> codegen_x87_laws::stays(c7.e, c8.e, 15)) by {
        if is_tidy(c7.e, 18) {
            codegen_x87_laws::stays_val(c7.e, slow, 15);
        }
    }
    assert(c8.e.flag_locals == c7.e.flag_locals) by {
        broadcast use crate::wasm::group_code;

    }
    let (t1, t) = lemma_inline(c, i, c8, false, pops, s, a);
    assert(t1.memory[1032] == s.memory[1032]);
    assert(t1.memory[816] == s.memory[816]);
    assert forall|j: u32| j < 8 implies (#[trigger] codegen_x87_stack_laws::is_empty(t.memory, j)
        <==> codegen_x87_stack_laws::is_empty(s.memory, j) || (j + 8
        - codegen_x87_stack_laws::top(s.memory)) % 8 < pops) by {
        assert(codegen_x87_stack_laws::is_empty(t1.memory, j) == codegen_x87_stack_laws::is_empty(
            s.memory,
            j,
        ));
    }
}

/// A comparison of `ST(0)` with `ST(i)` into the status flags: zero, parity and carry are set where
/// one is no number, carry where `ST(0)` is less, zero where they are equal, and none of the six
/// where it is greater.
#[verifier::spinoff_prover]
pub proof fn law_comparisons_reach_the_flags(
    c: Ctx,
    i: u32,
    slow: E,
    pops: u32,
    s: Values,
    a: Doubles,
)
    requires
        codegen_x87_laws::is_inline(c, s),
        i < 8,
        pops <= 2,
        c.e.flag_locals is None,
        codegen_x87_stack_laws::top(s.memory) < 8,
        holds_double(s.memory, 0),
        holds_double(s.memory, i),
    ensures
        ({
            let t = wasm_values::flows(
                c.compare_or_call(i, slow, true, pops).e.code,
                c.e.code.len() as int,
                s,
                a,
            );
            let x = double_at(s.memory, 0);
            let y = double_at(s.memory, i);
            let code: u32 = if !(a.equal)(x, x) || !(a.equal)(y, y) {
                69
            } else if (a.less)(x, y) {
                1
            } else if (a.equal)(x, y) {
                64
            } else {
                0
            };
            &&& t.stack == s.stack
            &&& t.memory[100] == 0
            &&& t.memory[120] as u32 == (s.memory[120] as u32 & 0xffff_f72a) | code
            &&& codegen_x87_stack_laws::top(t.memory) == (codegen_x87_stack_laws::top(s.memory)
                + pops) % 8
            &&& forall|j: u32|
                j < 8 ==> (#[trigger] codegen_x87_stack_laws::is_empty(t.memory, j)
                    <==> codegen_x87_stack_laws::is_empty(s.memory, j) || (j + 8
                    - codegen_x87_stack_laws::top(s.memory)) % 8 < pops)
            &&& forall|q: u32|
                codegen_x87_stack_laws::is_elsewhere(q) && (q + 4 <= 100 || 104 <= q) && (q + 4 <= 120
                    || 124 <= q)
                    ==> #[trigger] t.memory[q] == s.memory[q]
        }),
{
    reveal(Ctx::compare_or_call);
    let c7 = before_helper(c, i);
    let c8 = c7.val(slow);
    assert(is_tidy(c7.e, 18) ==> codegen_x87_laws::stays(c7.e, c8.e, 15)) by {
        if is_tidy(c7.e, 18) {
            codegen_x87_laws::stays_val(c7.e, slow, 15);
        }
    }
    assert(c8.e.flag_locals == c7.e.flag_locals) by {
        broadcast use crate::wasm::group_code;

    }
    let (t1, t) = lemma_inline(c, i, c8, true, pops, s, a);
    assert(t1.memory[1032] == s.memory[1032]);
    assert(t1.memory[816] == s.memory[816]);
    assert forall|j: u32| j < 8 implies (#[trigger] codegen_x87_stack_laws::is_empty(t.memory, j)
        <==> codegen_x87_stack_laws::is_empty(s.memory, j) || (j + 8
        - codegen_x87_stack_laws::top(s.memory)) % 8 < pops) by {
        assert(codegen_x87_stack_laws::is_empty(t1.memory, j) == codegen_x87_stack_laws::is_empty(
            s.memory,
            j,
        ));
    }
}

/// A comparison of `ST(0)` with `ST(i)`, where the helper takes the value of `ST(i)`, leaves the
/// same in the status word.
#[verifier::spinoff_prover]
pub proof fn law_comparisons_with_values_reach_the_status_word(
    c: Ctx,
    i: u32,
    helper: &'static str,
    pops: u32,
    s: Values,
    a: Doubles,
)
    requires
        codegen_x87_laws::is_inline(c, s),
        i < 8,
        pops <= 2,
        codegen_x87_stack_laws::top(s.memory) < 8,
        holds_double(s.memory, 0),
        holds_double(s.memory, i),
    ensures
        ({
            let t = wasm_values::flows(
                c.fcom_sti(i, pops, helper).e.code,
                c.e.code.len() as int,
                s,
                a,
            );
            let x = double_at(s.memory, 0);
            let y = double_at(s.memory, i);
            let code: u32 = if !(a.equal)(x, x) || !(a.equal)(y, y) {
                0x4500
            } else if (a.less)(x, y) {
                0x100
            } else if (a.equal)(x, y) {
                0x4000
            } else {
                0
            };
            &&& t.stack == s.stack
            &&& t.memory[1040] as u32 % 0x1_0000 == (s.memory[1040] as u32 & 0xb8ff) | code
            &&& codegen_x87_stack_laws::top(t.memory) == (codegen_x87_stack_laws::top(s.memory)
                + pops) % 8
            &&& forall|j: u32|
                j < 8 ==> (#[trigger] codegen_x87_stack_laws::is_empty(t.memory, j)
                    <==> codegen_x87_stack_laws::is_empty(s.memory, j) || (j + 8
                    - codegen_x87_stack_laws::top(s.memory)) % 8 < pops)
            &&& forall|q: u32|
                codegen_x87_stack_laws::is_elsewhere(q) && (q + 4 <= 1040 || 1042 <= q)
                    ==> #[trigger] t.memory[q] == s.memory[q]
        }),
{
    reveal(Ctx::fcom_sti);
    let c7 = before_helper(c, i);
    let c8 = c7.slow_fcom(i, pops, helper);
    assert(c7.st == c.st) by {
        reveal(Ctx::st_ok);
        reveal(Ctx::x87_slot);
    }
    assert(is_tidy(c7.e, 18) ==> codegen_x87_laws::stays(c7.e, c8.e, 15) && c8.e.flag_locals
        == c7.e.flag_locals) by {
        if is_tidy(c7.e, 18) {
            stays_helped(c7, i, pops, helper, 15);
        }
    }
    assert(c8.st == c7.st && c8.x87 == c7.x87) by {
        reveal(Ctx::slow_fcom);
        reveal(Ctx::get_sti);
    }
    let (t1, t) = lemma_inline(c, i, c8, false, pops, s, a);
    assert(t1.memory[1032] == s.memory[1032]);
    assert(t1.memory[816] == s.memory[816]);
    assert forall|j: u32| j < 8 implies (#[trigger] codegen_x87_stack_laws::is_empty(t.memory, j)
        <==> codegen_x87_stack_laws::is_empty(s.memory, j) || (j + 8
        - codegen_x87_stack_laws::top(s.memory)) % 8 < pops) by {
        assert(codegen_x87_stack_laws::is_empty(t1.memory, j) == codegen_x87_stack_laws::is_empty(
            s.memory,
            j,
        ));
    }
}

} // verus!
