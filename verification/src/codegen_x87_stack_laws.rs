//! What inline x87 code does to the stack of registers.
use vstd::prelude::*;
use crate::codegen_x87_laws;
use crate::codegen_x87_laws::{
    goes_on, holds_wide, holds_word, is_tidy, keeps_locals, register,
};
use crate::jit_context::Ctx;
use crate::wasm::{Bin, BlockType, Emit, Op, Sig, Width, E};
use crate::wasm_flow;
use crate::wasm_run;
use crate::wasm_values;
use crate::wasm_values::{Doubles, Value, Values};

verus! {

pub proof fn bits_of_stack(m: i32, x: i32, p: u32, k: u32, w: i32, f: i32, v: i32)
    by (bit_vector)
    ensures
        p < 8 && k < 8 && x & 0xff == ((1i32 << p) | (m & 0xff)) & 0xff ==> ((x as u32 >> k) & 1
            == 1 <==> (m as u32 >> k) & 1 == 1 || k == p),
        p < 8 && k < 8 && x & 0xff == (((1i32 << p) ^ -1i32) & (m & 0xff)) & 0xff ==> ((x as u32
            >> k) & 1 == 1 <==> (m as u32 >> k) & 1 == 1 && k != p),
        p < 8 ==> ((((m & 0xff) as u32) >> p) as i32 & 1 == 0 <==> (m as u32 >> p) & 1 != 1),
        v >= 0 && v < 8 ==> v & 31 == v && v & 0xff == v && v & 7 == v,
        v == -1i32 ==> v & 7i32 == 7i32,
        v == 8i32 ==> v & 7i32 == 0i32,
        ((w & 0xffff) & -513i32) & 0xffff == (w as u32 & 0xfdffu32) as i32,
        f == 0 || f == 0x100 || f == 0x4000 || f == 0x4500 ==> ((((w & 0xffff) & -18177i32) | f)
            & 0xffff) as u32 == (w as u32 & 0xb8ffu32) | f as u32,
        0x100i32 | 0x400i32 | 0x4000i32 == 0x4500i32,
        1i32 | 4i32 | 64i32 == 69i32,
        w & 0xffff == (w as u32 % 0x1_0000u32) as i32,
        (w as u32 & 0xfdffu32) < 0x1_0000u32,
        f == 0 || f == 1 || f == 64 || f == 69 ==> ((w & -2262i32) | f) as u32 == (w as u32
            & 0xffff_f72au32) | f as u32,
{
}

/// The number of the register on top of the stack.
pub open spec fn top(memory: Map<u32, i32>) -> u32 {
    memory[1032] as u32 % 0x100
}

/// Whether a register, by its own number, is empty.
pub open spec fn is_empty(memory: Map<u32, i32>, k: u32) -> bool {
    (memory[816] as u32 >> k) & 1 == 1
}

/// A word shares no byte with the numbers of the top and of the empty registers, and the mark.
pub open spec fn is_elsewhere(q: u32) -> bool {
    &&& q + 4 <= 816 || 817 <= q
    &&& q + 4 <= 1032 || 1033 <= q
    &&& q + 4 <= 1044 || 1045 <= q
}

/// The stack lost its top register, which is empty now. Nothing else was changed.
pub open spec fn is_popped(m: Map<u32, i32>, n: Map<u32, i32>) -> bool {
    &&& top(n) == (top(m) + 1) % 8
    &&& forall|k: u32| k < 8 ==> (#[trigger] is_empty(n, k) <==> is_empty(m, k) || k == top(m))
    &&& forall|q: u32| is_elsewhere(q) ==> #[trigger] n[q] == m[q]
}

/// Three locals are given back.
pub proof fn stays_given(b: Emit, e: Emit, x: usize, y: usize, z: usize, room: nat)
    requires
        is_tidy(e, room),
        keeps_locals(b, e),
        holds_word(e, x),
        holds_word(e, y),
        holds_word(e, z),
        x != y,
        y != z,
        x != z,
        !holds_word(b, x),
        !holds_word(b, y),
        !holds_word(b, z),
    ensures
        is_tidy(e.give_i32(x).give_i32(y).give_i32(z), room),
        keeps_locals(b, e.give_i32(x).give_i32(y).give_i32(z)),
        e.give_i32(x).give_i32(y).give_i32(z).code == e.code,
{
    codegen_x87_laws::lemma_give_word(b, e, x, room);
    let g1 = e.give_i32(x);
    assert(holds_word(g1, y));
    assert(holds_word(g1, z));
    codegen_x87_laws::lemma_give_word(b, g1, y, room);
    let g2 = g1.give_i32(y);
    assert(holds_word(g2, z));
    codegen_x87_laws::lemma_give_word(b, g2, z, room);
}

/// Three new locals.
pub proof fn stays_taken(e: Emit, room: nat)
    requires
        is_tidy(e, room + 3),
    ensures
        ({
            let x = e.next_i32();
            let y = e.take_i32().next_i32();
            let z = e.take_i32().take_i32().next_i32();
            let g = e.take_i32().take_i32().take_i32();
            &&& is_tidy(g, room)
            &&& keeps_locals(e, g)
            &&& g.code == e.code
            &&& holds_word(g, x) && holds_word(g, y) && holds_word(g, z)
            &&& !holds_word(e, x) && !holds_word(e, y) && !holds_word(e, z)
            &&& !holds_wide(e, x) && !holds_wide(e, y) && !holds_wide(e, z)
            &&& x != y && y != z && x != z
        }),
{
    let x = e.next_i32();
    let a1 = e.take_i32();
    let y = a1.next_i32();
    let a2 = a1.take_i32();
    let z = a2.next_i32();
    let a3 = a2.take_i32();
    codegen_x87_laws::lemma_take_word(e, room + 2);
    codegen_x87_laws::lemma_take_word(a1, room + 1);
    codegen_x87_laws::lemma_take_word(a2, room);
    assert(holds_word(a2, x) || !holds_word(a1, x));
    assert(holds_word(a3, x) || !holds_word(a2, x));
    assert(holds_word(a3, y) || !holds_word(a2, y));
    assert(holds_word(a1, y) || !holds_word(e, y));
    assert(holds_word(a2, z) || !holds_word(a1, z));
    assert(holds_word(a1, z) || !holds_word(e, z));
    assert(holds_wide(a1, y) || !holds_wide(e, y));
    assert(holds_wide(a2, z) || !holds_wide(a1, z));
    assert(holds_wide(a1, z) || !holds_wide(e, z));
    assert forall|l: usize| #[trigger] holds_word(a3, l) || !holds_word(e, l) by {
        assert(holds_word(a1, l) || !holds_word(e, l));
        assert(holds_word(a2, l) || !holds_word(a1, l));
    }
    assert forall|l: usize| #[trigger] holds_wide(a3, l) || !holds_wide(e, l) by {
        assert(holds_wide(a1, l) || !holds_wide(e, l));
        assert(holds_wide(a2, l) || !holds_wide(a1, l));
    }
}

/// A local takes the value of an expression.
pub proof fn takes_set(e: Emit, l: usize, x: E, v: Value, s: Values, a: Doubles)
    requires
        wasm_flow::calls_nothing(x),
        x.leaves(s, a) == s.push(v),
    ensures
        wasm_values::takes(e, e.set(l, x), s, s.set(l, v), a),
        e.set(l, x).locals == e.locals,
        e.set(l, x).free_i32 == e.free_i32,
        e.set(l, x).free_i64 == e.free_i64,
{
    wasm_values::takes_val(e, x, s, a);
    let op = Op::LocalSet(l);
    wasm_values::takes_op(e.val(x), op, s.push(v), a);
    wasm_values::takes_on(e, e.val(x), e.set(l, x), s, s.push(v), s.set(l, v), a);
    reveal(Emit::val);
    reveal(Emit::op);
}

/// A place in memory takes the value of an expression.
pub proof fn takes_store(
    e: Emit,
    w: Width,
    at: u32,
    p: E,
    x: E,
    u: Value,
    v: Value,
    s: Values,
    a: Doubles,
)
    requires
        wasm_flow::calls_nothing(p),
        wasm_flow::calls_nothing(x),
        p.leaves(s, a) == s.push(u),
        x.leaves(s.push(u), a) == s.push(u).push(v),
    ensures
        wasm_values::takes(
            e,
            e.store(w, at, p, x),
            s,
            wasm_values::step(Op::Store(w, at), s.push(u).push(v), a),
            a,
        ),
        e.store(w, at, p, x).locals == e.locals,
        e.store(w, at, p, x).free_i32 == e.free_i32,
        e.store(w, at, p, x).free_i64 == e.free_i64,
{
    reveal_with_fuel(wasm_flow::calls_nothing, 2);
    reveal_with_fuel(E::leaves, 2);
    let both = p.both(x);
    let t = s.push(u).push(v);
    let op = Op::Store(w, at);
    wasm_values::takes_val(e, both, s, a);
    wasm_values::takes_op(e.val(both), op, t, a);
    wasm_values::takes_on(
        e,
        e.val(both),
        e.store(w, at, p, x),
        s,
        t,
        wasm_values::step(op, t, a),
        a,
    );
    reveal(Emit::val);
    reveal(Emit::op);
}

/// The memory of a pop.
proof fn lemma_popped(m: Map<u32, i32>, ptr: i32, empty: i32, n: Map<u32, i32>)
    requires
        top(m) < 8,
        empty == (1i32 << (top(m) as u32)) | (m[816] & 0xff),
        n == wasm_run::stored(
            Width::W8,
            wasm_run::stored(Width::W8, m, 816, empty),
            1032,
            ptr,
        ),
        ptr == (top(m) + 1) % 8,
    ensures
        is_popped(m, n),
        wasm_run::stored(Width::W8, m, 816, empty)[1032] == m[1032],
{
    let m1 = wasm_run::stored(Width::W8, m, 816, empty);
    let p = top(m);
    wasm_run::law_stored_values_are_loaded(Width::W8, m, 816, empty);
    wasm_run::lemma_stored_apart(Width::W8, m, 816, empty, 1032);
    wasm_run::law_stored_values_are_loaded(Width::W8, m1, 1032, ptr);
    wasm_run::lemma_stored_apart(Width::W8, m1, 1032, ptr, 816);
    bits_of_stack(0, 0, 0, 0, 0, 0, ptr);
    codegen_x87_laws::bits_of_registers(n[1032], 0, 0, 0);
    assert forall|k: u32| k < 8 implies (#[trigger] is_empty(n, k) <==> is_empty(m, k) || k
        == top(m)) by {
        bits_of_stack(m[816], n[816], p, k, 0, 0, 0);
    }
    assert forall|q: u32| is_elsewhere(q) implies #[trigger] n[q] == m[q] by {
        wasm_run::lemma_stored_apart(Width::W8, m, 816, empty, q);
        wasm_run::lemma_stored_apart(Width::W8, m1, 1032, ptr, q);
    }
}

/// A byte at a fixed address, and the next number of the top.
proof fn lemma_byte_values(at: u32, s: Values, a: Doubles)
    requires
        at < 0x1000,
    ensures
        wasm_flow::calls_nothing(E::fixed(Width::W8, at)),
        E::fixed(Width::W8, at).leaves(s, a) == s.push(Value::Word(s.memory[at] & 0xff)),
        wasm_flow::calls_nothing(E::C(at as i32)),
        E::C(at as i32).leaves(s, a) == s.push(Value::Word(at as i32)),
        at as i32 == at,
        (at as i32) as u32 == at,
        ((at as i32) as u32).wrapping_add(0) == at,
{
    reveal_with_fuel(wasm_flow::calls_nothing, 3);
    reveal_with_fuel(E::leaves, 3);
}

proof fn lemma_next_tops(p: i32)
    requires
        0 <= p < 8,
    ensures
        p.wrapping_add(1) & 7 == ((p + 1) % 8) as i32,
        p.wrapping_sub(1) & 7 == ((p + 7) % 8) as i32,
{
    assert(p.wrapping_add(1) == p + 1);
    assert(p.wrapping_sub(1) == p - 1);
    bits_of_stack(0, 0, 0, 0, 0, 0, (p + 1) as i32);
    bits_of_stack(0, 0, 0, 0, 0, 0, (p - 1) as i32);
}

proof fn lemma_top_values(s: Values, a: Doubles)
    requires
        top(s.memory) < 8,
    ensures
        wasm_flow::calls_nothing(E::fixed(Width::W8, 1032)),
        E::fixed(Width::W8, 1032).leaves(s, a) == s.push(Value::Word(top(s.memory) as i32)),
        wasm_flow::calls_nothing(E::fixed(Width::W8, 1032).binc(Bin::Add, 1).and(7)),
        E::fixed(Width::W8, 1032).binc(Bin::Add, 1).and(7).leaves(s, a) == s.push(
            Value::Word(((top(s.memory) + 1) % 8) as i32),
        ),
        wasm_flow::calls_nothing(E::fixed(Width::W8, 1032).binc(Bin::Sub, 1).and(7)),
        E::fixed(Width::W8, 1032).binc(Bin::Sub, 1).and(7).leaves(s, a) == s.push(
            Value::Word(((top(s.memory) + 7) % 8) as i32),
        ),
{
    let p = top(s.memory) as i32;
    codegen_x87_laws::bits_of_registers(s.memory[1032], 0, 0, 0);
    assert(s.memory[1032] & 0xff == p);
    lemma_byte_values(1032, s, a);
    lemma_next_tops(p);
    let x = E::fixed(Width::W8, 1032);
    let t = s.push(Value::Word(p));
    assert(x.leaves(s, a) == t);
    lemma_masked(x, Bin::Add, p, s, a);
    lemma_masked(x, Bin::Sub, p, s, a);
}

proof fn lemma_masked(x: E, b: Bin, p: i32, s: Values, a: Doubles)
    requires
        wasm_flow::calls_nothing(x),
        x.leaves(s, a) == s.push(Value::Word(p)),
        b is Add || b is Sub,
    ensures
        wasm_flow::calls_nothing(x.binc(b, 1).and(7)),
        x.binc(b, 1).and(7).leaves(s, a) == s.push(
            Value::Word(wasm_run::binary(b, p, 1) & 7),
        ),
{
    reveal_with_fuel(wasm_flow::calls_nothing, 3);
    reveal_with_fuel(E::leaves, 3);
    let y = x.binc(b, 1);
    assert(y.leaves(s, a) == s.push(Value::Word(wasm_run::binary(b, p, 1))));
}

/// The numbers of the empty registers, with one more or one less.
proof fn lemma_empty_values(l: usize, p: u32, s: Values, a: Doubles)
    requires
        p < 8,
        s.locals[l] == Value::Word(p as i32),
    ensures
        ({
            let x = E::C(1).bin(Bin::Shl, E::L(l)).bin(Bin::Or, E::fixed(Width::W8, 816));
            let y = E::C(1).bin(Bin::Shl, E::L(l)).binc(Bin::Xor, -1i32).bin(
                Bin::And,
                E::fixed(Width::W8, 816),
            );
            let z = E::fixed(Width::W8, 816).bin(Bin::ShrU, E::L(l)).and(1).eqz();
            &&& wasm_flow::calls_nothing(x)
            &&& x.leaves(s, a) == s.push(Value::Word((1i32 << p) | (s.memory[816] & 0xff)))
            &&& wasm_flow::calls_nothing(y)
            &&& y.leaves(s, a) == s.push(
                Value::Word(((1i32 << p) ^ -1i32) & (s.memory[816] & 0xff)),
            )
            &&& wasm_flow::calls_nothing(z)
            &&& z.leaves(s, a) == s.push(wasm_values::truth(!is_empty(s.memory, p)))
        }),
{
    reveal_with_fuel(wasm_flow::calls_nothing, 7);
    reveal_with_fuel(E::leaves, 7);
    assert((816i32 as u32).wrapping_add(0) == 816);
    bits_of_stack(s.memory[816], 0, p, 0, 0, 0, p as i32);
    assert(wasm_run::places(p as i32) == p);
}

proof fn lemma_local_value(l: usize, s: Values, a: Doubles)
    ensures
        wasm_flow::calls_nothing(E::L(l)),
        E::L(l).leaves(s, a) == s.push(s.locals[l]),
{
    reveal_with_fuel(wasm_flow::calls_nothing, 1);
    reveal_with_fuel(E::leaves, 1);
}

#[verifier::spinoff_prover]
proof fn goes_lost(e: Emit, s: Values, a: Doubles, room: nat) -> (t: Values)
    requires
        is_tidy(e, room + 3),
        top(s.memory) < 8,
    ensures
        goes_on(e, e.popped(), s, t, a, room),
        t.stack == s.stack,
        is_popped(s.memory, t.memory),
        forall|x: usize| #[trigger] holds_wide(e, x) ==> t.locals[x] == s.locals[x],
{
    reveal(Emit::popped);
    let l1 = e.next_i32();
    let l2 = e.take_i32().next_i32();
    let l3 = e.take_i32().take_i32().next_i32();
    let e0 = e.take_i32().take_i32().take_i32();
    stays_taken(e, room);
    wasm_values::takes_nothing(e, e0, s, a);
    let p = top(s.memory) as i32;
    lemma_top_values(s, a);
    let x1 = E::fixed(Width::W8, 1032);
    let s1 = s.set(l1, Value::Word(p));
    takes_set(e0, l1, x1, Value::Word(p), s, a);
    let e1 = e0.set(l1, x1);
    wasm_values::takes_on(e, e0, e1, s, s, s1, a);
    let x2 = E::C(1).bin(Bin::Shl, E::L(l1)).bin(Bin::Or, E::fixed(Width::W8, 816));
    let empty = (1i32 << (p as u32)) | (s.memory[816] & 0xff);
    let s2 = s1.set(l2, Value::Word(empty));
    lemma_empty_values(l1, p as u32, s1, a);
    takes_set(e1, l2, x2, Value::Word(empty), s1, a);
    let e2 = e1.set(l2, x2);
    wasm_values::takes_on(e, e1, e2, s, s1, s2, a);
    let m1 = wasm_run::stored(Width::W8, s.memory, 816, empty);
    let s3 = s2.with(m1);
    lemma_byte_values(816, s2, a);
    lemma_local_value(l2, s2.push(Value::Word(816)), a);
    takes_store(
        e2,
        Width::W8,
        0,
        E::C(816),
        E::L(l2),
        Value::Word(816),
        Value::Word(empty),
        s2,
        a,
    );
    let e3 = e2.store_fixed(Width::W8, 816, E::L(l2));
    wasm_values::takes_on(e, e2, e3, s, s2, s3, a);
    wasm_run::lemma_stored_apart(Width::W8, s.memory, 816, empty, 1032);
    let x4 = E::fixed(Width::W8, 1032).binc(Bin::Add, 1).and(7);
    let ptr = ((top(s.memory) + 1) % 8) as i32;
    lemma_top_values(s3, a);
    let s4 = s3.set(l3, Value::Word(ptr));
    takes_set(e3, l3, x4, Value::Word(ptr), s3, a);
    let e4 = e3.set(l3, x4);
    wasm_values::takes_on(e, e3, e4, s, s3, s4, a);
    let m2 = wasm_run::stored(Width::W8, m1, 1032, ptr);
    let s5 = s4.with(m2);
    lemma_byte_values(1032, s4, a);
    lemma_local_value(l3, s4.push(Value::Word(1032)), a);
    takes_store(
        e4,
        Width::W8,
        0,
        E::C(1032),
        E::L(l3),
        Value::Word(1032),
        Value::Word(ptr),
        s4,
        a,
    );
    let e5 = e4.store_fixed(Width::W8, 1032, E::L(l3));
    wasm_values::takes_on(e, e4, e5, s, s4, s5, a);
    lemma_popped(s.memory, ptr, empty, m2);
    codegen_x87_laws::lemma_same_locals(e0, e5, room);
    assert(keeps_locals(e, e5)) by {
        assert forall|y: usize| #[trigger] holds_word(e5, y) || !holds_word(e, y) by {
            assert(holds_word(e0, y) || !holds_word(e, y));
        }
        assert forall|y: usize| #[trigger] holds_wide(e5, y) || !holds_wide(e, y) by {
            assert(holds_wide(e0, y) || !holds_wide(e, y));
        }
    }
    assert(holds_word(e5, l1) || !holds_word(e0, l1));
    assert(holds_word(e5, l2) || !holds_word(e0, l2));
    assert(holds_word(e5, l3) || !holds_word(e0, l3));
    stays_given(e, e5, l1, l3, l2, room);
    let g = e5.give_i32(l1).give_i32(l3).give_i32(l2);
    wasm_values::takes_nothing(e5, g, s5, a);
    wasm_values::takes_on(e, e5, g, s, s5, s5, a);
    assert(g == e.popped());
    s5
}

/// The inline code of a pop.
pub proof fn goes_popped(c: Ctx, s: Values, a: Doubles, room: nat) -> (t: Values)
    requires
        c.st.env.fpu_relaxed,
        !c.x87_in_use(),
        is_tidy(c.e, room + 3),
        top(s.memory) < 8,
    ensures
        goes_on(c.e, c.fpu_popped().e, s, t, a, room),
        c.fpu_popped().st.env == c.st.env,
        !c.fpu_popped().x87_in_use(),
        t.stack == s.stack,
        is_popped(s.memory, t.memory),
{
    reveal(Ctx::fpu_popped);
    reveal(Ctx::x87_dropped);
    let c1 = c.mark_fpu_simd_dirty_once();
    let s1 = codegen_x87_laws::goes_marked(c, s, a, room + 3);
    let d = c1.x87_dropped();
    assert(s1.memory[1032] == s.memory[1032]);
    assert(s1.memory[816] == s.memory[816]);
    let t = goes_lost(d.e, s1, a, room);
    codegen_x87_laws::goes_further(c.e, d.e, d.e.popped(), s, s1, t, a, room + 3, room);
    assert(is_popped(s.memory, t.memory)) by {
        assert forall|k: u32| k < 8 implies (#[trigger] is_empty(t.memory, k) <==> is_empty(
            s.memory,
            k,
        ) || k == top(s.memory)) by {
            assert(is_empty(s1.memory, k) == is_empty(s.memory, k));
        }
    }
    t
}

/// A pop makes the register below the new top, and leaves the old one empty. Values in registers
/// stay as they are.
pub proof fn law_pops_empty_the_top(c: Ctx, s: Values, a: Doubles)
    requires
        c.st.env.fpu_relaxed,
        !c.x87_in_use(),
        is_tidy(c.e, 3),
        top(s.memory) < 8,
    ensures
        ({
            let t = wasm_values::flows(c.fpu_popped().e.code, c.e.code.len() as int, s, a);
            t.stack == s.stack && is_popped(s.memory, t.memory)
        }),
{
    let t = goes_popped(c, s, a, 0);
    reveal(wasm_values::takes);
    let g = c.fpu_popped().e.code;
    assert(g.is_prefix_of(g));
}

/// A word shares no byte with what a push changes.
pub open spec fn is_untouched(p: u32, q: u32) -> bool {
    &&& is_elsewhere(q)
    &&& q + 4 <= 1040 || 1042 <= q
    &&& q + 4 <= p || p + 10 <= q
}

/// The register below the top became the top, and holds the bits and the tag that were pushed. The
/// status word says that there was no fault.
pub open spec fn is_pushed(m: Map<u32, i32>, n: Map<u32, i32>, bits: u64, tag: i32) -> bool {
    &&& top(n) == (top(m) + 7) % 8
    &&& forall|k: u32| k < 8 ==> (#[trigger] is_empty(n, k) <==> is_empty(m, k) && k != top(n))
    &&& codegen_x87_laws::double_at(n, 0) == bits
    &&& n[(register(n, 0) + 8) as u32] as u32 % 0x1_0000 == tag as u32 % 0x1_0000
    &&& n[1040] as u32 % 0x1_0000 == m[1040] as u32 & 0xfdff
    &&& forall|q: u32| is_untouched(register(n, 0), q) ==> #[trigger] n[q] == m[q]
}

#[verifier::spinoff_prover]
proof fn lemma_wide_written(m: Map<u32, i32>, p: u32, r: u64, tag: i32)
    requires
        1152 <= p <= 1264,
    ensures
        ({
            let n = wasm_run::stored(
                Width::W16,
                wasm_run::stored_wide(m, p, r),
                (p + 8) as u32,
                tag,
            );
            &&& wasm_run::wide_at(n, p) == r
            &&& n[(p + 8) as u32] & 0xffff == tag & 0xffff
            &&& forall|q: u32| q + 4 <= p || p + 10 <= q ==> #[trigger] n[q] == m[q]
        }),
{
    let low = (r as u32) as i32;
    let high = ((r >> 32) as u32) as i32;
    let p4 = (p + 4) as u32;
    let p8 = (p + 8) as u32;
    assert(p.wrapping_add(4) == p4);
    let m1 = wasm_run::stored(Width::A32, m, p, low);
    let m2 = wasm_run::stored(Width::A32, m1, p4, high);
    let m3 = wasm_run::stored(Width::W16, m2, p8, tag);
    codegen_x87_laws::bits_of_registers(0, 0, 0, r);
    wasm_run::law_stored_values_are_loaded(Width::A32, m, p, low);
    wasm_run::law_stored_values_are_loaded(Width::A32, m1, p4, high);
    wasm_run::law_stored_values_are_loaded(Width::W16, m2, p8, tag);
    wasm_run::lemma_stored_apart(Width::A32, m1, p4, high, p);
    wasm_run::lemma_stored_apart(Width::W16, m2, p8, tag, p);
    wasm_run::lemma_stored_apart(Width::W16, m2, p8, tag, p4);
    assert forall|q: u32| q + 4 <= p || p + 10 <= q implies #[trigger] m3[q] == m[q] by {
        wasm_run::lemma_stored_apart(Width::A32, m, p, low, q);
        wasm_run::lemma_stored_apart(Width::A32, m1, p4, high, q);
        wasm_run::lemma_stored_apart(Width::W16, m2, p8, tag, q);
    }
}

/// The words that say which registers are in use, once there is one more.
spec fn with_top(m: Map<u32, i32>, q: u32) -> Map<u32, i32> {
    let m1 = wasm_run::stored(Width::W8, m, 1032, q as i32);
    let m2 = wasm_run::stored(
        Width::W8,
        m1,
        816,
        ((1i32 << q) ^ -1i32) & (m[816] & 0xff),
    );
    wasm_run::stored(Width::A16, m2, 1040, (m[1040] & 0xffff) & -513i32)
}

#[verifier::spinoff_prover]
proof fn lemma_with_top(m: Map<u32, i32>, q: u32)
    requires
        q < 8,
    ensures
        ({
            let n = with_top(m, q);
            let m1 = wasm_run::stored(Width::W8, m, 1032, q as i32);
            let m2 = wasm_run::stored(
                Width::W8,
                m1,
                816,
                ((1i32 << q) ^ -1i32) & (m[816] & 0xff),
            );
            &&& m1[816] == m[816]
            &&& m2[1040] == m[1040]
            &&& top(n) == q
            &&& forall|k: u32| k < 8 ==> (#[trigger] is_empty(n, k) <==> is_empty(m, k) && k != q)
            &&& n[1040] as u32 % 0x1_0000 == m[1040] as u32 & 0xfdff
            &&& forall|x: u32|
                is_elsewhere(x) && (x + 4 <= 1040 || 1042 <= x) ==> #[trigger] n[x] == m[x]
        }),
{
    let e = ((1i32 << q) ^ -1i32) & (m[816] & 0xff);
    let v = (m[1040] & 0xffff) & -513i32;
    let m1 = wasm_run::stored(Width::W8, m, 1032, q as i32);
    let m2 = wasm_run::stored(Width::W8, m1, 816, e);
    let n = with_top(m, q);
    wasm_run::law_stored_values_are_loaded(Width::W8, m, 1032, q as i32);
    wasm_run::lemma_stored_apart(Width::W8, m, 1032, q as i32, 816);
    wasm_run::lemma_stored_apart(Width::W8, m, 1032, q as i32, 1040);
    wasm_run::law_stored_values_are_loaded(Width::W8, m1, 816, e);
    wasm_run::lemma_stored_apart(Width::W8, m1, 816, e, 1032);
    wasm_run::lemma_stored_apart(Width::W8, m1, 816, e, 1040);
    wasm_run::law_stored_values_are_loaded(Width::A16, m2, 1040, v);
    wasm_run::lemma_stored_apart(Width::A16, m2, 1040, v, 1032);
    wasm_run::lemma_stored_apart(Width::A16, m2, 1040, v, 816);
    bits_of_stack(0, 0, 0, 0, m[1040], 0, q as i32);
    bits_of_stack(0, 0, 0, 0, n[1040], 0, 0);
    codegen_x87_laws::bits_of_registers(n[1032], 0, 0, 0);
    codegen_x87_laws::bits_of_registers(n[1040], 0, 0, 0);
    assert forall|k: u32| k < 8 implies (#[trigger] is_empty(n, k) <==> is_empty(m, k) && k != q) by {
        bits_of_stack(m[816], n[816], q, k, 0, 0, 0);
    }
    assert forall|x: u32|
        is_elsewhere(x) && (x + 4 <= 1040 || 1042 <= x) implies #[trigger] n[x] == m[x] by {
        wasm_run::lemma_stored_apart(Width::W8, m, 1032, q as i32, x);
        wasm_run::lemma_stored_apart(Width::W8, m1, 816, e, x);
        wasm_run::lemma_stored_apart(Width::A16, m2, 1040, v, x);
    }
}

/// The address of a register by its own number, and the status word without a fault.
proof fn lemma_slot_values(l: usize, q: u32, s: Values, a: Doubles)
    requires
        q < 8,
        s.locals[l] == Value::Word(q as i32),
    ensures
        wasm_flow::calls_nothing(E::L(l).st_slot()),
        E::L(l).st_slot().leaves(s, a) == s.push(Value::Word((1152 + 16 * q) as i32)),
        wasm_flow::calls_nothing(E::fixed(Width::A16, 1040).and(-513i32)),
        E::fixed(Width::A16, 1040).and(-513i32).leaves(s, a) == s.push(
            Value::Word((s.memory[1040] & 0xffff) & -513i32),
        ),
        ((1152 + 16 * q) as i32) as u32 == 1152 + 16 * q,
{
    reveal_with_fuel(wasm_flow::calls_nothing, 5);
    reveal_with_fuel(E::leaves, 5);
    let v = q as i32;
    assert(v.wrapping_mul(16) == 16 * q);
    assert(v.wrapping_mul(16).wrapping_add(1152) == 1152 + 16 * q);
    assert((1040i32 as u32).wrapping_add(0) == 1040);
}

#[verifier::spinoff_prover]
proof fn lemma_gained(
    e: Emit,
    mantissa: usize,
    tag: usize,
    bits: u64,
    g: i32,
    s: Values,
    a: Doubles,
) -> (t: Values)
    requires
        is_tidy(e, 3),
        holds_wide(e, mantissa),
        holds_word(e, tag),
        s.locals[mantissa] == Value::Wide(bits),
        s.locals[tag] == Value::Word(g),
        top(s.memory) < 8,
        is_empty(s.memory, ((top(s.memory) + 7) % 8) as u32),
    ensures
        wasm_values::takes(e, e.pushed(mantissa, tag), s, t, a),
        t.stack == s.stack,
        is_pushed(s.memory, t.memory, bits, g),
{
    reveal(Emit::pushed);
    let l1 = e.next_i32();
    let l2 = e.take_i32().next_i32();
    let l3 = e.take_i32().take_i32().next_i32();
    let e0 = e.take_i32().take_i32().take_i32();
    stays_taken(e, 0);
    wasm_values::takes_nothing(e, e0, s, a);
    let q = ((top(s.memory) + 7) % 8) as u32;
    let x1 = E::fixed(Width::W8, 1032).binc(Bin::Sub, 1).and(7);
    lemma_top_values(s, a);
    let s1 = s.set(l1, Value::Word(q as i32));
    takes_set(e0, l1, x1, Value::Word(q as i32), s, a);
    let e1 = e0.set(l1, x1);
    wasm_values::takes_on(e, e0, e1, s, s, s1, a);
    lemma_empty_values(l1, q, s1, a);
    let x2 = E::fixed(Width::W8, 816).bin(Bin::ShrU, E::L(l1)).and(1).eqz();
    let s2 = s1.push(Value::Word(0));
    wasm_values::takes_val(e1, x2, s1, a);
    let e2 = e1.val(x2);
    wasm_values::takes_on(e, e1, e2, s, s1, s2, a);
    let if_op = Op::If(BlockType::Void, None);
    let slow = E::L(mantissa).both(E::L(tag)).call("fpu_push", Sig::Fn2I64I32);
    wasm_values::closed_val(e2.op(if_op), slow);
    let g0 = e2.op(if_op).val(slow);
    let e3 = g0.op(Op::Else);
    assert(s2.pop() == s1);
    // the inline part
    let m1 = wasm_run::stored(Width::W8, s.memory, 1032, q as i32);
    lemma_with_top(s.memory, q);
    lemma_byte_values(1032, s1, a);
    lemma_local_value(l1, s1.push(Value::Word(1032)), a);
    takes_store(
        e3,
        Width::W8,
        0,
        E::C(1032),
        E::L(l1),
        Value::Word(1032),
        Value::Word(q as i32),
        s1,
        a,
    );
    let s4 = s1.with(m1);
    let e4 = e3.store_fixed(Width::W8, 1032, E::L(l1));
    let x5 = E::C(1).bin(Bin::Shl, E::L(l1)).binc(Bin::Xor, -1i32).bin(
        Bin::And,
        E::fixed(Width::W8, 816),
    );
    let empty = ((1i32 << q) ^ -1i32) & (s.memory[816] & 0xff);
    lemma_empty_values(l1, q, s4, a);
    takes_set(e4, l2, x5, Value::Word(empty), s4, a);
    let s5 = s4.set(l2, Value::Word(empty));
    let e5 = e4.set(l2, x5);
    wasm_values::takes_on(e3, e4, e5, s1, s4, s5, a);
    let m2 = wasm_run::stored(Width::W8, m1, 816, empty);
    lemma_byte_values(816, s5, a);
    lemma_local_value(l2, s5.push(Value::Word(816)), a);
    takes_store(
        e5,
        Width::W8,
        0,
        E::C(816),
        E::L(l2),
        Value::Word(816),
        Value::Word(empty),
        s5,
        a,
    );
    let s6 = s5.with(m2);
    let e6 = e5.store_fixed(Width::W8, 816, E::L(l2));
    wasm_values::takes_on(e3, e5, e6, s1, s5, s6, a);
    let status = (s.memory[1040] & 0xffff) & -513i32;
    let x7 = E::fixed(Width::A16, 1040).and(-513i32);
    lemma_byte_values(1040, s6, a);
    lemma_slot_values(l1, q, s6.push(Value::Word(1040)), a);
    takes_store(
        e6,
        Width::A16,
        0,
        E::C(1040),
        x7,
        Value::Word(1040),
        Value::Word(status),
        s6,
        a,
    );
    let m3 = with_top(s.memory, q);
    let s7 = s6.with(m3);
    let e7 = e6.store_fixed(Width::A16, 1040, x7);
    wasm_values::takes_on(e3, e6, e7, s1, s6, s7, a);
    let p = (1152 + 16 * q) as u32;
    let at = Value::Word(p as i32);
    lemma_slot_values(l1, q, s7, a);
    takes_set(e7, l3, E::L(l1).st_slot(), at, s7, a);
    let s8 = s7.set(l3, at);
    let e8 = e7.set(l3, E::L(l1).st_slot());
    wasm_values::takes_on(e3, e7, e8, s1, s7, s8, a);
    assert(p.wrapping_add(0) == p && p.wrapping_add(8) == p + 8);
    let m4 = wasm_run::stored_wide(m3, p, bits);
    lemma_local_value(l3, s8, a);
    lemma_local_value(mantissa, s8.push(at), a);
    assert(s8.locals[mantissa] == Value::Wide(bits));
    takes_store(
        e8,
        Width::W64,
        0,
        E::L(l3),
        E::L(mantissa),
        at,
        Value::Wide(bits),
        s8,
        a,
    );
    let s9 = s8.with(m4);
    let e9 = e8.store(Width::W64, 0, E::L(l3), E::L(mantissa));
    wasm_values::takes_on(e3, e8, e9, s1, s8, s9, a);
    lemma_local_value(l3, s9, a);
    lemma_local_value(tag, s9.push(at), a);
    assert(s9.locals[tag] == Value::Word(g));
    takes_store(e9, Width::W16, 8, E::L(l3), E::L(tag), at, Value::Word(g), s9, a);
    let m5 = wasm_run::stored(Width::W16, m4, (p + 8) as u32, g);
    let t = s9.with(m5);
    let e10 = e9.store(Width::W16, 8, E::L(l3), E::L(tag));
    wasm_values::takes_on(e3, e9, e10, s1, s9, t, a);
    wasm_values::takes_second(e2, if_op, g0, e10, s2, t, a);
    let e11 = e10.op(Op::End);
    wasm_values::takes_on(e, e2, e11, s, s2, t, a);
    let z = e.pushed(mantissa, tag);
    assert(z.code == e11.code) by {
        reveal(Emit::give_i32);
        reveal(Emit::op);
    }
    wasm_values::takes_nothing(e11, z, t, a);
    wasm_values::takes_on(e, e11, z, s, t, t, a);
    lemma_is_pushed(s.memory, q, bits, g);
    t
}

#[verifier::spinoff_prover]
proof fn lemma_is_pushed(m: Map<u32, i32>, q: u32, bits: u64, g: i32)
    requires
        top(m) < 8,
        q == (top(m) + 7) % 8,
    ensures
        ({
            let p = (1152 + 16 * q) as u32;
            let n = wasm_run::stored(
                Width::W16,
                wasm_run::stored_wide(with_top(m, q), p, bits),
                (p + 8) as u32,
                g,
            );
            is_pushed(m, n, bits, g)
        }),
{
    let p = (1152 + 16 * q) as u32;
    let m3 = with_top(m, q);
    let n = wasm_run::stored(
        Width::W16,
        wasm_run::stored_wide(m3, p, bits),
        (p + 8) as u32,
        g,
    );
    lemma_with_top(m, q);
    lemma_wide_written(m3, p, bits, g);
    codegen_x87_laws::bits_of_registers(n[(p + 8) as u32], 0, 0, 0);
    codegen_x87_laws::bits_of_registers(g, 0, 0, 0);
    assert(n[1032] == m3[1032]);
    assert(n[816] == m3[816]);
    assert(n[1040] == m3[1040]);
    assert(register(n, 0) == p);
    assert forall|k: u32| k < 8 implies (#[trigger] is_empty(n, k) <==> is_empty(m, k) && k
        != top(n)) by {
        assert(is_empty(n, k) == is_empty(m3, k));
    }
}

/// A push where the register below the top is empty makes it the top, with the bits and the tag
/// that were on the stack of the code. The other registers keep theirs.
#[verifier::spinoff_prover]
pub proof fn law_pushes_fill_a_register(c: Ctx, bits: u64, tag: i32, s: Values, a: Doubles)
    requires
        c.st.env.fpu_relaxed,
        !c.x87_in_use(),
        is_tidy(c.e, 6),
        top(s.memory) < 8,
        is_empty(s.memory, ((top(s.memory) + 7) % 8) as u32),
    ensures
        ({
            let t = wasm_values::flows(
                c.fpu_pushed().e.code,
                c.e.code.len() as int,
                s.push(Value::Wide(bits)).push(Value::Word(tag)),
                a,
            );
            t.stack == s.stack && is_pushed(s.memory, t.memory, bits, tag)
        }),
{
    reveal(Ctx::fpu_pushed);
    reveal(Ctx::x87_dropped);
    let s0 = s.push(Value::Wide(bits)).push(Value::Word(tag));
    let c1 = c.mark_fpu_simd_dirty_once();
    let s1 = codegen_x87_laws::goes_marked(c, s0, a, 6);
    let l = c1.e.next_i32();
    codegen_x87_laws::lemma_take_word(c1.e, 5);
    let b1 = c1.e.take_i32();
    let b2 = b1.op(Op::LocalSet(l));
    let s2 = s1.pop().set(l, Value::Word(tag));
    wasm_values::takes_nothing(c1.e, b1, s1, a);
    wasm_values::takes_op(b1, Op::LocalSet(l), s1, a);
    wasm_values::takes_on(c1.e, b1, b2, s1, s1, s2, a);
    reveal(Emit::op);
    codegen_x87_laws::lemma_same_locals(b1, b2, 5);
    let k = b2.next_i64();
    let base = s2.pop();
    assert(s2 == base.push(Value::Wide(bits)));
    codegen_x87_laws::goes_new_wide(b2, Value::Wide(bits), base, a, 4);
    let b3 = b2.take_i64().op(Op::LocalSet(k));
    let s3 = base.set(k, Value::Wide(bits));
    assert(holds_word(b2, l));
    assert(holds_word(b3, l) || !holds_word(b2, l));
    assert(s3.locals[l] == Value::Word(tag));
    assert(s3.memory[1032] == s.memory[1032]);
    assert(s3.memory[816] == s.memory[816]);
    assert(s3.memory[1040] == s.memory[1040]);
    assert(s3.stack == s.stack);
    let t = lemma_gained(b3, k, l, bits, tag, s3, a);
    wasm_values::takes_on(c.e, c1.e, b2, s0, s1, s2, a);
    wasm_values::takes_on(c.e, b2, b3, s0, s2, s3, a);
    let z = b3.pushed(k, l);
    wasm_values::takes_on(c.e, b3, z, s0, s3, t, a);
    let g = c.fpu_pushed().e;
    assert(g.code == z.code) by {
        reveal(Emit::give_i32);
        reveal(Emit::give_i64);
    }
    assert(wasm_values::flows(g.code, c.e.code.len() as int, s0, a) == t) by {
        reveal(wasm_values::takes);
        assert(z.code.is_prefix_of(z.code));
    }
    assert(is_pushed(s.memory, t.memory, bits, tag)) by {
        assert forall|j: u32| j < 8 implies (#[trigger] is_empty(t.memory, j) <==> is_empty(
            s.memory,
            j,
        ) && j != top(t.memory)) by {
            assert(is_empty(s3.memory, j) == is_empty(s.memory, j));
        }
    }
}

/// Memory once 64 bits were stored: they are read again, and what is apart is as it was.
proof fn lemma_wide_stored(m: Map<u32, i32>, p: u32, v: u64)
    requires
        1000 <= p <= 2000,
    ensures
        wasm_run::wide_at(wasm_run::stored_wide(m, p, v), p) == v,
        forall|q: u32|
            q + 4 <= p || p + 8 <= q ==> #[trigger] wasm_run::stored_wide(m, p, v)[q] == m[q],
{
    let low = (v as u32) as i32;
    let high = ((v >> 32) as u32) as i32;
    let p4 = (p + 4) as u32;
    assert(p.wrapping_add(4) == p4);
    let m1 = wasm_run::stored(Width::A32, m, p, low);
    let n = wasm_run::stored_wide(m, p, v);
    codegen_x87_laws::bits_of_registers(0, 0, 0, v);
    wasm_run::law_stored_values_are_loaded(Width::A32, m, p, low);
    wasm_run::law_stored_values_are_loaded(Width::A32, m1, p4, high);
    wasm_run::lemma_stored_apart(Width::A32, m1, p4, high, p);
    assert forall|q: u32| q + 4 <= p || p + 8 <= q implies #[trigger] n[q] == m[q] by {
        wasm_run::lemma_stored_apart(Width::A32, m, p, low, q);
        wasm_run::lemma_stored_apart(Width::A32, m1, p4, high, q);
    }
}

/// What two registers hold changed places, all sixteen bytes of it, and nothing else changed.
pub open spec fn are_exchanged(m: Map<u32, i32>, n: Map<u32, i32>, x: u32, y: u32) -> bool {
    &&& wasm_run::wide_at(n, x) == wasm_run::wide_at(m, y)
    &&& wasm_run::wide_at(n, (x + 8) as u32) == wasm_run::wide_at(m, (y + 8) as u32)
    &&& wasm_run::wide_at(n, y) == wasm_run::wide_at(m, x)
    &&& wasm_run::wide_at(n, (y + 8) as u32) == wasm_run::wide_at(m, (x + 8) as u32)
    &&& forall|q: u32|
        (q + 4 <= x || x + 16 <= q) && (q + 4 <= y || y + 16 <= q) && (q + 4 <= 1044 || 1045 <= q)
            ==> #[trigger] n[q] == m[q]
}

spec fn with_exchanged(m: Map<u32, i32>, x: u32, y: u32) -> Map<u32, i32> {
    let x8 = (x + 8) as u32;
    let y8 = (y + 8) as u32;
    let m1 = wasm_run::stored_wide(m, x, wasm_run::wide_at(m, y));
    let m2 = wasm_run::stored_wide(m1, x8, wasm_run::wide_at(m, y8));
    let m3 = wasm_run::stored_wide(m2, y, wasm_run::wide_at(m, x));
    wasm_run::stored_wide(m3, y8, wasm_run::wide_at(m, x8))
}

#[verifier::spinoff_prover]
proof fn lemma_exchanged(m: Map<u32, i32>, x: u32, y: u32)
    requires
        1152 <= x <= 1264,
        1152 <= y <= 1264,
        x == y || x + 16 <= y || y + 16 <= x,
    ensures
        are_exchanged(m, with_exchanged(m, x, y), x, y),
{
    let x8 = (x + 8) as u32;
    let y8 = (y + 8) as u32;
    let m1 = wasm_run::stored_wide(m, x, wasm_run::wide_at(m, y));
    let m2 = wasm_run::stored_wide(m1, x8, wasm_run::wide_at(m, y8));
    let m3 = wasm_run::stored_wide(m2, y, wasm_run::wide_at(m, x));
    let n = with_exchanged(m, x, y);
    lemma_wide_stored(m, x, wasm_run::wide_at(m, y));
    lemma_wide_stored(m1, x8, wasm_run::wide_at(m, y8));
    lemma_wide_stored(m2, y, wasm_run::wide_at(m, x));
    lemma_wide_stored(m3, y8, wasm_run::wide_at(m, x8));
    assert(x.wrapping_add(4) == x + 4 && y.wrapping_add(4) == y + 4);
    assert(x8.wrapping_add(4) == x + 12 && y8.wrapping_add(4) == y + 12);
    let (x4, x12) = ((x + 4) as u32, (x + 12) as u32);
    let (y4, y12) = ((y + 4) as u32, (y + 12) as u32);
    assert(m2[x] == m1[x] && m2[x4] == m1[x4]);
    assert(n[y] == m3[y] && n[y4] == m3[y4]);
    if x != y {
        assert(m3[x] == m2[x] && m3[x4] == m2[x4] && m3[x8] == m2[x8] && m3[x12] == m2[x12]);
        assert(n[x] == m3[x] && n[x4] == m3[x4] && n[x8] == m3[x8] && n[x12] == m3[x12]);
    }
}

/// The bits of a register, or what stands behind them.
proof fn lemma_half_values(l: usize, p: u32, s: Values, a: Doubles)
    requires
        1152 <= p <= 1264,
        s.locals[l] == Value::Word(p as i32),
    ensures
        wasm_flow::calls_nothing(E::L(l).load(Width::W64, 0)),
        E::L(l).load(Width::W64, 0).leaves(s, a) == s.push(
            Value::Wide(wasm_run::wide_at(s.memory, p)),
        ),
        wasm_flow::calls_nothing(E::L(l).load(Width::W64, 8)),
        E::L(l).load(Width::W64, 8).leaves(s, a) == s.push(
            Value::Wide(wasm_run::wide_at(s.memory, (p + 8) as u32)),
        ),
        (p as i32) as u32 == p,
        p.wrapping_add(0) == p,
        p.wrapping_add(8) == p + 8,
{
    reveal_with_fuel(wasm_flow::calls_nothing, 3);
    reveal_with_fuel(E::leaves, 3);
}

/// Four new locals for 64 bits.
proof fn lemma_four(e: Emit)
    requires
        is_tidy(e, 4),
    ensures
        ({
            let a1 = e.take_i64();
            let a2 = a1.take_i64();
            let a3 = a2.take_i64();
            let l1 = e.next_i64();
            let l2 = a1.next_i64();
            let l3 = a2.next_i64();
            let l4 = a3.next_i64();
            &&& l1 != l2 && l1 != l3 && l1 != l4 && l2 != l3 && l2 != l4 && l3 != l4
            &&& !holds_word(e, l1) && !holds_word(e, l2) && !holds_word(e, l3) && !holds_word(
                e,
                l4,
            )
            &&& a3.take_i64().code == e.code
        }),
{
    let a1 = e.take_i64();
    let a2 = a1.take_i64();
    let a3 = a2.take_i64();
    let (l1, l2, l3, l4) = (e.next_i64(), a1.next_i64(), a2.next_i64(), a3.next_i64());
    codegen_x87_laws::lemma_take_wide(e, 3);
    codegen_x87_laws::lemma_take_wide(a1, 2);
    codegen_x87_laws::lemma_take_wide(a2, 1);
    codegen_x87_laws::lemma_take_wide(a3, 0);
    assert(holds_wide(a2, l1) || !holds_wide(a1, l1));
    assert(holds_wide(a3, l1) || !holds_wide(a2, l1));
    assert(holds_wide(a3, l2) || !holds_wide(a2, l2));
    assert(holds_word(a1, l2) || !holds_word(e, l2));
    assert(holds_word(a2, l3) || !holds_word(a1, l3));
    assert(holds_word(a1, l3) || !holds_word(e, l3));
    assert(holds_word(a3, l4) || !holds_word(a2, l4));
    assert(holds_word(a2, l4) || !holds_word(a1, l4));
    assert(holds_word(a1, l4) || !holds_word(e, l4));
}

#[verifier::spinoff_prover]
proof fn lemma_swapped(e: Emit, lx: usize, ly: usize, x: u32, y: u32, s: Values, a: Doubles) -> (t:
    Values)
    requires
        is_tidy(e, 4),
        holds_word(e, lx),
        holds_word(e, ly),
        1152 <= x <= 1264,
        1152 <= y <= 1264,
        s.locals[lx] == Value::Word(x as i32),
        s.locals[ly] == Value::Word(y as i32),
    ensures
        wasm_values::takes(e, e.exchanged(lx, ly), s, t, a),
        t.stack == s.stack,
        t.memory == with_exchanged(s.memory, x, y),
{
    reveal(Emit::exchanged);
    lemma_four(e);
    let l1 = e.next_i64();
    let l2 = e.take_i64().next_i64();
    let l3 = e.take_i64().take_i64().next_i64();
    let l4 = e.take_i64().take_i64().take_i64().next_i64();
    let e0 = e.take_i64().take_i64().take_i64().take_i64();
    wasm_values::takes_nothing(e, e0, s, a);
    let m = s.memory;
    let x8 = (x + 8) as u32;
    let y8 = (y + 8) as u32;
    let v1 = Value::Wide(wasm_run::wide_at(m, x));
    let v2 = Value::Wide(wasm_run::wide_at(m, x8));
    let v3 = Value::Wide(wasm_run::wide_at(m, y));
    let v4 = Value::Wide(wasm_run::wide_at(m, y8));
    let (rx, ry) = (E::L(lx), E::L(ly));
    lemma_half_values(lx, x, s, a);
    takes_set(e0, l1, rx.load(Width::W64, 0), v1, s, a);
    let s1 = s.set(l1, v1);
    let e1 = e0.set(l1, rx.load(Width::W64, 0));
    wasm_values::takes_on(e, e0, e1, s, s, s1, a);
    lemma_half_values(lx, x, s1, a);
    takes_set(e1, l2, rx.load(Width::W64, 8), v2, s1, a);
    let s2 = s1.set(l2, v2);
    let e2 = e1.set(l2, rx.load(Width::W64, 8));
    wasm_values::takes_on(e, e1, e2, s, s1, s2, a);
    lemma_half_values(ly, y, s2, a);
    takes_set(e2, l3, ry.load(Width::W64, 0), v3, s2, a);
    let s3 = s2.set(l3, v3);
    let e3 = e2.set(l3, ry.load(Width::W64, 0));
    wasm_values::takes_on(e, e2, e3, s, s2, s3, a);
    lemma_half_values(ly, y, s3, a);
    takes_set(e3, l4, ry.load(Width::W64, 8), v4, s3, a);
    let s4 = s3.set(l4, v4);
    let e4 = e3.set(l4, ry.load(Width::W64, 8));
    wasm_values::takes_on(e, e3, e4, s, s3, s4, a);
    let (px, py) = (Value::Word(x as i32), Value::Word(y as i32));
    assert(s4.locals[lx] == px && s4.locals[ly] == py);
    assert(s4.locals[l1] == v1 && s4.locals[l2] == v2 && s4.locals[l3] == v3 && s4.locals[l4]
        == v4);
    let m1 = wasm_run::stored_wide(m, x, wasm_run::wide_at(m, y));
    lemma_local_value(lx, s4, a);
    lemma_local_value(l3, s4.push(px), a);
    takes_store(e4, Width::W64, 0, rx, E::L(l3), px, v3, s4, a);
    let s5 = s4.with(m1);
    let e5 = e4.store(Width::W64, 0, rx, E::L(l3));
    wasm_values::takes_on(e, e4, e5, s, s4, s5, a);
    let m2 = wasm_run::stored_wide(m1, x8, wasm_run::wide_at(m, y8));
    lemma_local_value(lx, s5, a);
    lemma_local_value(l4, s5.push(px), a);
    takes_store(e5, Width::W64, 8, rx, E::L(l4), px, v4, s5, a);
    let s6 = s5.with(m2);
    let e6 = e5.store(Width::W64, 8, rx, E::L(l4));
    wasm_values::takes_on(e, e5, e6, s, s5, s6, a);
    let m3 = wasm_run::stored_wide(m2, y, wasm_run::wide_at(m, x));
    lemma_local_value(ly, s6, a);
    lemma_local_value(l1, s6.push(py), a);
    takes_store(e6, Width::W64, 0, ry, E::L(l1), py, v1, s6, a);
    let s7 = s6.with(m3);
    let e7 = e6.store(Width::W64, 0, ry, E::L(l1));
    wasm_values::takes_on(e, e6, e7, s, s6, s7, a);
    let m4 = wasm_run::stored_wide(m3, y8, wasm_run::wide_at(m, x8));
    lemma_local_value(ly, s7, a);
    lemma_local_value(l2, s7.push(py), a);
    takes_store(e7, Width::W64, 8, ry, E::L(l2), py, v2, s7, a);
    let s8 = s7.with(m4);
    let e8 = e7.store(Width::W64, 8, ry, E::L(l2));
    wasm_values::takes_on(e, e7, e8, s, s7, s8, a);
    let z = e.exchanged(lx, ly);
    assert(z.code == e8.code) by {
        reveal(Emit::give_i64);
    }
    wasm_values::takes_nothing(e8, z, s8, a);
    wasm_values::takes_on(e, e8, z, s, s8, s8, a);
    s8
}

/// `ST(0)` and `ST(i)` change places, whatever they hold.
#[verifier::spinoff_prover]
pub proof fn law_registers_change_places(c: Ctx, i: u32, s: Values, a: Doubles)
    requires
        c.st.env.fpu_relaxed,
        !c.x87_in_use(),
        is_tidy(c.e, 6),
        i < 8,
    ensures
        ({
            let t = wasm_values::flows(c.fxch(i).e.code, c.e.code.len() as int, s, a);
            &&& t.stack == s.stack
            &&& are_exchanged(s.memory, t.memory, register(s.memory, 0), register(s.memory, i))
        }),
{
    reveal(Ctx::fxch);
    reveal(Ctx::x87_dropped);
    let c1 = c.mark_fpu_simd_dirty_once().x87_dropped();
    let s1 = codegen_x87_laws::goes_marked(c, s, a, 6);
    let l0 = c1.e.next_i32();
    let c2 = c1.st_addr(0);
    codegen_x87_laws::goes_address(c1, 0, s1, a, 5);
    let (x, y) = (register(s.memory, 0), register(s.memory, i));
    assert(s1.memory[1032] == s.memory[1032]);
    let s2 = s1.set(l0, Value::Word(x as i32));
    let li = c2.e.next_i32();
    let c3 = c2.st_addr(i);
    codegen_x87_laws::goes_address(c2, i, s2, a, 4);
    let s3 = s2.set(li, Value::Word(y as i32));
    assert(holds_word(c3.e, l0) || !holds_word(c2.e, l0));
    codegen_x87_laws::lemma_register(0, s, a);
    codegen_x87_laws::lemma_register(i, s, a);
    let t = lemma_swapped(c3.e, l0, li, x, y, s3, a);
    wasm_values::takes_on(c.e, c1.e, c2.e, s, s1, s2, a);
    wasm_values::takes_on(c.e, c2.e, c3.e, s, s2, s3, a);
    let z = c3.e.exchanged(l0, li);
    wasm_values::takes_on(c.e, c3.e, z, s, s3, t, a);
    let g = c.fxch(i).e;
    assert(g.code == z.code) by {
        reveal(Emit::give_i32);
    }
    assert(wasm_values::flows(g.code, c.e.code.len() as int, s, a) == t) by {
        reveal(wasm_values::takes);
        assert(z.code.is_prefix_of(z.code));
    }
    assert(x == y || x + 16 <= y || y + 16 <= x);
    lemma_exchanged(s1.memory, x, y);
    lemma_same_halves(s, s1, x);
    lemma_same_halves(s, s1, y);
}

proof fn lemma_same_halves(s: Values, t: Values, p: u32)
    requires
        1152 <= p <= 1264,
        forall|q: u32| q + 4 <= 1044 || 1045 <= q ==> #[trigger] t.memory[q] == s.memory[q],
    ensures
        wasm_run::wide_at(t.memory, p) == wasm_run::wide_at(s.memory, p),
        wasm_run::wide_at(t.memory, (p + 8) as u32) == wasm_run::wide_at(
            s.memory,
            (p + 8) as u32,
        ),
{
    let p8 = (p + 8) as u32;
    assert(p.wrapping_add(4) == p + 4 && p8.wrapping_add(4) == p + 12);
    assert(t.memory[p] == s.memory[p]);
    assert(t.memory[(p + 4) as u32] == s.memory[(p + 4) as u32]);
    assert(t.memory[p8] == s.memory[p8]);
    assert(t.memory[(p + 12) as u32] == s.memory[(p + 12) as u32]);
}

} // verus!
