//! What inline x87 code leaves in the registers.
use vstd::prelude::*;
use crate::codegen_fpu::FpuFastBinOp;
use crate::cpu_state;
use crate::jit_context::Ctx;
use crate::wasm::{Bin, BlockType, Emit, Op, Sig, Un, Width, E};
use crate::wasm_flow;
use crate::wasm_run;
use crate::wasm_values;
use crate::wasm_values::{Doubles, Value, Values};

verus! {

/// The locals that are free have the type of their list, and stand in it once. So many more can
/// be handed out.
pub open spec fn is_tidy(e: Emit, room: nat) -> bool {
    &&& e.locals.len() + room < usize::MAX
    &&& e.free_i32.no_duplicates()
    &&& e.free_i64.no_duplicates()
    &&& forall|i: int|
        0 <= i < e.free_i32.len() ==> (#[trigger] e.free_i32[i]) < e.locals.len()
            && e.locals[e.free_i32[i] as int] is I32
    &&& forall|i: int|
        0 <= i < e.free_i64.len() ==> (#[trigger] e.free_i64[i]) < e.locals.len()
            && e.locals[e.free_i64[i] as int] is I64
}

/// A local for words that is in use.
pub open spec fn holds_word(e: Emit, x: usize) -> bool {
    &&& x < e.locals.len()
    &&& e.locals[x as int] is I32
    &&& !e.free_i32.contains(x)
}

/// A local for 64 bits that is in use.
pub open spec fn holds_wide(e: Emit, x: usize) -> bool {
    &&& x < e.locals.len()
    &&& e.locals[x as int] is I64
    &&& !e.free_i64.contains(x)
}

/// The locals in use stay in use.
pub open spec fn keeps_locals(e: Emit, g: Emit) -> bool {
    &&& forall|x: usize| #[trigger] holds_word(g, x) || !holds_word(e, x)
    &&& forall|x: usize| #[trigger] holds_wide(g, x) || !holds_wide(e, x)
}

/// The words in the locals in use stay as they are.
pub open spec fn keeps_words(e: Emit, s: Values, t: Values) -> bool {
    forall|x: usize| #[trigger] holds_word(e, x) ==> t.locals[x] == s.locals[x]
}

pub proof fn lemma_take_word(e: Emit, room: nat)
    requires
        is_tidy(e, room + 1),
    ensures
        is_tidy(e.take_i32(), room),
        keeps_locals(e, e.take_i32()),
        holds_word(e.take_i32(), e.next_i32()),
        !holds_word(e, e.next_i32()),
        !holds_wide(e, e.next_i32()),
        e.take_i32().code == e.code,
{
    reveal(Emit::take_i32);
    reveal(Emit::next_i32);
    let g = e.take_i32();
    let x = e.next_i32();
    if e.free_i32.len() > 0 {
        let n = e.free_i32.len() - 1;
        assert(e.free_i32.contains(e.free_i32[n]));
        assert forall|y: usize| #[trigger] g.free_i32.contains(y) implies e.free_i32.contains(y) && y
            != x by {
            let i = choose|i: int| 0 <= i < g.free_i32.len() && g.free_i32[i] == y;
            assert(e.free_i32[i] == y);
        }
    } else {
        assert forall|y: usize| #[trigger] holds_wide(e, y) implies holds_wide(g, y) by {}
        assert forall|y: usize| #[trigger] holds_word(e, y) implies holds_word(g, y) by {}
    }
}

pub proof fn lemma_take_wide(e: Emit, room: nat)
    requires
        is_tidy(e, room + 1),
    ensures
        is_tidy(e.take_i64(), room),
        keeps_locals(e, e.take_i64()),
        holds_wide(e.take_i64(), e.next_i64()),
        !holds_word(e, e.next_i64()),
        !holds_wide(e, e.next_i64()),
        e.take_i64().code == e.code,
{
    reveal(Emit::take_i64);
    reveal(Emit::next_i64);
    let g = e.take_i64();
    let x = e.next_i64();
    if e.free_i64.len() > 0 {
        let n = e.free_i64.len() - 1;
        assert(e.free_i64.contains(e.free_i64[n]));
        assert forall|y: usize| #[trigger] g.free_i64.contains(y) implies e.free_i64.contains(y) && y
            != x by {
            let i = choose|i: int| 0 <= i < g.free_i64.len() && g.free_i64[i] == y;
            assert(e.free_i64[i] == y);
        }
    } else {
        assert forall|y: usize| #[trigger] holds_wide(e, y) implies holds_wide(g, y) by {}
        assert forall|y: usize| #[trigger] holds_word(e, y) implies holds_word(g, y) by {}
    }
}

/// A local for 64 bits is given back.
pub proof fn lemma_give_wide(b: Emit, e: Emit, x: usize, room: nat)
    requires
        is_tidy(e, room),
        keeps_locals(b, e),
        holds_wide(e, x),
        !holds_wide(b, x),
    ensures
        is_tidy(e.give_i64(x), room),
        keeps_locals(b, e.give_i64(x)),
        e.give_i64(x).code == e.code,
{
    reveal(Emit::give_i64);
    let g = e.give_i64(x);
    assert forall|y: usize| #[trigger] g.free_i64.contains(y) implies e.free_i64.contains(y) || y
        == x by {
        let i = choose|i: int| 0 <= i < g.free_i64.len() && g.free_i64[i] == y;
        if i < e.free_i64.len() {
            assert(e.free_i64[i] == y);
        }
    }
    assert(g.free_i64.no_duplicates()) by {
        assert forall|i: int, j: int|
            0 <= i < g.free_i64.len() && 0 <= j < g.free_i64.len() && i != j implies g.free_i64[i]
            != g.free_i64[j] by {
            if i == e.free_i64.len() {
                assert(e.free_i64.contains(e.free_i64[j]));
            } else if j == e.free_i64.len() {
                assert(e.free_i64.contains(e.free_i64[i]));
            }
        }
    }
    assert forall|y: usize| #[trigger] holds_wide(b, y) implies holds_wide(g, y) by {
        assert(holds_wide(e, y) || !holds_wide(b, y));
    }
    assert forall|y: usize| #[trigger] holds_word(b, y) implies holds_word(g, y) by {
        assert(holds_word(e, y) || !holds_word(b, y));
    }
}

/// Code changes no locals.
pub proof fn lemma_same_locals(e: Emit, g: Emit, room: nat)
    requires
        e.locals == g.locals,
        e.free_i32 == g.free_i32,
        e.free_i64 == g.free_i64,
        is_tidy(e, room),
    ensures
        is_tidy(g, room),
        keeps_locals(e, g),
        e.next_i32() == g.next_i32(),
        e.next_i64() == g.next_i64(),
{
    reveal(Emit::next_i32);
    reveal(Emit::next_i64);
}

/// Code goes on with the words in its locals kept, and room for more locals.
pub open spec fn goes_on(e: Emit, g: Emit, s: Values, t: Values, a: Doubles, room: nat) -> bool {
    &&& wasm_values::takes(e, g, s, t, a)
    &&& is_tidy(g, room)
    &&& keeps_locals(e, g)
    &&& keeps_words(e, s, t)
}

pub proof fn goes_further(
    e: Emit,
    f: Emit,
    g: Emit,
    s: Values,
    t: Values,
    u: Values,
    a: Doubles,
    more: nat,
    room: nat,
)
    requires
        goes_on(e, f, s, t, a, more),
        goes_on(f, g, t, u, a, room),
    ensures
        goes_on(e, g, s, u, a, room),
{
    wasm_values::takes_on(e, f, g, s, t, u, a);
    assert forall|x: usize| #[trigger] holds_word(g, x) || !holds_word(e, x) by {
        assert(holds_word(f, x) || !holds_word(e, x));
    }
    assert forall|x: usize| #[trigger] holds_wide(g, x) || !holds_wide(e, x) by {
        assert(holds_wide(f, x) || !holds_wide(e, x));
    }
    assert forall|x: usize| #[trigger] holds_word(e, x) implies u.locals[x] == s.locals[x] by {
        assert(holds_word(f, x) || !holds_word(e, x));
    }
}

pub proof fn goes_nowhere(e: Emit, s: Values, a: Doubles, room: nat)
    requires
        is_tidy(e, room),
    ensures
        goes_on(e, e, s, s, a, room),
{
    wasm_values::takes_nothing(e, e, s, a);
}

pub proof fn goes_val(e: Emit, x: E, s: Values, t: Values, a: Doubles, room: nat)
    requires
        is_tidy(e, room),
        wasm_flow::calls_nothing(x),
        x.leaves(s, a) == t,
        keeps_words(e, s, t),
    ensures
        goes_on(e, e.val(x), s, t, a, room),
        e.val(x).next_i32() == e.next_i32(),
        e.val(x).next_i64() == e.next_i64(),
{
    wasm_values::takes_val(e, x, s, a);
    reveal(Emit::val);
    lemma_same_locals(e, e.val(x), room);
}

pub proof fn goes_op(e: Emit, op: Op, s: Values, t: Values, a: Doubles, room: nat)
    requires
        is_tidy(e, room),
        wasm_values::is_step(op),
        wasm_values::step(op, s, a) == t,
        keeps_words(e, s, t),
    ensures
        goes_on(e, e.op(op), s, t, a, room),
        e.op(op).next_i32() == e.next_i32(),
        e.op(op).next_i64() == e.next_i64(),
{
    wasm_values::takes_op(e, op, s, a);
    reveal(Emit::op);
    lemma_same_locals(e, e.op(op), room);
}

/// A new local takes the value of an expression.
pub proof fn goes_new(e: Emit, x: E, v: Value, s: Values, a: Doubles, room: nat)
    requires
        is_tidy(e, room + 1),
        wasm_flow::calls_nothing(x),
        x.leaves(s, a) == s.push(v),
    ensures
        goes_on(e, e.set_new(x), s, s.set(e.next_i32(), v), a, room),
        holds_word(e.set_new(x), e.next_i32()),
        !holds_word(e, e.next_i32()),
{
    let l = e.next_i32();
    let e1 = e.take_i32();
    lemma_take_word(e, room);
    wasm_values::takes_nothing(e, e1, s, a);
    goes_val(e1, x, s, s.push(v), a, room);
    let e2 = e1.val(x);
    let t = s.set(l, v);
    wasm_values::takes_op(e2, Op::LocalSet(l), s.push(v), a);
    wasm_values::takes_on(e, e1, e2, s, s, s.push(v), a);
    wasm_values::takes_on(e, e2, e2.op(Op::LocalSet(l)), s, s.push(v), t, a);
    reveal(Emit::val);
    reveal(Emit::op);
    lemma_same_locals(e1, e2.op(Op::LocalSet(l)), room);
    assert(keeps_locals(e, e.set_new(x))) by {
        assert forall|y: usize| #[trigger] holds_word(e.set_new(x), y) || !holds_word(e, y) by {
            assert(holds_word(e1, y) || !holds_word(e, y));
        }
        assert forall|y: usize| #[trigger] holds_wide(e.set_new(x), y) || !holds_wide(e, y) by {
            assert(holds_wide(e1, y) || !holds_wide(e, y));
        }
    }
}

pub proof fn bits_of_registers(v: i32, b: i32, w: i32, x: u64)
    by (bit_vector)
    ensures
        v & 0xffi32 == v as u32 % 0x100u32,
        v & 0xffffi32 == v as u32 % 0x1_0000u32,
        b >= 0 ==> b & 7i32 == b % 8i32,
        w & 0xffff & 0x300i32 == 0i32 <==> w as u32 / 0x100u32 % 4u32 == 0u32,
        w & 0xffff == 0x7ffei32 <==> w as u32 % 0x1_0000u32 == 0x7ffeu32,
        0x7ffei32 & 0xffff == 0x7ffei32,
        1i32 & 1i32 == 1i32,
        (((w & 0xffffi32) as u32) >> 10u32) as i32 & 3i32 == (w as u32 / 0x400u32) % 4u32,
        10i32 & 31i32 == 10i32,
        10i32 as u32 == 10u32,
        0i32 | 0i32 == 0i32,
        0i32 | 1i32 == 1i32,
        1i32 | 0i32 == 1i32,
        1i32 | 1i32 == 1i32,
        ((((x as u32) as i32) as u32) as u64) | (((((x >> 32u64) as u32) as i32) as u32) as u64)
            << 32u64 == x,
{
}

/// Where register `ST(i)` lies: the byte at 1032 is the top of the stack of registers.
pub open spec fn register(memory: Map<u32, i32>, i: u32) -> u32 {
    (1152 + 16 * ((memory[1032] as u32 % 0x100 + i) % 8)) as u32
}

/// The register holds a double: the word behind its bits says so.
pub open spec fn holds_double(memory: Map<u32, i32>, i: u32) -> bool {
    memory[(register(memory, i) + 8) as u32] as u32 % 0x1_0000 == 0x7ffe
}

/// The bits of the double in a register.
pub open spec fn double_at(memory: Map<u32, i32>, i: u32) -> u64 {
    wasm_run::wide_at(memory, register(memory, i))
}

/// The control word asks for results of single precision.
pub open spec fn wants_single(memory: Map<u32, i32>) -> bool {
    memory[1036] as u32 / 0x100 % 4 == 0
}

pub proof fn lemma_register(i: u32, s: Values, a: Doubles)
    requires
        i < 8,
    ensures
        E::st_index(i).st_slot().leaves(s, a) == s.push(
            Value::Word(register(s.memory, i) as i32),
        ),
        wasm_flow::calls_nothing(E::st_index(i).st_slot()),
        1152 <= register(s.memory, i) <= 1264,
        register(s.memory, i) as i32 == register(s.memory, i),
        register(s.memory, i) as i32 as u32 == register(s.memory, i),
{
    reveal_with_fuel(wasm_flow::calls_nothing, 12);
    reveal_with_fuel(E::leaves, 12);
    let m = s.memory[1032];
    let b = m & 0xff;
    bits_of_registers(m, 0, 0, 0);
    let k = b.wrapping_add(i as i32);
    assert(k == b + i);
    bits_of_registers(m, k, 0, 0);
    let n = k & 7;
    assert(n == (m as u32 % 0x100 + i) % 8);
    assert(n.wrapping_mul(16) == n * 16);
    assert((n * 16) as i32 == n * 16);
    assert(n.wrapping_mul(16).wrapping_add(1152) == register(s.memory, i));
    assert((1032i32 as u32).wrapping_add(0) == 1032);
}

/// A new local takes the address of a register.
pub proof fn goes_address(c: Ctx, i: u32, s: Values, a: Doubles, room: nat)
    requires
        is_tidy(c.e, room + 1),
        i < 8,
    ensures
        goes_on(
            c.e,
            c.st_addr(i).e,
            s,
            s.set(c.e.next_i32(), Value::Word(register(s.memory, i) as i32)),
            a,
            room,
        ),
        holds_word(c.st_addr(i).e, c.e.next_i32()),
        !holds_word(c.e, c.e.next_i32()),
{
    lemma_register(i, s, a);
    goes_new(
        c.e,
        E::st_index(i).st_slot(),
        Value::Word(register(s.memory, i) as i32),
        s,
        a,
        room,
    );
}

/// Whether a register holds a double is pushed.
pub proof fn goes_tag(c: Ctx, i: u32, addr: usize, s: Values, a: Doubles, room: nat)
    requires
        is_tidy(c.e, room),
        i < 8,
        !c.x87_cached(),
        s.locals[addr] == Value::Word(register(s.memory, i) as i32),
    ensures
        c.st_ok(i, addr) == c.val(E::tag_ok(addr)),
        goes_on(
            c.e,
            c.st_ok(i, addr).e,
            s,
            s.push(wasm_values::truth(holds_double(s.memory, i))),
            a,
            room,
        ),
{
    reveal(Ctx::st_ok);
    reveal(Ctx::x87_slot);
    reveal_with_fuel(wasm_flow::calls_nothing, 4);
    reveal_with_fuel(E::leaves, 4);
    lemma_register(i, s, a);
    let r = register(s.memory, i);
    assert(r.wrapping_add(8) == r + 8);
    bits_of_registers(0, 0, s.memory[(r + 8) as u32], 0);
    goes_val(
        c.e,
        E::tag_ok(addr),
        s,
        s.push(wasm_values::truth(holds_double(s.memory, i))),
        a,
        room,
    );
}

/// The double in a register is pushed.
#[verifier::spinoff_prover]
pub proof fn goes_double(c: Ctx, i: u32, addr: usize, s: Values, a: Doubles, room: nat) -> (t: Values)
    requires
        is_tidy(c.e, room + 1),
        i < 8,
        !c.x87_cached(),
        holds_word(c.e, addr),
        s.locals[addr] == Value::Word(register(s.memory, i) as i32),
    ensures
        goes_on(c.e, c.st_double(i, addr).e, s, t, a, room),
        c.st_double(i, addr).st == c.st,
        c.st_double(i, addr).x87 == c.x87,
        t.stack == s.push(Value::Double(double_at(s.memory, i))).stack,
        t.memory == s.memory,
{
    reveal(Ctx::st_double);
    reveal(Ctx::st_bits);
    reveal(Ctx::x87_slot);
    reveal_with_fuel(wasm_flow::calls_nothing, 3);
    reveal_with_fuel(E::leaves, 3);
    lemma_register(i, s, a);
    let r = register(s.memory, i);
    assert(r.wrapping_add(0) == r);
    let w = Value::Wide(double_at(s.memory, i));
    let s1 = s.push(w);
    let load = E::L(addr).load(Width::W64, 0);
    goes_val(c.e, load, s, s1, a, room + 1);
    let e1 = c.e.val(load);
    let bits = e1.next_i64();
    let e2 = e1.take_i64();
    lemma_take_wide(e1, room);
    wasm_values::takes_nothing(e1, e2, s1, a);
    let s2 = s.set(bits, w);
    wasm_values::takes_op(e2, Op::LocalSet(bits), s1, a);
    let e3 = e2.op(Op::LocalSet(bits));
    wasm_values::takes_on(e1, e2, e3, s1, s1, s2, a);
    reveal(Emit::op);
    lemma_same_locals(e2, e3, room);
    let t = s2.push(Value::Double(double_at(s.memory, i)));
    let x = E::double(bits);
    goes_val(e3, x, s2, t, a, room);
    let e4 = e3.val(x);
    reveal(Emit::val);
    lemma_same_locals(e2, e4, room);
    assert(keeps_locals(e1, e4)) by {
        assert forall|y: usize| #[trigger] holds_word(e4, y) || !holds_word(e1, y) by {
            assert(holds_word(e2, y) || !holds_word(e1, y));
        }
        assert forall|y: usize| #[trigger] holds_wide(e4, y) || !holds_wide(e1, y) by {
            assert(holds_wide(e2, y) || !holds_wide(e1, y));
        }
    }
    lemma_give_wide(e1, e4, bits, room);
    let e5 = e4.give_i64(bits);
    wasm_values::takes_nothing(e4, e5, t, a);
    wasm_values::takes_on(e1, e3, e4, s1, s2, t, a);
    wasm_values::takes_on(e1, e4, e5, s1, t, t, a);
    assert(keeps_words(e1, s1, t));
    goes_further(c.e, e1, e5, s, s1, t, a, room + 1, room);
    t
}

/// Where precision control is held in a local, the local tells what the control word says.
pub open spec fn precision_is_known(c: Ctx, s: Values) -> bool {
    c.st.env.x87_pc_local && c.st.fpu_pc_cache is Some ==> {
        let x = (c.st.fpu_pc_cache->0).0;
        &&& holds_word(c.e, x)
        &&& s.locals[x] == wasm_values::truth(wants_single(s.memory))
    }
}

pub proof fn lemma_precision(s: Values, a: Doubles)
    ensures
        wasm_flow::calls_nothing(E::single_precision()),
        E::single_precision().leaves(s, a) == s.push(
            wasm_values::truth(wants_single(s.memory)),
        ),
{
    reveal_with_fuel(wasm_flow::calls_nothing, 6);
    reveal_with_fuel(E::leaves, 6);
    bits_of_registers(0, 0, s.memory[1036], 0);
    assert((1036i32 as u32).wrapping_add(0) == 1036);
}

pub proof fn goes_prepared(c: Ctx, s: Values, a: Doubles, room: nat) -> (t: Values)
    requires
        is_tidy(c.e, room + 1),
        precision_is_known(c, s),
    ensures
        goes_on(c.e, c.pc_prepared().e, s, t, a, room),
        precision_is_known(c.pc_prepared(), t),
        c.st.env.x87_pc_local ==> c.pc_prepared().st.fpu_pc_cache is Some,
        c.pc_prepared().st.env == c.st.env,
        c.pc_prepared().x87 == c.x87,
        t.stack == s.stack,
        t.memory == s.memory,
{
    reveal(Ctx::pc_prepared);
    if !c.st.env.x87_pc_local || c.st.fpu_pc_cache is Some {
        wasm_values::takes_nothing(c.e, c.e, s, a);
        s
    } else {
        let v = wasm_values::truth(wants_single(s.memory));
        lemma_precision(s, a);
        goes_new(c.e, E::single_precision(), v, s, a, room);
        s.set(c.e.next_i32(), v)
    }
}

/// The bits of a double, rounded to single precision where the control word asks for that.
pub open spec fn rounded(r: u64, memory: Map<u32, i32>, a: Doubles) -> u64 {
    if wants_single(memory) {
        (a.of_single)((a.to_single)(r))
    } else {
        r
    }
}

#[verifier::spinoff_prover]
pub proof fn goes_rounded(c: Ctx, r: u64, s: Values, a: Doubles, room: nat) -> (t: Values)
    requires
        is_tidy(c.e, room + 1),
        precision_is_known(c, s),
        c.st.env.x87_pc_local ==> c.st.fpu_pc_cache is Some,
        s.stack is Over,
        s.top() == Value::Double(r),
    ensures
        goes_on(c.e, c.pc_rounded().e, s, t, a, room),
        c.pc_rounded().st.env == c.st.env,
        c.pc_rounded().x87 == c.x87,
        c.pc_rounded().st.fpu_simd_dirty_marked == c.st.fpu_simd_dirty_marked,
        t.stack == s.pop().push(Value::Double(rounded(r, s.memory, a))).stack,
        t.memory == s.memory,
{
    reveal(Ctx::pc_rounded);
    reveal_with_fuel(wasm_flow::calls_nothing, 8);
    reveal_with_fuel(E::leaves, 8);
    let raw = c.e.next_i64();
    let single = if c.st.env.x87_pc_local {
        E::L((c.st.fpu_pc_cache->0).0)
    } else {
        E::single_precision()
    };
    let kept = E::Top.un(Un::ReinterpretF64AsI64).tee(raw);
    let low = kept.un(Un::ReinterpretI64AsF64).un(Un::DemoteF64).un(Un::PromoteF32);
    let x = low.select(E::double(raw), single);
    let s1 = s.pop().push(Value::Wide(r)).set(raw, Value::Wide(r));
    assert(kept.leaves(s, a) == s1);
    let s2 = s.pop().set(raw, Value::Wide(r)).push(
        Value::Double((a.of_single)((a.to_single)(r))),
    );
    assert(low.leaves(s, a) == s2);
    let s3 = s2.push(Value::Double(r));
    assert(E::double(raw).leaves(s2, a) == s3);
    lemma_precision(s3, a);
    lemma_take_wide(c.e, room);
    let v = wasm_values::truth(wants_single(s.memory));
    assert(single.leaves(s3, a) == s3.push(v));
    let t = s.pop().set(raw, Value::Wide(r)).push(Value::Double(rounded(r, s.memory, a)));
    assert(x.leaves(s, a) == t);
    let e1 = c.e.take_i64();
    let e2 = e1.val(x);
    wasm_values::takes_nothing(c.e, e1, s, a);
    wasm_values::takes_val(e1, x, s, a);
    wasm_values::takes_on(c.e, e1, e2, s, s, t, a);
    reveal(Emit::val);
    lemma_same_locals(e1, e2, room);
    assert(keeps_locals(c.e, e2)) by {
        assert forall|y: usize| #[trigger] holds_word(e2, y) || !holds_word(c.e, y) by {
            assert(holds_word(e1, y) || !holds_word(c.e, y));
        }
        assert forall|y: usize| #[trigger] holds_wide(e2, y) || !holds_wide(c.e, y) by {
            assert(holds_wide(e1, y) || !holds_wide(c.e, y));
        }
    }
    lemma_give_wide(c.e, e2, raw, room);
    let e3 = e2.give_i64(raw);
    wasm_values::takes_nothing(e2, e3, t, a);
    wasm_values::takes_on(c.e, e2, e3, s, t, t, a);
    t
}

/// Memory once a register was given a double: a byte elsewhere says that registers were changed.
pub open spec fn with_double(memory: Map<u32, i32>, marked: bool, p: u32, r: u64) -> Map<u32, i32> {
    let m = if marked {
        memory
    } else {
        wasm_run::stored(Width::W8, memory, 1044, 1)
    };
    wasm_run::stored(Width::W16, wasm_run::stored_wide(m, p, r), (p + 8) as u32, 0x7ffe)
}

/// A word shares no byte with a register and the mark.
pub open spec fn is_apart(p: u32, q: u32) -> bool {
    &&& q + 4 <= p || p + 10 <= q
    &&& q + 4 <= 1044 || 1045 <= q
}

#[verifier::spinoff_prover]
pub proof fn lemma_with_double(memory: Map<u32, i32>, marked: bool, p: u32, r: u64)
    requires
        1152 <= p <= 1264,
    ensures
        wasm_run::wide_at(with_double(memory, marked, p, r), p) == r,
        with_double(memory, marked, p, r)[(p + 8) as u32] as u32 % 0x1_0000 == 0x7ffe,
        forall|q: u32|
            is_apart(p, q) ==> #[trigger] with_double(memory, marked, p, r)[q] == memory[q],
{
    let m = if marked {
        memory
    } else {
        wasm_run::stored(Width::W8, memory, 1044, 1)
    };
    let low = (r as u32) as i32;
    let high = ((r >> 32) as u32) as i32;
    let p4 = (p + 4) as u32;
    let p8 = (p + 8) as u32;
    assert(p.wrapping_add(4) == p4);
    let m1 = wasm_run::stored(Width::A32, m, p, low);
    let m2 = wasm_run::stored(Width::A32, m1, p4, high);
    let m3 = wasm_run::stored(Width::W16, m2, p8, 0x7ffe);
    bits_of_registers(0, 0, m3[p8], r);
    wasm_run::law_stored_values_are_loaded(Width::A32, m, p, low);
    wasm_run::law_stored_values_are_loaded(Width::A32, m1, p4, high);
    wasm_run::law_stored_values_are_loaded(Width::W16, m2, p8, 0x7ffe);
    wasm_run::lemma_stored_apart(Width::A32, m1, p4, high, p);
    wasm_run::lemma_stored_apart(Width::W16, m2, p8, 0x7ffe, p);
    wasm_run::lemma_stored_apart(Width::W16, m2, p8, 0x7ffe, p4);
    assert forall|q: u32| is_apart(p, q) implies #[trigger] m3[q] == memory[q] by {
        wasm_run::lemma_stored_apart(Width::W8, memory, 1044, 1, q);
        wasm_run::lemma_stored_apart(Width::A32, m, p, low, q);
        wasm_run::lemma_stored_apart(Width::A32, m1, p4, high, q);
        wasm_run::lemma_stored_apart(Width::W16, m2, p8, 0x7ffe, q);
    }
}

/// A store of a value that an expression leaves.
pub proof fn goes_store(
    e: Emit,
    w: Width,
    at: u32,
    address: E,
    value: E,
    s: Values,
    t: Values,
    a: Doubles,
    room: nat,
)
    requires
        is_tidy(e, room),
        wasm_flow::calls_nothing(address),
        wasm_flow::calls_nothing(value),
        wasm_values::step(Op::Store(w, at), value.leaves(address.leaves(s, a), a), a) == t,
        keeps_words(e, s, value.leaves(address.leaves(s, a), a)),
        t.locals == value.leaves(address.leaves(s, a), a).locals,
    ensures
        goes_on(e, e.store(w, at, address, value), s, t, a, room),
        e.store(w, at, address, value).next_i64() == e.next_i64(),
        e.store(w, at, address, value).next_i32() == e.next_i32(),
{
    reveal_with_fuel(wasm_flow::calls_nothing, 2);
    reveal_with_fuel(E::leaves, 2);
    let x = address.both(value);
    let u = value.leaves(address.leaves(s, a), a);
    goes_val(e, x, s, u, a, room);
    goes_op(e.val(x), Op::Store(w, at), u, t, a, room);
    goes_further(e, e.val(x), e.val(x).op(Op::Store(w, at)), s, u, t, a, room, room);
}

/// A register takes the double on the stack.
#[verifier::spinoff_prover]
pub proof fn goes_stored(c: Ctx, i: u32, addr: usize, r: u64, s: Values, a: Doubles, room: nat) -> (t:
    Values)
    requires
        is_tidy(c.e, room + 1),
        i < 8,
        !c.x87_cached(),
        holds_word(c.e, addr),
        s.locals[addr] == Value::Word(register(s.memory, i) as i32),
        s.stack is Over,
        s.top() == Value::Double(r),
    ensures
        goes_on(c.e, c.st_store(i, addr).e, s, t, a, room),
        t.stack == s.pop().stack,
        t.memory == with_double(
            s.memory,
            c.st.fpu_simd_dirty_marked,
            register(s.memory, i),
            r,
        ),
{
    reveal(Ctx::st_store);
    reveal(Ctx::st_cached);
    reveal(Ctx::x87_slot);
    reveal_with_fuel(wasm_flow::calls_nothing, 3);
    reveal_with_fuel(E::leaves, 3);
    lemma_register(i, s, a);
    let p = register(s.memory, i);
    assert(p.wrapping_add(0) == p);
    assert(p.wrapping_add(8) == p + 8);
    let c0 = c.mark_fpu_simd_dirty_once();
    reveal(Ctx::mark_fpu_simd_dirty_once);
    let m0 = if c.st.fpu_simd_dirty_marked {
        s.memory
    } else {
        wasm_run::stored(Width::W8, s.memory, 1044, 1)
    };
    let s0 = s.with(m0);
    if c.st.fpu_simd_dirty_marked {
        goes_nowhere(c.e, s, a, room + 1);
    } else {
        assert((1044i32 as u32).wrapping_add(0) == 1044);
        goes_store(c.e, Width::W8, 0, E::C(1044), E::C(1), s, s0, a, room + 1);
    }
    let x = E::Top.un(Un::ReinterpretF64AsI64);
    let s1 = s0.pop().push(Value::Wide(r));
    goes_val(c0.e, x, s0, s1, a, room + 1);
    let e1 = c0.e.val(x);
    goes_further(c.e, c0.e, e1, s, s0, s1, a, room + 1, room + 1);
    let bits = e1.next_i64();
    let e2 = e1.take_i64();
    lemma_take_wide(e1, room);
    wasm_values::takes_nothing(e1, e2, s1, a);
    let s2 = s0.pop().set(bits, Value::Wide(r));
    let e3 = e2.op(Op::LocalSet(bits));
    wasm_values::takes_op(e2, Op::LocalSet(bits), s1, a);
    wasm_values::takes_on(e1, e2, e3, s1, s1, s2, a);
    reveal(Emit::op);
    lemma_same_locals(e2, e3, room);
    assert(holds_word(e1, addr) || !holds_word(c.e, addr));
    assert(holds_word(e2, addr) || !holds_word(e1, addr));
    let m1 = wasm_run::stored_wide(m0, p, r);
    let m2 = wasm_run::stored(Width::W16, m1, (p + 8) as u32, 0x7ffe);
    let s3 = s2.with(m1);
    let s4 = s2.with(m2);
    goes_store(e3, Width::W64, 0, E::L(addr), E::L(bits), s2, s3, a, room);
    let e4 = e3.store(Width::W64, 0, E::L(addr), E::L(bits));
    goes_store(e4, Width::W16, 8, E::L(addr), E::C(0x7ffe), s3, s4, a, room);
    let e5 = e4.store(Width::W16, 8, E::L(addr), E::C(0x7ffe));
    goes_further(e3, e4, e5, s2, s3, s4, a, room, room);
    reveal(Emit::val);
    lemma_same_locals(e2, e5, room);
    assert(keeps_locals(e1, e5)) by {
        assert forall|y: usize| #[trigger] holds_word(e5, y) || !holds_word(e1, y) by {
            assert(holds_word(e2, y) || !holds_word(e1, y));
        }
        assert forall|y: usize| #[trigger] holds_wide(e5, y) || !holds_wide(e1, y) by {
            assert(holds_wide(e2, y) || !holds_wide(e1, y));
        }
    }
    lemma_give_wide(e1, e5, bits, room);
    let e6 = e5.give_i64(bits);
    wasm_values::takes_nothing(e5, e6, s4, a);
    wasm_values::takes_on(e1, e3, e5, s1, s2, s4, a);
    wasm_values::takes_on(e1, e5, e6, s1, s4, s4, a);
    assert(keeps_words(e1, s1, s4));
    goes_further(c.e, e1, e6, s, s1, s4, a, room + 1, room);
    s4
}

/// Code that closes what it opens, and keeps the locals in use.
pub open spec fn stays(e: Emit, g: Emit, room: nat) -> bool {
    &&& wasm_values::is_closed(e, g)
    &&& is_tidy(g, room)
    &&& keeps_locals(e, g)
}

pub proof fn stays_further(e: Emit, f: Emit, g: Emit, more: nat, room: nat)
    requires
        stays(e, f, more),
        stays(f, g, room),
    ensures
        stays(e, g, room),
{
    wasm_values::closed_on(e, f, g);
    assert forall|x: usize| #[trigger] holds_word(g, x) || !holds_word(e, x) by {
        assert(holds_word(f, x) || !holds_word(e, x));
    }
    assert forall|x: usize| #[trigger] holds_wide(g, x) || !holds_wide(e, x) by {
        assert(holds_wide(f, x) || !holds_wide(e, x));
    }
}

pub proof fn stays_val(e: Emit, x: E, room: nat)
    requires
        is_tidy(e, room),
    ensures
        stays(e, e.val(x), room),
{
    wasm_values::closed_val(e, x);
    reveal(Emit::val);
    lemma_same_locals(e, e.val(x), room);
}

pub proof fn stays_op(e: Emit, op: Op, room: nat)
    requires
        is_tidy(e, room),
        wasm_flow::is_flat(op),
    ensures
        stays(e, e.op(op), room),
{
    wasm_values::closed_op(e, op);
    reveal(Emit::op);
    lemma_same_locals(e, e.op(op), room);
}

pub proof fn stays_set(e: Emit, x: usize, v: E, room: nat)
    requires
        is_tidy(e, room),
    ensures
        stays(e, e.set(x, v), room),
{
    stays_val(e, v, room);
    stays_op(e.val(v), Op::LocalSet(x), room);
    stays_further(e, e.val(v), e.set(x, v), room, room);
}

pub proof fn stays_store(e: Emit, w: Width, at: u32, address: E, value: E, room: nat)
    requires
        is_tidy(e, room),
    ensures
        stays(e, e.store(w, at, address, value), room),
{
    let x = address.both(value);
    stays_val(e, x, room);
    stays_op(e.val(x), Op::Store(w, at), room);
    stays_further(e, e.val(x), e.store(w, at, address, value), room, room);
}

/// A conditional without a second part.
pub proof fn stays_if(e: Emit, g: Emit, room: nat)
    requires
        is_tidy(e, room),
        stays(e.op(Op::If(BlockType::Void, None)), g, room),
    ensures
        stays(e, g.op(Op::End), room),
{
    let op = Op::If(BlockType::Void, None);
    wasm_values::closed_if(e, op, g);
    reveal(Emit::op);
    lemma_same_locals(e, e.op(op), room);
    lemma_same_locals(g, g.op(Op::End), room);
    assert forall|x: usize| #[trigger] holds_word(g.op(Op::End), x) || !holds_word(e, x) by {
        assert(holds_word(g, x) || !holds_word(e.op(op), x));
        assert(holds_word(e.op(op), x) || !holds_word(e, x));
        assert(holds_word(g.op(Op::End), x) || !holds_word(g, x));
    }
    assert forall|x: usize| #[trigger] holds_wide(g.op(Op::End), x) || !holds_wide(e, x) by {
        assert(holds_wide(g, x) || !holds_wide(e.op(op), x));
        assert(holds_wide(e.op(op), x) || !holds_wide(e, x));
        assert(holds_wide(g.op(Op::End), x) || !holds_wide(g, x));
    }
}

/// A local for words is given back.
pub proof fn lemma_give_word(b: Emit, e: Emit, x: usize, room: nat)
    requires
        is_tidy(e, room),
        keeps_locals(b, e),
        holds_word(e, x),
        !holds_word(b, x),
    ensures
        is_tidy(e.give_i32(x), room),
        keeps_locals(b, e.give_i32(x)),
        e.give_i32(x).code == e.code,
        forall|y: usize|
            #![trigger holds_word(e.give_i32(x), y)]
            y != x && holds_word(e, y) ==> holds_word(e.give_i32(x), y),
{
    reveal(Emit::give_i32);
    let g = e.give_i32(x);
    assert forall|y: usize| #[trigger] g.free_i32.contains(y) implies e.free_i32.contains(y) || y
        == x by {
        let i = choose|i: int| 0 <= i < g.free_i32.len() && g.free_i32[i] == y;
        if i < e.free_i32.len() {
            assert(e.free_i32[i] == y);
        }
    }
    assert(g.free_i32.no_duplicates()) by {
        assert forall|i: int, j: int|
            0 <= i < g.free_i32.len() && 0 <= j < g.free_i32.len() && i != j implies g.free_i32[i]
            != g.free_i32[j] by {
            if i == e.free_i32.len() {
                assert(e.free_i32.contains(e.free_i32[j]));
            } else if j == e.free_i32.len() {
                assert(e.free_i32.contains(e.free_i32[i]));
            }
        }
    }
    assert forall|y: usize| #[trigger] holds_word(b, y) implies holds_word(g, y) by {
        assert(holds_word(e, y) || !holds_word(b, y));
    }
    assert forall|y: usize| #[trigger] holds_wide(b, y) implies holds_wide(g, y) by {
        assert(holds_wide(e, y) || !holds_wide(b, y));
    }
}

/// The code that pushes a register for a helper.
#[verifier::spinoff_prover]
pub proof fn stays_pushed(e: Emit, i: u32, room: nat)
    requires
        is_tidy(e, room + 3),
    ensures
        stays(e, e.get_sti_relaxed(i), room),
{
    reveal(Emit::get_sti_relaxed);
    let index = e.next_i32();
    let a1 = e.take_i32();
    let addr = a1.next_i32();
    let a2 = a1.take_i32();
    let empty = a2.next_i32();
    let a3 = a2.take_i32();
    lemma_take_word(e, room + 2);
    lemma_take_word(a1, room + 1);
    lemma_take_word(a2, room);
    let v1 = E::st_index(i).tee(index).st_slot();
    let v2 = E::fixed(Width::W8, cpu_state::AT_FPU_STACK_EMPTY).bin(
        Bin::ShrU,
        E::L(index),
    ).and(1);
    let b1 = a3.set(addr, v1);
    let b2 = b1.set(empty, v2);
    stays_set(a3, addr, v1, room);
    stays_set(b1, empty, v2, room);
    stays_further(a3, b1, b2, room, room);
    let b3 = b2.val(E::L(empty));
    stays_val(b2, E::L(empty), room);
    stays_further(a3, b2, b3, room, room);
    let b4 = b3.op(Op::If(BlockType::Void, None));
    reveal(Emit::op);
    lemma_same_locals(b3, b4, room);
    let b5 = b4.mark_fpu_simd_dirty();
    stays_store(b4, Width::W8, 0, E::C(cpu_state::AT_FPU_SIMD_DIRTY as i32), E::C(1), room);
    let word = E::fixed(Width::A16, cpu_state::AT_FPU_STATUS_WORD).and(
        crate::codegen_fpu::NOT_FPU_C1,
    ).binc(Bin::Or, crate::codegen_fpu::FPU_EX_SF_AND_I);
    let b6 = b5.store_fixed(Width::A16, cpu_state::AT_FPU_STATUS_WORD, word);
    stays_store(b5, Width::A16, 0, E::C(cpu_state::AT_FPU_STATUS_WORD as i32), word, room);
    stays_further(b4, b5, b6, room, room);
    stays_if(b3, b6, room);
    let b7 = b6.op(Op::End);
    stays_further(a3, b3, b7, room, room);
    let w1 = E::C64(crate::codegen_fpu::F80_INDEFINITE_NAN_MANTISSA).select(
        E::L(addr).load(Width::W64, 0),
        E::L(empty),
    );
    let w2 = E::C(crate::codegen_fpu::F80_INDEFINITE_NAN_SIGN_EXPONENT).select(
        E::L(addr).load(Width::W16, 8),
        E::L(empty),
    );
    let b8 = b7.val(w1);
    let b9 = b8.val(w2);
    stays_val(b7, w1, room);
    stays_val(b8, w2, room);
    stays_further(a3, b7, b8, room, room);
    stays_further(a3, b8, b9, room, room);
    assert(holds_word(a2, index) || !holds_word(a1, index));
    assert(holds_word(a3, index) || !holds_word(a2, index));
    assert(holds_word(a3, addr) || !holds_word(a2, addr));
    assert(holds_word(b9, index) || !holds_word(a3, index));
    assert(holds_word(b9, addr) || !holds_word(a3, addr));
    assert(holds_word(b9, empty) || !holds_word(a3, empty));
    assert(holds_word(a1, addr) || !holds_word(e, addr));
    assert(holds_word(a2, empty) || !holds_word(a1, empty));
    assert(holds_word(a1, empty) || !holds_word(e, empty));
    assert forall|y: usize| #[trigger] holds_word(b9, y) || !holds_word(e, y) by {
        assert(holds_word(a1, y) || !holds_word(e, y));
        assert(holds_word(a2, y) || !holds_word(a1, y));
        assert(holds_word(a3, y) || !holds_word(a2, y));
    }
    assert forall|y: usize| #[trigger] holds_wide(b9, y) || !holds_wide(e, y) by {
        assert(holds_wide(a1, y) || !holds_wide(e, y));
        assert(holds_wide(a2, y) || !holds_wide(a1, y));
        assert(holds_wide(a3, y) || !holds_wide(a2, y));
    }
    lemma_give_word(e, b9, empty, room);
    let g1 = b9.give_i32(empty);
    assert(holds_word(g1, addr));
    assert(holds_word(g1, index));
    lemma_give_word(e, g1, addr, room);
    let g2 = g1.give_i32(addr);
    assert(holds_word(g2, index));
    lemma_give_word(e, g2, index, room);
    let g3 = g2.give_i32(index);
    wasm_values::takes_nothing(e, a3, arbitrary(), arbitrary());
    wasm_values::takes_nothing(b9, g3, arbitrary(), arbitrary());
    wasm_values::closed_on(e, a3, b9);
    wasm_values::closed_on(e, b9, g3);
    assert(g3 == e.get_sti_relaxed(i));
}

/// The helper's way through an instruction on two registers.
pub proof fn stays_slow(c: Ctx, target: u32, helper: &'static str, i: u32, room: nat)
    requires
        is_tidy(c.e, room + 3),
        c.st.env.fpu_relaxed,
    ensures
        stays(c.e, c.slow_binop_sti(target, helper, i).e, room),
        c.slow_binop_sti(target, helper, i).st == c.st,
        c.slow_binop_sti(target, helper, i).x87 == c.x87,
{
    reveal(Ctx::slow_binop_sti);
    reveal(Ctx::get_sti);
    let e1 = c.e.val(E::C(target as i32));
    stays_val(c.e, E::C(target as i32), room + 3);
    stays_pushed(e1, i, room);
    let e2 = e1.get_sti_relaxed(i);
    stays_op(e2, Op::Call(helper, Sig::Fn3I32I64I32), room);
    stays_further(c.e, e1, e2, room + 3, room);
    stays_further(c.e, e2, e2.op(Op::Call(helper, Sig::Fn3I32I64I32)), room, room);
}

/// What an operation makes of `ST(0)` and the other operand.
pub open spec fn outcome(op: FpuFastBinOp, st0: u64, other: u64, a: Doubles) -> u64 {
    match op {
        FpuFastBinOp::Add => (a.sum)(st0, other),
        FpuFastBinOp::Mul => (a.product)(st0, other),
        FpuFastBinOp::Sub => (a.difference)(st0, other),
        FpuFastBinOp::SubR => (a.difference)(other, st0),
        FpuFastBinOp::Div => (a.quotient)(st0, other),
        FpuFastBinOp::DivR => (a.quotient)(other, st0),
    }
}

/// The operands, the operation and the store.
#[verifier::spinoff_prover]
pub proof fn goes_operation(
    c: Ctx,
    op: FpuFastBinOp,
    i: u32,
    target_sti: u32,
    st0: usize,
    sti: usize,
    target: usize,
    s: Values,
    a: Doubles,
    room: nat,
) -> (t: Values)
    requires
        is_tidy(c.e, room + 4),
        i < 8,
        target_sti < 8,
        !c.x87_cached(),
        precision_is_known(c, s),
        c.st.env.x87_pc_local ==> c.st.fpu_pc_cache is Some,
        holds_word(c.e, st0),
        holds_word(c.e, sti),
        holds_word(c.e, target),
        s.locals[st0] == Value::Word(register(s.memory, 0) as i32),
        s.locals[sti] == Value::Word(register(s.memory, i) as i32),
        s.locals[target] == Value::Word(register(s.memory, target_sti) as i32),
    ensures
        goes_on(
            c.e,
            c.operands_sti(op, st0, i, sti).binop(op).st_store(target_sti, target).e,
            s,
            t,
            a,
            room,
        ),
        t.stack == s.stack,
        t.memory == with_double(
            s.memory,
            c.st.fpu_simd_dirty_marked,
            register(s.memory, target_sti),
            rounded(
                outcome(op, double_at(s.memory, 0), double_at(s.memory, i), a),
                s.memory,
                a,
            ),
        ),
{
    reveal(Ctx::operands_sti);
    let x = double_at(s.memory, 0);
    let y = double_at(s.memory, i);
    let r = outcome(op, x, y, a);
    let (j1, l1, j2, l2) = if op is SubR || op is DivR {
        (i, sti, 0u32, st0)
    } else {
        (0u32, st0, i, sti)
    };
    let c1 = c.st_double(j1, l1);
    let s1 = goes_double(c, j1, l1, s, a, room + 3);
    assert(holds_word(c1.e, l2) || !holds_word(c.e, l2));
    assert(holds_word(c1.e, target) || !holds_word(c.e, target));
    let c2 = c1.st_double(j2, l2);
    let s2 = goes_double(c1, j2, l2, s1, a, room + 2);
    goes_further(c.e, c1.e, c2.e, s, s1, s2, a, room + 3, room + 2);
    assert(c2 == c.operands_sti(op, st0, i, sti));
    let b = Op::Bin(op.instruction());
    let s3 = s2.pop().pop().push(Value::Double(r));
    assert(wasm_values::step(b, s2, a) == s3);
    goes_op(c2.e, b, s2, s3, a, room + 2);
    let c3 = c2.emit(b);
    goes_further(c.e, c2.e, c3.e, s, s2, s3, a, room + 2, room + 2);
    if c.st.env.x87_pc_local {
        let p = (c.st.fpu_pc_cache->0).0;
        assert(holds_word(c3.e, p) || !holds_word(c.e, p));
    }
    let c4 = c3.pc_rounded();
    let s4 = goes_rounded(c3, r, s3, a, room + 1);
    goes_further(c.e, c3.e, c4.e, s, s3, s4, a, room + 2, room + 1);
    assert(holds_word(c4.e, target) || !holds_word(c.e, target));
    let c5 = c4.st_store(target_sti, target);
    let s5 = goes_stored(c4, target_sti, target, rounded(r, s.memory, a), s4, a, room);
    goes_further(c.e, c4.e, c5.e, s, s4, s5, a, room + 1, room);
    s5
}

/// A new local takes the address of a register, unless one has it.
pub proof fn goes_address_unless(
    c: Ctx,
    alias: bool,
    i: u32,
    l: usize,
    s: Values,
    a: Doubles,
    room: nat,
) -> (t: Values)
    requires
        is_tidy(c.e, room + 1),
        i < 8,
        l == (if alias {
            l
        } else {
            c.e.next_i32()
        }),
        alias ==> holds_word(c.e, l),
        alias ==> s.locals[l] == Value::Word(register(s.memory, i) as i32),
    ensures
        goes_on(c.e, c.st_addr_unless(alias, i).e, s, t, a, room),
        holds_word(c.st_addr_unless(alias, i).e, l),
        t.locals[l] == Value::Word(register(s.memory, i) as i32),
        t.stack == s.stack,
        t.memory == s.memory,
{
    if alias {
        wasm_values::takes_nothing(c.e, c.e, s, a);
        s
    } else {
        goes_address(c, i, s, a, room);
        s.set(l, Value::Word(register(s.memory, i) as i32))
    }
}

/// The inline code applies: doubles are not cached in locals, and nothing is counted.
pub open spec fn is_inline(c: Ctx, s: Values) -> bool {
    &&& c.st.env.fpu_relaxed
    &&& !c.st.env.x87_locals
    &&& !c.st.env.fpu_relaxed_stats
    &&& !c.x87_in_use()
    &&& is_tidy(c.e, 20)
    &&& precision_is_known(c, s)
}

/// A register took a double, and nothing else was changed but the byte that says so.
pub open spec fn takes_double(s: Values, t: Values, i: u32, r: u64) -> bool {
    &&& t.stack == s.stack
    &&& double_at(t.memory, i) == r
    &&& holds_double(t.memory, i)
    &&& forall|j: u32|
        j < 8 && j != i ==> #[trigger] double_at(t.memory, j) == double_at(s.memory, j)
            && holds_double(t.memory, j) == holds_double(s.memory, j)
    &&& forall|q: u32|
        is_apart(register(s.memory, i), q) ==> #[trigger] t.memory[q] == s.memory[q]
}

#[verifier::spinoff_prover]
pub proof fn lemma_takes_double(s: Values, t: Values, marked: bool, i: u32, r: u64)
    requires
        i < 8,
        t.stack == s.stack,
        t.memory == with_double(s.memory, marked, register(s.memory, i), r),
    ensures
        takes_double(s, t, i, r),
{
    let p = register(s.memory, i);
    let b = s.memory[1032] as u32 % 0x100;
    assert(1152 <= p <= 1264);
    lemma_with_double(s.memory, marked, p, r);
    assert(is_apart(p, 1032));
    assert(t.memory[1032] == s.memory[1032]);
    assert forall|j: u32| j < 8 && j != i implies #[trigger] double_at(t.memory, j) == double_at(
        s.memory,
        j,
    ) && holds_double(t.memory, j) == holds_double(s.memory, j) by {
        let q = register(s.memory, j);
        assert(register(t.memory, j) == q);
        assert((b + j) % 8 != (b + i) % 8);
        assert(q + 16 <= p || p + 16 <= q);
        assert(1152 <= q <= 1264);
        assert(q.wrapping_add(4) == q + 4);
        assert(is_apart(p, q));
        assert(is_apart(p, (q + 4) as u32));
        assert(is_apart(p, (q + 8) as u32));
        assert(t.memory[q] == s.memory[q]);
        assert(t.memory[(q + 4) as u32] == s.memory[(q + 4) as u32]);
        assert(t.memory[(q + 8) as u32] == s.memory[(q + 8) as u32]);
    }
}

/// Arithmetic on two registers that hold doubles: the target takes the sum, the product, the
/// difference or the quotient of `ST(0)` and `ST(i)`, in the order that the operation asks for,
/// rounded to single precision where the control word says so. The other registers keep theirs.
#[verifier::spinoff_prover]
pub proof fn law_registers_take_results(
    c: Ctx,
    i: u32,
    target_sti: u32,
    op: FpuFastBinOp,
    helper: &'static str,
    s: Values,
    a: Doubles,
)
    requires
        is_inline(c, s),
        i < 8,
        target_sti < 8,
        holds_double(s.memory, 0),
        holds_double(s.memory, i),
    ensures
        takes_double(
            s,
            wasm_values::flows(
                c.binop_sti(i, target_sti, op, helper).e.code,
                c.e.code.len() as int,
                s,
                a,
            ),
            target_sti,
            rounded(
                outcome(op, double_at(s.memory, 0), double_at(s.memory, i), a),
                s.memory,
                a,
            ),
        ),
{
    reveal(Ctx::binop_sti);
    let c0 = c.pc_prepared();
    let s0 = goes_prepared(c, s, a, 19);
    let target = c0.e.next_i32();
    let c1 = c0.st_addr(target_sti);
    let s1 = goes_address_unless(c0, false, target_sti, target, s0, a, 18);
    goes_further(c.e, c0.e, c1.e, s, s0, s1, a, 19, 18);
    let st0 = if target_sti == 0 {
        target
    } else {
        c1.e.next_i32()
    };
    let c2 = c1.st_addr_unless(target_sti == 0, 0);
    let s2 = goes_address_unless(c1, target_sti == 0, 0, st0, s1, a, 17);
    goes_further(c.e, c1.e, c2.e, s, s1, s2, a, 18, 17);
    assert(holds_word(c2.e, target) || !holds_word(c1.e, target));
    assert(s2.locals[target] == Value::Word(register(s.memory, target_sti) as i32));
    let sti = if i == target_sti {
        target
    } else if i == 0 {
        st0
    } else {
        c2.e.next_i32()
    };
    let alias = i == target_sti || i == 0;
    let c3 = c2.st_addr_unless(alias, i);
    let s3 = goes_address_unless(c2, alias, i, sti, s2, a, 16);
    goes_further(c.e, c2.e, c3.e, s, s2, s3, a, 17, 16);
    assert(holds_word(c3.e, target) || !holds_word(c2.e, target));
    assert(holds_word(c3.e, st0) || !holds_word(c2.e, st0));
    assert(s3.locals[target] == Value::Word(register(s.memory, target_sti) as i32));
    assert(s3.locals[st0] == Value::Word(register(s.memory, 0) as i32));
    let c4 = c3.st_ok(0, st0);
    goes_tag(c3, 0, st0, s3, a, 16);
    let s4 = s3.push(Value::Word(1));
    let c5 = c4.st_ok(i, sti);
    goes_tag(c4, i, sti, s4, a, 16);
    let s5 = s4.push(Value::Word(1));
    goes_further(c3.e, c4.e, c5.e, s3, s4, s5, a, 16, 16);
    let c6 = c5.emit(Op::Bin(Bin::And));
    bits_of_registers(0, 0, 0, 0);
    let s6 = s3.push(Value::Word(1));
    goes_op(c5.e, Op::Bin(Bin::And), s5, s6, a, 16);
    goes_further(c3.e, c5.e, c6.e, s3, s5, s6, a, 16, 16);
    let x = E::Top.eqz();
    let e7 = c6.e.val(x);
    let s7 = s3.push(Value::Word(0));
    reveal_with_fuel(wasm_flow::calls_nothing, 3);
    reveal_with_fuel(E::leaves, 3);
    goes_val(c6.e, x, s6, s7, a, 16);
    goes_further(c3.e, c6.e, e7, s3, s6, s7, a, 16, 16);
    goes_further(c.e, c3.e, e7, s, s3, s7, a, 16, 16);
    let if_op = Op::If(BlockType::Void, None);
    let c8 = c6.unless();
    assert(c8.e == e7.op(if_op));
    reveal(Emit::op);
    lemma_same_locals(e7, c8.e, 16);
    stays_slow(c8, target_sti, helper, i, 13);
    let c9 = c8.slow_binop_sti(target_sti, helper, i);
    let d9 = c9.otherwise();
    reveal(Ctx::x87_dropped);
    assert(!c9.x87_in_use());
    let e10 = c9.e.op(Op::Else);
    assert(d9.e == e10);
    lemma_same_locals(c9.e, e10, 13);
    assert forall|y: usize| #[trigger] holds_word(e10, y) || !holds_word(c3.e, y) by {
        assert(holds_word(e7, y) || !holds_word(c3.e, y));
        assert(holds_word(c8.e, y) || !holds_word(e7, y));
        assert(holds_word(c9.e, y) || !holds_word(c8.e, y));
    }
    if c.st.env.x87_pc_local {
        let p = (c0.st.fpu_pc_cache->0).0;
        assert(holds_word(c1.e, p) || !holds_word(c0.e, p));
        assert(holds_word(c2.e, p) || !holds_word(c1.e, p));
        assert(holds_word(c3.e, p) || !holds_word(c2.e, p));
        assert(holds_word(e10, p) || !holds_word(c3.e, p));
        assert(s3.locals[p] == s0.locals[p]);
    }
    assert(holds_word(e10, target) || !holds_word(c3.e, target));
    assert(holds_word(e10, st0) || !holds_word(c3.e, st0));
    assert(holds_word(e10, sti) || !holds_word(c3.e, sti));
    assert(s7.pop() == s3);
    let t = goes_operation(d9, op, i, target_sti, st0, sti, target, s3, a, 9);
    let f = d9.operands_sti(op, st0, i, sti).binop(op).st_store(target_sti, target);
    wasm_values::takes_second(e7, if_op, c9.e, f.e, s7, t, a);
    let e11 = f.e.op(Op::End);
    wasm_values::takes_on(c.e, e7, e11, s, s7, t, a);
    let g = c.binop_sti(i, target_sti, op, helper).e;
    assert(g.code == e11.code) by {
        reveal(Emit::give_i32);
    }
    assert(wasm_values::flows(g.code, c.e.code.len() as int, s, a) == t) by {
        reveal(wasm_values::takes);
        assert(e11.code.is_prefix_of(e11.code));
    }
    assert(c9.st.fpu_simd_dirty_marked == d9.st.fpu_simd_dirty_marked);
    let r = rounded(outcome(op, double_at(s.memory, 0), double_at(s.memory, i), a), s.memory, a);
    lemma_takes_double(s, t, d9.st.fpu_simd_dirty_marked, target_sti, r);
}

/// The bits of a double in a register are pushed.
pub proof fn goes_bits(c: Ctx, i: u32, addr: usize, s: Values, a: Doubles, room: nat)
    requires
        is_tidy(c.e, room),
        i < 8,
        !c.x87_cached(),
        s.locals[addr] == Value::Word(register(s.memory, i) as i32),
    ensures
        goes_on(
            c.e,
            c.st_bits(i, addr).e,
            s,
            s.push(Value::Wide(double_at(s.memory, i))),
            a,
            room,
        ),
        c.st_bits(i, addr).st == c.st,
        c.st_bits(i, addr).x87 == c.x87,
{
    reveal(Ctx::st_bits);
    reveal(Ctx::x87_slot);
    reveal_with_fuel(wasm_flow::calls_nothing, 3);
    reveal_with_fuel(E::leaves, 3);
    lemma_register(i, s, a);
    let r = register(s.memory, i);
    assert(r.wrapping_add(0) == r);
    let w = Value::Wide(double_at(s.memory, i));
    goes_val(c.e, E::L(addr).load(Width::W64, 0), s, s.push(w), a, room);
}

/// A new local takes the 64 bits on the stack.
pub proof fn goes_new_wide(e: Emit, v: Value, s: Values, a: Doubles, room: nat)
    requires
        is_tidy(e, room + 1),
    ensures
        goes_on(
            e,
            e.take_i64().op(Op::LocalSet(e.next_i64())),
            s.push(v),
            s.set(e.next_i64(), v),
            a,
            room,
        ),
        holds_wide(e.take_i64().op(Op::LocalSet(e.next_i64())), e.next_i64()),
        !holds_wide(e, e.next_i64()),
        !holds_word(e, e.next_i64()),
{
    let l = e.next_i64();
    let e1 = e.take_i64();
    let e2 = e1.op(Op::LocalSet(l));
    lemma_take_wide(e, room);
    wasm_values::takes_nothing(e, e1, s.push(v), a);
    wasm_values::takes_op(e1, Op::LocalSet(l), s.push(v), a);
    wasm_values::takes_on(e, e1, e2, s.push(v), s.push(v), s.set(l, v), a);
    reveal(Emit::op);
    lemma_same_locals(e1, e2, room);
    assert forall|y: usize| #[trigger] holds_word(e2, y) || !holds_word(e, y) by {
        assert(holds_word(e1, y) || !holds_word(e, y));
    }
    assert forall|y: usize| #[trigger] holds_wide(e2, y) || !holds_wide(e, y) by {
        assert(holds_wide(e1, y) || !holds_wide(e, y));
    }
}

/// The mark that registers were changed.
pub proof fn goes_marked(c: Ctx, s: Values, a: Doubles, room: nat) -> (t: Values)
    requires
        is_tidy(c.e, room),
    ensures
        goes_on(c.e, c.mark_fpu_simd_dirty_once().e, s, t, a, room),
        c.mark_fpu_simd_dirty_once().st.env == c.st.env,
        c.mark_fpu_simd_dirty_once().x87 == c.x87,
        t.stack == s.stack,
        t.locals == s.locals,
        forall|q: u32| q + 4 <= 1044 || 1045 <= q ==> #[trigger] t.memory[q] == s.memory[q],
{
    reveal(Ctx::mark_fpu_simd_dirty_once);
    if c.st.fpu_simd_dirty_marked {
        goes_nowhere(c.e, s, a, room);
        s
    } else {
        reveal_with_fuel(wasm_flow::calls_nothing, 2);
        reveal_with_fuel(E::leaves, 2);
        assert((1044i32 as u32).wrapping_add(0) == 1044);
        let t = s.with(wasm_run::stored(Width::W8, s.memory, 1044, 1));
        goes_store(c.e, Width::W8, 0, E::C(1044), E::C(1), s, t, a, room);
        assert forall|q: u32| q + 4 <= 1044 || 1045 <= q implies #[trigger] t.memory[q]
            == s.memory[q] by {
            wasm_run::lemma_stored_apart(Width::W8, s.memory, 1044, 1, q);
        }
        t
    }
}

} // verus!
