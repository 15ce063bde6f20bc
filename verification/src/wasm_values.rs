//! What generated code does with values of every type. A number with a fraction is given by its
//! bits, and the arithmetic on such numbers is left open: it is that of the instruction set.
use vstd::prelude::*;
use crate::wasm::{Bin, Emit, Op, Un, E};
use crate::wasm_flow;
use crate::wasm_run;

verus! {

/// A value of one of the four types.
pub enum Value {
    Word(i32),
    Wide(u64),
    /// A number of single precision.
    Single(u32),
    /// A number of double precision.
    Double(u64),
}

impl Value {
    pub open spec fn word(self) -> i32 {
        match self {
            Value::Word(v) => v,
            _ => arbitrary(),
        }
    }

    pub open spec fn wide(self) -> u64 {
        match self {
            Value::Wide(v) => v,
            _ => arbitrary(),
        }
    }

    pub open spec fn single(self) -> u32 {
        match self {
            Value::Single(v) => v,
            _ => arbitrary(),
        }
    }

    pub open spec fn double(self) -> u64 {
        match self {
            Value::Double(v) => v,
            _ => arbitrary(),
        }
    }
}

/// The arithmetic of the instruction set on numbers with a fraction.
pub struct Doubles {
    pub sum: spec_fn(u64, u64) -> u64,
    pub difference: spec_fn(u64, u64) -> u64,
    pub product: spec_fn(u64, u64) -> u64,
    pub quotient: spec_fn(u64, u64) -> u64,
    pub equal: spec_fn(u64, u64) -> bool,
    pub less: spec_fn(u64, u64) -> bool,
    pub at_least: spec_fn(u64, u64) -> bool,
    pub opposite: spec_fn(u64) -> u64,
    pub magnitude: spec_fn(u64) -> u64,
    pub rounded_down: spec_fn(u64) -> u64,
    pub rounded_up: spec_fn(u64) -> u64,
    pub rounded_to_zero: spec_fn(u64) -> u64,
    pub rounded_to_nearest: spec_fn(u64) -> u64,
    /// Rounded to single precision.
    pub to_single: spec_fn(u64) -> u32,
    pub of_single: spec_fn(u32) -> u64,
    /// The integer without the fraction.
    pub to_word: spec_fn(u64) -> i32,
    pub of_word: spec_fn(i32) -> u64,
}

/// Values on top of each other.
pub enum Stack {
    Bottom,
    Over(Value, Box<Stack>),
}

pub struct Values {
    pub locals: Map<usize, Value>,
    pub memory: Map<u32, i32>,
    pub stack: Stack,
}

impl Values {
    pub open spec fn push(self, v: Value) -> Values {
        Values { stack: Stack::Over(v, Box::new(self.stack)), ..self }
    }

    pub open spec fn top(self) -> Value {
        match self.stack {
            Stack::Over(v, _) => v,
            Stack::Bottom => arbitrary(),
        }
    }

    pub open spec fn pop(self) -> Values {
        match self.stack {
            Stack::Over(_, rest) => Values { stack: *rest, ..self },
            Stack::Bottom => arbitrary(),
        }
    }

    pub open spec fn set(self, x: usize, v: Value) -> Values {
        Values { locals: self.locals.insert(x, v), ..self }
    }

    pub open spec fn with(self, memory: Map<u32, i32>) -> Values {
        Values { memory, ..self }
    }
}

pub open spec fn truth(b: bool) -> Value {
    Value::Word(wasm_run::truth(b))
}

/// An instruction with one operand.
pub open spec fn unary(u: Un, v: Value, a: Doubles) -> Value {
    match u {
        Un::Eqz => truth(v.word() == 0),
        Un::ReinterpretI64AsF64 => Value::Double(v.wide()),
        Un::ReinterpretF64AsI64 => Value::Wide(v.double()),
        Un::ReinterpretI32AsF32 => Value::Single(v.word() as u32),
        Un::ReinterpretF32AsI32 => Value::Word(v.single() as i32),
        Un::PromoteF32 => Value::Double((a.of_single)(v.single())),
        Un::DemoteF64 => Value::Single((a.to_single)(v.double())),
        Un::ConvertI32ToF64 => Value::Double((a.of_word)(v.word())),
        Un::TruncF64ToI32 => Value::Word((a.to_word)(v.double())),
        Un::TruncF64 => Value::Double((a.rounded_to_zero)(v.double())),
        Un::NearestF64 => Value::Double((a.rounded_to_nearest)(v.double())),
        Un::FloorF64 => Value::Double((a.rounded_down)(v.double())),
        Un::CeilF64 => Value::Double((a.rounded_up)(v.double())),
        Un::AbsF64 => Value::Double((a.magnitude)(v.double())),
        Un::NegF64 => Value::Double((a.opposite)(v.double())),
    }
}

/// An instruction with two operands.
pub open spec fn binary(b: Bin, x: Value, y: Value, a: Doubles) -> Value {
    match b {
        Bin::AddI64 => Value::Wide(x.wide().wrapping_add(y.wide())),
        Bin::AddF64 => Value::Double((a.sum)(x.double(), y.double())),
        Bin::SubF64 => Value::Double((a.difference)(x.double(), y.double())),
        Bin::MulF64 => Value::Double((a.product)(x.double(), y.double())),
        Bin::DivF64 => Value::Double((a.quotient)(x.double(), y.double())),
        Bin::EqF64 => truth((a.equal)(x.double(), y.double())),
        Bin::NeF64 => truth(!(a.equal)(x.double(), y.double())),
        Bin::LtF64 => truth((a.less)(x.double(), y.double())),
        Bin::GeF64 => truth((a.at_least)(x.double(), y.double())),
        b => Value::Word(wasm_run::binary(b, x.word(), y.word())),
    }
}

/// One instruction that is no part of a conditional. Nothing is said of calls.
pub open spec fn step(op: Op, s: Values, a: Doubles) -> Values {
    match op {
        Op::ConstI32(v) => s.push(Value::Word(v)),
        Op::ConstI64(v) => s.push(Value::Wide(v as u64)),
        Op::ConstF64(v) => s.push(Value::Double(v)),
        Op::LocalGet(x) => s.push(s.locals[x]),
        Op::LocalSet(x) => s.pop().set(x, s.top()),
        Op::LocalTee(x) => s.set(x, s.top()),
        Op::Un(u) => s.pop().push(unary(u, s.top(), a)),
        Op::Bin(b) => s.pop().pop().push(binary(b, s.pop().top(), s.top(), a)),
        Op::Load(w, at) => {
            let p = (s.top().word() as u32).wrapping_add(at);
            s.pop().push(
                if wasm_run::is_wide(w) {
                    Value::Wide(wasm_run::wide_at(s.memory, p))
                } else {
                    Value::Word(wasm_run::narrowed(w, s.memory[p]))
                },
            )
        },
        Op::Store(w, at) => {
            let p = (s.pop().top().word() as u32).wrapping_add(at);
            s.pop().pop().with(
                if wasm_run::is_wide(w) {
                    wasm_run::stored_wide(s.memory, p, s.top().wide())
                } else {
                    wasm_run::stored(w, s.memory, p, s.top().word())
                },
            )
        },
        Op::Drop => s.pop(),
        Op::Select => s.pop().pop().pop().push(
            if s.top().word() != 0 {
                s.pop().pop().top()
            } else {
                s.pop().top()
            },
        ),
        _ => arbitrary(),
    }
}

/// Runs code from position `p` to its end. Nothing is said of branches.
pub open spec fn flows(c: Seq<Op>, p: int, s: Values, a: Doubles) -> Values
    decreases c.len() - p,
{
    if p < 0 || p >= c.len() {
        s
    } else {
        match c[p] {
            Op::End => flows(c, p + 1, s, a),
            Op::If(_, _) => {
                let q = if s.top().word() != 0 {
                    p + 1
                } else {
                    wasm_flow::behind(c, p + 1, true, 0)
                };
                if p < q <= c.len() {
                    flows(c, q, s.pop(), a)
                } else {
                    arbitrary()
                }
            },
            Op::Else => {
                let q = wasm_flow::behind(c, p + 1, false, 0);
                if p < q <= c.len() {
                    flows(c, q, s, a)
                } else {
                    arbitrary()
                }
            },
            op => flows(c, p + 1, step(op, s, a), a),
        }
    }
}

impl E {
    /// What the code of the expression does.
    pub open spec fn leaves(self, s: Values, a: Doubles) -> Values
        decreases self,
    {
        match self {
            E::Top => s,
            E::Nothing => s,
            E::C(v) => step(Op::ConstI32(v), s, a),
            E::C64(v) => step(Op::ConstI64(v), s, a),
            E::CF64(v) => step(Op::ConstF64(v), s, a),
            E::L(x) => step(Op::LocalGet(x), s, a),
            E::Tee(x, e) => step(Op::LocalTee(x), e.leaves(s, a), a),
            E::Un(u, e) => step(Op::Un(u), e.leaves(s, a), a),
            E::Bin(b, x, y) => step(Op::Bin(b), y.leaves(x.leaves(s, a), a), a),
            E::Load(w, at, e) => step(Op::Load(w, at), e.leaves(s, a), a),
            E::If(_, cond, x, y) => {
                let c = cond.leaves(s, a);
                if c.top().word() != 0 {
                    x.leaves(c.pop(), a)
                } else {
                    y.leaves(c.pop(), a)
                }
            },
            E::Select(x, y, cond) => step(
                Op::Select,
                cond.leaves(y.leaves(x.leaves(s, a), a), a),
                a,
            ),
            E::Both(x, y) => y.leaves(x.leaves(s, a), a),
            E::Call(name, sig, args) => arbitrary(),
            E::Keep(x, e) => step(Op::LocalSet(x), e.leaves(s, a), a),
        }
    }
}

/// The code of an expression does what the expression says, wherever it stands.
pub proof fn lemma_expression(e: E, b: Seq<Op>, c: Seq<Op>, s: Values, a: Doubles)
    requires
        wasm_flow::calls_nothing(e),
        e.code(b).is_prefix_of(c),
    ensures
        b.is_prefix_of(e.code(b)),
        flows(c, b.len() as int, s, a) == flows(c, e.code(b).len() as int, e.leaves(s, a), a),
    decreases e,
{
    reveal_with_fuel(E::code, 1);
    wasm_flow::lemma_level(e, b, c, false, 0);
    match e {
        E::Top => {},
        E::Nothing => {},
        E::C(v) => {
            wasm_flow::lemma_prefix(b, Op::ConstI32(v), e.code(b), c);
        },
        E::C64(v) => {
            wasm_flow::lemma_prefix(b, Op::ConstI64(v), e.code(b), c);
        },
        E::CF64(v) => {
            wasm_flow::lemma_prefix(b, Op::ConstF64(v), e.code(b), c);
        },
        E::L(x) => {
            wasm_flow::lemma_prefix(b, Op::LocalGet(x), e.code(b), c);
        },
        E::Tee(l, x) => {
            wasm_flow::lemma_prefix(x.code(b), Op::LocalTee(l), e.code(b), c);
            lemma_expression(*x, b, c, s, a);
        },
        E::Un(u, x) => {
            wasm_flow::lemma_prefix(x.code(b), Op::Un(u), e.code(b), c);
            lemma_expression(*x, b, c, s, a);
        },
        E::Load(w, at, x) => {
            wasm_flow::lemma_prefix(x.code(b), Op::Load(w, at), e.code(b), c);
            lemma_expression(*x, b, c, s, a);
        },
        E::Call(_, _, _) => {},
        E::Keep(l, x) => {
            wasm_flow::lemma_prefix(x.code(b), Op::LocalSet(l), e.code(b), c);
            lemma_expression(*x, b, c, s, a);
        },
        E::Bin(o, x, y) => {
            let bx = x.code(b);
            wasm_flow::lemma_prefix(y.code(bx), Op::Bin(o), e.code(b), c);
            lemma_expression(*y, bx, c, x.leaves(s, a), a);
            lemma_expression(*x, b, c, s, a);
        },
        E::Both(x, y) => {
            lemma_expression(*y, x.code(b), c, x.leaves(s, a), a);
            lemma_expression(*x, b, c, s, a);
        },
        E::Select(x, y, cond) => {
            let bx = x.code(b);
            let by = y.code(bx);
            wasm_flow::lemma_prefix(cond.code(by), Op::Select, e.code(b), c);
            lemma_expression(*cond, by, c, y.leaves(x.leaves(s, a), a), a);
            lemma_expression(*y, bx, c, x.leaves(s, a), a);
            lemma_expression(*x, b, c, s, a);
        },
        E::If(t, cond, x, y) => {
            let bc = cond.code(b);
            let bi = bc.push(Op::If(t, None));
            let bx = x.code(bi);
            let be = bx.push(Op::Else);
            let by = y.code(be);
            let sc = cond.leaves(s, a);
            wasm_flow::lemma_prefix(by, Op::End, e.code(b), c);
            lemma_expression(*y, be, c, sc.pop(), a);
            wasm_flow::lemma_level(*y, be, c, false, 0);
            wasm_flow::lemma_prefix(bx, Op::Else, by, c);
            lemma_expression(*x, bi, c, sc.pop(), a);
            wasm_flow::lemma_level(*x, bi, c, true, 0);
            wasm_flow::lemma_prefix(bc, Op::If(t, None), bx, c);
            lemma_expression(*cond, b, c, s, a);
            reveal_with_fuel(flows, 2);
        },
    }
}

/// The code between closes all that it opens.
#[verifier::opaque]
pub open spec fn is_closed(e: Emit, g: Emit) -> bool {
    &&& e.code.is_prefix_of(g.code)
    &&& forall|c: Seq<Op>|
        #![trigger g.code.is_prefix_of(c)]
        g.code.is_prefix_of(c) ==> e.code.is_prefix_of(c) && wasm_flow::is_level(
            c,
            e.code.len() as int,
            g.code.len() as int,
        )
}

/// The code between leads from one state to another.
#[verifier::opaque]
pub open spec fn takes(e: Emit, g: Emit, s: Values, t: Values, a: Doubles) -> bool {
    &&& is_closed(e, g)
    &&& forall|c: Seq<Op>|
        #![trigger g.code.is_prefix_of(c)]
        g.code.is_prefix_of(c) ==> flows(c, e.code.len() as int, s, a) == flows(
            c,
            g.code.len() as int,
            t,
            a,
        )
}

pub proof fn closed_on(e: Emit, f: Emit, g: Emit)
    requires
        is_closed(e, f),
        is_closed(f, g),
    ensures
        is_closed(e, g),
{
    reveal(is_closed);
    assert(g.code.is_prefix_of(g.code));
    assert forall|c: Seq<Op>|
        #![trigger g.code.is_prefix_of(c)]
        g.code.is_prefix_of(c) implies e.code.is_prefix_of(c) && wasm_flow::is_level(
        c,
        e.code.len() as int,
        g.code.len() as int,
    ) by {
        assert(f.code.is_prefix_of(c));
        wasm_flow::lemma_level_on(
            c,
            e.code.len() as int,
            f.code.len() as int,
            g.code.len() as int,
        );
    }
    assert(f.code.is_prefix_of(g.code));
    assert(e.code.is_prefix_of(g.code));
}

pub proof fn takes_on(e: Emit, f: Emit, g: Emit, s: Values, t: Values, u: Values, a: Doubles)
    requires
        takes(e, f, s, t, a),
        takes(f, g, t, u, a),
    ensures
        takes(e, g, s, u, a),
{
    reveal(takes);
    closed_on(e, f, g);
    assert forall|c: Seq<Op>|
        #![trigger g.code.is_prefix_of(c)]
        g.code.is_prefix_of(c) implies flows(c, e.code.len() as int, s, a) == flows(
        c,
        g.code.len() as int,
        u,
        a,
    ) by {
        assert(f.code.is_prefix_of(c)) by {
            reveal(is_closed);
        }
    }
}

/// Nothing was added.
pub proof fn takes_nothing(e: Emit, g: Emit, s: Values, a: Doubles)
    requires
        e.code == g.code,
    ensures
        takes(e, g, s, s, a),
        is_closed(e, g),
{
    reveal(takes);
    reveal(is_closed);
}

pub proof fn closed_val(e: Emit, x: E)
    ensures
        is_closed(e, e.val(x)),
{
    reveal(is_closed);
    let g = e.val(x);
    assert forall|c: Seq<Op>|
        #![trigger g.code.is_prefix_of(c)]
        g.code.is_prefix_of(c) implies e.code.is_prefix_of(c) && wasm_flow::is_level(
        c,
        e.code.len() as int,
        g.code.len() as int,
    ) by {
        wasm_flow::lemma_val_stands(e, x, c, false, 0);
        wasm_flow::lemma_val_is_level(e, x, c);
    }
    assert(g.code.is_prefix_of(g.code));
}

pub proof fn closed_op(e: Emit, op: Op)
    requires
        wasm_flow::is_flat(op),
    ensures
        is_closed(e, e.op(op)),
{
    reveal(is_closed);
    let g = e.op(op);
    assert forall|c: Seq<Op>|
        #![trigger g.code.is_prefix_of(c)]
        g.code.is_prefix_of(c) implies e.code.is_prefix_of(c) && wasm_flow::is_level(
        c,
        e.code.len() as int,
        g.code.len() as int,
    ) by {
        wasm_flow::lemma_op_stands(e, op, c);
        wasm_flow::lemma_op_is_level(e, op, c);
    }
    assert(g.code.is_prefix_of(g.code));
}

/// The code of an expression.
pub proof fn takes_val(e: Emit, x: E, s: Values, a: Doubles)
    requires
        wasm_flow::calls_nothing(x),
    ensures
        takes(e, e.val(x), s, x.leaves(s, a), a),
{
    closed_val(e, x);
    reveal(takes);
    let g = e.val(x);
    assert forall|c: Seq<Op>|
        #![trigger g.code.is_prefix_of(c)]
        g.code.is_prefix_of(c) implies flows(c, e.code.len() as int, s, a) == flows(
        c,
        g.code.len() as int,
        x.leaves(s, a),
        a,
    ) by {
        assert(g.code == x.code(e.code)) by {
            reveal(Emit::val);
        }
        lemma_expression(x, e.code, c, s, a);
    }
}

/// The instruction is no part of a conditional, and no branch.
pub open spec fn is_step(op: Op) -> bool {
    &&& wasm_flow::is_flat(op)
    &&& !(op is Call)
}

pub proof fn takes_op(e: Emit, op: Op, s: Values, a: Doubles)
    requires
        is_step(op),
    ensures
        takes(e, e.op(op), s, step(op, s, a), a),
{
    closed_op(e, op);
    reveal(takes);
    let g = e.op(op);
    assert forall|c: Seq<Op>|
        #![trigger g.code.is_prefix_of(c)]
        g.code.is_prefix_of(c) implies flows(c, e.code.len() as int, s, a) == flows(
        c,
        g.code.len() as int,
        step(op, s, a),
        a,
    ) by {
        wasm_flow::lemma_op_stands(e, op, c);
    }
}

/// A conditional without a second part closes what it opens.
pub proof fn closed_if(e: Emit, op: Op, g: Emit)
    requires
        op is If,
        is_closed(e.op(op), g),
    ensures
        is_closed(e, g.op(Op::End)),
{
    reveal(is_closed);
    let f = g.op(Op::End);
    assert forall|c: Seq<Op>|
        #![trigger f.code.is_prefix_of(c)]
        f.code.is_prefix_of(c) implies e.code.is_prefix_of(c) && wasm_flow::is_level(
        c,
        e.code.len() as int,
        f.code.len() as int,
    ) by {
        wasm_flow::lemma_op_stands(g, Op::End, c);
        wasm_flow::lemma_op_stands(e, op, c);
        assert forall|first_part: bool, depth: nat| #[trigger]
            wasm_flow::behind(c, e.code.len() as int, first_part, depth) == wasm_flow::behind(
                c,
                f.code.len() as int,
                first_part,
                depth,
            ) by {
            assert(wasm_flow::behind(c, e.op(op).code.len() as int, first_part, depth + 1)
                == wasm_flow::behind(c, g.code.len() as int, first_part, depth + 1));
        }
    }
    assert(f.code.is_prefix_of(f.code));
}

/// Where the value on the stack is zero, the first part of a conditional is passed over.
#[verifier::spinoff_prover]
pub proof fn takes_second(
    e: Emit,
    op: Op,
    g: Emit,
    f: Emit,
    s: Values,
    t: Values,
    a: Doubles,
)
    requires
        op is If,
        is_closed(e.op(op), g),
        takes(g.op(Op::Else), f, s.pop(), t, a),
        s.top() == Value::Word(0),
    ensures
        takes(e, f.op(Op::End), s, t, a),
{
    reveal(takes);
    reveal(is_closed);
    let h = f.op(Op::End);
    let e0 = e.op(op);
    let g1 = g.op(Op::Else);
    assert forall|c: Seq<Op>|
        #![trigger h.code.is_prefix_of(c)]
        h.code.is_prefix_of(c) implies e.code.is_prefix_of(c) && wasm_flow::is_level(
        c,
        e.code.len() as int,
        h.code.len() as int,
    ) && flows(c, e.code.len() as int, s, a) == flows(c, h.code.len() as int, t, a) by {
        wasm_flow::lemma_op_stands(f, Op::End, c);
        wasm_flow::lemma_op_stands(g, Op::Else, c);
        wasm_flow::lemma_op_stands(e, op, c);
        assert forall|first_part: bool, depth: nat| #[trigger]
            wasm_flow::behind(c, e.code.len() as int, first_part, depth) == wasm_flow::behind(
                c,
                h.code.len() as int,
                first_part,
                depth,
            ) by {
            assert(wasm_flow::behind(c, e0.code.len() as int, first_part, depth + 1)
                == wasm_flow::behind(c, g.code.len() as int, first_part, depth + 1));
            assert(wasm_flow::behind(c, g1.code.len() as int, first_part, depth + 1)
                == wasm_flow::behind(c, f.code.len() as int, first_part, depth + 1));
        }
        assert(wasm_flow::behind(c, e0.code.len() as int, true, 0) == wasm_flow::behind(
            c,
            g.code.len() as int,
            true,
            0,
        ));
        assert(wasm_flow::behind(c, g.code.len() as int, true, 0) == g1.code.len());
        assert(flows(c, f.code.len() as int, t, a) == flows(c, h.code.len() as int, t, a));
    }
    assert(h.code.is_prefix_of(h.code));
}

} // verus!
