//! Where generated code goes when it runs: blocks, branches out of them and calls of helpers,
//! around the instructions on words.
use vstd::prelude::*;
use crate::wasm::{Emit, Label, Op, Sig, Width, E};
use crate::wasm_run;
use crate::wasm_run::Words;

verus! {

/// The helpers that generated code calls: what each answers, from its name, its operands and
/// memory, and the memory that it leaves.
pub struct Helpers {
    pub answer: spec_fn(&'static str, Seq<i32>, Map<u32, i32>) -> (i32, Map<u32, i32>),
}

/// Where code goes on behind the block or conditional that position `p` is inside of, or, where
/// that is asked for, behind the first part of it; `depth` of them are open within.
pub open spec fn behind(c: Seq<Op>, p: int, first_part: bool, depth: nat) -> int
    decreases c.len() - p,
{
    if p < 0 || p >= c.len() {
        c.len() as int
    } else {
        match c[p] {
            Op::If(_, _) => behind(c, p + 1, first_part, depth + 1),
            Op::Block(_) => behind(c, p + 1, first_part, depth + 1),
            Op::Loop => behind(c, p + 1, first_part, depth + 1),
            Op::Else => if depth == 0 && first_part {
                p + 1
            } else {
                behind(c, p + 1, first_part, depth)
            },
            Op::End => if depth == 0 {
                p + 1
            } else {
                behind(c, p + 1, first_part, (depth - 1) as nat)
            },
            _ => behind(c, p + 1, first_part, depth),
        }
    }
}

/// Where a branch goes: behind a block or conditional, or back to the start of a loop.
pub open spec fn exit_of(c: Seq<Op>, l: Label) -> int {
    if c[l.0 as int] is Loop {
        l.0 as int
    } else {
        behind(c, l.0 + 1, false, 0)
    }
}

/// A helper is called. Nothing is said of other signatures.
pub open spec fn called(name: &'static str, sig: Sig, s: Words, h: Helpers) -> Words {
    match sig {
        Sig::Fn1 => {
            let (_, memory) = (h.answer)(name, seq![s.top()], s.memory);
            Words { memory, ..s.pop() }
        },
        Sig::Fn2 => {
            let (_, memory) = (h.answer)(name, seq![s.below(), s.top()], s.memory);
            Words { memory, ..s.pop().pop() }
        },
        Sig::Fn1Ret => {
            let (v, memory) = (h.answer)(name, seq![s.top()], s.memory);
            Words { memory, ..s.pop() }.push(v)
        },
        Sig::Fn2Ret => {
            let (v, memory) = (h.answer)(name, seq![s.below(), s.top()], s.memory);
            Words { memory, ..s.pop().pop() }.push(v)
        },
        Sig::Fn3Ret => {
            let (v, memory) = (h.answer)(
                name,
                seq![s.pop().below(), s.below(), s.top()],
                s.memory,
            );
            Words { memory, ..s.pop().pop().pop() }.push(v)
        },
        _ => arbitrary(),
    }
}

/// Runs code from position `p` to its end. Nothing is said of branches that lead back.
pub open spec fn goes(c: Seq<Op>, p: int, s: Words, h: Helpers) -> Words
    decreases c.len() - p,
{
    if p < 0 || p >= c.len() {
        s
    } else {
        match c[p] {
            Op::Block(_) => goes(c, p + 1, s, h),
            Op::End => goes(c, p + 1, s, h),
            Op::If(_, _) => {
                let q = if s.top() != 0 {
                    p + 1
                } else {
                    behind(c, p + 1, true, 0)
                };
                if p < q <= c.len() {
                    goes(c, q, s.pop(), h)
                } else {
                    arbitrary()
                }
            },
            Op::Else => {
                let q = behind(c, p + 1, false, 0);
                if p < q <= c.len() {
                    goes(c, q, s, h)
                } else {
                    arbitrary()
                }
            },
            Op::Br(l) => {
                let q = exit_of(c, l);
                if p < q <= c.len() {
                    goes(c, q, s, h)
                } else {
                    arbitrary()
                }
            },
            Op::BrIf(l, _) => {
                let q = if s.top() != 0 {
                    exit_of(c, l)
                } else {
                    p + 1
                };
                if p < q <= c.len() {
                    goes(c, q, s.pop(), h)
                } else {
                    arbitrary()
                }
            },
            Op::Call(name, sig) => goes(c, p + 1, called(name, sig, s, h), h),
            op => goes(c, p + 1, wasm_run::step(op, s), h),
        }
    }
}

pub proof fn lemma_behind(c: Seq<Op>, p: int, first_part: bool, depth: nat)
    requires
        0 <= p <= c.len(),
    ensures
        p <= behind(c, p, first_part, depth) <= c.len(),
        p < c.len() ==> p < behind(c, p, first_part, depth),
    decreases c.len() - p,
{
    if p < c.len() {
        lemma_behind(c, p + 1, first_part, depth);
        lemma_behind(c, p + 1, first_part, depth + 1);
        if depth > 0 {
            lemma_behind(c, p + 1, first_part, (depth - 1) as nat);
        }
    }
}

/// The expression calls no helper.
pub open spec fn calls_nothing(e: E) -> bool
    decreases e,
{
    match e {
        E::Call(_, _, _) => false,
        E::Tee(_, x) => calls_nothing(*x),
        E::Keep(_, x) => calls_nothing(*x),
        E::Un(_, x) => calls_nothing(*x),
        E::Load(_, _, x) => calls_nothing(*x),
        E::Bin(_, x, y) => calls_nothing(*x) && calls_nothing(*y),
        E::Both(x, y) => calls_nothing(*x) && calls_nothing(*y),
        E::If(_, cond, x, y) => calls_nothing(*cond) && calls_nothing(*x) && calls_nothing(*y),
        E::Select(x, y, cond) => calls_nothing(*x) && calls_nothing(*y) && calls_nothing(*cond),
        _ => true,
    }
}

pub proof fn lemma_prefix(a: Seq<Op>, op: Op, b: Seq<Op>, c: Seq<Op>)
    requires
        a.push(op).is_prefix_of(b),
        b.is_prefix_of(c),
    ensures
        a.is_prefix_of(c),
        a.push(op).is_prefix_of(c),
        a.len() < c.len(),
        c[a.len() as int] == op,
{
    let n = a.len() as int;
    let d = a.push(op);
    assert(d[n] == op);
    assert forall|i: int| 0 <= i < d.len() implies #[trigger] c[i] == d[i] by {
        assert(b.subrange(0, d.len() as int)[i] == b[i]);
        assert(c.subrange(0, b.len() as int)[i] == c[i]);
    }
    assert(a =~= c.subrange(0, n));
    assert(d =~= c.subrange(0, n + 1));
}

/// An expression closes all that it opens.
pub proof fn lemma_level(e: E, b: Seq<Op>, c: Seq<Op>, first_part: bool, depth: nat)
    requires
        e.code(b).is_prefix_of(c),
    ensures
        b.is_prefix_of(e.code(b)),
        behind(c, b.len() as int, first_part, depth) == behind(
            c,
            e.code(b).len() as int,
            first_part,
            depth,
        ),
    decreases e,
{
    reveal_with_fuel(E::code, 1);
    wasm_run::law_expressions_run(e, b, arbitrary());
    match e {
        E::Top => {},
        E::Nothing => {},
        E::C(v) => {
            lemma_prefix(b, Op::ConstI32(v), e.code(b), c);
        },
        E::C64(v) => {
            lemma_prefix(b, Op::ConstI64(v), e.code(b), c);
        },
        E::CF64(v) => {
            lemma_prefix(b, Op::ConstF64(v), e.code(b), c);
        },
        E::L(x) => {
            lemma_prefix(b, Op::LocalGet(x), e.code(b), c);
        },
        E::Tee(l, x) => {
            lemma_prefix(x.code(b), Op::LocalTee(l), e.code(b), c);
            lemma_level(*x, b, c, first_part, depth);
        },
        E::Un(u, x) => {
            lemma_prefix(x.code(b), Op::Un(u), e.code(b), c);
            lemma_level(*x, b, c, first_part, depth);
        },
        E::Load(w, at, x) => {
            lemma_prefix(x.code(b), Op::Load(w, at), e.code(b), c);
            lemma_level(*x, b, c, first_part, depth);
        },
        E::Call(name, sig, x) => {
            lemma_prefix(x.code(b), Op::Call(name, sig), e.code(b), c);
            lemma_level(*x, b, c, first_part, depth);
        },
        E::Keep(l, x) => {
            lemma_prefix(x.code(b), Op::LocalSet(l), e.code(b), c);
            lemma_level(*x, b, c, first_part, depth);
        },
        E::Bin(o, x, y) => {
            let bx = x.code(b);
            lemma_prefix(y.code(bx), Op::Bin(o), e.code(b), c);
            lemma_level(*y, bx, c, first_part, depth);
            lemma_level(*x, b, c, first_part, depth);
        },
        E::Both(x, y) => {
            let bx = x.code(b);
            lemma_level(*y, bx, c, first_part, depth);
            lemma_level(*x, b, c, first_part, depth);
        },
        E::Select(x, y, cond) => {
            let bx = x.code(b);
            let by = y.code(bx);
            lemma_prefix(cond.code(by), Op::Select, e.code(b), c);
            lemma_level(*cond, by, c, first_part, depth);
            lemma_level(*y, bx, c, first_part, depth);
            lemma_level(*x, b, c, first_part, depth);
        },
        E::If(t, cond, x, y) => {
            let bc = cond.code(b);
            let bi = bc.push(Op::If(t, None));
            let bx = x.code(bi);
            let be = bx.push(Op::Else);
            let by = y.code(be);
            lemma_prefix(by, Op::End, e.code(b), c);
            lemma_level(*y, be, c, first_part, depth + 1);
            lemma_prefix(bx, Op::Else, by, c);
            lemma_level(*x, bi, c, first_part, depth + 1);
            lemma_prefix(bc, Op::If(t, None), bx, c);
            lemma_level(*cond, b, c, first_part, depth);
        },
    }
}

/// The code of an expression does what the expression says, wherever it stands.
pub proof fn lemma_expression(e: E, b: Seq<Op>, c: Seq<Op>, s: Words, h: Helpers)
    requires
        calls_nothing(e),
        e.code(b).is_prefix_of(c),
    ensures
        b.is_prefix_of(e.code(b)),
        goes(c, b.len() as int, s, h) == goes(c, e.code(b).len() as int, e.done(s), h),
    decreases e,
{
    reveal_with_fuel(E::code, 1);
    lemma_level(e, b, c, false, 0);
    match e {
        E::Top => {},
        E::Nothing => {},
        E::C(v) => {
            lemma_prefix(b, Op::ConstI32(v), e.code(b), c);
        },
        E::C64(v) => {
            lemma_prefix(b, Op::ConstI64(v), e.code(b), c);
        },
        E::CF64(v) => {
            lemma_prefix(b, Op::ConstF64(v), e.code(b), c);
        },
        E::L(x) => {
            lemma_prefix(b, Op::LocalGet(x), e.code(b), c);
        },
        E::Tee(l, x) => {
            lemma_prefix(x.code(b), Op::LocalTee(l), e.code(b), c);
            lemma_expression(*x, b, c, s, h);
        },
        E::Un(u, x) => {
            lemma_prefix(x.code(b), Op::Un(u), e.code(b), c);
            lemma_expression(*x, b, c, s, h);
        },
        E::Load(w, at, x) => {
            lemma_prefix(x.code(b), Op::Load(w, at), e.code(b), c);
            lemma_expression(*x, b, c, s, h);
        },
        E::Call(_, _, _) => {},
        E::Keep(l, x) => {
            lemma_prefix(x.code(b), Op::LocalSet(l), e.code(b), c);
            lemma_expression(*x, b, c, s, h);
        },
        E::Bin(o, x, y) => {
            let bx = x.code(b);
            lemma_prefix(y.code(bx), Op::Bin(o), e.code(b), c);
            lemma_expression(*y, bx, c, x.done(s), h);
            lemma_expression(*x, b, c, s, h);
        },
        E::Both(x, y) => {
            lemma_expression(*y, x.code(b), c, x.done(s), h);
            lemma_expression(*x, b, c, s, h);
        },
        E::Select(x, y, cond) => {
            let bx = x.code(b);
            let by = y.code(bx);
            lemma_prefix(cond.code(by), Op::Select, e.code(b), c);
            lemma_expression(*cond, by, c, y.done(x.done(s)), h);
            lemma_expression(*y, bx, c, x.done(s), h);
            lemma_expression(*x, b, c, s, h);
        },
        E::If(t, cond, x, y) => {
            let bc = cond.code(b);
            let bi = bc.push(Op::If(t, None));
            let bx = x.code(bi);
            let be = bx.push(Op::Else);
            let by = y.code(be);
            let sc = cond.done(s);
            lemma_prefix(by, Op::End, e.code(b), c);
            lemma_expression(*y, be, c, sc.pop(), h);
            lemma_level(*y, be, c, false, 0);
            lemma_prefix(bx, Op::Else, by, c);
            lemma_expression(*x, bi, c, sc.pop(), h);
            lemma_level(*x, bi, c, true, 0);
            lemma_prefix(bc, Op::If(t, None), bx, c);
            lemma_expression(*cond, b, c, s, h);
        },
    }
}

/// An expression that is added to code leaves its value.
pub proof fn lemma_val(e: Emit, x: E, s: Words, v: i32, t: Words, c: Seq<Op>, h: Helpers)
    requires
        calls_nothing(x),
        wasm_run::evaluates(x, s, v, t),
        e.val(x).code.is_prefix_of(c),
    ensures
        goes(c, e.code.len() as int, s, h) == goes(
            c,
            e.val(x).code.len() as int,
            t.on(s.stack.push(v)),
            h,
        ),
{
    reveal(Emit::val);
    lemma_expression(x, e.code, c, s, h);
    assert(s.on(s.stack) == s);
    assert(x.done(s.on(s.stack)) == t.on(s.stack.push(v)));
}

/// Where an expression stands that was added to code.
pub proof fn lemma_val_stands(e: Emit, x: E, c: Seq<Op>, first_part: bool, depth: nat)
    requires
        e.val(x).code.is_prefix_of(c),
    ensures
        e.code.is_prefix_of(c),
        e.code.len() <= e.val(x).code.len(),
        behind(c, e.code.len() as int, first_part, depth) == behind(
            c,
            e.val(x).code.len() as int,
            first_part,
            depth,
        ),
{
    reveal(Emit::val);
    lemma_level(x, e.code, c, first_part, depth);
    let n = e.code.len() as int;
    let d = e.val(x).code;
    assert forall|i: int| 0 <= i < n implies #[trigger] e.code[i] == c[i] by {
        assert(d.subrange(0, n)[i] == d[i]);
        assert(c.subrange(0, d.len() as int)[i] == c[i]);
    }
    assert(e.code =~= c.subrange(0, n));
}

/// Where an instruction stands that was added to code.
pub proof fn lemma_op_stands(e: Emit, op: Op, c: Seq<Op>)
    requires
        e.op(op).code.is_prefix_of(c),
    ensures
        e.code.is_prefix_of(c),
        e.op(op).code.len() == e.code.len() + 1,
        e.code.len() < c.len(),
        c[e.code.len() as int] == op,
{
    reveal(Emit::op);
    lemma_prefix(e.code, op, e.op(op).code, c);
}

/// What stands between two positions closes all that it opens.
pub open spec fn is_level(c: Seq<Op>, p: int, q: int) -> bool {
    forall|first_part: bool, depth: nat| #[trigger]
        behind(c, p, first_part, depth) == behind(c, q, first_part, depth)
}

pub proof fn lemma_val_is_level(e: Emit, x: E, c: Seq<Op>)
    requires
        e.val(x).code.is_prefix_of(c),
    ensures
        is_level(c, e.code.len() as int, e.val(x).code.len() as int),
{
    assert forall|first_part: bool, depth: nat| #[trigger]
        behind(c, e.code.len() as int, first_part, depth) == behind(
            c,
            e.val(x).code.len() as int,
            first_part,
            depth,
        ) by {
        lemma_val_stands(e, x, c, first_part, depth);
    }
}

/// The instruction opens and closes nothing.
pub open spec fn is_flat(op: Op) -> bool {
    wasm_run::is_plain(op) && !(op is Block) && !(op is Loop)
}

pub proof fn lemma_op_is_level(e: Emit, op: Op, c: Seq<Op>)
    requires
        is_flat(op),
        e.op(op).code.is_prefix_of(c),
    ensures
        is_level(c, e.code.len() as int, e.op(op).code.len() as int),
{
    lemma_op_stands(e, op, c);
}

pub proof fn lemma_level_on(c: Seq<Op>, p: int, q: int, r: int)
    requires
        is_level(c, p, q),
        is_level(c, q, r),
    ensures
        is_level(c, p, r),
{
    assert forall|first_part: bool, depth: nat| #[trigger]
        behind(c, p, first_part, depth) == behind(c, r, first_part, depth) by {
        assert(behind(c, q, first_part, depth) == behind(c, r, first_part, depth));
    }
}

pub proof fn lemma_set_is_level(e: Emit, l: usize, x: E, c: Seq<Op>)
    requires
        e.set(l, x).code.is_prefix_of(c),
    ensures
        e.code.is_prefix_of(c),
        e.code.len() < e.set(l, x).code.len(),
        is_level(c, e.code.len() as int, e.set(l, x).code.len() as int),
{
    lemma_set_stands(e, l, x, c, false, 0);
    lemma_op_stands(e.val(x), Op::LocalSet(l), c);
    lemma_val_is_level(e, x, c);
    lemma_op_is_level(e.val(x), Op::LocalSet(l), c);
    lemma_level_on(
        c,
        e.code.len() as int,
        e.val(x).code.len() as int,
        e.set(l, x).code.len() as int,
    );
}

/// Where code stands that sets a local.
pub proof fn lemma_set_stands(e: Emit, l: usize, x: E, c: Seq<Op>, first_part: bool, depth: nat)
    requires
        e.set(l, x).code.is_prefix_of(c),
    ensures
        e.code.is_prefix_of(c),
        e.code.len() < e.set(l, x).code.len(),
        behind(c, e.code.len() as int, first_part, depth) == behind(
            c,
            e.set(l, x).code.len() as int,
            first_part,
            depth,
        ),
{
    lemma_op_stands(e.val(x), Op::LocalSet(l), c);
    lemma_val_stands(e, x, c, first_part, depth);
}

/// A local takes the value of an expression.
pub proof fn lemma_set(e: Emit, l: usize, x: E, s: Words, v: i32, c: Seq<Op>, h: Helpers)
    requires
        calls_nothing(x),
        wasm_run::evaluates(x, s, v, s),
        e.set(l, x).code.is_prefix_of(c),
    ensures
        goes(c, e.code.len() as int, s, h) == goes(
            c,
            e.set(l, x).code.len() as int,
            s.set(l, v),
            h,
        ),
{
    lemma_op_stands(e.val(x), Op::LocalSet(l), c);
    lemma_val(e, x, s, v, s, c, h);
    let pushed = s.on(s.stack.push(v));
    assert(pushed.stack.drop_last() =~= s.stack);
    assert(wasm_run::step(Op::LocalSet(l), pushed) == s.set(l, v));
}

/// A counter is counted up.
pub proof fn lemma_counted(e: Emit, address: u32, s: Words, c: Seq<Op>, h: Helpers)
    requires
        e.count(address).code.is_prefix_of(c),
    ensures
        e.code.is_prefix_of(c),
        e.code.len() < e.count(address).code.len(),
        goes(c, e.code.len() as int, s, h) == goes(
            c,
            e.count(address).code.len() as int,
            s.counted(address),
            h,
        ),
{
    let x = wasm_run::count_operands(address);
    reveal_with_fuel(calls_nothing, 6);
    lemma_op_stands(e.val(x), Op::Store(Width::A64, 0), c);
    lemma_val_stands(e, x, c, false, 0);
    wasm_run::lemma_count_done(address, s);
    assert(e.val(x).code == x.code(e.code)) by {
        reveal(Emit::val);
    }
    lemma_expression(x, e.code, c, s, h);
}

/// A branch out of a block does not lead out of the code.
pub proof fn lemma_exit(c: Seq<Op>, l: Label)
    requires
        l.0 < c.len(),
        c[l.0 as int] is Block,
    ensures
        exit_of(c, l) <= c.len(),
{
    lemma_behind(c, l.0 + 1, false, 0);
}

} // verus!
