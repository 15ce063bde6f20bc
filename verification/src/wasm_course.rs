//! Where control goes at the end of a piece of generated code: on to what follows it, to a label
//! outside of it, or out of the function.
use vstd::prelude::*;
use crate::wasm::{Emit, Label, Op, E};
use crate::wasm_flow;
use crate::wasm_flow::Helpers;
use crate::wasm_run;
use crate::wasm_run::Words;

verus! {

/// What becomes of a piece of code that is run.
pub enum Course {
    /// Control comes to its end.
    Falls(Words),
    /// A branch goes to a label outside of it.
    Goes(Label, Words),
    /// The function returns.
    Returns(Words),
}

/// Runs the code that stands from `start` to the end of `c`, from position `p` on. Labels before
/// `start` are outside.
pub open spec fn course(c: Seq<Op>, start: int, p: int, s: Words, h: Helpers) -> Course
    decreases c.len() - p,
{
    if p < 0 || p >= c.len() {
        Course::Falls(s)
    } else {
        match c[p] {
            Op::Block(_) => course(c, start, p + 1, s, h),
            Op::Loop => course(c, start, p + 1, s, h),
            Op::End => course(c, start, p + 1, s, h),
            Op::If(_, _) => {
                let q = if s.top() != 0 {
                    p + 1
                } else {
                    wasm_flow::behind(c, p + 1, true, 0)
                };
                if p < q <= c.len() {
                    course(c, start, q, s.pop(), h)
                } else {
                    arbitrary()
                }
            },
            Op::Else => {
                let q = wasm_flow::behind(c, p + 1, false, 0);
                if p < q <= c.len() {
                    course(c, start, q, s, h)
                } else {
                    arbitrary()
                }
            },
            Op::Br(l) => branched(c, start, p, l, s, h),
            Op::BrIf(l, _) => if s.top() != 0 {
                branched(c, start, p, l, s.pop(), h)
            } else {
                course(c, start, p + 1, s.pop(), h)
            },
            Op::Return => Course::Returns(s),
            Op::Call(name, sig) => course(c, start, p + 1, wasm_flow::called(name, sig, s, h), h),
            op => course(c, start, p + 1, wasm_run::step(op, s), h),
        }
    }
}

/// A branch at position `p`. Nothing is said of one that leads back to a loop inside.
pub open spec fn branched(c: Seq<Op>, start: int, p: int, l: Label, s: Words, h: Helpers) -> Course
    decreases c.len() - p, 0int,
{
    if l.0 < start {
        Course::Goes(l, s)
    } else {
        let q = wasm_flow::exit_of(c, l);
        if p < q <= c.len() {
            course(c, start, q, s, h)
        } else {
            arbitrary()
        }
    }
}

/// A branch to a label outside.
pub proof fn lemma_leaves(c: Seq<Op>, start: int, p: int, l: Label, s: Words, h: Helpers)
    requires
        0 <= p < c.len(),
        l.0 < start,
        c[p] == Op::Br(l) || c[p] is BrIf && c[p]->BrIf_0 == l,
    ensures
        c[p] == Op::Br(l) ==> course(c, start, p, s, h) == Course::Goes(l, s),
        c[p] is BrIf && s.top() != 0 ==> course(c, start, p, s, h) == Course::Goes(l, s.pop()),
        c[p] is BrIf && s.top() == 0 ==> course(c, start, p, s, h) == course(
            c,
            start,
            p + 1,
            s.pop(),
            h,
        ),
{
    reveal_with_fuel(course, 2);
    reveal_with_fuel(branched, 2);
}

/// The code of an expression does what the expression says, wherever it stands.
pub proof fn lemma_expression(e: E, b: Seq<Op>, c: Seq<Op>, start: int, s: Words, h: Helpers)
    requires
        wasm_flow::calls_nothing(e),
        e.code(b).is_prefix_of(c),
    ensures
        b.is_prefix_of(e.code(b)),
        course(c, start, b.len() as int, s, h) == course(
            c,
            start,
            e.code(b).len() as int,
            e.done(s),
            h,
        ),
    decreases e,
{
    reveal_with_fuel(E::code, 1);
    wasm_flow::lemma_level(e, b, c, false, 0);
    match e {
        E::Top => {},
        E::Nothing => {},
        E::C(v) => {
            wasm_flow::lemma_prefix(b, Op::ConstI32(v), e.code(b), c);
        },
        E::C64(v) => {
            wasm_flow::lemma_prefix(b, Op::ConstI64(v), e.code(b), c);
        },
        E::CF64(v) => {
            wasm_flow::lemma_prefix(b, Op::ConstF64(v), e.code(b), c);
        },
        E::L(x) => {
            wasm_flow::lemma_prefix(b, Op::LocalGet(x), e.code(b), c);
        },
        E::Tee(l, x) => {
            wasm_flow::lemma_prefix(x.code(b), Op::LocalTee(l), e.code(b), c);
            lemma_expression(*x, b, c, start, s, h);
        },
        E::Un(u, x) => {
            wasm_flow::lemma_prefix(x.code(b), Op::Un(u), e.code(b), c);
            lemma_expression(*x, b, c, start, s, h);
        },
        E::Load(w, at, x) => {
            wasm_flow::lemma_prefix(x.code(b), Op::Load(w, at), e.code(b), c);
            lemma_expression(*x, b, c, start, s, h);
        },
        E::Call(_, _, _) => {},
        E::Keep(l, x) => {
            wasm_flow::lemma_prefix(x.code(b), Op::LocalSet(l), e.code(b), c);
            lemma_expression(*x, b, c, start, s, h);
        },
        E::Bin(o, x, y) => {
            let bx = x.code(b);
            wasm_flow::lemma_prefix(y.code(bx), Op::Bin(o), e.code(b), c);
            lemma_expression(*y, bx, c, start, x.done(s), h);
            lemma_expression(*x, b, c, start, s, h);
        },
        E::Both(x, y) => {
            lemma_expression(*y, x.code(b), c, start, x.done(s), h);
            lemma_expression(*x, b, c, start, s, h);
        },
        E::Select(x, y, cond) => {
            let bx = x.code(b);
            let by = y.code(bx);
            wasm_flow::lemma_prefix(cond.code(by), Op::Select, e.code(b), c);
            lemma_expression(*cond, by, c, start, y.done(x.done(s)), h);
            lemma_expression(*y, bx, c, start, x.done(s), h);
            lemma_expression(*x, b, c, start, s, h);
        },
        E::If(t, cond, x, y) => {
            let bc = cond.code(b);
            let bi = bc.push(Op::If(t, None));
            let bx = x.code(bi);
            let be = bx.push(Op::Else);
            let by = y.code(be);
            let sc = cond.done(s);
            wasm_flow::lemma_prefix(by, Op::End, e.code(b), c);
            lemma_expression(*y, be, c, start, sc.pop(), h);
            wasm_flow::lemma_level(*y, be, c, false, 0);
            wasm_flow::lemma_prefix(bx, Op::Else, by, c);
            lemma_expression(*x, bi, c, start, sc.pop(), h);
            wasm_flow::lemma_level(*x, bi, c, true, 0);
            wasm_flow::lemma_prefix(bc, Op::If(t, None), bx, c);
            lemma_expression(*cond, b, c, start, s, h);
        },
    }
}

/// An expression that is added to code leaves its value.
pub proof fn lemma_val(
    e: Emit,
    x: E,
    s: Words,
    v: i32,
    t: Words,
    c: Seq<Op>,
    start: int,
    h: Helpers,
)
    requires
        wasm_flow::calls_nothing(x),
        wasm_run::evaluates(x, s, v, t),
        e.val(x).code.is_prefix_of(c),
    ensures
        e.code.is_prefix_of(c),
        course(c, start, e.code.len() as int, s, h) == course(
            c,
            start,
            e.val(x).code.len() as int,
            t.on(s.stack.push(v)),
            h,
        ),
{
    wasm_flow::lemma_val_stands(e, x, c, false, 0);
    reveal(Emit::val);
    lemma_expression(x, e.code, c, start, s, h);
    assert(s.on(s.stack) == s);
    assert(x.done(s.on(s.stack)) == t.on(s.stack.push(v)));
}

/// A local takes the value of an expression.
pub proof fn lemma_set(
    e: Emit,
    l: usize,
    x: E,
    s: Words,
    v: i32,
    c: Seq<Op>,
    start: int,
    h: Helpers,
)
    requires
        wasm_flow::calls_nothing(x),
        wasm_run::evaluates(x, s, v, s),
        e.set(l, x).code.is_prefix_of(c),
    ensures
        e.code.is_prefix_of(c),
        course(c, start, e.code.len() as int, s, h) == course(
            c,
            start,
            e.set(l, x).code.len() as int,
            s.set(l, v),
            h,
        ),
{
    wasm_flow::lemma_op_stands(e.val(x), Op::LocalSet(l), c);
    lemma_val(e, x, s, v, s, c, start, h);
    let pushed = s.on(s.stack.push(v));
    assert(pushed.stack.drop_last() =~= s.stack);
    assert(wasm_run::step(Op::LocalSet(l), pushed) == s.set(l, v));
}

/// The code that was added neither branches nor calls: it runs to its end, as [`wasm_run::run`]
/// says, wherever it stands.
pub open spec fn is_straight(a: Seq<Op>, b: Seq<Op>) -> bool {
    &&& a.is_prefix_of(b)
    &&& forall|s: Words|
        wasm_run::leads(a, b, s, #[trigger] wasm_run::run(wasm_run::added(a, b), s))
    &&& forall|c: Seq<Op>, start: int, s: Words, h: Helpers|
        b.is_prefix_of(c) ==> #[trigger] course(c, start, a.len() as int, s, h) == course(
            c,
            start,
            b.len() as int,
            wasm_run::run(wasm_run::added(a, b), s),
            h,
        )
}

pub proof fn lemma_straight_expression(x: E, a: Seq<Op>)
    requires
        wasm_flow::calls_nothing(x),
    ensures
        is_straight(a, x.code(a)),
{
    let b = x.code(a);
    assert forall|s: Words| #[trigger] wasm_run::run(wasm_run::added(a, b), s) == x.done(s) && wasm_run::leads(
        a,
        b,
        s,
        x.done(s),
    ) by {
        wasm_run::law_expressions_run(x, a, s);
        wasm_run::lemma_ends(a, b, s, x.done(s));
    }
    wasm_run::law_expressions_run(x, a, arbitrary());
    assert forall|c: Seq<Op>, start: int, s: Words, h: Helpers| b.is_prefix_of(c) implies #[trigger] course(
        c,
        start,
        a.len() as int,
        s,
        h,
    ) == course(c, start, b.len() as int, wasm_run::run(wasm_run::added(a, b), s), h) by {
        lemma_expression(x, a, c, start, s, h);
    }
}

/// An instruction on words that is no part of the flow of control.
pub open spec fn is_step(op: Op) -> bool {
    &&& wasm_run::is_plain(op)
    &&& !(op is Block) && !(op is Loop) && !(op is Br) && !(op is BrIf) && !(op is Return)
    &&& !(op is Call)
}

pub proof fn lemma_straight_step(a: Seq<Op>, op: Op)
    requires
        is_step(op),
    ensures
        is_straight(a, a.push(op)),
{
    let b = a.push(op);
    assert forall|s: Words| #[trigger] wasm_run::run(wasm_run::added(a, b), s) == wasm_run::step(op, s)
        && wasm_run::leads(a, b, s, wasm_run::step(op, s)) by {
        wasm_run::lemma_op(a, op, s);
        wasm_run::lemma_ends(a, b, s, wasm_run::step(op, s));
    }
    wasm_run::lemma_op(a, op, arbitrary());
    assert forall|c: Seq<Op>, start: int, s: Words, h: Helpers| b.is_prefix_of(c) implies #[trigger] course(
        c,
        start,
        a.len() as int,
        s,
        h,
    ) == course(c, start, b.len() as int, wasm_run::run(wasm_run::added(a, b), s), h) by {
        wasm_flow::lemma_prefix(a, op, b, c);
    }
}

pub proof fn lemma_straight_on(a: Seq<Op>, b: Seq<Op>, d: Seq<Op>)
    requires
        is_straight(a, b),
        is_straight(b, d),
    ensures
        is_straight(a, d),
{
    assert forall|s: Words|
        ({
            let t = #[trigger] wasm_run::run(wasm_run::added(a, d), s);
            &&& wasm_run::leads(a, d, s, t)
            &&& t == wasm_run::run(wasm_run::added(b, d), wasm_run::run(wasm_run::added(a, b), s))
        }) by {
        let t = wasm_run::run(wasm_run::added(a, b), s);
        let u = wasm_run::run(wasm_run::added(b, d), t);
        wasm_run::lemma_leads_on(a, b, d, s, t, u);
        wasm_run::lemma_ends(a, d, s, u);
    }
    let s: Words = arbitrary();
    let t = wasm_run::run(wasm_run::added(a, b), s);
    let u = wasm_run::run(wasm_run::added(b, d), t);
    wasm_run::lemma_leads_on(a, b, d, s, t, u);
    assert forall|c: Seq<Op>, start: int, s: Words, h: Helpers| d.is_prefix_of(c) implies #[trigger] course(
        c,
        start,
        a.len() as int,
        s,
        h,
    ) == course(c, start, d.len() as int, wasm_run::run(wasm_run::added(a, d), s), h) by {
        let t = wasm_run::run(wasm_run::added(a, b), s);
        assert(b.is_prefix_of(c)) by {
            assert(b =~= c.subrange(0, b.len() as int)) by {
                assert forall|i: int| 0 <= i < b.len() implies b[i] == c[i] by {
                    assert(d.subrange(0, b.len() as int)[i] == d[i]);
                    assert(c.subrange(0, d.len() as int)[i] == c[i]);
                }
            }
        }
        assert(course(c, start, a.len() as int, s, h) == course(c, start, b.len() as int, t, h));
    }
}

} // verus!
