//! What generated code does when it runs, as far as it works on words: constants, locals, loads,
//! arithmetic, comparisons and conditionals.
use vstd::prelude::*;
use crate::wasm::{Bin, Emit, FlagLocals, FlagSlot, Op, Un, Width, E};

verus! {

/// Where running code stands: its locals, the word at each address, and its stack, of which the
/// 64-bit values are kept apart.
pub struct Words {
    pub locals: Map<usize, i32>,
    pub memory: Map<u32, i32>,
    pub stack: Seq<i32>,
    pub wide: Seq<u64>,
    /// The parity flag, as helpers tell it.
    pub parity: bool,
}

impl Words {
    pub open spec fn push(self, v: i32) -> Words {
        Words { stack: self.stack.push(v), ..self }
    }

    pub open spec fn pop(self) -> Words {
        Words { stack: self.stack.drop_last(), ..self }
    }

    pub open spec fn top(self) -> i32 {
        self.stack.last()
    }

    /// The value below the top.
    pub open spec fn below(self) -> i32 {
        self.stack.drop_last().last()
    }

    pub open spec fn set(self, x: usize, v: i32) -> Words {
        Words { locals: self.locals.insert(x, v), ..self }
    }

    /// A word of the lazy flag state.
    pub open spec fn flag(self, f: Option<FlagLocals>, slot: FlagSlot) -> i32 {
        match f {
            Some(l) => self.locals[l.at(slot)],
            None => self.memory[crate::wasm::flag_address(slot)],
        }
    }
}

/// A truth value as a word.
pub open spec fn truth(b: bool) -> i32 {
    if b {
        1
    } else {
        0
    }
}

/// The number of places that a shift by a word moves.
pub open spec fn places(y: i32) -> u32 {
    (y & 31) as u32
}

/// Instructions on two words.
pub open spec fn binary(b: Bin, x: i32, y: i32) -> i32 {
    match b {
        Bin::Add => x.wrapping_add(y),
        Bin::Sub => x.wrapping_sub(y),
        Bin::Mul => x.wrapping_mul(y),
        Bin::And => x & y,
        Bin::Or => x | y,
        Bin::Xor => x ^ y,
        Bin::Shl => x << places(y),
        Bin::ShrU => (x as u32 >> places(y)) as i32,
        Bin::ShrS => x >> places(y),
        Bin::Eq => truth(x == y),
        Bin::Ne => truth(x != y),
        Bin::LtS => truth(x < y),
        Bin::LtU => truth((x as u32) < y as u32),
        Bin::GtS => truth(x > y),
        Bin::GtU => truth(x as u32 > y as u32),
        Bin::LeS => truth(x <= y),
        Bin::LeU => truth(x as u32 <= y as u32),
        Bin::GeS => truth(x >= y),
        Bin::GeU => truth(x as u32 >= y as u32),
        _ => arbitrary(),
    }
}

/// Accesses of 64 bits.
pub open spec fn is_wide(w: Width) -> bool {
    w is W64 || w is A64
}

/// The part of a word that an access of the width sees.
pub open spec fn narrowed(w: Width, v: i32) -> i32 {
    match w {
        Width::W8 => v & 0xff,
        Width::W16 => v & 0xffff,
        Width::A16 => v & 0xffff,
        Width::W32 => v,
        Width::A32 => v,
        _ => arbitrary(),
    }
}

/// Byte `i` of a word.
pub open spec fn byte(v: i32, i: u32) -> u32 {
    (v as u32 >> ((8 * i) as u32)) & 0xff
}

/// The number of bytes of an access.
pub open spec fn bytes_of(w: Width) -> u32 {
    match w {
        Width::W8 => 1,
        Width::W16 => 2,
        Width::A16 => 2,
        Width::W32 => 4,
        Width::A32 => 4,
        _ => arbitrary(),
    }
}

/// Byte `i` of the word at `q` once `n` bytes of `v` were stored at `p`.
pub open spec fn byte_after(memory: Map<u32, i32>, p: u32, n: u32, v: i32, q: u32, i: u32) -> u32 {
    let d = q.wrapping_add(i).wrapping_sub(p);
    if d < n {
        byte(v, d)
    } else {
        byte(memory[q], i)
    }
}

/// The word of four bytes.
pub open spec fn joined(b0: u32, b1: u32, b2: u32, b3: u32) -> i32 {
    (b0 | (b1 << 8) | (b2 << 16) | (b3 << 24)) as i32
}

/// Memory once a store of the width has put `v` at `p`.
pub open spec fn stored(w: Width, memory: Map<u32, i32>, p: u32, v: i32) -> Map<u32, i32> {
    let n = bytes_of(w);
    Map::new(
        |q: u32| true,
        |q: u32|
            joined(
                byte_after(memory, p, n, v, q, 0),
                byte_after(memory, p, n, v, q, 1),
                byte_after(memory, p, n, v, q, 2),
                byte_after(memory, p, n, v, q, 3),
            ),
    )
}

proof fn bits_of_bytes(x: i32, v: u32, m: u32)
    by (bit_vector)
    requires
        v == x as u32,
    ensures
        (((v >> 0u32) & 0xff) | (((v >> 8u32) & 0xff) << 8u32) | (((v >> 16u32) & 0xff) << 16u32)
            | (((v >> 24u32) & 0xff) << 24u32)) as i32 == x,
        (((v >> 0u32) & 0xff) | (((m >> 8u32) & 0xff) << 8u32) | (((m >> 16u32) & 0xff) << 16u32)
            | (((m >> 24u32) & 0xff) << 24u32)) as i32 & 0xffi32 == x & 0xffi32,
        (((v >> 0u32) & 0xff) | (((v >> 8u32) & 0xff) << 8u32) | (((m >> 16u32) & 0xff) << 16u32)
            | (((m >> 24u32) & 0xff) << 24u32)) as i32 & 0xffffi32 == x & 0xffffi32,
        (m as i32) as u32 == m,
{
}

/// What is stored is loaded again.
pub proof fn law_stored_values_are_loaded(w: Width, memory: Map<u32, i32>, p: u32, v: i32)
    requires
        w is W8 || w is W16 || w is A16 || w is W32 || w is A32,
    ensures
        narrowed(w, stored(w, memory, p, v)[p]) == narrowed(w, v),
{
    bits_of_bytes(v, v as u32, memory[p] as u32);
    assert(p.wrapping_add(0).wrapping_sub(p) == 0);
    assert(p.wrapping_add(1).wrapping_sub(p) == 1);
    assert(p.wrapping_add(2).wrapping_sub(p) == 2);
    assert(p.wrapping_add(3).wrapping_sub(p) == 3);
}

/// A word that shares no byte with what is stored is as it was.
pub proof fn lemma_stored_apart(w: Width, memory: Map<u32, i32>, p: u32, v: i32, q: u32)
    requires
        w is W8 || w is W16 || w is A16 || w is W32 || w is A32,
        q.wrapping_sub(p) >= bytes_of(w),
        p.wrapping_sub(q) >= 4,
    ensures
        stored(w, memory, p, v)[q] == memory[q],
{
    bits_of_bytes(memory[q], memory[q] as u32, 0);
    assert(q.wrapping_add(0).wrapping_sub(p) >= bytes_of(w));
    assert(q.wrapping_add(1).wrapping_sub(p) >= bytes_of(w));
    assert(q.wrapping_add(2).wrapping_sub(p) >= bytes_of(w));
    assert(q.wrapping_add(3).wrapping_sub(p) >= bytes_of(w));
}

/// Two words as one value, the low one first.
pub open spec fn paired(low: i32, high: i32) -> u64 {
    (low as u32) as u64 | ((high as u32) as u64) << 32
}

/// The 64-bit value at `p`.
pub open spec fn wide_at(memory: Map<u32, i32>, p: u32) -> u64 {
    paired(memory[p], memory[p.wrapping_add(4)])
}

/// Memory once 64 bits were stored at `p`.
pub open spec fn stored_wide(memory: Map<u32, i32>, p: u32, v: u64) -> Map<u32, i32> {
    stored(
        Width::A32,
        stored(Width::A32, memory, p, (v as u32) as i32),
        p.wrapping_add(4),
        ((v >> 32) as u32) as i32,
    )
}

impl Words {
    pub open spec fn push_wide(self, v: u64) -> Words {
        Words { wide: self.wide.push(v), ..self }
    }

    pub open spec fn pop_wide(self) -> Words {
        Words { wide: self.wide.drop_last(), ..self }
    }
}

/// One instruction that is no part of a conditional. Nothing is said of instructions on other
/// values, and of other helpers than those that tell the parity flag.
pub open spec fn step(op: Op, s: Words) -> Words {
    match op {
        Op::ConstI32(v) => s.push(v),
        Op::LocalGet(x) => s.push(s.locals[x]),
        Op::LocalSet(x) => s.pop().set(x, s.top()),
        Op::LocalTee(x) => s.set(x, s.top()),
        Op::Un(Un::Eqz) => s.pop().push(truth(s.top() == 0)),
        Op::ConstI64(v) => s.push_wide(v as u64),
        Op::Bin(b) => if b is AddI64 {
            s.pop_wide().pop_wide().push_wide(
                s.wide.drop_last().last().wrapping_add(s.wide.last()),
            )
        } else {
            s.pop().pop().push(binary(b, s.below(), s.top()))
        },
        Op::Load(w, at) => if is_wide(w) {
            s.pop().push_wide(wide_at(s.memory, (s.top() as u32).wrapping_add(at)))
        } else {
            s.pop().push(narrowed(w, s.memory[(s.top() as u32).wrapping_add(at)]))
        },
        Op::Store(w, at) => if is_wide(w) {
            Words {
                memory: stored_wide(
                    s.memory,
                    (s.top() as u32).wrapping_add(at),
                    s.wide.last(),
                ),
                ..s.pop().pop_wide()
            }
        } else {
            Words {
                memory: stored(w, s.memory, (s.below() as u32).wrapping_add(at), s.top()),
                ..s.pop().pop()
            }
        },
        Op::Call(name, sig) => if name@ == "test_p"@ {
            s.push(truth(s.parity))
        } else if name@ == "test_np"@ {
            s.push(truth(!s.parity))
        } else {
            arbitrary()
        },
        Op::Drop => s.pop(),
        Op::Select => s.pop().pop().pop().push(
            if s.top() != 0 {
                s.pop().below()
            } else {
                s.below()
            },
        ),
        _ => arbitrary(),
    }
}

/// The code after the conditional that it is inside of, or, where that is asked for, after the
/// first part of it; `depth` conditionals are open within.
pub open spec fn passed(ops: Seq<Op>, first_part: bool, depth: nat) -> Seq<Op>
    decreases ops.len(),
{
    if ops.len() == 0 {
        ops
    } else {
        match ops[0] {
            Op::If(_, _) => passed(ops.skip(1), first_part, depth + 1),
            Op::Else => if depth == 0 && first_part {
                ops.skip(1)
            } else {
                passed(ops.skip(1), first_part, depth)
            },
            Op::End => if depth == 0 {
                ops.skip(1)
            } else {
                passed(ops.skip(1), first_part, (depth - 1) as nat)
            },
            _ => passed(ops.skip(1), first_part, depth),
        }
    }
}

pub proof fn passed_is_shorter(ops: Seq<Op>, first_part: bool, depth: nat)
    ensures
        passed(ops, first_part, depth).len() <= ops.len(),
    decreases ops.len(),
{
    if ops.len() > 0 {
        passed_is_shorter(ops.skip(1), first_part, depth);
        passed_is_shorter(ops.skip(1), first_part, depth + 1);
        if depth > 0 {
            passed_is_shorter(ops.skip(1), first_part, (depth - 1) as nat);
        }
    }
}

/// Runs code to its end.
pub open spec fn run(ops: Seq<Op>, s: Words) -> Words
    decreases ops.len(),
{
    if ops.len() == 0 {
        s
    } else {
        let rest = ops.skip(1);
        proof {
            passed_is_shorter(rest, true, 0);
            passed_is_shorter(rest, false, 0);
        }
        match ops[0] {
            Op::If(_, _) => if s.top() != 0 {
                run(rest, s.pop())
            } else {
                run(passed(rest, true, 0), s.pop())
            },
            Op::Else => run(passed(rest, false, 0), s),
            Op::End => run(rest, s),
            op => run(rest, step(op, s)),
        }
    }
}

impl E {
    /// What the code of the expression does.
    pub open spec fn done(self, s: Words) -> Words
        decreases self,
    {
        match self {
            E::Top => s,
            E::Nothing => s,
            E::C(v) => step(Op::ConstI32(v), s),
            E::C64(v) => step(Op::ConstI64(v), s),
            E::CF64(v) => step(Op::ConstF64(v), s),
            E::L(x) => step(Op::LocalGet(x), s),
            E::Tee(x, e) => step(Op::LocalTee(x), e.done(s)),
            E::Un(u, e) => step(Op::Un(u), e.done(s)),
            E::Bin(b, x, y) => step(Op::Bin(b), y.done(x.done(s))),
            E::Load(w, at, e) => step(Op::Load(w, at), e.done(s)),
            E::If(_, cond, x, y) => {
                let c = cond.done(s);
                if c.top() != 0 {
                    x.done(c.pop())
                } else {
                    y.done(c.pop())
                }
            },
            E::Select(x, y, cond) => step(Op::Select, cond.done(y.done(x.done(s)))),
            E::Both(x, y) => y.done(x.done(s)),
            E::Call(name, sig, args) => step(Op::Call(name, sig), args.done(s)),
            E::Keep(x, e) => step(Op::LocalSet(x), e.done(s)),
        }
    }
}

/// The code that was added to some code.
pub open spec fn added(before: Seq<Op>, after: Seq<Op>) -> Seq<Op> {
    after.skip(before.len() as int)
}

/// The code that was added leads from one state to the other, whatever follows it.
pub open spec fn leads(before: Seq<Op>, after: Seq<Op>, s: Words, t: Words) -> bool {
    &&& before.is_prefix_of(after)
    &&& forall|rest: Seq<Op>| #[trigger] run(added(before, after) + rest, s) == run(rest, t)
}

/// The code that was added closes every conditional that it opens, and no other.
pub open spec fn is_level(before: Seq<Op>, after: Seq<Op>) -> bool {
    &&& before.is_prefix_of(after)
    &&& forall|rest: Seq<Op>, first_part: bool, depth: nat| #[trigger]
        passed(added(before, after) + rest, first_part, depth) == passed(rest, first_part, depth)
}

proof fn lemma_added(a: Seq<Op>, b: Seq<Op>, c: Seq<Op>, rest: Seq<Op>)
    requires
        a.is_prefix_of(b),
        b.is_prefix_of(c),
    ensures
        a.is_prefix_of(c),
        added(a, c) + rest == added(a, b) + (added(b, c) + rest),
{
    assert(added(a, c) + rest =~= added(a, b) + (added(b, c) + rest));
}

pub proof fn lemma_leads_on(a: Seq<Op>, b: Seq<Op>, c: Seq<Op>, s: Words, t: Words, u: Words)
    requires
        leads(a, b, s, t),
        leads(b, c, t, u),
    ensures
        leads(a, c, s, u),
{
    assert forall|rest: Seq<Op>| #[trigger] run(added(a, c) + rest, s) == run(rest, u) by {
        lemma_added(a, b, c, rest);
        assert(run(added(a, b) + (added(b, c) + rest), s) == run(added(b, c) + rest, t));
    }
    lemma_added(a, b, c, Seq::empty());
}

proof fn lemma_level_on(a: Seq<Op>, b: Seq<Op>, c: Seq<Op>)
    requires
        is_level(a, b),
        is_level(b, c),
    ensures
        is_level(a, c),
{
    assert forall|rest: Seq<Op>, first_part: bool, depth: nat| #[trigger]
        passed(added(a, c) + rest, first_part, depth) == passed(rest, first_part, depth) by {
        lemma_added(a, b, c, rest);
        assert(passed(added(a, b) + (added(b, c) + rest), first_part, depth) == passed(
            added(b, c) + rest,
            first_part,
            depth,
        ));
    }
    lemma_added(a, b, c, Seq::empty());
}

proof fn lemma_one(c: Seq<Op>, op: Op, rest: Seq<Op>)
    ensures
        c.is_prefix_of(c.push(op)),
        (added(c, c.push(op)) + rest).len() > 0,
        (added(c, c.push(op)) + rest)[0] == op,
        (added(c, c.push(op)) + rest).skip(1) == rest,
{
    assert(added(c, c.push(op)) =~= seq![op]);
    assert((added(c, c.push(op)) + rest).skip(1) =~= rest);
}

pub open spec fn is_plain(op: Op) -> bool {
    !(op is If) && !(op is Else) && !(op is End)
}

pub proof fn lemma_op(c: Seq<Op>, op: Op, s: Words)
    requires
        is_plain(op),
    ensures
        leads(c, c.push(op), s, step(op, s)),
        is_level(c, c.push(op)),
{
    assert forall|rest: Seq<Op>| #[trigger] run(added(c, c.push(op)) + rest, s) == run(
        rest,
        step(op, s),
    ) by {
        lemma_one(c, op, rest);
    }
    assert forall|rest: Seq<Op>, first_part: bool, depth: nat| #[trigger]
        passed(added(c, c.push(op)) + rest, first_part, depth) == passed(rest, first_part, depth) by {
        lemma_one(c, op, rest);
    }
    lemma_one(c, op, Seq::empty());
}

/// The conditional of an expression, once its condition is on the stack.
proof fn lemma_conditional(
    c: Seq<Op>,
    open: Op,
    x: Seq<Op>,
    y: Seq<Op>,
    s: Words,
    t: Words,
)
    requires
        open is If,
        is_level(c.push(open), x),
        is_level(x.push(Op::Else), y),
        s.top() != 0 ==> leads(c.push(open), x, s.pop(), t),
        s.top() == 0 ==> leads(x.push(Op::Else), y, s.pop(), t),
    ensures
        leads(c, y.push(Op::End), s, t),
        is_level(c, y.push(Op::End)),
{
    let a = c.push(open);
    let b = x.push(Op::Else);
    let d = y.push(Op::End);
    lemma_one(c, open, Seq::empty());
    lemma_one(x, Op::Else, Seq::empty());
    lemma_one(y, Op::End, Seq::empty());
    assert forall|rest: Seq<Op>| #[trigger] run(added(c, d) + rest, s) == run(rest, t) by {
        let after_else = added(b, y) + (added(y, d) + rest);
        let inside = added(a, x) + (added(x, b) + after_else);
        lemma_added(c, a, d, rest);
        lemma_added(a, x, d, rest);
        lemma_added(x, b, d, rest);
        lemma_added(b, y, d, rest);
        assert(added(c, d) + rest == added(c, a) + inside);
        lemma_one(c, open, inside);
        lemma_one(x, Op::Else, after_else);
        lemma_one(y, Op::End, rest);
        assert(passed(inside, true, 0) == passed(added(x, b) + after_else, true, 0));
        assert(passed(added(x, b) + after_else, true, 0) == after_else);
        assert(passed(after_else, false, 0) == passed(added(y, d) + rest, false, 0));
        assert(passed(added(y, d) + rest, false, 0) == rest);
        if s.top() != 0 {
            assert(run(inside, s.pop()) == run(added(x, b) + after_else, t));
            assert(run(added(x, b) + after_else, t) == run(rest, t));
        } else {
            assert(run(after_else, s.pop()) == run(added(y, d) + rest, t));
            assert(run(added(y, d) + rest, t) == run(rest, t));
        }
    }
    assert forall|rest: Seq<Op>, first_part: bool, depth: nat| #[trigger]
        passed(added(c, d) + rest, first_part, depth) == passed(rest, first_part, depth) by {
        let after_else = added(b, y) + (added(y, d) + rest);
        let inside = added(a, x) + (added(x, b) + after_else);
        lemma_added(c, a, d, rest);
        lemma_added(a, x, d, rest);
        lemma_added(x, b, d, rest);
        lemma_added(b, y, d, rest);
        assert(added(c, d) + rest == added(c, a) + inside);
        lemma_one(c, open, inside);
        lemma_one(x, Op::Else, after_else);
        lemma_one(y, Op::End, rest);
        let one = (depth + 1) as nat;
        assert(passed(added(c, a) + inside, first_part, depth) == passed(inside, first_part, one));
        assert(passed(inside, first_part, one) == passed(
            added(x, b) + after_else,
            first_part,
            one,
        ));
        assert(passed(added(x, b) + after_else, first_part, one) == passed(
            after_else,
            first_part,
            one,
        ));
        assert(passed(after_else, first_part, one) == passed(
            added(y, d) + rest,
            first_part,
            one,
        ));
    }
    lemma_added(c, a, d, Seq::empty());
}

/// The code of an expression does what the expression says, wherever it stands.
pub proof fn law_expressions_run(e: E, c: Seq<Op>, s: Words)
    ensures
        leads(c, e.code(c), s, e.done(s)),
        is_level(c, e.code(c)),
    decreases e,
{
    reveal_with_fuel(E::code, 1);
    match e {
        E::Top => {
            lemma_nothing(c, s);
        },
        E::Nothing => {
            lemma_nothing(c, s);
        },
        E::C(v) => {
            lemma_op(c, Op::ConstI32(v), s);
        },
        E::C64(v) => {
            lemma_op(c, Op::ConstI64(v), s);
        },
        E::CF64(v) => {
            lemma_op(c, Op::ConstF64(v), s);
        },
        E::L(x) => {
            lemma_op(c, Op::LocalGet(x), s);
        },
        E::Tee(x, e1) => {
            law_expressions_run(*e1, c, s);
            lemma_and_op(c, e1.code(c), Op::LocalTee(x), s, e1.done(s));
        },
        E::Un(u, e1) => {
            law_expressions_run(*e1, c, s);
            lemma_and_op(c, e1.code(c), Op::Un(u), s, e1.done(s));
        },
        E::Load(w, at, e1) => {
            law_expressions_run(*e1, c, s);
            lemma_and_op(c, e1.code(c), Op::Load(w, at), s, e1.done(s));
        },
        E::Call(name, sig, e1) => {
            law_expressions_run(*e1, c, s);
            lemma_and_op(c, e1.code(c), Op::Call(name, sig), s, e1.done(s));
        },
        E::Keep(x, e1) => {
            law_expressions_run(*e1, c, s);
            lemma_and_op(c, e1.code(c), Op::LocalSet(x), s, e1.done(s));
        },
        E::Bin(b, x, y) => {
            law_expressions_run(*x, c, s);
            law_expressions_run(*y, x.code(c), x.done(s));
            lemma_both(c, x.code(c), y.code(x.code(c)), s, x.done(s), y.done(x.done(s)));
            lemma_and_op(c, y.code(x.code(c)), Op::Bin(b), s, y.done(x.done(s)));
        },
        E::Both(x, y) => {
            law_expressions_run(*x, c, s);
            law_expressions_run(*y, x.code(c), x.done(s));
            lemma_both(c, x.code(c), y.code(x.code(c)), s, x.done(s), y.done(x.done(s)));
        },
        E::Select(x, y, cond) => {
            let cx = x.code(c);
            let cy = y.code(cx);
            let sx = x.done(s);
            let sy = y.done(sx);
            law_expressions_run(*x, c, s);
            law_expressions_run(*y, cx, sx);
            law_expressions_run(*cond, cy, sy);
            lemma_both(c, cx, cy, s, sx, sy);
            lemma_both(c, cy, cond.code(cy), s, sy, cond.done(sy));
            lemma_and_op(c, cond.code(cy), Op::Select, s, cond.done(sy));
        },
        E::If(t, cond, x, y) => {
            let cc = cond.code(c);
            let sc = cond.done(s);
            let open = Op::If(t, None);
            let cx = x.code(cc.push(open));
            let cy = y.code(cx.push(Op::Else));
            let end = if sc.top() != 0 {
                x.done(sc.pop())
            } else {
                y.done(sc.pop())
            };
            law_expressions_run(*cond, c, s);
            law_expressions_run(*x, cc.push(open), sc.pop());
            law_expressions_run(*y, cx.push(Op::Else), sc.pop());
            lemma_conditional(cc, open, cx, cy, sc, end);
            lemma_both(c, cc, cy.push(Op::End), s, sc, end);
        },
    }
}

proof fn lemma_nothing(c: Seq<Op>, s: Words)
    ensures
        leads(c, c, s, s),
        is_level(c, c),
{
    assert forall|rest: Seq<Op>| #[trigger] run(added(c, c) + rest, s) == run(rest, s) by {
        assert(added(c, c) + rest =~= rest);
    }
    assert forall|rest: Seq<Op>, first_part: bool, depth: nat| #[trigger]
        passed(added(c, c) + rest, first_part, depth) == passed(rest, first_part, depth) by {
        assert(added(c, c) + rest =~= rest);
    }
}

proof fn lemma_both(a: Seq<Op>, b: Seq<Op>, c: Seq<Op>, s: Words, t: Words, u: Words)
    requires
        leads(a, b, s, t),
        leads(b, c, t, u),
        is_level(a, b),
        is_level(b, c),
    ensures
        leads(a, c, s, u),
        is_level(a, c),
{
    lemma_leads_on(a, b, c, s, t, u);
    lemma_level_on(a, b, c);
}

proof fn lemma_and_op(a: Seq<Op>, b: Seq<Op>, op: Op, s: Words, t: Words)
    requires
        leads(a, b, s, t),
        is_level(a, b),
        is_plain(op),
    ensures
        leads(a, b.push(op), s, step(op, t)),
        is_level(a, b.push(op)),
{
    lemma_op(b, op, t);
    lemma_both(a, b, b.push(op), s, t, step(op, t));
}

/// Code that leads from one state to another ends there when it runs.
pub proof fn lemma_ends(before: Seq<Op>, after: Seq<Op>, s: Words, t: Words)
    requires
        leads(before, after, s, t),
    ensures
        run(added(before, after), s) == t,
{
    let none: Seq<Op> = Seq::empty();
    assert(run(added(before, after) + none, s) == run(none, t));
    assert(added(before, after) + none =~= added(before, after));
}

impl Words {
    /// The same locals and memory, with another stack.
    pub open spec fn on(self, stack: Seq<i32>) -> Words {
        Words { stack, ..self }
    }
}

/// The expression leaves a value on the stack, whatever is there, and the locals and memory of
/// the second state.
pub open spec fn evaluates(e: E, s: Words, v: i32, t: Words) -> bool {
    forall|k: Seq<i32>| #[trigger] e.done(s.on(k)) == t.on(k.push(v))
}

proof fn lemma_push_pop(k: Seq<i32>, u: i32, v: i32)
    ensures
        k.push(u).drop_last() == k,
        k.push(u).last() == u,
        k.push(u).push(v).drop_last() == k.push(u),
        k.push(u).push(v).last() == v,
{
    assert(k.push(u).drop_last() =~= k);
    assert(k.push(u).push(v).drop_last() =~= k.push(u));
}

pub proof fn evaluate_constant(v: i32, s: Words)
    ensures
        evaluates(E::C(v), s, v, s),
{
}

pub proof fn evaluate_local(x: usize, s: Words)
    ensures
        evaluates(E::L(x), s, s.locals[x], s),
{
}

pub proof fn evaluate_flag(f: Option<FlagLocals>, slot: FlagSlot, s: Words)
    ensures
        evaluates(E::flag(f, slot), s, s.flag(f, slot), s),
{
    reveal(E::flag);
    reveal_with_fuel(E::done, 2);
    let address = crate::wasm::flag_address(slot);
    assert forall|k: Seq<i32>| #[trigger] E::flag(f, slot).done(s.on(k)) == s.on(
        k.push(s.flag(f, slot)),
    ) by {
        match f {
            Some(l) => {},
            None => {
                let e = E::C(address as i32);
                lemma_push_pop(k, address as i32, 0);
                assert(e.done(s.on(k)) == s.on(k).push(address as i32));
                assert(((address as i32) as u32).wrapping_add(0) == address);
                assert(s.on(k).push(address as i32).pop() == s.on(k));
            },
        }
    }
}

pub proof fn evaluate_bin(b: Bin, x: E, y: E, s: Words, u: i32, t: Words, v: i32, w: Words)
    requires
        !(b is AddI64),
        evaluates(x, s, u, t),
        evaluates(y, t, v, w),
    ensures
        evaluates(x.bin(b, y), s, binary(b, u, v), w),
{
    reveal_with_fuel(E::done, 2);
    let e = x.bin(b, y);
    assert forall|k: Seq<i32>| #[trigger] e.done(s.on(k)) == w.on(k.push(binary(b, u, v))) by {
        lemma_push_pop(k, u, v);
        assert(x.done(s.on(k)) == t.on(k.push(u)));
        assert(y.done(t.on(k.push(u))) == w.on(k.push(u).push(v)));
        assert(w.on(k.push(u).push(v)).pop().pop() == w.on(k));
    }
}

/// A constant right operand.
pub proof fn evaluate_binc(b: Bin, x: E, c: i32, s: Words, u: i32, t: Words)
    requires
        !(b is AddI64),
        evaluates(x, s, u, t),
    ensures
        evaluates(x.binc(b, c), s, binary(b, u, c), t),
{
    evaluate_constant(c, t);
    evaluate_bin(b, x, E::C(c), s, u, t, c, t);
}

pub proof fn evaluate_eqz(x: E, s: Words, u: i32, t: Words)
    requires
        evaluates(x, s, u, t),
    ensures
        evaluates(x.eqz(), s, truth(u == 0), t),
{
    reveal_with_fuel(E::done, 2);
    let e = x.eqz();
    assert forall|k: Seq<i32>| #[trigger] e.done(s.on(k)) == t.on(k.push(truth(u == 0))) by {
        lemma_push_pop(k, u, 0);
        assert(x.done(s.on(k)) == t.on(k.push(u)));
        assert(t.on(k.push(u)).pop() == t.on(k));
    }
}

pub proof fn evaluate_load(x: E, w: Width, at: u32, s: Words, u: i32, t: Words)
    requires
        !is_wide(w),
        evaluates(x, s, u, t),
    ensures
        evaluates(x.load(w, at), s, narrowed(w, t.memory[(u as u32).wrapping_add(at)]), t),
{
    reveal_with_fuel(E::done, 2);
    let e = x.load(w, at);
    let v = narrowed(w, t.memory[(u as u32).wrapping_add(at)]);
    assert forall|k: Seq<i32>| #[trigger] e.done(s.on(k)) == t.on(k.push(v)) by {
        lemma_push_pop(k, u, 0);
        assert(x.done(s.on(k)) == t.on(k.push(u)));
        assert(t.on(k.push(u)).pop() == t.on(k));
    }
}

/// What is left of a truth value that is inverted where `negate` holds.
pub open spec fn inverted(negate: bool, u: i32) -> i32 {
    if negate {
        truth(u == 0)
    } else {
        u
    }
}

pub proof fn evaluate_eqz_if(x: E, negate: bool, s: Words, u: i32, t: Words)
    requires
        evaluates(x, s, u, t),
    ensures
        evaluates(x.eqz_if(negate), s, inverted(negate, u), t),
{
    reveal(E::eqz_if);
    if negate {
        evaluate_eqz(x, s, u, t);
    }
}

pub proof fn evaluate_tee(x: E, l: usize, s: Words, u: i32, t: Words)
    requires
        evaluates(x, s, u, t),
    ensures
        evaluates(x.tee(l), s, u, t.set(l, u)),
{
    reveal_with_fuel(E::done, 2);
    let e = x.tee(l);
    assert forall|k: Seq<i32>| #[trigger] e.done(s.on(k)) == t.set(l, u).on(k.push(u)) by {
        lemma_push_pop(k, u, 0);
        assert(x.done(s.on(k)) == t.on(k.push(u)));
    }
}

/// A local takes a value before another is computed.
pub proof fn evaluate_kept(x: E, l: usize, y: E, s: Words, u: i32, t: Words, v: i32, w: Words)
    requires
        evaluates(x, s, u, t),
        evaluates(y, t.set(l, u), v, w),
    ensures
        evaluates(x.keep(l).both(y), s, v, w),
{
    reveal_with_fuel(E::done, 3);
    let e = x.keep(l).both(y);
    assert forall|k: Seq<i32>| #[trigger] e.done(s.on(k)) == w.on(k.push(v)) by {
        lemma_push_pop(k, u, 0);
        assert(x.done(s.on(k)) == t.on(k.push(u)));
        assert(t.on(k.push(u)).pop() == t.on(k));
        assert(x.keep(l).done(s.on(k)) == t.set(l, u).on(k));
        assert(y.done(t.set(l, u).on(k)) == w.on(k.push(v)));
    }
}

pub proof fn evaluate_choice(c: E, x: E, y: E, s: Words, u: i32, t: Words, v: i32, w: Words)
    requires
        evaluates(c, s, u, t),
        u != 0 ==> evaluates(x, t, v, w),
        u == 0 ==> evaluates(y, t, v, w),
    ensures
        evaluates(c.choose_i32(x, y), s, v, w),
{
    reveal_with_fuel(E::done, 2);
    let e = c.choose_i32(x, y);
    assert forall|k: Seq<i32>| #[trigger] e.done(s.on(k)) == w.on(k.push(v)) by {
        lemma_push_pop(k, u, 0);
        assert(c.done(s.on(k)) == t.on(k.push(u)));
        assert(t.on(k.push(u)).pop() == t.on(k));
        if u != 0 {
            assert(x.done(t.on(k)) == w.on(k.push(v)));
        } else {
            assert(y.done(t.on(k)) == w.on(k.push(v)));
        }
    }
}

/// An expression that is added to code leaves its value.
pub proof fn lemma_val(e: Emit, x: E, s: Words, v: i32, t: Words)
    requires
        evaluates(x, s, v, t),
    ensures
        leads(e.code, e.val(x).code, s, t.on(s.stack.push(v))),
{
    reveal(Emit::val);
    law_expressions_run(x, e.code, s);
    assert(s.on(s.stack) == s);
    assert(x.done(s.on(s.stack)) == t.on(s.stack.push(v)));
}

impl Words {
    /// With the 64-bit counter at an address one up.
    pub open spec fn counted(self, address: u32) -> Words {
        Words {
            memory: stored_wide(
                self.memory,
                address,
                wide_at(self.memory, address).wrapping_add(1),
            ),
            ..self
        }
    }
}

/// The address of a counter and the value that is one up.
pub open spec fn count_operands(address: u32) -> E {
    E::C(address as i32).both(E::fixed(Width::A64, address).bin(Bin::AddI64, E::C64(1)))
}

/// The operands of a counter and the store behind them count it up.
pub proof fn lemma_count_done(address: u32, s: Words)
    ensures
        step(Op::Store(Width::A64, 0), count_operands(address).done(s)) == s.counted(address),
{
    reveal_with_fuel(E::done, 6);
    let at = E::C(address as i32);
    let value = E::fixed(Width::A64, address).bin(Bin::AddI64, E::C64(1));
    let x = at.both(value);
    let a = address as i32;
    bits_of_bytes(0, 0i32 as u32, address);
    assert((a as u32).wrapping_add(0) == address);
    let old_value = wide_at(s.memory, address);
    assert(E::fixed(Width::A64, address) == E::C(a).load(Width::A64, 0));
    let s1 = s.push(a);
    assert(at.done(s) == s1);
    let s2 = s1.push(a);
    assert(s2.pop() == s1) by {
        assert(s2.stack.drop_last() =~= s1.stack);
    }
    let s3 = s1.push_wide(old_value);
    assert(E::fixed(Width::A64, address).done(s1) == s3);
    let s4 = s3.push_wide(1);
    assert(s4.wide.drop_last() =~= s3.wide);
    assert(s3.wide.drop_last() =~= s.wide);
    let s5 = s1.push_wide(old_value.wrapping_add(1));
    assert(value.done(s1) == s5);
    assert(x.done(s) == s5);
    let end = step(Op::Store(Width::A64, 0), s5);
    assert(s5.stack.drop_last() =~= s.stack);
    assert(s5.wide.drop_last() =~= s.wide);
    assert(end == s.counted(address));
}

/// A counter is counted up, and nothing else changes.
pub proof fn lemma_count(e: Emit, address: u32, s: Words)
    ensures
        leads(e.code, e.count(address).code, s, s.counted(address)),
        is_level(e.code, e.count(address).code),
        e.count(address) == (Emit { code: e.count(address).code, ..e }),
{
    reveal(Emit::val);
    reveal(Emit::op);
    let x = count_operands(address);
    lemma_count_done(address, s);
    law_expressions_run(x, e.code, s);
    lemma_and_op(e.code, e.val(x).code, Op::Store(Width::A64, 0), s, x.done(s));
}

} // verus!
