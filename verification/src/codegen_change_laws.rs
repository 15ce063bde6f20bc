//! What the code of a memory read does that is followed by a write to the same place.
use vstd::prelude::*;
use crate::codegen_mem::BitSize;
use crate::codegen_mem_laws;
use crate::codegen_read_laws;
use crate::codegen_write_laws;
use crate::cpu_state::PAGE_MASK;
use crate::jit_context::Ctx;
use crate::wasm::{BlockType, Emit, Op, Sig, E, HINT_GROUP_MEM, HINT_LIKELY};
use crate::wasm_flow;
use crate::wasm_flow::Helpers;
use crate::wasm_run;
use crate::wasm_run::Words;

verus! {

/// The translation table is asked; a local keeps the answer, and a direct access leaves the
/// block.
spec fn asked(c: Ctx, bits: BitSize, a: usize) -> Emit {
    c.e.block().take_i32().take_i32().val(
        c.direct(a, c.e.next_i32(), c.write_mask(), bits).tee(c.read_write_fast()),
    ).op(Op::BrIf(c.e.label(), c.e.hint(HINT_GROUP_MEM, HINT_LIKELY)))
}

spec fn checked(c: Ctx, bits: BitSize, a: usize) -> Emit {
    codegen_write_laws::answered(
        c,
        c.e.next_i32(),
        codegen_read_laws::helper_called(
            c,
            bits.read_write_helper(),
            a,
            codegen_write_laws::dropped(c, asked(c, bits, a)),
        ),
    )
}

spec fn opened(c: Ctx, bits: BitSize, a: usize) -> Emit {
    checked(c, bits, a).end().val(E::host(a, c.e.next_i32())).op(
        Op::LocalTee(c.read_write_phys(bits, a)),
    ).op(Op::Load(bits.width(), 0))
}

proof fn lemma_shape(c: Ctx, bits: BitSize, a: usize)
    requires
        codegen_write_laws::is_plain_write(c, bits),
    ensures
        c.read_write_opened(bits, a).e.code == opened(c, bits, a).code,
{
    broadcast use crate::wasm::group_code;

    reveal(Ctx::read_write_translated);
    reveal(Emit::report_slow);
    reveal(Emit::fault_check);
    reveal(Emit::profile);
    reveal(Emit::give_i32);
    reveal(Emit::take_i32);
}

/// The locals of a read followed by a write are apart, and it stands inside the block that the
/// unit's fault exit leaves.
pub open spec fn stands_in(c: Ctx, after: Seq<Op>, a: usize, code: Seq<Op>) -> bool {
    &&& codegen_read_laws::stands_in(c, after, code)
    &&& a != c.e.next_i32()
    &&& a != c.read_write_fast()
    &&& c.e.next_i32() != c.read_write_fast()
    &&& codegen_write_laws::cache_is_apart(c, a)
    &&& codegen_write_laws::cache_is_apart(c, c.e.next_i32())
    &&& codegen_write_laws::cache_is_apart(c, c.read_write_fast())
}

/// The end of a translation: the place is kept, and its value is loaded.
proof fn lemma_opened(c: Ctx, bits: BitSize, a: usize, code: Seq<Op>, t: Words, h: Helpers)
    requires
        !wasm_run::is_wide(bits.width()),
        opened(c, bits, a).code.is_prefix_of(code),
    ensures
        checked(c, bits, a).end().code.is_prefix_of(code),
        checked(c, bits, a).end().code.len() < opened(c, bits, a).code.len(),
        ({
            let at = (t.locals[c.e.next_i32()] & PAGE_MASK) ^ t.locals[a];
            wasm_flow::goes(code, checked(c, bits, a).end().code.len() as int, t, h)
                == wasm_flow::goes(
                code,
                opened(c, bits, a).code.len() as int,
                t.set(c.read_write_phys(bits, a), at).push(
                    wasm_run::narrowed(bits.width(), t.memory[at as u32]),
                ),
                h,
            )
        }),
{
    let entry = c.e.next_i32();
    let phys = c.read_write_phys(bits, a);
    let e = checked(c, bits, a).end();
    let host = E::host(a, entry);
    let at = (t.locals[entry] & PAGE_MASK) ^ t.locals[a];
    let load = Op::Load(bits.width(), 0);
    let kept = e.val(host).op(Op::LocalTee(phys));
    let w = t.set(phys, at);
    wasm_flow::lemma_op_stands(kept, load, code);
    wasm_flow::lemma_op_stands(e.val(host), Op::LocalTee(phys), code);
    wasm_flow::lemma_val_stands(e, host, code, false, 0);
    codegen_read_laws::lemma_calls_nothing(c, a, entry, 0, bits);
    codegen_mem_laws::evaluate_host(a, entry, t);
    wasm_flow::lemma_val(e, host, t, at, t, code, h);
    let pushed = w.push(at);
    assert(wasm_run::step(Op::LocalTee(phys), t.on(t.stack.push(at))) == pushed);
    assert(wasm_flow::goes(code, kept.code.len() as int, pushed, h) == wasm_flow::goes(
        code,
        opened(c, bits, a).code.len() as int,
        wasm_run::step(load, pushed),
        h,
    ));
    assert((at as u32).wrapping_add(0) == at as u32);
    assert(pushed.stack.drop_last() =~= t.stack);
    assert(pushed.pop() == w);
}

/// The code that begins a read followed by a write keeps where the value lies and pushes the
/// value: at the place that the translation entry of the page names, where the entry allows
/// writes and the access stays inside the page, and else at the place that the helper names. It
/// keeps which of the two it was. Where the helper reports a fault, the unit is left by its
/// fault exit.
#[verifier::spinoff_prover]
pub proof fn law_changes_begin_with_a_read(
    c: Ctx,
    bits: BitSize,
    a: usize,
    code: Seq<Op>,
    s: Words,
    h: Helpers,
)
    requires
        codegen_write_laws::is_plain_write(c, bits),
        stands_in(c, c.read_write_opened(bits, a).e.code, a, code),
    ensures
        ({
            let entry = c.e.next_i32();
            let phys = c.read_write_phys(bits, a);
            let address = s.locals[a];
            let word = codegen_mem_laws::translation(c, address, s);
            let direct = codegen_mem_laws::is_direct(c, c.write_mask(), address, bits, s);
            let told = s.set(entry, word).set(c.read_write_fast(), wasm_run::truth(direct));
            let (answer, memory) = codegen_read_laws::answer_of(
                c,
                bits.read_write_helper(),
                address,
                s.memory,
                h,
            );
            let replied = Words { memory, ..codegen_write_laws::cache_dropped(c, told) }.set(
                entry,
                answer,
            );
            let t = if direct {
                told
            } else {
                replied
            };
            let at = (t.locals[entry] & PAGE_MASK) ^ address;
            let ran = wasm_flow::goes(code, c.e.code.len() as int, s, h);
            if direct || answer & 1 == 0 {
                &&& at as u32 == codegen_mem_laws::place(
                    t.locals[entry],
                    address,
                    c.st.env.mem8,
                )
                &&& ran == wasm_flow::goes(
                    code,
                    c.read_write_opened(bits, a).e.code.len() as int,
                    t.set(phys, at).push(
                        wasm_run::narrowed(bits.width(), t.memory[at as u32]),
                    ),
                    h,
                )
            } else {
                ran == wasm_flow::goes(
                    code,
                    wasm_flow::exit_of(code, c.st.exit_with_fault_label),
                    t,
                    h,
                )
            }
        }),
{
    let entry = c.e.next_i32();
    let fast = c.read_write_fast();
    let address = s.locals[a];
    let word = codegen_mem_laws::translation(c, address, s);
    let direct = codegen_mem_laws::is_direct(c, c.write_mask(), address, bits, s);
    let v = wasm_run::truth(direct);
    let named = s.set(entry, word);
    let told = named.set(fast, v);
    let apart = codegen_write_laws::cache_dropped(c, told);
    let name = bits.read_write_helper();
    let (answer, memory) = codegen_read_laws::answer_of(c, name, address, s.memory, h);
    let u = Words { memory, ..apart };
    let replied = u.set(entry, answer);
    let e1 = c.e.block().take_i32().take_i32();
    let first = c.direct(a, entry, c.write_mask(), bits);
    let question = first.tee(fast);
    let branch = Op::BrIf(c.e.label(), c.e.hint(HINT_GROUP_MEM, HINT_LIKELY));
    let e2 = asked(c, bits, a);
    let e3 = codegen_write_laws::dropped(c, e2);
    let operands = E::L(a).both(c.here());
    let e4 = codegen_read_laws::helper_called(c, name, a, e3);
    let e5 = checked(c, bits, a);
    reveal(Emit::take_i32);
    reveal(Emit::label);
    lemma_shape(c, bits, a);
    lemma_opened(c, bits, a, code, told, h);
    lemma_opened(c, bits, a, code, replied, h);
    wasm_flow::lemma_op_stands(e5, Op::End, code);
    codegen_write_laws::lemma_answered(c, entry, e4, code, u, answer, h);
    wasm_flow::lemma_op_stands(e3.val(operands), Op::Call(name, Sig::Fn2Ret), code);
    wasm_flow::lemma_val_stands(e3, operands, code, false, 0);
    codegen_read_laws::lemma_helped(c, name, a, e3, code, apart, h);
    codegen_write_laws::lemma_dropped(c, e2, code, told, h);
    wasm_flow::lemma_op_stands(e1.val(question), branch, code);
    wasm_flow::lemma_val_stands(e1, question, code, false, 0);
    wasm_flow::lemma_op_stands(c.e, Op::Block(BlockType::Void), code);
    // The branch for a direct access goes behind the block.
    assert(wasm_flow::behind(code, e5.code.len() as int, false, 0) == e5.end().code.len());
    assert(wasm_flow::behind(code, e4.code.len() as int, false, 0) == e5.end().code.len());
    assert(wasm_flow::behind(code, e3.val(operands).code.len() as int, false, 0)
        == e5.end().code.len());
    assert(wasm_flow::behind(code, e2.code.len() as int, false, 0) == e5.end().code.len());
    assert(wasm_flow::behind(code, e1.val(question).code.len() as int, false, 0)
        == e5.end().code.len());
    assert(c.e.label().0 == c.e.code.len());
    assert(wasm_flow::exit_of(code, c.e.label()) == e5.end().code.len());
    // The question.
    codegen_mem_laws::evaluate_direct(c, a, entry, c.write_mask(), bits, s);
    wasm_run::evaluate_tee(first, fast, s, v, named);
    codegen_read_laws::lemma_calls_nothing(c, a, entry, c.write_mask(), bits);
    reveal_with_fuel(wasm_flow::calls_nothing, 2);
    wasm_flow::lemma_val(e1, question, s, v, told, code, h);
    let pushed = told.on(s.stack.push(v));
    assert(pushed.stack.drop_last() =~= s.stack);
    assert(pushed.pop() == told);
    assert(pushed.top() == v);
    assert(wasm_flow::goes(code, e1.val(question).code.len() as int, pushed, h)
        == wasm_flow::goes(
        code,
        if direct {
            e5.end().code.len() as int
        } else {
            e2.code.len() as int
        },
        told,
        h,
    ));
    assert(wasm_flow::goes(code, e5.code.len() as int, replied, h) == wasm_flow::goes(
        code,
        e5.end().code.len() as int,
        replied,
        h,
    ));
    codegen_mem_laws::lemma_place(word, address, c.st.env.mem8);
    codegen_mem_laws::lemma_place(answer, address, c.st.env.mem8);
}

/// The value is in its local, and an access that was not direct is looked at.
spec fn looked_at(c: Ctx, fast: usize) -> Emit {
    c.e.take_i32().op(Op::LocalSet(c.e.next_i32())).val(E::L(fast).eqz()).op(
        Op::If(BlockType::Void, None),
    )
}

/// The helper sees the value of such an access.
spec fn seen(c: Ctx, bits: BitSize, a: usize, fast: usize) -> Emit {
    codegen_write_laws::helped(c, bits, a, c.e.next_i32(), looked_at(c, fast)).op(Op::Drop).end()
}

spec fn written(c: Ctx, bits: BitSize, a: usize, fast: usize, phys: usize) -> Emit {
    seen(c, bits, a, fast).val(E::L(phys).both(E::L(c.e.next_i32()))).op(
        Op::Store(bits.width(), 0),
    )
}

proof fn lemma_written_shape(c: Ctx, bits: BitSize, a: usize, fast: usize, phys: usize)
    requires
        codegen_write_laws::is_plain_write(c, bits),
        !c.e.opt.debug_checks,
    ensures
        c.read_write_closed(bits, a, fast, phys).e.code == written(c, bits, a, fast, phys).code,
{
    broadcast use crate::wasm::group_code;

    reveal(Ctx::read_write_closed);
    reveal(Emit::give_i32);
}

/// The code that ends a read followed by a write stores the value on the stack where the value
/// was read. An access that was not direct shows it to the helper first.
#[verifier::spinoff_prover]
pub proof fn law_changes_end_with_a_write(
    c: Ctx,
    bits: BitSize,
    a: usize,
    fast: usize,
    phys: usize,
    code: Seq<Op>,
    s: Words,
    v: i32,
    h: Helpers,
)
    requires
        codegen_write_laws::is_plain_write(c, bits),
        !c.e.opt.debug_checks,
        a != c.e.next_i32(),
        fast != c.e.next_i32(),
        phys != c.e.next_i32(),
        c.read_write_closed(bits, a, fast, phys).e.code.is_prefix_of(code),
    ensures
        ({
            let (answer, memory) = codegen_write_laws::asked_of(
                c,
                bits,
                s.locals[a],
                v,
                s.memory,
                h,
            );
            let before = if s.locals[fast] != 0 {
                s.memory
            } else {
                memory
            };
            wasm_flow::goes(code, c.e.code.len() as int, s.push(v), h) == wasm_flow::goes(
                code,
                c.read_write_closed(bits, a, fast, phys).e.code.len() as int,
                Words {
                    memory: wasm_run::stored(bits.width(), before, s.locals[phys] as u32, v),
                    ..s.set(c.e.next_i32(), v)
                },
                h,
            )
        }),
{
    let x = c.e.next_i32();
    let (answer, memory) = codegen_write_laws::asked_of(c, bits, s.locals[a], v, s.memory, h);
    let e1 = c.e.take_i32();
    let f1 = e1.op(Op::LocalSet(x));
    let question = E::L(fast).eqz();
    let f2 = looked_at(c, fast);
    let operands = E::L(a).both(E::L(x)).both(c.here());
    let name = bits.write_helper().0;
    let f3 = codegen_write_laws::helped(c, bits, a, x, f2);
    let f4 = f3.op(Op::Drop);
    let f5 = seen(c, bits, a, fast);
    let both = E::L(phys).both(E::L(x));
    let store = Op::Store(bits.width(), 0);
    let t = s.set(x, v);
    let slow = wasm_run::truth(s.locals[fast] == 0);
    reveal(Emit::take_i32);
    reveal_with_fuel(wasm_flow::calls_nothing, 4);
    lemma_written_shape(c, bits, a, fast, phys);
    wasm_flow::lemma_op_stands(f5.val(both), store, code);
    wasm_flow::lemma_val_stands(f5, both, code, false, 0);
    wasm_flow::lemma_op_stands(f4, Op::End, code);
    wasm_flow::lemma_op_stands(f3, Op::Drop, code);
    wasm_flow::lemma_op_stands(f2.val(operands), Op::Call(name, Sig::Fn3Ret), code);
    wasm_flow::lemma_val_stands(f2, operands, code, true, 0);
    wasm_flow::lemma_op_stands(f1.val(question), Op::If(BlockType::Void, None), code);
    wasm_flow::lemma_val_stands(f1, question, code, true, 0);
    wasm_flow::lemma_op_stands(e1, Op::LocalSet(x), code);
    assert(wasm_flow::behind(code, f4.code.len() as int, true, 0) == f5.code.len());
    assert(wasm_flow::behind(code, f3.code.len() as int, true, 0) == f5.code.len());
    assert(wasm_flow::behind(code, f2.val(operands).code.len() as int, true, 0)
        == f5.code.len());
    // The value and the question.
    assert(s.push(v).stack.drop_last() =~= s.stack);
    assert(wasm_run::step(Op::LocalSet(x), s.push(v)) == t);
    assert(wasm_flow::goes(code, e1.code.len() as int, s.push(v), h) == wasm_flow::goes(
        code,
        f1.code.len() as int,
        t,
        h,
    ));
    wasm_run::evaluate_local(fast, t);
    wasm_run::evaluate_eqz(E::L(fast), t, s.locals[fast], t);
    wasm_flow::lemma_val(f1, question, t, slow, t, code, h);
    let told = t.on(t.stack.push(slow));
    assert(told.stack.drop_last() =~= t.stack);
    assert(told.pop() == t);
    assert(told.top() == slow);
    let u = if s.locals[fast] != 0 {
        t
    } else {
        Words { memory, ..t }
    };
    if s.locals[fast] == 0 {
        let replied = u.push(answer);
        codegen_write_laws::lemma_helped(c, bits, a, x, f2, code, t, h);
        assert(wasm_flow::goes(code, f1.val(question).code.len() as int, told, h)
            == wasm_flow::goes(code, f2.code.len() as int, t, h));
        assert(replied.stack.drop_last() =~= u.stack);
        assert(replied.pop() == u);
        assert(wasm_flow::goes(code, f3.code.len() as int, replied, h) == wasm_flow::goes(
            code,
            f4.code.len() as int,
            u,
            h,
        ));
        assert(wasm_flow::goes(code, f4.code.len() as int, u, h) == wasm_flow::goes(
            code,
            f5.code.len() as int,
            u,
            h,
        ));
    } else {
        assert(wasm_flow::goes(code, f1.val(question).code.len() as int, told, h)
            == wasm_flow::goes(code, f5.code.len() as int, t, h));
    }
    // The store.
    let at = s.locals[phys];
    reveal(Emit::val);
    reveal_with_fuel(E::done, 3);
    wasm_flow::lemma_expression(both, f5.code, code, u, h);
    let one = u.push(at);
    let two = one.push(v);
    assert(both.done(u) == two);
    assert(two.stack.drop_last() =~= one.stack);
    assert(one.stack.drop_last() =~= u.stack);
    assert(two.below() == at);
    assert(two.pop().pop() == u);
    assert((at as u32).wrapping_add(0) == at as u32);
}

} // verus!
