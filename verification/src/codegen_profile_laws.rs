//! What the code of a memory access does in a build that counts.
use vstd::prelude::*;
use crate::codegen_mem::{BitSize, GenSafeWriteValue};
use crate::codegen_mem_laws;
use crate::codegen_read_laws;
use crate::codegen_write_laws;
use crate::cpu_state::{Stat, PAGE_MASK};
use crate::jit_context::Ctx;
use crate::wasm::{
    Bin, BlockType, Emit, Op, Sig, WasmLocal, E, HINT_GROUP_MEM, HINT_LIKELY, HINT_UNLIKELY,
};
use crate::wasm_flow;
use crate::wasm_flow::Helpers;
use crate::wasm_run;
use crate::wasm_run::Words;

verus! {

/// The profiler hears of an address and a translation entry.
spec fn reported(name: &'static str, a: usize, w: E, e: Emit) -> Emit {
    e.val(E::L(a).both(w)).op(Op::Call(name, Sig::Fn2))
}

/// A helper's answer is kept and tested for a fault.
spec fn tested(entry: usize, e: Emit) -> Emit {
    e.val(E::Top.tee(entry).and(1)).op(Op::If(BlockType::Void, None))
}

/// The profiler hears where the unit is left.
spec fn told(c: Ctx, entry: usize, e: Emit) -> Emit {
    tested(entry, e).val(E::C(c.st.start_of_current_instruction as i32)).op(
        Op::Call("track_jit_exit", Sig::Fn1),
    )
}

/// A fault leaves the unit.
spec fn answered(c: Ctx, entry: usize, e: Emit) -> Emit {
    told(c, entry, e).end().val(E::L(entry).and(1)).op(
        Op::BrIf(c.st.exit_with_fault_label, e.hint(HINT_GROUP_MEM, HINT_UNLIKELY)),
    )
}

/// The memory that the profiler leaves when it hears of a slow access.
pub open spec fn report_heard(
    name: &'static str,
    address: i32,
    word: i32,
    memory: Map<u32, i32>,
    h: Helpers,
) -> Map<u32, i32> {
    (h.answer)(name, seq![address, word], memory).1
}

/// The memory that the profiler leaves when it hears that the unit is left.
pub open spec fn exit_heard(c: Ctx, memory: Map<u32, i32>, h: Helpers) -> Map<u32, i32> {
    (h.answer)("track_jit_exit", seq![c.st.start_of_current_instruction as i32], memory).1
}

#[verifier::spinoff_prover]
proof fn lemma_reported(
    name: &'static str,
    a: usize,
    w: E,
    e: Emit,
    code: Seq<Op>,
    t: Words,
    word: i32,
    h: Helpers,
)
    requires
        reported(name, a, w, e).code.is_prefix_of(code),
        w == E::C(word) || (w is L && t.locals[w->L_0] == word),
    ensures
        e.code.is_prefix_of(code),
        e.code.len() < reported(name, a, w, e).code.len(),
        wasm_flow::is_level(code, e.code.len() as int, reported(name, a, w, e).code.len() as int),
        wasm_flow::goes(code, e.code.len() as int, t, h) == wasm_flow::goes(
            code,
            reported(name, a, w, e).code.len() as int,
            Words { memory: report_heard(name, t.locals[a], word, t.memory, h), ..t },
            h,
        ),
{
    let pair = E::L(a).both(w);
    let address = t.locals[a];
    wasm_flow::lemma_op_stands(e.val(pair), Op::Call(name, Sig::Fn2), code);
    wasm_flow::lemma_val_stands(e, pair, code, false, 0);
    wasm_flow::lemma_val_is_level(e, pair, code);
    reveal(Emit::val);
    reveal_with_fuel(E::done, 4);
    reveal_with_fuel(wasm_flow::calls_nothing, 4);
    wasm_flow::lemma_expression(pair, e.code, code, t, h);
    let both = t.push(address).push(word);
    assert(pair.done(t) == both);
    assert(both.stack.drop_last() =~= t.stack.push(address));
    assert(both.stack.drop_last().drop_last() =~= t.stack);
    let memory = report_heard(name, address, word, t.memory, h);
    assert(wasm_flow::called(name, Sig::Fn2, both, h) == Words { memory, ..t });
}

/// Every part of the test for a fault stands where it was added, and closes all that it opens.
#[verifier::spinoff_prover]
proof fn lemma_stages(c: Ctx, entry: usize, e: Emit, code: Seq<Op>)
    requires
        answered(c, entry, e).code.is_prefix_of(code),
    ensures
        e.code.is_prefix_of(code),
        tested(entry, e).code.is_prefix_of(code),
        told(c, entry, e).code.is_prefix_of(code),
        told(c, entry, e).end().code.is_prefix_of(code),
        e.code.len() < tested(entry, e).code.len() <= told(c, entry, e).code.len(),
        told(c, entry, e).code.len() < answered(c, entry, e).code.len(),
        wasm_flow::behind(code, tested(entry, e).code.len() as int, true, 0) == told(
            c,
            entry,
            e,
        ).end().code.len(),
        wasm_flow::is_level(code, e.code.len() as int, answered(c, entry, e).code.len() as int),
{
    let start = E::C(c.st.start_of_current_instruction as i32);
    let kept = E::Top.tee(entry).and(1);
    let again = E::L(entry).and(1);
    let t = tested(entry, e);
    let g = told(c, entry, e);
    let k = g.end();
    let n = answered(c, entry, e);
    wasm_flow::lemma_op_stands(
        k.val(again),
        Op::BrIf(c.st.exit_with_fault_label, e.hint(HINT_GROUP_MEM, HINT_UNLIKELY)),
        code,
    );
    wasm_flow::lemma_val_stands(k, again, code, false, 0);
    wasm_flow::lemma_val_is_level(k, again, code);
    wasm_flow::lemma_op_stands(g, Op::End, code);
    wasm_flow::lemma_op_stands(t.val(start), Op::Call("track_jit_exit", Sig::Fn1), code);
    wasm_flow::lemma_val_stands(t, start, code, true, 0);
    wasm_flow::lemma_val_is_level(t, start, code);
    wasm_flow::lemma_op_stands(e.val(kept), Op::If(BlockType::Void, None), code);
    wasm_flow::lemma_val_stands(e, kept, code, false, 0);
    wasm_flow::lemma_val_is_level(e, kept, code);
    assert(wasm_flow::behind(code, g.code.len() as int, true, 0) == k.code.len());
    assert(wasm_flow::behind(code, t.val(start).code.len() as int, true, 0) == k.code.len());
    assert forall|first_part: bool, depth: nat| #[trigger]
        wasm_flow::behind(code, e.code.len() as int, first_part, depth) == wasm_flow::behind(
            code,
            n.code.len() as int,
            first_part,
            depth,
        ) by {
        let end = wasm_flow::behind(code, n.code.len() as int, first_part, depth);
        let d = depth + 1;
        assert(wasm_flow::behind(code, k.val(again).code.len() as int, first_part, depth) == end);
        assert(wasm_flow::behind(code, k.code.len() as int, first_part, depth) == end);
        assert(wasm_flow::behind(code, g.code.len() as int, first_part, d) == end);
        assert(wasm_flow::behind(code, t.val(start).code.len() as int, first_part, d) == end);
        assert(wasm_flow::behind(code, t.code.len() as int, first_part, d) == end);
        assert(wasm_flow::behind(code, e.val(kept).code.len() as int, first_part, depth) == end);
    }
}

/// The helper's answer is kept, and a fault goes on to be told.
#[verifier::spinoff_prover]
proof fn lemma_tested(
    c: Ctx,
    entry: usize,
    e: Emit,
    code: Seq<Op>,
    u: Words,
    answer: i32,
    h: Helpers,
)
    requires
        answered(c, entry, e).code.is_prefix_of(code),
    ensures
        wasm_flow::goes(code, e.code.len() as int, u.push(answer), h) == wasm_flow::goes(
            code,
            if answer & 1 != 0 {
                tested(entry, e).code.len() as int
            } else {
                told(c, entry, e).end().code.len() as int
            },
            u.set(entry, answer),
            h,
        ),
{
    let x = E::Top.tee(entry).and(1);
    let w = u.set(entry, answer);
    let replied = u.push(answer);
    let kept = w.push(answer);
    let flag = w.push(answer & 1);
    lemma_stages(c, entry, e, code);
    reveal(Emit::val);
    reveal_with_fuel(E::done, 4);
    reveal_with_fuel(wasm_flow::calls_nothing, 4);
    wasm_flow::lemma_op_stands(e.val(x), Op::If(BlockType::Void, None), code);
    wasm_flow::lemma_op_stands(told(c, entry, e), Op::End, code);
    wasm_flow::lemma_expression(x, e.code, code, replied, h);
    assert(replied.stack.last() == answer);
    assert(E::Top.tee(entry).done(replied) == kept);
    assert(kept.push(1).stack.drop_last() =~= kept.stack);
    assert(kept.stack.drop_last() =~= w.stack);
    assert(x.done(replied) == flag);
    assert(flag.stack.drop_last() =~= w.stack);
    assert(flag.pop() == w);
}

#[verifier::spinoff_prover]
proof fn lemma_told(c: Ctx, entry: usize, e: Emit, code: Seq<Op>, w: Words, h: Helpers)
    requires
        told(c, entry, e).end().code.is_prefix_of(code),
    ensures
        wasm_flow::goes(code, tested(entry, e).code.len() as int, w, h) == wasm_flow::goes(
            code,
            told(c, entry, e).end().code.len() as int,
            Words { memory: exit_heard(c, w.memory, h), ..w },
            h,
        ),
{
    let start = c.st.start_of_current_instruction as i32;
    let t = tested(entry, e);
    let g = told(c, entry, e);
    wasm_flow::lemma_op_stands(g, Op::End, code);
    wasm_flow::lemma_op_stands(t.val(E::C(start)), Op::Call("track_jit_exit", Sig::Fn1), code);
    reveal_with_fuel(wasm_flow::calls_nothing, 2);
    wasm_run::evaluate_constant(start, w);
    wasm_flow::lemma_val(t, E::C(start), w, start, w, code, h);
    let pushed = w.on(w.stack.push(start));
    let left = Words { memory: exit_heard(c, w.memory, h), ..w };
    assert(pushed.stack.drop_last() =~= w.stack);
    assert(wasm_flow::called("track_jit_exit", Sig::Fn1, pushed, h) == left);
    assert(wasm_flow::goes(code, g.code.len() as int, left, h) == wasm_flow::goes(
        code,
        g.end().code.len() as int,
        left,
        h,
    ));
}

/// A fault leaves the unit.
#[verifier::spinoff_prover]
proof fn lemma_left(c: Ctx, entry: usize, e: Emit, code: Seq<Op>, w: Words, h: Helpers)
    requires
        codegen_read_laws::stands_in(c, answered(c, entry, e).code, code),
    ensures
        wasm_flow::goes(code, told(c, entry, e).end().code.len() as int, w, h) == wasm_flow::goes(
            code,
            if w.locals[entry] & 1 != 0 {
                wasm_flow::exit_of(code, c.st.exit_with_fault_label)
            } else {
                answered(c, entry, e).code.len() as int
            },
            w,
            h,
        ),
{
    let k = told(c, entry, e).end();
    let x = E::L(entry).and(1);
    let word = w.locals[entry];
    let flag = w.push(word & 1);
    reveal(Emit::val);
    reveal_with_fuel(E::done, 4);
    reveal_with_fuel(wasm_flow::calls_nothing, 4);
    wasm_flow::lemma_exit(code, c.st.exit_with_fault_label);
    wasm_flow::lemma_op_stands(
        k.val(x),
        Op::BrIf(c.st.exit_with_fault_label, e.hint(HINT_GROUP_MEM, HINT_UNLIKELY)),
        code,
    );
    wasm_flow::lemma_expression(x, k.code, code, w, h);
    assert(w.push(word).push(1).stack.drop_last() =~= w.push(word).stack);
    assert(w.push(word).stack.drop_last() =~= w.stack);
    assert(x.done(w) == flag);
    assert(flag.stack.drop_last() =~= w.stack);
    assert(flag.pop() == w);
}

/// Where a helper reports a fault, the profiler hears of it and the unit is left.
proof fn lemma_answered(
    c: Ctx,
    entry: usize,
    e: Emit,
    code: Seq<Op>,
    u: Words,
    answer: i32,
    h: Helpers,
)
    requires
        codegen_read_laws::stands_in(c, answered(c, entry, e).code, code),
    ensures
        e.code.is_prefix_of(code),
        e.code.len() < answered(c, entry, e).code.len(),
        wasm_flow::is_level(code, e.code.len() as int, answered(c, entry, e).code.len() as int),
        wasm_flow::goes(code, e.code.len() as int, u.push(answer), h) == if answer & 1 != 0 {
            wasm_flow::goes(
                code,
                wasm_flow::exit_of(code, c.st.exit_with_fault_label),
                Words { memory: exit_heard(c, u.memory, h), ..u.set(entry, answer) },
                h,
            )
        } else {
            wasm_flow::goes(
                code,
                answered(c, entry, e).code.len() as int,
                u.set(entry, answer),
                h,
            )
        },
{
    let w = u.set(entry, answer);
    lemma_stages(c, entry, e, code);
    lemma_tested(c, entry, e, code, u, answer, h);
    assert(w.locals[entry] == answer);
    if answer & 1 != 0 {
        lemma_told(c, entry, e, code, w, h);
        lemma_left(c, entry, e, code, Words { memory: exit_heard(c, w.memory, h), ..w }, h);
    } else {
        lemma_left(c, entry, e, code, w, h);
    }
}

/// A block is opened, with the local for the translation entry cleared.
spec fn opened(c: Ctx) -> Emit {
    c.e.set_new(E::C(0)).block()
}

/// The translation table is asked, and a direct read leaves the block.
spec fn asked(c: Ctx, bits: BitSize, a: usize) -> Emit {
    opened(c).val(c.direct(a, c.e.next_i32(), c.read_mask(), bits)).op(
        Op::BrIf(c.e.set_new(E::C(0)).label(), c.e.hint(HINT_GROUP_MEM, HINT_LIKELY)),
    )
}

spec fn read_reported(c: Ctx, bits: BitSize, a: usize) -> Emit {
    reported("report_safe_read_jit_slow", a, E::L(c.e.next_i32()), asked(c, bits, a))
}

spec fn read_helped(c: Ctx, bits: BitSize, a: usize) -> Emit {
    codegen_read_laws::helper_called(c, bits.read_helper(), a, read_reported(c, bits, a))
}

spec fn read_answered(c: Ctx, bits: BitSize, a: usize) -> Emit {
    answered(c, c.e.next_i32(), read_helped(c, bits, a))
}

/// The counter of the reads that were done.
pub open spec fn read_counter(c: Ctx) -> u32 {
    Stat::SafeReadFast.address(c.e.opt.stat_base)
}

spec fn counted(c: Ctx, bits: BitSize, a: usize) -> Emit {
    read_answered(c, bits, a).end().count(read_counter(c))
}

/// The value is loaded.
spec fn loaded(c: Ctx, bits: BitSize, a: usize) -> Emit {
    counted(c, bits, a).val(E::host(a, c.e.next_i32())).op(Op::Load(bits.width(), 0))
}

/// Events are counted, and reads ask the translation table at once.
pub open spec fn is_counted_read(c: Ctx, bits: BitSize) -> bool {
    &&& c.e.opt.profiler
    &&& !c.st.env.read_tlb_cache
    &&& !c.perm_probed()
    &&& !(bits is DQWORD)
}

#[verifier::spinoff_prover]
proof fn lemma_read_shape(c: Ctx, bits: BitSize, a: usize, to: u32)
    requires
        is_counted_read(c, bits),
    ensures
        c.safe_read(bits, a, to).e.code == loaded(c, bits, a).code,
{
    broadcast use crate::wasm::group_code;

    reveal(Ctx::safe_read);
    reveal(Ctx::translated_load);
    reveal(Ctx::translate_read);
    reveal(Ctx::ask_read_cache);
    reveal(Ctx::direct_read);
    reveal(Emit::report_slow);
    reveal(Emit::fault_check);
    reveal(Emit::track_exit);
    reveal(Emit::load_at_top);
    reveal(Emit::profile);
    reveal(Emit::give_i32);
}

/// Every part of the code of a read stands where it was added, and a direct read goes behind the
/// block.
#[verifier::spinoff_prover]
proof fn lemma_read_stages(c: Ctx, bits: BitSize, a: usize, code: Seq<Op>, s: Words, h: Helpers)
    requires
        codegen_read_laws::stands_in(c, read_answered(c, bits, a).end().code, code),
    ensures
        c.e.take_i32().val(E::C(0)).op(Op::LocalSet(c.e.next_i32())).code.is_prefix_of(code),
        c.e.take_i32().code == c.e.code,
        c.e.set_new(E::C(0)).code.is_prefix_of(code),
        opened(c).code.is_prefix_of(code),
        asked(c, bits, a).code.is_prefix_of(code),
        read_reported(c, bits, a).code.is_prefix_of(code),
        read_helped(c, bits, a).code.is_prefix_of(code),
        codegen_read_laws::stands_in(c, read_answered(c, bits, a).code, code),
        asked(c, bits, a).code.len() < read_answered(c, bits, a).end().code.len() <= code.len(),
        wasm_flow::exit_of(code, c.e.set_new(E::C(0)).label()) == read_answered(
            c,
            bits,
            a,
        ).end().code.len(),
{
    let entry = c.e.next_i32();
    let first = c.e.set_new(E::C(0));
    let n = read_answered(c, bits, a);
    let end = n.end().code.len() as int;
    let e = read_helped(c, bits, a);
    let r = read_reported(c, bits, a);
    let operands = E::L(a).both(c.here());
    let q = asked(c, bits, a);
    let o = opened(c);
    let question = c.direct(a, entry, c.read_mask(), bits);
    reveal(Emit::take_i32);
    reveal(Emit::label);
    wasm_flow::lemma_op_stands(n, Op::End, code);
    lemma_stages(c, entry, e, code);
    wasm_flow::lemma_op_stands(r.val(operands), Op::Call(bits.read_helper(), Sig::Fn2Ret), code);
    wasm_flow::lemma_val_stands(r, operands, code, false, 0);
    lemma_reported(
        "report_safe_read_jit_slow",
        a,
        E::L(entry),
        q,
        code,
        s,
        s.locals[entry],
        h,
    );
    wasm_flow::lemma_op_stands(
        o.val(question),
        Op::BrIf(first.label(), c.e.hint(HINT_GROUP_MEM, HINT_LIKELY)),
        code,
    );
    wasm_flow::lemma_val_stands(o, question, code, false, 0);
    wasm_flow::lemma_op_stands(first, Op::Block(BlockType::Void), code);
    wasm_flow::lemma_set_stands(c.e.take_i32(), entry, E::C(0), code, false, 0);
    assert(wasm_flow::behind(code, n.code.len() as int, false, 0) == end);
    assert(wasm_flow::behind(code, e.code.len() as int, false, 0) == end);
    assert(wasm_flow::behind(code, r.val(operands).code.len() as int, false, 0) == end);
    assert(wasm_flow::behind(code, q.code.len() as int, false, 0) == end);
    assert(wasm_flow::behind(code, o.val(question).code.len() as int, false, 0) == end);
    assert(first.label().0 == first.code.len());
}

/// The question for a direct read.
#[verifier::spinoff_prover]
proof fn lemma_asked(c: Ctx, bits: BitSize, a: usize, code: Seq<Op>, s: Words, h: Helpers)
    requires
        codegen_read_laws::stands_in(c, read_answered(c, bits, a).end().code, code),
        a != c.e.next_i32(),
    ensures
        wasm_flow::goes(code, c.e.code.len() as int, s, h) == wasm_flow::goes(
            code,
            if codegen_mem_laws::is_direct(c, c.read_mask(), s.locals[a], bits, s) {
                read_answered(c, bits, a).end().code.len() as int
            } else {
                asked(c, bits, a).code.len() as int
            },
            s.set(c.e.next_i32(), codegen_mem_laws::translation(c, s.locals[a], s)),
            h,
        ),
{
    let entry = c.e.next_i32();
    let address = s.locals[a];
    let word = codegen_mem_laws::translation(c, address, s);
    let first = c.e.set_new(E::C(0));
    let o = opened(c);
    let question = c.direct(a, entry, c.read_mask(), bits);
    let cleared = s.set(entry, 0);
    let t = s.set(entry, word);
    let v = wasm_run::truth(codegen_mem_laws::is_direct(c, c.read_mask(), address, bits, s));
    lemma_read_stages(c, bits, a, code, s, h);
    wasm_run::evaluate_constant(0, s);
    wasm_flow::lemma_set(c.e.take_i32(), entry, E::C(0), s, 0, code, h);
    wasm_flow::lemma_op_stands(first, Op::Block(BlockType::Void), code);
    assert(wasm_flow::goes(code, first.code.len() as int, cleared, h) == wasm_flow::goes(
        code,
        o.code.len() as int,
        cleared,
        h,
    ));
    codegen_mem_laws::evaluate_direct(c, a, entry, c.read_mask(), bits, cleared);
    assert(cleared.locals[a] == address);
    assert(cleared.set(entry, word).locals =~= t.locals);
    wasm_flow::lemma_op_stands(
        o.val(question),
        Op::BrIf(first.label(), c.e.hint(HINT_GROUP_MEM, HINT_LIKELY)),
        code,
    );
    codegen_read_laws::lemma_calls_nothing(c, a, entry, c.read_mask(), bits);
    wasm_flow::lemma_val(o, question, cleared, v, t, code, h);
    let answer = t.on(s.stack.push(v));
    assert(answer.stack.drop_last() =~= s.stack);
    assert(answer.pop() == t);
    assert(answer.top() == v);
}

/// Where the translation of a read leads in a build that counts: the position behind it, with
/// the entry in its local, or the unit's fault exit.
pub open spec fn translated(
    c: Ctx,
    bits: BitSize,
    a: usize,
    entry: usize,
    code: Seq<Op>,
    end: int,
    s: Words,
    h: Helpers,
) -> (int, Words) {
    let address = s.locals[a];
    let word = codegen_mem_laws::translation(c, address, s);
    let heard = report_heard("report_safe_read_jit_slow", address, word, s.memory, h);
    let (answer, memory) = codegen_read_laws::asked_of(c, bits, address, heard, h);
    if codegen_mem_laws::is_direct(c, c.read_mask(), address, bits, s) {
        (end, s.set(entry, word))
    } else if answer & 1 == 0 {
        (end, Words { memory, ..s }.set(entry, answer))
    } else {
        (
            wasm_flow::exit_of(code, c.st.exit_with_fault_label),
            Words { memory: exit_heard(c, memory, h), ..s }.set(entry, answer),
        )
    }
}

#[verifier::spinoff_prover]
proof fn lemma_translated(c: Ctx, bits: BitSize, a: usize, code: Seq<Op>, s: Words, h: Helpers)
    requires
        a != c.e.next_i32(),
        codegen_read_laws::stands_in(c, read_answered(c, bits, a).end().code, code),
    ensures
        ({
            let end = read_answered(c, bits, a).end().code.len() as int;
            let (q, t) = translated(c, bits, a, c.e.next_i32(), code, end, s, h);
            wasm_flow::goes(code, c.e.code.len() as int, s, h) == wasm_flow::goes(code, q, t, h)
        }),
{
    let entry = c.e.next_i32();
    let address = s.locals[a];
    let word = codegen_mem_laws::translation(c, address, s);
    let t = s.set(entry, word);
    lemma_read_stages(c, bits, a, code, s, h);
    lemma_asked(c, bits, a, code, s, h);
    if !codegen_mem_laws::is_direct(c, c.read_mask(), address, bits, s) {
        let name = "report_safe_read_jit_slow";
        let heard = report_heard(name, address, word, s.memory, h);
        let (answer, memory) = codegen_read_laws::asked_of(c, bits, address, heard, h);
        let t1 = Words { memory: heard, ..t };
        let u = Words { memory, ..t };
        let w = u.set(entry, answer);
        let n = read_answered(c, bits, a);
        assert(t.locals[a] == address && t.locals[entry] == word);
        lemma_reported(name, a, E::L(entry), asked(c, bits, a), code, t, word, h);
        codegen_read_laws::lemma_helped(
            c,
            bits.read_helper(),
            a,
            read_reported(c, bits, a),
            code,
            t1,
            h,
        );
        assert(Words { memory, ..t1 } == u);
        lemma_answered(c, entry, read_helped(c, bits, a), code, u, answer, h);
        assert(w.locals =~= s.set(entry, answer).locals);
        wasm_flow::lemma_op_stands(n, Op::End, code);
        assert(wasm_flow::goes(code, n.code.len() as int, w, h) == wasm_flow::goes(
            code,
            n.end().code.len() as int,
            w,
            h,
        ));
    }
}

/// The load at the end.
#[verifier::spinoff_prover]
proof fn lemma_loaded(c: Ctx, bits: BitSize, a: usize, code: Seq<Op>, t: Words, h: Helpers)
    requires
        !(bits is DQWORD),
        loaded(c, bits, a).code.is_prefix_of(code),
    ensures
        wasm_flow::goes(code, counted(c, bits, a).code.len() as int, t, h) == wasm_flow::goes(
            code,
            loaded(c, bits, a).code.len() as int,
            codegen_read_laws::with_read(c, bits, t.locals[c.e.next_i32()], t.locals[a], t),
            h,
        ),
{
    let entry = c.e.next_i32();
    let e = counted(c, bits, a);
    let x = E::host(a, entry);
    let address = t.locals[a];
    let word = t.locals[entry];
    let v = (word & PAGE_MASK) ^ address;
    wasm_flow::lemma_op_stands(e.val(x), Op::Load(bits.width(), 0), code);
    codegen_read_laws::lemma_calls_nothing(c, a, entry, 0, bits);
    codegen_mem_laws::evaluate_host(a, entry, t);
    wasm_flow::lemma_val(e, x, t, v, t, code, h);
    let pushed = t.on(t.stack.push(v));
    codegen_mem_laws::lemma_place(word, address, c.st.env.mem8);
    assert((v as u32).wrapping_add(0) == v as u32);
    assert(pushed.stack.drop_last() =~= t.stack);
    assert(pushed.pop() == t);
}

/// In a build that counts, the code of a read leaves the value that it leaves elsewhere, and
/// counts the read. Where the read is not direct, the profiler hears of it before the helper is
/// asked, and where the helper reports a fault, the profiler hears that the unit is left, which
/// it then is by its fault exit, with nothing counted.
pub proof fn law_reads_are_counted(
    c: Ctx,
    bits: BitSize,
    a: usize,
    to: u32,
    code: Seq<Op>,
    s: Words,
    h: Helpers,
)
    requires
        is_counted_read(c, bits),
        a != c.e.next_i32(),
        codegen_read_laws::stands_in(c, c.safe_read(bits, a, to).e.code, code),
    ensures
        ({
            let entry = c.e.next_i32();
            let end = c.safe_read(bits, a, to).e.code.len() as int;
            let (q, t) = translated(c, bits, a, entry, code, end, s, h);
            wasm_flow::goes(code, c.e.code.len() as int, s, h) == wasm_flow::goes(
                code,
                q,
                if q == end {
                    codegen_read_laws::with_read(
                        c,
                        bits,
                        t.locals[entry],
                        t.locals[a],
                        t.counted(read_counter(c)),
                    )
                } else {
                    t
                },
                h,
            )
        }),
{
    let entry = c.e.next_i32();
    let x = read_answered(c, bits, a).end();
    let n = counted(c, bits, a);
    let host = E::host(a, entry);
    lemma_read_shape(c, bits, a, to);
    wasm_flow::lemma_op_stands(n.val(host), Op::Load(bits.width(), 0), code);
    wasm_flow::lemma_val_stands(n, host, code, false, 0);
    let (q, t) = translated(c, bits, a, entry, code, x.code.len() as int, s, h);
    wasm_flow::lemma_counted(x, read_counter(c), t, code, h);
    lemma_translated(c, bits, a, code, s, h);
    lemma_loaded(c, bits, a, code, t.counted(read_counter(c)), h);
}

/// The counter of the writes that were done.
pub open spec fn write_counter(c: Ctx) -> u32 {
    Stat::SafeWriteFast.address(c.e.opt.stat_base)
}

/// Events are counted, and the value is in one local.
pub open spec fn is_counted_write(c: Ctx, bits: BitSize) -> bool {
    &&& c.e.opt.profiler
    &&& bits is BYTE || bits is WORD || bits is DWORD
}

spec fn write_reported(c: Ctx, bits: BitSize, a: usize) -> Emit {
    reported(
        "report_safe_write_jit_slow",
        a,
        E::L(c.e.next_i32()),
        codegen_write_laws::asked(c, bits, a),
    )
}

spec fn write_helped(c: Ctx, bits: BitSize, a: usize, x: usize) -> Emit {
    codegen_write_laws::helped(
        c,
        bits,
        a,
        x,
        codegen_write_laws::dropped(c, write_reported(c, bits, a)),
    )
}

spec fn write_answered(c: Ctx, bits: BitSize, a: usize, x: usize) -> Emit {
    answered(c, c.e.next_i32(), write_helped(c, bits, a, x))
}

spec fn written(c: Ctx, bits: BitSize, a: usize, x: usize) -> Emit {
    codegen_write_laws::put(
        bits,
        x,
        write_answered(c, bits, a, x).end().count(write_counter(c)).val(
            E::host(a, c.e.next_i32()),
        ),
    )
}

#[verifier::spinoff_prover]
proof fn lemma_write_shape(c: Ctx, bits: BitSize, a: usize, x: usize)
    requires
        is_counted_write(c, bits),
        !c.st.fastmem_writes,
    ensures
        c.safe_write(bits, a, GenSafeWriteValue::I32(WasmLocal(x))).e.code == written(
            c,
            bits,
            a,
            x,
        ).code,
{
    broadcast use crate::wasm::group_code;

    reveal(Ctx::safe_write);
    reveal(Ctx::translated_write);
    reveal(Emit::report_slow);
    reveal(Emit::fault_check);
    reveal(Emit::track_exit);
    reveal(Emit::store_at_top);
    reveal(Emit::profile);
    reveal(Emit::give_i32);
}

/// Where the code of a write leads in a build that counts: the position behind it, with the
/// value stored, or the unit's fault exit.
pub open spec fn write_leads(
    c: Ctx,
    bits: BitSize,
    a: usize,
    x: usize,
    code: Seq<Op>,
    end: int,
    s: Words,
    h: Helpers,
) -> (int, Words) {
    let entry = c.e.next_i32();
    let address = s.locals[a];
    let value = s.locals[x];
    let word = codegen_mem_laws::translation(c, address, s);
    let known = if c.st.fastmem_writes {
        0
    } else {
        word
    };
    let heard = report_heard("report_safe_write_jit_slow", address, known, s.memory, h);
    let (answer, memory) = codegen_write_laws::asked_of(c, bits, address, value, heard, h);
    let apart = codegen_write_laws::cache_dropped(c, s);
    if c.st.fastmem_writes && codegen_mem_laws::is_taken(c, address, bits, s) {
        let at = c.st.env.mem8.wrapping_add(address as u32);
        let t = apart.counted(write_counter(c));
        (end, Words { memory: wasm_run::stored(bits.width(), t.memory, at, value), ..t })
    } else if !c.st.fastmem_writes && codegen_mem_laws::is_direct(
        c,
        c.write_mask(),
        address,
        bits,
        s,
    ) {
        (end, with_written(c, bits, word, address, value, s.set(entry, word)))
    } else if answer & 1 == 0 {
        let t = Words { memory, ..apart.set(entry, answer) };
        (end, with_written(c, bits, answer, address, value, t))
    } else {
        (
            wasm_flow::exit_of(code, c.st.exit_with_fault_label),
            Words { memory: exit_heard(c, memory, h), ..apart.set(entry, answer) },
        )
    }
}

/// With the write counted and the value stored at an address, by a translation entry.
pub open spec fn with_written(
    c: Ctx,
    bits: BitSize,
    word: i32,
    address: i32,
    value: i32,
    t: Words,
) -> Words {
    let u = t.counted(write_counter(c));
    Words {
        memory: codegen_write_laws::written_at(c, bits, word, address, value, u.memory),
        ..u
    }
}

/// The end of a write through the translation table.
#[verifier::spinoff_prover]
proof fn lemma_written(
    c: Ctx,
    bits: BitSize,
    a: usize,
    x: usize,
    code: Seq<Op>,
    t: Words,
    h: Helpers,
)
    requires
        is_counted_write(c, bits),
        written(c, bits, a, x).code.is_prefix_of(code),
    ensures
        write_answered(c, bits, a, x).end().code.is_prefix_of(code),
        write_answered(c, bits, a, x).end().code.len() < written(c, bits, a, x).code.len(),
        wasm_flow::goes(code, write_answered(c, bits, a, x).end().code.len() as int, t, h)
            == wasm_flow::goes(
            code,
            written(c, bits, a, x).code.len() as int,
            with_written(c, bits, t.locals[c.e.next_i32()], t.locals[a], t.locals[x], t),
            h,
        ),
{
    let entry = c.e.next_i32();
    let n = write_answered(c, bits, a, x).end();
    let k = n.count(write_counter(c));
    let host = E::host(a, entry);
    let u = t.counted(write_counter(c));
    let word = t.locals[entry];
    let v = (word & PAGE_MASK) ^ t.locals[a];
    codegen_write_laws::lemma_put(bits, x, k.val(host), code, u, v, h);
    wasm_flow::lemma_val_stands(k, host, code, false, 0);
    codegen_read_laws::lemma_calls_nothing(c, a, entry, 0, bits);
    codegen_mem_laws::evaluate_host(a, entry, u);
    wasm_flow::lemma_val(k, host, u, v, u, code, h);
    assert(u.on(u.stack.push(v)) == u.push(v));
    wasm_flow::lemma_counted(n, write_counter(c), t, code, h);
    codegen_mem_laws::lemma_place(word, t.locals[a], c.st.env.mem8);
}

#[verifier::spinoff_prover]
proof fn lemma_write_leads(
    c: Ctx,
    bits: BitSize,
    a: usize,
    x: usize,
    code: Seq<Op>,
    s: Words,
    h: Helpers,
)
    requires
        is_counted_write(c, bits),
        !c.st.fastmem_writes,
        codegen_write_laws::stands_in(c, written(c, bits, a, x).code, a, x, code),
    ensures
        ({
            let end = written(c, bits, a, x).code.len() as int;
            let (q, t) = write_leads(c, bits, a, x, code, end, s, h);
            wasm_flow::goes(code, c.e.code.len() as int, s, h) == wasm_flow::goes(code, q, t, h)
        }),
{
    let entry = c.e.next_i32();
    let address = s.locals[a];
    let value = s.locals[x];
    let word = codegen_mem_laws::translation(c, address, s);
    let name = "report_safe_write_jit_slow";
    let heard = report_heard(name, address, word, s.memory, h);
    let (answer, memory) = codegen_write_laws::asked_of(c, bits, address, value, heard, h);
    let direct = s.set(entry, word);
    let t1 = Words { memory: heard, ..direct };
    let apart = codegen_write_laws::cache_dropped(c, t1);
    let u = Words { memory, ..apart };
    let w = u.set(entry, answer);
    let yes = codegen_mem_laws::is_direct(c, c.write_mask(), address, bits, s);
    let v = wasm_run::truth(yes);
    let e1 = c.e.block().take_i32();
    let question = c.direct(a, entry, c.write_mask(), bits);
    let branch = Op::BrIf(c.e.label(), c.e.hint(HINT_GROUP_MEM, HINT_LIKELY));
    let e2 = codegen_write_laws::asked(c, bits, a);
    let r = write_reported(c, bits, a);
    let e3 = codegen_write_laws::dropped(c, r);
    let e4 = write_helped(c, bits, a, x);
    let e5 = write_answered(c, bits, a, x);
    let end = e5.end().code.len() as int;
    reveal(Emit::take_i32);
    reveal(Emit::label);
    lemma_written(c, bits, a, x, code, direct, h);
    lemma_written(c, bits, a, x, code, w, h);
    wasm_flow::lemma_op_stands(e5, Op::End, code);
    lemma_answered(c, entry, e4, code, u, answer, h);
    codegen_write_laws::lemma_helped(c, bits, a, x, e3, code, apart, h);
    codegen_write_laws::lemma_dropped(c, r, code, t1, h);
    lemma_reported(name, a, E::L(entry), e2, code, direct, word, h);
    wasm_flow::lemma_op_stands(e1.val(question), branch, code);
    wasm_flow::lemma_val_stands(e1, question, code, false, 0);
    wasm_flow::lemma_op_stands(c.e, Op::Block(BlockType::Void), code);
    // The branch for a direct write goes behind the block.
    assert(wasm_flow::behind(code, e5.code.len() as int, false, 0) == end);
    assert(wasm_flow::behind(code, e4.code.len() as int, false, 0) == end);
    assert(wasm_flow::behind(code, e3.code.len() as int, false, 0) == end);
    assert(wasm_flow::behind(code, r.code.len() as int, false, 0) == end);
    assert(wasm_flow::behind(code, e2.code.len() as int, false, 0) == end);
    assert(wasm_flow::behind(code, e1.val(question).code.len() as int, false, 0) == end);
    assert(c.e.label().0 == c.e.code.len());
    assert(wasm_flow::exit_of(code, c.e.label()) == end);
    // The question.
    codegen_mem_laws::evaluate_direct(c, a, entry, c.write_mask(), bits, s);
    codegen_read_laws::lemma_calls_nothing(c, a, entry, c.write_mask(), bits);
    wasm_flow::lemma_val(e1, question, s, v, direct, code, h);
    let told = direct.on(s.stack.push(v));
    assert(told.stack.drop_last() =~= s.stack);
    assert(told.pop() == direct);
    assert(told.top() == v);
    assert(wasm_flow::goes(code, e1.val(question).code.len() as int, told, h) == wasm_flow::goes(
        code,
        if yes {
            end
        } else {
            e2.code.len() as int
        },
        direct,
        h,
    ));
    assert(wasm_flow::goes(code, e5.code.len() as int, w, h) == wasm_flow::goes(code, end, w, h));
    // What the helper's answer leaves does not depend on the entry.
    assert(w.locals =~= codegen_write_laws::cache_dropped(c, s).set(entry, answer).locals);
}

spec fn map_reported(c: Ctx, bits: BitSize, a: usize) -> Emit {
    reported(
        "report_safe_write_jit_slow",
        a,
        E::C(0),
        codegen_write_laws::map_placed(c, bits, a),
    )
}

spec fn map_helped(c: Ctx, bits: BitSize, a: usize, x: usize) -> Emit {
    codegen_write_laws::helped(c, bits, a, x, map_reported(c, bits, a).take_i32())
}

spec fn map_answered(c: Ctx, bits: BitSize, a: usize, x: usize) -> Emit {
    answered(c, c.e.next_i32(), map_helped(c, bits, a, x))
}

spec fn map_ended(c: Ctx, bits: BitSize, a: usize, x: usize) -> Emit {
    map_answered(c, bits, a, x).val(E::host(a, c.e.next_i32())).end()
}

spec fn map_written(c: Ctx, bits: BitSize, a: usize, x: usize) -> Emit {
    codegen_write_laws::put(bits, x, map_ended(c, bits, a, x).count(write_counter(c)))
}

#[verifier::spinoff_prover]
proof fn lemma_map_shape(c: Ctx, bits: BitSize, a: usize, x: usize)
    requires
        is_counted_write(c, bits),
        c.st.fastmem_writes,
    ensures
        c.safe_write(bits, a, GenSafeWriteValue::I32(WasmLocal(x))).e.code == map_written(
            c,
            bits,
            a,
            x,
        ).code,
{
    broadcast use crate::wasm::group_code;

    reveal(Ctx::safe_write);
    reveal(Ctx::mapped_code);
    reveal(Emit::fault_check);
    reveal(Emit::track_exit);
    reveal(Emit::store_at_local);
    reveal(Emit::profile);
    reveal(Emit::give_i32);
}

/// The place on the stack is stored to, and the write is counted.
#[verifier::spinoff_prover]
proof fn lemma_map_written(
    c: Ctx,
    bits: BitSize,
    a: usize,
    x: usize,
    code: Seq<Op>,
    t: Words,
    v: i32,
    h: Helpers,
)
    requires
        is_counted_write(c, bits),
        map_written(c, bits, a, x).code.is_prefix_of(code),
    ensures
        map_ended(c, bits, a, x).code.is_prefix_of(code),
        map_ended(c, bits, a, x).code.len() < map_written(c, bits, a, x).code.len(),
        ({
            let u = t.counted(write_counter(c));
            let memory = wasm_run::stored(bits.width(), u.memory, v as u32, t.locals[x]);
            wasm_flow::goes(code, map_ended(c, bits, a, x).code.len() as int, t.push(v), h)
                == wasm_flow::goes(
                code,
                map_written(c, bits, a, x).code.len() as int,
                Words { memory, ..u },
                h,
            )
        }),
{
    let n = map_ended(c, bits, a, x);
    let k = n.count(write_counter(c));
    let u = t.counted(write_counter(c));
    codegen_write_laws::lemma_put(bits, x, k, code, u, v, h);
    wasm_flow::lemma_counted(n, write_counter(c), t.push(v), code, h);
    assert(t.push(v).counted(write_counter(c)) == u.push(v));
}

/// Where the branches around the store map lead.
#[verifier::spinoff_prover]
proof fn lemma_map_exits(
    c: Ctx,
    bits: BitSize,
    a: usize,
    x: usize,
    code: Seq<Op>,
    t: Words,
    h: Helpers,
)
    requires
        is_counted_write(c, bits),
        codegen_write_laws::stands_in(c, map_written(c, bits, a, x).code, a, x, code),
    ensures
        codegen_write_laws::map_asked(c, bits, a).code.is_prefix_of(code),
        codegen_write_laws::map_placed(c, bits, a).code.is_prefix_of(code),
        map_reported(c, bits, a).code.is_prefix_of(code),
        map_helped(c, bits, a, x).code.is_prefix_of(code),
        codegen_read_laws::stands_in(c, map_answered(c, bits, a, x).code, code),
        map_answered(c, bits, a, x).val(E::host(a, c.e.next_i32())).code.is_prefix_of(code),
        map_ended(c, bits, a, x).code.is_prefix_of(code),
        codegen_write_laws::map_placed(c, bits, a).code.len() < map_ended(
            c,
            bits,
            a,
            x,
        ).code.len(),
        wasm_flow::exit_of(
            code,
            codegen_write_laws::dropped(c, c.e).op(Op::Block(BlockType::I32)).label(),
        ) == codegen_write_laws::map_placed(c, bits, a).code.len(),
        wasm_flow::exit_of(code, codegen_write_laws::dropped(c, c.e).label()) == map_ended(
            c,
            bits,
            a,
            x,
        ).code.len(),
{
    let entry = c.e.next_i32();
    let d0 = codegen_write_laws::dropped(c, c.e);
    let d1 = d0.op(Op::Block(BlockType::I32));
    let d2 = d1.block();
    let q = c.store_refused(a, bits);
    let d3 = codegen_write_laws::map_asked(c, bits, a);
    let p = E::C(c.st.env.mem8 as i32).bin(Bin::Add, E::L(a));
    let d4 = d3.val(p).br(d0.label());
    let d5 = codegen_write_laws::map_placed(c, bits, a);
    let r = map_reported(c, bits, a);
    let d6 = map_helped(c, bits, a, x);
    let d7 = map_answered(c, bits, a, x);
    let host = E::host(a, entry);
    reveal(Emit::take_i32);
    reveal(Emit::label);
    lemma_map_written(c, bits, a, x, code, t, 0, h);
    wasm_flow::lemma_op_stands(d7.val(host), Op::End, code);
    wasm_flow::lemma_val_stands(d7, host, code, false, 0);
    lemma_stages(c, entry, d6, code);
    codegen_write_laws::lemma_helped(c, bits, a, x, r.take_i32(), code, t, h);
    lemma_reported("report_safe_write_jit_slow", a, E::C(0), d5, code, t, 0, h);
    wasm_flow::lemma_op_stands(d4, Op::End, code);
    wasm_flow::lemma_op_stands(d3.val(p), Op::Br(d0.label()), code);
    wasm_flow::lemma_val_stands(d3, p, code, false, 0);
    wasm_flow::lemma_val_stands(d3, p, code, false, 1);
    wasm_flow::lemma_op_stands(d2.val(q), Op::BrIf(d1.label(), None), code);
    wasm_flow::lemma_val_stands(d2, q, code, false, 0);
    wasm_flow::lemma_val_stands(d2, q, code, false, 1);
    wasm_flow::lemma_op_stands(d1, Op::Block(BlockType::Void), code);
    wasm_flow::lemma_op_stands(d0, Op::Block(BlockType::I32), code);
    assert(d0.label().0 == d0.code.len());
    assert(d1.label().0 == d1.code.len());
    assert(wasm_flow::behind(code, d4.code.len() as int, false, 0) == d5.code.len());
    assert(wasm_flow::behind(code, d3.val(p).code.len() as int, false, 0) == d5.code.len());
    assert(wasm_flow::behind(code, d2.val(q).code.len() as int, false, 0) == d5.code.len());
    let end = map_ended(c, bits, a, x).code.len() as int;
    assert(wasm_flow::behind(code, d7.val(host).code.len() as int, false, 0) == end);
    assert(wasm_flow::behind(code, d7.code.len() as int, false, 0) == end);
    assert(wasm_flow::behind(code, d6.code.len() as int, false, 0) == end);
    assert(wasm_flow::behind(code, r.code.len() as int, false, 0) == end);
    assert(wasm_flow::behind(code, d5.code.len() as int, false, 0) == end);
    assert(wasm_flow::behind(code, d4.code.len() as int, false, 1) == end);
    assert(wasm_flow::behind(code, d3.val(p).code.len() as int, false, 1) == end);
    assert(wasm_flow::behind(code, d2.val(q).code.len() as int, false, 1) == end);
    assert(wasm_flow::behind(code, d1.code.len() as int, false, 0) == end);
}

#[verifier::spinoff_prover]
proof fn lemma_map_leads(
    c: Ctx,
    bits: BitSize,
    a: usize,
    x: usize,
    code: Seq<Op>,
    s: Words,
    h: Helpers,
)
    requires
        is_counted_write(c, bits),
        c.st.fastmem_writes,
        codegen_write_laws::stands_in(c, map_written(c, bits, a, x).code, a, x, code),
    ensures
        ({
            let end = map_written(c, bits, a, x).code.len() as int;
            let (q, t) = write_leads(c, bits, a, x, code, end, s, h);
            wasm_flow::goes(code, c.e.code.len() as int, s, h) == wasm_flow::goes(code, q, t, h)
        }),
{
    let entry = c.e.next_i32();
    let address = s.locals[a];
    let value = s.locals[x];
    let name = "report_safe_write_jit_slow";
    let heard = report_heard(name, address, 0, s.memory, h);
    let (answer, memory) = codegen_write_laws::asked_of(c, bits, address, value, heard, h);
    let apart = codegen_write_laws::cache_dropped(c, s);
    let t1 = Words { memory: heard, ..apart };
    let u = Words { memory, ..apart };
    let t = u.set(entry, answer);
    let yes = codegen_mem_laws::is_taken(c, address, bits, s);
    let v = wasm_run::truth(!yes);
    let d0 = codegen_write_laws::dropped(c, c.e);
    let d1 = d0.op(Op::Block(BlockType::I32));
    let d2 = d1.block();
    let q = c.store_refused(a, bits);
    let d3 = codegen_write_laws::map_asked(c, bits, a);
    let p = E::C(c.st.env.mem8 as i32).bin(Bin::Add, E::L(a));
    let d5 = codegen_write_laws::map_placed(c, bits, a);
    let r = map_reported(c, bits, a);
    let d6 = map_helped(c, bits, a, x);
    let d7 = map_answered(c, bits, a, x);
    let host = E::host(a, entry);
    let sum = wasm_run::binary(Bin::Add, c.st.env.mem8 as i32, address);
    let at = (answer & PAGE_MASK) ^ address;
    reveal(Emit::take_i32);
    reveal_with_fuel(wasm_flow::calls_nothing, 8);
    lemma_map_exits(c, bits, a, x, code, apart, h);
    // What every path goes through.
    wasm_flow::lemma_op_stands(d2.val(q), Op::BrIf(d1.label(), None), code);
    wasm_flow::lemma_val_stands(d2, q, code, false, 0);
    wasm_flow::lemma_op_stands(d1, Op::Block(BlockType::Void), code);
    wasm_flow::lemma_op_stands(d0, Op::Block(BlockType::I32), code);
    codegen_write_laws::lemma_dropped(c, c.e, code, s, h);
    assert(wasm_flow::goes(code, d0.code.len() as int, apart, h) == wasm_flow::goes(
        code,
        d1.code.len() as int,
        apart,
        h,
    ));
    assert(wasm_flow::goes(code, d1.code.len() as int, apart, h) == wasm_flow::goes(
        code,
        d2.code.len() as int,
        apart,
        h,
    ));
    assert(apart.locals[a] == address);
    assert(apart.locals[x] == value);
    codegen_mem_laws::evaluate_refused(c, a, bits, apart);
    wasm_flow::lemma_val(d2, q, apart, v, apart, code, h);
    let told = apart.on(apart.stack.push(v));
    assert(told.stack.drop_last() =~= apart.stack);
    assert(told.pop() == apart);
    assert(told.top() == v);
    wasm_flow::lemma_op_stands(d3.val(p).br(d0.label()), Op::End, code);
    wasm_flow::lemma_op_stands(d3.val(p), Op::Br(d0.label()), code);
    wasm_flow::lemma_val_stands(d3, p, code, false, 0);
    if yes {
        wasm_run::evaluate_constant(c.st.env.mem8 as i32, apart);
        wasm_run::evaluate_local(a, apart);
        wasm_run::evaluate_bin(
            Bin::Add,
            E::C(c.st.env.mem8 as i32),
            E::L(a),
            apart,
            c.st.env.mem8 as i32,
            apart,
            address,
            apart,
        );
        wasm_flow::lemma_val(d3, p, apart, sum, apart, code, h);
        assert(apart.on(apart.stack.push(sum)) == apart.push(sum));
        lemma_map_written(c, bits, a, x, code, apart, sum, h);
        crate::codegen_value_laws::lemma_address_sum(c.st.env.mem8, address);
    } else {
        assert(wasm_flow::goes(code, d2.val(q).code.len() as int, told, h) == wasm_flow::goes(
            code,
            d5.code.len() as int,
            apart,
            h,
        ));
        lemma_reported(name, a, E::C(0), d5, code, apart, 0, h);
        codegen_write_laws::lemma_helped(c, bits, a, x, r.take_i32(), code, t1, h);
        lemma_answered(c, entry, d6, code, u, answer, h);
        codegen_read_laws::lemma_calls_nothing(c, a, entry, 0, bits);
        codegen_mem_laws::evaluate_host(a, entry, t);
        wasm_flow::lemma_val(d7, host, t, at, t, code, h);
        wasm_flow::lemma_op_stands(d7.val(host), Op::End, code);
        assert(t.on(t.stack.push(at)) == t.push(at));
        lemma_map_written(c, bits, a, x, code, t, at, h);
        codegen_mem_laws::lemma_place(answer, address, c.st.env.mem8);
    }
}

/// In a build that counts, the code of a write stores the value where it does elsewhere, and
/// counts the write. Where the helper is asked, the profiler hears of it before, and where the
/// helper reports a fault, the profiler hears that the unit is left, which it then is by its
/// fault exit, with nothing counted or stored.
pub proof fn law_writes_are_counted(
    c: Ctx,
    bits: BitSize,
    a: usize,
    x: usize,
    code: Seq<Op>,
    s: Words,
    h: Helpers,
)
    requires
        is_counted_write(c, bits),
        codegen_write_laws::stands_in(
            c,
            c.safe_write(bits, a, GenSafeWriteValue::I32(WasmLocal(x))).e.code,
            a,
            x,
            code,
        ),
    ensures
        ({
            let value = GenSafeWriteValue::I32(WasmLocal(x));
            let end = c.safe_write(bits, a, value).e.code.len() as int;
            let (q, t) = write_leads(c, bits, a, x, code, end, s, h);
            wasm_flow::goes(code, c.e.code.len() as int, s, h) == wasm_flow::goes(code, q, t, h)
        }),
{
    if c.st.fastmem_writes {
        lemma_map_shape(c, bits, a, x);
        lemma_map_leads(c, bits, a, x, code, s, h);
    } else {
        lemma_write_shape(c, bits, a, x);
        lemma_write_leads(c, bits, a, x, code, s, h);
    }
}

} // verus!
