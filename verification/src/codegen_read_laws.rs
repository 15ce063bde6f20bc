//! What the code of a memory read does from its first instruction to its last.
use vstd::prelude::*;
use crate::codegen_mem::BitSize;
use crate::codegen_mem_laws;
use crate::cpu_state::PAGE_MASK;
use crate::jit_context::Ctx;
use crate::wasm::{
    Bin, BlockType, Emit, Op, Sig, Width, E, HINT_GROUP_MEM, HINT_LIKELY, HINT_UNLIKELY,
};
use crate::wasm_flow;
use crate::wasm_flow::Helpers;
use crate::wasm_run;
use crate::wasm_run::Words;

verus! {

/// A block is opened, with the local for the translation entry cleared.
spec fn opened(c: Ctx) -> Emit {
    c.e.set_new(E::C(0)).block()
}

/// The translation table is asked, and a direct read leaves the block.
spec fn asked(c: Ctx, bits: BitSize, a: usize) -> Emit {
    opened(c).val(c.direct(a, c.e.next_i32(), c.read_mask(), bits)).op(
        Op::BrIf(c.e.set_new(E::C(0)).label(), c.e.hint(HINT_GROUP_MEM, HINT_LIKELY)),
    )
}

/// A helper is called with the address in `a`.
pub open spec fn helper_called(c: Ctx, name: &'static str, a: usize, e: Emit) -> Emit {
    e.val(E::L(a).both(c.here())).op(Op::Call(name, Sig::Fn2Ret))
}

spec fn helped(c: Ctx, bits: BitSize, a: usize) -> Emit {
    helper_called(c, bits.read_helper(), a, asked(c, bits, a))
}

/// The helper's answer is kept, and a fault leaves the unit.
spec fn answered(c: Ctx, bits: BitSize, a: usize) -> Emit {
    helped(c, bits, a).val(E::Top.tee(c.e.next_i32()).and(1)).op(
        Op::BrIf(c.st.exit_with_fault_label, c.e.hint(HINT_GROUP_MEM, HINT_UNLIKELY)),
    )
}

/// The value is loaded.
spec fn loaded(c: Ctx, bits: BitSize, a: usize) -> Emit {
    answered(c, bits, a).end().val(E::host(a, c.e.next_i32())).op(Op::Load(bits.width(), 0))
}

/// Nothing is counted, and reads ask the translation table at once.
pub open spec fn is_plain_read(c: Ctx, bits: BitSize) -> bool {
    &&& !c.e.opt.profiler
    &&& !c.st.env.read_tlb_cache
    &&& !c.perm_probed()
    &&& !(bits is DQWORD)
}

proof fn lemma_shape(c: Ctx, bits: BitSize, a: usize, to: u32)
    requires
        is_plain_read(c, bits),
    ensures
        c.safe_read(bits, a, to).e.code == loaded(c, bits, a).code,
{
    broadcast use crate::wasm::group_code;

    reveal(Ctx::safe_read);
    reveal(Ctx::translated_load);
    reveal(Ctx::translate_read);
    reveal(Ctx::ask_read_cache);
    reveal(Ctx::direct_read);
    reveal(Emit::report_slow);
    reveal(Emit::fault_check);
    reveal(Emit::load_at_top);
    reveal(Emit::profile);
    reveal(Emit::give_i32);
}

/// Every part of the code of a read stands where it was added, and the block ends behind the
/// last branch.
#[verifier::spinoff_prover]
proof fn lemma_stages(c: Ctx, bits: BitSize, a: usize, code: Seq<Op>)
    requires
        answered(c, bits, a).end().code.is_prefix_of(code),
        code.len() <= usize::MAX,
    ensures
        c.e.take_i32().val(E::C(0)).op(Op::LocalSet(c.e.next_i32())).code.is_prefix_of(code),
        c.e.take_i32().code == c.e.code,
        c.e.set_new(E::C(0)).code.is_prefix_of(code),
        opened(c).code.is_prefix_of(code),
        asked(c, bits, a).code.is_prefix_of(code),
        helped(c, bits, a).code.is_prefix_of(code),
        answered(c, bits, a).code.is_prefix_of(code),
        c.e.code.len() <= asked(c, bits, a).code.len() <= answered(c, bits, a).code.len(),
        answered(c, bits, a).code.len() < answered(c, bits, a).end().code.len() <= code.len(),
        wasm_flow::exit_of(code, c.e.set_new(E::C(0)).label()) == answered(
            c,
            bits,
            a,
        ).end().code.len(),
{
    let entry = c.e.next_i32();
    let first = c.e.set_new(E::C(0));
    let e4 = opened(c);
    let x5 = c.direct(a, entry, c.read_mask(), bits);
    let e6 = asked(c, bits, a);
    let x7 = E::L(a).both(c.here());
    let e8 = helped(c, bits, a);
    let x9 = E::Top.tee(entry).and(1);
    let e10 = answered(c, bits, a);
    let e11 = e10.end();
    reveal(Emit::take_i32);
    reveal(Emit::label);
    wasm_flow::lemma_op_stands(e10, Op::End, code);
    wasm_flow::lemma_op_stands(
        e8.val(x9),
        Op::BrIf(c.st.exit_with_fault_label, c.e.hint(HINT_GROUP_MEM, HINT_UNLIKELY)),
        code,
    );
    wasm_flow::lemma_val_stands(e8, x9, code, false, 0);
    wasm_flow::lemma_op_stands(e6.val(x7), Op::Call(bits.read_helper(), Sig::Fn2Ret), code);
    wasm_flow::lemma_val_stands(e6, x7, code, false, 0);
    wasm_flow::lemma_op_stands(
        e4.val(x5),
        Op::BrIf(first.label(), c.e.hint(HINT_GROUP_MEM, HINT_LIKELY)),
        code,
    );
    wasm_flow::lemma_val_stands(e4, x5, code, false, 0);
    wasm_flow::lemma_op_stands(first, Op::Block(BlockType::Void), code);
    wasm_flow::lemma_set_stands(c.e.take_i32(), entry, E::C(0), code, false, 0);
    assert(first.label().0 == first.code.len());
    assert(wasm_flow::behind(code, e10.code.len() as int, false, 0) == e11.code.len());
    assert(wasm_flow::behind(code, e8.val(x9).code.len() as int, false, 0) == e11.code.len());
    assert(wasm_flow::behind(code, e6.val(x7).code.len() as int, false, 0) == e11.code.len());
    assert(wasm_flow::behind(code, e4.val(x5).code.len() as int, false, 0) == e11.code.len());
}

/// The question for a direct read.
#[verifier::spinoff_prover]
proof fn lemma_asked(c: Ctx, bits: BitSize, a: usize, code: Seq<Op>, s: Words, h: Helpers)
    requires
        answered(c, bits, a).end().code.is_prefix_of(code),
        code.len() <= usize::MAX,
        a != c.e.next_i32(),
    ensures
        ({
            let word = codegen_mem_laws::translation(c, s.locals[a], s);
            let t = s.set(c.e.next_i32(), word);
            wasm_flow::goes(code, c.e.code.len() as int, s, h) == wasm_flow::goes(
                code,
                if codegen_mem_laws::is_direct(c, c.read_mask(), s.locals[a], bits, s) {
                    answered(c, bits, a).end().code.len() as int
                } else {
                    asked(c, bits, a).code.len() as int
                },
                t,
                h,
            )
        }),
{
    let entry = c.e.next_i32();
    let address = s.locals[a];
    let word = codegen_mem_laws::translation(c, address, s);
    let e0 = c.e.take_i32();
    let first = c.e.set_new(E::C(0));
    let e4 = opened(c);
    let x5 = c.direct(a, entry, c.read_mask(), bits);
    let s1 = s.set(entry, 0);
    let t = s.set(entry, word);
    let yes = codegen_mem_laws::is_direct(c, c.read_mask(), address, bits, s);
    let v = wasm_run::truth(yes);
    lemma_stages(c, bits, a, code);
    wasm_run::evaluate_constant(0, s);
    wasm_flow::lemma_set(e0, entry, E::C(0), s, 0, code, h);
    wasm_flow::lemma_op_stands(first, Op::Block(BlockType::Void), code);
    assert(wasm_flow::goes(code, first.code.len() as int, s1, h) == wasm_flow::goes(
        code,
        e4.code.len() as int,
        s1,
        h,
    ));
    codegen_mem_laws::evaluate_direct(c, a, entry, c.read_mask(), bits, s1);
    assert(s1.locals[a] == address);
    assert(s1.set(entry, word).locals =~= t.locals);
    assert(s1.set(entry, word) == t);
    wasm_flow::lemma_op_stands(
        e4.val(x5),
        Op::BrIf(first.label(), c.e.hint(HINT_GROUP_MEM, HINT_LIKELY)),
        code,
    );
    assert(wasm_flow::calls_nothing(x5)) by {
        lemma_calls_nothing(c, a, entry, c.read_mask(), bits);
    }
    wasm_flow::lemma_val(e4, x5, s1, v, t, code, h);
    let answer = t.on(s.stack.push(v));
    assert(answer.stack.drop_last() =~= s.stack);
    assert(answer.pop() == t);
    assert(answer.top() == v);
}

pub proof fn lemma_calls_nothing(c: Ctx, a: usize, entry: usize, mask: i32, bits: BitSize)
    ensures
        wasm_flow::calls_nothing(c.direct(a, entry, mask, bits)),
        wasm_flow::calls_nothing(E::host(a, entry)),
{
    reveal_with_fuel(wasm_flow::calls_nothing, 12);
}

/// The answer of a helper, on the stack, is kept; where it reports a fault, the unit is left.
#[verifier::spinoff_prover]
pub proof fn lemma_fault_checked(
    e: Emit,
    entry: usize,
    leave: Op,
    code: Seq<Op>,
    u: Words,
    answer: i32,
    h: Helpers,
)
    requires
        leave is BrIf,
        e.val(E::Top.tee(entry).and(1)).op(leave).code.is_prefix_of(code),
        (leave->BrIf_0).0 < code.len(),
        code[(leave->BrIf_0).0 as int] is Block,
        e.val(E::Top.tee(entry).and(1)).op(leave).code.len() <= wasm_flow::exit_of(
            code,
            leave->BrIf_0,
        ),
    ensures
        wasm_flow::goes(code, e.code.len() as int, u.push(answer), h) == wasm_flow::goes(
            code,
            if answer & 1 != 0 {
                wasm_flow::exit_of(code, leave->BrIf_0)
            } else {
                e.val(E::Top.tee(entry).and(1)).op(leave).code.len() as int
            },
            u.set(entry, answer),
            h,
        ),
{
    let x = E::Top.tee(entry).and(1);
    let w = u.set(entry, answer);
    let replied = u.push(answer);
    let kept = w.push(answer);
    let tested = w.push(answer & 1);
    reveal(Emit::val);
    reveal_with_fuel(E::done, 4);
    reveal_with_fuel(wasm_flow::calls_nothing, 4);
    wasm_flow::lemma_exit(code, leave->BrIf_0);
    wasm_flow::lemma_op_stands(e.val(x), leave, code);
    wasm_flow::lemma_expression(x, e.code, code, replied, h);
    assert(replied.stack.last() == answer);
    assert(E::Top.tee(entry).done(replied) == kept);
    assert(kept.push(1).stack.drop_last() =~= kept.stack);
    assert(kept.stack.drop_last() =~= w.stack);
    assert(x.done(replied) == tested);
    assert(tested.stack.drop_last() =~= w.stack);
    assert(tested.pop() == w);
}

/// The call of a helper.
#[verifier::spinoff_prover]
pub proof fn lemma_helped(
    c: Ctx,
    name: &'static str,
    a: usize,
    e: Emit,
    code: Seq<Op>,
    t: Words,
    h: Helpers,
)
    requires
        helper_called(c, name, a, e).code.is_prefix_of(code),
    ensures
        ({
            let (answer, memory) = answer_of(c, name, t.locals[a], t.memory, h);
            wasm_flow::goes(code, e.code.len() as int, t, h) == wasm_flow::goes(
                code,
                helper_called(c, name, a, e).code.len() as int,
                Words { memory, ..t }.push(answer),
                h,
            )
        }),
{
    let address = t.locals[a];
    let here = crate::cpu_state::page_offset(c.st.start_of_current_instruction);
    let (answer, memory) = answer_of(c, name, address, t.memory, h);
    let operands = E::L(a).both(c.here());
    wasm_flow::lemma_op_stands(e.val(operands), Op::Call(name, Sig::Fn2Ret), code);
    reveal(Emit::val);
    reveal_with_fuel(E::done, 4);
    reveal_with_fuel(wasm_flow::calls_nothing, 4);
    wasm_flow::lemma_expression(operands, e.code, code, t, h);
    let both = t.push(address).push(here);
    assert(operands.done(t) == both);
    assert(both.stack.drop_last() =~= t.stack.push(address));
    assert(both.stack.drop_last().drop_last() =~= t.stack);
    assert(wasm_flow::called(name, Sig::Fn2Ret, both, h) == Words { memory, ..t }.push(answer));
}

/// What follows the question where the read is not direct.
#[verifier::spinoff_prover]
proof fn lemma_answered(c: Ctx, bits: BitSize, a: usize, code: Seq<Op>, t: Words, h: Helpers)
    requires
        answered(c, bits, a).end().code.is_prefix_of(code),
        code.len() <= usize::MAX,
        a != c.e.next_i32(),
        c.st.exit_with_fault_label.0 < code.len(),
        code[c.st.exit_with_fault_label.0 as int] is Block,
        answered(c, bits, a).end().code.len() <= wasm_flow::exit_of(
            code,
            c.st.exit_with_fault_label,
        ),
    ensures
        ({
            let (answer, memory) = asked_of(c, bits, t.locals[a], t.memory, h);
            wasm_flow::goes(code, asked(c, bits, a).code.len() as int, t, h) == wasm_flow::goes(
                code,
                if answer & 1 != 0 {
                    wasm_flow::exit_of(code, c.st.exit_with_fault_label)
                } else {
                    answered(c, bits, a).end().code.len() as int
                },
                Words { memory, ..t }.set(c.e.next_i32(), answer),
                h,
            )
        }),
{
    let entry = c.e.next_i32();
    let (answer, memory) = asked_of(c, bits, t.locals[a], t.memory, h);
    let e10 = answered(c, bits, a);
    let leave = Op::BrIf(c.st.exit_with_fault_label, c.e.hint(HINT_GROUP_MEM, HINT_UNLIKELY));
    let u = Words { memory, ..t };
    let w = u.set(entry, answer);
    lemma_stages(c, bits, a, code);
    lemma_helped(c, bits.read_helper(), a, asked(c, bits, a), code, t, h);
    lemma_fault_checked(helped(c, bits, a), entry, leave, code, u, answer, h);
    wasm_flow::lemma_op_stands(e10, Op::End, code);
    assert(wasm_flow::goes(code, e10.code.len() as int, w, h) == wasm_flow::goes(
        code,
        e10.end().code.len() as int,
        w,
        h,
    ));
}

/// What a helper answers that is given an address, and the memory that it leaves.
pub open spec fn answer_of(
    c: Ctx,
    name: &'static str,
    address: i32,
    memory: Map<u32, i32>,
    h: Helpers,
) -> (i32, Map<u32, i32>) {
    (h.answer)(
        name,
        seq![address, crate::cpu_state::page_offset(c.st.start_of_current_instruction)],
        memory,
    )
}

/// What the helper answers to a read, and the memory that it leaves.
pub open spec fn asked_of(
    c: Ctx,
    bits: BitSize,
    address: i32,
    memory: Map<u32, i32>,
    h: Helpers,
) -> (i32, Map<u32, i32>) {
    answer_of(c, bits.read_helper(), address, memory, h)
}

/// Where the translation of a read leads: the position behind it, with the entry in its local,
/// or the unit's fault exit.
pub open spec fn translated(
    c: Ctx,
    bits: BitSize,
    a: usize,
    entry: usize,
    code: Seq<Op>,
    end: int,
    s: Words,
    h: Helpers,
) -> (int, Words) {
    let address = s.locals[a];
    let word = codegen_mem_laws::translation(c, address, s);
    let (answer, memory) = asked_of(c, bits, address, s.memory, h);
    let t = Words { memory, ..s }.set(entry, answer);
    if codegen_mem_laws::is_direct(c, c.read_mask(), address, bits, s) {
        (end, s.set(entry, word))
    } else if answer & 1 == 0 {
        (end, t)
    } else {
        (wasm_flow::exit_of(code, c.st.exit_with_fault_label), t)
    }
}

/// The code of a read stands inside the block that the unit's fault exit leaves.
pub open spec fn stands_in(c: Ctx, after: Seq<Op>, code: Seq<Op>) -> bool {
    &&& code.len() <= usize::MAX
    &&& after.is_prefix_of(code)
    &&& c.st.exit_with_fault_label.0 < code.len()
    &&& code[c.st.exit_with_fault_label.0 as int] is Block
    &&& after.len() < wasm_flow::exit_of(code, c.st.exit_with_fault_label)
}

proof fn lemma_translated(c: Ctx, bits: BitSize, a: usize, code: Seq<Op>, s: Words, h: Helpers)
    requires
        a != c.e.next_i32(),
        stands_in(c, answered(c, bits, a).end().code, code),
    ensures
        ({
            let end = answered(c, bits, a).end().code.len() as int;
            let (q, t) = translated(c, bits, a, c.e.next_i32(), code, end, s, h);
            wasm_flow::goes(code, c.e.code.len() as int, s, h) == wasm_flow::goes(code, q, t, h)
        }),
{
    let entry = c.e.next_i32();
    let address = s.locals[a];
    let word = codegen_mem_laws::translation(c, address, s);
    let (answer, memory) = asked_of(c, bits, address, s.memory, h);
    let direct = s.set(entry, word);
    let t = Words { memory, ..s }.set(entry, answer);
    lemma_asked(c, bits, a, code, s, h);
    lemma_answered(c, bits, a, code, direct, h);
    assert(Words { memory, ..direct }.set(entry, answer).locals =~= t.locals);
}

/// The load at the end.
#[verifier::spinoff_prover]
proof fn lemma_loaded(c: Ctx, bits: BitSize, a: usize, code: Seq<Op>, t: Words, h: Helpers)
    requires
        !(bits is DQWORD),
        loaded(c, bits, a).code.is_prefix_of(code),
    ensures
        wasm_flow::goes(code, answered(c, bits, a).end().code.len() as int, t, h)
            == wasm_flow::goes(
            code,
            loaded(c, bits, a).code.len() as int,
            with_read(c, bits, t.locals[c.e.next_i32()], t.locals[a], t),
            h,
        ),
{
    let entry = c.e.next_i32();
    let e11 = answered(c, bits, a).end();
    let x12 = E::host(a, entry);
    let address = t.locals[a];
    let word = t.locals[entry];
    let v = (word & PAGE_MASK) ^ address;
    wasm_flow::lemma_op_stands(e11.val(x12), Op::Load(bits.width(), 0), code);
    lemma_calls_nothing(c, a, entry, 0, bits);
    codegen_mem_laws::evaluate_host(a, entry, t);
    wasm_flow::lemma_val(e11, x12, t, v, t, code, h);
    let pushed = t.on(t.stack.push(v));
    codegen_mem_laws::lemma_place(word, address, c.st.env.mem8);
    assert((v as u32).wrapping_add(0) == v as u32);
    assert(pushed.stack.drop_last() =~= t.stack);
    assert(pushed.pop() == t);
}

/// With the value at a place pushed.
pub open spec fn with_loaded(bits: BitSize, t: Words, at: u32) -> Words {
    if bits is QWORD {
        t.push_wide(wasm_run::wide_at(t.memory, at))
    } else {
        t.push(wasm_run::narrowed(bits.width(), t.memory[at]))
    }
}

/// With the value at an address pushed, by a translation entry.
pub open spec fn with_read(c: Ctx, bits: BitSize, word: i32, address: i32, t: Words) -> Words {
    with_loaded(bits, t, codegen_mem_laws::place(word, address, c.st.env.mem8))
}

/// The value in memory at an address, by a translation entry.
pub open spec fn read_at(
    c: Ctx,
    bits: BitSize,
    word: i32,
    address: i32,
    memory: Map<u32, i32>,
) -> i32 {
    wasm_run::narrowed(bits.width(), memory[codegen_mem_laws::place(word, address, c.st.env.mem8)])
}

/// The code of a read leaves the value at the place that the translation entry of the page
/// names, where the entry allows the read and the read stays inside the page. Elsewhere the
/// helper is asked: the value is the one at the place that it names, or, where it reports a
/// fault, the unit is left by its fault exit with no value.
pub proof fn law_reads_are_translated(
    c: Ctx,
    bits: BitSize,
    a: usize,
    to: u32,
    code: Seq<Op>,
    s: Words,
    h: Helpers,
)
    requires
        is_plain_read(c, bits),
        a != c.e.next_i32(),
        stands_in(c, c.safe_read(bits, a, to).e.code, code),
    ensures
        ({
            let entry = c.e.next_i32();
            let end = c.safe_read(bits, a, to).e.code.len() as int;
            let (q, t) = translated(c, bits, a, entry, code, end, s, h);
            wasm_flow::goes(code, c.e.code.len() as int, s, h) == wasm_flow::goes(
                code,
                q,
                if q == end {
                    with_read(c, bits, t.locals[entry], t.locals[a], t)
                } else {
                    t
                },
                h,
            )
        }),
{
    let entry = c.e.next_i32();
    let e11 = answered(c, bits, a).end();
    let host = E::host(a, entry);
    lemma_shape(c, bits, a, to);
    wasm_flow::lemma_op_stands(e11.val(host), Op::Load(bits.width(), 0), code);
    wasm_flow::lemma_val_stands(e11, host, code, false, 0);
    lemma_translated(c, bits, a, code, s, h);
    let (q, t) = translated(c, bits, a, entry, code, e11.code.len() as int, s, h);
    lemma_loaded(c, bits, a, code, t, h);
}

/// A block is opened, and the permission map is asked.
spec fn probed(c: Ctx, bits: BitSize, a: usize) -> Emit {
    c.e.block().val(c.perm_allowed(a, bits)).op(Op::If(BlockType::Void, None))
}

/// The place of a page that the map allows is kept, and the block is left.
spec fn granted(c: Ctx, bits: BitSize, a: usize, off: usize) -> Emit {
    probed(c, bits, a).val(E::L(a).binc(Bin::Add, c.st.env.mem8 as i32)).op(
        Op::LocalSet(off),
    ).br(c.e.label()).end()
}

/// Other pages are translated, and the block ends.
spec fn placed(c: Ctx, bits: BitSize, a: usize, off: usize) -> Emit {
    answered(c.on(granted(c, bits, a, off)), bits, a).end().val(
        E::host(a, c.e.next_i32()),
    ).op(Op::LocalSet(off)).end()
}

spec fn probe_loaded(c: Ctx, bits: BitSize, a: usize, off: usize) -> Emit {
    placed(c, bits, a, off).val(E::L(off)).op(Op::Load(bits.width(), 0))
}

/// Nothing is counted, reads are not cached, and the permission map is asked first.
pub open spec fn is_probed_read(c: Ctx, bits: BitSize) -> bool {
    &&& !c.e.opt.profiler
    &&& !c.e.opt.dispatch_stats
    &&& !c.st.env.read_tlb_cache
    &&& c.perm_probed()
    &&& !(bits is DQWORD)
}

proof fn lemma_probe_shape(c: Ctx, bits: BitSize, a: usize, to: u32)
    requires
        is_probed_read(c, bits),
    ensures
        c.safe_read(bits, a, to).e.code == probe_loaded(
            c.perm_slot(),
            bits,
            a,
            (c.perm_slot().st.perm_map_off->0).0,
        ).code,
{
    broadcast use crate::wasm::group_code;

    reveal(Ctx::safe_read);
    reveal(Ctx::perm_asked);
    reveal(Emit::dispatch_event);
    reveal(Ctx::translated_load);
    reveal(Ctx::translate_read);
    reveal(Ctx::ask_read_cache);
    reveal(Ctx::direct_read);
    reveal(Emit::report_slow);
    reveal(Emit::fault_check);
    reveal(Emit::load_at_top);
    reveal(Emit::profile);
    reveal(Emit::give_i32);
}

/// The code of a translation closes all that it opens.
#[verifier::spinoff_prover]
proof fn lemma_translation_is_level(c: Ctx, bits: BitSize, a: usize, code: Seq<Op>)
    requires
        answered(c, bits, a).end().code.is_prefix_of(code),
        code.len() <= usize::MAX,
    ensures
        c.e.code.is_prefix_of(code),
        wasm_flow::behind(code, c.e.code.len() as int, false, 0) == wasm_flow::behind(
            code,
            answered(c, bits, a).end().code.len() as int,
            false,
            0,
        ),
{
    let entry = c.e.next_i32();
    let first = c.e.set_new(E::C(0));
    let e4 = opened(c);
    let x5 = c.direct(a, entry, c.read_mask(), bits);
    let e6 = asked(c, bits, a);
    let x7 = E::L(a).both(c.here());
    let e8 = helped(c, bits, a);
    let x9 = E::Top.tee(entry).and(1);
    let e10 = answered(c, bits, a);
    let n = wasm_flow::behind(code, e10.end().code.len() as int, false, 0);
    reveal(Emit::take_i32);
    lemma_stages(c, bits, a, code);
    wasm_flow::lemma_op_stands(e10, Op::End, code);
    wasm_flow::lemma_op_stands(
        e8.val(x9),
        Op::BrIf(c.st.exit_with_fault_label, c.e.hint(HINT_GROUP_MEM, HINT_UNLIKELY)),
        code,
    );
    wasm_flow::lemma_val_stands(e8, x9, code, false, 1);
    wasm_flow::lemma_op_stands(e6.val(x7), Op::Call(bits.read_helper(), Sig::Fn2Ret), code);
    wasm_flow::lemma_val_stands(e6, x7, code, false, 1);
    wasm_flow::lemma_op_stands(
        e4.val(x5),
        Op::BrIf(first.label(), c.e.hint(HINT_GROUP_MEM, HINT_LIKELY)),
        code,
    );
    wasm_flow::lemma_val_stands(e4, x5, code, false, 1);
    wasm_flow::lemma_op_stands(first, Op::Block(BlockType::Void), code);
    wasm_flow::lemma_set_stands(c.e.take_i32(), entry, E::C(0), code, false, 0);
    assert(wasm_flow::behind(code, e10.code.len() as int, false, 1) == n);
    assert(wasm_flow::behind(code, e8.val(x9).code.len() as int, false, 1) == n);
    assert(wasm_flow::behind(code, e6.val(x7).code.len() as int, false, 1) == n);
    assert(wasm_flow::behind(code, e4.val(x5).code.len() as int, false, 1) == n);
    assert(wasm_flow::behind(code, first.code.len() as int, false, 0) == n);
}

/// Where the branches around the permission map lead.
#[verifier::spinoff_prover]
proof fn lemma_probe_exits(c: Ctx, bits: BitSize, a: usize, off: usize, code: Seq<Op>)
    requires
        probe_loaded(c, bits, a, off).code.is_prefix_of(code),
        code.len() <= usize::MAX,
    ensures
        placed(c, bits, a, off).code.is_prefix_of(code),
        granted(c, bits, a, off).code.is_prefix_of(code),
        probed(c, bits, a).code.is_prefix_of(code),
        c.e.block().code.is_prefix_of(code),
        answered(c.on(granted(c, bits, a, off)), bits, a).end().code.is_prefix_of(code),
        answered(c.on(granted(c, bits, a, off)), bits, a).end().code.len() < placed(
            c,
            bits,
            a,
            off,
        ).code.len() < probe_loaded(c, bits, a, off).code.len(),
        probed(c, bits, a).code.len() < granted(c, bits, a, off).code.len() < placed(
            c,
            bits,
            a,
            off,
        ).code.len(),
        wasm_flow::behind(code, probed(c, bits, a).code.len() as int, true, 0) == granted(
            c,
            bits,
            a,
            off,
        ).code.len(),
        wasm_flow::exit_of(code, c.e.label()) == placed(c, bits, a, off).code.len(),
{
    let g1 = c.e.block();
    let q = c.perm_allowed(a, bits);
    let g2 = probed(c, bits, a);
    let p = E::L(a).binc(Bin::Add, c.st.env.mem8 as i32);
    let g3 = g2.val(p).op(Op::LocalSet(off));
    let g4 = g3.br(c.e.label());
    let g5 = granted(c, bits, a, off);
    let e11 = answered(c.on(g5), bits, a).end();
    let host = E::host(a, c.e.next_i32());
    let h1 = e11.val(host).op(Op::LocalSet(off));
    let h2 = placed(c, bits, a, off);
    reveal(Emit::label);
    wasm_flow::lemma_op_stands(h2.val(E::L(off)), Op::Load(bits.width(), 0), code);
    wasm_flow::lemma_val_stands(h2, E::L(off), code, false, 0);
    wasm_flow::lemma_op_stands(h1, Op::End, code);
    wasm_flow::lemma_op_stands(e11.val(host), Op::LocalSet(off), code);
    wasm_flow::lemma_val_stands(e11, host, code, false, 0);
    lemma_stages(c.on(g5), bits, a, code);
    lemma_translation_is_level(c.on(g5), bits, a, code);
    wasm_flow::lemma_op_stands(g4, Op::End, code);
    wasm_flow::lemma_op_stands(g3, Op::Br(c.e.label()), code);
    wasm_flow::lemma_op_stands(g2.val(p), Op::LocalSet(off), code);
    wasm_flow::lemma_val_stands(g2, p, code, false, 1);
    wasm_flow::lemma_val_stands(g2, p, code, true, 0);
    wasm_flow::lemma_op_stands(g1.val(q), Op::If(BlockType::Void, None), code);
    wasm_flow::lemma_val_stands(g1, q, code, false, 0);
    wasm_flow::lemma_op_stands(c.e, Op::Block(BlockType::Void), code);
    assert(c.e.label().0 == c.e.code.len());
    assert(wasm_flow::behind(code, g4.code.len() as int, true, 0) == g5.code.len());
    assert(wasm_flow::behind(code, g3.code.len() as int, true, 0) == g5.code.len());
    assert(wasm_flow::behind(code, g2.val(p).code.len() as int, true, 0) == g5.code.len());
    let end = h2.code.len() as int;
    assert(wasm_flow::behind(code, h1.code.len() as int, false, 0) == end);
    assert(wasm_flow::behind(code, e11.val(host).code.len() as int, false, 0) == end);
    assert(wasm_flow::behind(code, g5.code.len() as int, false, 0) == end);
    assert(wasm_flow::behind(code, g4.code.len() as int, false, 1) == end);
    assert(wasm_flow::behind(code, g3.code.len() as int, false, 1) == end);
    assert(wasm_flow::behind(code, g2.val(p).code.len() as int, false, 1) == end);
    assert(wasm_flow::behind(code, g1.val(q).code.len() as int, false, 0) == end);
}

/// The local for the probed address is cleared where the read brings it.
pub open spec fn slot_cleared(c: Ctx, s: Words) -> Words {
    if c.st.perm_map_off is None {
        s.set(c.e.next_i32(), 0)
    } else {
        s
    }
}

proof fn lemma_slot(c: Ctx, code: Seq<Op>, s: Words, h: Helpers)
    requires
        c.perm_probed(),
        c.perm_slot().e.code.is_prefix_of(code),
    ensures
        wasm_flow::goes(code, c.e.code.len() as int, s, h) == wasm_flow::goes(
            code,
            c.perm_slot().e.code.len() as int,
            slot_cleared(c, s),
            h,
        ),
{
    if c.st.perm_map_off is None {
        let off = c.e.next_i32();
        let e = c.e.take_i32();
        reveal(Emit::take_i32);
        wasm_run::evaluate_constant(0, s);
        wasm_flow::lemma_set(e, off, E::C(0), s, 0, code, h);
    }
}

/// What a read that asks the permission map leaves, from the state in which it asks.
pub open spec fn probe_leads(
    c: Ctx,
    bits: BitSize,
    a: usize,
    code: Seq<Op>,
    end: int,
    s: Words,
    h: Helpers,
) -> (int, Words) {
    let entry = c.e.next_i32();
    let off = (c.st.perm_map_off->0).0;
    let address = s.locals[a];
    if codegen_mem_laws::is_allowed(c, address, bits, s) {
        let at = address.wrapping_add(c.st.env.mem8 as i32);
        (end, with_loaded(bits, s.set(off, at), at as u32))
    } else {
        let (q, t) = translated(c, bits, a, entry, code, end, s, h);
        if q == end {
            let at = (t.locals[entry] & PAGE_MASK) ^ address;
            (q, with_read(c, bits, t.locals[entry], address, t.set(off, at)))
        } else {
            (q, t)
        }
    }
}

/// A kept place is loaded from.
proof fn lemma_place_loaded(
    bits: BitSize,
    off: usize,
    e: Emit,
    code: Seq<Op>,
    t: Words,
    h: Helpers,
)
    requires
        !(bits is DQWORD),
        e.val(E::L(off)).op(Op::Load(bits.width(), 0)).code.is_prefix_of(code),
    ensures
        wasm_flow::goes(code, e.code.len() as int, t, h) == wasm_flow::goes(
            code,
            e.val(E::L(off)).op(Op::Load(bits.width(), 0)).code.len() as int,
            with_loaded(bits, t, t.locals[off] as u32),
            h,
        ),
{
    let v = t.locals[off];
    wasm_flow::lemma_op_stands(e.val(E::L(off)), Op::Load(bits.width(), 0), code);
    wasm_run::evaluate_local(off, t);
    wasm_flow::lemma_val(e, E::L(off), t, v, t, code, h);
    let pushed = t.on(t.stack.push(v));
    assert((v as u32).wrapping_add(0) == v as u32);
    assert(pushed.stack.drop_last() =~= t.stack);
    assert(pushed.pop() == t);
}

/// The code of a read that asks the permission map first leaves the value at its address in
/// guest memory, where the map allows the read and the read stays inside the page. Elsewhere
/// the read is translated as one is that does not ask the map.
#[verifier::spinoff_prover]
pub proof fn law_allowed_reads_go_to_guest_memory(
    c: Ctx,
    bits: BitSize,
    a: usize,
    to: u32,
    code: Seq<Op>,
    s: Words,
    h: Helpers,
)
    requires
        is_probed_read(c, bits),
        a != c.perm_slot().e.next_i32(),
        (c.perm_slot().st.perm_map_off->0).0 != a,
        (c.perm_slot().st.perm_map_off->0).0 != c.perm_slot().e.next_i32(),
        stands_in(c, c.safe_read(bits, a, to).e.code, code),
    ensures
        ({
            let end = c.safe_read(bits, a, to).e.code.len() as int;
            let (q, t) = probe_leads(c.perm_slot(), bits, a, code, end, slot_cleared(c, s), h);
            wasm_flow::goes(code, c.e.code.len() as int, s, h) == wasm_flow::goes(code, q, t, h)
        }),
{
    let k = c.perm_slot();
    let off = (k.st.perm_map_off->0).0;
    let entry = k.e.next_i32();
    let s1 = slot_cleared(c, s);
    let address = s1.locals[a];
    let allowed = codegen_mem_laws::is_allowed(k, address, bits, s1);
    let v = wasm_run::truth(allowed);
    let g1 = k.e.block();
    let question = k.perm_allowed(a, bits);
    let g2 = probed(k, bits, a);
    let sum = E::L(a).binc(Bin::Add, k.st.env.mem8 as i32);
    let g3 = g2.val(sum).op(Op::LocalSet(off));
    let g4 = g3.br(k.e.label());
    let g5 = granted(k, bits, a, off);
    let c2 = k.on(g5);
    let e11 = answered(c2, bits, a).end();
    let host = E::host(a, entry);
    let h1 = e11.val(host).op(Op::LocalSet(off));
    let h2 = placed(k, bits, a, off);
    let at = address.wrapping_add(k.st.env.mem8 as i32);
    reveal_with_fuel(wasm_flow::calls_nothing, 10);
    lemma_probe_shape(c, bits, a, to);
    lemma_probe_exits(k, bits, a, off, code);
    assert(c2.e.next_i32() == entry) by {
        broadcast use crate::wasm::group_code;

    }
    // The question.
    wasm_flow::lemma_op_stands(k.e, Op::Block(BlockType::Void), code);
    lemma_slot(c, code, s, h);
    assert(wasm_flow::goes(code, k.e.code.len() as int, s1, h) == wasm_flow::goes(
        code,
        g1.code.len() as int,
        s1,
        h,
    ));
    wasm_flow::lemma_op_stands(g1.val(question), Op::If(BlockType::Void, None), code);
    codegen_mem_laws::evaluate_allowed(k, a, bits, s1);
    wasm_flow::lemma_val(g1, question, s1, v, s1, code, h);
    let told = s1.on(s1.stack.push(v));
    assert(told.stack.drop_last() =~= s1.stack);
    assert(told.pop() == s1);
    assert(told.top() == v);
    assert(wasm_flow::goes(code, g1.val(question).code.len() as int, told, h) == wasm_flow::goes(
        code,
        if allowed {
            g2.code.len() as int
        } else {
            g5.code.len() as int
        },
        s1,
        h,
    ));
    if allowed {
        let kept = s1.set(off, at);
        wasm_flow::lemma_op_stands(g4, Op::End, code);
        wasm_flow::lemma_op_stands(g3, Op::Br(k.e.label()), code);
        wasm_run::evaluate_local(a, s1);
        wasm_run::evaluate_binc(Bin::Add, E::L(a), k.st.env.mem8 as i32, s1, address, s1);
        wasm_flow::lemma_set(g2, off, sum, s1, at, code, h);
        assert(wasm_flow::goes(code, g3.code.len() as int, kept, h) == wasm_flow::goes(
            code,
            h2.code.len() as int,
            kept,
            h,
        ));
        lemma_place_loaded(bits, off, h2, code, kept, h);
    } else {
        lemma_translated(c2, bits, a, code, s1, h);
        let (q, t) = translated(c2, bits, a, entry, code, e11.code.len() as int, s1, h);
        if q == e11.code.len() {
            let word = t.locals[entry];
            let there = (word & PAGE_MASK) ^ address;
            let kept = t.set(off, there);
            assert(t.locals[a] == address);
            wasm_flow::lemma_op_stands(h1, Op::End, code);
            codegen_mem_laws::evaluate_host(a, entry, t);
            wasm_flow::lemma_set(e11, off, host, t, there, code, h);
            assert(wasm_flow::goes(code, h1.code.len() as int, kept, h) == wasm_flow::goes(
                code,
                h2.code.len() as int,
                kept,
                h,
            ));
            lemma_place_loaded(bits, off, h2, code, kept, h);
            codegen_mem_laws::lemma_place(word, address, k.st.env.mem8);
        }
    }
}

/// Nothing is counted, and reads are not cached.
pub open spec fn is_uncached_read(c: Ctx, bits: BitSize) -> bool {
    is_plain_read(c, bits) || is_probed_read(c, bits)
}

/// Where the code of a read leads: the position behind it, with the value on the stack, or the
/// unit's fault exit.
pub open spec fn read_leads(
    c: Ctx,
    bits: BitSize,
    a: usize,
    code: Seq<Op>,
    end: int,
    s: Words,
    h: Helpers,
) -> (int, Words) {
    if c.perm_probed() {
        probe_leads(c.perm_slot(), bits, a, code, end, slot_cleared(c, s), h)
    } else {
        let entry = c.e.next_i32();
        let (q, t) = translated(c, bits, a, entry, code, end, s, h);
        if q == end {
            (q, with_read(c, bits, t.locals[entry], t.locals[a], t))
        } else {
            (q, t)
        }
    }
}

/// The locals of a read are apart.
pub open spec fn locals_are_apart(c: Ctx, a: usize) -> bool {
    let k = c.perm_slot();
    &&& a != k.e.next_i32()
    &&& c.perm_probed() ==> (k.st.perm_map_off->0).0 != a && (k.st.perm_map_off->0).0
        != k.e.next_i32()
}

pub proof fn lemma_read_leads(
    c: Ctx,
    bits: BitSize,
    a: usize,
    to: u32,
    code: Seq<Op>,
    s: Words,
    h: Helpers,
)
    requires
        is_uncached_read(c, bits),
        locals_are_apart(c, a),
        stands_in(c, c.safe_read(bits, a, to).e.code, code),
    ensures
        ({
            let end = c.safe_read(bits, a, to).e.code.len() as int;
            let (q, t) = read_leads(c, bits, a, code, end, s, h);
            wasm_flow::goes(code, c.e.code.len() as int, s, h) == wasm_flow::goes(code, q, t, h)
        }),
{
    if c.perm_probed() {
        law_allowed_reads_go_to_guest_memory(c, bits, a, to, code, s, h);
    } else {
        law_reads_are_translated(c, bits, a, to, code, s, h);
    }
}

/// Nothing is counted, and reads of 128 bits ask the translation table at once.
pub open spec fn is_plain_read128(c: Ctx) -> bool {
    &&& !c.e.opt.profiler
    &&& !c.st.env.read_tlb_cache
    &&& !c.perm_probed()
}

/// The place of a read, on the stack.
spec fn place_found(c: Ctx, a: usize) -> Emit {
    answered(c, BitSize::DQWORD, a).end().val(E::host(a, c.e.next_i32()))
}

/// The local that keeps the place of a read of 128 bits.
pub closed spec fn kept_local(c: Ctx, a: usize) -> usize {
    place_found(c, a).next_i32()
}

/// One half of 128 bits is copied.
spec fn copied(e: Emit, x: usize, from: u32, to: u32) -> Emit {
    e.store(Width::W64, to, E::C(0), E::L(x).load(Width::W64, from))
}

proof fn lemma_shape128(c: Ctx, a: usize, to: u32)
    requires
        is_plain_read128(c),
    ensures
        c.safe_read(BitSize::DQWORD, a, to).e.code == copied(
            copied(
                place_found(c, a).take_i32().op(Op::LocalSet(kept_local(c, a))),
                kept_local(c, a),
                0,
                to,
            ),
            kept_local(c, a),
            8,
            to.wrapping_add(8),
        ).code,
{
    broadcast use crate::wasm::group_code;

    reveal(Ctx::safe_read);
    reveal(Ctx::translated_load);
    reveal(Ctx::translate_read);
    reveal(Ctx::ask_read_cache);
    reveal(Ctx::direct_read);
    reveal(Emit::report_slow);
    reveal(Emit::fault_check);
    reveal(Emit::load_at_top);
    reveal(Emit::profile);
    reveal(Emit::give_i32);
}

/// With the 64 bits at one place stored at another.
pub open spec fn moved64(t: Words, from: u32, to: u32) -> Words {
    Words {
        memory: wasm_run::stored_wide(t.memory, to, wasm_run::wide_at(t.memory, from)),
        ..t
    }
}

proof fn lemma_copied(e: Emit, x: usize, from: u32, to: u32, code: Seq<Op>, t: Words, h: Helpers)
    requires
        copied(e, x, from, to).code.is_prefix_of(code),
    ensures
        e.code.is_prefix_of(code),
        e.code.len() < copied(e, x, from, to).code.len(),
        wasm_flow::goes(code, e.code.len() as int, t, h) == wasm_flow::goes(
            code,
            copied(e, x, from, to).code.len() as int,
            moved64(t, (t.locals[x] as u32).wrapping_add(from), to),
            h,
        ),
{
    let y = E::C(0).both(E::L(x).load(Width::W64, from));
    let v = t.locals[x];
    let t1 = t.push(0);
    let value = wasm_run::wide_at(t.memory, (v as u32).wrapping_add(from));
    let t2 = t1.push_wide(value);
    wasm_flow::lemma_op_stands(e.val(y), Op::Store(Width::W64, to), code);
    wasm_flow::lemma_val_stands(e, y, code, false, 0);
    reveal(Emit::val);
    reveal_with_fuel(E::done, 4);
    reveal_with_fuel(wasm_flow::calls_nothing, 4);
    assert(t1.push(v).stack.drop_last() =~= t1.stack);
    assert(t1.push(v).pop() == t1);
    assert(y.done(t) == t2);
    wasm_flow::lemma_expression(y, e.code, code, t, h);
    assert(t2.stack.drop_last() =~= t.stack);
    assert(t2.wide.drop_last() =~= t.wide);
    assert((0i32 as u32).wrapping_add(to) == to);
    assert(wasm_run::step(Op::Store(Width::W64, to), t2) == moved64(
        t,
        (v as u32).wrapping_add(from),
        to,
    ));
}

/// The code of a read of 128 bits copies them, from the place that the translation entry of the
/// page names, or the helper, to the place that it was given. Where the helper reports a fault,
/// the unit is left by its fault exit and nothing is copied.
pub proof fn law_wide_reads_are_copied(
    c: Ctx,
    a: usize,
    to: u32,
    code: Seq<Op>,
    s: Words,
    h: Helpers,
)
    requires
        is_plain_read128(c),
        a != c.e.next_i32(),
        stands_in(c, c.safe_read(BitSize::DQWORD, a, to).e.code, code),
    ensures
        ({
            let entry = c.e.next_i32();
            let end = c.safe_read(BitSize::DQWORD, a, to).e.code.len() as int;
            let (q, t) = translated(c, BitSize::DQWORD, a, entry, code, end, s, h);
            let at = codegen_mem_laws::place(t.locals[entry], t.locals[a], c.st.env.mem8);
            let kept = t.set(kept_local(c, a), at as i32);
            wasm_flow::goes(code, c.e.code.len() as int, s, h) == wasm_flow::goes(
                code,
                q,
                if q == end {
                    moved64(moved64(kept, at, to), at.wrapping_add(8), to.wrapping_add(8))
                } else {
                    t
                },
                h,
            )
        }),
{
    let bits = BitSize::DQWORD;
    let entry = c.e.next_i32();
    let e11 = answered(c, bits, a).end();
    let host = E::host(a, entry);
    let e12 = place_found(c, a);
    let x = kept_local(c, a);
    let e13 = e12.take_i32().op(Op::LocalSet(x));
    let e14 = copied(e13, x, 0, to);
    let e15 = copied(e14, x, 8, to.wrapping_add(8));
    reveal(Emit::take_i32);
    lemma_shape128(c, a, to);
    lemma_copied(e14, x, 8, to.wrapping_add(8), code, s, h);
    lemma_copied(e13, x, 0, to, code, s, h);
    wasm_flow::lemma_op_stands(e12.take_i32(), Op::LocalSet(x), code);
    wasm_flow::lemma_val_stands(e11, host, code, false, 0);
    lemma_translated(c, bits, a, code, s, h);
    let (q, t) = translated(c, bits, a, entry, code, e11.code.len() as int, s, h);
    if q == e11.code.len() {
        let address = t.locals[a];
        let word = t.locals[entry];
        let v = (word & PAGE_MASK) ^ address;
        let at = codegen_mem_laws::place(word, address, c.st.env.mem8);
        lemma_calls_nothing(c, a, entry, 0, bits);
        codegen_mem_laws::evaluate_host(a, entry, t);
        wasm_flow::lemma_val(e11, host, t, v, t, code, h);
        codegen_mem_laws::lemma_place(word, address, c.st.env.mem8);
        assert(v as u32 == at);
        assert(at as i32 == v) by {
            crate::codegen_cond_laws::bits_of_casts(v);
        }
        let pushed = t.on(t.stack.push(v));
        let kept = t.set(x, v);
        assert(pushed.stack.drop_last() =~= t.stack);
        assert(wasm_run::step(Op::LocalSet(x), pushed) == kept);
        lemma_copied(e13, x, 0, to, code, kept, h);
        assert((v as u32).wrapping_add(0) == at);
        let half = moved64(kept, at, to);
        lemma_copied(e14, x, 8, to.wrapping_add(8), code, half, h);
    }
}

} // verus!
