//! What the code of a memory write does from its first instruction to its last.
use vstd::prelude::*;
use crate::codegen_mem::{BitSize, GenSafeWriteValue};
use crate::codegen_mem_laws;
use crate::codegen_read_laws;
use crate::cpu_state::PAGE_MASK;
use crate::jit_context::Ctx;
use crate::wasm::{
    Bin, BlockType, Emit, Op, Sig, WasmLocal, E, HINT_GROUP_MEM, HINT_LIKELY, HINT_UNLIKELY,
};
use crate::wasm_flow;
use crate::wasm_flow::Helpers;
use crate::wasm_run;
use crate::wasm_run::Words;

verus! {

/// Nothing is counted, and the value is in one local.
pub open spec fn is_plain_write(c: Ctx, bits: BitSize) -> bool {
    &&& !c.e.opt.profiler
    &&& bits is BYTE || bits is WORD || bits is DWORD
}

/// The read cache, where there is one, is dropped.
pub open spec fn cache_dropped(c: Ctx, s: Words) -> Words {
    match c.st.read_tlb_cache {
        Some(cache) => s.set(cache.valid.0, 0),
        None => s,
    }
}

/// The read cache has a local of its own for its validity.
pub open spec fn cache_is_apart(c: Ctx, x: usize) -> bool {
    match c.st.read_tlb_cache {
        Some(cache) => cache.valid.0 != x,
        None => true,
    }
}

/// What the helper answers to a write, and the memory that it leaves.
pub open spec fn asked_of(
    c: Ctx,
    bits: BitSize,
    address: i32,
    value: i32,
    memory: Map<u32, i32>,
    h: Helpers,
) -> (i32, Map<u32, i32>) {
    (h.answer)(
        bits.write_helper().0,
        seq![address, value, crate::cpu_state::page_offset(c.st.start_of_current_instruction)],
        memory,
    )
}

/// Memory once a value is written at an address, by a translation entry.
pub open spec fn written_at(
    c: Ctx,
    bits: BitSize,
    word: i32,
    address: i32,
    value: i32,
    memory: Map<u32, i32>,
) -> Map<u32, i32> {
    let at = codegen_mem_laws::place(word, address, c.st.env.mem8);
    wasm_run::stored(bits.width(), memory, at, value)
}

/// The translation table is asked, and a direct write leaves the block.
pub open spec fn asked(c: Ctx, bits: BitSize, a: usize) -> Emit {
    c.e.block().take_i32().val(c.direct(a, c.e.next_i32(), c.write_mask(), bits)).op(
        Op::BrIf(c.e.label(), c.e.hint(HINT_GROUP_MEM, HINT_LIKELY)),
    )
}

/// The read cache is dropped.
pub open spec fn dropped(c: Ctx, e: Emit) -> Emit {
    match c.st.read_tlb_cache {
        Some(cache) => e.set(cache.valid.0, E::C(0)),
        None => e,
    }
}

/// The helper is called.
pub open spec fn helped(c: Ctx, bits: BitSize, a: usize, x: usize, e: Emit) -> Emit {
    e.val(E::L(a).both(E::L(x)).both(c.here())).op(Op::Call(bits.write_helper().0, Sig::Fn3Ret))
}

/// The helper's answer is kept, and a fault leaves the unit.
pub open spec fn answered(c: Ctx, entry: usize, e: Emit) -> Emit {
    e.val(E::Top.tee(entry).and(1)).op(
        Op::BrIf(c.st.exit_with_fault_label, e.hint(HINT_GROUP_MEM, HINT_UNLIKELY)),
    )
}

spec fn checked(c: Ctx, bits: BitSize, a: usize, x: usize) -> Emit {
    answered(c, c.e.next_i32(), helped(c, bits, a, x, dropped(c, asked(c, bits, a))))
}

/// The value is stored at the address on the stack.
pub open spec fn put(bits: BitSize, x: usize, e: Emit) -> Emit {
    e.val(E::L(x)).op(Op::Store(bits.width(), 0))
}

spec fn written(c: Ctx, bits: BitSize, a: usize, x: usize) -> Emit {
    put(bits, x, checked(c, bits, a, x).end().val(E::host(a, c.e.next_i32())))
}

proof fn lemma_shape(c: Ctx, bits: BitSize, a: usize, x: usize)
    requires
        is_plain_write(c, bits),
        !c.st.fastmem_writes,
    ensures
        c.safe_write(bits, a, GenSafeWriteValue::I32(WasmLocal(x))).e.code == written(
            c,
            bits,
            a,
            x,
        ).code,
{
    broadcast use crate::wasm::group_code;

    reveal(Ctx::safe_write);
    reveal(Ctx::translated_write);
    reveal(Emit::report_slow);
    reveal(Emit::fault_check);
    reveal(Emit::store_at_top);
    reveal(Emit::profile);
    reveal(Emit::give_i32);
}

/// The call of the helper.
#[verifier::spinoff_prover]
pub proof fn lemma_helped(
    c: Ctx,
    bits: BitSize,
    a: usize,
    x: usize,
    e: Emit,
    code: Seq<Op>,
    t: Words,
    h: Helpers,
)
    requires
        helped(c, bits, a, x, e).code.is_prefix_of(code),
    ensures
        e.code.is_prefix_of(code),
        e.code.len() < helped(c, bits, a, x, e).code.len(),
        wasm_flow::is_level(code, e.code.len() as int, helped(c, bits, a, x, e).code.len() as int),
        ({
            let (answer, memory) = asked_of(c, bits, t.locals[a], t.locals[x], t.memory, h);
            wasm_flow::goes(code, e.code.len() as int, t, h) == wasm_flow::goes(
                code,
                helped(c, bits, a, x, e).code.len() as int,
                Words { memory, ..t }.push(answer),
                h,
            )
        }),
{
    let address = t.locals[a];
    let value = t.locals[x];
    let here = crate::cpu_state::page_offset(c.st.start_of_current_instruction);
    let (answer, memory) = asked_of(c, bits, address, value, t.memory, h);
    let operands = E::L(a).both(E::L(x)).both(c.here());
    let name = bits.write_helper().0;
    wasm_flow::lemma_op_stands(e.val(operands), Op::Call(name, Sig::Fn3Ret), code);
    wasm_flow::lemma_val_stands(e, operands, code, false, 0);
    wasm_flow::lemma_val_is_level(e, operands, code);
    reveal(Emit::val);
    reveal_with_fuel(E::done, 4);
    reveal_with_fuel(wasm_flow::calls_nothing, 4);
    wasm_flow::lemma_expression(operands, e.code, code, t, h);
    let one = t.push(address);
    let two = one.push(value);
    let all = two.push(here);
    assert(operands.done(t) == all);
    assert(all.stack.drop_last() =~= two.stack);
    assert(two.stack.drop_last() =~= one.stack);
    assert(one.stack.drop_last() =~= t.stack);
    assert(all.pop() == two);
    assert(two.pop() == one);
    assert(one.pop() == t);
    assert(wasm_flow::called(name, Sig::Fn3Ret, all, h) == Words { memory, ..t }.push(answer));
}

/// The answer of the helper.
pub proof fn lemma_answered(
    c: Ctx,
    entry: usize,
    e: Emit,
    code: Seq<Op>,
    u: Words,
    answer: i32,
    h: Helpers,
)
    requires
        answered(c, entry, e).code.is_prefix_of(code),
        c.st.exit_with_fault_label.0 < code.len(),
        code[c.st.exit_with_fault_label.0 as int] is Block,
        answered(c, entry, e).code.len() <= wasm_flow::exit_of(code, c.st.exit_with_fault_label),
    ensures
        e.code.is_prefix_of(code),
        e.code.len() < answered(c, entry, e).code.len(),
        wasm_flow::is_level(code, e.code.len() as int, answered(c, entry, e).code.len() as int),
        wasm_flow::goes(code, e.code.len() as int, u.push(answer), h) == wasm_flow::goes(
            code,
            if answer & 1 != 0 {
                wasm_flow::exit_of(code, c.st.exit_with_fault_label)
            } else {
                answered(c, entry, e).code.len() as int
            },
            u.set(entry, answer),
            h,
        ),
{
    let leave = Op::BrIf(c.st.exit_with_fault_label, e.hint(HINT_GROUP_MEM, HINT_UNLIKELY));
    let x = E::Top.tee(entry).and(1);
    codegen_read_laws::lemma_fault_checked(e, entry, leave, code, u, answer, h);
    wasm_flow::lemma_op_stands(e.val(x), leave, code);
    wasm_flow::lemma_val_stands(e, x, code, false, 0);
    wasm_flow::lemma_val_is_level(e, x, code);
}

/// The read cache is dropped.
pub proof fn lemma_dropped(c: Ctx, e: Emit, code: Seq<Op>, t: Words, h: Helpers)
    requires
        dropped(c, e).code.is_prefix_of(code),
    ensures
        e.code.is_prefix_of(code),
        e.code.len() <= dropped(c, e).code.len(),
        wasm_flow::is_level(code, e.code.len() as int, dropped(c, e).code.len() as int),
        wasm_flow::goes(code, e.code.len() as int, t, h) == wasm_flow::goes(
            code,
            dropped(c, e).code.len() as int,
            cache_dropped(c, t),
            h,
        ),
{
    if c.st.read_tlb_cache is Some {
        let valid = (c.st.read_tlb_cache->0).valid.0;
        wasm_run::evaluate_constant(0, t);
        wasm_flow::lemma_set_is_level(e, valid, E::C(0), code);
        wasm_flow::lemma_set(e, valid, E::C(0), t, 0, code, h);
    }
}

/// The store.
pub proof fn lemma_put(
    bits: BitSize,
    x: usize,
    e: Emit,
    code: Seq<Op>,
    t: Words,
    v: i32,
    h: Helpers,
)
    requires
        !wasm_run::is_wide(bits.width()),
        put(bits, x, e).code.is_prefix_of(code),
    ensures
        e.code.is_prefix_of(code),
        e.code.len() < put(bits, x, e).code.len(),
        wasm_flow::goes(code, e.code.len() as int, t.push(v), h) == wasm_flow::goes(
            code,
            put(bits, x, e).code.len() as int,
            Words {
                memory: wasm_run::stored(bits.width(), t.memory, v as u32, t.locals[x]),
                ..t
            },
            h,
        ),
{
    let s = t.push(v);
    let value = t.locals[x];
    wasm_flow::lemma_op_stands(e.val(E::L(x)), Op::Store(bits.width(), 0), code);
    wasm_flow::lemma_val_stands(e, E::L(x), code, false, 0);
    wasm_run::evaluate_local(x, s);
    wasm_flow::lemma_val(e, E::L(x), s, value, s, code, h);
    let both = s.on(s.stack.push(value));
    assert(both.stack.drop_last() =~= s.stack);
    assert(s.stack.drop_last() =~= t.stack);
    assert(both.below() == v);
    assert((v as u32).wrapping_add(0) == v as u32);
    assert(both.pop().pop() == t);
}

/// The code of a write stands inside the block that the unit's fault exit leaves, and its locals
/// are apart.
pub open spec fn stands_in(c: Ctx, after: Seq<Op>, a: usize, x: usize, code: Seq<Op>) -> bool {
    &&& codegen_read_laws::stands_in(c, after, code)
    &&& a != c.e.next_i32()
    &&& x != c.e.next_i32()
    &&& cache_is_apart(c, a)
    &&& cache_is_apart(c, x)
    &&& cache_is_apart(c, c.e.next_i32())
}

/// The end of a write through the translation table: the store at the place that the entry
/// names.
proof fn lemma_placed(
    c: Ctx,
    bits: BitSize,
    a: usize,
    x: usize,
    code: Seq<Op>,
    t: Words,
    h: Helpers,
)
    requires
        !wasm_run::is_wide(bits.width()),
        written(c, bits, a, x).code.is_prefix_of(code),
    ensures
        checked(c, bits, a, x).end().code.is_prefix_of(code),
        checked(c, bits, a, x).end().code.len() < written(c, bits, a, x).code.len(),
        wasm_flow::goes(code, checked(c, bits, a, x).end().code.len() as int, t, h)
            == wasm_flow::goes(
            code,
            written(c, bits, a, x).code.len() as int,
            Words {
                memory: written_at(
                    c,
                    bits,
                    t.locals[c.e.next_i32()],
                    t.locals[a],
                    t.locals[x],
                    t.memory,
                ),
                ..t
            },
            h,
        ),
{
    let entry = c.e.next_i32();
    let e = checked(c, bits, a, x).end();
    let host = E::host(a, entry);
    let word = t.locals[entry];
    let v = (word & PAGE_MASK) ^ t.locals[a];
    lemma_put(bits, x, e.val(host), code, t, v, h);
    wasm_flow::lemma_val_stands(e, host, code, false, 0);
    codegen_read_laws::lemma_calls_nothing(c, a, entry, 0, bits);
    codegen_mem_laws::evaluate_host(a, entry, t);
    wasm_flow::lemma_val(e, host, t, v, t, code, h);
    assert(t.on(t.stack.push(v)) == t.push(v));
    codegen_mem_laws::lemma_place(word, t.locals[a], c.st.env.mem8);
}

/// The code of a write that goes by the translation table stores the value at the place that
/// the translation entry of the page names, where the entry allows the write and the write
/// stays inside the page. Elsewhere the helper is asked, and the read cache is dropped: the
/// value is stored at the place that the helper names, or, where it reports a fault, the unit
/// is left by its fault exit and nothing is stored.
#[verifier::spinoff_prover]
pub proof fn law_writes_are_translated(
    c: Ctx,
    bits: BitSize,
    a: usize,
    x: usize,
    code: Seq<Op>,
    s: Words,
    h: Helpers,
)
    requires
        is_plain_write(c, bits),
        !c.st.fastmem_writes,
        stands_in(
            c,
            c.safe_write(bits, a, GenSafeWriteValue::I32(WasmLocal(x))).e.code,
            a,
            x,
            code,
        ),
    ensures
        ({
            let entry = c.e.next_i32();
            let address = s.locals[a];
            let value = s.locals[x];
            let word = codegen_mem_laws::translation(c, address, s);
            let (answer, memory) = asked_of(c, bits, address, value, s.memory, h);
            let t = cache_dropped(c, s).set(entry, answer);
            let ran = wasm_flow::goes(code, c.e.code.len() as int, s, h);
            let end = c.safe_write(
                bits,
                a,
                GenSafeWriteValue::I32(WasmLocal(x)),
            ).e.code.len() as int;
            if codegen_mem_laws::is_direct(c, c.write_mask(), address, bits, s) {
                ran == wasm_flow::goes(
                    code,
                    end,
                    Words {
                        memory: written_at(c, bits, word, address, value, s.memory),
                        ..s.set(entry, word)
                    },
                    h,
                )
            } else if answer & 1 == 0 {
                ran == wasm_flow::goes(
                    code,
                    end,
                    Words { memory: written_at(c, bits, answer, address, value, memory), ..t },
                    h,
                )
            } else {
                ran == wasm_flow::goes(
                    code,
                    wasm_flow::exit_of(code, c.st.exit_with_fault_label),
                    Words { memory, ..t },
                    h,
                )
            }
        }),
{
    let entry = c.e.next_i32();
    let address = s.locals[a];
    let value = s.locals[x];
    let word = codegen_mem_laws::translation(c, address, s);
    let (answer, memory) = asked_of(c, bits, address, value, s.memory, h);
    let direct = s.set(entry, word);
    let apart = cache_dropped(c, direct);
    let u = Words { memory, ..apart };
    let t = cache_dropped(c, s).set(entry, answer);
    let yes = codegen_mem_laws::is_direct(c, c.write_mask(), address, bits, s);
    let v = wasm_run::truth(yes);
    let first = c.e.block();
    let e1 = first.take_i32();
    let question = c.direct(a, entry, c.write_mask(), bits);
    let branch = Op::BrIf(c.e.label(), c.e.hint(HINT_GROUP_MEM, HINT_LIKELY));
    let e2 = asked(c, bits, a);
    let e3 = dropped(c, e2);
    let e4 = helped(c, bits, a, x, e3);
    let e5 = checked(c, bits, a, x);
    reveal(Emit::take_i32);
    reveal(Emit::label);
    lemma_shape(c, bits, a, x);
    lemma_placed(c, bits, a, x, code, direct, h);
    lemma_placed(c, bits, a, x, code, u.set(entry, answer), h);
    wasm_flow::lemma_op_stands(e5, Op::End, code);
    lemma_answered(c, entry, e4, code, u, answer, h);
    lemma_helped(c, bits, a, x, e3, code, apart, h);
    lemma_dropped(c, e2, code, direct, h);
    wasm_flow::lemma_op_stands(e1.val(question), branch, code);
    wasm_flow::lemma_val_stands(e1, question, code, false, 0);
    wasm_flow::lemma_op_stands(c.e, Op::Block(BlockType::Void), code);
    // The branch for a direct write goes behind the block.
    assert(wasm_flow::behind(code, e5.code.len() as int, false, 0) == e5.end().code.len());
    assert(wasm_flow::behind(code, e2.code.len() as int, false, 0) == wasm_flow::behind(
        code,
        e3.code.len() as int,
        false,
        0,
    ));
    assert(wasm_flow::behind(code, e4.code.len() as int, false, 0) == e5.end().code.len());
    assert(wasm_flow::behind(code, e1.val(question).code.len() as int, false, 0)
        == e5.end().code.len());
    assert(c.e.label().0 == c.e.code.len());
    assert(wasm_flow::exit_of(code, c.e.label()) == e5.end().code.len());
    // The question.
    codegen_mem_laws::evaluate_direct(c, a, entry, c.write_mask(), bits, s);
    codegen_read_laws::lemma_calls_nothing(c, a, entry, c.write_mask(), bits);
    wasm_flow::lemma_val(e1, question, s, v, direct, code, h);
    let told = direct.on(s.stack.push(v));
    assert(told.stack.drop_last() =~= s.stack);
    assert(told.pop() == direct);
    assert(told.top() == v);
    assert(wasm_flow::goes(code, e1.val(question).code.len() as int, told, h) == wasm_flow::goes(
        code,
        if yes {
            e5.end().code.len() as int
        } else {
            e2.code.len() as int
        },
        direct,
        h,
    ));
    assert(wasm_flow::goes(code, e5.code.len() as int, u.set(entry, answer), h)
        == wasm_flow::goes(code, e5.end().code.len() as int, u.set(entry, answer), h));
    // What the helper's answer leaves does not depend on the entry.
    assert(u.set(entry, answer).locals =~= t.locals);
}

/// Two blocks are opened, the store map is asked, and a refusal leaves the inner one.
pub open spec fn map_asked(c: Ctx, bits: BitSize, a: usize) -> Emit {
    let e0 = dropped(c, c.e);
    let e1 = e0.op(Op::Block(BlockType::I32));
    e1.block().val(c.store_refused(a, bits)).op(Op::BrIf(e1.label(), None))
}

/// The place of a page that takes stores leaves the outer block; the inner one ends.
pub open spec fn map_placed(c: Ctx, bits: BitSize, a: usize) -> Emit {
    map_asked(c, bits, a).val(E::C(c.st.env.mem8 as i32).bin(Bin::Add, E::L(a))).br(
        dropped(c, c.e).label(),
    ).end()
}

spec fn map_checked(c: Ctx, bits: BitSize, a: usize, x: usize) -> Emit {
    answered(c, c.e.next_i32(), helped(c, bits, a, x, map_placed(c, bits, a).take_i32()))
}

spec fn map_written(c: Ctx, bits: BitSize, a: usize, x: usize) -> Emit {
    put(bits, x, map_checked(c, bits, a, x).val(E::host(a, c.e.next_i32())).end())
}

proof fn lemma_map_shape(c: Ctx, bits: BitSize, a: usize, x: usize)
    requires
        is_plain_write(c, bits),
        c.st.fastmem_writes,
    ensures
        c.safe_write(bits, a, GenSafeWriteValue::I32(WasmLocal(x))).e.code == map_written(
            c,
            bits,
            a,
            x,
        ).code,
{
    broadcast use crate::wasm::group_code;

    reveal(Ctx::safe_write);
    reveal(Ctx::mapped_code);
    reveal(Emit::fault_check);
    reveal(Emit::store_at_local);
    reveal(Emit::profile);
    reveal(Emit::give_i32);
}

/// Where the branches around the store map lead.
#[verifier::spinoff_prover]
proof fn lemma_map_exits(
    c: Ctx,
    bits: BitSize,
    a: usize,
    x: usize,
    code: Seq<Op>,
    u: Words,
    t: Words,
    answer: i32,
    h: Helpers,
)
    requires
        !wasm_run::is_wide(bits.width()),
        stands_in(c, map_written(c, bits, a, x).code, a, x, code),
    ensures
        map_asked(c, bits, a).code.is_prefix_of(code),
        map_placed(c, bits, a).code.is_prefix_of(code),
        wasm_flow::exit_of(code, dropped(c, c.e).op(Op::Block(BlockType::I32)).label())
            == map_placed(c, bits, a).code.len(),
        wasm_flow::exit_of(code, dropped(c, c.e).label()) == map_checked(c, bits, a, x).val(
            E::host(a, c.e.next_i32()),
        ).end().code.len(),
        map_checked(c, bits, a, x).val(E::host(a, c.e.next_i32())).end().code.is_prefix_of(code),
        map_checked(c, bits, a, x).val(E::host(a, c.e.next_i32())).code.is_prefix_of(code),
        map_checked(c, bits, a, x).code.is_prefix_of(code),
        map_checked(c, bits, a, x).code.len() <= wasm_flow::exit_of(
            code,
            c.st.exit_with_fault_label,
        ),
        map_placed(c, bits, a).code.len() < map_checked(c, bits, a, x).val(
            E::host(a, c.e.next_i32()),
        ).end().code.len(),
{
    let entry = c.e.next_i32();
    let d0 = dropped(c, c.e);
    let d1 = d0.op(Op::Block(BlockType::I32));
    let d2 = d1.block();
    let q = c.store_refused(a, bits);
    let d3 = map_asked(c, bits, a);
    let p = E::C(c.st.env.mem8 as i32).bin(Bin::Add, E::L(a));
    let d4 = d3.val(p).br(d0.label());
    let d5 = map_placed(c, bits, a);
    let d6 = helped(c, bits, a, x, d5.take_i32());
    let d7 = map_checked(c, bits, a, x);
    let host = E::host(a, entry);
    reveal(Emit::take_i32);
    reveal(Emit::label);
    lemma_put(bits, x, d7.val(host).end(), code, t, 0, h);
    wasm_flow::lemma_op_stands(d7.val(host), Op::End, code);
    wasm_flow::lemma_val_stands(d7, host, code, false, 0);
    lemma_answered(c, entry, d6, code, u, answer, h);
    lemma_helped(c, bits, a, x, d5.take_i32(), code, t, h);
    wasm_flow::lemma_op_stands(d4, Op::End, code);
    wasm_flow::lemma_op_stands(d3.val(p), Op::Br(d0.label()), code);
    wasm_flow::lemma_val_stands(d3, p, code, false, 0);
    wasm_flow::lemma_val_stands(d3, p, code, false, 1);
    wasm_flow::lemma_op_stands(d2.val(q), Op::BrIf(d1.label(), None), code);
    wasm_flow::lemma_val_stands(d2, q, code, false, 0);
    wasm_flow::lemma_val_stands(d2, q, code, false, 1);
    wasm_flow::lemma_op_stands(d1, Op::Block(BlockType::Void), code);
    wasm_flow::lemma_op_stands(d0, Op::Block(BlockType::I32), code);
    assert(d0.label().0 == d0.code.len());
    assert(d1.label().0 == d1.code.len());
    assert(wasm_flow::behind(code, d4.code.len() as int, false, 0) == d5.code.len());
    assert(wasm_flow::behind(code, d3.val(p).code.len() as int, false, 0) == d5.code.len());
    assert(wasm_flow::behind(code, d2.val(q).code.len() as int, false, 0) == d5.code.len());
    let end = d7.val(host).end().code.len() as int;
    assert(wasm_flow::behind(code, d7.val(host).code.len() as int, false, 0) == end);
    assert(wasm_flow::behind(code, d5.code.len() as int, false, 0) == end);
    assert(wasm_flow::behind(code, d4.code.len() as int, false, 1) == end);
    assert(wasm_flow::behind(code, d3.val(p).code.len() as int, false, 1) == end);
    assert(wasm_flow::behind(code, d2.val(q).code.len() as int, false, 1) == end);
    assert(wasm_flow::behind(code, d1.code.len() as int, false, 0) == end);
}

/// The code of a write that goes by the store map drops the read cache and stores the value at
/// its address in guest memory, where the page takes stores and the write stays inside the
/// page. Elsewhere the helper is asked: the value is stored at the place that it names, or,
/// where it reports a fault, the unit is left by its fault exit and nothing is stored.
#[verifier::spinoff_prover]
pub proof fn law_mapped_writes_go_to_guest_memory(
    c: Ctx,
    bits: BitSize,
    a: usize,
    x: usize,
    code: Seq<Op>,
    s: Words,
    h: Helpers,
)
    requires
        is_plain_write(c, bits),
        c.st.fastmem_writes,
        stands_in(
            c,
            c.safe_write(bits, a, GenSafeWriteValue::I32(WasmLocal(x))).e.code,
            a,
            x,
            code,
        ),
    ensures
        ({
            let entry = c.e.next_i32();
            let address = s.locals[a];
            let value = s.locals[x];
            let (answer, memory) = asked_of(c, bits, address, value, s.memory, h);
            let apart = cache_dropped(c, s);
            let t = apart.set(entry, answer);
            let ran = wasm_flow::goes(code, c.e.code.len() as int, s, h);
            let end = c.safe_write(
                bits,
                a,
                GenSafeWriteValue::I32(WasmLocal(x)),
            ).e.code.len() as int;
            if codegen_mem_laws::is_taken(c, address, bits, s) {
                let at = c.st.env.mem8.wrapping_add(address as u32);
                ran == wasm_flow::goes(
                    code,
                    end,
                    Words { memory: wasm_run::stored(bits.width(), s.memory, at, value), ..apart },
                    h,
                )
            } else if answer & 1 == 0 {
                ran == wasm_flow::goes(
                    code,
                    end,
                    Words { memory: written_at(c, bits, answer, address, value, memory), ..t },
                    h,
                )
            } else {
                ran == wasm_flow::goes(
                    code,
                    wasm_flow::exit_of(code, c.st.exit_with_fault_label),
                    Words { memory, ..t },
                    h,
                )
            }
        }),
{
    let entry = c.e.next_i32();
    let address = s.locals[a];
    let value = s.locals[x];
    let (answer, memory) = asked_of(c, bits, address, value, s.memory, h);
    let apart = cache_dropped(c, s);
    let u = Words { memory, ..apart };
    let t = u.set(entry, answer);
    let yes = codegen_mem_laws::is_taken(c, address, bits, s);
    let v = wasm_run::truth(!yes);
    let d0 = dropped(c, c.e);
    let d1 = d0.op(Op::Block(BlockType::I32));
    let d2 = d1.block();
    let q = c.store_refused(a, bits);
    let d3 = map_asked(c, bits, a);
    let p = E::C(c.st.env.mem8 as i32).bin(Bin::Add, E::L(a));
    let d5 = map_placed(c, bits, a);
    let d6 = helped(c, bits, a, x, d5.take_i32());
    let d7 = map_checked(c, bits, a, x);
    let host = E::host(a, entry);
    let d8 = d7.val(host).end();
    let sum = wasm_run::binary(Bin::Add, c.st.env.mem8 as i32, address);
    let at = (answer & PAGE_MASK) ^ address;
    reveal(Emit::take_i32);
    reveal_with_fuel(wasm_flow::calls_nothing, 8);
    lemma_map_shape(c, bits, a, x);
    lemma_map_exits(c, bits, a, x, code, u, apart, answer, h);
    // What every path goes through.
    wasm_flow::lemma_op_stands(d2.val(q), Op::BrIf(d1.label(), None), code);
    wasm_flow::lemma_val_stands(d2, q, code, false, 0);
    wasm_flow::lemma_op_stands(d1, Op::Block(BlockType::Void), code);
    wasm_flow::lemma_op_stands(d0, Op::Block(BlockType::I32), code);
    lemma_dropped(c, c.e, code, s, h);
    assert(wasm_flow::goes(code, d0.code.len() as int, apart, h) == wasm_flow::goes(
        code,
        d1.code.len() as int,
        apart,
        h,
    ));
    assert(wasm_flow::goes(code, d1.code.len() as int, apart, h) == wasm_flow::goes(
        code,
        d2.code.len() as int,
        apart,
        h,
    ));
    assert(apart.locals[a] == address);
    assert(apart.locals[x] == value);
    codegen_mem_laws::evaluate_refused(c, a, bits, apart);
    wasm_flow::lemma_val(d2, q, apart, v, apart, code, h);
    let told = apart.on(apart.stack.push(v));
    assert(told.stack.drop_last() =~= apart.stack);
    assert(told.pop() == apart);
    assert(told.top() == v);
    wasm_flow::lemma_op_stands(d3.val(p).br(d0.label()), Op::End, code);
    wasm_flow::lemma_op_stands(d3.val(p), Op::Br(d0.label()), code);
    wasm_flow::lemma_val_stands(d3, p, code, false, 0);
    if yes {
        wasm_run::evaluate_constant(c.st.env.mem8 as i32, apart);
        wasm_run::evaluate_local(a, apart);
        wasm_run::evaluate_bin(
            Bin::Add,
            E::C(c.st.env.mem8 as i32),
            E::L(a),
            apart,
            c.st.env.mem8 as i32,
            apart,
            address,
            apart,
        );
        wasm_flow::lemma_val(d3, p, apart, sum, apart, code, h);
        assert(apart.on(apart.stack.push(sum)) == apart.push(sum));
        lemma_put(bits, x, d8, code, apart, sum, h);
        crate::codegen_value_laws::lemma_address_sum(c.st.env.mem8, address);
    } else {
        assert(wasm_flow::goes(code, d2.val(q).code.len() as int, told, h) == wasm_flow::goes(
            code,
            d5.code.len() as int,
            apart,
            h,
        ));
        lemma_answered(c, entry, d6, code, u, answer, h);
        lemma_helped(c, bits, a, x, d5.take_i32(), code, apart, h);
        codegen_read_laws::lemma_calls_nothing(c, a, entry, 0, bits);
        codegen_mem_laws::evaluate_host(a, entry, t);
        wasm_flow::lemma_val(d7, host, t, at, t, code, h);
        wasm_flow::lemma_op_stands(d7.val(host), Op::End, code);
        assert(t.on(t.stack.push(at)) == t.push(at));
        lemma_put(bits, x, d8, code, t, at, h);
        codegen_mem_laws::lemma_place(answer, address, c.st.env.mem8);
    }
}

/// Where the code of a write leads: the position behind it, with the value stored, or the unit's
/// fault exit.
pub open spec fn write_leads(
    c: Ctx,
    bits: BitSize,
    a: usize,
    x: usize,
    code: Seq<Op>,
    end: int,
    s: Words,
    h: Helpers,
) -> (int, Words) {
    let entry = c.e.next_i32();
    let address = s.locals[a];
    let value = s.locals[x];
    let word = codegen_mem_laws::translation(c, address, s);
    let guest = c.st.env.mem8.wrapping_add(address as u32);
    let (answer, memory) = asked_of(c, bits, address, value, s.memory, h);
    let t = cache_dropped(c, s).set(entry, answer);
    if c.st.fastmem_writes && codegen_mem_laws::is_taken(c, address, bits, s) {
        (
            end,
            Words {
                memory: wasm_run::stored(bits.width(), s.memory, guest, value),
                ..cache_dropped(c, s)
            },
        )
    } else if !c.st.fastmem_writes && codegen_mem_laws::is_direct(
        c,
        c.write_mask(),
        address,
        bits,
        s,
    ) {
        (
            end,
            Words {
                memory: written_at(c, bits, word, address, value, s.memory),
                ..s.set(entry, word)
            },
        )
    } else if answer & 1 == 0 {
        (end, Words { memory: written_at(c, bits, answer, address, value, memory), ..t })
    } else {
        (wasm_flow::exit_of(code, c.st.exit_with_fault_label), Words { memory, ..t })
    }
}

pub proof fn lemma_write_leads(
    c: Ctx,
    bits: BitSize,
    a: usize,
    x: usize,
    code: Seq<Op>,
    s: Words,
    h: Helpers,
)
    requires
        is_plain_write(c, bits),
        stands_in(
            c,
            c.safe_write(bits, a, GenSafeWriteValue::I32(WasmLocal(x))).e.code,
            a,
            x,
            code,
        ),
    ensures
        ({
            let end = c.safe_write(
                bits,
                a,
                GenSafeWriteValue::I32(WasmLocal(x)),
            ).e.code.len() as int;
            let (q, t) = write_leads(c, bits, a, x, code, end, s, h);
            wasm_flow::goes(code, c.e.code.len() as int, s, h) == wasm_flow::goes(code, q, t, h)
        }),
{
    if c.st.fastmem_writes {
        law_mapped_writes_go_to_guest_memory(c, bits, a, x, code, s, h);
    } else {
        law_writes_are_translated(c, bits, a, x, code, s, h);
    }
}

/// Where the code of a write stands.
pub proof fn lemma_write_stands(
    c: Ctx,
    bits: BitSize,
    a: usize,
    x: usize,
    code: Seq<Op>,
    s: Words,
    h: Helpers,
)
    requires
        is_plain_write(c, bits),
        stands_in(
            c,
            c.safe_write(bits, a, GenSafeWriteValue::I32(WasmLocal(x))).e.code,
            a,
            x,
            code,
        ),
    ensures
        c.e.code.is_prefix_of(code),
{
    let entry = c.e.next_i32();
    reveal(Emit::take_i32);
    if c.st.fastmem_writes {
        let d1 = dropped(c, c.e).op(Op::Block(BlockType::I32));
        let q = c.store_refused(a, bits);
        lemma_map_shape(c, bits, a, x);
        lemma_map_exits(c, bits, a, x, code, s, s, 0, h);
        wasm_flow::lemma_op_stands(d1.block().val(q), Op::BrIf(d1.label(), None), code);
        wasm_flow::lemma_val_stands(d1.block(), q, code, false, 0);
        wasm_flow::lemma_op_stands(d1, Op::Block(BlockType::Void), code);
        wasm_flow::lemma_op_stands(dropped(c, c.e), Op::Block(BlockType::I32), code);
        lemma_dropped(c, c.e, code, s, h);
    } else {
        let e1 = c.e.block().take_i32();
        let question = c.direct(a, entry, c.write_mask(), bits);
        let branch = Op::BrIf(c.e.label(), c.e.hint(HINT_GROUP_MEM, HINT_LIKELY));
        let e2 = asked(c, bits, a);
        let e4 = helped(c, bits, a, x, dropped(c, e2));
        lemma_shape(c, bits, a, x);
        lemma_placed(c, bits, a, x, code, s, h);
        wasm_flow::lemma_op_stands(checked(c, bits, a, x), Op::End, code);
        lemma_answered(c, entry, e4, code, s, 0, h);
        lemma_helped(c, bits, a, x, dropped(c, e2), code, s, h);
        lemma_dropped(c, e2, code, s, h);
        wasm_flow::lemma_op_stands(e1.val(question), branch, code);
        wasm_flow::lemma_val_stands(e1, question, code, false, 0);
        wasm_flow::lemma_op_stands(c.e, Op::Block(BlockType::Void), code);
    }
}

/// A value that was written is read where the same translation entry leads.
pub proof fn law_written_values_are_read(
    c: Ctx,
    bits: BitSize,
    word: i32,
    address: i32,
    value: i32,
    memory: Map<u32, i32>,
)
    requires
        bits is BYTE || bits is WORD || bits is DWORD,
    ensures
        codegen_read_laws::read_at(
            c,
            bits,
            word,
            address,
            written_at(c, bits, word, address, value, memory),
        ) == wasm_run::narrowed(bits.width(), value),
{
    let at = codegen_mem_laws::place(word, address, c.st.env.mem8);
    wasm_run::law_stored_values_are_loaded(bits.width(), memory, at, value);
}

} // verus!
