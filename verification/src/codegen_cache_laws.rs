//! What the code of a memory read does that remembers the last page read directly.
use vstd::prelude::*;
use crate::codegen_mem::BitSize;
use crate::codegen_mem_laws;
use crate::codegen_read_laws;
use crate::cpu_state::{PAGE_MASK, TLB_VALID};
use crate::jit_context::{Ctx, ReadTlbCache};
use crate::wasm::{Bin, BlockType, Emit, Op, Sig, E, HINT_GROUP_MEM, HINT_LIKELY, HINT_UNLIKELY};
use crate::wasm_flow;
use crate::wasm_flow::Helpers;
use crate::wasm_run;
use crate::wasm_run::Words;

verus! {

/// Nothing is counted, and reads ask the read cache, which has its locals, at once.
pub open spec fn is_cached_read(c: Ctx, bits: BitSize) -> bool {
    &&& !c.e.opt.profiler
    &&& c.st.env.read_tlb_cache
    &&& !c.st.env.read_tlb_cache_census
    &&& c.st.read_tlb_cache is Some
    &&& !c.perm_probed()
    &&& !(bits is DQWORD)
}

/// The local for the translation entry of a read.
pub open spec fn entry_local(c: Ctx) -> usize {
    c.e.next_i32()
}

/// The local for the page number of a read.
pub open spec fn page_local(c: Ctx) -> usize {
    c.e.set_new(E::C(0)).next_i32()
}

/// The entry and the page number are in their locals.
spec fn numbered(c: Ctx, a: usize) -> Emit {
    c.e.set_new(E::C(0)).set_new(E::L(a).binc(Bin::ShrU, 12))
}

spec fn hit(k: ReadTlbCache, a: usize, page: usize, bits: BitSize) -> E {
    E::L(k.valid.0).bin(Bin::And, E::L(k.page.0).bin(Bin::Eq, E::L(page))).and_in_page(a, bits)
}

/// A block is opened, and the cache is asked.
spec fn looked_up(c: Ctx, k: ReadTlbCache, a: usize, bits: BitSize) -> Emit {
    numbered(c, a).block().val(hit(k, a, page_local(c), bits)).op(Op::If(BlockType::Void, None))
}

/// A hit leaves the block with the cached entry.
spec fn remembered(c: Ctx, k: ReadTlbCache, a: usize, bits: BitSize) -> Emit {
    looked_up(c, k, a, bits).set(entry_local(c), E::L(k.entry.0)).br(numbered(c, a).label()).end()
}

/// A block is opened, and the translation table is asked.
spec fn asked(c: Ctx, k: ReadTlbCache, a: usize, bits: BitSize) -> Emit {
    remembered(c, k, a, bits).block().val(
        c.direct(a, entry_local(c), c.read_mask(), bits),
    ).op(Op::If(BlockType::Void, c.e.hint(HINT_GROUP_MEM, HINT_LIKELY)))
}

/// The cache takes the entry of a direct read.
spec fn filled(c: Ctx, k: ReadTlbCache, a: usize, bits: BitSize) -> Emit {
    asked(c, k, a, bits).set(k.page.0, E::L(page_local(c))).set(
        k.entry.0,
        E::L(entry_local(c)),
    ).set(k.valid.0, E::C(1))
}

/// A direct read leaves its block.
spec fn missed(c: Ctx, k: ReadTlbCache, a: usize, bits: BitSize) -> Emit {
    filled(c, k, a, bits).br(remembered(c, k, a, bits).label()).end()
}

/// The helper is asked, and a fault leaves the unit.
spec fn answered(c: Ctx, k: ReadTlbCache, a: usize, bits: BitSize) -> Emit {
    codegen_read_laws::helper_called(c, bits.read_helper(), a, missed(c, k, a, bits)).val(
        E::Top.tee(entry_local(c)).and(1),
    ).op(Op::BrIf(c.st.exit_with_fault_label, c.e.hint(HINT_GROUP_MEM, HINT_UNLIKELY)))
}

/// Both blocks end.
spec fn closed(c: Ctx, k: ReadTlbCache, a: usize, bits: BitSize) -> Emit {
    answered(c, k, a, bits).end().end()
}

spec fn loaded(c: Ctx, k: ReadTlbCache, a: usize, bits: BitSize) -> Emit {
    closed(c, k, a, bits).val(E::host(a, entry_local(c))).op(Op::Load(bits.width(), 0))
}

proof fn lemma_shape(c: Ctx, bits: BitSize, a: usize, to: u32)
    requires
        is_cached_read(c, bits),
    ensures
        c.safe_read(bits, a, to).e.code == loaded(c, c.st.read_tlb_cache->0, a, bits).code,
{
    broadcast use crate::wasm::group_code;

    reveal(Ctx::safe_read);
    reveal(Ctx::translated_load);
    reveal(Ctx::translate_read);
    reveal(Ctx::ask_read_cache);
    reveal(Ctx::cached_entry);
    reveal(Ctx::read_cache_event);
    reveal(Ctx::direct_read);
    reveal(Emit::report_slow);
    reveal(Emit::fault_check);
    reveal(Emit::load_at_top);
    reveal(Emit::profile);
    reveal(Emit::give_i32);
}

/// The part that fills the cache and leaves the block.
#[verifier::spinoff_prover]
proof fn lemma_fill_stands(
    c: Ctx,
    k: ReadTlbCache,
    a: usize,
    bits: BitSize,
    code: Seq<Op>,
    first_part: bool,
    depth: nat,
)
    requires
        missed(c, k, a, bits).code.is_prefix_of(code),
    ensures
        ({
            let b8 = asked(c, k, a, bits);
            let b9 = filled(c, k, a, bits);
            let b10 = b9.br(remembered(c, k, a, bits).label());
            &&& b8.code.is_prefix_of(code)
            &&& b9.code.is_prefix_of(code)
            &&& b10.code.is_prefix_of(code)
            &&& b8.code.len() < b9.code.len() < b10.code.len() < missed(
                c,
                k,
                a,
                bits,
            ).code.len()
            &&& code[b9.code.len() as int] == Op::Br(remembered(c, k, a, bits).label())
            &&& code[b10.code.len() as int] == Op::End
            &&& missed(c, k, a, bits).code.len() == b10.code.len() + 1
            &&& wasm_flow::behind(code, b8.code.len() as int, first_part, depth)
                == wasm_flow::behind(code, b10.code.len() as int, first_part, depth)
        }),
{
    let b8 = asked(c, k, a, bits);
    let f1 = b8.set(k.page.0, E::L(page_local(c)));
    let f2 = f1.set(k.entry.0, E::L(entry_local(c)));
    let b9 = filled(c, k, a, bits);
    let leave = Op::Br(remembered(c, k, a, bits).label());
    wasm_flow::lemma_op_stands(b9.op(leave), Op::End, code);
    wasm_flow::lemma_op_stands(b9, leave, code);
    wasm_flow::lemma_set_stands(f2, k.valid.0, E::C(1), code, first_part, depth);
    wasm_flow::lemma_set_stands(f1, k.entry.0, E::L(entry_local(c)), code, first_part, depth);
    wasm_flow::lemma_set_stands(b8, k.page.0, E::L(page_local(c)), code, first_part, depth);
}

/// The part that asks the helper.
#[verifier::spinoff_prover]
proof fn lemma_help_stands(
    c: Ctx,
    k: ReadTlbCache,
    a: usize,
    bits: BitSize,
    code: Seq<Op>,
    depth: nat,
)
    requires
        closed(c, k, a, bits).code.is_prefix_of(code),
    ensures
        ({
            let b11 = missed(c, k, a, bits);
            let b12 = codegen_read_laws::helper_called(c, bits.read_helper(), a, b11);
            let b13 = answered(c, k, a, bits);
            &&& b11.code.is_prefix_of(code)
            &&& b12.code.is_prefix_of(code)
            &&& b13.code.is_prefix_of(code)
            &&& b13.end().code.is_prefix_of(code)
            &&& b11.code.len() < b12.code.len() < b13.code.len()
            &&& b13.end().code.len() == b13.code.len() + 1
            &&& closed(c, k, a, bits).code.len() == b13.code.len() + 2
            &&& code[b13.code.len() as int] == Op::End
            &&& code[b13.code.len() as int + 1] == Op::End
            &&& wasm_flow::behind(code, b11.code.len() as int, false, depth)
                == wasm_flow::behind(code, b13.code.len() as int, false, depth)
        }),
{
    let b11 = missed(c, k, a, bits);
    let x = E::L(a).both(c.here());
    let b12 = codegen_read_laws::helper_called(c, bits.read_helper(), a, b11);
    let y = E::Top.tee(entry_local(c)).and(1);
    let b13 = answered(c, k, a, bits);
    wasm_flow::lemma_op_stands(b13.end(), Op::End, code);
    wasm_flow::lemma_op_stands(b13, Op::End, code);
    wasm_flow::lemma_op_stands(
        b12.val(y),
        Op::BrIf(c.st.exit_with_fault_label, c.e.hint(HINT_GROUP_MEM, HINT_UNLIKELY)),
        code,
    );
    wasm_flow::lemma_val_stands(b12, y, code, false, depth);
    wasm_flow::lemma_op_stands(b11.val(x), Op::Call(bits.read_helper(), Sig::Fn2Ret), code);
    wasm_flow::lemma_val_stands(b11, x, code, false, depth);
}

/// Where the branches of the inner block lead.
#[verifier::spinoff_prover]
proof fn lemma_inner_exits(c: Ctx, k: ReadTlbCache, a: usize, bits: BitSize, code: Seq<Op>)
    requires
        closed(c, k, a, bits).code.is_prefix_of(code),
        code.len() <= usize::MAX,
    ensures
        remembered(c, k, a, bits).code.is_prefix_of(code),
        remembered(c, k, a, bits).block().code.is_prefix_of(code),
        remembered(c, k, a, bits).code.len() < asked(c, k, a, bits).code.len() < missed(
            c,
            k,
            a,
            bits,
        ).code.len() < answered(c, k, a, bits).code.len() < closed(c, k, a, bits).code.len(),
        wasm_flow::behind(code, asked(c, k, a, bits).code.len() as int, true, 0) == missed(
            c,
            k,
            a,
            bits,
        ).code.len(),
        wasm_flow::exit_of(code, remembered(c, k, a, bits).label()) == answered(
            c,
            k,
            a,
            bits,
        ).end().code.len(),
        wasm_flow::behind(code, remembered(c, k, a, bits).code.len() as int, false, 0)
            == closed(c, k, a, bits).code.len(),
{
    let b6 = remembered(c, k, a, bits);
    let b7 = b6.block();
    let x = c.direct(a, entry_local(c), c.read_mask(), bits);
    let b10 = filled(c, k, a, bits).br(b6.label());
    let b11 = missed(c, k, a, bits);
    let b13 = answered(c, k, a, bits);
    let b14 = b13.end();
    let b15 = closed(c, k, a, bits);
    let open = Op::If(BlockType::Void, c.e.hint(HINT_GROUP_MEM, HINT_LIKELY));
    reveal(Emit::label);
    lemma_help_stands(c, k, a, bits, code, 0);
    lemma_help_stands(c, k, a, bits, code, 1);
    lemma_fill_stands(c, k, a, bits, code, true, 0);
    lemma_fill_stands(c, k, a, bits, code, false, 1);
    lemma_fill_stands(c, k, a, bits, code, false, 2);
    wasm_flow::lemma_op_stands(b7.val(x), open, code);
    wasm_flow::lemma_val_stands(b7, x, code, false, 0);
    wasm_flow::lemma_val_stands(b7, x, code, false, 1);
    wasm_flow::lemma_op_stands(b6, Op::Block(BlockType::Void), code);
    assert(b6.label().0 == b6.code.len());
    assert(wasm_flow::behind(code, b10.code.len() as int, true, 0) == b11.code.len());
    assert(wasm_flow::behind(code, b13.code.len() as int, false, 0) == b14.code.len());
    assert(wasm_flow::behind(code, b10.code.len() as int, false, 1) == b14.code.len());
    assert(wasm_flow::behind(code, b7.val(x).code.len() as int, false, 0) == b14.code.len());
    assert(wasm_flow::behind(code, b14.code.len() as int, false, 0) == b15.code.len());
    assert(wasm_flow::behind(code, b13.code.len() as int, false, 1) == b15.code.len());
    assert(wasm_flow::behind(code, b10.code.len() as int, false, 2) == b15.code.len());
    assert(wasm_flow::behind(code, b7.val(x).code.len() as int, false, 1) == b15.code.len());
    assert(wasm_flow::behind(code, b6.code.len() as int, false, 0) == b15.code.len());
}

/// Where the branches of the outer block lead.
#[verifier::spinoff_prover]
proof fn lemma_outer_exits(c: Ctx, k: ReadTlbCache, a: usize, bits: BitSize, code: Seq<Op>)
    requires
        closed(c, k, a, bits).code.is_prefix_of(code),
        code.len() <= usize::MAX,
    ensures
        numbered(c, a).code.is_prefix_of(code),
        numbered(c, a).block().code.is_prefix_of(code),
        looked_up(c, k, a, bits).code.is_prefix_of(code),
        looked_up(c, k, a, bits).set(entry_local(c), E::L(k.entry.0)).code.is_prefix_of(code),
        looked_up(c, k, a, bits).code.len() < remembered(c, k, a, bits).code.len(),
        looked_up(c, k, a, bits).set(entry_local(c), E::L(k.entry.0)).code.len() < remembered(
            c,
            k,
            a,
            bits,
        ).code.len(),
        wasm_flow::behind(code, looked_up(c, k, a, bits).code.len() as int, true, 0)
            == remembered(c, k, a, bits).code.len(),
        wasm_flow::exit_of(code, numbered(c, a).label()) == closed(c, k, a, bits).code.len(),
{
    let num = numbered(c, a);
    let b2 = num.block();
    let x = hit(k, a, page_local(c), bits);
    let b3 = looked_up(c, k, a, bits);
    let b4 = b3.set(entry_local(c), E::L(k.entry.0));
    let b5 = b4.br(num.label());
    let b6 = remembered(c, k, a, bits);
    let end = closed(c, k, a, bits).code.len() as int;
    reveal(Emit::label);
    lemma_inner_exits(c, k, a, bits, code);
    wasm_flow::lemma_op_stands(b5, Op::End, code);
    wasm_flow::lemma_op_stands(b4, Op::Br(num.label()), code);
    wasm_flow::lemma_set_stands(b3, entry_local(c), E::L(k.entry.0), code, true, 0);
    wasm_flow::lemma_set_stands(b3, entry_local(c), E::L(k.entry.0), code, false, 1);
    wasm_flow::lemma_op_stands(b2.val(x), Op::If(BlockType::Void, None), code);
    wasm_flow::lemma_val_stands(b2, x, code, false, 0);
    wasm_flow::lemma_op_stands(num, Op::Block(BlockType::Void), code);
    assert(num.label().0 == num.code.len());
    assert(wasm_flow::behind(code, b5.code.len() as int, true, 0) == b6.code.len());
    assert(wasm_flow::behind(code, b4.code.len() as int, true, 0) == b6.code.len());
    assert(wasm_flow::behind(code, b5.code.len() as int, false, 1) == end);
    assert(wasm_flow::behind(code, b4.code.len() as int, false, 1) == end);
    assert(wasm_flow::behind(code, b2.val(x).code.len() as int, false, 0) == end);
}

/// What the cache remembers is what the translation table says, and allows direct reads.
pub open spec fn cache_agrees(c: Ctx, k: ReadTlbCache, s: Words) -> bool {
    let page = s.locals[k.page.0] as u32;
    let word = s.locals[k.entry.0];
    ||| s.locals[k.valid.0] == 0
    ||| {
        &&& s.locals[k.valid.0] == 1
        &&& word == s.memory[((page * 4) as u32).wrapping_add(c.st.env.tlb_data)]
        &&& word & c.read_mask() == TLB_VALID
    }
}

/// The page number of an address, as a word.
pub open spec fn page_word(address: i32) -> i32 {
    wasm_run::binary(Bin::ShrU, address, 12)
}

/// The cache remembers the page of the address, and the read stays inside it.
pub open spec fn is_hit(k: ReadTlbCache, address: i32, bits: BitSize, s: Words) -> bool {
    &&& s.locals[k.valid.0] == 1
    &&& s.locals[k.page.0] == page_word(address)
    &&& codegen_mem_laws::stays_inside(address, bits)
}

/// The cache takes a page and its entry.
pub open spec fn cache_filled(k: ReadTlbCache, page: i32, word: i32, s: Words) -> Words {
    s.set(k.page.0, page).set(k.entry.0, word).set(k.valid.0, 1)
}

/// The locals of a cached read are apart.
pub open spec fn locals_are_apart(c: Ctx, k: ReadTlbCache, a: usize) -> bool {
    let entry = entry_local(c);
    let page = page_local(c);
    &&& a != entry && a != page && a != k.page.0 && a != k.entry.0 && a != k.valid.0
    &&& entry != page && entry != k.page.0 && entry != k.entry.0 && entry != k.valid.0
    &&& page != k.page.0 && page != k.entry.0 && page != k.valid.0
    &&& k.page.0 != k.entry.0 && k.page.0 != k.valid.0 && k.entry.0 != k.valid.0
}

/// The question to the cache.
#[verifier::spinoff_prover]
proof fn lemma_looked_up(
    c: Ctx,
    k: ReadTlbCache,
    a: usize,
    bits: BitSize,
    code: Seq<Op>,
    s: Words,
    h: Helpers,
)
    requires
        closed(c, k, a, bits).code.is_prefix_of(code),
        code.len() <= usize::MAX,
        locals_are_apart(c, k, a),
        s.locals[k.valid.0] == 0 || s.locals[k.valid.0] == 1,
    ensures
        ({
            let t = s.set(entry_local(c), 0).set(page_local(c), page_word(s.locals[a]));
            let found = is_hit(k, s.locals[a], bits, s);
            wasm_flow::goes(code, c.e.code.len() as int, s, h) == wasm_flow::goes(
                code,
                if found {
                    closed(c, k, a, bits).code.len() as int
                } else {
                    remembered(c, k, a, bits).code.len() as int
                },
                if found {
                    t.set(entry_local(c), s.locals[k.entry.0])
                } else {
                    t
                },
                h,
            )
        }),
{
    let entry = entry_local(c);
    let page = page_local(c);
    let address = s.locals[a];
    let number = page_word(address);
    let e0 = c.e.take_i32();
    let first = c.e.set_new(E::C(0));
    let e1 = first.take_i32();
    let num = numbered(c, a);
    let b2 = num.block();
    let question = hit(k, a, page, bits);
    let b3 = looked_up(c, k, a, bits);
    let b4 = b3.set(entry, E::L(k.entry.0));
    let s1 = s.set(entry, 0);
    let t = s1.set(page, number);
    let found = is_hit(k, address, bits, s);
    let v = wasm_run::truth(found);
    let same = E::L(k.page.0).bin(Bin::Eq, E::L(page));
    let is_same = wasm_run::truth(s.locals[k.page.0] == number);
    let valid = s.locals[k.valid.0];
    reveal(Emit::take_i32);
    reveal_with_fuel(wasm_flow::calls_nothing, 10);
    lemma_inner_exits(c, k, a, bits, code);
    lemma_outer_exits(c, k, a, bits, code);
    // The two locals.
    wasm_flow::lemma_set_stands(e1, page, E::L(a).binc(Bin::ShrU, 12), code, false, 0);
    wasm_run::evaluate_constant(0, s);
    wasm_flow::lemma_set(e0, entry, E::C(0), s, 0, code, h);
    wasm_run::evaluate_local(a, s1);
    wasm_run::evaluate_binc(Bin::ShrU, E::L(a), 12, s1, address, s1);
    wasm_flow::lemma_set(e1, page, E::L(a).binc(Bin::ShrU, 12), s1, number, code, h);
    wasm_flow::lemma_op_stands(num, Op::Block(BlockType::Void), code);
    assert(wasm_flow::goes(code, num.code.len() as int, t, h) == wasm_flow::goes(
        code,
        b2.code.len() as int,
        t,
        h,
    ));
    // The question.
    wasm_run::evaluate_local(k.page.0, t);
    wasm_run::evaluate_local(page, t);
    wasm_run::evaluate_local(k.valid.0, t);
    wasm_run::evaluate_bin(
        Bin::Eq,
        E::L(k.page.0),
        E::L(page),
        t,
        s.locals[k.page.0],
        t,
        number,
        t,
    );
    wasm_run::evaluate_bin(Bin::And, E::L(k.valid.0), same, t, valid, t, is_same, t);
    codegen_mem_laws::bits_of_truth();
    codegen_mem_laws::evaluate_in_page(
        E::L(k.valid.0).bin(Bin::And, same),
        a,
        bits,
        t,
        valid == 1 && s.locals[k.page.0] == number,
        t,
    );
    wasm_flow::lemma_op_stands(b2.val(question), Op::If(BlockType::Void, None), code);
    wasm_flow::lemma_val(b2, question, t, v, t, code, h);
    let told = t.on(t.stack.push(v));
    assert(told.stack.drop_last() =~= t.stack);
    assert(told.pop() == t);
    assert(told.top() == v);
    if found {
        wasm_run::evaluate_local(k.entry.0, t);
        wasm_flow::lemma_op_stands(b4.br(num.label()), Op::End, code);
        wasm_flow::lemma_op_stands(b4, Op::Br(num.label()), code);
        wasm_flow::lemma_set(b3, entry, E::L(k.entry.0), t, s.locals[k.entry.0], code, h);
        let u = t.set(entry, s.locals[k.entry.0]);
        assert(wasm_flow::goes(code, b2.val(question).code.len() as int, told, h)
            == wasm_flow::goes(code, b3.code.len() as int, t, h));
        assert(wasm_flow::goes(code, b4.code.len() as int, u, h) == wasm_flow::goes(
            code,
            closed(c, k, a, bits).code.len() as int,
            u,
            h,
        ));
    } else {
        assert(wasm_flow::goes(code, b2.val(question).code.len() as int, told, h)
            == wasm_flow::goes(code, remembered(c, k, a, bits).code.len() as int, t, h));
    }
}

/// The question to the translation table, and the cache after a direct read.
#[verifier::spinoff_prover]
proof fn lemma_asked(
    c: Ctx,
    k: ReadTlbCache,
    a: usize,
    bits: BitSize,
    code: Seq<Op>,
    s: Words,
    h: Helpers,
)
    requires
        closed(c, k, a, bits).code.is_prefix_of(code),
        code.len() <= usize::MAX,
        locals_are_apart(c, k, a),
    ensures
        ({
            let word = codegen_mem_laws::translation(c, s.locals[a], s);
            let t = s.set(entry_local(c), word);
            let direct = codegen_mem_laws::is_direct(c, c.read_mask(), s.locals[a], bits, s);
            wasm_flow::goes(code, remembered(c, k, a, bits).code.len() as int, s, h)
                == wasm_flow::goes(
                code,
                if direct {
                    closed(c, k, a, bits).code.len() as int
                } else {
                    missed(c, k, a, bits).code.len() as int
                },
                if direct {
                    cache_filled(k, s.locals[page_local(c)], word, t)
                } else {
                    t
                },
                h,
            )
        }),
{
    let entry = entry_local(c);
    let page = page_local(c);
    let address = s.locals[a];
    let word = codegen_mem_laws::translation(c, address, s);
    let direct = codegen_mem_laws::is_direct(c, c.read_mask(), address, bits, s);
    let v = wasm_run::truth(direct);
    let b6 = remembered(c, k, a, bits);
    let b7 = b6.block();
    let question = c.direct(a, entry, c.read_mask(), bits);
    let open = Op::If(BlockType::Void, c.e.hint(HINT_GROUP_MEM, HINT_LIKELY));
    let b8 = asked(c, k, a, bits);
    let b9 = filled(c, k, a, bits);
    let b13 = answered(c, k, a, bits);
    let t = s.set(entry, word);
    lemma_inner_exits(c, k, a, bits, code);
    lemma_help_stands(c, k, a, bits, code, 0);
    lemma_fill_stands(c, k, a, bits, code, true, 0);
    wasm_flow::lemma_op_stands(b6, Op::Block(BlockType::Void), code);
    assert(wasm_flow::goes(code, b6.code.len() as int, s, h) == wasm_flow::goes(
        code,
        b7.code.len() as int,
        s,
        h,
    ));
    wasm_flow::lemma_op_stands(b7.val(question), open, code);
    codegen_mem_laws::evaluate_direct(c, a, entry, c.read_mask(), bits, s);
    codegen_read_laws::lemma_calls_nothing(c, a, entry, c.read_mask(), bits);
    wasm_flow::lemma_val(b7, question, s, v, t, code, h);
    let told = t.on(s.stack.push(v));
    assert(told.stack.drop_last() =~= s.stack);
    assert(told.pop() == t);
    assert(told.top() == v);
    if direct {
        let f1 = b8.set(k.page.0, E::L(page));
        let f2 = f1.set(k.entry.0, E::L(entry));
        let t1 = t.set(k.page.0, s.locals[page]);
        let t2 = t1.set(k.entry.0, word);
        let t3 = t2.set(k.valid.0, 1);
        wasm_flow::lemma_set_stands(f2, k.valid.0, E::C(1), code, false, 0);
        wasm_flow::lemma_set_stands(f1, k.entry.0, E::L(entry), code, false, 0);
        wasm_run::evaluate_local(page, t);
        wasm_flow::lemma_set(b8, k.page.0, E::L(page), t, s.locals[page], code, h);
        wasm_run::evaluate_local(entry, t1);
        wasm_flow::lemma_set(f1, k.entry.0, E::L(entry), t1, word, code, h);
        wasm_run::evaluate_constant(1, t2);
        wasm_flow::lemma_set(f2, k.valid.0, E::C(1), t2, 1, code, h);
        assert(wasm_flow::goes(code, b7.val(question).code.len() as int, told, h)
            == wasm_flow::goes(code, b8.code.len() as int, t, h));
        assert(wasm_flow::goes(code, b9.code.len() as int, t3, h) == wasm_flow::goes(
            code,
            b13.end().code.len() as int,
            t3,
            h,
        ));
        assert(wasm_flow::goes(code, b13.end().code.len() as int, t3, h) == wasm_flow::goes(
            code,
            closed(c, k, a, bits).code.len() as int,
            t3,
            h,
        ));
    } else {
        assert(wasm_flow::goes(code, b7.val(question).code.len() as int, told, h)
            == wasm_flow::goes(code, missed(c, k, a, bits).code.len() as int, t, h));
    }
}

/// What follows where the read is not direct.
#[verifier::spinoff_prover]
proof fn lemma_answered(
    c: Ctx,
    k: ReadTlbCache,
    a: usize,
    bits: BitSize,
    code: Seq<Op>,
    t: Words,
    h: Helpers,
)
    requires
        codegen_read_laws::stands_in(c, closed(c, k, a, bits).code, code),
    ensures
        ({
            let (answer, memory) = codegen_read_laws::asked_of(
                c,
                bits,
                t.locals[a],
                t.memory,
                h,
            );
            wasm_flow::goes(code, missed(c, k, a, bits).code.len() as int, t, h)
                == wasm_flow::goes(
                code,
                if answer & 1 != 0 {
                    wasm_flow::exit_of(code, c.st.exit_with_fault_label)
                } else {
                    closed(c, k, a, bits).code.len() as int
                },
                Words { memory, ..t }.set(entry_local(c), answer),
                h,
            )
        }),
{
    let (answer, memory) = codegen_read_laws::asked_of(c, bits, t.locals[a], t.memory, h);
    let b11 = missed(c, k, a, bits);
    let b12 = codegen_read_laws::helper_called(c, bits.read_helper(), a, b11);
    let b13 = answered(c, k, a, bits);
    let leave = Op::BrIf(c.st.exit_with_fault_label, c.e.hint(HINT_GROUP_MEM, HINT_UNLIKELY));
    let u = Words { memory, ..t };
    let w = u.set(entry_local(c), answer);
    lemma_help_stands(c, k, a, bits, code, 0);
    codegen_read_laws::lemma_helped(c, bits.read_helper(), a, b11, code, t, h);
    codegen_read_laws::lemma_fault_checked(b12, entry_local(c), leave, code, u, answer, h);
    assert(wasm_flow::goes(code, b13.code.len() as int, w, h) == wasm_flow::goes(
        code,
        b13.end().code.len() as int,
        w,
        h,
    ));
    assert(wasm_flow::goes(code, b13.end().code.len() as int, w, h) == wasm_flow::goes(
        code,
        closed(c, k, a, bits).code.len() as int,
        w,
        h,
    ));
}

/// The load at the end.
proof fn lemma_loaded(
    c: Ctx,
    k: ReadTlbCache,
    a: usize,
    bits: BitSize,
    code: Seq<Op>,
    t: Words,
    h: Helpers,
)
    requires
        !(bits is DQWORD),
        loaded(c, k, a, bits).code.is_prefix_of(code),
    ensures
        closed(c, k, a, bits).code.is_prefix_of(code),
        closed(c, k, a, bits).code.len() < loaded(c, k, a, bits).code.len(),
        wasm_flow::goes(code, closed(c, k, a, bits).code.len() as int, t, h)
            == wasm_flow::goes(
            code,
            loaded(c, k, a, bits).code.len() as int,
            codegen_read_laws::with_read(
                c,
                bits,
                t.locals[entry_local(c)],
                t.locals[a],
                t,
            ),
            h,
        ),
{
    let entry = entry_local(c);
    let e = closed(c, k, a, bits);
    let host = E::host(a, entry);
    let word = t.locals[entry];
    let v = (word & PAGE_MASK) ^ t.locals[a];
    wasm_flow::lemma_op_stands(e.val(host), Op::Load(bits.width(), 0), code);
    wasm_flow::lemma_val_stands(e, host, code, false, 0);
    codegen_read_laws::lemma_calls_nothing(c, a, entry, 0, bits);
    codegen_mem_laws::evaluate_host(a, entry, t);
    wasm_flow::lemma_val(e, host, t, v, t, code, h);
    let pushed = t.on(t.stack.push(v));
    codegen_mem_laws::lemma_place(word, t.locals[a], c.st.env.mem8);
    assert((v as u32).wrapping_add(0) == v as u32);
    assert(pushed.stack.drop_last() =~= t.stack);
    assert(pushed.pop() == t);
}

/// A read cache that agrees with the translation table changes nothing of what is read: where
/// the translation entry of the page allows the read and the read stays inside the page, the
/// code leaves the value at the place that the entry names, and the cache agrees as before.
/// Elsewhere the cache is not used and keeps what it remembers, and the helper is asked as it
/// is without a cache.
#[verifier::spinoff_prover]
pub proof fn law_cached_reads_are_translated(
    c: Ctx,
    bits: BitSize,
    a: usize,
    to: u32,
    code: Seq<Op>,
    s: Words,
    h: Helpers,
)
    requires
        is_cached_read(c, bits),
        locals_are_apart(c, c.st.read_tlb_cache->0, a),
        cache_agrees(c, c.st.read_tlb_cache->0, s),
        codegen_read_laws::stands_in(c, c.safe_read(bits, a, to).e.code, code),
    ensures
        ({
            let k = c.st.read_tlb_cache->0;
            let entry = entry_local(c);
            let address = s.locals[a];
            let number = page_word(address);
            let word = codegen_mem_laws::translation(c, address, s);
            let (answer, memory) = codegen_read_laws::asked_of(c, bits, address, s.memory, h);
            let here = s.set(page_local(c), number);
            let told = if is_hit(k, address, bits, s) {
                here.set(entry, word)
            } else {
                cache_filled(k, number, word, here.set(entry, word))
            };
            let t = Words { memory, ..here }.set(entry, answer);
            let ran = wasm_flow::goes(code, c.e.code.len() as int, s, h);
            let end = c.safe_read(bits, a, to).e.code.len() as int;
            if codegen_mem_laws::is_direct(c, c.read_mask(), address, bits, s) {
                let read = codegen_read_laws::with_read(c, bits, word, address, told);
                &&& ran == wasm_flow::goes(code, end, read, h)
                &&& cache_agrees(c, k, told)
            } else if answer & 1 == 0 {
                let read = codegen_read_laws::with_read(c, bits, answer, address, t);
                ran == wasm_flow::goes(code, end, read, h)
            } else {
                ran == wasm_flow::goes(
                    code,
                    wasm_flow::exit_of(code, c.st.exit_with_fault_label),
                    t,
                    h,
                )
            }
        }),
{
    let k = c.st.read_tlb_cache->0;
    let entry = entry_local(c);
    let address = s.locals[a];
    let number = page_word(address);
    let word = codegen_mem_laws::translation(c, address, s);
    let (answer, memory) = codegen_read_laws::asked_of(c, bits, address, s.memory, h);
    let here = s.set(page_local(c), number);
    let first = s.set(entry, 0).set(page_local(c), number);
    let direct = here.set(entry, word);
    let full = cache_filled(k, number, word, direct);
    let t = Words { memory, ..here }.set(entry, answer);
    lemma_shape(c, bits, a, to);
    lemma_loaded(c, k, a, bits, code, direct, h);
    lemma_loaded(c, k, a, bits, code, full, h);
    lemma_loaded(c, k, a, bits, code, t, h);
    lemma_looked_up(c, k, a, bits, code, s, h);
    lemma_asked(c, k, a, bits, code, first, h);
    lemma_answered(c, k, a, bits, code, first.set(entry, word), h);
    codegen_mem_laws::lemma_address(address);
    assert(first.set(entry, word).locals =~= direct.locals);
    assert(cache_filled(k, number, word, first.set(entry, word)).locals =~= full.locals);
    assert(Words { memory, ..first.set(entry, word) }.set(entry, answer).locals =~= t.locals);
    if is_hit(k, address, bits, s) {
        assert(s.locals[k.entry.0] == word);
    }
}

} // verus!
