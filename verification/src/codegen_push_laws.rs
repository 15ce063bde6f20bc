//! What the code of a push does that remembers the last page pushed to.
use vstd::prelude::*;
use crate::codegen_mem::BitSize;
use crate::codegen_mem_laws;
use crate::codegen_cache_laws;
use crate::codegen_read_laws;
use crate::codegen_write_laws;
use crate::cpu_state::{PAGE_MASK, TLB_VALID};
use crate::jit_context::{Ctx, Push32WriteCache};
use crate::wasm::{Bin, BlockType, Emit, Op, Width, E};
use crate::wasm_flow;
use crate::wasm_flow::Helpers;
use crate::wasm_run;
use crate::wasm_run::Words;

verus! {

/// Nothing is counted, and the cache has its locals.
pub open spec fn is_plain_push(c: Ctx) -> bool {
    &&& !c.e.opt.profiler
    &&& !c.e.opt.dispatch_stats
    &&& c.st.push32_write_cache is Some
}

/// The local for the page number of a push.
pub open spec fn page_local(c: Ctx) -> usize {
    c.e.next_i32()
}

/// The local for the translation entry of a push.
pub open spec fn entry_local(c: Ctx) -> usize {
    c.e.take_i32().next_i32()
}

/// A 32-bit value is stored in the page of `entry`.
spec fn put(a: usize, entry: usize, x: usize, e: Emit) -> Emit {
    e.val(E::host(a, entry).both(E::L(x))).op(Op::Store(Width::W32, 0))
}

spec fn numbered(c: Ctx, a: usize) -> Emit {
    c.e.set_new(E::L(a).binc(Bin::ShrU, 12))
}

spec fn hit(k: Push32WriteCache, a: usize, page: usize) -> E {
    E::L(k.valid.0).bin(Bin::And, E::L(k.page.0).bin(Bin::Eq, E::L(page))).and_in_page(
        a,
        BitSize::DWORD,
    )
}

/// A block is opened, and the cache is asked.
spec fn looked_up(c: Ctx, k: Push32WriteCache, a: usize) -> Emit {
    numbered(c, a).block().val(hit(k, a, page_local(c))).op(Op::If(BlockType::Void, None))
}

/// A hit stores at once and leaves the block.
spec fn reused(c: Ctx, k: Push32WriteCache, a: usize, x: usize) -> Emit {
    put(a, k.entry.0, x, looked_up(c, k, a)).br(numbered(c, a).label()).end()
}

/// A block is opened, the translation table is asked, and a direct write leaves the block.
spec fn asked(c: Ctx, k: Push32WriteCache, a: usize, x: usize) -> Emit {
    reused(c, k, a, x).block().take_i32().val(
        c.direct(a, entry_local(c), c.write_mask(), BitSize::DWORD),
    ).op(Op::BrIf(reused(c, k, a, x).label(), None))
}

/// Other writes go through the helper.
spec fn checked(c: Ctx, k: Push32WriteCache, a: usize, x: usize) -> Emit {
    codegen_write_laws::answered(
        c,
        entry_local(c),
        codegen_write_laws::helped(
            c,
            BitSize::DWORD,
            a,
            x,
            codegen_write_laws::dropped(c, asked(c, k, a, x)),
        ),
    )
}

/// They leave the outer block; the inner one ends.
spec fn helped(c: Ctx, k: Push32WriteCache, a: usize, x: usize) -> Emit {
    put(a, entry_local(c), x, checked(c, k, a, x)).br(numbered(c, a).label()).end()
}

/// A direct write fills the cache.
spec fn filled(c: Ctx, k: Push32WriteCache, a: usize, x: usize) -> Emit {
    helped(c, k, a, x).set(k.page.0, E::L(page_local(c))).set(
        k.entry.0,
        E::L(entry_local(c)),
    ).set(k.valid.0, E::C(1))
}

spec fn pushed(c: Ctx, k: Push32WriteCache, a: usize, x: usize) -> Emit {
    put(a, entry_local(c), x, filled(c, k, a, x)).end()
}

proof fn lemma_shape(c: Ctx, a: usize, x: usize)
    requires
        is_plain_push(c),
    ensures
        c.push_write(a, x).e.code == pushed(c, c.st.push32_write_cache->0, a, x).code,
{
    broadcast use crate::wasm::group_code;

    reveal(Ctx::push_write);
    reveal(Ctx::push_translate);
    reveal(Emit::push_reuse);
    reveal(Emit::push_fill);
    reveal(Emit::write32);
    reveal(Emit::dispatch_event);
    reveal(Emit::report_slow);
    reveal(Emit::fault_check);
    reveal(Emit::profile);
    reveal(Emit::give_i32);
}

/// The store.
#[verifier::spinoff_prover]
proof fn lemma_put(
    c: Ctx,
    a: usize,
    entry: usize,
    x: usize,
    e: Emit,
    code: Seq<Op>,
    t: Words,
    h: Helpers,
)
    requires
        put(a, entry, x, e).code.is_prefix_of(code),
    ensures
        e.code.is_prefix_of(code),
        e.code.len() < put(a, entry, x, e).code.len(),
        wasm_flow::is_level(code, e.code.len() as int, put(a, entry, x, e).code.len() as int),
        wasm_flow::goes(code, e.code.len() as int, t, h) == wasm_flow::goes(
            code,
            put(a, entry, x, e).code.len() as int,
            Words {
                memory: codegen_write_laws::written_at(
                    c,
                    BitSize::DWORD,
                    t.locals[entry],
                    t.locals[a],
                    t.locals[x],
                    t.memory,
                ),
                ..t
            },
            h,
        ),
{
    let word = t.locals[entry];
    let value = t.locals[x];
    let host = E::host(a, entry);
    let both = host.both(E::L(x));
    let store = Op::Store(Width::W32, 0);
    let at = (word & PAGE_MASK) ^ t.locals[a];
    wasm_flow::lemma_op_stands(e.val(both), store, code);
    wasm_flow::lemma_val_stands(e, both, code, false, 0);
    wasm_flow::lemma_val_is_level(e, both, code);
    wasm_flow::lemma_op_is_level(e.val(both), store, code);
    wasm_flow::lemma_level_on(
        code,
        e.code.len() as int,
        e.val(both).code.len() as int,
        put(a, entry, x, e).code.len() as int,
    );
    codegen_read_laws::lemma_calls_nothing(c, a, entry, 0, BitSize::DWORD);
    codegen_mem_laws::evaluate_host(a, entry, t);
    codegen_mem_laws::lemma_place(word, t.locals[a], c.st.env.mem8);
    let one = t.push(at);
    let two = one.push(value);
    assert(host.done(t.on(t.stack)) == t.on(t.stack.push(at)));
    assert(t.on(t.stack) == t);
    assert(host.done(t) == one);
    reveal(Emit::val);
    reveal_with_fuel(E::done, 2);
    reveal_with_fuel(wasm_flow::calls_nothing, 2);
    wasm_flow::lemma_expression(both, e.code, code, t, h);
    assert(both.done(t) == two);
    assert(two.stack.drop_last() =~= one.stack);
    assert(one.stack.drop_last() =~= t.stack);
    assert(two.below() == at);
    assert(two.pop().pop() == t);
    assert((at as u32).wrapping_add(0) == at as u32);
}

/// The part behind the inner block.
#[verifier::spinoff_prover]
proof fn lemma_tail_stands(
    c: Ctx,
    k: Push32WriteCache,
    a: usize,
    x: usize,
    code: Seq<Op>,
    s: Words,
    h: Helpers,
)
    requires
        pushed(c, k, a, x).code.is_prefix_of(code),
    ensures
        helped(c, k, a, x).code.is_prefix_of(code),
        helped(c, k, a, x).code.len() < pushed(c, k, a, x).code.len() <= code.len(),
        wasm_flow::behind(code, helped(c, k, a, x).code.len() as int, false, 0) == pushed(
            c,
            k,
            a,
            x,
        ).code.len(),
        ({
            let entry = entry_local(c);
            let t = s.set(k.page.0, s.locals[page_local(c)]);
            let u = t.set(k.entry.0, t.locals[entry]);
            let w = u.set(k.valid.0, 1);
            wasm_flow::goes(code, helped(c, k, a, x).code.len() as int, s, h)
                == wasm_flow::goes(
                code,
                pushed(c, k, a, x).code.len() as int,
                Words {
                    memory: codegen_write_laws::written_at(
                        c,
                        BitSize::DWORD,
                        w.locals[entry],
                        w.locals[a],
                        w.locals[x],
                        w.memory,
                    ),
                    ..w
                },
                h,
            )
        }),
{
    let entry = entry_local(c);
    let page = page_local(c);
    let p8 = helped(c, k, a, x);
    let f1 = p8.set(k.page.0, E::L(page));
    let f2 = f1.set(k.entry.0, E::L(entry));
    let f3 = filled(c, k, a, x);
    let q2 = put(a, entry, x, f3);
    let t = s.set(k.page.0, s.locals[page]);
    let u = t.set(k.entry.0, t.locals[entry]);
    let w = u.set(k.valid.0, 1);
    wasm_flow::lemma_op_stands(q2, Op::End, code);
    lemma_put(c, a, entry, x, f3, code, w, h);
    wasm_flow::lemma_set_is_level(f2, k.valid.0, E::C(1), code);
    wasm_flow::lemma_set_is_level(f1, k.entry.0, E::L(entry), code);
    wasm_flow::lemma_set_is_level(p8, k.page.0, E::L(page), code);
    wasm_run::evaluate_local(page, s);
    wasm_flow::lemma_set(p8, k.page.0, E::L(page), s, s.locals[page], code, h);
    wasm_run::evaluate_local(entry, t);
    wasm_flow::lemma_set(f1, k.entry.0, E::L(entry), t, t.locals[entry], code, h);
    wasm_run::evaluate_constant(1, u);
    wasm_flow::lemma_set(f2, k.valid.0, E::C(1), u, 1, code, h);
    assert(wasm_flow::behind(code, q2.code.len() as int, false, 0) == pushed(
        c,
        k,
        a,
        x,
    ).code.len());
    assert(wasm_flow::behind(code, f3.code.len() as int, false, 0) == wasm_flow::behind(
        code,
        q2.code.len() as int,
        false,
        0,
    ));
    assert(wasm_flow::behind(code, f2.code.len() as int, false, 0) == wasm_flow::behind(
        code,
        f3.code.len() as int,
        false,
        0,
    ));
    assert(wasm_flow::behind(code, f1.code.len() as int, false, 0) == wasm_flow::behind(
        code,
        f2.code.len() as int,
        false,
        0,
    ));
}

/// Where the branches of the inner block lead.
#[verifier::spinoff_prover]
proof fn lemma_inner_exits(
    c: Ctx,
    k: Push32WriteCache,
    a: usize,
    x: usize,
    code: Seq<Op>,
    s: Words,
    h: Helpers,
)
    requires
        codegen_read_laws::stands_in(c, pushed(c, k, a, x).code, code),
    ensures
        reused(c, k, a, x).code.is_prefix_of(code),
        reused(c, k, a, x).block().code.is_prefix_of(code),
        asked(c, k, a, x).code.is_prefix_of(code),
        codegen_write_laws::dropped(c, asked(c, k, a, x)).code.is_prefix_of(code),
        codegen_write_laws::helped(
            c,
            BitSize::DWORD,
            a,
            x,
            codegen_write_laws::dropped(c, asked(c, k, a, x)),
        ).code.is_prefix_of(code),
        checked(c, k, a, x).code.is_prefix_of(code),
        put(a, entry_local(c), x, checked(c, k, a, x)).code.is_prefix_of(code),
        code[put(a, entry_local(c), x, checked(c, k, a, x)).code.len() as int] == Op::Br(
            numbered(c, a).label(),
        ),
        reused(c, k, a, x).code.len() < asked(c, k, a, x).code.len() < checked(
            c,
            k,
            a,
            x,
        ).code.len() < put(a, entry_local(c), x, checked(c, k, a, x)).code.len() < helped(
            c,
            k,
            a,
            x,
        ).code.len(),
        wasm_flow::exit_of(code, reused(c, k, a, x).label()) == helped(c, k, a, x).code.len(),
        wasm_flow::behind(code, reused(c, k, a, x).code.len() as int, false, 0) == pushed(
            c,
            k,
            a,
            x,
        ).code.len(),
{
    let entry = entry_local(c);
    let r6 = reused(c, k, a, x);
    let p1 = r6.block().take_i32();
    let question = c.direct(a, entry, c.write_mask(), BitSize::DWORD);
    let branch = Op::BrIf(r6.label(), None);
    let p2 = asked(c, k, a, x);
    let p3 = codegen_write_laws::dropped(c, p2);
    let p4 = codegen_write_laws::helped(c, BitSize::DWORD, a, x, p3);
    let p5 = checked(c, k, a, x);
    let p6 = put(a, entry, x, p5);
    let leave = Op::Br(numbered(c, a).label());
    let p7 = p6.op(leave);
    let p8 = helped(c, k, a, x);
    let n1 = p1.code.len() as int;
    let n7 = p7.code.len() as int;
    reveal(Emit::take_i32);
    reveal(Emit::label);
    lemma_tail_stands(c, k, a, x, code, s, h);
    wasm_flow::lemma_op_stands(p7, Op::End, code);
    wasm_flow::lemma_op_stands(p6, leave, code);
    wasm_flow::lemma_op_is_level(p6, leave, code);
    lemma_put(c, a, entry, x, p5, code, s, h);
    codegen_write_laws::lemma_answered(c, entry, p4, code, s, 0, h);
    codegen_write_laws::lemma_helped(c, BitSize::DWORD, a, x, p3, code, s, h);
    codegen_write_laws::lemma_dropped(c, p2, code, s, h);
    wasm_flow::lemma_op_stands(p1.val(question), branch, code);
    wasm_flow::lemma_op_is_level(p1.val(question), branch, code);
    wasm_flow::lemma_val_stands(p1, question, code, false, 0);
    wasm_flow::lemma_val_is_level(p1, question, code);
    wasm_flow::lemma_op_stands(r6, Op::Block(BlockType::Void), code);
    wasm_flow::lemma_level_on(code, n1, p1.val(question).code.len() as int, p2.code.len() as int);
    wasm_flow::lemma_level_on(code, n1, p2.code.len() as int, p3.code.len() as int);
    wasm_flow::lemma_level_on(code, n1, p3.code.len() as int, p4.code.len() as int);
    wasm_flow::lemma_level_on(code, n1, p4.code.len() as int, p5.code.len() as int);
    wasm_flow::lemma_level_on(code, n1, p5.code.len() as int, p6.code.len() as int);
    wasm_flow::lemma_level_on(code, n1, p6.code.len() as int, n7);
    assert(r6.label().0 == r6.code.len());
    assert(wasm_flow::behind(code, n7, false, 0) == p8.code.len());
    assert(wasm_flow::behind(code, n1, false, 0) == p8.code.len());
    assert(wasm_flow::behind(code, n7, false, 1) == wasm_flow::behind(
        code,
        p8.code.len() as int,
        false,
        0,
    ));
    assert(wasm_flow::behind(code, n1, false, 1) == pushed(c, k, a, x).code.len());
}

/// Where the branches of the outer block lead.
#[verifier::spinoff_prover]
proof fn lemma_outer_exits(
    c: Ctx,
    k: Push32WriteCache,
    a: usize,
    x: usize,
    code: Seq<Op>,
    s: Words,
    h: Helpers,
)
    requires
        codegen_read_laws::stands_in(c, pushed(c, k, a, x).code, code),
    ensures
        numbered(c, a).code.is_prefix_of(code),
        numbered(c, a).block().code.is_prefix_of(code),
        looked_up(c, k, a).code.is_prefix_of(code),
        put(a, k.entry.0, x, looked_up(c, k, a)).code.is_prefix_of(code),
        code[put(a, k.entry.0, x, looked_up(c, k, a)).code.len() as int] == Op::Br(
            numbered(c, a).label(),
        ),
        looked_up(c, k, a).code.len() < put(a, k.entry.0, x, looked_up(c, k, a)).code.len()
            < reused(c, k, a, x).code.len(),
        wasm_flow::behind(code, looked_up(c, k, a).code.len() as int, true, 0) == reused(
            c,
            k,
            a,
            x,
        ).code.len(),
        wasm_flow::exit_of(code, numbered(c, a).label()) == pushed(c, k, a, x).code.len(),
{
    let num = numbered(c, a);
    let b2 = num.block();
    let question = hit(k, a, page_local(c));
    let open = Op::If(BlockType::Void, None);
    let r3 = looked_up(c, k, a);
    let r4 = put(a, k.entry.0, x, r3);
    let leave = Op::Br(num.label());
    let r5 = r4.op(leave);
    let r6 = reused(c, k, a, x);
    let n3 = r3.code.len() as int;
    let n5 = r5.code.len() as int;
    let end = pushed(c, k, a, x).code.len() as int;
    reveal(Emit::label);
    lemma_inner_exits(c, k, a, x, code, s, h);
    wasm_flow::lemma_op_stands(r5, Op::End, code);
    wasm_flow::lemma_op_stands(r4, leave, code);
    wasm_flow::lemma_op_is_level(r4, leave, code);
    lemma_put(c, a, k.entry.0, x, r3, code, s, h);
    wasm_flow::lemma_level_on(code, n3, r4.code.len() as int, n5);
    wasm_flow::lemma_op_stands(b2.val(question), open, code);
    wasm_flow::lemma_val_stands(b2, question, code, false, 0);
    wasm_flow::lemma_op_stands(num, Op::Block(BlockType::Void), code);
    assert(num.label().0 == num.code.len());
    assert(wasm_flow::behind(code, n5, true, 0) == r6.code.len());
    assert(wasm_flow::behind(code, n3, true, 0) == r6.code.len());
    assert(wasm_flow::behind(code, n5, false, 1) == end);
    assert(wasm_flow::behind(code, n3, false, 1) == end);
    assert(wasm_flow::behind(code, b2.val(question).code.len() as int, false, 0) == end);
}

/// What the cache remembers is what the translation table says, and allows direct writes.
pub open spec fn cache_agrees(c: Ctx, k: Push32WriteCache, s: Words) -> bool {
    let page = s.locals[k.page.0] as u32;
    let word = s.locals[k.entry.0];
    ||| s.locals[k.valid.0] == 0
    ||| {
        &&& s.locals[k.valid.0] == 1
        &&& word == s.memory[((page * 4) as u32).wrapping_add(c.st.env.tlb_data)]
        &&& word & c.write_mask() == TLB_VALID
    }
}

/// The cache remembers the page of the address, and the write stays inside it.
pub open spec fn is_hit(k: Push32WriteCache, address: i32, s: Words) -> bool {
    &&& s.locals[k.valid.0] == 1
    &&& s.locals[k.page.0] == codegen_cache_laws::page_word(address)
    &&& codegen_mem_laws::stays_inside(address, BitSize::DWORD)
}

/// The cache takes a page and its entry.
pub open spec fn cache_filled(k: Push32WriteCache, page: i32, word: i32, s: Words) -> Words {
    s.set(k.page.0, page).set(k.entry.0, word).set(k.valid.0, 1)
}

/// The locals of a push are apart.
pub open spec fn locals_are_apart(c: Ctx, k: Push32WriteCache, a: usize, x: usize) -> bool {
    let entry = entry_local(c);
    let page = page_local(c);
    &&& a != entry && a != page && a != k.page.0 && a != k.entry.0 && a != k.valid.0
    &&& x != entry && x != page && x != k.page.0 && x != k.entry.0 && x != k.valid.0
    &&& entry != page && entry != k.page.0 && entry != k.entry.0 && entry != k.valid.0
    &&& page != k.page.0 && page != k.entry.0 && page != k.valid.0
    &&& k.page.0 != k.entry.0 && k.page.0 != k.valid.0 && k.entry.0 != k.valid.0
    &&& codegen_write_laws::cache_is_apart(c, a)
    &&& codegen_write_laws::cache_is_apart(c, x)
    &&& codegen_write_laws::cache_is_apart(c, entry)
}

/// The question to the cache.
#[verifier::spinoff_prover]
proof fn lemma_looked_up(
    c: Ctx,
    k: Push32WriteCache,
    a: usize,
    x: usize,
    code: Seq<Op>,
    s: Words,
    h: Helpers,
)
    requires
        codegen_read_laws::stands_in(c, pushed(c, k, a, x).code, code),
        locals_are_apart(c, k, a, x),
        s.locals[k.valid.0] == 0 || s.locals[k.valid.0] == 1,
    ensures
        ({
            let t = s.set(page_local(c), codegen_cache_laws::page_word(s.locals[a]));
            let found = is_hit(k, s.locals[a], s);
            wasm_flow::goes(code, c.e.code.len() as int, s, h) == wasm_flow::goes(
                code,
                if found {
                    pushed(c, k, a, x).code.len() as int
                } else {
                    reused(c, k, a, x).code.len() as int
                },
                if found {
                    Words {
                        memory: codegen_write_laws::written_at(
                            c,
                            BitSize::DWORD,
                            s.locals[k.entry.0],
                            s.locals[a],
                            s.locals[x],
                            s.memory,
                        ),
                        ..t
                    }
                } else {
                    t
                },
                h,
            )
        }),
{
    let page = page_local(c);
    let address = s.locals[a];
    let number = codegen_cache_laws::page_word(address);
    let e0 = c.e.take_i32();
    let num = numbered(c, a);
    let b2 = num.block();
    let question = hit(k, a, page);
    let r3 = looked_up(c, k, a);
    let r4 = put(a, k.entry.0, x, r3);
    let t = s.set(page, number);
    let found = is_hit(k, address, s);
    let v = wasm_run::truth(found);
    let same = E::L(k.page.0).bin(Bin::Eq, E::L(page));
    let is_same = wasm_run::truth(s.locals[k.page.0] == number);
    let valid = s.locals[k.valid.0];
    reveal(Emit::take_i32);
    reveal_with_fuel(wasm_flow::calls_nothing, 10);
    lemma_tail_stands(c, k, a, x, code, s, h);
    lemma_inner_exits(c, k, a, x, code, s, h);
    lemma_outer_exits(c, k, a, x, code, s, h);
    wasm_run::evaluate_local(a, s);
    wasm_run::evaluate_binc(Bin::ShrU, E::L(a), 12, s, address, s);
    wasm_flow::lemma_set(e0, page, E::L(a).binc(Bin::ShrU, 12), s, number, code, h);
    wasm_flow::lemma_op_stands(num, Op::Block(BlockType::Void), code);
    assert(wasm_flow::goes(code, num.code.len() as int, t, h) == wasm_flow::goes(
        code,
        b2.code.len() as int,
        t,
        h,
    ));
    wasm_run::evaluate_local(k.page.0, t);
    wasm_run::evaluate_local(page, t);
    wasm_run::evaluate_local(k.valid.0, t);
    wasm_run::evaluate_bin(
        Bin::Eq,
        E::L(k.page.0),
        E::L(page),
        t,
        s.locals[k.page.0],
        t,
        number,
        t,
    );
    wasm_run::evaluate_bin(Bin::And, E::L(k.valid.0), same, t, valid, t, is_same, t);
    codegen_mem_laws::bits_of_truth();
    codegen_mem_laws::evaluate_in_page(
        E::L(k.valid.0).bin(Bin::And, same),
        a,
        BitSize::DWORD,
        t,
        valid == 1 && s.locals[k.page.0] == number,
        t,
    );
    wasm_flow::lemma_op_stands(b2.val(question), Op::If(BlockType::Void, None), code);
    wasm_flow::lemma_val(b2, question, t, v, t, code, h);
    let told = t.on(t.stack.push(v));
    assert(told.stack.drop_last() =~= t.stack);
    assert(told.pop() == t);
    assert(told.top() == v);
    if found {
        lemma_put(c, a, k.entry.0, x, r3, code, t, h);
        let u = Words {
            memory: codegen_write_laws::written_at(
                c,
                BitSize::DWORD,
                s.locals[k.entry.0],
                address,
                s.locals[x],
                s.memory,
            ),
            ..t
        };
        assert(wasm_flow::goes(code, b2.val(question).code.len() as int, told, h)
            == wasm_flow::goes(code, r3.code.len() as int, t, h));
        assert(wasm_flow::goes(code, r4.code.len() as int, u, h) == wasm_flow::goes(
            code,
            pushed(c, k, a, x).code.len() as int,
            u,
            h,
        ));
    } else {
        assert(wasm_flow::goes(code, b2.val(question).code.len() as int, told, h)
            == wasm_flow::goes(code, reused(c, k, a, x).code.len() as int, t, h));
    }
}

/// What follows where the cache does not remember the page.
#[verifier::spinoff_prover]
proof fn lemma_missed(
    c: Ctx,
    k: Push32WriteCache,
    a: usize,
    x: usize,
    code: Seq<Op>,
    s: Words,
    h: Helpers,
)
    requires
        codegen_read_laws::stands_in(c, pushed(c, k, a, x).code, code),
        locals_are_apart(c, k, a, x),
    ensures
        ({
            let entry = entry_local(c);
            let address = s.locals[a];
            let value = s.locals[x];
            let word = codegen_mem_laws::translation(c, address, s);
            let told = s.set(entry, word);
            let full = cache_filled(k, s.locals[page_local(c)], word, told);
            let (answer, memory) = codegen_write_laws::asked_of(
                c,
                BitSize::DWORD,
                address,
                value,
                s.memory,
                h,
            );
            let t = codegen_write_laws::cache_dropped(c, told).set(entry, answer);
            let ran = wasm_flow::goes(code, reused(c, k, a, x).code.len() as int, s, h);
            let end = pushed(c, k, a, x).code.len() as int;
            if codegen_mem_laws::is_direct(c, c.write_mask(), address, BitSize::DWORD, s) {
                ran == wasm_flow::goes(
                    code,
                    end,
                    Words {
                        memory: codegen_write_laws::written_at(
                            c,
                            BitSize::DWORD,
                            word,
                            address,
                            value,
                            s.memory,
                        ),
                        ..full
                    },
                    h,
                )
            } else if answer & 1 == 0 {
                ran == wasm_flow::goes(
                    code,
                    end,
                    Words {
                        memory: codegen_write_laws::written_at(
                            c,
                            BitSize::DWORD,
                            answer,
                            address,
                            value,
                            memory,
                        ),
                        ..t
                    },
                    h,
                )
            } else {
                ran == wasm_flow::goes(
                    code,
                    wasm_flow::exit_of(code, c.st.exit_with_fault_label),
                    Words { memory, ..t },
                    h,
                )
            }
        }),
{
    let entry = entry_local(c);
    let address = s.locals[a];
    let value = s.locals[x];
    let word = codegen_mem_laws::translation(c, address, s);
    let direct = codegen_mem_laws::is_direct(c, c.write_mask(), address, BitSize::DWORD, s);
    let v = wasm_run::truth(direct);
    let told = s.set(entry, word);
    let (answer, memory) = codegen_write_laws::asked_of(
        c,
        BitSize::DWORD,
        address,
        value,
        s.memory,
        h,
    );
    let apart = codegen_write_laws::cache_dropped(c, told);
    let u = Words { memory, ..apart };
    let w = u.set(entry, answer);
    let r6 = reused(c, k, a, x);
    let p1 = r6.block().take_i32();
    let question = c.direct(a, entry, c.write_mask(), BitSize::DWORD);
    let branch = Op::BrIf(r6.label(), None);
    let p2 = asked(c, k, a, x);
    let p3 = codegen_write_laws::dropped(c, p2);
    let p4 = codegen_write_laws::helped(c, BitSize::DWORD, a, x, p3);
    let p5 = checked(c, k, a, x);
    let p6 = put(a, entry, x, p5);
    let p8 = helped(c, k, a, x);
    reveal(Emit::take_i32);
    lemma_tail_stands(c, k, a, x, code, told, h);
    lemma_inner_exits(c, k, a, x, code, s, h);
    lemma_outer_exits(c, k, a, x, code, s, h);
    wasm_flow::lemma_op_stands(r6, Op::Block(BlockType::Void), code);
    assert(wasm_flow::goes(code, r6.code.len() as int, s, h) == wasm_flow::goes(
        code,
        p1.code.len() as int,
        s,
        h,
    ));
    wasm_flow::lemma_op_stands(p1.val(question), branch, code);
    codegen_mem_laws::evaluate_direct(c, a, entry, c.write_mask(), BitSize::DWORD, s);
    codegen_read_laws::lemma_calls_nothing(c, a, entry, c.write_mask(), BitSize::DWORD);
    wasm_flow::lemma_val(p1, question, s, v, told, code, h);
    let answered = told.on(s.stack.push(v));
    assert(answered.stack.drop_last() =~= s.stack);
    assert(answered.pop() == told);
    assert(answered.top() == v);
    if direct {
        assert(wasm_flow::goes(code, p1.val(question).code.len() as int, answered, h)
            == wasm_flow::goes(code, p8.code.len() as int, told, h));
    } else {
        assert(wasm_flow::goes(code, p1.val(question).code.len() as int, answered, h)
            == wasm_flow::goes(code, p2.code.len() as int, told, h));
        codegen_write_laws::lemma_dropped(c, p2, code, told, h);
        codegen_write_laws::lemma_helped(c, BitSize::DWORD, a, x, p3, code, apart, h);
        codegen_write_laws::lemma_answered(c, entry, p4, code, u, answer, h);
        if answer & 1 == 0 {
            lemma_put(c, a, entry, x, p5, code, w, h);
            let stored = Words {
                memory: codegen_write_laws::written_at(
                    c,
                    BitSize::DWORD,
                    answer,
                    address,
                    value,
                    memory,
                ),
                ..w
            };
            assert(wasm_flow::goes(code, p6.code.len() as int, stored, h) == wasm_flow::goes(
                code,
                pushed(c, k, a, x).code.len() as int,
                stored,
                h,
            ));
        }
    }
}

/// A cache of pushed-to pages that agrees with the translation table changes nothing of what is
/// pushed: where the translation entry of the page allows the write and the write stays inside
/// the page, the code stores the value at the place that the entry names, and the cache agrees
/// with the table that it was filled from. Elsewhere the cache is not used and keeps what it
/// remembers, and the write goes through the helper.
#[verifier::spinoff_prover]
pub proof fn law_cached_pushes_are_translated(
    c: Ctx,
    a: usize,
    x: usize,
    code: Seq<Op>,
    s: Words,
    h: Helpers,
)
    requires
        is_plain_push(c),
        locals_are_apart(c, c.st.push32_write_cache->0, a, x),
        cache_agrees(c, c.st.push32_write_cache->0, s),
        codegen_read_laws::stands_in(c, c.push_write(a, x).e.code, code),
    ensures
        ({
            let k = c.st.push32_write_cache->0;
            let entry = entry_local(c);
            let address = s.locals[a];
            let value = s.locals[x];
            let number = codegen_cache_laws::page_word(address);
            let word = codegen_mem_laws::translation(c, address, s);
            let here = s.set(page_local(c), number);
            let told = if is_hit(k, address, s) {
                here
            } else {
                cache_filled(k, number, word, here.set(entry, word))
            };
            let (answer, memory) = codegen_write_laws::asked_of(
                c,
                BitSize::DWORD,
                address,
                value,
                s.memory,
                h,
            );
            let t = codegen_write_laws::cache_dropped(c, here).set(entry, answer);
            let ran = wasm_flow::goes(code, c.e.code.len() as int, s, h);
            let end = c.push_write(a, x).e.code.len() as int;
            if codegen_mem_laws::is_direct(c, c.write_mask(), address, BitSize::DWORD, s) {
                &&& ran == wasm_flow::goes(
                    code,
                    end,
                    Words {
                        memory: codegen_write_laws::written_at(
                            c,
                            BitSize::DWORD,
                            word,
                            address,
                            value,
                            s.memory,
                        ),
                        ..told
                    },
                    h,
                )
                &&& cache_agrees(c, k, told)
            } else if answer & 1 == 0 {
                ran == wasm_flow::goes(
                    code,
                    end,
                    Words {
                        memory: codegen_write_laws::written_at(
                            c,
                            BitSize::DWORD,
                            answer,
                            address,
                            value,
                            memory,
                        ),
                        ..t
                    },
                    h,
                )
            } else {
                ran == wasm_flow::goes(
                    code,
                    wasm_flow::exit_of(code, c.st.exit_with_fault_label),
                    Words { memory, ..t },
                    h,
                )
            }
        }),
{
    let k = c.st.push32_write_cache->0;
    let entry = entry_local(c);
    let address = s.locals[a];
    let number = codegen_cache_laws::page_word(address);
    let word = codegen_mem_laws::translation(c, address, s);
    let here = s.set(page_local(c), number);
    let (answer, memory) = codegen_write_laws::asked_of(
        c,
        BitSize::DWORD,
        address,
        s.locals[x],
        s.memory,
        h,
    );
    lemma_shape(c, a, x);
    lemma_looked_up(c, k, a, x, code, s, h);
    lemma_missed(c, k, a, x, code, here, h);
    codegen_mem_laws::lemma_address(address);
    assert(codegen_write_laws::cache_dropped(c, here.set(entry, word)).set(entry, answer).locals
        =~= codegen_write_laws::cache_dropped(c, here).set(entry, answer).locals);
    if is_hit(k, address, s) {
        assert(s.locals[k.entry.0] == word);
    }
}

} // verus!
