//! What the code of a push does where the stack has 16 bits or its segment a base, and where
//! pushes remember the page that they went to.
use vstd::prelude::*;
use crate::codegen_cache_laws;
use crate::codegen_mem::{BitSize, GenSafeWriteValue};
use crate::codegen_mem_laws;
use crate::codegen_push_laws;
use crate::codegen_read_laws;
use crate::codegen_stack_laws::{is_flat_stack, pointer_local, pushing};
use crate::codegen_write_laws;
use crate::cpu_state;
use crate::cpu_state::{NOT_LOW_16, SS};
use crate::jit_context::Ctx;
use crate::wasm::{Bin, Emit, Op, WasmLocal, E};
use crate::wasm_flow;
use crate::wasm_flow::Helpers;
use crate::wasm_run;
use crate::wasm_run::Words;

verus! {

/// The stack pointer, in the width of the stack.
pub open spec fn pointer(c: Ctx, s: Words) -> i32 {
    if c.st.cpu.ssize_32 {
        s.locals[pointer_local(c)]
    } else {
        s.locals[pointer_local(c)] & 0xffff
    }
}

/// A stack offset, cut to the width of the stack.
pub open spec fn cut(c: Ctx, at: i32) -> i32 {
    if c.st.cpu.ssize_32 {
        at
    } else {
        at & 0xffff
    }
}

/// The linear address of a stack offset.
pub open spec fn linear(c: Ctx, s: Words, offset: i32) -> i32 {
    if c.st.cpu.flat_segmentation {
        offset
    } else {
        offset.wrapping_add(s.memory[cpu_state::seg_offset_address(SS as int) as u32])
    }
}

/// The register of the stack pointer once it was moved: a 16-bit stack keeps its upper half.
pub open spec fn moved(c: Ctx, register: i32, at: i32) -> i32 {
    if c.st.cpu.ssize_32 {
        at
    } else {
        (at & 0xffff) | (register & NOT_LOW_16)
    }
}

/// The new stack pointer is kept, and its offset is on the wasm stack.
pub open spec fn lowered(c: Ctx, step: i32) -> Emit {
    c.e.take_i32().val(c.stack_pointer().binc(Bin::Sub, step)).val(
        E::Top.tee(c.e.next_i32()),
    ).val(E::stack_offset(c.st.cpu.ssize_32))
}

/// The local of the address of a push.
pub open spec fn place_local(c: Ctx, step: i32) -> usize {
    lowered(c, step).next_i32()
}

/// The builder where the value is written.
pub open spec fn placing(c: Ctx, step: i32) -> Ctx {
    c.on(lowered(c, step).set_new(E::stack_address(c.st.cpu.flat_segmentation)))
}

/// The code behind that write.
pub open spec fn placed(c: Ctx, bits: BitSize, step: i32, x: usize) -> Ctx {
    placing(c, step).safe_write(
        bits,
        place_local(c, step),
        GenSafeWriteValue::I32(WasmLocal(x)),
    )
}

/// What the register of the stack pointer takes, from the new stack pointer on the wasm stack.
spec fn taken(c: Ctx) -> E {
    if c.st.cpu.ssize_32 {
        E::Top
    } else {
        E::Top.and(0xffff).bin(Bin::Or, E::L(pointer_local(c)).and(NOT_LOW_16))
    }
}

proof fn lemma_shape(c: Ctx, bits: BitSize, step: i32, x: usize, cached: bool)
    requires
        !is_flat_stack(c),
    ensures
        c.push(bits, step, WasmLocal(x), cached).e.code == placed(c, bits, step, x).e.val(
            E::L(c.e.next_i32()),
        ).set(pointer_local(c), taken(c)).code,
{
    broadcast use crate::wasm::group_code;

    reveal(Ctx::write_pushed);
    reveal(Ctx::write_stack);
    reveal(Ctx::set_stack_pointer);
    reveal(Ctx::safe_write);
    reveal(Emit::give_i32);
}

proof fn lemma_push_pop(s: Words, u: i32, v: i32)
    ensures
        s.push(u).pop() == s,
        s.push(u).top() == u,
        s.push(u).push(v).pop() == s.push(u),
        s.push(u).push(v).top() == v,
        s.push(u).push(v).below() == u,
{
    assert(s.push(u).stack.drop_last() =~= s.stack);
    assert(s.push(u).push(v).stack.drop_last() =~= s.push(u).stack);
}

proof fn lemma_cut(c: Ctx, s: Words, at: i32)
    ensures
        E::stack_offset(c.st.cpu.ssize_32).done(s.push(at)) == s.push(cut(c, at)),
        wasm_flow::calls_nothing(E::stack_offset(c.st.cpu.ssize_32)),
{
    reveal(E::stack_offset);
    reveal_with_fuel(E::done, 3);
    reveal_with_fuel(wasm_flow::calls_nothing, 4);
    lemma_push_pop(s, at, 0xffff);
}

proof fn lemma_linear(c: Ctx, s: Words, offset: i32)
    ensures
        E::stack_address(c.st.cpu.flat_segmentation).done(s.push(offset)) == s.push(
            linear(c, s, offset),
        ),
        wasm_flow::calls_nothing(E::stack_address(c.st.cpu.flat_segmentation)),
{
    reveal(E::stack_address);
    reveal_with_fuel(E::done, 4);
    reveal_with_fuel(wasm_flow::calls_nothing, 5);
    let address = cpu_state::seg_offset_address(SS as int) as u32;
    let base = s.memory[address];
    lemma_push_pop(s, offset, base);
    lemma_push_pop(s.push(offset), address as i32, 0);
    assert(((address as i32) as u32).wrapping_add(0) == address);
}

proof fn lemma_taken(c: Ctx, s: Words, at: i32)
    ensures
        taken(c).done(s.push(at)) == s.push(moved(c, s.locals[pointer_local(c)], at)),
        wasm_flow::calls_nothing(taken(c)),
{
    reveal_with_fuel(E::done, 5);
    reveal_with_fuel(wasm_flow::calls_nothing, 6);
    let register = s.locals[pointer_local(c)];
    lemma_push_pop(s, at, 0xffff);
    lemma_push_pop(s, at & 0xffff, register & NOT_LOW_16);
    lemma_push_pop(s.push(at & 0xffff), register, NOT_LOW_16);
}

/// The code up to the write: the new stack pointer and the address are in their locals.
#[verifier::spinoff_prover]
proof fn lemma_placing(c: Ctx, step: i32, code: Seq<Op>, s: Words, h: Helpers)
    requires
        placing(c, step).e.code.is_prefix_of(code),
        pointer_local(c) != c.e.next_i32(),
    ensures
        ({
            let at = pointer(c, s).wrapping_sub(step);
            let here = s.set(c.e.next_i32(), at);
            wasm_flow::goes(code, c.e.code.len() as int, s, h) == wasm_flow::goes(
                code,
                placing(c, step).e.code.len() as int,
                here.set(place_local(c, step), linear(c, s, cut(c, at))),
                h,
            )
        }),
{
    let n = c.e.next_i32();
    let esp = pointer_local(c);
    let at = pointer(c, s).wrapping_sub(step);
    let here = s.set(n, at);
    let a = place_local(c, step);
    let e0 = c.e.take_i32();
    let lower = c.stack_pointer().binc(Bin::Sub, step);
    let e1 = e0.val(lower);
    let kept = E::Top.tee(n);
    let e2 = e1.val(kept);
    let offset = E::stack_offset(c.st.cpu.ssize_32);
    let e3 = e2.val(offset);
    let e4 = e3.take_i32();
    let address = E::stack_address(c.st.cpu.flat_segmentation);
    let place = linear(c, s, cut(c, at));
    reveal(Emit::take_i32);
    reveal(E::stack_reg);
    reveal_with_fuel(wasm_flow::calls_nothing, 5);
    wasm_flow::lemma_op_stands(e4.val(address), Op::LocalSet(a), code);
    wasm_flow::lemma_val_stands(e4, address, code, false, 0);
    wasm_flow::lemma_val_stands(e2, offset, code, false, 0);
    wasm_flow::lemma_val_stands(e1, kept, code, false, 0);
    // The new stack pointer.
    wasm_run::evaluate_local(esp, s);
    if !c.st.cpu.ssize_32 {
        wasm_run::evaluate_binc(Bin::And, E::L(esp), 0xffff, s, s.locals[esp], s);
    }
    wasm_run::evaluate_binc(Bin::Sub, c.stack_pointer(), step, s, pointer(c, s), s);
    wasm_flow::lemma_val(e0, lower, s, at, s, code, h);
    assert(s.on(s.stack.push(at)) == s.push(at));
    assert(kept.done(s.push(at)) == here.push(at)) by {
        reveal_with_fuel(E::done, 2);
    }
    lemma_cut(c, here, at);
    lemma_linear(c, here, cut(c, at));
    assert(linear(c, here, cut(c, at)) == place);
    reveal(Emit::val);
    wasm_flow::lemma_expression(kept, e1.code, code, s.push(at), h);
    wasm_flow::lemma_expression(offset, e2.code, code, here.push(at), h);
    wasm_flow::lemma_expression(address, e4.code, code, here.push(cut(c, at)), h);
    lemma_push_pop(here, place, 0);
    assert(wasm_run::step(Op::LocalSet(a), here.push(place)) == here.set(a, place));
}

/// A push to a stack of 16 bits, or one whose segment has a base, writes at the linear address
/// below the stack pointer and moves the pointer afterwards, in the width of the stack: where the
/// write faults, the unit is left with the stack pointer as it was.
#[verifier::spinoff_prover]
pub proof fn law_segmented_pushes_write_and_move(
    c: Ctx,
    bits: BitSize,
    step: i32,
    x: usize,
    cached: bool,
    code: Seq<Op>,
    s: Words,
    h: Helpers,
)
    requires
        !is_flat_stack(c),
        codegen_write_laws::is_plain_write(c, bits),
        x != c.e.next_i32(),
        x != place_local(c, step),
        pointer_local(c) != c.e.next_i32(),
        pointer_local(c) != place_local(c, step),
        pointer_local(c) != placing(c, step).e.next_i32(),
        c.e.next_i32() != place_local(c, step),
        c.e.next_i32() != placing(c, step).e.next_i32(),
        codegen_write_laws::cache_is_apart(c, pointer_local(c)),
        codegen_write_laws::cache_is_apart(c, c.e.next_i32()),
        codegen_write_laws::stands_in(
            placing(c, step),
            c.push(bits, step, WasmLocal(x), cached).e.code,
            place_local(c, step),
            x,
            code,
        ),
    ensures
        ({
            let n = c.e.next_i32();
            let a = place_local(c, step);
            let register = s.locals[pointer_local(c)];
            let at = pointer(c, s).wrapping_sub(step);
            let end = placed(c, bits, step, x).e.code.len() as int;
            let (q, t) = codegen_write_laws::write_leads(
                placing(c, step),
                bits,
                a,
                x,
                code,
                end,
                s.set(n, at).set(a, linear(c, s, cut(c, at))),
                h,
            );
            let ran = wasm_flow::goes(code, c.e.code.len() as int, s, h);
            if q == end {
                ran == wasm_flow::goes(
                    code,
                    c.push(bits, step, WasmLocal(x), cached).e.code.len() as int,
                    t.set(pointer_local(c), moved(c, register, at)),
                    h,
                )
            } else {
                &&& ran == wasm_flow::goes(code, q, t, h)
                &&& t.locals[pointer_local(c)] == register
            }
        }),
{
    let n = c.e.next_i32();
    let a = place_local(c, step);
    let esp = pointer_local(c);
    let register = s.locals[esp];
    let at = pointer(c, s).wrapping_sub(step);
    let begin = s.set(n, at).set(a, linear(c, s, cut(c, at)));
    let c2 = placing(c, step);
    let e3 = placed(c, bits, step, x).e;
    let end = e3.code.len() as int;
    let (q, t) = codegen_write_laws::write_leads(c2, bits, a, x, code, end, begin, h);
    lemma_shape(c, bits, step, x, cached);
    assert(c2.e.opt == c.e.opt) by {
        broadcast use crate::wasm::group_code;

    }
    let e4 = e3.val(E::L(n));
    wasm_flow::lemma_op_stands(e4.val(taken(c)), Op::LocalSet(esp), code);
    wasm_flow::lemma_val_stands(e4, taken(c), code, false, 0);
    wasm_flow::lemma_val_stands(e3, E::L(n), code, false, 0);
    codegen_write_laws::lemma_write_stands(c2, bits, a, x, code, begin, h);
    lemma_placing(c, step, code, s, h);
    codegen_write_laws::lemma_write_leads(c2, bits, a, x, code, begin, h);
    assert(t.locals[esp] == register);
    assert(t.locals[n] == at);
    if q == end {
        reveal_with_fuel(wasm_flow::calls_nothing, 2);
        wasm_run::evaluate_local(n, t);
        wasm_flow::lemma_val(e3, E::L(n), t, at, t, code, h);
        assert(t.on(t.stack.push(at)) == t.push(at));
        lemma_taken(c, t, at);
        reveal(Emit::val);
        wasm_flow::lemma_expression(taken(c), e4.code, code, t.push(at), h);
        let m = moved(c, register, at);
        lemma_push_pop(t, m, 0);
        assert(wasm_run::step(Op::LocalSet(esp), t.push(m)) == t.set(esp, m));
    }
}

/// Where the code of a push that remembers its page leads: the position behind the write, with
/// the value stored, or the unit's fault exit.
pub open spec fn push_leads(
    c: Ctx,
    a: usize,
    x: usize,
    code: Seq<Op>,
    end: int,
    s: Words,
    h: Helpers,
) -> (int, Words) {
    let k = c.st.push32_write_cache->0;
    let entry = codegen_push_laws::entry_local(c);
    let address = s.locals[a];
    let value = s.locals[x];
    let number = codegen_cache_laws::page_word(address);
    let word = codegen_mem_laws::translation(c, address, s);
    let here = s.set(codegen_push_laws::page_local(c), number);
    let told = if codegen_push_laws::is_hit(k, address, s) {
        here
    } else {
        codegen_push_laws::cache_filled(k, number, word, here.set(entry, word))
    };
    let (answer, memory) = codegen_write_laws::asked_of(
        c,
        BitSize::DWORD,
        address,
        value,
        s.memory,
        h,
    );
    let t = codegen_write_laws::cache_dropped(c, here).set(entry, answer);
    if codegen_mem_laws::is_direct(c, c.write_mask(), address, BitSize::DWORD, s) {
        (
            end,
            Words {
                memory: codegen_write_laws::written_at(
                    c,
                    BitSize::DWORD,
                    word,
                    address,
                    value,
                    s.memory,
                ),
                ..told
            },
        )
    } else if answer & 1 == 0 {
        (
            end,
            Words {
                memory: codegen_write_laws::written_at(
                    c,
                    BitSize::DWORD,
                    answer,
                    address,
                    value,
                    memory,
                ),
                ..t
            },
        )
    } else {
        (wasm_flow::exit_of(code, c.st.exit_with_fault_label), Words { memory, ..t })
    }
}

/// The code behind the write of a push that remembers its page.
pub open spec fn remembered(c: Ctx, step: i32, x: usize) -> Ctx {
    pushing(c, step).push_write(c.e.next_i32(), x)
}

proof fn lemma_cached_shape(c: Ctx, step: i32, x: usize)
    requires
        is_flat_stack(c),
        c.st.env.push_run_coalescing,
    ensures
        c.push(BitSize::DWORD, step, WasmLocal(x), true).e.code == remembered(c, step, x).e.set(
            pointer_local(c),
            E::Top,
        ).code,
{
    reveal(Ctx::write_pushed);
    reveal(Ctx::set_stack_pointer);
    reveal(Ctx::push_write);
    reveal(Emit::give_i32);
}

/// A push to a flat stack that remembers its page writes below the stack pointer and moves it
/// afterwards: where the write faults, the unit is left with the stack pointer as it was.
#[verifier::spinoff_prover]
pub proof fn law_cached_pushes_write_and_move(
    c: Ctx,
    step: i32,
    x: usize,
    code: Seq<Op>,
    s: Words,
    h: Helpers,
)
    requires
        is_flat_stack(c),
        c.st.env.push_run_coalescing,
        codegen_push_laws::is_plain_push(c),
        x != c.e.next_i32(),
        pointer_local(c) != c.e.next_i32(),
        codegen_push_laws::locals_are_apart(
            pushing(c, step),
            c.st.push32_write_cache->0,
            c.e.next_i32(),
            x,
        ),
        codegen_push_laws::locals_are_apart(
            pushing(c, step),
            c.st.push32_write_cache->0,
            pointer_local(c),
            x,
        ),
        codegen_push_laws::cache_agrees(
            pushing(c, step),
            c.st.push32_write_cache->0,
            s.set(c.e.next_i32(), s.locals[pointer_local(c)].wrapping_sub(step)),
        ),
        codegen_read_laws::stands_in(
            pushing(c, step),
            c.push(BitSize::DWORD, step, WasmLocal(x), true).e.code,
            code,
        ),
        pushing(c, step).e.code.is_prefix_of(code),
    ensures
        ({
            let n = c.e.next_i32();
            let register = s.locals[pointer_local(c)];
            let at = register.wrapping_sub(step);
            let end = remembered(c, step, x).e.code.len() as int;
            let (q, t) = push_leads(pushing(c, step), n, x, code, end, s.set(n, at), h);
            let ran = wasm_flow::goes(code, c.e.code.len() as int, s, h);
            if q == end {
                ran == wasm_flow::goes(
                    code,
                    c.push(BitSize::DWORD, step, WasmLocal(x), true).e.code.len() as int,
                    t.set(pointer_local(c), at),
                    h,
                )
            } else {
                &&& ran == wasm_flow::goes(code, q, t.push(at), h)
                &&& t.locals[pointer_local(c)] == register
            }
        }),
{
    let n = c.e.next_i32();
    let esp = pointer_local(c);
    let register = s.locals[esp];
    let at = register.wrapping_sub(step);
    let e0 = c.e.take_i32();
    let lower = c.stack_pointer().binc(Bin::Sub, step);
    let e1 = e0.val(lower);
    let kept = E::Top.tee(n);
    let c2 = pushing(c, step);
    let e3 = remembered(c, step, x).e;
    let end = e3.code.len() as int;
    let here = s.set(n, at);
    let (q, t) = push_leads(c2, n, x, code, end, here, h);
    reveal(Emit::take_i32);
    reveal(E::stack_reg);
    reveal_with_fuel(wasm_flow::calls_nothing, 4);
    lemma_cached_shape(c, step, x);
    assert(c2.e.opt == c.e.opt) by {
        broadcast use crate::wasm::group_code;

    }
    wasm_flow::lemma_set_is_level(e3, esp, E::Top, code);
    wasm_flow::lemma_val_stands(e1, kept, code, false, 0);
    wasm_run::evaluate_local(esp, s);
    wasm_run::evaluate_binc(Bin::Sub, E::L(esp), step, s, register, s);
    wasm_flow::lemma_val(e0, lower, s, at, s, code, h);
    assert(s.on(s.stack.push(at)) == s.push(at));
    assert(kept.done(s.push(at)) == here.push(at)) by {
        reveal_with_fuel(E::done, 2);
    }
    assert(wasm_flow::goes(code, e1.code.len() as int, s.push(at), h) == wasm_flow::goes(
        code,
        c2.e.code.len() as int,
        here.push(at),
        h,
    )) by {
        reveal(Emit::val);
        wasm_flow::lemma_expression(kept, e1.code, code, s.push(at), h);
    }
    codegen_push_laws::law_cached_pushes_are_translated(c2, n, x, code, here.push(at), h);
    assert(push_leads(c2, n, x, code, end, here.push(at), h) == (q, t.push(at)));
    assert(wasm_flow::goes(code, c2.e.code.len() as int, here.push(at), h) == wasm_flow::goes(
        code,
        q,
        t.push(at),
        h,
    ));
    assert(t.locals[esp] == register);
    if q == end {
        wasm_flow::lemma_op_stands(e3.val(E::Top), Op::LocalSet(esp), code);
        assert(e3.val(E::Top).code == e3.code) by {
            reveal(Emit::val);
            reveal_with_fuel(E::code, 1);
        }
        lemma_push_pop(t, at, 0);
        assert(wasm_run::step(Op::LocalSet(esp), t.push(at)) == t.set(esp, at));
    }
}

} // verus!
