//! What the code of pushes and pops does on a flat 32-bit stack.
use vstd::prelude::*;
use crate::codegen_mem::{BitSize, GenSafeWriteValue};
use crate::codegen_read_laws;
use crate::codegen_write_laws;
use crate::cpu_state::ESP;
use crate::jit_context::Ctx;
use crate::wasm::{Bin, Emit, Op, WasmLocal, E};
use crate::wasm_flow;
use crate::wasm_flow::Helpers;
use crate::wasm_run;
use crate::wasm_run::Words;

verus! {

/// The stack has 32 bits and its segment is flat.
pub open spec fn is_flat_stack(c: Ctx) -> bool {
    c.st.cpu.ssize_32 && c.st.cpu.flat_segmentation
}

/// The local of the stack pointer.
pub open spec fn pointer_local(c: Ctx) -> usize {
    c.st.regs@[ESP as int].0
}

/// The builder where the value of a push is written: the new stack pointer is in its local and
/// on the wasm stack.
pub open spec fn pushing(c: Ctx, step: i32) -> Ctx {
    c.on(c.e.take_i32()).val(c.stack_pointer().binc(Bin::Sub, step)).val(
        E::Top.tee(c.e.next_i32()),
    )
}

/// The code behind that write.
pub open spec fn pushed(c: Ctx, bits: BitSize, step: i32, x: usize) -> Ctx {
    pushing(c, step).safe_write(bits, c.e.next_i32(), GenSafeWriteValue::I32(WasmLocal(x)))
}

proof fn lemma_shape(c: Ctx, bits: BitSize, step: i32, x: usize, cached: bool)
    requires
        is_flat_stack(c),
        !(cached && c.st.env.push_run_coalescing),
    ensures
        c.push(bits, step, WasmLocal(x), cached).e.code == pushed(c, bits, step, x).e.set(
            pointer_local(c),
            E::Top,
        ).code,
{
    reveal(Ctx::write_pushed);
    reveal(Ctx::set_stack_pointer);
    reveal(Ctx::safe_write);
    reveal(Emit::give_i32);
}

/// A push to a flat stack writes below the stack pointer and moves it afterwards: where the
/// write faults, the unit is left with the stack pointer as it was.
#[verifier::spinoff_prover]
pub proof fn law_pushes_write_and_move(
    c: Ctx,
    bits: BitSize,
    step: i32,
    x: usize,
    cached: bool,
    code: Seq<Op>,
    s: Words,
    h: Helpers,
)
    requires
        is_flat_stack(c),
        codegen_write_laws::is_plain_write(c, bits),
        !(cached && c.st.env.push_run_coalescing),
        x != c.e.next_i32(),
        pointer_local(c) != c.e.next_i32(),
        pointer_local(c) != pushing(c, step).e.next_i32(),
        codegen_write_laws::cache_is_apart(c, pointer_local(c)),
        codegen_write_laws::stands_in(
            pushing(c, step),
            c.push(bits, step, WasmLocal(x), cached).e.code,
            c.e.next_i32(),
            x,
            code,
        ),
    ensures
        ({
            let n = c.e.next_i32();
            let pointer = s.locals[pointer_local(c)];
            let at = pointer.wrapping_sub(step);
            let end = pushed(c, bits, step, x).e.code.len() as int;
            let (q, t) = codegen_write_laws::write_leads(
                pushing(c, step),
                bits,
                n,
                x,
                code,
                end,
                s.set(n, at),
                h,
            );
            let ran = wasm_flow::goes(code, c.e.code.len() as int, s, h);
            if q == end {
                ran == wasm_flow::goes(
                    code,
                    c.push(bits, step, WasmLocal(x), cached).e.code.len() as int,
                    t.set(pointer_local(c), at),
                    h,
                )
            } else {
                &&& ran == wasm_flow::goes(code, q, t.push(at), h)
                &&& t.locals[pointer_local(c)] == pointer
            }
        }),
{
    let n = c.e.next_i32();
    let esp = pointer_local(c);
    let pointer = s.locals[esp];
    let at = pointer.wrapping_sub(step);
    let e0 = c.e.take_i32();
    let lower = c.stack_pointer().binc(Bin::Sub, step);
    let e1 = e0.val(lower);
    let kept = E::Top.tee(n);
    let c2 = pushing(c, step);
    let e3 = pushed(c, bits, step, x).e;
    let end = e3.code.len() as int;
    let here = s.set(n, at);
    let (q, t) = codegen_write_laws::write_leads(c2, bits, n, x, code, end, here, h);
    reveal(Emit::take_i32);
    reveal(E::stack_reg);
    reveal_with_fuel(wasm_flow::calls_nothing, 4);
    lemma_shape(c, bits, step, x, cached);
    assert(c2.e.opt == c.e.opt) by {
        broadcast use crate::wasm::group_code;

    }
    wasm_flow::lemma_set_is_level(e3, esp, E::Top, code);
    // The new stack pointer.
    codegen_write_laws::lemma_write_stands(c2, bits, n, x, code, here, h);
    wasm_flow::lemma_val_stands(e1, kept, code, false, 0);
    wasm_run::evaluate_local(esp, s);
    wasm_run::evaluate_binc(Bin::Sub, E::L(esp), step, s, pointer, s);
    wasm_flow::lemma_val(e0, lower, s, at, s, code, h);
    assert(s.on(s.stack.push(at)) == s.push(at));
    assert(kept.done(s.push(at)) == here.push(at)) by {
        reveal_with_fuel(E::done, 2);
    }
    assert(wasm_flow::goes(code, e1.code.len() as int, s.push(at), h) == wasm_flow::goes(
        code,
        c2.e.code.len() as int,
        here.push(at),
        h,
    )) by {
        reveal(Emit::val);
        wasm_flow::lemma_expression(kept, e1.code, code, s.push(at), h);
    }
    // The write.
    codegen_write_laws::lemma_write_leads(c2, bits, n, x, code, here.push(at), h);
    assert(codegen_write_laws::write_leads(c2, bits, n, x, code, end, here.push(at), h) == (
        q,
        t.push(at),
    ));
    if q == end {
        wasm_flow::lemma_op_stands(e3.val(E::Top), Op::LocalSet(esp), code);
        assert(e3.val(E::Top).code == e3.code) by {
            reveal(Emit::val);
            reveal_with_fuel(E::code, 1);
        }
        assert(t.push(at).stack.drop_last() =~= t.stack);
        assert(t.push(at).pop() == t);
    }
}

/// The builder behind the read of a pop.
pub open spec fn popping(c: Ctx) -> Ctx {
    c.safe_read(BitSize::DWORD, pointer_local(c), 0)
}

/// A 32-bit pop from a flat stack reads at the stack pointer and moves it afterwards: where the
/// read faults, the unit is left with the stack pointer as it was.
#[verifier::spinoff_prover]
pub proof fn law_pops_read_and_move(c: Ctx, code: Seq<Op>, s: Words, h: Helpers)
    requires
        is_flat_stack(c),
        codegen_read_laws::is_uncached_read(c, BitSize::DWORD),
        codegen_read_laws::locals_are_apart(c, pointer_local(c)),
        c.perm_probed() ==> pointer_local(c) != c.e.next_i32(),
        codegen_read_laws::stands_in(c, c.pop(BitSize::DWORD).e.code, code),
    ensures
        ({
            let pointer = s.locals[pointer_local(c)];
            let end = popping(c).e.code.len() as int;
            let (q, t) = codegen_read_laws::read_leads(
                c,
                BitSize::DWORD,
                pointer_local(c),
                code,
                end,
                s,
                h,
            );
            let ran = wasm_flow::goes(code, c.e.code.len() as int, s, h);
            if q == end {
                ran == wasm_flow::goes(
                    code,
                    c.pop(BitSize::DWORD).e.code.len() as int,
                    t.set(pointer_local(c), pointer.wrapping_add(4)),
                    h,
                )
            } else {
                &&& ran == wasm_flow::goes(code, q, t, h)
                &&& t.locals[pointer_local(c)] == pointer
            }
        }),
{
    let esp = pointer_local(c);
    let pointer = s.locals[esp];
    let e1 = popping(c).e;
    let end = e1.code.len() as int;
    let higher = E::L(esp).binc(Bin::Add, 4);
    let (q, t) = codegen_read_laws::read_leads(c, BitSize::DWORD, esp, code, end, s, h);
    reveal(Ctx::safe_read);
    reveal_with_fuel(wasm_flow::calls_nothing, 4);
    wasm_flow::lemma_set_is_level(e1, esp, higher, code);
    codegen_read_laws::lemma_read_leads(c, BitSize::DWORD, esp, 0, code, s, h);
    assert(t.locals[esp] == pointer);
    if q == end {
        wasm_run::evaluate_local(esp, t);
        wasm_run::evaluate_binc(Bin::Add, E::L(esp), 4, t, pointer, t);
        wasm_flow::lemma_set(e1, esp, higher, t, pointer.wrapping_add(4), code, h);
    }
}

} // verus!
