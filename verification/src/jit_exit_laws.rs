//! Where control goes at the end of a compiled block.
use vstd::prelude::*;
use crate::codegen_cond;
use crate::codegen_cond_laws;
use crate::codegen_flag_laws;
use crate::codegen_invert_laws;
use crate::codegen_value_laws;
use crate::codegen_value_laws::word_of;
use crate::cpu_state;
use crate::jit_blocks::{BasicBlock, BasicBlockType};
use crate::jit_context::{Ctx, Instruction, InstructionOperand, InstructionOperandDest};
use crate::jit_emit::Unit;
use crate::jit_exits;
use crate::jit_exits::{Plan, Target};
use crate::jit_search;
use crate::wasm::{Bin, BlockType, Emit, FlagLocals, FlagSlot, Label, Op, Sig, Width, E};
use crate::wasm_course;
use crate::wasm_course::Course;
use crate::wasm_flow;
use crate::wasm_flow::Helpers;
use crate::wasm_run;
use crate::wasm_run::Words;

verus! {

proof fn lemma_quiet_operands(
    f: Option<FlagLocals>,
    p: Instruction,
    dest: InstructionOperandDest,
    source: InstructionOperand,
    n: i32,
)
    ensures
        wasm_flow::calls_nothing(E::last_result(f, p)),
        wasm_flow::calls_nothing(E::last_op1(f, p)),
        wasm_flow::calls_nothing(E::last_op2(f, p)),
        wasm_flow::calls_nothing(E::last_op2(f, p).masked(n)),
        wasm_flow::calls_nothing(E::last_op1(f, p).signed(n)),
        wasm_flow::calls_nothing(E::last_result(f, p).signed(n)),
        wasm_flow::calls_nothing(E::operand_or(n, source, E::last_op2(f, p).masked(n))),
        wasm_flow::calls_nothing(E::unsigned_left(f, p, dest, n)),
        wasm_flow::calls_nothing(E::unsigned_right(f, p, source, n)),
        wasm_flow::calls_nothing(E::signed_left(f, p, dest, n)),
        wasm_flow::calls_nothing(E::signed_right(f, p, source, n)),
        wasm_flow::calls_nothing(E::signed_subtrahend(f, p, source, n)),
{
    lemma_quiet_words(f, p);
    reveal_with_fuel(wasm_flow::calls_nothing, 8);
    reveal(E::masked);
    reveal(E::signed);
    reveal(E::operand_or);
    reveal(E::unsigned_left);
    reveal(E::unsigned_right);
    reveal(E::signed_left);
    reveal(E::signed_right);
    reveal(E::signed_subtrahend);
}

proof fn lemma_quiet_words(f: Option<FlagLocals>, p: Instruction)
    ensures
        forall|slot: FlagSlot| wasm_flow::calls_nothing(#[trigger] E::flag(f, slot)),
        forall|slot: FlagSlot, byte: bool|
            wasm_flow::calls_nothing(#[trigger] E::flag_low(f, slot, byte)),
        wasm_flow::calls_nothing(E::last_result(f, p)),
        wasm_flow::calls_nothing(E::last_op1(f, p)),
{
    reveal_with_fuel(wasm_flow::calls_nothing, 4);
    reveal(E::flag);
    reveal(E::flag_low);
    reveal(E::last_result);
    reveal(E::last_op1);
}

#[verifier::spinoff_prover]
proof fn lemma_quiet_zf(e: Emit, p: Instruction, negate: bool)
    ensures
        wasm_flow::calls_nothing(codegen_cond_laws::zf_expression(e, p, negate)),
{
    lemma_quiet_words(e.flag_locals, p);
    reveal_with_fuel(wasm_flow::calls_nothing, 12);
    reveal(E::eqz_if);
    reveal(E::zf);
}

#[verifier::spinoff_prover]
proof fn lemma_quiet_cf(e: Emit, p: Instruction, negate: bool)
    ensures
        wasm_flow::calls_nothing(codegen_cond_laws::cf_expression(e, p, negate)),
{
    lemma_quiet_words(e.flag_locals, p);
    reveal_with_fuel(wasm_flow::calls_nothing, 12);
    reveal(E::eqz_if);
    reveal(E::operand_or);
}

#[verifier::spinoff_prover]
proof fn lemma_quiet_sf(e: Emit, p: Instruction, negate: bool)
    ensures
        wasm_flow::calls_nothing(codegen_cond_laws::sf_expression(e, p, negate)),
{
    lemma_quiet_words(e.flag_locals, p);
    reveal_with_fuel(wasm_flow::calls_nothing, 12);
    reveal(E::eqz_if);
}

#[verifier::spinoff_prover]
proof fn lemma_quiet_of(e: Emit, p: Instruction)
    ensures
        wasm_flow::calls_nothing(codegen_cond_laws::of_expression(e, p)),
{
    lemma_quiet_words(e.flag_locals, p);
    reveal_with_fuel(wasm_flow::calls_nothing, 16);
}

/// Code that was added is straight, and nothing is counted after it either.
spec fn goes_straight(e: Emit, g: Emit) -> bool {
    &&& wasm_course::is_straight(e.code, g.code)
    &&& g.opt == e.opt
}

proof fn straight_val(e: Emit, x: E)
    requires
        wasm_flow::calls_nothing(x),
    ensures
        goes_straight(e, e.val(x)),
{
    reveal(Emit::val);
    wasm_course::lemma_straight_expression(x, e.code);
}

proof fn straight_op(e: Emit, op: Op)
    requires
        wasm_course::is_step(op),
    ensures
        goes_straight(e, e.op(op)),
{
    reveal(Emit::op);
    wasm_course::lemma_straight_step(e.code, op);
}

proof fn straight_on(e: Emit, f: Emit, g: Emit)
    requires
        goes_straight(e, f),
        goes_straight(f, g),
    ensures
        goes_straight(e, g),
{
    wasm_course::lemma_straight_on(e.code, f.code, g.code);
}

proof fn straight_flags(e: Emit, p: Instruction, negate: bool)
    requires
        !e.opt.profiler,
    ensures
        goes_straight(e, e.zf(p, negate)),
        goes_straight(e, e.cf(p, negate)),
        goes_straight(e, e.sf(p, negate)),
        goes_straight(e, e.of(p)),
{
    codegen_cond_laws::lemma_zf_code(e, p, negate);
    codegen_cond_laws::lemma_cf_code(e, p, negate);
    codegen_cond_laws::lemma_sf_code(e, p, negate);
    codegen_cond_laws::lemma_of_code(e, p);
    lemma_quiet_zf(e, p, negate);
    lemma_quiet_cf(e, p, negate);
    lemma_quiet_sf(e, p, negate);
    lemma_quiet_of(e, p);
    wasm_course::lemma_straight_expression(
        codegen_cond_laws::zf_expression(e, p, negate),
        e.code,
    );
    wasm_course::lemma_straight_expression(
        codegen_cond_laws::cf_expression(e, p, negate),
        e.code,
    );
    wasm_course::lemma_straight_expression(
        codegen_cond_laws::sf_expression(e, p, negate),
        e.code,
    );
    wasm_course::lemma_straight_expression(codegen_cond_laws::of_expression(e, p), e.code);
}

/// A binary instruction, and the inverse of its value where that is asked for.
proof fn straight_end(e: Emit, g: Emit, b: Bin, negate: bool)
    requires
        goes_straight(e, g),
    ensures
        goes_straight(e, g.op(Op::Bin(b)).val(E::Top.eqz_if(negate))),
        wasm_flow::calls_nothing(E::Top.eqz_if(negate)),
        wasm_flow::calls_nothing(E::Top.eqz()),
{
    reveal_with_fuel(wasm_flow::calls_nothing, 3);
    reveal(E::eqz_if);
    straight_op(g, Op::Bin(b));
    straight_on(e, g, g.op(Op::Bin(b)));
    straight_val(g.op(Op::Bin(b)), E::Top.eqz_if(negate));
    straight_on(e, g.op(Op::Bin(b)), g.op(Op::Bin(b)).val(E::Top.eqz_if(negate)));
}

proof fn straight_cf_or_zf(e: Emit, p: Instruction, negate: bool)
    requires
        !e.opt.profiler,
    ensures
        goes_straight(e, e.cf_or_zf(p, negate)),
{
    let g = e.cf(p, false);
    straight_flags(e, p, false);
    straight_flags(g, p, false);
    straight_on(e, g, g.zf(p, false));
    straight_end(e, g.zf(p, false), Bin::Or, negate);
}

proof fn straight_be(e: Emit, p: Instruction, negate: bool)
    requires
        !e.opt.profiler,
    ensures
        goes_straight(e, e.be(p, negate)),
{
    reveal(Emit::be);
    reveal_with_fuel(wasm_flow::calls_nothing, 2);
    codegen_cond_laws::lemma_all_quiet(e);
    straight_cf_or_zf(e, p, negate);
    straight_flags(e, p, negate);
    let f = e.flag_locals;
    let rel = codegen_cond::relation(negate, Bin::LeU, Bin::GtU);
    match p {
        Instruction::Cmp { dest, source, opsize } => {
            lemma_quiet_operands(f, p, dest, source, opsize);
            straight_val(
                e,
                E::unsigned_left(f, p, dest, opsize).bin(
                    rel,
                    E::unsigned_right(f, p, source, opsize),
                ),
            );
        },
        Instruction::Sub { dest, source, opsize, is_dec } => if !is_dec {
            lemma_quiet_operands(f, p, dest, source, opsize);
            straight_val(
                e,
                E::last_op1(f, p).bin(
                    rel,
                    E::operand_or(opsize, source, E::last_op2(f, p).masked(opsize)),
                ),
            );
        },
        _ => {},
    }
}

proof fn straight_signed(e: Emit, p: Instruction, rel: Bin)
    requires
        p is Cmp || p is Sub,
    ensures
        goes_straight(e, e.val(E::compare_signed(e.flag_locals, p, rel))),
{
    reveal_with_fuel(wasm_flow::calls_nothing, 2);
    match p {
        Instruction::Cmp { dest, source, opsize } => {
            lemma_quiet_operands(e.flag_locals, p, dest, source, opsize);
        },
        Instruction::Sub { dest, source, opsize, .. } => {
            lemma_quiet_operands(e.flag_locals, p, dest, source, opsize);
        },
        _ => {},
    }
    straight_val(e, E::compare_signed(e.flag_locals, p, rel));
}

proof fn straight_less(e: Emit, p: Instruction, negate: bool)
    requires
        !e.opt.profiler,
    ensures
        goes_straight(e, e.less(p, negate)),
{
    reveal(Emit::less);
    codegen_cond_laws::lemma_all_quiet(e);
    straight_flags(e, p, negate);
    if p is Cmp || p is Sub {
        straight_signed(e, p, codegen_cond::relation(negate, Bin::LtS, Bin::GeS));
    } else if !(p is Bitwise) {
        straight_flags(e, p, false);
        let g = e.sf(p, false);
        straight_end(e, g, Bin::Or, true);
        straight_val(g, E::Top.eqz());
        let g1 = g.val(E::Top.eqz());
        straight_on(e, g, g1);
        straight_flags(g1, p, false);
        let g2 = g1.of(p);
        straight_on(e, g1, g2);
        straight_val(g2, E::Top.eqz());
        let g3 = g2.val(E::Top.eqz());
        straight_on(e, g2, g3);
        straight_end(e, g3, Bin::Xor, negate);
    }
}

proof fn straight_less_equal(e: Emit, p: Instruction, negate: bool)
    requires
        !e.opt.profiler,
    ensures
        goes_straight(e, e.less_equal(p, negate)),
{
    reveal(Emit::less_equal);
    codegen_cond_laws::lemma_all_quiet(e);
    if p is Cmp || p is Sub {
        straight_signed(e, p, codegen_cond::relation(negate, Bin::LeS, Bin::GtS));
    } else {
        let g = e.less(p, false);
        straight_less(e, p, false);
        straight_flags(g, p, false);
        straight_on(e, g, g.zf(p, false));
        straight_end(e, g.zf(p, false), Bin::Or, negate);
    }
}

/// The code of a condition on the flags is straight, but for parity, which a helper tells.
proof fn straight_condition(c: Ctx, number: u8)
    requires
        !c.e.opt.profiler,
        number < 16,
        number != 10,
        number != 11,
    ensures
        goes_straight(c.e, c.flag_condition(number).e),
{
    reveal(Ctx::flag_condition);
    let e = c.e;
    let p = c.st.previous_instruction;
    straight_flags(e, p, number % 2 == 1);
    straight_flags(e, p, false);
    if number == 1 {
        straight_end(e, e.of(p), Bin::Or, true);
        straight_val(e.of(p), E::Top.eqz());
        straight_on(e, e.of(p), e.of(p).val(E::Top.eqz()));
    } else if number == 6 || number == 7 {
        straight_be(e, p, number == 7);
    } else if number == 12 || number == 13 {
        straight_less(e, p, number == 13);
    } else if number >= 14 {
        straight_less_equal(e, p, number == 15);
    }
}

/// The word at a fixed address.
proof fn evaluate_fixed(address: u32, s: Words)
    ensures
        wasm_run::evaluates(E::fixed(Width::A32, address), s, s.memory[address], s),
        wasm_flow::calls_nothing(E::fixed(Width::A32, address)),
{
    reveal_with_fuel(wasm_flow::calls_nothing, 3);
    wasm_run::evaluate_constant(address as i32, s);
    wasm_run::evaluate_load(E::C(address as i32), Width::A32, 0, s, address as i32, s);
    codegen_value_laws::lemma_cast(address);
    assert(address.wrapping_add(0) == address);
}

/// A fixed word takes the value of an expression.
proof fn lemma_fixed_store(
    e: Emit,
    address: u32,
    x: E,
    v: i32,
    s: Words,
    c: Seq<Op>,
    start: int,
    h: Helpers,
)
    requires
        wasm_flow::calls_nothing(x),
        wasm_run::evaluates(x, s, v, s),
        e.store_fixed(Width::A32, address, x).code.is_prefix_of(c),
    ensures
        e.code.is_prefix_of(c),
        e.code.len() < e.store_fixed(Width::A32, address, x).code.len(),
        wasm_flow::is_level(
            c,
            e.code.len() as int,
            e.store_fixed(Width::A32, address, x).code.len() as int,
        ),
        wasm_course::course(c, start, e.code.len() as int, s, h) == wasm_course::course(
            c,
            start,
            e.store_fixed(Width::A32, address, x).code.len() as int,
            Words { memory: wasm_run::stored(Width::A32, s.memory, address, v), ..s },
            h,
        ),
{
    let at = address as i32;
    let both = E::C(at).both(x);
    let op = Op::Store(Width::A32, 0);
    reveal_with_fuel(wasm_flow::calls_nothing, 2);
    reveal_with_fuel(E::done, 2);
    wasm_flow::lemma_op_stands(e.val(both), op, c);
    wasm_flow::lemma_val_stands(e, both, c, false, 0);
    wasm_flow::lemma_val_is_level(e, both, c);
    wasm_flow::lemma_op_is_level(e.val(both), op, c);
    wasm_flow::lemma_level_on(
        c,
        e.code.len() as int,
        e.val(both).code.len() as int,
        e.val(both).op(op).code.len() as int,
    );
    assert(e.val(both).code == both.code(e.code)) by {
        reveal(Emit::val);
    }
    wasm_course::lemma_expression(both, e.code, c, start, s, h);
    let one = s.push(at);
    let two = s.on(s.stack.push(at).push(v));
    assert(one == s.on(s.stack.push(at)));
    assert(E::C(at).done(s) == one);
    assert(x.done(s.on(s.stack.push(at))) == s.on(s.stack.push(at).push(v)));
    assert(both.done(s) == two);
    codegen_value_laws::lemma_cast(address);
    assert(address.wrapping_add(0) == address);
    assert(two.stack.drop_last() =~= s.stack.push(at));
    assert(two.stack.drop_last().drop_last() =~= s.stack);
    assert(wasm_run::step(op, two) == Words {
        memory: wasm_run::stored(Width::A32, s.memory, address, v),
        ..s
    });
}

/// The address behind a block: its place in the page of the instruction pointer.
pub open spec fn address_behind(eip: i32, end: u32) -> int {
    eip as u32 / 0x1000 * 0x1000 + end % 0x1000
}

/// Where a jump of the given distance goes from behind a block. A jump of 16 bits stays in the
/// first 64 KiB of the code segment, which begins at `cs`.
pub open spec fn jump_target(eip: i32, cs: i32, end: u32, offset: i32, is_32: bool) -> i32 {
    if is_32 {
        word_of(address_behind(eip, end) + offset)
    } else {
        word_of((address_behind(eip, end) - cs + offset as u16) % 0x1_0000 + cs)
    }
}

proof fn evaluate_eip_at(end: u32, s: Words)
    ensures
        wasm_run::evaluates(
            E::eip_at(cpu_state::page_offset(end)),
            s,
            word_of(address_behind(s.memory[556], end)),
            s,
        ),
        wasm_flow::calls_nothing(E::eip_at(cpu_state::page_offset(end))),
{
    reveal_with_fuel(wasm_flow::calls_nothing, 6);
    let eip = s.memory[556];
    let low = end & 0xfff;
    let m = cpu_state::PAGE_MASK;
    evaluate_fixed(556, s);
    wasm_run::evaluate_binc(Bin::And, E::eip(), m, s, eip, s);
    wasm_run::evaluate_binc(Bin::Or, E::eip().and(m), low as i32, s, eip & m, s);
    jit_search::lemma_offset(end);
    jit_search::lemma_on_page(eip, low);
    let r = jit_search::on_page(eip, low);
    assert(r as u32 == address_behind(eip, end));
    codegen_value_laws::lemma_word(r);
    codegen_value_laws::bits_of_words(r);
}

/// The words of a jump of 16 bits.
proof fn lemma_jump16(a: i32, cs: i32, rel: u16)
    ensures
        (a.wrapping_sub(cs).wrapping_add(rel as i32) & 0xffff).wrapping_add(cs) == word_of(
            (a as u32 - cs + rel) % 0x1_0000 + cs,
        ),
{
    let d = a.wrapping_sub(cs);
    let x = d.wrapping_add(rel as i32);
    let y = x & 0xffff;
    codegen_value_laws::bits_of_words(a);
    codegen_value_laws::bits_of_words(x);
    codegen_value_laws::bits_of_shifts(x, x as u32, (x as u32) as u64);
    assert(x as u32 & 0xffff == x as u32 % 0x1_0000);
    let z = (x as u32 % 0x1_0000) as int;
    assert(x as u32 as int % 0x1_0000 == (a as u32 - cs + rel) % 0x1_0000);
    assert(y == z) by {
        codegen_value_laws::lemma_cast(x as u32 & 0xffff);
        codegen_value_laws::bits_of_words(y);
    }
    codegen_value_laws::lemma_word(y);
    codegen_value_laws::lemma_word(cs);
    codegen_value_laws::lemma_sum(z, cs as int);
}

/// The state after the instruction pointer was set.
spec fn is_at(s: Words, t: Words, eip: i32) -> bool {
    &&& t.memory[556] == eip
    &&& t.stack == s.stack
}

/// A jump of 16 bits from where the instruction pointer is.
#[verifier::spinoff_prover]
proof fn lemma_jumped16(e1: Emit, rel: u16, s1: Words, c: Seq<Op>, start: int, h: Helpers) -> (t:
    Words)
    requires
        e1.jumped16(rel).code.is_prefix_of(c),
    ensures
        e1.code.is_prefix_of(c),
        e1.code.len() < e1.jumped16(rel).code.len(),
        e1.jumped16(rel).opt == e1.opt,
        wasm_flow::is_level(c, e1.code.len() as int, e1.jumped16(rel).code.len() as int),
        wasm_course::course(c, start, e1.code.len() as int, s1, h) == wasm_course::course(
            c,
            start,
            e1.jumped16(rel).code.len() as int,
            t,
            h,
        ),
        is_at(
            s1,
            t,
            word_of(
                (s1.memory[556] as u32 - s1.memory[cpu_state::seg_offset_address(1) as u32] + rel)
                    % 0x1_0000 + s1.memory[cpu_state::seg_offset_address(1) as u32],
            ),
        ),
{
    let a = s1.memory[556];
    let cs_at = cpu_state::seg_offset_address(1) as u32;
    let l = e1.next_i32();
    let load = E::fixed(Width::A32, cs_at);
    let e2 = e1.set_new(load);
    let x1 = E::eip().bin(Bin::Sub, E::L(l));
    let x2 = x1.binc(Bin::Add, rel as i32);
    let x3 = x2.and(0xffff);
    let x4 = x3.bin(Bin::Add, E::L(l));
    let e3 = e2.set_eip(x4);
    let cs = s1.memory[cs_at];
    let s2 = s1.set(l, cs);
    let v1 = a.wrapping_sub(cs);
    let v2 = v1.wrapping_add(rel as i32);
    let v3 = v2 & 0xffff;
    let v4 = v3.wrapping_add(cs);
    reveal_with_fuel(wasm_flow::calls_nothing, 8);
    evaluate_fixed(556, s2);
    wasm_run::evaluate_local(l, s2);
    wasm_run::evaluate_bin(Bin::Sub, E::eip(), E::L(l), s2, a, s2, cs, s2);
    wasm_run::evaluate_binc(Bin::Add, x1, rel as i32, s2, v1, s2);
    wasm_run::evaluate_binc(Bin::And, x2, 0xffff, s2, v2, s2);
    wasm_run::evaluate_bin(Bin::Add, x3, E::L(l), s2, v3, s2, cs, s2);
    assert(e3.give_i32(l).code == e3.code) by {
        reveal(Emit::give_i32);
    }
    assert(e3.give_i32(l).opt == e1.opt) by {
        broadcast use crate::wasm::group_code;

    }
    lemma_fixed_store(e2, 556, x4, v4, s2, c, start, h);
    evaluate_fixed(cs_at, s1);
    reveal(Emit::take_i32);
    wasm_course::lemma_set(e1.take_i32(), l, load, s1, cs, c, start, h);
    wasm_flow::lemma_set_is_level(e1.take_i32(), l, load, c);
    wasm_flow::lemma_level_on(
        c,
        e1.code.len() as int,
        e2.code.len() as int,
        e3.code.len() as int,
    );
    wasm_run::law_stored_values_are_loaded(Width::A32, s2.memory, 556, v4);
    lemma_jump16(a, cs, rel);
    Words { memory: wasm_run::stored(Width::A32, s2.memory, 556, v4), ..s2 }
}

/// The code of a jump sets the instruction pointer.
#[verifier::spinoff_prover]
proof fn lemma_jumped(
    e: Emit,
    end: u32,
    offset: i32,
    is_32: bool,
    s: Words,
    c: Seq<Op>,
    start: int,
    h: Helpers,
) -> (t: Words)
    requires
        e.jumped(end, offset, is_32).code.is_prefix_of(c),
    ensures
        e.code.is_prefix_of(c),
        e.code.len() < e.jumped(end, offset, is_32).code.len(),
        wasm_flow::is_level(
            c,
            e.code.len() as int,
            e.jumped(end, offset, is_32).code.len() as int,
        ),
        wasm_course::course(c, start, e.code.len() as int, s, h) == wasm_course::course(
            c,
            start,
            e.jumped(end, offset, is_32).code.len() as int,
            t,
            h,
        ),
        is_at(
            s,
            t,
            jump_target(
                s.memory[556],
                s.memory[cpu_state::seg_offset_address(1) as u32],
                end,
                offset,
                is_32,
            ),
        ),
{
    reveal(Emit::jumped);
    let low = cpu_state::page_offset(end);
    let eip = s.memory[556];
    let a = word_of(address_behind(eip, end));
    evaluate_eip_at(end, s);
    if is_32 {
        let x = if offset != 0 {
            E::eip_at(low).binc(Bin::Add, offset)
        } else {
            E::eip_at(low)
        };
        let v = if offset != 0 {
            a.wrapping_add(offset)
        } else {
            a
        };
        reveal_with_fuel(wasm_flow::calls_nothing, 2);
        if offset != 0 {
            wasm_run::evaluate_binc(Bin::Add, E::eip_at(low), offset, s, a, s);
        }
        codegen_value_laws::lemma_word(offset);
        codegen_value_laws::lemma_sum(address_behind(eip, end), offset as int);
        lemma_fixed_store(e, 556, x, v, s, c, start, h);
        wasm_run::law_stored_values_are_loaded(Width::A32, s.memory, 556, v);
        Words { memory: wasm_run::stored(Width::A32, s.memory, 556, v), ..s }
    } else {
        let rel = offset as u16;
        let e1 = e.set_eip(E::eip_at(low));
        let cs_at = cpu_state::seg_offset_address(1) as u32;
        let s1 = Words { memory: wasm_run::stored(Width::A32, s.memory, 556, a), ..s };
        wasm_run::law_stored_values_are_loaded(Width::A32, s.memory, 556, a);
        wasm_run::lemma_stored_apart(Width::A32, s.memory, 556, a, cs_at);
        let t = lemma_jumped16(e1, rel, s1, c, start, h);
        lemma_fixed_store(e, 556, E::eip_at(low), a, s, c, start, h);
        wasm_flow::lemma_level_on(
            c,
            e.code.len() as int,
            e1.code.len() as int,
            e1.jumped16(rel).code.len() as int,
        );
        lemma_behind_fits(eip, end);
        t
    }
}

proof fn lemma_behind_fits(eip: i32, end: u32)
    ensures
        word_of(address_behind(eip, end)) as u32 == address_behind(eip, end),
{
    let x = address_behind(eip, end);
    assert(0 <= x < 0x1_0000_0000);
    codegen_value_laws::lemma_cast(x as u32);
}

proof fn lemma_aimed(e: Emit, index: u16, s: Words, c: Seq<Op>, start: int, h: Helpers)
    requires
        !e.opt.profiler,
        e.aimed(index).code.is_prefix_of(c),
    ensures
        e.code.is_prefix_of(c),
        e.code.len() < e.aimed(index).code.len(),
        wasm_course::course(c, start, e.code.len() as int, s, h) == wasm_course::course(
            c,
            start,
            e.aimed(index).code.len() as int,
            s.set(0, index as i32),
            h,
        ),
{
    reveal(Emit::aimed);
    reveal_with_fuel(wasm_flow::calls_nothing, 1);
    wasm_run::evaluate_constant(index as i32, s);
    wasm_course::lemma_set(e, 0, E::C(index as i32), s, index as i32, c, start, h);
    wasm_flow::lemma_set_is_level(e, 0, E::C(index as i32), c);
}

/// The last of the targets that stand for an address.
pub open spec fn is_innermost(scope: Seq<Target>, addr: u32, i: int) -> bool {
    &&& 0 <= i < scope.len()
    &&& scope[i].addr == addr
    &&& forall|j: int| i < j < scope.len() ==> scope[j].addr != addr
}

proof fn lemma_innermost(scope: Seq<Target>, addr: u32, n: nat) -> (i: int)
    requires
        n <= scope.len(),
        jit_exits::target_among(scope, addr, n) is Some,
    ensures
        0 <= i < n,
        scope[i].addr == addr,
        forall|j: int| i < j < n ==> scope[j].addr != addr,
        jit_exits::target_among(scope, addr, n) == Some(scope[i]),
    decreases n,
{
    if scope[n - 1].addr == addr {
        n - 1
    } else {
        lemma_innermost(scope, addr, (n - 1) as nat)
    }
}

/// A branch goes to the label of a target, and the dispatcher there finds its index.
pub open spec fn leads_to(target: Target, l: Label, t: Words) -> bool {
    &&& l == target.label
    &&& target.index is Some ==> t.locals[0usize] == target.index->0
}

/// A branch goes to the innermost target for an address.
pub open spec fn branches_to(scope: Seq<Target>, addr: u32, l: Label, t: Words) -> bool {
    exists|i: int| #[trigger] is_innermost(scope, addr, i) && leads_to(scope[i], l, t)
}

/// Control comes to a block of the function by falling through to what follows, or by a branch to
/// the innermost of its labels; where a dispatcher stands there, it finds the index of the block.
/// It comes to code outside of the function by leaving it, with the instruction pointer at `eip`.
pub open spec fn comes_to(
    to: Option<u32>,
    eip: i32,
    next: Seq<u32>,
    scope: Seq<Target>,
    plan: Plan,
    c: Ctx,
    s: Words,
    r: Course,
) -> bool {
    match to {
        Some(addr) => if next.contains(addr) {
            &&& r matches Course::Falls(t)
            &&& t.stack == s.stack
            &&& t.memory == s.memory
            &&& next.len() > 1 ==> {
                &&& 0 <= t.locals[0usize] < plan.table@.len()
                &&& plan.table@[t.locals[0usize] as int] == addr
            }
        } else {
            &&& r matches Course::Goes(l, t)
            &&& t.stack == s.stack
            &&& t.memory == s.memory
            &&& branches_to(scope, addr, l, t)
        },
        None => {
            &&& r matches Course::Goes(l, t)
            &&& l == c.st.exit_label
            &&& t.stack == s.stack
            &&& t.memory[556] == eip
        },
    }
}

/// The end of a conditional jump leads to the right place.
pub open spec fn arrives(
    block: BasicBlock,
    taken: bool,
    next: Seq<u32>,
    scope: Seq<Target>,
    plan: Plan,
    c: Ctx,
    s: Words,
    r: Course,
) -> bool {
    match block.ty {
        BasicBlockType::ConditionalJump {
            next_block_addr,
            next_block_branch_taken_addr,
            jump_offset,
            jump_offset_is_32,
            ..
        } => if taken {
            let eip = jump_target(
                s.memory[556],
                s.memory[cpu_state::seg_offset_address(1) as u32],
                block.end_addr,
                jump_offset,
                jump_offset_is_32,
            );
            comes_to(next_block_branch_taken_addr, eip, next, scope, plan, c, s, r)
        } else {
            let eip = word_of(address_behind(s.memory[556], block.end_addr));
            comes_to(next_block_addr, eip, next, scope, plan, c, s, r)
        },
        _ => false,
    }
}

/// A conditional jump whose successors are known to the function, or outside of it. Nothing is
/// counted, and a successor in the function lies on the page of the block.
pub open spec fn is_branch(
    c: Ctx,
    block: BasicBlock,
    next: Seq<u32>,
    scope: Seq<Target>,
    plan: Plan,
) -> bool {
    &&& !c.e.opt.profiler
    &&& !c.e.opt.dispatch_stats
    &&& !block.has_sti
    &&& plan.wf()
    &&& jit_exits::block_fits(block, next, jit_exits::addresses(scope), plan)
    &&& c.st.exit_label.0 < c.e.code.len()
    &&& forall|i: int|
        0 <= i < scope.len() ==> (#[trigger] scope[i]).label.0 < c.e.code.len()
    &&& match block.ty {
        BasicBlockType::ConditionalJump {
            next_block_addr,
            next_block_branch_taken_addr,
            ..
        } => {
            &&& next_block_addr is Some ==> next_block_addr->0 / 0x1000 == block.addr / 0x1000
            &&& next_block_branch_taken_addr is Some ==> next_block_branch_taken_addr->0 / 0x1000
                == block.addr / 0x1000
        },
        _ => false,
    }
}

/// `c` stands after code of `b`.
spec fn stands_after(b: Ctx, c: Ctx) -> bool {
    &&& c.st == b.st
    &&& c.e.opt == b.e.opt
    &&& b.e.code.len() <= c.e.code.len()
}

proof fn lemma_quiet_counts(e: Emit, stat: cpu_state::Stat)
    requires
        !e.opt.profiler,
        !e.opt.dispatch_stats,
    ensures
        e.profile(stat) == e,
        e.dispatch_event(stat) == e,
{
    reveal(Emit::profile);
    reveal(Emit::dispatch_event);
}

proof fn lemma_jump_keeps(e: Emit, end: u32, offset: i32, is_32: bool)
    ensures
        e.jumped(end, offset, is_32).opt == e.opt,
        e.set_eip(E::eip_at(cpu_state::page_offset(end))).opt == e.opt,
{
    broadcast use crate::wasm::group_code;

    reveal(Emit::jumped);
}

/// The second way out is taken by whoever comes to it.
#[verifier::spinoff_prover]
proof fn lemma_second(
    b: Ctx,
    c: Ctx,
    block: BasicBlock,
    taken: bool,
    next: Seq<u32>,
    scope: Seq<Target>,
    plan: Plan,
    s: Words,
    h: Helpers,
)
    requires
        is_branch(b, block, next, scope, plan),
        stands_after(b, c),
    ensures
        ({
            let d = c.way_out(block, taken, false, next, scope, plan).e.code;
            &&& c.e.code.is_prefix_of(d)
            &&& arrives(
                block,
                taken,
                next,
                scope,
                plan,
                b,
                s,
                wasm_course::course(d, b.e.code.len() as int, c.e.code.len() as int, s, h),
            )
        }),
{
    broadcast use crate::wasm::group_code;

    let start = b.e.code.len() as int;
    let f = c.way_out(block, taken, false, next, scope, plan);
    let d = f.e.code;
    let p = c.e.code.len() as int;
    let r = wasm_course::course(d, start, p, s, h);
    let end = block.end_addr;
    let (offset, is_32): (i32, bool) = match block.ty {
        BasicBlockType::ConditionalJump { jump_offset, jump_offset_is_32, .. } => (
            jump_offset,
            jump_offset_is_32,
        ),
        _ => (0, false),
    };
    match block.successor(taken) {
        Some(to) => {
            reveal(Ctx::branched_to_page);
            reveal(Ctx::branched_to);
            if next.contains(to) {
                if next.len() > 1 {
                    let index = plan.index(to);
                    let e = c.e.aimed(index);
                    reveal(Emit::aimed);
                    lemma_quiet_counts(e, cpu_state::Stat::ConditionalJumpFallthruWithTargetBlock);
                    lemma_aimed(c.e, index, s, d, start, h);
                    assert(plan.knows(to));
                    assert(plan.table@[plan.table@.index_of(to)] == to);
                    assert(r == Course::Falls(s.set(0, index as i32)));
                    assert(arrives(block, taken, next, scope, plan, b, s, r));
                } else {
                    lemma_quiet_counts(c.e, cpu_state::Stat::ConditionalJumpFallthru);
                    assert(r == Course::Falls(s));
                    assert(arrives(block, taken, next, scope, plan, b, s, r));
                }
            } else {
                jit_exits::target_is_known(scope, to, scope.len());
                assert(jit_exits::addresses(scope).take(scope.len() as int)
                    =~= jit_exits::addresses(scope));
                let i = lemma_innermost(scope, to, scope.len());
                let label = scope[i].label;
                assert(is_innermost(scope, to, i));
                match scope[i].index {
                    Some(index) => {
                        let e = c.e.aimed(index);
                        assert(e.opt == c.e.opt) by {
                            reveal(Emit::aimed);
                        }
                        lemma_quiet_counts(
                            e,
                            cpu_state::Stat::ConditionalJumpBranchWithTargetBlock,
                        );
                        wasm_flow::lemma_op_stands(e, Op::Br(label), d);
                        let t = s.set(0, index as i32);
                        wasm_course::lemma_leaves(d, start, e.code.len() as int, label, t, h);
                        lemma_aimed(c.e, index, s, d, start, h);
                        assert(r == Course::Goes(label, t));
                        assert(leads_to(scope[i], label, t));
                        assert(branches_to(scope, to, label, t));
                        assert(arrives(block, taken, next, scope, plan, b, s, r));
                    },
                    None => {
                        lemma_quiet_counts(c.e, cpu_state::Stat::ConditionalJumpBranch);
                        wasm_flow::lemma_op_stands(c.e, Op::Br(label), d);
                        wasm_course::lemma_leaves(d, start, p, label, s, h);
                        assert(r == Course::Goes(label, s));
                        assert(leads_to(scope[i], label, s));
                        assert(branches_to(scope, to, label, s));
                        assert(arrives(block, taken, next, scope, plan, b, s, r));
                    },
                }
            }
        },
        None => {
            reveal(Ctx::branched_away);
            let low = cpu_state::page_offset(end);
            let e = if taken {
                c.e.jumped(end, offset, is_32)
            } else {
                c.e.set_eip(E::eip_at(low))
            };
            lemma_jump_keeps(c.e, end, offset, is_32);
            lemma_quiet_counts(e, cpu_state::Stat::ConditionalJumpExit);
            lemma_quiet_counts(e, cpu_state::Stat::ModuleExitChainable);
            wasm_flow::lemma_op_stands(e, Op::Br(c.st.exit_label), d);
            if taken {
                let t = lemma_jumped(c.e, end, offset, is_32, s, d, start, h);
                wasm_course::lemma_leaves(d, start, e.code.len() as int, c.st.exit_label, t, h);
                assert(r == Course::Goes(c.st.exit_label, t));
                assert(arrives(block, taken, next, scope, plan, b, s, r));
            } else {
                evaluate_eip_at(end, s);
                let v = word_of(address_behind(s.memory[556], end));
                lemma_fixed_store(c.e, 556, E::eip_at(low), v, s, d, start, h);
                wasm_run::law_stored_values_are_loaded(Width::A32, s.memory, 556, v);
                let t = Words { memory: wasm_run::stored(Width::A32, s.memory, 556, v), ..s };
                wasm_course::lemma_leaves(d, start, e.code.len() as int, c.st.exit_label, t, h);
                assert(arrives(block, taken, next, scope, plan, b, s, r));
            }
        },
    }
}

/// The first way out is taken where the value on the stack is not zero. Otherwise control comes to
/// what follows it.
#[verifier::spinoff_prover]
proof fn lemma_first(
    b: Ctx,
    c: Ctx,
    block: BasicBlock,
    taken: bool,
    next: Seq<u32>,
    scope: Seq<Target>,
    plan: Plan,
    f: Ctx,
    d: Seq<Op>,
    s: Words,
    h: Helpers,
) -> (t: Words)
    requires
        is_branch(b, block, next, scope, plan),
        stands_after(b, c),
        block.successor(taken) is Some ==> !next.contains(block.successor(taken)->0),
        f == (match block.ty {
            BasicBlockType::ConditionalJump { jump_offset, jump_offset_is_32, .. } => match block.successor(
                taken,
            ) {
                Some(to) => c.branched_to_page(
                    block,
                    to,
                    jump_offset,
                    jump_offset_is_32,
                    true,
                ).branched_to(to, true, next, scope, plan),
                None => c.branched_away(block, taken, jump_offset, jump_offset_is_32, true),
            },
            _ => c,
        }),
        f.e.code.is_prefix_of(d),
        s.stack.len() > 0,
    ensures
        stands_after(b, f),
        c.e.code.is_prefix_of(d),
        s.top() != 0 ==> arrives(
            block,
            taken,
            next,
            scope,
            plan,
            b,
            s.pop(),
            wasm_course::course(d, b.e.code.len() as int, c.e.code.len() as int, s, h),
        ),
        s.top() == 0 ==> {
            &&& wasm_course::course(d, b.e.code.len() as int, c.e.code.len() as int, s, h)
                == wasm_course::course(d, b.e.code.len() as int, f.e.code.len() as int, t, h)
            &&& t.stack == s.pop().stack
            &&& t.memory == s.memory
        },
{
    broadcast use crate::wasm::group_code;

    let start = b.e.code.len() as int;
    let p = c.e.code.len() as int;
    let r = wasm_course::course(d, start, p, s, h);
    let end = block.end_addr;
    let (offset, is_32): (i32, bool) = match block.ty {
        BasicBlockType::ConditionalJump { jump_offset, jump_offset_is_32, .. } => (
            jump_offset,
            jump_offset_is_32,
        ),
        _ => (0, false),
    };
    match block.successor(taken) {
        Some(to) => {
            reveal(Ctx::branched_to_page);
            reveal(Ctx::branched_to);
            jit_exits::target_is_known(scope, to, scope.len());
            assert(jit_exits::addresses(scope).take(scope.len() as int) =~= jit_exits::addresses(
                scope,
            ));
            let i = lemma_innermost(scope, to, scope.len());
            let label = scope[i].label;
            assert(is_innermost(scope, to, i));
            match scope[i].index {
                Some(index) => {
                    let e = c.e.aimed(index);
                    assert(e.opt == c.e.opt) by {
                        reveal(Emit::aimed);
                    }
                    let t = s.set(0, index as i32);
                    wasm_flow::lemma_op_stands(e, Op::BrIf(label, None), d);
                    lemma_aimed(c.e, index, s, d, start, h);
                    wasm_course::lemma_leaves(d, start, e.code.len() as int, label, t, h);
                    if s.top() != 0 {
                        assert(r == Course::Goes(label, t.pop()));
                        assert(leads_to(scope[i], label, t.pop()));
                        assert(branches_to(scope, to, label, t.pop()));
                        assert(arrives(block, taken, next, scope, plan, b, s.pop(), r));
                    }
                    t.pop()
                },
                None => {
                    wasm_flow::lemma_op_stands(c.e, Op::BrIf(label, None), d);
                    wasm_course::lemma_leaves(d, start, p, label, s, h);
                    if s.top() != 0 {
                        assert(leads_to(scope[i], label, s.pop()));
                        assert(branches_to(scope, to, label, s.pop()));
                        assert(arrives(block, taken, next, scope, plan, b, s.pop(), r));
                    }
                    s.pop()
                },
            }
        },
        None => {
            reveal(Ctx::branched_away);
            let low = cpu_state::page_offset(end);
            let e0 = c.e.op(Op::If(BlockType::Void, None));
            let e = if taken {
                e0.jumped(end, offset, is_32)
            } else {
                e0.set_eip(E::eip_at(low))
            };
            let exit = c.st.exit_label;
            let e1 = e.op(Op::Br(exit));
            let e2 = e1.op(Op::End);
            lemma_jump_keeps(e0, end, offset, is_32);
            lemma_quiet_counts(e, cpu_state::Stat::ConditionalJumpExit);
            lemma_quiet_counts(e, cpu_state::Stat::ModuleExitChainable);
            assert(f.e == e2);
            wasm_flow::lemma_op_stands(e1, Op::End, d);
            wasm_flow::lemma_op_stands(e, Op::Br(exit), d);
            wasm_flow::lemma_op_is_level(e, Op::Br(exit), d);
            let w = s.pop();
            let t: Words = if taken {
                lemma_jumped(e0, end, offset, is_32, w, d, start, h)
            } else {
                evaluate_eip_at(end, w);
                let v = word_of(address_behind(w.memory[556], end));
                lemma_fixed_store(e0, 556, E::eip_at(low), v, w, d, start, h);
                wasm_run::law_stored_values_are_loaded(Width::A32, w.memory, 556, v);
                Words { memory: wasm_run::stored(Width::A32, w.memory, 556, v), ..w }
            };
            wasm_course::lemma_leaves(d, start, e.code.len() as int, exit, t, h);
            wasm_flow::lemma_op_stands(c.e, Op::If(BlockType::Void, None), d);
            wasm_flow::lemma_level_on(
                d,
                e0.code.len() as int,
                e.code.len() as int,
                e1.code.len() as int,
            );
            assert(wasm_flow::behind(d, e0.code.len() as int, true, 0) == wasm_flow::behind(
                d,
                e1.code.len() as int,
                true,
                0,
            ));
            assert(wasm_flow::behind(d, e1.code.len() as int, true, 0) == e2.code.len());
            if s.top() != 0 {
                assert(r == Course::Goes(exit, t));
                assert(arrives(block, taken, next, scope, plan, b, s.pop(), r));
            }
            w
        },
    }
}

/// Both ways out fall through to what follows.
#[verifier::spinoff_prover]
proof fn lemma_falls(
    b: Ctx,
    block: BasicBlock,
    next: Seq<u32>,
    scope: Seq<Target>,
    plan: Plan,
    c: Ctx,
    s: Words,
    taken: bool,
    h: Helpers,
)
    requires
        is_branch(b, block, next, scope, plan),
        stands_after(b, c),
        block.successor(true) is Some,
        block.successor(false) is Some,
        next.contains(block.successor(true)->0),
        next.contains(block.successor(false)->0),
        next.len() > 1,
        s.stack.len() > 0,
        s.top() != 0 <==> taken,
    ensures
        ({
            let yes = Op::ConstI32(plan.index(block.successor(true)->0) as i32);
            let no = Op::ConstI32(plan.index(block.successor(false)->0) as i32);
            let d = c.e.op(Op::If(BlockType::I32, None)).op(yes).op(Op::Else).op(no).op(
                Op::End,
            ).op(Op::LocalSet(0));
            &&& c.e.code.is_prefix_of(d.code)
            &&& arrives(
                block,
                taken,
                next,
                scope,
                plan,
                b,
                s.pop(),
                wasm_course::course(d.code, b.e.code.len() as int, c.e.code.len() as int, s, h),
            )
        }),
{
    let start = b.e.code.len() as int;
    let yes_index = plan.index(block.successor(true)->0);
    let no_index = plan.index(block.successor(false)->0);
    let yes = Op::ConstI32(yes_index as i32);
    let no = Op::ConstI32(no_index as i32);
    let e0 = c.e.op(Op::If(BlockType::I32, None));
    let e1 = e0.op(yes);
    let e2 = e1.op(Op::Else);
    let e3 = e2.op(no);
    let e4 = e3.op(Op::End);
    let e5 = e4.op(Op::LocalSet(0));
    let d = e5.code;
    wasm_flow::lemma_op_stands(e4, Op::LocalSet(0), d);
    wasm_flow::lemma_op_stands(e3, Op::End, d);
    wasm_flow::lemma_op_stands(e2, no, d);
    wasm_flow::lemma_op_stands(e1, Op::Else, d);
    wasm_flow::lemma_op_stands(e0, yes, d);
    wasm_flow::lemma_op_stands(c.e, Op::If(BlockType::I32, None), d);
    let p = c.e.code.len() as int;
    reveal(Emit::op);
    let w = s.pop();
    let v = if taken {
        yes_index as i32
    } else {
        no_index as i32
    };
    let pushed = w.push(v);
    let t = w.set(0, v);
    assert(pushed.stack.drop_last() =~= w.stack);
    assert(wasm_run::step(Op::LocalSet(0), pushed) == t);
    assert(wasm_course::course(d, start, p + 6, t, h) == Course::Falls(t));
    assert(wasm_course::course(d, start, p + 5, pushed, h) == Course::Falls(t));
    assert(wasm_course::course(d, start, p + 4, pushed, h) == Course::Falls(t));
    reveal_with_fuel(wasm_flow::behind, 3);
    assert(wasm_flow::behind(d, p + 1, true, 0) == p + 3);
    assert(wasm_flow::behind(d, p + 3, false, 0) == p + 5);
    if taken {
        assert(wasm_run::step(yes, w) == pushed);
        assert(wasm_course::course(d, start, p + 2, pushed, h) == Course::Falls(t));
        assert(wasm_course::course(d, start, p + 1, w, h) == Course::Falls(t));
    } else {
        assert(wasm_run::step(no, w) == pushed);
        assert(wasm_course::course(d, start, p + 3, w, h) == Course::Falls(t));
    }
    assert(wasm_course::course(d, start, p, s, h) == Course::Falls(t));
    let to = block.successor(taken)->0;
    assert(plan.knows(to));
    assert(plan.table@[plan.table@.index_of(to)] == to);
}

/// The code of a condition is straight, and leaves a value that tells whether it holds.
spec fn tells(c: Ctx, condition: u8, s: Words, holds: bool) -> bool {
    let t = wasm_run::run(wasm_run::added(c.e.code, c.condition(condition).e.code), s);
    &&& goes_straight(c.e, c.condition(condition).e)
    &&& t.stack == s.stack.push(t.stack.last())
    &&& t.stack.last() != 0 <==> holds
    &&& t.memory == s.memory
}

/// A condition on the flags other than parity, which a helper tells.
pub open spec fn is_plain_condition(condition: u8) -> bool {
    &&& codegen_cond::is_flag_condition(condition)
    &&& condition & 0xf != 10
    &&& condition & 0xf != 11
}

proof fn lemma_plain_condition(c: Ctx, condition: u8)
    requires
        !c.e.opt.profiler,
        is_plain_condition(condition),
    ensures
        goes_straight(c.e, c.condition(condition).e),
        c.condition(condition) == c.flag_condition(condition & 0xf),
        is_plain_condition(condition ^ 1),
        condition & 0xf < 16,
        ((condition ^ 1) & 0xf) / 2 == (condition & 0xf) / 2,
        ((condition ^ 1) & 0xf) % 2 != (condition & 0xf) % 2,
{
    codegen_invert_laws::bits_of_conditions(condition);
    straight_condition(c, condition & 0xf);
    reveal(Ctx::condition);
}

proof fn lemma_told(c: Ctx, condition: u8, s: Words, holds: bool, d: Seq<Op>, start: int, h: Helpers) -> (t:
    Words)
    requires
        tells(c, condition, s, holds),
        c.condition(condition).e.code.is_prefix_of(d),
    ensures
        stands_after(c, c.condition(condition)),
        c.e.code.is_prefix_of(d),
        wasm_course::course(d, start, c.e.code.len() as int, s, h) == wasm_course::course(
            d,
            start,
            c.condition(condition).e.code.len() as int,
            t,
            h,
        ),
        t == wasm_run::run(wasm_run::added(c.e.code, c.condition(condition).e.code), s),
        t.stack.len() > 0,
        t.pop().stack == s.stack,
        t.memory == s.memory,
        t.top() != 0 <==> holds,
{
    jit_exits::condition_keeps(c, condition);
    let g = c.condition(condition);
    let t = wasm_run::run(wasm_run::added(c.e.code, g.e.code), s);
    assert(t.pop().stack =~= s.stack);
    assert(c.e.code.is_prefix_of(d));
    t
}

/// Where one way out is followed by the other.
#[verifier::spinoff_prover]
proof fn lemma_two_ways(
    c: Ctx,
    block: BasicBlock,
    condition: u8,
    first: bool,
    next: Seq<u32>,
    scope: Seq<Target>,
    plan: Plan,
    s: Words,
    holds: bool,
    h: Helpers,
)
    requires
        is_branch(c, block, next, scope, plan),
        block.ty matches BasicBlockType::ConditionalJump { condition: k, .. } && k == condition,
        tells(c, condition, s, holds),
        tells(c, condition ^ 1, s, !holds),
        block.successor(first) is Some ==> !next.contains(block.successor(first)->0),
    ensures
        arrives(
            block,
            holds,
            next,
            scope,
            plan,
            c,
            s,
            wasm_course::course(
                c.way_out(block, first, true, next, scope, plan).way_out(
                    block,
                    !first,
                    false,
                    next,
                    scope,
                    plan,
                ).e.code,
                c.e.code.len() as int,
                c.e.code.len() as int,
                s,
                h,
            ),
        ),
{
    let start = c.e.code.len() as int;
    let f = c.way_out(block, first, true, next, scope, plan);
    let d = f.way_out(block, !first, false, next, scope, plan).e.code;
    let k = if first {
        condition
    } else {
        condition ^ 1
    };
    let goes = holds == first;
    let g = c.condition(k);
    jit_exits::condition_keeps(c, k);
    assert(stands_after(c, g));
    let t0 = wasm_run::run(wasm_run::added(c.e.code, g.e.code), s);
    assert(t0.pop().stack =~= s.stack);
    let u0 = lemma_first(c, g, block, first, next, scope, plan, f, f.e.code, t0, h);
    lemma_second(c, f, block, !first, next, scope, plan, u0, h);
    let u = lemma_first(c, g, block, first, next, scope, plan, f, d, t0, h);
    lemma_second(c, f, block, !first, next, scope, plan, u, h);
    let t = lemma_told(c, k, s, goes, d, start, h);
    let t1 = wasm_run::run(wasm_run::added(c.e.code, g.e.code), s);
    assert(wasm_course::course(d, start, start, s, h) == wasm_course::course(
        d,
        start,
        g.e.code.len() as int,
        t1,
        h,
    ));
}

/// The end of a block in a conditional jump, where the condition is told.
#[verifier::spinoff_prover]
proof fn lemma_branch_ends(
    c: Ctx,
    block: BasicBlock,
    condition: u8,
    next: Seq<u32>,
    scope: Seq<Target>,
    plan: Plan,
    unit: Unit,
    s: Words,
    holds: bool,
    h: Helpers,
)
    requires
        is_branch(c, block, next, scope, plan),
        block.ty matches BasicBlockType::ConditionalJump { condition: k, .. } && k == condition,
        tells(c, condition, s, holds),
        tells(c, condition ^ 1, s, !holds),
    ensures
        arrives(block, holds, next, scope, plan, c, s, ended_course(c, block, next, scope, plan, unit, s, h)),
{
    let start = c.e.code.len() as int;
    let taken = block.successor(true);
    let not_taken = block.successor(false);
    let taken_falls = taken is Some && next.contains(taken->0);
    let not_taken_falls = not_taken is Some && next.contains(not_taken->0);
    reveal(Ctx::ended_in_branch);
    lemma_quiet_counts(c.e, cpu_state::Stat::ConditionalJump);
    assert(c.on(c.e) == c);
    if taken_falls && not_taken_falls {
        reveal(Ctx::fallen_through);
        if next.len() > 1 {
            let g = c.condition(condition);
            jit_exits::condition_keeps(c, condition);
            let t = wasm_run::run(wasm_run::added(c.e.code, g.e.code), s);
            assert(t.pop().stack =~= s.stack);
            lemma_falls(c, block, next, scope, plan, g, t, holds, h);
            let d = c.ended(block, next, scope, plan, unit).e.code;
            let t1 = lemma_told(c, condition, s, holds, d, start, h);
            assert(wasm_course::course(d, start, start, s, h) == wasm_course::course(
                d,
                start,
                g.e.code.len() as int,
                t,
                h,
            ));
        }
    } else if taken_falls {
        lemma_two_ways(c, block, condition, false, next, scope, plan, s, holds, h);
    } else {
        lemma_two_ways(c, block, condition, true, next, scope, plan, s, holds, h);
    }
}

/// What becomes of the code of the end of a block.
pub open spec fn ended_course(
    c: Ctx,
    block: BasicBlock,
    next: Seq<u32>,
    scope: Seq<Target>,
    plan: Plan,
    unit: Unit,
    s: Words,
    h: Helpers,
) -> Course {
    let start = c.e.code.len() as int;
    wasm_course::course(c.ended(block, next, scope, plan, unit).e.code, start, start, s, h)
}

/// After a comparison of two numbers of `n + 1` bits, a conditional jump goes to where it is taken
/// exactly where its condition holds of the two, and to what follows it exactly where it does not.
pub proof fn law_jumps_are_taken_after_comparisons(
    c: Ctx,
    block: BasicBlock,
    condition: u8,
    next: Seq<u32>,
    scope: Seq<Target>,
    plan: Plan,
    unit: Unit,
    s: Words,
    a: u32,
    b: u32,
    n: i32,
    h: Helpers,
)
    requires
        is_branch(c, block, next, scope, plan),
        block.ty matches BasicBlockType::ConditionalJump { condition: k, .. } && k == condition,
        is_plain_condition(condition),
        codegen_cond_laws::is_ready(c.e, s, c.st.previous_instruction, a, b, n, 8),
    ensures
        arrives(
            block,
            codegen_cond_laws::holds(condition & 0xf, a, b, n),
            next,
            scope,
            plan,
            c,
            s,
            ended_course(c, block, next, scope, plan, unit, s, h),
        ),
{
    let number = condition & 0xf;
    let other = (condition ^ 1) & 0xf;
    lemma_plain_condition(c, condition);
    lemma_plain_condition(c, condition ^ 1);
    codegen_cond_laws::law_conditions_hold(c, number, s, a, b, n);
    codegen_cond_laws::law_conditions_hold(c, other, s, a, b, n);
    let holds = codegen_cond_laws::holds(number, a, b, n);
    assert(codegen_cond_laws::holds(other, a, b, n) == !holds);
    lemma_branch_ends(c, block, condition, next, scope, plan, unit, s, holds, h);
}

/// After an instruction that changed the flags, a conditional jump goes to where it is taken
/// exactly where its condition holds of the flags, and to what follows it exactly where it does
/// not.
pub proof fn law_jumps_are_taken_after_changes(
    c: Ctx,
    block: BasicBlock,
    condition: u8,
    next: Seq<u32>,
    scope: Seq<Target>,
    plan: Plan,
    unit: Unit,
    s: Words,
    x: codegen_flag_laws::Change,
    h: Helpers,
)
    requires
        is_branch(c, block, next, scope, plan),
        block.ty matches BasicBlockType::ConditionalJump { condition: k, .. } && k == condition,
        is_plain_condition(condition),
        codegen_flag_laws::is_ready(c.e, s, c.st.previous_instruction, x),
    ensures
        arrives(
            block,
            codegen_flag_laws::holds_after(
                condition & 0xf,
                s,
                c.e.flag_locals,
                c.st.previous_instruction,
                x,
            ),
            next,
            scope,
            plan,
            c,
            s,
            ended_course(c, block, next, scope, plan, unit, s, h),
        ),
{
    let number = condition & 0xf;
    let other = (condition ^ 1) & 0xf;
    let f = c.e.flag_locals;
    let p = c.st.previous_instruction;
    lemma_plain_condition(c, condition);
    lemma_plain_condition(c, condition ^ 1);
    codegen_flag_laws::law_conditions_hold_after_changes(c, number, s, x);
    codegen_flag_laws::law_conditions_hold_after_changes(c, other, s, x);
    let holds = codegen_flag_laws::holds_after(number, s, f, p, x);
    assert(codegen_flag_laws::holds_after(other, s, f, p, x) == !holds);
    lemma_branch_ends(c, block, condition, next, scope, plan, unit, s, holds, h);
}

/// A block that ends without a condition goes on to its only successor, or leaves the function
/// with the instruction pointer at it.
#[verifier::spinoff_prover]
pub proof fn law_jumps_arrive(
    c: Ctx,
    block: BasicBlock,
    to: Option<u32>,
    offset: i32,
    is_32: bool,
    next: Seq<u32>,
    scope: Seq<Target>,
    plan: Plan,
    unit: Unit,
    s: Words,
    h: Helpers,
)
    requires
        !c.e.opt.profiler,
        !c.e.opt.dispatch_stats,
        !block.has_sti,
        plan.wf(),
        jit_exits::block_fits(block, next, jit_exits::addresses(scope), plan),
        c.st.exit_label.0 < c.e.code.len(),
        forall|i: int| 0 <= i < scope.len() ==> (#[trigger] scope[i]).label.0 < c.e.code.len(),
        block.ty == (BasicBlockType::Normal {
            next_block_addr: to,
            jump_offset: offset,
            jump_offset_is_32: is_32,
        }),
        to is Some ==> to->0 / 0x1000 == block.addr / 0x1000,
    ensures
        comes_to(
            to,
            jump_target(
                s.memory[556],
                s.memory[cpu_state::seg_offset_address(1) as u32],
                block.end_addr,
                offset,
                is_32,
            ),
            next,
            scope,
            plan,
            c,
            s,
            ended_course(c, block, next, scope, plan, unit, s, h),
        ),
{
    broadcast use crate::wasm::group_code;

    let start = c.e.code.len() as int;
    let d = c.ended(block, next, scope, plan, unit).e.code;
    let r = ended_course(c, block, next, scope, plan, unit, s, h);
    match to {
        Some(to) => {
            reveal(Emit::gone_to);
            if next.contains(to) {
                if next.len() > 1 {
                    let index = plan.index(to);
                    let e = c.e.aimed(index);
                    reveal(Emit::aimed);
                    lemma_quiet_counts(e, cpu_state::Stat::NormalFallthruWithTargetBlock);
                    lemma_aimed(c.e, index, s, d, start, h);
                    assert(plan.knows(to));
                    assert(plan.table@[plan.table@.index_of(to)] == to);
                    assert(r == Course::Falls(s.set(0, index as i32)));
                } else {
                    lemma_quiet_counts(c.e, cpu_state::Stat::NormalFallthru);
                    assert(r == Course::Falls(s));
                }
            } else {
                jit_exits::target_is_known(scope, to, scope.len());
                assert(jit_exits::addresses(scope).take(scope.len() as int)
                    =~= jit_exits::addresses(scope));
                let i = lemma_innermost(scope, to, scope.len());
                let label = scope[i].label;
                assert(is_innermost(scope, to, i));
                match scope[i].index {
                    Some(index) => {
                        let e = c.e.aimed(index);
                        assert(e.opt == c.e.opt) by {
                            reveal(Emit::aimed);
                        }
                        lemma_quiet_counts(e, cpu_state::Stat::NormalBranchWithTargetBlock);
                        wasm_flow::lemma_op_stands(e, Op::Br(label), d);
                        let t = s.set(0, index as i32);
                        wasm_course::lemma_leaves(d, start, e.code.len() as int, label, t, h);
                        lemma_aimed(c.e, index, s, d, start, h);
                        assert(leads_to(scope[i], label, t));
                        assert(branches_to(scope, to, label, t));
                    },
                    None => {
                        lemma_quiet_counts(c.e, cpu_state::Stat::NormalBranch);
                        wasm_flow::lemma_op_stands(c.e, Op::Br(label), d);
                        wasm_course::lemma_leaves(d, start, start, label, s, h);
                        assert(leads_to(scope[i], label, s));
                        assert(branches_to(scope, to, label, s));
                    },
                }
            }
        },
        None => {
            let end = block.end_addr;
            let e = c.e.jumped(end, offset, is_32);
            lemma_jump_keeps(c.e, end, offset, is_32);
            lemma_quiet_counts(e, cpu_state::Stat::DirectExit);
            lemma_quiet_counts(e, cpu_state::Stat::ModuleExitChainable);
            wasm_flow::lemma_op_stands(e, Op::Br(c.st.exit_label), d);
            let t = lemma_jumped(c.e, end, offset, is_32, s, d, start, h);
            wasm_course::lemma_leaves(d, start, e.code.len() as int, c.st.exit_label, t, h);
        },
    }
}

/// A jump on the loop counter goes to where it is taken exactly where the counter, the register
/// ECX or its low half, is not zero, or, for the other of the two instructions, is zero.
pub proof fn law_jumps_on_the_counter_are_taken(
    c: Ctx,
    block: BasicBlock,
    condition: u8,
    next: Seq<u32>,
    scope: Seq<Target>,
    plan: Plan,
    unit: Unit,
    s: Words,
    h: Helpers,
)
    requires
        is_branch(c, block, next, scope, plan),
        block.ty matches BasicBlockType::ConditionalJump { condition: k, .. } && k == condition,
        condition == 0xe2 || condition == 0xe3,
    ensures
        ({
            let ecx = s.locals[c.st.regs@[1].0] as u32;
            let counter = if c.st.cpu.asize_32 {
                ecx as int
            } else {
                ecx as int % 0x1_0000
            };
            arrives(
                block,
                (counter != 0) == (condition == 0xe2),
                next,
                scope,
                plan,
                c,
                s,
                ended_course(c, block, next, scope, plan, unit, s, h),
            )
        }),
{
    reveal_with_fuel(wasm_flow::calls_nothing, 4);
    let v = s.locals[c.st.regs@[1].0];
    let x = c.loop_counter(c.st.cpu.asize_32);
    let w = if c.st.cpu.asize_32 {
        v
    } else {
        v & 0xffff
    };
    wasm_run::evaluate_local(c.st.regs@[1].0, s);
    wasm_run::evaluate_binc(Bin::And, E::L(c.st.regs@[1].0), 0xffff, s, v, s);
    wasm_run::evaluate_eqz(x, s, w, s);
    codegen_value_laws::bits_of_words(v);
    codegen_value_laws::bits_of_shifts(v, v as u32, (v as u32) as u64);
    codegen_value_laws::lemma_cast(v as u32 & 0xffff);
    straight_val(c.e, x);
    straight_val(c.e, x.eqz());
    wasm_run::lemma_val(c.e, x, s, w, s);
    wasm_run::lemma_val(c.e, x.eqz(), s, wasm_run::truth(w == 0), s);
    wasm_run::lemma_ends(c.e.code, c.e.val(x).code, s, s.on(s.stack.push(w)));
    let other = s.on(s.stack.push(wasm_run::truth(w == 0)));
    wasm_run::lemma_ends(c.e.code, c.e.val(x.eqz()).code, s, other);
    codegen_invert_laws::bits_of_conditions(condition);
    let holds = (w != 0) == (condition == 0xe2);
    assert(tells(c, 0xe2, s, w != 0)) by {
        reveal(Ctx::condition);
    }
    assert(tells(c, 0xe3, s, w == 0)) by {
        reveal(Ctx::condition);
    }
    lemma_branch_ends(c, block, condition, next, scope, plan, unit, s, holds, h);
}

/// The registers go to memory, and the instruction pointer stays.
proof fn lemma_spilled(c: Ctx, n: int, s: Words, d: Seq<Op>, start: int, h: Helpers) -> (t: Words)
    requires
        !c.st.env.opstats.enabled,
        0 <= n <= 8,
        c.spilled_regs(n).code.is_prefix_of(d),
    ensures
        c.e.code.is_prefix_of(d),
        c.spilled_regs(n).flag_locals == c.e.flag_locals,
        wasm_course::course(d, start, c.e.code.len() as int, s, h) == wasm_course::course(
            d,
            start,
            c.spilled_regs(n).code.len() as int,
            t,
            h,
        ),
        t.memory[556] == s.memory[556],
        t.locals == s.locals,
        t.stack == s.stack,
    decreases n,
{
    broadcast use crate::wasm::group_code;

    if n == 0 {
        reveal(Emit::opstat_unguarded);
        s
    } else {
        let e = c.spilled_regs(n - 1);
        let p = cpu_state::reg32_address(n - 1) as u32;
        let x = c.st.regs@[n - 1].0;
        reveal_with_fuel(wasm_flow::calls_nothing, 1);
        let v = s.locals[x];
        assert(e.code.is_prefix_of(d)) by {
            wasm_flow::lemma_op_stands(
                e.val(E::C(p as i32).both(E::L(x))),
                Op::Store(Width::A32, 0),
                d,
            );
            wasm_flow::lemma_val_stands(e, E::C(p as i32).both(E::L(x)), d, false, 0);
        }
        let u = lemma_spilled(c, n - 1, s, d, start, h);
        wasm_run::evaluate_local(x, u);
        lemma_fixed_store(e, p, E::L(x), v, u, d, start, h);
        wasm_run::lemma_stored_apart(Width::A32, u.memory, p, v, 556);
        Words { memory: wasm_run::stored(Width::A32, u.memory, p, v), ..u }
    }
}

proof fn lemma_spilled_flag(e: Emit, p: u32, x: usize, s: Words, d: Seq<Op>, start: int, h: Helpers) -> (t:
    Words)
    requires
        e.store_fixed(Width::A32, p, E::L(x)).code.is_prefix_of(d),
        p <= 500,
    ensures
        e.code.is_prefix_of(d),
        wasm_course::course(d, start, e.code.len() as int, s, h) == wasm_course::course(
            d,
            start,
            e.store_fixed(Width::A32, p, E::L(x)).code.len() as int,
            t,
            h,
        ),
        t.memory[556] == s.memory[556],
        t.locals == s.locals,
        t.stack == s.stack,
{
    reveal_with_fuel(wasm_flow::calls_nothing, 1);
    let v = s.locals[x];
    wasm_run::evaluate_local(x, s);
    lemma_fixed_store(e, p, E::L(x), v, s, d, start, h);
    wasm_run::lemma_stored_apart(Width::A32, s.memory, p, v, 556);
    Words { memory: wasm_run::stored(Width::A32, s.memory, p, v), ..s }
}

/// The registers and the flags go to memory, and the instruction pointer stays.
proof fn lemma_settled(c: Ctx, s: Words, d: Seq<Op>, start: int, h: Helpers) -> (t: Words)
    requires
        !c.st.env.opstats.enabled,
        c.spilled_regs(8).spill_flags().code.is_prefix_of(d),
    ensures
        c.e.code.is_prefix_of(d),
        wasm_course::course(d, start, c.e.code.len() as int, s, h) == wasm_course::course(
            d,
            start,
            c.spilled_regs(8).spill_flags().code.len() as int,
            t,
            h,
        ),
        t.memory[556] == s.memory[556],
        t.stack == s.stack,
{
    let e = c.spilled_regs(8);
    match e.flag_locals {
        Some(f) => {
            let e1 = e.store_fixed(Width::A32, 104, E::L(f.last_op1.0));
            let e2 = e1.store_fixed(Width::A32, 112, E::L(f.last_result.0));
            let e3 = e2.store_fixed(Width::A32, 96, E::L(f.last_op_size.0));
            let e4 = e3.store_fixed(Width::A32, 100, E::L(f.flags_changed.0));
            let u5 = lemma_spilled_flag(e4, 120, f.flags.0, s, d, start, h);
            let u4 = lemma_spilled_flag(e3, 100, f.flags_changed.0, s, d, start, h);
            let u3 = lemma_spilled_flag(e2, 96, f.last_op_size.0, s, d, start, h);
            let u2 = lemma_spilled_flag(e1, 112, f.last_result.0, s, d, start, h);
            let u1 = lemma_spilled_flag(e, 104, f.last_op1.0, s, d, start, h);
            let t0 = lemma_spilled(c, 8, s, d, start, h);
            let t1 = lemma_spilled_flag(e, 104, f.last_op1.0, t0, d, start, h);
            let t2 = lemma_spilled_flag(e1, 112, f.last_result.0, t1, d, start, h);
            let t3 = lemma_spilled_flag(e2, 96, f.last_op_size.0, t2, d, start, h);
            let t4 = lemma_spilled_flag(e3, 100, f.flags_changed.0, t3, d, start, h);
            lemma_spilled_flag(e4, 120, f.flags.0, t4, d, start, h)
        },
        None => lemma_spilled(c, 8, s, d, start, h),
    }
}

/// The state after the instruction pointer was set to the address behind a block.
pub open spec fn behind_block(s: Words, end: u32) -> Words {
    Words {
        memory: wasm_run::stored(
            Width::A32,
            s.memory,
            556,
            word_of(address_behind(s.memory[556], end)),
        ),
        ..s
    }
}

/// What becomes of the code of the end of a block until interrupts are handled.
pub open spec fn interrupted(code: Seq<Op>, start: int, p: int, s: Words, h: Helpers) -> Course {
    wasm_course::course(code.take(p), start, start, s, h)
}

#[verifier::spinoff_prover]
proof fn lemma_interrupts(
    c: Ctx,
    block: BasicBlock,
    condition: u8,
    s: Words,
    holds: bool,
    h: Helpers,
) -> (p: int)
    requires
        !c.e.opt.profiler,
        !c.e.opt.dispatch_stats,
        !c.st.env.opstats.enabled,
        block.ty matches BasicBlockType::ConditionalJump { condition: k, .. } && k == condition,
        ({
            let low = cpu_state::page_offset(block.end_addr);
            tells(
                c.on(c.e.set_eip(E::eip_at(low))),
                condition,
                behind_block(s, block.end_addr),
                holds,
            )
        }),
    ensures
        ({
            let code = c.ended_for_interrupts(block).e.code;
            let start = c.e.code.len() as int;
            let eip = match block.ty {
                BasicBlockType::ConditionalJump { jump_offset, jump_offset_is_32, .. } => if holds {
                    jump_target(
                        s.memory[556],
                        s.memory[cpu_state::seg_offset_address(1) as u32],
                        block.end_addr,
                        jump_offset,
                        jump_offset_is_32,
                    )
                } else {
                    word_of(address_behind(s.memory[556], block.end_addr))
                },
                _ => 0,
            };
            &&& start <= p < code.len()
            &&& code[p] == Op::Call("handle_irqs", Sig::Fn0)
            &&& interrupted(code, start, p, s, h) matches Course::Falls(t)
            &&& t.memory[556] == eip
            &&& t.stack == s.stack
        }),
{
    broadcast use crate::wasm::group_code;

    reveal(Ctx::ended_for_interrupts);
    let start = c.e.code.len() as int;
    let end = block.end_addr;
    let low = cpu_state::page_offset(end);
    let (offset, is_32): (i32, bool) = match block.ty {
        BasicBlockType::ConditionalJump { jump_offset, jump_offset_is_32, .. } => (
            jump_offset,
            jump_offset_is_32,
        ),
        _ => (0, false),
    };
    let e0 = c.e.set_eip(E::eip_at(low));
    let c0 = c.on(e0);
    let c1 = c0.condition(condition);
    jit_exits::condition_keeps(c0, condition);
    let if_op = Op::If(BlockType::Void, None);
    let e2 = c1.e.op(if_op);
    let e3 = if !is_32 {
        e2.jumped16(offset as u16)
    } else if offset != 0 {
        e2.set_eip(E::eip().binc(Bin::Add, offset))
    } else {
        e2
    };
    let e4 = e3.op(Op::End);
    let c4 = c1.on(e4);
    lemma_quiet_counts(e4, cpu_state::Stat::ModuleExitDynamic);
    assert(e4.track_exit(block.last_instruction_addr) == e4) by {
        reveal(Emit::track_exit);
    }
    let f = c4.spilled_regs(8).spill_flags();
    let d = f.code;
    // the code stands
    let s1 = behind_block(s, end);
    let eip = s.memory[556];
    let v = word_of(address_behind(eip, end));
    let cs_at = cpu_state::seg_offset_address(1) as u32;
    assert(d.is_prefix_of(d));
    let w0 = lemma_settled(c4, s, d, start, h);
    wasm_flow::lemma_op_stands(e3, Op::End, d);
    let t1 = wasm_run::run(wasm_run::added(e0.code, c1.e.code), s1);
    let t2 = t1.pop();
    assert(t2.stack =~= s1.stack);
    wasm_run::law_stored_values_are_loaded(Width::A32, s.memory, 556, v);
    wasm_run::lemma_stored_apart(Width::A32, s.memory, 556, v, cs_at);
    let t3: Words = if !is_32 {
        lemma_jumped16(e2, offset as u16, t2, d, start, h)
    } else if offset != 0 {
        reveal_with_fuel(wasm_flow::calls_nothing, 4);
        evaluate_fixed(556, t2);
        wasm_run::evaluate_binc(Bin::Add, E::eip(), offset, t2, v, t2);
        let u = v.wrapping_add(offset);
        lemma_fixed_store(e2, 556, E::eip().binc(Bin::Add, offset), u, t2, d, start, h);
        wasm_run::law_stored_values_are_loaded(Width::A32, t2.memory, 556, u);
        Words { memory: wasm_run::stored(Width::A32, t2.memory, 556, u), ..t2 }
    } else {
        t2
    };
    codegen_value_laws::lemma_word(offset);
    codegen_value_laws::lemma_sum(address_behind(eip, end), offset as int);
    lemma_behind_fits(eip, end);
    assert(holds ==> t3.memory[556] == jump_target(eip, s.memory[cs_at], end, offset, is_32));
    wasm_flow::lemma_op_stands(c1.e, if_op, d);
    let t = lemma_told(c0, condition, s1, holds, d, start, h);
    evaluate_eip_at(end, s);
    lemma_fixed_store(c.e, 556, E::eip_at(low), v, s, d, start, h);
    assert(wasm_flow::behind(d, e2.code.len() as int, true, 0) == e4.code.len()) by {
        if is_32 && offset == 0 {
        } else {
            assert(wasm_flow::behind(d, e2.code.len() as int, true, 0) == wasm_flow::behind(
                d,
                e3.code.len() as int,
                true,
                0,
            ));
        }
        assert(wasm_flow::behind(d, e3.code.len() as int, true, 0) == e4.code.len());
    }
    let after = if holds {
        t3
    } else {
        t2
    };
    assert(wasm_course::course(d, start, e3.code.len() as int, t3, h) == wasm_course::course(
        d,
        start,
        e4.code.len() as int,
        t3,
        h,
    ));
    assert(wasm_course::course(d, start, c1.e.code.len() as int, t, h) == wasm_course::course(
        d,
        start,
        e4.code.len() as int,
        after,
        h,
    ));
    let w = lemma_settled(c4, after, d, start, h);
    assert(wasm_course::course(d, start, start, s, h) == Course::Falls(w));
    let code = c.ended_for_interrupts(block).e.code;
    let p = d.len() as int;
    assert(code.take(p) =~= d && p < code.len() && code[p] == Op::Call("handle_irqs", Sig::Fn0)) by {
        let f0 = c4.on(f);
        let f1 = f.op(Op::Call("handle_irqs", Sig::Fn0));
        let f2 = f0.on(f1).counted();
        let f3 = f2.e.op(Op::Return);
        assert(f3.code == code);
        let x = E::fixed(Width::A32, cpu_state::AT_INSTRUCTION_COUNTER).bin(
            Bin::Add,
            E::L(c.st.instruction_counter.0),
        );
        let both = E::C(cpu_state::AT_INSTRUCTION_COUNTER as i32).both(x);
        wasm_flow::lemma_op_stands(f2.e, Op::Return, code);
        wasm_flow::lemma_op_stands(f1.val(both), Op::Store(Width::A32, 0), code);
        wasm_flow::lemma_val_stands(f1, both, code, false, 0);
        wasm_flow::lemma_op_stands(f, Op::Call("handle_irqs", Sig::Fn0), code);
    }
    p
}

/// A block after which interrupts are handled: when that happens, the instruction pointer is at
/// the address that the conditional jump goes to, which it takes exactly where its condition
/// holds of the two numbers that were compared.
pub proof fn law_interrupts_come_after_the_jump(
    c: Ctx,
    block: BasicBlock,
    condition: u8,
    next: Seq<u32>,
    scope: Seq<Target>,
    plan: Plan,
    unit: Unit,
    s: Words,
    a: u32,
    b: u32,
    n: i32,
    h: Helpers,
) -> (p: int)
    requires
        block.has_sti,
        !c.e.opt.profiler,
        !c.e.opt.dispatch_stats,
        !c.st.env.opstats.enabled,
        block.ty matches BasicBlockType::ConditionalJump { condition: k, .. } && k == condition,
        is_plain_condition(condition),
        codegen_cond_laws::is_ready(c.e, s, c.st.previous_instruction, a, b, n, 8),
    ensures
        ({
            let code = c.ended(block, next, scope, plan, unit).e.code;
            let start = c.e.code.len() as int;
            let eip = match block.ty {
                BasicBlockType::ConditionalJump { jump_offset, jump_offset_is_32, .. } => if codegen_cond_laws::holds(
                    condition & 0xf,
                    a,
                    b,
                    n,
                ) {
                    jump_target(
                        s.memory[556],
                        s.memory[cpu_state::seg_offset_address(1) as u32],
                        block.end_addr,
                        jump_offset,
                        jump_offset_is_32,
                    )
                } else {
                    word_of(address_behind(s.memory[556], block.end_addr))
                },
                _ => 0,
            };
            &&& start <= p < code.len()
            &&& code[p] == Op::Call("handle_irqs", Sig::Fn0)
            &&& interrupted(code, start, p, s, h) matches Course::Falls(t)
            &&& t.memory[556] == eip
            &&& t.stack == s.stack
        }),
{
    let low = cpu_state::page_offset(block.end_addr);
    let e0 = c.e.set_eip(E::eip_at(low));
    let c0 = c.on(e0);
    let s1 = behind_block(s, block.end_addr);
    let v = word_of(address_behind(s.memory[556], block.end_addr));
    lemma_jump_keeps(c.e, block.end_addr, 0, true);
    wasm_run::lemma_stored_apart(Width::A32, s.memory, 556, v, 96);
    wasm_run::lemma_stored_apart(Width::A32, s.memory, 556, v, 100);
    wasm_run::lemma_stored_apart(Width::A32, s.memory, 556, v, 104);
    wasm_run::lemma_stored_apart(Width::A32, s.memory, 556, v, 112);
    wasm_run::lemma_stored_apart(Width::A32, s.memory, 556, v, 120);
    assert(codegen_cond_laws::is_ready(e0, s1, c.st.previous_instruction, a, b, n, 8)) by {
        reveal(Emit::op);
        reveal(Emit::val);
    }
    let holds = codegen_cond_laws::holds(condition & 0xf, a, b, n);
    lemma_plain_condition(c0, condition);
    codegen_cond_laws::law_conditions_hold(c0, condition & 0xf, s1, a, b, n);
    lemma_interrupts(c, block, condition, s, holds, h)
}

} // verus!
