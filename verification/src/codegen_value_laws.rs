//! What the code for operands computes: addresses of memory operands, and parts of registers.
use vstd::prelude::*;
use crate::cpu_state;
use crate::cpu_state::{NOT_BYTE_1, NOT_LOW_16, NOT_LOW_8};
use crate::jit_context::Ctx;
use crate::modrm::ModrmByte;
use crate::wasm::{Bin, Emit, Op, Width, E};
use crate::wasm_run;
use crate::wasm_run::Words;

verus! {

/// The word that stands for a number, whatever its size.
pub open spec fn word_of(x: int) -> i32 {
    ((x % 0x1_0000_0000) as u32) as i32
}

/// The value of a general register.
pub open spec fn register(c: Ctx, r: int, s: Words) -> i32 {
    s.locals[c.st.regs@[r].0]
}

/// Two to the power of a scale.
pub open spec fn factor(scale: u8) -> int {
    if scale == 0 {
        1
    } else if scale == 1 {
        2
    } else if scale == 2 {
        4
    } else {
        8
    }
}

/// The base register, the index register times its factor and the displacement.
pub open spec fn offset_sum(c: Ctx, m: ModrmByte, esp_offset: i32, s: Words) -> int {
    (match m.first_reg {
        Some(r) => register(c, r as int, s) as int,
        None => 0,
    }) + (match m.second_reg {
        Some(p) => register(c, p.0 as int, s) * factor(p.1),
        None => 0,
    }) + c.displacement(m, esp_offset)
}

/// The address of a memory operand: the sum, which has 16 bits in 16-bit addressing, and the
/// base of the segment.
pub open spec fn effective_address(c: Ctx, m: ModrmByte, esp_offset: i32, s: Words) -> i32 {
    let sum = offset_sum(c, m, esp_offset, s);
    let offset = if m.is_16 {
        sum % 0x1_0000
    } else {
        sum
    };
    if c.segment_is_flat(m.segment) {
        word_of(offset)
    } else {
        word_of(
            offset + s.memory[cpu_state::seg_offset_address(m.segment as int) as u32],
        )
    }
}

pub proof fn bits_of_words(v: i32)
    by (bit_vector)
    ensures
        (v as u32) as i32 == v,
        v >= 0 ==> v as u32 == v,
        v < 0 ==> v as u32 == v + 0x1_0000_0000,
        ((v as u32) & 0xffff) as i32 == v & 0xffff,
        1i32 & 31i32 == 1i32,
        2i32 & 31i32 == 2i32,
        3i32 & 31i32 == 3i32,
        8i32 & 31i32 == 8i32,
{
}

pub proof fn bits_of_shifts(v: i32, u: u32, x: u64)
    by (bit_vector)
    requires
        u == v as u32,
        x == u as u64,
    ensures
        v << 1u32 == (u << 1u32) as i32,
        v << 2u32 == (u << 2u32) as i32,
        v << 3u32 == (u << 3u32) as i32,
        u << 1u32 == (x << 1u64) as u32,
        u << 2u32 == (x << 2u64) as u32,
        u << 3u32 == (x << 3u64) as u32,
        x << 1u64 <= 0x7_ffff_ffffu64,
        x << 2u64 <= 0x7_ffff_ffffu64,
        x << 3u64 <= 0x7_ffff_ffffu64,
        u & 0xffffu32 == u % 0x1_0000u32,
{
}

/// A word stands for itself.
pub proof fn lemma_word(v: i32)
    ensures
        word_of(v as int) == v,
        v as int % 0x1_0000_0000 == v as u32,
{
    bits_of_words(v);
}

pub proof fn lemma_sum(x: int, y: int)
    ensures
        word_of(x).wrapping_add(word_of(y)) == word_of(x + y),
{
    let u = (x % 0x1_0000_0000) as u32;
    let v = (y % 0x1_0000_0000) as u32;
    let a = word_of(x);
    let b = word_of(y);
    let r = a.wrapping_add(b);
    lemma_cast(u);
    lemma_cast(v);
    bits_of_words(a);
    bits_of_words(b);
    lemma_word(r);
    assert(r as int % 0x1_0000_0000 == (a + b) % 0x1_0000_0000);
    assert((a + b) % 0x1_0000_0000 == (x + y) % 0x1_0000_0000);
}

pub proof fn lemma_cast(u: u32)
    ensures
        (u as i32) as u32 == u,
{
    assert((u as i32) as u32 == u) by (bit_vector);
}

/// Words are added as addresses are.
pub proof fn lemma_address_sum(base: u32, v: i32)
    ensures
        (base as i32).wrapping_add(v) as u32 == base.wrapping_add(v as u32),
{
    let b = base as i32;
    let r = b.wrapping_add(v);
    lemma_cast(base);
    bits_of_words(b);
    bits_of_words(v);
    bits_of_words(r);
}

proof fn lemma_scaled(v: i32, k: u8)
    requires
        k < 4,
    ensures
        k != 0 ==> wasm_run::binary(Bin::Shl, v, k as i32) == word_of(v * factor(k)),
        k == 0 ==> v == word_of(v * factor(k)),
{
    bits_of_words(v);
    lemma_word(v);
    let u = v as u32;
    let x = u as u64;
    bits_of_shifts(v, u, x);
    vstd::arithmetic::power2::lemma2_to64();
    if k == 1 {
        vstd::bits::lemma_u64_shl_is_mul(x, 1);
        assert(v * 2 % 0x1_0000_0000 == u * 2 % 0x1_0000_0000);
    } else if k == 2 {
        vstd::bits::lemma_u64_shl_is_mul(x, 2);
        assert(v * 4 % 0x1_0000_0000 == u * 4 % 0x1_0000_0000);
    } else if k == 3 {
        vstd::bits::lemma_u64_shl_is_mul(x, 3);
        assert(v * 8 % 0x1_0000_0000 == u * 8 % 0x1_0000_0000);
    }
    let w = x << (k as u64);
    assert(w as u32 == w % 0x1_0000_0000u64) by (bit_vector);
}

/// The code for the address of a memory operand computes the sum that the operand names.
pub proof fn law_addresses_add_up(c: Ctx, m: ModrmByte, esp_offset: i32, s: Words)
    requires
        m.wf(),
        c.wf(),
    ensures
        wasm_run::run(
            wasm_run::added(c.e.code, c.val(c.address(m, esp_offset)).e.code),
            s,
        ) == s.push(effective_address(c, m, esp_offset, s)),
{
    let v = effective_address(c, m, esp_offset, s);
    let x = c.address(m, esp_offset);
    evaluate_address(c, m, esp_offset, s);
    wasm_run::lemma_val(c.e, x, s, v, s);
    wasm_run::lemma_ends(c.e.code, c.e.val(x).code, s, s.on(s.stack.push(v)));
}

proof fn evaluate_register(c: Ctx, r: int, s: Words)
    ensures
        wasm_run::evaluates(c.reg32(r), s, register(c, r, s), s),
{
    wasm_run::evaluate_local(c.st.regs@[r].0, s);
}

proof fn evaluate_scaled(c: Ctx, p: (u32, u8), s: Words)
    requires
        p.1 < 4,
    ensures
        wasm_run::evaluates(
            c.scaled(p),
            s,
            word_of(register(c, p.0 as int, s) * factor(p.1)),
            s,
        ),
{
    let v = register(c, p.0 as int, s);
    evaluate_register(c, p.0 as int, s);
    lemma_scaled(v, p.1);
    if p.1 != 0 {
        wasm_run::evaluate_binc(Bin::Shl, c.reg32(p.0 as int), p.1 as i32, s, v, s);
    }
}

proof fn evaluate_linear(c: Ctx, m: ModrmByte, esp_offset: i32, s: Words)
    requires
        m.wf(),
    ensures
        wasm_run::evaluates(
            c.linear(m, esp_offset),
            s,
            word_of(offset_sum(c, m, esp_offset, s)),
            s,
        ),
{
    let d = c.displacement(m, esp_offset);
    lemma_word(d);
    wasm_run::evaluate_constant(d, s);
    let (x, sum): (E, int) = match (m.first_reg, m.second_reg) {
        (Some(r), Some(p)) => {
            let a = register(c, r as int, s);
            let b = register(c, p.0 as int, s) * factor(p.1);
            evaluate_register(c, r as int, s);
            evaluate_scaled(c, p, s);
            lemma_word(a);
            lemma_sum(a as int, b);
            wasm_run::evaluate_bin(
                Bin::Add,
                c.reg32(r as int),
                c.scaled(p),
                s,
                a,
                s,
                word_of(b),
                s,
            );
            (c.reg32(r as int).bin(Bin::Add, c.scaled(p)), a + b)
        },
        (Some(r), None) => {
            evaluate_register(c, r as int, s);
            lemma_word(register(c, r as int, s));
            (c.reg32(r as int), register(c, r as int, s) as int)
        },
        (None, Some(p)) => {
            evaluate_scaled(c, p, s);
            (c.scaled(p), register(c, p.0 as int, s) * factor(p.1))
        },
        (None, None) => (E::C(d), 0),
    };
    lemma_sum(sum, d as int);
    if m.first_reg is Some || m.second_reg is Some {
        if d != 0 {
            wasm_run::evaluate_binc(Bin::Add, x, d, s, word_of(sum), s);
        }
    }
}

proof fn evaluate_fixed(address: u32, s: Words)
    requires
        address < 0x8000_0000,
    ensures
        wasm_run::evaluates(E::fixed(Width::A32, address), s, s.memory[address], s),
{
    wasm_run::evaluate_constant(address as i32, s);
    wasm_run::evaluate_load(E::C(address as i32), Width::A32, 0, s, address as i32, s);
    assert(((address as i32) as u32).wrapping_add(0) == address);
}

proof fn evaluate_address(c: Ctx, m: ModrmByte, esp_offset: i32, s: Words)
    requires
        m.wf(),
    ensures
        wasm_run::evaluates(
            c.address(m, esp_offset),
            s,
            effective_address(c, m, esp_offset, s),
            s,
        ),
{
    let sum = offset_sum(c, m, esp_offset, s);
    let w = word_of(sum);
    let linear = c.linear(m, esp_offset);
    evaluate_linear(c, m, esp_offset, s);
    let (cut, offset): (E, int) = if m.is_16 {
        wasm_run::evaluate_binc(Bin::And, linear, 0xffff, s, w, s);
        bits_of_words(w);
        bits_of_shifts(w, w as u32, (w as u32) as u64);
        lemma_cast((sum % 0x1_0000_0000) as u32);
        assert(w as u32 == sum % 0x1_0000_0000);
        assert((w as u32) % 0x1_0000 == sum % 0x1_0000);
        assert(w & 0xffff == word_of(sum % 0x1_0000));
        (linear.and(0xffff), sum % 0x1_0000)
    } else {
        (linear, sum)
    };
    if !c.segment_is_flat(m.segment) {
        let at = cpu_state::seg_offset_address(m.segment as int) as u32;
        let base = s.memory[at];
        evaluate_fixed(at, s);
        lemma_word(base);
        lemma_sum(offset, base as int);
        wasm_run::evaluate_bin(
            Bin::Add,
            cut,
            E::fixed(Width::A32, at),
            s,
            word_of(offset),
            s,
            base,
            s,
        );
    }
}

/// The 8-bit register `r` as part of the word that holds it.
pub open spec fn byte_part(v: i32, r: int) -> i32 {
    if r < 4 {
        v & 0xff
    } else {
        ((v as u32) >> 8u32) as i32 & 0xff
    }
}

/// The word that holds an 8-bit register, without it.
pub open spec fn without_byte(v: i32, r: int) -> i32 {
    if r < 4 {
        v & NOT_LOW_8
    } else {
        v & NOT_BYTE_1
    }
}

/// The general register that holds the 8-bit register `r`.
pub open spec fn holder(c: Ctx, r: int) -> usize {
    c.st.regs@[if r < 4 {
        r
    } else {
        r - 4
    }].0
}

/// The code that reads an 8-bit register leaves its byte.
pub proof fn law_byte_registers_are_read(c: Ctx, r: int, s: Words)
    requires
        0 <= r < 8,
        c.wf(),
    ensures
        wasm_run::run(wasm_run::added(c.e.code, c.val(c.reg8(r)).e.code), s) == s.push(
            byte_part(s.locals[holder(c, r)], r),
        ),
{
    let v = s.locals[holder(c, r)];
    let x = c.reg8(r);
    bits_of_words(v);
    wasm_run::evaluate_local(holder(c, r), s);
    if r < 4 {
        wasm_run::evaluate_binc(Bin::And, c.reg32(r), 0xff, s, v, s);
    } else {
        wasm_run::evaluate_binc(Bin::ShrU, c.reg32(r - 4), 8, s, v, s);
        wasm_run::evaluate_binc(
            Bin::And,
            c.reg32(r - 4).binc(Bin::ShrU, 8),
            0xff,
            s,
            ((v as u32) >> 8u32) as i32,
            s,
        );
    }
    wasm_run::lemma_val(c.e, x, s, byte_part(v, r), s);
    wasm_run::lemma_ends(c.e.code, c.e.val(x).code, s, s.on(s.stack.push(byte_part(v, r))));
}

proof fn bits_of_bytes(v: i32, old: i32, m8: i32, m1: i32, m16: i32)
    by (bit_vector)
    requires
        m8 == -256,
        m1 == -65281,
        m16 == -65536,
    ensures
        ((v & 0xff) | (old & m8)) & 0xff == v & 0xff,
        ((v & 0xff) | (old & m8)) & m8 == old & m8,
        ((((v << 8u32) & 0xff00) | (old & m1)) as u32 >> 8u32) as i32 & 0xff == v & 0xff,
        (((v << 8u32) & 0xff00) | (old & m1)) & m1 == old & m1,
        ((v & 0xffff) | (old & m16)) & 0xffff == v & 0xffff,
        ((v & 0xffff) | (old & m16)) & m16 == old & m16,
        8i32 & 31i32 == 8i32,
{
}

/// A value on the stack that a local takes after it was changed.
proof fn lead_set(e: Emit, x: E, l: usize, s: Words, k: Seq<i32>, w: i32)
    requires
        x.done(s) == s.on(k.push(w)),
    ensures
        wasm_run::run(wasm_run::added(e.code, e.set(l, x).code), s) == s.on(k).set(l, w),
{
    reveal(Emit::val);
    reveal(Emit::op);
    let after = e.set(l, x).code;
    let t = s.on(k.push(w));
    assert(k.push(w).drop_last() =~= k);
    wasm_run::law_expressions_run(x, e.code, s);
    wasm_run::lemma_op(e.val(x).code, Op::LocalSet(l), t);
    wasm_run::lemma_leads_on(
        e.code,
        e.val(x).code,
        after,
        s,
        t,
        wasm_run::step(Op::LocalSet(l), t),
    );
    wasm_run::lemma_ends(e.code, after, s, wasm_run::step(Op::LocalSet(l), t));
    assert(wasm_run::step(Op::LocalSet(l), t) == s.on(k).set(l, w));
}

/// A masked value from the stack joined with the rest of a local.
proof fn lemma_joined(x: E, l: usize, mask: i32, s: Words, k: Seq<i32>, u: i32)
    requires
        x.done(s) == s.on(k.push(u)),
    ensures
        x.bin(Bin::Or, E::L(l).and(mask)).done(s) == s.on(k.push(u | (s.locals[l] & mask))),
{
    reveal_with_fuel(E::done, 2);
    let y = E::L(l).and(mask);
    let old = s.locals[l];
    wasm_run::evaluate_local(l, s);
    wasm_run::evaluate_binc(Bin::And, E::L(l), mask, s, old, s);
    assert(y.done(s.on(k.push(u))) == s.on(k.push(u).push(old & mask)));
    assert(k.push(u).push(old & mask).drop_last() =~= k.push(u));
    assert(k.push(u).drop_last() =~= k);
}

proof fn lemma_top_binc(b: Bin, x: E, c: i32, s: Words, k: Seq<i32>, u: i32)
    requires
        !(b is AddI64),
        x.done(s) == s.on(k.push(u)),
    ensures
        x.binc(b, c).done(s) == s.on(k.push(wasm_run::binary(b, u, c))),
{
    reveal_with_fuel(E::done, 2);
    assert(k.push(u).push(c).drop_last() =~= k.push(u));
    assert(k.push(u).drop_last() =~= k);
    assert(E::C(c).done(s.on(k.push(u))) == s.on(k.push(u).push(c)));
}

/// The code that writes an 8-bit register takes the value from the stack: the register then
/// holds its low byte, and nothing else has changed.
pub proof fn law_byte_registers_are_written(c: Ctx, r: int, s: Words, k: Seq<i32>, v: i32)
    requires
        0 <= r < 8,
        c.wf(),
        s.stack == k.push(v),
    ensures
        ({
            let t = wasm_run::run(
                wasm_run::added(c.e.code, c.set_reg8(r, E::Top).e.code),
                s,
            );
            let w = t.locals[holder(c, r)];
            &&& byte_part(w, r) == v & 0xff
            &&& without_byte(w, r) == without_byte(s.locals[holder(c, r)], r)
            &&& t == s.on(k).set(holder(c, r), w)
        }),
{
    let l = holder(c, r);
    let old = s.locals[l];
    bits_of_bytes(v, old, NOT_LOW_8, NOT_BYTE_1, NOT_LOW_16);
    assert(E::Top.done(s) == s.on(k.push(v)));
    if r < 4 {
        lemma_top_binc(Bin::And, E::Top, 0xff, s, k, v);
        lemma_joined(E::Top.and(0xff), l, NOT_LOW_8, s, k, v & 0xff);
        lead_set(
            c.e,
            E::Top.and(0xff).bin(Bin::Or, E::L(l).and(NOT_LOW_8)),
            l,
            s,
            k,
            (v & 0xff) | (old & NOT_LOW_8),
        );
    } else {
        lemma_top_binc(Bin::Shl, E::Top, 8, s, k, v);
        let x = E::Top.binc(Bin::Shl, 8);
        lemma_top_binc(Bin::And, x, 0xff00, s, k, v << 8u32);
        lemma_joined(x.and(0xff00), l, NOT_BYTE_1, s, k, (v << 8u32) & 0xff00);
        lead_set(
            c.e,
            x.and(0xff00).bin(Bin::Or, E::L(l).and(NOT_BYTE_1)),
            l,
            s,
            k,
            ((v << 8u32) & 0xff00) | (old & NOT_BYTE_1),
        );
    }
}

/// The code that writes a 16-bit register takes the value from the stack: the register then
/// holds its low half, and nothing else has changed.
pub proof fn law_half_registers_are_written(c: Ctx, r: int, s: Words, k: Seq<i32>, v: i32)
    requires
        0 <= r < 8,
        c.wf(),
        s.stack == k.push(v),
    ensures
        ({
            let l = c.st.regs@[r].0;
            let t = wasm_run::run(
                wasm_run::added(c.e.code, c.set_reg16(r, E::Top).e.code),
                s,
            );
            let w = t.locals[l];
            &&& w & 0xffff == v & 0xffff
            &&& w & NOT_LOW_16 == s.locals[l] & NOT_LOW_16
            &&& t == s.on(k).set(l, w)
        }),
{
    let l = c.st.regs@[r].0;
    let old = s.locals[l];
    bits_of_bytes(v, old, NOT_LOW_8, NOT_BYTE_1, NOT_LOW_16);
    assert(E::Top.done(s) == s.on(k.push(v)));
    lemma_top_binc(Bin::And, E::Top, 0xffff, s, k, v);
    lemma_joined(E::Top.and(0xffff), l, NOT_LOW_16, s, k, v & 0xffff);
    lead_set(
        c.e,
        E::Top.and(0xffff).bin(Bin::Or, E::L(l).and(NOT_LOW_16)),
        l,
        s,
        k,
        (v & 0xffff) | (old & NOT_LOW_16),
    );
}

} // verus!
