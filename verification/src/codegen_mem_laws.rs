//! What the code of direct memory accesses decides, and where it reads and writes.
use vstd::prelude::*;
use crate::codegen_mem::BitSize;
use crate::cpu_state::{PAGE_MASK, TLB_IN_MAPPED_RANGE, TLB_NO_USER, TLB_VALID};
use crate::guest_mem;
use crate::jit_context::Ctx;
use crate::perm_map;
use crate::wasm::{Bin, Width, E};
use crate::wasm_run;
use crate::wasm_run::Words;
use crate::write_map;

verus! {

/// The page of an address.
pub open spec fn page_of(address: i32) -> u32 {
    address as u32 / 0x1000
}

/// The access does not reach into the next page.
pub open spec fn stays_inside(address: i32, bits: BitSize) -> bool {
    address as u32 % 0x1000 + bits.size() <= 0x1000
}

/// The translation entry of the page of an address.
pub open spec fn translation(c: Ctx, address: i32, s: Words) -> i32 {
    s.memory[((page_of(address) * 4) as u32).wrapping_add(c.st.env.tlb_data)]
}

/// The permissions of the page of an address.
pub open spec fn permission(c: Ctx, address: i32, s: Words) -> i32 {
    s.memory[page_of(address).wrapping_add(c.st.env.perm_map)] & 0xff
}

/// The translation entry of the page has exactly the bits that the access asks for, and the
/// access stays inside the page.
pub open spec fn is_direct(c: Ctx, mask: i32, address: i32, bits: BitSize, s: Words) -> bool {
    translation(c, address, s) & mask == TLB_VALID && stays_inside(address, bits)
}

/// The store map takes a store, and the store stays inside its page.
pub open spec fn is_taken(c: Ctx, address: i32, bits: BitSize, s: Words) -> bool {
    store_byte(c, address, s) == 1 && stays_inside(address, bits)
}

/// The permission map allows a read, and the read stays inside its page.
pub open spec fn is_allowed(c: Ctx, address: i32, bits: BitSize, s: Words) -> bool {
    let mask = c.perm_mask() as i32;
    permission(c, address, s) & mask == mask && stays_inside(address, bits)
}

/// What the store map says of the page of an address.
pub open spec fn store_byte(c: Ctx, address: i32, s: Words) -> i32 {
    s.memory[page_of(address).wrapping_add(c.st.env.write_map)] & 0xff
}

/// Where an address lies in linear memory, by the translation entry of its page.
pub open spec fn place(word: i32, address: i32, mem8: u32) -> u32 {
    mem8.wrapping_add(guest_mem::frame_of(word, page_of(address), mem8)).wrapping_add(
        address as u32 % 0x1000,
    )
}

proof fn bits_of_pages(a: i32, u: u32, w: i32, m: i32)
    by (bit_vector)
    requires
        u == a as u32,
        m == -4096i32,
    ensures
        12i32 & 31i32 == 12i32,
        2i32 & 31i32 == 2i32,
        u >> 12u32 == u / 0x1000u32,
        (((u >> 12u32) as i32) << 2u32) as u32 == ((u >> 12u32) << 2u32),
        ((u >> 12u32) as i32) as u32 == u >> 12u32,
        (u >> 12u32) << 2u32 == (u / 0x1000u32) * 4u32,
        a & 0xfffi32 == (u % 0x1000u32) as i32,
        u % 0x1000u32 < 0x1000u32,
        (((w & m) ^ a) as u32) == ((w & m) as u32 ^ ((u / 0x1000u32) * 0x1000u32) as u32) + u
            % 0x1000u32,
        ((u / 0x1000u32) * 0x1000u32) as u32 + u % 0x1000u32 == u,
{
}

pub proof fn lemma_address(a: i32)
    ensures
        wasm_run::binary(Bin::ShrU, a, 12) as u32 == page_of(a),
        wasm_run::binary(Bin::Shl, wasm_run::binary(Bin::ShrU, a, 12), 2) as u32 == page_of(a)
            * 4,
        a & 0xfff == a as u32 % 0x1000,
        page_of(a) * 0x1000 + a as u32 % 0x1000 == a as u32,
{
    bits_of_pages(a, a as u32, 0, PAGE_MASK);
}

/// What the question for the page adds.
pub proof fn evaluate_in_page(x: E, a: usize, bits: BitSize, s: Words, b: bool, t: Words)
    requires
        wasm_run::evaluates(x, s, wasm_run::truth(b), t),
    ensures
        wasm_run::evaluates(
            x.and_in_page(a, bits),
            s,
            wasm_run::truth(b && stays_inside(t.locals[a], bits)),
            t,
        ),
{
    let address = t.locals[a];
    lemma_address(address);
    if !(bits is BYTE) {
        let last = (0x1000 - bits.size()) as i32;
        let low = E::L(a).and(0xfff);
        wasm_run::evaluate_local(a, t);
        wasm_run::evaluate_binc(Bin::And, E::L(a), 0xfff, t, address, t);
        wasm_run::evaluate_binc(Bin::LeS, low, last, t, address & 0xfff, t);
        let inside = wasm_run::truth(stays_inside(address, bits));
        assert(wasm_run::binary(Bin::LeS, address & 0xfff, last) == inside);
        wasm_run::evaluate_bin(
            Bin::And,
            x,
            E::in_page(a, bits),
            s,
            wasm_run::truth(b),
            t,
            inside,
            t,
        );
        bits_of_truth();
    }
}

pub proof fn bits_of_truth()
    by (bit_vector)
    ensures
        0i32 & 0i32 == 0i32,
        0i32 & 1i32 == 0i32,
        1i32 & 0i32 == 0i32,
        1i32 & 1i32 == 1i32,
        0i32 | 0i32 == 0i32,
        0i32 | 1i32 == 1i32,
        1i32 | 0i32 == 1i32,
        1i32 | 1i32 == 1i32,
{
}

proof fn evaluate_entry(c: Ctx, a: usize, s: Words)
    ensures
        wasm_run::evaluates(c.tlb_entry(a), s, translation(c, s.locals[a], s), s),
{
    let address = s.locals[a];
    let page = wasm_run::binary(Bin::ShrU, address, 12);
    let at = wasm_run::binary(Bin::Shl, page, 2);
    let x = E::L(a).binc(Bin::ShrU, 12);
    lemma_address(address);
    wasm_run::evaluate_local(a, s);
    wasm_run::evaluate_binc(Bin::ShrU, E::L(a), 12, s, address, s);
    wasm_run::evaluate_binc(Bin::Shl, x, 2, s, page, s);
    wasm_run::evaluate_load(x.binc(Bin::Shl, 2), Width::A32, c.st.env.tlb_data, s, at, s);
}

/// What the question for a direct access leaves.
pub proof fn evaluate_direct(c: Ctx, a: usize, entry: usize, mask: i32, bits: BitSize, s: Words)
    requires
        a != entry,
    ensures
        wasm_run::evaluates(
            c.direct(a, entry, mask, bits),
            s,
            wasm_run::truth(is_direct(c, mask, s.locals[a], bits, s)),
            s.set(entry, translation(c, s.locals[a], s)),
        ),
{
    let address = s.locals[a];
    let word = translation(c, address, s);
    let t = s.set(entry, word);
    let x = c.tlb_entry(a).tee(entry);
    let valid = word & mask == TLB_VALID;
    evaluate_entry(c, a, s);
    wasm_run::evaluate_tee(c.tlb_entry(a), entry, s, word, s);
    wasm_run::evaluate_binc(Bin::And, x, mask, s, word, t);
    wasm_run::evaluate_binc(Bin::Eq, x.and(mask), TLB_VALID, s, word & mask, t);
    evaluate_in_page(x.and(mask).binc(Bin::Eq, TLB_VALID), a, bits, s, valid, t);
}

/// The code that asks whether an access may go directly to memory says so exactly where the
/// translation entry has the bits that the access asks for and the access stays inside the
/// page; it keeps the entry.
pub proof fn law_direct_accesses_are_checked(
    c: Ctx,
    a: usize,
    entry: usize,
    mask: i32,
    bits: BitSize,
    s: Words,
)
    requires
        a != entry,
    ensures
        ({
            let address = s.locals[a];
            let word = translation(c, address, s);
            wasm_run::leads(
                c.e.code,
                c.val(c.direct(a, entry, mask, bits)).e.code,
                s,
                s.set(entry, word).push(wasm_run::truth(is_direct(c, mask, address, bits, s))),
            )
        }),
{
    let address = s.locals[a];
    let word = translation(c, address, s);
    let t = s.set(entry, word);
    let v = wasm_run::truth(is_direct(c, mask, address, bits, s));
    evaluate_direct(c, a, entry, mask, bits, s);
    wasm_run::lemma_val(c.e, c.direct(a, entry, mask, bits), s, v, t);
    assert(t.on(s.stack.push(v)) == t.push(v));
}

/// What the code for a place leaves.
pub proof fn evaluate_host(a: usize, entry: usize, s: Words)
    ensures
        wasm_run::evaluates(E::host(a, entry), s, (s.locals[entry] & PAGE_MASK) ^ s.locals[a], s),
{
    let address = s.locals[a];
    let word = s.locals[entry];
    wasm_run::evaluate_local(entry, s);
    wasm_run::evaluate_local(a, s);
    wasm_run::evaluate_binc(Bin::And, E::L(entry), PAGE_MASK, s, word, s);
    wasm_run::evaluate_bin(
        Bin::Xor,
        E::L(entry).and(PAGE_MASK),
        E::L(a),
        s,
        word & PAGE_MASK,
        s,
        address,
        s,
    );
}

/// The code for the place of an address in linear memory gives the frame that the translation
/// entry names, and the offset in the page.
pub proof fn law_places_are_translated(c: Ctx, a: usize, entry: usize, mem8: u32, s: Words)
    ensures
        exists|v: i32|
            {
                &&& v as u32 == place(s.locals[entry], s.locals[a], mem8)
                &&& #[trigger] wasm_run::leads(
                    c.e.code,
                    c.val(E::host(a, entry)).e.code,
                    s,
                    s.push(v),
                )
            },
{
    let address = s.locals[a];
    let word = s.locals[entry];
    let v = (word & PAGE_MASK) ^ address;
    evaluate_host(a, entry, s);
    wasm_run::lemma_val(c.e, E::host(a, entry), s, v, s);
    assert(s.on(s.stack.push(v)) == s.push(v));
    lemma_place(word, address, mem8);
}

pub proof fn lemma_place(word: i32, address: i32, mem8: u32)
    ensures
        ((word & PAGE_MASK) ^ address) as u32 == place(word, address, mem8),
{
    bits_of_pages(address, address as u32, word, PAGE_MASK);
    let frame = (word & PAGE_MASK) as u32 ^ (page_of(address) * 0x1000) as u32;
    assert(mem8.wrapping_add(frame.wrapping_sub(mem8)) == frame);
}

proof fn bits_of_permissions(c: u8, i: u8, w: u8, u: u8, b: u8)
    by (bit_vector)
    requires
        c == 0 || c == 16,
        i == 0 || i == 8,
        w == 0 || w == 2,
        u == 0 || u == 4,
        b == c + 1 + i + w + u,
    ensures
        b & 13 == 13 ==> i == 8 && u == 4,
        b & 9 == 9 ==> i == 8,
        c & 13 != 13,
        c & 9 != 9,
{
}

/// What the question to the permission map leaves.
pub proof fn evaluate_allowed(c: Ctx, a: usize, bits: BitSize, s: Words)
    ensures
        wasm_run::evaluates(
            c.perm_allowed(a, bits),
            s,
            wasm_run::truth(is_allowed(c, s.locals[a], bits, s)),
            s,
        ),
{
    let address = s.locals[a];
    let page = wasm_run::binary(Bin::ShrU, address, 12);
    let mask = c.perm_mask() as i32;
    let byte = permission(c, address, s);
    let x = E::L(a).binc(Bin::ShrU, 12);
    let y = x.load(Width::W8, c.st.env.perm_map);
    lemma_address(address);
    wasm_run::evaluate_local(a, s);
    wasm_run::evaluate_binc(Bin::ShrU, E::L(a), 12, s, address, s);
    wasm_run::evaluate_load(x, Width::W8, c.st.env.perm_map, s, page, s);
    wasm_run::evaluate_binc(Bin::And, y, mask, s, byte, s);
    wasm_run::evaluate_binc(Bin::Eq, y.and(mask), mask, s, byte & mask, s);
    evaluate_in_page(y.and(mask).binc(Bin::Eq, mask), a, bits, s, byte & mask == mask, s);
}

/// A read that the permission map allows is one that the translation entry of its page allows,
/// and it reads at the same place.
pub proof fn law_the_permission_map_agrees(c: Ctx, a: usize, bits: BitSize, s: Words)
    requires
        permission(c, s.locals[a], s) == perm_map::permissions(
            page_of(s.locals[a]),
            translation(c, s.locals[a], s),
            c.st.env.mem8,
        ),
    ensures
        ({
            let address = s.locals[a];
            let word = translation(c, address, s);
            let allowed = is_allowed(c, address, bits, s);
            &&& wasm_run::leads(
                c.e.code,
                c.val(c.perm_allowed(a, bits)).e.code,
                s,
                s.push(wasm_run::truth(allowed)),
            )
            &&& allowed ==> {
                &&& word & TLB_VALID != 0
                &&& word & TLB_IN_MAPPED_RANGE == 0
                &&& c.st.cpu.cpl3 ==> word & TLB_NO_USER == 0
                &&& place(word, address, c.st.env.mem8) == c.st.env.mem8.wrapping_add(
                    address as u32,
                )
            }
        }),
{
    let address = s.locals[a];
    let word = translation(c, address, s);
    let mem8 = c.st.env.mem8;
    let allowed = is_allowed(c, address, bits, s);
    evaluate_allowed(c, a, bits, s);
    let v = wasm_run::truth(allowed);
    wasm_run::lemma_val(c.e, c.perm_allowed(a, bits), s, v, s);
    assert(s.on(s.stack.push(v)) == s.push(v));
    if allowed {
        lemma_granted(page_of(address), word, mem8, c.perm_mask());
        let base = (page_of(address) * 0x1000) as u32;
        lemma_place(word, address, mem8);
        assert(guest_mem::frame_of(word, page_of(address), mem8) == base);
    }
}

/// What the question to the store map leaves.
pub proof fn evaluate_refused(c: Ctx, a: usize, bits: BitSize, s: Words)
    ensures
        wasm_run::evaluates(
            c.store_refused(a, bits),
            s,
            wasm_run::truth(!is_taken(c, s.locals[a], bits, s)),
            s,
        ),
{
    let address = s.locals[a];
    let b = store_byte(c, address, s);
    let page = wasm_run::binary(Bin::ShrU, address, 12);
    let last = (0x1000 - bits.size()) as i32;
    let x = E::L(a).binc(Bin::ShrU, 12);
    let y = x.load(Width::W8, c.st.env.write_map);
    let refused = wasm_run::truth(b != 1);
    let low = E::L(a).and(0xfff);
    let outside = wasm_run::truth(!stays_inside(address, bits));
    lemma_address(address);
    bits_of_truth();
    wasm_run::evaluate_local(a, s);
    wasm_run::evaluate_binc(Bin::ShrU, E::L(a), 12, s, address, s);
    wasm_run::evaluate_load(x, Width::W8, c.st.env.write_map, s, page, s);
    wasm_run::evaluate_binc(Bin::Ne, y, 1, s, b, s);
    wasm_run::evaluate_binc(Bin::And, E::L(a), 0xfff, s, address, s);
    wasm_run::evaluate_binc(Bin::GtS, low, last, s, address & 0xfff, s);
    assert(wasm_run::binary(Bin::GtS, address & 0xfff, last) == outside);
    wasm_run::evaluate_bin(
        Bin::Or,
        y.binc(Bin::Ne, 1),
        low.binc(Bin::GtS, last),
        s,
        refused,
        s,
        outside,
        s,
    );
}

/// The code that asks the store map goes to the helper exactly where the page does not take
/// stores or the store reaches into the next page; a page with compiled code or a watch takes
/// none.
pub proof fn law_stores_are_checked(c: Ctx, a: usize, bits: BitSize, b: u8, s: Words)
    requires
        store_byte(c, s.locals[a], s) == b,
    ensures
        ({
            let taken = b == 1 && stays_inside(s.locals[a], bits);
            &&& wasm_run::leads(
                c.e.code,
                c.val(c.store_refused(a, bits)).e.code,
                s,
                s.push(wasm_run::truth(!taken)),
            )
            &&& taken ==> b & write_map::FASTMEM_WRITE_HAS_CODE == 0 && b
                & write_map::FASTMEM_WRITE_WATCH == 0
        }),
{
    let v = wasm_run::truth(!(b == 1 && stays_inside(s.locals[a], bits)));
    write_map::law_code_and_watches_veto(b);
    evaluate_refused(c, a, bits, s);
    wasm_run::lemma_val(c.e, c.store_refused(a, bits), s, v, s);
    assert(s.on(s.stack.push(v)) == s.push(v));
}

/// What a page gives where its permissions are enough for a read.
proof fn lemma_granted(page: u32, word: i32, mem8: u32, mask: u8)
    requires
        mask == perm_map::PERM_READ_MASK_CPL0 || mask == perm_map::PERM_READ_MASK_CPL3,
        perm_map::permissions(page, word, mem8) & mask == mask,
    ensures
        word & TLB_VALID != 0,
        word & TLB_IN_MAPPED_RANGE == 0,
        mask == perm_map::PERM_READ_MASK_CPL3 ==> word & TLB_NO_USER == 0,
        perm_map::is_identity(page, word, mem8),
{
    let code = perm_map::part(word & crate::cpu_state::TLB_HAS_CODE != 0, 16) as u8;
    let identity = perm_map::part(perm_map::is_identity(page, word, mem8), 8) as u8;
    let writable = perm_map::part(word & crate::cpu_state::TLB_READONLY == 0, 2) as u8;
    let user = perm_map::part(word & TLB_NO_USER == 0, 4) as u8;
    let all = (code + 1 + identity + writable + user) as u8;
    bits_of_permissions(code, identity, writable, user, all);
    bits_of_permissions(0, 0, 0, 0, 1);
}

} // verus!
