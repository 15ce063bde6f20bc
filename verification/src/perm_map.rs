//! Permissions of virtual pages, one byte each: a mirror of the translation entries that
//! compiled reads consult.
use vstd::prelude::*;
use crate::cpu_state::{
    PAGE_MASK, TLB_HAS_CODE, TLB_IN_MAPPED_RANGE, TLB_NO_USER, TLB_READONLY, TLB_VALID,
};

verus! {

/// One byte for each page of 4 GiB.
pub const PERM_MAP_PAGES: usize = 0x10_0000;

/// The page is translated, to memory.
pub const PERM_READABLE: u8 = 1;
/// It may be written.
pub const PERM_WRITABLE: u8 = 2;
/// Unprivileged code may access it.
pub const PERM_USER: u8 = 4;
/// Its physical address is its virtual one.
pub const PERM_IDENTITY: u8 = 8;
/// It holds compiled code.
pub const PERM_HAS_CODE: u8 = 16;

/// What a read needs, by unprivileged code and by privileged code.
pub const PERM_READ_MASK_CPL3: u8 = 13;
pub const PERM_READ_MASK_CPL0: u8 = 9;

pub open spec fn part(on: bool, bit: u8) -> int {
    if on {
        bit as int
    } else {
        0
    }
}

/// The page stands at its own address.
pub open spec fn is_identity(page: u32, entry: i32, mem8: u32) -> bool {
    ((entry & PAGE_MASK) as u32 ^ (page * 0x1000) as u32) == mem8.wrapping_add(
        (page * 0x1000) as u32,
    )
}

/// The permissions that a translation entry gives.
pub open spec fn permissions(page: u32, entry: i32, mem8: u32) -> u8 {
    let code = part(entry & TLB_HAS_CODE != 0, PERM_HAS_CODE);
    if entry == 0 {
        0
    } else if entry & TLB_VALID == 0 || entry & TLB_IN_MAPPED_RANGE != 0 {
        code as u8
    } else {
        (code + PERM_READABLE + part(is_identity(page, entry, mem8), PERM_IDENTITY) + part(
            entry & TLB_READONLY == 0,
            PERM_WRITABLE,
        ) + part(entry & TLB_NO_USER == 0, PERM_USER)) as u8
    }
}

/// The permissions that a translation entry gives.
pub fn perm_byte_of(page: u32, entry: i32, mem8: u32) -> (r: u8)
    requires
        page < PERM_MAP_PAGES,
    ensures
        r == permissions(page, entry, mem8),
{
    if entry == 0 {
        return 0;
    }
    let mut b: u8 = 0;
    if entry & TLB_HAS_CODE != 0 {
        b = PERM_HAS_CODE;
    }
    if entry & TLB_VALID == 0 || entry & TLB_IN_MAPPED_RANGE != 0 {
        return b;
    }
    b = b + PERM_READABLE;
    if ((entry & PAGE_MASK) as u32 ^ (page * 0x1000)) == mem8.wrapping_add(page * 0x1000) {
        b = b + PERM_IDENTITY;
    }
    if entry & TLB_READONLY == 0 {
        b = b + PERM_WRITABLE;
    }
    if entry & TLB_NO_USER == 0 {
        b = b + PERM_USER;
    }
    b
}

/// The map, with the switch that lets compiled reads use it.
pub struct PermMap {
    pub bytes: Vec<u8>,
    pub reads: bool,
}

/// The entry of a page.
pub open spec fn entry_of(tlb: Seq<i32>, page: int) -> i32 {
    if page < tlb.len() {
        tlb[page]
    } else {
        0
    }
}

impl PermMap {
    pub open spec fn wf(self) -> bool {
        self.bytes@.len() == PERM_MAP_PAGES
    }

    /// Every byte is what its entry gives.
    pub open spec fn mirrors(self, tlb: Seq<i32>, mem8: u32) -> bool {
        forall|page: int|
            0 <= page < PERM_MAP_PAGES ==> #[trigger] self.bytes@[page] == permissions(
                page as u32,
                entry_of(tlb, page),
                mem8,
            )
    }

    /// Bytes, among the first `n`, that are not what their entries give.
    pub open spec fn mismatches(self, tlb: Seq<i32>, mem8: u32, n: nat) -> nat
        decreases n,
    {
        if n == 0 {
            0
        } else {
            self.mismatches(tlb, mem8, (n - 1) as nat) + (if self.bytes@[n - 1] != permissions(
                (n - 1) as u32,
                entry_of(tlb, n - 1),
                mem8,
            ) {
                1nat
            } else {
                0nat
            })
        }
    }

    /// No page is translated.
    pub fn new() -> (m: PermMap)
        ensures
            m.wf(),
            !m.reads,
            m.bytes@ == Seq::new(PERM_MAP_PAGES as nat, |i: int| 0u8),
    {
        let mut bytes: Vec<u8> = Vec::new();
        let mut i: usize = 0;
        while i < PERM_MAP_PAGES
            invariant
                i <= PERM_MAP_PAGES,
                bytes@ == Seq::new(i as nat, |i: int| 0u8),
            decreases PERM_MAP_PAGES - i,
        {
            bytes.push(0);
            i = i + 1;
            assert(bytes@ =~= Seq::new(i as nat, |i: int| 0u8));
        }
        PermMap { bytes, reads: false }
    }

    /// Follows a new translation entry.
    pub fn follow(&mut self, page: u32, entry: i32, mem8: u32)
        requires
            old(self).wf(),
            page < PERM_MAP_PAGES,
        ensures
            final(self).wf(),
            final(self).reads == old(self).reads,
            final(self).bytes@ == old(self).bytes@.update(
                page as int,
                permissions(page, entry, mem8),
            ),
    {
        self.bytes.set(page as usize, perm_byte_of(page, entry, mem8));
    }
}

pub fn perm_map_reads_enabled(m: &PermMap) -> (r: bool)
    ensures
        r == m.reads,
{
    m.reads
}

pub fn set_perm_map_reads(m: &mut PermMap, enabled: u32)
    ensures
        *final(m) == (PermMap { reads: enabled != 0, ..*old(m) }),
{
    m.reads = enabled != 0;
}

pub fn get_perm_map_reads(m: &PermMap) -> (r: u32)
    ensures
        r == (if m.reads {
            1u32
        } else {
            0
        }),
{
    if m.reads {
        1
    } else {
        0
    }
}

/// Counts the bytes that are not what the entries give.
pub fn perm_map_rebuild_and_diff(m: &PermMap, tlb: &Vec<i32>, mem8: u32) -> (r: u32)
    requires
        m.wf(),
    ensures
        r == m.mismatches(tlb@, mem8, PERM_MAP_PAGES as nat),
{
    let known: usize = tlb.len();
    let mut mismatches: u32 = 0;
    let mut page: usize = 0;
    while page < PERM_MAP_PAGES
        invariant
            page <= PERM_MAP_PAGES,
            known == tlb@.len(),
            m.wf(),
            mismatches == m.mismatches(tlb@, mem8, page as nat),
            mismatches <= page,
        decreases PERM_MAP_PAGES - page,
    {
        let entry: i32 = if page < known {
            tlb[page]
        } else {
            0
        };
        if m.bytes[page] != perm_byte_of(page as u32, entry, mem8) {
            mismatches = mismatches + 1;
        }
        page = page + 1;
    }
    mismatches
}

/// The byte of a page; 0 for a page that the map does not hold.
pub fn perm_map_byte(m: &PermMap, page: u32) -> (r: u32)
    requires
        m.wf(),
    ensures
        r == (if page < PERM_MAP_PAGES {
            m.bytes@[page as int] as u32
        } else {
            0
        }),
{
    if (page as usize) < PERM_MAP_PAGES {
        m.bytes[page as usize] as u32
    } else {
        0
    }
}

/// A map that mirrors the entries still does after it has followed one more.
pub proof fn law_following_keeps_the_mirror(
    m: PermMap,
    after: PermMap,
    tlb: Seq<i32>,
    page: u32,
    entry: i32,
    mem8: u32,
)
    requires
        m.wf(),
        m.mirrors(tlb, mem8),
        page < tlb.len() <= PERM_MAP_PAGES,
        after.bytes@ == m.bytes@.update(page as int, permissions(page, entry, mem8)),
    ensures
        after.mirrors(tlb.update(page as int, entry), mem8),
{
    let new_tlb = tlb.update(page as int, entry);
    assert forall|p: int| 0 <= p < PERM_MAP_PAGES implies #[trigger] after.bytes@[p] == permissions(
        p as u32,
        entry_of(new_tlb, p),
        mem8,
    ) by {
        if p != page {
            assert(m.bytes@[p] == permissions(p as u32, entry_of(tlb, p), mem8));
        }
    }
}

/// A map mirrors the entries exactly where the comparison counts nothing.
pub proof fn law_no_mismatch_is_a_mirror(m: PermMap, tlb: Seq<i32>, mem8: u32)
    requires
        m.wf(),
    ensures
        m.mirrors(tlb, mem8) <==> m.mismatches(tlb, mem8, PERM_MAP_PAGES as nat) == 0,
{
    no_mismatch_below(m, tlb, mem8, PERM_MAP_PAGES as nat);
}

proof fn no_mismatch_below(m: PermMap, tlb: Seq<i32>, mem8: u32, n: nat)
    requires
        n <= PERM_MAP_PAGES,
    ensures
        m.mismatches(tlb, mem8, n) == 0 <==> forall|page: int|
            0 <= page < n ==> #[trigger] m.bytes@[page] == permissions(
                page as u32,
                entry_of(tlb, page),
                mem8,
            ),
    decreases n,
{
    if n > 0 {
        no_mismatch_below(m, tlb, mem8, (n - 1) as nat);
    }
}

} // verus!
