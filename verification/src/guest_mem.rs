//! Guest memory as the CPU sees it: physical bytes behind translation entries, and the probe
//! that proves a span of it to be plain memory.
use vstd::prelude::*;
use crate::cpu_state::{
    PAGE_MASK, TLB_HAS_CODE, TLB_IN_MAPPED_RANGE, TLB_NO_USER, TLB_READONLY, TLB_VALID,
};
use std::collections::HashMap;

verus! {

broadcast use vstd::std_specs::hash::group_hash_axioms;

/// Memory below this address is left to the ordinary accessors.
pub const LOW_MEMORY: u32 = 0x10_0000;

/// Guest memory.
pub struct GuestMemory {
    /// Physical memory.
    pub ram: Vec<u8>,
    /// The translation entries by virtual page; 0 for a page that is not here. An entry is the
    /// place of the page's bytes, in linear memory, combined with the page by exclusive or,
    /// with flags in its low bits.
    pub tlb: HashMap<u32, i32>,
    /// Where physical memory starts in linear memory.
    pub mem8: u32,
    /// The CPU runs unprivileged code.
    pub cpl3: bool,
    /// Some write is watched.
    pub write_watch: bool,
    /// Physical addresses that belong to devices.
    pub device_lo: u32,
    pub device_hi: u32,
}

impl GuestMemory {
    pub open spec fn wf(self) -> bool {
        self.ram@.len() <= u32::MAX
    }

    /// The translation entry of a page.
    pub open spec fn entry(self, page: u32) -> i32 {
        if self.tlb@.contains_key(page) {
            self.tlb@[page]
        } else {
            0
        }
    }

    /// The flags that must not be set for an access.
    pub open spec fn rejected(self, write: bool) -> i32 {
        TLB_IN_MAPPED_RANGE | (if self.cpl3 {
            TLB_NO_USER
        } else {
            0
        }) | (if write {
            TLB_READONLY | TLB_HAS_CODE
        } else {
            0
        })
    }

    /// The page can be accessed, and its bytes stand at its own address.
    pub open spec fn plain_page(self, page: u32, write: bool) -> bool {
        let entry = self.entry(page);
        &&& entry & (TLB_VALID | self.rejected(write)) == TLB_VALID
        &&& frame_of(entry, page, self.mem8) == (page * 0x1000) as u32
    }

    /// Every page of the span is plain memory, above low memory, that may be accessed.
    pub open spec fn resident(self, start: u32, len: u32, write: bool) -> bool {
        &&& len > 0
        &&& start >= LOW_MEMORY
        &&& start + len <= self.ram@.len()
        &&& !(write && self.write_watch)
        &&& forall|page: u32|
            start / 0x1000 <= page <= (start + len - 1) / 0x1000 ==> #[trigger] self.plain_page(
                page,
                write,
            )
    }

    /// Physical addresses that are no memory.
    pub open spec fn device(self, p: u32) -> bool {
        self.device_lo <= p < self.device_hi || p >= self.ram@.len()
    }

    /// Everything but the bytes is the same.
    pub open spec fn same_map(self, other: GuestMemory) -> bool {
        &&& self.tlb@ == other.tlb@
        &&& self.mem8 == other.mem8
        &&& self.cpl3 == other.cpl3
        &&& self.write_watch == other.write_watch
        &&& self.device_lo == other.device_lo
        &&& self.device_hi == other.device_hi
    }
}

/// The physical address of a page, by its entry.
pub open spec fn frame_of(entry: i32, page: u32, mem8: u32) -> u32 {
    ((entry & PAGE_MASK) as u32 ^ (page * 0x1000) as u32).wrapping_sub(mem8)
}

/// The physical address of a page, by its entry.
pub fn decode_frame(entry: i32, page: u32, mem8: u32) -> (r: u32)
    requires
        page < 0x10_0000,
    ensures
        r == frame_of(entry, page, mem8),
{
    ((entry & PAGE_MASK) as u32 ^ (page * 0x1000)).wrapping_sub(mem8)
}

impl GuestMemory {
    /// The translation entry of a page.
    pub fn tlb_entry(&self, page: u32) -> (r: i32)
        ensures
            r == self.entry(page),
    {
        match self.tlb.get(&page) {
            Some(e) => *e,
            None => 0,
        }
    }

    /// Whether every page of the span is plain memory that may be accessed. Nothing is
    /// translated anew.
    pub fn resident_span(&self, start: u32, len: u32, write: bool) -> (r: bool)
        requires
            self.wf(),
        ensures
            r == self.resident(start, len, write),
    {
        if len == 0 || start < LOW_MEMORY {
            return false;
        }
        let end: u32 = match start.checked_add(len - 1) {
            Some(end) => end,
            None => return false,
        };
        if end as usize >= self.ram.len() {
            return false;
        }
        if write && self.write_watch {
            return false;
        }
        let reject: i32 = TLB_IN_MAPPED_RANGE | (if self.cpl3 {
            TLB_NO_USER
        } else {
            0
        }) | (if write {
            TLB_READONLY | TLB_HAS_CODE
        } else {
            0
        });
        let last: u32 = end / 0x1000;
        let mut page: u32 = start / 0x1000;
        while page <= last
            invariant
                start / 0x1000 <= page <= last + 1,
                last == (start + len - 1) / 0x1000,
                last < 0x10_0000,
                reject == self.rejected(write),
                forall|p: u32| start / 0x1000 <= p < page ==> #[trigger] self.plain_page(p, write),
            decreases last + 1 - page,
        {
            let entry: i32 = self.tlb_entry(page);
            if entry & (TLB_VALID | reject) != TLB_VALID || decode_frame(entry, page, self.mem8)
                != page * 0x1000 {
                assert(!self.plain_page(page, write));
                return false;
            }
            assert(self.plain_page(page, write));
            page = page + 1;
        }
        true
    }

    /// Whether a physical address is no memory.
    pub fn in_mapped_range(&self, p: u32) -> (r: bool)
        ensures
            r == self.device(p),
    {
        (self.device_lo <= p && p < self.device_hi) || p as usize >= self.ram.len()
    }
}

/// The bytes with `with` in place of those from `at` on.
pub open spec fn overwritten(ram: Seq<u8>, at: int, with: Seq<u8>) -> Seq<u8> {
    Seq::new(
        ram.len(),
        |i: int|
            if at <= i < at + with.len() {
                with[i - at]
            } else {
                ram[i]
            },
    )
}

/// Replaces bytes.
pub fn overwrite(ram: &mut Vec<u8>, at: usize, with: &Vec<u8>)
    requires
        at + with@.len() <= old(ram)@.len(),
    ensures
        final(ram)@ == overwritten(old(ram)@, at as int, with@),
{
    let size: usize = ram.len();
    let n: usize = with.len();
    let mut i: usize = 0;
    while i < n
        invariant
            i <= n,
            n == with@.len(),
            at + n <= size == ram@.len(),
            ram@.len() == old(ram)@.len(),
            forall|j: int|
                0 <= j < ram@.len() ==> #[trigger] ram@[j] == (if at <= j < at + i {
                    with@[j - at]
                } else {
                    old(ram)@[j]
                }),
        decreases n - i,
    {
        ram.set(at + i, with[i]);
        i = i + 1;
    }
    assert(ram@ =~= overwritten(old(ram)@, at as int, with@));
}

/// A run of bytes.
pub fn copied_bytes(ram: &Vec<u8>, at: usize, n: usize) -> (r: Vec<u8>)
    requires
        at + n <= ram@.len(),
    ensures
        r@ == ram@.subrange(at as int, at + n),
{
    let size: usize = ram.len();
    let mut r: Vec<u8> = Vec::new();
    let mut i: usize = 0;
    while i < n
        invariant
            i <= n,
            at + n <= size == ram@.len(),
            r@ == ram@.subrange(at as int, at + i),
        decreases n - i,
    {
        r.push(ram[at + i]);
        i = i + 1;
        assert(r@ =~= ram@.subrange(at as int, at + i));
    }
    r
}

} // verus!
