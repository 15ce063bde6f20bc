//! Copies, fills and searches over spans of guest memory that a probe has proved to be plain.
//!
//! Where the probe fails the request is declined and nothing has been written; the caller then
//! goes through the ordinary accessors.
use vstd::prelude::*;
use crate::guest_mem;
use crate::guest_mem::{copied_bytes, overwrite, GuestMemory};

verus! {

pub const STAT_COPY: usize = 0;
pub const STAT_FILL: usize = 1;
pub const STAT_COMPARE: usize = 2;
pub const STAT_MOVE: usize = 3;
pub const STAT_FIND: usize = 4;
pub const STAT_REJECTED: usize = 5;

/// The switch and the counters. Every request is counted once: by what it did, or as rejected.
pub struct BulkMemory {
    pub enabled: bool,
    pub stats: Vec<u32>,
}

/// The counters with one more event.
pub open spec fn counted(stats: Seq<u32>, index: int) -> Seq<u32> {
    stats.update(index, stats[index].wrapping_add(1))
}

impl BulkMemory {
    pub open spec fn wf(self) -> bool {
        self.stats@.len() == 6
    }

    /// The switch is the same, and one more event is counted.
    pub open spec fn noted(self, before: BulkMemory, index: usize) -> bool {
        self.enabled == before.enabled && self.stats@ == counted(before.stats@, index as int)
    }

    /// Requests can be answered.
    pub open spec fn sees(self, m: GuestMemory, start: u32, len: u32, write: bool) -> bool {
        self.enabled && m.resident(start, len, write)
    }

    pub fn new() -> (b: BulkMemory)
        ensures
            b.wf(),
            b.enabled,
            b.stats@ == seq![0u32, 0, 0, 0, 0, 0],
    {
        let stats: Vec<u32> = vec![0, 0, 0, 0, 0, 0];
        assert(stats@ =~= seq![0u32, 0, 0, 0, 0, 0]);
        BulkMemory { enabled: true, stats }
    }

    fn count(&mut self, index: usize)
        requires
            old(self).wf(),
            index < 6,
        ensures
            final(self).wf(),
            final(self).noted(*old(self), index),
    {
        let n: u32 = self.stats[index];
        self.stats.set(index, n.wrapping_add(1));
    }

    /// Whether a span is plain memory that these functions may access.
    pub fn resident_span(&self, m: &GuestMemory, start: u32, len: u32, write: bool) -> (r: bool)
        requires
            m.wf(),
        ensures
            r == self.sees(*m, start, len, write),
    {
        self.enabled && m.resident_span(start, len, write)
    }
}

pub fn get_bulk_memory_abi() -> (r: u32)
    ensures
        r == 1,
{
    1
}

pub fn set_bulk_memory_enabled(b: &mut BulkMemory, enabled: u32)
    ensures
        *final(b) == (BulkMemory { enabled: enabled != 0, ..*old(b) }),
{
    b.enabled = enabled != 0;
}

/// The two spans share a byte.
pub open spec fn overlap(dst: u32, src: u32, len: u32) -> bool {
    dst < src + len && src < dst + len
}

/// A copy can be made. Only a move takes spans that overlap.
pub open spec fn can_copy(
    b: BulkMemory,
    m: GuestMemory,
    dst: u32,
    src: u32,
    len: u32,
    overlapping: bool,
) -> bool {
    &&& b.sees(m, src, len, false)
    &&& b.sees(m, dst, len, true)
    &&& overlapping || !overlap(dst, src, len)
}

/// Copies a span. Returns whether it did.
pub fn try_copy(
    b: &mut BulkMemory,
    m: &mut GuestMemory,
    dst: u32,
    src: u32,
    len: u32,
    overlapping: bool,
) -> (r: bool)
    requires
        old(b).wf(),
        old(m).wf(),
    ensures
        final(b).wf(),
        final(m).wf(),
        final(m).same_map(*old(m)),
        r == can_copy(*old(b), *old(m), dst, src, len, overlapping),
        final(m).ram@ == (if r {
            guest_mem::overwritten(
                old(m).ram@,
                dst as int,
                old(m).ram@.subrange(src as int, src + len),
            )
        } else {
            old(m).ram@
        }),
        final(b).noted(
            *old(b),
            if !r {
                STAT_REJECTED
            } else if overlapping {
                STAT_MOVE
            } else {
                STAT_COPY
            },
        ),
{
    if !b.resident_span(m, src, len, false) || !b.resident_span(m, dst, len, true) {
        b.count(STAT_REJECTED);
        return false;
    }
    if !overlapping && (dst as u64) < src as u64 + len as u64 && (src as u64) < dst as u64
        + len as u64 {
        b.count(STAT_REJECTED);
        return false;
    }
    let bytes: Vec<u8> = copied_bytes(&m.ram, src as usize, len as usize);
    overwrite(&mut m.ram, dst as usize, &bytes);
    b.count(
        if overlapping {
            STAT_MOVE
        } else {
            STAT_COPY
        },
    );
    true
}

/// Fills a span with one byte. Returns whether it did.
pub fn try_fill(b: &mut BulkMemory, m: &mut GuestMemory, dst: u32, value: u8, len: u32) -> (r: bool)
    requires
        old(b).wf(),
        old(m).wf(),
    ensures
        final(b).wf(),
        final(m).wf(),
        final(m).same_map(*old(m)),
        r == old(b).sees(*old(m), dst, len, true),
        final(m).ram@ == (if r {
            guest_mem::overwritten(
                old(m).ram@,
                dst as int,
                Seq::new(len as nat, |i: int| value),
            )
        } else {
            old(m).ram@
        }),
        final(b).noted(
            *old(b),
            if r {
                STAT_FILL
            } else {
                STAT_REJECTED
            },
        ),
{
    if !b.resident_span(m, dst, len, true) {
        b.count(STAT_REJECTED);
        return false;
    }
    let size: usize = m.ram.len();
    let at: usize = dst as usize;
    let mut i: usize = 0;
    while i < len as usize
        invariant
            i <= len,
            at == dst,
            at + len <= size == m.ram@.len(),
            m.ram@.len() == old(m).ram@.len(),
            m.same_map(*old(m)),
            forall|j: int|
                0 <= j < m.ram@.len() ==> #[trigger] m.ram@[j] == (if at <= j < at + i {
                    value
                } else {
                    old(m).ram@[j]
                }),
        decreases len - i,
    {
        m.ram.set(at + i, value);
        i = i + 1;
    }
    assert(m.ram@ =~= guest_mem::overwritten(
        old(m).ram@,
        dst as int,
        Seq::new(len as nat, |i: int| value),
    ));
    b.count(STAT_FILL);
    true
}

/// The first difference between two runs of `n` bytes, from the `i`-th on; 0 where there is
/// none.
pub open spec fn difference(ram: Seq<u8>, a: int, b: int, i: int, n: int) -> int
    decreases n - i,
{
    if i >= n {
        0
    } else if ram[a + i] != ram[b + i] {
        ram[a + i] - ram[b + i]
    } else {
        difference(ram, a, b, i + 1, n)
    }
}

/// The bytes from an address to the end of its page.
pub open spec fn to_page_end(a: u32) -> u32 {
    (0x1000 - a % 0x1000) as u32
}

pub open spec fn smaller(a: u32, b: u32) -> u32 {
    if a < b {
        a
    } else {
        b
    }
}

fn page_rest(a: u32) -> (r: u32)
    ensures
        r == to_page_end(a),
        0 < r <= 0x1000,
{
    0x1000 - a % 0x1000
}

fn min_of(a: u32, b: u32) -> (r: u32)
    ensures
        r == smaller(a, b),
{
    if a < b {
        a
    } else {
        b
    }
}

/// The comparison from an offset on. Each piece within a page is probed before it is read, so
/// that an early difference never depends on a later page.
pub open spec fn compared(
    bulk: BulkMemory,
    m: GuestMemory,
    a: u32,
    b: u32,
    len: u32,
    offset: u32,
) -> Option<int>
    decreases len - offset,
{
    if offset >= len {
        Some(0)
    } else if a + offset > u32::MAX || b + offset > u32::MAX {
        None
    } else {
        let left = (a + offset) as u32;
        let right = (b + offset) as u32;
        let chunk = smaller(
            smaller((len - offset) as u32, to_page_end(left)),
            to_page_end(right),
        );
        if !bulk.sees(m, left, chunk, false) || !bulk.sees(m, right, chunk, false) {
            None
        } else {
            let d = difference(m.ram@, left as int, right as int, 0, chunk as int);
            if d != 0 {
                Some(d)
            } else {
                compared(bulk, m, a, b, len, (offset + chunk) as u32)
            }
        }
    }
}

fn first_difference(ram: &Vec<u8>, a: usize, b: usize, n: usize) -> (r: i32)
    requires
        a + n <= ram@.len(),
        b + n <= ram@.len(),
    ensures
        r == difference(ram@, a as int, b as int, 0, n as int),
{
    let size: usize = ram.len();
    let mut i: usize = 0;
    while i < n
        invariant
            i <= n,
            a + n <= size == ram@.len(),
            b + n <= size,
            difference(ram@, a as int, b as int, 0, n as int) == difference(
                ram@,
                a as int,
                b as int,
                i as int,
                n as int,
            ),
        decreases n - i,
    {
        let d: i32 = ram[a + i] as i32 - ram[b + i] as i32;
        if d != 0 {
            return d;
        }
        i = i + 1;
    }
    0
}

/// The difference of the first bytes that differ, or 0.
pub fn try_compare(bulk: &mut BulkMemory, m: &GuestMemory, a: u32, b: u32, len: u32) -> (r: Option<
    i32,
>)
    requires
        old(bulk).wf(),
        m.wf(),
    ensures
        final(bulk).wf(),
        match r {
            Some(d) => compared(*old(bulk), *m, a, b, len, 0) == Some(d as int),
            None => compared(*old(bulk), *m, a, b, len, 0) is None,
        },
        final(bulk).noted(
            *old(bulk),
            if r is Some {
                STAT_COMPARE
            } else {
                STAT_REJECTED
            },
        ),
{
    let mut offset: u32 = 0;
    while offset < len
        invariant
            offset <= len,
            bulk.wf(),
            *bulk == *old(bulk),
            m.wf(),
            compared(*old(bulk), *m, a, b, len, 0) == compared(*old(bulk), *m, a, b, len, offset),
        decreases len - offset,
    {
        let left: u32 = match a.checked_add(offset) {
            Some(left) => left,
            None => {
                bulk.count(STAT_REJECTED);
                return None;
            },
        };
        let right: u32 = match b.checked_add(offset) {
            Some(right) => right,
            None => {
                bulk.count(STAT_REJECTED);
                return None;
            },
        };
        let chunk: u32 = min_of(min_of(len - offset, page_rest(left)), page_rest(right));
        if !bulk.resident_span(m, left, chunk, false) || !bulk.resident_span(m, right, chunk, false) {
            bulk.count(STAT_REJECTED);
            return None;
        }
        let d: i32 = first_difference(&m.ram, left as usize, right as usize, chunk as usize);
        if d != 0 {
            bulk.count(STAT_COMPARE);
            return Some(d);
        }
        offset = offset + chunk;
    }
    bulk.count(STAT_COMPARE);
    Some(0)
}

/// The place of the first `byte` among `n` bytes, from the `i`-th on.
pub open spec fn place_of(ram: Seq<u8>, at: int, byte: u8, i: int, n: int) -> Option<int>
    decreases n - i,
{
    if i >= n {
        None
    } else if ram[at + i] == byte {
        Some(i)
    } else {
        place_of(ram, at, byte, i + 1, n)
    }
}

/// The search from an offset on: the address of the byte, or 0.
pub open spec fn found(
    bulk: BulkMemory,
    m: GuestMemory,
    src: u32,
    byte: u8,
    len: u32,
    offset: u32,
) -> Option<int>
    decreases len - offset,
{
    if offset >= len {
        Some(0)
    } else if src + offset > u32::MAX {
        None
    } else {
        let start = (src + offset) as u32;
        let chunk = smaller((len - offset) as u32, to_page_end(start));
        if !bulk.sees(m, start, chunk, false) {
            None
        } else {
            match place_of(m.ram@, start as int, byte, 0, chunk as int) {
                Some(i) => Some(start + i),
                None => found(bulk, m, src, byte, len, (offset + chunk) as u32),
            }
        }
    }
}

fn find_place(ram: &Vec<u8>, at: usize, byte: u8, n: usize) -> (r: Option<usize>)
    requires
        at + n <= ram@.len(),
    ensures
        match r {
            Some(i) => place_of(ram@, at as int, byte, 0, n as int) == Some(i as int) && i < n,
            None => place_of(ram@, at as int, byte, 0, n as int) is None,
        },
{
    let size: usize = ram.len();
    let mut i: usize = 0;
    while i < n
        invariant
            i <= n,
            at + n <= size == ram@.len(),
            place_of(ram@, at as int, byte, 0, n as int) == place_of(
                ram@,
                at as int,
                byte,
                i as int,
                n as int,
            ),
        decreases n - i,
    {
        if ram[at + i] == byte {
            return Some(i);
        }
        i = i + 1;
    }
    None
}

/// The address of the first `byte`, or 0 where there is none.
pub fn try_find(bulk: &mut BulkMemory, m: &GuestMemory, src: u32, byte: u8, len: u32) -> (r: Option<
    u32,
>)
    requires
        old(bulk).wf(),
        m.wf(),
    ensures
        final(bulk).wf(),
        !old(bulk).enabled ==> r is None,
        old(bulk).enabled ==> (match r {
            Some(at) => found(*old(bulk), *m, src, byte, len, 0) == Some(at as int),
            None => found(*old(bulk), *m, src, byte, len, 0) is None,
        }),
        final(bulk).noted(
            *old(bulk),
            if r is Some {
                STAT_FIND
            } else {
                STAT_REJECTED
            },
        ),
{
    if !bulk.enabled {
        bulk.count(STAT_REJECTED);
        return None;
    }
    let mut offset: u32 = 0;
    while offset < len
        invariant
            offset <= len,
            bulk.wf(),
            *bulk == *old(bulk),
            bulk.enabled,
            m.wf(),
            found(*old(bulk), *m, src, byte, len, 0) == found(
                *old(bulk),
                *m,
                src,
                byte,
                len,
                offset,
            ),
        decreases len - offset,
    {
        let start: u32 = match src.checked_add(offset) {
            Some(start) => start,
            None => {
                bulk.count(STAT_REJECTED);
                return None;
            },
        };
        let chunk: u32 = min_of(len - offset, page_rest(start));
        if !bulk.resident_span(m, start, chunk, false) {
            bulk.count(STAT_REJECTED);
            return None;
        }
        if let Some(i) = find_place(&m.ram, start as usize, byte, chunk as usize) {
            bulk.count(STAT_FIND);
            return Some(start + i as u32);
        }
        offset = offset + chunk;
    }
    bulk.count(STAT_FIND);
    Some(0)
}

/// Plain memory is never device memory, and for a write never a page with compiled code.
pub proof fn law_plain_pages(m: GuestMemory, page: u32, write: bool)
    requires
        m.plain_page(page, write),
    ensures
        m.entry(page) & crate::cpu_state::TLB_IN_MAPPED_RANGE == 0,
        write ==> m.entry(page) & crate::cpu_state::TLB_HAS_CODE == 0,
        write ==> m.entry(page) & crate::cpu_state::TLB_READONLY == 0,
{
    let e = m.entry(page);
    let user = if m.cpl3 {
        4i32
    } else {
        0i32
    };
    if write {
        assert(e & 8 == 0 && e & 32 == 0 && e & 2 == 0) by (bit_vector)
            requires
                e & (1 | (8 | user | (2 | 32))) == 1,
                user == 0 || user == 4,
        ;
    } else {
        assert(e & 8 == 0) by (bit_vector)
            requires
                e & (1 | (8 | user | 0)) == 1,
                user == 0 || user == 4,
        ;
    }
}

} // verus!
