//! The map that the store path of compiled code consults: one byte for each page of the
//! address space. A store goes straight to memory where the byte is exactly 1.
use vstd::prelude::*;
use crate::jit_config::{FASTMEM_GUARD_BASE, FASTMEM_GUARD_SIZE, FASTMEM_LOW_MEM_END};

verus! {

/// One byte for each page of 4 GiB.
pub const FASTMEM_WRITE_MAP_LEN: usize = 0x10_0000;

/// The page is plain memory that may be written.
pub const FASTMEM_WRITE_BASE_WRITABLE: u8 = 1;

/// The page holds compiled code.
pub const FASTMEM_WRITE_HAS_CODE: u8 = 2;

/// Writes to the page are watched.
pub const FASTMEM_WRITE_WATCH: u8 = 4;

/// All bits but the first, second and third.
pub const NOT_BASE_WRITABLE: u8 = 0xFE;
pub const NOT_HAS_CODE: u8 = 0xFD;
pub const NOT_WATCH: u8 = 0xFB;

/// The map.
pub struct WriteMap {
    pub map: Vec<u8>,
    /// The highest page that was ever made writable.
    pub max_page: u32,
    /// Pages that are never made writable; none where the end is zero.
    pub exclude_lo: u32,
    pub exclude_hi: u32,
    /// How often the store path was compiled.
    pub speculated_stores: u32,
}

/// Pages of plain memory: above low memory, outside the guard band, below the end of memory.
pub open spec fn in_envelope(page: int, ram: u32) -> bool {
    ||| FASTMEM_LOW_MEM_END / 0x1000 <= page < (if FASTMEM_GUARD_BASE < ram {
        FASTMEM_GUARD_BASE
    } else {
        ram
    }) / 0x1000
    ||| (FASTMEM_GUARD_BASE + FASTMEM_GUARD_SIZE) / 0x1000 <= page < ram / 0x1000
}

impl WriteMap {
    pub open spec fn wf(self) -> bool {
        self.map@.len() == FASTMEM_WRITE_MAP_LEN
    }

    pub open spec fn excluded(self, page: int) -> bool {
        self.exclude_hi != 0 && self.exclude_lo <= page < self.exclude_hi
    }

    /// The page may be made writable.
    pub open spec fn allows(self, page: int, ram: u32) -> bool {
        in_envelope(page, ram) && !self.excluded(page)
    }

    /// Compiled stores to the page go straight to memory.
    pub open spec fn accepts(self, page: int) -> bool {
        self.map@[page] == 1
    }

    /// Everything but the map and the highest page is the same.
    pub open spec fn same_rest(self, other: WriteMap) -> bool {
        &&& self.exclude_lo == other.exclude_lo
        &&& self.exclude_hi == other.exclude_hi
        &&& self.speculated_stores == other.speculated_stores
    }

    /// An empty map.
    pub fn new() -> (m: WriteMap)
        ensures
            m.wf(),
            m.map@ == Seq::new(FASTMEM_WRITE_MAP_LEN as nat, |i: int| 0u8),
            m.max_page == 0,
            m.exclude_lo == 0,
            m.exclude_hi == 0,
            m.speculated_stores == 0,
    {
        WriteMap {
            map: zeros(),
            max_page: 0,
            exclude_lo: 0,
            exclude_hi: 0,
            speculated_stores: 0,
        }
    }
}

fn zeros() -> (v: Vec<u8>)
    ensures
        v@ == Seq::new(FASTMEM_WRITE_MAP_LEN as nat, |i: int| 0u8),
{
    let mut v: Vec<u8> = Vec::new();
    let mut i: usize = 0;
    while i < FASTMEM_WRITE_MAP_LEN
        invariant
            i <= FASTMEM_WRITE_MAP_LEN,
            v@ == Seq::new(i as nat, |i: int| 0u8),
        decreases FASTMEM_WRITE_MAP_LEN - i,
    {
        v.push(0);
        i = i + 1;
        assert(v@ =~= Seq::new(i as nat, |i: int| 0u8));
    }
    v
}

/// The pages from `lo` to `hi`, as far as the map goes, with their bytes masked.
pub open spec fn masked(map: Seq<u8>, lo: int, hi: int, mask: u8) -> Seq<u8> {
    Seq::new(
        map.len(),
        |p: int|
            if lo <= p < hi {
                map[p] & mask
            } else {
                map[p]
            },
    )
}

fn mask_range(map: &mut Vec<u8>, lo: usize, hi: usize, mask: u8)
    requires
        hi <= old(map)@.len(),
    ensures
        final(map)@ == masked(old(map)@, lo as int, hi as int, mask),
{
    let mut p: usize = lo;
    while p < hi
        invariant
            lo <= p,
            p <= hi || p == lo,
            hi <= map@.len(),
            map@.len() == old(map)@.len(),
            forall|i: int|
                0 <= i < map@.len() ==> map@[i] == (if lo <= i < p {
                    old(map)@[i] & mask
                } else {
                    old(map)@[i]
                }),
        decreases hi - p,
    {
        let b: u8 = map[p];
        map.set(p, b & mask);
        p = p + 1;
    }
    assert(map@ =~= masked(old(map)@, lo as int, hi as int, mask));
}

fn page_allowed(m: &WriteMap, page: usize, ram: u32) -> (r: bool)
    ensures
        r == m.allows(page as int, ram),
{
    let below: u32 = if FASTMEM_GUARD_BASE < ram {
        FASTMEM_GUARD_BASE
    } else {
        ram
    };
    let above: u32 = FASTMEM_GUARD_BASE + FASTMEM_GUARD_SIZE;
    let in_envelope: bool = (page >= (FASTMEM_LOW_MEM_END / 0x1000) as usize && page < (below
        / 0x1000) as usize) || (page >= (above / 0x1000) as usize && page < (ram / 0x1000) as usize);
    let excluded: bool = m.exclude_hi != 0 && page >= m.exclude_lo as usize && page
        < m.exclude_hi as usize;
    in_envelope && !excluded
}

/// The page after the last of a range, as far as the map goes.
pub open spec fn range_end(start_page: u32, page_count: u32) -> int {
    if start_page + page_count < FASTMEM_WRITE_MAP_LEN {
        start_page + page_count
    } else {
        FASTMEM_WRITE_MAP_LEN as int
    }
}

/// The pages of a range that may be, made writable.
pub open spec fn opened(m: WriteMap, lo: int, hi: int, ram: u32) -> Seq<u8> {
    Seq::new(
        m.map@.len(),
        |p: int|
            if lo <= p < hi && m.allows(p, ram) {
                m.map@[p] | FASTMEM_WRITE_BASE_WRITABLE
            } else {
                m.map@[p]
            },
    )
}

/// The highest page of a range that may be writable, or what was the highest before.
pub open spec fn highest(m: WriteMap, lo: int, hi: int, ram: u32) -> u32
    decreases hi - lo,
{
    if hi <= lo {
        m.max_page
    } else if m.allows(hi - 1, ram) && hi - 1 > m.max_page {
        (hi - 1) as u32
    } else {
        highest(m, lo, hi - 1, ram)
    }
}

proof fn highest_grows(m: WriteMap, lo: int, hi: int, ram: u32)
    requires
        0 <= lo <= hi <= FASTMEM_WRITE_MAP_LEN,
    ensures
        highest(m, lo, hi, ram) == m.max_page || highest(m, lo, hi, ram) < hi,
        highest(m, lo, hi, ram) >= m.max_page,
    decreases hi - lo,
{
    if hi > lo {
        highest_grows(m, lo, hi - 1, ram);
    }
}

/// Makes the pages of a range writable, or not. Only pages of plain memory outside the excluded
/// ones are made writable, whatever the range.
pub fn fastmem_write_map_set_base(
    m: &mut WriteMap,
    start_page: u32,
    page_count: u32,
    writable: u32,
    ram: u32,
)
    requires
        old(m).wf(),
    ensures
        final(m).wf(),
        final(m).same_rest(*old(m)),
        writable == 0 ==> final(m).map@ == masked(
            old(m).map@,
            start_page as int,
            range_end(start_page, page_count),
            NOT_BASE_WRITABLE,
        ) && final(m).max_page == old(m).max_page,
        writable != 0 ==> final(m).map@ == opened(
            *old(m),
            start_page as int,
            range_end(start_page, page_count),
            ram,
        ) && final(m).max_page == highest(
            *old(m),
            start_page as int,
            range_end(start_page, page_count),
            ram,
        ),
{
    let len: usize = FASTMEM_WRITE_MAP_LEN;
    let wide: u64 = start_page as u64 + page_count as u64;
    let end: usize = if wide < len as u64 {
        wide as usize
    } else {
        len
    };
    let start: usize = if (start_page as usize) < len {
        start_page as usize
    } else {
        len
    };
    if writable == 0 {
        mask_range(&mut m.map, start, end, NOT_BASE_WRITABLE);
        assert(m.map@ =~= masked(
            old(m).map@,
            start_page as int,
            range_end(start_page, page_count),
            NOT_BASE_WRITABLE,
        ));
        return ;
    }
    let mut p: usize = start;
    while p < end
        invariant
            start <= p,
            p <= end || p == start,
            end <= len == FASTMEM_WRITE_MAP_LEN,
            m.wf(),
            m.same_rest(*old(m)),
            forall|i: int|
                0 <= i < m.map@.len() ==> #[trigger] m.map@[i] == (if start <= i < p
                    && old(m).allows(i, ram) {
                    old(m).map@[i] | FASTMEM_WRITE_BASE_WRITABLE
                } else {
                    old(m).map@[i]
                }),
            old(m).map@.len() == m.map@.len(),
            m.max_page == highest(*old(m), start as int, p as int, ram),
        decreases end - p,
    {
        proof {
            highest_grows(*old(m), start as int, p as int, ram);
        }
        if page_allowed(m, p, ram) {
            let b: u8 = m.map[p];
            m.map.set(p, b | FASTMEM_WRITE_BASE_WRITABLE);
            if p as u32 > m.max_page {
                m.max_page = p as u32;
            }
        }
        p = p + 1;
    }
    assert(m.map@ =~= opened(
        *old(m),
        start_page as int,
        range_end(start_page, page_count),
        ram,
    ));
    proof {
        highest_grows(*old(m), start as int, end as int, ram);
        if start >= end {
            assert(highest(
                *old(m),
                start_page as int,
                range_end(start_page, page_count),
                ram,
            ) == old(m).max_page);
        }
    }
}

/// Sets the pages that are never made writable, and makes them not writable.
pub fn fastmem_write_map_set_exclude(m: &mut WriteMap, lo_page: u32, hi_page: u32)
    requires
        old(m).wf(),
    ensures
        final(m).wf(),
        final(m).exclude_lo == lo_page,
        final(m).exclude_hi == hi_page,
        final(m).max_page == old(m).max_page,
        final(m).speculated_stores == old(m).speculated_stores,
        final(m).map@ == masked(
            old(m).map@,
            lo_page as int,
            hi_page as int,
            NOT_BASE_WRITABLE,
        ),
{
    m.exclude_lo = lo_page;
    m.exclude_hi = hi_page;
    let len: usize = FASTMEM_WRITE_MAP_LEN;
    let lo: usize = if (lo_page as usize) < len {
        lo_page as usize
    } else {
        len
    };
    let hi: usize = if (hi_page as usize) < len {
        hi_page as usize
    } else {
        len
    };
    mask_range(&mut m.map, lo, hi, NOT_BASE_WRITABLE);
    assert(m.map@ =~= masked(old(m).map@, lo_page as int, hi_page as int, NOT_BASE_WRITABLE));
}

/// Empties the map. The excluded pages stay excluded.
pub fn fastmem_write_map_reset(m: &mut WriteMap)
    ensures
        final(m).wf(),
        final(m).map@ == Seq::new(FASTMEM_WRITE_MAP_LEN as nat, |i: int| 0u8),
        final(m).max_page == 0,
        final(m).speculated_stores == 0,
        final(m).exclude_lo == old(m).exclude_lo,
        final(m).exclude_hi == old(m).exclude_hi,
{
    m.map = zeros();
    m.max_page = 0;
    m.speculated_stores = 0;
}

/// The map with one byte changed, where the page is on it.
pub open spec fn changed(map: Seq<u8>, page: u32, b: u8) -> Seq<u8> {
    if page < map.len() {
        map.update(page as int, b)
    } else {
        map
    }
}

pub fn fastmem_write_map_set_code(m: &mut WriteMap, page: u32)
    requires
        old(m).wf(),
    ensures
        final(m).wf(),
        final(m).same_rest(*old(m)),
        final(m).max_page == old(m).max_page,
        final(m).map@ == changed(
            old(m).map@,
            page,
            old(m).map@[page as int] | FASTMEM_WRITE_HAS_CODE,
        ),
{
    if (page as usize) < FASTMEM_WRITE_MAP_LEN {
        let b: u8 = m.map[page as usize];
        m.map.set(page as usize, b | FASTMEM_WRITE_HAS_CODE);
    }
}

pub fn fastmem_write_map_clear_code(m: &mut WriteMap, page: u32)
    requires
        old(m).wf(),
    ensures
        final(m).wf(),
        final(m).same_rest(*old(m)),
        final(m).max_page == old(m).max_page,
        final(m).map@ == changed(old(m).map@, page, old(m).map@[page as int] & NOT_HAS_CODE),
{
    if (page as usize) < FASTMEM_WRITE_MAP_LEN {
        let b: u8 = m.map[page as usize];
        m.map.set(page as usize, b & NOT_HAS_CODE);
    }
}

pub fn fastmem_write_map_set_watch(m: &mut WriteMap, page: u32)
    requires
        old(m).wf(),
    ensures
        final(m).wf(),
        final(m).same_rest(*old(m)),
        final(m).max_page == old(m).max_page,
        final(m).map@ == changed(old(m).map@, page, old(m).map@[page as int] | FASTMEM_WRITE_WATCH),
{
    if (page as usize) < FASTMEM_WRITE_MAP_LEN {
        let b: u8 = m.map[page as usize];
        m.map.set(page as usize, b | FASTMEM_WRITE_WATCH);
    }
}

pub fn fastmem_write_map_clear_watch(m: &mut WriteMap, page: u32)
    requires
        old(m).wf(),
    ensures
        final(m).wf(),
        final(m).same_rest(*old(m)),
        final(m).max_page == old(m).max_page,
        final(m).map@ == changed(old(m).map@, page, old(m).map@[page as int] & NOT_WATCH),
{
    if (page as usize) < FASTMEM_WRITE_MAP_LEN {
        let b: u8 = m.map[page as usize];
        m.map.set(page as usize, b & NOT_WATCH);
    }
}

/// The byte of a page; 0 for a page that the map does not hold.
pub fn fastmem_write_map_get(m: &WriteMap, page: u32) -> (r: u32)
    requires
        m.wf(),
    ensures
        r == (if page < FASTMEM_WRITE_MAP_LEN {
            m.map@[page as int] as u32
        } else {
            0
        }),
{
    if (page as usize) < FASTMEM_WRITE_MAP_LEN {
        m.map[page as usize] as u32
    } else {
        0
    }
}

/// The byte is counted: it is 1 where the mask is zero, else it has a bit of the mask.
pub open spec fn hit(b: u8, mask: u32) -> bool {
    if mask == 0 {
        b == 1
    } else {
        b as u32 & mask != 0
    }
}

/// How many of the first `n` bytes are counted.
pub open spec fn hits(map: Seq<u8>, mask: u32, n: nat) -> nat
    decreases n,
{
    if n == 0 {
        0
    } else {
        hits(map, mask, (n - 1) as nat) + (if hit(map[n - 1], mask) {
            1nat
        } else {
            0nat
        })
    }
}

/// Counts pages up to the highest that was made writable.
pub fn fastmem_write_map_count(m: &WriteMap, mask: u32) -> (r: u32)
    requires
        m.wf(),
    ensures
        r == hits(
            m.map@,
            mask,
            if m.max_page + 1 < FASTMEM_WRITE_MAP_LEN {
                (m.max_page + 1) as nat
            } else {
                FASTMEM_WRITE_MAP_LEN as nat
            },
        ),
{
    let wide: u64 = m.max_page as u64 + 1;
    let hi: usize = if wide < FASTMEM_WRITE_MAP_LEN as u64 {
        wide as usize
    } else {
        FASTMEM_WRITE_MAP_LEN
    };
    let mut n: u32 = 0;
    let mut p: usize = 0;
    while p < hi
        invariant
            p <= hi <= FASTMEM_WRITE_MAP_LEN,
            m.wf(),
            n == hits(m.map@, mask, p as nat),
            n <= p,
        decreases hi - p,
    {
        let b: u32 = m.map[p] as u32;
        let found: bool = if mask == 0 {
            b == 1
        } else {
            b & mask != 0
        };
        if found {
            n = n + 1;
        }
        p = p + 1;
    }
    n
}

pub fn fastmem_note_speculated_store_compiled(m: &mut WriteMap)
    ensures
        final(m).map@ == old(m).map@,
        final(m).max_page == old(m).max_page,
        final(m).exclude_lo == old(m).exclude_lo,
        final(m).exclude_hi == old(m).exclude_hi,
        final(m).speculated_stores == (if old(m).speculated_stores < u32::MAX {
            (old(m).speculated_stores + 1) as u32
        } else {
            u32::MAX
        }),
{
    m.speculated_stores = m.speculated_stores.saturating_add(1);
}

pub fn fastmem_get_speculated_stores_compiled(m: &WriteMap) -> (r: u32)
    ensures
        r == m.speculated_stores,
{
    m.speculated_stores
}

pub fn fastmem_write_map_max_page(m: &WriteMap) -> (r: u32)
    ensures
        r == m.max_page,
{
    m.max_page
}

/// A page that holds code or is watched is never written directly, whatever else its byte
/// says.
pub proof fn law_code_and_watches_veto(b: u8)
    ensures
        b & FASTMEM_WRITE_HAS_CODE != 0 ==> b != 1,
        b & FASTMEM_WRITE_WATCH != 0 ==> b != 1,
        (b | FASTMEM_WRITE_HAS_CODE) != 1,
        (b | FASTMEM_WRITE_WATCH) != 1,
{
    assert((b & 2 != 0 ==> b != 1) && (b & 4 != 0 ==> b != 1) && (b | 2) != 1 && (b | 4) != 1)
        by (bit_vector);
}

/// Making pages writable opens no page outside plain memory, and none that is excluded.
pub proof fn law_writable_pages_are_allowed(m: WriteMap, lo: int, hi: int, ram: u32, page: int)
    requires
        m.wf(),
        0 <= page < FASTMEM_WRITE_MAP_LEN,
        !m.accepts(page),
        opened(m, lo, hi, ram)[page] == 1,
    ensures
        m.allows(page, ram),
        lo <= page < hi,
{
}

/// Excluded pages are not written directly from then on, whatever is made writable.
pub proof fn law_excluded_pages_stay_closed(
    m: WriteMap,
    after: WriteMap,
    lo: int,
    hi: int,
    ram: u32,
    page: int,
)
    requires
        m.wf(),
        after.wf(),
        0 <= page < FASTMEM_WRITE_MAP_LEN,
        after.excluded(page),
        after.map@ == masked(
            m.map@,
            after.exclude_lo as int,
            after.exclude_hi as int,
            NOT_BASE_WRITABLE,
        ),
    ensures
        !after.accepts(page),
        opened(after, lo, hi, ram)[page] != 1,
{
    let b = m.map@[page];
    assert(b & 0xFE != 1) by (bit_vector);
}

} // verus!
