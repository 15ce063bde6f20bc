//! Scans of strings in guest memory, page by page, over spans that a probe has proved to be
//! plain.
//!
//! A scan that would leave plain memory, or that finds no end within a limit, is declined; the
//! caller then goes through the ordinary accessors.
use vstd::prelude::*;
use crate::bulk_memory;
use crate::bulk_memory::BulkMemory;
use crate::guest_mem;
use crate::guest_mem::{copied_bytes, overwrite, GuestMemory};

verus! {

/// Units that are scanned before a scan is given up.
pub const LIMIT: u32 = 0x10_0001;

pub const STAT_STRLEN: usize = 0;
pub const STAT_WCSLEN: usize = 1;
pub const STAT_STRCMP: usize = 2;
pub const STAT_STRICMP: usize = 3;
pub const STAT_WCSICMP: usize = 4;
pub const STAT_STRCHR: usize = 5;
pub const STAT_STRRCHR: usize = 6;
pub const STAT_WCSCHR: usize = 7;
pub const STAT_STRCPY: usize = 8;
pub const STAT_WCSCPY: usize = 9;
pub const STAT_DECLINED: usize = 10;

/// The switch and the counters. Every request is counted once: by what it did, or as declined.
pub struct StringMemory {
    pub enabled: bool,
    pub stats: Vec<u32>,
}

impl StringMemory {
    pub open spec fn wf(self) -> bool {
        self.stats@.len() == 11
    }

    /// The switch is the same, and one more event is counted.
    pub open spec fn noted(self, before: StringMemory, index: usize) -> bool {
        self.enabled == before.enabled && self.stats@ == bulk_memory::counted(
            before.stats@,
            index as int,
        )
    }

    pub fn new() -> (s: StringMemory)
        ensures
            s.wf(),
            s.enabled,
            s.stats@ == seq![0u32, 0, 0, 0, 0, 0, 0, 0, 0, 0, 0],
    {
        let stats: Vec<u32> = vec![0, 0, 0, 0, 0, 0, 0, 0, 0, 0, 0];
        assert(stats@ =~= seq![0u32, 0, 0, 0, 0, 0, 0, 0, 0, 0, 0]);
        StringMemory { enabled: true, stats }
    }

    fn record(&mut self, answered: bool, hit: usize)
        requires
            old(self).wf(),
            hit < 10,
        ensures
            final(self).wf(),
            final(self).noted(
                *old(self),
                if answered {
                    hit
                } else {
                    STAT_DECLINED
                },
            ),
    {
        let index: usize = if answered {
            hit
        } else {
            STAT_DECLINED
        };
        let n: u32 = self.stats[index];
        self.stats.set(index, n.wrapping_add(1));
    }
}

pub fn get_string_memory_abi() -> (r: u32)
    ensures
        r == 1,
{
    1
}

pub fn set_string_memory_enabled(s: &mut StringMemory, enabled: u32)
    ensures
        *final(s) == (StringMemory { enabled: enabled != 0, ..*old(s) }),
{
    s.enabled = enabled != 0;
}

/// Bytes of one unit.
pub open spec fn step(wide: bool) -> int {
    if wide {
        2
    } else {
        1
    }
}

/// The unit at an address, low byte first.
pub open spec fn unit(ram: Seq<u8>, at: int, wide: bool) -> u32 {
    if wide {
        (ram[at] + 256 * ram[at + 1]) as u32
    } else {
        ram[at] as u32
    }
}

/// Letters in lower case; only those of ASCII have one.
pub open spec fn fold(value: u32) -> u32 {
    if 65 <= value <= 90 {
        (value + 32) as u32
    } else {
        value
    }
}

/// Units from an address to the end of its page; a unit across the end counts alone.
pub open spec fn page_units(at: u32, wide: bool) -> u32 {
    let n = (0x1000 - at % 0x1000) / step(wide);
    if n < 1 {
        1
    } else {
        n as u32
    }
}

/// How a scan of a piece ends, and the last match so far.
pub open spec fn piece(
    ram: Seq<u8>,
    start: int,
    target: u32,
    wide: bool,
    reverse: bool,
    i: int,
    count: int,
    last: int,
) -> (bool, int)
    decreases count - i,
{
    if i >= count {
        (false, last)
    } else {
        let at = start + i * step(wide);
        let c = unit(ram, at, wide);
        let l = if c == target {
            at
        } else {
            last
        };
        if (c == target && !reverse) || c == 0 {
            (true, l)
        } else {
            piece(ram, start, target, wide, reverse, i + 1, count, l)
        }
    }
}

/// The scan from a unit on: the address of the first `target`, or of the last one before the end
/// of the string; 0 where there is none.
pub open spec fn scanned(
    bulk: BulkMemory,
    m: GuestMemory,
    src: u32,
    target: u32,
    wide: bool,
    reverse: bool,
    offset: int,
    last: int,
) -> Option<int>
    decreases LIMIT - offset,
{
    let start = src + offset * step(wide);
    if offset >= LIMIT || start > u32::MAX {
        None
    } else {
        let units = page_units(start as u32, wide);
        let count = if units < LIMIT - offset {
            units as int
        } else {
            LIMIT - offset
        };
        if !bulk.sees(m, start as u32, (count * step(wide)) as u32, false) {
            None
        } else {
            let (done, l) = piece(m.ram@, start, target, wide, reverse, 0, count, last);
            if done {
                Some(l)
            } else {
                scanned(bulk, m, src, target, wide, reverse, offset + count, l)
            }
        }
    }
}

fn step_of(wide: bool) -> (r: u32)
    ensures
        r == step(wide),
{
    if wide {
        2
    } else {
        1
    }
}

fn unit_at(ram: &Vec<u8>, at: usize, wide: bool) -> (r: u32)
    requires
        at + step(wide) <= ram@.len(),
    ensures
        r == unit(ram@, at as int, wide),
{
    let size: usize = ram.len();
    if wide {
        ram[at] as u32 + 256 * ram[at + 1] as u32
    } else {
        ram[at] as u32
    }
}

fn folded(value: u32) -> (r: u32)
    ensures
        r == fold(value),
{
    if 65 <= value && value <= 90 {
        value + 32
    } else {
        value
    }
}

fn units_to_page_end(at: u32, wide: bool) -> (r: u32)
    ensures
        r == page_units(at, wide),
        1 <= r <= 0x1000,
{
    let n: u32 = (0x1000 - at % 0x1000) / step_of(wide);
    if n < 1 {
        1
    } else {
        n
    }
}

fn scan_piece(
    ram: &Vec<u8>,
    start: u32,
    target: u32,
    wide: bool,
    reverse: bool,
    count: u32,
    before: u32,
) -> (r: (bool, u32))
    requires
        count <= 0x1000,
        start + count * step(wide) <= ram@.len() <= u32::MAX,
    ensures
        (r.0, r.1 as int) == piece(
            ram@,
            start as int,
            target,
            wide,
            reverse,
            0,
            count as int,
            before as int,
        ),
        target == 0 && !reverse && r.0 ==> r.1 >= start,
{
    let stride: u32 = step_of(wide);
    let mut last: u32 = before;
    let mut i: u32 = 0;
    while i < count
        invariant
            i <= count <= 0x1000,
            stride == step(wide),
            start + count * step(wide) <= ram@.len() <= u32::MAX,
            piece(ram@, start as int, target, wide, reverse, 0, count as int, before as int)
                == piece(
                ram@,
                start as int,
                target,
                wide,
                reverse,
                i as int,
                count as int,
                last as int,
            ),
        decreases count - i,
    {
        assert(start + i * stride + stride <= ram@.len());
        let at: u32 = start + i * stride;
        let c: u32 = unit_at(ram, at as usize, wide);
        if c == target {
            last = at;
            if !reverse {
                return (true, last);
            }
        }
        if c == 0 {
            return (true, last);
        }
        i = i + 1;
    }
    (false, last)
}

fn scan(
    s: &StringMemory,
    bulk: &BulkMemory,
    m: &GuestMemory,
    src: u32,
    target: u32,
    wide: bool,
    reverse: bool,
) -> (r: Option<u32>)
    requires
        m.wf(),
    ensures
        !s.enabled ==> r is None,
        s.enabled ==> (match r {
            Some(at) => scanned(*bulk, *m, src, target, wide, reverse, 0, 0) == Some(at as int),
            None => scanned(*bulk, *m, src, target, wide, reverse, 0, 0) is None,
        }),
        target == 0 && !reverse && r is Some ==> r->0 >= src,
{
    if !s.enabled {
        return None;
    }
    let stride: u32 = step_of(wide);
    let mut offset: u32 = 0;
    let mut last: u32 = 0;
    while offset < LIMIT
        invariant
            offset <= LIMIT,
            s.enabled,
            stride == step(wide),
            m.wf(),
            scanned(*bulk, *m, src, target, wide, reverse, 0, 0) == scanned(
                *bulk,
                *m,
                src,
                target,
                wide,
                reverse,
                offset as int,
                last as int,
            ),
        decreases LIMIT - offset,
    {
        let start: u32 = match src.checked_add(offset * stride) {
            Some(start) => start,
            None => return None,
        };
        let units: u32 = units_to_page_end(start, wide);
        let count: u32 = if units < LIMIT - offset {
            units
        } else {
            LIMIT - offset
        };
        if !bulk.resident_span(m, start, count * stride, false) {
            return None;
        }
        let (done, at): (bool, u32) = scan_piece(&m.ram, start, target, wide, reverse, count, last);
        if done {
            return Some(at);
        }
        last = at;
        offset = offset + count;
    }
    None
}

/// What a scan gives while the switch is on; nothing while it is off.
pub open spec fn answer(
    s: StringMemory,
    bulk: BulkMemory,
    m: GuestMemory,
    src: u32,
    target: u32,
    wide: bool,
    reverse: bool,
) -> Option<int> {
    if s.enabled {
        scanned(bulk, m, src, target, wide, reverse, 0, 0)
    } else {
        None
    }
}

/// The length of a string, in units.
pub fn try_length<const WIDE: bool>(
    s: &mut StringMemory,
    bulk: &BulkMemory,
    m: &GuestMemory,
    src: u32,
) -> (r: Option<u32>)
    requires
        old(s).wf(),
        m.wf(),
    ensures
        final(s).wf(),
        match answer(*old(s), *bulk, *m, src, 0, WIDE, false) {
            Some(end) => r == Some(((end - src) / step(WIDE)) as u32),
            None => r is None,
        },
        final(s).noted(
            *old(s),
            if r is None {
                STAT_DECLINED
            } else if WIDE {
                STAT_WCSLEN
            } else {
                STAT_STRLEN
            },
        ),
{
    let end: Option<u32> = scan(s, bulk, m, src, 0, WIDE, false);
    let r: Option<u32> = match end {
        Some(end) => Some((end - src) / step_of(WIDE)),
        None => None,
    };
    s.record(
        r.is_some(),
        if WIDE {
            STAT_WCSLEN
        } else {
            STAT_STRLEN
        },
    );
    r
}

/// The address of the first unit that is `target`, or of the last one; 0 where there is none.
pub fn try_find<const WIDE: bool, const REVERSE: bool>(
    s: &mut StringMemory,
    bulk: &BulkMemory,
    m: &GuestMemory,
    src: u32,
    target: u32,
) -> (r: Option<u32>)
    requires
        old(s).wf(),
        m.wf(),
    ensures
        final(s).wf(),
        match answer(*old(s), *bulk, *m, src, target, WIDE, REVERSE) {
            Some(at) => r == Some(at as u32),
            None => r is None,
        },
        final(s).noted(
            *old(s),
            if r is None {
                STAT_DECLINED
            } else if WIDE {
                STAT_WCSCHR
            } else if REVERSE {
                STAT_STRRCHR
            } else {
                STAT_STRCHR
            },
        ),
{
    let r: Option<u32> = scan(s, bulk, m, src, target, WIDE, REVERSE);
    s.record(
        r.is_some(),
        if WIDE {
            STAT_WCSCHR
        } else if REVERSE {
            STAT_STRRCHR
        } else {
            STAT_STRCHR
        },
    );
    r
}

/// The difference of two units.
pub open spec fn unit_difference(x: u32, y: u32, fold_case: bool) -> int {
    if fold_case {
        fold(x) - fold(y)
    } else {
        x - y
    }
}

/// The comparison of a piece, from the `i`-th unit on: the difference at which it ends.
pub open spec fn piece_compared(
    ram: Seq<u8>,
    a: int,
    b: int,
    wide: bool,
    fold_case: bool,
    i: int,
    count: int,
) -> Option<int>
    decreases count - i,
{
    if i >= count {
        None
    } else {
        let x = unit(ram, a + i * step(wide), wide);
        let y = unit(ram, b + i * step(wide), wide);
        let d = unit_difference(x, y, fold_case);
        if d != 0 || x == 0 {
            Some(d)
        } else {
            piece_compared(ram, a, b, wide, fold_case, i + 1, count)
        }
    }
}

/// The comparison from a unit on.
pub open spec fn compared(
    bulk: BulkMemory,
    m: GuestMemory,
    a: u32,
    b: u32,
    wide: bool,
    fold_case: bool,
    offset: int,
) -> Option<int>
    decreases LIMIT - offset,
{
    let left = a + offset * step(wide);
    let right = b + offset * step(wide);
    if offset >= LIMIT || left > u32::MAX || right > u32::MAX {
        None
    } else {
        let units = bulk_memory::smaller(
            page_units(left as u32, wide),
            page_units(right as u32, wide),
        );
        let count = if units < LIMIT - offset {
            units as int
        } else {
            LIMIT - offset
        };
        let bytes = (count * step(wide)) as u32;
        if !bulk.sees(m, left as u32, bytes, false) || !bulk.sees(m, right as u32, bytes, false) {
            None
        } else {
            match piece_compared(m.ram@, left, right, wide, fold_case, 0, count) {
                Some(d) => Some(d),
                None => compared(bulk, m, a, b, wide, fold_case, offset + count),
            }
        }
    }
}

fn compare_piece(
    ram: &Vec<u8>,
    a: u32,
    b: u32,
    wide: bool,
    fold_case: bool,
    count: u32,
) -> (r: Option<i32>)
    requires
        count <= 0x1000,
        a + count * step(wide) <= ram@.len() <= u32::MAX,
        b + count * step(wide) <= ram@.len(),
    ensures
        match r {
            Some(d) => piece_compared(ram@, a as int, b as int, wide, fold_case, 0, count as int)
                == Some(d as int),
            None => piece_compared(ram@, a as int, b as int, wide, fold_case, 0, count as int) is None,
        },
{
    let stride: u32 = step_of(wide);
    let mut i: u32 = 0;
    while i < count
        invariant
            i <= count <= 0x1000,
            stride == step(wide),
            a + count * step(wide) <= ram@.len() <= u32::MAX,
            b + count * step(wide) <= ram@.len(),
            piece_compared(ram@, a as int, b as int, wide, fold_case, 0, count as int)
                == piece_compared(
                ram@,
                a as int,
                b as int,
                wide,
                fold_case,
                i as int,
                count as int,
            ),
        decreases count - i,
    {
        assert(a + i * stride + stride <= ram@.len());
        assert(b + i * stride + stride <= ram@.len());
        let x: u32 = unit_at(ram, (a + i * stride) as usize, wide);
        let y: u32 = unit_at(ram, (b + i * stride) as usize, wide);
        assert(x <= 0xFFFF && y <= 0xFFFF);
        let d: i32 = if fold_case {
            folded(x) as i32 - folded(y) as i32
        } else {
            x as i32 - y as i32
        };
        if d != 0 || x == 0 {
            return Some(d);
        }
        i = i + 1;
    }
    None
}

fn compare(
    s: &StringMemory,
    bulk: &BulkMemory,
    m: &GuestMemory,
    a: u32,
    b: u32,
    wide: bool,
    fold_case: bool,
) -> (r: Option<i32>)
    requires
        m.wf(),
    ensures
        !s.enabled ==> r is None,
        s.enabled ==> (match r {
            Some(d) => compared(*bulk, *m, a, b, wide, fold_case, 0) == Some(d as int),
            None => compared(*bulk, *m, a, b, wide, fold_case, 0) is None,
        }),
{
    if !s.enabled {
        return None;
    }
    let stride: u32 = step_of(wide);
    let mut offset: u32 = 0;
    while offset < LIMIT
        invariant
            offset <= LIMIT,
            s.enabled,
            stride == step(wide),
            m.wf(),
            compared(*bulk, *m, a, b, wide, fold_case, 0) == compared(
                *bulk,
                *m,
                a,
                b,
                wide,
                fold_case,
                offset as int,
            ),
        decreases LIMIT - offset,
    {
        let left: u32 = match a.checked_add(offset * stride) {
            Some(left) => left,
            None => return None,
        };
        let right: u32 = match b.checked_add(offset * stride) {
            Some(right) => right,
            None => return None,
        };
        let p: u32 = units_to_page_end(left, wide);
        let q: u32 = units_to_page_end(right, wide);
        let units: u32 = if p < q {
            p
        } else {
            q
        };
        let count: u32 = if units < LIMIT - offset {
            units
        } else {
            LIMIT - offset
        };
        if !bulk.resident_span(m, left, count * stride, false) || !bulk.resident_span(
            m,
            right,
            count * stride,
            false,
        ) {
            return None;
        }
        if let Some(d) = compare_piece(&m.ram, left, right, wide, fold_case, count) {
            return Some(d);
        }
        offset = offset + count;
    }
    None
}

/// The difference of the first units that differ, or 0 at the end of both strings.
pub fn try_compare<const WIDE: bool, const FOLD: bool>(
    s: &mut StringMemory,
    bulk: &BulkMemory,
    m: &GuestMemory,
    a: u32,
    b: u32,
) -> (r: Option<i32>)
    requires
        old(s).wf(),
        m.wf(),
    ensures
        final(s).wf(),
        !old(s).enabled ==> r is None,
        old(s).enabled ==> (match r {
            Some(d) => compared(*bulk, *m, a, b, WIDE, FOLD, 0) == Some(d as int),
            None => compared(*bulk, *m, a, b, WIDE, FOLD, 0) is None,
        }),
        final(s).noted(
            *old(s),
            if r is None {
                STAT_DECLINED
            } else if WIDE {
                STAT_WCSICMP
            } else if FOLD {
                STAT_STRICMP
            } else {
                STAT_STRCMP
            },
        ),
{
    let r: Option<i32> = compare(s, bulk, m, a, b, WIDE, FOLD);
    s.record(
        r.is_some(),
        if WIDE {
            STAT_WCSICMP
        } else if FOLD {
            STAT_STRICMP
        } else {
            STAT_STRCMP
        },
    );
    r
}

/// How many bytes a copy of the string takes, its end among them; nothing where the copy must be
/// left to the ordinary accessors.
pub open spec fn copyable(
    s: StringMemory,
    bulk: BulkMemory,
    m: GuestMemory,
    dst: u32,
    src: u32,
    wide: bool,
) -> Option<int> {
    match answer(s, bulk, m, src, 0, wide, false) {
        None => None,
        Some(end) => {
            let bytes = end - src + step(wide);
            if dst + bytes > u32::MAX || src + bytes > u32::MAX || (dst < src + bytes && src < dst
                + bytes) || !bulk.sees(m, src, bytes as u32, false) || !bulk.sees(
                m,
                dst,
                bytes as u32,
                true,
            ) {
                None
            } else {
                Some(bytes)
            }
        },
    }
}

/// Copies a string with its end. Returns whether it did.
pub fn try_copy<const WIDE: bool>(
    s: &mut StringMemory,
    bulk: &BulkMemory,
    m: &mut GuestMemory,
    dst: u32,
    src: u32,
) -> (r: bool)
    requires
        old(s).wf(),
        old(m).wf(),
    ensures
        final(s).wf(),
        final(m).wf(),
        final(m).same_map(*old(m)),
        match copyable(*old(s), *bulk, *old(m), dst, src, WIDE) {
            Some(bytes) => r && final(m).ram@ == guest_mem::overwritten(
                old(m).ram@,
                dst as int,
                old(m).ram@.subrange(src as int, src + bytes),
            ),
            None => !r && final(m).ram@ == old(m).ram@,
        },
        final(s).noted(
            *old(s),
            if !r {
                STAT_DECLINED
            } else if WIDE {
                STAT_WCSCPY
            } else {
                STAT_STRCPY
            },
        ),
{
    let size: Option<u32> = copy_size(s, bulk, m, dst, src, WIDE);
    if let Some(bytes) = size {
        let copy: Vec<u8> = copied_bytes(&m.ram, src as usize, bytes as usize);
        overwrite(&mut m.ram, dst as usize, &copy);
    }
    s.record(
        size.is_some(),
        if WIDE {
            STAT_WCSCPY
        } else {
            STAT_STRCPY
        },
    );
    size.is_some()
}

fn copy_size(
    s: &StringMemory,
    bulk: &BulkMemory,
    m: &GuestMemory,
    dst: u32,
    src: u32,
    wide: bool,
) -> (r: Option<u32>)
    requires
        m.wf(),
    ensures
        match r {
            Some(bytes) => copyable(*s, *bulk, *m, dst, src, wide) == Some(bytes as int)
                && bulk.sees(*m, src, bytes, false) && bulk.sees(*m, dst, bytes, true),
            None => copyable(*s, *bulk, *m, dst, src, wide) is None,
        },
{
    let end: u32 = match scan(s, bulk, m, src, 0, wide, false) {
        Some(end) => end,
        None => return None,
    };
    let bytes: u32 = match (end - src).checked_add(step_of(wide)) {
        Some(bytes) => bytes,
        None => return None,
    };
    let dst_end: u32 = match dst.checked_add(bytes) {
        Some(e) => e,
        None => return None,
    };
    let src_end: u32 = match src.checked_add(bytes) {
        Some(e) => e,
        None => return None,
    };
    if dst < src_end && src < dst_end {
        return None;
    }
    if !bulk.resident_span(m, src, bytes, false) || !bulk.resident_span(m, dst, bytes, true) {
        return None;
    }
    Some(bytes)
}

} // verus!
