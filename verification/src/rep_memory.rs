//! The repeated string instructions over one piece of physical memory within a page.
//!
//! These functions say how many elements were done and on which pair a comparison stopped; the
//! caller owns registers, flags and faults.
use vstd::prelude::*;
use crate::bulk_memory;
use crate::guest_mem;
use crate::guest_mem::GuestMemory;

verus! {

pub const STAT_CMPS: usize = 0;
pub const STAT_SCAS: usize = 1;
pub const STAT_STOSW: usize = 2;
pub const STAT_STOSD: usize = 3;
pub const STAT_REJECTED: usize = 4;

/// The switch and the counters.
pub struct RepMemory {
    pub enabled: bool,
    pub stats: Vec<u32>,
}

impl RepMemory {
    pub open spec fn wf(self) -> bool {
        self.stats@.len() == 5
    }

    /// The switch is the same, and one more event is counted.
    pub open spec fn noted(self, before: RepMemory, index: usize) -> bool {
        self.enabled == before.enabled && self.stats@ == bulk_memory::counted(
            before.stats@,
            index as int,
        )
    }

    pub fn new() -> (s: RepMemory)
        ensures
            s.wf(),
            s.enabled,
            s.stats@ == seq![0u32, 0, 0, 0, 0],
    {
        let stats: Vec<u32> = vec![0, 0, 0, 0, 0];
        assert(stats@ =~= seq![0u32, 0, 0, 0, 0]);
        RepMemory { enabled: true, stats }
    }

    fn record(&mut self, index: usize)
        requires
            old(self).wf(),
            index < 5,
        ensures
            final(self).wf(),
            final(self).noted(*old(self), index),
    {
        let n: u32 = self.stats[index];
        self.stats.set(index, n.wrapping_add(1));
    }
}

pub fn get_rep_memory_abi() -> (r: u32)
    ensures
        r == 1,
{
    1
}

pub fn set_rep_memory_enabled(s: &mut RepMemory, enabled: u32)
    ensures
        *final(s) == (RepMemory { enabled: enabled != 0, ..*old(s) }),
{
    s.enabled = enabled != 0;
}

/// The lowest address of the elements from `start` on, in the given direction, where they lie
/// within one page of memory.
pub open spec fn lowest(m: GuestMemory, start: u32, count: u32, size: u32, backwards: bool) -> Option<
    u32,
> {
    let bytes = count * size;
    let low = if backwards {
        start - (bytes - size)
    } else {
        start as int
    };
    let end = low + bytes - 1;
    if count == 0 || low < 0 || bytes > u32::MAX || end > u32::MAX || low / 0x1000 != end / 0x1000
        || m.device(low as u32) || m.device(end as u32) {
        None
    } else {
        Some(low as u32)
    }
}

/// The address of element `i`.
pub open spec fn element_at(start: u32, i: int, size: u32, backwards: bool) -> int {
    if backwards {
        start - i * size
    } else {
        start + i * size
    }
}

/// The element at an address, low byte first.
pub open spec fn element(ram: Seq<u8>, at: int, size: u32) -> i32 {
    if size == 1 {
        ram[at] as i32
    } else if size == 2 {
        (ram[at] + 256 * ram[at + 1]) as i32
    } else {
        ((ram[at] + 256 * ram[at + 1] + 65536 * ram[at + 2] + 16777216 * ram[at + 3]) as u32) as i32
    }
}

/// The part of a value that an element holds.
pub open spec fn low_part(value: i32, size: u32) -> i32 {
    if size == 1 {
        value & 0xff
    } else if size == 2 {
        value & 0xffff
    } else {
        value
    }
}

/// One run of a comparison.
pub struct Run {
    /// The constant that elements are compared with, or where the other elements start.
    pub constant: Option<i32>,
    pub src: u32,
    pub dst: u32,
    pub size: u32,
    pub backwards: bool,
    pub while_equal: bool,
}

impl Run {
    pub open spec fn left(self, ram: Seq<u8>, i: int) -> i32 {
        match self.constant {
            Some(c) => c,
            None => element(ram, element_at(self.src, i, self.size, self.backwards), self.size),
        }
    }

    pub open spec fn right(self, ram: Seq<u8>, i: int) -> i32 {
        element(ram, element_at(self.dst, i, self.size, self.backwards), self.size)
    }

    /// The first element, from the `i`-th on, after which the instruction stops; the last one
    /// where it does not.
    pub open spec fn stop(self, ram: Seq<u8>, i: int, count: int) -> int
        decreases count - i,
    {
        if i + 1 >= count || (self.left(ram, i) == self.right(ram, i)) != self.while_equal {
            i
        } else {
            self.stop(ram, i + 1, count)
        }
    }
}

fn span(m: &GuestMemory, start: u32, count: u32, size: u32, backwards: bool) -> (r: Option<u32>)
    requires
        size == 1 || size == 2 || size == 4,
    ensures
        r == lowest(*m, start, count, size, backwards),
        r is Some ==> count > 0 && r->0 + count * size <= m.ram@.len() && count * size <= 0x1000,
{
    let bytes: u32 = match count.checked_mul(size) {
        Some(bytes) => bytes,
        None => return None,
    };
    if bytes == 0 {
        return None;
    }
    let low: u32 = if backwards {
        match start.checked_sub(bytes - size) {
            Some(low) => low,
            None => return None,
        }
    } else {
        start
    };
    let end: u32 = match low.checked_add(bytes - 1) {
        Some(end) => end,
        None => return None,
    };
    if low / 0x1000 != end / 0x1000 || m.in_mapped_range(low) || m.in_mapped_range(end) {
        return None;
    }
    Some(low)
}

fn load(ram: &Vec<u8>, at: usize, size: u32) -> (r: i32)
    requires
        size == 1 || size == 2 || size == 4,
        at + size <= ram@.len(),
    ensures
        r == element(ram@, at as int, size),
{
    let len: usize = ram.len();
    if size == 1 {
        ram[at] as i32
    } else if size == 2 {
        ram[at] as i32 + 256 * ram[at + 1] as i32
    } else {
        (ram[at] as u32 + 256 * ram[at + 1] as u32 + 65536 * ram[at + 2] as u32 + 16777216
            * ram[at + 3] as u32) as i32
    }
}

/// Element `i` of `count` elements whose lowest address is `low`.
fn load_element(
    ram: &Vec<u8>,
    start: u32,
    i: u32,
    size: u32,
    backwards: bool,
    count: u32,
    low: u32,
) -> (r: i32)
    requires
        size == 1 || size == 2 || size == 4,
        i < count,
        count * size <= 0x1000,
        low + count * size <= ram@.len(),
        backwards ==> low == start - (count * size - size),
        !backwards ==> low == start,
        ram@.len() <= u32::MAX,
    ensures
        r == element(ram@, element_at(start, i as int, size, backwards), size),
{
    assert(i * size + size <= count * size) by (nonlinear_arith)
        requires
            i < count,
            size >= 0,
    ;
    let delta: u32 = i * size;
    let at: u32 = if backwards {
        start - delta
    } else {
        start + delta
    };
    load(ram, at as usize, size)
}

/// Compares elements with each other, or with a constant. Returns how many were done, and the
/// pair that the last comparison saw.
pub fn compare<const SIZE: u32, const SCAN: bool>(
    rep: &mut RepMemory,
    m: &GuestMemory,
    src: u32,
    dst: u32,
    count: u32,
    backwards: bool,
    while_equal: bool,
    value: i32,
) -> (r: Option<(u32, i32, i32)>)
    requires
        old(rep).wf(),
        m.wf(),
        SIZE == 1 || SIZE == 2 || SIZE == 4,
    ensures
        final(rep).wf(),
        ({
            let asked = old(rep).enabled && count >= 16u32 / SIZE;
            let there = lowest(*m, dst, count, SIZE, backwards) is Some && (SCAN || lowest(
                *m,
                src,
                count,
                SIZE,
                backwards,
            ) is Some);
            let run = Run {
                constant: if SCAN {
                    Some(low_part(value, SIZE))
                } else {
                    None
                },
                src,
                dst,
                size: SIZE,
                backwards,
                while_equal,
            };
            let at = run.stop(m.ram@, 0, count as int);
            &&& !asked ==> r is None && *final(rep) == *old(rep)
            &&& asked && !there ==> r is None && final(rep).noted(*old(rep), STAT_REJECTED)
            &&& asked && there ==> r == Some(
                ((at + 1) as u32, run.left(m.ram@, at), run.right(m.ram@, at)),
            ) && final(rep).noted(
                *old(rep),
                if SCAN {
                    STAT_SCAS
                } else {
                    STAT_CMPS
                },
            )
        }),
{
    let lanes: u32 = 16u32 / SIZE;
    if !rep.enabled || count < lanes {
        return None;
    }
    let dst_low: Option<u32> = span(m, dst, count, SIZE, backwards);
    let src_low: Option<u32> = if SCAN {
        dst_low
    } else {
        span(m, src, count, SIZE, backwards)
    };
    let (from, to): (u32, u32) = match (src_low, dst_low) {
        (Some(from), Some(to)) => (from, to),
        _ => {
            rep.record(STAT_REJECTED);
            return None;
        },
    };
    let constant: i32 = match SIZE {
        1 => value & 0xff,
        2 => value & 0xffff,
        _ => value,
    };
    rep.record(
        if SCAN {
            STAT_SCAS
        } else {
            STAT_CMPS
        },
    );
    let ghost run = Run {
        constant: if SCAN {
            Some(low_part(value, SIZE))
        } else {
            None
        },
        src,
        dst,
        size: SIZE,
        backwards,
        while_equal,
    };
    let ghost noted = *rep;
    let mut i: u32 = 0;
    loop
        invariant
            i < count,
            m.wf(),
            SIZE == 1 || SIZE == 2 || SIZE == 4,
            count * SIZE <= 0x1000,
            *rep == noted,
            constant == low_part(value, SIZE),
            Some(to) == lowest(*m, dst, count, SIZE, backwards),
            !SCAN ==> Some(from) == lowest(*m, src, count, SIZE, backwards),
            to + count * SIZE <= m.ram@.len(),
            from + count * SIZE <= m.ram@.len(),
            run.size == SIZE,
            run.src == src,
            run.dst == dst,
            run.backwards == backwards,
            run.while_equal == while_equal,
            run.constant == (if SCAN {
                Some(low_part(value, SIZE))
            } else {
                None
            }),
            run.stop(m.ram@, 0, count as int) == run.stop(m.ram@, i as int, count as int),
        ensures
            i < count,
            i == run.stop(m.ram@, 0, count as int),
        decreases count - i,
    {
        let a: i32 = if SCAN {
            constant
        } else {
            load_element(&m.ram, src, i, SIZE, backwards, count, from)
        };
        let b: i32 = load_element(&m.ram, dst, i, SIZE, backwards, count, to);
        if i + 1 >= count || (a == b) != while_equal {
            break;
        }
        i = i + 1;
    }
    let a: i32 = if SCAN {
        constant
    } else {
        load_element(&m.ram, src, i, SIZE, backwards, count, from)
    };
    let b: i32 = load_element(&m.ram, dst, i, SIZE, backwards, count, to);
    Some((i + 1, a, b))
}

/// Byte `k` of a value, low byte first.
pub open spec fn value_byte(value: i32, k: int) -> u8 {
    let v = value as u32;
    if k == 0 {
        (v % 256) as u8
    } else if k == 1 {
        (v / 256 % 256) as u8
    } else if k == 2 {
        (v / 65536 % 256) as u8
    } else {
        (v / 16777216) as u8
    }
}

/// So many copies of an element.
pub open spec fn repeated(value: i32, size: u32, count: u32) -> Seq<u8> {
    Seq::new((count * size) as nat, |i: int| value_byte(value, i % size as int))
}

fn byte_of(value: i32, k: u32) -> (r: u8)
    requires
        k < 4,
    ensures
        r == value_byte(value, k as int),
{
    let v: u32 = value as u32;
    match k {
        0 => (v % 256) as u8,
        1 => (v / 256 % 256) as u8,
        2 => (v / 65536 % 256) as u8,
        _ => (v / 16777216) as u8,
    }
}

/// Stores copies of an element of two or four bytes. Returns whether it did. Watched writes
/// are left to the caller.
pub fn fill<const SIZE: u32>(
    rep: &mut RepMemory,
    m: &mut GuestMemory,
    dst: u32,
    count: u32,
    backwards: bool,
    value: i32,
) -> (r: bool)
    requires
        old(rep).wf(),
        old(m).wf(),
        SIZE == 2 || SIZE == 4,
    ensures
        final(rep).wf(),
        final(m).wf(),
        final(m).same_map(*old(m)),
        ({
            let asked = old(rep).enabled && count >= 64u32 / SIZE;
            let low = lowest(*old(m), dst, count, SIZE, backwards);
            &&& r == (asked && !old(m).write_watch && low is Some)
            &&& final(m).ram@ == (if r {
                guest_mem::overwritten(
                    old(m).ram@,
                    (low->0) as int,
                    repeated(value, SIZE, count),
                )
            } else {
                old(m).ram@
            })
            &&& !asked ==> *final(rep) == *old(rep)
            &&& asked && !r ==> final(rep).noted(*old(rep), STAT_REJECTED)
            &&& r ==> final(rep).noted(
                *old(rep),
                if SIZE == 2 {
                    STAT_STOSW
                } else {
                    STAT_STOSD
                },
            )
        }),
{
    if !rep.enabled || count < 64u32 / SIZE {
        return false;
    }
    if m.write_watch {
        rep.record(STAT_REJECTED);
        return false;
    }
    let low: u32 = match span(m, dst, count, SIZE, backwards) {
        Some(low) => low,
        None => {
            rep.record(STAT_REJECTED);
            return false;
        },
    };
    let bytes: u32 = count * SIZE;
    let mut i: u32 = 0;
    while i < bytes
        invariant
            i <= bytes <= 0x1000,
            bytes == count * SIZE,
            SIZE == 2 || SIZE == 4,
            low + bytes <= m.ram@.len() <= u32::MAX,
            m.ram@.len() == old(m).ram@.len(),
            m.same_map(*old(m)),
            forall|j: int|
                0 <= j < m.ram@.len() ==> #[trigger] m.ram@[j] == (if low <= j < low + i {
                    value_byte(value, (j - low) % SIZE as int)
                } else {
                    old(m).ram@[j]
                }),
        decreases bytes - i,
    {
        m.ram.set((low + i) as usize, byte_of(value, i % SIZE));
        i = i + 1;
    }
    assert(m.ram@ =~= guest_mem::overwritten(
        old(m).ram@,
        low as int,
        repeated(value, SIZE, count),
    ));
    rep.record(
        if SIZE == 2 {
            STAT_STOSW
        } else {
            STAT_STOSD
        },
    );
    true
}

} // verus!
