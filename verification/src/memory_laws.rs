//! What the scans over guest memory answer, without the pages that they go by.
use vstd::prelude::*;
use crate::bulk_memory;
use crate::bulk_memory::BulkMemory;
use crate::guest_mem::GuestMemory;
use crate::string_memory;
use crate::string_memory::{StringMemory, LIMIT};

verus! {

proof fn lemma_differences(ram: Seq<u8>, a: int, b: int, o: int, i: int, c: int, n: int)
    requires
        0 <= i <= c,
        o + c <= n,
    ensures
        ({
            let d = bulk_memory::difference(ram, a + o, b + o, i, c);
            let all = bulk_memory::difference(ram, a, b, o + i, n);
            if d != 0 {
                all == d
            } else {
                all == bulk_memory::difference(ram, a, b, o + c, n)
            }
        }),
    decreases c - i,
{
    if i < c {
        lemma_differences(ram, a, b, o, i + 1, c, n);
    }
}

proof fn lemma_compared(bulk: BulkMemory, m: GuestMemory, a: u32, b: u32, len: u32, offset: u32)
    requires
        bulk_memory::compared(bulk, m, a, b, len, offset) is Some,
    ensures
        bulk_memory::compared(bulk, m, a, b, len, offset) == Some(
            bulk_memory::difference(m.ram@, a as int, b as int, offset as int, len as int),
        ),
    decreases len - offset,
{
    if offset < len {
        let left = (a + offset) as u32;
        let right = (b + offset) as u32;
        let chunk = bulk_memory::smaller(
            bulk_memory::smaller((len - offset) as u32, bulk_memory::to_page_end(left)),
            bulk_memory::to_page_end(right),
        );
        lemma_differences(
            m.ram@,
            a as int,
            b as int,
            offset as int,
            0,
            chunk as int,
            len as int,
        );
        let d = bulk_memory::difference(m.ram@, left as int, right as int, 0, chunk as int);
        if d == 0 {
            lemma_compared(bulk, m, a, b, len, (offset + chunk) as u32);
        }
    }
}

/// A comparison of spans that is answered gives the difference of the first bytes that differ.
pub proof fn law_compares_go_by_bytes(bulk: BulkMemory, m: GuestMemory, a: u32, b: u32, len: u32)
    requires
        bulk_memory::compared(bulk, m, a, b, len, 0) is Some,
    ensures
        bulk_memory::compared(bulk, m, a, b, len, 0) == Some(
            bulk_memory::difference(m.ram@, a as int, b as int, 0, len as int),
        ),
{
    lemma_compared(bulk, m, a, b, len, 0);
}

proof fn lemma_places(ram: Seq<u8>, at: int, byte: u8, o: int, i: int, c: int, n: int)
    requires
        0 <= i <= c,
        o + c <= n,
    ensures
        match bulk_memory::place_of(ram, at + o, byte, i, c) {
            Some(k) => bulk_memory::place_of(ram, at, byte, o + i, n) == Some(o + k),
            None => bulk_memory::place_of(ram, at, byte, o + i, n) == bulk_memory::place_of(
                ram,
                at,
                byte,
                o + c,
                n,
            ),
        },
    decreases c - i,
{
    if i < c {
        lemma_places(ram, at, byte, o, i + 1, c, n);
    }
}

proof fn lemma_found(bulk: BulkMemory, m: GuestMemory, src: u32, byte: u8, len: u32, offset: u32)
    requires
        bulk_memory::found(bulk, m, src, byte, len, offset) is Some,
    ensures
        bulk_memory::found(bulk, m, src, byte, len, offset) == Some(
            match bulk_memory::place_of(m.ram@, src as int, byte, offset as int, len as int) {
                Some(i) => src + i,
                None => 0,
            },
        ),
    decreases len - offset,
{
    if offset < len {
        let start = (src + offset) as u32;
        let chunk = bulk_memory::smaller((len - offset) as u32, bulk_memory::to_page_end(start));
        lemma_places(m.ram@, src as int, byte, offset as int, 0, chunk as int, len as int);
        if bulk_memory::place_of(m.ram@, start as int, byte, 0, chunk as int) is None {
            lemma_found(bulk, m, src, byte, len, (offset + chunk) as u32);
        }
    }
}

/// A search for a byte that is answered gives the address of the first one, or 0.
pub proof fn law_the_first_byte_is_found(
    bulk: BulkMemory,
    m: GuestMemory,
    src: u32,
    byte: u8,
    len: u32,
)
    requires
        bulk_memory::found(bulk, m, src, byte, len, 0) is Some,
    ensures
        bulk_memory::found(bulk, m, src, byte, len, 0) == Some(
            match bulk_memory::place_of(m.ram@, src as int, byte, 0, len as int) {
                Some(i) => src + i,
                None => 0,
            },
        ),
{
    lemma_found(bulk, m, src, byte, len, 0);
}

/// A unit of a string.
pub open spec fn unit_of(ram: Seq<u8>, src: u32, wide: bool, k: int) -> u32 {
    string_memory::unit(ram, src + k * string_memory::step(wide), wide)
}

/// The address of the last of the first `n` units that is the target; 0 where there is none.
pub open spec fn latest(ram: Seq<u8>, src: u32, target: u32, wide: bool, n: int) -> int
    decreases n,
{
    if n <= 0 {
        0
    } else if unit_of(ram, src, wide, n - 1) == target {
        src + (n - 1) * string_memory::step(wide)
    } else {
        latest(ram, src, target, wide, n - 1)
    }
}

/// A scan ends at a unit: the end of the string, or, forwards, the first target.
pub open spec fn stops(ram: Seq<u8>, src: u32, target: u32, wide: bool, reverse: bool, k: int) -> bool {
    unit_of(ram, src, wide, k) == 0 || (!reverse && unit_of(ram, src, wide, k) == target)
}

/// A scan ends at the unit and not before.
pub open spec fn ends_at(
    ram: Seq<u8>,
    src: u32,
    target: u32,
    wide: bool,
    reverse: bool,
    n: int,
) -> bool {
    &&& 0 <= n
    &&& stops(ram, src, target, wide, reverse, n)
    &&& forall|k: int| 0 <= k < n ==> !#[trigger] stops(ram, src, target, wide, reverse, k)
}

/// A piece of a scan that starts at a unit of the string.
proof fn lemma_piece(
    ram: Seq<u8>,
    src: u32,
    target: u32,
    wide: bool,
    reverse: bool,
    o: int,
    i: int,
    c: int,
)
    requires
        0 <= o,
        0 <= i <= c,
        forall|k: int| 0 <= k < o + i ==> !#[trigger] stops(ram, src, target, wide, reverse, k),
    ensures
        ({
            let start = src + o * string_memory::step(wide);
            let last = latest(ram, src, target, wide, o + i);
            let (done, l) = string_memory::piece(
                ram,
                start,
                target,
                wide,
                reverse,
                i,
                c,
                last,
            );
            if done {
                exists|n: int|
                    #[trigger] ends_at(ram, src, target, wide, reverse, n) && l == latest(
                        ram,
                        src,
                        target,
                        wide,
                        n + 1,
                    )
            } else {
                &&& l == latest(ram, src, target, wide, o + c)
                &&& forall|k: int|
                    0 <= k < o + c ==> !#[trigger] stops(ram, src, target, wide, reverse, k)
            }
        }),
    decreases c - i,
{
    if i < c {
        let n = o + i;
        let w = string_memory::step(wide);
        let at = src + o * w + i * w;
        assert(o * w + i * w == n * w) by (nonlinear_arith)
            requires
                n == o + i,
        ;
        assert(string_memory::unit(ram, at, wide) == unit_of(ram, src, wide, n));
        if stops(ram, src, target, wide, reverse, n) {
            assert(ends_at(ram, src, target, wide, reverse, n));
        } else {
            lemma_piece(ram, src, target, wide, reverse, o, i + 1, c);
        }
    }
}

proof fn lemma_scanned(
    bulk: BulkMemory,
    m: GuestMemory,
    src: u32,
    target: u32,
    wide: bool,
    reverse: bool,
    o: int,
)
    requires
        0 <= o,
        forall|k: int| 0 <= k < o ==> !#[trigger] stops(m.ram@, src, target, wide, reverse, k),
        string_memory::scanned(
            bulk,
            m,
            src,
            target,
            wide,
            reverse,
            o,
            latest(m.ram@, src, target, wide, o),
        ) is Some,
    ensures
        exists|n: int|
            #[trigger] ends_at(m.ram@, src, target, wide, reverse, n) && string_memory::scanned(
                bulk,
                m,
                src,
                target,
                wide,
                reverse,
                o,
                latest(m.ram@, src, target, wide, o),
            ) == Some(latest(m.ram@, src, target, wide, n + 1)),
    decreases LIMIT - o,
{
    let start = src + o * string_memory::step(wide);
    let units = string_memory::page_units(start as u32, wide);
    let count = if units < LIMIT - o {
        units as int
    } else {
        LIMIT - o
    };
    let last = latest(m.ram@, src, target, wide, o);
    lemma_piece(m.ram@, src, target, wide, reverse, o, 0, count);
    let (done, l) = string_memory::piece(m.ram@, start, target, wide, reverse, 0, count, last);
    if !done {
        lemma_scanned(bulk, m, src, target, wide, reverse, o + count);
    }
}

/// A search in a string that is answered gives the first unit that is the target, or the last
/// one, not beyond the end of the string; 0 where there is none.
pub proof fn law_units_are_found(
    s: StringMemory,
    bulk: BulkMemory,
    m: GuestMemory,
    src: u32,
    target: u32,
    wide: bool,
    reverse: bool,
)
    requires
        string_memory::answer(s, bulk, m, src, target, wide, reverse) is Some,
    ensures
        exists|n: int|
            #[trigger] ends_at(m.ram@, src, target, wide, reverse, n) && string_memory::answer(
                s,
                bulk,
                m,
                src,
                target,
                wide,
                reverse,
            ) == Some(latest(m.ram@, src, target, wide, n + 1)),
{
    lemma_scanned(bulk, m, src, target, wide, reverse, 0);
}

/// The length of a string that is answered is the number of units before the first that is zero.
pub proof fn law_lengths_reach_the_end(
    s: StringMemory,
    bulk: BulkMemory,
    m: GuestMemory,
    src: u32,
    wide: bool,
)
    requires
        string_memory::answer(s, bulk, m, src, 0, wide, false) is Some,
    ensures
        ({
            let end = string_memory::answer(s, bulk, m, src, 0, wide, false)->0;
            let n = (end - src) / string_memory::step(wide);
            &&& end == src + n * string_memory::step(wide)
            &&& unit_of(m.ram@, src, wide, n) == 0
            &&& forall|k: int| 0 <= k < n ==> #[trigger] unit_of(m.ram@, src, wide, k) != 0
        }),
{
    law_units_are_found(s, bulk, m, src, 0, wide, false);
    let n = choose|n: int|
        #[trigger] ends_at(m.ram@, src, 0, wide, false, n) && string_memory::answer(
            s,
            bulk,
            m,
            src,
            0,
            wide,
            false,
        ) == Some(latest(m.ram@, src, 0, wide, n + 1));
    assert(stops(m.ram@, src, 0, wide, false, n));
    assert(latest(m.ram@, src, 0, wide, n + 1) == src + n * string_memory::step(wide));
    if wide {
        assert((n * 2) / 2 == n);
    }
    assert forall|k: int| 0 <= k < n implies #[trigger] unit_of(m.ram@, src, wide, k) != 0 by {
        assert(!stops(m.ram@, src, 0, wide, false, k));
    }
}

/// The difference of the units of two strings.
pub open spec fn unit_gap(ram: Seq<u8>, a: u32, b: u32, wide: bool, fold_case: bool, k: int) -> int {
    string_memory::unit_difference(
        unit_of(ram, a, wide, k),
        unit_of(ram, b, wide, k),
        fold_case,
    )
}

/// A comparison of strings ends at the unit: they differ there, or both end.
pub open spec fn decides(ram: Seq<u8>, a: u32, b: u32, wide: bool, fold_case: bool, k: int) -> bool {
    unit_gap(ram, a, b, wide, fold_case, k) != 0 || unit_of(ram, a, wide, k) == 0
}

/// A comparison of strings ends at the unit and not before.
pub open spec fn decided_at(
    ram: Seq<u8>,
    a: u32,
    b: u32,
    wide: bool,
    fold_case: bool,
    n: int,
) -> bool {
    &&& 0 <= n
    &&& decides(ram, a, b, wide, fold_case, n)
    &&& forall|k: int| 0 <= k < n ==> !#[trigger] decides(ram, a, b, wide, fold_case, k)
}

proof fn lemma_piece_compared(
    ram: Seq<u8>,
    a: u32,
    b: u32,
    wide: bool,
    fold_case: bool,
    o: int,
    i: int,
    c: int,
)
    requires
        0 <= o,
        0 <= i <= c,
        forall|k: int| 0 <= k < o + i ==> !#[trigger] decides(ram, a, b, wide, fold_case, k),
    ensures
        ({
            let left = a + o * string_memory::step(wide);
            let right = b + o * string_memory::step(wide);
            match string_memory::piece_compared(ram, left, right, wide, fold_case, i, c) {
                Some(d) => exists|n: int|
                    #[trigger] decided_at(ram, a, b, wide, fold_case, n) && d == unit_gap(
                        ram,
                        a,
                        b,
                        wide,
                        fold_case,
                        n,
                    ),
                None => forall|k: int|
                    0 <= k < o + c ==> !#[trigger] decides(ram, a, b, wide, fold_case, k),
            }
        }),
    decreases c - i,
{
    if i < c {
        let n = o + i;
        let w = string_memory::step(wide);
        assert(o * w + i * w == n * w) by (nonlinear_arith)
            requires
                n == o + i,
        ;
        if decides(ram, a, b, wide, fold_case, n) {
            assert(decided_at(ram, a, b, wide, fold_case, n));
        } else {
            lemma_piece_compared(ram, a, b, wide, fold_case, o, i + 1, c);
        }
    }
}

proof fn lemma_strings_compared(
    bulk: BulkMemory,
    m: GuestMemory,
    a: u32,
    b: u32,
    wide: bool,
    fold_case: bool,
    o: int,
)
    requires
        0 <= o,
        forall|k: int| 0 <= k < o ==> !#[trigger] decides(m.ram@, a, b, wide, fold_case, k),
        string_memory::compared(bulk, m, a, b, wide, fold_case, o) is Some,
    ensures
        exists|n: int|
            #[trigger] decided_at(m.ram@, a, b, wide, fold_case, n) && string_memory::compared(
                bulk,
                m,
                a,
                b,
                wide,
                fold_case,
                o,
            ) == Some(unit_gap(m.ram@, a, b, wide, fold_case, n)),
    decreases LIMIT - o,
{
    let left = a + o * string_memory::step(wide);
    let right = b + o * string_memory::step(wide);
    let units = bulk_memory::smaller(
        string_memory::page_units(left as u32, wide),
        string_memory::page_units(right as u32, wide),
    );
    let count = if units < LIMIT - o {
        units as int
    } else {
        LIMIT - o
    };
    lemma_piece_compared(m.ram@, a, b, wide, fold_case, o, 0, count);
    if string_memory::piece_compared(m.ram@, left, right, wide, fold_case, 0, count) is None {
        lemma_strings_compared(bulk, m, a, b, wide, fold_case, o + count);
    }
}

/// A comparison of strings that is answered gives the difference of the first units that differ,
/// with or without regard to case, or 0 where both end first.
pub proof fn law_strings_compare_by_units(
    bulk: BulkMemory,
    m: GuestMemory,
    a: u32,
    b: u32,
    wide: bool,
    fold_case: bool,
)
    requires
        string_memory::compared(bulk, m, a, b, wide, fold_case, 0) is Some,
    ensures
        exists|n: int|
            #[trigger] decided_at(m.ram@, a, b, wide, fold_case, n) && string_memory::compared(
                bulk,
                m,
                a,
                b,
                wide,
                fold_case,
                0,
            ) == Some(unit_gap(m.ram@, a, b, wide, fold_case, n)),
{
    lemma_strings_compared(bulk, m, a, b, wide, fold_case, 0);
}

} // verus!
