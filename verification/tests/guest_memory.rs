use bottleship::bulk_memory::{self, BulkMemory};
use bottleship::guest_mem::{decode_frame, GuestMemory};
use bottleship::rep_memory::{self, RepMemory};
use bottleship::string_memory::{self, StringMemory};
use bottleship::unaligned_memory::{
    self, Kind, Next, Outcome, Plan, Reply, Request, UnalignedRep,
};
use std::collections::HashMap;

const BASE: u32 = 0x10_0000;
const MEM8: u32 = 0x8000_0000;

fn entry(page: u32, flags: i32) -> i32 {
    ((MEM8 + page * 0x1000) ^ (page * 0x1000)) as i32 | flags
}

/// Four plain pages above low memory, then one that is not translated.
fn memory() -> GuestMemory {
    let mut tlb: HashMap<u32, i32> = HashMap::new();
    for page in 0x100..0x104 {
        tlb.insert(page, entry(page, 1));
    }
    GuestMemory {
        ram: vec![0; 0x10_5000],
        tlb,
        mem8: MEM8,
        cpl3: true,
        write_watch: false,
        device_lo: 0xA_0000,
        device_hi: 0x10_0000,
    }
}

fn put(m: &mut GuestMemory, at: u32, bytes: &[u8]) {
    for (i, b) in bytes.iter().enumerate() {
        m.ram[at as usize + i] = *b;
    }
}

#[test]
fn entries_decode_to_frames() {
    assert_eq!(decode_frame(entry(0x100, 1), 0x100, MEM8), 0x10_0000);
    assert_eq!(decode_frame(entry(0x103, 33), 0x103, MEM8), 0x10_3000);
    assert_eq!(decode_frame(0, 0x100, 0), 0x10_0000);
}

#[test]
fn spans_are_probed() {
    let mut m: GuestMemory = memory();
    assert!(m.resident_span(BASE, 0x4000, true));
    assert!(!m.resident_span(BASE, 0x4001, false));
    assert!(!m.resident_span(BASE, 0, false));
    assert!(!m.resident_span(BASE - 1, 4, false));
    assert!(!m.resident_span(0xFFFF_FFFF, 2, false));
    m.tlb.insert(0x101, entry(0x101, 1 | 2));
    assert!(m.resident_span(BASE, 0x4000, false));
    assert!(!m.resident_span(BASE, 0x4000, true));
    m.tlb.insert(0x101, entry(0x101, 1 | 4));
    assert!(!m.resident_span(BASE, 0x2000, false));
    m.cpl3 = false;
    assert!(m.resident_span(BASE, 0x2000, false));
    m.tlb.insert(0x101, entry(0x101, 1 | 8));
    assert!(!m.resident_span(BASE, 0x2000, false));
    m.tlb.insert(0x101, entry(0x101, 1 | 32));
    assert!(m.resident_span(BASE, 0x2000, false));
    assert!(!m.resident_span(BASE, 0x2000, true));
    m.tlb.insert(0x101, entry(0x102, 1) ^ 0x1000);
    assert!(!m.resident_span(BASE, 0x2000, false));
    m.write_watch = true;
    assert!(!m.resident_span(BASE, 4, true));
    assert!(m.resident_span(BASE, 4, false));
}

#[test]
fn bulk_copies_and_moves() {
    let mut b: BulkMemory = BulkMemory::new();
    let mut m: GuestMemory = memory();
    put(&mut m, BASE, &[1, 2, 3, 4, 5, 6]);
    assert!(bulk_memory::try_copy(&mut b, &mut m, BASE + 0x1FFE, BASE, 4, false));
    assert_eq!(m.ram[0x10_1FFE..0x10_2002], [1, 2, 3, 4]);
    assert!(!bulk_memory::try_copy(&mut b, &mut m, BASE + 2, BASE, 4, false));
    assert_eq!(m.ram[0x10_0000..0x10_0006], [1, 2, 3, 4, 5, 6]);
    assert!(bulk_memory::try_copy(&mut b, &mut m, BASE + 2, BASE, 4, true));
    assert_eq!(m.ram[0x10_0000..0x10_0006], [1, 2, 1, 2, 3, 4]);
    assert!(!bulk_memory::try_copy(&mut b, &mut m, BASE + 0x3FFE, BASE, 4, false));
    assert_eq!(b.stats, vec![1, 0, 0, 1, 0, 2]);
}

#[test]
fn bulk_fills() {
    let mut b: BulkMemory = BulkMemory::new();
    let mut m: GuestMemory = memory();
    assert!(bulk_memory::try_fill(&mut b, &mut m, BASE + 0xFFF, 7, 3));
    assert_eq!(m.ram[0x10_0FFE..0x10_1003], [0, 7, 7, 7, 0]);
    assert!(!bulk_memory::try_fill(&mut b, &mut m, BASE, 7, 0));
    bulk_memory::set_bulk_memory_enabled(&mut b, 0);
    assert!(!bulk_memory::try_fill(&mut b, &mut m, BASE, 7, 3));
    assert_eq!(m.ram[0x10_0000], 0);
    assert_eq!(b.stats, vec![0, 1, 0, 0, 0, 2]);
    assert_eq!(bulk_memory::get_bulk_memory_abi(), 1);
}

#[test]
fn bulk_compares_page_by_page() {
    let mut b: BulkMemory = BulkMemory::new();
    let mut m: GuestMemory = memory();
    put(&mut m, BASE, &[9, 9, 9]);
    put(&mut m, BASE + 0x100, &[9, 9, 2]);
    assert_eq!(bulk_memory::try_compare(&mut b, &m, BASE, BASE + 0x100, 2), Some(0));
    assert_eq!(bulk_memory::try_compare(&mut b, &m, BASE, BASE + 0x100, 3), Some(7));
    assert_eq!(bulk_memory::try_compare(&mut b, &m, BASE + 0x100, BASE, 3), Some(-7));
    assert_eq!(bulk_memory::try_compare(&mut b, &m, BASE, BASE, 0), Some(0));
    // The difference comes before the page that is not there.
    put(&mut m, BASE + 0x3F00, &[1]);
    assert_eq!(bulk_memory::try_compare(&mut b, &m, BASE + 0x3F00, BASE + 0x2F00, 0x200), Some(1));
    assert_eq!(bulk_memory::try_compare(&mut b, &m, BASE + 0x3F01, BASE + 0x2F01, 0x200), None);
    assert_eq!(bulk_memory::try_compare(&mut b, &m, 0xFFFF_FFFF, BASE, 4), None);
    assert_eq!(b.stats, vec![0, 0, 5, 0, 0, 2]);
}

#[test]
fn bulk_finds_a_byte() {
    let mut b: BulkMemory = BulkMemory::new();
    let mut m: GuestMemory = memory();
    put(&mut m, BASE + 0x1004, &[5]);
    assert_eq!(bulk_memory::try_find(&mut b, &m, BASE, 5, 0x2000), Some(BASE + 0x1004));
    assert_eq!(bulk_memory::try_find(&mut b, &m, BASE, 5, 0x1000), Some(0));
    assert_eq!(bulk_memory::try_find(&mut b, &m, BASE + 0x2000, 5, 0x4000), None);
    assert_eq!(b.stats, vec![0, 0, 0, 0, 2, 1]);
}

#[test]
fn strings_are_measured() {
    let bulk: BulkMemory = BulkMemory::new();
    let mut s: StringMemory = StringMemory::new();
    let mut m: GuestMemory = memory();
    put(&mut m, BASE + 0xFFD, b"hello\0");
    put(&mut m, BASE + 0x2000, b"a\0b\0\0\0");
    assert_eq!(string_memory::try_length::<false>(&mut s, &bulk, &m, BASE + 0xFFD), Some(5));
    assert_eq!(string_memory::try_length::<true>(&mut s, &bulk, &m, BASE + 0x2000), Some(2));
    assert_eq!(string_memory::try_length::<false>(&mut s, &bulk, &m, BASE + 0x4000), None);
    string_memory::set_string_memory_enabled(&mut s, 0);
    assert_eq!(string_memory::try_length::<false>(&mut s, &bulk, &m, BASE + 0xFFD), None);
    assert_eq!(s.stats[string_memory::STAT_DECLINED], 2);
    assert_eq!(string_memory::get_string_memory_abi(), 1);
}

#[test]
fn characters_are_found() {
    let bulk: BulkMemory = BulkMemory::new();
    let mut s: StringMemory = StringMemory::new();
    let mut m: GuestMemory = memory();
    put(&mut m, BASE, b"banana\0");
    assert_eq!(
        string_memory::try_find::<false, false>(&mut s, &bulk, &m, BASE, 97),
        Some(BASE + 1)
    );
    assert_eq!(
        string_memory::try_find::<false, true>(&mut s, &bulk, &m, BASE, 97),
        Some(BASE + 5)
    );
    assert_eq!(string_memory::try_find::<false, false>(&mut s, &bulk, &m, BASE, 120), Some(0));
    assert_eq!(
        string_memory::try_find::<false, false>(&mut s, &bulk, &m, BASE, 0),
        Some(BASE + 6)
    );
}

#[test]
fn strings_are_compared_and_copied() {
    let bulk: BulkMemory = BulkMemory::new();
    let mut s: StringMemory = StringMemory::new();
    let mut m: GuestMemory = memory();
    put(&mut m, BASE, b"Abc\0");
    put(&mut m, BASE + 0x100, b"aBd\0");
    let plain: Option<i32> =
        string_memory::try_compare::<false, false>(&mut s, &bulk, &m, BASE, BASE + 0x100);
    assert!(plain.unwrap() < 0);
    let folded: Option<i32> =
        string_memory::try_compare::<false, true>(&mut s, &bulk, &m, BASE, BASE + 0x100);
    assert!(folded.unwrap() < 0);
    put(&mut m, BASE + 0x102, b"C\0");
    assert_eq!(
        string_memory::try_compare::<false, true>(&mut s, &bulk, &m, BASE, BASE + 0x100),
        Some(0)
    );
    assert!(string_memory::try_copy::<false>(&mut s, &bulk, &mut m, BASE + 0x1FFE, BASE));
    assert_eq!(m.ram[0x10_1FFE..0x10_2003], [65, 98, 99, 0, 0]);
    assert!(!string_memory::try_copy::<false>(&mut s, &bulk, &mut m, BASE + 0x3FFE, BASE));
    assert_eq!(m.ram[0x10_3FFE], 0);
}

#[test]
fn runs_are_compared_and_filled() {
    let mut rep: RepMemory = RepMemory::new();
    let mut m: GuestMemory = memory();
    for i in 0..0x80 {
        m.ram[0x10_0000 + i] = 3;
        m.ram[0x10_1000 + i] = 3;
    }
    m.ram[0x10_1028] = 4;
    let r: Option<(u32, i32, i32)> = rep_memory::compare::<1, false>(
        &mut rep, &m, BASE, BASE + 0x1000, 0x80, false, true, 0,
    );
    assert_eq!(r, Some((41, 3, 4)));
    let r: Option<(u32, i32, i32)> = rep_memory::compare::<1, true>(
        &mut rep, &m, 0, BASE + 0x1000, 0x80, false, false, 4,
    );
    assert_eq!(r, Some((41, 4, 4)));
    assert!(rep_memory::fill::<4>(&mut rep, &mut m, BASE + 0x2000, 0x40, false, 0x0403_0201));
    assert_eq!(m.ram[0x10_2000..0x10_2006], [1, 2, 3, 4, 1, 2]);
    assert_eq!(m.ram[0x10_20FC..0x10_2102], [1, 2, 3, 4, 0, 0]);
    assert!(!rep_memory::fill::<4>(&mut rep, &mut m, BASE + 0x2FF0, 0x40, false, 1));
    rep_memory::set_rep_memory_enabled(&mut rep, 0);
    assert!(!rep_memory::fill::<4>(&mut rep, &mut m, BASE + 0x2000, 0x40, false, 1));
    assert_eq!(rep_memory::get_rep_memory_abi(), 1);
}

#[test]
fn unaligned_runs_are_planned() {
    let mut u: UnalignedRep = UnalignedRep::new();
    let rep: RepMemory = RepMemory::new();
    let mut m: GuestMemory = memory();
    let dst: u32 = BASE + 1;
    assert_eq!(
        unaligned_memory::plan::<4>(&mut u, &rep, &m, Kind::Stos, 0, dst, 15, false),
        Plan::Decline
    );
    assert_eq!(
        unaligned_memory::plan::<4>(&mut u, &rep, &m, Kind::Stos, 0, dst, 2000, false),
        Plan::Translate(1023)
    );
    assert_eq!(
        unaligned_memory::plan::<4>(&mut u, &rep, &m, Kind::Stos, 0, BASE + 0xFFD, 2000, false),
        Plan::Bridge
    );
    assert_eq!(
        unaligned_memory::plan::<2>(&mut u, &rep, &m, Kind::Cmps, BASE + 0xFEF, dst, 99, false),
        Plan::Translate(8)
    );
    assert_eq!(
        unaligned_memory::plan::<2>(&mut u, &rep, &m, Kind::Scas, 0, BASE + 41, 99, true),
        Plan::Translate(21)
    );
    m.write_watch = true;
    assert_eq!(
        unaligned_memory::plan::<4>(&mut u, &rep, &m, Kind::Stos, 0, dst, 2000, false),
        Plan::Decline
    );
    assert_eq!(u.stats[unaligned_memory::STAT_REJECTED], 1);
    unaligned_memory::set_unaligned_rep_enabled(&mut u, 0);
    assert_eq!(
        unaligned_memory::plan::<4>(&mut u, &rep, &m, Kind::Scas, 0, dst, 2000, false),
        Plan::Decline
    );
    assert_eq!(unaligned_memory::get_unaligned_rep_abi(), 1);
}

#[test]
fn unaligned_runs_are_done() {
    let mut u: UnalignedRep = UnalignedRep::new();
    let mut rep: RepMemory = RepMemory::new();
    let mut m: GuestMemory = memory();
    assert_eq!(
        unaligned_memory::run::<4>(
            &mut u, &mut rep, &mut m, Kind::Stos, 0, BASE + 1, 20, false, false, 0x0102_0304,
        ),
        Outcome::Done { count: 20, left: 0, right: 0 }
    );
    assert_eq!(m.ram[0x10_0000..0x10_0006], [0, 4, 3, 2, 1, 4]);
    assert_eq!(
        unaligned_memory::run::<4>(
            &mut u, &mut rep, &mut m, Kind::Scas, 0, BASE + 1, 30, false, true, 0x0102_0304,
        ),
        Outcome::Done { count: 21, left: 0x0102_0304, right: 0 }
    );
    assert_eq!(
        unaligned_memory::run::<4>(
            &mut u, &mut rep, &mut m, Kind::Stos, 0, 0xA_0001, 20, false, false, 1,
        ),
        Outcome::Declined
    );
    assert_eq!(
        unaligned_memory::bridged::<2>(&mut u, Kind::Scas, 0x1_0005, 9, 6),
        Outcome::Done { count: 1, left: 5, right: 6 }
    );
    assert_eq!(u.stats[unaligned_memory::STAT_BRIDGE], 1);
}

#[test]
fn searches_while_switched_off_are_counted() {
    let mut b: BulkMemory = BulkMemory::new();
    let m: GuestMemory = memory();
    bulk_memory::set_bulk_memory_enabled(&mut b, 0);
    assert_eq!(bulk_memory::try_find(&mut b, &m, BASE, 0, 16), None);
    assert_eq!(b.stats, vec![0, 0, 0, 0, 0, 1]);
}

#[test]
fn unaligned_runs_are_counted_once() {
    let mut u: UnalignedRep = UnalignedRep::new();
    let mut rep: RepMemory = RepMemory::new();
    let mut m: GuestMemory = memory();
    unaligned_memory::run::<4>(
        &mut u, &mut rep, &mut m, Kind::Stos, 0, BASE + 1, 20, false, false, 7,
    );
    assert_eq!(rep.stats.iter().sum::<u32>(), 1);
    assert_eq!(rep.stats[rep_memory::STAT_REJECTED], 0);
    // A device is left to others.
    unaligned_memory::run::<4>(
        &mut u, &mut rep, &mut m, Kind::Stos, 0, 0xA_0001, 20, false, false, 7,
    );
    assert_eq!(rep.stats.iter().sum::<u32>(), 1);
}

#[test]
fn the_source_comes_first() {
    let mut u: UnalignedRep = UnalignedRep::new();
    let mut rep: RepMemory = RepMemory::new();
    let mut m: GuestMemory = memory();
    // The source crosses into another page: one element goes through the accessors.
    let edge: Request = Request {
        kind: Kind::Cmps,
        src: BASE + 0xFFE,
        dst: BASE + 1,
        count: 40,
        backwards: false,
        while_equal: true,
        value: 0,
    };
    let cases: Vec<(Reply, Reply, Next)> = vec![
        (Reply::Unasked, Reply::Unasked, Next::ReadSource),
        (Reply::Unasked, Reply::Faulted(9), Next::ReadSource),
        (Reply::Faulted(7), Reply::Unasked, Next::Fault(7)),
        (Reply::Faulted(7), Reply::Faulted(9), Next::Fault(7)),
        (Reply::Found(5), Reply::Unasked, Next::ReadDestination),
        (Reply::Found(5), Reply::Faulted(9), Next::Fault(9)),
        (
            Reply::Found(5),
            Reply::Found(6),
            Next::Finished(Outcome::Done { count: 1, left: 5, right: 6 }),
        ),
    ];
    for (src, dst, expected) in cases {
        let next: Next =
            unaligned_memory::step::<4>(&mut u, &mut rep, &mut m, &edge, src, dst, false);
        assert_eq!(next, expected);
    }
    assert_eq!(u.stats[unaligned_memory::STAT_BRIDGE], 1);
    // A source on a device ends the step before the destination is translated.
    let inside: Request = Request { src: BASE + 0x101, dst: BASE + 0x203, ..edge };
    let mut go = |src: Reply, dst: Reply| {
        unaligned_memory::step::<4>(&mut u, &mut rep, &mut m, &inside, src, dst, false)
    };
    assert_eq!(go(Reply::Unasked, Reply::Unasked), Next::TranslateSource);
    assert_eq!(go(Reply::Found(0xA_0001), Reply::Unasked), Next::Finished(Outcome::Declined));
    assert_eq!(go(Reply::Found(BASE + 0x101), Reply::Unasked), Next::TranslateDestination);
    assert_eq!(
        go(Reply::Found(BASE + 0x101), Reply::Found(BASE + 0x203)),
        Next::Finished(Outcome::Done { count: 40, left: 0, right: 0 })
    );
    assert_eq!(u.stats[unaligned_memory::STAT_REJECTED], 1);
}

#[test]
fn code_is_dropped_before_a_store() {
    let mut u: UnalignedRep = UnalignedRep::new();
    let mut rep: RepMemory = RepMemory::new();
    let mut m: GuestMemory = memory();
    let q: Request = Request {
        kind: Kind::Stos,
        src: 0,
        dst: BASE + 1,
        count: 20,
        backwards: false,
        while_equal: false,
        value: 0x0102_0304,
    };
    let mut go = |dst: Reply, dropped: bool| {
        unaligned_memory::step::<4>(&mut u, &mut rep, &mut m, &q, Reply::Unasked, dst, dropped)
    };
    assert_eq!(go(Reply::Unasked, false), Next::TranslateToWrite);
    assert_eq!(go(Reply::Found(BASE + 1), false), Next::DropCode(BASE / 0x1000));
    assert_eq!(
        go(Reply::Found(BASE + 1), true),
        Next::Finished(Outcome::Done { count: 20, left: 0, right: 0 })
    );
    assert_eq!(m.ram[0x10_0000..0x10_0006], [0, 4, 3, 2, 1, 4]);
}
