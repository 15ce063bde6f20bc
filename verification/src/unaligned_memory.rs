//! Repeated string instructions whose operands are not aligned: how far one step goes, and what
//! it does once the operands are translated.
//!
//! Accesses and translations can fault and belong to the caller. A step says what it needs next:
//! the source first, and the destination only once the source is there. The caller comes back
//! with what it found, until the step is finished or a fault stops it.
use vstd::prelude::*;
use crate::bulk_memory;
use crate::guest_mem;
use crate::guest_mem::GuestMemory;
use crate::rep_memory;
use crate::rep_memory::{compare, fill, RepMemory};

verus! {

pub const STAT_BRIDGE: usize = 6;
pub const STAT_REJECTED: usize = 7;

/// The instruction.
#[derive(Clone, Copy, Debug, PartialEq, Eq, Structural)]
pub enum Kind {
    /// Compares two runs.
    Cmps,
    /// Compares a run with a constant.
    Scas,
    /// Stores a constant.
    Stos,
}

/// What a step is going to do.
#[derive(Clone, Copy, Debug, PartialEq, Eq, Structural)]
pub enum Plan {
    /// Nothing; the caller's own loop goes on.
    Decline,
    /// One element goes through the ordinary accessors: it crosses into another page, or too
    /// few are left on this one.
    Bridge,
    /// So many elements are done at once.
    Translate(u32),
}

/// What a step did.
#[derive(Clone, Copy, Debug, PartialEq, Eq, Structural)]
pub enum Outcome {
    Declined,
    /// Elements done, and the last pair that was compared.
    Done { count: u32, left: i32, right: i32 },
}

/// The switch and the counters: two for each instruction, by the size of its elements, then
/// single elements and rejections.
pub struct UnalignedRep {
    pub enabled: bool,
    pub stats: Vec<u32>,
}

impl UnalignedRep {
    pub open spec fn wf(self) -> bool {
        self.stats@.len() == 8
    }

    /// The switch is the same, and one more event is counted.
    pub open spec fn noted(self, before: UnalignedRep, index: int) -> bool {
        self.enabled == before.enabled && self.stats@ == bulk_memory::counted(before.stats@, index)
    }

    pub fn new() -> (u: UnalignedRep)
        ensures
            u.wf(),
            u.enabled,
            u.stats@ == seq![0u32, 0, 0, 0, 0, 0, 0, 0],
    {
        let stats: Vec<u32> = vec![0, 0, 0, 0, 0, 0, 0, 0];
        assert(stats@ =~= seq![0u32, 0, 0, 0, 0, 0, 0, 0]);
        UnalignedRep { enabled: true, stats }
    }

    fn record(&mut self, index: usize)
        requires
            old(self).wf(),
            index < 8,
        ensures
            final(self).wf(),
            final(self).noted(*old(self), index as int),
    {
        let n: u32 = self.stats[index];
        self.stats.set(index, n.wrapping_add(1));
    }
}

pub fn get_unaligned_rep_abi() -> (r: u32)
    ensures
        r == 1,
{
    1
}

pub fn set_unaligned_rep_enabled(u: &mut UnalignedRep, enabled: u32)
    ensures
        *final(u) == (UnalignedRep { enabled: enabled != 0, ..*old(u) }),
{
    u.enabled = enabled != 0;
}

/// Elements from an address that do not leave its page, in the given direction. An element
/// across the end of the page belongs to neither page.
pub open spec fn chunk(address: u32, size: u32, backwards: bool) -> u32 {
    let offset = address % 0x1000;
    if offset > 0x1000 - size {
        0
    } else if backwards {
        (offset / size + 1) as u32
    } else {
        ((0x1000 - offset) / size as int) as u32
    }
}

fn chunk_at(address: u32, size: u32, backwards: bool) -> (r: u32)
    requires
        size == 2 || size == 4,
    ensures
        r == chunk(address, size, backwards),
{
    let offset: u32 = address % 0x1000;
    if offset > 0x1000 - size {
        0
    } else if backwards {
        offset / size + 1
    } else {
        (0x1000 - offset) / size
    }
}

/// Elements of one step.
pub open spec fn reach(kind: Kind, src: u32, dst: u32, count: u32, size: u32, backwards: bool) -> u32 {
    let n = bulk_memory::smaller(count, chunk(dst, size, backwards));
    if kind is Cmps {
        bulk_memory::smaller(n, chunk(src, size, backwards))
    } else {
        n
    }
}

/// What a step is going to do.
pub open spec fn planned(
    u: UnalignedRep,
    rep: RepMemory,
    m: GuestMemory,
    kind: Kind,
    src: u32,
    dst: u32,
    count: u32,
    size: u32,
    backwards: bool,
) -> Plan {
    let n = reach(kind, src, dst, count, size, backwards);
    let least = if kind is Stos {
        64u32 / size
    } else {
        16u32 / size
    };
    if !u.enabled || !rep.enabled || count < 64u32 / size || (kind is Stos && m.write_watch) {
        Plan::Decline
    } else if n < least {
        Plan::Bridge
    } else {
        Plan::Translate(n)
    }
}

/// Plans a step. A store while a write is watched is rejected.
pub fn plan<const SIZE: u32>(
    u: &mut UnalignedRep,
    rep: &RepMemory,
    m: &GuestMemory,
    kind: Kind,
    src: u32,
    dst: u32,
    count: u32,
    backwards: bool,
) -> (r: Plan)
    requires
        old(u).wf(),
        SIZE == 2 || SIZE == 4,
    ensures
        final(u).wf(),
        r == planned(*old(u), *rep, *m, kind, src, dst, count, SIZE, backwards),
        if old(u).enabled && rep.enabled && count >= 64u32 / SIZE && kind is Stos && m.write_watch {
            final(u).noted(*old(u), STAT_REJECTED as int)
        } else {
            *final(u) == *old(u)
        },
{
    if !u.enabled || !rep.enabled || count < 64u32 / SIZE {
        return Plan::Decline;
    }
    let stos: bool = match kind {
        Kind::Stos => true,
        _ => false,
    };
    if stos && m.write_watch {
        u.record(STAT_REJECTED);
        return Plan::Decline;
    }
    let d: u32 = chunk_at(dst, SIZE, backwards);
    let mut n: u32 = if count < d {
        count
    } else {
        d
    };
    if let Kind::Cmps = kind {
        let s: u32 = chunk_at(src, SIZE, backwards);
        if s < n {
            n = s;
        }
    }
    let least: u32 = if stos {
        64u32 / SIZE
    } else {
        16u32 / SIZE
    };
    if n < least {
        Plan::Bridge
    } else {
        Plan::Translate(n)
    }
}

/// Records the one element that went through the ordinary accessors: `left` and `right` are
/// what they read, where the instruction reads.
pub fn bridged<const SIZE: u32>(
    u: &mut UnalignedRep,
    kind: Kind,
    value: i32,
    left: i32,
    right: i32,
) -> (r: Outcome)
    requires
        old(u).wf(),
        SIZE == 2 || SIZE == 4,
    ensures
        final(u).wf(),
        final(u).noted(*old(u), STAT_BRIDGE as int),
        r == bridge_outcome(kind, value, SIZE, left, right),
{
    u.record(STAT_BRIDGE);
    let own: i32 = if SIZE == 2 {
        value & 0xffff
    } else {
        value
    };
    match kind {
        Kind::Cmps => Outcome::Done { count: 1, left, right },
        Kind::Scas => Outcome::Done { count: 1, left: own, right },
        Kind::Stos => Outcome::Done { count: 1, left: own, right: 0 },
    }
}

/// One of the operands is no memory.
pub open spec fn on_device(m: GuestMemory, kind: Kind, phys_src: u32, phys_dst: u32) -> bool {
    (kind is Cmps && m.device(phys_src)) || m.device(phys_dst)
}

/// The comparison of a step.
pub open spec fn comparison(
    kind: Kind,
    phys_src: u32,
    phys_dst: u32,
    size: u32,
    backwards: bool,
    while_equal: bool,
    value: i32,
) -> rep_memory::Run {
    rep_memory::Run {
        constant: if kind is Scas {
            Some(rep_memory::low_part(value, size))
        } else {
            None
        },
        src: if kind is Scas {
            0
        } else {
            phys_src
        },
        dst: phys_dst,
        size,
        backwards,
        while_equal,
    }
}

/// The operands of a step lie within one page of memory each.
pub open spec fn in_reach(
    m: GuestMemory,
    kind: Kind,
    phys_src: u32,
    phys_dst: u32,
    n: u32,
    size: u32,
    backwards: bool,
) -> bool {
    &&& rep_memory::lowest(m, phys_dst, n, size, backwards) is Some
    &&& kind is Cmps ==> rep_memory::lowest(m, phys_src, n, size, backwards) is Some
}

/// A step whose operands are translated.
pub struct Translated {
    pub kind: Kind,
    pub phys_src: u32,
    pub phys_dst: u32,
    pub n: u32,
    pub size: u32,
    pub backwards: bool,
    pub while_equal: bool,
    pub value: i32,
}

impl Translated {
    pub open spec fn on_device(self, m: GuestMemory) -> bool {
        on_device(m, self.kind, self.phys_src, self.phys_dst)
    }

    /// The operands are memory, and within one page each.
    pub open spec fn ok(self, m: GuestMemory) -> bool {
        !self.on_device(m) && in_reach(
            m,
            self.kind,
            self.phys_src,
            self.phys_dst,
            self.n,
            self.size,
            self.backwards,
        )
    }

    /// The counter of steps of this kind that were done.
    pub open spec fn counter(self) -> int {
        (if self.kind is Cmps {
            0int
        } else if self.kind is Scas {
            2
        } else {
            4
        }) + (if self.size == 4 {
            1int
        } else {
            0
        })
    }

    /// The counter of the bodies that the step runs through.
    pub open spec fn body_counter(self, m: GuestMemory) -> usize {
        if !self.ok(m) {
            rep_memory::STAT_REJECTED
        } else {
            match self.kind {
                Kind::Cmps => rep_memory::STAT_CMPS,
                Kind::Scas => rep_memory::STAT_SCAS,
                Kind::Stos => if self.size == 2 {
                    rep_memory::STAT_STOSW
                } else {
                    rep_memory::STAT_STOSD
                },
            }
        }
    }

    pub open spec fn outcome(self, m: GuestMemory) -> Outcome {
        let c = comparison(
            self.kind,
            self.phys_src,
            self.phys_dst,
            self.size,
            self.backwards,
            self.while_equal,
            self.value,
        );
        let at = c.stop(m.ram@, 0, self.n as int);
        if !self.ok(m) {
            Outcome::Declined
        } else if self.kind is Stos {
            Outcome::Done { count: self.n, left: 0, right: 0 }
        } else {
            Outcome::Done {
                count: (at + 1) as u32,
                left: c.left(m.ram@, at),
                right: c.right(m.ram@, at),
            }
        }
    }

    pub open spec fn ram_after(self, m: GuestMemory) -> Seq<u8> {
        if self.ok(m) && self.kind is Stos {
            guest_mem::overwritten(
                m.ram@,
                (rep_memory::lowest(m, self.phys_dst, self.n, self.size, self.backwards)->0) as int,
                rep_memory::repeated(self.value, self.size, self.n),
            )
        } else {
            m.ram@
        }
    }
}

/// The step was done on translated operands, or declined, and counted.
pub open spec fn ran(
    u: UnalignedRep,
    rep: RepMemory,
    m: GuestMemory,
    t: Translated,
    u1: UnalignedRep,
    rep1: RepMemory,
    m1: GuestMemory,
    r: Outcome,
) -> bool {
    &&& r == t.outcome(m)
    &&& u1.noted(
        u,
        if t.ok(m) {
            t.counter()
        } else {
            STAT_REJECTED as int
        },
    )
    &&& t.on_device(m) ==> rep1 == rep
    &&& !t.on_device(m) ==> rep1.noted(rep, t.body_counter(m))
    &&& m1.same_map(m)
    &&& m1.ram@ == t.ram_after(m)
}

/// Does a step on translated operands. Before a store the caller has dropped the compiled code
/// of the page.
pub fn run<const SIZE: u32>(
    u: &mut UnalignedRep,
    rep: &mut RepMemory,
    m: &mut GuestMemory,
    kind: Kind,
    phys_src: u32,
    phys_dst: u32,
    n: u32,
    backwards: bool,
    while_equal: bool,
    value: i32,
) -> (r: Outcome)
    requires
        old(u).wf(),
        old(rep).wf(),
        old(m).wf(),
        SIZE == 2 || SIZE == 4,
        old(rep).enabled,
        n >= (if kind is Stos {
            64u32 / SIZE
        } else {
            16u32 / SIZE
        }),
        kind is Stos ==> !old(m).write_watch,
    ensures
        final(u).wf(),
        final(rep).wf(),
        final(m).wf(),
        final(m).same_map(*old(m)),
        ran(
            *old(u),
            *old(rep),
            *old(m),
            Translated { kind, phys_src, phys_dst, n, size: SIZE, backwards, while_equal, value },
            *final(u),
            *final(rep),
            *final(m),
            r,
        ),
{
    let two_runs: bool = match kind {
        Kind::Cmps => true,
        _ => false,
    };
    if (two_runs && m.in_mapped_range(phys_src)) || m.in_mapped_range(phys_dst) {
        u.record(STAT_REJECTED);
        return Outcome::Declined;
    }
    let wide: usize = if SIZE == 4 {
        1
    } else {
        0
    };
    match kind {
        Kind::Stos => {
            if fill::<SIZE>(rep, m, phys_dst, n, backwards, value) {
                u.record(4 + wide);
                Outcome::Done { count: n, left: 0, right: 0 }
            } else {
                u.record(STAT_REJECTED);
                Outcome::Declined
            }
        },
        Kind::Cmps => match compare::<SIZE, false>(
            rep,
            m,
            phys_src,
            phys_dst,
            n,
            backwards,
            while_equal,
            value,
        ) {
            Some((count, left, right)) => {
                u.record(wide);
                Outcome::Done { count, left, right }
            },
            None => {
                u.record(STAT_REJECTED);
                Outcome::Declined
            },
        },
        Kind::Scas => match compare::<SIZE, true>(
            rep,
            m,
            0,
            phys_dst,
            n,
            backwards,
            while_equal,
            value,
        ) {
            Some((count, left, right)) => {
                u.record(2 + wide);
                Outcome::Done { count, left, right }
            },
            None => {
                u.record(STAT_REJECTED);
                Outcome::Declined
            },
        },
    }
}

/// What a step needs next, or what came of it.
#[derive(Clone, Copy, Debug, PartialEq, Eq, Structural)]
pub enum Next {
    /// The element at the source is read by the ordinary accessor.
    ReadSource,
    /// The element at the destination is read by the ordinary accessor.
    ReadDestination,
    /// The constant is written to the destination by the ordinary accessor.
    WriteDestination,
    /// The source is translated, to be read.
    TranslateSource,
    /// The destination is translated, to be read.
    TranslateDestination,
    /// The destination is translated, to be written.
    TranslateToWrite,
    /// The compiled code of a page is dropped.
    DropCode(u32),
    /// An access or a translation faulted. The step did nothing.
    Fault(u32),
    Finished(Outcome),
}

/// What the caller found at an operand.
#[derive(Clone, Copy, Debug, PartialEq, Eq, Structural)]
pub enum Reply {
    /// It was not asked yet.
    Unasked,
    /// A fault, by a number of the caller's.
    Faulted(u32),
    /// The element that was read, or the physical address. Nothing, after a write.
    Found(u32),
}

/// A step of a repeated string instruction.
#[derive(Clone, Copy, Debug, PartialEq, Eq, Structural)]
pub struct Request {
    pub kind: Kind,
    pub src: u32,
    pub dst: u32,
    pub count: u32,
    pub backwards: bool,
    pub while_equal: bool,
    pub value: i32,
}

impl Request {
    pub open spec fn planned(self, u: UnalignedRep, rep: RepMemory, m: GuestMemory, size: u32) -> Plan {
        planned(u, rep, m, self.kind, self.src, self.dst, self.count, size, self.backwards)
    }
}

/// What is asked of the destination.
pub open spec fn asked_of_destination(p: Plan, kind: Kind) -> Next {
    if p is Bridge {
        if kind is Stos {
            Next::WriteDestination
        } else {
            Next::ReadDestination
        }
    } else if kind is Stos {
        Next::TranslateToWrite
    } else {
        Next::TranslateDestination
    }
}

/// What a step needs before it can finish. Comparisons of two runs need the source, before all
/// else; one on a device ends the step, whatever the destination is.
pub open spec fn due(
    p: Plan,
    m: GuestMemory,
    kind: Kind,
    src: Reply,
    dst: Reply,
    code_dropped: bool,
) -> Option<Next> {
    if p is Decline {
        None
    } else if kind is Cmps && src is Unasked {
        Some(
            if p is Bridge {
                Next::ReadSource
            } else {
                Next::TranslateSource
            },
        )
    } else if kind is Cmps && src is Faulted {
        Some(Next::Fault(src->Faulted_0))
    } else if kind is Cmps && p is Translate && m.device(src->Found_0) {
        None
    } else {
        match dst {
            Reply::Unasked => Some(asked_of_destination(p, kind)),
            Reply::Faulted(f) => Some(Next::Fault(f)),
            Reply::Found(at) => if kind is Stos && p is Translate && !m.device(at)
                && !code_dropped {
                Some(Next::DropCode(at / 0x1000))
            } else {
                None
            },
        }
    }
}

/// The one element that goes through the ordinary accessors.
pub open spec fn bridge_outcome(kind: Kind, value: i32, size: u32, left: i32, right: i32) -> Outcome {
    Outcome::Done {
        count: 1,
        left: if kind is Cmps {
            left
        } else {
            rep_memory::low_part(value, size)
        },
        right: if kind is Stos {
            0
        } else {
            right
        },
    }
}

/// What a step comes to once it needs no more.
pub open spec fn finished(
    u: UnalignedRep,
    rep: RepMemory,
    m: GuestMemory,
    q: Request,
    size: u32,
    src: Reply,
    dst: Reply,
    u1: UnalignedRep,
    rep1: RepMemory,
    m1: GuestMemory,
    r: Outcome,
) -> bool {
    let watched = u.enabled && rep.enabled && q.count >= 64u32 / size && q.kind is Stos
        && m.write_watch;
    match q.planned(u, rep, m, size) {
        Plan::Decline => {
            &&& r is Declined
            &&& rep1 == rep && m1 == m
            &&& watched ==> u1.noted(u, STAT_REJECTED as int)
            &&& !watched ==> u1 == u
        },
        Plan::Bridge => {
            &&& r == bridge_outcome(
                q.kind,
                q.value,
                size,
                src->Found_0 as i32,
                dst->Found_0 as i32,
            )
            &&& u1.noted(u, STAT_BRIDGE as int)
            &&& rep1 == rep && m1 == m
        },
        Plan::Translate(n) => if q.kind is Cmps && m.device(src->Found_0) {
            &&& r is Declined
            &&& u1.noted(u, STAT_REJECTED as int)
            &&& rep1 == rep && m1 == m
        } else {
            ran(
                u,
                rep,
                m,
                Translated {
                    kind: q.kind,
                    phys_src: if q.kind is Cmps {
                        src->Found_0
                    } else {
                        0
                    },
                    phys_dst: dst->Found_0,
                    n,
                    size,
                    backwards: q.backwards,
                    while_equal: q.while_equal,
                    value: q.value,
                },
                u1,
                rep1,
                m1,
                r,
            )
        },
    }
}

/// Goes on with a step, with what the caller has found so far: asks for what it needs next, or
/// finishes. The switches, counters and memory are the same between the calls for one step.
pub fn step<const SIZE: u32>(
    u: &mut UnalignedRep,
    rep: &mut RepMemory,
    m: &mut GuestMemory,
    q: &Request,
    src: Reply,
    dst: Reply,
    code_dropped: bool,
) -> (r: Next)
    requires
        old(u).wf(),
        old(rep).wf(),
        old(m).wf(),
        SIZE == 2 || SIZE == 4,
    ensures
        final(u).wf(),
        final(rep).wf(),
        final(m).wf(),
        match due(
            q.planned(*old(u), *old(rep), *old(m), SIZE),
            *old(m),
            q.kind,
            src,
            dst,
            code_dropped,
        ) {
            Some(next) => {
                &&& r == next
                &&& *final(u) == *old(u)
                &&& *final(rep) == *old(rep)
                &&& *final(m) == *old(m)
            },
            None => {
                &&& r is Finished
                &&& finished(
                    *old(u),
                    *old(rep),
                    *old(m),
                    *q,
                    SIZE,
                    src,
                    dst,
                    *final(u),
                    *final(rep),
                    *final(m),
                    r->Finished_0,
                )
            },
        },
{
    let p: Plan = plan::<SIZE>(u, rep, m, q.kind, q.src, q.dst, q.count, q.backwards);
    let (bridge, n): (bool, u32) = match p {
        Plan::Decline => return Next::Finished(Outcome::Declined),
        Plan::Bridge => (true, 0),
        Plan::Translate(n) => (false, n),
    };
    let mut left: u32 = 0;
    if let Kind::Cmps = q.kind {
        match src {
            Reply::Unasked => {
                return if bridge {
                    Next::ReadSource
                } else {
                    Next::TranslateSource
                };
            },
            Reply::Faulted(f) => return Next::Fault(f),
            Reply::Found(v) => {
                left = v;
            },
        }
        if !bridge && m.in_mapped_range(left) {
            u.record(STAT_REJECTED);
            return Next::Finished(Outcome::Declined);
        }
    }
    let stos: bool = match q.kind {
        Kind::Stos => true,
        _ => false,
    };
    let right: u32 = match dst {
        Reply::Unasked => {
            return if bridge {
                if stos {
                    Next::WriteDestination
                } else {
                    Next::ReadDestination
                }
            } else if stos {
                Next::TranslateToWrite
            } else {
                Next::TranslateDestination
            };
        },
        Reply::Faulted(f) => return Next::Fault(f),
        Reply::Found(v) => v,
    };
    if bridge {
        return Next::Finished(bridged::<SIZE>(u, q.kind, q.value, left as i32, right as i32));
    }
    if stos && !code_dropped && !m.in_mapped_range(right) {
        return Next::DropCode(right / 0x1000);
    }
    Next::Finished(
        run::<SIZE>(u, rep, m, q.kind, left, right, n, q.backwards, q.while_equal, q.value),
    )
}

/// The destination of a comparison of two runs is not touched before the source was found to be
/// there: until it was asked it is asked, and a fault at it is the result of the step whatever the
/// destination is. Only a fault at the destination comes after it.
pub proof fn law_the_source_comes_first(
    p: Plan,
    m: GuestMemory,
    src: Reply,
    dst: Reply,
    code_dropped: bool,
)
    requires
        !(p is Decline),
    ensures
        ({
            let next = due(p, m, Kind::Cmps, src, dst, code_dropped);
            &&& src is Unasked ==> next == Some(
                if p is Bridge {
                    Next::ReadSource
                } else {
                    Next::TranslateSource
                },
            )
            &&& src matches Reply::Faulted(f) ==> next == Some(Next::Fault(f))
            &&& next == Some(Next::ReadDestination) || next == Some(Next::TranslateDestination)
                ==> src is Found && dst is Unasked
            &&& src is Found && p is Bridge ==> {
                &&& dst is Unasked ==> next == Some(Next::ReadDestination)
                &&& dst matches Reply::Faulted(f) ==> next == Some(Next::Fault(f))
                &&& dst is Found ==> next is None
            }
            &&& src is Found && p is Translate && m.device(src->Found_0) ==> next is None
        }),
{
}

} // verus!
