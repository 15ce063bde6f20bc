//! What the first pass over a batch of tokens foretells of the second.
use vstd::prelude::*;
use crate::eagl_laws;
use crate::eagl_tokens;
use crate::eagl_tokens::{
    Progress, Setting, Step, CAPACITY, EAGL_E_FAIL, FVF_FID, PSCF_FID, RING_BASE, RING_CTRL,
    SAMP_SHADOW, SAMP_SKIP, SPS_FID, SRS_SHADOW, SRS_SKIP, SVS_FID, TEX_FID, VSCF_FID, VT_SET_FVF,
    VT_SET_PIXEL_SHADER, VT_SET_PS_CONST_F, VT_SET_TEXTURE, VT_SET_VERTEX_SHADER,
    VT_SET_VS_CONST_F,
};
use crate::virtual_mem;
use crate::virtual_mem::Space;

verus! {

/// Memory without the pages that hold the ring, the shadows and the counters.
pub open spec fn without(s: Space, ours: spec_fn(u32) -> bool) -> Space {
    Space { pages: s.pages.restrict(Set::new(|page: u32| !ours(page))), ..s }
}

/// The word at a virtual address can be written and lies on our pages.
pub open spec fn is_own_word(s: Space, ours: spec_fn(u32) -> bool, at: i32) -> bool {
    &&& eagl_laws::can_write_word(s, at)
    &&& ours(at as u32 / 0x1000)
    &&& ours(virtual_mem::beyond(at, 1) / 0x1000)
    &&& ours(virtual_mem::beyond(at, 2) / 0x1000)
    &&& ours(virtual_mem::beyond(at, 3) / 0x1000)
}

/// Two words have no byte in common.
pub open spec fn are_apart(s: Space, a: i32, b: i32) -> bool {
    forall|p: int| #[trigger] eagl_laws::covers(s, a, p) ==> !eagl_laws::covers(s, b, p)
}

/// The word of the ring at an offset.
pub open spec fn ring_word(e: Setting, offset: int) -> i32 {
    e.words[RING_BASE as int].wrapping_add(offset as i32)
}

/// The address is that of a state in a shadow.
pub open spec fn is_slot(e: Setting, cell: i32) -> bool {
    ||| e.words[SRS_SHADOW as int] != 0 && exists|i: int|
        0 <= i < 256 && cell == #[trigger] e.words[SRS_SHADOW as int].wrapping_add((i * 4) as i32)
    ||| e.words[SAMP_SHADOW as int] != 0 && exists|i: int|
        0 <= i < 256 && cell == #[trigger] e.words[SAMP_SHADOW as int].wrapping_add((i * 4) as i32)
}

/// A counter of saved calls is ours and apart from the shadows, where there is one.
pub open spec fn is_own_counter(e: Setting, s: Space, ours: spec_fn(u32) -> bool, at: i32) -> bool {
    at != 0 ==> {
        &&& is_own_word(s, ours, at)
        &&& forall|cell: i32| #[trigger] is_slot(e, cell) ==> are_apart(s, at, cell)
    }
}

/// No page of ours shares its memory with another page.
pub open spec fn are_own_frames(s: Space, ours: spec_fn(u32) -> bool) -> bool {
    forall|v: u32, w: u32|
        ours(v / 0x1000) && !ours(w / 0x1000) && (#[trigger] s.place(v)) is Some && (
        #[trigger] s.place(w)) is Some ==> s.place(v) != s.place(w)
}

/// The ring up to a limit, the shadows and the counters are ours, and are apart from each other.
#[verifier::opaque]
pub open spec fn is_arranged(
    e: Setting,
    s: Space,
    ours: spec_fn(u32) -> bool,
    limit: int,
) -> bool {
    &&& s.wf()
    &&& 0 <= limit <= i32::MAX
    &&& are_own_frames(s, ours)
    &&& forall|h: int| 0 <= h <= limit - 4 ==> is_own_word(s, ours, #[trigger] ring_word(e, h))
    &&& forall|cell: i32| #[trigger] is_slot(e, cell) ==> is_own_word(s, ours, cell)
    &&& forall|h: int, cell: i32|
        0 <= h <= limit - 4 && #[trigger] is_slot(e, cell) ==> are_apart(
            s,
            #[trigger] ring_word(e, h),
            cell,
        )
    &&& forall|a: i32, b: i32|
        #[trigger] is_slot(e, a) && #[trigger] is_slot(e, b) && a != b ==> are_apart(s, a, b)
    &&& is_own_counter(e, s, ours, e.words[SRS_SKIP as int])
    &&& is_own_counter(e, s, ours, e.words[SAMP_SKIP as int])
}

/// Memory outside our pages is as it was.
pub open spec fn is_intact(s: Space, ours: spec_fn(u32) -> bool, u: Space) -> bool {
    &&& virtual_mem::same_pages(s, u)
    &&& forall|v: u32|
        (#[trigger] s.place(v)) is Some && !ours(v / 0x1000) ==> u.ram[s.place(v)->0]
            == s.ram[s.place(v)->0]
}

/// The passes have come equally far: the second has used no more of the ring than the first has
/// counted, and as long as the first remembers every cell, it has used as much and the shadows
/// hold what the first takes them to hold.
#[verifier::opaque]
pub open spec fn are_tied(
    e: Setting,
    s: Space,
    ours: spec_fn(u32) -> bool,
    p: Progress,
    u: Space,
    q: Progress,
) -> bool {
    &&& !p.commit
    &&& q.commit
    &&& is_intact(s, ours, u)
    &&& 0 <= q.head <= p.head
    &&& !p.overflow ==> q.head == p.head
    &&& !p.overflow ==> forall|cell: i32| #[trigger]
        is_slot(e, cell) ==> u.word(cell) == eagl_tokens::seen(s, p, cell)
}

proof fn lemma_byte(s: Space, ours: spec_fn(u32) -> bool, u: Space, v: u32)
    requires
        is_intact(s, ours, u),
        without(s, ours).byte(v) is Some,
    ensures
        u.byte(v) == without(s, ours).byte(v),
{
    assert(s.place(v) == without(s, ours).place(v));
    assert(u.place(v) == s.place(v));
}

proof fn lemma_word(s: Space, ours: spec_fn(u32) -> bool, u: Space, v: i32)
    requires
        is_intact(s, ours, u),
    ensures
        without(s, ours).word(v) is Some ==> u.word(v) == without(s, ours).word(v),
        without(s, ours).half(v) is Some ==> u.half(v) == without(s, ours).half(v),
{
    reveal(Space::word);
    reveal(Space::half);
    let o = without(s, ours);
    if o.byte(v as u32) is Some {
        lemma_byte(s, ours, u, v as u32);
    }
    if o.byte(virtual_mem::beyond(v, 1)) is Some {
        lemma_byte(s, ours, u, virtual_mem::beyond(v, 1));
    }
    if o.byte(virtual_mem::beyond(v, 2)) is Some {
        lemma_byte(s, ours, u, virtual_mem::beyond(v, 2));
    }
    if o.byte(virtual_mem::beyond(v, 3)) is Some {
        lemma_byte(s, ours, u, virtual_mem::beyond(v, 3));
    }
}

proof fn lemma_words(s: Space, ours: spec_fn(u32) -> bool, u: Space)
    requires
        is_intact(s, ours, u),
    ensures
        forall|v: i32| (#[trigger] without(s, ours).word(v)) is Some ==> u.word(v) == without(
            s,
            ours,
        ).word(v),
        forall|v: i32| (#[trigger] without(s, ours).half(v)) is Some ==> u.half(v) == without(
            s,
            ours,
        ).half(v),
{
    assert forall|v: i32| (#[trigger] without(s, ours).word(v)) is Some implies u.word(v)
        == without(s, ours).word(v) by {
        lemma_word(s, ours, u, v);
    }
    assert forall|v: i32| (#[trigger] without(s, ours).half(v)) is Some implies u.half(v)
        == without(s, ours).half(v) by {
        lemma_word(s, ours, u, v);
    }
}

proof fn lemma_stub(
    s: Space,
    ours: spec_fn(u32) -> bool,
    u: Space,
    vt: i32,
    slot: i32,
    expected: i32,
)
    requires
        is_intact(s, ours, u),
        eagl_tokens::stub(without(s, ours), vt, slot, expected) is Some,
    ensures
        eagl_tokens::stub(u, vt, slot, expected) == eagl_tokens::stub(
            without(s, ours),
            vt,
            slot,
            expected,
        ),
{
    reveal(eagl_tokens::stub);
    let o = without(s, ours);
    lemma_words(s, ours, u);
    lemma_byte(s, ours, u, (o.word(vt.wrapping_add(slot))->0) as u32);
}

proof fn lemma_record(s: Space, ours: spec_fn(u32) -> bool, u: Space, ctx: i32, n: i32)
    requires
        is_intact(s, ours, u),
        eagl_tokens::record(without(s, ours), ctx, n) is Some,
    ensures
        eagl_tokens::record(u, ctx, n) == eagl_tokens::record(without(s, ours), ctx, n),
{
    reveal(eagl_tokens::record);
    lemma_words(s, ours, u);
}

proof fn lemma_named(
    c: Seq<i32>,
    s: Space,
    ours: spec_fn(u32) -> bool,
    u: Space,
    node: i32,
    stage: i32,
)
    requires
        is_intact(s, ours, u),
        eagl_tokens::named(c, without(s, ours), node, stage) is Some,
    ensures
        eagl_tokens::named(c, u, node, stage) == eagl_tokens::named(
            c,
            without(s, ours),
            node,
            stage,
        ),
{
    reveal(eagl_tokens::named);
    lemma_words(s, ours, u);
}

/// A word of ours is written: the rest of memory stays, and so does every word apart from it.
proof fn lemma_own_write(s: Space, ours: spec_fn(u32) -> bool, u: Space, at: i32, x: i32)
    requires
        is_intact(s, ours, u),
        are_own_frames(s, ours),
        is_own_word(s, ours, at),
    ensures
        u.with_word(at, x) is Some,
        is_intact(s, ours, u.with_word(at, x)->0),
{
    reveal(Space::with_word);
    let t = u.with_word(at, x)->0;
    assert forall|v: u32|
        (#[trigger] s.place(v)) is Some && !ours(v / 0x1000) implies t.ram[s.place(v)->0]
        == s.ram[s.place(v)->0] by {
        assert(s.place(v) != s.place(at as u32));
        assert(s.place(v) != s.place(virtual_mem::beyond(at, 1)));
        assert(s.place(v) != s.place(virtual_mem::beyond(at, 2)));
        assert(s.place(v) != s.place(virtual_mem::beyond(at, 3)));
    }
}

pub proof fn lemma_other_word(s: Space, u: Space, at: i32, x: i32, other: i32)
    requires
        virtual_mem::same_pages(s, u),
        u.with_word(at, x) is Some,
        are_apart(s, at, other),
    ensures
        (u.with_word(at, x)->0).word(other) == u.word(other),
{
    reveal(Space::with_word);
    reveal(Space::word);
    assert(eagl_laws::covers(s, at, s.place(at as u32)->0));
    assert(eagl_laws::covers(s, at, s.place(virtual_mem::beyond(at, 1))->0));
    assert(eagl_laws::covers(s, at, s.place(virtual_mem::beyond(at, 2))->0));
    assert(eagl_laws::covers(s, at, s.place(virtual_mem::beyond(at, 3))->0));
}

/// The shadows are the same in both.
spec fn same_slots(e: Setting, u: Space, t: Space) -> bool {
    forall|cell: i32| #[trigger] is_slot(e, cell) ==> t.word(cell) == u.word(cell)
}

proof fn lemma_ring_word(
    e: Setting,
    s: Space,
    ours: spec_fn(u32) -> bool,
    limit: int,
    u: Space,
    offset: int,
    x: i32,
)
    requires
        is_arranged(e, s, ours, limit),
        is_intact(s, ours, u),
        0 <= offset <= limit - 4,
    ensures
        ({
            let t = u.with_word(ring_word(e, offset), x);
            &&& t is Some
            &&& is_intact(s, ours, t->0)
            &&& same_slots(e, u, t->0)
        }),
{
    reveal(is_arranged);
    let at = ring_word(e, offset);
    lemma_own_write(s, ours, u, at, x);
    assert forall|cell: i32| #[trigger] is_slot(e, cell) implies (u.with_word(at, x)->0).word(cell)
        == u.word(cell) by {
        lemma_other_word(s, u, at, x, cell);
    }
}

proof fn lemma_ring_words(
    e: Setting,
    s: Space,
    ours: spec_fn(u32) -> bool,
    limit: int,
    u: Space,
    head: i32,
    ws: Seq<i32>,
    i: int,
)
    requires
        is_arranged(e, s, ours, limit),
        is_intact(s, ours, u),
        0 <= head,
        head + 4 * ws.len() <= limit,
        0 <= i <= ws.len(),
    ensures
        ({
            let at = e.words[RING_BASE as int].wrapping_add(head);
            let (t, ok) = eagl_tokens::words_written(u, at, ws, i);
            &&& ok
            &&& is_intact(s, ours, t)
            &&& same_slots(e, u, t)
        }),
    decreases ws.len() - i,
{
    if i < ws.len() {
        assert(limit <= i32::MAX) by {
            reveal(is_arranged);
        }
        let at = e.words[RING_BASE as int].wrapping_add(head);
        let cell = at.wrapping_add((i * 4) as i32);
        assert(cell == ring_word(e, head + 4 * i));
        lemma_ring_word(e, s, ours, limit, u, head + 4 * i, ws[i]);
        let t = u.with_word(cell, ws[i])->0;
        lemma_ring_words(e, s, ours, limit, t, head, ws, i + 1);
    }
}

proof fn lemma_payload(
    e: Setting,
    s: Space,
    ours: spec_fn(u32) -> bool,
    limit: int,
    u: Space,
    src: i32,
    head: i32,
    i: int,
    n: int,
)
    requires
        is_arranged(e, s, ours, limit),
        is_intact(s, ours, u),
        0 <= head,
        head + 16 + 4 * n <= limit,
        0 <= i <= n,
        is_readable(without(s, ours), src, n),
    ensures
        ({
            let at = e.words[RING_BASE as int].wrapping_add(head).wrapping_add(16);
            let (t, ok) = eagl_tokens::payload(u, src, at, i, n);
            &&& ok
            &&& is_intact(s, ours, t)
            &&& same_slots(e, u, t)
        }),
    decreases n - i,
{
    if i < n {
        assert(limit <= i32::MAX) by {
            reveal(is_arranged);
        }
        let at = e.words[RING_BASE as int].wrapping_add(head).wrapping_add(16);
        let from = src.wrapping_add((i * 4) as i32);
        let cell = at.wrapping_add((i * 4) as i32);
        assert(cell == ring_word(e, head + 16 + 4 * i));
        assert(without(s, ours).word(from) is Some);
        lemma_word(s, ours, u, from);
        let x = u.word(from)->0;
        lemma_ring_word(e, s, ours, limit, u, head + 16 + 4 * i, x);
        let t = u.with_word(cell, x)->0;
        lemma_payload(e, s, ours, limit, t, src, head, i + 1, n);
    }
}

/// Some words one after the other can be read.
pub open spec fn is_readable(s: Space, at: i32, n: int) -> bool {
    forall|i: int| 0 <= i < n ==> (#[trigger] s.word(at.wrapping_add((i * 4) as i32))) is Some
}

/// The bytes that a state takes on the ring, where all that is read for it can be read.
pub open spec fn state_room(e: Setting, s: Space, class: u32, number: i32, stage: i32) -> Option<
    nat,
> {
    match eagl_tokens::setter(e.words, class, number, stage) {
        None => None,
        Some(t) => if eagl_tokens::stub(s, e.vt, t.slot, t.fid) is Some && eagl_tokens::shadow_cell(
            e.words,
            s,
            e.dev,
            t,
        ) is Some {
            Some(
                if t.staged {
                    20
                } else {
                    16
                },
            )
        } else {
            None
        },
    }
}

/// The bytes that a call with one argument takes.
pub open spec fn call_room(e: Setting, s: Space, slot: i32, expected: i32) -> Option<nat> {
    if eagl_tokens::stub(s, e.vt, slot, expected) is Some {
        Some(12)
    } else {
        None
    }
}

/// The bytes that constants take.
pub open spec fn constants_room(e: Setting, s: Space, pixel: bool, src: i32, n: i32) -> Option<nat> {
    let found = if pixel {
        eagl_tokens::stub(s, e.vt, VT_SET_PS_CONST_F, e.words[PSCF_FID as int])
    } else {
        eagl_tokens::stub(s, e.vt, VT_SET_VS_CONST_F, e.words[VSCF_FID as int])
    };
    if n == 0 {
        Some(0)
    } else if 0 < n <= 256 && found is Some && is_readable(s, src, n * 4) {
        Some((16 + n * 16) as nat)
    } else {
        None
    }
}

/// Both passes went on, the first with a count of at most `room` bytes.
spec fn go_on(
    e: Setting,
    s: Space,
    ours: spec_fn(u32) -> bool,
    p: Progress,
    a: (Space, Progress, bool),
    c: (Space, Progress, bool),
    room: nat,
) -> bool {
    &&& a.0 == s
    &&& a.2
    &&& c.2
    &&& are_tied(e, s, ours, a.1, c.0, c.1)
    &&& p.head <= a.1.head <= p.head + room
}

/// So they did, with the same result.
spec fn agree(
    e: Setting,
    s: Space,
    ours: spec_fn(u32) -> bool,
    p: Progress,
    a: (Space, Progress, Option<i32>),
    c: (Space, Progress, Option<i32>),
    room: (nat, i32),
) -> bool {
    &&& a.0 == s
    &&& a.2 == Some(room.1)
    &&& c.2 == Some(room.1)
    &&& are_tied(e, s, ours, a.1, c.0, c.1)
    &&& p.head <= a.1.head <= p.head + room.0
}

proof fn lemma_appended(
    e: Setting,
    s: Space,
    ours: spec_fn(u32) -> bool,
    limit: int,
    p: Progress,
    u: Space,
    q: Progress,
    call: Seq<i32>,
)
    requires
        is_arranged(e, s, ours, limit),
        are_tied(e, s, ours, p, u, q),
        call.len() <= 8,
        p.head + 4 * call.len() <= limit,
    ensures
        go_on(
            e,
            s,
            ours,
            p,
            eagl_tokens::appended(e, s, p, call),
            eagl_tokens::appended(e, u, q, call),
            4 * call.len(),
        ),
{
    reveal(are_tied);
    assert(limit <= i32::MAX) by {
        reveal(is_arranged);
    }
    lemma_ring_words(e, s, ours, limit, u, q.head, call, 0);
    let n = (call.len() * 4) as i32;
    assert(p.past(n).head == p.head + n);
    assert(q.past(n).head == q.head + n);
    assert forall|cell: i32| is_slot(e, cell) implies eagl_tokens::seen(s, p.past(n), cell)
        == eagl_tokens::seen(s, p, cell) by {}
}

proof fn lemma_one(
    e: Setting,
    s: Space,
    ours: spec_fn(u32) -> bool,
    limit: int,
    p: Progress,
    u: Space,
    q: Progress,
    slot: i32,
    expected: i32,
    v: i32,
)
    requires
        is_arranged(e, s, ours, limit),
        are_tied(e, s, ours, p, u, q),
        call_room(e, without(s, ours), slot, expected) is Some,
        p.head + 12 <= limit,
    ensures
        go_on(
            e,
            s,
            ours,
            p,
            eagl_tokens::one_set(e, s, p, slot, expected, v),
            eagl_tokens::one_set(e, u, q, slot, expected, v),
            12,
        ),
{
    assert(is_intact(s, ours, u)) by {
        reveal(are_tied);
    }
    lemma_stub(s, ours, s, e.vt, slot, expected);
    lemma_stub(s, ours, u, e.vt, slot, expected);
    let fid = eagl_tokens::stub(s, e.vt, slot, expected)->0;
    lemma_appended(e, s, ours, limit, p, u, q, seq![fid, e.dev, v]);
}

proof fn lemma_constants(
    e: Setting,
    s: Space,
    ours: spec_fn(u32) -> bool,
    limit: int,
    p: Progress,
    u: Space,
    q: Progress,
    pixel: bool,
    start: i32,
    src: i32,
    n: i32,
)
    requires
        is_arranged(e, s, ours, limit),
        are_tied(e, s, ours, p, u, q),
        constants_room(e, without(s, ours), pixel, src, n) is Some,
        p.head + constants_room(e, without(s, ours), pixel, src, n)->0 <= limit,
    ensures
        go_on(
            e,
            s,
            ours,
            p,
            eagl_tokens::constants_set(e, s, p, pixel, start, src, n),
            eagl_tokens::constants_set(e, u, q, pixel, start, src, n),
            constants_room(e, without(s, ours), pixel, src, n)->0,
        ),
{
    reveal(eagl_tokens::constants_set);
    reveal(are_tied);
    assert(limit <= i32::MAX) by {
        reveal(is_arranged);
    }
    if n != 0 {
        let o = without(s, ours);
        let (slot, fid) = if pixel {
            (VT_SET_PS_CONST_F, e.words[PSCF_FID as int])
        } else {
            (VT_SET_VS_CONST_F, e.words[VSCF_FID as int])
        };
        lemma_stub(s, ours, s, e.vt, slot, fid);
        lemma_stub(s, ours, u, e.vt, slot, fid);
        lemma_words(s, ours, s);
        assert(o.word(src.wrapping_add((0int * 4) as i32)) is Some);
        assert(o.word(src.wrapping_add(((n * 4 - 1) * 4) as i32)) is Some);
        assert((n * 4 - 1) * 4 == n * 16 - 4);
        let call = seq![eagl_tokens::stub(u, e.vt, slot, fid)->0, e.dev, start, n];
        let at = e.words[RING_BASE as int].wrapping_add(q.head);
        lemma_ring_words(e, s, ours, limit, u, q.head, call, 0);
        let t = eagl_tokens::words_written(u, at, call, 0).0;
        lemma_payload(e, s, ours, limit, t, src, q.head, 0, n * 4);
        let size = (16 + n * 16) as i32;
        assert(p.past(size).head == p.head + size);
        assert(q.past(size).head == q.head + size);
        let x = eagl_tokens::payload(t, src, at.wrapping_add(16), 0, n * 4).0;
        if !p.overflow {
            assert forall|cell: i32| #[trigger] is_slot(e, cell) implies x.word(cell)
                == eagl_tokens::seen(s, p.past(size), cell) by {
                assert(u.word(cell) == eagl_tokens::seen(s, p, cell));
            }
        }
    }
}

proof fn lemma_slot(e: Setting, class: u32, number: i32, stage: i32)
    requires
        eagl_tokens::setter(e.words, class, number, stage) is Some,
    ensures
        ({
            let t = eagl_tokens::setter(e.words, class, number, stage)->0;
            &&& t.shadow != 0 && t.place >= 0 ==> is_slot(
                e,
                t.shadow.wrapping_add((t.place * 4) as i32),
            )
            &&& t.skip == 0 || t.skip == e.words[SRS_SKIP as int] || t.skip
                == e.words[SAMP_SKIP as int]
        }),
{
    let t = eagl_tokens::setter(e.words, class, number, stage)->0;
    let i = t.place as int;
    if t.shadow != 0 && t.place >= 0 {
        assert(0 <= i < 256);
        assert(t.shadow.wrapping_add((i * 4) as i32) == t.shadow.wrapping_add(
            (t.place * 4) as i32,
        ));
    }
}

/// A saved call is counted.
proof fn lemma_saved(
    e: Setting,
    s: Space,
    ours: spec_fn(u32) -> bool,
    limit: int,
    u: Space,
    skip: i32,
)
    requires
        is_arranged(e, s, ours, limit),
        is_intact(s, ours, u),
        skip == 0 || skip == e.words[SRS_SKIP as int] || skip == e.words[SAMP_SKIP as int],
    ensures
        ({
            let (t, ok) = eagl_tokens::saved(u, skip);
            &&& ok
            &&& is_intact(s, ours, t)
            &&& same_slots(e, u, t)
        }),
{
    reveal(is_arranged);
    if skip != 0 {
        assert(u.word(skip) is Some) by {
            reveal(Space::word);
        }
        let x = (u.word(skip)->0).wrapping_add(1);
        lemma_own_write(s, ours, u, skip, x);
        assert forall|cell: i32| #[trigger] is_slot(e, cell) implies (u.with_word(
            skip,
            x,
        )->0).word(cell) == u.word(cell) by {
            lemma_other_word(s, u, skip, x, cell);
        }
    }
}

/// A state is noted in a shadow: it reads back, and the others stay.
proof fn lemma_noted(
    e: Setting,
    s: Space,
    ours: spec_fn(u32) -> bool,
    limit: int,
    u: Space,
    cell: i32,
    v: i32,
)
    requires
        is_arranged(e, s, ours, limit),
        is_intact(s, ours, u),
        is_slot(e, cell),
    ensures
        u.with_word(cell, v) is Some,
        is_intact(s, ours, u.with_word(cell, v)->0),
        (u.with_word(cell, v)->0).word(cell) == Some(v),
        forall|other: i32| #[trigger]
            is_slot(e, other) && other != cell ==> (u.with_word(cell, v)->0).word(other) == u.word(
                other,
            ),
{
    reveal(is_arranged);
    lemma_own_write(s, ours, u, cell, v);
    assert(u.wf());
    virtual_mem::law_a_written_word_reads_back(u, cell, v);
    assert forall|other: i32| #[trigger] is_slot(e, other) && other != cell implies (u.with_word(
        cell,
        v,
    )->0).word(other) == u.word(other) by {
        lemma_other_word(s, u, cell, v, other);
    }
}

proof fn lemma_state(
    e: Setting,
    s: Space,
    ours: spec_fn(u32) -> bool,
    limit: int,
    p: Progress,
    u: Space,
    q: Progress,
    class: u32,
    number: i32,
    stage: i32,
    v: i32,
)
    requires
        is_arranged(e, s, ours, limit),
        are_tied(e, s, ours, p, u, q),
        state_room(e, without(s, ours), class, number, stage) is Some,
        p.head + state_room(e, without(s, ours), class, number, stage)->0 <= limit,
    ensures
        go_on(
            e,
            s,
            ours,
            p,
            eagl_tokens::state_set(e, s, p, class, number, stage, v),
            eagl_tokens::state_set(e, u, q, class, number, stage, v),
            state_room(e, without(s, ours), class, number, stage)->0,
        ),
{
    reveal(eagl_tokens::state_set);
    reveal(are_tied);
    assert(limit <= i32::MAX) by {
        reveal(is_arranged);
    }
    let o = without(s, ours);
    let t = eagl_tokens::setter(e.words, class, number, stage)->0;
    lemma_slot(e, class, number, stage);
    lemma_stub(s, ours, s, e.vt, t.slot, t.fid);
    lemma_stub(s, ours, u, e.vt, t.slot, t.fid);
    lemma_words(s, ours, s);
    lemma_words(s, ours, u);
    let fid = eagl_tokens::stub(o, e.vt, t.slot, t.fid)->0;
    let cell = eagl_tokens::shadow_cell(e.words, o, e.dev, t)->0;
    assert(eagl_tokens::shadow_cell(e.words, s, e.dev, t) == Some(cell));
    assert(eagl_tokens::shadow_cell(e.words, u, e.dev, t) == Some(cell));
    let kept = eagl_tokens::shadowed(e.words, o, e.dev, t);
    assert(eagl_tokens::shadowed(e.words, s, e.dev, t) == kept);
    assert(eagl_tokens::shadowed(e.words, u, e.dev, t) == kept);
    assert(kept ==> is_slot(e, cell));
    assert(cell != 0 ==> kept);
    let call = eagl_tokens::state_call(fid, e.dev, t, stage, number, v);
    let n = (call.len() * 4) as i32;
    if kept {
        assert(s.word(cell) is Some && u.word(cell) is Some) by {
            reveal(is_arranged);
            reveal(Space::word);
        }
    }
    lemma_saved(e, s, ours, limit, u, t.skip);
    lemma_ring_words(e, s, ours, limit, u, q.head, call, 0);
    let at = e.words[RING_BASE as int].wrapping_add(q.head);
    let x = eagl_tokens::words_written(u, at, call, 0).0;
    if kept {
        lemma_noted(e, s, ours, limit, x, cell, v);
    }
    assert(p.past(n).head == p.head + n);
    assert(q.past(n).head == q.head + n);
    let a = eagl_tokens::state_set(e, s, p, class, number, stage, v);
    let c = eagl_tokens::state_set(e, u, q, class, number, stage, v);
    assert(a.0 == s && a.2 && c.2);
    assert(is_intact(s, ours, c.0));
    if !a.1.overflow {
        assert(!p.overflow);
        assert forall|other: i32| #[trigger] is_slot(e, other) implies c.0.word(other)
            == eagl_tokens::seen(s, a.1, other) by {
            assert(u.word(other) == eagl_tokens::seen(s, p, other));
            assert(x.word(other) == u.word(other));
            eagl_tokens::law_the_model_holds_what_is_written(p, cell, v, other);
        }
    }
}

/// The bytes that a texture takes.
pub open spec fn texture_room(e: Setting, s: Space, n: i32) -> Option<(nat, i32)> {
    if e.mode == 2 || e.words[TEX_FID as int] == 0 {
        None
    } else {
        match eagl_tokens::record(s, e.ctx, n) {
            None => None,
            Some(r) => if s.word(r.wrapping_add(4)) is Some && eagl_tokens::stub(
                s,
                e.vt,
                VT_SET_TEXTURE,
                e.words[TEX_FID as int],
            ) is Some {
                Some((16, 0i32))
            } else {
                None
            },
        }
    }
}

proof fn lemma_texture(
    e: Setting,
    s: Space,
    ours: spec_fn(u32) -> bool,
    limit: int,
    p: Progress,
    u: Space,
    q: Progress,
    n: i32,
    stage: i32,
)
    requires
        is_arranged(e, s, ours, limit),
        are_tied(e, s, ours, p, u, q),
        texture_room(e, without(s, ours), n) is Some,
        p.head + 16 <= limit,
    ensures
        agree(
            e,
            s,
            ours,
            p,
            eagl_tokens::texture_set(e, s, p, n, stage),
            eagl_tokens::texture_set(e, u, q, n, stage),
            (16, 0),
        ),
{
    reveal(eagl_tokens::texture_set);
    assert(is_intact(s, ours, u)) by {
        reveal(are_tied);
    }
    lemma_record(s, ours, s, e.ctx, n);
    lemma_record(s, ours, u, e.ctx, n);
    lemma_words(s, ours, s);
    lemma_words(s, ours, u);
    lemma_stub(s, ours, s, e.vt, VT_SET_TEXTURE, e.words[TEX_FID as int]);
    lemma_stub(s, ours, u, e.vt, VT_SET_TEXTURE, e.words[TEX_FID as int]);
    let r = eagl_tokens::record(s, e.ctx, n)->0;
    let v = s.word(r.wrapping_add(4))->0;
    let fid = eagl_tokens::stub(s, e.vt, VT_SET_TEXTURE, e.words[TEX_FID as int])->0;
    lemma_appended(e, s, ours, limit, p, u, q, seq![fid, e.dev, stage, v]);
}

/// The bytes that a token within a batch takes, and its result.
pub type Room = spec_fn(i32, i32) -> Option<(nat, i32)>;

/// The bytes and the result of what comes after some bytes.
pub open spec fn after(room: nat, rest: Option<(nat, i32)>) -> Option<(nat, i32)> {
    match rest {
        None => None,
        Some((more, r)) => Some((room + more, r)),
    }
}

/// The bytes that the tokens of a pass from the `i`-th on take.
pub open spec fn tokens_room(room: Room, base: i32, stage: i32, i: int, n: int) -> Option<
    (nat, i32),
>
    decreases n - i,
{
    if i >= n {
        Some((0, 0i32))
    } else {
        match room(base.wrapping_add((i as i32).wrapping_mul(0xac)), stage) {
            None => None,
            Some((b, v)) => if v < 0 {
                Some((b, v))
            } else {
                after(b, tokens_room(room, base, stage, i + 1, n))
            },
        }
    }
}

/// The bytes that the pass of the `k`-th entry of a program takes.
#[verifier::opaque]
pub open spec fn pass_room(
    e: Setting,
    s: Space,
    room: Room,
    head: i32,
    stage: i32,
    k: int,
) -> Option<(nat, i32)> {
    match s.word(head.wrapping_add(0x30)) {
        None => None,
        Some(list) => match s.word(list.wrapping_add((k as i32).wrapping_mul(4))) {
            None => None,
            Some(at) => if at == 0 {
                Some((0, 0i32))
            } else {
                match (s.word(at.wrapping_add(4)), s.word(e.ctx.wrapping_add(0x8c))) {
                    (Some(named), Some(table)) => match s.word(named.wrapping_add(4)) {
                        None => None,
                        Some(id) => match s.word(table.wrapping_add(id.wrapping_mul(4))) {
                            None => None,
                            Some(r) => match (
                                s.word(r.wrapping_add(0x3c)),
                                s.word(r.wrapping_add(0x40)),
                            ) {
                                (Some(n), Some(base)) => if n as u32 > 256 {
                                    None
                                } else {
                                    tokens_room(room, base, stage, 0, n as int)
                                },
                                _ => None,
                            },
                        },
                    },
                    _ => None,
                }
            },
        },
    }
}

/// The bytes that the entries of a program's table from the `k`-th on take.
#[verifier::opaque]
pub open spec fn entries_room(
    e: Setting,
    s: Space,
    nested: bool,
    room: Room,
    pixel: bool,
    head: i32,
    floats: i32,
    at: i32,
    k: int,
    n: int,
) -> Option<(nat, i32)>
    decreases n - k,
{
    if k >= n {
        Some((0, 0i32))
    } else {
        let next = at.wrapping_add(20);
        match (s.half(at.wrapping_sub(2)), s.half(at), s.half(at.wrapping_add(2))) {
            (Some(kind), Some(reg), Some(count)) => if kind == 2 {
                let src = floats.wrapping_add(reg.wrapping_mul(16));
                match constants_room(e, s, pixel, src, count) {
                    None => None,
                    Some(b) => after(
                        b,
                        entries_room(e, s, nested, room, pixel, head, floats, next, k + 1, n),
                    ),
                }
            } else if kind == 0 || kind == 1 {
                None
            } else if kind == 3 && pixel {
                if nested {
                    None
                } else {
                    match pass_room(e, s, room, head, reg, k) {
                        None => None,
                        Some((b, v)) => if v < 0 {
                            Some((b, v))
                        } else {
                            after(
                                b,
                                entries_room(
                                    e,
                                    s,
                                    nested,
                                    room,
                                    pixel,
                                    head,
                                    floats,
                                    next,
                                    k + 1,
                                    n,
                                ),
                            )
                        },
                    }
                }
            } else if pixel {
                Some((0, EAGL_E_FAIL))
            } else {
                entries_room(e, s, nested, room, pixel, head, floats, next, k + 1, n)
            },
            _ => None,
        }
    }
}

/// Tokens of a pass go on alike in both passes over the batch.
spec fn is_tied_step(
    e: Setting,
    s: Space,
    ours: spec_fn(u32) -> bool,
    limit: int,
    step: Step,
    room: Room,
) -> bool {
    forall|p: Progress, u: Space, q: Progress, n: i32, g: i32|
        are_tied(e, s, ours, p, u, q) && room(n, g) is Some && p.head + (room(n, g)->0).0 <= limit
            ==> agree(
            e,
            s,
            ours,
            p,
            #[trigger] step(s, p, n, g),
            #[trigger] step(u, q, n, g),
            room(n, g)->0,
        )
}

proof fn lemma_tokens(
    e: Setting,
    s: Space,
    ours: spec_fn(u32) -> bool,
    limit: int,
    p: Progress,
    u: Space,
    q: Progress,
    step: Step,
    room: Room,
    base: i32,
    stage: i32,
    i: int,
    n: int,
)
    requires
        is_tied_step(e, s, ours, limit, step, room),
        are_tied(e, s, ours, p, u, q),
        tokens_room(room, base, stage, i, n) is Some,
        p.head + (tokens_room(room, base, stage, i, n)->0).0 <= limit,
    ensures
        agree(
            e,
            s,
            ours,
            p,
            eagl_tokens::tokens_done(s, p, step, base, stage, i, n),
            eagl_tokens::tokens_done(u, q, step, base, stage, i, n),
            tokens_room(room, base, stage, i, n)->0,
        ),
    decreases n - i,
{
    if i < n {
        let node = base.wrapping_add((i as i32).wrapping_mul(0xac));
        let a = step(s, p, node, stage);
        let c = step(u, q, node, stage);
        assert(agree(e, s, ours, p, a, c, room(node, stage)->0));
        if (room(node, stage)->0).1 >= 0 {
            lemma_tokens(e, s, ours, limit, a.1, c.0, c.1, step, room, base, stage, i + 1, n);
        }
    }
}

proof fn lemma_pass(
    e: Setting,
    s: Space,
    ours: spec_fn(u32) -> bool,
    limit: int,
    p: Progress,
    u: Space,
    q: Progress,
    step: Step,
    room: Room,
    head: i32,
    stage: i32,
    k: int,
)
    requires
        is_tied_step(e, s, ours, limit, step, room),
        are_tied(e, s, ours, p, u, q),
        pass_room(e, without(s, ours), room, head, stage, k) is Some,
        p.head + (pass_room(e, without(s, ours), room, head, stage, k)->0).0 <= limit,
    ensures
        agree(
            e,
            s,
            ours,
            p,
            eagl_tokens::pass_done(e, s, p, step, head, stage, k),
            eagl_tokens::pass_done(e, u, q, step, head, stage, k),
            pass_room(e, without(s, ours), room, head, stage, k)->0,
        ),
{
    reveal(pass_room);
    reveal(eagl_tokens::pass_done);
    assert(is_intact(s, ours, u)) by {
        reveal(are_tied);
    }
    lemma_words(s, ours, s);
    lemma_words(s, ours, u);
    let o = without(s, ours);
    let list = o.word(head.wrapping_add(0x30))->0;
    let at = o.word(list.wrapping_add((k as i32).wrapping_mul(4)))->0;
    if at != 0 {
        let named = o.word(at.wrapping_add(4))->0;
        let table = o.word(e.ctx.wrapping_add(0x8c))->0;
        let id = o.word(named.wrapping_add(4))->0;
        let r = o.word(table.wrapping_add(id.wrapping_mul(4)))->0;
        let n = o.word(r.wrapping_add(0x3c))->0;
        let base = o.word(r.wrapping_add(0x40))->0;
        lemma_tokens(e, s, ours, limit, p, u, q, step, room, base, stage, 0, n as int);
    }
}

proof fn lemma_entries(
    e: Setting,
    s: Space,
    ours: spec_fn(u32) -> bool,
    limit: int,
    p: Progress,
    u: Space,
    q: Progress,
    nested: bool,
    step: Step,
    room: Room,
    pixel: bool,
    head: i32,
    floats: i32,
    at: i32,
    k: int,
    n: int,
)
    requires
        is_arranged(e, s, ours, limit),
        is_tied_step(e, s, ours, limit, step, room),
        are_tied(e, s, ours, p, u, q),
        entries_room(e, without(s, ours), nested, room, pixel, head, floats, at, k, n) is Some,
        p.head + (entries_room(
            e,
            without(s, ours),
            nested,
            room,
            pixel,
            head,
            floats,
            at,
            k,
            n,
        )->0).0 <= limit,
    ensures
        agree(
            e,
            s,
            ours,
            p,
            eagl_tokens::entries_done(e, s, p, nested, step, pixel, head, floats, at, k, n),
            eagl_tokens::entries_done(e, u, q, nested, step, pixel, head, floats, at, k, n),
            entries_room(e, without(s, ours), nested, room, pixel, head, floats, at, k, n)->0,
        ),
    decreases n - k,
{
    reveal_with_fuel(entries_room, 1);
    reveal_with_fuel(eagl_tokens::entries_done, 1);
    if k < n {
        assert(is_intact(s, ours, u)) by {
            reveal(are_tied);
        }
        lemma_words(s, ours, s);
        lemma_words(s, ours, u);
        let o = without(s, ours);
        let next = at.wrapping_add(20);
        let kind = o.half(at.wrapping_sub(2))->0;
        let reg = o.half(at)->0;
        let count = o.half(at.wrapping_add(2))->0;
        if kind == 2 {
            let src = floats.wrapping_add(reg.wrapping_mul(16));
            lemma_constants(e, s, ours, limit, p, u, q, pixel, reg, src, count);
            let a = eagl_tokens::constants_set(e, s, p, pixel, reg, src, count);
            let c = eagl_tokens::constants_set(e, u, q, pixel, reg, src, count);
            lemma_entries(
                e,
                s,
                ours,
                limit,
                a.1,
                c.0,
                c.1,
                nested,
                step,
                room,
                pixel,
                head,
                floats,
                next,
                k + 1,
                n,
            );
        } else if kind == 3 && pixel {
            lemma_pass(e, s, ours, limit, p, u, q, step, room, head, reg, k);
            let a = eagl_tokens::pass_done(e, s, p, step, head, reg, k);
            let c = eagl_tokens::pass_done(e, u, q, step, head, reg, k);
            if a.2->0 >= 0 {
                lemma_entries(
                    e,
                    s,
                    ours,
                    limit,
                    a.1,
                    c.0,
                    c.1,
                    nested,
                    step,
                    room,
                    pixel,
                    head,
                    floats,
                    next,
                    k + 1,
                    n,
                );
            }
        } else if !pixel {
            lemma_entries(
                e,
                s,
                ours,
                limit,
                p,
                u,
                q,
                nested,
                step,
                room,
                pixel,
                head,
                floats,
                next,
                k + 1,
                n,
            );
        }
    }
}

/// The bytes that binding a program takes.
#[verifier::opaque]
pub open spec fn bound_room(
    e: Setting,
    s: Space,
    nested: bool,
    room: Room,
    n: i32,
    pixel: bool,
) -> Option<(nat, i32)> {
    match eagl_tokens::record(s, e.ctx, n) {
        None => None,
        Some(r) => match (s.word(r.wrapping_add(0xc)), s.word(r.wrapping_add(4))) {
            (None, _) => None,
            (Some(0), _) => Some((0, EAGL_E_FAIL)),
            (Some(_), None) => None,
            (Some(_), Some(handle)) => {
                let call = if pixel {
                    call_room(e, s, VT_SET_PIXEL_SHADER, e.words[SPS_FID as int])
                } else {
                    call_room(e, s, VT_SET_VERTEX_SHADER, e.words[SVS_FID as int])
                };
                match (call, s.word(r.wrapping_add(0x14))) {
                    (Some(b), Some(table)) => if table == 0 {
                        Some((b, 0i32))
                    } else {
                        match (
                            s.word(r.wrapping_add(0x18)),
                            s.word(table.wrapping_add(0xc)),
                            s.word(table.wrapping_add(0x10)),
                        ) {
                            (Some(head), Some(count), Some(first)) => match s.word(
                                head.wrapping_add(0x44),
                            ) {
                                None => None,
                                Some(data) => if count as u32 > 1024 {
                                    None
                                } else {
                                    after(
                                        b,
                                        entries_room(
                                            e,
                                            s,
                                            nested,
                                            room,
                                            pixel,
                                            head,
                                            data.wrapping_add(8),
                                            table.wrapping_add(first).wrapping_add(6),
                                            0,
                                            count as int,
                                        ),
                                    )
                                },
                            },
                            _ => None,
                        }
                    },
                    _ => None,
                }
            },
        },
    }
}

/// The bytes that a token of a shader program takes.
#[verifier::opaque]
pub open spec fn program_room(
    e: Setting,
    s: Space,
    nested: bool,
    room: Room,
    n: i32,
    desc: u32,
) -> Option<(nat, i32)> {
    if e.mode == 2 {
        None
    } else if desc == 0x600_0008 {
        match (
            s.word(n.wrapping_add(0x68)),
            call_room(e, s, VT_SET_FVF, e.words[FVF_FID as int]),
        ) {
            (Some(v), Some(b)) => Some((b, 0i32)),
            _ => None,
        }
    } else if e.mode == 1 {
        Some((0, 0i32))
    } else if eagl_tokens::vertex_constants(desc) || eagl_tokens::pixel_constants(desc) {
        match (s.word(n.wrapping_add(0x4c)), s.word(n.wrapping_add(0xa8))) {
            (Some(src), Some(count)) => match constants_room(
                e,
                s,
                eagl_tokens::pixel_constants(desc),
                src,
                count,
            ) {
                Some(b) => Some((b, 0i32)),
                None => None,
            },
            _ => None,
        }
    } else if desc == 0x600_0003 || desc == 0x600_0004 || desc == 0x600_0006 || desc
        == 0x600_0007 {
        None
    } else if desc == 0x600_0000 {
        bound_room(e, s, nested, room, n, false)
    } else if desc == 0x600_0001 {
        bound_room(e, s, nested, room, n, true)
    } else {
        Some((0, 0i32))
    }
}

/// The bytes that a token takes on the ring and its result, where everything that is read for it
/// can be read and nothing is amiss.
#[verifier::opaque]
pub open spec fn token_room(
    e: Setting,
    s: Space,
    nested: bool,
    room: Room,
    node: i32,
    stage: i32,
) -> Option<(nat, i32)> {
    match eagl_tokens::named(e.words, s, node, stage) {
        None => None,
        Some((n, desc, stage)) => {
            let class = desc / 0x100_0000;
            if class == 1 || class == 2 || class == 8 {
                match (
                    s.word(n.wrapping_add(0x68)),
                    state_room(e, s, class, (desc % 0x100_0000) as i32, stage),
                ) {
                    (Some(v), Some(b)) => Some((b, 0i32)),
                    _ => None,
                }
            } else if class == 5 {
                texture_room(e, s, n)
            } else if class == 6 {
                program_room(e, s, nested, room, n, desc)
            } else if class == 3 || class == 4 || class == 7 || class == 9 || class == 10 {
                None
            } else {
                Some((0, 0i32))
            }
        },
    }
}

/// A pass within a pass is not done.
pub open spec fn no_room() -> Room {
    |node: i32, stage: i32| None
}

/// The bytes that a token of a pass within a batch takes.
pub open spec fn nested_room(e: Setting, s: Space) -> Room {
    |node: i32, stage: i32| token_room(e, s, true, no_room(), node, stage)
}

/// The bytes that a batch takes at most, and its result.
pub open spec fn batch_room(e: Setting, s: Space, node: i32, stage: i32) -> Option<(nat, i32)> {
    token_room(e, s, false, nested_room(e, s), node, stage)
}

proof fn lemma_bound(
    e: Setting,
    s: Space,
    ours: spec_fn(u32) -> bool,
    limit: int,
    p: Progress,
    u: Space,
    q: Progress,
    nested: bool,
    step: Step,
    room: Room,
    n: i32,
    pixel: bool,
)
    requires
        is_arranged(e, s, ours, limit),
        is_tied_step(e, s, ours, limit, step, room),
        are_tied(e, s, ours, p, u, q),
        bound_room(e, without(s, ours), nested, room, n, pixel) is Some,
        p.head + (bound_room(e, without(s, ours), nested, room, n, pixel)->0).0 <= limit,
    ensures
        agree(
            e,
            s,
            ours,
            p,
            eagl_tokens::bound(e, s, p, nested, step, n, pixel),
            eagl_tokens::bound(e, u, q, nested, step, n, pixel),
            bound_room(e, without(s, ours), nested, room, n, pixel)->0,
        ),
{
    reveal(bound_room);
    reveal(eagl_tokens::bound);
    assert(is_intact(s, ours, u)) by {
        reveal(are_tied);
    }
    let o = without(s, ours);
    lemma_record(s, ours, s, e.ctx, n);
    lemma_record(s, ours, u, e.ctx, n);
    lemma_words(s, ours, s);
    lemma_words(s, ours, u);
    let r = eagl_tokens::record(o, e.ctx, n)->0;
    if o.word(r.wrapping_add(0xc)) != Some(0i32) {
        let handle = o.word(r.wrapping_add(4))->0;
        let (slot, fid) = if pixel {
            (VT_SET_PIXEL_SHADER, e.words[SPS_FID as int])
        } else {
            (VT_SET_VERTEX_SHADER, e.words[SVS_FID as int])
        };
        lemma_one(e, s, ours, limit, p, u, q, slot, fid, handle);
        let a = eagl_tokens::one_set(e, s, p, slot, fid, handle);
        let c = eagl_tokens::one_set(e, u, q, slot, fid, handle);
        assert(is_intact(s, ours, c.0)) by {
            reveal(are_tied);
        }
        lemma_words(s, ours, c.0);
        let table = o.word(r.wrapping_add(0x14))->0;
        if table != 0 {
            let head = o.word(r.wrapping_add(0x18))->0;
            let count = o.word(table.wrapping_add(0xc))->0;
            let first = o.word(table.wrapping_add(0x10))->0;
            let data = o.word(head.wrapping_add(0x44))->0;
            lemma_entries(
                e,
                s,
                ours,
                limit,
                a.1,
                c.0,
                c.1,
                nested,
                step,
                room,
                pixel,
                head,
                data.wrapping_add(8),
                table.wrapping_add(first).wrapping_add(6),
                0,
                count as int,
            );
        }
    }
}

proof fn lemma_program(
    e: Setting,
    s: Space,
    ours: spec_fn(u32) -> bool,
    limit: int,
    p: Progress,
    u: Space,
    q: Progress,
    nested: bool,
    step: Step,
    room: Room,
    n: i32,
    desc: u32,
    stage: i32,
)
    requires
        is_arranged(e, s, ours, limit),
        is_tied_step(e, s, ours, limit, step, room),
        are_tied(e, s, ours, p, u, q),
        program_room(e, without(s, ours), nested, room, n, desc) is Some,
        p.head + (program_room(e, without(s, ours), nested, room, n, desc)->0).0 <= limit,
    ensures
        agree(
            e,
            s,
            ours,
            p,
            eagl_tokens::program_done(e, s, p, nested, step, n, desc, stage),
            eagl_tokens::program_done(e, u, q, nested, step, n, desc, stage),
            program_room(e, without(s, ours), nested, room, n, desc)->0,
        ),
{
    reveal(program_room);
    reveal(eagl_tokens::program_done);
    assert(is_intact(s, ours, u)) by {
        reveal(are_tied);
    }
    let o = without(s, ours);
    lemma_words(s, ours, s);
    lemma_words(s, ours, u);
    if desc == 0x600_0008 {
        let v = if e.mode == 1 {
            2
        } else {
            o.word(n.wrapping_add(0x68))->0
        };
        lemma_one(e, s, ours, limit, p, u, q, VT_SET_FVF, e.words[FVF_FID as int], v);
    } else if e.mode != 1 {
        if eagl_tokens::vertex_constants(desc) || eagl_tokens::pixel_constants(desc) {
            let src = o.word(n.wrapping_add(0x4c))->0;
            let count = o.word(n.wrapping_add(0xa8))->0;
            let pixel = eagl_tokens::pixel_constants(desc);
            lemma_constants(e, s, ours, limit, p, u, q, pixel, stage, src, count);
        } else if desc == 0x600_0000 {
            lemma_bound(e, s, ours, limit, p, u, q, nested, step, room, n, false);
        } else if desc == 0x600_0001 {
            lemma_bound(e, s, ours, limit, p, u, q, nested, step, room, n, true);
        }
    }
}

proof fn lemma_token(
    e: Setting,
    s: Space,
    ours: spec_fn(u32) -> bool,
    limit: int,
    p: Progress,
    u: Space,
    q: Progress,
    nested: bool,
    step: Step,
    room: Room,
    node: i32,
    stage: i32,
)
    requires
        is_arranged(e, s, ours, limit),
        is_tied_step(e, s, ours, limit, step, room),
        are_tied(e, s, ours, p, u, q),
        token_room(e, without(s, ours), nested, room, node, stage) is Some,
        p.head + (token_room(e, without(s, ours), nested, room, node, stage)->0).0 <= limit,
    ensures
        agree(
            e,
            s,
            ours,
            p,
            eagl_tokens::token_done(e, s, p, nested, step, node, stage),
            eagl_tokens::token_done(e, u, q, nested, step, node, stage),
            token_room(e, without(s, ours), nested, room, node, stage)->0,
        ),
{
    reveal(token_room);
    reveal(eagl_tokens::token_done);
    assert(is_intact(s, ours, u)) by {
        reveal(are_tied);
    }
    let o = without(s, ours);
    lemma_named(e.words, s, ours, s, node, stage);
    lemma_named(e.words, s, ours, u, node, stage);
    lemma_words(s, ours, s);
    lemma_words(s, ours, u);
    let (n, desc, g) = eagl_tokens::named(e.words, o, node, stage)->0;
    let class = desc / 0x100_0000;
    if class == 1 || class == 2 || class == 8 {
        let v = o.word(n.wrapping_add(0x68))->0;
        let number = (desc % 0x100_0000) as i32;
        lemma_state(e, s, ours, limit, p, u, q, class, number, g, v);
    } else if class == 5 {
        lemma_texture(e, s, ours, limit, p, u, q, n, g);
    } else if class == 6 {
        lemma_program(e, s, ours, limit, p, u, q, nested, step, room, n, desc, g);
    }
}

/// A batch that fits is done. Where everything that is read for it lies outside the pages that
/// hold the ring, the shadows and the counters, and the bytes that it takes at most fit on the
/// ring, the first pass finds nothing amiss and counts no more than those bytes. The second pass
/// then fails nowhere, has the same result, uses no more of the ring than the first counted, and
/// as much where the first remembered every cell; and it writes to those pages only.
pub proof fn law_a_batch_that_fits_is_done(
    e: Setting,
    s: Space,
    ours: spec_fn(u32) -> bool,
    head: i32,
    node: i32,
    stage: i32,
)
    requires
        e.mode != 2,
        is_arranged(e, s, ours, e.words[CAPACITY as int] - 64),
        s.word(e.words[RING_CTRL as int]) == Some(head),
        s.with_word(e.words[RING_CTRL as int], head) is Some,
        0 <= head,
        batch_room(e, without(s, ours), node, stage) is Some,
        head + (batch_room(e, without(s, ours), node, stage)->0).0 <= e.words[CAPACITY as int]
            - 64,
    ensures
        ({
            let (room, result) = batch_room(e, without(s, ours), node, stage)->0;
            let (t, p, x) = eagl_tokens::batch_pass(e, s, false, head, node, stage);
            let (u, q, y) = eagl_tokens::batch_pass(e, s, true, head, node, stage);
            &&& x == Some(result)
            &&& y == Some(result)
            &&& 0 <= q.head <= p.head <= head + room
            &&& !p.overflow ==> q.head == p.head
            &&& is_intact(s, ours, u)
            &&& eagl_tokens::batch_done(e, s, node, stage).1 == Some(result)
        }),
{
    let limit = e.words[CAPACITY as int] - 64;
    let o = without(s, ours);
    let p = Progress::start(false, head);
    let q = Progress::start(true, head);
    assert(are_tied(e, s, ours, p, s, q)) by {
        reveal(are_tied);
    }
    let inner = eagl_tokens::nested_step(e);
    let none = eagl_tokens::too_deep();
    let part = nested_room(e, o);
    assert(is_tied_step(e, s, ours, limit, none, no_room()));
    assert forall|a: Progress, u: Space, b: Progress, n: i32, g: i32|
        are_tied(e, s, ours, a, u, b) && part(n, g) is Some && a.head + (part(n, g)->0).0
            <= limit implies agree(
        e,
        s,
        ours,
        a,
        #[trigger] inner(s, a, n, g),
        #[trigger] inner(u, b, n, g),
        part(n, g)->0,
    ) by {
        lemma_token(e, s, ours, limit, a, u, b, true, none, no_room(), n, g);
    }
    lemma_token(e, s, ours, limit, p, s, q, false, inner, part, node, stage);
    reveal(are_tied);
    assert(0 <= limit <= i32::MAX) by {
        reveal(is_arranged);
    }
    let (u, d, y) = eagl_tokens::batch_pass(e, s, true, head, node, stage);
    virtual_mem::lemma_pages_decide(s, u, e.words[RING_CTRL as int], head, d.head);
}

} // verus!
