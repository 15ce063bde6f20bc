//! Laws of what a frame captures: the descriptor of a compact run, and the draw state of draws
//! between which textures are bound.
use vstd::prelude::*;
use crate::arena;
use crate::arena::{
    ArenaView, AT_BUMP_ARENA, AT_TEXTURE_BOUND_IDS, CMD_DRAW_INDEXED, TEXTURE_ID_SLOTS,
};
use crate::arena_laws;
use crate::arena_run;
use crate::arena_run::Run;
use crate::jit_config;

verus! {

/// The words at byte offset `offset` of the bump area begin with `data`.
pub open spec fn stands_at(t: ArenaView, offset: int, data: Seq<u32>) -> bool {
    let from = AT_BUMP_ARENA + offset / 4;
    t.words.subrange(from, from + data.len()) == data
}

proof fn lemma_descriptor_stays(run: Run, s: ArenaView, k: int, stride: u32, cull: u32)
    requires
        s.wf(),
        s.bump_cursor() % 4 == 0,
        run.accepted(s),
        run.mode != 0,
        0 <= k <= run.pairs(),
    ensures
        ({
            let t = run.recorded(s, k, stride, cull);
            &&& t.wf()
            &&& t.bump_cursor() >= s.bump_cursor() + run.compact_bytes(s)
            &&& stands_at(t, s.bump_cursor() as int, run.header(s))
        }),
    decreases k,
{
    arena_run::lemma_instance_inside(run, s, 0);
    let base = AT_BUMP_ARENA + s.bump_cursor() as int / 4;
    let head = run.header(s);
    let n = run.pairs();
    let i = run.instance_words(s);
    assert(0 <= n * i) by (nonlinear_arith)
        requires
            n >= 0,
            i >= 0,
    ;
    let t = run.recorded(s, k, stride, cull);
    if k == 0 {
        assert(t.words.subrange(base, base + head.len()) =~= head);
    } else {
        lemma_descriptor_stays(run, s, k - 1, stride, cull);
        let before = run.recorded(s, k - 1, stride, cull);
        arena_run::lemma_pair_frame(run, s, before, k - 1);
        arena_run::lemma_instance_inside(run, s, k - 1);
        let p = run.pitch();
        assert(0 <= (k - 1) * p && (k - 1) * p + p <= n * p) by (nonlinear_arith)
            requires
                0 <= k - 1,
                k <= n,
                p > 0,
        ;
        assert(0 <= (k - 1) * i) by (nonlinear_arith)
            requires
                k >= 1,
                i >= 0,
        ;
        let u = run.with_upload(run.with_instance(s, before, k - 1), k - 1);
        assert(u.words.subrange(base, base + head.len()) =~= head) by {
            reveal(Run::with_instance);
            reveal(Run::with_upload);
            let was = before.words.subrange(base, base + head.len());
            assert forall|j: int| 0 <= j < head.len() implies u.words[base + j] == head[j] by {
                assert(was[j] == before.words[base + j]);
            }
        }
        if run.mode < 2 {
            let r = arena::row(
                CMD_DRAW_INDEXED,
                run.index_count(k - 1) as u32,
                run.start_index(k - 1),
                run.base_vertex(k - 1),
                0,
                0,
            );
            arena_laws::law_draws_leave_the_frame_as_it_was(u, 0, stride, cull, r, false);
            let was = u.words.subrange(base, base + head.len());
            assert forall|j: int| 0 <= j < head.len() implies t.words[base + j] == head[j] by {
                assert(was[j] == u.words[base + j]);
            }
            assert(t.words.subrange(base, base + head.len()) =~= head);
        }
    }
}

/// After a run that was recorded with a compact payload, the last compact offset names its
/// descriptor in the bump area, whatever rows and captures the run emitted after it; after a run
/// that was declined, or recorded without a payload, there is no offset.
pub proof fn law_the_compact_offset_finds_the_descriptor(
    run: Run,
    s: ArenaView,
    readable: bool,
    guest_start: i32,
    byte_len: u32,
    stride: u32,
    cull: u32,
)
    requires
        s.wf(),
        s.bump_cursor() % 4 == 0,
    ensures
        ({
            let (t, r) = arena_run::after_run(
                run,
                s,
                readable,
                guest_start,
                byte_len,
                stride,
                cull,
            );
            &&& r == -1 ==> t.last_wbuf_compact_offset == -1
            &&& run.mode == 0 ==> t.last_wbuf_compact_offset == -1
            &&& r != -1 && run.mode != 0 ==> {
                &&& t.last_wbuf_compact_offset == s.bump_cursor()
                &&& stands_at(t, t.last_wbuf_compact_offset as int, run.header(s))
            }
        }),
{
    let none = ArenaView { last_wbuf_compact_offset: -1i32, ..s };
    if run.accepted(none) {
        arena_run::lemma_instance_inside(run, none, 0);
        let n = run.pairs();
        let i = run.instance_words(none);
        assert(n <= n * i) by (nonlinear_arith)
            requires
                n >= 0,
                i >= 1,
        ;
        if run.mode != 0 {
            lemma_descriptor_stays(run, none, n, stride, cull);
            assert(run.header(none) == run.header(s));
        }
    }
}

/// The inverse of the factor of the digest.
const DIGEST_INVERSE: u32 = 0x359c449b;

/// A step of the digest loses nothing of the word that it takes in, nor of what came before.
proof fn lemma_step(g: u32, h: u32, x: u32, y: u32)
    requires
        arena::fnv_step(g, x) == arena::fnv_step(h, y),
        g == h || x == y,
    ensures
        g == h,
        x == y,
{
    lemma_factor(g ^ x);
    lemma_factor(h ^ y);
    assert((g ^ x) as u64 == (g as u64) ^ (x as u64));
    assert((h ^ y) as u64 == (h as u64) ^ (y as u64));
    jit_config::bits_of_xor(g as u64, x as u64, y as u64);
    jit_config::bits_of_xor(x as u64, g as u64, h as u64);
}

proof fn lemma_factor(x: u32)
    ensures
        x.wrapping_mul(0x01000193).wrapping_mul(DIGEST_INVERSE) == x,
{
    let m = 0x1_0000_0000int;
    let p = 0x01000193int;
    let q = DIGEST_INVERSE as int;
    let y = x.wrapping_mul(0x01000193);
    let k = x * p / m;
    assert(x * p == m * k + y) by {
        vstd::arithmetic::div_mod::lemma_fundamental_div_mod(x * p, m);
    }
    let c = 0x0035_9c99int;
    assert(p * q == m * c + 1);
    let n = x * c - k * q;
    assert(y * q == m * n + x) by (nonlinear_arith)
        requires
            x * p == m * k + y,
            p * q == m * c + 1,
            n == x * c - k * q,
    ;
    vstd::arithmetic::div_mod::lemma_fundamental_div_mod_converse(y * q, m, n, x as int);
}

/// Digests of sequences that differ in one word differ.
pub proof fn lemma_digest(a: Seq<u32>, b: Seq<u32>, k: int)
    requires
        a.len() == b.len(),
        0 <= k < a.len() ==> a[k] != b[k],
        forall|i: int| 0 <= i < a.len() && i != k ==> a[i] == b[i],
    ensures
        0 <= k < a.len() <==> arena::fnv(a) != arena::fnv(b),
    decreases a.len(),
{
    if a.len() > 0 {
        let i = a.len() - 1;
        lemma_digest(a.drop_last(), b.drop_last(), k);
        if arena::fnv(a) == arena::fnv(b) {
            if k != i {
                assert(a[i] == b[i]);
            }
            lemma_step(arena::fnv(a.drop_last()), arena::fnv(b.drop_last()), a[i], b[i]);
        }
    }
}

/// The arena after the texture ids `ids` are bound.
pub open spec fn rebound(s: ArenaView, ids: Seq<u32>) -> ArenaView {
    s.with_words(AT_TEXTURE_BOUND_IDS as int, ids)
}

proof fn lemma_captured_ids(s: ArenaView, topology: u32, cull: u32)
    requires
        s.wf(),
    ensures
        arena::draw_state_words(s, topology, cull).len() >= 11,
        arena::draw_state_words(s, topology, cull).subrange(3, 11) == s.texture_ids(),
{
    arena::lemma_draw_state_len(s, topology, cull);
    reveal(arena::draw_state_words);
    let state = arena::draw_state_words(s, topology, cull);
    assert(state.subrange(3, 11) =~= s.texture_ids());
}

proof fn lemma_new_capture(s: ArenaView, topology: u32, cull: u32, key: u32)
    requires
        s.wf(),
        s.bump_cursor() % 4 == 0,
        !arena::memo_hit(s, key),
        arena::bump_fits(s, arena::draw_state_bytes(s)),
    ensures
        ({
            let (t, at) = arena::after_capture(s, topology, cull, key);
            &&& at == Some(s.bump_cursor())
            &&& t.bump_cursor() == s.bump_cursor() + arena::draw_state_bytes(s)
            &&& stands_at(t, s.bump_cursor() + 12, s.texture_ids())
        }),
{
    reveal(arena::after_capture);
    arena::lemma_draw_state_len(s, topology, cull);
    lemma_captured_ids(s, topology, cull);
    let (t, at) = arena::after_capture(s, topology, cull, key);
    let state = arena::draw_state_words(s, topology, cull);
    let ids = s.texture_ids();
    let from = AT_BUMP_ARENA + (s.bump_cursor() + 12) / 4;
    assert forall|j: int| 0 <= j < ids.len() implies t.words[from + j] == ids[j] by {
        assert(state.subrange(3, 11)[j] == state[3 + j]);
    }
    assert(t.words.subrange(from, from + ids.len()) =~= ids);
}

/// A draw between which and the one before it nothing changed but the bound textures, so that
/// its bind-group key is another one, gets a capture of its own at the bump cursor. The capture
/// holds the new ids behind its first three words, and the capture before it is untouched.
pub proof fn law_a_rebound_texture_gets_a_capture_of_its_own(
    s: ArenaView,
    ids: Seq<u32>,
    topology: u32,
    cull: u32,
    key: u32,
)
    requires
        s.wf(),
        s.bump_cursor() % 4 == 0,
        arena::after_capture(s, topology, cull, key).1 is Some,
        ids.len() == TEXTURE_ID_SLOTS,
        ({
            let t = rebound(arena::after_capture(s, topology, cull, key).0, ids);
            &&& t.bind_group_key() != s.bind_group_key()
            &&& arena::bump_fits(t, arena::draw_state_bytes(t))
        }),
    ensures
        ({
            let t = rebound(arena::after_capture(s, topology, cull, key).0, ids);
            let (u, at) = arena::after_capture(t, topology, cull, key);
            &&& at == Some(t.bump_cursor())
            &&& u.bump_cursor() == t.bump_cursor() + arena::draw_state_bytes(t)
            &&& stands_at(u, t.bump_cursor() + 12, ids)
            &&& arena_laws::holds_on(t, u)
        }),
        ({
            let first = arena::after_capture(s, topology, cull, key).1->0;
            let t = rebound(arena::after_capture(s, topology, cull, key).0, ids);
            let at = arena::after_capture(t, topology, cull, key).1->0;
            &&& !arena::memo_hit(s, key) ==> first < t.bump_cursor()
            &&& first < t.bump_cursor() ==> at != first
        }),
{
    let t = rebound(arena::after_capture(s, topology, cull, key).0, ids);
    arena_laws::lemma_capture_holds_on(s, topology, cull, key);
    arena_laws::lemma_capture_holds_on(t, topology, cull, key);
    assert(t.last_draw.bind_group_key == s.bind_group_key()) by {
        reveal(arena::after_capture);
    }
    assert(t.texture_ids() =~= ids);
    lemma_new_capture(t, topology, cull, key);
    if !arena::memo_hit(s, key) {
        assert(arena::bump_fits(s, arena::draw_state_bytes(s))) by {
            reveal(arena::after_capture);
        }
        lemma_new_capture(s, topology, cull, key);
    }
}

pub proof fn lemma_same_cubes(s: ArenaView, t: ArenaView, n: int)
    requires
        forall|i: int| 0 <= i < 8 ==> #[trigger] t.stage_is_cube(i) == s.stage_is_cube(i),
        0 <= n <= 8,
    ensures
        t.cube_mask_upto(n) == s.cube_mask_upto(n),
    decreases n,
{
    if n > 0 {
        lemma_same_cubes(s, t, n - 1);
    }
}

/// Binding another texture of the same shape to one stage always changes the bind-group key.
pub proof fn law_one_rebound_texture_changes_the_key(s: ArenaView, stage: int, id: u32)
    requires
        s.wf(),
        0 <= stage < TEXTURE_ID_SLOTS,
        id != s.texture_ids()[stage],
        rebound(s, s.texture_ids().update(stage, id)).stage_is_cube(stage) == s.stage_is_cube(
            stage,
        ),
    ensures
        rebound(s, s.texture_ids().update(stage, id)).bind_group_key() != s.bind_group_key(),
{
    reveal(ArenaView::bind_group_key);
    let t = rebound(s, s.texture_ids().update(stage, id));
    assert forall|i: int| 0 <= i < 8 implies #[trigger] t.stage_is_cube(i) == s.stage_is_cube(i) by {
        if i != stage {
            assert(t.words[AT_TEXTURE_BOUND_IDS + i] == s.texture_ids()[i]);
        }
    }
    lemma_same_cubes(s, t, 8);
    assert(t.samplers() =~= s.samplers());
    assert(t.texture_ids() =~= s.texture_ids().update(stage, id));
    let a = s.samplers() + seq![s.cube_mask()] + s.texture_ids();
    let b = t.samplers() + seq![t.cube_mask()] + t.texture_ids();
    lemma_digest(a, b, 17 + stage);
}

} // verus!
