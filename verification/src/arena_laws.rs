//! Laws of the frame arena that relate several of its operations.
use vstd::prelude::*;
use crate::arena;
use crate::arena::{
    ArenaView, AT_BUMP_ARENA, AT_BUMP_CURSOR, AT_CMD_TYPES, AT_FFP_FALLBACK_COUNT,
    AT_OVERFLOW_COUNT, AT_RENDER_STATES, AT_SAMPLER_STAGE0,
    BLOCK_CONST_POOL, BLOCK_CONST_POOL_FLOATS, BLOCK_MASK_RS, BLOCK_MASK_SAMP, BLOCK_RS_VALUES,
    BLOCK_SAMP_VALUES, BLOCK_SLOT_COUNT, BUMP_CAP, CMD_CAP, D3DRS_ALPHABLENDENABLE,
    D3DRS_ALPHATESTENABLE, D3DRS_COLORWRITEENABLE, RENDER_STATE_COUNT,
};
use crate::arena_blocks;
use crate::arena_blocks::ConstRange;
use crate::arena_run;
use crate::arena_run::Run;

verus! {

/// With alpha blending and the alpha test off, the blend and alpha fields of the keys depend
/// on the colour write mask alone: whatever else is left in the render states is ignored.
pub proof fn law_disabled_stages_are_ignored(s: ArenaView, t: ArenaView)
    requires
        s.words[D3DRS_ALPHABLENDENABLE as int] == 0,
        t.words[D3DRS_ALPHABLENDENABLE as int] == 0,
        s.words[D3DRS_ALPHATESTENABLE as int] == 0,
        t.words[D3DRS_ALPHATESTENABLE as int] == 0,
        s.words[D3DRS_COLORWRITEENABLE as int] == t.words[D3DRS_COLORWRITEENABLE as int],
    ensures
        s.blend_alpha_fields() == t.blend_alpha_fields(),
{
    reveal(ArenaView::blend_alpha_fields);
}

/// A rollback never makes rows or bump bytes appear.
pub proof fn law_truncate_never_goes_forward(s: ArenaView, command_count: u32, bump_cursor: u32)
    requires
        s.wf(),
    ensures
        arena::after_truncate(s, command_count, bump_cursor).command_count() <= s.command_count(),
        arena::after_truncate(s, command_count, bump_cursor).bump_cursor() <= s.bump_cursor(),
{
}

/// Rolling back to the marks taken before a draw brings both marks back, whether the draw
/// was recorded or declined.
pub proof fn law_truncate_undoes_a_draw(
    s: ArenaView,
    t: ArenaView,
)
    requires
        s.wf(),
        t.wf(),
        s.command_count() <= t.command_count(),
        s.bump_cursor() <= t.bump_cursor(),
        s.command_count() <= arena::CMD_CAP,
        s.bump_cursor() <= BUMP_CAP,
    ensures
        ({
            let u = arena::after_truncate(t, s.command_count(), s.bump_cursor());
            &&& u.command_count() == s.command_count()
            &&& u.bump_cursor() == s.bump_cursor()
            &&& !u.last_draw.valid
        }),
{
}

proof fn lemma_no_value_changes(
    s: ArenaView,
    mask: int,
    recorded: int,
    mirrored: int,
    tag: u32,
    n: int,
)
    requires
        forall|i: int|
            0 <= i < n && #[trigger] s.mask_bit(mask, i) ==> s.words[recorded + i]
                == s.words[mirrored + i],
    ensures
        s.value_changes(mask, recorded, mirrored, tag, n) == Seq::<(u32, u32)>::empty(),
    decreases n,
{
    if n > 0 {
        lemma_no_value_changes(s, mask, recorded, mirrored, tag, n - 1);
    }
}

/// The ranges of a slot depend only on its range words.
proof fn lemma_ranges_same(s: ArenaView, t: ArenaView, at: int, r: int, pool: int)
    requires
        0 <= r,
        forall|i: int| 0 <= i < 8 ==> #[trigger] s.range_word(at, i) == t.range_word(at, i),
    ensures
        s.ranges_from(at, r, pool) == t.ranges_from(at, r, pool),
    decreases 8 - r,
{
    if r < 8 {
        assert(s.range_word(at, r) == t.range_word(at, r));
        lemma_ranges_same(s, t, at, r + 1, pool);
        lemma_ranges_same(s, t, at, r + 1, pool + s.range_count(at, r));
    }
}

/// Ranges are packed one after the other and stay inside their banks.
proof fn lemma_ranges_packed(s: ArenaView, at: int, r: int, pool: int)
    requires
        0 <= r,
        0 <= pool <= BLOCK_CONST_POOL_FLOATS,
    ensures
        ({
            let rs = s.ranges_from(at, r, pool);
            &&& forall|i: int|
                0 <= i < rs.len() ==> arena_blocks::range_inside(#[trigger] rs[i]) && pool
                    <= rs[i].pool
            &&& forall|i: int, j: int|
                0 <= i < j < rs.len() ==> #[trigger] rs[i].pool + rs[i].count
                    <= #[trigger] rs[j].pool
        }),
    decreases 8 - r,
{
    if r < 8 {
        lemma_ranges_packed(s, at, r + 1, pool);
        if s.range_count(at, r) != 0 && s.range_ok(at, r, pool) {
            let next = pool + s.range_count(at, r);
            lemma_ranges_packed(s, at, r + 1, next);
            let head = s.range_of(at, r, pool);
            let tail = s.ranges_from(at, r + 1, next);
            let rs = s.ranges_from(at, r, pool);
            assert(rs == seq![head] + tail);
            assert(arena_blocks::range_inside(head));
            assert forall|i: int| 0 <= i < rs.len() implies arena_blocks::range_inside(
                #[trigger] rs[i],
            ) && pool <= rs[i].pool by {
                if i > 0 {
                    assert(rs[i] == tail[i - 1]);
                }
            }
            assert forall|i: int, j: int| 0 <= i < j < rs.len() implies #[trigger] rs[i].pool
                + rs[i].count <= #[trigger] rs[j].pool by {
                assert(rs[j] == tail[j - 1]);
                if i > 0 {
                    assert(rs[i] == tail[i - 1]);
                }
            }
        }
    }
}

/// Filling the pool changes the pool alone and leaves each range's mirrored values in it.
proof fn lemma_pool_filled(s: ArenaView, slot: int, rs: Seq<ConstRange>)
    requires
        s.wf(),
        0 <= slot < BLOCK_SLOT_COUNT,
        forall|i: int| 0 <= i < rs.len() ==> arena_blocks::range_inside(#[trigger] rs[i]),
        forall|i: int, j: int|
            0 <= i < j < rs.len() ==> #[trigger] rs[i].pool + rs[i].count <= #[trigger] rs[j].pool,
    ensures
        ({
            let at = s.slot_at(slot);
            let t = s.with_pool(at, rs);
            &&& t.wf()
            &&& forall|i: int|
                0 <= i < t.words.len() && !(at + BLOCK_CONST_POOL <= i < at + BLOCK_CONST_POOL
                    + BLOCK_CONST_POOL_FLOATS) ==> #[trigger] t.words[i] == s.words[i]
            &&& forall|i: int|
                0 <= i < rs.len() ==> #[trigger] t.pool_values(at, rs[i]) == t.mirror_values(rs[i])
        }),
    decreases rs.len(),
{
    if rs.len() > 0 {
        let at = s.slot_at(slot);
        let front = rs.drop_last();
        lemma_pool_filled(s, slot, front);
        let before = s.with_pool(at, front);
        let t = s.with_pool(at, rs);
        let last = rs.last();
        assert(arena_blocks::range_inside(rs[rs.len() - 1]));
        assert(t.mirror_values(last) =~= before.mirror_values(last));
        assert(t.pool_values(at, last) =~= t.mirror_values(last));
        assert forall|i: int| 0 <= i < rs.len() implies #[trigger] t.pool_values(at, rs[i])
            == t.mirror_values(rs[i]) by {
            if i < rs.len() - 1 {
                assert(front[i] == rs[i]);
                assert(arena_blocks::range_inside(rs[i]));
                assert(rs[i].pool + rs[i].count <= rs[rs.len() - 1].pool);
                assert(before.pool_values(at, front[i]) == before.mirror_values(front[i]));
                assert(t.pool_values(at, rs[i]) =~= before.pool_values(at, rs[i]));
                assert(t.mirror_values(rs[i]) =~= before.mirror_values(rs[i]));
            }
        }
    }
}

proof fn lemma_no_range_changes(s: ArenaView, at: int, rs: Seq<ConstRange>)
    requires
        forall|i: int|
            0 <= i < rs.len() ==> #[trigger] s.pool_values(at, rs[i]) == s.mirror_values(rs[i]),
    ensures
        s.range_changes(at, rs) == Seq::<(u32, u32)>::empty(),
    decreases rs.len(),
{
    if rs.len() > 0 {
        assert(s.pool_values(at, rs[rs.len() - 1]) == s.mirror_values(rs[rs.len() - 1]));
        assert forall|i: int| 0 <= i < rs.drop_last().len() implies #[trigger] s.pool_values(
            at,
            rs.drop_last()[i],
        ) == s.mirror_values(rs.drop_last()[i]) by {
            assert(s.pool_values(at, rs[i]) == s.mirror_values(rs[i]));
        }
        lemma_no_range_changes(s, at, rs.drop_last());
    }
}

/// A state block that was just captured differs in nothing from the device state, as long as
/// its sampler mask names only the sixteen sampler states that exist.
pub proof fn law_capture_then_apply_finds_nothing(s: ArenaView, slot: int)
    requires
        s.wf(),
        0 <= slot < BLOCK_SLOT_COUNT,
        forall|i: int| 16 <= i < 32 ==> !#[trigger] s.mask_bit(s.slot_at(slot) + BLOCK_MASK_SAMP, i),
    ensures
        s.captured_block(slot).block_changes(slot) == Seq::<(u32, u32)>::empty(),
{
    let at = s.slot_at(slot);
    let rs = s.ranges(slot);
    let base = s.with_words(
        at + BLOCK_RS_VALUES,
        s.words.subrange(AT_RENDER_STATES as int, AT_RENDER_STATES + RENDER_STATE_COUNT),
    ).with_words(at + BLOCK_SAMP_VALUES, s.samplers());
    let t = s.captured_block(slot);
    lemma_ranges_packed(s, at, 0, 0);
    lemma_pool_filled(base, slot, rs);
    assert forall|i: int| 0 <= i < 8 implies #[trigger] s.range_word(at, i) == t.range_word(at, i) by {}
    lemma_ranges_same(s, t, at, 0, 0);
    assert forall|i: int|
        0 <= i < 256 && #[trigger] t.mask_bit(at + BLOCK_MASK_RS, i) implies t.words[at
        + BLOCK_RS_VALUES + i] == t.words[AT_RENDER_STATES + i] by {}
    lemma_no_value_changes(t, at + BLOCK_MASK_RS, at + BLOCK_RS_VALUES, 0, 0, 256);
    assert forall|i: int|
        0 <= i < 32 && #[trigger] t.mask_bit(at + BLOCK_MASK_SAMP, i) implies t.words[at
        + BLOCK_SAMP_VALUES + i] == t.words[AT_SAMPLER_STAGE0 + i] by {
        if i >= 16 {
            assert(!s.mask_bit(at + BLOCK_MASK_SAMP, i));
        }
    }
    lemma_no_value_changes(t, at + BLOCK_MASK_SAMP, at + BLOCK_SAMP_VALUES, 256, 65536, 32);
    lemma_no_range_changes(t, at, rs);
    assert(t.block_changes(slot) =~= Seq::<(u32, u32)>::empty());
}

/// The constants of pair `k` as they stand in its instance of the compact payload.
pub open spec fn instance_constants(run: Run, s: ArenaView, t: ArenaView, k: int) -> Seq<u32> {
    let at = run.instance_at(s, k) + (if run.mode == 3 {
        run.first()
    } else {
        0
    });
    t.words.subrange(at, at + run.floats())
}

proof fn lemma_compact_run(run: Run, s: ArenaView, k: int, stride: u32, cull: u32)
    requires
        s.wf(),
        s.bump_cursor() % 4 == 0,
        run.accepted(s),
        run.mode >= 2,
        0 <= k <= run.pairs(),
    ensures
        ({
            let t = run.recorded(s, k, stride, cull);
            &&& t.wf()
            &&& t.command_count() == s.command_count()
            &&& t.bump_cursor() == s.bump_cursor() + run.compact_bytes(s)
            &&& forall|j: int|
                0 <= j < k ==> #[trigger] instance_constants(run, s, t, j) == run.constants(j)
        }),
    decreases k,
{
    arena_run::lemma_instance_inside(run, s, 0);
    if k == 0 {
        let n = run.pairs();
        let i = run.instance_words(s);
        assert(0 <= n * i) by (nonlinear_arith)
            requires
                n >= 0,
                i >= 0,
        ;
    } else {
        lemma_compact_run(run, s, k - 1, stride, cull);
        let before = run.recorded(s, k - 1, stride, cull);
        let t = run.recorded(s, k, stride, cull);
        arena_run::lemma_pair_frame(run, s, before, k - 1);
        arena_run::lemma_instance_inside(run, s, k - 1);
        reveal(Run::with_instance);
        reveal(Run::with_upload);
        let p = run.pitch();
        let i = run.instance_words(s);
        assert(0 <= (k - 1) * p && (k - 1) * p + p <= run.pairs() * p) by (nonlinear_arith)
            requires
                0 <= k - 1,
                k <= run.pairs(),
                p > 0,
        ;
        assert(instance_constants(run, s, t, k - 1) =~= run.constants(k - 1));
        assert forall|j: int| 0 <= j < k implies #[trigger] instance_constants(run, s, t, j)
            == run.constants(j) by {
            if j < k - 1 {
                arena_run::lemma_instance_inside(run, s, j);
                assert(j * i + i <= (k - 1) * i) by (nonlinear_arith)
                    requires
                        j + 1 <= k - 1,
                        i >= 0,
                ;
                assert(instance_constants(run, s, t, j) =~= instance_constants(run, s, before, j));
            }
        }
    }
}

/// A compact run emits no command rows, takes exactly its own bytes of the bump area, and its
/// payload holds the constants of every pair.
pub proof fn law_compact_run_keeps_every_constant(run: Run, s: ArenaView, stride: u32, cull: u32)
    requires
        s.wf(),
        s.bump_cursor() % 4 == 0,
        run.accepted(s),
        run.mode >= 2,
    ensures
        ({
            let t = run.recorded(s, run.pairs(), stride, cull);
            &&& t.command_count() == s.command_count()
            &&& t.bump_cursor() == s.bump_cursor() + run.compact_bytes(s)
            &&& forall|k: int|
                0 <= k < run.pairs() ==> #[trigger] instance_constants(run, s, t, k)
                    == run.constants(k)
        }),
{
    lemma_compact_run(run, s, run.pairs(), stride, cull);
}

/// What was recorded of a frame stands in both: the device state, every row, and every word of
/// the bump area that was taken. The area is taken by whole words.
pub open spec fn holds_on(s: ArenaView, t: ArenaView) -> bool {
    &&& s.words.len() == t.words.len()
    &&& s.command_count() <= t.command_count()
    &&& s.bump_cursor() <= t.bump_cursor()
    &&& s.bump_cursor() % 4 == 0 ==> t.bump_cursor() % 4 == 0
    &&& forall|i: int| 0 <= i < AT_CMD_TYPES ==> #[trigger] t.words[i] == s.words[i]
    &&& forall|k: int, column: int|
        0 <= k < s.command_count() && k < CMD_CAP && 0 <= column < 6 ==> #[trigger] cell(
            t,
            k,
            column,
        ) == cell(s, k, column)
    &&& forall|i: int|
        AT_BUMP_ARENA <= i < AT_BUMP_ARENA + s.bump_cursor() as int / 4 && i < AT_BUMP_CURSOR
            ==> #[trigger] t.words[i] == s.words[i]
}

/// A cell of a command row.
pub open spec fn cell(s: ArenaView, k: int, column: int) -> u32 {
    s.words[AT_CMD_TYPES + CMD_CAP * column + k]
}

proof fn lemma_holds_on(s: ArenaView, t: ArenaView, u: ArenaView)
    requires
        holds_on(s, t),
        holds_on(t, u),
    ensures
        holds_on(s, u),
{
    assert forall|k: int, column: int|
        0 <= k < s.command_count() && k < CMD_CAP && 0 <= column < 6 implies #[trigger] cell(
        u,
        k,
        column,
    ) == cell(s, k, column) by {
        assert(cell(t, k, column) == cell(s, k, column));
    }
    assert forall|i: int|
        AT_BUMP_ARENA <= i < AT_BUMP_ARENA + s.bump_cursor() as int / 4 && i
            < AT_BUMP_CURSOR implies #[trigger] u.words[i] == s.words[i] by {
        assert(t.words[i] == s.words[i]);
    }
    assert forall|i: int| 0 <= i < AT_CMD_TYPES implies #[trigger] u.words[i] == s.words[i] by {
        assert(t.words[i] == s.words[i]);
    }
}

proof fn lemma_row_holds_on(s: ArenaView, r: arena::Row)
    requires
        s.wf(),
    ensures
        holds_on(s, arena::after_row(s, r)),
        arena::after_row(s, r).wf(),
        arena::after_row(s, r).bump_cursor() == s.bump_cursor(),
{
    reveal(arena::after_row);
}

proof fn lemma_words_only(s: ArenaView, t: ArenaView, u: ArenaView)
    requires
        holds_on(s, t),
        t.words == u.words,
    ensures
        holds_on(s, u),
{
    assert forall|k: int, column: int| #[trigger] cell(u, k, column) == cell(t, k, column) by {}
}

/// Other words than those of a frame change.
proof fn lemma_count_holds_on(s: ArenaView, at: int, v: u32)
    requires
        s.wf(),
        AT_OVERFLOW_COUNT <= at <= AT_FFP_FALLBACK_COUNT,
    ensures
        holds_on(s, s.with(at, v)),
        s.with(at, v).wf(),
{
}

proof fn lemma_bindings_hold_on(s: ArenaView)
    requires
        s.wf(),
    ensures
        holds_on(s, arena::after_stream(s).0),
        arena::after_stream(s).0.wf(),
        holds_on(s, arena::after_index(s).0),
        arena::after_index(s).0.wf(),
{
    let v = arena::stream_of(s);
    let x = arena::index_of(s);
    let rv = arena::row(arena::CMD_SET_VERTEX_BUFFER, v.0, v.1, v.2, 0, 0);
    let rx = arena::row(arena::CMD_SET_INDEX_BUFFER, x.0, x.1, 0, 0, 0);
    let over = s.words[AT_OVERFLOW_COUNT as int].wrapping_add(1);
    lemma_row_holds_on(s, rv);
    lemma_row_holds_on(s, rx);
    lemma_count_holds_on(s, AT_OVERFLOW_COUNT as int, over);
    if arena::after_stream(s).1 && s.last_bound_stream != v {
        lemma_words_only(s, arena::after_row(s, rv), arena::after_stream(s).0);
    }
    if arena::after_index(s).1 && s.last_bound_index != x {
        lemma_words_only(s, arena::after_row(s, rx), arena::after_index(s).0);
    }
}

pub(crate) proof fn lemma_capture_holds_on(s: ArenaView, topology: u32, cull: u32, key: u32)
    requires
        s.wf(),
    ensures
        holds_on(s, arena::after_capture(s, topology, cull, key).0),
        arena::after_capture(s, topology, cull, key).0.wf(),
{
    reveal(arena::after_capture);
    arena::lemma_draw_state_len(s, topology, cull);
}

/// Recording a draw, whether it is taken or declined, changes nothing that was recorded before
/// it in the frame: earlier rows and captures stay as they were, and so does the device state.
pub proof fn law_draws_leave_the_frame_as_it_was(
    s: ArenaView,
    topology: u32,
    stride: u32,
    cull: u32,
    r: arena::Row,
    keyless: bool,
)
    requires
        s.wf(),
    ensures
        holds_on(s, arena::after_draw(s, topology, stride, cull, r, keyless).0),
        arena::after_draw(s, topology, stride, cull, r, keyless).0.wf(),
{
    reveal(arena::after_draw);
    let declined = s.words[AT_FFP_FALLBACK_COUNT as int].wrapping_add(1);
    lemma_count_holds_on(s, AT_FFP_FALLBACK_COUNT as int, declined);
    let s1 = arena::after_stream(s).0;
    let s2 = arena::after_index(s1).0;
    lemma_bindings_hold_on(s);
    lemma_bindings_hold_on(s1);
    lemma_holds_on(s, s1, s2);
    let key = s2.pipeline_key(stride, topology, cull);
    let group = s2.bind_group_key();
    let (s3, captured) = arena::after_capture(s2, topology, cull, key);
    lemma_capture_holds_on(s2, topology, cull, key);
    lemma_holds_on(s, s2, s3);
    if let Some(at) = captured {
        let r4 = arena::row(arena::CMD_SET_PIPELINE, key, at, 0, key, group);
        let r5 = arena::row(arena::CMD_BIND_PROGRAMMABLE, at, 0, 0, key, group);
        let s4 = arena::after_row(s3, r4);
        let s5 = arena::after_row(s4, r5);
        lemma_row_holds_on(s3, r4);
        lemma_row_holds_on(s4, r5);
        lemma_holds_on(s, s3, s4);
        lemma_holds_on(s, s4, s5);
        let filled = arena::Row { pipeline_key: key, ..r };
        lemma_row_holds_on(s5, r);
        lemma_row_holds_on(s5, filled);
        lemma_holds_on(s, s5, arena::after_row(s5, r));
        lemma_holds_on(s, s5, arena::after_row(s5, filled));
    }
}

pub(crate) proof fn lemma_cubes(s: ArenaView, t: ArenaView, n: int)
    requires
        forall|i: int| 0 <= i < AT_CMD_TYPES ==> #[trigger] t.words[i] == s.words[i],
        0 <= n <= 8,
    ensures
        t.cube_mask_upto(n) == s.cube_mask_upto(n),
    decreases n,
{
    if n > 0 {
        lemma_cubes(s, t, n - 1);
    }
}

/// What is captured for a draw is its state, and a draw that follows with nothing changed shares
/// the capture.
pub proof fn law_unchanged_draws_share_a_capture(s: ArenaView, topology: u32, cull: u32, key: u32)
    requires
        s.wf(),
        s.bump_cursor() % 4 == 0,
        arena::after_capture(s, topology, cull, key).1 is Some,
    ensures
        ({
            let (t, at) = arena::after_capture(s, topology, cull, key);
            let from = AT_BUMP_ARENA + at->0 as int / 4;
            let state = arena::draw_state_words(s, topology, cull);
            &&& !arena::memo_hit(s, key) ==> t.words.subrange(from, from + state.len()) == state
            &&& arena::after_capture(t, topology, cull, key) == (t, at)
        }),
{
    reveal(arena::after_capture);
    let (t, at) = arena::after_capture(s, topology, cull, key);
    if !arena::memo_hit(s, key) {
        lemma_capture_holds_on(s, topology, cull, key);
        arena::lemma_draw_state_len(s, topology, cull);
        lemma_cubes(s, t, 8);
        assert(t.samplers() =~= s.samplers());
        assert(t.texture_ids() =~= s.texture_ids());
        assert(t.identity() =~= s.identity());
        assert(t.bind_group_key() == s.bind_group_key()) by {
            reveal(ArenaView::bind_group_key);
            assert(t.cube_mask() == s.cube_mask());
        }
        assert(arena::memo_hit(t, key));
        let from = AT_BUMP_ARENA + at->0 as int / 4;
        let state = arena::draw_state_words(s, topology, cull);
        assert(t.words.subrange(from, from + state.len()) =~= state);
    }
}

} // verus!
