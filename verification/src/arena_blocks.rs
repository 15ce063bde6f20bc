//! State blocks: slots of recorded device state that can be refreshed from the mirrored
//! state and compared with it.
use vstd::prelude::*;
use crate::arena;
use crate::arena::{
    copy_out, write_words, Arena, ArenaView, ARENA_WORDS, AT_BIND_GROUP_KEY, AT_BLOCK_CHANGED,
    AT_BLOCK_SLOTS, AT_BUMP_ARENA, AT_BUMP_CURSOR, AT_ARENA_HIGH_WATER, AT_CMD_A, AT_CMD_B,
    AT_CMD_C, AT_CMD_TYPES, AT_COMMANDS_EMITTED, AT_COMMAND_COUNT, AT_DECL_HANDLE,
    AT_FFP_FALLBACK_COUNT, AT_FVF, AT_INDEX_BUFFER, AT_MISMATCH_COUNT, AT_OVERFLOW_COUNT,
    AT_PIPELINE_IDENTITY, AT_PIPELINE_KEY, AT_PS_CONSTANTS, AT_PS_CONST_VERSION, AT_PS_HANDLE,
    AT_RENDER_STATES, AT_SAMPLER_STAGE0, AT_SHADER_CONST_LEN_PS, AT_SHADER_CONST_LEN_VS,
    AT_STREAM_SOURCE, AT_TEXTURE_BOUND_IDS, AT_TEXTURE_CUBE_FLAGS, AT_VS_CONSTANTS,
    AT_VS_CONST_VERSION, AT_VS_HANDLE, BLOCK_CHANGED_CAP, BLOCK_CONST_POOL, BLOCK_CONST_POOL_FLOATS,
    BLOCK_MASK_RS, BLOCK_MASK_SAMP, BLOCK_PS_RANGES, BLOCK_RS_VALUES, BLOCK_SAMP_VALUES,
    BLOCK_SLOT_COUNT, BLOCK_SLOT_WORDS, BLOCK_VS_RANGES, CMD_CAP, PS_CONST_FLOATS,
    RENDER_STATE_COUNT, SAMPLER_STAGE0_COUNT, VS_CONST_FLOATS,
};

verus! {

/// One recorded range of shader constants.
#[derive(Clone, Copy)]
pub struct ConstRange {
    /// 2 for a vertex-shader range, 3 for a pixel-shader range.
    pub kind: u32,
    /// Number of the range within its kind.
    pub index: u32,
    /// Where its values start in the slot's pool.
    pub pool: usize,
    /// Word position of the mirrored constants.
    pub mirror: usize,
    pub count: usize,
}

impl ArenaView {
    /// Word position of slot `slot`.
    pub open spec fn slot_at(self, slot: int) -> int {
        AT_BLOCK_SLOTS + slot * BLOCK_SLOT_WORDS
    }

    /// The word that describes range `r` (vertex ranges 0 to 3, pixel ranges 4 to 7).
    pub open spec fn range_word(self, at: int, r: int) -> u32 {
        self.words[at + BLOCK_VS_RANGES + r]
    }

    pub open spec fn range_count(self, at: int, r: int) -> int {
        self.range_word(at, r) as int / 65536
    }

    pub open spec fn range_first(self, at: int, r: int) -> int {
        4 * (self.range_word(at, r) as int % 65536)
    }

    /// The range stays inside its bank and what is left of the pool.
    pub open spec fn range_ok(self, at: int, r: int, pool: int) -> bool {
        &&& self.range_first(at, r) + self.range_count(at, r) <= (if r < 4 {
            VS_CONST_FLOATS as int
        } else {
            PS_CONST_FLOATS as int
        })
        &&& pool + self.range_count(at, r) <= BLOCK_CONST_POOL_FLOATS
    }

    pub open spec fn range_of(self, at: int, r: int, pool: int) -> ConstRange {
        ConstRange {
            kind: if r < 4 {
                2u32
            } else {
                3u32
            },
            index: (if r < 4 {
                r
            } else {
                r - 4
            }) as u32,
            pool: pool as usize,
            mirror: ((if r < 4 {
                AT_VS_CONSTANTS
            } else {
                AT_PS_CONSTANTS
            }) + self.range_first(at, r)) as usize,
            count: self.range_count(at, r) as usize,
        }
    }

    /// The used ranges from range `r` on, packed into the pool from `pool` on in order. An
    /// ill-formed range ends the list.
    pub open spec fn ranges_from(self, at: int, r: int, pool: int) -> Seq<ConstRange>
        decreases 8 - r,
    {
        if r >= 8 {
            seq![]
        } else if self.range_count(at, r) == 0 {
            self.ranges_from(at, r + 1, pool)
        } else if !self.range_ok(at, r, pool) {
            seq![]
        } else {
            seq![self.range_of(at, r, pool)] + self.ranges_from(
                at,
                r + 1,
                pool + self.range_count(at, r),
            )
        }
    }

    pub open spec fn ranges(self, slot: int) -> Seq<ConstRange> {
        self.ranges_from(self.slot_at(slot), 0, 0)
    }

    pub open spec fn mirror_values(self, r: ConstRange) -> Seq<u32> {
        self.words.subrange(r.mirror as int, r.mirror + r.count)
    }

    pub open spec fn pool_values(self, at: int, r: ConstRange) -> Seq<u32> {
        self.words.subrange(at + BLOCK_CONST_POOL + r.pool, at + BLOCK_CONST_POOL + r.pool + r.count)
    }

    /// The arena after the pool of the slot at `at` takes the mirrored values of `rs`.
    pub open spec fn with_pool(self, at: int, rs: Seq<ConstRange>) -> ArenaView
        decreases rs.len(),
    {
        if rs.len() == 0 {
            self
        } else {
            let before = self.with_pool(at, rs.drop_last());
            before.with_words(
                at + BLOCK_CONST_POOL + rs.last().pool,
                before.mirror_values(rs.last()),
            )
        }
    }

    /// The arena after slot `slot` is refreshed from the mirrored state.
    pub open spec fn captured_block(self, slot: int) -> ArenaView {
        let at = self.slot_at(slot);
        self.with_words(
            at + BLOCK_RS_VALUES,
            self.words.subrange(AT_RENDER_STATES as int, AT_RENDER_STATES + RENDER_STATE_COUNT),
        ).with_words(at + BLOCK_SAMP_VALUES, self.samplers()).with_pool(at, self.ranges(slot))
    }

    /// Whether bit `i` of the mask that starts at word `at` is set.
    pub open spec fn mask_bit(self, at: int, i: int) -> bool {
        (self.words[at + i / 32] >> ((i % 32) as u32)) & 1 == 1
    }

    /// The recorded values, of those at `mask`, that differ from the `n` mirrored ones, in
    /// order, as (`tag` + number, recorded value).
    pub open spec fn value_changes(
        self,
        mask: int,
        recorded: int,
        mirrored: int,
        tag: u32,
        n: int,
    ) -> Seq<(u32, u32)>
        decreases n,
    {
        if n <= 0 {
            seq![]
        } else {
            let before = self.value_changes(mask, recorded, mirrored, tag, n - 1);
            let v = self.words[recorded + n - 1];
            if self.mask_bit(mask, n - 1) && v != self.words[mirrored + n - 1] {
                before.push(((tag + n - 1) as u32, v))
            } else {
                before
            }
        }
    }

    /// The ranges of `rs` whose pooled values differ from the mirrored ones, as
    /// (kind and number, pool position).
    pub open spec fn range_changes(self, at: int, rs: Seq<ConstRange>) -> Seq<(u32, u32)>
        decreases rs.len(),
    {
        if rs.len() == 0 {
            seq![]
        } else {
            let before = self.range_changes(at, rs.drop_last());
            let r = rs.last();
            if self.pool_values(at, r) != self.mirror_values(r) {
                before.push(((65536 * r.kind + r.index) as u32, r.pool as u32))
            } else {
                before
            }
        }
    }

    /// Everything in which slot `slot` differs from the mirrored state.
    pub open spec fn block_changes(self, slot: int) -> Seq<(u32, u32)> {
        let at = self.slot_at(slot);
        self.value_changes(
            at + BLOCK_MASK_RS,
            at + BLOCK_RS_VALUES,
            AT_RENDER_STATES as int,
            0,
            RENDER_STATE_COUNT as int,
        ) + self.value_changes(
            at + BLOCK_MASK_SAMP,
            at + BLOCK_SAMP_VALUES,
            AT_SAMPLER_STAGE0 as int,
            65536,
            32,
        ) + self.range_changes(at, self.ranges(slot))
    }
}

/// A list of changes as the words that hold it.
pub open spec fn pair_words(pairs: Seq<(u32, u32)>) -> Seq<u32> {
    Seq::new(
        2 * pairs.len(),
        |i: int|
            if i % 2 == 0 {
                pairs[i / 2].0
            } else {
                pairs[i / 2].1
            },
    )
}

/// The used ranges of the slot at word `at`.
fn const_ranges(a: &Arena, at: usize) -> (rs: Vec<ConstRange>)
    requires
        a@.wf(),
        at + BLOCK_SLOT_WORDS <= ARENA_WORDS,
    ensures
        rs@ == a@.ranges_from(at as int, 0, 0),
        rs@.len() <= 8,
        forall|i: int| 0 <= i < rs@.len() ==> range_inside(#[trigger] rs@[i]),
{
    let mut rs: Vec<ConstRange> = Vec::new();
    let mut r: usize = 0;
    let mut pool: usize = 0;
    while r < 8
        invariant
            r <= 8,
            pool <= BLOCK_CONST_POOL_FLOATS,
            a@.wf(),
            at + BLOCK_SLOT_WORDS <= ARENA_WORDS,
            rs@.len() <= r,
            rs@ + a@.ranges_from(at as int, r as int, pool as int) == a@.ranges_from(
                at as int,
                0,
                0,
            ),
            forall|i: int| 0 <= i < rs@.len() ==> range_inside(#[trigger] rs@[i]),
        decreases 8 - r,
    {
        let word: u32 = a.words[at + BLOCK_VS_RANGES + r];
        let count: usize = (word / 65536) as usize;
        let first: usize = 4 * (word % 65536) as usize;
        if count != 0 {
            let bank: usize = if r < 4 {
                VS_CONST_FLOATS
            } else {
                PS_CONST_FLOATS
            };
            let mirror: usize = if r < 4 {
                AT_VS_CONSTANTS
            } else {
                AT_PS_CONSTANTS
            };
            if first + count > bank || pool + count > BLOCK_CONST_POOL_FLOATS {
                assert(rs@ =~= a@.ranges_from(at as int, 0, 0));
                return rs;
            }
            let range = ConstRange {
                kind: if r < 4 {
                    2
                } else {
                    3
                },
                index: if r < 4 {
                    r as u32
                } else {
                    (r - 4) as u32
                },
                pool,
                mirror: mirror + first,
                count,
            };
            assert(range == a@.range_of(at as int, r as int, pool as int));
            let ghost before = rs@;
            rs.push(range);
            assert(rs@ + a@.ranges_from(at as int, r + 1, pool + count) =~= before
                + a@.ranges_from(at as int, r as int, pool as int));
            pool = pool + count;
        }
        r = r + 1;
    }
    assert(rs@ =~= a@.ranges_from(at as int, 0, 0));
    rs
}

/// A range read from a slot stays inside its bank and the pool.
pub open spec fn range_inside(r: ConstRange) -> bool {
    &&& AT_VS_CONSTANTS <= r.mirror
    &&& r.mirror + r.count <= AT_VS_CONST_VERSION
    &&& r.pool + r.count <= BLOCK_CONST_POOL_FLOATS
    &&& 2 <= r.kind <= 3
    &&& r.index < 4
}

/// Refreshes the recorded values of a slot from the mirrored state; a slot that does not
/// exist is left alone.
pub fn d3d9_block_capture(a: &mut Arena, slot: u32)
    requires
        old(a)@.wf(),
    ensures
        final(a)@ == (if slot < BLOCK_SLOT_COUNT { old(a)@.captured_block(slot as int) } else {
            old(a)@
        }),
        final(a)@.wf(),
{
    if slot as usize >= BLOCK_SLOT_COUNT {
        return ;
    }
    let at: usize = AT_BLOCK_SLOTS + slot as usize * BLOCK_SLOT_WORDS;
    let rs: Vec<ConstRange> = const_ranges(a, at);
    let mut states: Vec<u32> = Vec::new();
    copy_out(a, AT_RENDER_STATES, RENDER_STATE_COUNT, &mut states);
    let mut samplers: Vec<u32> = Vec::new();
    copy_out(a, AT_SAMPLER_STAGE0, SAMPLER_STAGE0_COUNT, &mut samplers);
    assert(states@ =~= a@.words.subrange(0, 256));
    assert(samplers@ =~= a@.samplers());
    write_words(a, at + BLOCK_RS_VALUES, &states);
    write_words(a, at + BLOCK_SAMP_VALUES, &samplers);
    let ghost base = a@;
    let mut i: usize = 0;
    assert(rs@.take(0) =~= seq![]);
    while i < rs.len()
        invariant
            i <= rs@.len(),
            a@.wf(),
            base.wf(),
            at + BLOCK_SLOT_WORDS <= ARENA_WORDS,
            a@ == base.with_pool(at as int, rs@.take(i as int)),
            forall|j: int| 0 <= j < rs@.len() ==> range_inside(#[trigger] rs@[j]),
        decreases rs@.len() - i,
    {
        let r: ConstRange = rs[i];
        assert(range_inside(rs@[i as int]));
        let mut values: Vec<u32> = Vec::new();
        copy_out(a, r.mirror, r.count, &mut values);
        assert(values@ =~= a@.mirror_values(r));
        write_words(a, at + BLOCK_CONST_POOL + r.pool, &values);
        i = i + 1;
        assert(rs@.take(i as int).drop_last() =~= rs@.take(i - 1));
    }
    assert(rs@.take(i as int) =~= rs@);
}

/// Appends the changed values under one mask to the list.
fn collect_values(
    a: &Arena,
    mask: usize,
    recorded: usize,
    mirrored: usize,
    tag: u32,
    n: usize,
    out: &mut Vec<u32>,
) -> (found: usize)
    requires
        a@.wf(),
        n <= 256,
        tag <= 65536,
        mask + 8 <= ARENA_WORDS,
        recorded + n <= ARENA_WORDS,
        mirrored + n <= ARENA_WORDS,
    ensures
        found <= n,
        found == a@.value_changes(
            mask as int,
            recorded as int,
            mirrored as int,
            tag,
            n as int,
        ).len(),
        final(out)@ == old(out)@ + pair_words(
            a@.value_changes(mask as int, recorded as int, mirrored as int, tag, n as int),
        ),
{
    let mut found: usize = 0;
    let mut i: usize = 0;
    assert(out@ =~= old(out)@ + pair_words(seq![]));
    while i < n
        invariant
            i <= n,
            a@.wf(),
            n <= 256,
            tag <= 65536,
            mask + 8 <= ARENA_WORDS,
            recorded + n <= ARENA_WORDS,
            mirrored + n <= ARENA_WORDS,
            found <= i,
            found == a@.value_changes(
                mask as int,
                recorded as int,
                mirrored as int,
                tag,
                i as int,
            ).len(),
            out@ == old(out)@ + pair_words(
                a@.value_changes(mask as int, recorded as int, mirrored as int, tag, i as int),
            ),
        decreases n - i,
    {
        let word: u32 = a.words[mask + i / 32];
        let v: u32 = a.words[recorded + i];
        let ghost before = a@.value_changes(
            mask as int,
            recorded as int,
            mirrored as int,
            tag,
            i as int,
        );
        if (word >> ((i % 32) as u32)) & 1 == 1 && v != a.words[mirrored + i] {
            out.push(tag + i as u32);
            out.push(v);
            found = found + 1;
            assert(out@ =~= old(out)@ + pair_words(before.push(((tag + i) as u32, v))));
        }
        i = i + 1;
    }
    found
}

/// Whether `n` words at `x` and at `y` are the same.
fn same_words(a: &Arena, x: usize, y: usize, n: usize) -> (same: bool)
    requires
        a@.wf(),
        x + n <= ARENA_WORDS,
        y + n <= ARENA_WORDS,
    ensures
        same == (a@.words.subrange(x as int, x + n) == a@.words.subrange(y as int, y + n)),
{
    let mut i: usize = 0;
    while i < n
        invariant
            i <= n,
            a@.wf(),
            x + n <= ARENA_WORDS,
            y + n <= ARENA_WORDS,
            forall|j: int| 0 <= j < i ==> #[trigger] a@.words[x + j] == a@.words[y + j],
        decreases n - i,
    {
        if a.words[x + i] != a.words[y + i] {
            assert(a@.words.subrange(x as int, x + n)[i as int] != a@.words.subrange(
                y as int,
                y + n,
            )[i as int]);
            return false;
        }
        i = i + 1;
    }
    assert forall|j: int| 0 <= j < n implies #[trigger] a@.words.subrange(x as int, x + n)[j]
        == a@.words.subrange(y as int, y + n)[j] by {
        assert(a@.words[x + j] == a@.words[y + j]);
    }
    assert(a@.words.subrange(x as int, x + n) =~= a@.words.subrange(y as int, y + n));
    true
}

/// Writes the list of everything in which a slot differs from the mirrored state, and
/// returns its length. The mirrored state itself is not touched.
pub fn d3d9_block_apply(a: &mut Arena, slot: u32) -> (n: u32)
    requires
        old(a)@.wf(),
    ensures
        final(a)@.wf(),
        slot >= BLOCK_SLOT_COUNT ==> n == 0 && final(a)@ == old(a)@,
        slot < BLOCK_SLOT_COUNT ==> {
            let changes = old(a)@.block_changes(slot as int);
            &&& n == changes.len()
            &&& changes.len() <= BLOCK_CHANGED_CAP
            &&& final(a)@ == old(a)@.with_words(AT_BLOCK_CHANGED as int, pair_words(changes))
        },
{
    if slot as usize >= BLOCK_SLOT_COUNT {
        return 0;
    }
    let at: usize = AT_BLOCK_SLOTS + slot as usize * BLOCK_SLOT_WORDS;
    let mut out: Vec<u32> = Vec::new();
    let states: usize = collect_values(
        a,
        at + BLOCK_MASK_RS,
        at + BLOCK_RS_VALUES,
        AT_RENDER_STATES,
        0,
        RENDER_STATE_COUNT,
        &mut out,
    );
    let ghost part1 = a@.value_changes(at + BLOCK_MASK_RS, at + BLOCK_RS_VALUES, 0, 0, 256);
    let samplers: usize = collect_values(
        a,
        at + BLOCK_MASK_SAMP,
        at + BLOCK_SAMP_VALUES,
        AT_SAMPLER_STAGE0,
        65536,
        32,
        &mut out,
    );
    let ghost part2 = a@.value_changes(at + BLOCK_MASK_SAMP, at + BLOCK_SAMP_VALUES, 256, 65536, 32);
    let rs: Vec<ConstRange> = const_ranges(a, at);
    let mut n: usize = states + samplers;
    let mut i: usize = 0;
    assert(rs@.take(0) =~= seq![]);
    assert(out@ =~= pair_words(part1 + part2 + seq![]));
    while i < rs.len()
        invariant
            i <= rs@.len(),
            rs@.len() <= 8,
            a@.wf(),
            at + BLOCK_SLOT_WORDS <= ARENA_WORDS,
            n == part1.len() + part2.len() + a@.range_changes(at as int, rs@.take(i as int)).len(),
            n <= 288 + i,
            out@ == pair_words(part1 + part2 + a@.range_changes(at as int, rs@.take(i as int))),
            forall|j: int| 0 <= j < rs@.len() ==> range_inside(#[trigger] rs@[j]),
        decreases rs@.len() - i,
    {
        let r: ConstRange = rs[i];
        assert(range_inside(rs@[i as int]));
        let ghost before = part1 + part2 + a@.range_changes(at as int, rs@.take(i as int));
        assert(rs@.take(i + 1).drop_last() =~= rs@.take(i as int));
        if !same_words(a, at + BLOCK_CONST_POOL + r.pool, r.mirror, r.count) {
            out.push(65536 * r.kind + r.index);
            out.push(r.pool as u32);
            n = n + 1;
            assert(out@ =~= pair_words(
                before.push(((65536 * r.kind + r.index) as u32, r.pool as u32)),
            ));
            assert(before.push(((65536 * r.kind + r.index) as u32, r.pool as u32)) =~= part1
                + part2 + a@.range_changes(at as int, rs@.take(i + 1)));
        }
        i = i + 1;
    }
    assert(rs@.take(i as int) =~= rs@);
    write_words(a, AT_BLOCK_CHANGED, &out);
    n as u32
}

/// The byte offsets and capacities of the shared layout, in their published order.
pub fn get_d3d9_arena_layout_ptr() -> (table: Vec<u32>)
    ensures
        table@ == layout_table(),
{
    let at: Vec<usize> = vec![
        AT_RENDER_STATES,
        AT_SAMPLER_STAGE0,
        AT_STREAM_SOURCE,
        AT_INDEX_BUFFER,
        AT_VS_HANDLE,
        AT_PS_HANDLE,
        AT_DECL_HANDLE,
        AT_FVF,
        AT_TEXTURE_BOUND_IDS,
        AT_TEXTURE_CUBE_FLAGS,
        AT_SHADER_CONST_LEN_VS,
        AT_SHADER_CONST_LEN_PS,
        AT_VS_CONSTANTS,
        AT_PS_CONSTANTS,
        AT_VS_CONST_VERSION,
        AT_PS_CONST_VERSION,
        AT_PIPELINE_IDENTITY,
        AT_CMD_TYPES,
        AT_CMD_A,
        AT_CMD_B,
        AT_CMD_C,
        AT_PIPELINE_KEY,
        AT_BIND_GROUP_KEY,
        AT_COMMAND_COUNT,
        AT_BUMP_ARENA,
        AT_BUMP_CURSOR,
        AT_COMMANDS_EMITTED,
        AT_ARENA_HIGH_WATER,
        AT_OVERFLOW_COUNT,
        AT_FFP_FALLBACK_COUNT,
        AT_MISMATCH_COUNT,
    ];
    let mut table: Vec<u32> = Vec::new();
    let mut i: usize = 0;
    while i < at.len()
        invariant
            i <= at@.len(),
            at@ == region_table(),
            table@ == Seq::new(i as nat, |k: int| (4 * region_table()[k]) as u32),
        decreases at@.len() - i,
    {
        table.push(4 * at[i] as u32);
        i = i + 1;
        assert(table@ =~= Seq::new(i as nat, |k: int| (4 * region_table()[k]) as u32));
    }
    table.push(CMD_CAP as u32);
    table.push(4 * ARENA_WORDS as u32);
    table.push(4 * AT_BLOCK_SLOTS as u32);
    table.push(4 * BLOCK_SLOT_WORDS as u32);
    table.push(BLOCK_SLOT_COUNT as u32);
    table.push(4 * AT_BLOCK_CHANGED as u32);
    table.push(BLOCK_CHANGED_CAP as u32);
    table.push(4 * BLOCK_MASK_RS as u32);
    table.push(4 * BLOCK_MASK_SAMP as u32);
    table.push(4 * BLOCK_VS_RANGES as u32);
    table.push(4 * BLOCK_PS_RANGES as u32);
    table.push(4 * BLOCK_RS_VALUES as u32);
    table.push(4 * BLOCK_SAMP_VALUES as u32);
    table.push(4 * BLOCK_CONST_POOL as u32);
    assert(table@ =~= layout_table());
    table
}

/// Word positions of the regions, in their published order.
pub open spec fn region_table() -> Seq<usize> {
    seq![
        AT_RENDER_STATES,
        AT_SAMPLER_STAGE0,
        AT_STREAM_SOURCE,
        AT_INDEX_BUFFER,
        AT_VS_HANDLE,
        AT_PS_HANDLE,
        AT_DECL_HANDLE,
        AT_FVF,
        AT_TEXTURE_BOUND_IDS,
        AT_TEXTURE_CUBE_FLAGS,
        AT_SHADER_CONST_LEN_VS,
        AT_SHADER_CONST_LEN_PS,
        AT_VS_CONSTANTS,
        AT_PS_CONSTANTS,
        AT_VS_CONST_VERSION,
        AT_PS_CONST_VERSION,
        AT_PIPELINE_IDENTITY,
        AT_CMD_TYPES,
        AT_CMD_A,
        AT_CMD_B,
        AT_CMD_C,
        AT_PIPELINE_KEY,
        AT_BIND_GROUP_KEY,
        AT_COMMAND_COUNT,
        AT_BUMP_ARENA,
        AT_BUMP_CURSOR,
        AT_COMMANDS_EMITTED,
        AT_ARENA_HIGH_WATER,
        AT_OVERFLOW_COUNT,
        AT_FFP_FALLBACK_COUNT,
        AT_MISMATCH_COUNT,
    ]
}

/// The published table: byte offsets of the regions, then capacities, the slot geometry and
/// the offsets inside a slot.
pub open spec fn layout_table() -> Seq<u32> {
    Seq::new(31, |k: int| (4 * region_table()[k]) as u32) + seq![
        CMD_CAP as u32,
        (4 * ARENA_WORDS) as u32,
        (4 * AT_BLOCK_SLOTS) as u32,
        (4 * BLOCK_SLOT_WORDS) as u32,
        BLOCK_SLOT_COUNT as u32,
        (4 * AT_BLOCK_CHANGED) as u32,
        BLOCK_CHANGED_CAP as u32,
        (4 * BLOCK_MASK_RS) as u32,
        (4 * BLOCK_MASK_SAMP) as u32,
        (4 * BLOCK_VS_RANGES) as u32,
        (4 * BLOCK_PS_RANGES) as u32,
        (4 * BLOCK_RS_VALUES) as u32,
        (4 * BLOCK_SAMP_VALUES) as u32,
        (4 * BLOCK_CONST_POOL) as u32,
    ]
}

} // verus!
