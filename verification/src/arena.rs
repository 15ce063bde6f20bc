//! The frame arena of the Direct3D 9 recorder: one block of 32-bit words that holds the
//! mirrored device state, the command rows of the frame, a bump area for captured data and
//! the state-block slots, together with the memos that let consecutive draws share data.
use vstd::prelude::*;

verus! {

// Layout of the shared block, in 32-bit words.
pub const RENDER_STATE_COUNT: usize = 256;
pub const SAMPLER_STAGE0_COUNT: usize = 16;
pub const TEXTURE_ID_SLOTS: usize = 8;
pub const TEXTURE_CUBE_FLAG_SLOTS: usize = 4096;
pub const SHADER_HANDLE_SLOTS: usize = 1024;
pub const VS_CONST_FLOATS: usize = 1024;
pub const PS_CONST_FLOATS: usize = 896;
pub const PIPELINE_IDENTITY_WORDS: usize = 16;
pub const CMD_CAP: usize = 16384;
/// Size of the bump area in bytes.
pub const BUMP_CAP: usize = 16777216;
/// Longest write-buffer run that one call accepts, in bytes.
pub const WBUF_RUN_CAP: usize = 524288;
pub const D3D9_ARENA_ABI_VERSION: u32 = 4;

pub const AT_RENDER_STATES: usize = 0;
pub const AT_SAMPLER_STAGE0: usize = 256;
pub const AT_STREAM_SOURCE: usize = 272;
pub const AT_INDEX_BUFFER: usize = 275;
pub const AT_VS_HANDLE: usize = 277;
pub const AT_PS_HANDLE: usize = 278;
pub const AT_DECL_HANDLE: usize = 279;
pub const AT_FVF: usize = 280;
pub const AT_TEXTURE_BOUND_IDS: usize = 281;
pub const AT_TEXTURE_CUBE_FLAGS: usize = 289;
pub const AT_SHADER_CONST_LEN_VS: usize = 1313;
pub const AT_SHADER_CONST_LEN_PS: usize = 1825;
pub const AT_VS_CONSTANTS: usize = 2337;
pub const AT_PS_CONSTANTS: usize = 3361;
pub const AT_VS_CONST_VERSION: usize = 4257;
pub const AT_PS_CONST_VERSION: usize = 4258;
pub const AT_PIPELINE_IDENTITY: usize = 4259;
pub const AT_CMD_TYPES: usize = 4276;
pub const AT_CMD_A: usize = 20660;
pub const AT_CMD_B: usize = 37044;
pub const AT_CMD_C: usize = 53428;
pub const AT_PIPELINE_KEY: usize = 69812;
pub const AT_BIND_GROUP_KEY: usize = 86196;
pub const AT_COMMAND_COUNT: usize = 102580;
pub const AT_BUMP_ARENA: usize = 102581;
pub const AT_BUMP_CURSOR: usize = 4296885;
pub const AT_COMMANDS_EMITTED: usize = 4296886;
pub const AT_ARENA_HIGH_WATER: usize = 4296887;
pub const AT_OVERFLOW_COUNT: usize = 4296888;
pub const AT_FFP_FALLBACK_COUNT: usize = 4296889;
pub const AT_MISMATCH_COUNT: usize = 4296890;
pub const AT_BLOCK_SLOTS: usize = 4296892;
pub const AT_BLOCK_CHANGED: usize = 4399804;
pub const ARENA_WORDS: usize = 4400828;

// State-block slots, in words relative to the slot.
pub const BLOCK_SLOT_COUNT: usize = 128;
pub const BLOCK_SLOT_WORDS: usize = 804;
pub const BLOCK_MASK_RS: usize = 0;
pub const BLOCK_MASK_SAMP: usize = 8;
pub const BLOCK_VS_RANGES: usize = 9;
pub const BLOCK_PS_RANGES: usize = 13;
pub const BLOCK_RS_VALUES: usize = 18;
pub const BLOCK_SAMP_VALUES: usize = 274;
pub const BLOCK_CONST_POOL: usize = 290;
pub const BLOCK_CONST_POOL_FLOATS: usize = 512;
pub const BLOCK_RANGE_COUNT: usize = 4;
/// Capacity of the changed list, in (key, value) pairs.
pub const BLOCK_CHANGED_CAP: usize = 512;

// Command row types.
pub const CMD_SET_PIPELINE: u32 = 1;
pub const CMD_SET_VERTEX_BUFFER: u32 = 2;
pub const CMD_DRAW: u32 = 3;
pub const CMD_SET_INDEX_BUFFER: u32 = 4;
pub const CMD_DRAW_INDEXED: u32 = 5;
pub const CMD_BIND_PROGRAMMABLE: u32 = 6;
/// A = vertex count, B = byte offset of the captured vertices, C = their byte length.
pub const CMD_DRAW_UP: u32 = 7;
/// A = index count, B and C = byte offsets of the captured vertices and indices; the
/// pipeline column holds the index byte length and the bind-group column
/// `vertex_byte_len << 1 | index_is_16bit`.
pub const CMD_DRAW_INDEXED_UP: u32 = 8;

/// First word of a compact run whose instances hold only the changed constants.
pub const COMPACT_RUN_MAGIC_SPARSE: u32 = 0x434d5201;
/// First word of a compact run whose instances hold the whole expanded template.
pub const COMPACT_RUN_MAGIC_STORAGE: u32 = 0x434d5202;
pub const COMPACT_RUN_HEADER_WORDS: usize = 10;

// Render states that take part in the keys.
pub const D3DRS_ZENABLE: usize = 7;
pub const D3DRS_ZWRITEENABLE: usize = 14;
pub const D3DRS_ALPHATESTENABLE: usize = 15;
pub const D3DRS_SRCBLEND: usize = 19;
pub const D3DRS_DESTBLEND: usize = 20;
pub const D3DRS_CULLMODE: usize = 22;
pub const D3DRS_ALPHAREF: usize = 24;
pub const D3DRS_ALPHAFUNC: usize = 25;
pub const D3DRS_ALPHABLENDENABLE: usize = 27;
pub const D3DRS_COLORWRITEENABLE: usize = 168;
pub const D3DRS_BLENDOP: usize = 171;
pub const D3DRS_SEPARATEALPHABLENDENABLE: usize = 206;
pub const D3DRS_SRCBLENDALPHA: usize = 207;
pub const D3DRS_DESTBLENDALPHA: usize = 208;
pub const D3DRS_BLENDOPALPHA: usize = 209;

/// Words of a captured draw state before the constants.
pub const DRAW_STATE_HEADER_WORDS: usize = 32;

/// The last captured draw state, kept so that an identical draw can reuse its slot.
pub struct DrawMemo {
    pub valid: bool,
    pub pipeline_key: u32,
    pub vs_version: u32,
    pub ps_version: u32,
    pub bind_group_key: u32,
    pub offset: u32,
    pub identity: Vec<u32>,
}

/// The frame arena.
pub struct Arena {
    /// The shared block.
    pub words: Vec<u32>,
    /// Buffer, offset and stride of the last `CMD_SET_VERTEX_BUFFER` row.
    pub last_bound_stream: (u32, u32, u32),
    /// Buffer and format of the last `CMD_SET_INDEX_BUFFER` row.
    pub last_bound_index: (u32, u32),
    pub last_draw: DrawMemo,
    /// Byte offset of the last compact run in the bump area, or -1.
    pub last_wbuf_compact_offset: i32,
    pub compact_template: Vec<u32>,
    pub compact_template_words: usize,
}

/// What a [`DrawMemo`] holds.
#[verifier::ext_equal]
pub struct DrawMemoView {
    pub valid: bool,
    pub pipeline_key: u32,
    pub vs_version: u32,
    pub ps_version: u32,
    pub bind_group_key: u32,
    pub offset: u32,
    pub identity: Seq<u32>,
}

/// What an [`Arena`] holds.
#[verifier::ext_equal]
pub struct ArenaView {
    pub words: Seq<u32>,
    pub last_bound_stream: (u32, u32, u32),
    pub last_bound_index: (u32, u32),
    pub last_draw: DrawMemoView,
    pub last_wbuf_compact_offset: i32,
    pub compact_template: Seq<u32>,
    pub compact_template_words: nat,
}

impl View for DrawMemo {
    type V = DrawMemoView;

    open spec fn view(&self) -> DrawMemoView {
        DrawMemoView {
            valid: self.valid,
            pipeline_key: self.pipeline_key,
            vs_version: self.vs_version,
            ps_version: self.ps_version,
            bind_group_key: self.bind_group_key,
            offset: self.offset,
            identity: self.identity@,
        }
    }
}

impl View for Arena {
    type V = ArenaView;

    open spec fn view(&self) -> ArenaView {
        ArenaView {
            words: self.words@,
            last_bound_stream: self.last_bound_stream,
            last_bound_index: self.last_bound_index,
            last_draw: self.last_draw@,
            last_wbuf_compact_offset: self.last_wbuf_compact_offset,
            compact_template: self.compact_template@,
            compact_template_words: self.compact_template_words as nat,
        }
    }
}

/// `base` with `data` laid over it from position `at`.
pub open spec fn overwrite(base: Seq<u32>, at: int, data: Seq<u32>) -> Seq<u32> {
    Seq::new(base.len(), |i: int| if at <= i < at + data.len() { data[i - at] } else { base[i] })
}

impl ArenaView {
    pub open spec fn wf(self) -> bool {
        &&& self.words.len() == ARENA_WORDS
        &&& self.last_draw.identity.len() == PIPELINE_IDENTITY_WORDS
        &&& self.compact_template.len() == VS_CONST_FLOATS
        &&& self.compact_template_words <= VS_CONST_FLOATS
    }

    pub open spec fn with(self, at: int, v: u32) -> ArenaView {
        ArenaView { words: self.words.update(at, v), ..self }
    }

    pub open spec fn with_words(self, at: int, data: Seq<u32>) -> ArenaView {
        ArenaView { words: overwrite(self.words, at, data), ..self }
    }

    pub open spec fn command_count(self) -> u32 {
        self.words[AT_COMMAND_COUNT as int]
    }

    pub open spec fn bump_cursor(self) -> u32 {
        self.words[AT_BUMP_CURSOR as int]
    }

    pub open spec fn identity(self) -> Seq<u32> {
        self.words.subrange(
            AT_PIPELINE_IDENTITY as int,
            AT_PIPELINE_IDENTITY + PIPELINE_IDENTITY_WORDS,
        )
    }

    pub open spec fn texture_ids(self) -> Seq<u32> {
        self.words.subrange(
            AT_TEXTURE_BOUND_IDS as int,
            AT_TEXTURE_BOUND_IDS + TEXTURE_ID_SLOTS,
        )
    }

    pub open spec fn samplers(self) -> Seq<u32> {
        self.words.subrange(AT_SAMPLER_STAGE0 as int, AT_SAMPLER_STAGE0 + SAMPLER_STAGE0_COUNT)
    }

    /// Number of vertex-shader constant words that shader `handle` reads, as recorded.
    pub open spec fn vs_const_len(self, handle: u32) -> u32 {
        half_word(self.words, AT_SHADER_CONST_LEN_VS as int, handle as int % 1024)
    }

    pub open spec fn ps_const_len(self, handle: u32) -> u32 {
        half_word(self.words, AT_SHADER_CONST_LEN_PS as int, handle as int % 1024)
    }

    /// Whether the texture bound at `stage` is a cube texture.
    pub open spec fn stage_is_cube(self, stage: int) -> bool {
        let id = self.words[AT_TEXTURE_BOUND_IDS + stage];
        id != 0 && id < TEXTURE_CUBE_FLAG_SLOTS && byte_lane(
            self.words[AT_TEXTURE_CUBE_FLAGS + id as int / 4],
            id as int % 4,
        ) != 0
    }

    /// Bit `i` of the cube mask, for `i < n`, says whether stage `i` holds a cube texture.
    pub open spec fn cube_mask_upto(self, n: int) -> u32
        decreases n,
    {
        if n <= 0 {
            0
        } else {
            self.cube_mask_upto(n - 1) | (if self.stage_is_cube(n - 1) {
                1u32 << ((n - 1) as u32)
            } else {
                0
            })
        }
    }

    pub open spec fn cube_mask(self) -> u32 {
        self.cube_mask_upto(TEXTURE_ID_SLOTS as int)
    }

    /// Blend, separate-alpha and alpha-test fields. The blend fields count only while
    /// alpha blending is on, the alpha-test fields only while the alpha test is on.
    #[verifier::opaque]
    pub open spec fn blend_alpha_fields(self) -> (u32, u32, u32) {
        let w = self.words;
        let mask = (w[D3DRS_COLORWRITEENABLE as int] & 0xf) << 16;
        let (core, separate) = if w[D3DRS_ALPHABLENDENABLE as int] != 0 {
            (
                (w[D3DRS_SRCBLEND as int] & 0x1f) | ((w[D3DRS_DESTBLEND as int] & 0x1f) << 5) | ((
                w[D3DRS_BLENDOP as int] & 0x7) << 10) | (1u32 << 15),
                flag_bit(w[D3DRS_SEPARATEALPHABLENDENABLE as int]) | ((
                w[D3DRS_SRCBLENDALPHA as int] & 0x1f) << 1) | ((w[D3DRS_DESTBLENDALPHA as int]
                    & 0x1f) << 6) | ((w[D3DRS_BLENDOPALPHA as int] & 0x7) << 11),
            )
        } else {
            (0u32, 0u32)
        };
        let alpha = if w[D3DRS_ALPHATESTENABLE as int] != 0 {
            1u32 | ((w[D3DRS_ALPHAFUNC as int] & 0xf) << 1) | ((w[D3DRS_ALPHAREF as int] & 0xff)
                << 5)
        } else {
            0u32
        };
        (core | mask, separate, alpha)
    }

    /// Cull mode, depth test and depth write.
    pub open spec fn state_bits(self) -> u32 {
        (self.words[D3DRS_CULLMODE as int] & 0xff) | (flag_bit(self.words[D3DRS_ZENABLE as int])
            << 8) | (flag_bit(self.words[D3DRS_ZWRITEENABLE as int]) << 9)
    }

    /// Identity of the pipeline that a draw needs.
    #[verifier::opaque]
    pub open spec fn pipeline_key(self, stride: u32, topology: u32, force_cull_none: u32) -> u32 {
        let (blend, separate, alpha) = self.blend_alpha_fields();
        fnv(
            self.identity() + seq![
                self.words[AT_VS_HANDLE as int],
                self.words[AT_PS_HANDLE as int],
                self.words[AT_DECL_HANDLE as int],
                stride,
                topology,
                force_cull_none,
                self.state_bits(),
                blend,
                separate,
                alpha,
                self.cube_mask(),
            ],
        )
    }

    /// Identity of the bind group that a draw needs.
    #[verifier::opaque]
    pub open spec fn bind_group_key(self) -> u32 {
        fnv(self.samplers() + seq![self.cube_mask()] + self.texture_ids())
    }
}

/// 1 where `v` is set, else 0.
pub open spec fn flag_bit(v: u32) -> u32 {
    if v != 0 {
        1
    } else {
        0
    }
}

/// Byte `lane` (0 = lowest) of a word.
pub open spec fn byte_lane(word: u32, lane: int) -> u32 {
    (word >> ((8 * lane) as u32)) & 0xff
}

/// Half-word `index` of the half-words packed from word `at` on.
pub open spec fn half_word(words: Seq<u32>, at: int, index: int) -> u32 {
    (words[at + index / 2] >> ((16 * (index % 2)) as u32)) & 0xffff
}

/// One FNV-1a round over a whole word.
pub open spec fn fnv_step(h: u32, v: u32) -> u32 {
    (h ^ v).wrapping_mul(0x01000193)
}

/// The FNV-1a digest of a sequence of words.
pub open spec fn fnv(s: Seq<u32>) -> u32
    decreases s.len(),
{
    if s.len() == 0 {
        0x811c9dc5
    } else {
        fnv_step(fnv(s.drop_last()), s.last())
    }
}

/// The rows and bump bytes of the frame are gone and no memo survives.
pub open spec fn after_reset(s: ArenaView) -> ArenaView {
    ArenaView {
        words: overwrite(
            s.words.update(AT_COMMAND_COUNT as int, 0).update(AT_BUMP_CURSOR as int, 0),
            AT_PIPELINE_IDENTITY as int,
            zeros(),
        ),
        last_bound_stream: (0, 0, 0),
        last_bound_index: (0, 0),
        last_draw: DrawMemoView {
            valid: false,
            bind_group_key: 0,
            identity: zeros(),
            ..s.last_draw
        },
        last_wbuf_compact_offset: -1i32,
        compact_template_words: 0,
        ..s
    }
}

pub open spec fn zeros() -> Seq<u32> {
    Seq::new(PIPELINE_IDENTITY_WORDS as nat, |i: int| 0u32)
}

/// A rollback may only go back, and stays inside both areas.
pub open spec fn truncate_allowed(s: ArenaView, command_count: u32, bump_cursor: u32) -> bool {
    &&& command_count <= s.command_count()
    &&& bump_cursor <= s.bump_cursor()
    &&& command_count <= CMD_CAP
    &&& bump_cursor <= BUMP_CAP
}

pub open spec fn after_truncate(s: ArenaView, command_count: u32, bump_cursor: u32) -> ArenaView {
    if truncate_allowed(s, command_count, bump_cursor) {
        ArenaView {
            words: s.words.update(AT_COMMAND_COUNT as int, command_count).update(
                AT_BUMP_CURSOR as int,
                bump_cursor,
            ),
            last_bound_stream: (0, 0, 0),
            last_bound_index: (0, 0),
            last_draw: DrawMemoView {
                valid: false,
                bind_group_key: 0,
                identity: zeros(),
                ..s.last_draw
            },
            ..s
        }
    } else {
        s
    }
}

/// Bytes that an allocation of `len` bytes takes: `len` rounded up to whole words.
pub open spec fn aligned_len(len: int) -> int {
    (len + 3) / 4 * 4
}

pub open spec fn bump_fits(s: ArenaView, len: int) -> bool {
    s.bump_cursor() + aligned_len(len) <= BUMP_CAP
}

/// The arena after one more refused request.
pub open spec fn after_overflow(s: ArenaView) -> ArenaView {
    s.with(AT_OVERFLOW_COUNT as int, s.words[AT_OVERFLOW_COUNT as int].wrapping_add(1))
}

/// The arena after a request for `len` bytes of the bump area.
pub open spec fn after_bump(s: ArenaView, len: int) -> ArenaView {
    if bump_fits(s, len) {
        let end = (s.bump_cursor() + aligned_len(len)) as u32;
        let moved = s.with(AT_BUMP_CURSOR as int, end);
        if end > s.words[AT_ARENA_HIGH_WATER as int] {
            moved.with(AT_ARENA_HIGH_WATER as int, end)
        } else {
            moved
        }
    } else {
        after_overflow(s)
    }
}

/// One command row.
pub struct Row {
    pub kind: u32,
    pub a: u32,
    pub b: u32,
    pub c: u32,
    pub pipeline_key: u32,
    pub bind_group_key: u32,
}

pub open spec fn row(kind: u32, a: u32, b: u32, c: u32, pk: u32, bk: u32) -> Row {
    Row { kind, a, b, c, pipeline_key: pk, bind_group_key: bk }
}

pub open spec fn row_fits(s: ArenaView) -> bool {
    s.command_count() < CMD_CAP
}

/// The arena after appending row `r`, or after the refusal where all rows are taken.
#[verifier::opaque]
pub open spec fn after_row(s: ArenaView, r: Row) -> ArenaView {
    if row_fits(s) {
        let n = s.command_count() as int;
        ArenaView {
            words: s.words.update(AT_CMD_TYPES + n, r.kind).update(AT_CMD_A + n, r.a).update(
                AT_CMD_B + n,
                r.b,
            ).update(AT_CMD_C + n, r.c).update(AT_PIPELINE_KEY + n, r.pipeline_key).update(
                AT_BIND_GROUP_KEY + n,
                r.bind_group_key,
            ).update(AT_COMMAND_COUNT as int, (n + 1) as u32).update(
                AT_COMMANDS_EMITTED as int,
                s.words[AT_COMMANDS_EMITTED as int].wrapping_add(1),
            ),
            ..s
        }
    } else {
        after_overflow(s)
    }
}

/// A row that fits changes the rows and their counts and nothing before them.
pub proof fn lemma_row(s: ArenaView, r: Row)
    requires
        s.wf(),
        row_fits(s),
    ensures
        after_row(s, r).wf(),
        after_row(s, r).command_count() == s.command_count() + 1,
        after_row(s, r).bump_cursor() == s.bump_cursor(),
        after_row(s, r) == (ArenaView { words: after_row(s, r).words, ..s }),
        forall|i: int|
            0 <= i < AT_CMD_TYPES ==> #[trigger] after_row(s, r).words[i] == s.words[i],
{
    reveal(after_row);
}

/// Whether the last captured draw state describes this draw too.
pub open spec fn memo_hit(s: ArenaView, key: u32) -> bool {
    &&& s.last_draw.valid
    &&& s.last_draw.pipeline_key == key
    &&& s.last_draw.vs_version == s.words[AT_VS_CONST_VERSION as int]
    &&& s.last_draw.ps_version == s.words[AT_PS_CONST_VERSION as int]
    &&& s.last_draw.bind_group_key == s.bind_group_key()
    &&& s.identity() == s.last_draw.identity
}

pub open spec fn min_int(a: int, b: int) -> int {
    if a <= b {
        a
    } else {
        b
    }
}

pub open spec fn vs_words(s: ArenaView) -> int {
    min_int(s.vs_const_len(s.words[AT_VS_HANDLE as int]) as int, VS_CONST_FLOATS as int)
}

pub open spec fn ps_words(s: ArenaView) -> int {
    min_int(s.ps_const_len(s.words[AT_PS_HANDLE as int]) as int, PS_CONST_FLOATS as int)
}

/// The words of a captured draw state: lengths, keys, textures, state fields, the
/// pipeline identity and the constants in use.
#[verifier::opaque]
pub open spec fn draw_state_words(s: ArenaView, topology: u32, force_cull_none: u32) -> Seq<u32> {
    let vs_len = s.vs_const_len(s.words[AT_VS_HANDLE as int]);
    let ps_len = s.ps_const_len(s.words[AT_PS_HANDLE as int]);
    let (blend, separate, alpha) = s.blend_alpha_fields();
    seq![vs_len | (ps_len << 16), s.cube_mask(), s.bind_group_key()] + s.texture_ids() + seq![
        s.state_bits() | (topology << 16) | (force_cull_none << 24),
        blend,
        separate,
        alpha,
        s.words[AT_DECL_HANDLE as int],
    ] + s.identity() + s.words.subrange(
        AT_VS_CONSTANTS as int,
        AT_VS_CONSTANTS + vs_words(s),
    ) + s.words.subrange(AT_PS_CONSTANTS as int, AT_PS_CONSTANTS + ps_words(s))
}

pub open spec fn draw_state_bytes(s: ArenaView) -> int {
    4 * (DRAW_STATE_HEADER_WORDS + vs_words(s) + ps_words(s))
}

/// A captured draw state fills exactly the bytes that are taken for it.
pub proof fn lemma_draw_state_len(s: ArenaView, topology: u32, force_cull_none: u32)
    requires
        s.wf(),
    ensures
        4 * draw_state_words(s, topology, force_cull_none).len() == draw_state_bytes(s),
        vs_words(s) >= 0,
        ps_words(s) >= 0,
{
    reveal(draw_state_words);
}

/// The arena after the draw state for pipeline `key` is captured, and the byte offset of
/// the capture, or `None` where the bump area is full.
#[verifier::opaque]
pub open spec fn after_capture(
    s: ArenaView,
    topology: u32,
    force_cull_none: u32,
    key: u32,
) -> (ArenaView, Option<u32>) {
    if memo_hit(s, key) {
        (s, Some(s.last_draw.offset))
    } else if !bump_fits(s, draw_state_bytes(s)) {
        (after_overflow(s), None)
    } else {
        let offset = s.bump_cursor();
        let written = after_bump(s, draw_state_bytes(s)).with_words(
            AT_BUMP_ARENA + offset as int / 4,
            draw_state_words(s, topology, force_cull_none),
        );
        (
            ArenaView {
                last_draw: DrawMemoView {
                    valid: true,
                    pipeline_key: key,
                    vs_version: s.words[AT_VS_CONST_VERSION as int],
                    ps_version: s.words[AT_PS_CONST_VERSION as int],
                    bind_group_key: s.bind_group_key(),
                    offset,
                    identity: s.identity(),
                },
                ..written
            },
            Some(offset),
        )
    }
}

/// A capture changes the bump area, its cursors and the memo and nothing else.
pub proof fn lemma_capture(s: ArenaView, topology: u32, force_cull_none: u32, key: u32)
    requires
        s.wf(),
        s.bump_cursor() % 4 == 0,
        bump_fits(s, draw_state_bytes(s)),
    ensures
        ({
            let (t, at) = after_capture(s, topology, force_cull_none, key);
            &&& at is Some
            &&& t.wf()
            &&& t.bump_cursor() % 4 == 0
            &&& t.bump_cursor() <= s.bump_cursor() + draw_state_bytes(s)
            &&& t.command_count() == s.command_count()
            &&& t == (ArenaView { words: t.words, last_draw: t.last_draw, ..s })
            &&& forall|i: int| 0 <= i < AT_BUMP_ARENA ==> #[trigger] t.words[i] == s.words[i]
        }),
{
    reveal(after_capture);
    lemma_draw_state_len(s, topology, force_cull_none);
}

pub open spec fn stream_of(s: ArenaView) -> (u32, u32, u32) {
    (
        s.words[AT_STREAM_SOURCE as int],
        s.words[AT_STREAM_SOURCE + 1],
        s.words[AT_STREAM_SOURCE + 2],
    )
}

pub open spec fn index_of(s: ArenaView) -> (u32, u32) {
    (s.words[AT_INDEX_BUFFER as int], s.words[AT_INDEX_BUFFER + 1])
}

/// The arena after the vertex-buffer row that a changed stream binding asks for.
pub open spec fn after_stream(s: ArenaView) -> (ArenaView, bool) {
    let v = stream_of(s);
    if s.last_bound_stream == v {
        (s, true)
    } else if row_fits(s) {
        (
            ArenaView {
                last_bound_stream: v,
                ..after_row(s, row(CMD_SET_VERTEX_BUFFER, v.0, v.1, v.2, 0, 0))
            },
            true,
        )
    } else {
        (after_overflow(s), false)
    }
}

/// The arena after the index-buffer row that a changed index binding asks for.
pub open spec fn after_index(s: ArenaView) -> (ArenaView, bool) {
    let v = index_of(s);
    if s.last_bound_index == v {
        (s, true)
    } else if row_fits(s) {
        (
            ArenaView {
                last_bound_index: v,
                ..after_row(s, row(CMD_SET_INDEX_BUFFER, v.0, v.1, 0, 0, 0))
            },
            true,
        )
    } else {
        (after_overflow(s), false)
    }
}

/// The arena after everything that precedes the draw row itself, and the pipeline key, or
/// `None` where the draw is declined: no shader pair bound, or the arena is full.
pub open spec fn after_prelude(
    s: ArenaView,
    topology: u32,
    stride: u32,
    force_cull_none: u32,
) -> (ArenaView, Option<u32>) {
    if s.words[AT_VS_HANDLE as int] == 0 || s.words[AT_PS_HANDLE as int] == 0 {
        (
            s.with(
                AT_FFP_FALLBACK_COUNT as int,
                s.words[AT_FFP_FALLBACK_COUNT as int].wrapping_add(1),
            ),
            None,
        )
    } else {
        let (s1, ok1) = after_stream(s);
        let (s2, ok2) = after_index(s1);
        if !ok1 {
            (s1, None)
        } else if !ok2 {
            (s2, None)
        } else {
            let key = s2.pipeline_key(stride, topology, force_cull_none);
            let group = s2.bind_group_key();
            let (s3, captured) = after_capture(s2, topology, force_cull_none, key);
            match captured {
                None => (s3, None),
                Some(at) => {
                    let s4 = after_row(s3, row(CMD_SET_PIPELINE, key, at, 0, key, group));
                    let s5 = after_row(s4, row(CMD_BIND_PROGRAMMABLE, at, 0, 0, key, group));
                    if !row_fits(s3) {
                        (s4, None)
                    } else if !row_fits(s4) {
                        (s5, None)
                    } else {
                        (s5, Some(key))
                    }
                },
            }
        }
    }
}

/// The arena after a draw whose own row is `r` but for the pipeline key, which is filled in
/// unless `keyless`; and the pipeline key, or -1 where the draw is declined.
#[verifier::opaque]
pub open spec fn after_draw(
    s: ArenaView,
    topology: u32,
    stride: u32,
    force_cull_none: u32,
    r: Row,
    keyless: bool,
) -> (ArenaView, i64) {
    let (s1, key) = after_prelude(s, topology, stride, force_cull_none);
    match key {
        None => (s1, -1i64),
        Some(k) => {
            let filled = if keyless {
                r
            } else {
                Row { pipeline_key: k, ..r }
            };
            (after_row(s1, filled), if row_fits(s1) {
                k as i64
            } else {
                -1i64
            })
        },
    }
}

impl Arena {
    /// An arena with every word zero and no memo.
    pub fn new() -> (a: Arena)
        ensures
            a@.wf(),
            a@.words == Seq::new(ARENA_WORDS as nat, |i: int| 0u32),
            a@.last_bound_stream == (0u32, 0u32, 0u32),
            a@.last_bound_index == (0u32, 0u32),
            !a@.last_draw.valid,
            a@.last_wbuf_compact_offset == -1,
            a@.compact_template == Seq::new(VS_CONST_FLOATS as nat, |i: int| 0u32),
            a@.compact_template_words == 0,
    {
        let a = Arena {
            words: filled(ARENA_WORDS),
            last_bound_stream: (0, 0, 0),
            last_bound_index: (0, 0),
            last_draw: DrawMemo {
                valid: false,
                pipeline_key: 0,
                vs_version: 0,
                ps_version: 0,
                bind_group_key: 0,
                offset: 0,
                identity: filled(PIPELINE_IDENTITY_WORDS),
            },
            last_wbuf_compact_offset: -1,
            compact_template: filled(VS_CONST_FLOATS),
            compact_template_words: 0,
        };
        assert(a.words@ =~= Seq::new(ARENA_WORDS as nat, |i: int| 0u32));
        assert(a.compact_template@ =~= Seq::new(VS_CONST_FLOATS as nat, |i: int| 0u32));
        a
    }
}

/// `n` zero words.
fn filled(n: usize) -> (v: Vec<u32>)
    ensures
        v@ == Seq::new(n as nat, |i: int| 0u32),
{
    let mut v: Vec<u32> = Vec::with_capacity(n);
    let mut i: usize = 0;
    while i < n
        invariant
            i <= n,
            v@ == Seq::new(i as nat, |j: int| 0u32),
        decreases n - i,
    {
        v.push(0);
        i = i + 1;
        assert(v@ =~= Seq::new(i as nat, |j: int| 0u32));
    }
    v
}

/// The word at byte offset `off`.
pub fn rd_u32(a: &Arena, off: usize) -> (v: u32)
    requires
        a@.wf(),
        off % 4 == 0,
        off / 4 < ARENA_WORDS,
    ensures
        v == a@.words[off as int / 4],
{
    a.words[off / 4]
}

/// Stores `v` at byte offset `off`.
pub fn wr_u32(a: &mut Arena, off: usize, v: u32)
    requires
        old(a)@.wf(),
        off % 4 == 0,
        off / 4 < ARENA_WORDS,
    ensures
        final(a)@ == old(a)@.with(off as int / 4, v),
        final(a)@.wf(),
{
    a.words.set(off / 4, v);
}

/// Lays `data[from .. from + n]` over `words` from position `at` on.
pub fn lay(words: &mut Vec<u32>, at: usize, data: &Vec<u32>, from: usize, n: usize)
    requires
        at + n <= old(words)@.len(),
        from + n <= data@.len(),
    ensures
        final(words)@ == overwrite(old(words)@, at as int, data@.subrange(from as int, from + n)),
{
    let limit: usize = words.len();
    let source: usize = data.len();
    let mut i: usize = 0;
    while i < n
        invariant
            i <= n,
            limit == old(words)@.len(),
            source == data@.len(),
            at + n <= limit,
            from + n <= source,
            words@ == overwrite(old(words)@, at as int, data@.subrange(from as int, from + i)),
        decreases n - i,
    {
        words.set(at + i, data[from + i]);
        i = i + 1;
        assert(words@ =~= overwrite(
            old(words)@,
            at as int,
            data@.subrange(from as int, from + i),
        ));
    }
}

/// Lays `data` over the arena from word `at` on.
pub fn write_words(a: &mut Arena, at: usize, data: &Vec<u32>)
    requires
        old(a)@.wf(),
        at + data@.len() <= ARENA_WORDS,
    ensures
        final(a)@ == old(a)@.with_words(at as int, data@),
        final(a)@.wf(),
{
    lay(&mut a.words, at, data, 0, data.len());
    assert(data@.subrange(0, data@.len() as int) =~= data@);
}

/// Words `at .. at + n` of the arena, appended to `out`.
pub(crate) fn copy_out(a: &Arena, at: usize, n: usize, out: &mut Vec<u32>)
    requires
        a@.wf(),
        at + n <= ARENA_WORDS,
    ensures
        final(out)@ == old(out)@ + a@.words.subrange(at as int, at + n),
{
    let mut i: usize = 0;
    while i < n
        invariant
            i <= n,
            a@.wf(),
            at + n <= ARENA_WORDS,
            out@ == old(out)@ + a@.words.subrange(at as int, at + i),
        decreases n - i,
    {
        out.push(a.words[at + i]);
        i = i + 1;
        assert(out@ =~= old(out)@ + a@.words.subrange(at as int, at + i));
    }
}

/// The version of the shared layout and of the recorder's interface.
pub fn get_d3d9_arena_abi_version() -> (v: u32)
    ensures
        v == 4,
{
    D3D9_ARENA_ABI_VERSION
}

/// The shared block itself.
pub fn get_d3d9_arena_ptr(a: &Arena) -> (words: &Vec<u32>)
    ensures
        words@ == a@.words,
{
    &a.words
}

/// The buffer that holds the expanded constants of a compact run.
pub fn get_d3d9_compact_template_ptr(a: &Arena) -> (words: &Vec<u32>)
    ensures
        words@ == a@.compact_template,
{
    &a.compact_template
}

/// The byte offset of the descriptor that the last recorded run left in the bump area, or -1.
pub fn d3d9_get_last_wbuf_compact_offset(a: &Arena) -> (offset: i32)
    ensures
        offset == a@.last_wbuf_compact_offset,
{
    a.last_wbuf_compact_offset
}

/// Publishes the first `words` words of the template; 0 or too many unpublish it.
pub fn d3d9_set_compact_template_words(a: &mut Arena, words: u32) -> (r: u32)
    requires
        old(a)@.wf(),
    ensures
        r == (if words <= VS_CONST_FLOATS { words } else { 0 }),
        final(a)@ == (ArenaView { compact_template_words: r as nat, ..old(a)@ }),
        final(a)@.wf(),
{
    if words == 0 || words as u64 > VS_CONST_FLOATS as u64 {
        a.compact_template_words = 0;
        return 0;
    }
    a.compact_template_words = words as usize;
    words
}

/// Clears the pipeline identity words.
pub fn d3d9_clear_pipeline_identity(a: &mut Arena)
    requires
        old(a)@.wf(),
    ensures
        final(a)@ == old(a)@.with_words(AT_PIPELINE_IDENTITY as int, zeros()),
        final(a)@.wf(),
{
    let z: Vec<u32> = filled(PIPELINE_IDENTITY_WORDS);
    assert(z@ =~= zeros());
    write_words(a, AT_PIPELINE_IDENTITY, &z);
}

/// Starts a new frame.
pub fn d3d9_reset_frame(a: &mut Arena)
    requires
        old(a)@.wf(),
    ensures
        final(a)@ == after_reset(old(a)@),
        final(a)@.wf(),
{
    a.words.set(AT_COMMAND_COUNT, 0);
    a.words.set(AT_BUMP_CURSOR, 0);
    d3d9_clear_pipeline_identity(a);
    a.last_bound_stream = (0, 0, 0);
    a.last_bound_index = (0, 0);
    a.last_draw.valid = false;
    a.last_draw.bind_group_key = 0;
    a.last_draw.identity = filled(PIPELINE_IDENTITY_WORDS);
    a.last_wbuf_compact_offset = -1;
    a.compact_template_words = 0;
    assert(a.last_draw.identity@ =~= zeros());
}

/// Rolls the frame back to an earlier row count and bump cursor; a request to go forward
/// is ignored.
pub fn d3d9_truncate_frame(a: &mut Arena, command_count: u32, bump_cursor: u32)
    requires
        old(a)@.wf(),
    ensures
        final(a)@ == after_truncate(old(a)@, command_count, bump_cursor),
        final(a)@.wf(),
{
    if command_count > a.words[AT_COMMAND_COUNT] || bump_cursor > a.words[AT_BUMP_CURSOR]
        || command_count as u64 > CMD_CAP as u64 || bump_cursor as u64 > BUMP_CAP as u64 {
        return ;
    }
    a.words.set(AT_COMMAND_COUNT, command_count);
    a.words.set(AT_BUMP_CURSOR, bump_cursor);
    a.last_bound_stream = (0, 0, 0);
    a.last_bound_index = (0, 0);
    a.last_draw.valid = false;
    a.last_draw.bind_group_key = 0;
    a.last_draw.identity = filled(PIPELINE_IDENTITY_WORDS);
    assert(a.last_draw.identity@ =~= zeros());
}

fn flag(v: u32) -> (r: u32)
    ensures
        r == flag_bit(v),
{
    if v != 0 {
        1
    } else {
        0
    }
}

fn derive_blend_alpha_fields(a: &Arena) -> (r: (u32, u32, u32))
    requires
        a@.wf(),
    ensures
        r == a@.blend_alpha_fields(),
{
    reveal(ArenaView::blend_alpha_fields);
    let w = &a.words;
    let mask: u32 = (w[D3DRS_COLORWRITEENABLE] & 0xf) << 16;
    let (core, separate): (u32, u32) = if w[D3DRS_ALPHABLENDENABLE] != 0 {
        (
            (w[D3DRS_SRCBLEND] & 0x1f) | ((w[D3DRS_DESTBLEND] & 0x1f) << 5) | ((w[D3DRS_BLENDOP]
                & 0x7) << 10) | (1u32 << 15),
            flag(w[D3DRS_SEPARATEALPHABLENDENABLE]) | ((w[D3DRS_SRCBLENDALPHA] & 0x1f) << 1) | ((
            w[D3DRS_DESTBLENDALPHA] & 0x1f) << 6) | ((w[D3DRS_BLENDOPALPHA] & 0x7) << 11),
        )
    } else {
        (0, 0)
    };
    let alpha: u32 = if w[D3DRS_ALPHATESTENABLE] != 0 {
        1u32 | ((w[D3DRS_ALPHAFUNC] & 0xf) << 1) | ((w[D3DRS_ALPHAREF] & 0xff) << 5)
    } else {
        0
    };
    (core | mask, separate, alpha)
}

fn derive_state_bits(a: &Arena) -> (r: u32)
    requires
        a@.wf(),
    ensures
        r == a@.state_bits(),
{
    (a.words[D3DRS_CULLMODE] & 0xff) | (flag(a.words[D3DRS_ZENABLE]) << 8) | (flag(
        a.words[D3DRS_ZWRITEENABLE],
    ) << 9)
}

fn cube_mask(a: &Arena) -> (mask: u32)
    requires
        a@.wf(),
    ensures
        mask == a@.cube_mask(),
{
    let mut mask: u32 = 0;
    let mut stage: usize = 0;
    while stage < TEXTURE_ID_SLOTS
        invariant
            stage <= TEXTURE_ID_SLOTS,
            a@.wf(),
            mask == a@.cube_mask_upto(stage as int),
        decreases TEXTURE_ID_SLOTS - stage,
    {
        let id: u32 = a.words[AT_TEXTURE_BOUND_IDS + stage];
        if id != 0 && id < TEXTURE_CUBE_FLAG_SLOTS as u32 {
            let word: u32 = a.words[AT_TEXTURE_CUBE_FLAGS + (id / 4) as usize];
            if (word >> (8 * (id % 4))) & 0xff != 0 {
                mask = mask | (1u32 << (stage as u32));
            } else {
                assert(mask | 0u32 == mask) by (bit_vector);
            }
        } else {
            assert(mask | 0u32 == mask) by (bit_vector);
        }
        stage = stage + 1;
    }
    mask
}

/// The FNV-1a digest of `words`.
fn fnv_digest(words: &Vec<u32>) -> (h: u32)
    ensures
        h == fnv(words@),
{
    let mut h: u32 = 0x811c9dc5;
    let mut i: usize = 0;
    assert(words@.take(0).len() == 0);
    while i < words.len()
        invariant
            i <= words@.len(),
            h == fnv(words@.take(i as int)),
        decreases words@.len() - i,
    {
        h = (h ^ words[i]).wrapping_mul(0x01000193);
        i = i + 1;
        assert(words@.take(i as int).drop_last() =~= words@.take(i - 1));
    }
    assert(words@.take(i as int) =~= words@);
    h
}

fn derive_pipeline_key(a: &Arena, stride: u32, topology: u32, force_cull_none: u32) -> (key: u32)
    requires
        a@.wf(),
    ensures
        key == a@.pipeline_key(stride, topology, force_cull_none),
{
    reveal(ArenaView::pipeline_key);
    let (blend, separate, alpha) = derive_blend_alpha_fields(a);
    let mut fields: Vec<u32> = Vec::new();
    copy_out(a, AT_PIPELINE_IDENTITY, PIPELINE_IDENTITY_WORDS, &mut fields);
    fields.push(a.words[AT_VS_HANDLE]);
    fields.push(a.words[AT_PS_HANDLE]);
    fields.push(a.words[AT_DECL_HANDLE]);
    fields.push(stride);
    fields.push(topology);
    fields.push(force_cull_none);
    fields.push(derive_state_bits(a));
    fields.push(blend);
    fields.push(separate);
    fields.push(alpha);
    fields.push(cube_mask(a));
    assert(fields@ =~= a@.identity() + seq![
        a.words@[AT_VS_HANDLE as int],
        a.words@[AT_PS_HANDLE as int],
        a.words@[AT_DECL_HANDLE as int],
        stride,
        topology,
        force_cull_none,
        a@.state_bits(),
        blend,
        separate,
        alpha,
        a@.cube_mask(),
    ]);
    fnv_digest(&fields)
}

fn derive_bind_group_key(a: &Arena) -> (key: u32)
    requires
        a@.wf(),
    ensures
        key == a@.bind_group_key(),
{
    reveal(ArenaView::bind_group_key);
    let mut fields: Vec<u32> = Vec::new();
    copy_out(a, AT_SAMPLER_STAGE0, SAMPLER_STAGE0_COUNT, &mut fields);
    fields.push(cube_mask(a));
    copy_out(a, AT_TEXTURE_BOUND_IDS, TEXTURE_ID_SLOTS, &mut fields);
    assert(fields@ =~= a@.samplers() + seq![a@.cube_mask()] + a@.texture_ids());
    fnv_digest(&fields)
}

/// Takes `len` bytes of the bump area, rounded up to whole words: their byte offset, or
/// `None` and one more overflow where they do not fit.
pub(crate) fn bump_alloc(a: &mut Arena, len: u64) -> (r: Option<u32>)
    requires
        old(a)@.wf(),
        len <= 0x1_0000_0000,
    ensures
        final(a)@ == after_bump(old(a)@, len as int),
        final(a)@.wf(),
        r == (if bump_fits(old(a)@, len as int) { Some(old(a)@.bump_cursor()) } else { None }),
{
    let cursor: u32 = a.words[AT_BUMP_CURSOR];
    let end: u64 = cursor as u64 + (len + 3) / 4 * 4;
    if end > BUMP_CAP as u64 {
        let overflow: u32 = a.words[AT_OVERFLOW_COUNT];
        a.words.set(AT_OVERFLOW_COUNT, overflow.wrapping_add(1));
        return None;
    }
    a.words.set(AT_BUMP_CURSOR, end as u32);
    if end as u32 > a.words[AT_ARENA_HIGH_WATER] {
        a.words.set(AT_ARENA_HIGH_WATER, end as u32);
    }
    Some(cursor)
}

/// Appends one command row; false and one more overflow where all rows are taken.
pub(crate) fn push_command(
    a: &mut Arena,
    kind: u32,
    x: u32,
    y: u32,
    z: u32,
    pk: u32,
    bk: u32,
) -> (ok: bool)
    requires
        old(a)@.wf(),
    ensures
        final(a)@ == after_row(old(a)@, row(kind, x, y, z, pk, bk)),
        final(a)@.wf(),
        ok == row_fits(old(a)@),
{
    reveal(after_row);
    let count: u32 = a.words[AT_COMMAND_COUNT];
    if count as u64 >= CMD_CAP as u64 {
        let overflow: u32 = a.words[AT_OVERFLOW_COUNT];
        a.words.set(AT_OVERFLOW_COUNT, overflow.wrapping_add(1));
        return false;
    }
    let n: usize = count as usize;
    let emitted: u32 = a.words[AT_COMMANDS_EMITTED];
    a.words.set(AT_CMD_TYPES + n, kind);
    a.words.set(AT_CMD_A + n, x);
    a.words.set(AT_CMD_B + n, y);
    a.words.set(AT_CMD_C + n, z);
    a.words.set(AT_PIPELINE_KEY + n, pk);
    a.words.set(AT_BIND_GROUP_KEY + n, bk);
    a.words.set(AT_COMMAND_COUNT, count + 1);
    a.words.set(AT_COMMANDS_EMITTED, emitted.wrapping_add(1));
    true
}

pub(crate) fn half_at(a: &Arena, at: usize, index: usize) -> (v: u32)
    requires
        a@.wf(),
        index < 1024,
        at + 512 <= ARENA_WORDS,
    ensures
        v == half_word(a@.words, at as int, index as int),
        v <= 0xffff,
{
    let word: u32 = a.words[at + index / 2];
    let shift: u32 = 16 * ((index % 2) as u32);
    assert((word >> shift) & 0xffff <= 0xffff) by (bit_vector);
    (word >> shift) & 0xffff
}

fn identity_unchanged(a: &Arena) -> (same: bool)
    requires
        a@.wf(),
    ensures
        same == (a@.identity() == a@.last_draw.identity),
{
    let mut i: usize = 0;
    while i < PIPELINE_IDENTITY_WORDS
        invariant
            i <= PIPELINE_IDENTITY_WORDS,
            a@.wf(),
            forall|j: int| 0 <= j < i ==> a@.identity()[j] == a@.last_draw.identity[j],
        decreases PIPELINE_IDENTITY_WORDS - i,
    {
        if a.words[AT_PIPELINE_IDENTITY + i] != a.last_draw.identity[i] {
            assert(a@.identity()[i as int] != a@.last_draw.identity[i as int]);
            return false;
        }
        assert(a@.identity()[i as int] == a@.last_draw.identity[i as int]);
        i = i + 1;
    }
    assert(a@.identity() =~= a@.last_draw.identity);
    true
}

/// Captures what the executor needs for this draw, unless the last capture serves.
pub fn capture_draw_state(a: &mut Arena, topology: u32, force_cull_none: u32, key: u32) -> (r: Option<
    u32,
>)
    requires
        old(a)@.wf(),
        old(a)@.bump_cursor() % 4 == 0,
    ensures
        (final(a)@, r) == after_capture(old(a)@, topology, force_cull_none, key),
        final(a)@.wf(),
{
    reveal(after_capture);
    reveal(draw_state_words);
    let vs_version: u32 = a.words[AT_VS_CONST_VERSION];
    let ps_version: u32 = a.words[AT_PS_CONST_VERSION];
    let cmask: u32 = cube_mask(a);
    let group: u32 = derive_bind_group_key(a);
    if a.last_draw.valid && a.last_draw.pipeline_key == key && a.last_draw.vs_version == vs_version
        && a.last_draw.ps_version == ps_version && a.last_draw.bind_group_key == group
        && identity_unchanged(a) {
        return Some(a.last_draw.offset);
    }
    let vs_handle: u32 = a.words[AT_VS_HANDLE];
    let ps_handle: u32 = a.words[AT_PS_HANDLE];
    let vs_len: u32 = half_at(a, AT_SHADER_CONST_LEN_VS, (vs_handle % 1024) as usize);
    let ps_len: u32 = half_at(a, AT_SHADER_CONST_LEN_PS, (ps_handle % 1024) as usize);
    let vs_n: usize = if vs_len as usize <= VS_CONST_FLOATS {
        vs_len as usize
    } else {
        VS_CONST_FLOATS
    };
    let ps_n: usize = if ps_len as usize <= PS_CONST_FLOATS {
        ps_len as usize
    } else {
        PS_CONST_FLOATS
    };
    let (blend, separate, alpha) = derive_blend_alpha_fields(a);
    let mut slot: Vec<u32> = Vec::new();
    slot.push(vs_len | (ps_len << 16));
    slot.push(cmask);
    slot.push(group);
    copy_out(a, AT_TEXTURE_BOUND_IDS, TEXTURE_ID_SLOTS, &mut slot);
    slot.push(derive_state_bits(a) | (topology << 16) | (force_cull_none << 24));
    slot.push(blend);
    slot.push(separate);
    slot.push(alpha);
    slot.push(a.words[AT_DECL_HANDLE]);
    copy_out(a, AT_PIPELINE_IDENTITY, PIPELINE_IDENTITY_WORDS, &mut slot);
    copy_out(a, AT_VS_CONSTANTS, vs_n, &mut slot);
    copy_out(a, AT_PS_CONSTANTS, ps_n, &mut slot);
    assert(slot@ =~= draw_state_words(a@, topology, force_cull_none));
    let mut identity: Vec<u32> = Vec::new();
    copy_out(a, AT_PIPELINE_IDENTITY, PIPELINE_IDENTITY_WORDS, &mut identity);
    assert(identity@ =~= a@.identity());
    let bytes: u64 = 4 * (DRAW_STATE_HEADER_WORDS + vs_n + ps_n) as u64;
    match bump_alloc(a, bytes) {
        None => None,
        Some(offset) => {
            write_words(a, AT_BUMP_ARENA + (offset / 4) as usize, &slot);
            a.last_draw = DrawMemo {
                valid: true,
                pipeline_key: key,
                vs_version,
                ps_version,
                bind_group_key: group,
                offset,
                identity,
            };
            Some(offset)
        },
    }
}

/// Emits the binding rows that changed, captures the draw state and emits the pipeline and
/// bind-group rows.
pub(crate) fn emit_draw_prelude(a: &mut Arena, topology: u32, stride: u32, force_cull_none: u32) -> (r: Option<
    u32,
>)
    requires
        old(a)@.wf(),
        old(a)@.bump_cursor() % 4 == 0,
    ensures
        (final(a)@, r) == after_prelude(old(a)@, topology, stride, force_cull_none),
        final(a)@.wf(),
{
    if a.words[AT_VS_HANDLE] == 0 || a.words[AT_PS_HANDLE] == 0 {
        let ffp: u32 = a.words[AT_FFP_FALLBACK_COUNT];
        a.words.set(AT_FFP_FALLBACK_COUNT, ffp.wrapping_add(1));
        return None;
    }
    let stream: (u32, u32, u32) = (
        a.words[AT_STREAM_SOURCE],
        a.words[AT_STREAM_SOURCE + 1],
        a.words[AT_STREAM_SOURCE + 2],
    );
    if a.last_bound_stream.0 != stream.0 || a.last_bound_stream.1 != stream.1
        || a.last_bound_stream.2 != stream.2 {
        if !push_command(a, CMD_SET_VERTEX_BUFFER, stream.0, stream.1, stream.2, 0, 0) {
            reveal(after_row);
            return None;
        }
        a.last_bound_stream = stream;
    }
    assert(a@ == after_stream(old(a)@).0);
    proof {
        if old(a)@.last_bound_stream != stream {
            lemma_row(
                old(a)@,
                row(CMD_SET_VERTEX_BUFFER, stream.0, stream.1, stream.2, 0, 0),
            );
        }
    }
    let ghost bound = a@;
    let index: (u32, u32) = (a.words[AT_INDEX_BUFFER], a.words[AT_INDEX_BUFFER + 1]);
    if a.last_bound_index.0 != index.0 || a.last_bound_index.1 != index.1 {
        if !push_command(a, CMD_SET_INDEX_BUFFER, index.0, index.1, 0, 0, 0) {
            reveal(after_row);
            return None;
        }
        a.last_bound_index = index;
    }
    assert(a@ == after_index(after_stream(old(a)@).0).0);
    proof {
        if bound.last_bound_index != index {
            lemma_row(bound, row(CMD_SET_INDEX_BUFFER, index.0, index.1, 0, 0, 0));
        }
    }
    let key: u32 = derive_pipeline_key(a, stride, topology, force_cull_none);
    let group: u32 = derive_bind_group_key(a);
    match capture_draw_state(a, topology, force_cull_none, key) {
        None => None,
        Some(at) => {
            if !push_command(a, CMD_SET_PIPELINE, key, at, 0, key, group) {
                return None;
            }
            if !push_command(a, CMD_BIND_PROGRAMMABLE, at, 0, 0, key, group) {
                return None;
            }
            Some(key)
        },
    }
}

/// Records a non-indexed draw: the pipeline key, or -1 where the draw is declined.
pub fn d3d9_record_draw(
    a: &mut Arena,
    topology: u32,
    vertex_count: u32,
    start_vertex: u32,
    stride: u32,
    force_cull_none: u32,
) -> (r: i64)
    requires
        old(a)@.wf(),
        old(a)@.bump_cursor() % 4 == 0,
    ensures
        (final(a)@, r) == after_draw(
            old(a)@,
            topology,
            stride,
            force_cull_none,
            row(CMD_DRAW, vertex_count, start_vertex, 0, 0, 0),
            false,
        ),
        final(a)@.wf(),
{
    reveal(after_draw);
    match emit_draw_prelude(a, topology, stride, force_cull_none) {
        None => -1,
        Some(key) => {
            if push_command(a, CMD_DRAW, vertex_count, start_vertex, 0, key, 0) {
                key as i64
            } else {
                -1
            }
        },
    }
}

/// Records an indexed draw: the pipeline key, or -1 where the draw is declined.
pub fn d3d9_record_draw_indexed(
    a: &mut Arena,
    topology: u32,
    index_count: u32,
    start_index: u32,
    base_vertex: u32,
    stride: u32,
    force_cull_none: u32,
) -> (r: i64)
    requires
        old(a)@.wf(),
        old(a)@.bump_cursor() % 4 == 0,
    ensures
        (final(a)@, r) == after_draw(
            old(a)@,
            topology,
            stride,
            force_cull_none,
            row(CMD_DRAW_INDEXED, index_count, start_index, base_vertex, 0, 0),
            false,
        ),
        final(a)@.wf(),
{
    reveal(after_draw);
    match emit_draw_prelude(a, topology, stride, force_cull_none) {
        None => -1,
        Some(key) => {
            if push_command(a, CMD_DRAW_INDEXED, index_count, start_index, base_vertex, key, 0) {
                key as i64
            } else {
                -1
            }
        },
    }
}

} // verus!
