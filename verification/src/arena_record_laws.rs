//! What the rows and captures of a draw say: every field of a captured draw state reads back as
//! the device state that it was made from, every state that a pipeline depends on tells pipelines
//! apart, and every accepted draw stands in the rows with its bindings before it.
use vstd::prelude::*;
use crate::arena;
use crate::arena::ArenaView;
use crate::arena_capture_laws;
use crate::arena_laws;

verus! {

/// A field of a word: `size` values from the value of its lowest bit on.
pub open spec fn field(w: u32, lowest: int, size: int) -> int {
    (w as int / lowest) % size
}

/// 1 where a state is switched on.
pub open spec fn switched(v: u32) -> int {
    if v == 0 {
        0
    } else {
        1
    }
}

/// The packed words of a capture, taken apart.
proof fn bits_of_packing(
    a: u32,
    b: u32,
    c: u32,
    m: u32,
    f: u32,
    g: u32,
    t: u32,
    h: u32,
)
    by (bit_vector)
    requires
        f <= 1,
        g <= 1,
        t < 0x100,
        h < 0x100,
    ensures
        ({
            let w = (a & 0x1f) | ((b & 0x1f) << 5) | ((c & 0x7) << 10) | (1u32 << 15) | ((m & 0xf)
                << 16);
            &&& w % 0x20 == a % 0x20
            &&& w / 0x20 % 0x20 == b % 0x20
            &&& w / 0x400 % 8 == c % 8
            &&& w / 0x2000 % 4 == 0
            &&& w / 0x8000 % 2 == 1
            &&& w / 0x1_0000 == m % 0x10
        }),
        ({
            let w = 0u32 | ((m & 0xf) << 16);
            &&& w % 0x1_0000 == 0
            &&& w / 0x1_0000 == m % 0x10
        }),
        ({
            let w = f | ((a & 0x1f) << 1) | ((b & 0x1f) << 6) | ((c & 0x7) << 11);
            &&& w % 2 == f
            &&& w / 2 % 0x20 == a % 0x20
            &&& w / 0x40 % 0x20 == b % 0x20
            &&& w / 0x800 == c % 8
        }),
        ({
            let w = 1u32 | ((a & 0xf) << 1) | ((b & 0xff) << 5);
            &&& w % 2 == 1
            &&& w / 2 % 0x10 == a % 0x10
            &&& w / 0x20 == b % 0x100
        }),
        ({
            let w = (a & 0xff) | (f << 8) | (g << 9);
            &&& w % 0x100 == a % 0x100
            &&& w / 0x100 % 2 == f
            &&& w / 0x200 == g
            &&& (w | (t << 16) | (h << 24)) % 0x100 == a % 0x100
            &&& (w | (t << 16) | (h << 24)) / 0x100 % 2 == f
            &&& (w | (t << 16) | (h << 24)) / 0x200 % 0x80 == g
            &&& (w | (t << 16) | (h << 24)) / 0x1_0000 % 0x100 == t
            &&& (w | (t << 16) | (h << 24)) / 0x100_0000 == h
        }),
{
}

/// The parts of a word, and the word of two halves.
proof fn bits_of_lanes(w: u32, x: u32, y: u32)
    by (bit_vector)
    requires
        x <= 0xffff,
        y <= 0xffff,
    ensures
        (w >> 0u32) & 0xff == w % 0x100,
        (w >> 8u32) & 0xff == w / 0x100 % 0x100,
        (w >> 16u32) & 0xff == w / 0x1_0000 % 0x100,
        (w >> 24u32) & 0xff == w / 0x100_0000,
        (w >> 0u32) & 0xffff == w % 0x1_0000,
        (w >> 16u32) & 0xffff == w / 0x1_0000,
        (x | (y << 16)) % 0x1_0000 == x,
        (x | (y << 16)) / 0x1_0000 == y,
{
}

/// The bits of a mask of eight.
proof fn bits_of_mask(p: u32, q: u32, r: u32, s: u32, t: u32, u: u32, v: u32, w: u32)
    by (bit_vector)
    requires
        p == 0 || p == 1u32 << 0u32,
        q == 0 || q == 1u32 << 1u32,
        r == 0 || r == 1u32 << 2u32,
        s == 0 || s == 1u32 << 3u32,
        t == 0 || t == 1u32 << 4u32,
        u == 0 || u == 1u32 << 5u32,
        v == 0 || v == 1u32 << 6u32,
        w == 0 || w == 1u32 << 7u32,
    ensures
        ({
            let m = 0u32 | p | q | r | s | t | u | v | w;
            &&& m < 0x100
            &&& (m % 2 == 1) == (p != 0)
            &&& (m / 2 % 2 == 1) == (q != 0)
            &&& (m / 4 % 2 == 1) == (r != 0)
            &&& (m / 8 % 2 == 1) == (s != 0)
            &&& (m / 16 % 2 == 1) == (t != 0)
            &&& (m / 32 % 2 == 1) == (u != 0)
            &&& (m / 64 % 2 == 1) == (v != 0)
            &&& (m / 128 % 2 == 1) == (w != 0)
        }),
        1u32 << 0u32 != 0,
        1u32 << 1u32 != 0,
        1u32 << 2u32 != 0,
        1u32 << 3u32 != 0,
        1u32 << 4u32 != 0,
        1u32 << 5u32 != 0,
        1u32 << 6u32 != 0,
        1u32 << 7u32 != 0,
{
}

/// A byte of the words from `at` on, low bytes first.
pub open spec fn byte_of(words: Seq<u32>, at: int, i: int) -> int {
    let w = words[at + i / 4];
    if i % 4 == 0 {
        field(w, 1, 0x100)
    } else if i % 4 == 1 {
        field(w, 0x100, 0x100)
    } else if i % 4 == 2 {
        field(w, 0x1_0000, 0x100)
    } else {
        field(w, 0x100_0000, 0x100)
    }
}

/// A half-word of the words from `at` on.
pub open spec fn half_of(words: Seq<u32>, at: int, i: int) -> int {
    if i % 2 == 0 {
        field(words[at + i / 2], 1, 0x1_0000)
    } else {
        field(words[at + i / 2], 0x1_0000, 0x1_0000)
    }
}

/// The texture that is bound to a stage is known as a cube texture.
pub open spec fn holds_cube(words: Seq<u32>, stage: int) -> bool {
    let id = words[281 + stage];
    0 < id < 4096 && byte_of(words, 289, id as int) != 0
}

pub open spec fn at_most(n: int, limit: int) -> int {
    if n <= limit {
        n
    } else {
        limit
    }
}

proof fn lemma_lengths(s: ArenaView)
    requires
        s.wf(),
    ensures
        s.vs_const_len(s.words[277]) == half_of(s.words, 1313, s.words[277] as int % 1024),
        s.ps_const_len(s.words[278]) == half_of(s.words, 1825, s.words[278] as int % 1024),
        s.vs_const_len(s.words[277]) <= 0xffff,
        s.ps_const_len(s.words[278]) <= 0xffff,
{
    let i = s.words[277] as int % 1024;
    let j = s.words[278] as int % 1024;
    bits_of_lanes(s.words[1313 + i / 2], 0, 0);
    bits_of_lanes(s.words[1825 + j / 2], 0, 0);
}

proof fn lemma_cube(s: ArenaView, stage: int)
    requires
        s.wf(),
        0 <= stage < 8,
    ensures
        s.stage_is_cube(stage) == holds_cube(s.words, stage),
{
    let id = s.words[281 + stage];
    if 0 < id < 4096 {
        bits_of_lanes(s.words[289 + id as int / 4], 0, 0);
    }
}

/// The bits of the cube mask are the stages that hold cube textures.
#[verifier::spinoff_prover]
#[verifier::rlimit(60)]
proof fn lemma_cube_mask(s: ArenaView)
    requires
        s.wf(),
    ensures
        s.cube_mask() < 0x100,
        (field(s.cube_mask(), 1, 2) == 1) == holds_cube(s.words, 0),
        (field(s.cube_mask(), 2, 2) == 1) == holds_cube(s.words, 1),
        (field(s.cube_mask(), 4, 2) == 1) == holds_cube(s.words, 2),
        (field(s.cube_mask(), 8, 2) == 1) == holds_cube(s.words, 3),
        (field(s.cube_mask(), 16, 2) == 1) == holds_cube(s.words, 4),
        (field(s.cube_mask(), 32, 2) == 1) == holds_cube(s.words, 5),
        (field(s.cube_mask(), 64, 2) == 1) == holds_cube(s.words, 6),
        (field(s.cube_mask(), 128, 2) == 1) == holds_cube(s.words, 7),
{
    reveal_with_fuel(ArenaView::cube_mask_upto, 9);
    assert forall|i: int| 0 <= i < 8 implies #[trigger] s.stage_is_cube(i) == holds_cube(
        s.words,
        i,
    ) by {
        lemma_cube(s, i);
    }
    let p = if s.stage_is_cube(0) {
        1u32 << 0u32
    } else {
        0
    };
    let q = if s.stage_is_cube(1) {
        1u32 << 1u32
    } else {
        0
    };
    let r = if s.stage_is_cube(2) {
        1u32 << 2u32
    } else {
        0
    };
    let t = if s.stage_is_cube(3) {
        1u32 << 3u32
    } else {
        0
    };
    let u = if s.stage_is_cube(4) {
        1u32 << 4u32
    } else {
        0
    };
    let v = if s.stage_is_cube(5) {
        1u32 << 5u32
    } else {
        0
    };
    let w = if s.stage_is_cube(6) {
        1u32 << 6u32
    } else {
        0
    };
    let x = if s.stage_is_cube(7) {
        1u32 << 7u32
    } else {
        0
    };
    bits_of_mask(p, q, r, t, u, v, w, x);
    assert(s.cube_mask_upto(8) == 0u32 | p | q | r | t | u | v | w | x);
}

/// The blend word tells the color write mask and, where blending is on, the factors and the
/// operation of blending.
pub open spec fn is_blend_word(words: Seq<u32>, blend: u32) -> bool {
    &&& field(blend, 0x1_0000, 0x1_0000) == words[168] % 0x10
    &&& field(blend, 0x8000, 2) == switched(words[27])
    &&& field(blend, 0x2000, 4) == 0
    &&& words[27] != 0 ==> {
        &&& field(blend, 1, 0x20) == words[19] % 0x20
        &&& field(blend, 0x20, 0x20) == words[20] % 0x20
        &&& field(blend, 0x400, 8) == words[171] % 8
    }
    &&& words[27] == 0 ==> field(blend, 1, 0x2000) == 0
}

/// The next word tells, where blending is on, whether alpha is blended on its own, and how.
pub open spec fn is_separate_word(words: Seq<u32>, separate: u32) -> bool {
    if words[27] == 0 {
        separate == 0
    } else {
        &&& field(separate, 1, 2) == switched(words[206])
        &&& field(separate, 2, 0x20) == words[207] % 0x20
        &&& field(separate, 0x40, 0x20) == words[208] % 0x20
        &&& field(separate, 0x800, 0x20_0000) == words[209] % 8
    }
}

/// The alpha word tells whether alpha is tested, and then against what.
pub open spec fn is_alpha_word(words: Seq<u32>, alpha: u32) -> bool {
    if words[15] == 0 {
        alpha == 0
    } else {
        &&& field(alpha, 1, 2) == 1
        &&& field(alpha, 2, 0x10) == words[25] % 0x10
        &&& field(alpha, 0x20, 0x800_0000) == words[24] % 0x100
    }
}

/// The cull mode, and whether depth is tested and written.
pub open spec fn is_state_word(words: Seq<u32>, state: u32) -> bool {
    &&& field(state, 1, 0x100) == words[22] % 0x100
    &&& field(state, 0x100, 2) == switched(words[7])
    &&& field(state, 0x200, 0x80) == switched(words[14])
}

#[verifier::spinoff_prover]
proof fn lemma_blend_word(s: ArenaView)
    requires
        s.wf(),
    ensures
        is_blend_word(s.words, s.blend_alpha_fields().0),
{
    reveal(ArenaView::blend_alpha_fields);
    let w = s.words;
    bits_of_packing(w[19], w[20], w[171], w[168], 0, 0, 0, 0);
}

#[verifier::spinoff_prover]
proof fn lemma_separate_word(s: ArenaView)
    requires
        s.wf(),
    ensures
        is_separate_word(s.words, s.blend_alpha_fields().1),
{
    reveal(ArenaView::blend_alpha_fields);
    let w = s.words;
    bits_of_packing(w[207], w[208], w[209], 0, arena::flag_bit(w[206]), 0, 0, 0);
}

#[verifier::spinoff_prover]
proof fn lemma_alpha_word(s: ArenaView)
    requires
        s.wf(),
    ensures
        is_alpha_word(s.words, s.blend_alpha_fields().2),
{
    reveal(ArenaView::blend_alpha_fields);
    let w = s.words;
    bits_of_packing(w[25], w[24], 0, 0, 0, 0, 0, 0);
}

#[verifier::spinoff_prover]
proof fn lemma_state_word(s: ArenaView)
    requires
        s.wf(),
    ensures
        is_state_word(s.words, s.state_bits()),
{
    let w = s.words;
    bits_of_packing(w[22], 0, 0, 0, arena::flag_bit(w[7]), arena::flag_bit(w[14]), 0, 0);
}

proof fn lemma_fields(s: ArenaView)
    requires
        s.wf(),
    ensures
        is_blend_word(s.words, s.blend_alpha_fields().0),
        is_separate_word(s.words, s.blend_alpha_fields().1),
        is_alpha_word(s.words, s.blend_alpha_fields().2),
        is_state_word(s.words, s.state_bits()),
{
    lemma_blend_word(s);
    lemma_separate_word(s);
    lemma_alpha_word(s);
    lemma_state_word(s);
}

/// The words of a captured draw state, from the first on, say what the device state was.
pub open spec fn tells(words: Seq<u32>, topology: u32, cull: u32, slot: Seq<u32>) -> bool {
    let vs = at_most(half_of(words, 1313, words[277] as int % 1024), 1024);
    let ps = at_most(half_of(words, 1825, words[278] as int % 1024), 896);
    &&& slot.len() == 32 + vs + ps
    // How many constants the shaders read.
    &&& field(slot[0], 1, 0x1_0000) == half_of(words, 1313, words[277] as int % 1024)
    &&& field(slot[0], 0x1_0000, 0x1_0000) == half_of(words, 1825, words[278] as int % 1024)
    // Which stages hold cube textures.
    &&& slot[1] < 0x100
    &&& (field(slot[1], 1, 2) == 1) == holds_cube(words, 0)
    &&& (field(slot[1], 2, 2) == 1) == holds_cube(words, 1)
    &&& (field(slot[1], 4, 2) == 1) == holds_cube(words, 2)
    &&& (field(slot[1], 8, 2) == 1) == holds_cube(words, 3)
    &&& (field(slot[1], 16, 2) == 1) == holds_cube(words, 4)
    &&& (field(slot[1], 32, 2) == 1) == holds_cube(words, 5)
    &&& (field(slot[1], 64, 2) == 1) == holds_cube(words, 6)
    &&& (field(slot[1], 128, 2) == 1) == holds_cube(words, 7)
    // The textures.
    &&& forall|i: int| 0 <= i < 8 ==> slot[3 + i] == #[trigger] words[281 + i]
    // Depth, culling, blending and the alpha test.
    &&& field(slot[11], 1, 0x100) == words[22] % 0x100
    &&& field(slot[11], 0x100, 2) == switched(words[7])
    &&& field(slot[11], 0x200, 0x80) == switched(words[14])
    &&& field(slot[11], 0x1_0000, 0x100) == topology
    &&& field(slot[11], 0x100_0000, 0x100) == cull
    &&& is_blend_word(words, slot[12])
    &&& is_separate_word(words, slot[13])
    &&& is_alpha_word(words, slot[14])
    // The vertex declaration and the identity of the pipeline.
    &&& slot[15] == words[279]
    &&& forall|i: int| 0 <= i < 16 ==> slot[16 + i] == #[trigger] words[4259 + i]
    // The constants.
    &&& forall|i: int| 0 <= i < vs ==> slot[32 + i] == #[trigger] words[2337 + i]
    &&& forall|i: int| 0 <= i < ps ==> slot[32 + vs + i] == #[trigger] words[3361 + i]
}

/// Where the parts of a captured draw state stand.
#[verifier::spinoff_prover]
proof fn lemma_places(s: ArenaView, topology: u32, cull: u32)
    requires
        s.wf(),
    ensures
        ({
            let w = s.words;
            let slot = arena::draw_state_words(s, topology, cull);
            let vs = s.vs_const_len(w[277]);
            let ps = s.ps_const_len(w[278]);
            let m = at_most(vs as int, 1024);
            let n = at_most(ps as int, 896);
            &&& slot.len() == 32 + m + n
            &&& slot[0] == vs | (ps << 16)
            &&& slot[1] == s.cube_mask()
            &&& slot[2] == s.bind_group_key()
            &&& slot[11] == s.state_bits() | (topology << 16) | (cull << 24)
            &&& slot[12] == s.blend_alpha_fields().0
            &&& slot[13] == s.blend_alpha_fields().1
            &&& slot[14] == s.blend_alpha_fields().2
            &&& slot[15] == w[279]
            &&& forall|i: int| 0 <= i < 8 ==> slot[3 + i] == #[trigger] w[281 + i]
            &&& forall|i: int| 0 <= i < 16 ==> slot[16 + i] == #[trigger] w[4259 + i]
            &&& forall|i: int| 0 <= i < m ==> slot[32 + i] == #[trigger] w[2337 + i]
            &&& forall|i: int| 0 <= i < n ==> slot[32 + m + i] == #[trigger] w[3361 + i]
        }),
{
    reveal(arena::draw_state_words);
    let w = s.words;
    let slot = arena::draw_state_words(s, topology, cull);
    let m = at_most(s.vs_const_len(w[277]) as int, 1024);
    let n = at_most(s.ps_const_len(w[278]) as int, 896);
    let vs = w.subrange(2337, 2337 + m);
    let ps = w.subrange(3361, 3361 + n);
    assert forall|i: int| 0 <= i < 8 implies slot[3 + i] == #[trigger] w[281 + i] by {
        assert(s.texture_ids()[i] == w[281 + i]);
    }
    assert forall|i: int| 0 <= i < 16 implies slot[16 + i] == #[trigger] w[4259 + i] by {
        assert(s.identity()[i] == w[4259 + i]);
    }
    assert forall|i: int| 0 <= i < m implies slot[32 + i] == #[trigger] w[2337 + i] by {
        assert(vs[i] == w[2337 + i]);
    }
    assert forall|i: int| 0 <= i < n implies slot[32 + m + i] == #[trigger] w[3361 + i] by {
        assert(ps[i] == w[3361 + i]);
    }
}

#[verifier::spinoff_prover]
proof fn lemma_states_tell(s: ArenaView, topology: u32, cull: u32, x: u32, y: u32)
    requires
        s.wf(),
        topology < 0x100,
        cull < 0x100,
        x <= 0xffff,
        y <= 0xffff,
    ensures
        ({
            let w = s.words;
            let bits = s.state_bits() | (topology << 16) | (cull << 24);
            &&& field(bits, 1, 0x100) == w[22] % 0x100
            &&& field(bits, 0x100, 2) == switched(w[7])
            &&& field(bits, 0x200, 0x80) == switched(w[14])
            &&& field(bits, 0x1_0000, 0x100) == topology
            &&& field(bits, 0x100_0000, 0x100) == cull
            &&& field(x | (y << 16), 1, 0x1_0000) == x
            &&& field(x | (y << 16), 0x1_0000, 0x1_0000) == y
        }),
{
    let w = s.words;
    bits_of_lanes(0, x, y);
    bits_of_packing(
        w[22],
        0,
        0,
        0,
        arena::flag_bit(w[7]),
        arena::flag_bit(w[14]),
        topology,
        cull,
    );
}

#[verifier::spinoff_prover]
proof fn lemma_state_words(s: ArenaView, topology: u32, cull: u32)
    requires
        s.wf(),
        topology < 0x100,
        cull < 0x100,
    ensures
        tells(s.words, topology, cull, arena::draw_state_words(s, topology, cull)),
        arena::draw_state_words(s, topology, cull)[2] == s.bind_group_key(),
{
    lemma_lengths(s);
    lemma_cube_mask(s);
    lemma_fields(s);
    lemma_places(s, topology, cull);
    lemma_states_tell(
        s,
        topology,
        cull,
        s.vs_const_len(s.words[277]),
        s.ps_const_len(s.words[278]),
    );
}

/// A draw that shares no earlier capture gets one at the bump cursor, and every field of it
/// reads back as the device state that the draw was made in: textures, constants, factors and
/// operations of blending, tests, masks, topology and identity.
pub proof fn law_captured_states_read_back(s: ArenaView, topology: u32, cull: u32, key: u32)
    requires
        s.wf(),
        s.bump_cursor() % 4 == 0,
        !arena::memo_hit(s, key),
        arena::bump_fits(s, arena::draw_state_bytes(s)),
        topology < 0x100,
        cull < 0x100,
    ensures
        ({
            let (t, at) = arena::after_capture(s, topology, cull, key);
            let from = 102581 + s.words[4296885] / 4;
            let size = t.words[4296885] as int / 4 - s.words[4296885] as int / 4;
            &&& at == Some(s.words[4296885])
            &&& size >= 32
            &&& tells(s.words, topology, cull, t.words.subrange(from, from + size))
            &&& t.words[from + 2] == s.bind_group_key()
        }),
{
    reveal(arena::after_capture);
    arena::lemma_draw_state_len(s, topology, cull);
    lemma_state_words(s, topology, cull);
    let (t, at) = arena::after_capture(s, topology, cull, key);
    let slot = arena::draw_state_words(s, topology, cull);
    let from = 102581 + s.words[4296885] / 4;
    let size = t.words[4296885] as int / 4 - s.words[4296885] as int / 4;
    assert(t.words.subrange(from, from + size) =~= slot);
    assert(t.words[from + 2] == t.words.subrange(from, from + size)[2]);
}

/// The device state has another value of something that a pipeline depends on: a shader, the
/// declaration, a word of the identity, or a render state that counts as the others are.
pub open spec fn is_another_pipeline(words: Seq<u32>, at: int, v: u32) -> bool {
    let was = words[at];
    ||| (277 <= at < 280 || 4259 <= at < 4275) && v != was
    ||| at == 22 && v % 0x100 != was % 0x100
    ||| (at == 7 || at == 14 || at == 15) && switched(v) != switched(was)
    ||| at == 168 && v % 0x10 != was % 0x10
    ||| words[27] != 0 && {
        ||| (at == 19 || at == 20 || at == 207 || at == 208) && v % 0x20 != was % 0x20
        ||| (at == 171 || at == 209) && v % 8 != was % 8
        ||| at == 206 && switched(v) != switched(was)
    }
    ||| words[15] != 0 && {
        ||| at == 25 && v % 0x10 != was % 0x10
        ||| at == 24 && v % 0x100 != was % 0x100
    }
}

spec fn key_words(s: ArenaView, stride: u32, topology: u32, cull: u32) -> Seq<u32> {
    let (blend, separate, alpha) = s.blend_alpha_fields();
    s.identity() + seq![
        s.words[277],
        s.words[278],
        s.words[279],
        stride,
        topology,
        cull,
        s.state_bits(),
        blend,
        separate,
        alpha,
        s.cube_mask(),
    ]
}

/// Where a state stands among what the key is made from.
spec fn key_place(at: int) -> int {
    if 4259 <= at < 4275 {
        at - 4259
    } else if 277 <= at < 280 {
        16 + at - 277
    } else if at == 22 || at == 7 || at == 14 {
        22
    } else if at == 168 || at == 19 || at == 20 || at == 171 {
        23
    } else if at == 206 || at == 207 || at == 208 || at == 209 {
        24
    } else {
        25
    }
}

/// Draws in device states that differ in one thing that a pipeline depends on have different
/// pipeline keys.
#[verifier::spinoff_prover]
pub proof fn law_another_state_is_another_pipeline(
    s: ArenaView,
    at: int,
    v: u32,
    stride: u32,
    topology: u32,
    cull: u32,
)
    requires
        s.wf(),
        0 <= at,
        is_another_pipeline(s.words, at, v),
    ensures
        s.with(at, v).pipeline_key(stride, topology, cull) != s.pipeline_key(
            stride,
            topology,
            cull,
        ),
{
    reveal(ArenaView::pipeline_key);
    let t = s.with(at, v);
    let a = key_words(s, stride, topology, cull);
    let b = key_words(t, stride, topology, cull);
    let k = key_place(at);
    lemma_fields(s);
    lemma_fields(t);
    assert forall|i: int| 0 <= i < 8 implies #[trigger] t.stage_is_cube(i) == s.stage_is_cube(i) by {}
    arena_capture_laws::lemma_same_cubes(s, t, 8);
    assert forall|i: int| 0 <= i < 16 && i != at - 4259 implies #[trigger] s.identity()[i]
        == t.identity()[i] by {
        assert(s.words[4259 + i] == t.words[4259 + i]);
    }
    reveal(ArenaView::blend_alpha_fields);
    assert(a[k] != b[k]) by {
        if 4259 <= at < 4275 {
            assert(s.identity()[k] == s.words[at]);
            assert(t.identity()[k] == t.words[at]);
        }
    }
    assert forall|i: int| 0 <= i < a.len() && i != k implies a[i] == b[i] by {
        if i < 16 {
            assert(s.identity()[i] == t.identity()[i]);
        }
    }
    arena_capture_laws::lemma_digest(a, b, k);
}

/// Draws in one device state that differ in stride, topology or the forced cull mode have
/// different pipeline keys.
pub proof fn law_another_draw_is_another_pipeline(
    s: ArenaView,
    stride: u32,
    topology: u32,
    cull: u32,
    v: u32,
)
    requires
        s.wf(),
    ensures
        v != stride ==> s.pipeline_key(v, topology, cull) != s.pipeline_key(
            stride,
            topology,
            cull,
        ),
        v != topology ==> s.pipeline_key(stride, v, cull) != s.pipeline_key(
            stride,
            topology,
            cull,
        ),
        v != cull ==> s.pipeline_key(stride, topology, v) != s.pipeline_key(
            stride,
            topology,
            cull,
        ),
{
    reveal(ArenaView::pipeline_key);
    let a = key_words(s, stride, topology, cull);
    if v != stride {
        arena_capture_laws::lemma_digest(key_words(s, v, topology, cull), a, 19);
    }
    if v != topology {
        arena_capture_laws::lemma_digest(key_words(s, stride, v, cull), a, 20);
    }
    if v != cull {
        arena_capture_laws::lemma_digest(key_words(s, stride, topology, v), a, 21);
    }
}

/// Another value of a sampler state of the first stage is another bind group.
pub proof fn law_another_sampler_is_another_bind_group(s: ArenaView, i: int, v: u32)
    requires
        s.wf(),
        0 <= i < 16,
        v != s.words[256 + i],
    ensures
        s.with(256 + i, v).bind_group_key() != s.bind_group_key(),
{
    reveal(ArenaView::bind_group_key);
    let t = s.with(256 + i, v);
    assert forall|j: int| 0 <= j < 8 implies #[trigger] t.stage_is_cube(j) == s.stage_is_cube(j) by {}
    arena_capture_laws::lemma_same_cubes(s, t, 8);
    assert(t.texture_ids() =~= s.texture_ids());
    let a = s.samplers() + seq![s.cube_mask()] + s.texture_ids();
    let b = t.samplers() + seq![t.cube_mask()] + t.texture_ids();
    assert forall|j: int| 0 <= j < a.len() && j != i implies a[j] == b[j] by {
        if j < 16 {
            assert(s.samplers()[j] == s.words[256 + j]);
            assert(t.samplers()[j] == t.words[256 + j]);
        }
    }
    assert(a[i] == s.words[256 + i] && b[i] == v);
    arena_capture_laws::lemma_digest(a, b, i);
}

/// Row `n` of the frame: its type, its three operands, and its keys.
pub open spec fn row_is(
    words: Seq<u32>,
    n: int,
    kind: u32,
    a: u32,
    b: u32,
    c: u32,
    pipeline: u32,
    group: u32,
) -> bool {
    &&& words[4276 + n] == kind
    &&& words[20660 + n] == a
    &&& words[37044 + n] == b
    &&& words[53428 + n] == c
    &&& words[69812 + n] == pipeline
    &&& words[86196 + n] == group
}

/// The first `n` rows are the same.
spec fn same_rows(s: Seq<u32>, t: Seq<u32>, n: int) -> bool {
    forall|k: int| #![trigger t[4276 + k]] 0 <= k < n ==> same_row(s, t, k)
}

spec fn same_row(s: Seq<u32>, t: Seq<u32>, k: int) -> bool {
    row_is(t, k, s[4276 + k], s[20660 + k], s[37044 + k], s[53428 + k], s[69812 + k], s[86196 + k])
}

/// What stands before the rows is the same.
spec fn same_state(s: ArenaView, t: ArenaView) -> bool {
    &&& s.words.len() == t.words.len()
    &&& forall|i: int| 0 <= i < 4276 ==> #[trigger] t.words[i] == s.words[i]
    &&& s.last_draw == t.last_draw
    &&& forall|i: int| 102581 <= i < 4296886 ==> #[trigger] t.words[i] == s.words[i]
}

#[verifier::spinoff_prover]
proof fn lemma_row_added(s: ArenaView, kind: u32, a: u32, b: u32, c: u32, pk: u32, bk: u32)
    requires
        s.wf(),
        s.words[102580] < 16384,
    ensures
        ({
            let t = arena::after_row(s, arena::row(kind, a, b, c, pk, bk));
            let n = s.words[102580] as int;
            &&& t.wf()
            &&& row_is(t.words, n, kind, a, b, c, pk, bk)
            &&& t.words[102580] == n + 1
            &&& same_rows(s.words, t.words, n)
            &&& same_state(s, t)
            &&& t.last_bound_stream == s.last_bound_stream
            &&& t.last_bound_index == s.last_bound_index
        }),
{
    reveal(arena::after_row);
}

/// Keys and lengths are taken from what stands before the rows.
#[verifier::spinoff_prover]
proof fn lemma_same_keys(s: ArenaView, t: ArenaView, stride: u32, topology: u32, cull: u32)
    requires
        s.wf(),
        t.wf(),
        same_state(s, t),
    ensures
        t.pipeline_key(stride, topology, cull) == s.pipeline_key(stride, topology, cull),
        t.bind_group_key() == s.bind_group_key(),
        arena::draw_state_words(s, topology, cull) == arena::draw_state_words(t, topology, cull),
        arena::draw_state_bytes(s) == arena::draw_state_bytes(t),
        forall|key: u32| #[trigger] arena::memo_hit(t, key) == arena::memo_hit(s, key),
{
    reveal(ArenaView::pipeline_key);
    reveal(ArenaView::bind_group_key);
    reveal(ArenaView::blend_alpha_fields);
    reveal(arena::draw_state_words);
    arena_laws::lemma_cubes(s, t, 8);
    assert(t.identity() =~= s.identity());
    assert(t.texture_ids() =~= s.texture_ids());
    assert(t.samplers() =~= s.samplers());
    assert(t.vs_const_len(t.words[277]) == s.vs_const_len(s.words[277]));
    assert(t.ps_const_len(t.words[278]) == s.ps_const_len(s.words[278]));
    let vs = arena::vs_words(s);
    let ps = arena::ps_words(s);
    assert(t.words.subrange(2337, 2337 + vs) =~= s.words.subrange(2337, 2337 + vs));
    assert(t.words.subrange(3361, 3361 + ps) =~= s.words.subrange(3361, 3361 + ps));
}

/// How many constants a draw takes with it.
pub open spec fn constants(words: Seq<u32>) -> int {
    at_most(half_of(words, 1313, words[277] as int % 1024), 1024) + at_most(
        half_of(words, 1825, words[278] as int % 1024),
        896,
    )
}

/// 1 where the vertex buffer has changed since it was last bound in the frame.
pub open spec fn stream_rows(s: ArenaView) -> int {
    if s.last_bound_stream == (s.words[272], s.words[273], s.words[274]) {
        0
    } else {
        1
    }
}

/// 1 where the index buffer has changed since it was last bound in the frame.
pub open spec fn index_rows(s: ArenaView) -> int {
    if s.last_bound_index == (s.words[275], s.words[276]) {
        0
    } else {
        1
    }
}

/// A draw is taken where both shaders are bound and the frame has room for its rows and, unless
/// the last capture serves, for its capture.
pub open spec fn is_taken(s: ArenaView, key: u32) -> bool {
    &&& s.words[277] != 0 && s.words[278] != 0
    &&& s.words[102580] + stream_rows(s) + index_rows(s) + 3 <= 16384
    &&& arena::memo_hit(s, key) || s.words[4296885] + 4 * (32 + constants(s.words)) <= 0x100_0000
}

/// The rows that bind the buffers, where they changed.
#[verifier::spinoff_prover]
proof fn lemma_bound(s: ArenaView)
    requires
        s.wf(),
    ensures
        ({
            let (s1, ok1) = arena::after_stream(s);
            let (s2, ok2) = arena::after_index(s1);
            let n = s.words[102580] as int;
            let a = stream_rows(s);
            let b = index_rows(s);
            &&& ok1 <==> a == 0 || n < 16384
            &&& ok1 ==> (ok2 <==> b == 0 || n + a < 16384)
            &&& ok1 && ok2 ==> {
                &&& s2.wf()
                &&& same_state(s, s2)
                &&& s2.words[102580] == n + a + b
                &&& same_rows(s.words, s2.words, n)
                &&& a == 1 ==> row_is(
                    s2.words,
                    n,
                    2,
                    s.words[272],
                    s.words[273],
                    s.words[274],
                    0,
                    0,
                )
                &&& b == 1 ==> row_is(s2.words, n + a, 4, s.words[275], s.words[276], 0, 0, 0)
            }
        }),
{
    let w = s.words;
    let n = w[102580] as int;
    let (s1, ok1) = arena::after_stream(s);
    if n < 16384 {
        lemma_row_added(s, 2, w[272], w[273], w[274], 0, 0);
    }
    if ok1 {
        if s1.words[102580] < 16384 {
            lemma_row_added(s1, 4, w[275], w[276], 0, 0, 0);
        }
        let s2 = arena::after_index(s1).0;
        if stream_rows(s) == 1 && index_rows(s) == 1 && s1.words[102580] < 16384 {
            assert(same_row(s1.words, s2.words, n));
            assert forall|k: int| #![trigger s2.words[4276 + k]] 0 <= k < n implies same_row(
                s.words,
                s2.words,
                k,
            ) by {
                assert(same_row(s1.words, s2.words, k));
                assert(s1.words[4276 + k] == s.words[4276 + k]);
                assert(same_row(s.words, s1.words, k));
            }
        }
    }
}

/// What an accepted draw leaves: rows for the buffers that changed, then a row with the pipeline
/// and the capture, a row with the capture, and the row of the draw itself.
pub open spec fn is_recorded(
    s: ArenaView,
    t: ArenaView,
    kind: u32,
    a: u32,
    b: u32,
    c: u32,
    pk: u32,
    bk: u32,
    key: u32,
    at: u32,
) -> bool {
    let w = s.words;
    let n = w[102580] as int;
    let m = n + stream_rows(s);
    let k = m + index_rows(s);
    &&& t.words[102580] == k + 3
    &&& m > n ==> row_is(t.words, n, 2, w[272], w[273], w[274], 0, 0)
    &&& k > m ==> row_is(t.words, m, 4, w[275], w[276], 0, 0, 0)
    &&& row_is(t.words, k, 1, key, at, 0, key, s.bind_group_key())
    &&& row_is(t.words, k + 1, 6, at, 0, 0, key, s.bind_group_key())
    &&& row_is(t.words, k + 2, kind, a, b, c, pk, bk)
}

/// A draw that is taken returns its pipeline key and stands in the rows of the frame: the buffers
/// that changed, the pipeline and the bind group with the place of the captured draw state, and
/// the draw with its operands. A draw that shares no earlier capture has captured the device
/// state. A draw without a pair of shaders, or without room, returns -1.
#[verifier::spinoff_prover]
pub proof fn law_draws_are_recorded(
    s: ArenaView,
    topology: u32,
    stride: u32,
    cull: u32,
    kind: u32,
    a: u32,
    b: u32,
    c: u32,
    pk: u32,
    bk: u32,
    keyless: bool,
)
    requires
        s.wf(),
        s.bump_cursor() % 4 == 0,
        topology < 0x100,
        cull < 0x100,
    ensures
        ({
            let r = arena::row(kind, a, b, c, pk, bk);
            let (t, answer) = arena::after_draw(s, topology, stride, cull, r, keyless);
            let key = s.pipeline_key(stride, topology, cull);
            let end = s.words[4296885];
            let from = 102581 + end / 4;
            let size = 32 + constants(s.words);
            &&& answer == -1 <==> !is_taken(s, key)
            &&& is_taken(s, key) ==> answer == key
            &&& is_taken(s, key) && arena::memo_hit(s, key) ==> is_recorded(
                s,
                t,
                kind,
                a,
                b,
                c,
                if keyless {
                    pk
                } else {
                    key
                },
                bk,
                key,
                s.last_draw.offset,
            )
            &&& is_taken(s, key) && !arena::memo_hit(s, key) ==> {
                &&& is_recorded(
                    s,
                    t,
                    kind,
                    a,
                    b,
                    c,
                    if keyless {
                        pk
                    } else {
                        key
                    },
                    bk,
                    key,
                    end,
                )
                &&& tells(s.words, topology, cull, t.words.subrange(from, from + size))
            }
            &&& s.words[277] == 0 || s.words[278] == 0 ==> t.words == s.words.update(
                4296889,
                s.words[4296889].wrapping_add(1),
            )
        }),
        arena::CMD_DRAW == 3 && arena::CMD_DRAW_INDEXED == 5,
        arena::CMD_DRAW_UP == 7 && arena::CMD_DRAW_INDEXED_UP == 8,
{
    reveal(arena::after_draw);
    let key = s.pipeline_key(stride, topology, cull);
    let group = s.bind_group_key();
    lemma_bound(s);
    lemma_lengths(s);
    let (s1, ok1) = arena::after_stream(s);
    let (s2, ok2) = arena::after_index(s1);
    if s.words[277] != 0 && s.words[278] != 0 && ok1 && ok2 {
        lemma_same_keys(s, s2, stride, topology, cull);
        arena::lemma_draw_state_len(s, topology, cull);
        assert(arena::draw_state_bytes(s) == 4 * (32 + constants(s.words)));
        let (s3, captured) = arena::after_capture(s2, topology, cull, key);
        lemma_captured(s2, topology, cull, key);
        let filled = if keyless {
            pk
        } else {
            key
        };
        let n = s.words[102580] as int;
        let m = n + stream_rows(s);
        let k = m + index_rows(s);
        if let Some(at) = captured {
            lemma_rows(s2, s3, key, at, group, kind, a, b, c, filled, bk);
            lemma_state_words(s, topology, cull);
            if k + 3 <= 16384 {
                let s4 = arena::after_row(s3, arena::row(1, key, at, 0, key, group));
                let s5 = arena::after_row(s4, arena::row(6, at, 0, 0, key, group));
                let t = arena::after_row(s5, arena::row(kind, a, b, c, filled, bk));
                let r = arena::row(kind, a, b, c, pk, bk);
                assert(is_taken(s, key));
                assert(arena::after_prelude(s, topology, stride, cull) == (s5, Some(key)));
                assert(arena::after_draw(s, topology, stride, cull, r, keyless) == (t, key as i64));
                if m > n {
                    assert(t.words[4276 + n] == s2.words[4276 + n]);
                    assert(same_row(s2.words, t.words, n));
                }
                if k > m {
                    assert(t.words[4276 + m] == s2.words[4276 + m]);
                    assert(same_row(s2.words, t.words, m));
                }
                assert(is_recorded(s, t, kind, a, b, c, filled, bk, key, at));
                if !arena::memo_hit(s, key) {
                    let from = 102581 + s.words[4296885] / 4;
                    let slot = arena::draw_state_words(s, topology, cull);
                    let size = 32 + constants(s.words);
                    let there = s3.words.subrange(from, from + size);
                    assert(there == slot);
                    let now = t.words.subrange(from, from + size);
                    assert forall|i: int| 0 <= i < size implies #[trigger] now[i] == slot[i] by {
                        assert(there[i] == s3.words[from + i]);
                        assert(t.words[from + i] == s3.words[from + i]);
                    }
                    assert(now =~= slot);
                }
            } else {
                assert(!is_taken(s, key));
            }
        } else {
            assert(!is_taken(s, key));
        }
    }
}

/// A capture leaves the rows alone.
#[verifier::spinoff_prover]
proof fn lemma_captured(s: ArenaView, topology: u32, cull: u32, key: u32)
    requires
        s.wf(),
        s.bump_cursor() % 4 == 0,
    ensures
        ({
            let (t, at) = arena::after_capture(s, topology, cull, key);
            let slot = arena::draw_state_words(s, topology, cull);
            let from = 102581 + s.words[4296885] / 4;
            &&& at is Some <==> arena::memo_hit(s, key) || s.words[4296885]
                + arena::draw_state_bytes(s) <= 0x100_0000
            &&& arena::memo_hit(s, key) ==> at == Some(s.last_draw.offset)
            &&& at is Some && !arena::memo_hit(s, key) ==> {
                &&& at == Some(s.words[4296885])
                &&& t.words.subrange(from, from + slot.len()) == slot
                &&& from + slot.len() <= 4296885
            }
            &&& at is Some ==> {
                &&& t.wf()
                &&& t.words[102580] == s.words[102580]
                &&& forall|i: int| 0 <= i < 102581 ==> #[trigger] t.words[i] == s.words[i]
            }
        }),
{
    reveal(arena::after_capture);
    arena::lemma_draw_state_len(s, topology, cull);
    let (t, at) = arena::after_capture(s, topology, cull, key);
    let slot = arena::draw_state_words(s, topology, cull);
    let from = 102581 + s.words[4296885] / 4;
    if at is Some && !arena::memo_hit(s, key) {
        assert(t.words.subrange(from, from + slot.len()) =~= slot);
    }
}

/// The three rows that end a draw.
#[verifier::spinoff_prover]
proof fn lemma_rows(
    s2: ArenaView,
    s3: ArenaView,
    key: u32,
    at: u32,
    group: u32,
    kind: u32,
    a: u32,
    b: u32,
    c: u32,
    pk: u32,
    bk: u32,
)
    requires
        s3.wf(),
        s2.words.len() == s3.words.len(),
        s3.words[102580] == s2.words[102580],
        forall|i: int| 0 <= i < 102581 ==> #[trigger] s3.words[i] == s2.words[i],
    ensures
        ({
            let k = s2.words[102580] as int;
            let s4 = arena::after_row(s3, arena::row(1, key, at, 0, key, group));
            let s5 = arena::after_row(s4, arena::row(6, at, 0, 0, key, group));
            let t = arena::after_row(s5, arena::row(kind, a, b, c, pk, bk));
            &&& k + 3 <= 16384 ==> {
                &&& t.wf()
                &&& s4.words[102580] == k + 1
                &&& s5.words[102580] == k + 2
                &&& t.words[102580] == k + 3
                &&& same_rows(s2.words, t.words, k)
                &&& row_is(t.words, k, 1, key, at, 0, key, group)
                &&& row_is(t.words, k + 1, 6, at, 0, 0, key, group)
                &&& row_is(t.words, k + 2, kind, a, b, c, pk, bk)
                &&& forall|i: int| 102581 <= i < 4296885 ==> #[trigger] t.words[i] == s3.words[i]
            }
            &&& k < 16384 ==> s4.words[102580] == k + 1
            &&& k + 1 < 16384 ==> s5.words[102580] == k + 2
        }),
{
    let k = s2.words[102580] as int;
    let s4 = arena::after_row(s3, arena::row(1, key, at, 0, key, group));
    let s5 = arena::after_row(s4, arena::row(6, at, 0, 0, key, group));
    let t = arena::after_row(s5, arena::row(kind, a, b, c, pk, bk));
    if k < 16384 {
        lemma_row_added(s3, 1, key, at, 0, key, group);
    }
    if k + 1 < 16384 {
        lemma_row_added(s4, 6, at, 0, 0, key, group);
    }
    if k + 2 < 16384 {
        lemma_row_added(s5, kind, a, b, c, pk, bk);
        assert(same_row(s4.words, s5.words, k));
        assert(t.words[4276 + k] == s5.words[4276 + k]);
        assert(same_row(s5.words, t.words, k));
        assert(t.words[4276 + (k + 1)] == s5.words[4276 + (k + 1)]);
        assert(same_row(s5.words, t.words, k + 1));
        assert forall|j: int| #![trigger t.words[4276 + j]] 0 <= j < k implies same_row(
            s2.words,
            t.words,
            j,
        ) by {
            assert(same_row(s5.words, t.words, j));
            assert(s5.words[4276 + j] == s4.words[4276 + j]);
            assert(same_row(s4.words, s5.words, j));
            assert(s4.words[4276 + j] == s3.words[4276 + j]);
            assert(same_row(s3.words, s4.words, j));
        }
    }
}

} // verus!
