//! Recording a whole alternating run of constant uploads and indexed draws at once, and
//! draws whose vertices come straight from guest memory.
use vstd::prelude::*;
use crate::arena;
use crate::arena::{
    bump_alloc, d3d9_record_draw_indexed, emit_draw_prelude, half_at, lay, push_command,
    write_words, Arena, ArenaView, ARENA_WORDS, AT_BUMP_ARENA, AT_BUMP_CURSOR, AT_CMD_TYPES,
    AT_COMMAND_COUNT, AT_PS_HANDLE, AT_SHADER_CONST_LEN_PS, AT_SHADER_CONST_LEN_VS,
    AT_VS_CONSTANTS, AT_VS_CONST_VERSION, AT_VS_HANDLE, BUMP_CAP, CMD_BIND_PROGRAMMABLE, CMD_CAP,
    CMD_DRAW_INDEXED, CMD_DRAW_INDEXED_UP, CMD_DRAW_UP, CMD_SET_INDEX_BUFFER, CMD_SET_PIPELINE,
    CMD_SET_VERTEX_BUFFER, COMPACT_RUN_HEADER_WORDS, COMPACT_RUN_MAGIC_SPARSE,
    COMPACT_RUN_MAGIC_STORAGE, DRAW_STATE_HEADER_WORDS, PS_CONST_FLOATS, VS_CONST_FLOATS,
    WBUF_RUN_CAP,
};

verus! {

/// Byte `i` of `bytes` where there is one, else lane `i % 4` of `old`.
pub open spec fn lane_or(bytes: Seq<u8>, i: int, old: u32) -> int {
    if i < bytes.len() {
        bytes[i] as int
    } else if i % 4 == 0 {
        old as int % 256
    } else if i % 4 == 1 {
        old as int / 256 % 256
    } else if i % 4 == 2 {
        old as int / 65536 % 256
    } else {
        old as int / 16777216
    }
}

/// Little-endian word `k` of `bytes`; lanes past their end come from `old`.
pub open spec fn packed_word(bytes: Seq<u8>, k: int, old: u32) -> u32 {
    (lane_or(bytes, 4 * k, old) + 256 * lane_or(bytes, 4 * k + 1, old) + 65536 * lane_or(
        bytes,
        4 * k + 2,
        old,
    ) + 16777216 * lane_or(bytes, 4 * k + 3, old)) as u32
}

/// `bytes` as little-endian words, over the words that were there before.
pub open spec fn packed(bytes: Seq<u8>, before: Seq<u32>) -> Seq<u32> {
    Seq::new(((bytes.len() + 3) / 4) as nat, |k: int| packed_word(bytes, k, before[k]))
}

/// A write-buffer run as it was read, and what the caller expects of it.
pub struct Run {
    pub w: Seq<u32>,
    pub vs_func_id: u32,
    pub draw_func_id: u32,
    pub device: u32,
    pub mode: u32,
    pub index_capacity: u32,
}

impl Run {
    /// Constant words that each upload carries.
    pub open spec fn floats(self) -> int {
        4 * self.w[3]
    }

    /// First constant word that each upload writes.
    pub open spec fn first(self) -> int {
        4 * self.w[2]
    }

    /// Words of one upload and its draw.
    pub open spec fn pitch(self) -> int {
        12 + self.floats()
    }

    pub open spec fn pairs(self) -> int {
        self.w.len() as int / self.pitch()
    }

    /// Where the draw of pair `k` starts.
    pub open spec fn draw_at(self, k: int) -> int {
        k * self.pitch() + 4 + self.floats()
    }

    pub open spec fn index_count(self, k: int) -> int {
        3 * self.w[self.draw_at(k) + 7]
    }

    pub open spec fn start_index(self, k: int) -> u32 {
        self.w[self.draw_at(k) + 6]
    }

    pub open spec fn base_vertex(self, k: int) -> u32 {
        self.w[self.draw_at(k) + 3]
    }

    pub open spec fn constants(self, k: int) -> Seq<u32> {
        self.w.subrange(k * self.pitch() + 4, k * self.pitch() + 4 + self.floats())
    }

    /// The constants that the run sets are inside the bank.
    pub open spec fn bank_ok(self) -> bool {
        &&& self.w.len() >= 4
        &&& self.w[3] > 0
        &&& self.first() + self.floats() <= VS_CONST_FLOATS
    }

    /// Pair `k` is an upload of the run's constants and a non-instanced triangle-list draw,
    /// and, for a compact run, draws the run's geometry from inside the index buffer.
    pub open spec fn pair_ok(self, k: int) -> bool {
        let at = k * self.pitch();
        let d = self.draw_at(k);
        &&& self.w[at] == self.vs_func_id
        &&& self.w[at + 1] == self.device
        &&& self.w[at + 2] == self.w[2]
        &&& self.w[at + 3] == self.w[3]
        &&& self.w[d] == self.draw_func_id
        &&& self.w[d + 1] == self.device
        &&& self.w[d + 2] == 4
        &&& self.w[d + 3] < 0x8000_0000
        &&& 0 < self.w[d + 7] <= u32::MAX / 3
        &&& self.mode != 0 ==> {
            &&& self.index_count(k) + self.start_index(k) <= self.index_capacity
            &&& self.index_count(k) == self.index_count(0)
            &&& self.start_index(k) == self.start_index(0)
            &&& self.base_vertex(k) == self.base_vertex(0)
        }
    }

    /// The whole input is two or more well-formed pairs over one constant range.
    pub open spec fn shape_ok(self) -> bool {
        &&& self.bank_ok()
        &&& self.w.len() == self.pairs() * self.pitch()
        &&& self.pairs() >= 2
        &&& forall|k: int| 0 <= k < self.pairs() ==> #[trigger] self.pair_ok(k)
    }

    /// Words of one instance of the compact payload.
    pub open spec fn instance_words(self, s: ArenaView) -> int {
        if self.mode == 3 {
            s.compact_template_words as int
        } else {
            self.floats()
        }
    }

    pub open spec fn template_ok(self, s: ArenaView) -> bool {
        self.mode == 3 ==> {
            &&& s.compact_template_words != 0
            &&& self.first() + self.floats() <= s.compact_template_words
        }
    }

    pub open spec fn compact_bytes(self, s: ArenaView) -> int {
        if self.mode != 0 {
            4 * (self.pairs() * self.instance_words(s) + COMPACT_RUN_HEADER_WORDS)
        } else {
            0
        }
    }

    /// The arena has room for everything that the run can emit.
    pub open spec fn room_ok(self, s: ArenaView) -> bool {
        &&& s.bump_cursor() + self.compact_bytes(s) <= BUMP_CAP
        &&& self.mode < 2 ==> {
            &&& s.command_count() + 2 + 3 * self.pairs() <= CMD_CAP
            &&& s.bump_cursor() + self.compact_bytes(s) + self.pairs() * arena::draw_state_bytes(s)
                <= BUMP_CAP
        }
    }

    /// The run is recorded: well-formed, a shader pair is bound, and all of it fits.
    pub open spec fn accepted(self, s: ArenaView) -> bool {
        &&& self.mode <= 3
        &&& self.device != 0
        &&& self.shape_ok()
        &&& s.words[AT_VS_HANDLE as int] != 0
        &&& s.words[AT_PS_HANDLE as int] != 0
        &&& self.template_ok(s)
        &&& self.room_ok(s)
    }

    /// The descriptor of the compact run whose payload starts right after it.
    pub open spec fn header(self, s: ArenaView) -> Seq<u32> {
        seq![
            if self.mode == 3 { COMPACT_RUN_MAGIC_STORAGE } else { COMPACT_RUN_MAGIC_SPARSE },
            self.pairs() as u32,
            self.w[2],
            self.floats() as u32,
            (s.bump_cursor() + 40) as u32,
            (self.pairs() * self.instance_words(s)) as u32,
            self.index_count(0) as u32,
            self.start_index(0),
            self.base_vertex(0),
            self.instance_words(s) as u32,
        ]
    }

    /// The arena before the first pair: the compact descriptor is in place.
    pub open spec fn opened(self, s: ArenaView) -> ArenaView {
        if self.mode != 0 {
            arena::after_bump(s, self.compact_bytes(s)).with_words(
                AT_BUMP_ARENA + s.bump_cursor() as int / 4,
                self.header(s),
            )
        } else {
            s
        }
    }

    /// Word position of instance `k` of the compact payload.
    pub open spec fn instance_at(self, s: ArenaView, k: int) -> int {
        AT_BUMP_ARENA + s.bump_cursor() as int / 4 + COMPACT_RUN_HEADER_WORDS + k
            * self.instance_words(s)
    }

    /// `t` after instance `k` is written: the template, where one is used, with the pair's
    /// constants over it.
    #[verifier::opaque]
    pub open spec fn with_instance(self, s: ArenaView, t: ArenaView, k: int) -> ArenaView {
        if self.mode == 0 {
            t
        } else if self.mode == 3 {
            t.with_words(
                self.instance_at(s, k),
                s.compact_template.subrange(0, self.instance_words(s)),
            ).with_words(self.instance_at(s, k) + self.first(), self.constants(k))
        } else {
            t.with_words(self.instance_at(s, k), self.constants(k))
        }
    }

    /// `t` after the constants of pair `k` are uploaded.
    #[verifier::opaque]
    pub open spec fn with_upload(self, t: ArenaView, k: int) -> ArenaView {
        let u = t.with_words(AT_VS_CONSTANTS + self.first(), self.constants(k));
        u.with(
            AT_VS_CONST_VERSION as int,
            t.words[AT_VS_CONST_VERSION as int].wrapping_add(1),
        )
    }

    /// The arena after the first `k` pairs of a run that started on `s`.
    pub open spec fn recorded(self, s: ArenaView, k: int, stride: u32, cull: u32) -> ArenaView
        decreases k,
    {
        if k <= 0 {
            self.opened(s)
        } else {
            let t = self.with_upload(
                self.with_instance(s, self.recorded(s, k - 1, stride, cull), k - 1),
                k - 1,
            );
            if self.mode < 2 {
                arena::after_draw(
                    t,
                    0,
                    stride,
                    cull,
                    arena::row(
                        CMD_DRAW_INDEXED,
                        self.index_count(k - 1) as u32,
                        self.start_index(k - 1),
                        self.base_vertex(k - 1),
                        0,
                        0,
                    ),
                    false,
                ).0
            } else {
                t
            }
        }
    }
}

/// The words of a run of whole words.
pub open spec fn words_of(bytes: Seq<u8>) -> Seq<u32> {
    packed(bytes, Seq::new(bytes.len(), |i: int| 0u32))
}

/// Whether the arguments alone let a run be looked at.
pub open spec fn run_args_ok(guest_start: i32, byte_len: u32, stride: u32) -> bool {
    guest_start != 0 && 0 < byte_len <= WBUF_RUN_CAP && byte_len % 4 == 0 && stride != 0
}

/// The arena after `run` is handed to the recorder, and the recorder's answer: the number of
/// pairs, or -1 where the run is declined. Only a run with a compact payload leaves an offset.
pub open spec fn after_run(
    run: Run,
    s: ArenaView,
    readable: bool,
    guest_start: i32,
    byte_len: u32,
    stride: u32,
    cull: u32,
) -> (ArenaView, i32) {
    let none = ArenaView { last_wbuf_compact_offset: -1i32, ..s };
    if run_args_ok(guest_start, byte_len, stride) && readable && run.accepted(none) {
        (
            ArenaView {
                last_wbuf_compact_offset: if run.mode != 0 {
                    s.bump_cursor() as i32
                } else {
                    -1i32
                },
                ..run.recorded(none, run.pairs(), stride, cull)
            },
            run.pairs() as i32,
        )
    } else {
        (none, -1i32)
    }
}

/// A run that goes on past pair `k` has room for all of pair `k`.
proof fn lemma_pair_fits(k: int, pitch: int, n: int, len: int)
    requires
        0 <= k,
        pitch > 0,
        k * pitch < len,
        len == n * pitch,
    ensures
        k < n,
        k * pitch + pitch <= len,
{
    assert(k < n) by (nonlinear_arith)
        requires
            k * pitch < n * pitch,
            pitch > 0,
    ;
    assert(k * pitch + pitch <= n * pitch) by (nonlinear_arith)
        requires
            k + 1 <= n,
            pitch > 0,
    ;
}

/// A draw with room for its rows and its capture always succeeds; it adds its own three
/// rows and at most the two binding rows, and touches nothing before the rows.
proof fn lemma_draw_succeeds(s: ArenaView, stride: u32, cull: u32, r: arena::Row)
    requires
        s.wf(),
        s.bump_cursor() % 4 == 0,
        s.words[AT_VS_HANDLE as int] != 0,
        s.words[AT_PS_HANDLE as int] != 0,
        s.bump_cursor() + arena::draw_state_bytes(s) <= BUMP_CAP,
        s.command_count() + 3 + (if s.last_bound_stream == arena::stream_of(s) { 0int } else { 1 })
            + (if s.last_bound_index == arena::index_of(s) { 0int } else { 1 }) <= CMD_CAP,
    ensures
        ({
            let (t, key) = arena::after_draw(s, 0, stride, cull, r, false);
            &&& key >= 0
            &&& t.wf()
            &&& t.bump_cursor() % 4 == 0
            &&& t.bump_cursor() <= s.bump_cursor() + arena::draw_state_bytes(s)
            &&& t.command_count() == s.command_count() + 3 + (if s.last_bound_stream
                == arena::stream_of(s) { 0int } else { 1 }) + (if s.last_bound_index
                == arena::index_of(s) { 0int } else { 1 })
            &&& t.last_bound_stream == arena::stream_of(t)
            &&& t.last_bound_index == arena::index_of(t)
            &&& t.compact_template == s.compact_template
            &&& t.compact_template_words == s.compact_template_words
            &&& forall|i: int| 0 <= i < AT_CMD_TYPES ==> #[trigger] t.words[i] == s.words[i]
        }),
{
    reveal(arena::after_draw);
    let v = arena::stream_of(s);
    let s1 = arena::after_stream(s).0;
    if s.last_bound_stream != v {
        arena::lemma_row(s, arena::row(CMD_SET_VERTEX_BUFFER, v.0, v.1, v.2, 0, 0));
    }
    let x = arena::index_of(s1);
    let s2 = arena::after_index(s1).0;
    if s1.last_bound_index != x {
        arena::lemma_row(s1, arena::row(CMD_SET_INDEX_BUFFER, x.0, x.1, 0, 0, 0));
    }
    assert(forall|i: int| 0 <= i < AT_CMD_TYPES ==> #[trigger] s2.words[i] == s.words[i]);
    assert(arena::draw_state_bytes(s2) == arena::draw_state_bytes(s));
    let key = s2.pipeline_key(stride, 0, cull);
    let group = s2.bind_group_key();
    arena::lemma_capture(s2, 0, cull, key);
    let (s3, at) = arena::after_capture(s2, 0, cull, key);
    let pipeline = arena::row(CMD_SET_PIPELINE, key, at->0, 0, key, group);
    arena::lemma_row(s3, pipeline);
    let s4 = arena::after_row(s3, pipeline);
    let bind = arena::row(CMD_BIND_PROGRAMMABLE, at->0, 0, 0, key, group);
    arena::lemma_row(s4, bind);
    let s5 = arena::after_row(s4, bind);
    arena::lemma_row(s5, arena::Row { pipeline_key: key, ..r });
}

/// Decodes a buffer of whole little-endian words.
fn decode_words(bytes: &Vec<u8>) -> (w: Vec<u32>)
    requires
        bytes@.len() % 4 == 0,
    ensures
        w@ == words_of(bytes@),
{
    let len: usize = bytes.len();
    let n: usize = len / 4;
    let mut w: Vec<u32> = Vec::with_capacity(n);
    let mut k: usize = 0;
    while k < n
        invariant
            len == bytes@.len(),
            n == len / 4,
            len % 4 == 0,
            k <= n,
            w@ == words_of(bytes@).take(k as int),
        decreases n - k,
    {
        let at: usize = 4 * k;
        w.push(
            bytes[at] as u32 + 256 * bytes[at + 1] as u32 + 65536 * bytes[at + 2] as u32 + 16777216
                * bytes[at + 3] as u32,
        );
        k = k + 1;
        assert(w@ =~= words_of(bytes@).take(k as int));
    }
    assert(w@ =~= words_of(bytes@));
    w
}

/// Whether the run is well-formed.
fn check_shape(
    words: &Vec<u32>,
    vs_func_id: u32,
    draw_func_id: u32,
    device: u32,
    mode: u32,
    index_capacity: u32,
) -> (ok: bool)
    ensures
        ok == (Run { w: words@, vs_func_id, draw_func_id, device, mode, index_capacity }).shape_ok(),
{
    let ghost run = Run { w: words@, vs_func_id, draw_func_id, device, mode, index_capacity };
    let len: usize = words.len();
    if len < 4 {
        return false;
    }
    let start_reg: u32 = words[2];
    let vec_count: u32 = words[3];
    if vec_count == 0 || vec_count > 256 || start_reg >= 256 || 4 * start_reg + 4 * vec_count
        > 1024 {
        return false;
    }
    let floats: usize = 4 * vec_count as usize;
    let pitch: usize = 12 + floats;
    assert(run.bank_ok());
    assert(pitch == run.pitch());
    let mut at: usize = 0;
    let ghost mut k: int = 0;
    let mut pairs: usize = 0;
    while at < len
        invariant
            len == words@.len(),
            run == (Run { w: words@, vs_func_id, draw_func_id, device, mode, index_capacity }),
            run.bank_ok(),
            floats == run.floats(),
            floats <= 1024,
            pitch == run.pitch(),
            start_reg == words@[2],
            vec_count == words@[3],
            at == pairs * pitch,
            at <= len,
            pairs <= at,
            forall|j: int| 0 <= j < pairs ==> #[trigger] run.pair_ok(j),
        decreases len - at,
    {
        if len - at < pitch {
            proof {
                if run.shape_ok() {
                    lemma_pair_fits(pairs as int, pitch as int, run.pairs(), len as int);
                }
            }
            return false;
        }
        let d: usize = at + 4 + floats;
        let d0: usize = 4 + floats;
        assert(d == run.draw_at(pairs as int));
        assert(d0 == run.draw_at(0));
        let head_ok: bool = words[at] == vs_func_id && words[at + 1] == device && words[at + 2]
            == start_reg && words[at + 3] == vec_count;
        let draw_ok: bool = words[d] == draw_func_id && words[d + 1] == device && words[d + 2] == 4
            && words[d + 3] < 0x8000_0000 && 0 < words[d + 7] && words[d + 7] <= u32::MAX / 3;
        let compact_ok: bool = mode == 0 || (3 * words[d + 7] as u64 + words[d + 6] as u64
            <= index_capacity as u64 && words[d + 7] == words[d0 + 7] && words[d + 6] == words[d0
            + 6] && words[d + 3] == words[d0 + 3]);
        assert((head_ok && draw_ok && compact_ok) == run.pair_ok(pairs as int));
        if !(head_ok && draw_ok && compact_ok) {
            proof {
                if run.shape_ok() {
                    lemma_pair_fits(pairs as int, pitch as int, run.pairs(), len as int);
                    assert(run.pair_ok(pairs as int));
                }
            }
            return false;
        }
        proof {
            assert(pairs * pitch + pitch == (pairs + 1) * pitch) by (nonlinear_arith);
        }
        at = at + pitch;
        pairs = pairs + 1;
    }
    proof {
        vstd::arithmetic::div_mod::lemma_div_by_multiple(pairs as int, pitch as int);
        assert(run.pairs() == pairs);
    }
    pairs >= 2
}

/// One pair's instance and upload leave the rows, the bump cursor and all state but the
/// vertex constants and their version alone.
pub(crate) proof fn lemma_pair_frame(run: Run, s: ArenaView, t: ArenaView, k: int)
    requires
        run.shape_ok(),
        run.template_ok(s),
        0 <= k < run.pairs(),
        s.wf(),
        t.wf(),
        s.bump_cursor() + run.compact_bytes(s) <= BUMP_CAP,
    ensures
        ({
            let u = run.with_upload(run.with_instance(s, t, k), k);
            &&& u.wf()
            &&& u.words[AT_BUMP_CURSOR as int] == t.words[AT_BUMP_CURSOR as int]
            &&& u.words[AT_COMMAND_COUNT as int] == t.words[AT_COMMAND_COUNT as int]
            &&& u.last_bound_stream == t.last_bound_stream
            &&& u.last_bound_index == t.last_bound_index
            &&& u.last_wbuf_compact_offset == t.last_wbuf_compact_offset
            &&& u.compact_template == t.compact_template
            &&& u.compact_template_words == t.compact_template_words
            &&& forall|i: int| 0 <= i < AT_VS_CONSTANTS ==> #[trigger] u.words[i] == t.words[i]
        }),
{
    reveal(Run::with_instance);
    reveal(Run::with_upload);
    lemma_instance_inside(run, s, k);
    let p = run.pitch();
    assert(0 <= k * p && k * p + p <= run.pairs() * p) by (nonlinear_arith)
        requires
            0 <= k,
            k + 1 <= run.pairs(),
            p > 0,
    ;
}

/// Instance `k` lies inside the bytes taken for the compact run.
pub(crate) proof fn lemma_instance_inside(run: Run, s: ArenaView, k: int)
    requires
        run.shape_ok(),
        run.template_ok(s),
        run.mode != 0 ==> 0 <= k < run.pairs(),
        s.wf(),
        s.bump_cursor() + run.compact_bytes(s) <= BUMP_CAP,
    ensures
        run.mode != 0 ==> {
            &&& AT_BUMP_ARENA <= run.instance_at(s, k)
            &&& run.instance_at(s, k) + run.instance_words(s) <= AT_BUMP_CURSOR
        },
        0 <= run.first(),
        0 < run.floats(),
        run.mode == 3 ==> run.first() + run.floats() <= run.instance_words(s),
        run.mode != 3 ==> run.floats() == run.instance_words(s),
{
    let i = run.instance_words(s);
    let n = run.pairs();
    if run.mode != 0 {
        assert(0 <= k * i && k * i + i <= n * i) by (nonlinear_arith)
            requires
                0 <= k,
                k + 1 <= n,
                i >= 0,
        ;
    }
}

/// What the recorder computes from a run before it touches the arena.
struct Plan {
    pairs: usize,
    floats: usize,
    first: usize,
    instance: usize,
    compact_bytes: u64,
    cursor: u32,
}

impl Plan {
    spec fn of(self, run: Run, s: ArenaView) -> bool {
        &&& self.pairs == run.pairs()
        &&& self.floats == run.floats()
        &&& self.first == run.first()
        &&& self.instance == run.instance_words(s)
        &&& self.compact_bytes == run.compact_bytes(s)
        &&& self.cursor == s.bump_cursor()
        &&& self.pairs <= 10923
        &&& self.instance <= 1024
        &&& self.first + self.floats <= 1024
    }
}

/// The plan of a run that the arena accepts.
fn plan_run(
    a: &Arena,
    words: &Vec<u32>,
    vs_func_id: u32,
    draw_func_id: u32,
    device: u32,
    mode: u32,
    index_capacity: u32,
) -> (plan: Option<Plan>)
    requires
        a@.wf(),
        words@.len() <= 131072,
        mode <= 3,
        device != 0,
    ensures
        ({
            let run = Run { w: words@, vs_func_id, draw_func_id, device, mode, index_capacity };
            &&& plan is Some <==> run.accepted(a@)
            &&& plan is Some ==> plan->0.of(run, a@)
        }),
{
    let ghost run = Run { w: words@, vs_func_id, draw_func_id, device, mode, index_capacity };
    if !check_shape(words, vs_func_id, draw_func_id, device, mode, index_capacity) {
        return None;
    }
    let floats: usize = 4 * words[3] as usize;
    let first: usize = 4 * words[2] as usize;
    let pitch: usize = 12 + floats;
    let pairs: usize = words.len() / pitch;
    assert(pairs == run.pairs());
    assert(pairs <= 10923) by (nonlinear_arith)
        requires
            pairs * pitch == words@.len(),
            words@.len() <= 131072,
            pitch >= 12,
    ;
    let vs_handle: u32 = a.words[AT_VS_HANDLE];
    let ps_handle: u32 = a.words[AT_PS_HANDLE];
    if vs_handle == 0 || ps_handle == 0 {
        return None;
    }
    let vs_len: u32 = half_at(a, AT_SHADER_CONST_LEN_VS, (vs_handle % 1024) as usize);
    let ps_len: u32 = half_at(a, AT_SHADER_CONST_LEN_PS, (ps_handle % 1024) as usize);
    let vs_n: u64 = if vs_len as u64 <= VS_CONST_FLOATS as u64 {
        vs_len as u64
    } else {
        VS_CONST_FLOATS as u64
    };
    let ps_n: u64 = if ps_len as u64 <= PS_CONST_FLOATS as u64 {
        ps_len as u64
    } else {
        PS_CONST_FLOATS as u64
    };
    let slot_bytes: u64 = 4 * (DRAW_STATE_HEADER_WORDS as u64 + vs_n + ps_n);
    assert(slot_bytes == arena::draw_state_bytes(a@));
    let instance: usize = if mode == 3 {
        a.compact_template_words
    } else {
        floats
    };
    if mode == 3 && (instance == 0 || first + floats > instance) {
        return None;
    }
    assert(instance == run.instance_words(a@));
    assert(pairs * instance <= 10923 * 1024) by (nonlinear_arith)
        requires
            pairs <= 10923,
            instance <= 1024,
    ;
    assert(pairs * slot_bytes <= 10923 * 8000) by (nonlinear_arith)
        requires
            pairs <= 10923,
            slot_bytes <= 8000,
    ;
    let compact_bytes: u64 = if mode != 0 {
        4 * (pairs as u64 * instance as u64 + COMPACT_RUN_HEADER_WORDS as u64)
    } else {
        0
    };
    let cursor: u32 = a.words[AT_BUMP_CURSOR];
    let count: u32 = a.words[AT_COMMAND_COUNT];
    if cursor as u64 + compact_bytes > BUMP_CAP as u64 {
        return None;
    }
    if mode < 2 && (count as u64 + 2 + 3 * pairs as u64 > CMD_CAP as u64 || cursor as u64
        + compact_bytes + pairs as u64 * slot_bytes > BUMP_CAP as u64) {
        return None;
    }
    Some(Plan { pairs, floats, first, instance, compact_bytes, cursor })
}

/// Takes the bytes of a compact run and writes its descriptor.
fn open_run(a: &mut Arena, words: &Vec<u32>, plan: &Plan, mode: u32, Ghost(run): Ghost<Run>)
    requires
        old(a)@.wf(),
        old(a)@.bump_cursor() % 4 == 0,
        run.accepted(old(a)@),
        run.w == words@,
        run.mode == mode,
        plan.of(run, old(a)@),
    ensures
        final(a)@ == run.opened(old(a)@),
        final(a)@.wf(),
        final(a)@.bump_cursor() == old(a)@.bump_cursor() + run.compact_bytes(old(a)@),
        final(a)@.command_count() == old(a)@.command_count(),
        final(a)@.compact_template == old(a)@.compact_template,
        final(a)@.compact_template_words == old(a)@.compact_template_words,
        final(a)@.last_bound_stream == old(a)@.last_bound_stream,
        final(a)@.last_bound_index == old(a)@.last_bound_index,
        forall|i: int|
            0 <= i < AT_CMD_TYPES ==> #[trigger] final(a)@.words[i] == old(a)@.words[i],
{
    if mode == 0 {
        return ;
    }
    let ghost s = a@;
    let d: usize = 4 + plan.floats;
    proof {
        assert(run.draw_at(0) == d);
        lemma_pair_fits(0, run.pitch(), run.pairs(), words@.len() as int);
        assert(run.pair_ok(0));
        assert(plan.pairs * plan.instance <= 10923 * 1024) by (nonlinear_arith)
            requires
                plan.pairs <= 10923,
                plan.instance <= 1024,
        ;
        assert(0 <= plan.pairs * plan.instance) by (nonlinear_arith);
    }
    let _ = bump_alloc(a, plan.compact_bytes);
    let mut header: Vec<u32> = Vec::new();
    header.push(
        if mode == 3 {
            COMPACT_RUN_MAGIC_STORAGE
        } else {
            COMPACT_RUN_MAGIC_SPARSE
        },
    );
    header.push(plan.pairs as u32);
    header.push(words[2]);
    header.push(plan.floats as u32);
    header.push(plan.cursor + 40);
    header.push((plan.pairs * plan.instance) as u32);
    header.push(3 * words[d + 7]);
    header.push(words[d + 6]);
    header.push(words[d + 3]);
    header.push(plan.instance as u32);
    assert(header@ =~= run.header(s));
    write_words(a, AT_BUMP_ARENA + (plan.cursor / 4) as usize, &header);
}

/// Writes the compact instance of pair `k` and uploads its constants.
fn upload_pair(
    a: &mut Arena,
    words: &Vec<u32>,
    plan: &Plan,
    mode: u32,
    k: usize,
    Ghost(run): Ghost<Run>,
    Ghost(s): Ghost<ArenaView>,
)
    requires
        s.wf(),
        run.accepted(s),
        run.w == words@,
        run.mode == mode,
        plan.of(run, s),
        k < plan.pairs,
        old(a)@.wf(),
        old(a)@.compact_template == s.compact_template,
    ensures
        final(a)@ == run.with_upload(run.with_instance(s, old(a)@, k as int), k as int),
{
    reveal(Run::with_instance);
    reveal(Run::with_upload);
    let pitch: usize = 12 + plan.floats;
    proof {
        lemma_instance_inside(run, s, k as int);
        assert(k * pitch + pitch <= plan.pairs * pitch) by (nonlinear_arith)
            requires
                k + 1 <= plan.pairs,
                pitch > 0,
        ;
        assert(k * plan.instance <= 10923 * 1024) by (nonlinear_arith)
            requires
                k <= 10923,
                plan.instance <= 1024,
        ;
    }
    let limit: usize = words.len();
    let at: usize = k * pitch;
    if mode != 0 {
        let to: usize = AT_BUMP_ARENA + (plan.cursor / 4) as usize + COMPACT_RUN_HEADER_WORDS + k
            * plan.instance;
        if mode == 3 {
            lay(&mut a.words, to, &a.compact_template, 0, plan.instance);
            lay(&mut a.words, to + plan.first, words, at + 4, plan.floats);
        } else {
            lay(&mut a.words, to, words, at + 4, plan.floats);
        }
    }
    lay(&mut a.words, AT_VS_CONSTANTS + plan.first, words, at + 4, plan.floats);
    let version: u32 = a.words[AT_VS_CONST_VERSION];
    a.words.set(AT_VS_CONST_VERSION, version.wrapping_add(1));
}

/// Records every pair of an accepted run.
fn record_pairs(
    a: &mut Arena,
    words: &Vec<u32>,
    plan: &Plan,
    mode: u32,
    stride: u32,
    cull: u32,
    Ghost(run): Ghost<Run>,
    Ghost(s): Ghost<ArenaView>,
)
    requires
        s.wf(),
        s.bump_cursor() % 4 == 0,
        run.accepted(s),
        run.w == words@,
        run.mode == mode,
        plan.of(run, s),
        old(a)@ == run.opened(s),
        old(a)@.wf(),
        old(a)@.bump_cursor() == s.bump_cursor() + run.compact_bytes(s),
        old(a)@.command_count() == s.command_count(),
        old(a)@.compact_template == s.compact_template,
        old(a)@.compact_template_words == s.compact_template_words,
        forall|i: int| 0 <= i < AT_CMD_TYPES ==> #[trigger] old(a)@.words[i] == s.words[i],
    ensures
        final(a)@ == run.recorded(s, run.pairs(), stride, cull),
        final(a)@.wf(),
{
    let mut done: usize = 0;
    let ghost bytes = arena::draw_state_bytes(s);
    while done < plan.pairs
        invariant
            s.wf(),
            run.accepted(s),
            run.w == words@,
            run.mode == mode,
            plan.of(run, s),
            done <= plan.pairs,
            bytes == arena::draw_state_bytes(s),
            bytes >= 0,
            a@.wf(),
            a@ == run.recorded(s, done as int, stride, cull),
            a@.compact_template == s.compact_template,
            a@.compact_template_words == s.compact_template_words,
            a@.bump_cursor() % 4 == 0,
            forall|i: int| 0 <= i < AT_VS_CONSTANTS ==> #[trigger] a@.words[i] == s.words[i],
            mode < 2 ==> {
                &&& a@.bump_cursor() <= s.bump_cursor() + run.compact_bytes(s) + done * bytes
                &&& a@.command_count() <= s.command_count() + 3 * done + (if done == 0 {
                    0int
                } else {
                    2
                })
                &&& done > 0 ==> a@.last_bound_stream == arena::stream_of(a@)
                &&& done > 0 ==> a@.last_bound_index == arena::index_of(a@)
            },
        decreases plan.pairs - done,
    {
        let ghost before = a@;
        let pitch: usize = 12 + plan.floats;
        proof {
            lemma_pair_frame(run, s, before, done as int);
            assert(run.pair_ok(done as int));
            assert(done * pitch + pitch <= plan.pairs * pitch) by (nonlinear_arith)
                requires
                    done + 1 <= plan.pairs,
                    pitch > 0,
            ;
            assert((done + 1) * bytes == done * bytes + bytes) by (nonlinear_arith);
            assert((done + 1) * bytes <= plan.pairs * bytes) by (nonlinear_arith)
                requires
                    done + 1 <= plan.pairs,
                    bytes >= 0,
            ;
        }
        upload_pair(a, words, plan, mode, done, Ghost(run), Ghost(s));
        let limit: usize = words.len();
        let d: usize = done * pitch + 4 + plan.floats;
        assert(d == run.draw_at(done as int));
        if mode < 2 {
            proof {
                assert(arena::draw_state_bytes(a@) == bytes);
                assert(arena::stream_of(a@) == arena::stream_of(before));
                assert(arena::index_of(a@) == arena::index_of(before));
                lemma_draw_succeeds(
                    a@,
                    stride,
                    cull,
                    arena::row(
                        CMD_DRAW_INDEXED,
                        run.index_count(done as int) as u32,
                        run.start_index(done as int),
                        run.base_vertex(done as int),
                        0,
                        0,
                    ),
                );
            }
            let _ = d3d9_record_draw_indexed(
                a,
                0,
                3 * words[d + 7],
                words[d + 6],
                words[d + 3],
                stride,
                cull,
            );
        }
        done = done + 1;
    }
}

/// Records a run of constant uploads and indexed draws that was read as `source` (`None`
/// where the guest memory could not be read): the number of pairs, or -1 where the run is
/// declined, which leaves everything but the last compact offset as it was.
pub fn d3d9_record_wbuf_indexed_run(
    a: &mut Arena,
    source: Option<&Vec<u8>>,
    guest_start: i32,
    byte_len: u32,
    vs_func_id: u32,
    draw_func_id: u32,
    expected_device: u32,
    stride: u32,
    force_cull_none: u32,
    compact_mode: u32,
    index_capacity: u32,
) -> (r: i32)
    requires
        old(a)@.wf(),
        old(a)@.bump_cursor() % 4 == 0,
        source is Some ==> source->0@.len() == byte_len,
    ensures
        final(a)@.wf(),
        ({
            let run = Run {
                w: words_of(source->0@),
                vs_func_id,
                draw_func_id,
                device: expected_device,
                mode: compact_mode,
                index_capacity,
            };
            (final(a)@, r) == after_run(
                run,
                old(a)@,
                source is Some,
                guest_start,
                byte_len,
                stride,
                force_cull_none,
            )
        }),
{
    a.last_wbuf_compact_offset = -1;
    if compact_mode > 3 || guest_start == 0 || byte_len == 0 || byte_len as u64
        > WBUF_RUN_CAP as u64 || byte_len % 4 != 0 || expected_device == 0 || stride == 0 {
        return -1;
    }
    let bytes: &Vec<u8> = match source {
        Some(b) => b,
        None => {
            return -1;
        },
    };
    let words: Vec<u32> = decode_words(bytes);
    let ghost run = Run {
        w: words@,
        vs_func_id,
        draw_func_id,
        device: expected_device,
        mode: compact_mode,
        index_capacity,
    };
    let ghost s = a@;
    match plan_run(
        a,
        &words,
        vs_func_id,
        draw_func_id,
        expected_device,
        compact_mode,
        index_capacity,
    ) {
        None => -1,
        Some(plan) => {
            open_run(a, &words, &plan, compact_mode, Ghost(run));
            record_pairs(
                a,
                &words,
                &plan,
                compact_mode,
                stride,
                force_cull_none,
                Ghost(run),
                Ghost(s),
            );
            a.last_wbuf_compact_offset = if compact_mode != 0 {
                plan.cursor as i32
            } else {
                -1
            };
            plan.pairs as i32
        },
    }
}

/// The arena after `bytes` are laid over the bump area at byte offset `offset`.
pub open spec fn with_bytes(s: ArenaView, offset: u32, bytes: Seq<u8>) -> ArenaView {
    let at = AT_BUMP_ARENA + offset as int / 4;
    s.with_words(at, packed(bytes, s.words.subrange(at, at + (bytes.len() + 3) / 4)))
}

/// Whether `len` bytes of guest memory from `guest` on are captured: nothing to do for a
/// null pointer or no bytes, else they must have been readable.
pub open spec fn capture_ok(guest: i32, len: u32, source: Option<&Vec<u8>>) -> bool {
    guest == 0 || len == 0 || source is Some
}

pub open spec fn captured(
    s: ArenaView,
    offset: u32,
    guest: i32,
    len: u32,
    source: Option<&Vec<u8>>,
) -> ArenaView {
    if guest != 0 && len != 0 && source is Some {
        with_bytes(s, offset, source->0@)
    } else {
        s
    }
}

/// Lays captured guest bytes over the bump area.
fn write_bytes(a: &mut Arena, offset: u32, bytes: &Vec<u8>)
    requires
        old(a)@.wf(),
        offset % 4 == 0,
        offset + arena::aligned_len(bytes@.len() as int) <= BUMP_CAP,
    ensures
        final(a)@ == with_bytes(old(a)@, offset, bytes@),
        final(a)@.wf(),
        forall|i: int|
            (0 <= i < AT_BUMP_ARENA || AT_BUMP_CURSOR <= i < ARENA_WORDS)
                ==> #[trigger] final(a)@.words[i] == old(a)@.words[i],
{
    let len: usize = bytes.len();
    let whole: usize = len / 4;
    let at: usize = AT_BUMP_ARENA + (offset / 4) as usize;
    let ghost before = a.words@.subrange(at as int, at + (len + 3) / 4);
    let ghost all = packed(bytes@, before);
    let mut k: usize = 0;
    while k < whole
        invariant
            len == bytes@.len(),
            whole == len / 4,
            k <= whole,
            old(a)@.wf(),
            at + (len + 3) / 4 <= AT_BUMP_CURSOR,
            before == old(a).words@.subrange(at as int, at + (len + 3) / 4),
            all == packed(bytes@, before),
            a@ == old(a)@.with_words(at as int, all.take(k as int)),
        decreases whole - k,
    {
        let i: usize = 4 * k;
        let v: u32 = bytes[i] as u32 + 256 * bytes[i + 1] as u32 + 65536 * bytes[i + 2] as u32
            + 16777216 * bytes[i + 3] as u32;
        assert(v == all[k as int]);
        a.words.set(at + k, v);
        k = k + 1;
        assert(a.words@ =~= arena::overwrite(old(a).words@, at as int, all.take(k as int)));
    }
    let rest: usize = len - 4 * whole;
    if rest != 0 {
        let i: usize = 4 * whole;
        let was: u32 = a.words[at + whole];
        assert(was == before[whole as int]);
        let b0: u32 = bytes[i] as u32;
        let b1: u32 = if rest > 1 {
            bytes[i + 1] as u32
        } else {
            was / 256 % 256
        };
        let b2: u32 = if rest > 2 {
            bytes[i + 2] as u32
        } else {
            was / 65536 % 256
        };
        let v: u32 = b0 + 256 * b1 + 65536 * b2 + 16777216 * (was / 16777216);
        assert(v == all[whole as int]);
        a.words.set(at + whole, v);
    }
    assert(a.words@ =~= arena::overwrite(old(a).words@, at as int, all));
}

/// Lays what was read from guest memory over the bump area; false where it could not be read.
fn copy_guest_bytes(a: &mut Arena, guest: i32, offset: u32, len: u32, source: Option<&Vec<u8>>) -> (
ok: bool)
    requires
        old(a)@.wf(),
        offset % 4 == 0,
        offset + arena::aligned_len(len as int) <= BUMP_CAP,
        source is Some ==> source->0@.len() == len,
    ensures
        ok == capture_ok(guest, len, source),
        final(a)@ == captured(old(a)@, offset, guest, len, source),
        final(a)@.wf(),
        forall|i: int|
            (0 <= i < AT_BUMP_ARENA || AT_BUMP_CURSOR <= i < ARENA_WORDS)
                ==> #[trigger] final(a)@.words[i] == old(a)@.words[i],
{
    if guest == 0 || len == 0 {
        return true;
    }
    match source {
        Some(bytes) => {
            write_bytes(a, offset, bytes);
            true
        },
        None => false,
    }
}

/// The arena after a draw from `byte_len` bytes of guest vertices, and its result.
pub open spec fn after_draw_up(
    s: ArenaView,
    source: Option<&Vec<u8>>,
    topology: u32,
    vertex_count: u32,
    guest: i32,
    stride: u32,
    byte_len: u32,
    force_cull_none: u32,
) -> (ArenaView, i64) {
    let s1 = arena::after_bump(s, byte_len as int);
    let s2 = captured(s1, s.bump_cursor(), guest, byte_len, source);
    if !arena::bump_fits(s, byte_len as int) || !capture_ok(guest, byte_len, source) {
        (s1, -1i64)
    } else {
        arena::after_draw(
            s2,
            topology,
            stride,
            force_cull_none,
            arena::row(CMD_DRAW_UP, vertex_count, s.bump_cursor(), byte_len, 0, 0),
            false,
        )
    }
}

/// Records a draw whose vertices are captured from guest memory, read as `source`: the
/// pipeline key, or -1 where the draw is declined.
pub fn d3d9_record_draw_up(
    a: &mut Arena,
    source: Option<&Vec<u8>>,
    topology: u32,
    vertex_count: u32,
    guest_vertex_ptr: i32,
    stride: u32,
    byte_len: u32,
    force_cull_none: u32,
) -> (r: i64)
    requires
        old(a)@.wf(),
        old(a)@.bump_cursor() % 4 == 0,
        source is Some ==> source->0@.len() == byte_len,
    ensures
        (final(a)@, r) == after_draw_up(
            old(a)@,
            source,
            topology,
            vertex_count,
            guest_vertex_ptr,
            stride,
            byte_len,
            force_cull_none,
        ),
        final(a)@.wf(),
{
    reveal(arena::after_draw);
    let offset: u32 = match bump_alloc(a, byte_len as u64) {
        Some(offset) => offset,
        None => {
            return -1;
        },
    };
    if !copy_guest_bytes(a, guest_vertex_ptr, offset, byte_len, source) {
        return -1;
    }
    match emit_draw_prelude(a, topology, stride, force_cull_none) {
        None => -1,
        Some(key) => {
            if push_command(a, CMD_DRAW_UP, vertex_count, offset, byte_len, key, 0) {
                key as i64
            } else {
                -1
            }
        },
    }
}

/// The arena after an indexed draw from guest vertices and indices, and its result.
pub open spec fn after_draw_indexed_up(
    s: ArenaView,
    indices: Option<&Vec<u8>>,
    vertices: Option<&Vec<u8>>,
    topology: u32,
    index_count: u32,
    index_ptr: i32,
    index_len: u32,
    index_is_16bit: u32,
    vertex_ptr: i32,
    stride: u32,
    vertex_len: u32,
    force_cull_none: u32,
) -> (ArenaView, i64) {
    let s1 = arena::after_bump(s, vertex_len as int);
    let s2 = captured(s1, s.bump_cursor(), vertex_ptr, vertex_len, vertices);
    let s3 = arena::after_bump(s2, index_len as int);
    let s4 = captured(s3, s2.bump_cursor(), index_ptr, index_len, indices);
    if !arena::bump_fits(s, vertex_len as int) || !capture_ok(vertex_ptr, vertex_len, vertices) {
        (s1, -1i64)
    } else if !arena::bump_fits(s2, index_len as int) || !capture_ok(index_ptr, index_len, indices) {
        (s3, -1i64)
    } else {
        arena::after_draw(
            s4,
            topology,
            stride,
            force_cull_none,
            arena::row(
                CMD_DRAW_INDEXED_UP,
                index_count,
                s.bump_cursor(),
                s2.bump_cursor(),
                index_len,
                (vertex_len << 1) | (index_is_16bit & 1),
            ),
            true,
        )
    }
}

/// Records an indexed draw whose vertices and indices are captured from guest memory.
pub fn d3d9_record_draw_indexed_up(
    a: &mut Arena,
    indices: Option<&Vec<u8>>,
    vertices: Option<&Vec<u8>>,
    topology: u32,
    index_count: u32,
    guest_index_ptr: i32,
    index_byte_len: u32,
    index_is_16bit: u32,
    guest_vertex_ptr: i32,
    stride: u32,
    vertex_byte_len: u32,
    force_cull_none: u32,
) -> (r: i64)
    requires
        old(a)@.wf(),
        old(a)@.bump_cursor() % 4 == 0,
        indices is Some ==> indices->0@.len() == index_byte_len,
        vertices is Some ==> vertices->0@.len() == vertex_byte_len,
    ensures
        (final(a)@, r) == after_draw_indexed_up(
            old(a)@,
            indices,
            vertices,
            topology,
            index_count,
            guest_index_ptr,
            index_byte_len,
            index_is_16bit,
            guest_vertex_ptr,
            stride,
            vertex_byte_len,
            force_cull_none,
        ),
        final(a)@.wf(),
{
    reveal(arena::after_draw);
    let vertex_offset: u32 = match bump_alloc(a, vertex_byte_len as u64) {
        Some(offset) => offset,
        None => {
            return -1;
        },
    };
    if !copy_guest_bytes(a, guest_vertex_ptr, vertex_offset, vertex_byte_len, vertices) {
        return -1;
    }
    let index_offset: u32 = match bump_alloc(a, index_byte_len as u64) {
        Some(offset) => offset,
        None => {
            return -1;
        },
    };
    if !copy_guest_bytes(a, guest_index_ptr, index_offset, index_byte_len, indices) {
        return -1;
    }
    match emit_draw_prelude(a, topology, stride, force_cull_none) {
        None => -1,
        Some(key) => {
            let packed_len: u32 = (vertex_byte_len << 1) | (index_is_16bit & 1);
            if push_command(
                a,
                CMD_DRAW_INDEXED_UP,
                index_count,
                vertex_offset,
                index_offset,
                index_byte_len,
                packed_len,
            ) {
                key as i64
            } else {
                -1
            }
        },
    }
}

} // verus!
