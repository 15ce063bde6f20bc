//! What tokens put on the ring: the guest reads the calls back, word by word.
use vstd::prelude::*;
use crate::eagl_batch_laws;
use crate::eagl_laws;
use crate::eagl_tokens;
use crate::eagl_tokens::{Progress, Setting, Tokens};
use crate::virtual_mem;
use crate::virtual_mem::Space;

verus! {

/// The address of the `i`-th word from an address on.
pub open spec fn word_at(at: i32, i: int) -> i32 {
    at.wrapping_add((i * 4) as i32)
}

/// The `n` words from an address on can be written, and no two of them share a byte.
pub open spec fn is_free(s: Space, at: i32, n: int) -> bool {
    &&& forall|i: int| 0 <= i < n ==> eagl_laws::can_write_word(s, #[trigger] word_at(at, i))
    &&& forall|i: int, j: int|
        0 <= i < n && 0 <= j < n && i != j ==> eagl_batch_laws::are_apart(
            s,
            #[trigger] word_at(at, i),
            #[trigger] word_at(at, j),
        )
}

/// A word shares no byte with the `n` words from an address on.
pub open spec fn is_clear_of(s: Space, cell: i32, at: i32, n: int) -> bool {
    forall|i: int|
        0 <= i < n ==> eagl_batch_laws::are_apart(s, #[trigger] word_at(at, i), cell)
}

proof fn lemma_put(s: Space, u: Space, at: i32, x: i32)
    requires
        s.wf(),
        virtual_mem::same_pages(s, u),
        eagl_laws::can_write_word(s, at),
    ensures
        u.with_word(at, x) is Some,
        virtual_mem::same_pages(s, u.with_word(at, x)->0),
        (u.with_word(at, x)->0).word(at) == Some(x),
        forall|cell: i32| #[trigger]
            eagl_batch_laws::are_apart(s, at, cell) ==> (u.with_word(at, x)->0).word(cell)
                == u.word(cell),
{
    assert(u.with_word(at, x) is Some) by {
        reveal(Space::with_word);
    }
    virtual_mem::law_a_written_word_reads_back(u, at, x);
    virtual_mem::lemma_pages_decide(u, u, at, x, x);
    assert forall|cell: i32| #[trigger] eagl_batch_laws::are_apart(s, at, cell) implies (u.with_word(
        at,
        x,
    )->0).word(cell) == u.word(cell) by {
        eagl_batch_laws::lemma_other_word(s, u, at, x, cell);
    }
}

/// Words that are written one after the other read back, and others are as they were.
proof fn lemma_written(s: Space, u: Space, at: i32, ws: Seq<i32>, i: int)
    requires
        s.wf(),
        virtual_mem::same_pages(s, u),
        is_free(s, at, ws.len() as int),
        0 <= i <= ws.len() <= 8,
    ensures
        ({
            let (t, ok) = eagl_tokens::words_written(u, at, ws, i);
            &&& ok
            &&& virtual_mem::same_pages(s, t)
            &&& forall|j: int| i <= j < ws.len() ==> t.word(#[trigger] word_at(at, j)) == Some(ws[j])
            &&& forall|j: int| 0 <= j < i ==> t.word(#[trigger] word_at(at, j)) == u.word(
                word_at(at, j),
            )
            &&& forall|cell: i32| #[trigger]
                is_clear_of(s, cell, at, ws.len() as int) ==> t.word(cell) == u.word(cell)
        }),
    decreases ws.len() - i,
{
    if i < ws.len() {
        let a = word_at(at, i);
        lemma_put(s, u, a, ws[i]);
        let v = u.with_word(a, ws[i])->0;
        lemma_written(s, v, at, ws, i + 1);
        let t = eagl_tokens::words_written(u, at, ws, i).0;
        assert(t == eagl_tokens::words_written(v, at, ws, i + 1).0);
        assert(t.word(word_at(at, i)) == v.word(word_at(at, i)));
        assert forall|j: int| 0 <= j < i implies t.word(#[trigger] word_at(at, j)) == u.word(
            word_at(at, j),
        ) by {
            assert(eagl_batch_laws::are_apart(s, word_at(at, i), word_at(at, j)));
        }
        assert forall|cell: i32| #[trigger]
            is_clear_of(s, cell, at, ws.len() as int) implies t.word(cell) == u.word(cell) by {
            assert(eagl_batch_laws::are_apart(s, word_at(at, i), cell));
        }
    }
}

/// What a token asks for, as the guest's memory holds it.
pub struct Asked {
    /// The node that the call names, and the one that it stands for.
    pub node: i32,
    pub n: i32,
    pub token: i32,
    /// What the token is: its class in the high byte, the number of the state below.
    pub desc: u32,
    pub stage: i32,
    pub value: i32,
    /// The device, its table of calls, the call there and its number.
    pub dev: i32,
    pub vt: i32,
    pub target: i32,
    pub fid: i32,
}

impl Asked {
    pub open spec fn class(self) -> u32 {
        self.desc / 0x100_0000
    }

    pub open spec fn number(self) -> i32 {
        (self.desc % 0x100_0000) as i32
    }

    /// Where the device's table holds the call: SetRenderState, SetTextureStageState and
    /// SetSamplerState.
    pub open spec fn slot(self) -> i32 {
        if self.class() == 1 {
            0xe4
        } else if self.class() == 2 {
            0x10c
        } else {
            0x114
        }
    }

    /// The number that the configuration expects of the call.
    pub open spec fn expected(self, c: Seq<i32>) -> i32 {
        if self.class() == 1 {
            c[5]
        } else if self.class() == 2 {
            c[11]
        } else {
            c[8]
        }
    }

    /// Where the value of the state is kept that is set already, where it is.
    pub open spec fn kept_at(self, c: Seq<i32>) -> Option<i32> {
        if self.class() == 1 && c[6] != 0 && self.number() < 256 {
            Some(word_at(c[6], self.number() as int))
        } else if self.class() == 8 && c[9] != 0 && 0 <= self.stage < 16 && self.number() < 16 {
            Some(word_at(c[9], self.stage * 16 + self.number()))
        } else {
            None
        }
    }

    /// The state is kept for this device.
    pub open spec fn is_kept(self, c: Seq<i32>, s: Space) -> bool {
        self.kept_at(c) is Some && c[4] != 0 && s.word(c[4]) == Some(self.dev)
    }

    /// The counter of the calls that were saved.
    pub open spec fn saved_at(self, c: Seq<i32>) -> i32 {
        if self.class() == 1 {
            c[7]
        } else {
            c[10]
        }
    }

    /// How many words the call has on the ring.
    pub open spec fn size(self) -> int {
        if self.class() == 1 {
            4
        } else {
            5
        }
    }

    /// The device sets states of this class by the call that the configuration expects.
    pub open spec fn is_set_by(self, c: Seq<i32>, s: Space) -> bool {
        &&& self.class() == 1 || self.class() == 2 || self.class() == 8
        &&& s.word(self.vt.wrapping_add(self.slot())) == Some(self.target)
        &&& s.byte(self.target as u32) == Some(0xb8u8)
        &&& s.word(self.target.wrapping_add(1)) == Some(self.fid)
        &&& self.fid == self.expected(c)
        &&& self.fid != 0
    }

    /// The call says so: its node and stage are on the stack, where -1 is the stage of the node,
    /// and a node whose token is -1 stands for another one.
    pub open spec fn is_asked(self, c: Seq<i32>, s: Space, esp: i32, ctx: i32) -> bool {
        let stage = s.word(esp.wrapping_add(8));
        let first = s.word(self.node);
        &&& s.word(esp.wrapping_add(4)) == Some(self.node)
        &&& self.node != 0
        &&& stage is Some
        &&& if stage == Some(-1i32) {
            s.word(self.node.wrapping_add(4)) == Some(self.stage)
        } else {
            stage == Some(self.stage)
        }
        &&& first is Some
        &&& if first == Some(-1i32) {
            s.word(self.node.wrapping_add(0x64)) == Some(self.n)
        } else {
            self.n == self.node
        }
        &&& s.word(self.n) == Some(self.token)
        &&& s.word(c[0].wrapping_add(self.token.wrapping_mul(0x1c))) == Some(self.desc as i32)
        &&& s.word(self.n.wrapping_add(0x68)) == Some(self.value)
        &&& s.word(ctx.wrapping_add(8)) == Some(self.dev)
        &&& s.word(self.dev) == Some(self.vt)
        &&& self.is_set_by(c, s)
    }

    /// The call stands on the ring from an address on: its number, the device, the stage where
    /// the class has one, the number of the state and its value.
    pub open spec fn stands_at(self, u: Space, at: i32) -> bool {
        &&& u.word(at) == Some(self.fid)
        &&& u.word(at.wrapping_add(4)) == Some(self.dev)
        &&& self.class() == 1 ==> {
            &&& u.word(at.wrapping_add(8)) == Some(self.number())
            &&& u.word(at.wrapping_add(12)) == Some(self.value)
        }
        &&& self.class() != 1 ==> {
            &&& u.word(at.wrapping_add(8)) == Some(self.stage)
            &&& u.word(at.wrapping_add(12)) == Some(self.number())
            &&& u.word(at.wrapping_add(16)) == Some(self.value)
        }
    }

    /// The place that the state is kept at can be written and shares no byte with the call.
    pub open spec fn keeps_apart(self, c: Seq<i32>, s: Space, at: i32) -> bool {
        self.is_kept(c, s) ==> {
            let cell = self.kept_at(c)->0;
            &&& cell != 0
            &&& eagl_laws::can_write_word(s, cell)
            &&& is_clear_of(s, cell, at, self.size())
        }
    }
}

/// The configuration was read and has not changed since.
pub open spec fn is_current(t: Tokens, s: Space, cfg: i32) -> bool {
    &&& t.wf()
    &&& cfg != 0
    &&& t.ptr == cfg
    &&& s.word(cfg) == Some(2i32) || s.word(cfg) == Some(3i32)
    &&& s.word(cfg.wrapping_add(0x38)) == Some(t.generation)
}

proof fn lemma_desc(q: Asked)
    ensures
        (q.desc as i32) as u32 == q.desc,
        0 <= q.number() < 0x100_0000,
{
    crate::codegen_value_laws::lemma_cast(q.desc);
}

/// What the dispatcher makes of a token of the three classes.
#[verifier::spinoff_prover]
proof fn lemma_dispatched(t: Tokens, s: Space, q: Asked, cfg: i32, esp: i32, ctx: i32)
    requires
        is_current(t, s, cfg),
        q.is_asked(t.words, s, esp, ctx),
    ensures
        ({
            let (_, u, r) = t.inner_loop(s, 132, cfg, esp, ctx);
            let (v, a, skipped) = eagl_tokens::simple(
                t.words,
                s,
                q.dev,
                q.vt,
                q.class(),
                q.number(),
                q.stage,
                q.n,
            );
            &&& u == v
            &&& r == a
            &&& t.inner_loop(s, 132, cfg, esp, ctx).0 == (Tokens {
                enter: t.enter.wrapping_add(1),
                handled: if a is Some {
                    t.handled.wrapping_add(1)
                } else {
                    t.handled
                },
                decline: if a is Some {
                    t.decline
                } else {
                    t.decline.wrapping_add(1)
                },
                skip: if skipped {
                    t.skip.wrapping_add(1)
                } else {
                    t.skip
                },
                ..t
            })
        }),
        eagl_tokens::stub(s, q.vt, q.slot(), q.expected(t.words)) == Some(q.fid),
{
    reveal(eagl_tokens::named);
    reveal(eagl_tokens::stub);
    lemma_desc(q);
}

/// A state that is not set yet goes to the ring: the guest reads back the number of the call, the
/// device, the stage where the class has one, the number of the state and its value, the end of
/// the ring moves behind them, and the state is kept as set. Nothing else in memory changes.
#[verifier::spinoff_prover]
pub proof fn law_states_reach_the_ring(
    t: Tokens,
    s: Space,
    q: Asked,
    head: i32,
    cfg: i32,
    esp: i32,
    ctx: i32,
)
    requires
        s.wf(),
        is_current(t, s, cfg),
        q.is_asked(t.words, s, esp, ctx),
        s.word(t.words[1]) == Some(head),
        0 <= head < t.words[3].wrapping_sub(36),
        is_free(s, t.words[2].wrapping_add(head), q.size()),
        eagl_laws::can_write_word(s, t.words[1]),
        is_clear_of(s, t.words[1], t.words[2].wrapping_add(head), q.size()),
        q.keeps_apart(t.words, s, t.words[2].wrapping_add(head)),
        q.kept_at(t.words) is Some && t.words[4] != 0 ==> s.word(t.words[4]) is Some,
        q.is_kept(t.words, s) ==> {
            &&& eagl_batch_laws::are_apart(s, t.words[1], q.kept_at(t.words)->0)
            &&& s.word(q.kept_at(t.words)->0) is Some
            &&& s.word(q.kept_at(t.words)->0) != Some(q.value)
        },
    ensures
        ({
            let c = t.words;
            let at = c[2].wrapping_add(head);
            let (after, u, r) = t.inner_loop(s, 132, cfg, esp, ctx);
            &&& r == Some(0i32)
            &&& q.stands_at(u, at)
            &&& u.word(c[1]) == Some(head.wrapping_add((4 * q.size()) as i32))
            &&& q.is_kept(c, s) ==> u.word(q.kept_at(c)->0) == Some(q.value)
            &&& virtual_mem::same_pages(s, u)
            &&& forall|cell: i32| #[trigger]
                is_clear_of(s, cell, at, q.size()) && eagl_batch_laws::are_apart(s, c[1], cell) && (
                q.is_kept(c, s) ==> eagl_batch_laws::are_apart(s, q.kept_at(c)->0, cell))
                    ==> u.word(cell) == s.word(cell)
            &&& after == (Tokens {
                enter: t.enter.wrapping_add(1),
                handled: t.handled.wrapping_add(1),
                ..t
            })
        }),
{
    reveal(eagl_tokens::simple);
    lemma_dispatched(t, s, q, cfg, esp, ctx);
    lemma_desc(q);
    let c = t.words;
    let at = c[2].wrapping_add(head);
    let e = eagl_tokens::setter(c, q.class(), q.number(), q.stage)->0;
    let call = eagl_tokens::state_call(q.fid, q.dev, e, q.stage, q.number(), q.value);
    assert(call.len() == q.size());
    lemma_written(s, s, at, call, 0);
    let (u, ok) = eagl_tokens::words_written(s, at, call, 0);
    assert(word_at(at, 0) == at && word_at(at, 1) == at.wrapping_add(4));
    assert(word_at(at, 2) == at.wrapping_add(8) && word_at(at, 3) == at.wrapping_add(12));
    assert(word_at(at, 4) == at.wrapping_add(16));
    assert(u.word(word_at(at, 0)) == Some(q.fid));
    assert(u.word(word_at(at, 1)) == Some(q.dev));
    assert(u.word(word_at(at, 2)) == Some(call[2]));
    assert(u.word(word_at(at, 3)) == Some(call[3]));
    if q.class() != 1 {
        assert(u.word(word_at(at, 4)) == Some(q.value));
    }
    assert(q.stands_at(u, at));
    let cell = eagl_tokens::shadow_cell(c, s, q.dev, e)->0;
    let x = if cell != 0 {
        u.with_word(cell, q.value)->0
    } else {
        u
    };
    if q.is_kept(c, s) {
        assert(cell == q.kept_at(c)->0);
        lemma_put(s, u, cell, q.value);
    }
    let end = head.wrapping_add((4 * q.size()) as i32);
    lemma_put(s, x, c[1], end);
    let y = x.with_word(c[1], end)->0;
    lemma_still_stands(s, q, u, x, at, cell, q.is_kept(c, s));
    lemma_still_stands(s, q, x, y, at, c[1], true);
    assert(eagl_tokens::simple(c, s, q.dev, q.vt, q.class(), q.number(), q.stage, q.n) == (
        y,
        Some(0i32),
        false,
    ));
    assert forall|cell: i32| #[trigger]
        is_clear_of(s, cell, at, q.size()) && eagl_batch_laws::are_apart(s, c[1], cell) && (
        q.is_kept(c, s) ==> eagl_batch_laws::are_apart(s, q.kept_at(c)->0, cell)) implies y.word(
        cell,
    ) == s.word(cell) by {
        assert(u.word(cell) == s.word(cell));
        assert(x.word(cell) == u.word(cell));
    }
}

/// A call on the ring is untouched by a word that is clear of it.
proof fn lemma_still_stands(
    s: Space,
    q: Asked,
    u: Space,
    v: Space,
    at: i32,
    cell: i32,
    changed: bool,
)
    requires
        q.stands_at(u, at),
        changed ==> is_clear_of(s, cell, at, q.size()),
        changed ==> forall|other: i32| #[trigger]
            eagl_batch_laws::are_apart(s, cell, other) ==> v.word(other) == u.word(other),
        !changed ==> v == u,
    ensures
        q.stands_at(v, at),
{
    if changed {
        assert(word_at(at, 0) == at && word_at(at, 1) == at.wrapping_add(4));
        assert(word_at(at, 2) == at.wrapping_add(8) && word_at(at, 3) == at.wrapping_add(12));
        assert(word_at(at, 4) == at.wrapping_add(16));
        assert forall|i: int| 0 <= i < q.size() implies v.word(#[trigger] word_at(at, i)) == u.word(
            word_at(at, i),
        ) by {
            assert(eagl_batch_laws::are_apart(s, word_at(at, i), cell));
            assert(eagl_batch_laws::are_apart(s, cell, word_at(at, i)));
        }
        assert(v.word(word_at(at, 0)) == u.word(word_at(at, 0)));
        assert(v.word(word_at(at, 1)) == u.word(word_at(at, 1)));
        assert(v.word(word_at(at, 2)) == u.word(word_at(at, 2)));
        assert(v.word(word_at(at, 3)) == u.word(word_at(at, 3)));
        if q.class() != 1 {
            assert(v.word(word_at(at, 4)) == u.word(word_at(at, 4)));
        }
    }
}

/// A state that is set already costs no call: the ring ends where it did, and all that changes in
/// memory is the counter of saved calls, where there is one, which goes up by one.
#[verifier::spinoff_prover]
pub proof fn law_states_that_are_set_cost_no_call(
    t: Tokens,
    s: Space,
    q: Asked,
    head: i32,
    cfg: i32,
    esp: i32,
    ctx: i32,
)
    requires
        s.wf(),
        is_current(t, s, cfg),
        q.is_asked(t.words, s, esp, ctx),
        s.word(t.words[1]) == Some(head),
        0 <= head < t.words[3].wrapping_sub(36),
        q.is_kept(t.words, s),
        s.word(q.kept_at(t.words)->0) == Some(q.value),
        q.saved_at(t.words) != 0 ==> {
            &&& s.word(q.saved_at(t.words)) is Some
            &&& eagl_laws::can_write_word(s, q.saved_at(t.words))
        },
    ensures
        ({
            let at = q.saved_at(t.words);
            let (after, u, r) = t.inner_loop(s, 132, cfg, esp, ctx);
            &&& r == Some(0i32)
            &&& at == 0 ==> u == s
            &&& at != 0 ==> u.word(at) == Some((s.word(at)->0).wrapping_add(1))
            &&& at != 0 ==> forall|cell: i32| #[trigger]
                eagl_batch_laws::are_apart(s, at, cell) ==> u.word(cell) == s.word(cell)
            &&& after == (Tokens {
                enter: t.enter.wrapping_add(1),
                handled: t.handled.wrapping_add(1),
                skip: t.skip.wrapping_add(1),
                ..t
            })
        }),
{
    reveal(eagl_tokens::simple);
    lemma_dispatched(t, s, q, cfg, esp, ctx);
    lemma_desc(q);
    let at = q.saved_at(t.words);
    if at != 0 {
        lemma_put(s, s, at, (s.word(at)->0).wrapping_add(1));
    }
}

/// Every word of the configuration is where the layer puts it, read in full whenever another
/// configuration, or another generation of it, is met; and the token of the call is then done
/// with it.
#[verifier::spinoff_prover]
pub proof fn law_configurations_are_read(
    t: Tokens,
    s: Space,
    cfg: i32,
    generation: i32,
    esp: i32,
    ctx: i32,
)
    requires
        t.wf(),
        cfg != 0,
        s.word(cfg) == Some(2i32) || s.word(cfg) == Some(3i32),
        s.word(cfg.wrapping_add(0x38)) == Some(generation),
        t.ptr != cfg || t.generation != generation,
        forall|i: int|
            1 <= i <= 12 || 15 <= i <= 20 ==> s.word(#[trigger] word_at(cfg, i)) is Some,
    ensures
        ({
            let (u, ok) = t.configured(s, cfg);
            &&& ok
            &&& is_current(u, s, cfg)
            // The table of tokens; the ring: the word of its end, its start and its size; the
            // device that the states are kept for.
            &&& s.word(cfg.wrapping_add(0x04)) == Some(u.words[0])
            &&& s.word(cfg.wrapping_add(0x08)) == Some(u.words[1])
            &&& s.word(cfg.wrapping_add(0x0c)) == Some(u.words[2])
            &&& s.word(cfg.wrapping_add(0x10)) == Some(u.words[3])
            &&& s.word(cfg.wrapping_add(0x14)) == Some(u.words[4])
            // Render states and sampler states: the call, the states that are set, the calls
            // that were saved. Texture stage states: the call.
            &&& s.word(cfg.wrapping_add(0x18)) == Some(u.words[5])
            &&& s.word(cfg.wrapping_add(0x1c)) == Some(u.words[6])
            &&& s.word(cfg.wrapping_add(0x20)) == Some(u.words[7])
            &&& s.word(cfg.wrapping_add(0x24)) == Some(u.words[8])
            &&& s.word(cfg.wrapping_add(0x28)) == Some(u.words[9])
            &&& s.word(cfg.wrapping_add(0x2c)) == Some(u.words[10])
            &&& s.word(cfg.wrapping_add(0x30)) == Some(u.words[11])
            // The calls of batches: formats, programs, constants and textures.
            &&& s.word(cfg.wrapping_add(0x3c)) == Some(u.words[12])
            &&& s.word(cfg.wrapping_add(0x40)) == Some(u.words[13])
            &&& s.word(cfg.wrapping_add(0x44)) == Some(u.words[14])
            &&& s.word(cfg.wrapping_add(0x48)) == Some(u.words[15])
            &&& s.word(cfg.wrapping_add(0x4c)) == Some(u.words[16])
            &&& s.word(cfg.wrapping_add(0x50)) == Some(u.words[17])
            &&& t.inner_loop(s, 132, cfg, esp, ctx) == u.inner_loop(s, 132, cfg, esp, ctx)
        }),
{
    lemma_config(t.words, s, cfg, 0);
    let (words, ok) = eagl_tokens::words_read(t.words, s, cfg, 0);
    assert forall|i: int| 0 <= i < 18 implies s.word(
        cfg.wrapping_add(eagl_tokens::config_offset(i) as i32),
    ) == Some(#[trigger] words[i]) by {
        assert(config_word(s, cfg, i) == Some(words[i]));
    }
    let (u, _) = t.configured(s, cfg);
    assert(u.words == words);
    assert(s.word(cfg.wrapping_add(0x04)) == Some(words[0]));
    assert(s.word(cfg.wrapping_add(0x50)) == Some(words[17]));
    let e = Tokens { enter: t.enter.wrapping_add(1), ..t };
    let f = Tokens { enter: u.enter.wrapping_add(1), ..u };
    assert(e.configured(s, cfg) == f.configured(s, cfg));
}

/// A word of the configuration.
spec fn config_word(s: Space, cfg: i32, i: int) -> Option<i32> {
    s.word(cfg.wrapping_add(eagl_tokens::config_offset(i) as i32))
}

proof fn lemma_config(words: Seq<i32>, s: Space, cfg: i32, i: int)
    requires
        words.len() == 18,
        0 <= i <= 18,
        forall|k: int|
            1 <= k <= 12 || 15 <= k <= 20 ==> s.word(#[trigger] word_at(cfg, k)) is Some,
        forall|k: int| 0 <= k < i ==> #[trigger] config_word(s, cfg, k) == Some(words[k]),
    ensures
        ({
            let (r, ok) = eagl_tokens::words_read(words, s, cfg, i);
            &&& ok
            &&& r.len() == 18
            &&& forall|k: int| 0 <= k < 18 ==> #[trigger] config_word(s, cfg, k) == Some(r[k])
        }),
    decreases 18 - i,
{
    if i < 18 {
        let k = if i < 12 {
            i + 1
        } else {
            i + 3
        };
        assert(s.word(word_at(cfg, k)) is Some);
        assert(word_at(cfg, k) == cfg.wrapping_add(eagl_tokens::config_offset(i) as i32));
        let v = config_word(s, cfg, i)->0;
        lemma_config(words.update(i, v), s, cfg, i + 1);
    }
}

/// A slot of the device's table leads to code that loads the number of a call.
pub open spec fn calls(s: Space, vt: i32, slot: i32, target: i32, fid: i32) -> bool {
    &&& s.word(vt.wrapping_add(slot)) == Some(target)
    &&& s.byte(target as u32) == Some(0xb8u8)
    &&& s.word(target.wrapping_add(1)) == Some(fid)
    &&& fid != 0
}

/// The words from an address on are these.
pub open spec fn reads(u: Space, at: i32, ws: Seq<i32>) -> bool {
    forall|i: int| 0 <= i < ws.len() ==> u.word(#[trigger] word_at(at, i)) == Some(ws[i])
}

/// Nothing but the `n` words from an address on has changed.
pub open spec fn only_changes(s: Space, u: Space, at: i32, n: int) -> bool {
    &&& virtual_mem::same_pages(s, u)
    &&& forall|cell: i32| #[trigger] is_clear_of(s, cell, at, n) ==> u.word(cell) == s.word(cell)
}

/// The pass has gone on by so many words.
pub open spec fn is_past(p: Progress, q: Progress, n: int) -> bool {
    q == (Progress { head: p.head.wrapping_add((4 * n) as i32), ..p })
}

proof fn lemma_appended(e: Setting, s: Space, p: Progress, call: Seq<i32>)
    requires
        s.wf(),
        p.commit,
        call.len() <= 8,
        is_free(s, e.words[2].wrapping_add(p.head), call.len() as int),
    ensures
        ({
            let at = e.words[2].wrapping_add(p.head);
            let (u, q, ok) = eagl_tokens::appended(e, s, p, call);
            &&& ok
            &&& reads(u, at, call)
            &&& only_changes(s, u, at, call.len() as int)
            &&& is_past(p, q, call.len() as int)
        }),
{
    lemma_written(s, s, e.words[2].wrapping_add(p.head), call, 0);
}

/// A state that a batch sets, and that is not set yet, goes to the ring as one outside a batch
/// does.
#[verifier::spinoff_prover]
pub proof fn law_states_of_batches_reach_the_ring(e: Setting, s: Space, p: Progress, q: Asked)
    requires
        s.wf(),
        e.wf(),
        p.commit,
        q.dev == e.dev,
        q.vt == e.vt,
        q.is_set_by(e.words, s),
        is_free(s, e.words[2].wrapping_add(p.head), q.size()),
        q.keeps_apart(e.words, s, e.words[2].wrapping_add(p.head)),
        q.kept_at(e.words) is Some && e.words[4] != 0 ==> s.word(e.words[4]) is Some,
        q.is_kept(e.words, s) ==> {
            &&& s.word(q.kept_at(e.words)->0) is Some
            &&& s.word(q.kept_at(e.words)->0) != Some(q.value)
        },
    ensures
        ({
            let at = e.words[2].wrapping_add(p.head);
            let (u, r, ok) = eagl_tokens::state_set(
                e,
                s,
                p,
                q.class(),
                q.number(),
                q.stage,
                q.value,
            );
            &&& ok
            &&& q.stands_at(u, at)
            &&& is_past(p, r, q.size())
            &&& virtual_mem::same_pages(s, u)
            &&& q.is_kept(e.words, s) ==> u.word(q.kept_at(e.words)->0) == Some(q.value)
            &&& !q.is_kept(e.words, s) ==> only_changes(s, u, at, q.size())
        }),
{
    reveal(eagl_tokens::state_set);
    reveal(eagl_tokens::stub);
    lemma_desc(q);
    let c = e.words;
    let at = c[2].wrapping_add(p.head);
    let t = eagl_tokens::setter(c, q.class(), q.number(), q.stage)->0;
    let call = eagl_tokens::state_call(q.fid, q.dev, t, q.stage, q.number(), q.value);
    lemma_written(s, s, at, call, 0);
    let u = eagl_tokens::words_written(s, at, call, 0).0;
    assert(word_at(at, 0) == at && word_at(at, 1) == at.wrapping_add(4));
    assert(word_at(at, 2) == at.wrapping_add(8) && word_at(at, 3) == at.wrapping_add(12));
    assert(word_at(at, 4) == at.wrapping_add(16));
    assert(u.word(word_at(at, 0)) == Some(call[0]) && u.word(word_at(at, 1)) == Some(call[1]));
    assert(u.word(word_at(at, 2)) == Some(call[2]) && u.word(word_at(at, 3)) == Some(call[3]));
    if q.class() != 1 {
        assert(u.word(word_at(at, 4)) == Some(call[4]));
    }
    let cell = eagl_tokens::shadow_cell(c, s, q.dev, t)->0;
    if q.is_kept(c, s) {
        assert(cell == q.kept_at(c)->0);
        lemma_put(s, u, cell, q.value);
        lemma_still_stands(s, q, u, u.with_word(cell, q.value)->0, at, cell, true);
    }
}

/// A vertex format that a batch sets goes to the ring: the number of the call, the device and
/// the format of the node, or format 2 in the mode that ignores it.
pub proof fn law_formats_reach_the_ring(
    e: Setting,
    s: Space,
    p: Progress,
    nested: bool,
    step: eagl_tokens::Step,
    n: i32,
    stage: i32,
    target: i32,
    v: i32,
)
    requires
        s.wf(),
        e.wf(),
        p.commit,
        e.mode != 2,
        s.word(n.wrapping_add(0x68)) == Some(v),
        calls(s, e.vt, 0x164, target, e.words[12]),
        is_free(s, e.words[2].wrapping_add(p.head), 3),
    ensures
        ({
            let at = e.words[2].wrapping_add(p.head);
            let (u, q, r) = eagl_tokens::program_done(
                e,
                s,
                p,
                nested,
                step,
                n,
                0x600_0008,
                stage,
            );
            &&& r == Some(0i32)
            &&& u.word(at) == Some(e.words[12])
            &&& u.word(at.wrapping_add(4)) == Some(e.dev)
            &&& u.word(at.wrapping_add(8)) == Some(
                if e.mode == 1 {
                    2
                } else {
                    v
                },
            )
            &&& only_changes(s, u, at, 3)
            &&& is_past(p, q, 3)
        }),
{
    reveal(eagl_tokens::program_done);
    reveal(eagl_tokens::stub);
    let at = e.words[2].wrapping_add(p.head);
    let call = seq![
        e.words[12],
        e.dev,
        if e.mode == 1 {
            2
        } else {
            v
        },
    ];
    lemma_appended(e, s, p, call);
    let u = eagl_tokens::appended(e, s, p, call).0;
    assert(u.word(word_at(at, 0)) == Some(call[0]));
    assert(u.word(word_at(at, 1)) == Some(call[1]));
    assert(u.word(word_at(at, 2)) == Some(call[2]));
}

/// How a node names a resource: by the tables of the context.
pub struct Named {
    pub table: i32,
    pub id: i32,
    pub entry: i32,
    pub list: i32,
    pub first: i32,
    pub more: i32,
    pub inner: i32,
    pub off: i32,
    pub k: i32,
    pub places: i32,
    pub index: i32,
    pub base: i32,
}

impl Named {
    /// The record of the resource.
    pub open spec fn record(self) -> i32 {
        self.index.wrapping_mul(0x1c).wrapping_add(self.base)
    }

    /// The node's entry in the first table tells where its index stands: at once, or as a place
    /// in a list.
    pub open spec fn is_named(self, s: Space, ctx: i32, n: i32) -> bool {
        let at = self.first.wrapping_add(self.more).wrapping_add(self.off);
        &&& s.word(ctx.wrapping_add(0x8c)) == Some(self.table)
        &&& s.word(n.wrapping_add(0xc)) == Some(self.id)
        &&& s.word(self.table.wrapping_add(self.id.wrapping_mul(4))) == Some(self.entry)
        &&& s.word(self.entry.wrapping_add(0x38)) == Some(self.list)
        &&& s.word(self.entry.wrapping_add(0x28)) == Some(self.first)
        &&& s.word(n.wrapping_add(0x14)) == Some(self.more)
        &&& if self.list == 0 {
            &&& s.word(ctx.wrapping_add(0x2c)) == Some(self.off)
            &&& s.word(at) == Some(self.index)
        } else {
            &&& s.word(ctx.wrapping_add(0xc)) == Some(self.inner)
            &&& s.word(self.inner.wrapping_add(8)) == Some(self.off)
            &&& s.word(at) == Some(self.k)
            &&& s.word(self.list.wrapping_add(8)) == Some(self.places)
            &&& s.word(self.places.wrapping_add(self.k.wrapping_mul(4))) == Some(self.index)
        }
        &&& s.word(ctx.wrapping_add(0x24)) == Some(self.base)
    }
}

/// A texture that a batch binds goes to the ring: the number of the call, the device, the stage
/// and the texture of the node's record.
pub proof fn law_textures_reach_the_ring(
    e: Setting,
    s: Space,
    p: Progress,
    w: Named,
    n: i32,
    stage: i32,
    target: i32,
    v: i32,
)
    requires
        s.wf(),
        e.wf(),
        p.commit,
        e.mode != 2,
        w.is_named(s, e.ctx, n),
        s.word(w.record().wrapping_add(4)) == Some(v),
        calls(s, e.vt, 0x104, target, e.words[17]),
        is_free(s, e.words[2].wrapping_add(p.head), 4),
    ensures
        ({
            let at = e.words[2].wrapping_add(p.head);
            let (u, q, r) = eagl_tokens::texture_set(e, s, p, n, stage);
            &&& r == Some(0i32)
            &&& u.word(at) == Some(e.words[17])
            &&& u.word(at.wrapping_add(4)) == Some(e.dev)
            &&& u.word(at.wrapping_add(8)) == Some(stage)
            &&& u.word(at.wrapping_add(12)) == Some(v)
            &&& only_changes(s, u, at, 4)
            &&& is_past(p, q, 4)
        }),
{
    reveal(eagl_tokens::texture_set);
    reveal(eagl_tokens::record);
    reveal(eagl_tokens::stub);
    let at = e.words[2].wrapping_add(p.head);
    let call = seq![e.words[17], e.dev, stage, v];
    lemma_appended(e, s, p, call);
    let u = eagl_tokens::appended(e, s, p, call).0;
    assert(u.word(word_at(at, 0)) == Some(call[0]));
    assert(u.word(word_at(at, 1)) == Some(call[1]));
    assert(u.word(word_at(at, 2)) == Some(call[2]));
    assert(u.word(word_at(at, 3)) == Some(call[3]));
}

/// A program that a batch binds, and that brings no constants, goes to the ring: the number of
/// the call, the device and the program of the node's record. A record without a program fails.
pub proof fn law_programs_reach_the_ring(
    e: Setting,
    s: Space,
    p: Progress,
    nested: bool,
    step: eagl_tokens::Step,
    w: Named,
    n: i32,
    stage: i32,
    pixel: bool,
    target: i32,
    bound: i32,
    v: i32,
)
    requires
        s.wf(),
        e.wf(),
        p.commit,
        e.mode != 1 && e.mode != 2,
        w.is_named(s, e.ctx, n),
        s.word(w.record().wrapping_add(0xc)) == Some(bound),
        s.word(w.record().wrapping_add(4)) == Some(v),
        calls(
            s,
            e.vt,
            if pixel {
                0x1ac
            } else {
                0x170
            },
            target,
            if pixel {
                e.words[14]
            } else {
                e.words[13]
            },
        ),
        is_free(s, e.words[2].wrapping_add(p.head), 3),
        s.word(w.record().wrapping_add(0x14)) == Some(0i32),
        is_clear_of(s, w.record().wrapping_add(0x14), e.words[2].wrapping_add(p.head), 3),
    ensures
        ({
            let at = e.words[2].wrapping_add(p.head);
            let desc = if pixel {
                0x600_0001
            } else {
                0x600_0000
            };
            let (u, q, r) = eagl_tokens::program_done(e, s, p, nested, step, n, desc, stage);
            &&& bound == 0 ==> r == Some(-2147467259i32) && u == s && q == p
            &&& bound != 0 ==> {
                &&& r == Some(0i32)
                &&& u.word(at) == Some(
                    if pixel {
                        e.words[14]
                    } else {
                        e.words[13]
                    },
                )
                &&& u.word(at.wrapping_add(4)) == Some(e.dev)
                &&& u.word(at.wrapping_add(8)) == Some(v)
                &&& only_changes(s, u, at, 3)
                &&& is_past(p, q, 3)
            }
        }),
{
    reveal(eagl_tokens::program_done);
    reveal(eagl_tokens::bound);
    reveal(eagl_tokens::record);
    reveal(eagl_tokens::stub);
    let at = e.words[2].wrapping_add(p.head);
    let fid = if pixel {
        e.words[14]
    } else {
        e.words[13]
    };
    let call = seq![fid, e.dev, v];
    lemma_appended(e, s, p, call);
    let u = eagl_tokens::appended(e, s, p, call).0;
    assert(u.word(word_at(at, 0)) == Some(call[0]));
    assert(u.word(word_at(at, 1)) == Some(call[1]));
    assert(u.word(word_at(at, 2)) == Some(call[2]));
}

/// The words from `from` on are clear of those from `at` on.
pub open spec fn is_clear_source(s: Space, from: i32, count: int, at: i32, n: int) -> bool {
    forall|i: int| 0 <= i < count ==> is_clear_of(s, #[trigger] word_at(from, i), at, n)
}

/// Words that are copied read back, and others are as they were. The first four words from `at`
/// on stand before the copy.
proof fn lemma_copied(s: Space, u: Space, from: i32, at: i32, i: int, n: int)
    requires
        s.wf(),
        virtual_mem::same_pages(s, u),
        0 <= i <= n <= 1024,
        is_free(s, at, n + 4),
        is_clear_source(s, from, n, at, n + 4),
        forall|k: int| 0 <= k < n ==> u.word(#[trigger] word_at(from, k)) is Some,
    ensures
        ({
            let (t, ok) = eagl_tokens::payload(u, from, at.wrapping_add(16), i, n);
            &&& ok
            &&& virtual_mem::same_pages(s, t)
            &&& forall|k: int| i + 4 <= k < n + 4 ==> t.word(#[trigger] word_at(at, k)) == u.word(
                word_at(from, k - 4),
            )
            &&& forall|k: int| 0 <= k < i + 4 ==> t.word(#[trigger] word_at(at, k)) == u.word(
                word_at(at, k),
            )
            &&& forall|cell: i32| #[trigger]
                is_clear_of(s, cell, at, n + 4) ==> t.word(cell) == u.word(cell)
        }),
    decreases n - i,
{
    if i < n {
        let a = word_at(at, i + 4);
        assert(a == at.wrapping_add(16).wrapping_add((i * 4) as i32));
        let x = u.word(word_at(from, i))->0;
        lemma_put(s, u, a, x);
        let v = u.with_word(a, x)->0;
        assert forall|k: int| 0 <= k < n implies v.word(#[trigger] word_at(from, k)) == u.word(
            word_at(from, k),
        ) by {
            assert(is_clear_of(s, word_at(from, k), at, n + 4));
            assert(eagl_batch_laws::are_apart(s, word_at(at, i + 4), word_at(from, k)));
        }
        lemma_copied(s, v, from, at, i + 1, n);
        let t = eagl_tokens::payload(u, from, at.wrapping_add(16), i, n).0;
        assert(t == eagl_tokens::payload(v, from, at.wrapping_add(16), i + 1, n).0);
        assert(t.word(word_at(at, i + 4)) == v.word(word_at(at, i + 4)));
        assert forall|k: int| 0 <= k < i + 4 implies t.word(#[trigger] word_at(at, k)) == u.word(
            word_at(at, k),
        ) by {
            assert(eagl_batch_laws::are_apart(s, word_at(at, i + 4), word_at(at, k)));
        }
        assert forall|cell: i32| #[trigger] is_clear_of(s, cell, at, n + 4) implies t.word(cell)
            == u.word(cell) by {
            assert(eagl_batch_laws::are_apart(s, word_at(at, i + 4), cell));
        }
    }
}

/// Constants that a batch sets go to the ring: the number of the call for pixel or vertex
/// programs, the device, the first register, how many registers, and then their words as they
/// stand at the source.
#[verifier::spinoff_prover]
pub proof fn law_constants_reach_the_ring(
    e: Setting,
    s: Space,
    p: Progress,
    pixel: bool,
    start: i32,
    src: i32,
    n: i32,
    target: i32,
)
    requires
        s.wf(),
        e.wf(),
        p.commit,
        0 < n <= 256,
        calls(
            s,
            e.vt,
            if pixel {
                0x1b4
            } else {
                0x178
            },
            target,
            if pixel {
                e.words[16]
            } else {
                e.words[15]
            },
        ),
        is_free(s, e.words[2].wrapping_add(p.head), 4 + 4 * n),
        is_clear_source(s, src, 4 * n, e.words[2].wrapping_add(p.head), 4 + 4 * n),
        forall|i: int| 0 <= i < 4 * n ==> s.word(#[trigger] word_at(src, i)) is Some,
    ensures
        ({
            let at = e.words[2].wrapping_add(p.head);
            let (u, q, ok) = eagl_tokens::constants_set(e, s, p, pixel, start, src, n);
            &&& ok
            &&& u.word(at) == Some(
                if pixel {
                    e.words[16]
                } else {
                    e.words[15]
                },
            )
            &&& u.word(at.wrapping_add(4)) == Some(e.dev)
            &&& u.word(at.wrapping_add(8)) == Some(start)
            &&& u.word(at.wrapping_add(12)) == Some(n)
            &&& forall|i: int|
                4 <= i < 4 + 4 * n ==> u.word(#[trigger] word_at(at, i)) == s.word(
                    word_at(src, i - 4),
                )
            &&& only_changes(s, u, at, 4 + 4 * n)
            &&& is_past(p, q, 4 + 4 * n)
        }),
{
    reveal(eagl_tokens::constants_set);
    reveal(eagl_tokens::stub);
    let at = e.words[2].wrapping_add(p.head);
    let fid = if pixel {
        e.words[16]
    } else {
        e.words[15]
    };
    let call = seq![fid, e.dev, start, n];
    lemma_written(s, s, at, call, 0);
    let t = eagl_tokens::words_written(s, at, call, 0).0;
    assert forall|cell: i32| #[trigger] is_clear_of(s, cell, at, 4 + 4 * n) implies t.word(cell)
        == s.word(cell) by {
        assert(is_clear_of(s, cell, at, 4));
    }
    assert forall|k: int| 0 <= k < 4 * n implies t.word(#[trigger] word_at(src, k)) == s.word(
        word_at(src, k),
    ) by {
        assert(is_clear_of(s, word_at(src, k), at, 4 + 4 * n));
    }
    lemma_copied(s, t, src, at, 0, 4 * n);
    let u = eagl_tokens::payload(t, src, at.wrapping_add(16), 0, 4 * n).0;
    assert(word_at(at, 0) == at && word_at(at, 1) == at.wrapping_add(4));
    assert(word_at(at, 2) == at.wrapping_add(8) && word_at(at, 3) == at.wrapping_add(12));
    assert(u.word(word_at(at, 0)) == Some(call[0]) && u.word(word_at(at, 1)) == Some(call[1]));
    assert(u.word(word_at(at, 2)) == Some(call[2]) && u.word(word_at(at, 3)) == Some(call[3]));
    assert(eagl_tokens::constants_set(e, s, p, pixel, start, src, n) == (
        u,
        p.past((16 + n * 16) as i32),
        true,
    ));
    assert forall|i: int| 4 <= i < 4 + 4 * n implies u.word(#[trigger] word_at(at, i)) == s.word(
        word_at(src, i - 4),
    ) by {
        assert(u.word(word_at(at, i)) == t.word(word_at(src, i - 4)));
    }
    assert forall|cell: i32| #[trigger] is_clear_of(s, cell, at, 4 + 4 * n) implies u.word(cell)
        == s.word(cell) by {
        assert(is_clear_of(s, cell, at, 4 * n + 4));
    }
}

} // verus!
