//! State tokens of a guest graphics layer: what a token sets on the device is appended to a
//! ring of calls, unless a shadow of the device's state shows that it is set already. Tokens
//! of shader programs are done in batches, in two passes over the same steps: the first only
//! reads and counts, the second writes.
use vstd::prelude::*;
use crate::eagl_apply::{
    handle_eagl_apply_packed, handle_eagl_apply_reg_float, handle_eagl_apply_reg_int,
    handle_eagl_shader_const_convert, ApplyFamily, ApplyLayout,
};
use crate::virtual_mem;
use crate::virtual_mem::{Space, VirtualMemory};

verus! {

/// The words of a configuration, by number.
pub const TOKEN_TABLE: usize = 0;

pub const RING_CTRL: usize = 1;

pub const RING_BASE: usize = 2;

pub const CAPACITY: usize = 3;

pub const OWNER_GLOBAL: usize = 4;

pub const SRS_FID: usize = 5;

pub const SRS_SHADOW: usize = 6;

pub const SRS_SKIP: usize = 7;

pub const SAMP_FID: usize = 8;

pub const SAMP_SHADOW: usize = 9;

pub const SAMP_SKIP: usize = 10;

pub const TSS_FID: usize = 11;

pub const FVF_FID: usize = 12;

pub const SVS_FID: usize = 13;

pub const SPS_FID: usize = 14;

pub const VSCF_FID: usize = 15;

pub const PSCF_FID: usize = 16;

pub const TEX_FID: usize = 17;

pub const CONFIG_WORDS: usize = 18;

/// The numbers of device calls in the device's table.
pub const VT_SET_TEXTURE: i32 = 0x104;

pub const VT_SET_FVF: i32 = 0x164;

pub const VT_SET_VERTEX_SHADER: i32 = 0x170;

pub const VT_SET_VS_CONST_F: i32 = 0x178;

pub const VT_SET_PIXEL_SHADER: i32 = 0x1ac;

pub const VT_SET_PS_CONST_F: i32 = 0x1b4;

/// What a program that is not bound gives.
pub const EAGL_E_FAIL: i32 = -2147467259;

/// A state that has no place in a table.
pub const NO_PLACE: i32 = -1;

/// Cells that a first pass remembers.
pub const MODEL_CELLS: usize = 64;

/// What tokens are done with: the configuration, the layer's context and its mode, the device
/// and its table of calls.
pub struct Setting {
    pub words: Seq<i32>,
    pub ctx: i32,
    pub mode: i32,
    pub dev: i32,
    pub vt: i32,
}

/// How far a pass has come: where the ring ends for it, and what the first pass would have
/// written.
#[verifier::ext_equal]
pub struct Progress {
    pub commit: bool,
    pub head: i32,
    pub model: Seq<(i32, i32)>,
    pub overflow: bool,
}

/// A pass over a batch.
pub struct EaglPass {
    pub commit: bool,
    pub head: i32,
    pub model: Vec<(i32, i32)>,
    pub overflow: bool,
}

impl View for EaglPass {
    type V = Progress;

    open spec fn view(&self) -> Progress {
        Progress {
            commit: self.commit,
            head: self.head,
            model: self.model@,
            overflow: self.overflow,
        }
    }
}

/// The first place of a cell among those from the `i`-th on, the length where there is none.
pub open spec fn place_of(cells: Seq<(i32, i32)>, addr: i32, i: int) -> int
    decreases cells.len() - i,
{
    if i >= cells.len() {
        cells.len() as int
    } else if cells[i].0 == addr {
        i
    } else {
        place_of(cells, addr, i + 1)
    }
}

impl Progress {
    pub open spec fn start(commit: bool, head: i32) -> Progress {
        Progress { commit, head, model: Seq::empty(), overflow: false }
    }

    /// What a cell would hold.
    pub open spec fn modelled(self, addr: i32) -> Option<i32> {
        let k = place_of(self.model, addr, 0);
        if k < self.model.len() {
            Some(self.model[k].1)
        } else {
            None
        }
    }

    /// With a cell written.
    pub open spec fn put(self, addr: i32, v: i32) -> Progress {
        let k = place_of(self.model, addr, 0);
        if k < self.model.len() {
            Progress { model: self.model.update(k, (addr, v)), ..self }
        } else if self.model.len() < MODEL_CELLS {
            Progress { model: self.model.push((addr, v)), ..self }
        } else {
            Progress { overflow: true, ..self }
        }
    }

    /// Further on the ring.
    pub open spec fn past(self, n: i32) -> Progress {
        Progress { head: self.head.wrapping_add(n), ..self }
    }
}

impl EaglPass {
    pub fn new(commit: bool, head: i32) -> (r: EaglPass)
        ensures
            r@ == Progress::start(commit, head),
    {
        let r = EaglPass { commit, head, model: Vec::new(), overflow: false };
        assert(r@ =~= Progress::start(commit, head));
        r
    }

    fn find(&self, addr: i32) -> (r: usize)
        ensures
            r == place_of(self@.model, addr, 0),
            r <= self@.model.len(),
            r < self@.model.len() ==> self@.model[r as int].0 == addr,
    {
        let n: usize = self.model.len();
        let mut i: usize = 0;
        while i < n
            invariant
                i <= n == self@.model.len(),
                place_of(self@.model, addr, i as int) == place_of(self@.model, addr, 0),
            decreases n - i,
        {
            if self.model[i].0 == addr {
                return i;
            }
            i = i + 1;
        }
        i
    }

    pub fn model_get(&self, addr: i32) -> (r: Option<i32>)
        ensures
            r == self@.modelled(addr),
    {
        let k: usize = self.find(addr);
        if k < self.model.len() {
            Some(self.model[k].1)
        } else {
            None
        }
    }

    pub fn model_put(&mut self, addr: i32, v: i32)
        ensures
            final(self)@ == old(self)@.put(addr, v),
    {
        let k: usize = self.find(addr);
        if k < self.model.len() {
            self.model.set(k, (addr, v));
        } else if self.model.len() < MODEL_CELLS {
            self.model.push((addr, v));
        } else {
            self.overflow = true;
        }
        assert(self@ =~= old(self)@.put(addr, v));
    }

    fn pass(&mut self, n: i32)
        ensures
            final(self)@ == old(self)@.past(n),
    {
        self.head = self.head.wrapping_add(n);
        assert(self@ =~= old(self)@.past(n));
    }
}

/// Words written one after the other from the `i`-th on; whether all could be.
pub open spec fn words_written(s: Space, at: i32, ws: Seq<i32>, i: int) -> (Space, bool)
    decreases ws.len() - i,
{
    if i >= ws.len() {
        (s, true)
    } else {
        match s.with_word(at.wrapping_add((i * 4) as i32), ws[i]) {
            None => (s, false),
            Some(t) => words_written(t, at, ws, i + 1),
        }
    }
}

fn write_words(m: &mut VirtualMemory, at: i32, ws: &Vec<i32>) -> (r: bool)
    requires
        old(m)@.wf(),
        ws@.len() <= 8,
    ensures
        final(m)@.wf(),
        (final(m)@, r) == words_written(old(m)@, at, ws@, 0),
{
    let ghost goal = words_written(m@, at, ws@, 0);
    let n: usize = ws.len();
    let mut i: usize = 0;
    while i < n
        invariant
            m@.wf(),
            i <= n == ws@.len(),
            n <= 8,
            words_written(m@, at, ws@, i as int) == goal,
            goal == words_written(old(m)@, at, ws@, 0),
        decreases n - i,
    {
        if !m.safe_write32(at.wrapping_add((i * 4) as i32), ws[i]) {
            return false;
        }
        i = i + 1;
    }
    true
}

/// The number of the device call that a slot of the table leads to, where the code there loads
/// that number and it is the one that is expected.
#[verifier::opaque]
pub open spec fn stub(s: Space, vt: i32, slot: i32, expected: i32) -> Option<i32> {
    match s.word(vt.wrapping_add(slot)) {
        None => None,
        Some(target) => match (s.byte(target as u32), s.word(target.wrapping_add(1))) {
            (Some(op), Some(fid)) => if op == 0xb8 && fid == expected && fid != 0 {
                Some(fid)
            } else {
                None
            },
            _ => None,
        },
    }
}

pub fn eagl_stub_fid(m: &VirtualMemory, vt: i32, slot: i32, expected: i32) -> (r: Option<i32>)
    requires
        m@.wf(),
    ensures
        r == stub(m@, vt, slot, expected),
{
    reveal(stub);
    let target: i32 = match m.safe_read32s(vt.wrapping_add(slot)) {
        Some(v) => v,
        None => return None,
    };
    let op: u8 = match m.safe_read8(target) {
        Some(v) => v,
        None => return None,
    };
    if op != 0xb8 {
        return None;
    }
    let fid: i32 = match m.safe_read32s(target.wrapping_add(1)) {
        Some(v) => v,
        None => return None,
    };
    if fid != expected || fid == 0 {
        return None;
    }
    Some(fid)
}

/// How a state is set: the slot of the call, its number, the table of the states that are set
/// and the counter of calls that were saved (0 where there is none), the place in the table (-1
/// where there is none), and whether the call names a stage.
#[derive(Clone, Copy, Debug, PartialEq, Eq, Structural)]
pub struct Setter {
    pub slot: i32,
    pub fid: i32,
    pub shadow: i32,
    pub skip: i32,
    pub place: i32,
    pub staged: bool,
}

/// The setter of a class of states.
pub open spec fn setter(c: Seq<i32>, class: u32, number: i32, stage: i32) -> Option<Setter> {
    if class == 1 {
        Some(
            Setter {
                slot: 0xe4,
                fid: c[SRS_FID as int],
                shadow: c[SRS_SHADOW as int],
                skip: c[SRS_SKIP as int],
                place: if 0 <= number < 256 {
                    number
                } else {
                    NO_PLACE
                },
                staged: false,
            },
        )
    } else if class == 2 {
        Some(
            Setter {
                slot: 0x10c,
                fid: c[TSS_FID as int],
                shadow: 0,
                skip: 0,
                place: NO_PLACE,
                staged: true,
            },
        )
    } else if class == 8 {
        Some(
            Setter {
                slot: 0x114,
                fid: c[SAMP_FID as int],
                shadow: c[SAMP_SHADOW as int],
                skip: c[SAMP_SKIP as int],
                place: if 0 <= stage < 16 && 0 <= number < 16 {
                    (stage * 16 + number) as i32
                } else {
                    NO_PLACE
                },
                staged: true,
            },
        )
    } else {
        None
    }
}

fn setter_of(c: &Vec<i32>, class: u32, number: i32, stage: i32) -> (r: Option<Setter>)
    requires
        c@.len() == CONFIG_WORDS,
    ensures
        r == setter(c@, class, number, stage),
        r is Some ==> -1 <= r->0.place < 256,
{
    match class {
        1 => Some(
            Setter {
                slot: 0xe4,
                fid: c[SRS_FID],
                shadow: c[SRS_SHADOW],
                skip: c[SRS_SKIP],
                place: if 0 <= number && number < 256 {
                    number
                } else {
                    -1
                },
                staged: false,
            },
        ),
        2 => Some(
            Setter { slot: 0x10c, fid: c[TSS_FID], shadow: 0, skip: 0, place: -1, staged: true },
        ),
        8 => Some(
            Setter {
                slot: 0x114,
                fid: c[SAMP_FID],
                shadow: c[SAMP_SHADOW],
                skip: c[SAMP_SKIP],
                place: if 0 <= stage && stage < 16 && 0 <= number && number < 16 {
                    stage * 16 + number
                } else {
                    -1
                },
                staged: true,
            },
        ),
        _ => None,
    }
}

/// Where the state stands that is set already: nothing where that cannot be read, 0 where it is
/// not kept for this device.
pub open spec fn shadow_cell(c: Seq<i32>, s: Space, dev: i32, t: Setter) -> Option<i32> {
    if t.shadow != 0 && t.place >= 0 && c[OWNER_GLOBAL as int] != 0 {
        match s.word(c[OWNER_GLOBAL as int]) {
            None => None,
            Some(owner) => Some(
                if owner == dev {
                    t.shadow.wrapping_add((t.place * 4) as i32)
                } else {
                    0i32
                },
            ),
        }
    } else {
        Some(0i32)
    }
}

/// The state is kept for this device.
pub open spec fn shadowed(c: Seq<i32>, s: Space, dev: i32, t: Setter) -> bool {
    t.shadow != 0 && t.place >= 0 && c[OWNER_GLOBAL as int] != 0 && s.word(
        c[OWNER_GLOBAL as int],
    ) == Some(dev)
}

fn find_shadow(c: &Vec<i32>, m: &VirtualMemory, dev: i32, t: Setter) -> (r: Option<(bool, i32)>)
    requires
        m@.wf(),
        c@.len() == CONFIG_WORDS,
        -1 <= t.place < 256,
    ensures
        r is Some <==> shadow_cell(c@, m@, dev, t) is Some,
        r is Some ==> (r->0).0 == shadowed(c@, m@, dev, t) && Some((r->0).1) == shadow_cell(
            c@,
            m@,
            dev,
            t,
        ),
{
    if t.shadow != 0 && t.place >= 0 && c[OWNER_GLOBAL] != 0 {
        let owner: i32 = match m.safe_read32s(c[OWNER_GLOBAL]) {
            Some(v) => v,
            None => return None,
        };
        if owner == dev {
            return Some((true, t.shadow.wrapping_add(t.place * 4)));
        }
    }
    Some((false, 0))
}

/// The words of a call that sets a state.
pub open spec fn state_call(fid: i32, dev: i32, t: Setter, stage: i32, number: i32, v: i32) -> Seq<
    i32,
> {
    if t.staged {
        seq![fid, dev, stage, number, v]
    } else {
        seq![fid, dev, number, v]
    }
}

fn state_words(fid: i32, dev: i32, t: Setter, stage: i32, number: i32, v: i32) -> (r: Vec<i32>)
    ensures
        r@ == state_call(fid, dev, t, stage, number, v),
        4 <= r@.len() <= 5,
{
    let r: Vec<i32> = if t.staged {
        vec![fid, dev, stage, number, v]
    } else {
        vec![fid, dev, number, v]
    };
    assert(r@ =~= state_call(fid, dev, t, stage, number, v));
    r
}

/// A counter of calls that were saved goes up, where there is one; whether it could.
pub open spec fn saved(s: Space, skip: i32) -> (Space, bool) {
    if skip == 0 {
        (s, true)
    } else {
        match s.word(skip) {
            None => (s, false),
            Some(n) => match s.with_word(skip, n.wrapping_add(1)) {
                None => (s, false),
                Some(t) => (t, true),
            },
        }
    }
}

fn count_saved(m: &mut VirtualMemory, skip: i32) -> (r: bool)
    requires
        old(m)@.wf(),
    ensures
        final(m)@.wf(),
        (final(m)@, r) == saved(old(m)@, skip),
{
    if skip == 0 {
        return true;
    }
    match m.safe_read32s(skip) {
        Some(n) => m.safe_write32(skip, n.wrapping_add(1)),
        None => false,
    }
}

/// A call appended to the ring, the state that it sets noted in the shadow, and the end of the
/// ring moved; whether all could be written. Where the end cannot be moved, the shadow is as it
/// was.
pub open spec fn set_and_published(
    c: Seq<i32>,
    s: Space,
    head: i32,
    call: Seq<i32>,
    cell: i32,
    v: i32,
) -> (Space, bool) {
    let (t, ok) = words_written(s, c[RING_BASE as int].wrapping_add(head), call, 0);
    if !ok {
        (t, false)
    } else {
        match if cell != 0 {
            t.with_word(cell, v)
        } else {
            Some(t)
        } {
            None => (t, false),
            Some(u) => match u.with_word(
                c[RING_CTRL as int],
                head.wrapping_add((call.len() * 4) as i32),
            ) {
                None => (t, false),
                Some(x) => (x, true),
            },
        }
    }
}

/// A state set outside a batch: what is returned, nothing where it is left to the guest, and
/// whether a call was saved.
#[verifier::opaque]
pub open spec fn simple(
    c: Seq<i32>,
    s: Space,
    dev: i32,
    vt: i32,
    class: u32,
    number: i32,
    stage: i32,
    n: i32,
) -> (Space, Option<i32>, bool) {
    match (s.word(n.wrapping_add(0x68)), setter(c, class, number, stage)) {
        (Some(v), Some(t)) => match (stub(s, vt, t.slot, t.fid), s.word(c[RING_CTRL as int])) {
            (Some(fid), Some(head)) => if head < 0 || head >= c[CAPACITY as int].wrapping_sub(
                36,
            ) {
                (s, None, false)
            } else {
                match shadow_cell(c, s, dev, t) {
                    None => (s, None, false),
                    Some(cell) => if shadowed(c, s, dev, t) && s.word(cell) is None {
                        (s, None, false)
                    } else if shadowed(c, s, dev, t) && s.word(cell) == Some(v) {
                        let (u, ok) = saved(s, t.skip);
                        (
                            u,
                            if ok {
                                Some(0i32)
                            } else {
                                None
                            },
                            true,
                        )
                    } else {
                        let (u, ok) = set_and_published(
                            c,
                            s,
                            head,
                            state_call(fid, dev, t, stage, number, v),
                            cell,
                            v,
                        );
                        (
                            u,
                            if ok {
                                Some(0i32)
                            } else {
                                None
                            },
                            false,
                        )
                    },
                }
            },
            _ => (s, None, false),
        },
        _ => (s, None, false),
    }
}

/// Sets a state outside a batch. Returns what the call returns, nothing where it is left to the
/// guest, and whether a call was saved.
pub fn eagl_dispatch_simple(
    c: &Vec<i32>,
    m: &mut VirtualMemory,
    dev: i32,
    vt: i32,
    class: u32,
    number: i32,
    stage: i32,
    n: i32,
) -> (r: (Option<i32>, bool))
    requires
        old(m)@.wf(),
        c@.len() == CONFIG_WORDS,
    ensures
        final(m)@.wf(),
        (final(m)@, r.0, r.1) == simple(c@, old(m)@, dev, vt, class, number, stage, n),
{
    reveal(simple);
    let v: i32 = match m.safe_read32s(n.wrapping_add(0x68)) {
        Some(v) => v,
        None => return (None, false),
    };
    let t: Setter = match setter_of(c, class, number, stage) {
        Some(t) => t,
        None => return (None, false),
    };
    let fid: i32 = match eagl_stub_fid(m, vt, t.slot, t.fid) {
        Some(v) => v,
        None => return (None, false),
    };
    let head: i32 = match m.safe_read32s(c[RING_CTRL]) {
        Some(v) => v,
        None => return (None, false),
    };
    if head < 0 || head >= c[CAPACITY].wrapping_sub(36) {
        return (None, false);
    }
    let (kept, cell) = match find_shadow(c, m, dev, t) {
        Some(v) => v,
        None => return (None, false),
    };
    if kept {
        let now: i32 = match m.safe_read32s(cell) {
            Some(v) => v,
            None => return (None, false),
        };
        if now == v {
            return if count_saved(m, t.skip) {
                (Some(0), true)
            } else {
                (None, true)
            };
        }
    }
    let call: Vec<i32> = state_words(fid, dev, t, stage, number, v);
    if !write_words(m, c[RING_BASE].wrapping_add(head), &call) {
        return (None, false);
    }
    let end: i32 = head.wrapping_add((call.len() * 4) as i32);
    if cell == 0 {
        return (if m.safe_write32(c[RING_CTRL], end) {
            Some(0)
        } else {
            None
        }, false);
    }
    let was: Option<i32> = m.safe_read32s(cell);
    let ghost before = m@;
    if !m.safe_write32(cell, v) {
        return (None, false);
    }
    if !m.safe_write32(c[RING_CTRL], end) {
        proof {
            virtual_mem::lemma_word_put_back(before, cell, v);
        }
        if let Some(x) = was {
            m.safe_write32(cell, x);
        }
        return (None, false);
    }
    (Some(0), false)
}

/// A call appended to the ring by a pass: the first only counts it.
pub open spec fn appended(e: Setting, s: Space, p: Progress, call: Seq<i32>) -> (
    Space,
    Progress,
    bool,
) {
    if !p.commit {
        (s, p.past((call.len() * 4) as i32), true)
    } else {
        let (t, ok) = words_written(
            s,
            e.words[RING_BASE as int].wrapping_add(p.head),
            call,
            0,
        );
        if ok {
            (t, p.past((call.len() * 4) as i32), true)
        } else {
            (t, p, false)
        }
    }
}

/// What a pass takes a cell to hold.
pub open spec fn seen(s: Space, p: Progress, cell: i32) -> Option<i32> {
    if p.commit {
        s.word(cell)
    } else {
        match p.modelled(cell) {
            Some(v) => Some(v),
            None => s.word(cell),
        }
    }
}

/// A state set by a pass; whether the pass goes on.
#[verifier::opaque]
pub open spec fn state_set(
    e: Setting,
    s: Space,
    p: Progress,
    class: u32,
    number: i32,
    stage: i32,
    v: i32,
) -> (Space, Progress, bool) {
    match setter(e.words, class, number, stage) {
        None => (s, p, false),
        Some(t) => match (stub(s, e.vt, t.slot, t.fid), shadow_cell(e.words, s, e.dev, t)) {
            (Some(fid), Some(cell)) => {
                let kept = shadowed(e.words, s, e.dev, t);
                let call = state_call(fid, e.dev, t, stage, number, v);
                if kept && seen(s, p, cell) is None {
                    (s, p, false)
                } else if kept && seen(s, p, cell) == Some(v) && (p.commit || !p.overflow) {
                    if p.commit {
                        let (u, ok) = saved(s, t.skip);
                        (u, p, ok)
                    } else {
                        (s, p, true)
                    }
                } else if !p.commit {
                    let q = if cell != 0 {
                        p.put(cell, v)
                    } else {
                        p
                    };
                    (s, q.past((call.len() * 4) as i32), true)
                } else {
                    let (u, ok) = words_written(
                        s,
                        e.words[RING_BASE as int].wrapping_add(p.head),
                        call,
                        0,
                    );
                    if !ok {
                        (u, p, false)
                    } else {
                        match if cell != 0 {
                            u.with_word(cell, v)
                        } else {
                            Some(u)
                        } {
                            None => (u, p, false),
                            Some(x) => (x, p.past((call.len() * 4) as i32), true),
                        }
                    }
                }
            },
            _ => (s, p, false),
        },
    }
}

/// What tokens are done with.
pub struct TokenSetting {
    pub words: Vec<i32>,
    pub ctx: i32,
    pub mode: i32,
    pub dev: i32,
    pub vt: i32,
}

impl View for TokenSetting {
    type V = Setting;

    open spec fn view(&self) -> Setting {
        Setting {
            words: self.words@,
            ctx: self.ctx,
            mode: self.mode,
            dev: self.dev,
            vt: self.vt,
        }
    }
}

impl Setting {
    pub open spec fn wf(self) -> bool {
        self.words.len() == CONFIG_WORDS
    }
}

fn append(e: &TokenSetting, m: &mut VirtualMemory, p: &mut EaglPass, call: &Vec<i32>) -> (r: bool)
    requires
        old(m)@.wf(),
        e@.wf(),
        call@.len() <= 8,
    ensures
        final(m)@.wf(),
        (final(m)@, final(p)@, r) == appended(e@, old(m)@, old(p)@, call@),
{
    if p.commit {
        if !write_words(m, e.words[RING_BASE].wrapping_add(p.head), call) {
            return false;
        }
    }
    p.pass((call.len() * 4) as i32);
    true
}

/// Sets a state within a batch. Returns whether the pass goes on.
pub fn eagl_emit_state(
    e: &TokenSetting,
    m: &mut VirtualMemory,
    p: &mut EaglPass,
    class: u32,
    number: i32,
    stage: i32,
    v: i32,
) -> (r: bool)
    requires
        old(m)@.wf(),
        e@.wf(),
    ensures
        final(m)@.wf(),
        (final(m)@, final(p)@, r) == state_set(
            e@,
            old(m)@,
            old(p)@,
            class,
            number,
            stage,
            v,
        ),
{
    reveal(state_set);
    let t: Setter = match setter_of(&e.words, class, number, stage) {
        Some(t) => t,
        None => return false,
    };
    let fid: i32 = match eagl_stub_fid(m, e.vt, t.slot, t.fid) {
        Some(v) => v,
        None => return false,
    };
    let (kept, cell) = match find_shadow(&e.words, m, e.dev, t) {
        Some(v) => v,
        None => return false,
    };
    if kept {
        let modelled: Option<i32> = if p.commit {
            None
        } else {
            p.model_get(cell)
        };
        let now: i32 = match modelled {
            Some(v) => v,
            None => match m.safe_read32s(cell) {
                Some(v) => v,
                None => return false,
            },
        };
        if now == v && (p.commit || !p.overflow) {
            if p.commit {
                return count_saved(m, t.skip);
            }
            return true;
        }
    }
    if !p.commit && cell != 0 {
        p.model_put(cell, v);
    }
    let call: Vec<i32> = state_words(fid, e.dev, t, stage, number, v);
    if p.commit {
        if !write_words(m, e.words[RING_BASE].wrapping_add(p.head), &call) {
            return false;
        }
        if cell != 0 {
            if !m.safe_write32(cell, v) {
                return false;
            }
        }
    }
    p.pass((call.len() * 4) as i32);
    true
}

/// A call with one argument set by a pass; whether the pass goes on.
pub open spec fn one_set(e: Setting, s: Space, p: Progress, slot: i32, expected: i32, v: i32) -> (
    Space,
    Progress,
    bool,
) {
    match stub(s, e.vt, slot, expected) {
        None => (s, p, false),
        Some(fid) => appended(e, s, p, seq![fid, e.dev, v]),
    }
}

/// Makes a call with one argument within a batch. Returns whether the pass goes on.
pub fn eagl_emit_2arg(
    e: &TokenSetting,
    m: &mut VirtualMemory,
    p: &mut EaglPass,
    slot: i32,
    expected: i32,
    v: i32,
) -> (r: bool)
    requires
        old(m)@.wf(),
        e@.wf(),
    ensures
        final(m)@.wf(),
        (final(m)@, final(p)@, r) == one_set(e@, old(m)@, old(p)@, slot, expected, v),
{
    let fid: i32 = match eagl_stub_fid(m, e.vt, slot, expected) {
        Some(v) => v,
        None => return false,
    };
    let call: Vec<i32> = vec![fid, e.dev, v];
    assert(call@ =~= seq![fid, e.dev, v]);
    append(e, m, p, &call)
}

/// Words copied to the ring from the `i`-th on; whether all could be.
pub open spec fn payload(s: Space, from: i32, to: i32, i: int, n: int) -> (Space, bool)
    decreases n - i,
{
    if i >= n {
        (s, true)
    } else {
        match s.word(from.wrapping_add((i * 4) as i32)) {
            None => (s, false),
            Some(v) => match s.with_word(to.wrapping_add((i * 4) as i32), v) {
                None => (s, false),
                Some(t) => payload(t, from, to, i + 1, n),
            },
        }
    }
}

/// Constants of a program set by a pass; whether the pass goes on.
#[verifier::opaque]
pub open spec fn constants_set(
    e: Setting,
    s: Space,
    p: Progress,
    pixel: bool,
    start: i32,
    src: i32,
    n: i32,
) -> (Space, Progress, bool) {
    if n < 0 || n > 256 {
        (s, p, false)
    } else if n == 0 {
        (s, p, true)
    } else {
        let found = if pixel {
            stub(s, e.vt, VT_SET_PS_CONST_F, e.words[PSCF_FID as int])
        } else {
            stub(s, e.vt, VT_SET_VS_CONST_F, e.words[VSCF_FID as int])
        };
        match found {
            None => (s, p, false),
            Some(fid) => if !p.commit {
                if s.word(src) is None || s.word(src.wrapping_add((n * 16 - 4) as i32)) is None {
                    (s, p, false)
                } else {
                    (s, p.past((16 + n * 16) as i32), true)
                }
            } else {
                let at = e.words[RING_BASE as int].wrapping_add(p.head);
                let (t, ok) = words_written(s, at, seq![fid, e.dev, start, n], 0);
                if !ok {
                    (t, p, false)
                } else {
                    let (u, done) = payload(t, src, at.wrapping_add(16), 0, n * 4);
                    (
                        u,
                        if done {
                            p.past((16 + n * 16) as i32)
                        } else {
                            p
                        },
                        done,
                    )
                }
            },
        }
    }
}

fn copy_payload(m: &mut VirtualMemory, from: i32, to: i32, n: i32) -> (r: bool)
    requires
        old(m)@.wf(),
        0 <= n <= 1024,
    ensures
        final(m)@.wf(),
        (final(m)@, r) == payload(old(m)@, from, to, 0, n as int),
{
    let ghost goal = payload(m@, from, to, 0, n as int);
    let mut i: i32 = 0;
    while i < n
        invariant
            m@.wf(),
            0 <= i <= n <= 1024,
            payload(m@, from, to, i as int, n as int) == goal,
            goal == payload(old(m)@, from, to, 0, n as int),
        decreases n - i,
    {
        let v: i32 = match m.safe_read32s(from.wrapping_add(i * 4)) {
            Some(v) => v,
            None => return false,
        };
        if !m.safe_write32(to.wrapping_add(i * 4), v) {
            return false;
        }
        i = i + 1;
    }
    true
}

/// Sets constants of a program within a batch: the call carries them with it. Returns whether
/// the pass goes on.
pub fn eagl_emit_const_f(
    e: &TokenSetting,
    m: &mut VirtualMemory,
    p: &mut EaglPass,
    pixel: bool,
    start: i32,
    src: i32,
    n: i32,
) -> (r: bool)
    requires
        old(m)@.wf(),
        e@.wf(),
    ensures
        final(m)@.wf(),
        (final(m)@, final(p)@, r) == constants_set(
            e@,
            old(m)@,
            old(p)@,
            pixel,
            start,
            src,
            n,
        ),
{
    reveal(constants_set);
    if n < 0 || n > 256 {
        return false;
    }
    if n == 0 {
        return true;
    }
    let found: Option<i32> = if pixel {
        eagl_stub_fid(m, e.vt, VT_SET_PS_CONST_F, e.words[PSCF_FID])
    } else {
        eagl_stub_fid(m, e.vt, VT_SET_VS_CONST_F, e.words[VSCF_FID])
    };
    let fid: i32 = match found {
        Some(v) => v,
        None => return false,
    };
    if !p.commit {
        if m.safe_read32s(src).is_none() || m.safe_read32s(src.wrapping_add(n * 16 - 4)).is_none() {
            return false;
        }
    } else {
        let at: i32 = e.words[RING_BASE].wrapping_add(p.head);
        let call: Vec<i32> = vec![fid, e.dev, start, n];
        assert(call@ =~= seq![fid, e.dev, start, n]);
        if !write_words(m, at, &call) {
            return false;
        }
        if !copy_payload(m, src, at.wrapping_add(16), n * 4) {
            return false;
        }
    }
    p.pass(16 + n * 16);
    true
}

/// The record of a resource, by the tables of the context.
#[verifier::opaque]
pub open spec fn record(s: Space, ctx: i32, n: i32) -> Option<i32> {
    match (s.word(ctx.wrapping_add(0x8c)), s.word(n.wrapping_add(0xc))) {
        (Some(table), Some(id)) => match s.word(table.wrapping_add(id.wrapping_mul(4))) {
            None => None,
            Some(r) => match (
                s.word(r.wrapping_add(0x38)),
                s.word(r.wrapping_add(0x28)),
                s.word(n.wrapping_add(0x14)),
            ) {
                (Some(t), Some(first), Some(more)) => {
                    let a = first.wrapping_add(more);
                    let index = if t == 0 {
                        match s.word(ctx.wrapping_add(0x2c)) {
                            None => None,
                            Some(off) => s.word(a.wrapping_add(off)),
                        }
                    } else {
                        match s.word(ctx.wrapping_add(0xc)) {
                            None => None,
                            Some(inner) => match s.word(inner.wrapping_add(8)) {
                                None => None,
                                Some(off) => match (
                                    s.word(a.wrapping_add(off)),
                                    s.word(t.wrapping_add(8)),
                                ) {
                                    (Some(k), Some(list)) => s.word(
                                        list.wrapping_add(k.wrapping_mul(4)),
                                    ),
                                    _ => None,
                                },
                            },
                        }
                    };
                    match (index, s.word(ctx.wrapping_add(0x24))) {
                        (Some(k), Some(base)) => Some(k.wrapping_mul(0x1c).wrapping_add(base)),
                        _ => None,
                    }
                },
                _ => None,
            },
        },
        _ => None,
    }
}

fn record_index(m: &VirtualMemory, ctx: i32, t: i32, a: i32) -> (r: Option<i32>)
    requires
        m@.wf(),
    ensures
        r == if t == 0 {
            match m@.word(ctx.wrapping_add(0x2c)) {
                None => None,
                Some(off) => m@.word(a.wrapping_add(off)),
            }
        } else {
            match m@.word(ctx.wrapping_add(0xc)) {
                None => None,
                Some(inner) => match m@.word(inner.wrapping_add(8)) {
                    None => None,
                    Some(off) => match (m@.word(a.wrapping_add(off)), m@.word(t.wrapping_add(8))) {
                        (Some(k), Some(list)) => m@.word(list.wrapping_add(k.wrapping_mul(4))),
                        _ => None,
                    },
                },
            }
        },
{
    if t == 0 {
        return match m.safe_read32s(ctx.wrapping_add(0x2c)) {
            Some(off) => m.safe_read32s(a.wrapping_add(off)),
            None => None,
        };
    }
    let inner: i32 = match m.safe_read32s(ctx.wrapping_add(0xc)) {
        Some(v) => v,
        None => return None,
    };
    let off: i32 = match m.safe_read32s(inner.wrapping_add(8)) {
        Some(v) => v,
        None => return None,
    };
    let k: i32 = match m.safe_read32s(a.wrapping_add(off)) {
        Some(v) => v,
        None => return None,
    };
    match m.safe_read32s(t.wrapping_add(8)) {
        Some(list) => m.safe_read32s(list.wrapping_add(k.wrapping_mul(4))),
        None => None,
    }
}

/// Finds the record of a resource.
pub fn eagl_resolve_record(m: &VirtualMemory, ctx: i32, n: i32) -> (r: Option<i32>)
    requires
        m@.wf(),
    ensures
        r == record(m@, ctx, n),
{
    reveal(record);
    let table: i32 = match m.safe_read32s(ctx.wrapping_add(0x8c)) {
        Some(v) => v,
        None => return None,
    };
    let id: i32 = match m.safe_read32s(n.wrapping_add(0xc)) {
        Some(v) => v,
        None => return None,
    };
    let r: i32 = match m.safe_read32s(table.wrapping_add(id.wrapping_mul(4))) {
        Some(v) => v,
        None => return None,
    };
    let t: i32 = match m.safe_read32s(r.wrapping_add(0x38)) {
        Some(v) => v,
        None => return None,
    };
    let first: i32 = match m.safe_read32s(r.wrapping_add(0x28)) {
        Some(v) => v,
        None => return None,
    };
    let more: i32 = match m.safe_read32s(n.wrapping_add(0x14)) {
        Some(v) => v,
        None => return None,
    };
    let index: i32 = match record_index(m, ctx, t, first.wrapping_add(more)) {
        Some(v) => v,
        None => return None,
    };
    match m.safe_read32s(ctx.wrapping_add(0x24)) {
        Some(base) => Some(index.wrapping_mul(0x1c).wrapping_add(base)),
        None => None,
    }
}

/// A texture set by a pass: the result, nothing where the batch is given up.
#[verifier::opaque]
pub open spec fn texture_set(e: Setting, s: Space, p: Progress, n: i32, stage: i32) -> (
    Space,
    Progress,
    Option<i32>,
) {
    if e.mode == 2 || e.words[TEX_FID as int] == 0 {
        (s, p, None)
    } else {
        match record(s, e.ctx, n) {
            None => (s, p, None),
            Some(r) => match (
                s.word(r.wrapping_add(4)),
                stub(s, e.vt, VT_SET_TEXTURE, e.words[TEX_FID as int]),
            ) {
                (Some(v), Some(fid)) => {
                    let (t, q, ok) = appended(e, s, p, seq![fid, e.dev, stage, v]);
                    (
                        t,
                        q,
                        if ok {
                            Some(0i32)
                        } else {
                            None
                        },
                    )
                },
                _ => (s, p, None),
            },
        }
    }
}

/// Sets a texture within a batch. Returns the result, nothing where the batch is given up.
pub fn eagl_class5_texture(
    e: &TokenSetting,
    m: &mut VirtualMemory,
    p: &mut EaglPass,
    n: i32,
    stage: i32,
) -> (r: Option<i32>)
    requires
        old(m)@.wf(),
        e@.wf(),
    ensures
        final(m)@.wf(),
        (final(m)@, final(p)@, r) == texture_set(e@, old(m)@, old(p)@, n, stage),
{
    reveal(texture_set);
    if e.mode == 2 || e.words[TEX_FID] == 0 {
        return None;
    }
    let rec: i32 = match eagl_resolve_record(m, e.ctx, n) {
        Some(v) => v,
        None => return None,
    };
    let v: i32 = match m.safe_read32s(rec.wrapping_add(4)) {
        Some(v) => v,
        None => return None,
    };
    let fid: i32 = match eagl_stub_fid(m, e.vt, VT_SET_TEXTURE, e.words[TEX_FID]) {
        Some(v) => v,
        None => return None,
    };
    let call: Vec<i32> = vec![fid, e.dev, stage, v];
    assert(call@ =~= seq![fid, e.dev, stage, v]);
    if append(e, m, p, &call) {
        Some(0)
    } else {
        None
    }
}

/// What a token within a batch does: from memory, progress, the token's node and its stage.
pub type Step = spec_fn(Space, Progress, i32, i32) -> (Space, Progress, Option<i32>);

/// The tokens of a pass from the `i`-th on, until one fails.
pub open spec fn tokens_done(
    s: Space,
    p: Progress,
    step: Step,
    base: i32,
    stage: i32,
    i: int,
    n: int,
) -> (Space, Progress, Option<i32>)
    decreases n - i,
{
    if i >= n {
        (s, p, Some(0i32))
    } else {
        let (t, q, r) = step(s, p, base.wrapping_add((i as i32).wrapping_mul(0xac)), stage);
        match r {
            None => (t, q, None),
            Some(v) => if v < 0 {
                (t, q, Some(v))
            } else {
                tokens_done(t, q, step, base, stage, i + 1, n)
            },
        }
    }
}

/// The tokens of the pass that the `k`-th entry of a program names.
#[verifier::opaque]
pub open spec fn pass_done(
    e: Setting,
    s: Space,
    p: Progress,
    step: Step,
    head: i32,
    stage: i32,
    k: int,
) -> (Space, Progress, Option<i32>) {
    match s.word(head.wrapping_add(0x30)) {
        None => (s, p, None),
        Some(list) => match s.word(list.wrapping_add((k as i32).wrapping_mul(4))) {
            None => (s, p, None),
            Some(at) => if at == 0 {
                (s, p, Some(0i32))
            } else {
                match (s.word(at.wrapping_add(4)), s.word(e.ctx.wrapping_add(0x8c))) {
                    (Some(named), Some(table)) => match s.word(named.wrapping_add(4)) {
                        None => (s, p, None),
                        Some(id) => match s.word(table.wrapping_add(id.wrapping_mul(4))) {
                            None => (s, p, None),
                            Some(r) => match (
                                s.word(r.wrapping_add(0x3c)),
                                s.word(r.wrapping_add(0x40)),
                            ) {
                                (Some(n), Some(base)) => if n as u32 > 256 {
                                    (s, p, None)
                                } else {
                                    tokens_done(s, p, step, base, stage, 0, n as int)
                                },
                                _ => (s, p, None),
                            },
                        },
                    },
                    _ => (s, p, None),
                }
            },
        },
    }
}

/// The entries of a program's table of constants from the `k`-th on.
#[verifier::opaque]
pub open spec fn entries_done(
    e: Setting,
    s: Space,
    p: Progress,
    nested: bool,
    step: Step,
    pixel: bool,
    head: i32,
    floats: i32,
    at: i32,
    k: int,
    n: int,
) -> (Space, Progress, Option<i32>)
    decreases n - k,
{
    if k >= n {
        (s, p, Some(0i32))
    } else {
        match (s.half(at.wrapping_sub(2)), s.half(at), s.half(at.wrapping_add(2))) {
            (Some(kind), Some(reg), Some(count)) => if kind == 2 {
                let (t, q, ok) = constants_set(
                    e,
                    s,
                    p,
                    pixel,
                    reg,
                    floats.wrapping_add(reg.wrapping_mul(16)),
                    count,
                );
                if !ok {
                    (t, q, None)
                } else {
                    entries_done(
                        e,
                        t,
                        q,
                        nested,
                        step,
                        pixel,
                        head,
                        floats,
                        at.wrapping_add(20),
                        k + 1,
                        n,
                    )
                }
            } else if kind == 0 || kind == 1 {
                (s, p, None)
            } else if kind == 3 && pixel {
                if nested {
                    (s, p, None)
                } else {
                    let (t, q, r) = pass_done(e, s, p, step, head, reg, k);
                    match r {
                        None => (t, q, None),
                        Some(v) => if v < 0 {
                            (t, q, Some(v))
                        } else {
                            entries_done(
                                e,
                                t,
                                q,
                                nested,
                                step,
                                pixel,
                                head,
                                floats,
                                at.wrapping_add(20),
                                k + 1,
                                n,
                            )
                        },
                    }
                }
            } else if pixel {
                (s, p, Some(EAGL_E_FAIL))
            } else {
                entries_done(
                    e,
                    s,
                    p,
                    nested,
                    step,
                    pixel,
                    head,
                    floats,
                    at.wrapping_add(20),
                    k + 1,
                    n,
                )
            },
            _ => (s, p, None),
        }
    }
}

/// A program bound by a pass, with the constants that come with it.
#[verifier::opaque]
pub open spec fn bound(
    e: Setting,
    s: Space,
    p: Progress,
    nested: bool,
    step: Step,
    n: i32,
    pixel: bool,
) -> (Space, Progress, Option<i32>) {
    match record(s, e.ctx, n) {
        None => (s, p, None),
        Some(r) => match (s.word(r.wrapping_add(0xc)), s.word(r.wrapping_add(4))) {
            (None, _) => (s, p, None),
            (Some(0), _) => (s, p, Some(EAGL_E_FAIL)),
            (Some(_), None) => (s, p, None),
            (Some(_), Some(handle)) => {
                let (t, q, ok) = if pixel {
                    one_set(e, s, p, VT_SET_PIXEL_SHADER, e.words[SPS_FID as int], handle)
                } else {
                    one_set(e, s, p, VT_SET_VERTEX_SHADER, e.words[SVS_FID as int], handle)
                };
                if !ok {
                    (t, q, None)
                } else {
                    match t.word(r.wrapping_add(0x14)) {
                        None => (t, q, None),
                        Some(table) => if table == 0 {
                            (t, q, Some(0i32))
                        } else {
                            match (
                                t.word(r.wrapping_add(0x18)),
                                t.word(table.wrapping_add(0xc)),
                                t.word(table.wrapping_add(0x10)),
                            ) {
                                (Some(head), Some(count), Some(first)) => match t.word(
                                    head.wrapping_add(0x44),
                                ) {
                                    None => (t, q, None),
                                    Some(data) => if count as u32 > 1024 {
                                        (t, q, None)
                                    } else {
                                        entries_done(
                                            e,
                                            t,
                                            q,
                                            nested,
                                            step,
                                            pixel,
                                            head,
                                            data.wrapping_add(8),
                                            table.wrapping_add(first).wrapping_add(6),
                                            0,
                                            count as int,
                                        )
                                    },
                                },
                                _ => (t, q, None),
                            }
                        },
                    }
                }
            },
        },
    }
}

/// A token of a shader program done by a pass.
#[verifier::opaque]
pub open spec fn program_done(
    e: Setting,
    s: Space,
    p: Progress,
    nested: bool,
    step: Step,
    n: i32,
    desc: u32,
    stage: i32,
) -> (Space, Progress, Option<i32>) {
    if e.mode == 2 {
        (s, p, None)
    } else if desc == 0x600_0008 {
        match s.word(n.wrapping_add(0x68)) {
            None => (s, p, None),
            Some(v) => {
                let (t, q, ok) = one_set(
                    e,
                    s,
                    p,
                    VT_SET_FVF,
                    e.words[FVF_FID as int],
                    if e.mode == 1 {
                        2
                    } else {
                        v
                    },
                );
                (
                    t,
                    q,
                    if ok {
                        Some(0i32)
                    } else {
                        None
                    },
                )
            },
        }
    } else if e.mode == 1 {
        (s, p, Some(0i32))
    } else if vertex_constants(desc) || pixel_constants(desc) {
        match (s.word(n.wrapping_add(0x4c)), s.word(n.wrapping_add(0xa8))) {
            (Some(src), Some(count)) => {
                let (t, q, ok) = constants_set(
                    e,
                    s,
                    p,
                    pixel_constants(desc),
                    stage,
                    src,
                    count,
                );
                (
                    t,
                    q,
                    if ok {
                        Some(0i32)
                    } else {
                        None
                    },
                )
            },
            _ => (s, p, None),
        }
    } else if desc == 0x600_0003 || desc == 0x600_0004 || desc == 0x600_0006 || desc
        == 0x600_0007 {
        (s, p, None)
    } else if desc == 0x600_0000 {
        bound(e, s, p, nested, step, n, false)
    } else if desc == 0x600_0001 {
        bound(e, s, p, nested, step, n, true)
    } else {
        (s, p, Some(0i32))
    }
}

/// Tokens that set constants of the vertex program.
pub open spec fn vertex_constants(desc: u32) -> bool {
    desc == 0x600_0002 || desc == 0x600_0102 || desc == 0x600_0202 || desc == 0x600_0302 || desc
        == 0x600_0402
}

/// Tokens that set constants of the pixel program.
pub open spec fn pixel_constants(desc: u32) -> bool {
    desc == 0x600_0005 || desc == 0x600_0105 || desc == 0x600_0205 || desc == 0x600_0305 || desc
        == 0x600_0405
}

/// A token as its node names it: the node itself or the one that it stands for, what the token
/// is, and its stage.
#[verifier::opaque]
pub open spec fn named(c: Seq<i32>, s: Space, node: i32, stage: i32) -> Option<(i32, u32, i32)> {
    if node == 0 {
        None
    } else {
        match (s.word(node.wrapping_add(4)), s.word(node), s.word(node.wrapping_add(0x64))) {
            (own, Some(first), alias) => if stage == -1 && own is None {
                None
            } else if first == -1 && alias is None {
                None
            } else {
                let n = if first == -1 {
                    alias->0
                } else {
                    node
                };
                match s.word(n) {
                    None => None,
                    Some(token) => match s.word(
                        c[TOKEN_TABLE as int].wrapping_add(token.wrapping_mul(0x1c)),
                    ) {
                        None => None,
                        Some(desc) => Some(
                            (
                                n,
                                desc as u32,
                                if stage == -1 {
                                    own->0
                                } else {
                                    stage
                                },
                            ),
                        ),
                    },
                }
            },
            _ => None,
        }
    }
}

/// A token done by a pass, given what a token of a pass within it does.
#[verifier::opaque]
pub open spec fn token_done(
    e: Setting,
    s: Space,
    p: Progress,
    nested: bool,
    step: Step,
    node: i32,
    stage: i32,
) -> (Space, Progress, Option<i32>) {
    match named(e.words, s, node, stage) {
        None => (s, p, None),
        Some((n, desc, stage)) => {
            let class = desc / 0x100_0000;
            if class == 1 || class == 2 || class == 8 {
                match s.word(n.wrapping_add(0x68)) {
                    None => (s, p, None),
                    Some(v) => {
                        let (t, q, ok) = state_set(
                            e,
                            s,
                            p,
                            class,
                            (desc % 0x100_0000) as i32,
                            stage,
                            v,
                        );
                        (
                            t,
                            q,
                            if ok {
                                Some(0i32)
                            } else {
                                None
                            },
                        )
                    },
                }
            } else if class == 5 {
                texture_set(e, s, p, n, stage)
            } else if class == 6 {
                program_done(e, s, p, nested, step, n, desc, stage)
            } else if class == 3 || class == 4 || class == 7 || class == 9 || class == 10 {
                (s, p, None)
            } else {
                (s, p, Some(0i32))
            }
        },
    }
}

/// A pass within a pass within a batch is not done.
pub open spec fn too_deep() -> Step {
    |s: Space, p: Progress, node: i32, stage: i32| (s, p, None)
}

/// What a token of a pass within a batch does.
pub open spec fn nested_step(e: Setting) -> Step {
    |s: Space, p: Progress, node: i32, stage: i32|
        token_done(e, s, p, true, too_deep(), node, stage)
}

/// What the tokens of a pass do, within a batch or within a pass of one.
pub open spec fn step_of(e: Setting, nested: bool) -> Step {
    if nested {
        too_deep()
    } else {
        nested_step(e)
    }
}

fn token_of(c: &Vec<i32>, m: &VirtualMemory, node: i32, stage: i32) -> (r: Option<(i32, u32, i32)>)
    requires
        m@.wf(),
        c@.len() == CONFIG_WORDS,
    ensures
        r == named(c@, m@, node, stage),
{
    reveal(named);
    if node == 0 {
        return None;
    }
    let mut own: i32 = stage;
    if stage == -1 {
        own = match m.safe_read32s(node.wrapping_add(4)) {
            Some(v) => v,
            None => return None,
        };
    }
    let mut n: i32 = node;
    let mut token: i32 = match m.safe_read32s(n) {
        Some(v) => v,
        None => return None,
    };
    if token == -1 {
        n = match m.safe_read32s(node.wrapping_add(0x64)) {
            Some(v) => v,
            None => return None,
        };
        token = match m.safe_read32s(n) {
            Some(v) => v,
            None => return None,
        };
    }
    match m.safe_read32s(c[TOKEN_TABLE].wrapping_add(token.wrapping_mul(0x1c))) {
        Some(desc) => Some((n, desc as u32, own)),
        None => None,
    }
}

fn do_tokens(
    e: &TokenSetting,
    m: &mut VirtualMemory,
    p: &mut EaglPass,
    base: i32,
    stage: i32,
    n: i32,
) -> (r: Option<i32>)
    requires
        old(m)@.wf(),
        e@.wf(),
    ensures
        final(m)@.wf(),
        (final(m)@, final(p)@, r) == tokens_done(
            old(m)@,
            old(p)@,
            nested_step(e@),
            base,
            stage,
            0,
            n as int,
        ),
    decreases 1int, 0int,
{
    let ghost step = nested_step(e@);
    let ghost goal = tokens_done(m@, p@, step, base, stage, 0, n as int);
    let mut i: i32 = 0;
    while i < n
        invariant
            m@.wf(),
            e@.wf(),
            0 <= i,
            n >= 0 ==> i <= n,
            n < 0 ==> i == 0,
            step == nested_step(e@),
            tokens_done(m@, p@, step, base, stage, i as int, n as int) == goal,
            goal == tokens_done(
                old(m)@,
                old(p)@,
                nested_step(e@),
                base,
                stage,
                0,
                n as int,
            ),
        decreases n - i,
    {
        match eagl_dispatch_token(
            e,
            m,
            p,
            true,
            base.wrapping_add(i.wrapping_mul(0xac)),
            stage,
        ) {
            None => return None,
            Some(v) => {
                if v < 0 {
                    return Some(v);
                }
            },
        }
        i = i + 1;
    }
    Some(0)
}

fn do_pass(
    e: &TokenSetting,
    m: &mut VirtualMemory,
    p: &mut EaglPass,
    head: i32,
    stage: i32,
    k: i32,
) -> (r: Option<i32>)
    requires
        old(m)@.wf(),
        e@.wf(),
    ensures
        final(m)@.wf(),
        (final(m)@, final(p)@, r) == pass_done(
            e@,
            old(m)@,
            old(p)@,
            nested_step(e@),
            head,
            stage,
            k as int,
        ),
    decreases 1int, 1int,
{
    reveal(pass_done);
    let list: i32 = match m.safe_read32s(head.wrapping_add(0x30)) {
        Some(v) => v,
        None => return None,
    };
    let at: i32 = match m.safe_read32s(list.wrapping_add(k.wrapping_mul(4))) {
        Some(v) => v,
        None => return None,
    };
    if at == 0 {
        return Some(0);
    }
    let named: i32 = match m.safe_read32s(at.wrapping_add(4)) {
        Some(v) => v,
        None => return None,
    };
    let id: i32 = match m.safe_read32s(named.wrapping_add(4)) {
        Some(v) => v,
        None => return None,
    };
    let table: i32 = match m.safe_read32s(e.ctx.wrapping_add(0x8c)) {
        Some(v) => v,
        None => return None,
    };
    let r: i32 = match m.safe_read32s(table.wrapping_add(id.wrapping_mul(4))) {
        Some(v) => v,
        None => return None,
    };
    let n: i32 = match m.safe_read32s(r.wrapping_add(0x3c)) {
        Some(v) => v,
        None => return None,
    };
    if n as u32 > 256 {
        return None;
    }
    let base: i32 = match m.safe_read32s(r.wrapping_add(0x40)) {
        Some(v) => v,
        None => return None,
    };
    do_tokens(e, m, p, base, stage, n)
}

fn do_entries(
    e: &TokenSetting,
    m: &mut VirtualMemory,
    p: &mut EaglPass,
    nested: bool,
    pixel: bool,
    head: i32,
    floats: i32,
    first: i32,
    n: i32,
) -> (r: Option<i32>)
    requires
        old(m)@.wf(),
        e@.wf(),
    ensures
        final(m)@.wf(),
        (final(m)@, final(p)@, r) == entries_done(
            e@,
            old(m)@,
            old(p)@,
            nested,
            step_of(e@, nested),
            pixel,
            head,
            floats,
            first,
            0,
            n as int,
        ),
    decreases (if nested {
        0int
    } else {
        1int
    }), 2int,
{
    let ghost step = step_of(e@, nested);
    let ghost goal = entries_done(
        e@,
        m@,
        p@,
        nested,
        step,
        pixel,
        head,
        floats,
        first,
        0,
        n as int,
    );
    let mut at: i32 = first;
    let mut k: i32 = 0;
    while k < n
        invariant
            m@.wf(),
            e@.wf(),
            0 <= k,
            n >= 0 ==> k <= n,
            n < 0 ==> k == 0,
            step == step_of(e@, nested),
            entries_done(
                e@,
                m@,
                p@,
                nested,
                step,
                pixel,
                head,
                floats,
                at,
                k as int,
                n as int,
            ) == goal,
            goal == entries_done(
                e@,
                old(m)@,
                old(p)@,
                nested,
                step_of(e@, nested),
                pixel,
                head,
                floats,
                first,
                0,
                n as int,
            ),
        decreases n - k,
    {
        reveal(entries_done);
        let kind: i32 = match m.safe_read16(at.wrapping_sub(2)) {
            Some(v) => v,
            None => return None,
        };
        let reg: i32 = match m.safe_read16(at) {
            Some(v) => v,
            None => return None,
        };
        let count: i32 = match m.safe_read16(at.wrapping_add(2)) {
            Some(v) => v,
            None => return None,
        };
        if kind == 2 {
            if !eagl_emit_const_f(
                e,
                m,
                p,
                pixel,
                reg,
                floats.wrapping_add(reg.wrapping_mul(16)),
                count,
            ) {
                return None;
            }
        } else if kind == 0 || kind == 1 {
            return None;
        } else if kind == 3 && pixel {
            if nested {
                return None;
            }
            match do_pass(e, m, p, head, reg, k) {
                None => return None,
                Some(v) => {
                    if v < 0 {
                        return Some(v);
                    }
                },
            }
        } else if pixel {
            return Some(EAGL_E_FAIL);
        }
        at = at.wrapping_add(20);
        k = k + 1;
    }
    assert(goal == (m@, p@, Some(0i32))) by {
        reveal(entries_done);
    }
    Some(0)
}

/// Binds a program within a batch, sets the constants that come with it, and does the tokens of
/// the passes that it names. Returns the result, nothing where the batch is given up.
pub fn eagl_class6_bind(
    e: &TokenSetting,
    m: &mut VirtualMemory,
    p: &mut EaglPass,
    nested: bool,
    n: i32,
    pixel: bool,
) -> (r: Option<i32>)
    requires
        old(m)@.wf(),
        e@.wf(),
    ensures
        final(m)@.wf(),
        (final(m)@, final(p)@, r) == bound(
            e@,
            old(m)@,
            old(p)@,
            nested,
            step_of(e@, nested),
            n,
            pixel,
        ),
    decreases (if nested {
        0int
    } else {
        1int
    }), 3int,
{
    reveal(bound);
    let rec: i32 = match eagl_resolve_record(m, e.ctx, n) {
        Some(v) => v,
        None => return None,
    };
    match m.safe_read32s(rec.wrapping_add(0xc)) {
        Some(v) => {
            if v == 0 {
                return Some(EAGL_E_FAIL);
            }
        },
        None => return None,
    }
    let handle: i32 = match m.safe_read32s(rec.wrapping_add(4)) {
        Some(v) => v,
        None => return None,
    };
    let ok: bool = if pixel {
        eagl_emit_2arg(e, m, p, VT_SET_PIXEL_SHADER, e.words[SPS_FID], handle)
    } else {
        eagl_emit_2arg(e, m, p, VT_SET_VERTEX_SHADER, e.words[SVS_FID], handle)
    };
    if !ok {
        return None;
    }
    let table: i32 = match m.safe_read32s(rec.wrapping_add(0x14)) {
        Some(v) => v,
        None => return None,
    };
    if table == 0 {
        return Some(0);
    }
    let head: i32 = match m.safe_read32s(rec.wrapping_add(0x18)) {
        Some(v) => v,
        None => return None,
    };
    let data: i32 = match m.safe_read32s(head.wrapping_add(0x44)) {
        Some(v) => v,
        None => return None,
    };
    let count: i32 = match m.safe_read32s(table.wrapping_add(0xc)) {
        Some(v) => v,
        None => return None,
    };
    if count as u32 > 1024 {
        return None;
    }
    let first: i32 = match m.safe_read32s(table.wrapping_add(0x10)) {
        Some(v) => v,
        None => return None,
    };
    do_entries(
        e,
        m,
        p,
        nested,
        pixel,
        head,
        data.wrapping_add(8),
        table.wrapping_add(first).wrapping_add(6),
        count,
    )
}

/// Does a token of a shader program within a batch.
pub fn eagl_class6(
    e: &TokenSetting,
    m: &mut VirtualMemory,
    p: &mut EaglPass,
    nested: bool,
    n: i32,
    desc: u32,
    stage: i32,
) -> (r: Option<i32>)
    requires
        old(m)@.wf(),
        e@.wf(),
    ensures
        final(m)@.wf(),
        (final(m)@, final(p)@, r) == program_done(
            e@,
            old(m)@,
            old(p)@,
            nested,
            step_of(e@, nested),
            n,
            desc,
            stage,
        ),
    decreases (if nested {
        0int
    } else {
        1int
    }), 4int,
{
    reveal(program_done);
    if e.mode == 2 {
        return None;
    }
    if desc == 0x600_0008 {
        let mut v: i32 = match m.safe_read32s(n.wrapping_add(0x68)) {
            Some(v) => v,
            None => return None,
        };
        if e.mode == 1 {
            v = 2;
        }
        return if eagl_emit_2arg(e, m, p, VT_SET_FVF, e.words[FVF_FID], v) {
            Some(0)
        } else {
            None
        };
    }
    if e.mode == 1 {
        return Some(0);
    }
    match desc {
        0x600_0002 | 0x600_0102 | 0x600_0202 | 0x600_0302 | 0x600_0402 | 0x600_0005 | 0x600_0105
        | 0x600_0205 | 0x600_0305 | 0x600_0405 => {
            let src: i32 = match m.safe_read32s(n.wrapping_add(0x4c)) {
                Some(v) => v,
                None => return None,
            };
            let count: i32 = match m.safe_read32s(n.wrapping_add(0xa8)) {
                Some(v) => v,
                None => return None,
            };
            let pixel: bool = desc % 0x100 == 5;
            if eagl_emit_const_f(e, m, p, pixel, stage, src, count) {
                Some(0)
            } else {
                None
            }
        },
        0x600_0003 | 0x600_0004 | 0x600_0006 | 0x600_0007 => None,
        0x600_0000 => eagl_class6_bind(e, m, p, nested, n, false),
        0x600_0001 => eagl_class6_bind(e, m, p, nested, n, true),
        _ => Some(0),
    }
}

/// Does a token within a batch, or within a pass of one. Returns the result, nothing where the
/// batch is given up.
pub fn eagl_dispatch_token(
    e: &TokenSetting,
    m: &mut VirtualMemory,
    p: &mut EaglPass,
    nested: bool,
    node: i32,
    stage: i32,
) -> (r: Option<i32>)
    requires
        old(m)@.wf(),
        e@.wf(),
    ensures
        final(m)@.wf(),
        (final(m)@, final(p)@, r) == token_done(
            e@,
            old(m)@,
            old(p)@,
            nested,
            step_of(e@, nested),
            node,
            stage,
        ),
    decreases (if nested {
        0int
    } else {
        1int
    }), 5int,
{
    reveal(token_done);
    let (n, desc, stage) = match token_of(&e.words, m, node, stage) {
        Some(v) => v,
        None => return None,
    };
    let class: u32 = desc / 0x100_0000;
    match class {
        1 | 2 | 8 => {
            let v: i32 = match m.safe_read32s(n.wrapping_add(0x68)) {
                Some(v) => v,
                None => return None,
            };
            if eagl_emit_state(e, m, p, class, (desc % 0x100_0000) as i32, stage, v) {
                Some(0)
            } else {
                None
            }
        },
        5 => eagl_class5_texture(e, m, p, n, stage),
        6 => eagl_class6(e, m, p, nested, n, desc, stage),
        3 | 4 | 7 | 9 | 10 => None,
        _ => Some(0),
    }
}

/// The whole of a batch done by a pass.
pub open spec fn batch_pass(e: Setting, s: Space, commit: bool, head: i32, node: i32, stage: i32) -> (
    Space,
    Progress,
    Option<i32>,
) {
    token_done(
        e,
        s,
        Progress::start(commit, head),
        false,
        nested_step(e),
        node,
        stage,
    )
}

/// Where the ring ends, if the batch can be begun there, the first pass finds nothing amiss and
/// room for all of it, and the end can be moved.
pub open spec fn batch_fits(e: Setting, s: Space, node: i32, stage: i32) -> Option<(i32, i32)> {
    if e.mode == 2 {
        None
    } else {
        match s.word(e.words[RING_CTRL as int]) {
            None => None,
            Some(head) => if head < 0 || head > e.words[CAPACITY as int] {
                None
            } else {
                let (_, q, r) = batch_pass(e, s, false, head, node, stage);
                match r {
                    None => None,
                    Some(v) => if q.head > e.words[CAPACITY as int].wrapping_sub(64)
                        || s.with_word(e.words[RING_CTRL as int], head) is None {
                        None
                    } else {
                        Some((head, v))
                    },
                }
            },
        }
    }
}

/// A batch: two passes, and the end of the ring moved once. The result, nothing where the batch
/// is left to the guest.
pub open spec fn batch_done(e: Setting, s: Space, node: i32, stage: i32) -> (Space, Option<i32>) {
    match batch_fits(e, s, node, stage) {
        None => (s, None),
        Some((head, first)) => {
            let (t, q, r) = batch_pass(e, s, true, head, node, stage);
            match t.with_word(e.words[RING_CTRL as int], q.head) {
                None => (t, None),
                Some(u) => (
                    u,
                    Some(
                        match r {
                            Some(v) => v,
                            None => first,
                        },
                    ),
                ),
            }
        },
    }
}

/// What a pass can lead to: pages stay mapped, and a first pass writes nothing.
spec fn leads(s: Space, p: Progress, t: Space, q: Progress) -> bool {
    &&& virtual_mem::same_pages(s, t)
    &&& q.commit == p.commit
    &&& !p.commit ==> t == s
}

/// A first pass writes nothing.
pub proof fn law_the_first_pass_only_reads(
    e: Setting,
    s: Space,
    head: i32,
    node: i32,
    stage: i32,
)
    ensures
        batch_pass(e, s, false, head, node, stage).0 == s,
{
    lemma_batch_leads(e, s, false, head, node, stage);
}

/// A batch that is left to the guest leaves memory as it was.
pub proof fn law_a_declined_batch_leaves_no_trace(e: Setting, s: Space, node: i32, stage: i32)
    ensures
        batch_done(e, s, node, stage).1 is None ==> batch_done(e, s, node, stage).0 == s,
{
    if batch_fits(e, s, node, stage) is Some {
        let ctrl = e.words[RING_CTRL as int];
        let head = (batch_fits(e, s, node, stage)->0).0;
        let (t, q, r) = batch_pass(e, s, true, head, node, stage);
        lemma_batch_leads(e, s, true, head, node, stage);
        virtual_mem::lemma_pages_decide(s, t, ctrl, head, q.head);
    }
}

proof fn lemma_batch_leads(
    e: Setting,
    s: Space,
    commit: bool,
    head: i32,
    node: i32,
    stage: i32,
)
    ensures
        ({
            let (t, q, r) = batch_pass(e, s, commit, head, node, stage);
            leads(s, Progress::start(commit, head), t, q)
        }),
{
    let p = Progress::start(commit, head);
    assert forall|a: Space, q: Progress, n: i32, g: i32| ({
        let r = #[trigger] nested_step(e)(a, q, n, g);
        leads(a, q, r.0, r.1)
    }) by {
        lemma_token_leads(e, a, q, true, too_deep(), n, g);
    }
    lemma_token_leads(e, s, p, false, nested_step(e), node, stage);
}

spec fn step_leads(step: Step) -> bool {
    forall|a: Space, q: Progress, n: i32, g: i32|
        {
            let r = #[trigger] step(a, q, n, g);
            leads(a, q, r.0, r.1)
        }
}

proof fn lemma_words_keep_pages(s: Space, at: i32, ws: Seq<i32>, i: int)
    ensures
        virtual_mem::same_pages(s, words_written(s, at, ws, i).0),
    decreases ws.len() - i,
{
    if i < ws.len() {
        let v = at.wrapping_add((i * 4) as i32);
        virtual_mem::lemma_pages_decide(s, s, v, ws[i], ws[i]);
        if s.with_word(v, ws[i]) is Some {
            lemma_words_keep_pages(s.with_word(v, ws[i])->0, at, ws, i + 1);
        }
    }
}

proof fn lemma_payload_keeps_pages(s: Space, from: i32, to: i32, i: int, n: int)
    ensures
        virtual_mem::same_pages(s, payload(s, from, to, i, n).0),
    decreases n - i,
{
    if i < n && s.word(from.wrapping_add((i * 4) as i32)) is Some {
        let x = s.word(from.wrapping_add((i * 4) as i32))->0;
        let v = to.wrapping_add((i * 4) as i32);
        virtual_mem::lemma_pages_decide(s, s, v, x, x);
        if s.with_word(v, x) is Some {
            lemma_payload_keeps_pages(s.with_word(v, x)->0, from, to, i + 1, n);
        }
    }
}

proof fn lemma_appended_leads(e: Setting, s: Space, p: Progress, call: Seq<i32>)
    ensures
        ({
            let r = appended(e, s, p, call);
            leads(s, p, r.0, r.1)
        }),
{
    lemma_words_keep_pages(s, e.words[RING_BASE as int].wrapping_add(p.head), call, 0);
}

proof fn lemma_constants_lead(
    e: Setting,
    s: Space,
    p: Progress,
    pixel: bool,
    start: i32,
    src: i32,
    n: i32,
)
    ensures
        ({
            let r = constants_set(e, s, p, pixel, start, src, n);
            leads(s, p, r.0, r.1)
        }),
{
    reveal(constants_set);
    let found = if pixel {
        stub(s, e.vt, VT_SET_PS_CONST_F, e.words[PSCF_FID as int])
    } else {
        stub(s, e.vt, VT_SET_VS_CONST_F, e.words[VSCF_FID as int])
    };
    if found is Some {
        let at = e.words[RING_BASE as int].wrapping_add(p.head);
        let call = seq![found->0, e.dev, start, n];
        lemma_words_keep_pages(s, at, call, 0);
        let t = words_written(s, at, call, 0).0;
        lemma_payload_keeps_pages(t, src, at.wrapping_add(16), 0, n * 4);
    }
}

proof fn lemma_state_leads(
    e: Setting,
    s: Space,
    p: Progress,
    class: u32,
    number: i32,
    stage: i32,
    v: i32,
)
    ensures
        ({
            let r = state_set(e, s, p, class, number, stage, v);
            leads(s, p, r.0, r.1)
        }),
{
    reveal(state_set);
    if let Some(t) = setter(e.words, class, number, stage) {
        match (stub(s, e.vt, t.slot, t.fid), shadow_cell(e.words, s, e.dev, t)) {
            (Some(fid), Some(cell)) => {
                let call = state_call(fid, e.dev, t, stage, number, v);
                let at = e.words[RING_BASE as int].wrapping_add(p.head);
                lemma_words_keep_pages(s, at, call, 0);
                let u = words_written(s, at, call, 0).0;
                virtual_mem::lemma_pages_decide(u, u, cell, v, v);
                if let Some(x) = s.word(t.skip) {
                    virtual_mem::lemma_pages_decide(s, s, t.skip, x.wrapping_add(1), 0);
                }
            },
            _ => {},
        }
    }
}

proof fn lemma_tokens_lead(
    s: Space,
    p: Progress,
    step: Step,
    base: i32,
    stage: i32,
    i: int,
    n: int,
)
    requires
        step_leads(step),
    ensures
        ({
            let r = tokens_done(s, p, step, base, stage, i, n);
            leads(s, p, r.0, r.1)
        }),
    decreases n - i,
{
    if i < n {
        let (t, q, r) = step(s, p, base.wrapping_add((i as i32).wrapping_mul(0xac)), stage);
        if r is Some && r->0 >= 0 {
            lemma_tokens_lead(t, q, step, base, stage, i + 1, n);
        }
    }
}

proof fn lemma_entries_lead(
    e: Setting,
    s: Space,
    p: Progress,
    nested: bool,
    step: Step,
    pixel: bool,
    head: i32,
    floats: i32,
    at: i32,
    k: int,
    n: int,
)
    requires
        step_leads(step),
    ensures
        ({
            let r = entries_done(e, s, p, nested, step, pixel, head, floats, at, k, n);
            leads(s, p, r.0, r.1)
        }),
    decreases n - k,
{
    reveal(entries_done);
    if k < n {
        match (s.half(at.wrapping_sub(2)), s.half(at), s.half(at.wrapping_add(2))) {
            (Some(kind), Some(reg), Some(count)) => {
                let next = at.wrapping_add(20);
                if kind == 2 {
                    let src = floats.wrapping_add(reg.wrapping_mul(16));
                    let (t, q, ok) = constants_set(e, s, p, pixel, reg, src, count);
                    lemma_constants_lead(e, s, p, pixel, reg, src, count);
                    lemma_entries_lead(e, t, q, nested, step, pixel, head, floats, next, k + 1, n);
                } else if kind == 3 && pixel {
                    if !nested {
                        assert forall|base: i32, m: int| ({
                            let r = #[trigger] tokens_done(s, p, step, base, reg, 0, m);
                            leads(s, p, r.0, r.1)
                        }) by {
                            lemma_tokens_lead(s, p, step, base, reg, 0, m);
                        }
                        let (t, q, r) = pass_done(e, s, p, step, head, reg, k);
                        assert(leads(s, p, t, q)) by {
                            reveal(pass_done);
                        }
                        lemma_entries_lead(
                            e,
                            t,
                            q,
                            nested,
                            step,
                            pixel,
                            head,
                            floats,
                            next,
                            k + 1,
                            n,
                        );
                    }
                } else {
                    lemma_entries_lead(e, s, p, nested, step, pixel, head, floats, next, k + 1, n);
                }
            },
            _ => {},
        }
    }
}

proof fn lemma_bound_leads(
    e: Setting,
    s: Space,
    p: Progress,
    nested: bool,
    step: Step,
    n: i32,
    pixel: bool,
)
    requires
        step_leads(step),
    ensures
        ({
            let r = bound(e, s, p, nested, step, n, pixel);
            leads(s, p, r.0, r.1)
        }),
{
    reveal(bound);
    assert forall|call: Seq<i32>| ({
        let r = #[trigger] appended(e, s, p, call);
        leads(s, p, r.0, r.1)
    }) by {
        lemma_appended_leads(e, s, p, call);
    }
    assert forall|t: Space, q: Progress, head: i32, floats: i32, at: i32, k: int, m: int| ({
        let r = #[trigger] entries_done(e, t, q, nested, step, pixel, head, floats, at, k, m);
        leads(t, q, r.0, r.1)
    }) by {
        lemma_entries_lead(e, t, q, nested, step, pixel, head, floats, at, k, m);
    }
}

proof fn lemma_token_leads(
    e: Setting,
    s: Space,
    p: Progress,
    nested: bool,
    step: Step,
    node: i32,
    stage: i32,
)
    requires
        step_leads(step),
    ensures
        ({
            let r = token_done(e, s, p, nested, step, node, stage);
            leads(s, p, r.0, r.1)
        }),
{
    reveal(token_done);
    reveal(program_done);
    reveal(texture_set);
    if let Some((n, desc, at)) = named(e.words, s, node, stage) {
        if let Some(v) = s.word(n.wrapping_add(0x68)) {
            lemma_state_leads(
                e,
                s,
                p,
                desc / 0x100_0000,
                (desc % 0x100_0000) as i32,
                at,
                v,
            );
        }
        match (s.word(n.wrapping_add(0x4c)), s.word(n.wrapping_add(0xa8))) {
            (Some(src), Some(count)) => {
                lemma_constants_lead(e, s, p, pixel_constants(desc), at, src, count);
            },
            _ => {},
        }
        assert forall|call: Seq<i32>| ({
            let r = #[trigger] appended(e, s, p, call);
            leads(s, p, r.0, r.1)
        }) by {
            lemma_appended_leads(e, s, p, call);
        }
        lemma_bound_leads(e, s, p, nested, step, n, false);
        lemma_bound_leads(e, s, p, nested, step, n, true);
    }
}

/// A cell that is written in the model holds what was written, where there is room for it, and
/// every other cell holds what it held; without room the model says so and stays as it was.
pub proof fn law_the_model_holds_what_is_written(p: Progress, addr: i32, v: i32, other: i32)
    ensures
        ({
            let q = p.put(addr, v);
            &&& p.modelled(addr) is Some || p.model.len() < MODEL_CELLS ==> q.modelled(addr)
                == Some(v) && q.overflow == p.overflow
            &&& p.modelled(addr) is None && p.model.len() >= MODEL_CELLS ==> q.overflow
                && q.modelled(addr) is None
            &&& other != addr ==> q.modelled(other) == p.modelled(other)
            &&& p.model.len() <= MODEL_CELLS ==> q.model.len() <= MODEL_CELLS
            &&& is_distinct(p.model) ==> is_distinct(q.model)
            &&& q.head == p.head && q.commit == p.commit
        }),
{
    let q = p.put(addr, v);
    let k = place_of(p.model, addr, 0);
    lemma_place_of(p.model, addr, 0);
    lemma_place_of(p.model, other, 0);
    lemma_place_of(q.model, addr, 0);
    lemma_place_of(q.model, other, 0);
    if k < p.model.len() {
        lemma_same_places(p.model, q.model, other, 0);
        lemma_same_places(p.model, q.model, addr, 0);
    } else if p.model.len() < MODEL_CELLS {
        let j = place_of(p.model, other, 0);
        let i = place_of(q.model, other, 0);
        if other != addr {
            if j < p.model.len() {
                assert(q.model[j].0 == other);
                assert(i <= j);
                assert(p.model[i].0 == other);
            } else if i < q.model.len() {
                assert(i < p.model.len());
                assert(p.model[i].0 == other);
            }
        }
        let m = place_of(q.model, addr, 0);
        assert(q.model[p.model.len() as int].0 == addr);
        if m < p.model.len() {
            assert(p.model[m].0 == addr);
        }
    }
}

/// No cell is modelled twice.
pub open spec fn is_distinct(cells: Seq<(i32, i32)>) -> bool {
    forall|i: int, j: int|
        0 <= i < j < cells.len() ==> (#[trigger] cells[i]).0 != (#[trigger] cells[j]).0
}

proof fn lemma_place_of(cells: Seq<(i32, i32)>, addr: i32, i: int)
    requires
        0 <= i <= cells.len(),
    ensures
        ({
            let k = place_of(cells, addr, i);
            &&& i <= k <= cells.len()
            &&& k < cells.len() ==> cells[k].0 == addr
            &&& forall|j: int| i <= j < k ==> (#[trigger] cells[j]).0 != addr
        }),
    decreases cells.len() - i,
{
    if i < cells.len() && cells[i].0 != addr {
        lemma_place_of(cells, addr, i + 1);
    }
}

proof fn lemma_same_places(a: Seq<(i32, i32)>, b: Seq<(i32, i32)>, addr: i32, i: int)
    requires
        0 <= i <= a.len() == b.len(),
        forall|j: int| 0 <= j < a.len() ==> (#[trigger] a[j]).0 == b[j].0,
    ensures
        place_of(a, addr, i) == place_of(b, addr, i),
    decreases a.len() - i,
{
    if i < a.len() && a[i].0 != addr {
        lemma_same_places(a, b, addr, i + 1);
    }
}

/// Does a batch. Returns the result, nothing where the batch is left to the guest.
pub fn eagl_dispatch_class6_batch(
    e: &TokenSetting,
    m: &mut VirtualMemory,
    node: i32,
    stage: i32,
) -> (r: Option<i32>)
    requires
        old(m)@.wf(),
        e@.wf(),
    ensures
        final(m)@.wf(),
        (final(m)@, r) == batch_done(e@, old(m)@, node, stage),
{
    if e.mode == 2 {
        return None;
    }
    let head: i32 = match m.safe_read32s(e.words[RING_CTRL]) {
        Some(v) => v,
        None => return None,
    };
    if head < 0 || head > e.words[CAPACITY] {
        return None;
    }
    let mut scan: EaglPass = EaglPass::new(false, head);
    proof {
        law_the_first_pass_only_reads(e@, m@, head, node, stage);
    }
    let first: i32 = match eagl_dispatch_token(e, m, &mut scan, false, node, stage) {
        Some(v) => v,
        None => return None,
    };
    if scan.head > e.words[CAPACITY].wrapping_sub(64) {
        return None;
    }
    proof {
        if m@.with_word(e.words@[RING_CTRL as int], head) is Some {
            virtual_mem::lemma_word_put_back(m@, e.words@[RING_CTRL as int], head);
        }
    }
    if !m.safe_write32(e.words[RING_CTRL], head) {
        return None;
    }
    let mut pass: EaglPass = EaglPass::new(true, head);
    let r: i32 = match eagl_dispatch_token(e, m, &mut pass, false, node, stage) {
        Some(v) => v,
        None => first,
    };
    if !m.safe_write32(e.words[RING_CTRL], pass.head) {
        return None;
    }
    Some(r)
}

/// What the dispatcher keeps: the words of the last configuration, where it stands and its
/// generation, and how often it was entered, did the call, declined it, and saved one.
pub struct TokenState {
    pub words: Vec<i32>,
    pub ptr: i32,
    pub generation: i32,
    pub enter: u64,
    pub handled: u64,
    pub decline: u64,
    pub skip: u64,
}

/// What a [`TokenState`] holds.
#[verifier::ext_equal]
pub struct Tokens {
    pub words: Seq<i32>,
    pub ptr: i32,
    pub generation: i32,
    pub enter: u64,
    pub handled: u64,
    pub decline: u64,
    pub skip: u64,
}

impl View for TokenState {
    type V = Tokens;

    open spec fn view(&self) -> Tokens {
        Tokens {
            words: self.words@,
            ptr: self.ptr,
            generation: self.generation,
            enter: self.enter,
            handled: self.handled,
            decline: self.decline,
            skip: self.skip,
        }
    }
}

/// Where a word of the configuration stands in it.
pub open spec fn config_offset(i: int) -> int {
    if i < 12 {
        4 + i * 4
    } else {
        0x3c + (i - 12) * 4
    }
}

/// The words of the configuration read from the `i`-th on; whether all could be.
pub open spec fn words_read(words: Seq<i32>, s: Space, cfg: i32, i: int) -> (Seq<i32>, bool)
    decreases CONFIG_WORDS - i,
{
    if i >= CONFIG_WORDS {
        (words, true)
    } else {
        match s.word(cfg.wrapping_add(config_offset(i) as i32)) {
            None => (words, false),
            Some(v) => words_read(words.update(i, v), s, cfg, i + 1),
        }
    }
}

impl Tokens {
    pub open spec fn wf(self) -> bool {
        self.words.len() == CONFIG_WORDS
    }

    /// With the configuration read anew; whether it could be.
    pub open spec fn refreshed(self, s: Space, cfg: i32) -> (Tokens, bool) {
        let (words, ok) = words_read(self.words, s, cfg, 0);
        if !ok {
            (Tokens { words, ..self }, false)
        } else {
            match s.word(cfg.wrapping_add(0x38)) {
                None => (Tokens { words, ..self }, false),
                Some(generation) => (Tokens { words, generation, ptr: cfg, ..self }, true),
            }
        }
    }

    /// With the configuration that stands at an address, read anew where it has changed;
    /// whether it is one.
    pub open spec fn configured(self, s: Space, cfg: i32) -> (Tokens, bool) {
        if cfg == 0 {
            (self, false)
        } else {
            match (s.word(cfg), s.word(cfg.wrapping_add(0x38))) {
                (Some(version), Some(generation)) => if version < 2 || version > 3 {
                    (self, false)
                } else if self.ptr != cfg || self.generation != generation {
                    self.refreshed(s, cfg)
                } else {
                    (self, true)
                },
                _ => (self, false),
            }
        }
    }

    /// A token done with the configuration as it stands: what is returned, nothing where it is
    /// left to the guest.
    pub open spec fn token(self, s: Space, esp: i32, ctx: i32) -> (Tokens, Space, Option<i32>) {
        match (s.word(esp.wrapping_add(4)), s.word(esp.wrapping_add(8))) {
            (Some(node), Some(stage)) => match named(self.words, s, node, stage) {
                None => (self, s, None),
                Some((n, desc, own)) => match s.word(ctx.wrapping_add(8)) {
                    None => (self, s, None),
                    Some(dev) => match s.word(dev) {
                        None => (self, s, None),
                        Some(vt) => {
                            let class = desc / 0x100_0000;
                            if class == 1 || class == 2 || class == 8 {
                                let (t, r, skipped) = simple(
                                    self.words,
                                    s,
                                    dev,
                                    vt,
                                    class,
                                    (desc % 0x100_0000) as i32,
                                    own,
                                    n,
                                );
                                (
                                    if skipped {
                                        Tokens { skip: self.skip.wrapping_add(1), ..self }
                                    } else {
                                        self
                                    },
                                    t,
                                    r,
                                )
                            } else if class == 6 {
                                match s.word(ctx.wrapping_add(0x84)) {
                                    None => (self, s, None),
                                    Some(mode) => {
                                        let e = Setting { words: self.words, ctx, mode, dev, vt };
                                        let (t, r) = batch_done(e, s, node, own);
                                        (self, t, r)
                                    },
                                }
                            } else {
                                (self, s, None)
                            }
                        },
                    },
                },
            },
            _ => (self, s, None),
        }
    }

    /// A call of the dispatcher.
    pub open spec fn dispatched(self, s: Space, cfg: i32, esp: i32, ctx: i32) -> (
        Tokens,
        Space,
        Option<i32>,
    ) {
        let (t, ok) = self.configured(s, cfg);
        if ok {
            t.token(s, esp, ctx)
        } else {
            (t, s, None)
        }
    }

    /// A call of an inner loop, by its number.
    pub open spec fn inner_loop(self, s: Space, number: u8, cfg: i32, esp: i32, ctx: i32) -> (
        Tokens,
        Space,
        Option<i32>,
    ) {
        if number == 128 {
            let (t, r) = crate::eagl_apply::converted(s, esp);
            (self, t, r)
        } else if number == 129 {
            let (t, r) = crate::eagl_apply::apply_called(
                s,
                ApplyFamily::Int,
                ApplyLayout::Register,
                esp,
            );
            (self, t, r)
        } else if number == 130 {
            let (t, r) = crate::eagl_apply::apply_called(
                s,
                ApplyFamily::Float,
                ApplyLayout::Register,
                esp,
            );
            (self, t, r)
        } else if number == 131 {
            let (t, r) = crate::eagl_apply::apply_called(
                s,
                ApplyFamily::Float,
                ApplyLayout::Packed,
                esp,
            );
            (self, t, r)
        } else if number == 132 {
            let (t, u, r) = (Tokens { enter: self.enter.wrapping_add(1), ..self }).dispatched(
                s,
                cfg,
                esp,
                ctx,
            );
            (
                if r is Some {
                    Tokens { handled: t.handled.wrapping_add(1), ..t }
                } else {
                    Tokens { decline: t.decline.wrapping_add(1), ..t }
                },
                u,
                r,
            )
        } else {
            (self, s, None)
        }
    }
}

impl TokenState {
    pub fn new() -> (r: TokenState)
        ensures
            r@.wf(),
            r@.ptr == 0,
            r@.generation == 0,
            r@.words == Seq::new(CONFIG_WORDS as nat, |i: int| 0i32),
            r@.enter == 0,
            r@.handled == 0,
            r@.decline == 0,
            r@.skip == 0,
    {
        let words: Vec<i32> = vec![0i32; 18];
        assert(words@ =~= Seq::new(CONFIG_WORDS as nat, |i: int| 0i32));
        TokenState {
            words,
            ptr: 0,
            generation: 0,
            enter: 0,
            handled: 0,
            decline: 0,
            skip: 0,
        }
    }

    pub fn eagl_token_enter_count(&self) -> (r: u64)
        ensures
            r == self@.enter,
    {
        self.enter
    }

    pub fn eagl_token_handled_count(&self) -> (r: u64)
        ensures
            r == self@.handled,
    {
        self.handled
    }

    pub fn eagl_token_decline_count(&self) -> (r: u64)
        ensures
            r == self@.decline,
    {
        self.decline
    }

    pub fn eagl_token_skip_count(&self) -> (r: u64)
        ensures
            r == self@.skip,
    {
        self.skip
    }

    fn read_words(&mut self, m: &VirtualMemory, cfg: i32) -> (r: bool)
        requires
            old(self)@.wf(),
            m@.wf(),
        ensures
            final(self)@.wf(),
            (final(self)@.words, r) == words_read(old(self)@.words, m@, cfg, 0),
            final(self)@ == (Tokens { words: final(self)@.words, ..old(self)@ }),
    {
        let ghost goal = words_read(self@.words, m@, cfg, 0);
        let mut i: usize = 0;
        while i < CONFIG_WORDS
            invariant
                i <= CONFIG_WORDS,
                m@.wf(),
                self@.wf(),
                self@ == (Tokens { words: self@.words, ..old(self)@ }),
                words_read(self@.words, m@, cfg, i as int) == goal,
                goal == words_read(old(self)@.words, m@, cfg, 0),
            decreases CONFIG_WORDS - i,
        {
            let offset: i32 = if i < 12 {
                4 + i as i32 * 4
            } else {
                0x3c + (i as i32 - 12) * 4
            };
            match m.safe_read32s(cfg.wrapping_add(offset)) {
                Some(v) => {
                    self.words.set(i, v);
                },
                None => return false,
            }
            i = i + 1;
        }
        true
    }

    /// Reads the configuration anew. Returns whether it could be read; what was read before an
    /// address that cannot be is kept.
    pub fn eagl_token_cfg_refresh(&mut self, m: &VirtualMemory, cfg: i32) -> (r: bool)
        requires
            old(self)@.wf(),
            m@.wf(),
        ensures
            final(self)@.wf(),
            (final(self)@, r) == old(self)@.refreshed(m@, cfg),
    {
        if !self.read_words(m, cfg) {
            return false;
        }
        match m.safe_read32s(cfg.wrapping_add(0x38)) {
            Some(generation) => {
                self.generation = generation;
                self.ptr = cfg;
                true
            },
            None => false,
        }
    }

    fn configure(&mut self, m: &VirtualMemory, cfg: i32) -> (r: bool)
        requires
            old(self)@.wf(),
            m@.wf(),
        ensures
            final(self)@.wf(),
            (final(self)@, r) == old(self)@.configured(m@, cfg),
    {
        if cfg == 0 {
            return false;
        }
        let version: i32 = match m.safe_read32s(cfg) {
            Some(v) => v,
            None => return false,
        };
        if version < 2 || version > 3 {
            return false;
        }
        let generation: i32 = match m.safe_read32s(cfg.wrapping_add(0x38)) {
            Some(v) => v,
            None => return false,
        };
        if self.ptr != cfg || self.generation != generation {
            return self.eagl_token_cfg_refresh(m, cfg);
        }
        true
    }

    fn copied_words(&self) -> (r: Vec<i32>)
        ensures
            r@ == self@.words,
    {
        let mut r: Vec<i32> = Vec::new();
        let n: usize = self.words.len();
        let mut i: usize = 0;
        while i < n
            invariant
                i <= n == self.words@.len(),
                r@ == self.words@.take(i as int),
            decreases n - i,
        {
            r.push(self.words[i]);
            i = i + 1;
        }
        assert(r@ =~= self.words@);
        r
    }

    fn do_token(&mut self, m: &mut VirtualMemory, esp: i32, ctx: i32) -> (r: Option<i32>)
        requires
            old(self)@.wf(),
            old(m)@.wf(),
        ensures
            final(self)@.wf(),
            final(m)@.wf(),
            (final(self)@, final(m)@, r) == old(self)@.token(old(m)@, esp, ctx),
    {
        let node: i32 = match m.safe_read32s(esp.wrapping_add(4)) {
            Some(v) => v,
            None => return None,
        };
        let stage: i32 = match m.safe_read32s(esp.wrapping_add(8)) {
            Some(v) => v,
            None => return None,
        };
        let (n, desc, own) = match token_of(&self.words, m, node, stage) {
            Some(v) => v,
            None => return None,
        };
        let dev: i32 = match m.safe_read32s(ctx.wrapping_add(8)) {
            Some(v) => v,
            None => return None,
        };
        let vt: i32 = match m.safe_read32s(dev) {
            Some(v) => v,
            None => return None,
        };
        let class: u32 = desc / 0x100_0000;
        match class {
            1 | 2 | 8 => {
                let (r, skipped) = eagl_dispatch_simple(
                    &self.words,
                    m,
                    dev,
                    vt,
                    class,
                    (desc % 0x100_0000) as i32,
                    own,
                    n,
                );
                if skipped {
                    self.skip = self.skip.wrapping_add(1);
                }
                r
            },
            6 => {
                let mode: i32 = match m.safe_read32s(ctx.wrapping_add(0x84)) {
                    Some(v) => v,
                    None => return None,
                };
                let e: TokenSetting = TokenSetting {
                    words: self.copied_words(),
                    ctx,
                    mode,
                    dev,
                    vt,
                };
                eagl_dispatch_class6_batch(&e, m, node, own)
            },
            _ => None,
        }
    }

    /// Does a call of the dispatcher: `cfg` is where the configuration stands, `esp` and `ctx`
    /// the stack and the layer's context. Returns what the call returns, nothing where it is
    /// left to the guest.
    pub fn handle_eagl_token_dispatch(
        &mut self,
        m: &mut VirtualMemory,
        cfg: i32,
        esp: i32,
        ctx: i32,
    ) -> (r: Option<i32>)
        requires
            old(self)@.wf(),
            old(m)@.wf(),
        ensures
            final(self)@.wf(),
            final(m)@.wf(),
            (final(self)@, final(m)@, r) == old(self)@.dispatched(old(m)@, cfg, esp, ctx),
    {
        if !self.configure(m, cfg) {
            return None;
        }
        self.do_token(m, esp, ctx)
    }

    /// Does the call of an inner loop, by its number. Returns what the call returns, nothing
    /// where it is left to the guest.
    pub fn dispatch_inner_loop(
        &mut self,
        m: &mut VirtualMemory,
        number: u8,
        cfg: i32,
        esp: i32,
        ctx: i32,
    ) -> (r: Option<i32>)
        requires
            old(self)@.wf(),
            old(m)@.wf(),
        ensures
            final(self)@.wf(),
            final(m)@.wf(),
            (final(self)@, final(m)@, r) == old(self)@.inner_loop(
                old(m)@,
                number,
                cfg,
                esp,
                ctx,
            ),
    {
        match number {
            128 => handle_eagl_shader_const_convert(m, esp),
            129 => handle_eagl_apply_reg_int(m, esp),
            130 => handle_eagl_apply_reg_float(m, esp),
            131 => handle_eagl_apply_packed(m, esp),
            132 => {
                self.enter = self.enter.wrapping_add(1);
                let r: Option<i32> = self.handle_eagl_token_dispatch(m, cfg, esp, ctx);
                if r.is_some() {
                    self.handled = self.handled.wrapping_add(1);
                } else {
                    self.decline = self.decline.wrapping_add(1);
                }
                r
            },
            _ => None,
        }
    }
}

} // verus!
