//! Compiled code is given up: functions lose their places in the function table, pages their
//! code. A function that held the code of a page before is given up with the one that took its
//! place, and each place becomes free once.
use vstd::prelude::*;
use crate::cpu_state::TLB_HAS_CODE;
use crate::dispatch;
use crate::dispatch::{
    dispatch_meta_clear, dispatch_meta_get, dispatch_meta_table_index, Dispatched, DISPATCH_PAGES,
};
use crate::jit_config;
use crate::jit_config::wrong_entry_verify_enabled;
use crate::jit_state;
use crate::jit_state::{
    contains_u16, contains_u32, find_entered, find_slot, tlb_data, tlb_frame, tlb_set_has_code,
    Compiling, Counts, Entered, InWork, Info, Jit, JitState, PageSlot, Record, Run, Runtime, Slot,
    TlbEntry,
};

verus! {

/// Words of the first `n` virtual pages that still name a function are counted and recorded.
pub open spec fn audited(run: Run, meta: Seq<u64>, tlb: Seq<TlbEntry>, index: u16, n: int) -> Run
    decreases n,
{
    if n <= 0 {
        run
    } else {
        let r = audited(run, meta, tlb, index, n - 1);
        let w = meta[n - 1];
        if w != 0 && dispatch::index_of(w) == index {
            let data = jit_state::data_of(tlb, (n - 1) as u32, 0);
            let c = r.counts;
            (Run {
                counts: Counts {
                    stale_meta: c.stale_meta.wrapping_add(1),
                    stale_meta_live: if data != 0 {
                        c.stale_meta_live.wrapping_add(1)
                    } else {
                        c.stale_meta_live
                    },
                    stale_meta_dead: if data != 0 {
                        c.stale_meta_dead
                    } else {
                        c.stale_meta_dead.wrapping_add(1)
                    },
                    ..c
                },
                ..r
            }).recorded(
                Record {
                    a: ((n - 1) * 0x1000) as u32,
                    b: index as u32,
                    c: data as u32,
                    tag: 3,
                },
            )
        } else {
            r
        }
    }
}

/// The first `n` of a list without a number.
pub open spec fn without(v: Seq<u16>, x: u16, n: int) -> Seq<u16>
    decreases n,
{
    if n <= 0 {
        Seq::empty()
    } else if v[n - 1] == x {
        without(v, x, n - 1)
    } else {
        without(v, x, n - 1).push(v[n - 1])
    }
}

/// A list without a number.
pub fn drop_all(v: &Vec<u16>, x: u16) -> (r: Vec<u16>)
    ensures
        r@ == without(v@, x, v@.len() as int),
        r@.len() <= v@.len(),
{
    let mut r: Vec<u16> = Vec::new();
    let n: usize = v.len();
    let mut i: usize = 0;
    while i < n
        invariant
            i <= n == v@.len(),
            r@ == without(v@, x, i as int),
            r@.len() <= i,
        decreases n - i,
    {
        if v[i] != x {
            r.push(v[i]);
        }
        i = i + 1;
    }
    r
}

impl Jit {
    /// With a place of the function table free, and all that was noted of its function forgotten.
    /// A place that is free already is only counted.
    #[verifier::opaque]
    pub open spec fn index_freed(self, index: u16) -> Jit {
        if self.free.contains(index) {
            let c = self.run.counts;
            Jit {
                run: Run {
                    counts: Counts {
                        double_free_skipped: c.double_free_skipped.wrapping_add(1),
                        ..c
                    },
                    ..self.run
                },
                ..self
            }
        } else {
            let r = if self.config.on(jit_config::WRONG_ENTRY_REFUSE) {
                audited(self.run, self.dispatch.meta, self.tlb, index, DISPATCH_PAGES as int)
            } else {
                self.run
            };
            Jit {
                free: self.free.push(index),
                run: Run {
                    epoch: r.epoch.wrapping_add(1),
                    exec_counts: r.exec_counts.update(index as int, 0),
                    entry_totals: r.entry_totals.update(index as int, 0),
                    pending: without(r.pending, index, r.pending.len() as int),
                    ..r
                },
                emptied: self.emptied.push(index),
                ..self
            }
        }
    }
}

/// The translation buffer and the dispatch table after the first `n` entries of the buffer lost
/// what they had of a function.
pub open spec fn swept(
    tlb: Seq<TlbEntry>,
    d: Dispatched,
    entered: Seq<Entered>,
    mem8: u32,
    index: u16,
    n: int,
) -> (Seq<TlbEntry>, Dispatched)
    decreases n,
{
    if n <= 0 {
        (tlb, d)
    } else {
        let (t, c) = swept(tlb, d, entered, mem8, index, n - 1);
        let e = t[n - 1];
        let w = c.word(e.page);
        if e.data != 0 && w != 0 && dispatch::index_of(w) == index {
            let known = jit_state::entered_at(entered, jit_state::frame_of(e, mem8), 0)
                < entered.len();
            (
                if known {
                    t
                } else {
                    t.update(n - 1, TlbEntry { page: e.page, data: e.data & !TLB_HAS_CODE })
                },
                c.cleared(e.page),
            )
        } else {
            (t, c)
        }
    }
}

/// The code of a page without a function that held it before.
pub open spec fn stripped(s: Slot, index: u16) -> Slot {
    Slot {
        page: s.page,
        info: Info {
            hidden: without(s.info.hidden, index, s.info.hidden.len() as int),
            ..s.info
        },
    }
}

/// The first `n` pages without those whose code a function holds.
pub open spec fn remaining(pages: Seq<Slot>, index: u16, n: int) -> Seq<Slot>
    decreases n,
{
    if n <= 0 {
        Seq::empty()
    } else if pages[n - 1].info.index == index {
        remaining(pages, index, n - 1)
    } else {
        remaining(pages, index, n - 1).push(stripped(pages[n - 1], index))
    }
}

/// The functions that held the code of the first `n` pages before a function did.
pub open spec fn hidden_of(pages: Seq<Slot>, index: u16, n: int) -> Seq<u16>
    decreases n,
{
    if n <= 0 {
        Seq::empty()
    } else if pages[n - 1].info.index == index {
        hidden_of(pages, index, n - 1) + pages[n - 1].info.hidden
    } else {
        hidden_of(pages, index, n - 1)
    }
}

/// How many functions held the code of the first `n` pages before.
pub open spec fn hidden_total(pages: Seq<Slot>, n: int) -> nat
    decreases n,
{
    if n <= 0 {
        0
    } else {
        hidden_total(pages, n - 1) + pages[n - 1].info.hidden.len()
    }
}

proof fn lemma_without_len(v: Seq<u16>, x: u16, n: int)
    requires
        0 <= n <= v.len(),
    ensures
        without(v, x, n).len() <= n,
    decreases n,
{
    if n > 0 {
        lemma_without_len(v, x, n - 1);
    }
}

proof fn lemma_total_prefix(a: Seq<Slot>, b: Seq<Slot>, n: int)
    requires
        0 <= n <= a.len(),
        n <= b.len(),
        forall|i: int| 0 <= i < n ==> a[i] == b[i],
    ensures
        hidden_total(a, n) == hidden_total(b, n),
    decreases n,
{
    if n > 0 {
        lemma_total_prefix(a, b, n - 1);
    }
}

/// Giving a function up moves what held its pages before, and makes no more of it.
pub proof fn lemma_total_shrinks(pages: Seq<Slot>, index: u16, n: int)
    requires
        0 <= n <= pages.len(),
    ensures
        hidden_total(remaining(pages, index, n), remaining(pages, index, n).len() as int)
            + hidden_of(pages, index, n).len() <= hidden_total(pages, n),
    decreases n,
{
    if n > 0 {
        lemma_total_shrinks(pages, index, n - 1);
        let before = remaining(pages, index, n - 1);
        let s = pages[n - 1];
        if s.info.index != index {
            let after = before.push(stripped(s, index));
            lemma_total_prefix(before, after, before.len() as int);
            lemma_without_len(s.info.hidden, index, s.info.hidden.len() as int);
        }
    }
}

/// Giving a function up leaves no more to give up than there was.
pub proof fn lemma_freed_shrinks(j: Jit, index: u16)
    ensures
        ({
            let (a, more) = j.module_freed(index);
            hidden_total(a.pages, a.pages.len() as int) + more.len() <= hidden_total(
                j.pages,
                j.pages.len() as int,
            )
        }),
{
    reveal(Jit::module_freed);
    reveal(Jit::index_freed);
    lemma_total_shrinks(j.pages, index, j.pages.len() as int);
}

impl Jit {
    /// With a function given up: its pages have no code, and the functions that held them before
    /// are named.
    #[verifier::opaque]
    pub open spec fn module_freed(self, index: u16) -> (Jit, Seq<u16>) {
        let (tlb, dispatch) = swept(
            self.tlb,
            self.dispatch,
            self.entered,
            self.mem8,
            index,
            self.tlb.len() as int,
        );
        (
            (Jit {
                tlb,
                dispatch,
                pages: remaining(self.pages, index, self.pages.len() as int),
                ..self
            }).index_freed(index),
            hidden_of(self.pages, index, self.pages.len() as int),
        )
    }

    /// With functions given up, and those that held the code of their pages before. None is given
    /// up twice.
    pub open spec fn forest_freed(self, stack: Seq<u16>, seen: Seq<u16>) -> Jit
        decreases hidden_total(self.pages, self.pages.len() as int) + stack.len(),
    {
        if stack.len() == 0 {
            self
        } else {
            let index = stack.last();
            let rest = stack.drop_last();
            if seen.contains(index) {
                self.forest_freed(rest, seen)
            } else {
                let (j, more) = self.module_freed(index);
                proof {
                    lemma_freed_shrinks(self, index);
                }
                j.forest_freed(rest + more, seen.push(index))
            }
        }
    }

    /// With a page written: it has no code, and has not been entered.
    #[verifier::opaque]
    pub open spec fn dirtied(self, page: u32) -> Jit {
        let k = jit_state::place_of(self.pages, page, 0);
        let e = jit_state::entered_at(self.entered, page, 0);
        let had_code = k < self.pages.len();
        let had_entries = e < self.entered.len();
        let a = if had_code {
            let info = self.pages[k].info;
            (Jit { pages: self.pages.remove(k), ..self }).forest_freed(
                info.hidden.push(info.index),
                Seq::empty(),
            )
        } else {
            self
        };
        let b = if had_entries {
            Jit {
                entered: a.entered.remove(e),
                compiling: match a.compiling {
                    Some(c) => Some(
                        if !c.written && jit_state::holds_page(c.pages, page) {
                            InWork { written: true, pages: Seq::empty(), ..c }
                        } else {
                            c
                        },
                    ),
                    None => None,
                },
                ..a
            }
        } else {
            a
        };
        if had_code || had_entries {
            Jit { tlb: jit_state::marked(b.tlb, b.mem8, page, false), ..b }
        } else {
            b
        }
    }

    /// With the first `n` of some pages written.
    pub open spec fn all_dirtied(self, pages: Seq<u32>, n: int) -> Jit
        decreases n,
    {
        if n <= 0 {
            self
        } else {
            self.all_dirtied(pages, n - 1).dirtied(pages[n - 1])
        }
    }
}

/// The pages that have been entered or have code, each once.
pub open spec fn coded_pages(entered: Seq<Entered>, pages: Seq<Slot>, n: int) -> Seq<u32>
    decreases n,
{
    if n <= 0 {
        Seq::new(entered.len(), |i: int| entered[i].page)
    } else {
        let before = coded_pages(entered, pages, n - 1);
        if before.contains(pages[n - 1].page) {
            before
        } else {
            before.push(pages[n - 1].page)
        }
    }
}

impl Jit {
    /// With all code given up.
    pub open spec fn cache_cleared(self) -> Jit {
        let pages = coded_pages(self.entered, self.pages, self.pages.len() as int);
        self.all_dirtied(pages, pages.len() as int)
    }
}

impl JitState {
    /// What every operation relies on and keeps.
    pub open spec fn wf(self) -> bool {
        self@.wf() && self.dispatch.wf()
    }
}

impl Runtime {
    /// Forgets a function that waits for the larger budget.
    fn tier2_pending_drop(&mut self, index: u16)
        ensures
            final(self)@ == (Run {
                pending: without(old(self)@.pending, index, old(self)@.pending.len() as int),
                ..old(self)@
            }),
            final(self)@.pending.len() <= old(self)@.pending.len(),
    {
        self.pending = drop_all(&self.pending, index);
    }

    /// Forgets where all returns led.
    pub fn ret_cache_invalidate_all(&mut self)
        ensures
            final(self)@ == (Run { epoch: old(self)@.epoch.wrapping_add(1), ..old(self)@ }),
    {
        self.epoch = self.epoch.wrapping_add(1);
    }
}

pub proof fn lemma_audit_keeps(run: Run, meta: Seq<u64>, tlb: Seq<TlbEntry>, index: u16, n: int)
    ensures
        audited(run, meta, tlb, index, n).exec_counts == run.exec_counts,
        audited(run, meta, tlb, index, n).entry_totals == run.entry_totals,
        audited(run, meta, tlb, index, n).ret_cache == run.ret_cache,
        audited(run, meta, tlb, index, n).pending == run.pending,
        audited(run, meta, tlb, index, n).epoch == run.epoch,
        audited(run, meta, tlb, index, n).counts.double_free_skipped
            == run.counts.double_free_skipped,
        run.wf() ==> audited(run, meta, tlb, index, n).wf(),
    decreases n,
{
    if n > 0 {
        lemma_audit_keeps(run, meta, tlb, index, n - 1);
    }
}

impl JitState {
    fn audit(&mut self, index: u16)
        requires
            old(self).wf(),
        ensures
            final(self).wf(),
            final(self)@ == (Jit {
                run: audited(
                    old(self)@.run,
                    old(self)@.dispatch.meta,
                    old(self)@.tlb,
                    index,
                    DISPATCH_PAGES as int,
                ),
                ..old(self)@
            }),
    {
        let mut page: usize = 0;
        while page < DISPATCH_PAGES
            invariant
                page <= DISPATCH_PAGES,
                old(self).wf(),
                self.dispatch.wf(),
                self@ == (Jit {
                    run: audited(
                        old(self)@.run,
                        old(self)@.dispatch.meta,
                        old(self)@.tlb,
                        index,
                        page as int,
                    ),
                    ..old(self)@
                }),
            decreases DISPATCH_PAGES - page,
        {
            let w: u64 = self.dispatch.meta[page];
            if w != 0 && dispatch_meta_table_index(w) == index {
                let data: i32 = tlb_data(&self.tlb, page as u32);
                self.run.counts.stale_meta = self.run.counts.stale_meta.wrapping_add(1);
                if data != 0 {
                    self.run.counts.stale_meta_live = self.run.counts.stale_meta_live.wrapping_add(
                        1,
                    );
                } else {
                    self.run.counts.stale_meta_dead = self.run.counts.stale_meta_dead.wrapping_add(
                        1,
                    );
                }
                self.run.wrong_entry_ring_push(
                    Record {
                        a: page as u32 * 0x1000,
                        b: index as u32,
                        c: data as u32,
                        tag: 3,
                    },
                );
            }
            page = page + 1;
        }
        proof {
            lemma_audit_keeps(
                old(self)@.run,
                old(self)@.dispatch.meta,
                old(self)@.tlb,
                index,
                DISPATCH_PAGES as int,
            );
        }
    }

    /// Makes a place of the function table free.
    pub fn free_wasm_table_index(&mut self, index: u16)
        requires
            old(self).wf(),
        ensures
            final(self).wf(),
            final(self)@ == old(self)@.index_freed(index),
    {
        reveal(Jit::index_freed);
        if contains_u16(&self.free, index) {
            self.run.counts.double_free_skipped = self.run.counts.double_free_skipped.wrapping_add(
                1,
            );
            assert(self@ =~= old(self)@.index_freed(index));
            return ;
        }
        proof {
            lemma_audit_keeps(
                self@.run,
                self@.dispatch.meta,
                self@.tlb,
                index,
                DISPATCH_PAGES as int,
            );
        }
        if wrong_entry_verify_enabled(&self.config) {
            self.audit(index);
        }
        self.free.push(index);
        self.run.ret_cache_invalidate_all();
        self.run.exec_counts.set(index as usize, 0);
        self.run.entry_totals.set(index as usize, 0);
        self.run.tier2_pending_drop(index);
        self.emptied.push(index);
        assert(self@ =~= old(self)@.index_freed(index));
    }
}

impl JitState {
    fn sweep(&mut self, index: u16)
        requires
            old(self).wf(),
        ensures
            final(self).wf(),
            ({
                let (tlb, dispatch) = swept(
                    old(self)@.tlb,
                    old(self)@.dispatch,
                    old(self)@.entered,
                    old(self)@.mem8,
                    index,
                    old(self)@.tlb.len() as int,
                );
                final(self)@ == (Jit { tlb, dispatch, ..old(self)@ })
            }),
    {
        let n: usize = self.tlb.len();
        let mut i: usize = 0;
        while i < n
            invariant
                i <= n == self.tlb@.len(),
                n == old(self)@.tlb.len(),
                old(self).wf(),
                self.dispatch.wf(),
                ({
                    let (tlb, dispatch) = swept(
                        old(self)@.tlb,
                        old(self)@.dispatch,
                        old(self)@.entered,
                        old(self)@.mem8,
                        index,
                        i as int,
                    );
                    self@ == (Jit { tlb, dispatch, ..old(self)@ })
                }),
            decreases n - i,
        {
            let e: TlbEntry = self.tlb[i];
            let w: u64 = dispatch_meta_get(&self.dispatch, e.page);
            if e.data != 0 && w != 0 && dispatch_meta_table_index(w) == index {
                dispatch_meta_clear(&mut self.dispatch, e.page);
                let known: bool = find_entered(&self.entry_points, tlb_frame(e, self.mem8))
                    < self.entry_points.len();
                if !known {
                    self.tlb.set(i, TlbEntry { page: e.page, data: e.data & !TLB_HAS_CODE });
                }
            }
            i = i + 1;
        }
    }
}

/// What a list of pages becomes while a function is given up: the first `k` are done.
spec fn half_done(pages: Seq<Slot>, index: u16, k: int) -> Seq<Slot> {
    remaining(pages, index, k) + pages.subrange(k, pages.len() as int)
}

proof fn lemma_remaining_fits(pages: Seq<Slot>, index: u16, n: int)
    requires
        0 <= n <= pages.len(),
        jit_state::entries_fit(pages),
    ensures
        jit_state::entries_fit(remaining(pages, index, n)),
    decreases n,
{
    if n > 0 {
        lemma_remaining_fits(pages, index, n - 1);
        let before = remaining(pages, index, n - 1);
        let after = remaining(pages, index, n);
        assert forall|i: int, k: int|
            0 <= i < after.len() && 0 <= k < after[i].info.entries.len() implies (
        #[trigger] after[i].info.entries[k]).0 < 0x1000 by {
            if i < before.len() {
                assert(after[i] == before[i]);
                assert(before[i].info.entries[k].0 < 0x1000);
            } else {
                assert(pages[n - 1].info.entries[k].0 < 0x1000);
            }
        }
    }
}

fn drop_module(pages: &mut Vec<PageSlot>, index: u16) -> (hidden: Vec<u16>)
    ensures
        jit_state::slots(final(pages)@) == remaining(
            jit_state::slots(old(pages)@),
            index,
            old(pages)@.len() as int,
        ),
        hidden@ == hidden_of(jit_state::slots(old(pages)@), index, old(pages)@.len() as int),
{
    let ghost first = jit_state::slots(pages@);
    let ghost mut k: int = 0;
    let mut hidden: Vec<u16> = Vec::new();
    let mut i: usize = 0;
    assert(half_done(first, index, 0) =~= first);
    while i < pages.len()
        invariant
            first == jit_state::slots(old(pages)@),
            0 <= k <= first.len(),
            i == remaining(first, index, k).len(),
            jit_state::slots(pages@) == half_done(first, index, k),
            hidden@ == hidden_of(first, index, k),
        decreases first.len() - k,
    {
        let ghost now = jit_state::slots(pages@);
        assert(now[i as int] == pages@[i as int]@);
        assert(now[i as int] == first[k]);
        assert(now.len() == pages@.len());
        if pages[i].info.wasm_table_index == index {
            let gone: PageSlot = pages.remove(i);
            let mut old_hidden: Vec<u16> = gone.info.hidden;
            hidden.append(&mut old_hidden);
            assert(jit_state::slots(pages@) =~= now.remove(i as int));
            assert(now.remove(i as int) =~= half_done(first, index, k + 1));
        } else {
            let kept: Vec<u16> = drop_all(&pages[i].info.hidden, index);
            pages[i].info.hidden = kept;
            assert(pages@[i as int]@ =~= stripped(first[k], index));
            assert(jit_state::slots(pages@) =~= now.update(i as int, stripped(first[k], index)));
            assert(now.update(i as int, stripped(first[k], index)) =~= half_done(
                first,
                index,
                k + 1,
            ));
            i = i + 1;
        }
        proof {
            k = k + 1;
        }
    }
    proof {
        assert(jit_state::slots(pages@).len() == pages@.len());
        assert(k == first.len());
        assert(half_done(first, index, k) =~= remaining(first, index, k));
    }
    hidden
}

impl JitState {
    /// Gives a function up. Returns the functions that held the code of its pages before.
    pub fn free_wasm_module(&mut self, index: u16) -> (r: Vec<u16>)
        requires
            old(self).wf(),
        ensures
            final(self).wf(),
            (final(self)@, r@) == old(self)@.module_freed(index),
    {
        reveal(Jit::module_freed);
        self.sweep(index);
        let r: Vec<u16> = drop_module(&mut self.pages, index);
        proof {
            lemma_remaining_fits(old(self)@.pages, index, old(self)@.pages.len() as int);
        }
        self.free_wasm_table_index(index);
        r
    }

    /// Gives functions up, and those that held the code of their pages before.
    pub fn free_wasm_module_forest(&mut self, roots: Vec<u16>)
        requires
            old(self).wf(),
        ensures
            final(self).wf(),
            final(self)@ == old(self)@.forest_freed(roots@, Seq::empty()),
    {
        let mut stack: Vec<u16> = roots;
        let mut seen: Vec<u16> = Vec::new();
        let ghost goal = self@.forest_freed(stack@, seen@);
        assert(seen@ =~= Seq::empty());
        while stack.len() > 0
            invariant
                self.wf(),
                self@.forest_freed(stack@, seen@) == goal,
                goal == old(self)@.forest_freed(roots@, Seq::empty()),
            decreases
                    jit_free_measure(self@, stack@),
        {
            let ghost before = self@;
            let ghost all = stack@;
            if let Some(index) = stack.pop() {
                if !contains_u16(&seen, index) {
                    let mut more: Vec<u16> = self.free_wasm_module(index);
                    seen.push(index);
                    stack.append(&mut more);
                    proof {
                        reveal(Jit::module_freed);
                        reveal(Jit::index_freed);
                        lemma_total_shrinks(before.pages, index, before.pages.len() as int);
                    }
                }
            }
        }
    }

    /// Gives a function up, and those that held the code of its pages before.
    pub fn free_wasm_module_tree(&mut self, root: u16)
        requires
            old(self).wf(),
        ensures
            final(self).wf(),
            final(self)@ == old(self)@.forest_freed(seq![root], Seq::empty()),
    {
        let roots: Vec<u16> = vec![root];
        assert(roots@ =~= seq![root]);
        self.free_wasm_module_forest(roots);
    }
}

spec fn jit_free_measure(j: Jit, stack: Seq<u16>) -> nat {
    hidden_total(j.pages, j.pages.len() as int) + stack.len()
}

/// Giving functions up leaves what has been entered, and what is in work.
pub proof fn lemma_forest_keeps(j: Jit, stack: Seq<u16>, seen: Seq<u16>)
    ensures
        j.forest_freed(stack, seen).entered == j.entered,
        j.forest_freed(stack, seen).compiling == j.compiling,
        j.forest_freed(stack, seen).staged == j.staged,
        j.forest_freed(stack, seen).tier2 == j.tier2,
        j.forest_freed(stack, seen).blocked == j.blocked,
        j.forest_freed(stack, seen).mem8 == j.mem8,
        j.forest_freed(stack, seen).config == j.config,
        j.forest_freed(stack, seen).snapshot == j.snapshot,
    decreases hidden_total(j.pages, j.pages.len() as int) + stack.len(),
{
    if stack.len() > 0 {
        let index = stack.last();
        let rest = stack.drop_last();
        if seen.contains(index) {
            lemma_forest_keeps(j, rest, seen);
        } else {
            let (a, more) = j.module_freed(index);
            reveal(Jit::module_freed);
            reveal(Jit::index_freed);
            lemma_total_shrinks(j.pages, index, j.pages.len() as int);
            lemma_forest_keeps(a, rest + more, seen.push(index));
        }
    }
}

/// A copy of a list.
pub fn copied(v: &Vec<u16>) -> (r: Vec<u16>)
    ensures
        r@ == v@,
{
    let mut r: Vec<u16> = Vec::new();
    let n: usize = v.len();
    let mut i: usize = 0;
    while i < n
        invariant
            i <= n == v@.len(),
            r@ == v@.take(i as int),
        decreases n - i,
    {
        r.push(v[i]);
        i = i + 1;
    }
    assert(r@ =~= v@);
    r
}

impl JitState {
    fn free_page(&mut self, k: usize)
        requires
            old(self).wf(),
            k < old(self)@.pages.len(),
        ensures
            final(self).wf(),
            ({
                let info = old(self)@.pages[k as int].info;
                final(self)@ == (Jit {
                    pages: old(self)@.pages.remove(k as int),
                    ..old(self)@
                }).forest_freed(info.hidden.push(info.index), Seq::empty())
            }),
    {
        assert(self@.pages[k as int] == self.pages@[k as int]@);
        let mut roots: Vec<u16> = copied(&self.pages[k].info.hidden);
        roots.push(self.pages[k].info.wasm_table_index);
        self.pages.remove(k);
        proof {
            let a = old(self)@.pages;
            let b = self@.pages;
            assert(b =~= a.remove(k as int));
            assert forall|i: int, m: int|
                0 <= i < b.len() && 0 <= m < b[i].info.entries.len() implies (
            #[trigger] b[i].info.entries[m]).0 < 0x1000 by {
                let i2 = if i < k {
                    i
                } else {
                    i + 1
                };
                assert(b[i] == a[i2]);
                assert(a[i2].info.entries[m].0 < 0x1000);
            }
        }
        self.free_wasm_module_forest(roots);
    }

    fn forget_entries(&mut self, e: usize, page: u32)
        requires
            old(self).wf(),
            e < old(self)@.entered.len(),
        ensures
            final(self).wf(),
            final(self)@ == (Jit {
                entered: old(self)@.entered.remove(e as int),
                compiling: match old(self)@.compiling {
                    Some(c) => Some(
                        if !c.written && jit_state::holds_page(c.pages, page) {
                            InWork { written: true, pages: Seq::empty(), ..c }
                        } else {
                            c
                        },
                    ),
                    None => None,
                },
                ..old(self)@
            }),
    {
        self.entry_points.remove(e);
        assert(self@.entered =~= old(self)@.entered.remove(e as int));
        let now: Option<Compiling> = self.compiling.take();
        if let Some(c) = now {
            if !c.written && find_slot(&c.pages, page) < c.pages.len() {
                let written: Compiling = Compiling {
                    wasm_table_index: c.wasm_table_index,
                    written: true,
                    pages: Vec::new(),
                };
                assert(written@.pages =~= Seq::empty());
                self.compiling = Some(written);
            } else {
                self.compiling = Some(c);
            }
        }
    }

    /// Registers a write to a page: all its code is given up.
    pub fn jit_dirty_page(&mut self, page: u32)
        requires
            old(self).wf(),
        ensures
            final(self).wf(),
            final(self)@ == old(self)@.dirtied(page),
    {
        reveal(Jit::dirtied);
        let mut had_code: bool = false;
        let k: usize = find_slot(&self.pages, page);
        if k < self.pages.len() {
            had_code = true;
            proof {
                let info = self@.pages[k as int].info;
                lemma_forest_keeps(
                    Jit { pages: self@.pages.remove(k as int), ..self@ },
                    info.hidden.push(info.index),
                    Seq::empty(),
                );
            }
            self.free_page(k);
        }
        let e: usize = find_entered(&self.entry_points, page);
        if e < self.entry_points.len() {
            had_code = true;
            self.forget_entries(e, page);
        }
        if had_code {
            tlb_set_has_code(&mut self.tlb, self.mem8, page, false);
        }
    }

    fn dirty_pages(&mut self, pages: &Vec<u32>)
        requires
            old(self).wf(),
        ensures
            final(self).wf(),
            final(self)@ == old(self)@.all_dirtied(pages@, pages@.len() as int),
    {
        let n: usize = pages.len();
        let mut i: usize = 0;
        while i < n
            invariant
                i <= n == pages@.len(),
                self.wf(),
                self@ == old(self)@.all_dirtied(pages@, i as int),
            decreases n - i,
        {
            self.jit_dirty_page(pages[i]);
            i = i + 1;
        }
    }

    /// Registers a write to a range of addresses.
    pub fn jit_dirty_cache(&mut self, start_addr: u32, end_addr: u32)
        requires
            old(self).wf(),
            start_addr < end_addr,
        ensures
            final(self).wf(),
            final(self)@ == old(self)@.all_dirtied(
                touched(start_addr, end_addr),
                touched(start_addr, end_addr).len() as int,
            ),
    {
        let first: u32 = start_addr / 0x1000;
        let last: u32 = (end_addr - 1) / 0x1000;
        let mut pages: Vec<u32> = Vec::new();
        let mut page: u32 = first;
        while page <= last
            invariant
                first <= page <= last + 1,
                last <= 0xF_FFFF,
                pages@ == Seq::new((page - first) as nat, |i: int| (first + i) as u32),
            decreases last + 1 - page,
        {
            pages.push(page);
            page = page + 1;
            assert(pages@ =~= Seq::new((page - first) as nat, |i: int| (first + i) as u32));
        }
        assert(pages@ =~= touched(start_addr, end_addr));
        self.dirty_pages(&pages);
    }

    /// Registers a write to a range of addresses on at most two pages.
    pub fn jit_dirty_cache_small(&mut self, start_addr: u32, end_addr: u32)
        requires
            old(self).wf(),
            start_addr < end_addr,
            (end_addr - 1) / 0x1000 <= start_addr / 0x1000 + 1,
        ensures
            final(self).wf(),
            final(self)@ == old(self)@.all_dirtied(
                touched(start_addr, end_addr),
                touched(start_addr, end_addr).len() as int,
            ),
    {
        let first: u32 = start_addr / 0x1000;
        let last: u32 = (end_addr - 1) / 0x1000;
        proof {
            let t = touched(start_addr, end_addr);
            assert(old(self)@.all_dirtied(t, 0) == old(self)@);
            assert(old(self)@.all_dirtied(t, 1) == old(self)@.dirtied(first));
            if last != first {
                assert(t.len() == 2);
                assert(old(self)@.all_dirtied(t, 2) == old(self)@.dirtied(first).dirtied(last));
            }
        }
        self.jit_dirty_page(first);
        if first != last {
            self.jit_dirty_page(last);
        }
    }

    /// Gives all code up.
    pub fn jit_clear_cache_js(&mut self)
        requires
            old(self).wf(),
        ensures
            final(self).wf(),
            final(self)@ == old(self)@.cache_cleared(),
    {
        let mut pages: Vec<u32> = Vec::new();
        let m: usize = self.entry_points.len();
        let mut i: usize = 0;
        while i < m
            invariant
                i <= m == self.entry_points@.len(),
                self@ == old(self)@,
                pages@ == Seq::new(i as nat, |j: int| self@.entered[j].page),
            decreases m - i,
        {
            pages.push(self.entry_points[i].page);
            i = i + 1;
            assert(pages@ =~= Seq::new(i as nat, |j: int| self@.entered[j].page));
        }
        assert(pages@ =~= coded_pages(self@.entered, self@.pages, 0));
        let n: usize = self.pages.len();
        i = 0;
        while i < n
            invariant
                i <= n == self.pages@.len(),
                self@ == old(self)@,
                pages@ == coded_pages(self@.entered, self@.pages, i as int),
            decreases n - i,
        {
            let page: u32 = self.pages[i].page;
            assert(self@.pages[i as int].page == page);
            if !contains_u32(&pages, page) {
                pages.push(page);
            }
            i = i + 1;
        }
        self.dirty_pages(&pages);
    }
}

/// The pages that a range of addresses touches.
pub open spec fn touched(start_addr: u32, end_addr: u32) -> Seq<u32> {
    let first = start_addr / 0x1000;
    let last = (end_addr - 1) / 0x1000;
    Seq::new((last + 1 - first) as nat, |i: int| (first + i) as u32)
}

} // verus!
