//! A function that was compiled takes the code of its pages over: the dispatch table leads to it,
//! and the functions that held the code before stay known until no page needs them.
use vstd::prelude::*;
use crate::dispatch;
use crate::dispatch::{set_tlb_code, Dispatched};
use crate::jit_free;
use crate::jit_state;
use crate::jit_state::{
    contains_u16, find_slot, tlb_frame, Compiling, Counts, Info, Jit, JitState, PageInfo, PageSlot,
    Record, Run, Slot, TlbEntry,
};

verus! {

/// The dispatch table after the pages of the first `n` entries of the translation buffer were
/// published, where they have code.
pub open spec fn stamped(
    d: Dispatched,
    tlb: Seq<TlbEntry>,
    mem8: u32,
    new: Seq<Slot>,
    index: u16,
    flags: u32,
    n: int,
) -> Dispatched
    decreases n,
{
    if n <= 0 {
        d
    } else {
        let before = stamped(d, tlb, mem8, new, index, flags, n - 1);
        let e = tlb[n - 1];
        let k = jit_state::place_of(new, jit_state::frame_of(e, mem8), 0);
        if e.data != 0 && k < new.len() {
            before.published(e.page, index, new[k].info.entries, flags)
        } else {
            before
        }
    }
}

/// The code of a page taken over: the function that held it is known as one that did before.
pub open spec fn taken_over(new: Slot, past: Slot) -> Slot {
    Slot {
        page: new.page,
        info: Info {
            hidden: (new.info.hidden + past.info.hidden).push(past.info.index),
            ..new.info
        },
    }
}

/// A list with a number, once.
pub open spec fn with(v: Seq<u16>, x: u16) -> Seq<u16> {
    if v.contains(x) {
        v
    } else {
        v.push(x)
    }
}

/// The pages with the code of the first `n` new ones, and the functions that lost code to them.
pub open spec fn replaced(pages: Seq<Slot>, new: Seq<Slot>, n: int) -> (Seq<Slot>, Seq<u16>)
    decreases n,
{
    if n <= 0 {
        (pages, Seq::empty())
    } else {
        let (p, lost) = replaced(pages, new, n - 1);
        let k = jit_state::place_of(p, new[n - 1].page, 0);
        if k < p.len() {
            (p.update(k, taken_over(new[n - 1], p[k])), with(lost, p[k].info.index))
        } else {
            (p.push(new[n - 1]), lost)
        }
    }
}

/// The first `n` of some functions that hold the code of no page.
pub open spec fn unused(pages: Seq<Slot>, lost: Seq<u16>, n: int) -> Seq<u16>
    decreases n,
{
    if n <= 0 {
        Seq::empty()
    } else if jit_state::used(pages, lost[n - 1]) {
        unused(pages, lost, n - 1)
    } else {
        unused(pages, lost, n - 1).push(lost[n - 1])
    }
}

/// Pages without a function that held their code before.
pub open spec fn all_stripped(pages: Seq<Slot>, index: u16) -> Seq<Slot> {
    Seq::new(pages.len(), |i: int| jit_free::stripped(pages[i], index))
}

impl Jit {
    /// With functions given up that hold no code any more.
    pub open spec fn unused_freed(self, list: Seq<u16>) -> Jit
        decreases list.len(),
    {
        if list.len() == 0 {
            self
        } else {
            (Jit { pages: all_stripped(self.pages, list.last()), ..self }).index_freed(
                list.last(),
            ).unused_freed(list.drop_last())
        }
    }

    /// With a compilation that failed: what was in work for the place is forgotten. 0 where it
    /// was, 1 where nothing was in work, 2 where something else was.
    pub open spec fn failed(self, index: u16, phys: u32, kind: u32) -> (Jit, u32) {
        let status: u32 = match self.compiling {
            None => 1,
            Some(c) => if c.index != index {
                2
            } else {
                0
            },
        };
        let j = if status == 0 {
            (Jit { compiling: None, ..self }).index_freed(index)
        } else {
            self
        };
        let c = j.run.counts;
        (
            Jit {
                run: Run {
                    counts: Counts {
                        finalize_failures: c.finalize_failures.wrapping_add(1),
                        finalize_last: Record {
                            a: index as u32,
                            b: phys,
                            c: kind,
                            tag: status,
                        },
                        ..c
                    },
                    ..j.run
                },
                ..j
            },
            status,
        )
    }

    /// With a function that was compiled: it holds the code of its pages, unless one of them was
    /// written meanwhile.
    #[verifier::opaque]
    pub open spec fn finished(self, index: u16, flags: u32) -> Jit {
        match self.compiling {
            None => self,
            Some(c) => if c.written {
                (Jit { compiling: None, ..self }).index_freed(index)
            } else {
                let (pages, lost) = replaced(self.pages, c.pages, c.pages.len() as int);
                (Jit {
                    compiling: None,
                    dispatch: stamped(
                        self.dispatch,
                        self.tlb,
                        self.mem8,
                        c.pages,
                        index,
                        flags,
                        self.tlb.len() as int,
                    ),
                    pages,
                    ..self
                }).unused_freed(unused(pages, lost, lost.len() as int))
            },
        }
    }

    /// With the code of a physical page published for a virtual one.
    pub open spec fn tlb_code_updated(self, virt_page: u32, phys_page: u32) -> Jit {
        let k = jit_state::place_of(self.pages, phys_page, 0);
        if k < self.pages.len() {
            let info = self.pages[k].info;
            Jit {
                dispatch: self.dispatch.published(virt_page, info.index, info.entries, info.flags),
                ..self
            }
        } else {
            self
        }
    }
}

fn stamp(s: &mut JitState, new: &Vec<PageSlot>, index: u16, flags: u32)
    requires
        old(s).wf(),
        jit_state::entries_fit(jit_state::slots(new@)),
    ensures
        final(s).wf(),
        final(s)@ == (Jit {
            dispatch: stamped(
                old(s)@.dispatch,
                old(s)@.tlb,
                old(s)@.mem8,
                jit_state::slots(new@),
                index,
                flags,
                old(s)@.tlb.len() as int,
            ),
            ..old(s)@
        }),
{
    let n: usize = s.tlb.len();
    let mut i: usize = 0;
    while i < n
        invariant
            i <= n == s.tlb@.len(),
            old(s).wf(),
            s.dispatch.wf(),
            jit_state::entries_fit(jit_state::slots(new@)),
            s@ == (Jit {
                dispatch: stamped(
                    old(s)@.dispatch,
                    old(s)@.tlb,
                    old(s)@.mem8,
                    jit_state::slots(new@),
                    index,
                    flags,
                    i as int,
                ),
                ..old(s)@
            }),
        decreases n - i,
    {
        let e: TlbEntry = s.tlb[i];
        if e.data != 0 {
            let k: usize = find_slot(new, tlb_frame(e, s.mem8));
            if k < new.len() {
                assert(jit_state::slots(new@)[k as int] == new@[k as int]@);
                assert forall|m: int| 0 <= m < new@[k as int].info.entry_points@.len() implies (
                #[trigger] new@[k as int].info.entry_points@[m]).0 < 0x1000 by {
                    assert(jit_state::slots(new@)[k as int].info.entries[m].0 < 0x1000);
                }
                set_tlb_code(&mut s.dispatch, e.page, index, &new[k].info.entry_points, flags);
            }
        }
        i = i + 1;
    }
}

fn appended(a: &Vec<u16>, b: &Vec<u16>, last: u16) -> (r: Vec<u16>)
    ensures
        r@ == (a@ + b@).push(last),
{
    let mut r: Vec<u16> = Vec::new();
    let n: usize = a.len();
    let mut i: usize = 0;
    while i < n
        invariant
            i <= n == a@.len(),
            r@ == a@.take(i as int),
        decreases n - i,
    {
        r.push(a[i]);
        i = i + 1;
    }
    assert(r@ =~= a@);
    let m: usize = b.len();
    i = 0;
    while i < m
        invariant
            i <= m == b@.len(),
            r@ == a@ + b@.take(i as int),
        decreases m - i,
    {
        r.push(b[i]);
        i = i + 1;
    }
    r.push(last);
    assert(r@ =~= (a@ + b@).push(last));
    r
}

/// Entries stay within their pages when a page is put in.
pub proof fn lemma_fits_update(pages: Seq<Slot>, k: int, s: Slot)
    requires
        jit_state::entries_fit(pages),
        jit_state::entries_fit(seq![s]),
    ensures
        0 <= k < pages.len() ==> jit_state::entries_fit(pages.update(k, s)),
        jit_state::entries_fit(pages.push(s)),
{
    assert forall|m: int| 0 <= m < s.info.entries.len() implies (
    #[trigger] s.info.entries[m]).0 < 0x1000 by {
        assert(seq![s][0].info.entries[m].0 < 0x1000);
    }
    let b = pages.push(s);
    assert forall|i: int, m: int|
        0 <= i < b.len() && 0 <= m < b[i].info.entries.len() implies (
    #[trigger] b[i].info.entries[m]).0 < 0x1000 by {
        if i < pages.len() {
            assert(b[i] == pages[i]);
            assert(pages[i].info.entries[m].0 < 0x1000);
        }
    }
    if 0 <= k < pages.len() {
        let c = pages.update(k, s);
        assert forall|i: int, m: int|
            0 <= i < c.len() && 0 <= m < c[i].info.entries.len() implies (
        #[trigger] c[i].info.entries[m]).0 < 0x1000 by {
            if i != k {
                assert(c[i] == pages[i]);
                assert(pages[i].info.entries[m].0 < 0x1000);
            }
        }
    }
}

fn replace_pages(pages: &mut Vec<PageSlot>, new: Vec<PageSlot>) -> (lost: Vec<u16>)
    requires
        jit_state::entries_fit(jit_state::slots(old(pages)@)),
        jit_state::entries_fit(jit_state::slots(new@)),
    ensures
        jit_state::entries_fit(jit_state::slots(final(pages)@)),
        (jit_state::slots(final(pages)@), lost@) == replaced(
            jit_state::slots(old(pages)@),
            jit_state::slots(new@),
            new@.len() as int,
        ),
{
    let ghost all = jit_state::slots(new@);
    let ghost mut n: int = 0;
    let mut left: Vec<PageSlot> = new;
    let mut lost: Vec<u16> = Vec::new();
    assert(jit_state::slots(left@) =~= all.subrange(0, all.len() as int));
    while left.len() > 0
        invariant
            0 <= n <= all.len(),
            jit_state::entries_fit(all),
            all == jit_state::slots(new@),
            jit_state::slots(left@) == all.subrange(n, all.len() as int),
            jit_state::entries_fit(jit_state::slots(pages@)),
            (jit_state::slots(pages@), lost@) == replaced(
                jit_state::slots(old(pages)@),
                all,
                n,
            ),
        decreases left@.len(),
    {
        let ghost before = jit_state::slots(pages@);
        let ghost rest = jit_state::slots(left@);
        assert(rest[0] == left@[0]@);
        assert(rest.len() == left@.len());
        let mut slot: PageSlot = left.remove(0);
        assert(slot@ == all[n]);
        assert forall|i: int| 0 <= i < left@.len() implies #[trigger] jit_state::slots(left@)[i]
            == all[n + 1 + i] by {
            assert(rest[i + 1] == all[n + 1 + i]);
        }
        assert(jit_state::slots(left@) =~= all.subrange(n + 1, all.len() as int));
        assert(jit_state::entries_fit(seq![slot@])) by {
            assert forall|i: int, m: int|
                0 <= i < 1 && 0 <= m < seq![slot@][i].info.entries.len() implies (
            #[trigger] seq![slot@][i].info.entries[m]).0 < 0x1000 by {
                assert(all[n].info.entries[m].0 < 0x1000);
            }
        }
        let k: usize = find_slot(pages, slot.page);
        if k < pages.len() {
            assert(before[k as int] == pages@[k as int]@);
            let index: u16 = pages[k].info.wasm_table_index;
            slot.info.hidden = appended(&slot.info.hidden, &pages[k].info.hidden, index);
            assert(slot@ =~= taken_over(all[n], before[k as int]));
            if !contains_u16(&lost, index) {
                lost.push(index);
            }
            proof {
                assert(jit_state::entries_fit(seq![slot@])) by {
                    assert forall|i: int, m: int|
                        0 <= i < 1 && 0 <= m < seq![slot@][i].info.entries.len() implies (
                    #[trigger] seq![slot@][i].info.entries[m]).0 < 0x1000 by {
                        assert(all[n].info.entries[m].0 < 0x1000);
                    }
                }
                lemma_fits_update(before, k as int, slot@);
            }
            let ghost view = slot@;
            pages.set(k, slot);
            assert(jit_state::slots(pages@) =~= before.update(k as int, view));
        } else {
            proof {
                lemma_fits_update(before, k as int, slot@);
            }
            let ghost view = slot@;
            pages.push(slot);
            assert(jit_state::slots(pages@) =~= before.push(view));
        }
        proof {
            n = n + 1;
        }
    }
    proof {
        assert(jit_state::slots(left@).len() == left@.len());
        assert(n == all.len());
    }
    lost
}

fn is_used(pages: &Vec<PageSlot>, index: u16) -> (r: bool)
    ensures
        r == jit_state::used(jit_state::slots(pages@), index),
{
    let n: usize = pages.len();
    let mut i: usize = 0;
    while i < n
        invariant
            i <= n == pages@.len(),
            forall|k: int|
                0 <= k < i ==> (#[trigger] jit_state::slots(pages@)[k]).info.index != index,
        decreases n - i,
    {
        assert(jit_state::slots(pages@)[i as int] == pages@[i as int]@);
        if pages[i].info.wasm_table_index == index {
            return true;
        }
        i = i + 1;
    }
    false
}

fn find_unused(pages: &Vec<PageSlot>, lost: &Vec<u16>) -> (r: Vec<u16>)
    ensures
        r@ == unused(jit_state::slots(pages@), lost@, lost@.len() as int),
{
    let mut r: Vec<u16> = Vec::new();
    let n: usize = lost.len();
    let mut i: usize = 0;
    while i < n
        invariant
            i <= n == lost@.len(),
            r@ == unused(jit_state::slots(pages@), lost@, i as int),
        decreases n - i,
    {
        if !is_used(pages, lost[i]) {
            r.push(lost[i]);
        }
        i = i + 1;
    }
    r
}

fn strip_all(pages: &mut Vec<PageSlot>, index: u16)
    ensures
        jit_state::slots(final(pages)@) == all_stripped(jit_state::slots(old(pages)@), index),
{
    let ghost first = jit_state::slots(pages@);
    let n: usize = pages.len();
    let mut i: usize = 0;
    while i < n
        invariant
            i <= n == pages@.len(),
            n == first.len(),
            first == jit_state::slots(old(pages)@),
            forall|k: int|
                0 <= k < n ==> #[trigger] jit_state::slots(pages@)[k] == (if k < i {
                    jit_free::stripped(first[k], index)
                } else {
                    first[k]
                }),
        decreases n - i,
    {
        let ghost before = jit_state::slots(pages@);
        assert(before[i as int] == pages@[i as int]@);
        let kept: Vec<u16> = jit_free::drop_all(&pages[i].info.hidden, index);
        pages[i].info.hidden = kept;
        assert(pages@[i as int]@ =~= jit_free::stripped(first[i as int], index));
        assert(jit_state::slots(pages@) =~= before.update(
            i as int,
            jit_free::stripped(first[i as int], index),
        ));
        i = i + 1;
    }
    assert(jit_state::slots(pages@) =~= all_stripped(first, index));
}

proof fn lemma_stripped_fits(pages: Seq<Slot>, index: u16)
    requires
        jit_state::entries_fit(pages),
    ensures
        jit_state::entries_fit(all_stripped(pages, index)),
{
    let s = all_stripped(pages, index);
    assert forall|i: int, m: int|
        0 <= i < s.len() && 0 <= m < s[i].info.entries.len() implies (
    #[trigger] s[i].info.entries[m]).0 < 0x1000 by {
        assert(pages[i].info.entries[m].0 < 0x1000);
    }
}

impl JitState {
    fn free_unused(&mut self, list: Vec<u16>)
        requires
            old(self).wf(),
        ensures
            final(self).wf(),
            final(self)@ == old(self)@.unused_freed(list@),
    {
        let ghost goal = self@.unused_freed(list@);
        let mut left: Vec<u16> = list;
        while left.len() > 0
            invariant
                self.wf(),
                self@.unused_freed(left@) == goal,
                goal == old(self)@.unused_freed(list@),
            decreases left@.len(),
        {
            if let Some(index) = left.pop() {
                proof {
                    lemma_stripped_fits(self@.pages, index);
                }
                strip_all(&mut self.pages, index);
                self.free_wasm_table_index(index);
            }
        }
    }

    /// Forgets a compilation that failed. Returns 0 where it was in work, 1 where nothing was, 2
    /// where something else was.
    pub fn codegen_finalize_failed(&mut self, index: u16, phys_addr: u32, error_kind: u32) -> (r:
        u32)
        requires
            old(self).wf(),
        ensures
            final(self).wf(),
            (final(self)@, r) == old(self)@.failed(index, phys_addr, error_kind),
    {
        let status: u32 = match &self.compiling {
            None => 1,
            Some(c) => if c.wasm_table_index != index {
                2
            } else {
                0
            },
        };
        if status == 0 {
            self.compiling = None;
            self.free_wasm_table_index(index);
        }
        self.run.counts.finalize_failures = self.run.counts.finalize_failures.wrapping_add(1);
        self.run.counts.finalize_last = Record {
            a: index as u32,
            b: phys_addr,
            c: error_kind,
            tag: status,
        };
        status
    }

    /// Publishes a function that was compiled.
    pub fn codegen_finalize_finished(&mut self, index: u16, flags: u32)
        requires
            old(self).wf(),
        ensures
            final(self).wf(),
            final(self)@ == old(self)@.finished(index, flags),
    {
        reveal(Jit::finished);
        let now: Option<Compiling> = self.compiling.take();
        match now {
            None => {},
            Some(c) => {
                if c.written {
                    self.free_wasm_table_index(index);
                } else {
                    stamp(self, &c.pages, index, flags);
                    let lost: Vec<u16> = replace_pages(&mut self.pages, c.pages);
                    let list: Vec<u16> = find_unused(&self.pages, &lost);
                    self.free_unused(list);
                }
            },
        }
    }

    /// Publishes the code of a physical page for a virtual one. Returns whether it has any; where
    /// it has none, the caller clears the entry of the translation buffer with its number.
    pub fn update_tlb_code(&mut self, virt_page: u32, phys_page: u32) -> (r: bool)
        requires
            old(self).wf(),
        ensures
            final(self).wf(),
            final(self)@ == old(self)@.tlb_code_updated(virt_page, phys_page),
            r == jit_state::holds_page(old(self)@.pages, phys_page),
    {
        let k: usize = find_slot(&self.pages, phys_page);
        if k < self.pages.len() {
            assert(self@.pages[k as int] == self.pages@[k as int]@);
            assert forall|m: int| 0 <= m < self.pages@[k as int].info.entry_points@.len() implies (
            #[trigger] self.pages@[k as int].info.entry_points@[m]).0 < 0x1000 by {
                assert(self@.pages[k as int].info.entries[m].0 < 0x1000);
            }
            let info: &PageInfo = &self.pages[k].info;
            set_tlb_code(
                &mut self.dispatch,
                virt_page,
                info.wasm_table_index,
                &info.entry_points,
                info.state_flags,
            );
            true
        } else {
            false
        }
    }

    pub fn codegen_get_finalize_failure_count(&self) -> (r: u32)
        ensures
            r == self@.run.counts.finalize_failures,
    {
        self.run.counts.finalize_failures
    }

    /// What is known of the last compilation that failed, by number: place, address, kind and
    /// status.
    pub fn codegen_get_finalize_failure_info(&self, i: u32) -> (r: u32)
        ensures
            r == self@.run.counts.finalize_last.field(i),
    {
        self.run.counts.finalize_last.get(i)
    }

    pub fn codegen_is_compiling(&self) -> (r: u32)
        ensures
            r == if self@.compiling is Some {
                1u32
            } else {
                0
            },
    {
        if self.compiling.is_some() {
            1
        } else {
            0
        }
    }
}

impl Record {
    /// A word of a record by its number, zero beyond.
    pub open spec fn field(self, i: u32) -> u32 {
        if i == 0 {
            self.a
        } else if i == 1 {
            self.b
        } else if i == 2 {
            self.c
        } else if i == 3 {
            self.tag
        } else {
            0
        }
    }

    pub fn get(&self, i: u32) -> (r: u32)
        ensures
            r == self.field(i),
    {
        match i {
            0 => self.a,
            1 => self.b,
            2 => self.c,
            3 => self.tag,
            _ => 0,
        }
    }
}

} // verus!
