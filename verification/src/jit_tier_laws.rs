//! What holds of the pages with the larger budget at all times.
use vstd::prelude::*;
use crate::jit_aot;
use crate::jit_chain;
use crate::jit_free;
use crate::jit_search;
use crate::jit_state::{Counts, Jit, Run, Slot, FUNCTION_COUNTERS, TIER2_PAGE_SET_CAP};
use crate::jit_verify;
use crate::jit_verify::Jump;

verus! {

/// No page counts as refused that has the larger budget, and no more pages have it than may.
pub open spec fn is_settled(j: Jit) -> bool {
    &&& j.tier2.len() <= TIER2_PAGE_SET_CAP
    &&& forall|page: u32| #[trigger] j.tier2.contains(page) ==> !j.blocked.contains(page)
}

proof fn lemma_with(v: Seq<u32>, x: u32)
    ensures
        forall|y: u32| #[trigger]
            jit_search::with(v, x).contains(y) <==> v.contains(y) || y == x,
{
    let w = jit_search::with(v, x);
    if !v.contains(x) {
        assert(w[v.len() as int] == x);
        assert forall|y: u32| #[trigger] w.contains(y) <==> v.contains(y) || y == x by {
            if v.contains(y) {
                let k = v.index_of(y);
                assert(w[k] == y);
            }
        }
    }
}

proof fn lemma_page_out(v: Seq<u32>, x: u32, n: int)
    requires
        0 <= n <= v.len(),
    ensures
        forall|y: u32| #[trigger]
            jit_aot::page_out(v, x, n).contains(y) <==> y != x && v.take(n).contains(y),
    decreases n,
{
    if n > 0 {
        lemma_page_out(v, x, n - 1);
        let a = jit_aot::page_out(v, x, n - 1);
        let w = jit_aot::page_out(v, x, n);
        assert forall|y: u32| #[trigger] w.contains(y) <==> y != x && v.take(n).contains(y) by {
            if v.take(n).contains(y) {
                let k = v.take(n).index_of(y);
                if k < n - 1 {
                    assert(v.take(n - 1)[k] == y);
                }
            }
            if v.take(n - 1).contains(y) {
                let k = v.take(n - 1).index_of(y);
                assert(v.take(n)[k] == y);
            }
            assert(v.take(n)[n - 1] == v[n - 1]);
            if a.contains(y) && v[n - 1] != x {
                let k = a.index_of(y);
                assert(w[k] == y);
            }
            if v[n - 1] != x {
                assert(w[a.len() as int] == v[n - 1]);
                if w.contains(y) && y != v[n - 1] {
                    let k = w.index_of(y);
                    assert(a[k] == y);
                }
            }
        }
    }
}

proof fn lemma_joined(v: Seq<u32>, pages: Seq<u32>, n: int)
    requires
        0 <= n <= pages.len(),
    ensures
        forall|y: u32| #[trigger]
            jit_chain::joined(v, pages, n).contains(y) ==> v.contains(y) || pages.take(n).contains(
                y,
            ),
        jit_chain::joined(v, pages, n).len() <= v.len() + n,
    decreases n,
{
    if n > 0 {
        lemma_joined(v, pages, n - 1);
        lemma_with(jit_chain::joined(v, pages, n - 1), pages[n - 1]);
        assert forall|y: u32| #[trigger]
            jit_chain::joined(v, pages, n).contains(y) implies v.contains(y) || pages.take(
            n,
        ).contains(y) by {
            assert(pages.take(n)[n - 1] == pages[n - 1]);
            if pages.take(n - 1).contains(y) {
                let k = pages.take(n - 1).index_of(y);
                assert(pages.take(n)[k] == y);
            }
        }
    }
}

proof fn lemma_parted(v: Seq<u32>, pages: Seq<u32>, n: int)
    requires
        0 <= n <= pages.len(),
    ensures
        forall|y: u32| #[trigger]
            jit_chain::parted(v, pages, n).contains(y) ==> v.contains(y) && !pages.take(n).contains(
                y,
            ),
    decreases n,
{
    if n > 0 {
        let a = jit_chain::parted(v, pages, n - 1);
        lemma_parted(v, pages, n - 1);
        lemma_page_out(a, pages[n - 1], a.len() as int);
        assert(a.take(a.len() as int) =~= a);
        assert forall|y: u32| #[trigger]
            jit_chain::parted(v, pages, n).contains(y) implies v.contains(y) && !pages.take(
            n,
        ).contains(y) by {
            assert(a.contains(y));
            if pages.take(n).contains(y) {
                let k = pages.take(n).index_of(y);
                if k < n - 1 {
                    assert(pages.take(n - 1)[k] == y);
                }
            }
        }
    }
}

proof fn lemma_joined_but(v: Seq<u32>, pages: Seq<u32>, other: Seq<u32>, n: int)
    requires
        0 <= n <= pages.len(),
    ensures
        forall|y: u32| #[trigger]
            jit_chain::joined_but(v, pages, other, n).contains(y) ==> v.contains(y)
                || !other.contains(y),
    decreases n,
{
    if n > 0 {
        lemma_joined_but(v, pages, other, n - 1);
        lemma_with(jit_chain::joined_but(v, pages, other, n - 1), pages[n - 1]);
    }
}

/// Giving a function the larger budget, or refusing it, keeps the lists settled.
pub proof fn law_no_page_is_refused_what_it_has(j: Jit, index: u16)
    requires
        is_settled(j),
    ensures
        is_settled(j.promoted(index).0),
{
    reveal(Jit::promoted);
    let pages = jit_chain::module_pages(j.pages, index, j.pages.len() as int);
    let n = pages.len() as int;
    let c = j.run.counts;
    lemma_joined(j.tier2, pages, n);
    lemma_parted(j.blocked, pages, n);
    lemma_joined_but(j.blocked, pages, j.tier2, n);
    let a = Jit {
        tier2: jit_chain::joined(j.tier2, pages, n),
        blocked: jit_chain::parted(j.blocked, pages, n),
        run: Run { counts: Counts { promotions: c.promotions.wrapping_add(1), ..c }, ..j.run },
        ..j
    };
    jit_free::lemma_forest_keeps(a, seq![index], Seq::empty());
}

/// So does publishing the pages of a unit.
pub proof fn law_published_pages_are_not_refused_what_they_have(j: Jit, slots: Seq<Slot>, n: int)
    requires
        is_settled(j),
        0 <= n <= slots.len(),
    ensures
        is_settled(j.pages_published(slots, n)),
    decreases n,
{
    if n > 0 {
        law_published_pages_are_not_refused_what_they_have(j, slots, n - 1);
        let a = j.pages_published(slots, n - 1);
        let page = slots[n - 1].page;
        lemma_with(a.tier2, page);
        lemma_with(a.blocked, page);
        lemma_page_out(a.blocked, page, a.blocked.len() as int);
        assert(a.blocked.take(a.blocked.len() as int) =~= a.blocked);
    }
}

proof fn lemma_dirtied(j: Jit, pages: Seq<u32>, n: int)
    ensures
        j.all_dirtied(pages, n).tier2 == j.tier2,
        j.all_dirtied(pages, n).blocked == j.blocked,
    decreases n,
{
    if n > 0 {
        lemma_dirtied(j, pages, n - 1);
        let a = j.all_dirtied(pages, n - 1);
        reveal(Jit::dirtied);
        let k = crate::jit_state::place_of(a.pages, pages[n - 1], 0);
        let info = a.pages[k].info;
        jit_free::lemma_forest_keeps(
            Jit { pages: a.pages.remove(k), ..a },
            info.hidden.push(info.index),
            Seq::empty(),
        );
    }
}

/// The larger budget outlives the code: when all code is given up, the pages that have the budget
/// keep it.
pub proof fn law_the_larger_budget_outlives_the_code(j: Jit)
    ensures
        j.cache_cleared().tier2 == j.tier2,
        j.cache_cleared().blocked == j.blocked,
{
    let pages = jit_free::coded_pages(j.entered, j.pages, j.pages.len() as int);
    lemma_dirtied(j, pages, pages.len() as int);
}

/// A fresh state is settled, and remembers no jump.
pub proof fn law_a_fresh_state_remembers_no_jump(j: Jit, jump: Jump)
    requires
        j.empty(),
    ensures
        is_settled(j),
        j.remembered(jump) is None,
        jit_verify::noted_before(j.run),
{
}

impl Run {
    /// With `k` entries of a function counted; whether the last of them asked for the larger
    /// budget.
    pub open spec fn entries_counted(self, index: u16, threshold: u32, k: nat) -> (Run, bool)
        decreases k,
    {
        if k == 0 {
            (self, false)
        } else {
            self.entries_counted(index, threshold, (k - 1) as nat).0.entry_counted(index, threshold)
        }
    }
}

/// Of the entries of a function since its counters were cleared, each whose number is a multiple
/// of the threshold asks for the larger budget, and no other; none does where the threshold is
/// zero. All of them are counted, and no counter of another function changes.
pub proof fn law_every_so_many_entries_ask(r: Run, index: u16, threshold: u32, k: nat)
    requires
        r.wf(),
        r.exec_counts[index as int] == 0,
        r.entry_totals[index as int] == 0,
    ensures
        ({
            let (s, asks) = r.entries_counted(index, threshold, k);
            let i = index as int;
            &&& s.wf()
            &&& threshold == 0 ==> !asks && s.exec_counts == r.exec_counts
            &&& threshold > 0 ==> {
                &&& k > 0 ==> (asks <==> k % (threshold as nat) == 0)
                &&& s.exec_counts[i] == k % (threshold as nat)
            }
            &&& s.entry_totals[i] == k % 0x1_0000_0000
            &&& s == (Run { exec_counts: s.exec_counts, entry_totals: s.entry_totals, ..r })
            &&& forall|x: int|
                0 <= x < FUNCTION_COUNTERS && x != i ==> #[trigger] s.exec_counts[x]
                    == r.exec_counts[x]
            &&& forall|x: int|
                0 <= x < FUNCTION_COUNTERS && x != i ==> #[trigger] s.entry_totals[x]
                    == r.entry_totals[x]
        }),
    decreases k,
{
    if k > 0 {
        law_every_so_many_entries_ask(r, index, threshold, (k - 1) as nat);
        let (b, _) = r.entries_counted(index, threshold, (k - 1) as nat);
        let (s, asks) = r.entries_counted(index, threshold, k);
        assert(s.entry_totals[index as int] == k % 0x1_0000_0000);
        if threshold > 0 {
            let t = threshold as int;
            let q = (k - 1) / t;
            let m = (k - 1) % t;
            vstd::arithmetic::div_mod::lemma_fundamental_div_mod(k - 1, t);
            vstd::arithmetic::div_mod::lemma_mod_bound(k - 1, t);
            if m + 1 < t {
                vstd::arithmetic::div_mod::lemma_fundamental_div_mod_converse(
                    k as int,
                    t,
                    q,
                    m + 1,
                );
            } else {
                assert(t * (q + 1) == t * q + t) by (nonlinear_arith);
                vstd::arithmetic::div_mod::lemma_fundamental_div_mod_converse(
                    k as int,
                    t,
                    q + 1,
                    0,
                );
            }
        }
    }
}

} // verus!
