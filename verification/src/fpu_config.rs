//! The counters of x87 code that found doubles in registers: a switch of the compiler, so that
//! turning it drops the code that was compiled before.
use vstd::prelude::*;
use crate::jit_config;
use crate::jit_config::JitConfig;
use crate::jit_free;
use crate::jit_partition;
use crate::jit_state::{Jit, JitState};

verus! {

impl Jit {
    /// With the counters of x87 code on or off.
    pub open spec fn fpu_stats_set(self, on: bool) -> Jit {
        if self.config.fpu_relaxed_stats == on {
            self
        } else {
            (Jit {
                config: JitConfig { fpu_relaxed_stats: on, ..self.config },
                ..self
            }).cache_cleared()
        }
    }
}

/// Turns the counters of x87 code on or off. Where that is a change, all code is given up.
pub fn set_fpu_relaxed_stats(state: &mut JitState, enabled: u32)
    requires
        old(state).wf(),
    ensures
        final(state).wf(),
        final(state)@ == old(state)@.fpu_stats_set(enabled != 0),
{
    let on: bool = enabled != 0;
    if state.config.fpu_relaxed_stats == on {
        return ;
    }
    state.config.fpu_relaxed_stats = on;
    assert(state@ =~= Jit {
        config: JitConfig { fpu_relaxed_stats: on, ..old(state)@.config },
        ..old(state)@
    });
    state.jit_clear_cache_js();
}

pub fn get_fpu_relaxed_stats(config: &JitConfig) -> (r: u32)
    ensures
        r == jit_config::bit(config.fpu_relaxed_stats),
{
    if config.fpu_relaxed_stats {
        1
    } else {
        0
    }
}

pub fn is_fpu_relaxed_stats(config: &JitConfig) -> (r: bool)
    ensures
        r == config.fpu_relaxed_stats,
{
    config.fpu_relaxed_stats
}

proof fn lemma_dirtied_keeps_config(j: Jit, pages: Seq<u32>, n: int)
    ensures
        j.all_dirtied(pages, n).config == j.config,
    decreases n,
{
    if n > 0 {
        lemma_dirtied_keeps_config(j, pages, n - 1);
        let b = j.all_dirtied(pages, n - 1);
        let page = pages[n - 1];
        reveal(Jit::dirtied);
        let k = crate::jit_state::place_of(b.pages, page, 0);
        if k < b.pages.len() {
            let info = b.pages[k].info;
            jit_free::lemma_forest_keeps(
                Jit { pages: b.pages.remove(k), ..b },
                info.hidden.push(info.index),
                Seq::empty(),
            );
        }
    }
}

/// Turning the counters of x87 code changes the fingerprint of the settings exactly where it is
/// a change, and then leaves no code that was compiled before: no page has any.
pub proof fn law_turning_counters_drops_the_code(j: Jit, on: bool)
    requires
        j.wf(),
        j.partitioned(),
        j.entered_distinct(),
    ensures
        ({
            let k = j.fpu_stats_set(on);
            let changed = j.config.fpu_relaxed_stats != on;
            &&& k.config == (JitConfig { fpu_relaxed_stats: on, ..j.config })
            &&& changed <==> jit_config::fingerprint(k.config) != jit_config::fingerprint(j.config)
            &&& changed ==> k.pages.len() == 0 && k.entered.len() == 0
            &&& k.partitioned()
        }),
{
    let k = j.fpu_stats_set(on);
    if j.config.fpu_relaxed_stats != on {
        let a = Jit { config: JitConfig { fpu_relaxed_stats: on, ..j.config }, ..j };
        jit_partition::lemma_same_places(j, a);
        assert(a.entered_distinct());
        jit_partition::law_a_cleared_cache_is_empty(a);
        let pages = jit_free::coded_pages(a.entered, a.pages, a.pages.len() as int);
        lemma_dirtied_keeps_config(a, pages, pages.len() as int);
    }
    jit_config::law_the_fingerprint_follows_the_switches(j.config, k.config, on);
}

} // verus!
