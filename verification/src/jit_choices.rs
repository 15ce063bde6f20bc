//! What the settings choose for a function before it is compiled.
use vstd::prelude::*;
use crate::jit_config;
use crate::jit_config::{
    branch_hint_mask, dispatch_stats_enabled, flag_locals_enabled, push_run_coalescing_enabled,
    x87_locals_enabled, JitConfig, FASTMEM_WRITES, RET_CHAINING, USE_LOOP_SAFETY,
};
use crate::jit_context::CodegenEnv;
use crate::jit_module::Choices;
use crate::wasm::Options;

verus! {

/// The choices as the settings have them. Whether stores may go through the store map at all, and
/// after how many instructions loops are left, is the caller's.
pub open spec fn as_set(c: Choices, config: JitConfig) -> Choices {
    Choices {
        options: Options {
            hint_mask: config.values@[jit_config::BRANCH_HINTS as int],
            dispatch_stats: config.dispatch_stats,
            ..c.options
        },
        env: CodegenEnv {
            push_run_coalescing: config.on(jit_config::PUSH_RUN_COALESCING),
            x87_locals: config.on(jit_config::X87_LOCALS),
            fpu_relaxed: config.relaxed_fpu,
            fpu_relaxed_stats: config.fpu_relaxed_stats,
            ..c.env
        },
        fastmem_writes: c.fastmem_writes && config.on(FASTMEM_WRITES),
        flag_locals: config.on(jit_config::FLAG_LOCALS),
        ret_chaining: config.on(RET_CHAINING),
        loop_safety: if config.on(USE_LOOP_SAFETY) {
            c.loop_safety
        } else {
            None
        },
        ..c
    }
}

/// Makes the choices that the settings make.
pub fn follow_settings(choices: Choices, config: &JitConfig) -> (r: Choices)
    requires
        config.wf(),
    ensures
        r == as_set(choices, *config),
{
    let options: Options = Options {
        hint_mask: branch_hint_mask(config),
        dispatch_stats: dispatch_stats_enabled(config),
        ..choices.options
    };
    let env: CodegenEnv = CodegenEnv {
        push_run_coalescing: push_run_coalescing_enabled(config),
        x87_locals: x87_locals_enabled(config),
        fpu_relaxed: config.relaxed_fpu,
        fpu_relaxed_stats: config.fpu_relaxed_stats,
        ..choices.env
    };
    let loop_safety: Option<i32> = if config.is_on(USE_LOOP_SAFETY) {
        choices.loop_safety
    } else {
        None
    };
    Choices {
        options,
        env,
        fastmem_writes: choices.fastmem_writes && config.is_on(FASTMEM_WRITES),
        flag_locals: flag_locals_enabled(config),
        ret_chaining: config.is_on(RET_CHAINING),
        loop_safety,
        ..choices
    }
}

/// Settings that agree on what the fingerprint is made of make the same choices.
pub proof fn law_the_fingerprint_covers_the_choices(a: JitConfig, b: JitConfig, c: Choices)
    requires
        a.wf(),
        b.wf(),
        jit_config::code_settings(a) == jit_config::code_settings(b),
    ensures
        as_set(c, a) == as_set(c, b),
{
    let x = jit_config::code_settings(a);
    let y = jit_config::code_settings(b);
    assert(x[1] == y[1] && x[7] == y[7] && x[8] == y[8] && x[9] == y[9]);
    assert(x[14] == y[14] && x[15] == y[15] && x[16] == y[16]);
    assert(x[18] == y[18] && x[19] == y[19] && x[20] == y[20]);
}

} // verus!
