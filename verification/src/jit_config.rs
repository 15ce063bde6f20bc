//! The switches and limits of the compiler, by number, and the fingerprint of those that change
//! the code it makes.
use vstd::prelude::*;
use crate::jit_search::Limits;

verus! {

pub const JIT_CONFIG_ABI_VERSION: u32 = 1;

/// The numbers that name a setting.
pub const JIT_CONFIG_SUPPORTED_MASK: u32 = 0x01FB_FDEF;

/// The answer for a number that names no setting.
pub const JIT_CONFIG_UNSUPPORTED: u32 = 0xFFFF_FFFF;

/// Below this address guest memory is never accessed directly.
pub const FASTMEM_LOW_MEM_END: u32 = 0x0010_0000;

/// The guard band, where accesses must fault.
pub const FASTMEM_GUARD_BASE: u32 = 0x2300_0000;
pub const FASTMEM_GUARD_SIZE: u32 = 0x0100_0000;

/// Where the hash starts.
pub const FNV_START: u64 = 0xCBF2_9CE4_8422_2325;

pub const FNV_FACTOR: u64 = 0x0000_0100_0000_01B3;

/// Nothing is compiled.
pub const JIT_DISABLED: usize = 0;
/// Pages of one search for blocks.
pub const MAX_PAGES: usize = 1;
/// Loops are left after many instructions.
pub const USE_LOOP_SAFETY: usize = 2;
pub const MAX_EXTRA_BASIC_BLOCKS: usize = 3;
/// Flags that are never read are not computed.
pub const DEAD_FLAG_ELISION: usize = 5;
/// The search for blocks follows frequent computed jumps.
pub const INDIRECT_REGIONS: usize = 6;
pub const INDIRECT_REGION_MIN_SHARE: usize = 7;
pub const INDIRECT_REGION_MAX_PAGES: usize = 8;
pub const X87_LOCALS: usize = 10;
pub const PUSH_RUN_COALESCING: usize = 11;
/// Computed jumps go on in another function where one holds the target.
pub const RET_CHAINING: usize = 12;
pub const RET_SPECULATION: usize = 13;
pub const RET_SPEC_MAX_INSTR: usize = 14;
/// Entries after which the pages of a function get larger budgets; never, where it is zero.
pub const TIER2_THRESHOLD: usize = 15;
pub const TIER2_RET_SPEC_MAX_INSTR: usize = 16;
pub const TIER2_MAX_PAGES: usize = 17;
pub const FASTMEM_WRITES: usize = 19;
/// Chained entries count toward the threshold.
pub const CHAIN_TIER2_ACCOUNTING: usize = 20;
pub const FLAG_LOCALS: usize = 21;
pub const BRANCH_HINTS: usize = 22;
pub const BRANCH_HINT_OFFSET_FUZZ: usize = 23;
/// 0: dispatches are not verified. 1: they are, and mismatches counted. From 2 on, mismatches
/// are refused too.
pub const WRONG_ENTRY_REFUSE: usize = 24;

/// One more than the last number of a setting.
pub const SETTINGS: usize = 25;

/// The settings of the compiler.
pub struct JitConfig {
    /// The settings by number; switches are 0 or 1.
    pub values: Vec<u32>,
    /// Events of the dispatcher are counted.
    pub dispatch_stats: bool,
    /// x87 registers hold doubles where they can.
    pub relaxed_fpu: bool,
    /// Compiled code counts how often it found doubles in registers.
    pub fpu_relaxed_stats: bool,
    /// The search for blocks does not grow into these addresses; none where the end is zero.
    pub region_exclude_lo: u32,
    pub region_exclude_hi: u32,
}

/// The number names a setting.
pub open spec fn is_supported(index: u32) -> bool {
    index <= 24 && index != 4 && index != 9 && index != 18
}

/// A switch as a number.
pub open spec fn bit(b: bool) -> u32 {
    if b {
        1
    } else {
        0
    }
}

/// The setting is a switch: any value but zero turns it on.
pub open spec fn is_switch(index: u32) -> bool {
    index == 0 || index == 2 || index == 5 || index == 6 || (10 <= index <= 13) || (19 <= index
        <= 21)
}

impl JitConfig {
    pub open spec fn wf(self) -> bool {
        self.values@.len() == SETTINGS
    }

    /// The value of a setting.
    pub open spec fn at(self, index: u32) -> u32 {
        if is_supported(index) {
            self.values@[index as int]
        } else {
            JIT_CONFIG_UNSUPPORTED
        }
    }

    /// The switch is on.
    pub open spec fn on(self, index: usize) -> bool {
        self.values@[index as int] != 0
    }

    /// What is no numbered setting is the same.
    pub open spec fn same_rest(self, other: JitConfig) -> bool {
        &&& self.dispatch_stats == other.dispatch_stats
        &&& self.relaxed_fpu == other.relaxed_fpu
        &&& self.fpu_relaxed_stats == other.fpu_relaxed_stats
        &&& self.region_exclude_lo == other.region_exclude_lo
        &&& self.region_exclude_hi == other.region_exclude_hi
    }

    /// The settings at the start.
    pub open spec fn is_initial(self) -> bool {
        &&& self.values@ == seq![
            0u32, 3, 1, 250, 0, 0, 0, 5, 8, 0, 0, 0, 0, 0, 24, 300_000, 96, 8, 0, 0, 1, 0, 0, 0, 0,
        ]
        &&& !self.dispatch_stats
        &&& !self.relaxed_fpu
        &&& !self.fpu_relaxed_stats
        &&& self.region_exclude_lo == 0
        &&& self.region_exclude_hi == 0
    }

    /// The settings at the start.
    pub fn new() -> (c: JitConfig)
        ensures
            c.wf(),
            c.is_initial(),
    {
        let values: Vec<u32> = vec![
            0, 3, 1, 250, 0, 0, 0, 5, 8, 0, 0, 0, 0, 0, 24, 300_000, 96, 8, 0, 0, 1, 0, 0, 0, 0,
        ];
        assert(values@ =~= seq![
            0u32, 3, 1, 250, 0, 0, 0, 5, 8, 0, 0, 0, 0, 0, 24, 300_000, 96, 8, 0, 0, 1, 0, 0, 0, 0,
        ]);
        JitConfig {
            values,
            dispatch_stats: false,
            relaxed_fpu: false,
            fpu_relaxed_stats: false,
            region_exclude_lo: 0,
            region_exclude_hi: 0,
        }
    }

    /// Whether a switch is on.
    pub fn is_on(&self, index: usize) -> (r: bool)
        requires
            self.wf(),
            index < SETTINGS,
        ensures
            r == self.on(index),
    {
        self.values[index] != 0
    }

    /// The budgets of a search for blocks.
    pub fn limits(&self) -> (l: Limits)
        requires
            self.wf(),
        ensures
            l == (Limits {
                max_pages: self.values@[MAX_PAGES as int],
                region_max_pages: self.values@[INDIRECT_REGION_MAX_PAGES as int],
                tier2_max_pages: self.values@[TIER2_MAX_PAGES as int],
                ret_speculation: self.on(RET_SPECULATION),
                ret_spec_max_instr: self.values@[RET_SPEC_MAX_INSTR as int],
                tier2_ret_spec_max_instr: self.values@[TIER2_RET_SPEC_MAX_INSTR as int],
            }),
    {
        Limits {
            max_pages: self.values[MAX_PAGES],
            region_max_pages: self.values[INDIRECT_REGION_MAX_PAGES],
            tier2_max_pages: self.values[TIER2_MAX_PAGES],
            ret_speculation: self.is_on(RET_SPECULATION),
            ret_spec_max_instr: self.values[RET_SPEC_MAX_INSTR],
            tier2_ret_spec_max_instr: self.values[TIER2_RET_SPEC_MAX_INSTR],
        }
    }
}

fn jit_config_is_supported(index: u32) -> (r: bool)
    ensures
        r == is_supported(index),
{
    proof {
        if index < 32 {
            law_the_mask_names_the_settings(index);
        }
    }
    index < 32 && JIT_CONFIG_SUPPORTED_MASK & (1u32 << index) != 0
}

pub fn jit_config_abi_version() -> (r: u32)
    ensures
        r == JIT_CONFIG_ABI_VERSION,
{
    JIT_CONFIG_ABI_VERSION
}

pub fn jit_config_supported_mask() -> (r: u32)
    ensures
        r == JIT_CONFIG_SUPPORTED_MASK,
{
    JIT_CONFIG_SUPPORTED_MASK
}

/// The mask holds one bit for each number that names a setting.
pub proof fn law_the_mask_names_the_settings(index: u32)
    requires
        index < 32,
    ensures
        is_supported(index) <==> JIT_CONFIG_SUPPORTED_MASK & (1u32 << index) != 0,
{
    assert(((0x01FB_FDEFu32 & (1u32 << index)) != 0) == (index <= 24 && index != 4 && index != 9
        && index != 18)) by (bit_vector)
        requires
            index < 32,
    ;
}

/// What a setting holds once it is set: a switch holds 0 or 1.
pub open spec fn taken(index: u32, value: u32) -> u32 {
    if is_switch(index) {
        bit(value != 0)
    } else {
        value
    }
}

/// The settings with one of them set, where the number names one.
pub open spec fn with_setting(values: Seq<u32>, index: u32, value: u32) -> Seq<u32> {
    if is_supported(index) {
        values.update(index as int, taken(index, value))
    } else {
        values
    }
}

/// Changes a setting. Returns 0, or [`JIT_CONFIG_UNSUPPORTED`] where the number names none.
pub fn set_jit_config(config: &mut JitConfig, index: u32, value: u32) -> (r: u32)
    requires
        old(config).wf(),
    ensures
        final(config).wf(),
        r == (if is_supported(index) {
            0
        } else {
            JIT_CONFIG_UNSUPPORTED
        }),
        final(config).values@ == with_setting(old(config).values@, index, value),
        final(config).same_rest(*old(config)),
{
    if !jit_config_is_supported(index) {
        return JIT_CONFIG_UNSUPPORTED;
    }
    let stored: u32 = match index {
        0 | 2 | 5 | 6 | 10 | 11 | 12 | 13 | 19 | 20 | 21 => number(value != 0),
        _ => value,
    };
    config.values.set(index as usize, stored);
    0
}

/// A setting reads back as it was set, a switch as 0 or 1, and the others keep their values; a
/// number that names no setting changes none and never reads back.
pub proof fn law_settings_read_back(
    before: JitConfig,
    after: JitConfig,
    index: u32,
    value: u32,
    other: u32,
)
    requires
        before.wf(),
        after.values@ == with_setting(before.values@, index, value),
    ensures
        after.at(index) == (if is_supported(index) {
            taken(index, value)
        } else {
            JIT_CONFIG_UNSUPPORTED
        }),
        other != index ==> after.at(other) == before.at(other),
        !is_supported(index) ==> after.values@ == before.values@,
{
}

fn number(b: bool) -> (r: u32)
    ensures
        r == bit(b),
{
    if b {
        1
    } else {
        0
    }
}

/// The value of a setting, or [`JIT_CONFIG_UNSUPPORTED`] where the number names none.
pub fn get_jit_config(config: &JitConfig, index: u32) -> (r: u32)
    requires
        config.wf(),
    ensures
        r == config.at(index),
{
    if !jit_config_is_supported(index) {
        return JIT_CONFIG_UNSUPPORTED;
    }
    config.values[index as usize]
}

/// Sets the addresses that the search for blocks does not grow into.
pub fn jit_set_region_exclusion(config: &mut JitConfig, lo: u32, hi: u32)
    ensures
        *final(config) == (JitConfig {
            region_exclude_lo: lo,
            region_exclude_hi: hi,
            ..*old(config)
        }),
{
    config.region_exclude_lo = lo;
    config.region_exclude_hi = hi;
}

pub fn set_dispatch_stats(config: &mut JitConfig, enabled: u32)
    ensures
        *final(config) == (JitConfig { dispatch_stats: enabled != 0, ..*old(config) }),
{
    config.dispatch_stats = enabled != 0;
}

pub fn get_dispatch_stats(config: &JitConfig) -> (r: u32)
    ensures
        r == bit(config.dispatch_stats),
{
    number(config.dispatch_stats)
}

pub fn dispatch_stats_enabled(config: &JitConfig) -> (r: bool)
    ensures
        r == config.dispatch_stats,
{
    config.dispatch_stats
}

pub fn x87_locals_enabled(config: &JitConfig) -> (r: bool)
    requires
        config.wf(),
    ensures
        r == config.on(X87_LOCALS),
{
    config.is_on(X87_LOCALS)
}

pub fn push_run_coalescing_enabled(config: &JitConfig) -> (r: bool)
    requires
        config.wf(),
    ensures
        r == config.on(PUSH_RUN_COALESCING),
{
    config.is_on(PUSH_RUN_COALESCING)
}

pub fn flag_locals_enabled(config: &JitConfig) -> (r: bool)
    requires
        config.wf(),
    ensures
        r == config.on(FLAG_LOCALS),
{
    config.is_on(FLAG_LOCALS)
}

pub fn branch_hint_mask(config: &JitConfig) -> (r: u32)
    requires
        config.wf(),
    ensures
        r == config.values@[BRANCH_HINTS as int],
{
    config.values[BRANCH_HINTS]
}

/// Dispatches are verified.
pub fn wrong_entry_verify_enabled(config: &JitConfig) -> (r: bool)
    requires
        config.wf(),
    ensures
        r == config.on(WRONG_ENTRY_REFUSE),
{
    config.is_on(WRONG_ENTRY_REFUSE)
}

/// Wrong dispatches are refused.
pub fn jit_wrong_entry_refuse_enabled(config: &JitConfig) -> (r: bool)
    requires
        config.wf(),
    ensures
        r == (config.values@[WRONG_ENTRY_REFUSE as int] >= 2),
{
    config.values[WRONG_ENTRY_REFUSE] >= 2
}

/// Stores of a unit go through the store map: in 32-bit protected mode with paging.
pub fn fastmem_writes_compile_enabled(
    config: &JitConfig,
    is_32: bool,
    protected_mode: bool,
    paging: bool,
) -> (r: bool)
    requires
        config.wf(),
    ensures
        r == (config.on(FASTMEM_WRITES) && is_32 && protected_mode && paging),
{
    config.is_on(FASTMEM_WRITES) && is_32 && protected_mode && paging
}

pub fn fastmem_get_low_mem_end() -> (r: u32)
    ensures
        r == FASTMEM_LOW_MEM_END,
{
    FASTMEM_LOW_MEM_END
}

pub fn fastmem_get_guard_base() -> (r: u32)
    ensures
        r == FASTMEM_GUARD_BASE,
{
    FASTMEM_GUARD_BASE
}

pub fn fastmem_get_guard_size() -> (r: u32)
    ensures
        r == FASTMEM_GUARD_SIZE,
{
    FASTMEM_GUARD_SIZE
}

/// The FNV-1a hash of the first `n` words, each taken as one unit.
pub open spec fn fnv(words: Seq<u32>, n: nat) -> u64
    decreases n,
{
    if n == 0 {
        FNV_START
    } else {
        (fnv(words, (n - 1) as nat) ^ words[n - 1] as u64).wrapping_mul(FNV_FACTOR)
    }
}

/// The settings that change the code that is made, in the order of the fingerprint.
pub open spec fn code_settings(c: JitConfig) -> Seq<u32> {
    seq![
        c.values@[MAX_PAGES as int],
        c.values@[USE_LOOP_SAFETY as int],
        c.values@[MAX_EXTRA_BASIC_BLOCKS as int],
        c.values@[DEAD_FLAG_ELISION as int],
        c.values@[INDIRECT_REGIONS as int],
        c.values@[INDIRECT_REGION_MIN_SHARE as int],
        c.values@[INDIRECT_REGION_MAX_PAGES as int],
        c.values@[X87_LOCALS as int],
        c.values@[PUSH_RUN_COALESCING as int],
        c.values@[RET_CHAINING as int],
        c.values@[RET_SPECULATION as int],
        c.values@[RET_SPEC_MAX_INSTR as int],
        c.values@[TIER2_RET_SPEC_MAX_INSTR as int],
        c.values@[TIER2_MAX_PAGES as int],
        c.values@[FASTMEM_WRITES as int],
        c.values@[FLAG_LOCALS as int],
        c.values@[BRANCH_HINTS as int],
        c.values@[BRANCH_HINT_OFFSET_FUZZ as int],
        bit(c.relaxed_fpu),
        bit(c.fpu_relaxed_stats),
        bit(c.dispatch_stats),
        FASTMEM_LOW_MEM_END,
        FASTMEM_GUARD_BASE,
        FASTMEM_GUARD_SIZE,
    ]
}

/// The fingerprint of the settings that change the code that is made.
pub open spec fn fingerprint(c: JitConfig) -> u64 {
    fnv(code_settings(c), code_settings(c).len())
}

/// The fingerprint of the settings that change the code that is made.
pub fn jit_codegen_fingerprint(config: &JitConfig) -> (r: u64)
    requires
        config.wf(),
    ensures
        r == fingerprint(*config),
{
    let words: Vec<u32> = vec![
        config.values[MAX_PAGES],
        config.values[USE_LOOP_SAFETY],
        config.values[MAX_EXTRA_BASIC_BLOCKS],
        config.values[DEAD_FLAG_ELISION],
        config.values[INDIRECT_REGIONS],
        config.values[INDIRECT_REGION_MIN_SHARE],
        config.values[INDIRECT_REGION_MAX_PAGES],
        config.values[X87_LOCALS],
        config.values[PUSH_RUN_COALESCING],
        config.values[RET_CHAINING],
        config.values[RET_SPECULATION],
        config.values[RET_SPEC_MAX_INSTR],
        config.values[TIER2_RET_SPEC_MAX_INSTR],
        config.values[TIER2_MAX_PAGES],
        config.values[FASTMEM_WRITES],
        config.values[FLAG_LOCALS],
        config.values[BRANCH_HINTS],
        config.values[BRANCH_HINT_OFFSET_FUZZ],
        number(config.relaxed_fpu),
        number(config.fpu_relaxed_stats),
        number(config.dispatch_stats),
        FASTMEM_LOW_MEM_END,
        FASTMEM_GUARD_BASE,
        FASTMEM_GUARD_SIZE,
    ];
    assert(words@ =~= code_settings(*config));
    let n: usize = words.len();
    let mut hash: u64 = FNV_START;
    let mut i: usize = 0;
    while i < n
        invariant
            i <= n,
            n == words@.len(),
            hash == fnv(words@, i as nat),
        decreases n - i,
    {
        hash = (hash ^ words[i] as u64).wrapping_mul(FNV_FACTOR);
        i = i + 1;
    }
    hash
}

pub fn jit_codegen_fingerprint_lo(config: &JitConfig) -> (r: u32)
    requires
        config.wf(),
    ensures
        r == fingerprint(*config) as u32,
{
    jit_codegen_fingerprint(config) as u32
}

pub fn jit_codegen_fingerprint_hi(config: &JitConfig) -> (r: u32)
    requires
        config.wf(),
    ensures
        r == (fingerprint(*config) >> 32) as u32,
{
    (jit_codegen_fingerprint(config) >> 32) as u32
}

/// Settings of policy, accounting and diagnosis are no part of the fingerprint.
pub proof fn law_policy_keeps_the_fingerprint(a: JitConfig, b: JitConfig)
    requires
        forall|i: u32|
            #![trigger a.at(i)]
            i != 0 && i != 15 && i != 20 && i != 24 ==> a.at(i) == b.at(i),
        a.same_rest(b),
    ensures
        fingerprint(a) == fingerprint(b),
{
    assert(a.at(1) == b.at(1));
    assert(a.at(2) == b.at(2));
    assert(a.at(3) == b.at(3));
    assert(a.at(5) == b.at(5));
    assert(a.at(6) == b.at(6));
    assert(a.at(7) == b.at(7));
    assert(a.at(8) == b.at(8));
    assert(a.at(10) == b.at(10));
    assert(a.at(11) == b.at(11));
    assert(a.at(12) == b.at(12));
    assert(a.at(13) == b.at(13));
    assert(a.at(14) == b.at(14));
    assert(a.at(16) == b.at(16));
    assert(a.at(17) == b.at(17));
    assert(a.at(19) == b.at(19));
    assert(a.at(21) == b.at(21));
    assert(a.at(22) == b.at(22));
    assert(a.at(23) == b.at(23));
    assert(code_settings(a) =~= code_settings(b));
}

pub(crate) proof fn bits_of_xor(h: u64, a: u64, b: u64)
    by (bit_vector)
    ensures
        h ^ a == h ^ b ==> a == b,
        a ^ h == b ^ h ==> a == b,
{
}

/// The inverse of the factor of the hash.
const FNV_INVERSE: u64 = 0xCE96_5057_AFF6_957B;

/// Multiplying by the factor loses nothing.
proof fn lemma_factor(x: u64)
    ensures
        x.wrapping_mul(FNV_FACTOR).wrapping_mul(FNV_INVERSE) == x,
{
    let m = 0x1_0000_0000_0000_0000int;
    let p = FNV_FACTOR as int;
    let q = FNV_INVERSE as int;
    let y = x.wrapping_mul(FNV_FACTOR);
    let k = x * p / m;
    assert(y == (x * p) % m);
    assert(x * p == m * k + y) by {
        vstd::arithmetic::div_mod::lemma_fundamental_div_mod(x * p, m);
    }
    let c = 0x0000_00CE_9650_590Fint;
    assert(p * q == m * c + 1);
    let n = x * c - k * q;
    assert(y * q == m * n + x) by (nonlinear_arith)
        requires
            x * p == m * k + y,
            p * q == m * c + 1,
            n == x * c - k * q,
    ;
    vstd::arithmetic::div_mod::lemma_fundamental_div_mod_converse(y * q, m, n, x as int);
}

proof fn lemma_fnv(a: Seq<u32>, b: Seq<u32>, k: int, n: nat)
    requires
        a.len() == b.len(),
        n <= a.len(),
        0 <= k < a.len(),
        a[k] != b[k],
        forall|i: int| 0 <= i < a.len() && i != k ==> a[i] == b[i],
    ensures
        n <= k ==> fnv(a, n) == fnv(b, n),
        n > k ==> fnv(a, n) != fnv(b, n),
    decreases n,
{
    if n > 0 {
        lemma_fnv(a, b, k, (n - 1) as nat);
        let g = fnv(a, (n - 1) as nat);
        let h = fnv(b, (n - 1) as nat);
        let x = a[n - 1] as u64;
        let y = b[n - 1] as u64;
        lemma_factor(g ^ x);
        lemma_factor(h ^ y);
        bits_of_xor(g, x, y);
        bits_of_xor(x, g, h);
    }
}

/// A setting is no part of the fingerprint.
pub open spec fn is_policy(index: u32) -> bool {
    index == JIT_DISABLED || index == TIER2_THRESHOLD || index == CHAIN_TIER2_ACCOUNTING || index
        == WRONG_ENTRY_REFUSE
}

/// Setting a setting of policy, accounting or diagnosis keeps the fingerprint; setting another
/// one keeps it exactly where the setting held the value already.
pub proof fn law_the_fingerprint_follows_the_settings(
    before: JitConfig,
    after: JitConfig,
    index: u32,
    value: u32,
)
    requires
        before.wf(),
        is_supported(index),
        after.values@ == with_setting(before.values@, index, value),
        after.same_rest(before),
    ensures
        is_policy(index) ==> fingerprint(after) == fingerprint(before),
        !is_policy(index) ==> (fingerprint(after) == fingerprint(before) <==> after.at(index)
            == before.at(index)),
{
    let a = code_settings(before);
    let b = code_settings(after);
    if is_policy(index) || taken(index, value) == before.values@[index as int] {
        assert(a =~= b);
    } else {
        let k = if index <= 3 {
            index - 1
        } else if index <= 8 {
            index - 2
        } else if index <= 14 {
            index - 3
        } else if index <= 17 {
            index - 4
        } else if index == 19 {
            14
        } else {
            index - 6
        };
        lemma_fnv(a, b, k, a.len());
    }
}

/// Turning a switch of the x87, or the counters of the dispatcher, on or off changes the
/// fingerprint exactly where it changes the switch.
pub proof fn law_the_fingerprint_follows_the_switches(before: JitConfig, after: JitConfig, on: bool)
    requires
        before.wf(),
    ensures
        after == (JitConfig { relaxed_fpu: on, ..before }) ==> (fingerprint(after) == fingerprint(
            before,
        ) <==> before.relaxed_fpu == on),
        after == (JitConfig { fpu_relaxed_stats: on, ..before }) ==> (fingerprint(after)
            == fingerprint(before) <==> before.fpu_relaxed_stats == on),
        after == (JitConfig { dispatch_stats: on, ..before }) ==> (fingerprint(after)
            == fingerprint(before) <==> before.dispatch_stats == on),
{
    let a = code_settings(before);
    let b = code_settings(after);
    if after == (JitConfig { relaxed_fpu: on, ..before }) {
        if before.relaxed_fpu == on {
            assert(a =~= b);
        } else {
            lemma_fnv(a, b, 18, a.len());
        }
    }
    if after == (JitConfig { fpu_relaxed_stats: on, ..before }) {
        if before.fpu_relaxed_stats == on {
            assert(a =~= b);
        } else {
            lemma_fnv(a, b, 19, a.len());
        }
    }
    if after == (JitConfig { dispatch_stats: on, ..before }) {
        if before.dispatch_stats == on {
            assert(a =~= b);
        } else {
            lemma_fnv(a, b, 20, a.len());
        }
    }
}

} // verus!
