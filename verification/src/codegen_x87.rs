//! Inline forms of x87 instructions on registers that hold doubles, with a helper as the way
//! out for every other value.
use vstd::prelude::*;
use crate::codegen_fpu::{
    FpuFastBinOp, FPU_C0, FPU_C2, FPU_C3, FPU_RELAXED_TAG, NOT_FPU_RESULT_FLAGS,
};
use crate::codegen_reg::{gen_dispatch_stat_increment, gen_mark_fpu_simd_dirty_once};
use crate::cpu_state::{
    Stat, AT_FPU_CONTROL_WORD, AT_FPU_ST, AT_FPU_STACK_PTR, AT_FPU_STATUS_WORD, FLAG_CARRY,
    FLAG_PARITY, FLAG_ZERO,
};
use crate::jit_context::{CodegenCounters, Ctx, JitContext, UnitState, X87LocalCacheSlot};
use crate::wasm::{
    flag_slot_address, Bin, BlockType, Emit, FlagSlot, Op, Un, WasmBuilder, WasmLocal,
    WasmLocalI64, Width, E, HINT_GROUP_X87, HINT_UNLIKELY,
};

verus! {

broadcast use {crate::wasm::group_code, crate::codegen_reg::group_events};

/// All but the six status flags.
pub const NOT_FLAGS_ALL: i32 = -2262;

impl Ctx {
    /// Doubles of x87 registers are cached in locals.
    pub open spec fn x87_cached(self) -> bool {
        self.st.env.x87_locals && self.st.env.fpu_relaxed
    }

    /// The current instruction keeps the cached doubles coherent.
    pub open spec fn x87_kept(self) -> Ctx {
        Ctx { st: UnitState { x87_cache_kept: true, ..self.st }, ..self }
    }

    /// The locals for the double of `ST(i)` exist, where doubles are cached.
    #[verifier::opaque]
    pub open spec fn x87_slot(self, i: u32) -> Ctx {
        if !self.x87_cached() {
            self
        } else if self.x87[i as int] is Some {
            self.x87_kept()
        } else {
            let bits = self.e.next_i64();
            let e1 = self.e.set_new_i64(E::C64(0));
            let valid = e1.next_i32();
            Ctx {
                e: e1.set_new(E::C(0)),
                x87: self.x87.update(
                    i as int,
                    Some(
                        X87LocalCacheSlot { bits: WasmLocalI64(bits), valid: WasmLocal(valid) },
                    ),
                ),
                ..self.x87_kept()
            }
        }
    }

    /// Some double is cached in locals.
    pub open spec fn x87_in_use(self) -> bool {
        exists|i: int| 0 <= i < self.x87.len() && (#[trigger] self.x87[i]) is Some
    }

    /// Every cached double is dropped while the code runs; the locals stay.
    #[verifier::opaque]
    pub open spec fn x87_dropped(self) -> Ctx {
        if self.x87_in_use() {
            Ctx {
                e: self.e.dispatch_event(Stat::X87CacheInvalidate).valid_cleared(
                    self.x87,
                    self.x87.len(),
                ),
                st: UnitState {
                    x87_cache_kept: true,
                    counters: CodegenCounters {
                        x87_invalidates: self.st.counters.x87_invalidates.saturating_add(1),
                        ..self.st.counters
                    },
                    ..self.st
                },
                ..self
            }
        } else {
            self.x87_kept()
        }
    }

    /// The locals of every cached double are given back.
    pub open spec fn x87_freed(self) -> Ctx {
        Ctx {
            e: self.e.slots_freed(self.x87, self.x87.len()),
            x87: Seq::new(self.x87.len(), |i: int| None::<X87LocalCacheSlot>),
            ..self
        }
    }

    /// Whether `ST(i)`, at the address in a local, holds a double.
    #[verifier::opaque]
    pub open spec fn st_ok(self, i: u32, addr: usize) -> Ctx {
        let c = self.x87_slot(i);
        if self.x87_cached() {
            let slot = c.x87[i as int]->0;
            c.on(
                c.e.val(E::L(slot.valid.0)).op(
                    Op::If(BlockType::I32, c.e.hint(HINT_GROUP_X87, HINT_UNLIKELY)),
                ).val(E::C(1)).else_().val(E::tag_ok(addr)).end(),
            )
        } else {
            c.val(E::tag_ok(addr))
        }
    }

    /// One more load of a double through the cache is compiled.
    pub open spec fn x87_load_counted(self) -> Ctx {
        Ctx {
            st: UnitState {
                counters: CodegenCounters {
                    x87_load_sites: self.st.counters.x87_load_sites.saturating_add(1),
                    ..self.st.counters
                },
                ..self.st
            },
            ..self
        }
    }

    /// One more store of a double to the cache is compiled.
    pub open spec fn x87_store_counted(self) -> Ctx {
        Ctx {
            st: UnitState {
                counters: CodegenCounters {
                    x87_stores: self.st.counters.x87_stores.saturating_add(1),
                    ..self.st.counters
                },
                ..self.st
            },
            ..self
        }
    }

    /// The bits of the double in `ST(i)`, at the address in a local, are pushed.
    #[verifier::opaque]
    pub open spec fn st_bits(self, i: u32, addr: usize) -> Ctx {
        let c = self.x87_slot(i);
        if self.x87_cached() {
            let slot = c.x87[i as int]->0;
            c.on(c.e.cached_bits(slot, addr)).x87_load_counted()
        } else {
            c.val(E::L(addr).load(Width::W64, 0))
        }
    }

    /// The double in `ST(i)`, at the address in a local, is pushed.
    #[verifier::opaque]
    pub open spec fn st_double(self, i: u32, addr: usize) -> Ctx {
        let c = self.st_bits(i, addr);
        let bits = c.e.next_i64();
        c.to_new_i64().val(E::double(bits)).free_i64(bits)
    }

    /// `ST(i)`, at the address in a local, takes the bits in a local as its cached double.
    #[verifier::opaque]
    pub open spec fn st_cached(self, i: u32, bits: usize) -> Ctx {
        let c = self.x87_slot(i);
        if self.x87_cached() {
            let slot = c.x87[i as int]->0;
            c.on(c.e.set(slot.bits.0, E::L(bits)).set(slot.valid.0, E::C(1))).x87_store_counted()
        } else {
            c
        }
    }

    /// `ST(i)`, at the address in a local, takes the double on the stack.
    #[verifier::opaque]
    pub open spec fn st_store(self, i: u32, addr: usize) -> Ctx {
        let c = self.mark_fpu_simd_dirty_once().val(E::Top.un(Un::ReinterpretF64AsI64));
        let bits = c.e.next_i64();
        let d = c.to_new_i64();
        d.on(
            d.e.store(Width::W64, 0, E::L(addr), E::L(bits)).store(
                Width::W16,
                8,
                E::L(addr),
                E::C(FPU_RELAXED_TAG),
            ),
        ).st_cached(i, bits).free_i64(bits)
    }

    /// An event of the inline paths is counted.
    pub open spec fn relaxed_event(self, stat: Stat) -> Ctx {
        if self.st.env.fpu_relaxed_stats {
            self.on(self.e.count(stat.address(self.e.opt.stat_base)))
        } else {
            self
        }
    }

    /// The precision-control field says single precision, in a local that later instructions
    /// use too.
    #[verifier::opaque]
    pub open spec fn pc_prepared(self) -> Ctx {
        if !self.st.env.x87_pc_local || self.st.fpu_pc_cache is Some {
            self
        } else {
            Ctx {
                e: self.e.set_new(E::single_precision()),
                st: UnitState {
                    fpu_pc_cache: Some(WasmLocal(self.e.next_i32())),
                    ..self.st
                },
                ..self
            }
        }
    }

    /// The double on the stack is rounded to single precision where precision control says
    /// so.
    #[verifier::opaque]
    pub open spec fn pc_rounded(self) -> Ctx {
        let raw = self.e.next_i64();
        let single = if self.st.env.x87_pc_local {
            E::L((self.st.fpu_pc_cache->0).0)
        } else {
            E::single_precision()
        };
        let c = self.on(
            self.e.take_i64().val(
                E::Top.un(Un::ReinterpretF64AsI64).tee(raw).un(Un::ReinterpretI64AsF64).un(
                    Un::DemoteF64,
                ).un(Un::PromoteF32).select(E::double(raw), single),
            ).give_i64(raw),
        );
        if self.st.env.x87_pc_local {
            Ctx { st: UnitState { fpu_pc_cache_kept: true, ..c.st }, ..c }
        } else {
            c
        }
    }
}

impl E {
    /// The precision-control field says single precision.
    pub open spec fn single_precision() -> E {
        E::fixed(Width::A16, AT_FPU_CONTROL_WORD).and(0x300).eqz()
    }

    /// One of four constants: the doubles are unordered, the first is less, they are equal, or
    /// the first is greater, which gives 0.
    pub open spec fn compared(x: usize, y: usize, unordered: i32, less: i32, equal: i32) -> E {
        E::is_nan(x).bin(Bin::Or, E::is_nan(y)).choose_i32(
            E::C(unordered),
            E::double(x).bin(Bin::LtF64, E::double(y)).choose_i32(
                E::C(less),
                E::double(x).bin(Bin::EqF64, E::double(y)).choose_i32(E::C(equal), E::C(0)),
            ),
        )
    }

    /// The bits of a double after one rounding instruction.
    pub open spec fn rounded(bits: usize, how: Un) -> E {
        E::double(bits).un(how).un(Un::ReinterpretF64AsI64)
    }

    /// A double as a 32-bit integer; the smallest integer where it does not fit.
    pub open spec fn integer(bits: usize) -> E {
        E::is_nan(bits).bin(Bin::Or, E::double(bits).bin(Bin::GeF64, E::CF64(TWO_POW_31_BITS))).bin(
            Bin::Or,
            E::double(bits).bin(Bin::LtF64, E::CF64(MINUS_TWO_POW_31_BITS)),
        ).choose_i32(E::C(SMALLEST_I32), E::double(bits).un(Un::TruncF64ToI32))
    }

    /// A 32-bit integer; the smallest 16-bit integer where it does not fit in 16 bits.
    pub open spec fn clamped_i16(value: usize) -> E {
        E::L(value).binc(Bin::LtS, SMALLEST_I16).bin(
            Bin::Or,
            E::L(value).binc(Bin::GtS, 0x7FFF),
        ).choose_i32(E::C(SMALLEST_I16), E::L(value))
    }
}

/// The bits of the double 2147483648.
pub const TWO_POW_31_BITS: u64 = 0x41E0_0000_0000_0000;

/// The bits of the double -2147483648.
pub const MINUS_TWO_POW_31_BITS: u64 = 0xC1E0_0000_0000_0000;

pub const SMALLEST_I32: i32 = -2147483648;

pub const SMALLEST_I16: i32 = -32768;

impl Emit {
    /// The first `n` cached doubles are dropped.
    pub open spec fn valid_cleared(self, slots: Seq<Option<X87LocalCacheSlot>>, n: nat) -> Emit
        decreases n,
    {
        if n == 0 {
            self
        } else {
            let e = self.valid_cleared(slots, (n - 1) as nat);
            match slots[n - 1] {
                Some(slot) => e.set(slot.valid.0, E::C(0)),
                None => e,
            }
        }
    }

    /// The locals of the first `n` cached doubles are given back.
    pub open spec fn slots_freed(self, slots: Seq<Option<X87LocalCacheSlot>>, n: nat) -> Emit
        decreases n,
    {
        if n == 0 {
            self
        } else {
            let e = self.slots_freed(slots, (n - 1) as nat);
            match slots[n - 1] {
                Some(slot) => e.give_i64(slot.bits.0).give_i32(slot.valid.0),
                None => e,
            }
        }
    }

    /// The bits of a double through its cache: from the local, or from memory into the local.
    #[verifier::opaque]
    pub open spec fn cached_bits(self, slot: X87LocalCacheSlot, addr: usize) -> Emit {
        self.val(E::L(slot.valid.0)).op(Op::If(BlockType::I64, None)).dispatch_event(
            Stat::X87CacheHit,
        ).val(E::L(slot.bits.0)).else_().dispatch_event(Stat::X87CacheFill).set(
            slot.valid.0,
            E::C(1),
        ).val(E::L(addr).load(Width::W64, 0).tee(slot.bits.0)).end()
    }

    /// The status flags take the outcome of a comparison, and none is computed lazily.
    #[verifier::opaque]
    pub open spec fn eflags_compared(self, flags: usize) -> Emit {
        let e = self.val(
            E::C(crate::wasm::flag_address(FlagSlot::FlagsChanged) as i32).both(E::C(0)),
        ).flag_store(FlagSlot::FlagsChanged);
        e.val(
            E::C(crate::wasm::flag_address(FlagSlot::Flags) as i32).both(
                E::flag(e.flag_locals, FlagSlot::Flags).and(NOT_FLAGS_ALL).bin(
                    Bin::Or,
                    E::L(flags),
                ),
            ),
        ).flag_store(FlagSlot::Flags)
    }

    /// The double with the bits in a local is rounded as rounding control says, and pushed as
    /// bits.
    #[verifier::opaque]
    pub open spec fn rounded_by_control(self, bits: usize) -> Emit {
        let rc = self.next_i32();
        self.set_new(
            E::fixed(Width::A16, AT_FPU_CONTROL_WORD).binc(Bin::ShrU, 10).and(3),
        ).val(
            E::L(rc).binc(Bin::Eq, 1).choose_i64(
                E::rounded(bits, Un::FloorF64),
                E::L(rc).binc(Bin::Eq, 2).choose_i64(
                    E::rounded(bits, Un::CeilF64),
                    E::L(rc).binc(Bin::Eq, 3).choose_i64(
                        E::rounded(bits, Un::TruncF64),
                        E::rounded(bits, Un::NearestF64),
                    ),
                ),
            ),
        ).give_i32(rc)
    }

    /// The double with the bits in a local is pushed as a 32-bit integer.
    #[verifier::opaque]
    pub open spec fn to_i32(self, bits: usize, truncate: bool) -> Emit {
        let e = if truncate {
            self.val(E::rounded(bits, Un::TruncF64))
        } else {
            self.rounded_by_control(bits)
        };
        let r = e.next_i64();
        e.take_i64().op(Op::LocalSet(r)).val(E::integer(r)).give_i64(r)
    }
}

/// The locals for the double of `ST(i)`, where doubles are cached.
pub(crate) fn gen_x87_local_slot(ctx: &mut JitContext, i: u32) -> (r: Option<X87LocalCacheSlot>)
    requires
        old(ctx)@.wf(),
        i < 8,
    ensures
        final(ctx)@ == old(ctx)@.x87_slot(i),
        final(ctx)@.wf(),
        r is Some == old(ctx)@.x87_cached(),
        r is Some ==> r == final(ctx)@.x87[i as int],
{
    reveal(Ctx::x87_slot);
    if !(ctx.st.env.x87_locals && ctx.st.env.fpu_relaxed) {
        return None;
    }
    ctx.st.x87_cache_kept = true;
    let idx: usize = i as usize;
    if let Some(slot) = ctx.x87_local_cache[idx] {
        return Some(slot);
    }
    ctx.builder.const_i64(0);
    let bits: WasmLocalI64 = ctx.builder.set_new_local_i64();
    ctx.builder.const_i32(0);
    let valid: WasmLocal = ctx.builder.set_new_local();
    let slot = X87LocalCacheSlot { bits, valid };
    ctx.x87_local_cache.set(idx, Some(slot));
    Some(slot)
}

pub(crate) fn x87_cache_in_use(ctx: &JitContext) -> (r: bool)
    ensures
        r == ctx@.x87_in_use(),
{
    let n: usize = ctx.x87_local_cache.len();
    let mut i: usize = 0;
    while i < n
        invariant
            i <= n,
            n == ctx.x87_local_cache@.len(),
            forall|j: int| 0 <= j < i ==> (#[trigger] ctx.x87_local_cache@[j]) is None,
        decreases n - i,
    {
        if ctx.x87_local_cache[i].is_some() {
            assert(ctx@.x87[i as int] is Some);
            return true;
        }
        i = i + 1;
    }
    false
}

pub(crate) fn gen_valid_cleared(ctx: &mut JitContext)
    ensures
        final(ctx)@ == old(ctx)@.on(
            old(ctx)@.e.valid_cleared(old(ctx)@.x87, old(ctx)@.x87.len()),
        ),
{
    let n: usize = ctx.x87_local_cache.len();
    let mut i: usize = 0;
    while i < n
        invariant
            i <= n,
            n == old(ctx)@.x87.len(),
            ctx@ == old(ctx)@.on(old(ctx)@.e.valid_cleared(old(ctx)@.x87, i as nat)),
        decreases n - i,
    {
        if let Some(slot) = ctx.x87_local_cache[i] {
            ctx.builder.const_i32(0);
            ctx.builder.set_local(slot.valid);
        }
        i = i + 1;
    }
}

/// Drops every cached double while the code runs; the locals stay for later use.
pub fn gen_x87_local_cache_invalidate_all_runtime(ctx: &mut JitContext)
    ensures
        final(ctx)@ == old(ctx)@.x87_dropped(),
        old(ctx)@.wf() ==> final(ctx)@.wf(),
{
    reveal(Ctx::x87_dropped);
    ctx.st.x87_cache_kept = true;
    if !x87_cache_in_use(ctx) {
        return ;
    }
    ctx.st.counters.x87_locals_note_cache_invalidate_compiled();
    gen_dispatch_stat_increment(&mut ctx.builder, Stat::X87CacheInvalidate);
    gen_valid_cleared(ctx);
}

/// Gives back the locals of every cached double.
pub fn gen_x87_local_cache_free_all(ctx: &mut JitContext)
    ensures
        final(ctx)@ == old(ctx)@.x87_freed(),
        old(ctx)@.wf() ==> final(ctx)@.wf(),
{
    let n: usize = ctx.x87_local_cache.len();
    let mut i: usize = 0;
    while i < n
        invariant
            i <= n,
            n == old(ctx)@.x87.len(),
            ctx@.x87.len() == n,
            ctx@.st == old(ctx)@.st,
            ctx@.e == old(ctx)@.e.slots_freed(old(ctx)@.x87, i as nat),
            forall|j: int| 0 <= j < i ==> (#[trigger] ctx@.x87[j]) is None,
            forall|j: int| i <= j < n ==> #[trigger] ctx@.x87[j] == old(ctx)@.x87[j],
        decreases n - i,
    {
        if let Some(slot) = ctx.x87_local_cache[i] {
            ctx.x87_local_cache.set(i, None);
            ctx.builder.free_local_i64(slot.bits);
            ctx.builder.free_local(slot.valid);
        }
        i = i + 1;
    }
    assert(ctx@.x87 =~= Seq::new(old(ctx)@.x87.len(), |i: int| None::<X87LocalCacheSlot>));
}

pub(crate) fn gen_fpu_relaxed_tag_ok(ctx: &mut JitContext, addr: WasmLocal)
    ensures
        final(ctx)@ == old(ctx)@.val(E::tag_ok(addr.0)),
{
    ctx.builder.get_local(addr);
    ctx.builder.load(Width::W16, 8);
    ctx.builder.binc(Bin::Eq, FPU_RELAXED_TAG);
}

pub(crate) fn gen_fpu_relaxed_st_ok(ctx: &mut JitContext, i: u32, addr: WasmLocal)
    requires
        old(ctx)@.wf(),
        i < 8,
    ensures
        final(ctx)@ == old(ctx)@.st_ok(i, addr.0),
        final(ctx)@.wf(),
{
    reveal(Ctx::st_ok);
    if let Some(slot) = gen_x87_local_slot(ctx, i) {
        ctx.builder.get_local(slot.valid);
        ctx.builder.if_hinted(BlockType::I32, HINT_GROUP_X87, HINT_UNLIKELY);
        ctx.builder.const_i32(1);
        ctx.builder.else_();
        gen_fpu_relaxed_tag_ok(ctx, addr);
        ctx.builder.block_end();
    } else {
        gen_fpu_relaxed_tag_ok(ctx, addr);
    }
}

pub(crate) fn gen_cached_bits(ctx: &mut JitContext, slot: X87LocalCacheSlot, addr: WasmLocal)
    ensures
        final(ctx)@ == old(ctx)@.on(old(ctx)@.e.cached_bits(slot, addr.0)),
{
    reveal(Emit::cached_bits);
    ctx.builder.get_local(slot.valid);
    ctx.builder.if_i64();
    gen_dispatch_stat_increment(&mut ctx.builder, Stat::X87CacheHit);
    ctx.builder.get_local_i64(slot.bits);
    ctx.builder.else_();
    gen_dispatch_stat_increment(&mut ctx.builder, Stat::X87CacheFill);
    ctx.builder.const_i32(1);
    ctx.builder.set_local(slot.valid);
    ctx.builder.get_local(addr);
    ctx.builder.load(Width::W64, 0);
    ctx.builder.tee_local_i64(slot.bits);
    ctx.builder.block_end();
}

/// Pushes the bits of the double in `ST(i)`.
pub(crate) fn gen_st_bits(ctx: &mut JitContext, i: u32, addr: WasmLocal)
    requires
        old(ctx)@.wf(),
        i < 8,
    ensures
        final(ctx)@ == old(ctx)@.st_bits(i, addr.0),
        final(ctx)@.wf(),
{
    reveal(Ctx::st_bits);
    if let Some(slot) = gen_x87_local_slot(ctx, i) {
        gen_cached_bits(ctx, slot, addr);
        ctx.st.counters.x87_locals_note_cache_load_site_compiled();
    } else {
        ctx.builder.get_local(addr);
        ctx.builder.load(Width::W64, 0);
    }
}

pub(crate) fn gen_fpu_load_relaxed_st_f64(ctx: &mut JitContext, i: u32, addr: WasmLocal)
    requires
        old(ctx)@.wf(),
        i < 8,
    ensures
        final(ctx)@ == old(ctx)@.st_double(i, addr.0),
        final(ctx)@.wf(),
{
    reveal(Ctx::st_double);
    gen_st_bits(ctx, i, addr);
    let bits: WasmLocalI64 = ctx.builder.set_new_local_i64();
    ctx.builder.get_local_i64(bits);
    ctx.builder.un(Un::ReinterpretI64AsF64);
    ctx.builder.free_local_i64(bits);
}

pub(crate) fn gen_st_cached(ctx: &mut JitContext, i: u32, bits: WasmLocalI64)
    requires
        old(ctx)@.wf(),
        i < 8,
    ensures
        final(ctx)@ == old(ctx)@.st_cached(i, bits.0),
        final(ctx)@.wf(),
{
    reveal(Ctx::st_cached);
    if let Some(slot) = gen_x87_local_slot(ctx, i) {
        ctx.st.counters.x87_locals_note_cache_store_compiled();
        ctx.builder.get_local_i64(bits);
        ctx.builder.set_local_i64(slot.bits);
        ctx.builder.const_i32(1);
        ctx.builder.set_local(slot.valid);
    }
}

pub(crate) fn gen_fpu_store_relaxed_f64_st(ctx: &mut JitContext, i: u32, addr: WasmLocal)
    requires
        old(ctx)@.wf(),
        i < 8,
    ensures
        final(ctx)@ == old(ctx)@.st_store(i, addr.0),
        final(ctx)@.wf(),
{
    reveal(Ctx::st_store);
    gen_mark_fpu_simd_dirty_once(ctx);
    ctx.builder.un(Un::ReinterpretF64AsI64);
    let bits: WasmLocalI64 = ctx.builder.set_new_local_i64();
    ctx.builder.get_local(addr);
    ctx.builder.get_local_i64(bits);
    ctx.builder.store(Width::W64, 0);
    ctx.builder.get_local(addr);
    ctx.builder.const_i32(FPU_RELAXED_TAG);
    ctx.builder.store(Width::W16, 8);
    gen_st_cached(ctx, i, bits);
    ctx.builder.free_local_i64(bits);
}

/// Computes the address of `ST(i)` into a new local.
pub(crate) fn gen_fpu_st_addr(ctx: &mut JitContext, i: u32) -> (l: WasmLocal)
    ensures
        final(ctx)@ == old(ctx)@.st_addr(i),
        l.0 == old(ctx)@.e.next_i32(),
{
    ctx.builder.load_fixed(Width::W8, AT_FPU_STACK_PTR);
    ctx.builder.binc(Bin::Add, i as i32);
    ctx.builder.binc(Bin::And, 7);
    ctx.builder.binc(Bin::Mul, 16);
    ctx.builder.binc(Bin::Add, AT_FPU_ST as i32);
    ctx.builder.set_new_local()
}

impl Ctx {
    /// A new local takes the address of `ST(i)`.
    pub open spec fn st_addr(self, i: u32) -> Ctx {
        self.on(self.e.set_new(E::st_index(i).st_slot()))
    }

    /// The condition bits of the status word take the outcome of a comparison.
    #[verifier::opaque]
    pub open spec fn status_compared(self, flags: usize) -> Ctx {
        let c = self.mark_fpu_simd_dirty_once();
        c.on(
            c.e.store_fixed(
                Width::A16,
                AT_FPU_STATUS_WORD,
                E::fixed(Width::A16, AT_FPU_STATUS_WORD).and(NOT_FPU_RESULT_FLAGS).bin(
                    Bin::Or,
                    E::L(flags),
                ),
            ),
        )
    }

    /// Two doubles, given by locals with their bits, are compared into the status word.
    #[verifier::opaque]
    pub open spec fn compare_status(self, x: usize, y: usize) -> Ctx {
        let flags = self.e.next_i32();
        self.on(
            self.e.set_new(E::compared(x, y, FPU_C0 | FPU_C2 | FPU_C3, FPU_C0, FPU_C3)),
        ).status_compared(flags).free(flags)
    }

    /// Two doubles, given by locals with their bits, are compared into the status flags.
    #[verifier::opaque]
    pub open spec fn compare_eflags(self, x: usize, y: usize) -> Ctx {
        let flags = self.e.next_i32();
        self.on(
            self.e.set_new(
                E::compared(
                    x,
                    y,
                    FLAG_CARRY | FLAG_PARITY | FLAG_ZERO,
                    FLAG_CARRY,
                    FLAG_ZERO,
                ),
            ).eflags_compared(flags).give_i32(flags),
        )
    }

    /// Sixteen bytes are copied from one register to another.
    #[verifier::opaque]
    pub open spec fn copy_raw(self, src: usize, dst: usize) -> Ctx {
        let c = self.mark_fpu_simd_dirty_once();
        let lo = c.e.next_i64();
        let hi = c.e.take_i64().next_i64();
        c.on(
            c.e.take_i64().take_i64().set(lo, E::L(src).load(Width::W64, 0)).set(
                hi,
                E::L(src).load(Width::W64, 8),
            ).store(Width::W64, 0, E::L(dst), E::L(lo)).store(
                Width::W64,
                8,
                E::L(dst),
                E::L(hi),
            ).give_i64(hi).give_i64(lo),
        )
    }

    /// The operation on two doubles on the stack, rounded by precision control.
    pub open spec fn binop(self, op: FpuFastBinOp) -> Ctx {
        self.emit(Op::Bin(op.instruction())).pc_rounded()
    }
}

pub(crate) fn gen_fpu_relaxed_stat_increment(ctx: &mut JitContext, stat: Stat)
    ensures
        final(ctx)@ == old(ctx)@.relaxed_event(stat),
{
    if ctx.st.env.fpu_relaxed_stats {
        let address: u32 = stat.counter_address(ctx.builder.opt.stat_base);
        ctx.builder.increment_fixed_i64(address);
    }
}

pub(crate) fn gen_fpu_copy_raw(ctx: &mut JitContext, src_addr: WasmLocal, dst_addr: WasmLocal)
    ensures
        final(ctx)@ == old(ctx)@.copy_raw(src_addr.0, dst_addr.0),
        old(ctx)@.wf() ==> final(ctx)@.wf(),
{
    reveal(Ctx::copy_raw);
    gen_mark_fpu_simd_dirty_once(ctx);
    ctx.builder.get_local(src_addr);
    ctx.builder.load(Width::W64, 0);
    let lo: WasmLocalI64 = ctx.builder.set_new_local_i64();
    ctx.builder.get_local(src_addr);
    ctx.builder.load(Width::W64, 8);
    let hi: WasmLocalI64 = ctx.builder.set_new_local_i64();
    ctx.builder.get_local(dst_addr);
    ctx.builder.get_local_i64(lo);
    ctx.builder.store(Width::W64, 0);
    ctx.builder.get_local(dst_addr);
    ctx.builder.get_local_i64(hi);
    ctx.builder.store(Width::W64, 8);
    ctx.builder.free_local_i64(hi);
    ctx.builder.free_local_i64(lo);
}

pub(crate) fn gen_double(builder: &mut WasmBuilder, bits: WasmLocalI64)
    ensures
        final(builder)@ == old(builder)@.val(E::double(bits.0)),
{
    builder.get_local_i64(bits);
    builder.un(Un::ReinterpretI64AsF64);
}

pub(crate) fn gen_f64_is_nan(builder: &mut WasmBuilder, bits: WasmLocalI64)
    ensures
        final(builder)@ == old(builder)@.val(E::is_nan(bits.0)),
{
    gen_double(builder, bits);
    gen_double(builder, bits);
    builder.bin(Bin::NeF64);
}

pub(crate) fn gen_fpu_compare_flags(
    builder: &mut WasmBuilder,
    x_bits: WasmLocalI64,
    y_bits: WasmLocalI64,
    unordered_flags: i32,
    less_flags: i32,
    equal_flags: i32,
) -> (l: WasmLocal)
    ensures
        final(builder)@ == old(builder)@.set_new(
            E::compared(x_bits.0, y_bits.0, unordered_flags, less_flags, equal_flags),
        ),
        l.0 == old(builder)@.next_i32(),
{
    gen_f64_is_nan(builder, x_bits);
    gen_f64_is_nan(builder, y_bits);
    builder.bin(Bin::Or);
    builder.if_i32();
    builder.const_i32(unordered_flags);
    builder.else_();
    gen_double(builder, x_bits);
    gen_double(builder, y_bits);
    builder.bin(Bin::LtF64);
    builder.if_i32();
    builder.const_i32(less_flags);
    builder.else_();
    gen_double(builder, x_bits);
    gen_double(builder, y_bits);
    builder.bin(Bin::EqF64);
    builder.if_i32();
    builder.const_i32(equal_flags);
    builder.else_();
    builder.const_i32(0);
    builder.block_end();
    builder.block_end();
    builder.block_end();
    builder.set_new_local()
}

pub(crate) fn gen_fpu_write_status_compare_flags(ctx: &mut JitContext, compare_flags: WasmLocal)
    ensures
        final(ctx)@ == old(ctx)@.status_compared(compare_flags.0),
        old(ctx)@.wf() ==> final(ctx)@.wf(),
{
    reveal(Ctx::status_compared);
    gen_mark_fpu_simd_dirty_once(ctx);
    ctx.builder.const_i32(AT_FPU_STATUS_WORD as i32);
    ctx.builder.load_fixed(Width::A16, AT_FPU_STATUS_WORD);
    ctx.builder.binc(Bin::And, NOT_FPU_RESULT_FLAGS);
    ctx.builder.get_local(compare_flags);
    ctx.builder.bin(Bin::Or);
    ctx.builder.store(Width::A16, 0);
}

pub(crate) fn gen_fpu_write_eflags_compare_flags(builder: &mut WasmBuilder, compare_flags: WasmLocal)
    ensures
        final(builder)@ == old(builder)@.eflags_compared(compare_flags.0),
{
    reveal(Emit::eflags_compared);
    builder.const_i32(flag_slot_address(FlagSlot::FlagsChanged) as i32);
    builder.const_i32(0);
    builder.flag_store_i32(FlagSlot::FlagsChanged);
    builder.const_i32(flag_slot_address(FlagSlot::Flags) as i32);
    builder.get_flag_word(FlagSlot::Flags);
    builder.binc(Bin::And, NOT_FLAGS_ALL);
    builder.get_local(compare_flags);
    builder.bin(Bin::Or);
    builder.flag_store_i32(FlagSlot::Flags);
}

pub(crate) fn gen_fpu_compare_status_from_bits(
    ctx: &mut JitContext,
    x_bits: WasmLocalI64,
    y_bits: WasmLocalI64,
)
    ensures
        final(ctx)@ == old(ctx)@.compare_status(x_bits.0, y_bits.0),
        old(ctx)@.wf() ==> final(ctx)@.wf(),
{
    reveal(Ctx::compare_status);
    let flags: WasmLocal = gen_fpu_compare_flags(
        &mut ctx.builder,
        x_bits,
        y_bits,
        FPU_C0 | FPU_C2 | FPU_C3,
        FPU_C0,
        FPU_C3,
    );
    gen_fpu_write_status_compare_flags(ctx, flags);
    ctx.builder.free_local(flags);
}

pub(crate) fn gen_fpu_compare_eflags_from_bits(
    ctx: &mut JitContext,
    x_bits: WasmLocalI64,
    y_bits: WasmLocalI64,
)
    ensures
        final(ctx)@ == old(ctx)@.compare_eflags(x_bits.0, y_bits.0),
        old(ctx)@.wf() ==> final(ctx)@.wf(),
{
    reveal(Ctx::compare_eflags);
    let flags: WasmLocal = gen_fpu_compare_flags(
        &mut ctx.builder,
        x_bits,
        y_bits,
        FLAG_CARRY | FLAG_PARITY | FLAG_ZERO,
        FLAG_CARRY,
        FLAG_ZERO,
    );
    gen_fpu_write_eflags_compare_flags(&mut ctx.builder, flags);
    ctx.builder.free_local(flags);
}

pub(crate) fn gen_rounded(builder: &mut WasmBuilder, bits: WasmLocalI64, how: Un)
    ensures
        final(builder)@ == old(builder)@.val(E::rounded(bits.0, how)),
{
    gen_double(builder, bits);
    builder.un(how);
    builder.un(Un::ReinterpretF64AsI64);
}

pub(crate) fn gen_rounded_by_control(builder: &mut WasmBuilder, bits: WasmLocalI64)
    ensures
        final(builder)@ == old(builder)@.rounded_by_control(bits.0),
{
    reveal(Emit::rounded_by_control);
    builder.load_fixed(Width::A16, AT_FPU_CONTROL_WORD);
    builder.binc(Bin::ShrU, 10);
    builder.binc(Bin::And, 3);
    let rc: WasmLocal = builder.set_new_local();
    builder.get_local(rc);
    builder.binc(Bin::Eq, 1);
    builder.if_i64();
    gen_rounded(builder, bits, Un::FloorF64);
    builder.else_();
    builder.get_local(rc);
    builder.binc(Bin::Eq, 2);
    builder.if_i64();
    gen_rounded(builder, bits, Un::CeilF64);
    builder.else_();
    builder.get_local(rc);
    builder.binc(Bin::Eq, 3);
    builder.if_i64();
    gen_rounded(builder, bits, Un::TruncF64);
    builder.else_();
    gen_rounded(builder, bits, Un::NearestF64);
    builder.block_end();
    builder.block_end();
    builder.block_end();
    builder.free_local(rc);
}

pub(crate) fn gen_integer(builder: &mut WasmBuilder, bits: WasmLocalI64)
    ensures
        final(builder)@ == old(builder)@.val(E::integer(bits.0)),
{
    gen_f64_is_nan(builder, bits);
    gen_double(builder, bits);
    builder.const_f64(TWO_POW_31_BITS);
    builder.bin(Bin::GeF64);
    builder.bin(Bin::Or);
    gen_double(builder, bits);
    builder.const_f64(MINUS_TWO_POW_31_BITS);
    builder.bin(Bin::LtF64);
    builder.bin(Bin::Or);
    builder.if_i32();
    builder.const_i32(SMALLEST_I32);
    builder.else_();
    gen_double(builder, bits);
    builder.un(Un::TruncF64ToI32);
    builder.block_end();
}

/// Pushes the double with the bits in a local as a 32-bit integer.
pub(crate) fn gen_fpu_round_f64_bits_to_i32(
    builder: &mut WasmBuilder,
    bits: WasmLocalI64,
    truncate: bool,
)
    ensures
        final(builder)@ == old(builder)@.to_i32(bits.0, truncate),
{
    reveal(Emit::to_i32);
    if truncate {
        gen_rounded(builder, bits, Un::TruncF64);
    } else {
        gen_rounded_by_control(builder, bits);
    }
    let rounded_bits: WasmLocalI64 = builder.set_new_local_i64();
    gen_integer(builder, rounded_bits);
    builder.free_local_i64(rounded_bits);
}

pub(crate) fn gen_fpu_clamp_i32_to_i16(builder: &mut WasmBuilder, value: WasmLocal)
    ensures
        final(builder)@ == old(builder)@.val(E::clamped_i16(value.0)),
{
    builder.get_local(value);
    builder.binc(Bin::LtS, SMALLEST_I16);
    builder.get_local(value);
    builder.binc(Bin::GtS, 0x7FFF);
    builder.bin(Bin::Or);
    builder.if_i32();
    builder.const_i32(SMALLEST_I16);
    builder.else_();
    builder.get_local(value);
    builder.block_end();
}

pub(crate) fn gen_single_precision(builder: &mut WasmBuilder)
    ensures
        final(builder)@ == old(builder)@.val(E::single_precision()),
{
    builder.load_fixed(Width::A16, AT_FPU_CONTROL_WORD);
    builder.binc(Bin::And, 0x300);
    builder.un(Un::Eqz);
}

pub(crate) fn gen_fpu_pc_cache_prepare(ctx: &mut JitContext)
    ensures
        final(ctx)@ == old(ctx)@.pc_prepared(),
        old(ctx)@.wf() ==> final(ctx)@.wf(),
        final(ctx)@.st.env == old(ctx)@.st.env,
        final(ctx)@.st.env.x87_pc_local ==> final(ctx)@.st.fpu_pc_cache is Some,
{
    reveal(Ctx::pc_prepared);
    if !ctx.st.env.x87_pc_local || ctx.st.fpu_pc_cache.is_some() {
        return ;
    }
    gen_single_precision(&mut ctx.builder);
    let l: WasmLocal = ctx.builder.set_new_local();
    ctx.st.fpu_pc_cache = Some(l);
}

/// Gives back the local of the cached precision control.
pub fn gen_fpu_pc_cache_free(ctx: &mut JitContext)
    ensures
        final(ctx)@ == (match old(ctx)@.st.fpu_pc_cache {
            Some(l) => Ctx {
                e: old(ctx)@.e.give_i32(l.0),
                st: UnitState { fpu_pc_cache: None, ..old(ctx)@.st },
                ..old(ctx)@
            },
            None => old(ctx)@,
        }),
{
    if let Some(pc) = ctx.st.fpu_pc_cache {
        ctx.st.fpu_pc_cache = None;
        ctx.builder.free_local(pc);
    }
}

pub(crate) fn gen_fpu_round_f64_by_precision_control(ctx: &mut JitContext)
    requires
        old(ctx)@.st.env.x87_pc_local ==> old(ctx)@.st.fpu_pc_cache is Some,
    ensures
        final(ctx)@ == old(ctx)@.pc_rounded(),
        old(ctx)@.wf() ==> final(ctx)@.wf(),
{
    reveal(Ctx::pc_rounded);
    ctx.builder.un(Un::ReinterpretF64AsI64);
    let raw: WasmLocalI64 = ctx.builder.tee_new_local_i64();
    ctx.builder.un(Un::ReinterpretI64AsF64);
    ctx.builder.un(Un::DemoteF64);
    ctx.builder.un(Un::PromoteF32);
    gen_double(&mut ctx.builder, raw);
    if ctx.st.env.x87_pc_local {
        ctx.st.fpu_pc_cache_kept = true;
        if let Some(l) = ctx.st.fpu_pc_cache {
            ctx.builder.get_local(l);
        }
    } else {
        gen_single_precision(&mut ctx.builder);
    }
    ctx.builder.select();
    ctx.builder.free_local_i64(raw);
}

pub(crate) fn gen_fpu_apply_f64_binop(ctx: &mut JitContext, op: FpuFastBinOp)
    requires
        old(ctx)@.st.env.x87_pc_local ==> old(ctx)@.st.fpu_pc_cache is Some,
    ensures
        final(ctx)@ == old(ctx)@.binop(op),
        old(ctx)@.wf() ==> final(ctx)@.wf(),
{
    ctx.builder.bin(op.wasm());
    gen_fpu_round_f64_by_precision_control(ctx);
}

} // verus!
