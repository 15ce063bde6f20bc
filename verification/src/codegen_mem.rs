//! Code that reads and writes guest memory: the translation fast path, the permission and
//! store maps, the cached translations, and the helpers behind them.
use vstd::prelude::*;
use crate::codegen_reg::{
    gen_debug_track_jit_exit, gen_dispatch_stat_increment, gen_get_eip, gen_modrm_resolve,
    gen_profiler_stat_increment,
};
use crate::cpu_state::{
    offset_in_page, Stat, PAGE_MASK, TLB_GLOBAL, TLB_HAS_CODE, TLB_NO_USER, TLB_READONLY, TLB_VALID,
};
use crate::jit_context::{
    CodegenCounters, Ctx, JitContext, Push32WriteCache, ReadTlbCache, UnitState,
};
use crate::modrm::{get_as_reg_index_if_possible, ModrmByte};
use crate::perm_map::{PERM_READ_MASK_CPL0, PERM_READ_MASK_CPL3};
use crate::wasm::{
    Bin, BlockType, Emit, Label, Op, Sig, Un, WasmLocal, WasmLocalI64, Width, E, HINT_GROUP_MEM,
    HINT_LIKELY, HINT_UNLIKELY,
};

verus! {

broadcast use crate::wasm::group_code;

/// Width of a guest memory access.
#[derive(Clone, Copy, Debug, PartialEq, Eq, Structural)]
pub enum BitSize {
    BYTE,
    WORD,
    DWORD,
    QWORD,
    DQWORD,
}

impl BitSize {
    pub open spec fn size(self) -> u32 {
        match self {
            BitSize::BYTE => 1,
            BitSize::WORD => 2,
            BitSize::DWORD => 4,
            BitSize::QWORD => 8,
            BitSize::DQWORD => 16,
        }
    }

    /// Number of bytes.
    pub fn bytes(&self) -> (n: u32)
        ensures
            n == self.size(),
    {
        match self {
            BitSize::BYTE => 1,
            BitSize::WORD => 2,
            BitSize::DWORD => 4,
            BitSize::QWORD => 8,
            BitSize::DQWORD => 16,
        }
    }

    /// How one access of this width loads or stores.
    pub open spec fn width(self) -> Width {
        match self {
            BitSize::BYTE => Width::W8,
            BitSize::WORD => Width::W16,
            BitSize::DWORD => Width::W32,
            _ => Width::W64,
        }
    }

    pub fn access_width(&self) -> (w: Width)
        ensures
            w == self.width(),
    {
        match self {
            BitSize::BYTE => Width::W8,
            BitSize::WORD => Width::W16,
            BitSize::DWORD => Width::W32,
            _ => Width::W64,
        }
    }

    pub open spec fn read_helper(self) -> &'static str {
        match self {
            BitSize::BYTE => "safe_read8_slow_jit",
            BitSize::WORD => "safe_read16_slow_jit",
            BitSize::DWORD => "safe_read32s_slow_jit",
            BitSize::QWORD => "safe_read64s_slow_jit",
            BitSize::DQWORD => "safe_read128s_slow_jit",
        }
    }

    fn read_helper_name(&self) -> (s: &'static str)
        ensures
            s == self.read_helper(),
    {
        match self {
            BitSize::BYTE => "safe_read8_slow_jit",
            BitSize::WORD => "safe_read16_slow_jit",
            BitSize::DWORD => "safe_read32s_slow_jit",
            BitSize::QWORD => "safe_read64s_slow_jit",
            BitSize::DQWORD => "safe_read128s_slow_jit",
        }
    }

    pub open spec fn write_helper(self) -> (&'static str, Sig) {
        match self {
            BitSize::BYTE => ("safe_write8_slow_jit", Sig::Fn3Ret),
            BitSize::WORD => ("safe_write16_slow_jit", Sig::Fn3Ret),
            BitSize::DWORD => ("safe_write32_slow_jit", Sig::Fn3Ret),
            BitSize::QWORD => ("safe_write64_slow_jit", Sig::Fn3I32I64I32Ret),
            BitSize::DQWORD => ("safe_write128_slow_jit", Sig::Fn4I32I64I64I32Ret),
        }
    }

    fn write_helper_name(&self) -> (s: (&'static str, Sig))
        ensures
            s == self.write_helper(),
    {
        match self {
            BitSize::BYTE => ("safe_write8_slow_jit", Sig::Fn3Ret),
            BitSize::WORD => ("safe_write16_slow_jit", Sig::Fn3Ret),
            BitSize::DWORD => ("safe_write32_slow_jit", Sig::Fn3Ret),
            BitSize::QWORD => ("safe_write64_slow_jit", Sig::Fn3I32I64I32Ret),
            BitSize::DQWORD => ("safe_write128_slow_jit", Sig::Fn4I32I64I64I32Ret),
        }
    }

    /// The helper that translates for a read followed by a write; 128 bits have none.
    pub open spec fn read_write_helper(self) -> &'static str {
        match self {
            BitSize::BYTE => "safe_read_write8_slow_jit",
            BitSize::WORD => "safe_read_write16_slow_jit",
            BitSize::DWORD => "safe_read_write32s_slow_jit",
            _ => "safe_read_write64_slow_jit",
        }
    }

    fn read_write_helper_name(&self) -> (s: &'static str)
        ensures
            s == self.read_write_helper(),
    {
        match self {
            BitSize::BYTE => "safe_read_write8_slow_jit",
            BitSize::WORD => "safe_read_write16_slow_jit",
            BitSize::DWORD => "safe_read_write32s_slow_jit",
            _ => "safe_read_write64_slow_jit",
        }
    }
}

/// The locals that hold a value to be written.
#[derive(Clone, Copy, Debug, PartialEq, Eq, Structural)]
pub enum GenSafeWriteValue {
    I32(WasmLocal),
    I64(WasmLocalI64),
    TwoI64s(WasmLocalI64, WasmLocalI64),
}

impl GenSafeWriteValue {
    /// The value has the width of the access.
    pub open spec fn fits(self, bits: BitSize) -> bool {
        match self {
            GenSafeWriteValue::I32(_) => bits is BYTE || bits is WORD || bits is DWORD,
            GenSafeWriteValue::I64(_) => bits is QWORD,
            GenSafeWriteValue::TwoI64s(_, _) => bits is DQWORD,
        }
    }

    pub open spec fn expr(self) -> E {
        match self {
            GenSafeWriteValue::I32(l) => E::L(l.0),
            GenSafeWriteValue::I64(l) => E::L(l.0),
            GenSafeWriteValue::TwoI64s(l, h) => E::L(l.0).both(E::L(h.0)),
        }
    }
}

impl E {
    /// The access at local `a` stays inside one page.
    pub open spec fn in_page(a: usize, bits: BitSize) -> E {
        E::L(a).and(0xfff).binc(Bin::LeS, (0x1000 - bits.size()) as i32)
    }

    /// `self`, and the access stays inside one page where it could leave it.
    pub open spec fn and_in_page(self, a: usize, bits: BitSize) -> E {
        if bits is BYTE {
            self
        } else {
            self.bin(Bin::And, E::in_page(a, bits))
        }
    }

    /// Where the page of translation entry `entry` and the address in `a` lie in linear memory.
    pub open spec fn host(a: usize, entry: usize) -> E {
        E::L(entry).and(PAGE_MASK).bin(Bin::Xor, E::L(a))
    }
}

impl Emit {
    /// A helper's result, on the stack, goes to `entry`; where its low bit is set, the unit is
    /// left with a fault.
    #[verifier::opaque]
    pub open spec fn fault_check(self, entry: usize, start: u32, fault: Label) -> Emit {
        let e = self.val(E::Top.tee(entry).and(1));
        let t = if self.opt.profiler {
            e.op(Op::If(BlockType::Void, None)).track_exit(start).end().val(E::L(entry).and(1))
        } else {
            e
        };
        t.op(Op::BrIf(fault, t.hint(HINT_GROUP_MEM, HINT_UNLIKELY)))
    }

    /// The profiler hears of a slow access.
    #[verifier::opaque]
    pub open spec fn report_slow(self, helper: &'static str, a: usize, entry: usize) -> Emit {
        if self.opt.profiler {
            self.val(E::L(a).both(E::L(entry)).call(helper, Sig::Fn2))
        } else {
            self
        }
    }

    /// The value in memory at the address on the stack; 128 bits go to `to` instead.
    #[verifier::opaque]
    pub open spec fn load_at_top(self, bits: BitSize, to: u32) -> Emit {
        if bits is DQWORD {
            let x = self.next_i32();
            self.take_i32().op(Op::LocalSet(x)).store(
                Width::W64,
                to,
                E::C(0),
                E::L(x).load(Width::W64, 0),
            ).store(Width::W64, to.wrapping_add(8), E::C(0), E::L(x).load(Width::W64, 8)).give_i32(x)
        } else {
            self.op(Op::Load(bits.width(), 0))
        }
    }
}

impl Ctx {
    /// The translation entry of the page of the address in `a`.
    pub open spec fn tlb_entry(self, a: usize) -> E {
        E::L(a).binc(Bin::ShrU, 12).binc(Bin::Shl, 2).load(Width::A32, self.st.env.tlb_data)
    }

    /// The entry bits that must be exactly `TLB_VALID` for a direct read.
    pub open spec fn read_mask(self) -> i32 {
        0xfffi32 & !TLB_READONLY & !TLB_GLOBAL & !TLB_HAS_CODE & !(if self.st.cpu.cpl3 {
            0
        } else {
            TLB_NO_USER
        })
    }

    /// The entry bits that must be exactly `TLB_VALID` for a direct write.
    pub open spec fn write_mask(self) -> i32 {
        0xfffi32 & !TLB_GLOBAL & !(if self.st.cpu.cpl3 {
            0
        } else {
            TLB_NO_USER
        })
    }

    /// The translation entry, which `entry` keeps, allows the access directly.
    pub open spec fn direct(self, a: usize, entry: usize, mask: i32, bits: BitSize) -> E {
        self.tlb_entry(a).tee(entry).and(mask).binc(Bin::Eq, TLB_VALID).and_in_page(a, bits)
    }

    /// The locals of the read cache exist where reads are cached.
    pub open spec fn read_cache_slot(self) -> Ctx {
        if !self.st.env.read_tlb_cache || self.st.read_tlb_cache is Some {
            self
        } else {
            let e1 = self.e.set_new(E::C(0));
            let e2 = e1.set_new(E::C(0));
            Ctx {
                e: e2.set_new(E::C(0)),
                st: UnitState { read_tlb_cache: Some(
                    ReadTlbCache {
                        page: WasmLocal(self.e.next_i32()),
                        entry: WasmLocal(e1.next_i32()),
                        valid: WasmLocal(e2.next_i32()),
                    },
                ), ..self.st },
                ..self
            }
        }
    }

    /// One more event of the read cache, where they are counted.
    #[verifier::opaque]
    pub open spec fn read_cache_event(self, stat: Stat) -> Emit {
        if self.st.env.read_tlb_cache_census {
            self.e.count(stat.address(self.e.opt.stat_base))
        } else {
            self.e
        }
    }

    pub open spec fn read_cache_dropped(self) -> Ctx {
        match self.st.read_tlb_cache {
            Some(cache) => self.on(self.e.set(cache.valid.0, E::C(0))),
            None => self,
        }
    }

    /// Reads ask the permission map first.
    pub open spec fn perm_probed(self) -> bool {
        self.st.env.perm_map_reads && self.st.env.mem8 != 0
    }

    /// What the permission byte of a page must hold for a read.
    pub open spec fn perm_mask(self) -> u8 {
        if self.st.cpu.cpl3 {
            PERM_READ_MASK_CPL3
        } else {
            PERM_READ_MASK_CPL0
        }
    }

    /// The local for the probed address exists where reads ask the permission map.
    pub open spec fn perm_slot(self) -> Ctx {
        if self.perm_probed() && self.st.perm_map_off is None {
            Ctx {
                e: self.e.set_new(E::C(0)),
                st: UnitState { perm_map_off: Some(WasmLocal(self.e.next_i32())), ..self.st },
                ..self
            }
        } else {
            self
        }
    }

    /// The permission map allows the access at the address in `a`.
    pub open spec fn perm_allowed(self, a: usize, bits: BitSize) -> E {
        let mask = self.perm_mask() as i32;
        E::L(a).binc(Bin::ShrU, 12).load(Width::W8, self.st.env.perm_map).and(mask).binc(
            Bin::Eq,
            mask,
        ).and_in_page(a, bits)
    }

    /// A block is opened; a page that the permission map allows leaves it at once, with the
    /// address in `off`.
    #[verifier::opaque]
    pub open spec fn perm_asked(self, a: usize, bits: BitSize, off: usize) -> Emit {
        let done = self.e.label();
        self.e.block().if_void(self.perm_allowed(a, bits)).dispatch_event(Stat::PermMapReadHit).set(
            off,
            E::L(a).binc(Bin::Add, self.st.env.mem8 as i32),
        ).br(done).end().dispatch_event(Stat::PermMapReadMiss)
    }

    /// Reads ask the permission map where they should.
    pub open spec fn perm_probe(self, a: usize, bits: BitSize) -> Ctx {
        if self.perm_probed() {
            let c = self.perm_slot();
            c.on(c.perm_asked(a, bits, (c.st.perm_map_off->0).0))
        } else {
            self
        }
    }

    /// With reads cached: a block is opened, and a hit leaves it with the cached entry.
    #[verifier::opaque]
    pub open spec fn cached_entry(self, a: usize, entry: usize, page: usize, bits: BitSize) -> Emit {
        let cache = self.st.read_tlb_cache->0;
        let ready = self.e.label();
        let hit = E::L(cache.valid.0).bin(
            Bin::And,
            E::L(cache.page.0).bin(Bin::Eq, E::L(page)),
        ).and_in_page(a, bits);
        self.on(self.e.block().if_void(hit)).read_cache_event(Stat::ReadTlbCacheHit).set(
            entry,
            E::L(cache.entry.0),
        ).br(ready).end()
    }

    /// A direct translation goes to `cont`, and fills the read cache where there is one.
    #[verifier::opaque]
    pub open spec fn direct_read(
        self,
        a: usize,
        entry: usize,
        page: usize,
        bits: BitSize,
        cont: Label,
    ) -> Emit {
        let c = self.val(self.direct(a, entry, self.read_mask(), bits));
        let hint = self.e.hint(HINT_GROUP_MEM, HINT_LIKELY);
        if self.st.env.read_tlb_cache {
            let cache = self.st.read_tlb_cache->0;
            c.on(c.e.op(Op::If(BlockType::Void, hint))).read_cache_event(
                Stat::ReadTlbCacheFill,
            ).set(cache.page.0, E::L(page)).set(cache.entry.0, E::L(entry)).set(
                cache.valid.0,
                E::C(1),
            ).br(cont).end()
        } else {
            c.e.op(Op::BrIf(cont, hint))
        }
    }

    /// The local for the page number where reads are cached; elsewhere it is not needed.
    pub open spec fn page_local(self, entry: usize) -> usize {
        if self.st.env.read_tlb_cache {
            self.e.next_i32()
        } else {
            entry
        }
    }

    /// The read cache is asked for the translation of the address in `a`, where there is one.
    #[verifier::opaque]
    pub open spec fn ask_read_cache(self, a: usize, entry: usize, bits: BitSize) -> Emit {
        if self.st.env.read_tlb_cache {
            self.on(self.e.set_new(E::L(a).binc(Bin::ShrU, 12))).cached_entry(
                a,
                entry,
                self.page_local(entry),
                bits,
            )
        } else {
            self.e
        }
    }

    /// The translation of the address in `a` goes to `entry`, from the read cache, the
    /// translation table or the helper.
    #[verifier::opaque]
    pub open spec fn translate_read(self, a: usize, entry: usize, bits: BitSize) -> Emit {
        let page = self.page_local(entry);
        let e1 = self.ask_read_cache(a, entry, bits);
        let slow = E::L(a).both(self.here()).call(bits.read_helper(), Sig::Fn2Ret);
        let e3 = self.on(e1.block()).direct_read(a, entry, page, bits, e1.label()).report_slow(
            "report_safe_read_jit_slow",
            a,
            entry,
        ).val(slow).fault_check(
            entry,
            self.st.start_of_current_instruction,
            self.st.exit_with_fault_label,
        ).end();
        if self.st.env.read_tlb_cache {
            e3.end().give_i32(page)
        } else {
            e3
        }
    }

    /// The value at the address in `a` is pushed; 128 bits go to `to` instead.
    #[verifier::opaque]
    pub open spec fn safe_read(self, bits: BitSize, a: usize, to: u32) -> Ctx {
        let c = self.read_cache_slot().perm_probe(a, bits);
        c.on(c.translated_load(bits, a, to))
    }

    /// What follows the permission probe: the address in `a` is translated and loaded from.
    #[verifier::opaque]
    pub open spec fn translated_load(self, bits: BitSize, a: usize, to: u32) -> Emit {
        let entry = self.e.next_i32();
        let e2 = self.on(self.e.set_new(E::C(0))).translate_read(a, entry, bits);
        let e3 = e2.profile(Stat::SafeReadFast).val(E::host(a, entry));
        let e4 = if self.perm_probed() {
            let off = (self.st.perm_map_off->0).0;
            e3.op(Op::LocalSet(off)).end().val(E::L(off))
        } else {
            e3
        };
        e4.load_at_top(bits, to).give_i32(entry)
    }

    /// The linear-memory address of the instruction at the address in `a` is pushed.
    #[verifier::opaque]
    pub open spec fn phys_eip_plus_mem(self, a: usize) -> Emit {
        let cont = self.e.label();
        let entry = self.e.next_i32();
        self.e.block().take_i32().br_if_hinted(
                self.direct(a, entry, self.read_mask(), BitSize::BYTE),
                cont,
                HINT_GROUP_MEM,
                HINT_LIKELY,
            ).report_slow("report_safe_read_jit_slow", a, entry).val(
                E::L(a).call("get_phys_eip_slow_jit", Sig::Fn1Ret),
            ).fault_check(
                entry,
                self.st.start_of_current_instruction,
                self.st.exit_with_fault_label,
            ).end().profile(Stat::SafeReadFast).val(E::host(a, entry)).give_i32(entry)
    }

    /// The helper that performs a write that cannot be done directly.
    pub open spec fn slow_write(self, bits: BitSize, a: usize, value: E) -> E {
        E::L(a).both(value).both(self.here()).call(bits.write_helper().0, bits.write_helper().1)
    }
}

impl Emit {
    /// The value goes to the address on the stack.
    #[verifier::opaque]
    pub open spec fn store_at_top(self, bits: BitSize, value: GenSafeWriteValue) -> Emit {
        match value {
            GenSafeWriteValue::TwoI64s(low, high) => {
                let x = self.next_i32();
                self.take_i32().op(Op::LocalTee(x)).store(
                    Width::W64,
                    0,
                    E::Top,
                    E::L(low.0),
                ).store(Width::W64, 8, E::L(x), E::L(high.0)).give_i32(x)
            },
            _ => self.val(value.expr()).op(Op::Store(bits.width(), 0)),
        }
    }

    /// The value goes to the address on the stack, through a local for 128 bits.
    #[verifier::opaque]
    pub open spec fn store_at_local(self, bits: BitSize, value: GenSafeWriteValue) -> Emit {
        match value {
            GenSafeWriteValue::TwoI64s(low, high) => {
                let x = self.next_i32();
                self.take_i32().op(Op::LocalSet(x)).store(
                    Width::W64,
                    0,
                    E::L(x),
                    E::L(low.0),
                ).store(Width::W64, 8, E::L(x), E::L(high.0)).give_i32(x)
            },
            _ => self.val(value.expr()).op(Op::Store(bits.width(), 0)),
        }
    }
}

impl Ctx {
    /// The store map refuses the access at the address in `a`, or it leaves its page.
    pub open spec fn store_refused(self, a: usize, bits: BitSize) -> E {
        let refused = E::L(a).binc(Bin::ShrU, 12).load(Width::W8, self.st.env.write_map).binc(
            Bin::Ne,
            1,
        );
        if bits is BYTE {
            refused
        } else {
            refused.bin(
                Bin::Or,
                E::L(a).and(0xfff).binc(Bin::GtS, (0x1000 - bits.size()) as i32),
            )
        }
    }

    /// Through the store map: pages that it allows are written at once, others through the
    /// helper.
    #[verifier::opaque]
    pub open spec fn mapped_code(self, bits: BitSize, a: usize, value: GenSafeWriteValue) -> Emit {
        let host = self.e.label();
        let e1 = self.e.op(Op::Block(BlockType::I32));
        let slow = e1.label();
        let e2 = e1.block().val(self.store_refused(a, bits)).op(Op::BrIf(slow, None)).val(
            E::C(self.st.env.mem8 as i32).bin(Bin::Add, E::L(a)),
        ).br(host).end();
        let e3 = if e2.opt.profiler {
            e2.val(E::L(a).both(E::C(0)).call("report_safe_write_jit_slow", Sig::Fn2))
        } else {
            e2
        };
        let entry = e3.next_i32();
        let e4 = e3.take_i32().val(self.slow_write(bits, a, value.expr())).fault_check(
            entry,
            self.st.start_of_current_instruction,
            self.st.exit_with_fault_label,
        ).val(E::host(a, entry)).give_i32(entry).end().profile(Stat::SafeWriteFast);
        e4.store_at_local(bits, value)
    }

    pub open spec fn mapped_write(self, bits: BitSize, a: usize, value: GenSafeWriteValue) -> Ctx {
        Ctx {
            e: self.mapped_code(bits, a, value),
            st: UnitState {
                counters: CodegenCounters {
                    speculated_stores: self.st.counters.speculated_stores.saturating_add(1),
                    ..self.st.counters
                },
                ..self.st
            },
            ..self
        }
    }

    /// Through the translation table: a direct page is written at once, others through the
    /// helper.
    #[verifier::opaque]
    pub open spec fn translated_write(
        self,
        bits: BitSize,
        a: usize,
        value: GenSafeWriteValue,
    ) -> Emit {
        let cont = self.e.label();
        let entry = self.e.next_i32();
        let c = self.on(
            self.e.block().take_i32().br_if_hinted(
                self.direct(a, entry, self.write_mask(), bits),
                cont,
                HINT_GROUP_MEM,
                HINT_LIKELY,
            ).report_slow("report_safe_write_jit_slow", a, entry),
        ).read_cache_dropped();
        c.e.val(self.slow_write(bits, a, value.expr())).fault_check(
            entry,
            self.st.start_of_current_instruction,
            self.st.exit_with_fault_label,
        ).end().profile(Stat::SafeWriteFast).val(E::host(a, entry)).store_at_top(
            bits,
            value,
        ).give_i32(entry)
    }

    /// The value goes to guest memory at the address in `a`.
    #[verifier::opaque]
    pub open spec fn safe_write(self, bits: BitSize, a: usize, value: GenSafeWriteValue) -> Ctx {
        if self.st.fastmem_writes {
            self.read_cache_dropped().mapped_write(bits, a, value)
        } else {
            self.on(self.translated_write(bits, a, value))
        }
    }

    pub open spec fn push_cache_slot(self) -> Ctx {
        if self.st.push32_write_cache is Some {
            self
        } else {
            let e1 = self.e.set_new(E::C(0));
            let e2 = e1.set_new(E::C(0));
            Ctx {
                e: e2.set_new(E::C(0)),
                st: UnitState { push32_write_cache: Some(
                    Push32WriteCache {
                        page: WasmLocal(self.e.next_i32()),
                        entry: WasmLocal(e1.next_i32()),
                        valid: WasmLocal(e2.next_i32()),
                    },
                ), ..self.st },
                ..self
            }
        }
    }
}

impl Emit {
    /// A 32-bit value goes to the page of `entry`.
    #[verifier::opaque]
    pub open spec fn write32(self, a: usize, entry: usize, value: usize) -> Emit {
        self.store(Width::W32, 0, E::host(a, entry), E::L(value))
    }

    /// Where the cached page is `page`, the value is written there and the code goes on at
    /// `done`.
    #[verifier::opaque]
    pub open spec fn push_reuse(
        self,
        cache: Push32WriteCache,
        page: usize,
        done: Label,
        a: usize,
        value: usize,
    ) -> Emit {
        let hit = E::L(cache.valid.0).bin(
            Bin::And,
            E::L(cache.page.0).bin(Bin::Eq, E::L(page)),
        ).bin(Bin::And, E::in_page(a, BitSize::DWORD));
        self.if_void(hit).dispatch_event(Stat::PushRunHit).write32(a, cache.entry.0, value).br(
            done,
        ).end()
    }

    /// The cache takes a page and its translation entry.
    #[verifier::opaque]
    pub open spec fn push_fill(self, cache: Push32WriteCache, page: usize, entry: usize) -> Emit {
        self.dispatch_event(Stat::PushRunFill).set(cache.page.0, E::L(page)).set(
            cache.entry.0,
            E::L(entry),
        ).set(cache.valid.0, E::C(1))
    }
}

impl Ctx {
    /// One more push is compiled that may reuse the cached translation.
    pub open spec fn push_counted(self) -> Ctx {
        Ctx {
            st: UnitState {
                counters: CodegenCounters {
                    push_sites: self.st.counters.push_sites.saturating_add(1),
                    push_reuse_branches: self.st.counters.push_reuse_branches.saturating_add(1),
                    ..self.st.counters
                },
                ..self.st
            },
            ..self
        }
    }

    /// A pushed value goes to guest memory through the cached translation of the last page
    /// that was pushed to.
    #[verifier::opaque]
    pub open spec fn push_write(self, a: usize, value: usize) -> Ctx {
        let c = self.push_cache_slot().push_counted();
        c.on(c.push_code(c.st.push32_write_cache->0, a, value))
    }

    pub open spec fn push_code(self, cache: Push32WriteCache, a: usize, value: usize) -> Emit {
        let page = self.e.next_i32();
        let e1 = self.e.set_new(E::L(a).binc(Bin::ShrU, 12));
        let done = e1.label();
        let e2 = e1.block().push_reuse(cache, page, done, a, value);
        let entry = e2.next_i32();
        self.on(e2).push_translate(entry, done, a, value).push_fill(cache, page, entry).profile(
            Stat::SafeWriteFast,
        ).write32(a, entry, value).end().give_i32(entry).give_i32(page)
    }

    /// A new local `entry` takes the translation entry of the address in `a`; where the page is
    /// not directly writable the value is written through the helper and the code goes on at
    /// `done`.
    #[verifier::opaque]
    pub open spec fn push_translate(self, entry: usize, done: Label, a: usize, value: usize) -> Emit {
        let fast = self.e.label();
        let e3 = self.e.block().take_i32().val(
            self.direct(a, entry, self.write_mask(), BitSize::DWORD),
        ).op(Op::BrIf(fast, None)).report_slow("report_safe_write_jit_slow", a, entry);
        self.on(e3).read_cache_dropped().e.val(
            self.slow_write(BitSize::DWORD, a, E::L(value)),
        ).fault_check(
            entry,
            self.st.start_of_current_instruction,
            self.st.exit_with_fault_label,
        ).profile(Stat::SafeWriteFast).write32(a, entry, value).br(done).end()
    }

    /// Translates the address in `a` for a read followed by a write, and pushes where the
    /// value lies in linear memory.
    #[verifier::opaque]
    pub open spec fn read_write_translated(self, bits: BitSize, a: usize) -> Emit {
        let cont = self.e.label();
        let entry = self.e.next_i32();
        let e1 = self.e.block().take_i32();
        let fast = e1.next_i32();
        let e2 = e1.take_i32().br_if_hinted(
            self.direct(a, entry, self.write_mask(), bits).tee(fast),
            cont,
            HINT_GROUP_MEM,
            HINT_LIKELY,
        ).report_slow("report_safe_read_write_jit_slow", a, entry);
        self.on(e2).read_cache_dropped().e.val(
            E::L(a).both(self.here()).call(bits.read_write_helper(), Sig::Fn2Ret),
        ).fault_check(
            entry,
            self.st.start_of_current_instruction,
            self.st.exit_with_fault_label,
        ).end().profile(Stat::SafeReadWriteFast).val(E::host(a, entry)).give_i32(entry)
    }

    /// Opens a read followed by a write: the value is pushed, and a local keeps its address.
    pub open spec fn read_write_opened(self, bits: BitSize, a: usize) -> Ctx {
        let e = self.read_write_translated(bits, a);
        self.on(e.take_i32().op(Op::LocalTee(e.next_i32())).op(Op::Load(bits.width(), 0)))
    }

    /// The local that says whether the translation was direct.
    pub open spec fn read_write_fast(self) -> usize {
        self.e.take_i32().next_i32()
    }

    /// The local that holds the translated address.
    pub open spec fn read_write_phys(self, bits: BitSize, a: usize) -> usize {
        self.read_write_translated(bits, a).next_i32()
    }

    /// Closes a read followed by a write: the value on the stack goes back to memory, after
    /// the helper has seen it where the translation was not direct.
    #[verifier::opaque]
    pub open spec fn read_write_closed(self, bits: BitSize, a: usize, fast: usize, phys: usize) -> Ctx {
        let value = if bits is QWORD {
            self.e.next_i64()
        } else {
            self.e.next_i32()
        };
        let e1 = if bits is QWORD {
            self.e.take_i64()
        } else {
            self.e.take_i32()
        };
        let e2 = e1.op(Op::LocalSet(value)).if_void(E::L(fast).eqz()).val(
            self.slow_write(bits, a, E::L(value)),
        );
        let e3 = if e2.opt.debug_checks {
            e2.if_void(E::Top.and(1)).val(
                E::C((8 * bits.size()) as i32).both(E::L(a)).call(
                    "bug_gen_safe_read_write_page_fault",
                    Sig::Fn2,
                ),
            ).end()
        } else {
            e2.op(Op::Drop)
        };
        let e4 = e3.end().store(bits.width(), 0, E::L(phys), E::L(value));
        let e5 = if bits is QWORD {
            e4.give_i64(value)
        } else {
            e4.give_i32(value)
        };
        self.on(e5.give_i32(fast).give_i32(phys))
    }

    /// The local that holds the address of an operand, and the context after it is computed.
    pub open spec fn resolved(self, m: ModrmByte) -> (Ctx, usize) {
        match self.lone_register(m) {
            Some(r) => (self, self.st.regs@[r as int].0),
            None => (self.on(self.e.set_new(self.address(m, 0))), self.e.next_i32()),
        }
    }

    /// The local of an operand's address is given back where it was a new one.
    pub open spec fn released(self, m: ModrmByte, a: usize) -> Ctx {
        match self.lone_register(m) {
            Some(r) => self,
            None => self.on(self.e.give_i32(a)),
        }
    }

    /// The operand in memory is pushed; 128 bits go to `to` instead.
    #[verifier::opaque]
    pub open spec fn read_operand(self, bits: BitSize, m: ModrmByte, to: u32) -> Ctx {
        let (c, a) = self.resolved(m);
        c.safe_read(bits, a, to).released(m, a)
    }

    /// Reads of this operand skip every check, relative to the returned base.
    pub open spec fn raw_base(self, m: ModrmByte) -> Option<u32> {
        if self.st.env.stack_raw_mode != 0 && (self.st.env.stack_raw_mode == 1 ==> m.stack_const())
            && !m.is_16 && self.segment_is_flat(m.segment) && self.st.env.mem8 != 0 {
            Some(self.st.env.mem8)
        } else {
            None
        }
    }

    /// A 32-bit operand in memory is pushed.
    #[verifier::opaque]
    pub open spec fn read_operand32(self, m: ModrmByte) -> Ctx {
        match self.raw_base(m) {
            Some(base) => self.val(self.address(m, 0).load(Width::W32, base)),
            None => self.read_operand(BitSize::DWORD, m, 0),
        }
    }
}

/// The mode of unchecked stack accesses.
pub fn stack_raw_unsafe_mode(ctx: &JitContext) -> (mode: u32)
    ensures
        mode == ctx@.st.env.stack_raw_mode,
{
    ctx.st.env.stack_raw_mode
}

/// Chooses the mode of unchecked stack accesses.
pub fn set_stack_raw_unsafe(ctx: &mut JitContext, mode: u32)
    ensures
        final(ctx)@ == (Ctx {
            st: UnitState {
                env: crate::jit_context::CodegenEnv { stack_raw_mode: mode, ..old(ctx)@.st.env },
                ..old(ctx)@.st
            },
            ..old(ctx)@
        }),
{
    ctx.st.env.stack_raw_mode = mode;
}

/// The mode of unchecked stack accesses.
pub fn get_stack_raw_unsafe(ctx: &JitContext) -> (mode: u32)
    ensures
        mode == ctx@.st.env.stack_raw_mode,
{
    ctx.st.env.stack_raw_mode
}

fn stack_raw_applies(ctx: &JitContext, m: &ModrmByte) -> (base: Option<u32>)
    ensures
        base == ctx@.raw_base(*m),
{
    let mode: u32 = stack_raw_unsafe_mode(ctx);
    if mode == 0 || (mode == 1 && !m.is_stack_const()) {
        return None;
    }
    if m.is_16 || !ctx.st.cpu.flat_segmentation || m.segment >= 4 || ctx.st.env.mem8 == 0 {
        return None;
    }
    Some(ctx.st.env.mem8)
}

fn resolve_local(ctx: &mut JitContext, m: ModrmByte) -> (a: WasmLocal)
    requires
        old(ctx)@.wf(),
        m.wf(),
    ensures
        (final(ctx)@, a.0) == old(ctx)@.resolved(m),
        final(ctx)@.wf(),
{
    match get_as_reg_index_if_possible(ctx, &m) {
        Some(r) => ctx.reg(r),
        None => {
            gen_modrm_resolve(ctx, m);
            ctx.builder.set_new_local()
        },
    }
}

fn release_local(ctx: &mut JitContext, m: ModrmByte, a: WasmLocal)
    ensures
        final(ctx)@ == old(ctx)@.released(m, a.0),
{
    if get_as_reg_index_if_possible(ctx, &m).is_none() {
        ctx.builder.free_local(a);
    }
}

/// Computes the address of an operand into a local, or takes the register that holds it,
/// and lets `gen` emit code that uses the local.
pub fn gen_modrm_resolve_with_local<F: Fn(&mut JitContext, &WasmLocal)>(
    ctx: &mut JitContext,
    modrm_byte: ModrmByte,
    gen: F,
)
    requires
        old(ctx)@.wf(),
        modrm_byte.wf(),
        forall|c: &mut JitContext, a: &WasmLocal|
            (*c)@.wf() ==> #[trigger] call_requires(gen, (c, a)),
    ensures
        exists|c: &mut JitContext, a: &WasmLocal|
            {
                &&& ((*c)@, a.0) == old(ctx)@.resolved(modrm_byte)
                &&& #[trigger] call_ensures(gen, (c, a), ())
                &&& final(ctx)@ == (*final(c))@.released(modrm_byte, a.0)
            },
{
    let a: WasmLocal = resolve_local(ctx, modrm_byte);
    gen(ctx, &a);
    release_local(ctx, modrm_byte, a);
}

/// Pushes an 8-bit operand in memory.
pub fn gen_modrm_resolve_safe_read8(ctx: &mut JitContext, modrm_byte: ModrmByte)
    requires
        old(ctx)@.wf(),
        modrm_byte.wf(),
    ensures
        final(ctx)@ == old(ctx)@.read_operand(BitSize::BYTE, modrm_byte, 0),
        final(ctx)@.wf(),
{
    reveal(Ctx::read_operand);
    let a: WasmLocal = resolve_local(ctx, modrm_byte);
    gen_safe_read8(ctx, &a);
    release_local(ctx, modrm_byte, a);
}

/// Pushes a 16-bit operand in memory.
pub fn gen_modrm_resolve_safe_read16(ctx: &mut JitContext, modrm_byte: ModrmByte)
    requires
        old(ctx)@.wf(),
        modrm_byte.wf(),
    ensures
        final(ctx)@ == old(ctx)@.read_operand(BitSize::WORD, modrm_byte, 0),
        final(ctx)@.wf(),
{
    reveal(Ctx::read_operand);
    let a: WasmLocal = resolve_local(ctx, modrm_byte);
    gen_safe_read16(ctx, &a);
    release_local(ctx, modrm_byte, a);
}

/// Pushes a 32-bit operand in memory.
pub fn gen_modrm_resolve_safe_read32(ctx: &mut JitContext, modrm_byte: ModrmByte)
    requires
        old(ctx)@.wf(),
        modrm_byte.wf(),
    ensures
        final(ctx)@ == old(ctx)@.read_operand32(modrm_byte),
        final(ctx)@.wf(),
{
    reveal(Ctx::read_operand32);
    reveal(Ctx::read_operand);
    if let Some(base) = stack_raw_applies(ctx, &modrm_byte) {
        gen_modrm_resolve(ctx, modrm_byte);
        ctx.builder.load(Width::W32, base);
        return ;
    }
    let a: WasmLocal = resolve_local(ctx, modrm_byte);
    gen_safe_read32(ctx, &a);
    release_local(ctx, modrm_byte, a);
}

/// Pushes a 64-bit operand in memory.
pub fn gen_modrm_resolve_safe_read64(ctx: &mut JitContext, modrm_byte: ModrmByte)
    requires
        old(ctx)@.wf(),
        modrm_byte.wf(),
    ensures
        final(ctx)@ == old(ctx)@.read_operand(BitSize::QWORD, modrm_byte, 0),
        final(ctx)@.wf(),
{
    reveal(Ctx::read_operand);
    let a: WasmLocal = resolve_local(ctx, modrm_byte);
    gen_safe_read64(ctx, &a);
    release_local(ctx, modrm_byte, a);
}

/// Copies a 128-bit operand in memory to `where_to_write`.
pub fn gen_modrm_resolve_safe_read128(
    ctx: &mut JitContext,
    modrm_byte: ModrmByte,
    where_to_write: u32,
)
    requires
        old(ctx)@.wf(),
        modrm_byte.wf(),
    ensures
        final(ctx)@ == old(ctx)@.read_operand(BitSize::DQWORD, modrm_byte, where_to_write),
        final(ctx)@.wf(),
{
    reveal(Ctx::read_operand);
    let a: WasmLocal = resolve_local(ctx, modrm_byte);
    gen_safe_read128(ctx, &a, where_to_write);
    release_local(ctx, modrm_byte, a);
}

/// Pushes the byte at an address.
pub fn gen_safe_read8(ctx: &mut JitContext, address_local: &WasmLocal)
    ensures
        final(ctx)@ == old(ctx)@.safe_read(BitSize::BYTE, address_local.0, 0),
        old(ctx)@.wf() ==> final(ctx)@.wf(),
{
    gen_safe_read(ctx, BitSize::BYTE, address_local, 0);
}

/// Pushes the 16-bit value at an address.
pub fn gen_safe_read16(ctx: &mut JitContext, address_local: &WasmLocal)
    ensures
        final(ctx)@ == old(ctx)@.safe_read(BitSize::WORD, address_local.0, 0),
        old(ctx)@.wf() ==> final(ctx)@.wf(),
{
    gen_safe_read(ctx, BitSize::WORD, address_local, 0);
}

/// Pushes the 32-bit value at an address.
pub fn gen_safe_read32(ctx: &mut JitContext, address_local: &WasmLocal)
    ensures
        final(ctx)@ == old(ctx)@.safe_read(BitSize::DWORD, address_local.0, 0),
        old(ctx)@.wf() ==> final(ctx)@.wf(),
{
    gen_safe_read(ctx, BitSize::DWORD, address_local, 0);
}

/// Pushes the 64-bit value at an address.
pub fn gen_safe_read64(ctx: &mut JitContext, address_local: &WasmLocal)
    ensures
        final(ctx)@ == old(ctx)@.safe_read(BitSize::QWORD, address_local.0, 0),
        old(ctx)@.wf() ==> final(ctx)@.wf(),
{
    gen_safe_read(ctx, BitSize::QWORD, address_local, 0);
}

/// Copies the 128-bit value at an address to `where_to_write`.
pub fn gen_safe_read128(ctx: &mut JitContext, address_local: &WasmLocal, where_to_write: u32)
    ensures
        final(ctx)@ == old(ctx)@.safe_read(BitSize::DQWORD, address_local.0, where_to_write),
        old(ctx)@.wf() ==> final(ctx)@.wf(),
{
    gen_safe_read(ctx, BitSize::DQWORD, address_local, where_to_write);
}

/// Writes a byte.
pub fn gen_safe_write8(ctx: &mut JitContext, address_local: &WasmLocal, value_local: &WasmLocal)
    ensures
        final(ctx)@ == old(ctx)@.safe_write(
            BitSize::BYTE,
            address_local.0,
            GenSafeWriteValue::I32(*value_local),
        ),
        old(ctx)@.wf() ==> final(ctx)@.wf(),
{
    gen_safe_write(ctx, BitSize::BYTE, address_local, GenSafeWriteValue::I32(*value_local));
}

/// Writes a 16-bit value.
pub fn gen_safe_write16(ctx: &mut JitContext, address_local: &WasmLocal, value_local: &WasmLocal)
    ensures
        final(ctx)@ == old(ctx)@.safe_write(
            BitSize::WORD,
            address_local.0,
            GenSafeWriteValue::I32(*value_local),
        ),
        old(ctx)@.wf() ==> final(ctx)@.wf(),
{
    gen_safe_write(ctx, BitSize::WORD, address_local, GenSafeWriteValue::I32(*value_local));
}

/// Writes a 32-bit value.
pub fn gen_safe_write32(ctx: &mut JitContext, address_local: &WasmLocal, value_local: &WasmLocal)
    ensures
        final(ctx)@ == old(ctx)@.safe_write(
            BitSize::DWORD,
            address_local.0,
            GenSafeWriteValue::I32(*value_local),
        ),
        old(ctx)@.wf() ==> final(ctx)@.wf(),
{
    gen_safe_write(ctx, BitSize::DWORD, address_local, GenSafeWriteValue::I32(*value_local));
}

/// Writes a 64-bit value.
pub fn gen_safe_write64(ctx: &mut JitContext, address_local: &WasmLocal, value_local: &WasmLocalI64)
    ensures
        final(ctx)@ == old(ctx)@.safe_write(
            BitSize::QWORD,
            address_local.0,
            GenSafeWriteValue::I64(*value_local),
        ),
        old(ctx)@.wf() ==> final(ctx)@.wf(),
{
    gen_safe_write(ctx, BitSize::QWORD, address_local, GenSafeWriteValue::I64(*value_local));
}

/// Writes a 128-bit value.
pub fn gen_safe_write128(
    ctx: &mut JitContext,
    address_local: &WasmLocal,
    value_local_low: &WasmLocalI64,
    value_local_high: &WasmLocalI64,
)
    ensures
        final(ctx)@ == old(ctx)@.safe_write(
            BitSize::DQWORD,
            address_local.0,
            GenSafeWriteValue::TwoI64s(*value_local_low, *value_local_high),
        ),
        old(ctx)@.wf() ==> final(ctx)@.wf(),
{
    gen_safe_write(
        ctx,
        BitSize::DQWORD,
        address_local,
        GenSafeWriteValue::TwoI64s(*value_local_low, *value_local_high),
    );
}

/// Gives back the local of the permission probe.
pub fn gen_perm_map_off_free(ctx: &mut JitContext)
    ensures
        final(ctx)@ == (match old(ctx)@.st.perm_map_off {
            Some(off) => Ctx {
                e: old(ctx)@.e.give_i32(off.0),
                st: UnitState { perm_map_off: None, ..old(ctx)@.st },
                ..old(ctx)@
            },
            None => old(ctx)@,
        }),
{
    if let Some(off) = ctx.st.perm_map_off {
        ctx.st.perm_map_off = None;
        ctx.builder.free_local(off);
    }
}

/// Gives back the locals of the read cache.
pub fn gen_read_tlb_cache_free(ctx: &mut JitContext)
    ensures
        final(ctx)@ == (match old(ctx)@.st.read_tlb_cache {
            Some(cache) => Ctx {
                e: old(ctx)@.e.give_i32(cache.page.0).give_i32(cache.entry.0).give_i32(
                    cache.valid.0,
                ),
                st: UnitState { read_tlb_cache: None, ..old(ctx)@.st },
                ..old(ctx)@
            },
            None => old(ctx)@,
        }),
{
    if let Some(cache) = ctx.st.read_tlb_cache {
        ctx.st.read_tlb_cache = None;
        ctx.builder.free_local(cache.page);
        ctx.builder.free_local(cache.entry);
        ctx.builder.free_local(cache.valid);
    }
}

fn gen_read_tlb_cache_slot(ctx: &mut JitContext)
    ensures
        final(ctx)@ == old(ctx)@.read_cache_slot(),
{
    if !ctx.st.env.read_tlb_cache || ctx.st.read_tlb_cache.is_some() {
        return ;
    }
    ctx.builder.const_i32(0);
    let page: WasmLocal = ctx.builder.set_new_local();
    ctx.builder.const_i32(0);
    let entry: WasmLocal = ctx.builder.set_new_local();
    ctx.builder.const_i32(0);
    let valid: WasmLocal = ctx.builder.set_new_local();
    ctx.st.read_tlb_cache = Some(ReadTlbCache { page, entry, valid });
}

fn gen_read_tlb_cache_invalidate(ctx: &mut JitContext)
    ensures
        final(ctx)@ == old(ctx)@.read_cache_dropped(),
{
    if let Some(cache) = ctx.st.read_tlb_cache {
        ctx.builder.const_i32(0);
        ctx.builder.set_local(cache.valid);
    }
}

fn gen_read_tlb_cache_stat(ctx: &mut JitContext, stat: Stat)
    ensures
        final(ctx)@ == old(ctx)@.on(old(ctx)@.read_cache_event(stat)),
{
    reveal(Ctx::read_cache_event);
    if ctx.st.env.read_tlb_cache_census {
        let address: u32 = stat.counter_address(ctx.builder.opt.stat_base);
        ctx.builder.increment_fixed_i64(address);
    }
}

/// Narrows the condition on the stack to accesses that stay inside one page.
fn gen_and_in_page(ctx: &mut JitContext, bits: BitSize, a: WasmLocal)
    ensures
        final(ctx)@ == old(ctx)@.val(E::Top.and_in_page(a.0, bits)),
{
    if bits != BitSize::BYTE {
        ctx.builder.get_local(a);
        ctx.builder.binc(Bin::And, 0xfff);
        ctx.builder.binc(Bin::LeS, 0x1000 - bits.bytes() as i32);
        ctx.builder.bin(Bin::And);
    }
}

/// Asks the permission map about a read: opens the block that an allowed page leaves.
fn gen_perm_map_read_probe(ctx: &mut JitContext, bits: BitSize, a: WasmLocal) -> (off: Option<
    WasmLocal,
>)
    ensures
        final(ctx)@ == old(ctx)@.perm_probe(a.0, bits),
        off is Some <==> old(ctx)@.perm_probed(),
        off is Some ==> off == final(ctx)@.st.perm_map_off,
{
    reveal(Ctx::perm_asked);
    if !ctx.st.env.perm_map_reads || ctx.st.env.mem8 == 0 {
        return None;
    }
    let mask: u8 = if ctx.st.cpu.cpl3 {
        PERM_READ_MASK_CPL3
    } else {
        PERM_READ_MASK_CPL0
    };
    let off: WasmLocal = match ctx.st.perm_map_off {
        Some(off) => off,
        None => {
            ctx.builder.const_i32(0);
            let off: WasmLocal = ctx.builder.set_new_local();
            ctx.st.perm_map_off = Some(off);
            off
        },
    };
    let done: Label = ctx.builder.block(BlockType::Void);
    ctx.builder.get_local(a);
    ctx.builder.binc(Bin::ShrU, 12);
    ctx.builder.load(Width::W8, ctx.st.env.perm_map);
    ctx.builder.binc(Bin::And, mask as i32);
    ctx.builder.binc(Bin::Eq, mask as i32);
    gen_and_in_page(ctx, bits, a);
    ctx.builder.if_void();
    gen_dispatch_stat_increment(&mut ctx.builder, Stat::PermMapReadHit);
    ctx.builder.get_local(a);
    ctx.builder.binc(Bin::Add, ctx.st.env.mem8 as i32);
    ctx.builder.set_local(off);
    ctx.builder.br(done);
    ctx.builder.block_end();
    gen_dispatch_stat_increment(&mut ctx.builder, Stat::PermMapReadMiss);
    Some(off)
}

/// Pushes the translation entry of the page of `a`.
fn gen_tlb_entry(ctx: &mut JitContext, a: WasmLocal)
    ensures
        final(ctx)@ == old(ctx)@.val(old(ctx)@.tlb_entry(a.0)),
{
    ctx.builder.get_local(a);
    ctx.builder.binc(Bin::ShrU, 12);
    ctx.builder.binc(Bin::Shl, 2);
    ctx.builder.load(Width::A32, ctx.st.env.tlb_data);
}

/// Pushes whether the entry on the stack, which stays in a local, allows the access directly.
fn gen_entry_is_direct(ctx: &mut JitContext, a: WasmLocal, mask: i32, bits: BitSize)
    ensures
        final(ctx)@ == old(ctx)@.val(
            E::Top.and(mask).binc(Bin::Eq, TLB_VALID).and_in_page(a.0, bits),
        ),
{
    ctx.builder.binc(Bin::And, mask);
    ctx.builder.binc(Bin::Eq, TLB_VALID);
    gen_and_in_page(ctx, bits, a);
}

fn read_entry_mask(ctx: &JitContext) -> (mask: i32)
    ensures
        mask == ctx@.read_mask(),
{
    0xfff & !TLB_READONLY & !TLB_GLOBAL & !TLB_HAS_CODE & !(if ctx.st.cpu.cpl3 {
        0
    } else {
        TLB_NO_USER
    })
}

fn write_entry_mask(ctx: &JitContext) -> (mask: i32)
    ensures
        mask == ctx@.write_mask(),
{
    0xfff & !TLB_GLOBAL & !(if ctx.st.cpu.cpl3 {
        0
    } else {
        TLB_NO_USER
    })
}

fn gen_report_slow(ctx: &mut JitContext, helper: &'static str, a: WasmLocal, entry: WasmLocal)
    ensures
        final(ctx)@ == old(ctx)@.on(old(ctx)@.e.report_slow(helper, a.0, entry.0)),
{
    reveal(Emit::report_slow);
    if ctx.builder.opt.profiler {
        ctx.builder.get_local(a);
        ctx.builder.get_local(entry);
        ctx.builder.call(helper, Sig::Fn2);
    }
}

/// Keeps the helper's result on the stack in `entry` and leaves the unit on a fault.
fn gen_fault_check(ctx: &mut JitContext, entry: WasmLocal)
    ensures
        final(ctx)@ == old(ctx)@.on(
            old(ctx)@.e.fault_check(
                entry.0,
                old(ctx)@.st.start_of_current_instruction,
                old(ctx)@.st.exit_with_fault_label,
            ),
        ),
{
    reveal(Emit::fault_check);
    ctx.builder.tee_local(entry);
    ctx.builder.binc(Bin::And, 1);
    if ctx.builder.opt.profiler {
        ctx.builder.if_void();
        gen_debug_track_jit_exit(&mut ctx.builder, ctx.st.start_of_current_instruction);
        ctx.builder.block_end();
        ctx.builder.get_local(entry);
        ctx.builder.binc(Bin::And, 1);
    }
    ctx.builder.br_if_hinted(ctx.st.exit_with_fault_label, HINT_GROUP_MEM, HINT_UNLIKELY);
}

/// Pushes where the page of `entry` and the address in `a` lie in linear memory.
fn gen_host(ctx: &mut JitContext, a: WasmLocal, entry: WasmLocal)
    ensures
        final(ctx)@ == old(ctx)@.val(E::host(a.0, entry.0)),
{
    ctx.builder.get_local(entry);
    ctx.builder.binc(Bin::And, PAGE_MASK);
    ctx.builder.get_local(a);
    ctx.builder.bin(Bin::Xor);
}

fn gen_cached_entry(
    ctx: &mut JitContext,
    cache: ReadTlbCache,
    a: WasmLocal,
    entry: WasmLocal,
    page: WasmLocal,
    bits: BitSize,
)
    requires
        old(ctx)@.st.read_tlb_cache == Some(cache),
    ensures
        final(ctx)@ == old(ctx)@.on(old(ctx)@.cached_entry(a.0, entry.0, page.0, bits)),
{
    reveal(Ctx::cached_entry);
    let ready: Label = ctx.builder.block(BlockType::Void);
    ctx.builder.get_local(cache.valid);
    ctx.builder.get_local(cache.page);
    ctx.builder.get_local(page);
    ctx.builder.bin(Bin::Eq);
    ctx.builder.bin(Bin::And);
    gen_and_in_page(ctx, bits, a);
    ctx.builder.if_void();
    gen_read_tlb_cache_stat(ctx, Stat::ReadTlbCacheHit);
    ctx.builder.get_local(cache.entry);
    ctx.builder.set_local(entry);
    ctx.builder.br(ready);
    ctx.builder.block_end();
}

fn gen_direct_read(
    ctx: &mut JitContext,
    a: WasmLocal,
    entry: WasmLocal,
    page: WasmLocal,
    bits: BitSize,
    cont: Label,
)
    requires
        old(ctx)@.st.env.read_tlb_cache ==> old(ctx)@.st.read_tlb_cache is Some,
    ensures
        final(ctx)@ == old(ctx)@.on(old(ctx)@.direct_read(a.0, entry.0, page.0, bits, cont)),
{
    reveal(Ctx::direct_read);
    let mask: i32 = read_entry_mask(ctx);
    gen_tlb_entry(ctx, a);
    ctx.builder.tee_local(entry);
    gen_entry_is_direct(ctx, a, mask, bits);
    if ctx.st.env.read_tlb_cache {
        if let Some(cache) = ctx.st.read_tlb_cache {
            ctx.builder.if_hinted(BlockType::Void, HINT_GROUP_MEM, HINT_LIKELY);
            gen_read_tlb_cache_stat(ctx, Stat::ReadTlbCacheFill);
            ctx.builder.get_local(page);
            ctx.builder.set_local(cache.page);
            ctx.builder.get_local(entry);
            ctx.builder.set_local(cache.entry);
            ctx.builder.const_i32(1);
            ctx.builder.set_local(cache.valid);
            ctx.builder.br(cont);
            ctx.builder.block_end();
        }
    } else {
        ctx.builder.br_if_hinted(cont, HINT_GROUP_MEM, HINT_LIKELY);
    }
}

fn gen_ask_read_cache(ctx: &mut JitContext, a: WasmLocal, entry: WasmLocal, bits: BitSize) -> (page:
    WasmLocal)
    requires
        old(ctx)@.st.env.read_tlb_cache ==> old(ctx)@.st.read_tlb_cache is Some,
    ensures
        final(ctx)@ == old(ctx)@.on(old(ctx)@.ask_read_cache(a.0, entry.0, bits)),
        page.0 == old(ctx)@.page_local(entry.0),
{
    reveal(Ctx::ask_read_cache);
    if ctx.st.env.read_tlb_cache {
        if let Some(cache) = ctx.st.read_tlb_cache {
            ctx.builder.get_local(a);
            ctx.builder.binc(Bin::ShrU, 12);
            let page: WasmLocal = ctx.builder.set_new_local();
            gen_cached_entry(ctx, cache, a, entry, page, bits);
            return page;
        }
    }
    entry
}

fn gen_translate_read(ctx: &mut JitContext, a: WasmLocal, entry: WasmLocal, bits: BitSize)
    requires
        old(ctx)@.st.env.read_tlb_cache ==> old(ctx)@.st.read_tlb_cache is Some,
    ensures
        final(ctx)@ == old(ctx)@.on(old(ctx)@.translate_read(a.0, entry.0, bits)),
{
    reveal(Ctx::translate_read);
    let page: WasmLocal = gen_ask_read_cache(ctx, a, entry, bits);
    let cont: Label = ctx.builder.block(BlockType::Void);
    gen_direct_read(ctx, a, entry, page, bits, cont);
    gen_report_slow(ctx, "report_safe_read_jit_slow", a, entry);
    let here: i32 = offset_in_page(ctx.st.start_of_current_instruction);
    ctx.builder.get_local(a);
    ctx.builder.const_i32(here);
    ctx.builder.call(bits.read_helper_name(), Sig::Fn2Ret);
    gen_fault_check(ctx, entry);
    ctx.builder.block_end();
    if ctx.st.env.read_tlb_cache {
        ctx.builder.block_end();
        ctx.builder.free_local(page);
    }
}

fn gen_load_at_top(ctx: &mut JitContext, bits: BitSize, to: u32)
    ensures
        final(ctx)@ == old(ctx)@.on(old(ctx)@.e.load_at_top(bits, to)),
{
    reveal(Emit::load_at_top);
    if bits == BitSize::DQWORD {
        let x: WasmLocal = ctx.builder.set_new_local();
        ctx.builder.const_i32(0);
        ctx.builder.get_local(x);
        ctx.builder.load(Width::W64, 0);
        ctx.builder.store(Width::W64, to);
        ctx.builder.const_i32(0);
        ctx.builder.get_local(x);
        ctx.builder.load(Width::W64, 8);
        ctx.builder.store(Width::W64, to.wrapping_add(8));
        ctx.builder.free_local(x);
    } else {
        ctx.builder.load(bits.access_width(), 0);
    }
}

/// Pushes the value at an address; 128 bits go to `where_to_write` instead. A page that is
/// not directly readable goes through a helper, and a fault leaves the unit.
fn gen_safe_read(ctx: &mut JitContext, bits: BitSize, address_local: &WasmLocal, where_to_write: u32)
    ensures
        final(ctx)@ == old(ctx)@.safe_read(bits, address_local.0, where_to_write),
        old(ctx)@.wf() ==> final(ctx)@.wf(),
{
    reveal(Ctx::safe_read);
    reveal(Ctx::translated_load);
    let a: WasmLocal = *address_local;
    gen_read_tlb_cache_slot(ctx);
    let off: Option<WasmLocal> = gen_perm_map_read_probe(ctx, bits, a);
    ctx.builder.const_i32(0);
    let entry: WasmLocal = ctx.builder.set_new_local();
    gen_translate_read(ctx, a, entry, bits);
    gen_profiler_stat_increment(&mut ctx.builder, Stat::SafeReadFast);
    gen_host(ctx, a, entry);
    if let Some(off) = off {
        ctx.builder.set_local(off);
        ctx.builder.block_end();
        ctx.builder.get_local(off);
    }
    gen_load_at_top(ctx, bits, where_to_write);
    ctx.builder.free_local(entry);
}

/// Pushes the linear-memory address of the instruction at an address.
pub fn gen_get_phys_eip_plus_mem(ctx: &mut JitContext, address_local: &WasmLocal)
    ensures
        final(ctx)@ == old(ctx)@.on(old(ctx)@.phys_eip_plus_mem(address_local.0)),
{
    reveal(Ctx::phys_eip_plus_mem);
    let a: WasmLocal = *address_local;
    let mask: i32 = read_entry_mask(ctx);
    let cont: Label = ctx.builder.block(BlockType::Void);
    gen_tlb_entry(ctx, a);
    let entry: WasmLocal = ctx.builder.tee_new_local();
    gen_entry_is_direct(ctx, a, mask, BitSize::BYTE);
    ctx.builder.br_if_hinted(cont, HINT_GROUP_MEM, HINT_LIKELY);
    gen_report_slow(ctx, "report_safe_read_jit_slow", a, entry);
    ctx.builder.get_local(a);
    ctx.builder.call("get_phys_eip_slow_jit", Sig::Fn1Ret);
    gen_fault_check(ctx, entry);
    ctx.builder.block_end();
    gen_profiler_stat_increment(&mut ctx.builder, Stat::SafeReadFast);
    gen_host(ctx, a, entry);
    ctx.builder.free_local(entry);
}

/// After a jump to another page: leaves the unit unless the page still holds the next block.
pub fn gen_page_switch_check(
    ctx: &mut JitContext,
    next_block_addr: u32,
    last_instruction_addr: u32,
)
    ensures
        ({
            let s = old(ctx)@;
            let a = s.e.next_i32();
            let moved = s.on(s.e.set_new(E::eip())).phys_eip_plus_mem(a);
            let e = moved.give_i32(a).val(
                E::Top.binc(Bin::Ne, next_block_addr.wrapping_add(s.st.env.mem8) as i32),
            );
            final(ctx)@ == s.on(
                if e.opt.debug_checks {
                    e.op(Op::If(BlockType::Void, None)).profile(Stat::FailedPageChange).track_exit(
                        last_instruction_addr,
                    ).br(s.st.exit_label).end()
                } else {
                    e.op(Op::BrIf(s.st.exit_label, e.hint(HINT_GROUP_MEM, HINT_UNLIKELY)))
                },
            )
        }),
{
    gen_get_eip(&mut ctx.builder);
    let a: WasmLocal = ctx.builder.set_new_local();
    gen_get_phys_eip_plus_mem(ctx, &a);
    ctx.builder.free_local(a);
    let expected: i32 = next_block_addr.wrapping_add(ctx.st.env.mem8) as i32;
    ctx.builder.binc(Bin::Ne, expected);
    if ctx.builder.opt.debug_checks {
        ctx.builder.if_void();
        gen_profiler_stat_increment(&mut ctx.builder, Stat::FailedPageChange);
        gen_debug_track_jit_exit(&mut ctx.builder, last_instruction_addr);
        ctx.builder.br(ctx.st.exit_label);
        ctx.builder.block_end();
    } else {
        ctx.builder.br_if_hinted(ctx.st.exit_label, HINT_GROUP_MEM, HINT_UNLIKELY);
    }
}

fn gen_value(ctx: &mut JitContext, value: GenSafeWriteValue)
    ensures
        final(ctx)@ == old(ctx)@.val(value.expr()),
{
    match value {
        GenSafeWriteValue::I32(l) => {
            ctx.builder.get_local(l);
        },
        GenSafeWriteValue::I64(l) => {
            ctx.builder.get_local_i64(l);
        },
        GenSafeWriteValue::TwoI64s(l, h) => {
            ctx.builder.get_local_i64(l);
            ctx.builder.get_local_i64(h);
        },
    }
}

/// Calls the helper that performs a write that cannot be done directly.
fn gen_slow_write(ctx: &mut JitContext, bits: BitSize, a: WasmLocal, value: GenSafeWriteValue)
    ensures
        final(ctx)@ == old(ctx)@.val(old(ctx)@.slow_write(bits, a.0, value.expr())),
{
    let here: i32 = offset_in_page(ctx.st.start_of_current_instruction);
    ctx.builder.get_local(a);
    gen_value(ctx, value);
    ctx.builder.const_i32(here);
    let (name, sig) = bits.write_helper_name();
    ctx.builder.call(name, sig);
}

fn gen_store_at_top(ctx: &mut JitContext, bits: BitSize, value: GenSafeWriteValue)
    ensures
        final(ctx)@ == old(ctx)@.on(old(ctx)@.e.store_at_top(bits, value)),
{
    reveal(Emit::store_at_top);
    match value {
        GenSafeWriteValue::TwoI64s(low, high) => {
            let x: WasmLocal = ctx.builder.tee_new_local();
            ctx.builder.get_local_i64(low);
            ctx.builder.store(Width::W64, 0);
            ctx.builder.get_local(x);
            ctx.builder.get_local_i64(high);
            ctx.builder.store(Width::W64, 8);
            ctx.builder.free_local(x);
        },
        _ => {
            gen_value(ctx, value);
            ctx.builder.store(bits.access_width(), 0);
        },
    }
}

fn gen_store_at_local(ctx: &mut JitContext, bits: BitSize, value: GenSafeWriteValue)
    ensures
        final(ctx)@ == old(ctx)@.on(old(ctx)@.e.store_at_local(bits, value)),
{
    reveal(Emit::store_at_local);
    match value {
        GenSafeWriteValue::TwoI64s(low, high) => {
            let x: WasmLocal = ctx.builder.set_new_local();
            ctx.builder.get_local(x);
            ctx.builder.get_local_i64(low);
            ctx.builder.store(Width::W64, 0);
            ctx.builder.get_local(x);
            ctx.builder.get_local_i64(high);
            ctx.builder.store(Width::W64, 8);
            ctx.builder.free_local(x);
        },
        _ => {
            gen_value(ctx, value);
            ctx.builder.store(bits.access_width(), 0);
        },
    }
}

/// Pushes whether the store map refuses the access, or it leaves its page.
fn gen_store_refused(ctx: &mut JitContext, bits: BitSize, a: WasmLocal)
    ensures
        final(ctx)@ == old(ctx)@.val(old(ctx)@.store_refused(a.0, bits)),
{
    ctx.builder.get_local(a);
    ctx.builder.binc(Bin::ShrU, 12);
    ctx.builder.load(Width::W8, ctx.st.env.write_map);
    ctx.builder.binc(Bin::Ne, 1);
    if bits != BitSize::BYTE {
        ctx.builder.get_local(a);
        ctx.builder.binc(Bin::And, 0xfff);
        ctx.builder.binc(Bin::GtS, 0x1000 - bits.bytes() as i32);
        ctx.builder.bin(Bin::Or);
    }
}

/// Writes through the store map.
fn gen_fastmem_write_map(
    ctx: &mut JitContext,
    bits: BitSize,
    address_local: &WasmLocal,
    value_local: GenSafeWriteValue,
)
    ensures
        final(ctx)@ == old(ctx)@.mapped_write(bits, address_local.0, value_local),
{
    reveal(Ctx::mapped_code);
    let a: WasmLocal = *address_local;
    ctx.st.counters.speculated_stores = ctx.st.counters.speculated_stores.saturating_add(1);
    let host: Label = ctx.builder.block(BlockType::I32);
    let slow: Label = ctx.builder.block(BlockType::Void);
    gen_store_refused(ctx, bits, a);
    ctx.builder.br_if(slow);
    ctx.builder.const_i32(ctx.st.env.mem8 as i32);
    ctx.builder.get_local(a);
    ctx.builder.bin(Bin::Add);
    ctx.builder.br(host);
    ctx.builder.block_end();
    if ctx.builder.opt.profiler {
        ctx.builder.get_local(a);
        ctx.builder.const_i32(0);
        ctx.builder.call("report_safe_write_jit_slow", Sig::Fn2);
    }
    let entry: WasmLocal = gen_slow_write_checked(ctx, bits, a, value_local);
    gen_host(ctx, a, entry);
    ctx.builder.free_local(entry);
    ctx.builder.block_end();
    gen_profiler_stat_increment(&mut ctx.builder, Stat::SafeWriteFast);
    gen_store_at_local(ctx, bits, value_local);
}

/// Calls the write helper, keeps its result in a new local and leaves the unit on a fault.
fn gen_slow_write_checked(
    ctx: &mut JitContext,
    bits: BitSize,
    a: WasmLocal,
    value: GenSafeWriteValue,
) -> (entry: WasmLocal)
    ensures
        entry.0 == old(ctx)@.e.next_i32(),
        final(ctx)@ == old(ctx)@.on(
            old(ctx)@.e.take_i32().val(
                old(ctx)@.slow_write(bits, a.0, value.expr()),
            ).fault_check(
                entry.0,
                old(ctx)@.st.start_of_current_instruction,
                old(ctx)@.st.exit_with_fault_label,
            ),
        ),
{
    reveal(Emit::fault_check);
    gen_slow_write(ctx, bits, a, value);
    let entry: WasmLocal = ctx.builder.tee_new_local();
    ctx.builder.binc(Bin::And, 1);
    if ctx.builder.opt.profiler {
        ctx.builder.if_void();
        gen_debug_track_jit_exit(&mut ctx.builder, ctx.st.start_of_current_instruction);
        ctx.builder.block_end();
        ctx.builder.get_local(entry);
        ctx.builder.binc(Bin::And, 1);
    }
    ctx.builder.br_if_hinted(ctx.st.exit_with_fault_label, HINT_GROUP_MEM, HINT_UNLIKELY);
    entry
}

/// Writes a value to guest memory. A page that is not directly writable goes through a
/// helper, and a fault leaves the unit.
fn gen_safe_write(
    ctx: &mut JitContext,
    bits: BitSize,
    address_local: &WasmLocal,
    value_local: GenSafeWriteValue,
)
    requires
        value_local.fits(bits),
    ensures
        final(ctx)@ == old(ctx)@.safe_write(bits, address_local.0, value_local),
        old(ctx)@.wf() ==> final(ctx)@.wf(),
{
    reveal(Ctx::safe_write);
    reveal(Ctx::translated_write);
    if ctx.st.fastmem_writes {
        gen_read_tlb_cache_invalidate(ctx);
        gen_fastmem_write_map(ctx, bits, address_local, value_local);
        return ;
    }
    let a: WasmLocal = *address_local;
    let mask: i32 = write_entry_mask(ctx);
    let cont: Label = ctx.builder.block(BlockType::Void);
    gen_tlb_entry(ctx, a);
    let entry: WasmLocal = ctx.builder.tee_new_local();
    gen_entry_is_direct(ctx, a, mask, bits);
    ctx.builder.br_if_hinted(cont, HINT_GROUP_MEM, HINT_LIKELY);
    gen_report_slow(ctx, "report_safe_write_jit_slow", a, entry);
    gen_read_tlb_cache_invalidate(ctx);
    gen_slow_write(ctx, bits, a, value_local);
    gen_fault_check(ctx, entry);
    ctx.builder.block_end();
    gen_profiler_stat_increment(&mut ctx.builder, Stat::SafeWriteFast);
    gen_host(ctx, a, entry);
    gen_store_at_top(ctx, bits, value_local);
    ctx.builder.free_local(entry);
}

/// Gives back the locals of the push cache.
pub fn gen_push32_write_cache_free(ctx: &mut JitContext)
    ensures
        final(ctx)@ == (match old(ctx)@.st.push32_write_cache {
            Some(cache) => Ctx {
                e: old(ctx)@.e.give_i32(cache.page.0).give_i32(cache.entry.0).give_i32(
                    cache.valid.0,
                ),
                st: UnitState { push32_write_cache: None, ..old(ctx)@.st },
                ..old(ctx)@
            },
            None => old(ctx)@,
        }),
{
    if let Some(cache) = ctx.st.push32_write_cache {
        ctx.st.push32_write_cache = None;
        ctx.builder.free_local(cache.page);
        ctx.builder.free_local(cache.entry);
        ctx.builder.free_local(cache.valid);
    }
}

fn gen_push32_write_cache_slot(ctx: &mut JitContext) -> (cache: Push32WriteCache)
    ensures
        final(ctx)@ == old(ctx)@.push_cache_slot(),
        final(ctx)@.st.push32_write_cache == Some(cache),
{
    if let Some(cache) = ctx.st.push32_write_cache {
        return cache;
    }
    ctx.builder.const_i32(0);
    let page: WasmLocal = ctx.builder.set_new_local();
    ctx.builder.const_i32(0);
    let entry: WasmLocal = ctx.builder.set_new_local();
    ctx.builder.const_i32(0);
    let valid: WasmLocal = ctx.builder.set_new_local();
    let cache = Push32WriteCache { page, entry, valid };
    ctx.st.push32_write_cache = Some(cache);
    cache
}

fn gen_write32_with_entry(ctx: &mut JitContext, a: WasmLocal, entry: WasmLocal, value: WasmLocal)
    ensures
        final(ctx)@ == old(ctx)@.on(old(ctx)@.e.write32(a.0, entry.0, value.0)),
{
    reveal(Emit::write32);
    gen_host(ctx, a, entry);
    ctx.builder.get_local(value);
    ctx.builder.store(Width::W32, 0);
}

/// Writes a pushed value through the cached translation of the last page pushed to; false,
/// with nothing emitted, where pushes are not cached.
pub(crate) fn gen_push32_coalesced_write(
    ctx: &mut JitContext,
    address_local: &WasmLocal,
    value_local: &WasmLocal,
) -> (done: bool)
    ensures
        done == old(ctx)@.st.env.push_run_coalescing,
        final(ctx)@ == (if done {
            old(ctx)@.push_write(address_local.0, value_local.0)
        } else {
            old(ctx)@
        }),
        old(ctx)@.wf() ==> final(ctx)@.wf(),
{
    reveal(Ctx::push_write);
    if !ctx.st.env.push_run_coalescing {
        return false;
    }
    let cache: Push32WriteCache = gen_push32_write_cache_slot(ctx);
    ctx.st.counters.push_run_note_site_compiled();
    ctx.st.counters.push_run_note_reuse_branch_compiled();
    gen_push_code(ctx, cache, *address_local, *value_local);
    true
}

fn gen_push_code(ctx: &mut JitContext, cache: Push32WriteCache, a: WasmLocal, value: WasmLocal)
    ensures
        final(ctx)@ == old(ctx)@.on(old(ctx)@.push_code(cache, a.0, value.0)),
{
    ctx.builder.get_local(a);
    ctx.builder.binc(Bin::ShrU, 12);
    let page: WasmLocal = ctx.builder.set_new_local();
    let done: Label = ctx.builder.block(BlockType::Void);
    gen_push_reuse(ctx, cache, page, done, a, value);
    let entry: WasmLocal = gen_push_translate(ctx, done, a, value);
    gen_push_fill(ctx, cache, page, entry);
    gen_profiler_stat_increment(&mut ctx.builder, Stat::SafeWriteFast);
    gen_write32_with_entry(ctx, a, entry, value);
    ctx.builder.block_end();
    ctx.builder.free_local(entry);
    ctx.builder.free_local(page);
}

fn gen_push_reuse(
    ctx: &mut JitContext,
    cache: Push32WriteCache,
    page: WasmLocal,
    done: Label,
    a: WasmLocal,
    value: WasmLocal,
)
    ensures
        final(ctx)@ == old(ctx)@.on(
            old(ctx)@.e.push_reuse(cache, page.0, done, a.0, value.0),
        ),
{
    reveal(Emit::push_reuse);
    ctx.builder.get_local(cache.valid);
    ctx.builder.get_local(cache.page);
    ctx.builder.get_local(page);
    ctx.builder.bin(Bin::Eq);
    ctx.builder.bin(Bin::And);
    gen_and_in_page(ctx, BitSize::DWORD, a);
    ctx.builder.if_void();
    gen_dispatch_stat_increment(&mut ctx.builder, Stat::PushRunHit);
    gen_write32_with_entry(ctx, a, cache.entry, value);
    ctx.builder.br(done);
    ctx.builder.block_end();
}

fn gen_push_translate(
    ctx: &mut JitContext,
    done: Label,
    a: WasmLocal,
    value: WasmLocal,
) -> (entry: WasmLocal)
    ensures
        entry.0 == old(ctx)@.e.next_i32(),
        final(ctx)@ == old(ctx)@.on(old(ctx)@.push_translate(entry.0, done, a.0, value.0)),
{
    reveal(Ctx::push_translate);
    let mask: i32 = write_entry_mask(ctx);
    let fast: Label = ctx.builder.block(BlockType::Void);
    gen_tlb_entry(ctx, a);
    let entry: WasmLocal = ctx.builder.tee_new_local();
    gen_entry_is_direct(ctx, a, mask, BitSize::DWORD);
    ctx.builder.br_if(fast);
    gen_report_slow(ctx, "report_safe_write_jit_slow", a, entry);
    gen_read_tlb_cache_invalidate(ctx);
    gen_slow_write(ctx, BitSize::DWORD, a, GenSafeWriteValue::I32(value));
    gen_fault_check(ctx, entry);
    gen_profiler_stat_increment(&mut ctx.builder, Stat::SafeWriteFast);
    gen_write32_with_entry(ctx, a, entry, value);
    ctx.builder.br(done);
    ctx.builder.block_end();
    entry
}

fn gen_push_fill(ctx: &mut JitContext, cache: Push32WriteCache, page: WasmLocal, entry: WasmLocal)
    ensures
        final(ctx)@ == old(ctx)@.on(old(ctx)@.e.push_fill(cache, page.0, entry.0)),
{
    reveal(Emit::push_fill);
    gen_dispatch_stat_increment(&mut ctx.builder, Stat::PushRunFill);
    ctx.builder.get_local(page);
    ctx.builder.set_local(cache.page);
    ctx.builder.get_local(entry);
    ctx.builder.set_local(cache.entry);
    ctx.builder.const_i32(1);
    ctx.builder.set_local(cache.valid);
}

/// Reads a value, lets `f` emit code that replaces it on the stack, and writes it back. A
/// page that is not directly writable goes through helpers, and a fault leaves the unit
/// before `f` runs.
pub fn gen_safe_read_write<F: Fn(&mut JitContext)>(
    ctx: &mut JitContext,
    bits: BitSize,
    address_local: &WasmLocal,
    f: F,
)
    requires
        !(bits is DQWORD),
        forall|c: &mut JitContext|
            (old(ctx)@.wf() ==> (*c)@.wf()) ==> #[trigger] call_requires(f, (c,)),
    ensures
        exists|c: &mut JitContext|
            {
                &&& (*c)@ == old(ctx)@.read_write_opened(bits, address_local.0)
                &&& #[trigger] call_ensures(f, (c,), ())
                &&& final(ctx)@ == (*final(c))@.read_write_closed(
                    bits,
                    address_local.0,
                    old(ctx)@.read_write_fast(),
                    old(ctx)@.read_write_phys(bits, address_local.0),
                )
            },
{
    let a: WasmLocal = *address_local;
    let (fast, phys): (WasmLocal, WasmLocal) = gen_read_write_open(ctx, bits, a);
    f(ctx);
    gen_read_write_close(ctx, bits, a, fast, phys);
}

fn gen_read_write_open(ctx: &mut JitContext, bits: BitSize, a: WasmLocal) -> (r: (
    WasmLocal,
    WasmLocal,
))
    requires
        !(bits is DQWORD),
    ensures
        final(ctx)@ == old(ctx)@.read_write_opened(bits, a.0),
        r.0.0 == old(ctx)@.read_write_fast(),
        r.1.0 == old(ctx)@.read_write_phys(bits, a.0),
        old(ctx)@.wf() ==> final(ctx)@.wf(),
{
    reveal(Ctx::read_write_translated);
    let mask: i32 = write_entry_mask(ctx);
    let cont: Label = ctx.builder.block(BlockType::Void);
    gen_tlb_entry(ctx, a);
    let entry: WasmLocal = ctx.builder.tee_new_local();
    gen_entry_is_direct(ctx, a, mask, bits);
    let fast: WasmLocal = ctx.builder.tee_new_local();
    ctx.builder.br_if_hinted(cont, HINT_GROUP_MEM, HINT_LIKELY);
    gen_report_slow(ctx, "report_safe_read_write_jit_slow", a, entry);
    gen_read_tlb_cache_invalidate(ctx);
    let here: i32 = offset_in_page(ctx.st.start_of_current_instruction);
    ctx.builder.get_local(a);
    ctx.builder.const_i32(here);
    ctx.builder.call(bits.read_write_helper_name(), Sig::Fn2Ret);
    gen_fault_check(ctx, entry);
    ctx.builder.block_end();
    gen_profiler_stat_increment(&mut ctx.builder, Stat::SafeReadWriteFast);
    gen_host(ctx, a, entry);
    ctx.builder.free_local(entry);
    let phys: WasmLocal = ctx.builder.tee_new_local();
    ctx.builder.load(bits.access_width(), 0);
    (fast, phys)
}

fn gen_read_write_close(
    ctx: &mut JitContext,
    bits: BitSize,
    a: WasmLocal,
    fast: WasmLocal,
    phys: WasmLocal,
)
    requires
        !(bits is DQWORD),
    ensures
        final(ctx)@ == old(ctx)@.read_write_closed(bits, a.0, fast.0, phys.0),
{
    reveal(Ctx::read_write_closed);
    let value: GenSafeWriteValue = if bits == BitSize::QWORD {
        GenSafeWriteValue::I64(ctx.builder.set_new_local_i64())
    } else {
        GenSafeWriteValue::I32(ctx.builder.set_new_local())
    };
    ctx.builder.get_local(fast);
    ctx.builder.un(Un::Eqz);
    ctx.builder.if_void();
    gen_slow_write(ctx, bits, a, value);
    if ctx.builder.opt.debug_checks {
        ctx.builder.binc(Bin::And, 1);
        ctx.builder.if_void();
        ctx.builder.const_i32((8 * bits.bytes()) as i32);
        ctx.builder.get_local(a);
        ctx.builder.call("bug_gen_safe_read_write_page_fault", Sig::Fn2);
        ctx.builder.block_end();
    } else {
        ctx.builder.emit(Op::Drop);
    }
    ctx.builder.block_end();
    ctx.builder.get_local(phys);
    gen_value(ctx, value);
    ctx.builder.store(bits.access_width(), 0);
    match value {
        GenSafeWriteValue::I64(l) => {
            ctx.builder.free_local_i64(l);
        },
        GenSafeWriteValue::I32(l) => {
            ctx.builder.free_local(l);
        },
        GenSafeWriteValue::TwoI64s(_, _) => {},
    }
    ctx.builder.free_local(fast);
    ctx.builder.free_local(phys);
}

} // verus!
