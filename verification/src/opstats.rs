//! A census of the instructions that are compiled and executed: how often each opcode, each
//! addressing form and each SIMD family occurs.
use vstd::prelude::*;
use crate::wasm::{Emit, WasmBuilder};

verus! {

broadcast use crate::wasm::group_code;

/// Number of opcode counters.
pub const SIZE: usize = 8192;

/// Number of counters of addressing forms.
pub const ADDRKEY_COUNT: usize = 256;

/// Number of counters of SIMD opcodes.
pub const SIMDKEY_COUNT: usize = 1024;

/// One decoded instruction, as far as the census distinguishes them.
pub struct Instruction {
    pub prefixes: Vec<u8>,
    pub opcode: u8,
    pub fixed_g: u8,
    pub is_mem: bool,
    pub is_0f: bool,
    pub modrm: u8,
    pub has_modrm: bool,
    pub sib: u8,
    pub has_sib: bool,
    /// The instruction uses 16-bit addressing.
    pub addr16: bool,
}

/// What an [`Instruction`] holds.
pub struct Decoded {
    pub prefixes: Seq<u8>,
    pub opcode: u8,
    pub fixed_g: u8,
    pub is_mem: bool,
    pub is_0f: bool,
    pub modrm: u8,
    pub has_modrm: bool,
    pub sib: u8,
    pub has_sib: bool,
    pub addr16: bool,
}

impl View for Instruction {
    type V = Decoded;

    open spec fn view(&self) -> Decoded {
        Decoded {
            prefixes: self.prefixes@,
            opcode: self.opcode,
            fixed_g: self.fixed_g,
            is_mem: self.is_mem,
            is_0f: self.is_0f,
            modrm: self.modrm,
            has_modrm: self.has_modrm,
            sib: self.sib,
            has_sib: self.has_sib,
            addr16: self.addr16,
        }
    }
}

/// Bytes that may stand before an opcode.
pub open spec fn is_prefix(b: u8) -> bool {
    b == 0x26 || b == 0x2E || b == 0x36 || b == 0x3E || b == 0x64 || b == 0x65 || b == 0x66 || b
        == 0x67 || b == 0xF0 || b == 0xF2 || b == 0xF3
}

/// Whether the byte may stand before an opcode.
pub fn is_prefix_byte(b: u8) -> (r: bool)
    ensures
        r == is_prefix(b),
{
    b == 0x26 || b == 0x2E || b == 0x36 || b == 0x3E || b == 0x64 || b == 0x65 || b == 0x66 || b
        == 0x67 || b == 0xF0 || b == 0xF2 || b == 0xF3
}

/// Whether a ModRM byte follows the opcode.
pub open spec fn takes_modrm(is_0f: bool, op: u8) -> bool {
    if is_0f {
        op <= 0x03 || 0x10 <= op <= 0x19 || 0x1C <= op <= 0x23 || 0x28 <= op <= 0x2F || 0x40 <= op
            <= 0x76 || 0x7E <= op <= 0x7F || 0x90 <= op <= 0x9F || 0xA3 <= op <= 0xA5 || 0xAB <= op
            <= 0xB8 || 0xBA <= op <= 0xC7 || 0xD1 <= op <= 0xEF || 0xF1 <= op <= 0xFE
    } else {
        op <= 0x03 || 0x08 <= op <= 0x0B || 0x10 <= op <= 0x13 || 0x18 <= op <= 0x1B || 0x20 <= op
            <= 0x23 || 0x28 <= op <= 0x2B || 0x30 <= op <= 0x33 || 0x38 <= op <= 0x3B || 0x62 <= op
            <= 0x63 || op == 0x69 || op == 0x6B || 0x80 <= op <= 0x8F || 0xC0 <= op <= 0xC1 || 0xC4
            <= op <= 0xC7 || 0xD0 <= op <= 0xD3 || 0xD8 <= op <= 0xDF || 0xF6 <= op <= 0xF7 || 0xFE
            <= op
    }
}

/// Whether bits 3 to 5 of the ModRM byte are part of the opcode.
pub open spec fn is_group(is_0f: bool, op: u8) -> bool {
    if is_0f {
        op == 0x71 || op == 0x72 || op == 0x73 || op == 0xAE || op == 0xBA || op == 0xC7
    } else {
        0x80 <= op < 0x84 || 0xC0 <= op < 0xC2 || 0xD0 <= op < 0xD4 || 0xD8 <= op < 0xE0 || 0xF6
            <= op < 0xF8 || op == 0xFE || op == 0xFF
    }
}

fn opcode_takes_modrm(is_0f: bool, op: u8) -> (r: bool)
    ensures
        r == takes_modrm(is_0f, op),
{
    if is_0f {
        op <= 0x03 || (0x10 <= op && op <= 0x19) || (0x1C <= op && op <= 0x23) || (0x28 <= op && op
            <= 0x2F) || (0x40 <= op && op <= 0x76) || (0x7E <= op && op <= 0x7F) || (0x90 <= op
            && op <= 0x9F) || (0xA3 <= op && op <= 0xA5) || (0xAB <= op && op <= 0xB8) || (0xBA
            <= op && op <= 0xC7) || (0xD1 <= op && op <= 0xEF) || (0xF1 <= op && op <= 0xFE)
    } else {
        op <= 0x03 || (0x08 <= op && op <= 0x0B) || (0x10 <= op && op <= 0x13) || (0x18 <= op && op
            <= 0x1B) || (0x20 <= op && op <= 0x23) || (0x28 <= op && op <= 0x2B) || (0x30 <= op
            && op <= 0x33) || (0x38 <= op && op <= 0x3B) || (0x62 <= op && op <= 0x63) || op == 0x69
            || op == 0x6B || (0x80 <= op && op <= 0x8F) || (0xC0 <= op && op <= 0xC1) || (0xC4
            <= op && op <= 0xC7) || (0xD0 <= op && op <= 0xD3) || (0xD8 <= op && op <= 0xDF)
            || (0xF6 <= op && op <= 0xF7) || 0xFE <= op
    }
}

fn opcode_is_group(is_0f: bool, op: u8) -> (r: bool)
    ensures
        r == is_group(is_0f, op),
{
    if is_0f {
        op == 0x71 || op == 0x72 || op == 0x73 || op == 0xAE || op == 0xBA || op == 0xC7
    } else {
        (0x80 <= op && op < 0x84) || (0xC0 <= op && op < 0xC2) || (0xD0 <= op && op < 0xD4) || (0xD8
            <= op && op < 0xE0) || (0xF6 <= op && op < 0xF8) || op == 0xFE || op == 0xFF
    }
}

/// The outcome of reading prefixes and opcode.
pub struct Walk {
    pub rest: u64,
    pub prefixes: Seq<u8>,
    pub is_0f: bool,
    pub opcode: u8,
}

/// Reads at most `n` more bytes, low bytes first: prefixes, at most one escape byte, and the
/// opcode. The opcode is 0 where the bytes run out before it.
pub open spec fn walk(bytes: u64, n: nat, prefixes: Seq<u8>, is_0f: bool) -> Walk
    decreases n,
{
    let b = (bytes & 0xFF) as u8;
    if n == 0 {
        Walk { rest: bytes, prefixes, is_0f, opcode: 0 }
    } else if is_0f {
        Walk { rest: bytes >> 8, prefixes, is_0f, opcode: b }
    } else if b == 0x0F {
        walk(bytes >> 8, (n - 1) as nat, prefixes, true)
    } else if is_prefix(b) {
        walk(bytes >> 8, (n - 1) as nat, prefixes.push(b), false)
    } else {
        Walk { rest: bytes >> 8, prefixes, is_0f, opcode: b }
    }
}

/// How the bytes of an instruction, low bytes first, decode.
pub open spec fn decoded(bytes: u64) -> Decoded {
    let w = walk(bytes, 7, Seq::empty(), false);
    let modrm = (w.rest & 0xFF) as u8;
    let has_modrm = takes_modrm(w.is_0f, w.opcode);
    let addr16 = w.prefixes.contains(0x67u8);
    let has_sib = has_modrm && !addr16 && modrm < 0xC0 && modrm % 8 == 4;
    Decoded {
        prefixes: w.prefixes,
        opcode: w.opcode,
        fixed_g: if is_group(w.is_0f, w.opcode) {
            (modrm as int / 8 % 8) as u8
        } else {
            0
        },
        is_mem: has_modrm && modrm < 0xC0,
        is_0f: w.is_0f,
        modrm,
        has_modrm,
        sib: if has_sib {
            ((w.rest >> 8) & 0xFF) as u8
        } else {
            0
        },
        has_sib,
        addr16,
    }
}

/// Decodes the first four bytes of an instruction.
pub fn decode(instruction: u32) -> (i: Instruction)
    ensures
        i@ == decoded(instruction as u64),
{
    decode64(instruction as u64)
}

fn has_byte(v: &Vec<u8>, b: u8) -> (r: bool)
    ensures
        r == v@.contains(b),
{
    let n: usize = v.len();
    let mut i: usize = 0;
    while i < n
        invariant
            i <= n,
            n == v@.len(),
            forall|j: int| 0 <= j < i ==> v@[j] != b,
        decreases n - i,
    {
        if v[i] == b {
            return true;
        }
        i = i + 1;
    }
    false
}

/// Decodes the first eight bytes of an instruction. Where more than six prefixes come first,
/// the opcode is not found.
pub fn decode64(bytes: u64) -> (i: Instruction)
    ensures
        i@ == decoded(bytes),
{
    let mut rest: u64 = bytes;
    let mut is_0f: bool = false;
    let mut prefixes: Vec<u8> = Vec::new();
    let mut opcode: u8 = 0;
    let mut left: usize = 7;
    let mut found: bool = false;
    while left > 0 && !found
        invariant
            left <= 7,
            found ==> walk(bytes, 7, Seq::empty(), false) == (Walk {
                rest,
                prefixes: prefixes@,
                is_0f,
                opcode,
            }),
            !found ==> opcode == 0,
            !found ==> walk(bytes, 7, Seq::empty(), false) == walk(
                rest,
                left as nat,
                prefixes@,
                is_0f,
            ),
        decreases left,
    {
        let b: u8 = (rest & 0xFF) as u8;
        rest = rest >> 8;
        left = left - 1;
        if is_0f {
            opcode = b;
            found = true;
        } else if b == 0x0F {
            is_0f = true;
        } else if is_prefix_byte(b) {
            prefixes.push(b);
        } else {
            opcode = b;
            found = true;
        }
    }
    let has_modrm: bool = opcode_takes_modrm(is_0f, opcode);
    let modrm: u8 = (rest & 0xFF) as u8;
    let group: bool = opcode_is_group(is_0f, opcode);
    let addr16: bool = has_byte(&prefixes, 0x67);
    let has_sib: bool = has_modrm && !addr16 && modrm < 0xC0 && modrm % 8 == 4;
    let sib: u8 = if has_sib {
        ((rest >> 8) & 0xFF) as u8
    } else {
        0
    };
    let fixed_g: u8 = if group {
        modrm / 8 % 8
    } else {
        0
    };
    Instruction {
        prefixes,
        opcode,
        fixed_g,
        is_mem: has_modrm && modrm < 0xC0,
        is_0f,
        modrm,
        has_modrm,
        sib,
        has_sib,
        addr16,
    }
}

pub open spec fn bit(b: bool) -> int {
    if b {
        1
    } else {
        0
    }
}

fn bit_of(b: bool) -> (r: u32)
    ensures
        r == bit(b),
{
    if b {
        1
    } else {
        0
    }
}

impl Decoded {
    /// The counter of the addressing form: 16-bit addressing, a SIB byte, the mode, the base
    /// register, and whether there is an index register.
    pub open spec fn addr_key(self) -> int {
        let base = if self.has_sib {
            self.sib % 8
        } else {
            self.modrm % 8
        };
        128 * bit(self.addr16) + 64 * bit(self.has_sib) + 16 * (self.modrm as int / 64) + 2 * base
            + bit(self.has_sib && self.sib as int / 8 % 8 != 4)
    }

    /// The SIMD family after the first `n` prefixes: 0 for none, 1, 2 or 3 for the last of the
    /// prefixes 0x66, 0xF3 and 0xF2.
    pub open spec fn family(prefixes: Seq<u8>, n: nat) -> int
        decreases n,
    {
        if n == 0 {
            0
        } else if prefixes[n - 1] == 0x66 {
            1
        } else if prefixes[n - 1] == 0xF3 {
            2
        } else if prefixes[n - 1] == 0xF2 {
            3
        } else {
            Self::family(prefixes, (n - 1) as nat)
        }
    }

    /// The counter of a SIMD opcode.
    pub open spec fn simd_key(self) -> int {
        256 * Self::family(self.prefixes, self.prefixes.len()) + self.opcode
    }

    /// The counter of the opcode.
    pub open spec fn key(self) -> int {
        4096 * bit(self.is_0f) + 16 * self.opcode + 8 * bit(self.is_mem) + self.fixed_g
    }

    pub open spec fn wf(self) -> bool {
        self.fixed_g < 8
    }
}

/// Every instruction that bytes decode to has a counter of its own kind.
pub proof fn decoded_wf(bytes: u64)
    ensures
        decoded(bytes).wf(),
        0 <= decoded(bytes).key() < SIZE,
        0 <= decoded(bytes).addr_key() < ADDRKEY_COUNT,
        0 <= decoded(bytes).simd_key() < SIMDKEY_COUNT,
{
    let d = decoded(bytes);
    family_bounds(d.prefixes, d.prefixes.len());
}

proof fn family_bounds(prefixes: Seq<u8>, n: nat)
    ensures
        0 <= Decoded::family(prefixes, n) <= 3,
    decreases n,
{
    if n > 0 {
        family_bounds(prefixes, (n - 1) as nat);
    }
}

/// The counter of the addressing form of an instruction.
pub fn addr_key(i: &Instruction) -> (k: u32)
    ensures
        k == i@.addr_key(),
{
    let md: u32 = (i.modrm / 64) as u32;
    let base: u32 = if i.has_sib {
        (i.sib % 8) as u32
    } else {
        (i.modrm % 8) as u32
    };
    let index_present: bool = i.has_sib && i.sib / 8 % 8 != 4;
    128 * bit_of(i.addr16) + 64 * bit_of(i.has_sib) + 16 * md + 2 * base + bit_of(index_present)
}

fn mandatory_prefix(i: &Instruction) -> (p: u32)
    ensures
        p == Decoded::family(i@.prefixes, i@.prefixes.len()),
        p <= 3,
{
    let mut p: u32 = 0;
    let n: usize = i.prefixes.len();
    let mut k: usize = 0;
    while k < n
        invariant
            k <= n,
            n == i.prefixes@.len(),
            p == Decoded::family(i.prefixes@, k as nat),
            p <= 3,
        decreases n - k,
    {
        let b: u8 = i.prefixes[k];
        if b == 0x66 {
            p = 1;
        } else if b == 0xF3 {
            p = 2;
        } else if b == 0xF2 {
            p = 3;
        }
        k = k + 1;
    }
    p
}

fn opcode_key(i: &Instruction) -> (k: u32)
    requires
        i@.wf(),
    ensures
        k == i@.key(),
        k < SIZE,
{
    4096 * bit_of(i.is_0f) + 16 * i.opcode as u32 + 8 * bit_of(i.is_mem) + i.fixed_g as u32
}

/// Where the counters that compiled code increments lie, and whether it does.
#[derive(Clone, Copy, Debug, PartialEq, Eq, Structural)]
pub struct OpstatSites {
    pub enabled: bool,
    pub opcodes: u32,
    pub unguarded: u32,
    pub addresses: u32,
    pub simd: u32,
}

/// Address of counter `k` of the counters at `base`.
pub open spec fn counter_at(base: u32, k: int) -> u32 {
    base.wrapping_add((8 * k) as u32)
}

impl Emit {
    /// The counters of the first `n` prefixes grow by one.
    pub open spec fn count_prefixes(self, base: u32, prefixes: Seq<u8>, n: nat) -> Emit
        decreases n,
    {
        if n == 0 {
            self
        } else {
            self.count_prefixes(base, prefixes, (n - 1) as nat).count(
                counter_at(base, 16 * prefixes[n - 1]),
            )
        }
    }

    /// The counters of an instruction, among those at `base`, grow by one.
    pub open spec fn count_instruction(self, base: u32, d: Decoded) -> Emit {
        self.count_prefixes(base, d.prefixes, d.prefixes.len()).count(counter_at(base, d.key()))
    }

    /// The counter of the addressing form of an instruction with a memory operand grows by
    /// one.
    pub open spec fn count_address(self, base: u32, d: Decoded) -> Emit {
        if d.is_mem && d.has_modrm {
            self.count(counter_at(base, d.addr_key()))
        } else {
            self
        }
    }

    /// The counter of a two-byte opcode, by SIMD family, grows by one.
    pub open spec fn count_simd(self, base: u32, d: Decoded) -> Emit {
        if d.is_0f {
            self.count(counter_at(base, d.simd_key()))
        } else {
            self
        }
    }

    /// All counters of an instruction grow by one, where the census is on.
    #[verifier::opaque]
    pub open spec fn opstats(self, sites: OpstatSites, bytes: u64) -> Emit {
        let d = decoded(bytes);
        if sites.enabled {
            self.count_address(sites.addresses, d).count_simd(sites.simd, d).count_instruction(
                sites.opcodes,
                d,
            )
        } else {
            self
        }
    }

    /// The counters of an instruction whose registers are spilled grow by one, where the census
    /// is on.
    #[verifier::opaque]
    pub open spec fn opstat_unguarded(self, sites: OpstatSites, instruction: u32) -> Emit {
        if sites.enabled {
            self.count_instruction(sites.unguarded, decoded(instruction as u64))
        } else {
            self
        }
    }
}

/// Counts the addressing form of an instruction with a memory operand.
pub fn gen_addr_stat(builder: &mut WasmBuilder, base: u32, i: &Instruction)
    ensures
        final(builder)@ == old(builder)@.count_address(base, i@),
{
    if i.is_mem && i.has_modrm {
        let k: u32 = addr_key(i);
        builder.increment_fixed_i64(base.wrapping_add(8 * k));
    }
}

/// Counts a two-byte opcode by SIMD family.
pub fn gen_simd_stat(builder: &mut WasmBuilder, base: u32, i: &Instruction)
    ensures
        final(builder)@ == old(builder)@.count_simd(base, i@),
{
    if i.is_0f {
        let k: u32 = 256 * mandatory_prefix(i) + i.opcode as u32;
        builder.increment_fixed_i64(base.wrapping_add(8 * k));
    }
}

fn gen_count_instruction(builder: &mut WasmBuilder, base: u32, i: &Instruction)
    requires
        i@.wf(),
    ensures
        final(builder)@ == old(builder)@.count_instruction(base, i@),
{
    let n: usize = i.prefixes.len();
    let mut k: usize = 0;
    while k < n
        invariant
            k <= n,
            n == i.prefixes@.len(),
            builder@ == old(builder)@.count_prefixes(base, i.prefixes@, k as nat),
        decreases n - k,
    {
        let index: u32 = 16 * i.prefixes[k] as u32;
        builder.increment_fixed_i64(base.wrapping_add(8 * index));
        k = k + 1;
    }
    let index: u32 = opcode_key(i);
    builder.increment_fixed_i64(base.wrapping_add(8 * index));
}

/// Counts an instruction when it is executed.
pub fn gen_opstats(builder: &mut WasmBuilder, sites: &OpstatSites, opcode: u64)
    ensures
        final(builder)@ == old(builder)@.opstats(*sites, opcode),
{
    reveal(Emit::opstats);
    if !sites.enabled {
        return ;
    }
    let instruction: Instruction = decode64(opcode);
    proof {
        decoded_wf(opcode);
    }
    gen_addr_stat(builder, sites.addresses, &instruction);
    gen_simd_stat(builder, sites.simd, &instruction);
    gen_count_instruction(builder, sites.opcodes, &instruction);
}

/// Counts an instruction, when it is executed, whose registers are spilled.
pub fn gen_opstat_unguarded_register(builder: &mut WasmBuilder, sites: &OpstatSites, opcode: u32)
    ensures
        final(builder)@ == old(builder)@.opstat_unguarded(*sites, opcode),
{
    reveal(Emit::opstat_unguarded);
    if !sites.enabled {
        return ;
    }
    let instruction: Instruction = decode(opcode);
    proof {
        decoded_wf(opcode as u64);
    }
    gen_count_instruction(builder, sites.unguarded, &instruction);
}

/// The counters of the census.
pub struct Opstats {
    pub enabled: bool,
    /// Executed, by opcode.
    pub executed: Vec<u64>,
    /// Compiled, by opcode.
    pub compiled: Vec<u64>,
    /// Exits of compiled units, by opcode.
    pub jit_exit: Vec<u64>,
    /// Executed with registers spilled, by opcode.
    pub unguarded_register: Vec<u64>,
    /// Bytes of compiled code, by opcode.
    pub wasm_size: Vec<u64>,
    /// Executed, by addressing form.
    pub addresses: Vec<u64>,
    /// Executed, by SIMD opcode.
    pub simd: Vec<u64>,
}

/// What an [`Opstats`] holds.
pub struct OpstatsView {
    pub enabled: bool,
    pub executed: Seq<u64>,
    pub compiled: Seq<u64>,
    pub jit_exit: Seq<u64>,
    pub unguarded_register: Seq<u64>,
    pub wasm_size: Seq<u64>,
    pub addresses: Seq<u64>,
    pub simd: Seq<u64>,
}

impl View for Opstats {
    type V = OpstatsView;

    open spec fn view(&self) -> OpstatsView {
        OpstatsView {
            enabled: self.enabled,
            executed: self.executed@,
            compiled: self.compiled@,
            jit_exit: self.jit_exit@,
            unguarded_register: self.unguarded_register@,
            wasm_size: self.wasm_size@,
            addresses: self.addresses@,
            simd: self.simd@,
        }
    }
}

/// `n` counters at zero.
pub open spec fn zeros(n: nat) -> Seq<u64> {
    Seq::new(n, |i: int| 0u64)
}

impl OpstatsView {
    pub open spec fn wf(self) -> bool {
        &&& self.executed.len() == SIZE
        &&& self.compiled.len() == SIZE
        &&& self.jit_exit.len() == SIZE
        &&& self.unguarded_register.len() == SIZE
        &&& self.wasm_size.len() == SIZE
        &&& self.addresses.len() == ADDRKEY_COUNT
        &&& self.simd.len() == SIMDKEY_COUNT
    }

    /// Every counter at zero.
    pub open spec fn cleared(enabled: bool) -> OpstatsView {
        OpstatsView {
            enabled,
            executed: zeros(SIZE as nat),
            compiled: zeros(SIZE as nat),
            jit_exit: zeros(SIZE as nat),
            unguarded_register: zeros(SIZE as nat),
            wasm_size: zeros(SIZE as nat),
            addresses: zeros(ADDRKEY_COUNT as nat),
            simd: zeros(SIMDKEY_COUNT as nat),
        }
    }
}

/// The counters with counter `k` larger by `by`.
pub open spec fn bumped(counters: Seq<u64>, k: int, by: u64) -> Seq<u64> {
    counters.update(k, counters[k].wrapping_add(by))
}

/// The counters after the first `n` prefixes grew by `by`.
pub open spec fn prefixes_bumped(counters: Seq<u64>, prefixes: Seq<u8>, n: nat, by: u64) -> Seq<u64>
    decreases n,
{
    if n == 0 {
        counters
    } else {
        bumped(
            prefixes_bumped(counters, prefixes, (n - 1) as nat, by),
            16 * prefixes[n - 1],
            by,
        )
    }
}

/// The counters after those of an instruction grew by `by`.
pub open spec fn instruction_bumped(counters: Seq<u64>, d: Decoded, by: u64) -> Seq<u64> {
    bumped(prefixes_bumped(counters, d.prefixes, d.prefixes.len(), by), d.key(), by)
}

fn zero_counters(n: usize) -> (v: Vec<u64>)
    ensures
        v@ == zeros(n as nat),
{
    let mut v: Vec<u64> = Vec::with_capacity(n);
    let mut i: usize = 0;
    while i < n
        invariant
            i <= n,
            v@ == zeros(i as nat),
        decreases n - i,
    {
        v.push(0);
        i = i + 1;
        assert(v@ =~= zeros(i as nat));
    }
    v
}

impl Opstats {
    /// A census that is off, with every counter at zero.
    pub fn new() -> (s: Opstats)
        ensures
            s@ == OpstatsView::cleared(false),
            s@.wf(),
    {
        Opstats {
            enabled: false,
            executed: zero_counters(SIZE),
            compiled: zero_counters(SIZE),
            jit_exit: zero_counters(SIZE),
            unguarded_register: zero_counters(SIZE),
            wasm_size: zero_counters(SIZE),
            addresses: zero_counters(ADDRKEY_COUNT),
            simd: zero_counters(SIMDKEY_COUNT),
        }
    }
}

/// Whether the census is on.
pub fn opstats_enabled(s: &Opstats) -> (r: bool)
    ensures
        r == s@.enabled,
{
    s.enabled
}

/// Switches the census on or off. Only code that is compiled while it is on counts.
pub fn set_opstats(s: &mut Opstats, enabled: u32)
    ensures
        final(s)@ == (OpstatsView { enabled: enabled != 0, ..old(s)@ }),
{
    s.enabled = enabled != 0;
}

/// Whether the census is on, as a number.
pub fn get_opstats(s: &Opstats) -> (r: u32)
    ensures
        r == bit(s@.enabled),
{
    bit_of(s.enabled)
}

/// Puts every counter at zero.
pub fn opstats_reset(s: &mut Opstats)
    ensures
        final(s)@ == OpstatsView::cleared(old(s)@.enabled),
        final(s)@.wf(),
{
    let enabled: bool = s.enabled;
    *s = Opstats::new();
    s.enabled = enabled;
}

/// A counter of an addressing form; 0 past the last one.
pub fn get_opstats_addr(s: &Opstats, index: u32) -> (n: u64)
    requires
        s@.wf(),
    ensures
        n == (if index < ADDRKEY_COUNT {
            s@.addresses[index as int]
        } else {
            0
        }),
{
    if (index as usize) < ADDRKEY_COUNT {
        s.addresses[index as usize]
    } else {
        0
    }
}

/// A counter of a SIMD opcode; 0 past the last one.
pub fn get_opstats_simd(s: &Opstats, index: u32) -> (n: u64)
    requires
        s@.wf(),
    ensures
        n == (if index < SIMDKEY_COUNT {
            s@.simd[index as int]
        } else {
            0
        }),
{
    if (index as usize) < SIMDKEY_COUNT {
        s.simd[index as usize]
    } else {
        0
    }
}

fn bump_instruction(counters: &mut Vec<u64>, i: &Instruction, by: u64)
    requires
        old(counters)@.len() == SIZE,
        i@.wf(),
    ensures
        final(counters)@ == instruction_bumped(old(counters)@, i@, by),
        final(counters)@.len() == SIZE,
{
    let n: usize = i.prefixes.len();
    let mut k: usize = 0;
    while k < n
        invariant
            k <= n,
            n == i.prefixes@.len(),
            counters@.len() == SIZE,
            counters@ == prefixes_bumped(old(counters)@, i.prefixes@, k as nat, by),
        decreases n - k,
    {
        let index: usize = 16 * i.prefixes[k] as usize;
        let v: u64 = counters[index].wrapping_add(by);
        counters.set(index, v);
        k = k + 1;
    }
    let index: usize = opcode_key(i) as usize;
    let v: u64 = counters[index].wrapping_add(by);
    counters.set(index, v);
}

/// Counts an instruction that is compiled.
pub fn record_opstat_compiled(s: &mut Opstats, opcode: u64)
    requires
        old(s)@.wf(),
    ensures
        final(s)@ == (if old(s)@.enabled {
            OpstatsView {
                compiled: instruction_bumped(old(s)@.compiled, decoded(opcode), 1),
                ..old(s)@
            }
        } else {
            old(s)@
        }),
        final(s)@.wf(),
{
    if s.enabled {
        let instruction: Instruction = decode64(opcode);
        proof {
            decoded_wf(opcode);
        }
        bump_instruction(&mut s.compiled, &instruction, 1);
    }
}

/// Counts an instruction at which a compiled unit is left.
pub fn record_opstat_jit_exit(s: &mut Opstats, opcode: u32)
    requires
        old(s)@.wf(),
    ensures
        final(s)@ == (if old(s)@.enabled {
            OpstatsView {
                jit_exit: instruction_bumped(old(s)@.jit_exit, decoded(opcode as u64), 1),
                ..old(s)@
            }
        } else {
            old(s)@
        }),
        final(s)@.wf(),
{
    if s.enabled {
        let instruction: Instruction = decode(opcode);
        proof {
            decoded_wf(opcode as u64);
        }
        bump_instruction(&mut s.jit_exit, &instruction, 1);
    }
}

/// Counts the bytes of code that an instruction was compiled to.
pub fn record_opstat_size_wasm(s: &mut Opstats, opcode: u64, size: u64)
    requires
        old(s)@.wf(),
    ensures
        final(s)@ == (if old(s)@.enabled {
            OpstatsView {
                wasm_size: instruction_bumped(old(s)@.wasm_size, decoded(opcode), size),
                ..old(s)@
            }
        } else {
            old(s)@
        }),
        final(s)@.wf(),
{
    if s.enabled {
        let instruction: Instruction = decode64(opcode);
        proof {
            decoded_wf(opcode);
        }
        bump_instruction(&mut s.wasm_size, &instruction, size);
    }
}

/// Every memory operand is counted in the census of addressing forms: an instruction has one
/// only where it has a ModRM byte.
pub proof fn law_memory_operands_have_a_modrm(bytes: u64)
    ensures
        decoded(bytes).is_mem ==> decoded(bytes).has_modrm,
        decoded(bytes).has_sib ==> decoded(bytes).is_mem && !decoded(bytes).addr16,
{
}

/// The counter stands in the half of the census that counts memory operands.
pub open spec fn is_memory_key(key: int) -> bool {
    key / 8 % 2 == 1
}

/// The censuses of opcodes and of addressing forms agree: an instruction is counted once among
/// the addressing forms where its opcode is counted among those with a memory operand, else not
/// at all, and its prefixes are never counted there. So the addressing forms sum up to that half
/// of the opcodes.
pub proof fn law_the_censuses_agree(code: Emit, base: u32, bytes: u64, i: int)
    ensures
        ({
            let d = decoded(bytes);
            &&& code.count_address(base, d) == (if is_memory_key(d.key()) {
                code.count(counter_at(base, d.addr_key()))
            } else {
                code
            })
            &&& 0 <= i < d.prefixes.len() ==> !is_memory_key(16 * d.prefixes[i])
        }),
{
    law_memory_operands_have_a_modrm(bytes);
    decoded_wf(bytes);
}

} // verus!
