//! Where the state of the emulated CPU lives in linear memory, and the decoded facts about
//! the CPU mode that code generation depends on.
use vstd::prelude::*;

verus! {

// Registers.
pub const EAX: u32 = 0;
pub const ECX: u32 = 1;
pub const ESP: u32 = 4;
pub const EBP: u32 = 5;
pub const CX: u32 = 1;
pub const SP: u32 = 4;
pub const BP: u32 = 5;

// Segment registers.
pub const CS: u32 = 1;
pub const SS: u32 = 2;

/// Bits of control register 0 that make x87 and SSE instructions trap.
pub const CR0_EM: i32 = 4;
pub const CR0_TS: i32 = 8;

// Status flags.
pub const FLAG_CARRY: i32 = 1;
pub const FLAG_PARITY: i32 = 4;
pub const FLAG_ADJUST: i32 = 16;
pub const FLAG_ZERO: i32 = 64;
pub const FLAG_SIGN: i32 = 128;
pub const FLAG_OVERFLOW: i32 = 2048;
/// All six status flags.
pub const FLAGS_ALL: i32 = 2261;

/// Operand sizes, each the number of its highest bit.
pub const OPSIZE_8: i32 = 7;
pub const OPSIZE_16: i32 = 15;
pub const OPSIZE_32: i32 = 31;

// Bits of a translation entry.
pub const TLB_VALID: i32 = 1;
pub const TLB_READONLY: i32 = 2;
pub const TLB_NO_USER: i32 = 4;
pub const TLB_IN_MAPPED_RANGE: i32 = 8;
pub const TLB_GLOBAL: i32 = 16;
pub const TLB_HAS_CODE: i32 = 32;

// Addresses of the CPU state.
pub const AT_REG32: u32 = 64;
pub const AT_INSTRUCTION_POINTER: u32 = 556;
pub const AT_PREVIOUS_IP: u32 = 560;
pub const AT_CREG: u32 = 580;
pub const AT_INSTRUCTION_COUNTER: u32 = 664;
pub const AT_SREG: u32 = 668;
pub const AT_SEG_OFFSET: u32 = 736;
pub const AT_FPU_STACK_EMPTY: u32 = 816;
pub const AT_REG_XMM: u32 = 832;
pub const AT_FPU_STACK_PTR: u32 = 1032;
pub const AT_FPU_CONTROL_WORD: u32 = 1036;
pub const AT_FPU_STATUS_WORD: u32 = 1040;
pub const AT_FPU_SIMD_DIRTY: u32 = 1044;
pub const AT_SSE_SCRATCH: u32 = 1056;
pub const AT_FPU_ST: u32 = 1152;

/// Clears the low 12 bits: what is left of an address is its page.
pub const PAGE_MASK: i32 = -4096;

/// All but the low byte.
pub const NOT_LOW_8: i32 = -256;

/// All but the low half-word.
pub const NOT_LOW_16: i32 = -65536;

/// All but the second byte.
pub const NOT_BYTE_1: i32 = -65281;

pub open spec fn reg32_address(r: int) -> int {
    AT_REG32 + 4 * r
}

pub open spec fn sreg_address(r: int) -> int {
    AT_SREG + 2 * r
}

pub open spec fn seg_offset_address(r: int) -> int {
    AT_SEG_OFFSET + 4 * r
}

pub open spec fn xmm_address(r: int) -> int {
    AT_REG_XMM + 16 * r
}

/// All bits inverted.
pub open spec fn flipped(bits: i32) -> i32 {
    (-1 - bits) as i32
}

/// What code generation knows of the CPU while it compiles an instruction.
#[derive(Clone, Copy, Debug, PartialEq, Eq, Structural)]
pub struct CpuContext {
    /// Address right after the instruction, as far as it has been read.
    pub eip: u32,
    pub osize_32: bool,
    pub asize_32: bool,
    pub ssize_32: bool,
    pub cpl3: bool,
    /// Code, data, stack and extra segments all start at zero.
    pub flat_segmentation: bool,
}

/// The offset of an address within its page.
pub open spec fn page_offset(address: u32) -> i32 {
    (address & 0xfff) as i32
}

pub fn offset_in_page(address: u32) -> (r: i32)
    ensures
        r == page_offset(address),
        0 <= r < 0x1000,
{
    assert(address & 0xfff < 0x1000) by (bit_vector);
    (address & 0xfff) as i32
}

/// Events that can be counted.
#[derive(Clone, Copy, Debug, PartialEq, Eq, Structural)]
pub enum Stat {
    FailedPageChange,
    ConditionOptimised,
    ConditionUnoptimised,
    ConditionUnoptimisedPf,
    ConditionUnoptimisedUnhandledL,
    ConditionUnoptimisedUnhandledLe,
    SafeReadFast,
    SafeWriteFast,
    SafeReadWriteFast,
    PermMapReadHit,
    PermMapReadMiss,
    ReadTlbCacheHit,
    ReadTlbCacheFill,
    PushRunHit,
    PushRunFill,
    X87CacheInvalidate,
    X87CacheHit,
    X87CacheFill,
    FpuRelaxedHit,
    FpuRelaxedFallback,
    BlockExecution,
    ModuleExitDynamic,
    ModuleExitChainable,
    DirectExit,
    NormalPageChange,
    NormalFallthruWithTargetBlock,
    NormalFallthru,
    NormalBranchWithTargetBlock,
    NormalBranch,
    ConditionalJump,
    ConditionalJumpPageChange,
    ConditionalJumpFallthruWithTargetBlock,
    ConditionalJumpFallthru,
    ConditionalJumpBranchWithTargetBlock,
    ConditionalJumpBranch,
    ConditionalJumpExit,
    DispatcherLarge,
    DispatcherSmall,
    Loop,
    LoopSafety,
}

impl Stat {
    /// Number of the event's counter.
    pub open spec fn number(self) -> int {
        match self {
            Stat::FailedPageChange => 0,
            Stat::ConditionOptimised => 1,
            Stat::ConditionUnoptimised => 2,
            Stat::ConditionUnoptimisedPf => 3,
            Stat::ConditionUnoptimisedUnhandledL => 4,
            Stat::ConditionUnoptimisedUnhandledLe => 5,
            Stat::SafeReadFast => 6,
            Stat::SafeWriteFast => 7,
            Stat::SafeReadWriteFast => 8,
            Stat::PermMapReadHit => 9,
            Stat::PermMapReadMiss => 10,
            Stat::ReadTlbCacheHit => 11,
            Stat::ReadTlbCacheFill => 12,
            Stat::PushRunHit => 13,
            Stat::PushRunFill => 14,
            Stat::X87CacheInvalidate => 15,
            Stat::X87CacheHit => 16,
            Stat::X87CacheFill => 17,
            Stat::FpuRelaxedHit => 18,
            Stat::FpuRelaxedFallback => 19,
            Stat::BlockExecution => 20,
            Stat::ModuleExitDynamic => 21,
            Stat::ModuleExitChainable => 22,
            Stat::DirectExit => 23,
            Stat::NormalPageChange => 24,
            Stat::NormalFallthruWithTargetBlock => 25,
            Stat::NormalFallthru => 26,
            Stat::NormalBranchWithTargetBlock => 27,
            Stat::NormalBranch => 28,
            Stat::ConditionalJump => 29,
            Stat::ConditionalJumpPageChange => 30,
            Stat::ConditionalJumpFallthruWithTargetBlock => 31,
            Stat::ConditionalJumpFallthru => 32,
            Stat::ConditionalJumpBranchWithTargetBlock => 33,
            Stat::ConditionalJumpBranch => 34,
            Stat::ConditionalJumpExit => 35,
            Stat::DispatcherLarge => 36,
            Stat::DispatcherSmall => 37,
            Stat::Loop => 38,
            Stat::LoopSafety => 39,
        }
    }

    /// Address of the event's counter, with the counters at `base`.
    pub open spec fn address(self, base: u32) -> u32 {
        base.wrapping_add((8 * self.number()) as u32)
    }

    pub fn counter_address(self, base: u32) -> (a: u32)
        ensures
            a == self.address(base),
    {
        let n: u32 = match self {
            Stat::FailedPageChange => 0,
            Stat::ConditionOptimised => 1,
            Stat::ConditionUnoptimised => 2,
            Stat::ConditionUnoptimisedPf => 3,
            Stat::ConditionUnoptimisedUnhandledL => 4,
            Stat::ConditionUnoptimisedUnhandledLe => 5,
            Stat::SafeReadFast => 6,
            Stat::SafeWriteFast => 7,
            Stat::SafeReadWriteFast => 8,
            Stat::PermMapReadHit => 9,
            Stat::PermMapReadMiss => 10,
            Stat::ReadTlbCacheHit => 11,
            Stat::ReadTlbCacheFill => 12,
            Stat::PushRunHit => 13,
            Stat::PushRunFill => 14,
            Stat::X87CacheInvalidate => 15,
            Stat::X87CacheHit => 16,
            Stat::X87CacheFill => 17,
            Stat::FpuRelaxedHit => 18,
            Stat::FpuRelaxedFallback => 19,
            Stat::BlockExecution => 20,
            Stat::ModuleExitDynamic => 21,
            Stat::ModuleExitChainable => 22,
            Stat::DirectExit => 23,
            Stat::NormalPageChange => 24,
            Stat::NormalFallthruWithTargetBlock => 25,
            Stat::NormalFallthru => 26,
            Stat::NormalBranchWithTargetBlock => 27,
            Stat::NormalBranch => 28,
            Stat::ConditionalJump => 29,
            Stat::ConditionalJumpPageChange => 30,
            Stat::ConditionalJumpFallthruWithTargetBlock => 31,
            Stat::ConditionalJumpFallthru => 32,
            Stat::ConditionalJumpBranchWithTargetBlock => 33,
            Stat::ConditionalJumpBranch => 34,
            Stat::ConditionalJumpExit => 35,
            Stat::DispatcherLarge => 36,
            Stat::DispatcherSmall => 37,
            Stat::Loop => 38,
            Stat::LoopSafety => 39,
        };
        base.wrapping_add(8 * n)
    }
}

} // verus!
