//! Code that evaluates the condition of a jump, a move or a loop from the instruction that
//! last defined the flags, or from the lazy flag state where that is not known.
use vstd::prelude::*;
use crate::codegen_reg::{gen_get_reg16, gen_get_reg32, gen_profiler_stat_increment};
use crate::cpu_state::{
    Stat, CX, ECX, FLAG_CARRY, FLAG_OVERFLOW, FLAG_SIGN, FLAG_ZERO, OPSIZE_16, OPSIZE_32, OPSIZE_8,
};
use crate::jit_context::{
    Ctx, Instruction, InstructionOperand, InstructionOperandDest, JitContext,
};
use crate::wasm::{Bin, Emit, FlagLocals, FlagSlot, Op, Sig, Un, WasmBuilder, WasmLocal, E};

verus! {

broadcast use {crate::wasm::group_code, crate::codegen_reg::group_events};

/// Whether a condition is asked for as it is or inverted.
#[derive(Clone, Copy, Debug, PartialEq, Eq, Structural)]
pub enum ConditionNegate {
    True,
    False,
}

impl ConditionNegate {
    pub open spec fn on(self) -> bool {
        self is True
    }

    fn is_on(self) -> (r: bool)
        ensures
            r == self.on(),
    {
        match self {
            ConditionNegate::True => true,
            ConditionNegate::False => false,
        }
    }
}

/// The sign bit of a 32-bit word.
pub const SIGN_BIT_32: i32 = -2147483648;

/// The sign bit of an operand of the size.
pub open spec fn sign_bit(opsize: i32) -> i32 {
    if opsize == OPSIZE_32 {
        SIGN_BIT_32
    } else if opsize == OPSIZE_16 {
        0x8000
    } else {
        0x80
    }
}

fn sign_bit_of(opsize: i32) -> (r: i32)
    ensures
        r == sign_bit(opsize),
{
    if opsize == OPSIZE_32 {
        SIGN_BIT_32
    } else if opsize == OPSIZE_16 {
        0x8000
    } else {
        0x80
    }
}

/// The first relation, or the second where `negate` holds.
pub open spec fn relation(negate: bool, plain: Bin, inverse: Bin) -> Bin {
    if negate {
        inverse
    } else {
        plain
    }
}

fn choose_relation(negate: bool, plain: Bin, inverse: Bin) -> (r: Bin)
    ensures
        r == relation(negate, plain, inverse),
{
    if negate {
        inverse
    } else {
        plain
    }
}

impl InstructionOperandDest {
    /// The local, if the operand is a whole 32-bit register.
    pub open spec fn whole(self, opsize: i32) -> Option<WasmLocal> {
        match self {
            InstructionOperandDest::WasmLocal(l) => if opsize == OPSIZE_32 {
                Some(l)
            } else {
                None
            },
            InstructionOperandDest::Other => None,
        }
    }

    fn whole_local(self, opsize: i32) -> (r: Option<WasmLocal>)
        ensures
            r == self.whole(opsize),
    {
        match self {
            InstructionOperandDest::WasmLocal(l) => if opsize == OPSIZE_32 {
                Some(l)
            } else {
                None
            },
            InstructionOperandDest::Other => None,
        }
    }
}

impl Instruction {
    /// The local that still holds the result of the instruction.
    pub open spec fn result_at(self) -> Option<WasmLocal> {
        match self {
            Instruction::Cmp { dest, source, opsize } => if source
                == InstructionOperand::Immediate(0) {
                dest.whole(opsize)
            } else {
                None
            },
            Instruction::Sub { dest, opsize, .. } => dest.whole(opsize),
            Instruction::Add { dest, opsize, .. } => dest.whole(opsize),
            Instruction::AdcSbb { dest, opsize, .. } => dest.whole(opsize),
            Instruction::NonZeroShift { dest, opsize } => dest.whole(opsize),
            Instruction::Bitwise { dest, opsize } => dest.whole(opsize),
            Instruction::Other => None,
        }
    }

    fn result_local(self) -> (r: Option<WasmLocal>)
        ensures
            r == self.result_at(),
    {
        match self {
            Instruction::Cmp { dest, source, opsize } => if source.is_zero() {
                dest.whole_local(opsize)
            } else {
                None
            },
            Instruction::Sub { dest, opsize, .. } => dest.whole_local(opsize),
            Instruction::Add { dest, opsize, .. } => dest.whole_local(opsize),
            Instruction::AdcSbb { dest, opsize, .. } => dest.whole_local(opsize),
            Instruction::NonZeroShift { dest, opsize } => dest.whole_local(opsize),
            Instruction::Bitwise { dest, opsize } => dest.whole_local(opsize),
            Instruction::Other => None,
        }
    }

    /// The local that still holds the first operand of the instruction.
    pub open spec fn op1_at(self) -> Option<WasmLocal> {
        match self {
            Instruction::Cmp { dest, opsize, .. } => dest.whole(opsize),
            _ => None,
        }
    }

    fn op1_local(self) -> (r: Option<WasmLocal>)
        ensures
            r == self.op1_at(),
    {
        match self {
            Instruction::Cmp { dest, opsize, .. } => dest.whole_local(opsize),
            _ => None,
        }
    }
}

impl E {
    /// The result of the instruction that last defined the flags.
    #[verifier::opaque]
    pub open spec fn last_result(f: Option<FlagLocals>, p: Instruction) -> E {
        match p.result_at() {
            Some(l) => E::L(l.0),
            None => E::flag(f, FlagSlot::LastResult),
        }
    }

    /// The first operand of the instruction that last defined the flags.
    #[verifier::opaque]
    pub open spec fn last_op1(f: Option<FlagLocals>, p: Instruction) -> E {
        match p.op1_at() {
            Some(l) => E::L(l.0),
            None => E::flag(f, FlagSlot::LastOp1),
        }
    }

    /// The second operand of a subtraction, from its first operand and its result.
    pub open spec fn last_op2(f: Option<FlagLocals>, p: Instruction) -> E {
        E::last_op1(f, p).bin(Bin::Sub, E::last_result(f, p))
    }

    /// A flag that is not computed lazily.
    pub open spec fn flag_bit(f: Option<FlagLocals>, bit: i32) -> E {
        E::flag(f, FlagSlot::Flags).and(bit)
    }

    /// Whether a flag is computed lazily.
    pub open spec fn flag_is_lazy(f: Option<FlagLocals>, bit: i32) -> E {
        E::flag(f, FlagSlot::FlagsChanged).and(bit)
    }

    /// The bit of a word that the operand size names.
    pub open spec fn at_opsize(self, f: Option<FlagLocals>) -> E {
        self.bin(Bin::ShrU, E::flag(f, FlagSlot::LastOpSize)).and(1)
    }

    /// An operand without the bits above its size.
    #[verifier::opaque]
    pub open spec fn masked(self, opsize: i32) -> E {
        if opsize == OPSIZE_8 {
            self.and(0xff)
        } else if opsize == OPSIZE_16 {
            self.and(0xffff)
        } else {
            self
        }
    }

    /// An operand with its sign bit in the sign bit of the word.
    #[verifier::opaque]
    pub open spec fn signed(self, opsize: i32) -> E {
        if opsize == OPSIZE_8 {
            self.binc(Bin::Shl, 24)
        } else if opsize == OPSIZE_16 {
            self.binc(Bin::Shl, 16)
        } else {
            self
        }
    }

    /// The zero flag, or its inverse.
    #[verifier::opaque]
    pub open spec fn zf(f: Option<FlagLocals>, p: Instruction, negate: bool) -> E {
        match p {
            Instruction::Cmp { dest, source, opsize } => match (dest.whole(opsize), source) {
                (Some(d), InstructionOperand::WasmLocal(s)) => E::L(d.0).bin(
                    relation(negate, Bin::Eq, Bin::Ne),
                    E::L(s.0),
                ),
                (Some(d), InstructionOperand::Immediate(i)) => if i == 0 {
                    E::L(d.0).eqz_if(!negate)
                } else {
                    E::L(d.0).binc(relation(negate, Bin::Eq, Bin::Ne), i)
                },
                _ => E::last_result(f, p).eqz_if(!negate),
            },
            Instruction::Bitwise { opsize, .. } => (if opsize == OPSIZE_32 {
                E::last_result(f, p)
            } else if opsize == OPSIZE_16 {
                E::flag_low(f, FlagSlot::LastResult, false)
            } else if opsize == OPSIZE_8 {
                E::flag_low(f, FlagSlot::LastResult, true)
            } else {
                E::Top
            }).eqz_if(!negate),
            _ => E::last_result(f, p).eqz_if(!negate),
        }
    }
}

impl E {
    /// The zero flag from the lazy flag state; `t` is a local to use.
    pub open spec fn zf_lazy(f: Option<FlagLocals>, t: usize, negate: bool) -> E {
        E::flag_is_lazy(f, FLAG_ZERO).choose_i32(
            E::flag(f, FlagSlot::LastResult).tee(t).binc(Bin::Xor, -1i32).bin(
                Bin::And,
                E::L(t).binc(Bin::Sub, 1),
            ).at_opsize(f),
            E::flag_bit(f, FLAG_ZERO),
        ).eqz_if(negate)
    }
}

impl Emit {
    /// The zero flag from the lazy flag state.
    #[verifier::opaque]
    pub open spec fn zf_lazy(self, negate: bool) -> Emit {
        let f = self.flag_locals;
        let t = self.next_i32();
        self.take_i32().val(E::zf_lazy(f, t, negate)).give_i32(t)
    }

    /// The zero flag after `p`, or its inverse.
    #[verifier::opaque]
    pub open spec fn zf(self, p: Instruction, negate: bool) -> Emit {
        if p is Other {
            self.profile(Stat::ConditionUnoptimised).zf_lazy(negate)
        } else {
            self.profile(Stat::ConditionOptimised).val(E::zf(self.flag_locals, p, negate))
        }
    }
}

fn gen_get_flags_changed(builder: &mut WasmBuilder)
    ensures
        final(builder)@ == old(builder)@.val(
            E::flag(old(builder)@.flag_locals, FlagSlot::FlagsChanged),
        ),
{
    builder.get_flag_word(FlagSlot::FlagsChanged);
}

fn gen_get_last_op_size(builder: &mut WasmBuilder)
    ensures
        final(builder)@ == old(builder)@.val(
            E::flag(old(builder)@.flag_locals, FlagSlot::LastOpSize),
        ),
{
    builder.get_flag_word(FlagSlot::LastOpSize);
}

fn gen_load_last_result(builder: &mut WasmBuilder)
    ensures
        final(builder)@ == old(builder)@.val(
            E::flag(old(builder)@.flag_locals, FlagSlot::LastResult),
        ),
{
    builder.get_flag_word(FlagSlot::LastResult);
}

/// Pushes the result of the instruction that last defined the flags.
fn gen_get_last_result(builder: &mut WasmBuilder, previous_instruction: Instruction)
    ensures
        final(builder)@ == old(builder)@.val(
            E::last_result(old(builder)@.flag_locals, previous_instruction),
        ),
{
    reveal(E::last_result);
    match previous_instruction.result_local() {
        Some(l) => {
            builder.get_local(l);
        },
        None => {
            gen_load_last_result(builder);
        },
    }
}

/// Pushes the first operand of the instruction that last defined the flags.
fn gen_get_last_op1(builder: &mut WasmBuilder, previous_instruction: Instruction)
    ensures
        final(builder)@ == old(builder)@.val(
            E::last_op1(old(builder)@.flag_locals, previous_instruction),
        ),
{
    reveal(E::last_op1);
    match previous_instruction.op1_local() {
        Some(l) => {
            builder.get_local(l);
        },
        None => {
            builder.get_flag_word(FlagSlot::LastOp1);
        },
    }
}

/// Pushes a flag that is not computed lazily.
fn gen_flag_bit(builder: &mut WasmBuilder, bit: i32)
    ensures
        final(builder)@ == old(builder)@.val(E::flag_bit(old(builder)@.flag_locals, bit)),
{
    builder.get_flag_word(FlagSlot::Flags);
    builder.binc(Bin::And, bit);
}

/// Picks the bit of the word on the stack that the operand size names.
fn gen_at_opsize(builder: &mut WasmBuilder)
    ensures
        final(builder)@ == old(builder)@.val(E::Top.at_opsize(old(builder)@.flag_locals)),
{
    gen_get_last_op_size(builder);
    builder.bin(Bin::ShrU);
    builder.binc(Bin::And, 1);
}

fn gen_zf_lazy(builder: &mut WasmBuilder, negate: bool)
    ensures
        final(builder)@ == old(builder)@.zf_lazy(negate),
{
    reveal(Emit::zf_lazy);
    gen_get_flags_changed(builder);
    builder.binc(Bin::And, FLAG_ZERO);
    builder.if_i32();
    gen_load_last_result(builder);
    let last_result: WasmLocal = builder.tee_new_local();
    builder.binc(Bin::Xor, -1);
    builder.get_local(last_result);
    builder.free_local(last_result);
    builder.binc(Bin::Sub, 1);
    builder.bin(Bin::And);
    gen_at_opsize(builder);
    builder.else_();
    gen_flag_bit(builder, FLAG_ZERO);
    builder.block_end();
    builder.eqz_if(negate);
}

fn gen_zf_fast(builder: &mut WasmBuilder, p: Instruction, negate: bool)
    ensures
        final(builder)@ == old(builder)@.val(E::zf(old(builder)@.flag_locals, p, negate)),
{
    reveal(E::zf);
    match p {
        Instruction::Cmp { dest, source, opsize } => match (dest.whole_local(opsize), source) {
            (Some(d), InstructionOperand::WasmLocal(s)) => {
                builder.get_local(d);
                builder.get_local(s);
                builder.bin(choose_relation(negate, Bin::Eq, Bin::Ne));
            },
            (Some(d), InstructionOperand::Immediate(i)) => {
                builder.get_local(d);
                if i == 0 {
                    builder.eqz_if(!negate);
                } else {
                    builder.binc(choose_relation(negate, Bin::Eq, Bin::Ne), i);
                }
            },
            _ => {
                gen_get_last_result(builder, p);
                builder.eqz_if(!negate);
            },
        },
        Instruction::Bitwise { opsize, .. } => {
            if opsize == OPSIZE_32 {
                gen_get_last_result(builder, p);
            } else if opsize == OPSIZE_16 {
                builder.get_flag_low(FlagSlot::LastResult, false);
            } else if opsize == OPSIZE_8 {
                builder.get_flag_low(FlagSlot::LastResult, true);
            }
            builder.eqz_if(!negate);
        },
        _ => {
            gen_get_last_result(builder, p);
            builder.eqz_if(!negate);
        },
    }
}

fn gen_zf(builder: &mut WasmBuilder, p: Instruction, negate: bool)
    ensures
        final(builder)@ == old(builder)@.zf(p, negate),
{
    reveal(Emit::zf);
    match p {
        Instruction::Other => {
            gen_profiler_stat_increment(builder, Stat::ConditionUnoptimised);
            gen_zf_lazy(builder, negate);
        },
        _ => {
            gen_profiler_stat_increment(builder, Stat::ConditionOptimised);
            gen_zf_fast(builder, p, negate);
        },
    }
}

/// Pushes the zero flag, or its inverse.
pub fn gen_getzf(ctx: &mut JitContext, negate: ConditionNegate)
    ensures
        final(ctx)@ == old(ctx)@.on(
            old(ctx)@.e.zf(old(ctx)@.st.previous_instruction, negate.on()),
        ),
{
    gen_zf(&mut ctx.builder, ctx.st.previous_instruction, negate.is_on());
}

impl E {
    /// The second operand where code generation knows it: a whole register or a constant.
    pub open spec fn known_operand(opsize: i32, source: InstructionOperand) -> Option<E> {
        match source {
            InstructionOperand::WasmLocal(l) => if opsize == OPSIZE_32 {
                Some(E::L(l.0))
            } else {
                None
            },
            InstructionOperand::Immediate(i) => Some(E::C(i)),
            InstructionOperand::Other => None,
        }
    }

    /// The second operand where it is known, else `other`.
    #[verifier::opaque]
    pub open spec fn operand_or(opsize: i32, source: InstructionOperand, other: E) -> E {
        match E::known_operand(opsize, source) {
            Some(e) => e,
            None => other,
        }
    }

    /// The carry of a subtraction, or its inverse: the first operand is below the second. The
    /// result serves as well as the second operand.
    pub open spec fn borrow(
        f: Option<FlagLocals>,
        p: Instruction,
        opsize: i32,
        source: InstructionOperand,
        negate: bool,
    ) -> E {
        E::last_op1(f, p).bin(
            relation(negate, Bin::LtU, Bin::GeU),
            E::operand_or(opsize, source, E::last_result(f, p)),
        )
    }

    /// The carry of an addition, or its inverse: the result is below an operand.
    pub open spec fn carry(
        f: Option<FlagLocals>,
        p: Instruction,
        opsize: i32,
        source: InstructionOperand,
        negate: bool,
    ) -> E {
        E::last_result(f, p).bin(
            relation(negate, Bin::LtU, Bin::GeU),
            E::operand_or(opsize, source, E::last_op1(f, p)),
        )
    }

    /// The sign flag, or its inverse, of an instruction of the operand size.
    pub open spec fn sf(
        f: Option<FlagLocals>,
        p: Instruction,
        opsize: i32,
        negate: bool,
    ) -> E {
        if opsize == OPSIZE_32 {
            E::last_result(f, p).binc(relation(negate, Bin::LtS, Bin::GeS), 0)
        } else {
            E::last_result(f, p).and(sign_bit(opsize)).eqz_if(negate)
        }
    }

    /// The overflow flag of a subtraction.
    pub open spec fn of_sub(f: Option<FlagLocals>, p: Instruction, opsize: i32) -> E {
        E::last_op1(f, p).bin(Bin::Xor, E::last_result(f, p)).bin(
            Bin::And,
            E::last_op1(f, p).bin(Bin::Xor, E::last_op2(f, p)),
        ).and(sign_bit(opsize))
    }

    /// The overflow flag of an addition.
    pub open spec fn of_add(f: Option<FlagLocals>, p: Instruction, opsize: i32) -> E {
        E::last_op1(f, p).bin(Bin::Xor, E::last_result(f, p)).bin(
            Bin::And,
            E::last_result(f, p).bin(
                Bin::Xor,
                E::last_result(f, p).bin(Bin::Sub, E::last_op1(f, p)),
            ),
        ).and(sign_bit(opsize))
    }
}

impl E {
    /// The carry flag from the lazy flag state; `t` is a local to use.
    pub open spec fn cf_lazy(f: Option<FlagLocals>, t: usize, negate: bool) -> E {
        E::flag(f, FlagSlot::FlagsChanged).tee(t).and(FLAG_CARRY).choose_i32(
            E::L(t).binc(Bin::ShrS, 31).keep(t).both(
                E::flag(f, FlagSlot::LastResult).bin(Bin::Xor, E::L(t)).bin(
                    Bin::LtU,
                    E::flag(f, FlagSlot::LastOp1).bin(Bin::Xor, E::L(t)),
                ),
            ),
            E::flag_bit(f, FLAG_CARRY),
        ).eqz_if(negate)
    }

    /// The sign flag from the lazy flag state.
    pub open spec fn sf_lazy(f: Option<FlagLocals>, negate: bool) -> E {
        E::flag_is_lazy(f, FLAG_SIGN).choose_i32(
            E::flag(f, FlagSlot::LastResult).at_opsize(f),
            E::flag_bit(f, FLAG_SIGN),
        ).eqz_if(negate)
    }

    /// The overflow flag from the lazy flag state; three locals to use.
    pub open spec fn of_lazy(
        f: Option<FlagLocals>,
        changed: usize,
        op1: usize,
        result: usize,
    ) -> E {
        E::flag(f, FlagSlot::FlagsChanged).tee(changed).and(FLAG_OVERFLOW).choose_i32(
            E::flag(f, FlagSlot::LastOp1).tee(op1).bin(
                Bin::Xor,
                E::flag(f, FlagSlot::LastResult).tee(result),
            ).bin(
                Bin::And,
                E::L(result).bin(Bin::Sub, E::L(op1)).bin(
                    Bin::Sub,
                    E::flag(f, FlagSlot::FlagsChanged).binc(Bin::ShrU, 31),
                ).bin(Bin::Xor, E::L(result)),
            ).at_opsize(f),
            E::flag_bit(f, FLAG_OVERFLOW),
        )
    }
}

impl Emit {
    /// The carry flag from the lazy flag state. The sign of the word of lazy flags says
    /// whether the instruction was a subtraction.
    #[verifier::opaque]
    pub open spec fn cf_lazy(self, negate: bool) -> Emit {
        let f = self.flag_locals;
        let t = self.next_i32();
        self.take_i32().val(E::cf_lazy(f, t, negate)).give_i32(t)
    }

    /// The carry flag after `p`, or its inverse.
    #[verifier::opaque]
    pub open spec fn cf(self, p: Instruction, negate: bool) -> Emit {
        let f = self.flag_locals;
        match p {
            Instruction::Cmp { source, opsize, .. } => self.profile(Stat::ConditionOptimised).val(
                E::borrow(f, p, opsize, source, negate),
            ),
            Instruction::Sub { source, opsize, is_dec, .. } => if is_dec {
                self.val(E::flag_bit(f, FLAG_CARRY).eqz_if(negate))
            } else {
                self.profile(Stat::ConditionOptimised).val(E::borrow(f, p, opsize, source, negate))
            },
            Instruction::Add { source, opsize, is_inc, .. } => if is_inc {
                self.val(E::flag_bit(f, FLAG_CARRY).eqz_if(negate))
            } else {
                self.val(E::carry(f, p, opsize, source, negate))
            },
            Instruction::Bitwise { .. } => self.profile(Stat::ConditionOptimised).val(
                E::C(
                    if negate {
                        1
                    } else {
                        0
                    },
                ),
            ),
            Instruction::NonZeroShift { .. } => self.profile(Stat::ConditionOptimised).val(
                E::flag_bit(f, FLAG_CARRY).eqz_if(negate),
            ),
            Instruction::AdcSbb { .. } => self.profile(Stat::ConditionOptimised).val(
                E::flag_bit(f, FLAG_CARRY).eqz_if(negate),
            ),
            Instruction::Other => self.profile(Stat::ConditionUnoptimised).cf_lazy(negate),
        }
    }

    /// The sign flag from the lazy flag state.
    pub open spec fn sf_lazy(self, negate: bool) -> Emit {
        let f = self.flag_locals;
        self.val(E::sf_lazy(f, negate))
    }

    /// The sign flag after `p`, or its inverse.
    #[verifier::opaque]
    pub open spec fn sf(self, p: Instruction, negate: bool) -> Emit {
        match p.opsize() {
            Some(opsize) => self.profile(Stat::ConditionOptimised).val(
                E::sf(self.flag_locals, p, opsize, negate),
            ),
            None => self.profile(Stat::ConditionUnoptimised).sf_lazy(negate),
        }
    }

    /// The overflow flag from the lazy flag state.
    #[verifier::opaque]
    pub open spec fn of_lazy(self) -> Emit {
        let f = self.flag_locals;
        let changed = self.next_i32();
        let op1 = self.take_i32().next_i32();
        let result = self.take_i32().take_i32().next_i32();
        self.take_i32().take_i32().take_i32().val(
            E::of_lazy(f, changed, op1, result),
        ).give_i32(op1).give_i32(result).give_i32(changed)
    }

    /// The overflow flag after `p`.
    #[verifier::opaque]
    pub open spec fn of(self, p: Instruction) -> Emit {
        let f = self.flag_locals;
        match p {
            Instruction::Cmp { opsize, .. } => self.profile(Stat::ConditionOptimised).val(
                E::of_sub(f, p, opsize),
            ),
            Instruction::Sub { opsize, .. } => self.profile(Stat::ConditionOptimised).val(
                E::of_sub(f, p, opsize),
            ),
            Instruction::Add { opsize, .. } => self.profile(Stat::ConditionOptimised).val(
                E::of_add(f, p, opsize),
            ),
            Instruction::Bitwise { .. } => self.profile(Stat::ConditionOptimised).val(E::C(0)),
            Instruction::NonZeroShift { .. } => self.profile(Stat::ConditionOptimised).val(
                E::flag_bit(f, FLAG_OVERFLOW),
            ),
            Instruction::AdcSbb { .. } => self.profile(Stat::ConditionOptimised).val(
                E::flag_bit(f, FLAG_OVERFLOW),
            ),
            Instruction::Other => self.profile(Stat::ConditionUnoptimised).of_lazy(),
        }
    }
}

impl Instruction {
    /// The operand size, unless the instruction is not known.
    pub open spec fn opsize(self) -> Option<i32> {
        match self {
            Instruction::Cmp { opsize, .. } => Some(opsize),
            Instruction::Sub { opsize, .. } => Some(opsize),
            Instruction::Add { opsize, .. } => Some(opsize),
            Instruction::AdcSbb { opsize, .. } => Some(opsize),
            Instruction::NonZeroShift { opsize, .. } => Some(opsize),
            Instruction::Bitwise { opsize, .. } => Some(opsize),
            Instruction::Other => None,
        }
    }

    fn operand_size(self) -> (r: Option<i32>)
        ensures
            r == self.opsize(),
    {
        match self {
            Instruction::Cmp { opsize, .. } => Some(opsize),
            Instruction::Sub { opsize, .. } => Some(opsize),
            Instruction::Add { opsize, .. } => Some(opsize),
            Instruction::AdcSbb { opsize, .. } => Some(opsize),
            Instruction::NonZeroShift { opsize, .. } => Some(opsize),
            Instruction::Bitwise { opsize, .. } => Some(opsize),
            Instruction::Other => None,
        }
    }
}

/// Pushes the second operand where it is known.
fn gen_known_operand(
    builder: &mut WasmBuilder,
    opsize: i32,
    source: InstructionOperand,
) -> (known: bool)
    ensures
        match E::known_operand(opsize, source) {
            Some(e) => known && final(builder)@ == old(builder)@.val(e),
            None => !known && final(builder)@ == old(builder)@,
        },
{
    match source {
        InstructionOperand::WasmLocal(l) => {
            if opsize == OPSIZE_32 {
                builder.get_local(l);
                true
            } else {
                false
            }
        },
        InstructionOperand::Immediate(i) => {
            builder.const_i32(i);
            true
        },
        InstructionOperand::Other => false,
    }
}

fn gen_operand_or_result(
    builder: &mut WasmBuilder,
    opsize: i32,
    source: InstructionOperand,
    p: Instruction,
)
    ensures
        final(builder)@ == old(builder)@.val(
            E::operand_or(opsize, source, E::last_result(old(builder)@.flag_locals, p)),
        ),
{
    reveal(E::operand_or);
    if !gen_known_operand(builder, opsize, source) {
        gen_get_last_result(builder, p);
    }
}

fn gen_operand_or_op1(
    builder: &mut WasmBuilder,
    opsize: i32,
    source: InstructionOperand,
    p: Instruction,
)
    ensures
        final(builder)@ == old(builder)@.val(
            E::operand_or(opsize, source, E::last_op1(old(builder)@.flag_locals, p)),
        ),
{
    reveal(E::operand_or);
    if !gen_known_operand(builder, opsize, source) {
        gen_get_last_op1(builder, p);
    }
}

fn gen_borrow(
    builder: &mut WasmBuilder,
    p: Instruction,
    opsize: i32,
    source: InstructionOperand,
    negate: bool,
)
    ensures
        final(builder)@ == old(builder)@.val(
            E::borrow(old(builder)@.flag_locals, p, opsize, source, negate),
        ),
{
    gen_get_last_op1(builder, p);
    gen_operand_or_result(builder, opsize, source, p);
    builder.bin(choose_relation(negate, Bin::LtU, Bin::GeU));
}

fn gen_carry(
    builder: &mut WasmBuilder,
    p: Instruction,
    opsize: i32,
    source: InstructionOperand,
    negate: bool,
)
    ensures
        final(builder)@ == old(builder)@.val(
            E::carry(old(builder)@.flag_locals, p, opsize, source, negate),
        ),
{
    gen_get_last_result(builder, p);
    gen_operand_or_op1(builder, opsize, source, p);
    builder.bin(choose_relation(negate, Bin::LtU, Bin::GeU));
}

fn gen_cf_lazy(builder: &mut WasmBuilder, negate: bool)
    ensures
        final(builder)@ == old(builder)@.cf_lazy(negate),
{
    reveal(Emit::cf_lazy);
    gen_get_flags_changed(builder);
    let flags_changed: WasmLocal = builder.tee_new_local();
    builder.binc(Bin::And, FLAG_CARRY);
    builder.if_i32();
    builder.get_local(flags_changed);
    builder.binc(Bin::ShrS, 31);
    builder.free_local(flags_changed);
    let sub_mask: WasmLocal = builder.set_new_local();
    gen_load_last_result(builder);
    builder.get_local(sub_mask);
    builder.bin(Bin::Xor);
    builder.get_flag_word(FlagSlot::LastOp1);
    builder.get_local(sub_mask);
    builder.bin(Bin::Xor);
    builder.bin(Bin::LtU);
    builder.else_();
    gen_flag_bit(builder, FLAG_CARRY);
    builder.block_end();
    builder.free_local(sub_mask);
    builder.eqz_if(negate);
}

fn gen_flag_bit_negated(builder: &mut WasmBuilder, bit: i32, negate: bool)
    ensures
        final(builder)@ == old(builder)@.val(
            E::flag_bit(old(builder)@.flag_locals, bit).eqz_if(negate),
        ),
{
    gen_flag_bit(builder, bit);
    builder.eqz_if(negate);
}

fn gen_cf(builder: &mut WasmBuilder, p: Instruction, negate: bool)
    ensures
        final(builder)@ == old(builder)@.cf(p, negate),
{
    reveal(Emit::cf);
    match p {
        Instruction::Cmp { source, opsize, .. } => {
            gen_profiler_stat_increment(builder, Stat::ConditionOptimised);
            gen_borrow(builder, p, opsize, source, negate);
        },
        Instruction::Sub { source, opsize, is_dec, .. } => {
            if is_dec {
                gen_flag_bit_negated(builder, FLAG_CARRY, negate);
            } else {
                gen_profiler_stat_increment(builder, Stat::ConditionOptimised);
                gen_borrow(builder, p, opsize, source, negate);
            }
        },
        Instruction::Add { source, opsize, is_inc, .. } => {
            if is_inc {
                gen_flag_bit_negated(builder, FLAG_CARRY, negate);
            } else {
                gen_carry(builder, p, opsize, source, negate);
            }
        },
        Instruction::Bitwise { .. } => {
            gen_profiler_stat_increment(builder, Stat::ConditionOptimised);
            builder.const_i32(
                if negate {
                    1
                } else {
                    0
                },
            );
        },
        Instruction::NonZeroShift { .. } => {
            gen_profiler_stat_increment(builder, Stat::ConditionOptimised);
            gen_flag_bit_negated(builder, FLAG_CARRY, negate);
        },
        Instruction::AdcSbb { .. } => {
            gen_profiler_stat_increment(builder, Stat::ConditionOptimised);
            gen_flag_bit_negated(builder, FLAG_CARRY, negate);
        },
        Instruction::Other => {
            gen_profiler_stat_increment(builder, Stat::ConditionUnoptimised);
            gen_cf_lazy(builder, negate);
        },
    }
}

/// Pushes the carry flag, or its inverse.
pub fn gen_getcf(ctx: &mut JitContext, negate: ConditionNegate)
    ensures
        final(ctx)@ == old(ctx)@.on(
            old(ctx)@.e.cf(old(ctx)@.st.previous_instruction, negate.on()),
        ),
{
    gen_cf(&mut ctx.builder, ctx.st.previous_instruction, negate.is_on());
}

fn gen_sf(builder: &mut WasmBuilder, p: Instruction, negate: bool)
    ensures
        final(builder)@ == old(builder)@.sf(p, negate),
{
    reveal(Emit::sf);
    match p.operand_size() {
        Some(opsize) => {
            gen_profiler_stat_increment(builder, Stat::ConditionOptimised);
            gen_get_last_result(builder, p);
            if opsize == OPSIZE_32 {
                builder.binc(choose_relation(negate, Bin::LtS, Bin::GeS), 0);
            } else {
                builder.binc(Bin::And, sign_bit_of(opsize));
                builder.eqz_if(negate);
            }
        },
        None => {
            gen_profiler_stat_increment(builder, Stat::ConditionUnoptimised);
            gen_get_flags_changed(builder);
            builder.binc(Bin::And, FLAG_SIGN);
            builder.if_i32();
            gen_load_last_result(builder);
            gen_at_opsize(builder);
            builder.else_();
            gen_flag_bit(builder, FLAG_SIGN);
            builder.block_end();
            builder.eqz_if(negate);
        },
    }
}

/// Pushes the sign flag, or its inverse.
pub fn gen_getsf(ctx: &mut JitContext, negate: ConditionNegate)
    ensures
        final(ctx)@ == old(ctx)@.on(
            old(ctx)@.e.sf(old(ctx)@.st.previous_instruction, negate.on()),
        ),
{
    gen_sf(&mut ctx.builder, ctx.st.previous_instruction, negate.is_on());
}

/// Pushes the second operand of a subtraction, from its first operand and its result.
fn gen_last_op2(builder: &mut WasmBuilder, p: Instruction)
    ensures
        final(builder)@ == old(builder)@.val(E::last_op2(old(builder)@.flag_locals, p)),
{
    gen_get_last_op1(builder, p);
    gen_get_last_result(builder, p);
    builder.bin(Bin::Sub);
}

fn gen_of_sub(builder: &mut WasmBuilder, p: Instruction, opsize: i32)
    ensures
        final(builder)@ == old(builder)@.val(E::of_sub(old(builder)@.flag_locals, p, opsize)),
{
    gen_get_last_op1(builder, p);
    gen_get_last_result(builder, p);
    builder.bin(Bin::Xor);
    gen_get_last_op1(builder, p);
    gen_last_op2(builder, p);
    builder.bin(Bin::Xor);
    builder.bin(Bin::And);
    builder.binc(Bin::And, sign_bit_of(opsize));
}

fn gen_of_add(builder: &mut WasmBuilder, p: Instruction, opsize: i32)
    ensures
        final(builder)@ == old(builder)@.val(E::of_add(old(builder)@.flag_locals, p, opsize)),
{
    gen_get_last_op1(builder, p);
    gen_get_last_result(builder, p);
    builder.bin(Bin::Xor);
    gen_get_last_result(builder, p);
    gen_get_last_result(builder, p);
    gen_get_last_op1(builder, p);
    builder.bin(Bin::Sub);
    builder.bin(Bin::Xor);
    builder.bin(Bin::And);
    builder.binc(Bin::And, sign_bit_of(opsize));
}

fn gen_of_lazy(builder: &mut WasmBuilder)
    ensures
        final(builder)@ == old(builder)@.of_lazy(),
{
    reveal(Emit::of_lazy);
    gen_get_flags_changed(builder);
    let flags_changed: WasmLocal = builder.tee_new_local();
    builder.binc(Bin::And, FLAG_OVERFLOW);
    builder.if_i32();
    builder.get_flag_word(FlagSlot::LastOp1);
    let last_op1: WasmLocal = builder.tee_new_local();
    gen_load_last_result(builder);
    let last_result: WasmLocal = builder.tee_new_local();
    builder.bin(Bin::Xor);
    builder.get_local(last_result);
    builder.get_local(last_op1);
    builder.bin(Bin::Sub);
    gen_get_flags_changed(builder);
    builder.binc(Bin::ShrU, 31);
    builder.bin(Bin::Sub);
    builder.get_local(last_result);
    builder.bin(Bin::Xor);
    builder.bin(Bin::And);
    gen_at_opsize(builder);
    builder.free_local(last_op1);
    builder.free_local(last_result);
    builder.else_();
    gen_flag_bit(builder, FLAG_OVERFLOW);
    builder.block_end();
    builder.free_local(flags_changed);
}

fn gen_of(builder: &mut WasmBuilder, p: Instruction)
    ensures
        final(builder)@ == old(builder)@.of(p),
{
    reveal(Emit::of);
    if let Instruction::Other = p {
        gen_profiler_stat_increment(builder, Stat::ConditionUnoptimised);
        gen_of_lazy(builder);
        return;
    }
    gen_profiler_stat_increment(builder, Stat::ConditionOptimised);
    match p {
        Instruction::Cmp { opsize, .. } => {
            gen_of_sub(builder, p, opsize);
        },
        Instruction::Sub { opsize, .. } => {
            gen_of_sub(builder, p, opsize);
        },
        Instruction::Add { opsize, .. } => {
            gen_of_add(builder, p, opsize);
        },
        Instruction::Bitwise { .. } => {
            builder.const_i32(0);
        },
        _ => {
            gen_flag_bit(builder, FLAG_OVERFLOW);
        },
    }
}

/// Pushes the overflow flag.
pub fn gen_getof(ctx: &mut JitContext)
    ensures
        final(ctx)@ == old(ctx)@.on(old(ctx)@.e.of(old(ctx)@.st.previous_instruction)),
{
    gen_of(&mut ctx.builder, ctx.st.previous_instruction);
}

impl E {
    /// The first operand of a comparison, without the bits above its size.
    #[verifier::opaque]
    pub open spec fn unsigned_left(
        f: Option<FlagLocals>,
        p: Instruction,
        dest: InstructionOperandDest,
        opsize: i32,
    ) -> E {
        match dest {
            InstructionOperandDest::WasmLocal(l) => E::L(l.0).masked(opsize),
            InstructionOperandDest::Other => E::last_op1(f, p),
        }
    }

    /// The second operand of a comparison, without the bits above its size.
    #[verifier::opaque]
    pub open spec fn unsigned_right(
        f: Option<FlagLocals>,
        p: Instruction,
        source: InstructionOperand,
        opsize: i32,
    ) -> E {
        match source {
            InstructionOperand::WasmLocal(l) => E::L(l.0).masked(opsize),
            InstructionOperand::Immediate(i) => E::C(i),
            InstructionOperand::Other => E::last_op2(f, p).masked(opsize),
        }
    }

    /// The first operand of a comparison, with its sign in the sign bit of the word.
    #[verifier::opaque]
    pub open spec fn signed_left(
        f: Option<FlagLocals>,
        p: Instruction,
        dest: InstructionOperandDest,
        opsize: i32,
    ) -> E {
        match dest {
            InstructionOperandDest::WasmLocal(l) => E::L(l.0).signed(opsize),
            InstructionOperandDest::Other => E::last_op1(f, p).signed(opsize),
        }
    }

    /// The second operand of a comparison, with its sign in the sign bit of the word.
    #[verifier::opaque]
    pub open spec fn signed_right(
        f: Option<FlagLocals>,
        p: Instruction,
        source: InstructionOperand,
        opsize: i32,
    ) -> E {
        match source {
            InstructionOperand::WasmLocal(l) => E::L(l.0).signed(opsize),
            InstructionOperand::Immediate(i) => E::C(i).signed(opsize),
            InstructionOperand::Other => E::last_op2(f, p).signed(opsize),
        }
    }

    /// The second operand of a subtraction, with its sign in the sign bit of the word; a
    /// constant is shifted right away.
    #[verifier::opaque]
    pub open spec fn signed_subtrahend(
        f: Option<FlagLocals>,
        p: Instruction,
        source: InstructionOperand,
        opsize: i32,
    ) -> E {
        match E::known_operand(opsize, source) {
            Some(E::C(i)) => E::C(shifted_constant(i, opsize)),
            Some(e) => e,
            None => E::last_op2(f, p).signed(opsize),
        }
    }

    /// A comparison of the operands that `p` left, as signed numbers. `p` compares or
    /// subtracts.
    pub open spec fn compare_signed(f: Option<FlagLocals>, p: Instruction, relation: Bin) -> E {
        match p {
            Instruction::Cmp { dest, source, opsize } => E::signed_left(f, p, dest, opsize).bin(
                relation,
                E::signed_right(f, p, source, opsize),
            ),
            Instruction::Sub { source, opsize, .. } => E::last_op1(f, p).signed(opsize).bin(
                relation,
                E::signed_subtrahend(f, p, source, opsize),
            ),
            _ => E::Top,
        }
    }
}

/// A constant with its sign in the sign bit of the word.
pub open spec fn shifted_constant(i: i32, opsize: i32) -> i32 {
    if opsize == OPSIZE_32 {
        i
    } else if opsize == OPSIZE_16 {
        i << 16
    } else {
        i << 24
    }
}

impl Emit {
    /// The carry or the zero flag, or neither.
    pub open spec fn cf_or_zf(self, p: Instruction, negate: bool) -> Emit {
        self.cf(p, false).zf(p, false).op(Op::Bin(Bin::Or)).val(E::Top.eqz_if(negate))
    }

    /// Below or equal after `p`, or its inverse.
    #[verifier::opaque]
    pub open spec fn be(self, p: Instruction, negate: bool) -> Emit {
        let f = self.flag_locals;
        let fast = self.profile(Stat::ConditionOptimised);
        match p {
            Instruction::Cmp { dest, source, opsize } => fast.val(
                E::unsigned_left(f, p, dest, opsize).bin(
                    relation(negate, Bin::LeU, Bin::GtU),
                    E::unsigned_right(f, p, source, opsize),
                ),
            ),
            Instruction::Sub { source, opsize, is_dec, .. } => if is_dec {
                fast.cf_or_zf(p, negate)
            } else {
                fast.val(
                    E::last_op1(f, p).bin(
                        relation(negate, Bin::LeU, Bin::GtU),
                        E::operand_or(opsize, source, E::last_op2(f, p).masked(opsize)),
                    ),
                )
            },
            Instruction::Bitwise { .. } => fast.zf(p, negate),
            Instruction::Add { .. } => fast.cf_or_zf(p, negate),
            _ => self.profile(Stat::ConditionUnoptimised).cf_or_zf(p, negate),
        }
    }

    /// The sign flag differs from the overflow flag, or not.
    pub open spec fn sf_is_not_of(self, p: Instruction, negate: bool) -> Emit {
        self.sf(p, false).val(E::Top.eqz()).of(p).val(E::Top.eqz()).op(Op::Bin(Bin::Xor)).val(
            E::Top.eqz_if(negate),
        )
    }

    /// The condition has no fast path after `p`.
    pub open spec fn unoptimised(self, p: Instruction, after_add: Stat) -> Emit {
        if p is Add {
            self.profile(Stat::ConditionUnoptimised).profile(after_add)
        } else {
            self.profile(Stat::ConditionUnoptimised)
        }
    }

    /// Less after `p`, or its inverse.
    #[verifier::opaque]
    pub open spec fn less(self, p: Instruction, negate: bool) -> Emit {
        let fast = self.profile(Stat::ConditionOptimised);
        if p is Cmp || p is Sub {
            fast.val(
                E::compare_signed(self.flag_locals, p, relation(negate, Bin::LtS, Bin::GeS)),
            )
        } else if p is Bitwise {
            fast.sf(p, negate)
        } else {
            self.unoptimised(p, Stat::ConditionUnoptimisedUnhandledL).sf_is_not_of(p, negate)
        }
    }

    /// Less or the zero flag, or neither.
    pub open spec fn less_or_zf(self, p: Instruction, negate: bool) -> Emit {
        self.less(p, false).zf(p, false).op(Op::Bin(Bin::Or)).val(E::Top.eqz_if(negate))
    }

    /// Less or equal after `p`, or its inverse.
    #[verifier::opaque]
    pub open spec fn less_equal(self, p: Instruction, negate: bool) -> Emit {
        let fast = self.profile(Stat::ConditionOptimised);
        if p is Cmp || p is Sub {
            fast.val(
                E::compare_signed(self.flag_locals, p, relation(negate, Bin::LeS, Bin::GtS)),
            )
        } else if p is Bitwise {
            fast.less_or_zf(p, negate)
        } else {
            self.unoptimised(p, Stat::ConditionUnoptimisedUnhandledLe).less_or_zf(p, negate)
        }
    }

    /// A helper tells whether the parity flag is set, or clear.
    pub open spec fn parity(self, helper: &'static str) -> Emit {
        self.profile(Stat::ConditionUnoptimised).profile(Stat::ConditionUnoptimisedPf).op(
            Op::Call(helper, Sig::Fn0Ret),
        )
    }
}

impl Ctx {
    /// The counter of a loop, in the width of addresses.
    pub open spec fn loop_counter(self, is_asize_32: bool) -> E {
        if is_asize_32 {
            self.reg32(ECX as int)
        } else {
            self.reg16(CX as int)
        }
    }

    /// The loop counter is not zero and the zero flag is clear.
    #[verifier::opaque]
    pub open spec fn loopnz(self, is_asize_32: bool) -> Ctx {
        self.on(
            self.e.val(self.loop_counter(is_asize_32)).val(E::Top.eqz()).zf(
                self.st.previous_instruction,
                false,
            ).op(Op::Bin(Bin::Or)).val(E::Top.eqz()),
        )
    }

    /// The loop counter is not zero and the zero flag is set.
    #[verifier::opaque]
    pub open spec fn loopz(self, is_asize_32: bool) -> Ctx {
        self.on(
            self.e.val(self.loop_counter(is_asize_32)).val(E::Top.eqz()).zf(
                self.st.previous_instruction,
                false,
            ).val(E::Top.eqz()).op(Op::Bin(Bin::Or)).val(E::Top.eqz()),
        )
    }

    /// The condition that the low four bits of an opcode name.
    #[verifier::opaque]
    pub open spec fn flag_condition(self, number: u8) -> Ctx {
        let p = self.st.previous_instruction;
        let e = self.e;
        if number == 0x0 {
            self.on(e.of(p))
        } else if number == 0x1 {
            self.on(e.of(p).val(E::Top.eqz()))
        } else if number == 0x2 {
            self.on(e.cf(p, false))
        } else if number == 0x3 {
            self.on(e.cf(p, true))
        } else if number == 0x4 {
            self.on(e.zf(p, false))
        } else if number == 0x5 {
            self.on(e.zf(p, true))
        } else if number == 0x6 {
            self.on(e.be(p, false))
        } else if number == 0x7 {
            self.on(e.be(p, true))
        } else if number == 0x8 {
            self.on(e.sf(p, false))
        } else if number == 0x9 {
            self.on(e.sf(p, true))
        } else if number == 0xA {
            self.on(e.parity("test_p"))
        } else if number == 0xB {
            self.on(e.parity("test_np"))
        } else if number == 0xC {
            self.on(e.less(p, false))
        } else if number == 0xD {
            self.on(e.less(p, true))
        } else if number == 0xE {
            self.on(e.less_equal(p, false))
        } else {
            self.on(e.less_equal(p, true))
        }
    }

    /// The condition of an opcode: a short or near conditional jump, a conditional set or move,
    /// or one of the loop instructions. Other opcodes have none.
    #[verifier::opaque]
    pub open spec fn condition(self, condition: u8) -> Ctx {
        let asize_32 = self.st.cpu.asize_32;
        if is_flag_condition(condition) {
            self.flag_condition(condition & 0xF)
        } else if condition == 0xE0 {
            self.loopnz(asize_32)
        } else if condition == 0xE1 {
            self.loopz(asize_32)
        } else if condition == 0xE2 {
            self.val(self.loop_counter(asize_32))
        } else if condition == 0xE3 {
            self.val(self.loop_counter(asize_32).eqz())
        } else {
            self
        }
    }
}

/// Opcodes whose low four bits name a condition on the flags.
pub open spec fn is_flag_condition(condition: u8) -> bool {
    condition & 0xF0 == 0x00 || condition & 0xF0 == 0x70 || condition & 0xF0 == 0x80
}

/// Removes the bits above the operand size from the value on the stack.
fn gen_masked(builder: &mut WasmBuilder, opsize: i32, Ghost(operand): Ghost<E>, Ghost(from): Ghost<Emit>)
    requires
        old(builder)@ == from.val(operand),
    ensures
        final(builder)@ == from.val(operand.masked(opsize)),
{
    reveal(E::masked);
    if opsize == OPSIZE_8 {
        builder.binc(Bin::And, 0xff);
    } else if opsize == OPSIZE_16 {
        builder.binc(Bin::And, 0xffff);
    }
}

/// Shifts the sign of the value on the stack to the sign bit of the word.
fn gen_signed(builder: &mut WasmBuilder, opsize: i32, Ghost(operand): Ghost<E>, Ghost(from): Ghost<Emit>)
    requires
        old(builder)@ == from.val(operand),
    ensures
        final(builder)@ == from.val(operand.signed(opsize)),
{
    reveal(E::signed);
    if opsize == OPSIZE_8 {
        builder.binc(Bin::Shl, 24);
    } else if opsize == OPSIZE_16 {
        builder.binc(Bin::Shl, 16);
    }
}

fn gen_unsigned_left(
    builder: &mut WasmBuilder,
    p: Instruction,
    dest: InstructionOperandDest,
    opsize: i32,
)
    ensures
        final(builder)@ == old(builder)@.val(
            E::unsigned_left(old(builder)@.flag_locals, p, dest, opsize),
        ),
{
    reveal(E::unsigned_left);
    match dest {
        InstructionOperandDest::WasmLocal(l) => {
            builder.get_local(l);
            gen_masked(builder, opsize, Ghost(E::L(l.0)), Ghost(old(builder)@));
        },
        InstructionOperandDest::Other => {
            gen_get_last_op1(builder, p);
        },
    }
}

fn gen_masked_op2(builder: &mut WasmBuilder, p: Instruction, opsize: i32)
    ensures
        final(builder)@ == old(builder)@.val(
            E::last_op2(old(builder)@.flag_locals, p).masked(opsize),
        ),
{
    gen_last_op2(builder, p);
    gen_masked(
        builder,
        opsize,
        Ghost(E::last_op2(old(builder)@.flag_locals, p)),
        Ghost(old(builder)@),
    );
}

fn gen_unsigned_right(
    builder: &mut WasmBuilder,
    p: Instruction,
    source: InstructionOperand,
    opsize: i32,
)
    ensures
        final(builder)@ == old(builder)@.val(
            E::unsigned_right(old(builder)@.flag_locals, p, source, opsize),
        ),
{
    reveal(E::unsigned_right);
    match source {
        InstructionOperand::WasmLocal(l) => {
            builder.get_local(l);
            gen_masked(builder, opsize, Ghost(E::L(l.0)), Ghost(old(builder)@));
        },
        InstructionOperand::Immediate(i) => {
            builder.const_i32(i);
        },
        InstructionOperand::Other => {
            gen_masked_op2(builder, p, opsize);
        },
    }
}

fn gen_subtrahend(
    builder: &mut WasmBuilder,
    p: Instruction,
    source: InstructionOperand,
    opsize: i32,
)
    ensures
        final(builder)@ == old(builder)@.val(
            E::operand_or(
                opsize,
                source,
                E::last_op2(old(builder)@.flag_locals, p).masked(opsize),
            ),
        ),
{
    reveal(E::operand_or);
    if !gen_known_operand(builder, opsize, source) {
        gen_masked_op2(builder, p, opsize);
    }
}

fn gen_cf_or_zf(builder: &mut WasmBuilder, p: Instruction, negate: bool)
    ensures
        final(builder)@ == old(builder)@.cf_or_zf(p, negate),
{
    gen_cf(builder, p, false);
    gen_zf(builder, p, false);
    builder.bin(Bin::Or);
    builder.eqz_if(negate);
}

/// Pushes whether the last operands were below or equal, or the inverse.
pub fn gen_test_be(ctx: &mut JitContext, negate: ConditionNegate)
    ensures
        final(ctx)@ == old(ctx)@.on(
            old(ctx)@.e.be(old(ctx)@.st.previous_instruction, negate.on()),
        ),
{
    gen_be(&mut ctx.builder, ctx.st.previous_instruction, negate.is_on());
}

fn gen_be(builder: &mut WasmBuilder, p: Instruction, negate: bool)
    ensures
        final(builder)@ == old(builder)@.be(p, negate),
{
    reveal(Emit::be);
    match p {
        Instruction::Cmp { dest, source, opsize } => {
            gen_profiler_stat_increment(builder, Stat::ConditionOptimised);
            gen_unsigned_left(builder, p, dest, opsize);
            gen_unsigned_right(builder, p, source, opsize);
            builder.bin(choose_relation(negate, Bin::LeU, Bin::GtU));
        },
        Instruction::Sub { source, opsize, is_dec, .. } => {
            gen_profiler_stat_increment(builder, Stat::ConditionOptimised);
            if is_dec {
                gen_cf_or_zf(builder, p, negate);
            } else {
                gen_get_last_op1(builder, p);
                gen_subtrahend(builder, p, source, opsize);
                builder.bin(choose_relation(negate, Bin::LeU, Bin::GtU));
            }
        },
        Instruction::Bitwise { .. } => {
            gen_profiler_stat_increment(builder, Stat::ConditionOptimised);
            gen_zf(builder, p, negate);
        },
        Instruction::Add { .. } => {
            gen_profiler_stat_increment(builder, Stat::ConditionOptimised);
            gen_cf_or_zf(builder, p, negate);
        },
        _ => {
            gen_profiler_stat_increment(builder, Stat::ConditionUnoptimised);
            gen_cf_or_zf(builder, p, negate);
        },
    }
}

fn gen_signed_left(
    builder: &mut WasmBuilder,
    p: Instruction,
    dest: InstructionOperandDest,
    opsize: i32,
)
    ensures
        final(builder)@ == old(builder)@.val(
            E::signed_left(old(builder)@.flag_locals, p, dest, opsize),
        ),
{
    reveal(E::signed_left);
    match dest {
        InstructionOperandDest::WasmLocal(l) => {
            builder.get_local(l);
            gen_signed(builder, opsize, Ghost(E::L(l.0)), Ghost(old(builder)@));
        },
        InstructionOperandDest::Other => {
            gen_signed_op1(builder, p, opsize);
        },
    }
}

fn gen_signed_op1(builder: &mut WasmBuilder, p: Instruction, opsize: i32)
    ensures
        final(builder)@ == old(builder)@.val(
            E::last_op1(old(builder)@.flag_locals, p).signed(opsize),
        ),
{
    gen_get_last_op1(builder, p);
    gen_signed(
        builder,
        opsize,
        Ghost(E::last_op1(old(builder)@.flag_locals, p)),
        Ghost(old(builder)@),
    );
}

fn gen_signed_op2(builder: &mut WasmBuilder, p: Instruction, opsize: i32)
    ensures
        final(builder)@ == old(builder)@.val(
            E::last_op2(old(builder)@.flag_locals, p).signed(opsize),
        ),
{
    gen_last_op2(builder, p);
    gen_signed(
        builder,
        opsize,
        Ghost(E::last_op2(old(builder)@.flag_locals, p)),
        Ghost(old(builder)@),
    );
}

fn gen_signed_right(
    builder: &mut WasmBuilder,
    p: Instruction,
    source: InstructionOperand,
    opsize: i32,
)
    ensures
        final(builder)@ == old(builder)@.val(
            E::signed_right(old(builder)@.flag_locals, p, source, opsize),
        ),
{
    reveal(E::signed_right);
    match source {
        InstructionOperand::WasmLocal(l) => {
            builder.get_local(l);
            gen_signed(builder, opsize, Ghost(E::L(l.0)), Ghost(old(builder)@));
        },
        InstructionOperand::Immediate(i) => {
            builder.const_i32(i);
            gen_signed(builder, opsize, Ghost(E::C(i)), Ghost(old(builder)@));
        },
        InstructionOperand::Other => {
            gen_signed_op2(builder, p, opsize);
        },
    }
}

fn shift_constant(i: i32, opsize: i32) -> (r: i32)
    ensures
        r == shifted_constant(i, opsize),
{
    if opsize == OPSIZE_32 {
        i
    } else if opsize == OPSIZE_16 {
        i << 16
    } else {
        i << 24
    }
}

fn gen_signed_subtrahend(
    builder: &mut WasmBuilder,
    p: Instruction,
    source: InstructionOperand,
    opsize: i32,
)
    ensures
        final(builder)@ == old(builder)@.val(
            E::signed_subtrahend(old(builder)@.flag_locals, p, source, opsize),
        ),
{
    reveal(E::signed_subtrahend);
    if let InstructionOperand::Immediate(i) = source {
        builder.const_i32(shift_constant(i, opsize));
    } else if !gen_known_operand(builder, opsize, source) {
        gen_signed_op2(builder, p, opsize);
    }
}

/// Compares the operands of the last comparison or subtraction as signed numbers.
fn gen_compare_signed(builder: &mut WasmBuilder, p: Instruction, relation: Bin)
    requires
        p is Cmp || p is Sub,
    ensures
        final(builder)@ == old(builder)@.val(
            E::compare_signed(old(builder)@.flag_locals, p, relation),
        ),
{
    match p {
        Instruction::Cmp { dest, source, opsize } => {
            gen_signed_left(builder, p, dest, opsize);
            gen_signed_right(builder, p, source, opsize);
            builder.bin(relation);
        },
        Instruction::Sub { source, opsize, .. } => {
            gen_signed_op1(builder, p, opsize);
            gen_signed_subtrahend(builder, p, source, opsize);
            builder.bin(relation);
        },
        _ => {},
    }
}

fn gen_unoptimised(builder: &mut WasmBuilder, p: Instruction, after_add: Stat)
    ensures
        final(builder)@ == old(builder)@.unoptimised(p, after_add),
{
    gen_profiler_stat_increment(builder, Stat::ConditionUnoptimised);
    if let Instruction::Add { .. } = p {
        gen_profiler_stat_increment(builder, after_add);
    }
}

fn gen_sf_is_not_of(builder: &mut WasmBuilder, p: Instruction, negate: bool)
    ensures
        final(builder)@ == old(builder)@.sf_is_not_of(p, negate),
{
    gen_sf(builder, p, false);
    builder.un(Un::Eqz);
    gen_of(builder, p);
    builder.un(Un::Eqz);
    builder.bin(Bin::Xor);
    builder.eqz_if(negate);
}

fn gen_less(builder: &mut WasmBuilder, p: Instruction, negate: bool)
    ensures
        final(builder)@ == old(builder)@.less(p, negate),
{
    reveal(Emit::less);
    match p {
        Instruction::Cmp { .. } => {
            gen_profiler_stat_increment(builder, Stat::ConditionOptimised);
            gen_compare_signed(builder, p, choose_relation(negate, Bin::LtS, Bin::GeS));
        },
        Instruction::Sub { .. } => {
            gen_profiler_stat_increment(builder, Stat::ConditionOptimised);
            gen_compare_signed(builder, p, choose_relation(negate, Bin::LtS, Bin::GeS));
        },
        Instruction::Bitwise { .. } => {
            gen_profiler_stat_increment(builder, Stat::ConditionOptimised);
            gen_sf(builder, p, negate);
        },
        _ => {
            gen_unoptimised(builder, p, Stat::ConditionUnoptimisedUnhandledL);
            gen_sf_is_not_of(builder, p, negate);
        },
    }
}

/// Pushes whether the first of the last operands was less, or the inverse.
pub fn gen_test_l(ctx: &mut JitContext, negate: ConditionNegate)
    ensures
        final(ctx)@ == old(ctx)@.on(
            old(ctx)@.e.less(old(ctx)@.st.previous_instruction, negate.on()),
        ),
{
    gen_less(&mut ctx.builder, ctx.st.previous_instruction, negate.is_on());
}

fn gen_less_or_zf(builder: &mut WasmBuilder, p: Instruction, negate: bool)
    ensures
        final(builder)@ == old(builder)@.less_or_zf(p, negate),
{
    gen_less(builder, p, false);
    gen_zf(builder, p, false);
    builder.bin(Bin::Or);
    builder.eqz_if(negate);
}

fn gen_less_equal(builder: &mut WasmBuilder, p: Instruction, negate: bool)
    ensures
        final(builder)@ == old(builder)@.less_equal(p, negate),
{
    reveal(Emit::less_equal);
    match p {
        Instruction::Cmp { .. } => {
            gen_profiler_stat_increment(builder, Stat::ConditionOptimised);
            gen_compare_signed(builder, p, choose_relation(negate, Bin::LeS, Bin::GtS));
        },
        Instruction::Sub { .. } => {
            gen_profiler_stat_increment(builder, Stat::ConditionOptimised);
            gen_compare_signed(builder, p, choose_relation(negate, Bin::LeS, Bin::GtS));
        },
        Instruction::Bitwise { .. } => {
            gen_profiler_stat_increment(builder, Stat::ConditionOptimised);
            gen_less_or_zf(builder, p, negate);
        },
        _ => {
            gen_unoptimised(builder, p, Stat::ConditionUnoptimisedUnhandledLe);
            gen_less_or_zf(builder, p, negate);
        },
    }
}

/// Pushes whether the first of the last operands was less or equal, or the inverse.
pub fn gen_test_le(ctx: &mut JitContext, negate: ConditionNegate)
    ensures
        final(ctx)@ == old(ctx)@.on(
            old(ctx)@.e.less_equal(old(ctx)@.st.previous_instruction, negate.on()),
        ),
{
    gen_less_equal(&mut ctx.builder, ctx.st.previous_instruction, negate.is_on());
}

/// Pushes whether the loop counter is not zero and the zero flag is clear.
pub fn gen_test_loopnz(ctx: &mut JitContext, is_asize_32: bool)
    requires
        old(ctx)@.wf(),
    ensures
        final(ctx)@ == old(ctx)@.loopnz(is_asize_32),
{
    reveal(Ctx::loopnz);
    gen_test_loop(ctx, is_asize_32);
    ctx.builder.un(Un::Eqz);
    gen_getzf(ctx, ConditionNegate::False);
    ctx.builder.bin(Bin::Or);
    ctx.builder.un(Un::Eqz);
}

/// Pushes whether the loop counter is not zero and the zero flag is set.
pub fn gen_test_loopz(ctx: &mut JitContext, is_asize_32: bool)
    requires
        old(ctx)@.wf(),
    ensures
        final(ctx)@ == old(ctx)@.loopz(is_asize_32),
{
    reveal(Ctx::loopz);
    gen_test_loop(ctx, is_asize_32);
    ctx.builder.un(Un::Eqz);
    gen_getzf(ctx, ConditionNegate::False);
    ctx.builder.un(Un::Eqz);
    ctx.builder.bin(Bin::Or);
    ctx.builder.un(Un::Eqz);
}

/// Pushes the loop counter.
pub fn gen_test_loop(ctx: &mut JitContext, is_asize_32: bool)
    requires
        old(ctx)@.wf(),
    ensures
        final(ctx)@ == old(ctx)@.val(old(ctx)@.loop_counter(is_asize_32)),
{
    if is_asize_32 {
        gen_get_reg32(ctx, ECX);
    } else {
        gen_get_reg16(ctx, CX);
    }
}

/// Pushes whether the loop counter is zero.
pub fn gen_test_jcxz(ctx: &mut JitContext, is_asize_32: bool)
    requires
        old(ctx)@.wf(),
    ensures
        final(ctx)@ == old(ctx)@.val(old(ctx)@.loop_counter(is_asize_32).eqz()),
{
    gen_test_loop(ctx, is_asize_32);
    ctx.builder.un(Un::Eqz);
}

fn gen_parity(builder: &mut WasmBuilder, helper: &'static str)
    ensures
        final(builder)@ == old(builder)@.parity(helper),
{
    gen_profiler_stat_increment(builder, Stat::ConditionUnoptimised);
    gen_profiler_stat_increment(builder, Stat::ConditionUnoptimisedPf);
    builder.call(helper, Sig::Fn0Ret);
}

fn gen_flag_condition(ctx: &mut JitContext, number: u8)
    ensures
        final(ctx)@ == old(ctx)@.flag_condition(number),
{
    reveal(Ctx::flag_condition);
    if number == 0x0 {
        gen_getof(ctx);
    } else if number == 0x1 {
        gen_getof(ctx);
        ctx.builder.un(Un::Eqz);
    } else if number == 0x2 {
        gen_getcf(ctx, ConditionNegate::False);
    } else if number == 0x3 {
        gen_getcf(ctx, ConditionNegate::True);
    } else if number == 0x4 {
        gen_getzf(ctx, ConditionNegate::False);
    } else if number == 0x5 {
        gen_getzf(ctx, ConditionNegate::True);
    } else if number == 0x6 {
        gen_test_be(ctx, ConditionNegate::False);
    } else if number == 0x7 {
        gen_test_be(ctx, ConditionNegate::True);
    } else if number == 0x8 {
        gen_getsf(ctx, ConditionNegate::False);
    } else if number == 0x9 {
        gen_getsf(ctx, ConditionNegate::True);
    } else if number == 0xA {
        gen_parity(&mut ctx.builder, "test_p");
    } else if number == 0xB {
        gen_parity(&mut ctx.builder, "test_np");
    } else if number == 0xC {
        gen_test_l(ctx, ConditionNegate::False);
    } else if number == 0xD {
        gen_test_l(ctx, ConditionNegate::True);
    } else if number == 0xE {
        gen_test_le(ctx, ConditionNegate::False);
    } else {
        gen_test_le(ctx, ConditionNegate::True);
    }
}

/// Pushes the condition of an opcode; nothing for an opcode without one.
pub fn gen_condition_fn(ctx: &mut JitContext, condition: u8)
    requires
        old(ctx)@.wf(),
    ensures
        final(ctx)@ == old(ctx)@.condition(condition),
{
    reveal(Ctx::condition);
    let asize_32: bool = ctx.st.cpu.asize_32;
    if condition & 0xF0 == 0x00 || condition & 0xF0 == 0x70 || condition & 0xF0 == 0x80 {
        gen_flag_condition(ctx, condition & 0xF);
    } else if condition == 0xE0 {
        gen_test_loopnz(ctx, asize_32);
    } else if condition == 0xE1 {
        gen_test_loopz(ctx, asize_32);
    } else if condition == 0xE2 {
        gen_test_loop(ctx, asize_32);
    } else if condition == 0xE3 {
        gen_test_jcxz(ctx, asize_32);
    }
}

/// Pushes the inverse of the condition of an opcode.
pub fn gen_condition_fn_negated(ctx: &mut JitContext, condition: u8)
    requires
        old(ctx)@.wf(),
    ensures
        final(ctx)@ == old(ctx)@.condition(condition ^ 1),
{
    gen_condition_fn(ctx, condition ^ 1);
}

} // verus!
