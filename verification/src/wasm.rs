//! A builder for the bodies of WebAssembly functions: the instructions in order, the
//! locals with their free lists, and the locals that hold the lazy flag state.
use vstd::prelude::*;

verus! {

/// An `i32` local.
#[derive(Clone, Copy, Debug, PartialEq, Eq, Structural)]
pub struct WasmLocal(pub usize);

/// An `i64` local.
#[derive(Clone, Copy, Debug, PartialEq, Eq, Structural)]
pub struct WasmLocalI64(pub usize);

/// A block that branches can leave: the position of the instruction that opens it.
#[derive(Clone, Copy, Debug, PartialEq, Eq, Structural)]
pub struct Label(pub usize);

#[derive(Clone, Copy, Debug, PartialEq, Eq, Structural)]
pub enum LocalType {
    I32,
    I64,
}

/// What a block leaves on the stack.
#[derive(Clone, Copy, Debug, PartialEq, Eq, Structural)]
pub enum BlockType {
    Void,
    I32,
    I64,
}

/// Width of a memory access; the `A` forms promise natural alignment.
#[derive(Clone, Copy, Debug, PartialEq, Eq, Structural)]
pub enum Width {
    W8,
    W16,
    A16,
    W32,
    A32,
    W64,
    A64,
}

/// Instructions with one operand.
#[derive(Clone, Copy, Debug, PartialEq, Eq, Structural)]
pub enum Un {
    Eqz,
    ReinterpretI64AsF64,
    ReinterpretF64AsI64,
    ReinterpretI32AsF32,
    ReinterpretF32AsI32,
    PromoteF32,
    DemoteF64,
    ConvertI32ToF64,
    TruncF64ToI32,
    TruncF64,
    NearestF64,
    FloorF64,
    CeilF64,
    AbsF64,
    NegF64,
}

/// Instructions with two operands.
#[derive(Clone, Copy, Debug, PartialEq, Eq, Structural)]
pub enum Bin {
    Add,
    Sub,
    Mul,
    And,
    Or,
    Xor,
    Shl,
    ShrU,
    ShrS,
    Eq,
    Ne,
    LtS,
    LtU,
    GtS,
    GtU,
    LeS,
    LeU,
    GeS,
    GeU,
    AddI64,
    AddF64,
    SubF64,
    MulF64,
    DivF64,
    EqF64,
    NeF64,
    LtF64,
    GeF64,
}

/// Signatures of the helper functions that generated code calls.
#[derive(Clone, Copy, Debug, PartialEq, Eq, Structural)]
pub enum Sig {
    Fn0,
    Fn0Ret,
    Fn1,
    Fn1Ret,
    Fn2,
    Fn2Ret,
    Fn3,
    Fn3Ret,
    Fn2I32I64,
    Fn2I64I32,
    Fn2I64I32Ret,
    Fn2I64I32RetI64,
    Fn3I32I64I32,
    Fn3I32I64I32Ret,
    Fn4I32I64I64I32Ret,
}

/// One instruction.
#[derive(Clone, Copy, Debug, PartialEq, Eq)]
pub enum Op {
    ConstI32(i32),
    ConstI64(i64),
    /// A double constant, by its bits.
    ConstF64(u64),
    LocalGet(usize),
    LocalSet(usize),
    LocalTee(usize),
    Un(Un),
    Bin(Bin),
    Select,
    Drop,
    Unreachable,
    Return,
    Load(Width, u32),
    Store(Width, u32),
    Block(BlockType),
    Loop,
    /// The hint says whether the condition is likely to hold.
    If(BlockType, Option<bool>),
    Else,
    End,
    Br(Label),
    BrIf(Label, Option<bool>),
    /// Branches to case `i` for operand `i`, else to the last of the cases that follow: the
    /// given number, and one more.
    BrTable(usize),
    BrCase(Label),
    Call(&'static str, Sig),
    /// Continues in the function of the table that the operand names.
    ReturnCallIndirect(Sig),
}

/// Branches around memory accesses.
pub const HINT_GROUP_MEM: u32 = 1;
/// Branches around the cached x87 registers.
pub const HINT_GROUP_X87: u32 = 2;
/// Branches of the dispatcher.
pub const HINT_GROUP_DISPATCH: u32 = 4;
pub const HINT_LIKELY: bool = true;
pub const HINT_UNLIKELY: bool = false;

/// Choices that are fixed while one function is built.
#[derive(Clone, Copy, Debug, PartialEq, Eq, Structural)]
pub struct Options {
    /// Groups of branches that get hints.
    pub hint_mask: u32,
    /// Count events of the profiler.
    pub profiler: bool,
    /// Check what generated code assumes.
    pub debug_checks: bool,
    /// Count events of the dispatcher.
    pub dispatch_stats: bool,
    /// Address of the first event counter.
    pub stat_base: u32,
}

/// The locals that hold the lazy flag state while flag locals are in use.
#[derive(Clone, Copy, Debug, PartialEq, Eq, Structural)]
pub struct FlagLocals {
    pub last_op1: WasmLocal,
    pub last_result: WasmLocal,
    pub last_op_size: WasmLocal,
    pub flags_changed: WasmLocal,
    pub flags: WasmLocal,
}

/// The words of the lazy flag state.
#[derive(Clone, Copy, Debug, PartialEq, Eq, Structural)]
pub enum FlagSlot {
    LastOp1,
    LastResult,
    LastOpSize,
    FlagsChanged,
    Flags,
}

impl FlagLocals {
    pub open spec fn at(self, slot: FlagSlot) -> usize {
        match slot {
            FlagSlot::LastOp1 => self.last_op1.0,
            FlagSlot::LastResult => self.last_result.0,
            FlagSlot::LastOpSize => self.last_op_size.0,
            FlagSlot::FlagsChanged => self.flags_changed.0,
            FlagSlot::Flags => self.flags.0,
        }
    }

    pub fn get(&self, slot: FlagSlot) -> (l: WasmLocal)
        ensures
            l.0 == self.at(slot),
    {
        match slot {
            FlagSlot::LastOp1 => self.last_op1,
            FlagSlot::LastResult => self.last_result,
            FlagSlot::LastOpSize => self.last_op_size,
            FlagSlot::FlagsChanged => self.flags_changed,
            FlagSlot::Flags => self.flags,
        }
    }
}

/// Address of a word of the lazy flag state.
pub open spec fn flag_address(slot: FlagSlot) -> u32 {
    match slot {
        FlagSlot::LastOp1 => 104,
        FlagSlot::LastResult => 112,
        FlagSlot::LastOpSize => 96,
        FlagSlot::FlagsChanged => 100,
        FlagSlot::Flags => 120,
    }
}

pub fn flag_slot_address(slot: FlagSlot) -> (a: u32)
    ensures
        a == flag_address(slot),
{
    match slot {
        FlagSlot::LastOp1 => 104,
        FlagSlot::LastResult => 112,
        FlagSlot::LastOpSize => 96,
        FlagSlot::FlagsChanged => 100,
        FlagSlot::Flags => 120,
    }
}

/// What generated code computes, as an expression. Operands run from left to right.
pub enum E {
    /// The value that is already on top of the stack.
    Top,
    C(i32),
    C64(i64),
    CF64(u64),
    L(usize),
    /// The value, which the local keeps too.
    Tee(usize, Box<E>),
    Un(Un, Box<E>),
    Bin(Bin, Box<E>, Box<E>),
    Load(Width, u32, Box<E>),
    /// The second value where the first is not zero, else the third.
    If(BlockType, Box<E>, Box<E>, Box<E>),
    /// The first value where the third is not zero, else the second.
    Select(Box<E>, Box<E>, Box<E>),
    /// Both values, the second on top.
    Both(Box<E>, Box<E>),
    Call(&'static str, Sig, Box<E>),
    /// No value; the local takes one.
    Keep(usize, Box<E>),
    Nothing,
}

impl E {
    /// `c` followed by the code that leaves the value of the expression on the stack.
    #[verifier::opaque]
    pub open spec fn code(self, c: Seq<Op>) -> Seq<Op>
        decreases self,
    {
        match self {
            E::Top => c,
            E::Nothing => c,
            E::C(v) => c.push(Op::ConstI32(v)),
            E::C64(v) => c.push(Op::ConstI64(v)),
            E::CF64(v) => c.push(Op::ConstF64(v)),
            E::L(x) => c.push(Op::LocalGet(x)),
            E::Tee(x, e) => e.code(c).push(Op::LocalTee(x)),
            E::Un(u, e) => e.code(c).push(Op::Un(u)),
            E::Bin(b, x, y) => y.code(x.code(c)).push(Op::Bin(b)),
            E::Load(w, at, e) => e.code(c).push(Op::Load(w, at)),
            E::If(t, cond, x, y) => y.code(
                x.code(cond.code(c).push(Op::If(t, None))).push(Op::Else),
            ).push(Op::End),
            E::Select(x, y, cond) => cond.code(y.code(x.code(c))).push(Op::Select),
            E::Both(x, y) => y.code(x.code(c)),
            E::Call(name, sig, args) => args.code(c).push(Op::Call(name, sig)),
            E::Keep(x, e) => e.code(c).push(Op::LocalSet(x)),
        }
    }

    pub open spec fn un(self, u: Un) -> E {
        E::Un(u, Box::new(self))
    }

    pub open spec fn bin(self, b: Bin, y: E) -> E {
        E::Bin(b, Box::new(self), Box::new(y))
    }

    /// With a constant right operand.
    pub open spec fn binc(self, b: Bin, y: i32) -> E {
        E::Bin(b, Box::new(self), Box::new(E::C(y)))
    }

    pub open spec fn and(self, mask: i32) -> E {
        self.binc(Bin::And, mask)
    }

    pub open spec fn eqz(self) -> E {
        self.un(Un::Eqz)
    }

    pub open spec fn tee(self, x: usize) -> E {
        E::Tee(x, Box::new(self))
    }

    /// No value; local `x` takes this one.
    pub open spec fn keep(self, x: usize) -> E {
        E::Keep(x, Box::new(self))
    }

    pub open spec fn load(self, w: Width, at: u32) -> E {
        E::Load(w, at, Box::new(self))
    }

    /// The word at a fixed address.
    pub open spec fn fixed(w: Width, address: u32) -> E {
        E::C(address as i32).load(w, 0)
    }

    /// `x` where this is not zero, else `y`.
    pub open spec fn choose_i32(self, x: E, y: E) -> E {
        E::If(BlockType::I32, Box::new(self), Box::new(x), Box::new(y))
    }

    pub open spec fn choose_i64(self, x: E, y: E) -> E {
        E::If(BlockType::I64, Box::new(self), Box::new(x), Box::new(y))
    }

    /// This where `cond` is not zero, else `y`.
    pub open spec fn select(self, y: E, cond: E) -> E {
        E::Select(Box::new(self), Box::new(y), Box::new(cond))
    }

    pub open spec fn both(self, y: E) -> E {
        E::Both(Box::new(self), Box::new(y))
    }

    pub open spec fn call(self, name: &'static str, sig: Sig) -> E {
        E::Call(name, sig, Box::new(self))
    }

    /// Inverted where `negate` holds.
    #[verifier::opaque]
    pub open spec fn eqz_if(self, negate: bool) -> E {
        if negate {
            self.eqz()
        } else {
            self
        }
    }

    /// A word of the lazy flag state.
    #[verifier::opaque]
    pub open spec fn flag(locals: Option<FlagLocals>, slot: FlagSlot) -> E {
        match locals {
            Some(f) => E::L(f.at(slot)),
            None => E::fixed(Width::A32, flag_address(slot)),
        }
    }

    /// The low 8 or 16 bits of a word of the lazy flag state.
    #[verifier::opaque]
    pub open spec fn flag_low(locals: Option<FlagLocals>, slot: FlagSlot, byte: bool) -> E {
        match locals {
            Some(f) => E::L(f.at(slot)).and(
                if byte {
                    0xff
                } else {
                    0xffff
                },
            ),
            None => E::fixed(
                if byte {
                    Width::W8
                } else {
                    Width::A16
                },
                flag_address(slot),
            ),
        }
    }
}

/// What a [`WasmBuilder`] holds.
pub struct Emit {
    pub code: Seq<Op>,
    pub locals: Seq<LocalType>,
    pub free_i32: Seq<usize>,
    pub free_i64: Seq<usize>,
    pub flag_locals: Option<FlagLocals>,
    pub opt: Options,
}

impl Emit {
    /// One more instruction.
    #[verifier::opaque]
    pub open spec fn op(self, op: Op) -> Emit {
        Emit { code: self.code.push(op), ..self }
    }

    /// The code of an expression.
    #[verifier::opaque]
    pub open spec fn val(self, e: E) -> Emit {
        Emit { code: e.code(self.code), ..self }
    }

    /// The local takes the value of an expression.
    pub open spec fn set(self, x: usize, e: E) -> Emit {
        self.val(e).op(Op::LocalSet(x))
    }

    /// Memory at `address` takes `value`.
    pub open spec fn store(self, w: Width, at: u32, address: E, value: E) -> Emit {
        self.val(address.both(value)).op(Op::Store(w, at))
    }

    /// The word at a fixed address takes `value`.
    pub open spec fn store_fixed(self, w: Width, address: u32, value: E) -> Emit {
        self.store(w, 0, E::C(address as i32), value)
    }

    pub open spec fn if_void(self, cond: E) -> Emit {
        self.val(cond).op(Op::If(BlockType::Void, None))
    }

    pub open spec fn else_(self) -> Emit {
        self.op(Op::Else)
    }

    pub open spec fn end(self) -> Emit {
        self.op(Op::End)
    }

    /// The label of a block that is opened now.
    #[verifier::opaque]
    pub open spec fn label(self) -> Label {
        Label(self.code.len() as usize)
    }

    pub open spec fn block(self) -> Emit {
        self.op(Op::Block(BlockType::Void))
    }

    pub open spec fn br(self, l: Label) -> Emit {
        self.op(Op::Br(l))
    }

    pub open spec fn hint(self, group: u32, likely: bool) -> Option<bool> {
        if self.opt.hint_mask & group != 0 {
            Some(likely)
        } else {
            None
        }
    }

    pub open spec fn br_if_hinted(self, cond: E, l: Label, group: u32, likely: bool) -> Emit {
        self.val(cond).op(Op::BrIf(l, self.hint(group, likely)))
    }

    /// The `i32` local that is handed out next.
    #[verifier::opaque]
    pub open spec fn next_i32(self) -> usize {
        if self.free_i32.len() > 0 {
            self.free_i32.last()
        } else {
            self.locals.len() as usize
        }
    }

    #[verifier::opaque]
    pub open spec fn next_i64(self) -> usize {
        if self.free_i64.len() > 0 {
            self.free_i64.last()
        } else {
            self.locals.len() as usize
        }
    }

    /// The next `i32` local is handed out.
    #[verifier::opaque]
    pub open spec fn take_i32(self) -> Emit {
        if self.free_i32.len() > 0 {
            Emit { free_i32: self.free_i32.drop_last(), ..self }
        } else {
            Emit { locals: self.locals.push(LocalType::I32), ..self }
        }
    }

    #[verifier::opaque]
    pub open spec fn take_i64(self) -> Emit {
        if self.free_i64.len() > 0 {
            Emit { free_i64: self.free_i64.drop_last(), ..self }
        } else {
            Emit { locals: self.locals.push(LocalType::I64), ..self }
        }
    }

    /// An `i32` local is given back.
    #[verifier::opaque]
    pub open spec fn give_i32(self, x: usize) -> Emit {
        Emit { free_i32: self.free_i32.push(x), ..self }
    }

    #[verifier::opaque]
    pub open spec fn give_i64(self, x: usize) -> Emit {
        Emit { free_i64: self.free_i64.push(x), ..self }
    }

    /// A new `i32` local takes the value of an expression.
    pub open spec fn set_new(self, e: E) -> Emit {
        self.take_i32().set(self.next_i32(), e)
    }

    pub open spec fn set_new_i64(self, e: E) -> Emit {
        self.take_i64().set(self.next_i64(), e)
    }

    /// A word of the lazy flag state.
    pub open spec fn flag_word(self, slot: FlagSlot) -> E {
        E::flag(self.flag_locals, slot)
    }

    /// A word of the lazy flag state takes `value`.
    pub open spec fn set_flag_word(self, slot: FlagSlot, value: E) -> Emit {
        match self.flag_locals {
            Some(f) => self.set(f.at(slot), value),
            None => self.store_fixed(Width::A32, flag_address(slot), value),
        }
    }

    /// A word of the lazy flag state takes the value on the stack; its address lies below.
    pub open spec fn flag_store(self, slot: FlagSlot) -> Emit {
        match self.flag_locals {
            Some(f) => self.op(Op::LocalSet(f.at(slot))).op(Op::Drop),
            None => self.op(Op::Store(Width::A32, 0)),
        }
    }

    /// The counter at `address` grows by one.
    pub open spec fn count(self, address: u32) -> Emit {
        self.store_fixed(
            Width::A64,
            address,
            E::fixed(Width::A64, address).bin(Bin::AddI64, E::C64(1)),
        )
    }

    /// Every flag local goes to memory.
    pub open spec fn spill_flags(self) -> Emit {
        match self.flag_locals {
            Some(f) => self.store_fixed(
                Width::A32,
                flag_address(FlagSlot::LastOp1),
                E::L(f.last_op1.0),
            ).store_fixed(
                Width::A32,
                flag_address(FlagSlot::LastResult),
                E::L(f.last_result.0),
            ).store_fixed(
                Width::A32,
                flag_address(FlagSlot::LastOpSize),
                E::L(f.last_op_size.0),
            ).store_fixed(
                Width::A32,
                flag_address(FlagSlot::FlagsChanged),
                E::L(f.flags_changed.0),
            ).store_fixed(Width::A32, flag_address(FlagSlot::Flags), E::L(f.flags.0)),
            None => self,
        }
    }

    /// Every flag local is read back from memory.
    pub open spec fn reload_flags(self) -> Emit {
        match self.flag_locals {
            Some(f) => self.set(
                f.last_op1.0,
                E::fixed(Width::A32, flag_address(FlagSlot::LastOp1)),
            ).set(
                f.last_result.0,
                E::fixed(Width::A32, flag_address(FlagSlot::LastResult)),
            ).set(
                f.last_op_size.0,
                E::fixed(Width::A32, flag_address(FlagSlot::LastOpSize)),
            ).set(
                f.flags_changed.0,
                E::fixed(Width::A32, flag_address(FlagSlot::FlagsChanged)),
            ).set(f.flags.0, E::fixed(Width::A32, flag_address(FlagSlot::Flags))),
            None => self,
        }
    }
}

/// The code of each form of expression.
pub broadcast proof fn val_of_top(e: Emit)
    ensures
        #[trigger] e.val(E::Top) == e,
{
    reveal(Emit::val);
    reveal(Emit::op);
    reveal_with_fuel(E::code, 1);
}

pub broadcast proof fn val_of_nothing(e: Emit)
    ensures
        #[trigger] e.val(E::Nothing) == e,
{
    reveal(Emit::val);
    reveal(Emit::op);
    reveal_with_fuel(E::code, 1);
}

pub broadcast proof fn val_of_c(e: Emit, v: i32)
    ensures
        #[trigger] e.val(E::C(v)) == e.op(Op::ConstI32(v)),
{
    reveal(Emit::val);
    reveal(Emit::op);
    reveal_with_fuel(E::code, 1);
}

pub broadcast proof fn val_of_c64(e: Emit, v: i64)
    ensures
        #[trigger] e.val(E::C64(v)) == e.op(Op::ConstI64(v)),
{
    reveal(Emit::val);
    reveal(Emit::op);
    reveal_with_fuel(E::code, 1);
}

pub broadcast proof fn val_of_cf64(e: Emit, v: u64)
    ensures
        #[trigger] e.val(E::CF64(v)) == e.op(Op::ConstF64(v)),
{
    reveal(Emit::val);
    reveal(Emit::op);
    reveal_with_fuel(E::code, 1);
}

pub broadcast proof fn val_of_l(e: Emit, x: usize)
    ensures
        #[trigger] e.val(E::L(x)) == e.op(Op::LocalGet(x)),
{
    reveal(Emit::val);
    reveal(Emit::op);
    reveal_with_fuel(E::code, 1);
}

pub broadcast proof fn val_of_tee(e: Emit, x: usize, v: Box<E>)
    ensures
        #[trigger] e.val(E::Tee(x, v)) == e.val(*v).op(Op::LocalTee(x)),
{
    reveal(Emit::val);
    reveal(Emit::op);
    reveal_with_fuel(E::code, 1);
}

pub broadcast proof fn val_of_keep(e: Emit, x: usize, v: Box<E>)
    ensures
        #[trigger] e.val(E::Keep(x, v)) == e.val(*v).op(Op::LocalSet(x)),
{
    reveal(Emit::val);
    reveal(Emit::op);
    reveal_with_fuel(E::code, 1);
}

pub broadcast proof fn val_of_un(e: Emit, u: Un, v: Box<E>)
    ensures
        #[trigger] e.val(E::Un(u, v)) == e.val(*v).op(Op::Un(u)),
{
    reveal(Emit::val);
    reveal(Emit::op);
    reveal_with_fuel(E::code, 1);
}

pub broadcast proof fn val_of_bin(e: Emit, b: Bin, x: Box<E>, y: Box<E>)
    ensures
        #[trigger] e.val(E::Bin(b, x, y)) == e.val(*x).val(*y).op(Op::Bin(b)),
{
    reveal(Emit::val);
    reveal(Emit::op);
    reveal_with_fuel(E::code, 1);
}

pub broadcast proof fn val_of_load(e: Emit, w: Width, at: u32, v: Box<E>)
    ensures
        #[trigger] e.val(E::Load(w, at, v)) == e.val(*v).op(Op::Load(w, at)),
{
    reveal(Emit::val);
    reveal(Emit::op);
    reveal_with_fuel(E::code, 1);
}

pub broadcast proof fn val_of_if(e: Emit, t: BlockType, cond: Box<E>, x: Box<E>, y: Box<E>)
    ensures
        #[trigger] e.val(E::If(t, cond, x, y)) == e.val(*cond).op(Op::If(t, None)).val(*x).op(
            Op::Else,
        ).val(*y).op(Op::End),
{
    reveal(Emit::val);
    reveal(Emit::op);
    reveal_with_fuel(E::code, 1);
}

pub broadcast proof fn val_of_select(e: Emit, x: Box<E>, y: Box<E>, cond: Box<E>)
    ensures
        #[trigger] e.val(E::Select(x, y, cond)) == e.val(*x).val(*y).val(*cond).op(Op::Select),
{
    reveal(Emit::val);
    reveal(Emit::op);
    reveal_with_fuel(E::code, 1);
}

pub broadcast proof fn val_of_both(e: Emit, x: Box<E>, y: Box<E>)
    ensures
        #[trigger] e.val(E::Both(x, y)) == e.val(*x).val(*y),
{
    reveal(Emit::val);
    reveal(Emit::op);
    reveal_with_fuel(E::code, 1);
}

pub broadcast proof fn val_of_call(e: Emit, name: &'static str, sig: Sig, args: Box<E>)
    ensures
        #[trigger] e.val(E::Call(name, sig, args)) == e.val(*args).op(Op::Call(name, sig)),
{
    reveal(Emit::val);
    reveal(Emit::op);
    reveal_with_fuel(E::code, 1);
}

pub broadcast proof fn val_of_eqz_if(e: Emit, v: E, negate: bool)
    ensures
        #[trigger] e.val(v.eqz_if(negate)) == e.val(v).val(E::Top.eqz_if(negate)),
{
    broadcast use {val_of_top, val_of_un};

    reveal(E::eqz_if);
}

/// An instruction leaves the locals and the options alone.
pub broadcast proof fn op_keeps(e: Emit, o: Op)
    ensures
        (#[trigger] e.op(o)).opt == e.opt,
        e.op(o).flag_locals == e.flag_locals,
{
    reveal(Emit::op);
}

pub broadcast proof fn take_i32_keeps(e: Emit)
    ensures
        (#[trigger] e.take_i32()).opt == e.opt,
        e.take_i32().flag_locals == e.flag_locals,
{
    reveal(Emit::take_i32);
}

pub broadcast proof fn take_i64_keeps(e: Emit)
    ensures
        (#[trigger] e.take_i64()).opt == e.opt,
        e.take_i64().flag_locals == e.flag_locals,
{
    reveal(Emit::take_i64);
}

pub broadcast proof fn give_i32_keeps(e: Emit, x: usize)
    ensures
        (#[trigger] e.give_i32(x)).opt == e.opt,
        e.give_i32(x).flag_locals == e.flag_locals,
{
    reveal(Emit::give_i32);
}

pub broadcast proof fn give_i64_keeps(e: Emit, x: usize)
    ensures
        (#[trigger] e.give_i64(x)).opt == e.opt,
        e.give_i64(x).flag_locals == e.flag_locals,
{
    reveal(Emit::give_i64);
}

/// Instructions and the handing out of locals do not depend on each other.
pub broadcast proof fn next_i32_after_op(e: Emit, o: Op)
    ensures
        #[trigger] e.op(o).next_i32() == e.next_i32(),
{
    reveal(Emit::op);
    reveal(Emit::next_i32);
}

pub broadcast proof fn next_i64_after_op(e: Emit, o: Op)
    ensures
        #[trigger] e.op(o).next_i64() == e.next_i64(),
{
    reveal(Emit::op);
    reveal(Emit::next_i64);
}

pub broadcast proof fn take_i32_after_op(e: Emit, o: Op)
    ensures
        #[trigger] e.op(o).take_i32() == e.take_i32().op(o),
{
    reveal(Emit::op);
    reveal(Emit::take_i32);
}

pub broadcast proof fn take_i64_after_op(e: Emit, o: Op)
    ensures
        #[trigger] e.op(o).take_i64() == e.take_i64().op(o),
{
    reveal(Emit::op);
    reveal(Emit::take_i64);
}

pub broadcast proof fn give_i32_before_op(e: Emit, x: usize, o: Op)
    ensures
        #[trigger] e.give_i32(x).op(o) == e.op(o).give_i32(x),
{
    reveal(Emit::op);
    reveal(Emit::give_i32);
}

pub broadcast proof fn give_i64_before_op(e: Emit, x: usize, o: Op)
    ensures
        #[trigger] e.give_i64(x).op(o) == e.op(o).give_i64(x),
{
    reveal(Emit::op);
    reveal(Emit::give_i64);
}

pub broadcast proof fn val_keeps(e: Emit, v: E)
    ensures
        (#[trigger] e.val(v)).opt == e.opt,
        e.val(v).flag_locals == e.flag_locals,
{
    reveal(Emit::val);
}

pub broadcast proof fn next_i32_after_val(e: Emit, v: E)
    ensures
        #[trigger] e.val(v).next_i32() == e.next_i32(),
{
    reveal(Emit::val);
    reveal(Emit::next_i32);
}

pub broadcast proof fn next_i64_after_val(e: Emit, v: E)
    ensures
        #[trigger] e.val(v).next_i64() == e.next_i64(),
{
    reveal(Emit::val);
    reveal(Emit::next_i64);
}

pub broadcast proof fn take_i32_after_val(e: Emit, v: E)
    ensures
        #[trigger] e.val(v).take_i32() == e.take_i32().val(v),
{
    reveal(Emit::val);
    reveal(Emit::take_i32);
}

pub broadcast proof fn take_i64_after_val(e: Emit, v: E)
    ensures
        #[trigger] e.val(v).take_i64() == e.take_i64().val(v),
{
    reveal(Emit::val);
    reveal(Emit::take_i64);
}

pub broadcast proof fn give_i32_before_val(e: Emit, x: usize, v: E)
    ensures
        #[trigger] e.give_i32(x).val(v) == e.val(v).give_i32(x),
{
    reveal(Emit::val);
    reveal(Emit::give_i32);
}

/// The local that was given back last is handed out first.
pub broadcast proof fn take_i32_after_give(e: Emit, x: usize)
    ensures
        (#[trigger] e.give_i32(x)).take_i32() == e,
        e.give_i32(x).next_i32() == x,
{
    reveal(Emit::take_i32);
    reveal(Emit::give_i32);
    reveal(Emit::next_i32);
    assert(e.free_i32.push(x).drop_last() =~= e.free_i32);
}

pub broadcast proof fn take_i64_after_give(e: Emit, x: usize)
    ensures
        (#[trigger] e.give_i64(x)).take_i64() == e,
        e.give_i64(x).next_i64() == x,
{
    reveal(Emit::take_i64);
    reveal(Emit::give_i64);
    reveal(Emit::next_i64);
    assert(e.free_i64.push(x).drop_last() =~= e.free_i64);
}

pub broadcast group group_code {
    val_of_top,
    val_of_nothing,
    val_of_c,
    val_of_c64,
    val_of_cf64,
    val_of_l,
    val_of_tee,
    val_of_keep,
    val_of_un,
    val_of_bin,
    val_of_load,
    val_of_if,
    val_of_select,
    val_of_both,
    val_of_call,
    val_of_eqz_if,
    op_keeps,
    take_i32_keeps,
    take_i64_keeps,
    give_i32_keeps,
    give_i64_keeps,
    next_i32_after_op,
    next_i64_after_op,
    take_i32_after_op,
    take_i64_after_op,
    give_i32_before_op,
    give_i64_before_op,
    val_keeps,
    next_i32_after_val,
    next_i64_after_val,
    take_i32_after_val,
    take_i64_after_val,
    give_i32_before_val,
    take_i32_after_give,
    take_i64_after_give,
}

/// The body of a function while it is built.
pub struct WasmBuilder {
    pub code: Vec<Op>,
    pub locals: Vec<LocalType>,
    pub free_i32: Vec<usize>,
    pub free_i64: Vec<usize>,
    pub flag_locals: Option<FlagLocals>,
    pub opt: Options,
}

impl View for WasmBuilder {
    type V = Emit;

    open spec fn view(&self) -> Emit {
        Emit {
            code: self.code@,
            locals: self.locals@,
            free_i32: self.free_i32@,
            free_i64: self.free_i64@,
            flag_locals: self.flag_locals,
            opt: self.opt,
        }
    }
}

impl WasmBuilder {
    /// A builder with no code yet, for a function with `args` arguments.
    pub fn new(opt: Options, args: usize) -> (b: WasmBuilder)
        ensures
            b@.code == Seq::<Op>::empty(),
            b@.locals == Seq::new(args as nat, |i: int| LocalType::I32),
            b@.free_i32 == Seq::<usize>::empty(),
            b@.free_i64 == Seq::<usize>::empty(),
            b@.flag_locals is None,
            b@.opt == opt,
    {
        let mut locals: Vec<LocalType> = Vec::new();
        let mut i: usize = 0;
        while i < args
            invariant
                i <= args,
                locals@ == Seq::new(i as nat, |j: int| LocalType::I32),
            decreases args - i,
        {
            locals.push(LocalType::I32);
            i = i + 1;
            assert(locals@ =~= Seq::new(i as nat, |j: int| LocalType::I32));
        }
        WasmBuilder {
            code: Vec::new(),
            locals,
            free_i32: Vec::new(),
            free_i64: Vec::new(),
            flag_locals: None,
            opt,
        }
    }

    pub fn emit(&mut self, op: Op)
        ensures
            final(self)@ == old(self)@.op(op),
    {
        reveal(Emit::op);
        self.code.push(op);
    }

    pub fn const_i32(&mut self, v: i32)
        ensures
            final(self)@ == old(self)@.op(Op::ConstI32(v)),
    {
        self.emit(Op::ConstI32(v));
    }

    pub fn get_local(&mut self, l: WasmLocal)
        ensures
            final(self)@ == old(self)@.op(Op::LocalGet(l.0)),
    {
        self.emit(Op::LocalGet(l.0));
    }

    pub fn set_local(&mut self, l: WasmLocal)
        ensures
            final(self)@ == old(self)@.op(Op::LocalSet(l.0)),
    {
        self.emit(Op::LocalSet(l.0));
    }

    pub fn tee_local(&mut self, l: WasmLocal)
        ensures
            final(self)@ == old(self)@.op(Op::LocalTee(l.0)),
    {
        self.emit(Op::LocalTee(l.0));
    }

    pub fn get_local_i64(&mut self, l: WasmLocalI64)
        ensures
            final(self)@ == old(self)@.op(Op::LocalGet(l.0)),
    {
        self.emit(Op::LocalGet(l.0));
    }

    pub fn un(&mut self, u: Un)
        ensures
            final(self)@ == old(self)@.op(Op::Un(u)),
    {
        self.emit(Op::Un(u));
    }

    pub fn bin(&mut self, b: Bin)
        ensures
            final(self)@ == old(self)@.op(Op::Bin(b)),
    {
        self.emit(Op::Bin(b));
    }

    /// A constant right operand and its operation.
    pub fn binc(&mut self, b: Bin, v: i32)
        ensures
            final(self)@ == old(self)@.op(Op::ConstI32(v)).op(Op::Bin(b)),
    {
        self.const_i32(v);
        self.bin(b);
    }

    pub fn set_local_i64(&mut self, l: WasmLocalI64)
        ensures
            final(self)@ == old(self)@.op(Op::LocalSet(l.0)),
    {
        self.emit(Op::LocalSet(l.0));
    }

    pub fn tee_local_i64(&mut self, l: WasmLocalI64)
        ensures
            final(self)@ == old(self)@.op(Op::LocalTee(l.0)),
    {
        self.emit(Op::LocalTee(l.0));
    }

    pub fn const_i64(&mut self, v: i64)
        ensures
            final(self)@ == old(self)@.op(Op::ConstI64(v)),
    {
        self.emit(Op::ConstI64(v));
    }

    /// Pushes a double, given by its bits.
    pub fn const_f64(&mut self, bits: u64)
        ensures
            final(self)@ == old(self)@.op(Op::ConstF64(bits)),
    {
        self.emit(Op::ConstF64(bits));
    }

    pub fn select(&mut self)
        ensures
            final(self)@ == old(self)@.op(Op::Select),
    {
        self.emit(Op::Select);
    }

    pub fn if_i64(&mut self)
        ensures
            final(self)@ == old(self)@.op(Op::If(BlockType::I64, None)),
    {
        self.emit(Op::If(BlockType::I64, None));
    }

    /// Inverts the value on the stack where `negate` holds.
    pub fn eqz_if(&mut self, negate: bool)
        ensures
            final(self)@ == old(self)@.val(E::Top.eqz_if(negate)),
    {
        broadcast use group_code;
        reveal(E::eqz_if);
        if negate {
            self.un(Un::Eqz);
        }
    }

    pub fn load(&mut self, w: Width, at: u32)
        ensures
            final(self)@ == old(self)@.op(Op::Load(w, at)),
    {
        self.emit(Op::Load(w, at));
    }

    pub fn store(&mut self, w: Width, at: u32)
        ensures
            final(self)@ == old(self)@.op(Op::Store(w, at)),
    {
        self.emit(Op::Store(w, at));
    }

    /// Pushes the word at a fixed address.
    pub fn load_fixed(&mut self, w: Width, address: u32)
        ensures
            final(self)@ == old(self)@.val(E::fixed(w, address)),
    {
        broadcast use group_code;
        self.const_i32(address as i32);
        self.load(w, 0);
    }

    pub fn call(&mut self, name: &'static str, sig: Sig)
        ensures
            final(self)@ == old(self)@.op(Op::Call(name, sig)),
    {
        self.emit(Op::Call(name, sig));
    }

    pub fn if_void(&mut self)
        ensures
            final(self)@ == old(self)@.op(Op::If(BlockType::Void, None)),
    {
        self.emit(Op::If(BlockType::Void, None));
    }

    pub fn if_i32(&mut self)
        ensures
            final(self)@ == old(self)@.op(Op::If(BlockType::I32, None)),
    {
        self.emit(Op::If(BlockType::I32, None));
    }

    pub fn else_(&mut self)
        ensures
            final(self)@ == old(self)@.op(Op::Else),
    {
        self.emit(Op::Else);
    }

    pub fn block_end(&mut self)
        ensures
            final(self)@ == old(self)@.op(Op::End),
    {
        self.emit(Op::End);
    }

    fn hint_for(&self, group: u32, likely: bool) -> (h: Option<bool>)
        ensures
            h == self@.hint(group, likely),
    {
        if self.opt.hint_mask & group != 0 {
            Some(likely)
        } else {
            None
        }
    }

    pub fn if_hinted(&mut self, t: BlockType, group: u32, likely: bool)
        ensures
            final(self)@ == old(self)@.op(Op::If(t, old(self)@.hint(group, likely))),
    {
        let h: Option<bool> = self.hint_for(group, likely);
        self.emit(Op::If(t, h));
    }

    /// Opens a block and returns its label.
    pub fn block(&mut self, t: BlockType) -> (l: Label)
        ensures
            final(self)@ == old(self)@.op(Op::Block(t)),
            l == old(self)@.label(),
    {
        reveal(Emit::label);
        let l = Label(self.code.len());
        self.emit(Op::Block(t));
        l
    }

    /// Opens a loop and returns its label: branches to it go to its start.
    pub fn loop_void(&mut self) -> (l: Label)
        ensures
            final(self)@ == old(self)@.op(Op::Loop),
            l == old(self)@.label(),
    {
        reveal(Emit::label);
        let l = Label(self.code.len());
        self.emit(Op::Loop);
        l
    }

    pub fn br(&mut self, l: Label)
        ensures
            final(self)@ == old(self)@.op(Op::Br(l)),
    {
        self.emit(Op::Br(l));
    }

    pub fn br_if(&mut self, l: Label)
        ensures
            final(self)@ == old(self)@.op(Op::BrIf(l, None)),
    {
        self.emit(Op::BrIf(l, None));
    }

    pub fn br_if_hinted(&mut self, l: Label, group: u32, likely: bool)
        ensures
            final(self)@ == old(self)@.op(Op::BrIf(l, old(self)@.hint(group, likely))),
    {
        let h: Option<bool> = self.hint_for(group, likely);
        self.emit(Op::BrIf(l, h));
    }

    /// Hands out an `i32` local.
    pub fn new_local(&mut self) -> (l: WasmLocal)
        ensures
            final(self)@ == old(self)@.take_i32(),
            l.0 == old(self)@.next_i32(),
    {
        reveal(Emit::take_i32);
        reveal(Emit::next_i32);
        match self.free_i32.pop() {
            Some(l) => WasmLocal(l),
            None => {
                let l = WasmLocal(self.locals.len());
                self.locals.push(LocalType::I32);
                l
            },
        }
    }

    /// Hands out an `i64` local.
    pub fn new_local_i64(&mut self) -> (l: WasmLocalI64)
        ensures
            final(self)@ == old(self)@.take_i64(),
            l.0 == old(self)@.next_i64(),
    {
        reveal(Emit::take_i64);
        reveal(Emit::next_i64);
        match self.free_i64.pop() {
            Some(l) => WasmLocalI64(l),
            None => {
                let l = WasmLocalI64(self.locals.len());
                self.locals.push(LocalType::I64);
                l
            },
        }
    }

    /// Pops the top of the stack into a new local.
    pub fn set_new_local(&mut self) -> (l: WasmLocal)
        ensures
            final(self)@ == old(self)@.take_i32().op(Op::LocalSet(l.0)),
            l.0 == old(self)@.next_i32(),
    {
        let l: WasmLocal = self.new_local();
        self.emit(Op::LocalSet(l.0));
        l
    }

    /// Copies the top of the stack into a new local.
    pub fn tee_new_local(&mut self) -> (l: WasmLocal)
        ensures
            final(self)@ == old(self)@.take_i32().op(Op::LocalTee(l.0)),
            l.0 == old(self)@.next_i32(),
    {
        let l: WasmLocal = self.new_local();
        self.emit(Op::LocalTee(l.0));
        l
    }

    pub fn set_new_local_i64(&mut self) -> (l: WasmLocalI64)
        ensures
            final(self)@ == old(self)@.take_i64().op(Op::LocalSet(l.0)),
            l.0 == old(self)@.next_i64(),
    {
        let l: WasmLocalI64 = self.new_local_i64();
        self.emit(Op::LocalSet(l.0));
        l
    }

    pub fn tee_new_local_i64(&mut self) -> (l: WasmLocalI64)
        ensures
            final(self)@ == old(self)@.take_i64().op(Op::LocalTee(l.0)),
            l.0 == old(self)@.next_i64(),
    {
        let l: WasmLocalI64 = self.new_local_i64();
        self.emit(Op::LocalTee(l.0));
        l
    }

    pub fn free_local(&mut self, l: WasmLocal)
        ensures
            final(self)@ == old(self)@.give_i32(l.0),
    {
        reveal(Emit::give_i32);
        self.free_i32.push(l.0);
    }

    pub fn free_local_i64(&mut self, l: WasmLocalI64)
        ensures
            final(self)@ == old(self)@.give_i64(l.0),
    {
        reveal(Emit::give_i64);
        self.free_i64.push(l.0);
    }

    /// Pushes a word of the lazy flag state.
    pub fn get_flag_word(&mut self, slot: FlagSlot)
        ensures
            final(self)@ == old(self)@.val(old(self)@.flag_word(slot)),
    {
        broadcast use group_code;
        reveal(E::flag);
        match self.flag_locals {
            Some(f) => {
                self.get_local(f.get(slot));
            },
            None => {
                self.load_fixed(Width::A32, flag_slot_address(slot));
            },
        }
    }

    /// Sets a word of the lazy flag state to the value on the stack. Its address lies below the
    /// value, and is dropped where the word is a local.
    pub fn flag_store_i32(&mut self, slot: FlagSlot)
        ensures
            final(self)@ == old(self)@.flag_store(slot),
    {
        match self.flag_locals {
            Some(f) => {
                self.set_local(f.get(slot));
                self.emit(Op::Drop);
            },
            None => {
                self.store(Width::A32, 0);
            },
        }
    }

    /// Pushes the low bits of a word of the lazy flag state: 8 or 16 of them.
    pub fn get_flag_low(&mut self, slot: FlagSlot, byte: bool)
        ensures
            final(self)@ == old(self)@.val(E::flag_low(old(self)@.flag_locals, slot, byte)),
    {
        broadcast use group_code;
        reveal(E::flag_low);
        match self.flag_locals {
            Some(f) => {
                self.get_local(f.get(slot));
                self.binc(
                    Bin::And,
                    if byte {
                        0xff
                    } else {
                        0xffff
                    },
                );
            },
            None => {
                self.load_fixed(
                    if byte {
                        Width::W8
                    } else {
                        Width::A16
                    },
                    flag_slot_address(slot),
                );
            },
        }
    }

    /// Adds one to the counter at `address`.
    pub fn increment_fixed_i64(&mut self, address: u32)
        ensures
            final(self)@ == old(self)@.count(address),
    {
        broadcast use group_code;
        self.const_i32(address as i32);
        self.load_fixed(Width::A64, address);
        self.emit(Op::ConstI64(1));
        self.bin(Bin::AddI64);
        self.store(Width::A64, 0);
    }

    fn spill_one(&mut self, slot: FlagSlot, l: WasmLocal)
        ensures
            final(self)@ == old(self)@.store_fixed(Width::A32, flag_address(slot), E::L(l.0)),
    {
        broadcast use group_code;
        self.const_i32(flag_slot_address(slot) as i32);
        self.get_local(l);
        self.store(Width::A32, 0);
    }

    fn reload_one(&mut self, slot: FlagSlot, l: WasmLocal)
        ensures
            final(self)@ == old(self)@.set(l.0, E::fixed(Width::A32, flag_address(slot))),
    {
        broadcast use group_code;
        self.load_fixed(Width::A32, flag_slot_address(slot));
        self.set_local(l);
    }

    /// Writes the flag locals to memory.
    pub fn emit_flag_spill(&mut self)
        ensures
            final(self)@ == old(self)@.spill_flags(),
    {
        if let Some(f) = self.flag_locals {
            self.spill_one(FlagSlot::LastOp1, f.last_op1);
            self.spill_one(FlagSlot::LastResult, f.last_result);
            self.spill_one(FlagSlot::LastOpSize, f.last_op_size);
            self.spill_one(FlagSlot::FlagsChanged, f.flags_changed);
            self.spill_one(FlagSlot::Flags, f.flags);
        }
    }

    /// Reads the flag locals back from memory.
    pub fn emit_flag_reload(&mut self)
        ensures
            final(self)@ == old(self)@.reload_flags(),
    {
        if let Some(f) = self.flag_locals {
            self.reload_one(FlagSlot::LastOp1, f.last_op1);
            self.reload_one(FlagSlot::LastResult, f.last_result);
            self.reload_one(FlagSlot::LastOpSize, f.last_op_size);
            self.reload_one(FlagSlot::FlagsChanged, f.flags_changed);
            self.reload_one(FlagSlot::Flags, f.flags);
        }
    }
}

} // verus!
