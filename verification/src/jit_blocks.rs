//! Basic blocks of guest code, and the walk that proves that the flags an instruction sets are
//! never read.
use vstd::prelude::*;
use crate::guest_ram;
use crate::guest_ram::Ram;
use crate::opstats;
use crate::opstats::is_prefix_byte;
use std::collections::HashMap;

verus! {

broadcast use vstd::std_specs::hash::group_hash_axioms;

/// No instruction is longer.
pub const MAX_INSTRUCTION_LENGTH: u32 = 16;

/// How many instructions the walk looks ahead.
pub const FLAG_LIVENESS_WALK_LIMIT: u32 = 8;

/// An instruction ends its block.
pub const JIT_INSTR_BLOCK_BOUNDARY_FLAG: u32 = 1;

/// What an instruction does to the flow of control.
#[derive(Clone, Copy, Debug, PartialEq, Eq, Structural)]
pub enum AnalysisType {
    Normal,
    /// Interrupts are enabled after the next instruction.
    STI,
    Jump { offset: i32, is_32: bool, condition: Option<u8> },
    BlockBoundary,
}

/// A decoded instruction.
#[derive(Clone, Copy, Debug, PartialEq, Eq, Structural)]
pub struct Step {
    /// Address after the instruction.
    pub end: u32,
    pub ty: AnalysisType,
    /// Control does not come back to the next instruction.
    pub no_next_instruction: bool,
    /// The instruction sets the instruction pointer to a computed value.
    pub absolute_jump: bool,
}

/// The decoded instructions of guest code, by address.
pub struct Listing {
    pub steps: HashMap<u32, Step>,
}

impl View for Listing {
    type V = Map<u32, Step>;

    open spec fn view(&self) -> Map<u32, Step> {
        self.steps@
    }
}

impl Listing {
    pub fn new() -> (l: Listing)
        ensures
            l@ == Map::<u32, Step>::empty(),
    {
        Listing { steps: HashMap::new() }
    }

    /// Adds the instruction at an address.
    pub fn put(&mut self, address: u32, step: Step)
        ensures
            final(self)@ == old(self)@.insert(address, step),
    {
        self.steps.insert(address, step);
    }

    /// The instruction at an address.
    pub fn at(&self, address: u32) -> (step: Option<Step>)
        ensures
            step == (if self@.contains_key(address) {
                Some(self@[address])
            } else {
                None
            }),
    {
        match self.steps.get(&address) {
            Some(step) => Some(*step),
            None => None,
        }
    }
}

/// How a block ends.
#[derive(Clone, Copy, Debug, PartialEq, Eq, Structural)]
pub enum BasicBlockType {
    Normal { next_block_addr: Option<u32>, jump_offset: i32, jump_offset_is_32: bool },
    ConditionalJump {
        next_block_addr: Option<u32>,
        next_block_branch_taken_addr: Option<u32>,
        condition: u8,
        jump_offset: i32,
        jump_offset_is_32: bool,
    },
    /// The instruction pointer is set to a computed value.
    AbsoluteEip,
    Exit,
}

/// A run of instructions that is entered only at its start.
pub struct BasicBlock {
    pub addr: u32,
    pub virt_addr: i32,
    pub last_instruction_addr: u32,
    pub end_addr: u32,
    pub is_entry_block: bool,
    pub ty: BasicBlockType,
    pub has_sti: bool,
    pub number_of_instructions: u32,
    /// Return addresses that the return at the end of the block may go to, virtual and
    /// physical.
    pub ret_speculation: Vec<(i32, u32)>,
}

/// Instructions that start there may cross into the next page.
pub open spec fn near_end_of_page(address: u32) -> bool {
    address & 0xFFF >= 0x1000 - MAX_INSTRUCTION_LENGTH
}

/// Whether instructions that start at the address may cross into the next page.
pub fn is_near_end_of_page(address: u32) -> (r: bool)
    ensures
        r == near_end_of_page(address),
{
    address & 0xFFF >= 0x1000 - MAX_INSTRUCTION_LENGTH
}

/// The position of the block at an address.
pub open spec fn block_index(blocks: Seq<BasicBlock>, addr: u32, n: nat) -> Option<int>
    decreases n,
{
    if n == 0 {
        None
    } else if blocks[n - 1].addr == addr {
        Some(n - 1)
    } else {
        block_index(blocks, addr, (n - 1) as nat)
    }
}

/// The position of the last block that starts at an address.
pub open spec fn block_at(blocks: Seq<BasicBlock>, addr: u32) -> Option<int> {
    block_index(blocks, addr, blocks.len())
}

/// The position of the block that starts at an address.
pub fn find_block(blocks: &Vec<BasicBlock>, addr: u32) -> (r: Option<usize>)
    ensures
        match r {
            Some(i) => block_at(blocks@, addr) == Some(i as int) && i < blocks@.len()
                && blocks@[i as int].addr == addr,
            None => block_at(blocks@, addr) is None,
        },
{
    let mut n: usize = blocks.len();
    while n > 0
        invariant
            n <= blocks@.len(),
            block_at(blocks@, addr) == block_index(blocks@, addr, n as nat),
        decreases n,
    {
        n = n - 1;
        if blocks[n].addr == addr {
            return Some(n);
        }
    }
    None
}

/// Every block holds at least one instruction.
pub open spec fn blocks_wf(blocks: Seq<BasicBlock>) -> bool {
    forall|i: int| 0 <= i < blocks.len() ==> (#[trigger] blocks[i]).addr < blocks[i].end_addr
}

/// What an instruction does to the status flags, as far as the walk can use it.
#[derive(Clone, Copy, Debug, PartialEq, Eq, Structural)]
pub enum FlagClass {
    /// Sets all six flags before it reads one.
    Overwrite { non_faulting: bool },
    /// Leaves the flags alone and cannot fault.
    NeutralNoFault,
    /// Anything else.
    Stop,
}

/// Where the opcode of the instruction at `address` lies, after its prefixes.
pub open spec fn opcode_address(ram: Seq<u8>, address: int) -> int
    decreases ram.len() - address,
{
    if 0 <= address < ram.len() && opstats::is_prefix(guest_ram::byte_at(ram, address)) {
        opcode_address(ram, address + 1)
    } else {
        address
    }
}

/// The opcode, with two-byte opcodes from 0x100 on, and the address after it.
pub open spec fn opcode_of(ram: Seq<u8>, address: int) -> (int, int) {
    let at = opcode_address(ram, address);
    let b = guest_ram::byte_at(ram, at);
    if b == 0x0F {
        (0x100 + guest_ram::byte_at(ram, at + 1), at + 2)
    } else {
        (b as int, at + 1)
    }
}

/// The class of an opcode whose next byte is `modrm`.
#[verifier::opaque]
pub open spec fn class_of(opcode: int, modrm: u8) -> FlagClass {
    let register = modrm >= 0xC0;
    let group = modrm as int / 8 % 8;
    let neutral_register = if register {
        FlagClass::NeutralNoFault
    } else {
        FlagClass::Stop
    };
    if opcode <= 0x03 || 0x08 <= opcode <= 0x0B || 0x20 <= opcode <= 0x23 || 0x28 <= opcode <= 0x2B
        || 0x30 <= opcode <= 0x33 || 0x38 <= opcode <= 0x3B || opcode == 0x84 || opcode == 0x85 {
        FlagClass::Overwrite { non_faulting: register }
    } else if opcode == 0x04 || opcode == 0x05 || opcode == 0x0C || opcode == 0x0D || opcode == 0x24
        || opcode == 0x25 || opcode == 0x2C || opcode == 0x2D || opcode == 0x34 || opcode == 0x35
        || opcode == 0x3C || opcode == 0x3D || opcode == 0xA8 || opcode == 0xA9 {
        FlagClass::Overwrite { non_faulting: true }
    } else if 0x80 <= opcode <= 0x83 {
        if group == 2 || group == 3 {
            FlagClass::Stop
        } else {
            FlagClass::Overwrite { non_faulting: register }
        }
    } else if opcode == 0xF6 || opcode == 0xF7 {
        if group == 0 {
            FlagClass::Overwrite { non_faulting: register }
        } else {
            FlagClass::Stop
        }
    } else if 0x88 <= opcode <= 0x8B || opcode == 0xC6 || opcode == 0xC7 || opcode == 0x1B6
        || opcode == 0x1B7 || opcode == 0x1BE || opcode == 0x1BF {
        neutral_register
    } else if opcode == 0x8D || 0xB0 <= opcode <= 0xBF || opcode == 0x90 {
        FlagClass::NeutralNoFault
    } else {
        FlagClass::Stop
    }
}

/// The class of the instruction at an address.
pub open spec fn flag_class(ram: Seq<u8>, address: u32) -> FlagClass {
    let (opcode, next) = opcode_of(ram, address as int);
    class_of(opcode, guest_ram::byte_at(ram, next))
}

fn skip_instruction_prefixes(ram: &Ram, address: u32) -> (at: u32)
    requires
        guest_ram::ram_wf(ram@),
        address <= 0xFFFF_F000,
    ensures
        at == opcode_address(ram@, address as int),
        at <= 0xFFFF_F000,
{
    let mut at: u32 = address;
    while (at as usize) < ram.bytes.len() && is_prefix_byte(ram.read8(at))
        invariant
            guest_ram::ram_wf(ram@),
            at <= 0xFFFF_F000,
            opcode_address(ram@, address as int) == opcode_address(ram@, at as int),
        decreases ram@.len() - at,
    {
        at = at + 1;
    }
    at
}

fn decode_jit_opcode(ram: &Ram, address: u32) -> (r: (u32, u32))
    requires
        guest_ram::ram_wf(ram@),
        address <= 0xFFFF_F000,
    ensures
        (r.0 as int, r.1 as int) == opcode_of(ram@, address as int),
{
    let opcode_addr: u32 = skip_instruction_prefixes(ram, address);
    let opcode: u8 = ram.read8(opcode_addr);
    if opcode == 0x0F {
        (0x100 + ram.read8(opcode_addr + 1) as u32, opcode_addr + 2)
    } else {
        (opcode as u32, opcode_addr + 1)
    }
}

fn neutral_if(register: bool) -> (c: FlagClass)
    ensures
        c == (if register {
            FlagClass::NeutralNoFault
        } else {
            FlagClass::Stop
        }),
{
    if register {
        FlagClass::NeutralNoFault
    } else {
        FlagClass::Stop
    }
}

/// Classifies the instruction at an address.
pub fn classify_flag_class(ram: &Ram, address: u32) -> (c: FlagClass)
    requires
        guest_ram::ram_wf(ram@),
        address <= 0xFFFF_F000,
    ensures
        c == flag_class(ram@, address),
{
    reveal(class_of);
    let (opcode, operand_addr): (u32, u32) = decode_jit_opcode(ram, address);
    let modrm: u8 = ram.read8(operand_addr);
    let register: bool = modrm >= 0xC0;
    let group: u8 = modrm / 8 % 8;
    if opcode <= 0x03 || (0x08 <= opcode && opcode <= 0x0B) || (0x20 <= opcode && opcode <= 0x23)
        || (0x28 <= opcode && opcode <= 0x2B) || (0x30 <= opcode && opcode <= 0x33) || (0x38
        <= opcode && opcode <= 0x3B) || opcode == 0x84 || opcode == 0x85 {
        FlagClass::Overwrite { non_faulting: register }
    } else if opcode == 0x04 || opcode == 0x05 || opcode == 0x0C || opcode == 0x0D || opcode == 0x24
        || opcode == 0x25 || opcode == 0x2C || opcode == 0x2D || opcode == 0x34 || opcode == 0x35
        || opcode == 0x3C || opcode == 0x3D || opcode == 0xA8 || opcode == 0xA9 {
        FlagClass::Overwrite { non_faulting: true }
    } else if 0x80 <= opcode && opcode <= 0x83 {
        if group == 2 || group == 3 {
            FlagClass::Stop
        } else {
            FlagClass::Overwrite { non_faulting: register }
        }
    } else if opcode == 0xF6 || opcode == 0xF7 {
        if group == 0 {
            FlagClass::Overwrite { non_faulting: register }
        } else {
            FlagClass::Stop
        }
    } else if (0x88 <= opcode && opcode <= 0x8B) || opcode == 0xC6 || opcode == 0xC7 || opcode
        == 0x1B6 || opcode == 0x1B7 || opcode == 0x1BE || opcode == 0x1BF {
        neutral_if(register)
    } else if opcode == 0x8D || (0xB0 <= opcode && opcode <= 0xBF) || opcode == 0x90 {
        FlagClass::NeutralNoFault
    } else {
        FlagClass::Stop
    }
}

/// What the walk reads: memory, the decoded instructions and the blocks of the unit.
pub struct Code {
    pub ram: Seq<u8>,
    pub listing: Map<u32, Step>,
    pub blocks: Seq<BasicBlock>,
}

impl Code {
    /// From `address` in `block` on, with `steps` instructions behind, the flags are overwritten
    /// before anything can read them. `origin` is the instruction that set them.
    pub open spec fn flags_dead(
        self,
        origin: u32,
        address: u32,
        block: BasicBlock,
        steps: nat,
    ) -> bool
        decreases
            FLAG_LIVENESS_WALK_LIMIT - steps,
            if address == block.end_addr {
                1nat
            } else {
                0nat
            },
    {
        if steps >= FLAG_LIVENESS_WALK_LIMIT {
            false
        } else if address > origin && address < block.end_addr {
            match flag_class(self.ram, address) {
                FlagClass::Overwrite { non_faulting } => non_faulting,
                FlagClass::NeutralNoFault => self.listing.contains_key(address) && self.flags_dead(
                    origin,
                    self.listing[address].end,
                    block,
                    steps + 1,
                ),
                FlagClass::Stop => false,
            }
        } else if address != block.end_addr {
            false
        } else {
            match block.ty {
                BasicBlockType::Normal { next_block_addr: Some(next), .. } => match block_at(
                    self.blocks,
                    next,
                ) {
                    Some(i) => next != self.blocks[i].end_addr && self.flags_dead(
                        origin,
                        next,
                        self.blocks[i],
                        steps,
                    ),
                    None => false,
                },
                _ => false,
            }
        }
    }

    /// The flags that the instruction at `address` sets need not be computed.
    pub open spec fn elidable(self, address: u32, block: BasicBlock) -> bool {
        &&& flag_class(self.ram, address) is Overwrite
        &&& self.listing.contains_key(address)
        &&& self.flags_dead(address, self.listing[address].end, block, 0)
    }
}

fn flags_dead_from_addr(
    ram: &Ram,
    listing: &Listing,
    origin_addr: u32,
    address: u32,
    block: &BasicBlock,
    basic_blocks: &Vec<BasicBlock>,
    steps: u32,
) -> (dead: bool)
    requires
        guest_ram::ram_wf(ram@),
        blocks_wf(basic_blocks@),
        block.end_addr <= 0xFFFF_F000,
        forall|i: int|
            0 <= i < basic_blocks@.len() ==> (#[trigger] basic_blocks@[i]).end_addr <= 0xFFFF_F000,
    ensures
        dead == (Code { ram: ram@, listing: listing@, blocks: basic_blocks@ }).flags_dead(
            origin_addr,
            address,
            *block,
            steps as nat,
        ),
    decreases
        FLAG_LIVENESS_WALK_LIMIT - steps,
        if address == block.end_addr {
            1nat
        } else {
            0nat
        },
{
    if steps >= FLAG_LIVENESS_WALK_LIMIT {
        return false;
    }
    if address > origin_addr && address < block.end_addr {
        return match classify_flag_class(ram, address) {
            FlagClass::Overwrite { non_faulting } => non_faulting,
            FlagClass::NeutralNoFault => match listing.at(address) {
                Some(step) => flags_dead_from_addr(
                    ram,
                    listing,
                    origin_addr,
                    step.end,
                    block,
                    basic_blocks,
                    steps + 1,
                ),
                None => false,
            },
            FlagClass::Stop => false,
        };
    }
    if address != block.end_addr {
        return false;
    }
    match block.ty {
        BasicBlockType::Normal { next_block_addr: Some(next), .. } => match find_block(
            basic_blocks,
            next,
        ) {
            Some(i) => flags_dead_from_addr(
                ram,
                listing,
                origin_addr,
                next,
                &basic_blocks[i],
                basic_blocks,
                steps,
            ),
            None => false,
        },
        _ => false,
    }
}

/// Whether the flags that the instruction at `current_addr` sets need not be computed.
pub fn should_elide_current_flags(
    enabled: bool,
    ram: &Ram,
    listing: &Listing,
    current_addr: u32,
    block: &BasicBlock,
    basic_blocks: &Vec<BasicBlock>,
) -> (r: bool)
    requires
        guest_ram::ram_wf(ram@),
        blocks_wf(basic_blocks@),
        current_addr <= 0xFFFF_F000,
        block.end_addr <= 0xFFFF_F000,
        forall|i: int|
            0 <= i < basic_blocks@.len() ==> (#[trigger] basic_blocks@[i]).end_addr <= 0xFFFF_F000,
    ensures
        r == (enabled && (Code { ram: ram@, listing: listing@, blocks: basic_blocks@ }).elidable(
            current_addr,
            *block,
        )),
{
    if !enabled {
        return false;
    }
    if let FlagClass::Overwrite { .. } = classify_flag_class(ram, current_addr) {
        match listing.at(current_addr) {
            Some(step) => flags_dead_from_addr(
                ram,
                listing,
                current_addr,
                step.end,
                block,
                basic_blocks,
                0,
            ),
            None => false,
        }
    } else {
        false
    }
}

/// A path of instructions, each of which leaves the flags alone and cannot fault, to one that
/// overwrites all flags and cannot fault either.
pub open spec fn overwritten_along(ram: Seq<u8>, path: Seq<u32>) -> bool {
    &&& path.len() > 0
    &&& flag_class(ram, path.last()) == (FlagClass::Overwrite { non_faulting: true })
    &&& forall|i: int|
        0 <= i < path.len() - 1 ==> flag_class(ram, #[trigger] path[i]) is NeutralNoFault
}

/// Flags are never dropped while anything could see them: where the flags of an instruction
/// are not computed, the instructions that run next leave the flags alone and cannot fault,
/// until one that cannot fault overwrites them all. At most eight instructions are looked at.
pub proof fn law_elided_flags_are_overwritten(code: Code, address: u32, block: BasicBlock) -> (path:
    Seq<u32>)
    requires
        code.elidable(address, block),
    ensures
        overwritten_along(code.ram, path),
        path.len() <= FLAG_LIVENESS_WALK_LIMIT,
{
    dead_path(code, address, code.listing[address].end, block, 0)
}

proof fn dead_path(code: Code, origin: u32, address: u32, block: BasicBlock, steps: nat) -> (path: Seq<
    u32,
>)
    requires
        code.flags_dead(origin, address, block, steps),
    ensures
        overwritten_along(code.ram, path),
        path.len() + steps <= FLAG_LIVENESS_WALK_LIMIT,
    decreases
        FLAG_LIVENESS_WALK_LIMIT - steps,
        if address == block.end_addr {
            1nat
        } else {
            0nat
        },
{
    if address > origin && address < block.end_addr {
        match flag_class(code.ram, address) {
            FlagClass::Overwrite { .. } => seq![address],
            FlagClass::NeutralNoFault => {
                let rest = dead_path(code, origin, code.listing[address].end, block, steps + 1);
                let path = seq![address] + rest;
                assert(path.last() == rest.last());
                assert forall|i: int| 0 <= i < path.len() - 1 implies flag_class(
                    code.ram,
                    #[trigger] path[i],
                ) is NeutralNoFault by {
                    if i > 0 {
                        assert(path[i] == rest[i - 1]);
                    }
                }
                path
            },
            FlagClass::Stop => seq![address],
        }
    } else {
        match block.ty {
            BasicBlockType::Normal { next_block_addr: Some(next), .. } => {
                let i = block_at(code.blocks, next)->0;
                dead_path(code, origin, next, code.blocks[i], steps)
            },
            _ => seq![address],
        }
    }
}

} // verus!
