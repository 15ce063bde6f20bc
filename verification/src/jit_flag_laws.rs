//! What the instruction set says of the status flags, and that the walk over guest code keeps to
//! it.
use vstd::prelude::*;
use crate::guest_ram;
use crate::jit_blocks;
use crate::jit_blocks::{BasicBlock, BasicBlockType, Code, FlagClass};

verus! {

/// A byte that may stand before an opcode: a segment, a size, a lock or a repetition.
pub open spec fn is_legacy_prefix(b: u8) -> bool {
    ||| b == 0x26 || b == 0x2E || b == 0x36 || b == 0x3E || b == 0x64 || b == 0x65
    ||| b == 0x66 || b == 0x67
    ||| b == 0xF0 || b == 0xF2 || b == 0xF3
}

/// The middle three bits of a ModRM byte.
pub open spec fn reg_field(modrm: u8) -> int {
    (modrm as int / 8) % 8
}

/// The ModRM byte names a register, not memory.
pub open spec fn names_register(modrm: u8) -> bool {
    modrm as int / 64 == 3
}

/// The number of an arithmetic operation: ADD, OR, ADC, SBB, AND, SUB, XOR and CMP, in this
/// order. They lie eight opcodes apart, and once more in a group with an immediate operand.
/// Opcodes of two bytes are numbered from 0x100 on.
pub open spec fn alu_operation(opcode: int, modrm: u8) -> Option<int> {
    if 0 <= opcode < 0x40 && opcode % 8 < 6 {
        Some(opcode / 8)
    } else if 0x80 <= opcode < 0x84 {
        Some(reg_field(modrm))
    } else {
        None
    }
}

/// TEST, with a register, with the accumulator, and in the unary group with an immediate.
pub open spec fn is_test(opcode: int, modrm: u8) -> bool {
    ||| opcode == 0x84 || opcode == 0x85
    ||| opcode == 0xA8 || opcode == 0xA9
    ||| (opcode == 0xF6 || opcode == 0xF7) && reg_field(modrm) == 0
}

/// What the instruction does depends on a status flag.
pub open spec fn reads_flags(opcode: int, modrm: u8) -> bool {
    // ADC and SBB add the carry.
    ||| alu_operation(opcode, modrm) == Some(2int) || alu_operation(opcode, modrm) == Some(3int)
    // DAA, DAS, AAA and AAS.
    ||| opcode == 0x27 || opcode == 0x2F || opcode == 0x37 || opcode == 0x3F
    // Conditional jumps, short and near, SETcc and CMOVcc.
    ||| 0x70 <= opcode < 0x80 || 0x180 <= opcode < 0x190
    ||| 0x190 <= opcode < 0x1A0 || 0x140 <= opcode < 0x150
    // PUSHF and LAHF; SALC, CMC; LOOPNE and LOOPE.
    ||| opcode == 0x9C || opcode == 0x9F || opcode == 0xD6 || opcode == 0xF5
    ||| opcode == 0xE0 || opcode == 0xE1
    // Software interrupts store the flags, and INTO tests one.
    ||| opcode == 0xCC || opcode == 0xCD || opcode == 0xCE || opcode == 0xF1
    // RCL and RCR shift the carry in.
    ||| (opcode == 0xC0 || opcode == 0xC1 || 0xD0 <= opcode < 0xD4) && (reg_field(modrm) == 2
        || reg_field(modrm) == 3)
    // Repeated comparisons stop by the zero flag; conditional moves between x87 registers.
    ||| opcode == 0xA6 || opcode == 0xA7 || opcode == 0xAE || opcode == 0xAF
    ||| opcode == 0xDA || opcode == 0xDB
}

/// Some status flags are set and others kept: INC, DEC, shifts and rotations, the flag
/// instructions and bit tests.
pub open spec fn keeps_some_flags(opcode: int, modrm: u8) -> bool {
    ||| 0x40 <= opcode < 0x50
    ||| (opcode == 0xFE || opcode == 0xFF) && reg_field(modrm) < 2
    ||| opcode == 0xC0 || opcode == 0xC1 || 0xD0 <= opcode < 0xD4
    ||| opcode == 0x9E || opcode == 0xF8 || opcode == 0xF9
    ||| opcode == 0x1A3 || opcode == 0x1AB || opcode == 0x1B3 || opcode == 0x1BB || opcode == 0x1BA
    ||| opcode == 0x1A4 || opcode == 0x1A5 || opcode == 0x1AC || opcode == 0x1AD
    ||| opcode == 0x63 || opcode == 0x1C7
}

/// ADD, OR, AND, SUB, XOR, CMP and TEST set all six status flags and read none.
pub open spec fn replaces_flags(opcode: int, modrm: u8) -> bool {
    match alu_operation(opcode, modrm) {
        Some(n) => n != 2 && n != 3,
        None => is_test(opcode, modrm),
    }
}

/// The accumulator forms of the arithmetic operations have no operand in memory; the others
/// have one unless their ModRM byte names a register.
pub open spec fn replaces_without_fault(opcode: int, modrm: u8) -> bool {
    ||| 0 <= opcode < 0x40 && opcode % 8 >= 4
    ||| opcode == 0xA8 || opcode == 0xA9
    ||| names_register(modrm)
}

/// MOV between registers and of an immediate to one, LEA, NOP, MOVZX and MOVSX between
/// registers.
pub open spec fn only_moves(opcode: int, modrm: u8) -> bool {
    ||| (0x88 <= opcode < 0x8C || opcode == 0xC6 || opcode == 0xC7) && names_register(modrm)
    ||| 0xB0 <= opcode < 0xC0 || opcode == 0x8D || opcode == 0x90
    ||| (opcode == 0x1B6 || opcode == 0x1B7 || opcode == 0x1BE || opcode == 0x1BF)
        && names_register(modrm)
}

/// The instruction at an address has `k` prefixes.
pub open spec fn has_prefixes(ram: Seq<u8>, address: int, k: nat) -> bool {
    &&& 0 <= address && address + k < ram.len()
    &&& forall|i: int| address <= i < address + k ==> is_legacy_prefix(#[trigger] ram[i])
    &&& !is_legacy_prefix(ram[address + k])
}

/// The opcode that stands at a place behind the prefixes, and the byte that follows it.
pub open spec fn opcode_at(ram: Seq<u8>, at: int) -> (int, u8) {
    if guest_ram::byte_at(ram, at) == 0x0F {
        (0x100 + guest_ram::byte_at(ram, at + 1), guest_ram::byte_at(ram, at + 2))
    } else {
        (guest_ram::byte_at(ram, at) as int, guest_ram::byte_at(ram, at + 1))
    }
}

proof fn lemma_prefixes(ram: Seq<u8>, address: int, k: nat)
    requires
        has_prefixes(ram, address, k),
    ensures
        jit_blocks::opcode_address(ram, address) == address + k,
    decreases k,
{
    if k > 0 {
        assert(is_legacy_prefix(ram[address]));
        lemma_prefixes(ram, address + 1, (k - 1) as nat);
    }
}

/// The class of an instruction is what the instruction set says of it, whatever prefixes it
/// has. It is an overwriter exactly where its operation sets all status flags and reads none,
/// one that cannot fault exactly where no operand is in memory, and neutral exactly where it
/// only moves registers and immediates. Nothing that reads a flag, or keeps one that it does not
/// set, is either.
pub proof fn law_classes_follow_the_instruction_set(ram: Seq<u8>, address: u32, k: nat)
    requires
        has_prefixes(ram, address as int, k),
    ensures
        ({
            let class = jit_blocks::flag_class(ram, address);
            let (opcode, modrm) = opcode_at(ram, address + k);
            &&& class is Overwrite <==> replaces_flags(opcode, modrm)
            &&& class is Overwrite ==> class->non_faulting == replaces_without_fault(opcode, modrm)
            &&& class is NeutralNoFault <==> only_moves(opcode, modrm)
            &&& reads_flags(opcode, modrm) ==> class is Stop
            &&& keeps_some_flags(opcode, modrm) ==> class is Stop
        }),
{
    reveal(jit_blocks::class_of);
    lemma_prefixes(ram, address as int, k);
}

/// Control goes from one address to the other with no instruction between them: they are the
/// same, or a block without a jump of its own ends at the first and goes on at the second.
pub open spec fn goes_on(code: Code, block: BasicBlock, from: u32, to: u32) -> bool {
    ||| from == to
    ||| exists|b: BasicBlock|
        {
            &&& b == block || code.blocks.contains(b)
            &&& #[trigger] ends_into(b, from, to)
        }
}

/// The block ends at an address and goes on at another.
pub open spec fn ends_into(b: BasicBlock, from: u32, to: u32) -> bool {
    match b.ty {
        BasicBlockType::Normal { next_block_addr, .. } => b.end_addr == from && next_block_addr
            == Some(to),
        _ => false,
    }
}

/// The instructions of a path run one after the other, from the one behind `address` on.
pub open spec fn is_run(code: Code, block: BasicBlock, address: u32, path: Seq<u32>) -> bool {
    &&& path.len() > 0
    &&& code.listing.contains_key(address)
    &&& goes_on(code, block, code.listing[address].end, path[0])
    &&& forall|i: int|
        #![trigger path[i]]
        0 < i < path.len() ==> {
            &&& code.listing.contains_key(path[i - 1])
            &&& goes_on(code, block, code.listing[path[i - 1]].end, path[i])
        }
}

/// The instruction at an address only moves registers and immediates.
#[verifier::opaque]
pub open spec fn moves_at(ram: Seq<u8>, address: u32) -> bool {
    exists|k: nat|
        #[trigger] has_prefixes(ram, address as int, k) && ({
            let (opcode, modrm) = opcode_at(ram, address + k);
            only_moves(opcode, modrm)
        })
}

/// The instruction at an address sets all status flags, reads none and cannot fault.
#[verifier::opaque]
pub open spec fn replaces_at(ram: Seq<u8>, address: u32) -> bool {
    exists|k: nat|
        #[trigger] has_prefixes(ram, address as int, k) && ({
            let (opcode, modrm) = opcode_at(ram, address + k);
            replaces_flags(opcode, modrm) && replaces_without_fault(opcode, modrm)
        })
}

proof fn lemma_opcode_address(ram: Seq<u8>, address: int)
    requires
        0 <= address,
    ensures
        address <= jit_blocks::opcode_address(ram, address),
        jit_blocks::opcode_address(ram, address) < ram.len() ==> has_prefixes(
            ram,
            address,
            (jit_blocks::opcode_address(ram, address) - address) as nat,
        ),
    decreases ram.len() - address,
{
    if address < ram.len() && crate::opstats::is_prefix(guest_ram::byte_at(ram, address)) {
        lemma_opcode_address(ram, address + 1);
    }
}

proof fn lemma_class_at(ram: Seq<u8>, address: u32)
    ensures
        jit_blocks::flag_class(ram, address) is NeutralNoFault <==> moves_at(ram, address),
        jit_blocks::flag_class(ram, address) == (FlagClass::Overwrite { non_faulting: true })
            <==> replaces_at(ram, address),
{
    reveal(moves_at);
    reveal(replaces_at);
    reveal(jit_blocks::class_of);
    let a = address as int;
    let at = jit_blocks::opcode_address(ram, a);
    lemma_opcode_address(ram, a);
    if at < ram.len() {
        law_classes_follow_the_instruction_set(ram, address, (at - a) as nat);
    }
    assert forall|k: nat| #[trigger] has_prefixes(ram, a, k) implies at == a + k by {
        lemma_prefixes(ram, a, k);
    }
}

/// Where the flags of an instruction are not computed, nothing sees that: the instructions that
/// run next, one after the other, only move registers and immediates, until one of the first
/// eight sets all status flags without reading any and without a fault before.
pub proof fn law_elided_flags_are_not_read(code: Code, address: u32, block: BasicBlock) -> (path:
    Seq<u32>)
    requires
        code.elidable(address, block),
    ensures
        is_run(code, block, address, path),
        path.len() <= 8,
        replaces_at(code.ram, path.last()),
        forall|i: int| 0 <= i < path.len() - 1 ==> moves_at(code.ram, #[trigger] path[i]),
{
    let path = lemma_walk(code, address, code.listing[address].end, block, block, 0);
    path
}

proof fn lemma_walk(
    code: Code,
    origin: u32,
    from: u32,
    first: BasicBlock,
    block: BasicBlock,
    steps: nat,
) -> (path: Seq<u32>)
    requires
        code.flags_dead(origin, from, block, steps),
        block == first || code.blocks.contains(block),
    ensures
        path.len() > 0,
        path.len() + steps <= 8,
        goes_on(code, first, from, path[0]),
        from != block.end_addr ==> path[0] == from,
        replaces_at(code.ram, path.last()),
        forall|i: int| 0 <= i < path.len() - 1 ==> moves_at(code.ram, #[trigger] path[i]),
        forall|i: int|
            #![trigger path[i]]
            0 < i < path.len() ==> {
                &&& code.listing.contains_key(path[i - 1])
                &&& goes_on(code, first, code.listing[path[i - 1]].end, path[i])
            },
    decreases
        8 - steps,
        if from == block.end_addr {
            1nat
        } else {
            0nat
        },
{
    lemma_class_at(code.ram, from);
    if from > origin && from < block.end_addr {
        match jit_blocks::flag_class(code.ram, from) {
            FlagClass::NeutralNoFault => {
                let end = code.listing[from].end;
                let rest = lemma_walk(code, origin, end, first, block, steps + 1);
                let path = seq![from] + rest;
                assert(path.last() == rest.last());
                assert forall|i: int| 0 <= i < path.len() - 1 implies moves_at(
                    code.ram,
                    #[trigger] path[i],
                ) by {
                    if i > 0 {
                        assert(path[i] == rest[i - 1]);
                    }
                }
                assert forall|i: int| #![trigger path[i]] 0 < i < path.len() implies {
                    &&& code.listing.contains_key(path[i - 1])
                    &&& goes_on(code, first, code.listing[path[i - 1]].end, path[i])
                } by {
                    assert(path[i] == rest[i - 1]);
                    if i > 1 {
                        assert(path[i - 1] == rest[i - 2]);
                    }
                }
                path
            },
            _ => seq![from],
        }
    } else {
        match block.ty {
            BasicBlockType::Normal { next_block_addr: Some(next), .. } => {
                let i = jit_blocks::block_at(code.blocks, next)->0;
                lemma_block_at(code.blocks, next, code.blocks.len());
                assert(ends_into(block, from, next));
                lemma_walk(code, origin, next, first, code.blocks[i], steps)
            },
            _ => seq![from],
        }
    }
}

proof fn lemma_block_at(blocks: Seq<BasicBlock>, addr: u32, n: nat)
    requires
        n <= blocks.len(),
    ensures
        jit_blocks::block_index(blocks, addr, n) matches Some(i) ==> 0 <= i < n,
    decreases n,
{
    if n > 0 {
        lemma_block_at(blocks, addr, (n - 1) as nat);
    }
}

/// Flags that nothing sees are not computed: where an instruction that sets all of them is
/// followed in its block by at most seven that only move registers and immediates, and then by
/// one that sets all flags without reading any and without a fault before.
pub proof fn law_unread_flags_are_elided(
    code: Code,
    address: u32,
    block: BasicBlock,
    k: nat,
    path: Seq<u32>,
)
    requires
        has_prefixes(code.ram, address as int, k),
        replaces_flags(
            opcode_at(code.ram, address + k).0,
            opcode_at(code.ram, address + k).1,
        ),
        0 < path.len() <= 8,
        code.listing.contains_key(address),
        path[0] == code.listing[address].end,
        forall|i: int|
            #![trigger path[i]]
            0 < i < path.len() ==> code.listing.contains_key(path[i - 1])
                && code.listing[path[i - 1]].end == path[i],
        forall|i: int|
            0 <= i < path.len() ==> address < #[trigger] path[i] && path[i] < block.end_addr,
        replaces_at(code.ram, path.last()),
        forall|i: int| 0 <= i < path.len() - 1 ==> moves_at(code.ram, #[trigger] path[i]),
    ensures
        code.elidable(address, block),
{
    law_classes_follow_the_instruction_set(code.ram, address, k);
    lemma_dead(code, address, block, path, 0);
}

proof fn lemma_dead(code: Code, address: u32, block: BasicBlock, path: Seq<u32>, n: nat)
    requires
        n < path.len() <= 8,
        forall|i: int|
            #![trigger path[i]]
            0 < i < path.len() ==> code.listing.contains_key(path[i - 1])
                && code.listing[path[i - 1]].end == path[i],
        forall|i: int|
            0 <= i < path.len() ==> address < #[trigger] path[i] && path[i] < block.end_addr,
        replaces_at(code.ram, path.last()),
        forall|i: int| 0 <= i < path.len() - 1 ==> moves_at(code.ram, #[trigger] path[i]),
    ensures
        code.flags_dead(address, path[n as int], block, n),
    decreases path.len() - n,
{
    lemma_class_at(code.ram, path[n as int]);
    if n + 1 < path.len() {
        lemma_dead(code, address, block, path, n + 1);
        assert(code.listing[path[n as int]].end == path[n as int + 1]);
    }
}

} // verus!
