//! What is registered of the blocks of profiled pages.
use vstd::prelude::*;
use crate::jit_blocks::{BasicBlock, BasicBlockType};
use crate::jit_emit::Unit;
use crate::jit_state::contains_u32;

verus! {

/// How a block ends.
#[derive(Clone, Copy, Debug, PartialEq, Eq, Structural)]
pub enum BlockKind {
    Normal,
    Conditional,
    AbsoluteEip,
    Exit,
}

/// A block as the profiler knows it. A successor that is not in the unit is 0.
#[derive(Clone, Copy, Debug, PartialEq, Eq, Structural)]
pub struct BlockRecord {
    pub addr: u32,
    pub last_instruction_addr: u32,
    pub end_addr: u32,
    pub kind: BlockKind,
    pub condition: u8,
    pub succ_fallthrough: u32,
    pub succ_taken: u32,
    pub number_of_instructions: u32,
    pub is_entry_block: bool,
}

/// The address, 0 where there is none.
pub open spec fn or_zero(addr: Option<u32>) -> u32 {
    match addr {
        Some(a) => a,
        None => 0,
    }
}

/// What the profiler is told of a block.
pub open spec fn record(b: BasicBlock) -> BlockRecord {
    let (kind, condition, next, taken) = match b.ty {
        BasicBlockType::Normal { next_block_addr, .. } => (
            BlockKind::Normal,
            0u8,
            or_zero(next_block_addr),
            0u32,
        ),
        BasicBlockType::ConditionalJump {
            next_block_addr,
            next_block_branch_taken_addr,
            condition,
            ..
        } => (
            BlockKind::Conditional,
            condition,
            or_zero(next_block_addr),
            or_zero(next_block_branch_taken_addr),
        ),
        BasicBlockType::AbsoluteEip => (BlockKind::AbsoluteEip, 0u8, 0u32, 0u32),
        BasicBlockType::Exit => (BlockKind::Exit, 0u8, 0u32, 0u32),
    };
    BlockRecord {
        addr: b.addr,
        last_instruction_addr: b.last_instruction_addr,
        end_addr: b.end_addr,
        kind,
        condition,
        succ_fallthrough: next,
        succ_taken: taken,
        number_of_instructions: b.number_of_instructions,
        is_entry_block: b.is_entry_block,
    }
}

/// The records of the first `n` blocks that lie on profiled pages.
pub open spec fn records(blocks: Seq<BasicBlock>, watched: Seq<u32>, n: int) -> Seq<BlockRecord>
    decreases n,
{
    if n <= 0 {
        Seq::empty()
    } else if watched.contains(blocks[n - 1].addr / 0x1000) {
        records(blocks, watched, n - 1).push(record(blocks[n - 1]))
    } else {
        records(blocks, watched, n - 1)
    }
}

fn addr_or_zero(addr: Option<u32>) -> (r: u32)
    ensures
        r == or_zero(addr),
{
    match addr {
        Some(a) => a,
        None => 0,
    }
}

fn block_record(b: &BasicBlock) -> (r: BlockRecord)
    ensures
        r == record(*b),
{
    let (kind, condition, next, taken): (BlockKind, u8, u32, u32) = match b.ty {
        BasicBlockType::Normal { next_block_addr, .. } => (
            BlockKind::Normal,
            0,
            addr_or_zero(next_block_addr),
            0,
        ),
        BasicBlockType::ConditionalJump {
            next_block_addr,
            next_block_branch_taken_addr,
            condition,
            ..
        } => (
            BlockKind::Conditional,
            condition,
            addr_or_zero(next_block_addr),
            addr_or_zero(next_block_branch_taken_addr),
        ),
        BasicBlockType::AbsoluteEip => (BlockKind::AbsoluteEip, 0, 0, 0),
        BasicBlockType::Exit => (BlockKind::Exit, 0, 0, 0),
    };
    BlockRecord {
        addr: b.addr,
        last_instruction_addr: b.last_instruction_addr,
        end_addr: b.end_addr,
        kind,
        condition,
        succ_fallthrough: next,
        succ_taken: taken,
        number_of_instructions: b.number_of_instructions,
        is_entry_block: b.is_entry_block,
    }
}

/// What is to be registered before a unit is compiled: the blocks of its profiled pages. The
/// counters that the profiler gives them stand in the unit's table of counters.
pub fn block_records(unit: &Unit) -> (r: Vec<BlockRecord>)
    ensures
        r@ == records(unit.blocks@, unit.watched_pages@, unit.blocks@.len() as int),
{
    let mut r: Vec<BlockRecord> = Vec::new();
    let n: usize = unit.blocks.len();
    let mut i: usize = 0;
    while i < n
        invariant
            i <= n == unit.blocks@.len(),
            r@ == records(unit.blocks@, unit.watched_pages@, i as int),
        decreases n - i,
    {
        let b: &BasicBlock = &unit.blocks[i];
        if contains_u32(&unit.watched_pages, b.addr / 0x1000) {
            r.push(block_record(b));
        }
        i = i + 1;
    }
    r
}

} // verus!
