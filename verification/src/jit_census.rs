//! The census of the instructions that are compiled.
use vstd::prelude::*;
use crate::guest_ram;
use crate::jit_blocks::{BasicBlock, Step};
use crate::jit_emit::Unit;
use crate::opstats;
use crate::opstats::{record_opstat_compiled, Opstats, OpstatsView};

verus! {

/// The counters after the instructions from `at` on to the end of a block are counted as compiled.
pub open spec fn compiled_from(
    s: OpstatsView,
    ram: Seq<u8>,
    listing: Map<u32, Step>,
    at: u32,
    end: u32,
) -> OpstatsView
    decreases u32::MAX - at,
{
    if at >= end {
        s
    } else {
        let bytes = guest_ram::word_at(ram, at as int, 8) as u64;
        let t = if s.enabled {
            OpstatsView {
                compiled: opstats::instruction_bumped(s.compiled, opstats::decoded(bytes), 1),
                ..s
            }
        } else {
            s
        };
        if listing.contains_key(at) && at < listing[at].end {
            compiled_from(t, ram, listing, listing[at].end, end)
        } else {
            t
        }
    }
}

/// The counters after the first `n` of some blocks are counted.
pub open spec fn compiled_blocks(
    s: OpstatsView,
    ram: Seq<u8>,
    listing: Map<u32, Step>,
    blocks: Seq<BasicBlock>,
    n: int,
) -> OpstatsView
    decreases n,
{
    if n <= 0 {
        s
    } else {
        compiled_from(
            compiled_blocks(s, ram, listing, blocks, n - 1),
            ram,
            listing,
            blocks[n - 1].addr,
            blocks[n - 1].end_addr,
        )
    }
}

fn record_block(s: &mut Opstats, unit: &Unit, block: &BasicBlock)
    requires
        old(s)@.wf(),
    ensures
        final(s)@ == compiled_from(
            old(s)@,
            unit.ram@,
            unit.listing@,
            block.addr,
            block.end_addr,
        ),
        final(s)@.wf(),
{
    let ghost goal = compiled_from(s@, unit.ram@, unit.listing@, block.addr, block.end_addr);
    let mut at: u32 = block.addr;
    while at < block.end_addr
        invariant
            s@.wf(),
            goal == compiled_from(
                old(s)@,
                unit.ram@,
                unit.listing@,
                block.addr,
                block.end_addr,
            ),
            goal == compiled_from(s@, unit.ram@, unit.listing@, at, block.end_addr),
        decreases u32::MAX - at,
    {
        record_opstat_compiled(s, unit.ram.read64(at));
        match unit.listing.at(at) {
            Some(step) => {
                if step.end <= at {
                    return ;
                }
                at = step.end;
            },
            None => return ,
        }
    }
}

/// Counts every instruction of the blocks of a unit as compiled, where the census is on.
pub fn record_unit_compiled(s: &mut Opstats, unit: &Unit)
    requires
        old(s)@.wf(),
    ensures
        final(s)@ == compiled_blocks(
            old(s)@,
            unit.ram@,
            unit.listing@,
            unit.blocks@,
            unit.blocks@.len() as int,
        ),
        final(s)@.wf(),
{
    let n: usize = unit.blocks.len();
    let mut i: usize = 0;
    while i < n
        invariant
            i <= n == unit.blocks@.len(),
            s@.wf(),
            s@ == compiled_blocks(
                old(s)@,
                unit.ram@,
                unit.listing@,
                unit.blocks@,
                i as int,
            ),
        decreases n - i,
    {
        record_block(s, unit, &unit.blocks[i]);
        i = i + 1;
    }
}

} // verus!
