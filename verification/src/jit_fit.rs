//! Whether blocks and their arrangement can be compiled.
use vstd::prelude::*;
use crate::jit_blocks;
use crate::jit_blocks::{find_block, BasicBlock, BasicBlockType};
use crate::jit_emit::Unit;
use crate::jit_exits;
use crate::jit_exits::{has_addr, Plan};
use crate::jit_module;
use crate::jit_module::{copied, find_entries, index_blocks, WasmStructure, BRTABLE_CUTOFF};
use crate::wasm::Label;

verus! {

fn unit_is_sound(unit: &Unit) -> (r: bool)
    ensures
        r == unit.wf(),
{
    if unit.ram.bytes.len() > 0xFFFF_F000 {
        return false;
    }
    let n: usize = unit.blocks.len();
    let mut i: usize = 0;
    while i < n
        invariant
            i <= n == unit.blocks@.len(),
            unit.ram@.len() <= 0xFFFF_F000,
            forall|j: int|
                0 <= j < i ==> (#[trigger] unit.blocks@[j]).addr < unit.blocks@[j].end_addr
                    <= 0xFFFF_F000,
        decreases n - i,
    {
        let b: &BasicBlock = &unit.blocks[i];
        if b.addr >= b.end_addr || b.end_addr > 0xFFFF_F000 {
            assert(unit.blocks@[i as int] == *b);
            return false;
        }
        i = i + 1;
    }
    true
}

fn are_distinct(addrs: &Vec<u32>) -> (r: bool)
    ensures
        r == addrs@.no_duplicates(),
{
    let n: usize = addrs.len();
    let mut seen: Vec<u32> = Vec::new();
    let mut i: usize = 0;
    while i < n
        invariant
            i <= n == addrs@.len(),
            seen@ == addrs@.take(i as int),
            seen@.no_duplicates(),
        decreases n - i,
    {
        if has_addr(&seen, addrs[i]) {
            assert(!addrs@.no_duplicates()) by {
                let j = seen@.index_of(addrs@[i as int]);
                assert(addrs@[j] == addrs@[i as int]);
            }
            return false;
        }
        seen.push(addrs[i]);
        i = i + 1;
        assert(seen@ =~= addrs@.take(i as int));
    }
    assert(addrs@.take(n as int) =~= addrs@);
    true
}

fn are_indexed(addrs: &Vec<u32>, plan: &Plan) -> (r: bool)
    ensures
        r == jit_module::all_indexed(addrs@, *plan),
{
    let n: usize = addrs.len();
    let mut i: usize = 0;
    while i < n
        invariant
            i <= n == addrs@.len(),
            forall|j: int| 0 <= j < i ==> plan.knows(#[trigger] addrs@[j]),
        decreases n - i,
    {
        if !has_addr(&plan.table, addrs[i]) {
            assert(!plan.knows(addrs@[i as int]));
            return false;
        }
        i = i + 1;
    }
    true
}

fn is_there(to: Option<u32>, next: &Vec<u32>, reach: &Vec<u32>, plan: &Plan) -> (r: bool)
    ensures
        r == (jit_exits::reached(to, next@, reach@) && jit_exits::indexed(to, next@, *plan)),
{
    match to {
        None => true,
        Some(addr) => if has_addr(next, addr) {
            has_addr(&plan.table, addr)
        } else {
            has_addr(reach, addr)
        },
    }
}

fn block_is_fit(
    addr: u32,
    next: &Vec<u32>,
    reach: &Vec<u32>,
    plan: &Plan,
    blocks: &Vec<BasicBlock>,
) -> (r: bool)
    ensures
        r == jit_module::one_block_fits(addr, next@, reach@, *plan, blocks@),
{
    match find_block(blocks, addr) {
        None => false,
        Some(i) => {
            if blocks[i].has_sti {
                return true;
            }
            match blocks[i].ty {
                BasicBlockType::Normal { next_block_addr, .. } => is_there(
                    next_block_addr,
                    next,
                    reach,
                    plan,
                ),
                BasicBlockType::ConditionalJump {
                    next_block_addr,
                    next_block_branch_taken_addr,
                    ..
                } => is_there(next_block_addr, next, reach, plan) && is_there(
                    next_block_branch_taken_addr,
                    next,
                    reach,
                    plan,
                ),
                _ => true,
            }
        },
    }
}

fn dispatcher_is_fit(entries: &Vec<u32>, next: &Vec<u32>, reach: &Vec<u32>, plan: &Plan) -> (r: bool)
    ensures
        r == jit_module::dispatcher_fits(entries@, next@, reach@, *plan),
{
    if !are_indexed(entries, plan) {
        return false;
    }
    let n: usize = entries.len();
    let mut i: usize = 0;
    while i < n
        invariant
            i <= n == entries@.len(),
            forall|j: int|
                0 <= j < i ==> {
                    ||| n <= BRTABLE_CUTOFF && next@.contains(#[trigger] entries@[j])
                    ||| reach@.contains(entries@[j])
                },
        decreases n - i,
    {
        if !(n <= BRTABLE_CUTOFF && has_addr(next, entries[i])) && !has_addr(reach, entries[i]) {
            assert(!next@.contains(entries@[i as int]) || n > BRTABLE_CUTOFF);
            return false;
        }
        i = i + 1;
    }
    true
}

fn joined(a: &Vec<u32>, b: &Vec<u32>) -> (r: Vec<u32>)
    ensures
        r@ == a@ + b@,
{
    let mut r: Vec<u32> = copied(a);
    let n: usize = b.len();
    let mut i: usize = 0;
    while i < n
        invariant
            i <= n == b@.len(),
            r@ == a@ + b@.take(i as int),
        decreases n - i,
    {
        r.push(b[i]);
        i = i + 1;
        assert(r@ =~= a@ + b@.take(i as int));
    }
    assert(b@.take(n as int) =~= b@);
    r
}

fn parts_are_fit(
    nodes: &Vec<WasmStructure>,
    i: usize,
    next: &Vec<u32>,
    reach: &Vec<u32>,
    plan: &Plan,
    blocks: &Vec<BasicBlock>,
) -> (r: bool)
    ensures
        r == jit_module::parts_fit(nodes@, i as nat, next@, reach@, *plan, blocks@),
    decreases nodes, nodes@.len() - i,
{
    let n: usize = nodes.len();
    if i >= n {
        return true;
    }
    let after: Vec<u32> = if i + 1 < n {
        nodes[i + 1].head()
    } else {
        copied(next)
    };
    let fits: bool = match &nodes[i] {
        WasmStructure::BasicBlock(addr) => block_is_fit(*addr, &after, reach, plan, blocks),
        WasmStructure::Dispatcher(entries) => dispatcher_is_fit(entries, &after, reach, plan),
        WasmStructure::Loop(children) => {
            let entries: Vec<u32> = nodes[i].head();
            children.len() > 0 && (entries.len() == 1 || are_indexed(&entries, plan))
                && parts_are_fit(children, 0, &after, &joined(reach, &entries), plan, blocks)
        },
        WasmStructure::Block(children) => {
            after.len() > 0 && (after.len() == 1 || are_indexed(&after, plan)) && parts_are_fit(
                children,
                0,
                &after,
                &joined(reach, &after),
                plan,
                blocks,
            )
        },
    };
    fits && parts_are_fit(nodes, i + 1, next, reach, plan, blocks)
}

/// Only the indices of a plan decide.
proof fn lemma_indices_decide(
    nodes: Seq<WasmStructure>,
    i: nat,
    next: Seq<u32>,
    reach: Seq<u32>,
    p: Plan,
    q: Plan,
    blocks: Seq<BasicBlock>,
)
    requires
        p.table@ == q.table@,
    ensures
        jit_module::parts_fit(nodes, i, next, reach, p, blocks) == jit_module::parts_fit(
            nodes,
            i,
            next,
            reach,
            q,
            blocks,
        ),
    decreases nodes, nodes.len() - i,
{
    assert(forall|a: u32| p.knows(a) == q.knows(a));
    assert forall|s: Seq<u32>| #[trigger]
        jit_module::all_indexed(s, p) == jit_module::all_indexed(s, q) by {
        if jit_module::all_indexed(s, p) {
            assert forall|j: int| 0 <= j < s.len() implies q.knows(#[trigger] s[j]) by {
                assert(p.knows(s[j]));
            }
        }
        if jit_module::all_indexed(s, q) {
            assert forall|j: int| 0 <= j < s.len() implies p.knows(#[trigger] s[j]) by {
                assert(q.knows(s[j]));
            }
        }
    }
    if i < nodes.len() {
        let after = jit_module::following(nodes, i, next);
        match nodes[i as int] {
            WasmStructure::BasicBlock(addr) => {
                assert(jit_module::one_block_fits(addr, after, reach, p, blocks)
                    == jit_module::one_block_fits(addr, after, reach, q, blocks));
            },
            WasmStructure::Dispatcher(entries) => {
                assert(jit_module::dispatcher_fits(entries@, after, reach, p)
                    == jit_module::dispatcher_fits(entries@, after, reach, q));
            },
            WasmStructure::Loop(children) => {
                let entries = jit_module::head(nodes[i as int]);
                lemma_indices_decide(children@, 0, after, reach + entries, p, q, blocks);
            },
            WasmStructure::Block(children) => {
                lemma_indices_decide(children@, 0, after, reach + after, p, q, blocks);
            },
        }
        lemma_indices_decide(nodes, i + 1, next, reach, p, q, blocks);
    }
}

/// Whether a unit can be compiled from the arrangement of its blocks: every block is sound, the
/// arrangement has a dispatcher at its start, each block that control can go to is there, and
/// their indices have 16 bits.
pub fn can_be_compiled(structure: &Vec<WasmStructure>, unit: &Unit) -> (r: bool)
    ensures
        r == (unit.wf() && jit_module::structure_fits(structure@, unit.blocks@)),
{
    if !unit_is_sound(unit) {
        return false;
    }
    let entries: Vec<u32> = match find_entries(structure) {
        Some(entries) => entries,
        None => return false,
    };
    if !are_distinct(&entries) {
        return false;
    }
    let table: Vec<u32> = index_blocks(&entries, &unit.blocks);
    if table.len() > 0x10000 {
        return false;
    }
    let plan = Plan {
        entries: entries.len(),
        table,
        main_loop: Label(0),
        brtable_default: Label(0),
        wasm_table_index: 0,
        state_flags: 0,
        ret_chaining: false,
        loop_safety: None,
    };
    let next: Vec<u32> = Vec::new();
    let reach: Vec<u32> = Vec::new();
    let r: bool = parts_are_fit(structure, 0, &next, &reach, &plan, &unit.blocks);
    proof {
        let none: Seq<u32> = Seq::empty();
        assert(next@ =~= none && reach@ =~= none);
        assert forall|p: Plan| p.table@ == plan.table@ implies #[trigger] jit_module::parts_fit(
            structure@,
            0,
            none,
            none,
            p,
            unit.blocks@,
        ) == r by {
            lemma_indices_decide(structure@, 0, none, none, p, plan, unit.blocks@);
        }
    }
    r
}

} // verus!
