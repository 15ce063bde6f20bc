//! Code of a whole function: its blocks, arranged in loops, blocks and dispatchers, between a
//! prologue that loads the registers and the epilogues that store them.
use vstd::prelude::*;
use crate::codegen_reg::{
    gen_debug_track_jit_exit, gen_fn0_const, gen_profiler_stat_increment, gen_set_eip_low_bits,
    gen_update_instruction_counter,
};
use crate::codegen_stack::gen_move_registers_from_locals_to_memory;
use crate::cpu_state;
use crate::cpu_state::{offset_in_page, CpuContext, Stat, AT_REG32};
use crate::jit_blocks;
use crate::jit_blocks::{find_block, BasicBlock};
use crate::jit_context::{
    CodegenCounters, CodegenEnv, Ctx, Instruction, JitContext, UnitState, X87LocalCacheSlot,
};
use crate::jit_emit;
use crate::jit_emit::{jit_generate_basic_block, Unit};
use crate::jit_exits;
use crate::jit_exits::{find_target, gen_block_exit, has_addr, Plan, Target, TARGET_LOCAL};
use crate::wasm;
use crate::wasm::{
    Bin, BlockType, Emit, FlagLocals, FlagSlot, Label, LocalType, Op, Options, Sig, WasmBuilder,
    WasmLocal, Width, E,
};

verus! {

broadcast use {crate::wasm::group_code, crate::codegen_reg::group_events};

/// Dispatchers with more entries use a branch table.
pub const BRTABLE_CUTOFF: usize = 10;

/// How the blocks of a function are arranged.
pub enum WasmStructure {
    BasicBlock(u32),
    /// Goes to the block that the target index names.
    Dispatcher(Vec<u32>),
    /// Branches to the first part start the loop again.
    Loop(Vec<WasmStructure>),
    /// Branches to what follows leave the block.
    Block(Vec<WasmStructure>),
}

/// The blocks that a part of the function starts with.
pub open spec fn head(node: WasmStructure) -> Seq<u32>
    decreases node,
{
    match node {
        WasmStructure::BasicBlock(addr) => seq![addr],
        WasmStructure::Dispatcher(entries) => entries@,
        WasmStructure::Loop(children) => if children@.len() == 0 {
            Seq::empty()
        } else {
            head(children@[0])
        },
        WasmStructure::Block(children) => if children@.len() == 0 {
            Seq::empty()
        } else {
            head(children@[0])
        },
    }
}

/// The blocks that the function can be entered at: those of its first dispatcher.
pub open spec fn entry_blocks(nodes: Seq<WasmStructure>) -> Option<Seq<u32>>
    decreases nodes,
{
    if nodes.len() == 0 {
        None
    } else {
        match nodes[0] {
            WasmStructure::Dispatcher(entries) => Some(entries@),
            WasmStructure::Block(children) => entry_blocks(children@),
            _ => None,
        }
    }
}

impl WasmStructure {
    /// The blocks that this part starts with.
    pub fn head(&self) -> (r: Vec<u32>)
        ensures
            r@ == head(*self),
        decreases self,
    {
        match self {
            WasmStructure::BasicBlock(addr) => {
                let mut r: Vec<u32> = Vec::new();
                r.push(*addr);
                assert(r@ =~= seq![*addr]);
                r
            },
            WasmStructure::Dispatcher(entries) => copied(entries),
            WasmStructure::Loop(children) => if children.len() == 0 {
                Vec::new()
            } else {
                children[0].head()
            },
            WasmStructure::Block(children) => if children.len() == 0 {
                Vec::new()
            } else {
                children[0].head()
            },
        }
    }
}

pub(crate) fn copied(v: &Vec<u32>) -> (r: Vec<u32>)
    ensures
        r@ == v@,
{
    let n: usize = v.len();
    let mut r: Vec<u32> = Vec::new();
    let mut i: usize = 0;
    while i < n
        invariant
            i <= n,
            n == v@.len(),
            r@ == v@.take(i as int),
        decreases n - i,
    {
        r.push(v[i]);
        i = i + 1;
        assert(r@ =~= v@.take(i as int));
    }
    assert(v@.take(n as int) =~= v@);
    r
}

pub(crate) fn find_entries(nodes: &Vec<WasmStructure>) -> (r: Option<Vec<u32>>)
    ensures
        match r {
            Some(entries) => entry_blocks(nodes@) == Some(entries@),
            None => entry_blocks(nodes@) is None,
        },
    decreases nodes,
{
    if nodes.len() == 0 {
        return None;
    }
    match &nodes[0] {
        WasmStructure::Dispatcher(entries) => Some(copied(entries)),
        WasmStructure::Block(children) => find_entries(children),
        _ => None,
    }
}

/// The blocks in the order of their indices: the entries, then the first `n` of the others.
pub open spec fn table_of(entries: Seq<u32>, blocks: Seq<BasicBlock>, n: nat) -> Seq<u32>
    decreases n,
{
    if n == 0 {
        entries
    } else {
        let table = table_of(entries, blocks, (n - 1) as nat);
        if table.contains(blocks[n - 1].addr) {
            table
        } else {
            table.push(blocks[n - 1].addr)
        }
    }
}

pub(crate) fn index_blocks(entries: &Vec<u32>, blocks: &Vec<BasicBlock>) -> (table: Vec<u32>)
    requires
        entries@.no_duplicates(),
    ensures
        table@ == table_of(entries@, blocks@, blocks@.len()),
        table@.no_duplicates(),
        table@.len() <= entries@.len() + blocks@.len(),
        entries@.len() <= table@.len(),
        forall|i: int| 0 <= i < entries@.len() ==> table@[i] == entries@[i],
{
    let n: usize = blocks.len();
    let mut table: Vec<u32> = copied(entries);
    let mut i: usize = 0;
    while i < n
        invariant
            i <= n,
            n == blocks@.len(),
            table@ == table_of(entries@, blocks@, i as nat),
            table@.no_duplicates(),
            entries@.len() <= table@.len() <= entries@.len() + i,
            forall|j: int| 0 <= j < entries@.len() ==> table@[j] == entries@[j],
        decreases n - i,
    {
        if !has_addr(&table, blocks[i].addr) {
            table.push(blocks[i].addr);
        }
        i = i + 1;
    }
    table
}

/// The targets that are in scope inside a loop or block, the first `n` of `addrs` among them.
pub open spec fn entered(
    scope: Seq<Target>,
    addrs: Seq<u32>,
    label: Label,
    plan: Plan,
    n: nat,
) -> Seq<Target>
    decreases n,
{
    if n == 0 {
        scope
    } else {
        let addr = addrs[n - 1];
        let index = if addrs.len() == 1 {
            None
        } else {
            Some(plan.index(addr))
        };
        entered(scope, addrs, label, plan, (n - 1) as nat).push(Target { addr, label, index })
    }
}

/// The cases of a branch table: each of the first `n` entries at its index.
pub open spec fn cases(entries: Seq<u32>, scope: Seq<Target>, plan: Plan, n: nat) -> Seq<Label>
    decreases n,
{
    if n == 0 {
        Seq::empty()
    } else {
        let before = cases(entries, scope, plan, (n - 1) as nat);
        let addr = entries[n - 1];
        let index = plan.index(addr) as int;
        let label = (jit_exits::target_of(scope, addr)->0).label;
        padded(before, index + 1, plan.brtable_default).update(index, label)
    }
}

/// At least `n` cases, the missing ones being the default.
pub open spec fn padded(cases: Seq<Label>, n: int, default: Label) -> Seq<Label> {
    if n <= cases.len() {
        cases
    } else {
        cases + Seq::new((n - cases.len()) as nat, |i: int| default)
    }
}

impl Emit {
    /// The cases of a branch table from the first `n` on.
    pub open spec fn cased(self, cases: Seq<Label>, n: nat) -> Emit
        decreases n,
    {
        if n == 0 {
            self
        } else {
            self.cased(cases, (n - 1) as nat).op(Op::BrCase(cases[n - 1]))
        }
    }

    /// Comparisons of the target index with the first `n` entries. The entries in `next` are
    /// left out: control falls through to them.
    pub open spec fn compared(
        self,
        entries: Seq<u32>,
        next: Seq<u32>,
        scope: Seq<Target>,
        plan: Plan,
        n: nat,
    ) -> Emit
        decreases n,
    {
        if n == 0 {
            self
        } else {
            let e = self.compared(entries, next, scope, plan, (n - 1) as nat);
            let addr = entries[n - 1];
            if next.contains(addr) {
                e
            } else {
                e.val(
                    E::L(TARGET_LOCAL).binc(Bin::Eq, plan.index(addr) as i32),
                ).op(Op::BrIf((jit_exits::target_of(scope, addr)->0).label, None))
            }
        }
    }

    /// A dispatcher.
    #[verifier::opaque]
    pub open spec fn dispatched(
        self,
        entries: Seq<u32>,
        next: Seq<u32>,
        scope: Seq<Target>,
        plan: Plan,
    ) -> Emit {
        let e = if self.opt.profiler {
            self.val(
                E::L(TARGET_LOCAL).both(E::C(plan.table@.len() as i32)).call(
                    "check_dispatcher_target",
                    Sig::Fn2,
                ),
            )
        } else {
            self
        };
        if entries.len() > BRTABLE_CUTOFF {
            let cases = cases(entries, scope, plan, entries.len());
            e.profile(Stat::DispatcherLarge).val(E::L(TARGET_LOCAL)).op(
                Op::BrTable(cases.len() as usize),
            ).cased(cases, cases.len()).op(Op::BrCase(plan.brtable_default))
        } else {
            e.profile(Stat::DispatcherSmall).compared(entries, next, scope, plan, entries.len())
        }
    }
}

impl Ctx {
    /// Control leaves the function once it has run as many instructions as the limit.
    #[verifier::opaque]
    pub open spec fn limited(self, limit: Option<i32>, addr: u32) -> Ctx {
        match limit {
            None => self,
            Some(count) => {
                let e = self.e.val(E::L(self.st.instruction_counter.0).binc(Bin::GeU, count));
                self.on(
                    if e.opt.profiler {
                        e.op(Op::If(BlockType::Void, None)).track_exit(addr).br(
                            self.st.exit_label,
                        ).end()
                    } else {
                        e.op(Op::BrIf(self.st.exit_label, None))
                    },
                )
            },
        }
    }

    /// The start of a loop.
    #[verifier::opaque]
    pub open spec fn looped(self, entries: Seq<u32>, plan: Plan) -> Ctx {
        let e = self.e.op(Op::Loop).profile(Stat::Loop);
        if entries.len() == 1 {
            self.on(
                e.set_eip(E::eip_at(cpu_state::page_offset(entries[0]))).profile(
                    Stat::LoopSafety,
                ),
            ).limited(plan.loop_safety, entries[0])
        } else {
            self.on(e)
        }
    }

    /// The code of the parts of the function from the `i`-th on. `next` holds the blocks that
    /// the code after them starts with, `scope` those that a branch can go to.
    #[verifier::opaque]
    pub open spec fn parts(
        self,
        nodes: Seq<WasmStructure>,
        i: nat,
        next: Seq<u32>,
        scope: Seq<Target>,
        plan: Plan,
        unit: Unit,
        step: spec_fn(Ctx) -> (Ctx, u32),
    ) -> Ctx
        decreases nodes, nodes.len() - i,
    {
        if i >= nodes.len() {
            self
        } else {
            let node = nodes[i as int];
            let after = following(nodes, i, next);
            let c = match node {
                WasmStructure::BasicBlock(addr) => self.one_block(
                    addr,
                    after,
                    scope,
                    plan,
                    unit,
                    step,
                ),
                WasmStructure::Dispatcher(entries) => self.on(
                    self.e.dispatched(entries@, after, scope, plan),
                ),
                WasmStructure::Loop(children) => {
                    let entries = head(node);
                    let inside = entered(scope, entries, self.e.label(), plan, entries.len());
                    self.looped(entries, plan).parts(
                        children@,
                        0,
                        after,
                        inside,
                        plan,
                        unit,
                        step,
                    ).emit(Op::End)
                },
                WasmStructure::Block(children) => {
                    let inside = entered(scope, after, self.e.label(), plan, after.len());
                    self.emit(Op::Block(BlockType::Void)).parts(
                        children@,
                        0,
                        after,
                        inside,
                        plan,
                        unit,
                        step,
                    ).emit(Op::End)
                },
            };
            c.parts(nodes, i + 1, next, scope, plan, unit, step)
        }
    }

    /// The code of a block and of its end.
    #[verifier::opaque]
    pub open spec fn one_block(
        self,
        addr: u32,
        next: Seq<u32>,
        scope: Seq<Target>,
        plan: Plan,
        unit: Unit,
        step: spec_fn(Ctx) -> (Ctx, u32),
    ) -> Ctx {
        match jit_blocks::block_at(unit.blocks@, addr) {
            Some(i) => self.block_code(unit.blocks@[i], unit, step).ended(
                unit.blocks@[i],
                next,
                scope,
                plan,
                unit,
            ),
            None => self,
        }
    }
}

/// The blocks that the code after the `i`-th part starts with.
pub open spec fn following(nodes: Seq<WasmStructure>, i: nat, next: Seq<u32>) -> Seq<u32> {
    if i + 1 < nodes.len() {
        head(nodes[i as int + 1])
    } else {
        next
    }
}

/// Every address has an index.
pub open spec fn all_indexed(addrs: Seq<u32>, plan: Plan) -> bool {
    forall|i: int| 0 <= i < addrs.len() ==> plan.knows(#[trigger] addrs[i])
}

/// The block is there, and so is every block that control can go to from it.
pub open spec fn one_block_fits(
    addr: u32,
    next: Seq<u32>,
    reach: Seq<u32>,
    plan: Plan,
    blocks: Seq<BasicBlock>,
) -> bool {
    match jit_blocks::block_at(blocks, addr) {
        Some(i) => blocks[i].has_sti || jit_exits::block_fits(blocks[i], next, reach, plan),
        None => false,
    }
}

/// Every entry of the dispatcher has an index and a place to go to.
pub open spec fn dispatcher_fits(
    entries: Seq<u32>,
    next: Seq<u32>,
    reach: Seq<u32>,
    plan: Plan,
) -> bool {
    &&& all_indexed(entries, plan)
    &&& forall|i: int|
        0 <= i < entries.len() ==> {
            ||| entries.len() <= BRTABLE_CUTOFF && next.contains(#[trigger] entries[i])
            ||| reach.contains(entries[i])
        }
}

/// Every block of the parts from the `i`-th on is there, and so is every block that control
/// can go to from them.
pub open spec fn parts_fit(
    nodes: Seq<WasmStructure>,
    i: nat,
    next: Seq<u32>,
    reach: Seq<u32>,
    plan: Plan,
    blocks: Seq<BasicBlock>,
) -> bool
    decreases nodes, nodes.len() - i,
{
    i >= nodes.len() || {
        let after = following(nodes, i, next);
        &&& match nodes[i as int] {
            WasmStructure::BasicBlock(addr) => one_block_fits(addr, after, reach, plan, blocks),
            WasmStructure::Dispatcher(entries) => dispatcher_fits(entries@, after, reach, plan),
            WasmStructure::Loop(children) => {
                let entries = head(nodes[i as int]);
                &&& children@.len() > 0
                &&& entries.len() != 1 ==> all_indexed(entries, plan)
                &&& parts_fit(children@, 0, after, reach + entries, plan, blocks)
            },
            WasmStructure::Block(children) => {
                &&& after.len() > 0
                &&& after.len() != 1 ==> all_indexed(after, plan)
                &&& parts_fit(children@, 0, after, reach + after, plan, blocks)
            },
        }
        &&& parts_fit(nodes, i + 1, next, reach, plan, blocks)
    }
}

fn enter(scope: &mut Vec<Target>, addrs: &Vec<u32>, label: Label, plan: &Plan)
    requires
        plan.wf(),
        addrs@.len() != 1 ==> all_indexed(addrs@, *plan),
    ensures
        final(scope)@ == entered(old(scope)@, addrs@, label, *plan, addrs@.len()),
        final(scope)@.len() == old(scope)@.len() + addrs@.len(),
        final(scope)@.take(old(scope)@.len() as int) == old(scope)@,
        jit_exits::addresses(final(scope)@) == jit_exits::addresses(old(scope)@) + addrs@,
{
    let n: usize = addrs.len();
    let mut i: usize = 0;
    assert(jit_exits::addresses(scope@) =~= jit_exits::addresses(old(scope)@) + addrs@.take(0));
    assert(scope@.take(old(scope)@.len() as int) =~= old(scope)@);
    while i < n
        invariant
            i <= n,
            n == addrs@.len(),
            plan.wf(),
            addrs@.len() != 1 ==> all_indexed(addrs@, *plan),
            scope@ == entered(old(scope)@, addrs@, label, *plan, i as nat),
            scope@.len() == old(scope)@.len() + i,
            scope@.take(old(scope)@.len() as int) == old(scope)@,
            jit_exits::addresses(scope@) == jit_exits::addresses(old(scope)@) + addrs@.take(
                i as int,
            ),
        decreases n - i,
    {
        let addr: u32 = addrs[i];
        let index: Option<u16> = if n == 1 {
            None
        } else {
            assert(plan.knows(addrs@[i as int]));
            plan.index_for_addr(addr)
        };
        let ghost before = scope@;
        scope.push(Target { addr, label, index });
        i = i + 1;
        assert(scope@.take(old(scope)@.len() as int) =~= old(scope)@);
        assert(jit_exits::addresses(scope@) =~= jit_exits::addresses(before).push(addr));
        assert(addrs@.take(i as int) =~= addrs@.take(i - 1).push(addr));
        assert(jit_exits::addresses(scope@) =~= jit_exits::addresses(old(scope)@) + addrs@.take(
            i as int,
        ));
    }
    assert(addrs@.take(n as int) =~= addrs@);
}

fn branch_cases(entries: &Vec<u32>, scope: &Vec<Target>, plan: &Plan) -> (r: Vec<Label>)
    requires
        plan.wf(),
        all_indexed(entries@, *plan),
        forall|i: int|
            0 <= i < entries@.len() ==> jit_exits::addresses(scope@).contains(
                #[trigger] entries@[i],
            ),
    ensures
        r@ == cases(entries@, scope@, *plan, entries@.len()),
{
    let n: usize = entries.len();
    let mut r: Vec<Label> = Vec::new();
    let mut i: usize = 0;
    while i < n
        invariant
            i <= n,
            n == entries@.len(),
            plan.wf(),
            all_indexed(entries@, *plan),
            forall|i: int|
                0 <= i < entries@.len() ==> jit_exits::addresses(scope@).contains(
                    #[trigger] entries@[i],
                ),
            r@ == cases(entries@, scope@, *plan, i as nat),
        decreases n - i,
    {
        let ghost before = r@;
        let addr: u32 = entries[i];
        assert(plan.knows(entries@[i as int]));
        if let Some(index) = plan.index_for_addr(addr) {
            if let Some(target) = find_target(scope, addr) {
                assert(r@ =~= before + Seq::new(0, |j: int| plan.brtable_default));
                while r.len() <= index as usize
                    invariant
                        r@ == before || r@.len() <= index + 1,
                        r@.len() >= before.len(),
                        r@ == before + Seq::new(
                            (r@.len() - before.len()) as nat,
                            |j: int| plan.brtable_default,
                        ),
                    decreases index + 1 - r@.len(),
                {
                    let ghost m = r@.len() - before.len();
                    r.push(plan.brtable_default);
                    assert(r@ =~= before + Seq::new(
                        (m + 1) as nat,
                        |j: int| plan.brtable_default,
                    ));
                }
                assert(r@ =~= padded(before, index + 1, plan.brtable_default));
                r.set(index as usize, target.label);
            }
        }
        i = i + 1;
    }
    r
}

fn gen_dispatcher(
    builder: &mut WasmBuilder,
    entries: &Vec<u32>,
    next: &Vec<u32>,
    scope: &Vec<Target>,
    plan: &Plan,
)
    requires
        plan.wf(),
        dispatcher_fits(entries@, next@, jit_exits::addresses(scope@), *plan),
    ensures
        final(builder)@ == old(builder)@.dispatched(entries@, next@, scope@, *plan),
{
    reveal(Emit::dispatched);
    if builder.opt.profiler {
        builder.get_local(WasmLocal(TARGET_LOCAL));
        builder.const_i32(plan.table.len() as i32);
        builder.call("check_dispatcher_target", Sig::Fn2);
    }
    let n: usize = entries.len();
    if n > BRTABLE_CUTOFF {
        gen_profiler_stat_increment(builder, Stat::DispatcherLarge);
        let cases: Vec<Label> = branch_cases(entries, scope, plan);
        builder.get_local(WasmLocal(TARGET_LOCAL));
        let m: usize = cases.len();
        builder.emit(Op::BrTable(m));
        let ghost opened = builder@;
        let mut i: usize = 0;
        while i < m
            invariant
                i <= m,
                m == cases@.len(),
                builder@ == opened.cased(cases@, i as nat),
            decreases m - i,
        {
            builder.emit(Op::BrCase(cases[i]));
            i = i + 1;
        }
        builder.emit(Op::BrCase(plan.brtable_default));
    } else {
        gen_profiler_stat_increment(builder, Stat::DispatcherSmall);
        let ghost opened = builder@;
        let mut i: usize = 0;
        while i < n
            invariant
                i <= n,
                n == entries@.len(),
                n <= BRTABLE_CUTOFF,
                plan.wf(),
                dispatcher_fits(entries@, next@, jit_exits::addresses(scope@), *plan),
                builder@ == opened.compared(entries@, next@, scope@, *plan, i as nat),
            decreases n - i,
        {
            let addr: u32 = entries[i];
            if !has_addr(next, addr) {
                assert(plan.knows(entries@[i as int]));
                if let Some(index) = plan.index_for_addr(addr) {
                    if let Some(target) = find_target(scope, addr) {
                        builder.get_local(WasmLocal(TARGET_LOCAL));
                        builder.binc(Bin::Eq, index as i32);
                        builder.br_if(target.label);
                    }
                }
            }
            i = i + 1;
        }
    }
}

fn gen_limit(ctx: &mut JitContext, limit: Option<i32>, addr: u32)
    ensures
        final(ctx)@ == old(ctx)@.limited(limit, addr),
        final(ctx)@.st == old(ctx)@.st,
        final(ctx)@.x87 == old(ctx)@.x87,
{
    reveal(Ctx::limited);
    if let Some(count) = limit {
        ctx.builder.get_local(ctx.st.instruction_counter);
        ctx.builder.binc(Bin::GeU, count);
        if ctx.builder.opt.profiler {
            ctx.builder.if_void();
            gen_debug_track_jit_exit(&mut ctx.builder, addr);
            ctx.builder.br(ctx.st.exit_label);
            ctx.builder.block_end();
        } else {
            ctx.builder.br_if(ctx.st.exit_label);
        }
    }
}

fn gen_loop(ctx: &mut JitContext, entries: &Vec<u32>, plan: &Plan) -> (l: Label)
    ensures
        final(ctx)@ == old(ctx)@.looped(entries@, *plan),
        l == old(ctx)@.e.label(),
        old(ctx)@.wf() ==> final(ctx)@.wf(),
{
    reveal(Ctx::looped);
    let label: Label = ctx.builder.loop_void();
    gen_profiler_stat_increment(&mut ctx.builder, Stat::Loop);
    if entries.len() == 1 {
        let addr: u32 = entries[0];
        let low: i32 = offset_in_page(addr);
        gen_set_eip_low_bits(&mut ctx.builder, low);
        gen_profiler_stat_increment(&mut ctx.builder, Stat::LoopSafety);
        gen_limit(ctx, plan.loop_safety, addr);
    }
    label
}

fn gen_one_block<F: Fn(JitContext) -> (JitContext, u32)>(
    context: JitContext,
    addr: u32,
    next: &Vec<u32>,
    scope: &Vec<Target>,
    plan: &Plan,
    unit: &Unit,
    jit_instruction: &F,
) -> (r: JitContext)
    requires
        context@.wf(),
        unit.wf(),
        plan.wf(),
        one_block_fits(addr, next@, jit_exits::addresses(scope@), *plan, unit.blocks@),
        jit_emit::acts_as(*jit_instruction, jit_emit::action(*jit_instruction)),
    ensures
        r@ == context@.one_block(
            addr,
            next@,
            scope@,
            *plan,
            *unit,
            jit_emit::action(*jit_instruction),
        ),
        r@.wf(),
{
    reveal(Ctx::one_block);
    let mut ctx: JitContext = context;
    if let Some(i) = find_block(&unit.blocks, addr) {
        ctx = jit_generate_basic_block(ctx, &unit.blocks[i], unit, jit_instruction);
        gen_block_exit(&mut ctx, &unit.blocks[i], next, scope, plan, unit);
    }
    ctx
}

fn gen_parts<F: Fn(JitContext) -> (JitContext, u32)>(
    context: JitContext,
    nodes: &Vec<WasmStructure>,
    i: usize,
    next: &Vec<u32>,
    scope: &mut Vec<Target>,
    plan: &Plan,
    unit: &Unit,
    jit_instruction: &F,
) -> (r: JitContext)
    requires
        context@.wf(),
        unit.wf(),
        plan.wf(),
        parts_fit(
            nodes@,
            i as nat,
            next@,
            jit_exits::addresses(old(scope)@),
            *plan,
            unit.blocks@,
        ),
        jit_emit::acts_as(*jit_instruction, jit_emit::action(*jit_instruction)),
    ensures
        r@ == context@.parts(
            nodes@,
            i as nat,
            next@,
            old(scope)@,
            *plan,
            *unit,
            jit_emit::action(*jit_instruction),
        ),
        r@.wf(),
        final(scope)@ == old(scope)@,
    decreases nodes, nodes@.len() - i,
{
    reveal_with_fuel(Ctx::parts, 1);
    let n: usize = nodes.len();
    if i >= n {
        return context;
    }
    let after: Vec<u32> = if i + 1 < n {
        nodes[i + 1].head()
    } else {
        copied(next)
    };
    let outside: usize = scope.len();
    let ghost before = scope@;
    let mut ctx: JitContext = context;
    match &nodes[i] {
        WasmStructure::BasicBlock(addr) => {
            ctx = gen_one_block(ctx, *addr, &after, &*scope, plan, unit, jit_instruction);
        },
        WasmStructure::Dispatcher(entries) => {
            gen_dispatcher(&mut ctx.builder, entries, &after, &*scope, plan);
        },
        WasmStructure::Loop(children) => {
            let entries: Vec<u32> = nodes[i].head();
            let label: Label = gen_loop(&mut ctx, &entries, plan);
            enter(scope, &entries, label, plan);
            ctx = gen_parts(ctx, children, 0, &after, scope, plan, unit, jit_instruction);
            scope.truncate(outside);
            assert(scope@ =~= before);
            ctx.builder.block_end();
        },
        WasmStructure::Block(children) => {
            let label: Label = ctx.builder.block(BlockType::Void);
            enter(scope, &after, label, plan);
            ctx = gen_parts(ctx, children, 0, &after, scope, plan, unit, jit_instruction);
            scope.truncate(outside);
            assert(scope@ =~= before);
            ctx.builder.block_end();
        },
    }
    gen_parts(ctx, nodes, i + 1, next, scope, plan, unit, jit_instruction)
}

/// What is chosen for a function before it is compiled.
pub struct Choices {
    pub options: Options,
    pub cpu: CpuContext,
    pub env: CodegenEnv,
    /// Stores go through the store map.
    pub fastmem_writes: bool,
    /// The flag state lives in locals.
    pub flag_locals: bool,
    pub wasm_table_index: u16,
    pub state_flags: u32,
    pub ret_chaining: bool,
    /// Loops are left after so many instructions.
    pub loop_safety: Option<i32>,
}

impl Emit {
    /// No code yet, for a function with one argument.
    pub open spec fn fresh(opt: Options) -> Emit {
        Emit {
            code: Seq::empty(),
            locals: seq![LocalType::I32],
            free_i32: Seq::empty(),
            free_i64: Seq::empty(),
            flag_locals: None,
            opt,
        }
    }

    /// The first `n` registers are loaded into new locals.
    pub open spec fn loaded_regs(self, n: nat) -> Emit
        decreases n,
    {
        if n == 0 {
            self
        } else {
            self.loaded_regs((n - 1) as nat).set_new(
                E::fixed(Width::A32, cpu_state::reg32_address(n - 1) as u32),
            )
        }
    }

    /// A word of the flag state is loaded into a new local.
    pub open spec fn loaded_flag(self, slot: FlagSlot) -> Emit {
        self.set_new(E::fixed(Width::A32, wasm::flag_address(slot)))
    }

    /// The flag state is loaded into new locals, which stand for it from here on.
    #[verifier::opaque]
    pub open spec fn loaded_flags(self) -> Emit {
        let e1 = self.loaded_flag(FlagSlot::LastOp1);
        let e2 = e1.loaded_flag(FlagSlot::LastResult);
        let e3 = e2.loaded_flag(FlagSlot::LastOpSize);
        let e4 = e3.loaded_flag(FlagSlot::FlagsChanged);
        let e5 = e4.loaded_flag(FlagSlot::Flags);
        Emit {
            flag_locals: Some(
                FlagLocals {
                    last_op1: WasmLocal(self.next_i32()),
                    last_result: WasmLocal(e1.next_i32()),
                    last_op_size: WasmLocal(e2.next_i32()),
                    flags_changed: WasmLocal(e3.next_i32()),
                    flags: WasmLocal(e4.next_i32()),
                },
            ),
            ..e5
        }
    }
}

/// The locals of the registers.
pub open spec fn register_locals(e: Emit) -> Seq<WasmLocal> {
    Seq::new(8, |i: int| WasmLocal(e.loaded_regs(i as nat).next_i32()))
}

/// No optional path has been compiled yet.
pub open spec fn no_counts() -> CodegenCounters {
    CodegenCounters {
        speculated_stores: 0,
        push_sites: 0,
        push_reuse_branches: 0,
        x87_load_sites: 0,
        x87_stores: 0,
        x87_invalidates: 0,
    }
}

/// What the prologue of a function leaves: the code so far, the labels, and the state of the
/// unit.
pub open spec fn opened(c: Ctx, plan: Plan, choices: Choices) -> bool {
    let start = Emit::fresh(choices.options);
    let regs = start.loaded_regs(8);
    let counter = regs.next_i32();
    let counted = regs.set_new(E::C(0));
    let flagged = if choices.flag_locals {
        counted.loaded_flags()
    } else {
        counted
    };
    let exit = flagged.op(Op::Block(BlockType::Void));
    let fault = exit.op(Op::Block(BlockType::Void));
    let looped = c.on(fault.op(Op::Loop)).limited(choices.loop_safety, 0);
    &&& c.e == looped.e.op(Op::Block(BlockType::Void))
    &&& c.x87 == Seq::new(8, |i: int| None::<X87LocalCacheSlot>)
    &&& c.st.cpu == choices.cpu
    &&& c.st.regs@ == register_locals(start)
    &&& c.st.start_of_current_instruction == 0
    &&& c.st.current_bytes == 0
    &&& c.st.exit_label == flagged.label()
    &&& c.st.exit_with_fault_label == exit.label()
    &&& c.st.current_instruction == Instruction::Other
    &&& c.st.previous_instruction == Instruction::Other
    &&& !c.st.fpu_simd_dirty_marked
    &&& !c.st.elide_current_flags
    &&& c.st.instruction_counter == WasmLocal(counter)
    &&& c.st.fastmem_writes == choices.fastmem_writes
    &&& c.st.push32_write_cache is None
    &&& c.st.read_tlb_cache is None
    &&& c.st.perm_map_off is None
    &&& c.st.fpu_pc_cache is None
    &&& !c.st.fpu_pc_cache_kept
    &&& !c.st.x87_cache_kept
    &&& c.st.env == choices.env
    &&& c.st.counters == no_counts()
    &&& plan.main_loop == fault.label()
    &&& plan.brtable_default == looped.e.label()
    &&& plan.wasm_table_index == choices.wasm_table_index
    &&& plan.state_flags == choices.state_flags
    &&& plan.ret_chaining == choices.ret_chaining
    &&& plan.loop_safety == choices.loop_safety
}

impl Ctx {
    /// The epilogues: after a block that the dispatcher did not find, after a fault, and at
    /// the end.
    #[verifier::opaque]
    pub open spec fn closed_off(self) -> Ctx {
        let c = self.emit(Op::End).emit(Op::Br(self.st.exit_label)).emit(Op::End).emit(Op::End);
        let d = c.on(c.spilled_regs(8).spill_flags());
        let f = d.emit(Op::Call("trigger_fault_end_jit", Sig::Fn0)).counted().emit(
            Op::Return,
        ).emit(Op::End);
        f.on(f.spilled_regs(8).spill_flags()).counted()
    }
}

fn gen_load_regs(builder: &mut WasmBuilder) -> (regs: Vec<WasmLocal>)
    ensures
        final(builder)@ == old(builder)@.loaded_regs(8),
        regs@ == register_locals(old(builder)@),
{
    let mut regs: Vec<WasmLocal> = Vec::new();
    let mut i: u32 = 0;
    while i < 8
        invariant
            i <= 8,
            builder@ == old(builder)@.loaded_regs(i as nat),
            regs@.len() == i,
            forall|j: int|
                0 <= j < i ==> (#[trigger] regs@[j]).0 == old(builder)@.loaded_regs(
                    j as nat,
                ).next_i32(),
        decreases 8 - i,
    {
        builder.load_fixed(Width::A32, AT_REG32 + 4 * i);
        let l: WasmLocal = builder.set_new_local();
        regs.push(l);
        i = i + 1;
    }
    assert(regs@ =~= register_locals(old(builder)@));
    regs
}

fn gen_load_flag(builder: &mut WasmBuilder, slot: FlagSlot) -> (l: WasmLocal)
    ensures
        final(builder)@ == old(builder)@.loaded_flag(slot),
        l.0 == old(builder)@.next_i32(),
{
    builder.load_fixed(Width::A32, wasm::flag_slot_address(slot));
    builder.set_new_local()
}

fn gen_load_flags(builder: &mut WasmBuilder)
    ensures
        final(builder)@ == old(builder)@.loaded_flags(),
{
    reveal(Emit::loaded_flags);
    let last_op1: WasmLocal = gen_load_flag(builder, FlagSlot::LastOp1);
    let last_result: WasmLocal = gen_load_flag(builder, FlagSlot::LastResult);
    let last_op_size: WasmLocal = gen_load_flag(builder, FlagSlot::LastOpSize);
    let flags_changed: WasmLocal = gen_load_flag(builder, FlagSlot::FlagsChanged);
    let flags: WasmLocal = gen_load_flag(builder, FlagSlot::Flags);
    builder.flag_locals = Some(
        FlagLocals { last_op1, last_result, last_op_size, flags_changed, flags },
    );
}

fn gen_close_off(ctx: &mut JitContext)
    requires
        old(ctx)@.wf(),
    ensures
        final(ctx)@ == old(ctx)@.closed_off(),
{
    reveal(Ctx::closed_off);
    ctx.builder.block_end();
    ctx.builder.br(ctx.st.exit_label);
    ctx.builder.block_end();
    ctx.builder.block_end();
    gen_move_registers_from_locals_to_memory(ctx);
    gen_fn0_const(&mut ctx.builder, "trigger_fault_end_jit");
    gen_update_instruction_counter(ctx);
    ctx.builder.emit(Op::Return);
    ctx.builder.block_end();
    gen_move_registers_from_locals_to_memory(ctx);
    gen_update_instruction_counter(ctx);
}

fn open_module(choices: &Choices, entries: usize, table: Vec<u32>) -> (r: (JitContext, Plan))
    ensures
        opened(r.0@, r.1, *choices),
        r.0@.wf(),
        r.1.entries == entries,
        r.1.table@ == table@,
{
    let mut builder: WasmBuilder = WasmBuilder::new(choices.options, 1);
    assert(builder@.locals =~= seq![LocalType::I32]);
    assert(builder@ == Emit::fresh(choices.options));
    let regs: Vec<WasmLocal> = gen_load_regs(&mut builder);
    builder.const_i32(0);
    let instruction_counter: WasmLocal = builder.set_new_local();
    if choices.flag_locals {
        gen_load_flags(&mut builder);
    }
    let exit_label: Label = builder.block(BlockType::Void);
    let exit_with_fault_label: Label = builder.block(BlockType::Void);
    let main_loop: Label = builder.loop_void();
    let mut x87_local_cache: Vec<Option<X87LocalCacheSlot>> = Vec::new();
    let mut i: usize = 0;
    while i < 8
        invariant
            i <= 8,
            x87_local_cache@ == Seq::new(i as nat, |i: int| None::<X87LocalCacheSlot>),
        decreases 8 - i,
    {
        x87_local_cache.push(None);
        i = i + 1;
        assert(x87_local_cache@ =~= Seq::new(i as nat, |i: int| None::<X87LocalCacheSlot>));
    }
    let mut ctx: JitContext = JitContext {
        builder,
        x87_local_cache,
        st: UnitState {
            cpu: choices.cpu,
            regs,
            start_of_current_instruction: 0,
            current_bytes: 0,
            exit_with_fault_label,
            exit_label,
            current_instruction: Instruction::Other,
            previous_instruction: Instruction::Other,
            fpu_simd_dirty_marked: false,
            elide_current_flags: false,
            instruction_counter,
            fastmem_writes: choices.fastmem_writes,
            push32_write_cache: None,
            read_tlb_cache: None,
            perm_map_off: None,
            fpu_pc_cache: None,
            fpu_pc_cache_kept: false,
            x87_cache_kept: false,
            env: choices.env,
            counters: CodegenCounters {
                speculated_stores: 0,
                push_sites: 0,
                push_reuse_branches: 0,
                x87_load_sites: 0,
                x87_stores: 0,
                x87_invalidates: 0,
            },
        },
    };
    gen_limit(&mut ctx, choices.loop_safety, 0);
    let brtable_default: Label = ctx.builder.block(BlockType::Void);
    proof {
        reveal(Ctx::limited);
    }
    let plan: Plan = Plan {
        entries,
        table,
        main_loop,
        brtable_default,
        wasm_table_index: choices.wasm_table_index,
        state_flags: choices.state_flags,
        ret_chaining: choices.ret_chaining,
        loop_safety: choices.loop_safety,
    };
    (ctx, plan)
}

impl Ctx {
    /// With the flag locals, where they are in use, in memory during each call.
    pub open spec fn with_guarded_calls(self) -> Ctx {
        Ctx { e: self.e.guarded(), ..self }
    }
}

impl Ctx {
    /// The builder with the locals of the first `n` registers given back.
    pub open spec fn registers_given_back(self, n: int) -> Emit
        decreases n,
    {
        if n <= 0 {
            self.e
        } else {
            self.registers_given_back(n - 1).give_i32(self.st.regs@[n - 1].0)
        }
    }

    /// With the locals that live as long as the function given back.
    pub open spec fn with_locals_given_back(self) -> Ctx {
        let e = self.registers_given_back(self.st.regs@.len() as int).give_i32(
            self.st.instruction_counter.0,
        );
        let given = match self.e.flag_locals {
            Some(f) => e.give_i32(f.last_op1.0).give_i32(f.last_result.0).give_i32(
                f.last_op_size.0,
            ).give_i32(f.flags_changed.0).give_i32(f.flags.0),
            None => e,
        };
        Ctx { e: given, ..self }
    }
}

fn give_locals_back(ctx: &mut JitContext)
    ensures
        final(ctx)@ == old(ctx)@.with_locals_given_back(),
{
    let ghost before = ctx@;
    let flags: Option<FlagLocals> = ctx.builder.flag_locals;
    let n: usize = ctx.st.regs.len();
    let mut i: usize = 0;
    while i < n
        invariant
            i <= n == before.st.regs@.len(),
            before == old(ctx)@,
            ctx@ == (Ctx { e: before.registers_given_back(i as int), ..before }),
        decreases n - i,
    {
        let l: WasmLocal = ctx.st.regs[i];
        ctx.builder.free_local(l);
        i = i + 1;
    }
    let counter: WasmLocal = ctx.st.instruction_counter;
    ctx.builder.free_local(counter);
    if let Some(f) = flags {
        ctx.builder.free_local(f.last_op1);
        ctx.builder.free_local(f.last_result);
        ctx.builder.free_local(f.last_op_size);
        ctx.builder.free_local(f.flags_changed);
        ctx.builder.free_local(f.flags);
    }
}

/// The state after the function has been compiled, for some prologue that meets [`opened`].
pub open spec fn compiled(
    r: Ctx,
    structure: Seq<WasmStructure>,
    unit: Unit,
    choices: Choices,
    step: spec_fn(Ctx) -> (Ctx, u32),
) -> bool {
    exists|start: Ctx, plan: Plan|
        #![trigger opened(start, plan, choices)]
        {
            let entries = entry_blocks(structure)->0;
            &&& opened(start, plan, choices)
            &&& plan.entries == entries.len()
            &&& plan.table@ == table_of(entries, unit.blocks@, unit.blocks@.len())
            &&& r == start.parts(
                structure,
                0,
                Seq::empty(),
                Seq::empty(),
                plan,
                unit,
                step,
            ).closed_off().with_guarded_calls().with_locals_given_back()
        }
}

/// The arrangement has a dispatcher at its start, and holds every block that control can go
/// to. The index of a block has 16 bits.
pub open spec fn structure_fits(structure: Seq<WasmStructure>, blocks: Seq<BasicBlock>) -> bool {
    let entries = entry_blocks(structure)->0;
    let table = table_of(entries, blocks, blocks.len());
    &&& entry_blocks(structure) is Some
    &&& entries.no_duplicates()
    &&& table.len() <= 0x10000
    &&& forall|plan: Plan|
        plan.table@ == table ==> #[trigger] parts_fit(
            structure,
            0,
            Seq::empty(),
            Seq::empty(),
            plan,
            blocks,
        )
}

/// Compiles a function from the arrangement of its blocks. Returns the context with the code,
/// and the index of each block that the function can be entered at.
pub fn jit_generate_module<F: Fn(JitContext) -> (JitContext, u32)>(
    structure: &Vec<WasmStructure>,
    unit: &Unit,
    choices: &Choices,
    jit_instruction: &F,
) -> (r: (JitContext, Vec<(u32, u16)>))
    requires
        unit.wf(),
        structure_fits(structure@, unit.blocks@),
        jit_emit::acts_as(*jit_instruction, jit_emit::action(*jit_instruction)),
    ensures
        compiled(r.0@, structure@, *unit, *choices, jit_emit::action(*jit_instruction)),
        r.1@ == Seq::new(
            (entry_blocks(structure@)->0).len(),
            |i: int| ((entry_blocks(structure@)->0)[i], i as u16),
        ),
{
    let entries: Vec<u32> = match find_entries(structure) {
        Some(entries) => entries,
        None => Vec::new(),
    };
    let table: Vec<u32> = index_blocks(&entries, &unit.blocks);
    let n: usize = entries.len();
    let (start, plan): (JitContext, Plan) = open_module(choices, n, table);
    let next: Vec<u32> = Vec::new();
    let mut scope: Vec<Target> = Vec::new();
    assert(jit_exits::addresses(scope@) =~= Seq::empty());
    assert(next@ =~= Seq::empty());
    let ghost first = start@;
    let mut ctx: JitContext = gen_parts(
        start,
        structure,
        0,
        &next,
        &mut scope,
        &plan,
        unit,
        jit_instruction,
    );
    gen_close_off(&mut ctx);
    let ghost closed = ctx@;
    ctx.builder.guard_calls();
    assert(ctx@ == closed.with_guarded_calls());
    give_locals_back(&mut ctx);
    proof {
        assert(opened(first, plan, *choices));
    }
    let mut found: Vec<(u32, u16)> = Vec::new();
    let mut i: usize = 0;
    while i < n
        invariant
            i <= n,
            n == entries@.len(),
            n <= 0x10000,
            found@ == Seq::new(i as nat, |i: int| (entries@[i], i as u16)),
        decreases n - i,
    {
        found.push((entries[i], i as u16));
        i = i + 1;
        assert(found@ =~= Seq::new(i as nat, |i: int| (entries@[i], i as u16)));
    }
    (ctx, found)
}

} // verus!
