//! Code at the end of a basic block: where control goes next.
use vstd::prelude::*;
use crate::codegen_cond::{gen_condition_fn, gen_condition_fn_negated};
use crate::codegen_mem::gen_page_switch_check;
use crate::codegen_reg::{
    gen_debug_track_jit_exit, gen_dispatch_stat_increment, gen_fn0_const, gen_fn2_const,
    gen_get_eip, gen_profiler_stat_increment, gen_relative_jump, gen_set_eip_low_bits,
    gen_set_eip_low_bits_and_jump_rel32, gen_update_instruction_counter,
};
use crate::codegen_stack::{gen_jmp_rel16, gen_move_registers_from_locals_to_memory};
use crate::cpu_state;
use crate::cpu_state::{offset_in_page, Stat, AT_INSTRUCTION_COUNTER, CS};
use crate::jit_blocks::{BasicBlock, BasicBlockType};
use crate::jit_context::{Ctx, JitContext};
use crate::jit_emit::Unit;
use crate::wasm::{
    Bin, BlockType, Emit, Label, Op, Sig, WasmBuilder, WasmLocal, Width, E, HINT_GROUP_MEM,
    HINT_UNLIKELY,
};

verus! {

broadcast use {crate::wasm::group_code, crate::codegen_reg::group_events};

/// The argument of a compiled function: the index of the block to start with. While it runs,
/// the block that the next dispatcher goes to.
pub const TARGET_LOCAL: usize = 0;

/// A block that a branch can go to.
#[derive(Clone, Copy, Debug, PartialEq, Eq, Structural)]
pub struct Target {
    pub addr: u32,
    pub label: Label,
    /// The index that the dispatcher at the label must find, where there is one.
    pub index: Option<u16>,
}

/// What the code of a whole function shares.
pub struct Plan {
    /// How many blocks the function can be entered at: the first of `table`.
    pub entries: usize,
    /// The addresses of the blocks, in the order of their indices.
    pub table: Vec<u32>,
    /// The start of the outermost loop, where the first dispatcher stands.
    pub main_loop: Label,
    /// Where an index without a block goes.
    pub brtable_default: Label,
    pub wasm_table_index: u16,
    pub state_flags: u32,
    /// Computed jumps go on in another function where one holds the target.
    pub ret_chaining: bool,
    /// Loops are left after so many instructions.
    pub loop_safety: Option<i32>,
}

impl Plan {
    pub open spec fn wf(self) -> bool {
        &&& self.table@.no_duplicates()
        &&& self.table@.len() <= 0x10000
    }

    /// The index of a block.
    pub open spec fn index(self, addr: u32) -> u16 {
        self.table@.index_of(addr) as u16
    }

    pub open spec fn knows(self, addr: u32) -> bool {
        self.table@.contains(addr)
    }
}

/// The innermost of the first `n` targets that stands for an address.
pub open spec fn target_among(scope: Seq<Target>, addr: u32, n: nat) -> Option<Target>
    decreases n,
{
    if n == 0 {
        None
    } else if scope[n - 1].addr == addr {
        Some(scope[n - 1])
    } else {
        target_among(scope, addr, (n - 1) as nat)
    }
}

/// The innermost target that stands for an address.
pub open spec fn target_of(scope: Seq<Target>, addr: u32) -> Option<Target> {
    target_among(scope, addr, scope.len())
}

/// Addresses on different pages.
pub open spec fn other_page(a: u32, b: u32) -> bool {
    a / 0x1000 != b / 0x1000
}

impl Emit {
    /// A jump of 16 bits.
    pub open spec fn jumped16(self, rel16: u16) -> Emit {
        let cs = self.next_i32();
        self.set_new(
            E::fixed(Width::A32, cpu_state::seg_offset_address(CS as int) as u32),
        ).set_eip(
            E::eip().bin(Bin::Sub, E::L(cs)).binc(Bin::Add, rel16 as i32).and(0xffff).bin(
                Bin::Add,
                E::L(cs),
            ),
        ).give_i32(cs)
    }

    /// The instruction pointer goes to `offset` bytes after the address `end`.
    #[verifier::opaque]
    pub open spec fn jumped(self, end: u32, offset: i32, is_32: bool) -> Emit {
        let low = cpu_state::page_offset(end);
        if is_32 {
            self.set_eip(
                if offset != 0 {
                    E::eip_at(low).binc(Bin::Add, offset)
                } else {
                    E::eip_at(low)
                },
            )
        } else {
            self.set_eip(E::eip_at(low)).jumped16(offset as u16)
        }
    }

    /// The next dispatcher goes to the block with this index.
    #[verifier::opaque]
    pub open spec fn aimed(self, index: u16) -> Emit {
        let e = if self.opt.profiler {
            self.val(E::C(index as i32).call("debug_set_dispatcher_target", Sig::Fn1))
        } else {
            self
        };
        e.set(TARGET_LOCAL, E::C(index as i32))
    }

    /// On to a block by falling through to what follows, or by a branch.
    #[verifier::opaque]
    pub open spec fn gone_to(self, addr: u32, next: Seq<u32>, scope: Seq<Target>, plan: Plan) -> Emit {
        if next.contains(addr) {
            if next.len() > 1 {
                self.aimed(plan.index(addr)).profile(Stat::NormalFallthruWithTargetBlock)
            } else {
                self.profile(Stat::NormalFallthru)
            }
        } else {
            let target = target_of(scope, addr)->0;
            let e = match target.index {
                Some(index) => self.aimed(index).profile(Stat::NormalBranchWithTargetBlock),
                None => self.profile(Stat::NormalBranch),
            };
            e.br(target.label)
        }
    }

    /// The function ends where control may come back to one of its own blocks: the first `n`
    /// return addresses are tried.
    pub open spec fn returns_tried(self, back: Seq<(i32, u32)>, n: nat, plan: Plan) -> Emit
        decreases n,
    {
        if n == 0 {
            self
        } else {
            let e = self.returns_tried(back, (n - 1) as nat, plan);
            let (virt, phys) = back[n - 1];
            if plan.knows(phys) && plan.index(phys) < plan.entries {
                e.if_void(E::eip().binc(Bin::Eq, virt)).set(
                    TARGET_LOCAL,
                    E::C(plan.index(phys) as i32),
                ).br(plan.main_loop).end()
            } else {
                e
            }
        }
    }
}

impl Ctx {
    /// Control leaves the function for an address that is known.
    pub open spec fn left(self) -> Ctx {
        self.on(self.e.dispatch_event(Stat::ModuleExitChainable).br(self.st.exit_label))
    }

    /// Registers, flags and the instruction count go to memory.
    #[verifier::opaque]
    pub open spec fn settled(self) -> Ctx {
        let c = self.on(self.spilled_regs(8).spill_flags());
        c.counted()
    }

    pub open spec fn counted(self) -> Ctx {
        self.on(
            self.e.store_fixed(
                Width::A32,
                AT_INSTRUCTION_COUNTER,
                E::fixed(Width::A32, AT_INSTRUCTION_COUNTER).bin(
                    Bin::Add,
                    E::L(self.st.instruction_counter.0),
                ),
            ),
        )
    }

    /// The block that follows lies on another page: control leaves where that page is not the
    /// expected one.
    #[verifier::opaque]
    pub open spec fn page_switched(self, to: u32, block: BasicBlock) -> Ctx {
        let a = self.e.next_i32();
        let moved = self.on(self.e.set_new(E::eip())).phys_eip_plus_mem(a);
        let e = moved.give_i32(a).val(
            E::Top.binc(Bin::Ne, to.wrapping_add(self.st.env.mem8) as i32),
        );
        let c = self.on(
            if e.opt.debug_checks {
                e.op(Op::If(BlockType::Void, None)).profile(Stat::FailedPageChange).track_exit(
                    block.last_instruction_addr,
                ).br(self.st.exit_label).end()
            } else {
                e.op(Op::BrIf(self.st.exit_label, e.hint(HINT_GROUP_MEM, HINT_UNLIKELY)))
            },
        );
        if c.e.opt.debug_checks {
            c.val(
                E::C(block.addr as i32).both(E::C(to as i32)).call("check_page_switch", Sig::Fn2),
            )
        } else {
            c
        }
    }

    /// The end of a block after which interrupts are handled.
    #[verifier::opaque]
    pub open spec fn ended_for_interrupts(self, block: BasicBlock) -> Ctx {
        let low = cpu_state::page_offset(block.end_addr);
        let c = match block.ty {
            BasicBlockType::ConditionalJump { condition, jump_offset, jump_offset_is_32, .. } => {
                let c = self.on(self.e.set_eip(E::eip_at(low))).condition(condition);
                let e = c.e.op(Op::If(BlockType::Void, None));
                let f = if !jump_offset_is_32 {
                    e.jumped16(jump_offset as u16)
                } else if jump_offset != 0 {
                    e.set_eip(E::eip().binc(Bin::Add, jump_offset))
                } else {
                    e
                };
                c.on(f.end())
            },
            BasicBlockType::Normal { jump_offset, jump_offset_is_32, .. } => self.on(
                self.e.jumped(block.end_addr, jump_offset, jump_offset_is_32),
            ),
            BasicBlockType::Exit => self,
            BasicBlockType::AbsoluteEip => self,
        };
        let d = c.on(
            c.e.track_exit(block.last_instruction_addr).dispatch_event(Stat::ModuleExitDynamic),
        );
        let f = d.on(d.spilled_regs(8).spill_flags());
        f.on(f.e.op(Op::Call("handle_irqs", Sig::Fn0))).counted().emit(Op::Return)
    }

    /// The end of a block that sets the instruction pointer to a computed value.
    #[verifier::opaque]
    pub open spec fn ended_anywhere(self, block: BasicBlock, plan: Plan, unit: Unit) -> Ctx {
        let e = if unit.watched_pages@.contains(block.addr / 0x1000) {
            self.e.val(
                E::C(block.last_instruction_addr as i32).both(E::eip()).call(
                    "trace2_record_indirect",
                    Sig::Fn2,
                ),
            )
        } else {
            self.e
        };
        let tried = e.returns_tried(block.ret_speculation@, block.ret_speculation@.len(), plan);
        let c = self.on(
            tried.val(
                E::eip().both(E::C(plan.wasm_table_index as i32)).both(
                    E::C(plan.state_flags as i32),
                ).call("jit_find_cache_entry_in_page", Sig::Fn3Ret).tee(TARGET_LOCAL).binc(
                    Bin::GeS,
                    0,
                ),
            ).op(Op::BrIf(plan.main_loop, None)),
        );
        let d = if plan.ret_chaining {
            c.settled().chained(plan.state_flags)
        } else {
            c
        };
        d.on(d.e.track_exit(block.last_instruction_addr).br(d.st.exit_label))
    }

    /// Another function that holds the instruction pointer is looked up, and entered. The
    /// instructions so far have been counted.
    pub open spec fn chained(self, state_flags: u32) -> Ctx {
        let e = self.e.set(self.st.instruction_counter.0, E::C(0)).val(
            E::C(state_flags as i32).call("jit_find_cache_entry_for_dynamic_chaining", Sig::Fn1Ret),
        );
        let packed = e.next_i32();
        self.on(
            e.take_i32().op(Op::LocalTee(packed)).if_void(
                E::L(packed).binc(Bin::GeS, 0),
            ).val(E::L(packed).and(0xFFFF).both(E::L(packed).binc(Bin::ShrU, 16))).op(
                Op::ReturnCallIndirect(Sig::Fn1),
            ).end().give_i32(packed),
        )
    }
}

impl BasicBlock {
    /// The block that a conditional jump goes to.
    pub open spec fn successor(self, taken: bool) -> Option<u32> {
        match self.ty {
            BasicBlockType::ConditionalJump {
                next_block_addr,
                next_block_branch_taken_addr,
                ..
            } => if taken {
                next_block_branch_taken_addr
            } else {
                next_block_addr
            },
            _ => None,
        }
    }
}

impl Ctx {
    /// On to the page of the block that a taken conditional jump goes to.
    #[verifier::opaque]
    pub open spec fn branched_to_page(
        self,
        block: BasicBlock,
        to: u32,
        jump_offset: i32,
        is_32: bool,
        first: bool,
    ) -> Ctx {
        if !other_page(to, block.addr) {
            self
        } else {
            let c = if first {
                self.emit(Op::If(BlockType::I32, None))
            } else {
                self
            };
            let d = c.on(
                c.e.jumped(block.end_addr, jump_offset, is_32).profile(
                    Stat::ConditionalJumpPageChange,
                ),
            ).page_switched(to, block);
            if first {
                d.emit(Op::ConstI32(1)).emit(Op::Else).emit(Op::ConstI32(0)).emit(Op::End)
            } else {
                d
            }
        }
    }

    /// One way out of a conditional jump to a block of this function. The first of the two
    /// must branch where the value on the stack is not zero.
    #[verifier::opaque]
    pub open spec fn branched_to(
        self,
        to: u32,
        first: bool,
        next: Seq<u32>,
        scope: Seq<Target>,
        plan: Plan,
    ) -> Ctx {
        if next.contains(to) {
            if next.len() > 1 {
                self.on(
                    self.e.aimed(plan.index(to)).profile(
                        Stat::ConditionalJumpFallthruWithTargetBlock,
                    ),
                )
            } else {
                self.on(self.e.profile(Stat::ConditionalJumpFallthru))
            }
        } else {
            let target = target_of(scope, to)->0;
            let e = match target.index {
                Some(index) => self.e.aimed(index),
                None => self.e,
            };
            let stat = if target.index is Some {
                Stat::ConditionalJumpBranchWithTargetBlock
            } else {
                Stat::ConditionalJumpBranch
            };
            self.on(
                if !first {
                    e.profile(stat).br(target.label)
                } else if e.opt.profiler {
                    e.op(Op::If(BlockType::Void, None)).profile(stat).br(target.label).end()
                } else {
                    e.op(Op::BrIf(target.label, None))
                },
            )
        }
    }

    /// One way out of a conditional jump that leaves the function.
    #[verifier::opaque]
    pub open spec fn branched_away(
        self,
        block: BasicBlock,
        taken: bool,
        jump_offset: i32,
        is_32: bool,
        first: bool,
    ) -> Ctx {
        let c = if first {
            self.emit(Op::If(BlockType::Void, None))
        } else {
            self
        };
        let e = if taken {
            c.e.jumped(block.end_addr, jump_offset, is_32)
        } else {
            c.e.set_eip(E::eip_at(cpu_state::page_offset(block.end_addr)))
        };
        let d = c.on(e.profile(Stat::ConditionalJumpExit)).left();
        if first {
            d.emit(Op::End)
        } else {
            d
        }
    }

    /// One of the two ways out of a conditional jump. The first evaluates the condition, or
    /// its inverse, and branches away where it holds; the second branches or falls through.
    pub open spec fn way_out(
        self,
        block: BasicBlock,
        taken: bool,
        first: bool,
        next: Seq<u32>,
        scope: Seq<Target>,
        plan: Plan,
    ) -> Ctx {
        match block.ty {
            BasicBlockType::ConditionalJump { condition, jump_offset, jump_offset_is_32, .. } => {
                let c = if !first {
                    self
                } else if taken {
                    self.condition(condition)
                } else {
                    self.condition(condition ^ 1)
                };
                match block.successor(taken) {
                    Some(to) => c.branched_to_page(
                        block,
                        to,
                        jump_offset,
                        jump_offset_is_32,
                        first,
                    ).branched_to(to, first, next, scope, plan),
                    None => c.branched_away(block, taken, jump_offset, jump_offset_is_32, first),
                }
            },
            _ => self,
        }
    }

    /// A conditional jump, both ways out of which fall through to what follows.
    #[verifier::opaque]
    pub open spec fn fallen_through(self, block: BasicBlock, next: Seq<u32>, plan: Plan) -> Ctx {
        match block.ty {
            BasicBlockType::ConditionalJump { condition, jump_offset, jump_offset_is_32, .. } => {
                let to = block.successor(true)->0;
                let taken = Op::ConstI32(plan.index(to) as i32);
                let not_taken = Op::ConstI32(plan.index(block.successor(false)->0) as i32);
                let c = self.condition(condition);
                if other_page(to, block.addr) {
                    let d = c.emit(Op::If(BlockType::Void, None));
                    let f = d.on(
                        d.e.jumped(block.end_addr, jump_offset, jump_offset_is_32).profile(
                            Stat::ConditionalJumpPageChange,
                        ),
                    ).page_switched(to, block);
                    f.emit(taken).emit(Op::LocalSet(TARGET_LOCAL)).emit(Op::Else).emit(
                        not_taken,
                    ).emit(Op::LocalSet(TARGET_LOCAL)).emit(Op::End)
                } else if next.len() > 1 {
                    c.emit(Op::If(BlockType::I32, None)).emit(taken).emit(Op::Else).emit(
                        not_taken,
                    ).emit(Op::End).emit(Op::LocalSet(TARGET_LOCAL))
                } else {
                    self
                }
            },
            _ => self,
        }
    }

    /// The end of a block with a conditional jump.
    #[verifier::opaque]
    pub open spec fn ended_in_branch(
        self,
        block: BasicBlock,
        next: Seq<u32>,
        scope: Seq<Target>,
        plan: Plan,
    ) -> Ctx {
        let c = self.on(self.e.profile(Stat::ConditionalJump));
        let taken = block.successor(true);
        let not_taken = block.successor(false);
        let taken_falls = taken is Some && next.contains(taken->0);
        let not_taken_falls = not_taken is Some && next.contains(not_taken->0);
        if taken_falls && not_taken_falls {
            c.fallen_through(block, next, plan)
        } else if taken_falls {
            c.way_out(block, false, true, next, scope, plan).way_out(
                block,
                true,
                false,
                next,
                scope,
                plan,
            )
        } else {
            c.way_out(block, true, true, next, scope, plan).way_out(
                block,
                false,
                false,
                next,
                scope,
                plan,
            )
        }
    }

    /// The end of a block: where control goes next. `next` holds the blocks that the code
    /// after this one starts with, `scope` those that a branch can go to.
    pub open spec fn ended(
        self,
        block: BasicBlock,
        next: Seq<u32>,
        scope: Seq<Target>,
        plan: Plan,
        unit: Unit,
    ) -> Ctx {
        if block.has_sti {
            self.ended_for_interrupts(block)
        } else {
            match block.ty {
                BasicBlockType::Exit => self.on(
                    self.e.track_exit(block.last_instruction_addr).profile(
                        Stat::DirectExit,
                    ).dispatch_event(Stat::ModuleExitDynamic).br(self.st.exit_label),
                ),
                BasicBlockType::AbsoluteEip => self.ended_anywhere(block, plan, unit),
                BasicBlockType::Normal { next_block_addr, jump_offset, jump_offset_is_32 } => {
                    let jumped = self.e.jumped(block.end_addr, jump_offset, jump_offset_is_32);
                    match next_block_addr {
                        None => self.on(jumped.profile(Stat::DirectExit)).left(),
                        Some(to) => {
                            let c = if other_page(to, block.addr) {
                                self.on(jumped.profile(Stat::NormalPageChange)).page_switched(
                                    to,
                                    block,
                                )
                            } else {
                                self
                            };
                            c.on(c.e.gone_to(to, next, scope, plan))
                        },
                    }
                },
                BasicBlockType::ConditionalJump { .. } => self.ended_in_branch(
                    block,
                    next,
                    scope,
                    plan,
                ),
            }
        }
    }
}

/// The blocks that a branch can go to.
pub open spec fn addresses(scope: Seq<Target>) -> Seq<u32> {
    scope.map_values(|t: Target| t.addr)
}

pub proof fn target_is_known(scope: Seq<Target>, addr: u32, n: nat)
    requires
        n <= scope.len(),
    ensures
        target_among(scope, addr, n) is Some <==> addresses(scope).take(n as int).contains(addr),
    decreases n,
{
    let all = addresses(scope).take(n as int);
    if n > 0 {
        let fewer = addresses(scope).take(n - 1);
        target_is_known(scope, addr, (n - 1) as nat);
        assert(all[n - 1] == scope[n - 1].addr);
        if fewer.contains(addr) {
            let i = fewer.index_of(addr);
            assert(all[i] == addr);
        }
        if all.contains(addr) && scope[n - 1].addr != addr {
            let i = all.index_of(addr);
            assert(fewer[i] == addr);
        }
    }
}

/// Control can go to the block: it follows, or a branch reaches it.
pub open spec fn reached(to: Option<u32>, next: Seq<u32>, reach: Seq<u32>) -> bool {
    to is Some && !next.contains(to->0) ==> reach.contains(to->0)
}

/// The dispatcher that follows knows the block.
pub open spec fn indexed(to: Option<u32>, next: Seq<u32>, plan: Plan) -> bool {
    to is Some && next.contains(to->0) ==> plan.knows(to->0)
}

/// Every block that control can go to at the end of this one is there.
pub open spec fn block_fits(
    block: BasicBlock,
    next: Seq<u32>,
    reach: Seq<u32>,
    plan: Plan,
) -> bool {
    match block.ty {
        BasicBlockType::Normal { next_block_addr, .. } => {
            &&& reached(next_block_addr, next, reach)
            &&& indexed(next_block_addr, next, plan)
        },
        BasicBlockType::ConditionalJump { next_block_addr, next_block_branch_taken_addr, .. } => {
            &&& reached(next_block_addr, next, reach)
            &&& indexed(next_block_addr, next, plan)
            &&& reached(next_block_branch_taken_addr, next, reach)
            &&& indexed(next_block_branch_taken_addr, next, plan)
        },
        _ => true,
    }
}

/// Evaluating a condition changes nothing but the code and the locals.
pub broadcast proof fn condition_keeps(c: Ctx, condition: u8)
    ensures
        (#[trigger] c.condition(condition)).st == c.st,
        c.condition(condition).x87 == c.x87,
{
    reveal(Ctx::condition);
    reveal(Ctx::flag_condition);
    reveal(Ctx::loopnz);
    reveal(Ctx::loopz);
}

pub broadcast proof fn page_switched_keeps(c: Ctx, to: u32, block: BasicBlock)
    ensures
        (#[trigger] c.page_switched(to, block)).st == c.st,
        c.page_switched(to, block).x87 == c.x87,
{
    reveal(Ctx::page_switched);
}

pub broadcast proof fn settled_keeps(c: Ctx)
    ensures
        (#[trigger] c.settled()).st == c.st,
        c.settled().x87 == c.x87,
{
    reveal(Ctx::settled);
}

pub broadcast group group_ends {
    condition_keeps,
    page_switched_keeps,
    settled_keeps,
}

/// The block that a branch to the address goes to.
pub fn find_target(scope: &Vec<Target>, addr: u32) -> (r: Option<Target>)
    ensures
        r == target_of(scope@, addr),
        r is Some <==> addresses(scope@).contains(addr),
{
    proof {
        target_is_known(scope@, addr, scope@.len());
        assert(addresses(scope@).take(scope@.len() as int) =~= addresses(scope@));
    }
    let mut n: usize = scope.len();
    while n > 0
        invariant
            n <= scope@.len(),
            target_of(scope@, addr) is Some <==> addresses(scope@).contains(addr),
            target_of(scope@, addr) == target_among(scope@, addr, n as nat),
        decreases n,
    {
        n = n - 1;
        if scope[n].addr == addr {
            return Some(scope[n]);
        }
    }
    None
}

/// Whether the address is among the given ones.
pub fn has_addr(addrs: &Vec<u32>, addr: u32) -> (r: bool)
    ensures
        r == addrs@.contains(addr),
{
    let n: usize = addrs.len();
    let mut i: usize = 0;
    while i < n
        invariant
            i <= n,
            n == addrs@.len(),
            forall|j: int| 0 <= j < i ==> addrs@[j] != addr,
        decreases n - i,
    {
        if addrs[i] == addr {
            return true;
        }
        i = i + 1;
    }
    false
}

impl Plan {
    /// The index of a block.
    pub fn index_for_addr(&self, addr: u32) -> (r: Option<u16>)
        requires
            self.wf(),
        ensures
            r is Some <==> self.knows(addr),
            r is Some ==> r->0 == self.index(addr),
            r is Some ==> r->0 == self.table@.index_of(addr),
    {
        let n: usize = self.table.len();
        let mut i: usize = 0;
        while i < n
            invariant
                i <= n,
                n == self.table@.len(),
                self.wf(),
                forall|j: int| 0 <= j < i ==> self.table@[j] != addr,
            decreases n - i,
        {
            if self.table[i] == addr {
                assert(self.table@.contains(addr));
                assert(self.table@.index_of(addr) == i);
                return Some(i as u16);
            }
            i = i + 1;
        }
        None
    }
}

fn pages_differ(a: u32, b: u32) -> (r: bool)
    ensures
        r == other_page(a, b),
{
    a / 0x1000 != b / 0x1000
}

fn gen_jump(builder: &mut WasmBuilder, end: u32, offset: i32, is_32: bool)
    ensures
        final(builder)@ == old(builder)@.jumped(end, offset, is_32),
{
    reveal(Emit::jumped);
    let low: i32 = offset_in_page(end);
    if is_32 {
        gen_set_eip_low_bits_and_jump_rel32(builder, low, offset);
    } else {
        gen_set_eip_low_bits(builder, low);
        gen_jmp_rel16(builder, offset as u16);
    }
}

fn gen_aim(builder: &mut WasmBuilder, index: u16)
    ensures
        final(builder)@ == old(builder)@.aimed(index),
{
    reveal(Emit::aimed);
    if builder.opt.profiler {
        builder.const_i32(index as i32);
        builder.call("debug_set_dispatcher_target", Sig::Fn1);
    }
    builder.const_i32(index as i32);
    builder.set_local(WasmLocal(TARGET_LOCAL));
}

/// Leaves the function for an address that is known.
fn gen_chain_or_exit_to_known_successor(ctx: &mut JitContext)
    ensures
        final(ctx)@ == old(ctx)@.left(),
{
    gen_dispatch_stat_increment(&mut ctx.builder, Stat::ModuleExitChainable);
    ctx.builder.br(ctx.st.exit_label);
}

fn gen_settle(ctx: &mut JitContext)
    requires
        old(ctx)@.wf(),
    ensures
        final(ctx)@ == old(ctx)@.settled(),
{
    reveal(Ctx::settled);
    gen_move_registers_from_locals_to_memory(ctx);
    gen_update_instruction_counter(ctx);
}

fn gen_page_switch(ctx: &mut JitContext, to: u32, block: &BasicBlock)
    ensures
        final(ctx)@ == old(ctx)@.page_switched(to, *block),
{
    reveal(Ctx::page_switched);
    gen_page_switch_check(ctx, to, block.last_instruction_addr);
    if ctx.builder.opt.debug_checks {
        gen_fn2_const(&mut ctx.builder, "check_page_switch", block.addr, to);
    }
}

fn gen_go_to(
    builder: &mut WasmBuilder,
    addr: u32,
    next: &Vec<u32>,
    scope: &Vec<Target>,
    plan: &Plan,
)
    requires
        plan.wf(),
        reached(Some(addr), next@, addresses(scope@)),
        indexed(Some(addr), next@, *plan),
    ensures
        final(builder)@ == old(builder)@.gone_to(addr, next@, scope@, *plan),
{
    reveal(Emit::gone_to);
    if has_addr(next, addr) {
        if next.len() > 1 {
            if let Some(index) = plan.index_for_addr(addr) {
                gen_aim(builder, index);
            }
            gen_profiler_stat_increment(builder, Stat::NormalFallthruWithTargetBlock);
        } else {
            gen_profiler_stat_increment(builder, Stat::NormalFallthru);
        }
    } else if let Some(target) = find_target(scope, addr) {
        match target.index {
            Some(index) => {
                gen_aim(builder, index);
                gen_profiler_stat_increment(builder, Stat::NormalBranchWithTargetBlock);
            },
            None => gen_profiler_stat_increment(builder, Stat::NormalBranch),
        }
        builder.br(target.label);
    }
}

fn gen_try_returns(builder: &mut WasmBuilder, back: &Vec<(i32, u32)>, plan: &Plan)
    requires
        plan.wf(),
    ensures
        final(builder)@ == old(builder)@.returns_tried(back@, back@.len(), *plan),
{
    let n: usize = back.len();
    let mut i: usize = 0;
    while i < n
        invariant
            i <= n,
            n == back@.len(),
            plan.wf(),
            builder@ == old(builder)@.returns_tried(back@, i as nat, *plan),
        decreases n - i,
    {
        let (virt, phys): (i32, u32) = back[i];
        if let Some(index) = plan.index_for_addr(phys) {
            if (index as usize) < plan.entries {
                gen_get_eip(builder);
                builder.binc(Bin::Eq, virt);
                builder.if_void();
                builder.const_i32(index as i32);
                builder.set_local(WasmLocal(TARGET_LOCAL));
                builder.br(plan.main_loop);
                builder.block_end();
            }
        }
        i = i + 1;
    }
}

fn gen_end_for_interrupts(ctx: &mut JitContext, block: &BasicBlock)
    requires
        old(ctx)@.wf(),
    ensures
        final(ctx)@ == old(ctx)@.ended_for_interrupts(*block),
        final(ctx)@.wf(),
{
    broadcast use group_ends;

    reveal(Ctx::ended_for_interrupts);
    let low: i32 = offset_in_page(block.end_addr);
    match block.ty {
        BasicBlockType::ConditionalJump { condition, jump_offset, jump_offset_is_32, .. } => {
            gen_set_eip_low_bits(&mut ctx.builder, low);
            gen_condition_fn(ctx, condition);
            ctx.builder.if_void();
            if jump_offset_is_32 {
                gen_relative_jump(&mut ctx.builder, jump_offset);
            } else {
                gen_jmp_rel16(&mut ctx.builder, jump_offset as u16);
            }
            ctx.builder.block_end();
        },
        BasicBlockType::Normal { jump_offset, jump_offset_is_32, .. } => {
            gen_jump(&mut ctx.builder, block.end_addr, jump_offset, jump_offset_is_32);
        },
        BasicBlockType::Exit => {},
        BasicBlockType::AbsoluteEip => {},
    }
    gen_debug_track_jit_exit(&mut ctx.builder, block.last_instruction_addr);
    gen_dispatch_stat_increment(&mut ctx.builder, Stat::ModuleExitDynamic);
    gen_move_registers_from_locals_to_memory(ctx);
    gen_fn0_const(&mut ctx.builder, "handle_irqs");
    gen_update_instruction_counter(ctx);
    ctx.builder.emit(Op::Return);
}

fn gen_chain(ctx: &mut JitContext, state_flags: u32)
    ensures
        final(ctx)@ == old(ctx)@.chained(state_flags),
{
    ctx.builder.const_i32(0);
    ctx.builder.set_local(ctx.st.instruction_counter);
    ctx.builder.const_i32(state_flags as i32);
    ctx.builder.call("jit_find_cache_entry_for_dynamic_chaining", Sig::Fn1Ret);
    let packed: WasmLocal = ctx.builder.tee_new_local();
    ctx.builder.get_local(packed);
    ctx.builder.binc(Bin::GeS, 0);
    ctx.builder.if_void();
    ctx.builder.get_local(packed);
    ctx.builder.binc(Bin::And, 0xFFFF);
    ctx.builder.get_local(packed);
    ctx.builder.binc(Bin::ShrU, 16);
    ctx.builder.emit(Op::ReturnCallIndirect(Sig::Fn1));
    ctx.builder.block_end();
    ctx.builder.free_local(packed);
}

fn gen_end_anywhere(ctx: &mut JitContext, block: &BasicBlock, plan: &Plan, unit: &Unit)
    requires
        old(ctx)@.wf(),
        plan.wf(),
    ensures
        final(ctx)@ == old(ctx)@.ended_anywhere(*block, *plan, *unit),
        final(ctx)@.wf(),
{
    broadcast use group_ends;

    reveal(Ctx::ended_anywhere);
    if unit.is_page_watched(block.addr / 0x1000) {
        ctx.builder.const_i32(block.last_instruction_addr as i32);
        gen_get_eip(&mut ctx.builder);
        ctx.builder.call("trace2_record_indirect", Sig::Fn2);
    }
    gen_try_returns(&mut ctx.builder, &block.ret_speculation, plan);
    gen_get_eip(&mut ctx.builder);
    ctx.builder.const_i32(plan.wasm_table_index as i32);
    ctx.builder.const_i32(plan.state_flags as i32);
    ctx.builder.call("jit_find_cache_entry_in_page", Sig::Fn3Ret);
    ctx.builder.tee_local(WasmLocal(TARGET_LOCAL));
    ctx.builder.binc(Bin::GeS, 0);
    ctx.builder.br_if(plan.main_loop);
    if plan.ret_chaining {
        gen_settle(ctx);
        gen_chain(ctx, plan.state_flags);
    }
    gen_debug_track_jit_exit(&mut ctx.builder, block.last_instruction_addr);
    ctx.builder.br(ctx.st.exit_label);
}

fn gen_branch_to_page(
    ctx: &mut JitContext,
    block: &BasicBlock,
    to: u32,
    jump_offset: i32,
    is_32: bool,
    first: bool,
)
    ensures
        final(ctx)@ == old(ctx)@.branched_to_page(*block, to, jump_offset, is_32, first),
        old(ctx)@.wf() ==> final(ctx)@.wf(),
        final(ctx)@.st == old(ctx)@.st,
{
    broadcast use group_ends;

    reveal(Ctx::branched_to_page);
    if pages_differ(to, block.addr) {
        if first {
            ctx.builder.if_i32();
        }
        gen_jump(&mut ctx.builder, block.end_addr, jump_offset, is_32);
        gen_profiler_stat_increment(&mut ctx.builder, Stat::ConditionalJumpPageChange);
        gen_page_switch(ctx, to, block);
        if first {
            ctx.builder.const_i32(1);
            ctx.builder.else_();
            ctx.builder.const_i32(0);
            ctx.builder.block_end();
        }
    }
}

fn gen_branch_to(
    ctx: &mut JitContext,
    to: u32,
    first: bool,
    next: &Vec<u32>,
    scope: &Vec<Target>,
    plan: &Plan,
)
    requires
        plan.wf(),
        reached(Some(to), next@, addresses(scope@)),
        indexed(Some(to), next@, *plan),
    ensures
        final(ctx)@ == old(ctx)@.branched_to(to, first, next@, scope@, *plan),
        old(ctx)@.wf() ==> final(ctx)@.wf(),
        final(ctx)@.st == old(ctx)@.st,
{
    reveal(Ctx::branched_to);
    assert(forall|e: Emit, i: u16| (#[trigger] e.aimed(i)).opt == e.opt) by {
        reveal(Emit::aimed);
    }
    if has_addr(next, to) {
        if next.len() > 1 {
            if let Some(index) = plan.index_for_addr(to) {
                gen_aim(&mut ctx.builder, index);
            }
            gen_profiler_stat_increment(
                &mut ctx.builder,
                Stat::ConditionalJumpFallthruWithTargetBlock,
            );
        } else {
            gen_profiler_stat_increment(&mut ctx.builder, Stat::ConditionalJumpFallthru);
        }
    } else if let Some(target) = find_target(scope, to) {
        let stat: Stat = match target.index {
            Some(index) => {
                gen_aim(&mut ctx.builder, index);
                Stat::ConditionalJumpBranchWithTargetBlock
            },
            None => Stat::ConditionalJumpBranch,
        };
        if !first {
            gen_profiler_stat_increment(&mut ctx.builder, stat);
            ctx.builder.br(target.label);
        } else if ctx.builder.opt.profiler {
            ctx.builder.if_void();
            gen_profiler_stat_increment(&mut ctx.builder, stat);
            ctx.builder.br(target.label);
            ctx.builder.block_end();
        } else {
            ctx.builder.br_if(target.label);
        }
    }
}

fn gen_branch_away(
    ctx: &mut JitContext,
    block: &BasicBlock,
    taken: bool,
    jump_offset: i32,
    is_32: bool,
    first: bool,
)
    ensures
        final(ctx)@ == old(ctx)@.branched_away(*block, taken, jump_offset, is_32, first),
        old(ctx)@.wf() ==> final(ctx)@.wf(),
        final(ctx)@.st == old(ctx)@.st,
{
    reveal(Ctx::branched_away);
    if first {
        ctx.builder.if_void();
    }
    if taken {
        gen_jump(&mut ctx.builder, block.end_addr, jump_offset, is_32);
    } else {
        let low: i32 = offset_in_page(block.end_addr);
        gen_set_eip_low_bits(&mut ctx.builder, low);
    }
    gen_profiler_stat_increment(&mut ctx.builder, Stat::ConditionalJumpExit);
    gen_chain_or_exit_to_known_successor(ctx);
    if first {
        ctx.builder.block_end();
    }
}

fn gen_way_out(
    ctx: &mut JitContext,
    block: &BasicBlock,
    taken: bool,
    first: bool,
    next: &Vec<u32>,
    scope: &Vec<Target>,
    plan: &Plan,
)
    requires
        old(ctx)@.wf(),
        plan.wf(),
        block_fits(*block, next@, addresses(scope@), *plan),
        block.ty is ConditionalJump,
    ensures
        final(ctx)@ == old(ctx)@.way_out(*block, taken, first, next@, scope@, *plan),
        final(ctx)@.wf(),
{
    broadcast use group_ends;

    if let BasicBlockType::ConditionalJump {
        next_block_addr,
        next_block_branch_taken_addr,
        condition,
        jump_offset,
        jump_offset_is_32,
    } = block.ty {
        if first {
            if taken {
                gen_condition_fn(ctx, condition);
            } else {
                gen_condition_fn_negated(ctx, condition);
            }
        }
        let to: Option<u32> = if taken {
            next_block_branch_taken_addr
        } else {
            next_block_addr
        };
        match to {
            Some(addr) => {
                gen_branch_to_page(ctx, block, addr, jump_offset, jump_offset_is_32, first);
                gen_branch_to(ctx, addr, first, next, scope, plan);
            },
            None => gen_branch_away(ctx, block, taken, jump_offset, jump_offset_is_32, first),
        }
    }
}

fn gen_fall_through(
    ctx: &mut JitContext,
    block: &BasicBlock,
    taken_addr: u32,
    not_taken_addr: u32,
    next: &Vec<u32>,
    plan: &Plan,
)
    requires
        old(ctx)@.wf(),
        plan.wf(),
        block.ty is ConditionalJump,
        block.successor(true) == Some(taken_addr),
        block.successor(false) == Some(not_taken_addr),
        plan.knows(taken_addr),
        plan.knows(not_taken_addr),
    ensures
        final(ctx)@ == old(ctx)@.fallen_through(*block, next@, *plan),
        final(ctx)@.wf(),
{
    broadcast use group_ends;

    reveal(Ctx::fallen_through);
    if let BasicBlockType::ConditionalJump { condition, jump_offset, jump_offset_is_32, .. } =
        block.ty {
        let taken: u16 = match plan.index_for_addr(taken_addr) {
            Some(i) => i,
            None => 0,
        };
        let not_taken: u16 = match plan.index_for_addr(not_taken_addr) {
            Some(i) => i,
            None => 0,
        };
        if pages_differ(taken_addr, block.addr) {
            gen_condition_fn(ctx, condition);
            ctx.builder.if_void();
            gen_jump(&mut ctx.builder, block.end_addr, jump_offset, jump_offset_is_32);
            gen_profiler_stat_increment(&mut ctx.builder, Stat::ConditionalJumpPageChange);
            gen_page_switch(ctx, taken_addr, block);
            ctx.builder.const_i32(taken as i32);
            ctx.builder.set_local(WasmLocal(TARGET_LOCAL));
            ctx.builder.else_();
            ctx.builder.const_i32(not_taken as i32);
            ctx.builder.set_local(WasmLocal(TARGET_LOCAL));
            ctx.builder.block_end();
        } else if next.len() > 1 {
            gen_condition_fn(ctx, condition);
            ctx.builder.if_i32();
            ctx.builder.const_i32(taken as i32);
            ctx.builder.else_();
            ctx.builder.const_i32(not_taken as i32);
            ctx.builder.block_end();
            ctx.builder.set_local(WasmLocal(TARGET_LOCAL));
        }
    }
}

fn falls_to(to: Option<u32>, next: &Vec<u32>) -> (r: bool)
    ensures
        r == (to is Some && next@.contains(to->0)),
{
    match to {
        Some(addr) => has_addr(next, addr),
        None => false,
    }
}

fn gen_end_in_branch(
    ctx: &mut JitContext,
    block: &BasicBlock,
    next: &Vec<u32>,
    scope: &Vec<Target>,
    plan: &Plan,
)
    requires
        old(ctx)@.wf(),
        plan.wf(),
        block_fits(*block, next@, addresses(scope@), *plan),
        block.ty is ConditionalJump,
    ensures
        final(ctx)@ == old(ctx)@.ended_in_branch(*block, next@, scope@, *plan),
        final(ctx)@.wf(),
{
    reveal(Ctx::ended_in_branch);
    if let BasicBlockType::ConditionalJump { next_block_addr, next_block_branch_taken_addr, .. } =
        block.ty {
        gen_profiler_stat_increment(&mut ctx.builder, Stat::ConditionalJump);
        let taken_falls: bool = falls_to(next_block_branch_taken_addr, next);
        let not_taken_falls: bool = falls_to(next_block_addr, next);
        if taken_falls && not_taken_falls {
            if let (Some(taken), Some(not_taken)) = (next_block_branch_taken_addr, next_block_addr) {
                gen_fall_through(ctx, block, taken, not_taken, next, plan);
            }
        } else if taken_falls {
            gen_way_out(ctx, block, false, true, next, scope, plan);
            gen_way_out(ctx, block, true, false, next, scope, plan);
        } else {
            gen_way_out(ctx, block, true, true, next, scope, plan);
            gen_way_out(ctx, block, false, false, next, scope, plan);
        }
    }
}

/// Code for the end of a block.
pub fn gen_block_exit(
    ctx: &mut JitContext,
    block: &BasicBlock,
    next: &Vec<u32>,
    scope: &Vec<Target>,
    plan: &Plan,
    unit: &Unit,
)
    requires
        old(ctx)@.wf(),
        plan.wf(),
        block.has_sti || block_fits(*block, next@, addresses(scope@), *plan),
    ensures
        final(ctx)@ == old(ctx)@.ended(*block, next@, scope@, *plan, *unit),
        final(ctx)@.wf(),
{
    broadcast use group_ends;

    if block.has_sti {
        gen_end_for_interrupts(ctx, block);
        return ;
    }
    match block.ty {
        BasicBlockType::Exit => {
            gen_debug_track_jit_exit(&mut ctx.builder, block.last_instruction_addr);
            gen_profiler_stat_increment(&mut ctx.builder, Stat::DirectExit);
            gen_dispatch_stat_increment(&mut ctx.builder, Stat::ModuleExitDynamic);
            ctx.builder.br(ctx.st.exit_label);
        },
        BasicBlockType::AbsoluteEip => gen_end_anywhere(ctx, block, plan, unit),
        BasicBlockType::Normal { next_block_addr, jump_offset, jump_offset_is_32 } => {
            match next_block_addr {
                None => {
                    gen_jump(&mut ctx.builder, block.end_addr, jump_offset, jump_offset_is_32);
                    gen_profiler_stat_increment(&mut ctx.builder, Stat::DirectExit);
                    gen_chain_or_exit_to_known_successor(ctx);
                },
                Some(to) => {
                    if pages_differ(to, block.addr) {
                        gen_jump(&mut ctx.builder, block.end_addr, jump_offset, jump_offset_is_32);
                        gen_profiler_stat_increment(&mut ctx.builder, Stat::NormalPageChange);
                        gen_page_switch(ctx, to, block);
                    }
                    gen_go_to(&mut ctx.builder, to, next, scope, plan);
                },
            }
        },
        BasicBlockType::ConditionalJump { .. } => gen_end_in_branch(ctx, block, next, scope, plan),
    }
}

} // verus!
