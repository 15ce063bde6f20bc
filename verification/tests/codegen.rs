use bottleship::codegen_cond::{gen_condition_fn, gen_condition_fn_negated};
use bottleship::codegen_mem::{
    gen_safe_read16, gen_safe_read32, gen_safe_read8, gen_safe_read_write, gen_safe_write16,
    gen_safe_write32, get_stack_raw_unsafe, set_stack_raw_unsafe, BitSize,
};
use bottleship::codegen_reg::{
    gen_get_reg16, gen_get_reg8, gen_set_eip_low_bits, gen_set_reg16, gen_set_reg32_r,
    gen_set_reg8, sign_extend_i16, sign_extend_i8,
};
use bottleship::codegen_stack::{
    gen_leave, gen_pop16, gen_pop32s, gen_push16, gen_push32, gen_set_last_op1,
    gen_set_last_op_size_and_flags_changed, gen_set_last_result,
};
use bottleship::cpu_state::{CpuContext, Stat, FLAGS_ALL, OPSIZE_16, OPSIZE_32, OPSIZE_8};
use bottleship::jit_context::{
    CodegenCounters, CodegenEnv, Instruction, InstructionOperand, InstructionOperandDest,
    JitContext, UnitState,
};
use bottleship::modrm::{self, ModrmByte};
use bottleship::opstats::OpstatSites;
use bottleship::wasm::{
    flag_slot_address, Bin, FlagSlot, Label, Op, Options, Sig, Un, WasmBuilder, WasmLocal, Width,
};
use std::collections::HashMap;

const SUBTRACTION: i32 = i32::MIN;
/// Where code goes that cannot go on.
const FAULT: Label = Label(usize::MAX);

fn context() -> JitContext {
    let options: Options = Options {
        hint_mask: 0,
        profiler: false,
        debug_checks: false,
        dispatch_stats: false,
        stat_base: 0,
    };
    let mut builder: WasmBuilder = WasmBuilder::new(options, 0);
    let regs: Vec<WasmLocal> = (0..8).map(|_| builder.new_local()).collect();
    let counter: WasmLocal = builder.new_local();
    JitContext {
        builder,
        x87_local_cache: vec![None; 8],
        st: UnitState {
            cpu: CpuContext {
                eip: 0x5010,
                osize_32: true,
                asize_32: true,
                ssize_32: true,
                cpl3: true,
                flat_segmentation: true,
            },
            regs,
            start_of_current_instruction: 0x5010,
            current_bytes: 0,
            exit_with_fault_label: FAULT,
            exit_label: Label(0),
            current_instruction: Instruction::Other,
            previous_instruction: Instruction::Other,
            fpu_simd_dirty_marked: false,
            elide_current_flags: false,
            instruction_counter: counter,
            fastmem_writes: false,
            push32_write_cache: None,
            read_tlb_cache: None,
            perm_map_off: None,
            fpu_pc_cache: None,
            fpu_pc_cache_kept: false,
            x87_cache_kept: false,
            env: CodegenEnv {
                mem8: 0x1000_0000,
                tlb_data: 0x40_0000,
                perm_map: 0,
                write_map: 0,
                perm_map_reads: false,
                read_tlb_cache: false,
                read_tlb_cache_census: false,
                push_run_coalescing: false,
                x87_locals: false,
                x87_pc_local: false,
                fpu_relaxed: false,
                fpu_relaxed_stats: false,
                stack_raw_mode: 0,
                opstats: OpstatSites {
                    enabled: false,
                    opcodes: 0,
                    unguarded: 0,
                    addresses: 0,
                    simd: 0,
                },
            },
            counters: CodegenCounters {
                speculated_stores: 0,
                push_sites: 0,
                push_reuse_branches: 0,
                x87_load_sites: 0,
                x87_stores: 0,
                x87_invalidates: 0,
            },
        },
    }
}

/// Runs code over words, without loops. Helpers answer with one word, and counters stay small.
struct Machine {
    locals: HashMap<usize, i32>,
    memory: HashMap<u32, i32>,
    stack: Vec<i32>,
    answer: i32,
    calls: Vec<(&'static str, Vec<i32>)>,
    faulted: bool,
}

impl Machine {
    fn new() -> Machine {
        Machine {
            locals: HashMap::new(),
            memory: HashMap::new(),
            stack: vec![],
            answer: 0,
            calls: vec![],
            faulted: false,
        }
    }

    fn pop(&mut self) -> i32 {
        self.stack.pop().unwrap()
    }

    /// The position after the `Else` or `End` that belongs to an `If`.
    fn skip(code: &Vec<Op>, from: usize, to_else: bool) -> usize {
        let mut depth: i32 = 0;
        let mut i: usize = from;
        loop {
            match code[i] {
                Op::If(_, _) | Op::Block(_) => depth += 1,
                Op::Else if depth == 0 && to_else => return i + 1,
                Op::End if depth == 0 => return i + 1,
                Op::End => depth -= 1,
                _ => {}
            }
            i += 1;
        }
    }

    fn call(&mut self, name: &'static str, sig: Sig) {
        let (n, answers): (usize, bool) = match sig {
            Sig::Fn1 => (1, false),
            Sig::Fn2 => (2, false),
            Sig::Fn2Ret => (2, true),
            Sig::Fn3Ret => (3, true),
            _ => panic!("unexpected helper {}", name),
        };
        let arguments: Vec<i32> = self.stack.split_off(self.stack.len() - n);
        self.calls.push((name, arguments));
        if answers {
            self.stack.push(self.answer);
        }
    }

    fn run(&mut self, code: &Vec<Op>) {
        let mut i: usize = 0;
        while i < code.len() {
            let op: Op = code[i];
            i += 1;
            match op {
                Op::ConstI32(v) => self.stack.push(v),
                Op::ConstI64(v) => self.stack.push(v as i32),
                Op::LocalGet(l) => self.stack.push(*self.locals.get(&l).unwrap_or(&0)),
                Op::LocalSet(l) => {
                    let v: i32 = self.pop();
                    self.locals.insert(l, v);
                }
                Op::LocalTee(l) => {
                    let v: i32 = *self.stack.last().unwrap();
                    self.locals.insert(l, v);
                }
                Op::Un(Un::Eqz) => {
                    let v: i32 = self.pop();
                    self.stack.push((v == 0) as i32);
                }
                Op::Bin(b) => {
                    let y: i32 = self.pop();
                    let x: i32 = self.pop();
                    self.stack.push(binary(b, x, y));
                }
                Op::Load(w, at) => {
                    let a: u32 = (self.pop() as u32).wrapping_add(at);
                    let v: i32 = *self.memory.get(&a).unwrap_or(&0);
                    self.stack.push(match w {
                        Width::W8 => v & 0xff,
                        Width::W16 | Width::A16 => v & 0xffff,
                        _ => v,
                    });
                }
                Op::Store(_, at) => {
                    let v: i32 = self.pop();
                    let a: u32 = (self.pop() as u32).wrapping_add(at);
                    self.memory.insert(a, v);
                }
                Op::If(_, _) => {
                    if self.pop() == 0 {
                        i = Machine::skip(code, i, true);
                    }
                }
                Op::Else => i = Machine::skip(code, i, false),
                Op::Block(_) | Op::End => {}
                Op::Br(l) | Op::BrIf(l, _) => {
                    let taken: bool = matches!(op, Op::Br(_)) || self.pop() != 0;
                    if taken && l == FAULT {
                        self.faulted = true;
                        return;
                    }
                    if taken {
                        i = Machine::skip(code, l.0 + 1, false);
                    }
                }
                Op::Call(name, sig) => self.call(name, sig),
                Op::Drop => {
                    self.pop();
                }
                _ => panic!("unexpected instruction {:?}", op),
            }
        }
    }
}

fn binary(b: Bin, x: i32, y: i32) -> i32 {
    let (u, v): (u32, u32) = (x as u32, y as u32);
    match b {
        Bin::Add | Bin::AddI64 => x.wrapping_add(y),
        Bin::Sub => x.wrapping_sub(y),
        Bin::Mul => x.wrapping_mul(y),
        Bin::And => x & y,
        Bin::Or => x | y,
        Bin::Xor => x ^ y,
        Bin::Shl => x.wrapping_shl(v),
        Bin::ShrU => u.wrapping_shr(v) as i32,
        Bin::ShrS => x.wrapping_shr(v),
        Bin::Eq => (x == y) as i32,
        Bin::Ne => (x != y) as i32,
        Bin::LtS => (x < y) as i32,
        Bin::LtU => (u < v) as i32,
        Bin::GtS => (x > y) as i32,
        Bin::GtU => (u > v) as i32,
        Bin::LeS => (x <= y) as i32,
        Bin::LeU => (u <= v) as i32,
        Bin::GeS => (x >= y) as i32,
        Bin::GeU => (u >= v) as i32,
        _ => panic!("unexpected operation {:?}", b),
    }
}

fn values() -> Vec<i32> {
    vec![0, 1, -1, 2, 7, 0x7F, 0x80, 0xFF, 0x8000, -0x8000, i32::MAX, i32::MIN, i32::MIN + 1]
}

/// The conditions of an opcode by its number, but for parity, after a comparison.
fn expected(number: u8, a: i32, b: i32) -> Option<bool> {
    let r: bool = match number >> 1 {
        0 => a.overflowing_sub(b).1,
        1 => (a as u32) < b as u32,
        2 => a == b,
        3 => a as u32 <= b as u32,
        4 => a.wrapping_sub(b) < 0,
        6 => a < b,
        7 => a <= b,
        _ => return None,
    };
    Some(r != (number & 1 == 1))
}

fn holds(previous: Instruction, number: u8, negated: bool, a: i32, b: i32) -> bool {
    let mut c: JitContext = context();
    c.st.previous_instruction = previous;
    if negated {
        gen_condition_fn_negated(&mut c, number);
    } else {
        gen_condition_fn(&mut c, number);
    }
    let mut m: Machine = Machine::new();
    m.locals.insert(0, a);
    m.locals.insert(1, b);
    m.memory.insert(flag_slot_address(FlagSlot::LastOp1), a);
    m.memory.insert(flag_slot_address(FlagSlot::LastResult), a.wrapping_sub(b));
    m.memory.insert(flag_slot_address(FlagSlot::LastOpSize), OPSIZE_32);
    m.memory.insert(flag_slot_address(FlagSlot::FlagsChanged), FLAGS_ALL | SUBTRACTION);
    m.run(&c.builder.code);
    assert_eq!(m.stack.len(), 1);
    m.stack[0] != 0
}

#[test]
fn conditions_after_a_comparison() {
    for a in values() {
        for b in values() {
            let known: Instruction = Instruction::Cmp {
                dest: InstructionOperandDest::WasmLocal(WasmLocal(0)),
                source: InstructionOperand::WasmLocal(WasmLocal(1)),
                opsize: OPSIZE_32,
            };
            let constant: Instruction = Instruction::Cmp {
                dest: InstructionOperandDest::WasmLocal(WasmLocal(0)),
                source: InstructionOperand::Immediate(b),
                opsize: OPSIZE_32,
            };
            for number in 0..16 {
                let wanted: bool = match expected(number, a, b) {
                    Some(wanted) => wanted,
                    None => continue,
                };
                for p in [known, constant, Instruction::Other] {
                    assert_eq!(holds(p, number, false, a, b), wanted);
                    assert_eq!(holds(p, 0x70 + number, false, a, b), wanted);
                    assert_eq!(holds(p, 0x80 + number, true, a, b), !wanted);
                }
            }
        }
    }
}

/// The value of an operand of 8 or 16 bits as a signed number.
fn signed(x: i32, bits: u32) -> i32 {
    (x << (32 - bits)) >> (32 - bits)
}

#[test]
fn conditions_after_a_short_comparison() {
    for (bits, opsize) in [(8, OPSIZE_8), (16, OPSIZE_16)] {
        let mask: i32 = (1 << bits) - 1;
        for x in values() {
            for y in values() {
                let (a, b): (i32, i32) = (x & mask, y & mask);
                let (sa, sb): (i32, i32) = (signed(a, bits), signed(b, bits));
                let d: i32 = a.wrapping_sub(b) & mask;
                let known: Instruction = Instruction::Cmp {
                    dest: InstructionOperandDest::WasmLocal(WasmLocal(0)),
                    source: InstructionOperand::WasmLocal(WasmLocal(1)),
                    opsize,
                };
                let constant: Instruction = Instruction::Cmp {
                    dest: InstructionOperandDest::WasmLocal(WasmLocal(0)),
                    source: InstructionOperand::Immediate(b),
                    opsize,
                };
                for p in [known, constant, Instruction::Other] {
                    for number in 0..16u8 {
                        let plain: bool = match number >> 1 {
                            0 => signed(sa - sb, bits) != sa - sb,
                            1 => a < b,
                            2 => a == b,
                            3 => a <= b,
                            4 => signed(d, bits) < 0,
                            6 => sa < sb,
                            7 => sa <= sb,
                            _ => continue,
                        };
                        let mut c: JitContext = context();
                        c.st.previous_instruction = p;
                        gen_condition_fn(&mut c, number);
                        let mut m: Machine = Machine::new();
                        // The registers hold more than their low parts.
                        m.locals.insert(0, a | (0x5A5A_5A5A & !mask));
                        m.locals.insert(1, b | (0x2222_2222 & !mask));
                        m.memory.insert(flag_slot_address(FlagSlot::LastOp1), a);
                        m.memory.insert(flag_slot_address(FlagSlot::LastResult), d);
                        m.memory.insert(flag_slot_address(FlagSlot::LastOpSize), opsize);
                        m.memory.insert(
                            flag_slot_address(FlagSlot::FlagsChanged),
                            FLAGS_ALL | SUBTRACTION,
                        );
                        m.run(&c.builder.code);
                        assert_eq!(m.stack.len(), 1);
                        assert_eq!(m.stack[0] != 0, plain != (number & 1 == 1));
                    }
                }
            }
        }
    }
}

#[test]
fn parity_is_left_to_a_helper() {
    let mut c: JitContext = context();
    gen_condition_fn(&mut c, 0x7A);
    assert!(c.builder.code.iter().any(|op| matches!(op, Op::Call("test_p", _))));
}

#[test]
fn loops_test_the_counter() {
    for (condition, before, after, taken) in [
        (0xE2, 2, 2, true),
        (0xE2, 0, 0, false),
        (0xE3, 0, 0, true),
        (0xE3, 5, 5, false),
    ] {
        let mut c: JitContext = context();
        gen_condition_fn(&mut c, condition);
        let mut m: Machine = Machine::new();
        m.locals.insert(1, before);
        m.run(&c.builder.code);
        assert_eq!(m.stack.len(), 1);
        assert_eq!(m.stack[0] != 0, taken);
        assert_eq!(m.locals[&1], after);
    }
}

#[test]
fn parts_of_registers_are_read() {
    for (r, value, wanted) in [(0, 0x1234_5678, 0x78), (4, 0x1234_5678, 0x56), (7, -1, 0xFF)] {
        let mut c: JitContext = context();
        gen_get_reg8(&mut c, r);
        let mut m: Machine = Machine::new();
        m.locals.insert(r as usize % 4, value);
        m.run(&c.builder.code);
        assert_eq!(m.stack, vec![wanted]);
    }
    let mut c: JitContext = context();
    gen_get_reg16(&mut c, 3);
    let mut m: Machine = Machine::new();
    m.locals.insert(3, 0x1234_5678);
    m.run(&c.builder.code);
    assert_eq!(m.stack, vec![0x5678]);
}

#[test]
fn parts_of_registers_are_written() {
    for (r, wanted) in [(0, 0x1234_56AB), (4, 0x1234_AB78)] {
        let mut c: JitContext = context();
        c.builder.const_i32(0xFAB);
        gen_set_reg8(&mut c, r);
        let mut m: Machine = Machine::new();
        m.locals.insert(0, 0x1234_5678);
        m.run(&c.builder.code);
        assert_eq!(m.locals[&0], wanted);
        assert!(m.stack.is_empty());
    }
    let mut c: JitContext = context();
    c.builder.const_i32(0xF_ABCD);
    gen_set_reg16(&mut c, 2);
    gen_set_reg32_r(&mut c, 5, 2);
    let mut m: Machine = Machine::new();
    m.locals.insert(2, 0x1234_5678);
    m.run(&c.builder.code);
    assert_eq!(m.locals[&2], 0x1234_ABCD);
    assert_eq!(m.locals[&5], 0x1234_ABCD);
}

#[test]
fn signs_are_extended() {
    for (value, byte, half) in [(0x7F, 0x7F, 0x7F), (0x80, -0x80, 0x80), (0x8001, 1, -0x7FFF)] {
        let mut c: JitContext = context();
        c.builder.const_i32(value);
        sign_extend_i8(&mut c.builder);
        c.builder.const_i32(value);
        sign_extend_i16(&mut c.builder);
        let mut m: Machine = Machine::new();
        m.run(&c.builder.code);
        assert_eq!(m.stack, vec![byte, half]);
    }
}

#[test]
fn the_lazy_flag_state_is_kept() {
    let mut c: JitContext = context();
    gen_set_last_op1(&mut c.builder, &WasmLocal(0));
    gen_set_last_result(&mut c.builder, &WasmLocal(1));
    let mut m: Machine = Machine::new();
    m.locals.insert(0, 11);
    m.locals.insert(1, 12);
    m.run(&c.builder.code);
    assert_eq!(m.memory[&104], 11);
    assert_eq!(m.memory[&112], 12);
    // The size and the mask are written as one.
    let mut c: JitContext = context();
    gen_set_last_op_size_and_flags_changed(&mut c.builder, OPSIZE_32, FLAGS_ALL);
    assert_eq!(
        c.builder.code,
        vec![
            Op::ConstI32(96),
            Op::ConstI64(((FLAGS_ALL as i64) << 32) | 31),
            Op::Store(Width::A64, 0),
        ]
    );
}

#[test]
fn the_instruction_pointer_keeps_its_page() {
    let mut c: JitContext = context();
    gen_set_eip_low_bits(&mut c.builder, 0x123);
    let mut m: Machine = Machine::new();
    m.memory.insert(556, 0x40_0FFF);
    m.run(&c.builder.code);
    assert_eq!(m.memory[&556], 0x40_0123);
}

#[test]
fn operands_are_addressed() {
    let m: ModrmByte = ModrmByte {
        segment: 3,
        first_reg: Some(5),
        second_reg: Some((1, 2)),
        immediate: -8,
        is_16: false,
    };
    assert!(!m.is_stack_const());
    let mut c: JitContext = context();
    modrm::gen(&mut c, m, 0);
    let mut run: Machine = Machine::new();
    run.locals.insert(5, 0x1000);
    run.locals.insert(1, 0x10);
    run.run(&c.builder.code);
    assert_eq!(run.stack, vec![0x1000 + 0x40 - 8]);
    let frame: ModrmByte = ModrmByte {
        segment: 2,
        first_reg: Some(5),
        second_reg: None,
        immediate: 8,
        is_16: false,
    };
    assert!(frame.is_stack_const());
    let plain: ModrmByte = ModrmByte { immediate: 0, ..frame };
    assert_eq!(modrm::get_as_reg_index_if_possible(&c, &plain), Some(5));
    assert_eq!(modrm::get_as_reg_index_if_possible(&c, &frame), None);
}

#[test]
fn stack_accesses_have_a_mode() {
    let mut c: JitContext = context();
    assert_eq!(get_stack_raw_unsafe(&c), 0);
    set_stack_raw_unsafe(&mut c, 2);
    assert_eq!(get_stack_raw_unsafe(&c), 2);
}

#[test]
fn locals_are_used_again() {
    let mut c: JitContext = context();
    let a: WasmLocal = c.builder.new_local();
    let b: WasmLocal = c.builder.new_local();
    assert_ne!(a, b);
    c.builder.free_local(a);
    assert_eq!(c.builder.new_local(), a);
    assert_eq!(c.builder.code, vec![]);
}

const MEM8: u32 = 0x1000_0000;
const TLB_DATA: u32 = 0x40_0000;
const PERM_MAP: u32 = 0x80_0000;
const WRITE_MAP: u32 = 0xA0_0000;
const VALID: i32 = 1;
const READONLY: i32 = 2;
const NO_USER: i32 = 4;

/// A context whose maps lie apart.
fn memory_context() -> JitContext {
    let mut c: JitContext = context();
    c.st.env.perm_map = PERM_MAP;
    c.st.env.write_map = WRITE_MAP;
    c
}

/// The entry that sends a page to a frame of guest memory.
fn entry(page: u32, frame: u32, flags: i32) -> i32 {
    (((MEM8 + frame * 0x1000) ^ (page * 0x1000)) as i32) | flags
}

/// A machine with one translated page.
fn translated(page: u32, frame: u32, flags: i32) -> Machine {
    let mut m: Machine = Machine::new();
    m.memory.insert(TLB_DATA + page * 4, entry(page, frame, flags));
    m
}

#[test]
fn reads_are_translated() {
    for (address, frame) in [(0x7008, 0x33), (0x7FFC, 7)] {
        let mut c: JitContext = memory_context();
        gen_safe_read32(&mut c, &WasmLocal(0));
        let mut m: Machine = translated(7, frame, VALID);
        m.locals.insert(0, address);
        m.memory.insert(MEM8 + frame * 0x1000 + (address as u32 & 0xFFF), 77);
        m.run(&c.builder.code);
        assert_eq!(m.stack, vec![77]);
        assert!(m.calls.is_empty());
    }
}

#[test]
fn other_reads_ask_a_helper() {
    // A page without a translation, one that is not for unprivileged code, and a read that
    // reaches into the next page.
    for (address, flags) in [(0x7008, 0), (0x7008, VALID | NO_USER), (0x7FFD, VALID)] {
        let mut c: JitContext = memory_context();
        gen_safe_read32(&mut c, &WasmLocal(0));
        let mut m: Machine = translated(7, 0x33, flags);
        m.locals.insert(0, address);
        m.answer = entry(7, 0x44, 0);
        m.memory.insert(MEM8 + 0x44_000 + (address as u32 & 0xFFF), 78);
        m.run(&c.builder.code);
        assert_eq!(m.stack, vec![78]);
        assert_eq!(m.calls, vec![("safe_read32s_slow_jit", vec![address, 0x10])]);
        m.stack.clear();
        m.answer = 1;
        m.run(&c.builder.code);
        assert!(m.faulted);
    }
    // Privileged code may read it, and a byte never reaches into the next page.
    let mut c: JitContext = memory_context();
    c.st.cpu.cpl3 = false;
    gen_safe_read8(&mut c, &WasmLocal(0));
    let mut m: Machine = translated(7, 0x33, VALID | NO_USER | READONLY);
    m.locals.insert(0, 0x7FFF);
    m.memory.insert(MEM8 + 0x33_FFF, 0x179);
    m.run(&c.builder.code);
    assert_eq!(m.stack, vec![0x79]);
    assert!(m.calls.is_empty());
}

#[test]
fn the_permission_map_decides_reads() {
    // Readable, at its own address, and for unprivileged code where that reads.
    for (byte, privileged, mapped) in [
        (13, false, true),
        (15, false, true),
        (9, false, false),
        (5, false, false),
        (9, true, true),
        (1, true, false),
        (3, true, false),
    ] {
        let mut c: JitContext = memory_context();
        c.st.env.perm_map_reads = true;
        c.st.cpu.cpl3 = !privileged;
        gen_safe_read16(&mut c, &WasmLocal(0));
        let mut m: Machine = translated(7, 0x33, VALID);
        m.locals.insert(0, 0x7010);
        m.memory.insert(PERM_MAP + 7, byte);
        m.memory.insert(MEM8 + 0x7010, 100);
        m.memory.insert(MEM8 + 0x33_010, 200);
        m.run(&c.builder.code);
        assert_eq!(m.stack, vec![if mapped { 100 } else { 200 }]);
    }
}

#[test]
fn the_last_page_read_is_remembered() {
    let mut c: JitContext = memory_context();
    c.st.env.read_tlb_cache = true;
    gen_safe_read32(&mut c, &WasmLocal(0));
    gen_safe_read32(&mut c, &WasmLocal(1));
    let mut m: Machine = translated(7, 0x33, VALID);
    m.locals.insert(0, 0x7008);
    m.locals.insert(1, 0x7018);
    m.memory.insert(MEM8 + 0x33_008, 5);
    m.memory.insert(MEM8 + 0x33_018, 6);
    m.run(&c.builder.code);
    assert_eq!(m.stack, vec![5, 6]);
    assert!(m.calls.is_empty());
}

#[test]
fn writes_are_translated() {
    let mut c: JitContext = memory_context();
    gen_safe_write32(&mut c, &WasmLocal(0), &WasmLocal(1));
    let mut m: Machine = translated(7, 0x33, VALID);
    m.locals.insert(0, 0x7008);
    m.locals.insert(1, 99);
    m.run(&c.builder.code);
    assert_eq!(m.memory[&(MEM8 + 0x33_008)], 99);
    assert!(m.calls.is_empty() && m.stack.is_empty());
    let mut m: Machine = translated(7, 0x33, VALID | READONLY);
    m.locals.insert(0, 0x7008);
    m.locals.insert(1, 99);
    m.answer = entry(7, 0x44, 0);
    m.run(&c.builder.code);
    assert_eq!(m.calls, vec![("safe_write32_slow_jit", vec![0x7008, 99, 0x10])]);
    assert_eq!(m.memory[&(MEM8 + 0x44_008)], 99);
}

const COUNTERS: u32 = 0x20_0000;

/// A context in a build that counts.
fn counting_context() -> JitContext {
    let mut c: JitContext = memory_context();
    c.builder.opt.profiler = true;
    c.builder.opt.stat_base = COUNTERS;
    c
}

#[test]
fn reads_are_counted() {
    let counter: u32 = Stat::SafeReadFast.counter_address(COUNTERS);
    let mut c: JitContext = counting_context();
    gen_safe_read32(&mut c, &WasmLocal(0));
    let mut m: Machine = translated(7, 0x33, VALID);
    m.locals.insert(0, 0x7008);
    m.memory.insert(MEM8 + 0x33_008, 77);
    m.run(&c.builder.code);
    m.run(&c.builder.code);
    assert_eq!(m.stack, vec![77, 77]);
    assert_eq!(m.memory[&counter], 2);
    assert!(m.calls.is_empty());
    // A page without a translation.
    let mut m: Machine = Machine::new();
    m.locals.insert(0, 0x7008);
    m.answer = entry(7, 0x44, 0);
    m.memory.insert(MEM8 + 0x44_008, 78);
    m.run(&c.builder.code);
    assert_eq!(m.stack, vec![78]);
    assert_eq!(m.memory[&counter], 1);
    let asked: Vec<(&'static str, Vec<i32>)> = vec![
        ("report_safe_read_jit_slow", vec![0x7008, 0]),
        ("safe_read32s_slow_jit", vec![0x7008, 0x10]),
    ];
    assert_eq!(m.calls, asked);
    // A fault.
    m.calls.clear();
    m.stack.clear();
    m.answer = 1;
    m.run(&c.builder.code);
    assert!(m.faulted && m.stack.is_empty());
    assert_eq!(m.memory[&counter], 1);
    assert_eq!(m.calls[..2], asked[..]);
    assert_eq!(m.calls[2..], [("track_jit_exit", vec![0x5010])]);
}

#[test]
fn writes_are_counted() {
    let counter: u32 = Stat::SafeWriteFast.counter_address(COUNTERS);
    for mapped in [false, true] {
        let mut c: JitContext = counting_context();
        c.st.fastmem_writes = mapped;
        gen_safe_write32(&mut c, &WasmLocal(0), &WasmLocal(1));
        let mut m: Machine = translated(7, if mapped { 7 } else { 0x33 }, VALID);
        m.memory.insert(WRITE_MAP + 7, 1);
        m.locals.insert(0, 0x7008);
        m.locals.insert(1, 99);
        m.run(&c.builder.code);
        assert!(m.calls.is_empty() && m.stack.is_empty());
        assert_eq!(m.memory[&(MEM8 + if mapped { 0x7008 } else { 0x33_008 })], 99);
        assert_eq!(m.memory[&counter], 1);
        // A page that takes no stores.
        let mut m: Machine = Machine::new();
        m.locals.insert(0, 0x7008);
        m.locals.insert(1, 99);
        m.answer = entry(7, 0x44, 0);
        m.run(&c.builder.code);
        assert_eq!(m.memory[&(MEM8 + 0x44_008)], 99);
        assert_eq!(m.memory[&counter], 1);
        let asked: Vec<(&'static str, Vec<i32>)> = vec![
            ("report_safe_write_jit_slow", vec![0x7008, 0]),
            ("safe_write32_slow_jit", vec![0x7008, 99, 0x10]),
        ];
        assert_eq!(m.calls, asked);
        // A fault.
        let mut m: Machine = Machine::new();
        m.locals.insert(0, 0x7008);
        m.answer = 1;
        m.run(&c.builder.code);
        assert!(m.faulted && !m.memory.contains_key(&counter));
        assert_eq!(m.calls[2..], [("track_jit_exit", vec![0x5010])]);
    }
}

#[test]
fn the_store_map_decides_stores() {
    for (byte, address, direct) in
        [(1, 0x7008, true), (3, 0x7008, false), (5, 0x7008, false), (1, 0x7FFF, false)]
    {
        let mut c: JitContext = memory_context();
        c.st.fastmem_writes = true;
        gen_safe_write16(&mut c, &WasmLocal(0), &WasmLocal(1));
        assert_eq!(c.st.counters.speculated_stores, 1);
        let mut m: Machine = Machine::new();
        m.locals.insert(0, address);
        m.locals.insert(1, 99);
        m.memory.insert(WRITE_MAP + 7, byte);
        m.answer = entry(7, 0x44, 0);
        m.run(&c.builder.code);
        assert_eq!(m.calls.is_empty(), direct);
        let base: u32 = if direct { MEM8 + 0x7000 } else { MEM8 + 0x44_000 };
        assert_eq!(m.memory[&(base + (address as u32 & 0xFFF))], 99);
    }
}

#[test]
fn memory_is_read_changed_and_written() {
    for flags in [VALID, 0] {
        let mut c: JitContext = memory_context();
        gen_safe_read_write(
            &mut c,
            BitSize::DWORD,
            &WasmLocal(0),
            &|c: &mut JitContext| {
                c.builder.const_i32(10);
                c.builder.emit(Op::Bin(Bin::Add));
            },
        );
        let mut m: Machine = translated(7, 0x33, flags);
        m.locals.insert(0, 0x7008);
        m.answer = entry(7, 0x33, 0);
        m.memory.insert(MEM8 + 0x33_008, 5);
        m.run(&c.builder.code);
        assert_eq!(m.memory[&(MEM8 + 0x33_008)], 15);
        let names: Vec<&'static str> = m.calls.iter().map(|c| c.0).collect();
        if flags == VALID {
            assert!(names.is_empty());
        } else {
            assert_eq!(names, vec!["safe_read_write32s_slow_jit", "safe_write32_slow_jit"]);
        }
    }
}

#[test]
fn what_is_pushed_is_popped() {
    for (wide, flat, coalesced) in
        [(true, true, false), (true, true, true), (true, false, false), (false, true, false)]
    {
        let mut c: JitContext = memory_context();
        c.st.cpu.flat_segmentation = flat;
        c.st.env.push_run_coalescing = coalesced;
        if wide {
            gen_push32(&mut c, &WasmLocal(0));
            gen_push32(&mut c, &WasmLocal(1));
            gen_pop32s(&mut c);
            gen_pop32s(&mut c);
        } else {
            gen_push16(&mut c, &WasmLocal(0));
            gen_push16(&mut c, &WasmLocal(1));
            gen_pop16(&mut c);
            gen_pop16(&mut c);
        }
        assert_eq!(c.st.counters.push_sites, if coalesced { 2 } else { 0 });
        let mut m: Machine = translated(7, 0x33, VALID);
        m.locals.insert(0, 1234);
        m.locals.insert(1, 5678);
        m.locals.insert(4, 0x7800);
        m.run(&c.builder.code);
        assert_eq!(m.stack, vec![5678, 1234]);
        assert_eq!(m.locals[&4], 0x7800);
        assert!(m.calls.is_empty());
        let step: u32 = if wide { 4 } else { 2 };
        assert_eq!(m.memory[&(MEM8 + 0x33_800 - step)], 1234);
    }
}

#[test]
fn faults_keep_the_stack_pointer() {
    for coalesced in [false, true] {
        // A page without a translation, and a helper that reports a fault.
        let mut c: JitContext = memory_context();
        c.st.cpu.flat_segmentation = true;
        c.st.env.push_run_coalescing = coalesced;
        gen_push32(&mut c, &WasmLocal(0));
        let mut m: Machine = translated(7, 0x33, 0);
        m.locals.insert(0, 1234);
        m.locals.insert(4, 0x7800);
        m.answer = 1;
        m.run(&c.builder.code);
        assert!(m.faulted);
        assert_eq!(m.locals[&4], 0x7800);
        assert_eq!(m.calls, vec![("safe_write32_slow_jit", vec![0x77FC, 1234, 0x10])]);
    }
    let mut c: JitContext = memory_context();
    c.st.cpu.flat_segmentation = true;
    gen_pop32s(&mut c);
    let mut m: Machine = translated(7, 0x33, 0);
    m.locals.insert(4, 0x7800);
    m.answer = 1;
    m.run(&c.builder.code);
    assert!(m.faulted);
    assert_eq!(m.locals[&4], 0x7800);
}

#[test]
fn leaving_restores_the_frame() {
    let mut c: JitContext = memory_context();
    gen_leave(&mut c, true);
    let mut m: Machine = translated(7, 0x33, VALID);
    m.locals.insert(4, 0x7100);
    m.locals.insert(5, 0x7200);
    m.memory.insert(MEM8 + 0x33_200, 0x7300);
    m.run(&c.builder.code);
    assert_eq!(m.locals[&4], 0x7204);
    assert_eq!(m.locals[&5], 0x7300);
}
