use bottleship::aot_driver::{aot_drv_add_ctx_entry, aot_drv_page_owned, AotDriver};
use bottleship::cpu_state::CpuContext;
use bottleship::dispatch::dispatch_meta_get;
use bottleship::guest_ram::Ram;
use bottleship::jit_aot::{
    jit_aot_alloc_table_index, jit_register_aot_module, AOT_TX_BAD_ENTRY, AOT_TX_BAD_FLAGS,
    AOT_TX_BAD_INDEX, AOT_TX_BAD_PAGE, AOT_TX_BAD_PAGE_COUNT, AOT_TX_BAD_STATE,
    AOT_TX_FINGERPRINT_MISMATCH, AOT_TX_NO_ENTRIES, AOT_TX_OK, AOT_TX_PAGE_OWNED,
    AOT_TX_SLOT_UNAVAILABLE, NO_INDEX,
};
use bottleship::fpu_config::{
    get_fpu_relaxed_stats, is_fpu_relaxed_stats, set_fpu_relaxed_stats,
};
use bottleship::jit_blocks::{AnalysisType, BasicBlock, BasicBlockType, Listing, Step};
use bottleship::jit_census::record_unit_compiled;
use bottleship::jit_choices::follow_settings;
use bottleship::jit_compile::{pages_of, Compiled};
use bottleship::jit_config::{
    jit_codegen_fingerprint_hi, jit_codegen_fingerprint_lo, set_dispatch_stats, set_jit_config,
};
use bottleship::jit_context::{CodegenEnv, JitContext};
use bottleship::jit_emit::{gen_nop, Unit};
use bottleship::jit_fit::can_be_compiled;
use bottleship::jit_module::{Choices, WasmStructure};
use bottleship::jit_search::Guest;
use bottleship::jit_state::{
    CachedCode, JitState, TlbEntry, WasmTableIndex, TIER2_PAGE_SET_CAP, TIER2_PENDING_CAP,
};
use bottleship::jit_trace::{block_records, BlockKind, BlockRecord};
use bottleship::jit_verify::Jump;
use bottleship::opstats::{set_opstats, Opstats, OpstatSites};
use bottleship::wasm::{Op, Options, Sig, Width};
use std::collections::HashMap;

const MEM8: u32 = 0x1000_0000;
const FLAGS: u32 = 9;

/// Two instructions at 0x5010, the second of which leaves; and the same at 0x6020.
fn listing() -> Listing {
    let mut l: Listing = Listing::new();
    for start in [0x5010, 0x6020] {
        l.put(start, step(start + 1, AnalysisType::Normal, false));
        l.put(start + 1, step(start + 2, AnalysisType::BlockBoundary, true));
    }
    l
}

fn step(end: u32, ty: AnalysisType, last: bool) -> Step {
    Step { end, ty, no_next_instruction: last, absolute_jump: false }
}

fn guest() -> Guest {
    let mut translation: HashMap<u32, u32> = HashMap::new();
    translation.insert(0x400, 5);
    translation.insert(0x401, 6);
    Guest {
        ram: Ram { bytes: vec![0x90; 0x8000] },
        listing: listing(),
        translation,
        entry_points: HashMap::new(),
        compiled: HashMap::new(),
        hot_targets: HashMap::new(),
        cs_offset: 0,
        max_pages: 3,
        exclude_lo: 0,
        exclude_hi: 0,
        indirect_regions: false,
    }
}

fn state() -> JitState {
    let mut s: JitState = JitState::create_and_initialise();
    s.mem8 = MEM8;
    for (virt, phys) in [(0x400, 5), (0x401, 6)] {
        let data: u32 = ((MEM8 / 0x1000 + phys) ^ virt) * 0x1000 + 1;
        s.tlb.push(TlbEntry { page: virt, data: data as i32 });
    }
    s
}

fn choices() -> Choices {
    Choices {
        options: Options {
            hint_mask: 0,
            profiler: false,
            debug_checks: false,
            dispatch_stats: false,
            stat_base: 0,
        },
        cpu: CpuContext {
            eip: 0,
            osize_32: true,
            asize_32: true,
            ssize_32: true,
            cpl3: true,
            flat_segmentation: true,
        },
        env: CodegenEnv {
            mem8: MEM8,
            tlb_data: 0x40_0000,
            perm_map: 0,
            write_map: 0,
            perm_map_reads: false,
            read_tlb_cache: false,
            read_tlb_cache_census: false,
            push_run_coalescing: false,
            x87_locals: false,
            x87_pc_local: false,
            fpu_relaxed: false,
            fpu_relaxed_stats: false,
            stack_raw_mode: 0,
            opstats: OpstatSites {
                enabled: false,
                opcodes: 0,
                unguarded: 0,
                addresses: 0,
                simd: 0,
            },
        },
        fastmem_writes: false,
        flag_locals: false,
        wasm_table_index: 0,
        state_flags: FLAGS,
        ret_chaining: false,
        loop_safety: None,
    }
}

fn unit(blocks: Vec<BasicBlock>) -> Unit {
    Unit {
        ram: Ram { bytes: vec![0x90; 0x8000] },
        listing: listing(),
        blocks,
        dead_flag_elision: false,
        watched_pages: vec![],
        trace_counters: HashMap::new(),
    }
}

fn one_byte(c: JitContext) -> (JitContext, u32) {
    let mut c: JitContext = c;
    c.st.cpu.eip += 1;
    (c, 0)
}

fn structure(addr: u32) -> Vec<WasmStructure> {
    vec![WasmStructure::Dispatcher(vec![addr]), WasmStructure::BasicBlock(addr)]
}

/// Compiles the code at 0x5010 and publishes it.
fn published(s: &mut JitState, g: &mut Guest) -> u16 {
    published_at(s, g, 0x40_0010)
}

fn published_at(s: &mut JitState, g: &mut Guest, virt: i32) -> u16 {
    let blocks: Vec<BasicBlock> = s.jit_force_generate_unsafe(g, virt, true).unwrap();
    let addr: u32 = blocks[0].addr;
    let done: Compiled =
        s.jit_analyze_and_generate(&structure(addr), &unit(blocks), choices(), &one_byte).unwrap();
    s.codegen_finalize_finished(done.wasm_table_index, FLAGS);
    done.wasm_table_index
}

fn found(s: &JitState, phys: u32) -> (u16, u16) {
    let c: CachedCode = s.jit_find_cache_entry(phys, FLAGS);
    (c.wasm_table_index.0, c.initial_state)
}

#[test]
fn a_fresh_state_has_no_code() {
    let s: JitState = JitState::create_and_initialise();
    assert_eq!(s.free.len(), 899);
    let mut sorted: Vec<u16> = s.free.clone();
    sorted.sort();
    sorted.dedup();
    assert_eq!(sorted.len(), 899);
    assert!(!sorted.contains(&0));
    assert!(!s.jit_page_has_code(5));
    assert_eq!(found(&s, 0x5010), (0, 0));
    assert_eq!(WasmTableIndex(7).to_u16(), 7);
}

#[test]
fn pages_get_hot() {
    let mut s: JitState = state();
    let mut g: Guest = guest();
    assert!(s
        .jit_increase_hotness_and_maybe_compile(&mut g, 0x40_0010, 0x5010, true, 100)
        .is_none());
    assert_eq!(s.entry_points[0].heat, 100);
    assert_eq!(s.entry_points[0].offsets, vec![0x10]);
    assert!(s.jit_page_has_code(5));
    assert_eq!(s.tlb[0].data & 32, 32);
    // Too close to the end of the page to be a place to enter.
    assert!(s
        .jit_increase_hotness_and_maybe_compile(&mut g, 0x40_0FFF, 0x5FFF, true, 1)
        .is_none());
    assert_eq!(s.entry_points[0].offsets, vec![0x10]);
    // Hot, but not mapped there.
    assert!(s
        .jit_increase_hotness_and_maybe_compile(&mut g, 0x40_1010, 0x5010, true, 1_000_000)
        .is_none());
    let blocks: Vec<BasicBlock> = s
        .jit_increase_hotness_and_maybe_compile(&mut g, 0x40_0010, 0x5010, true, 1)
        .unwrap();
    assert_eq!(s.entry_points[0].heat, 0);
    assert_eq!(blocks.len(), 1);
    assert_eq!((blocks[0].addr, blocks[0].end_addr), (0x5010, 0x5012));
    assert_eq!(blocks[0].number_of_instructions, 2);
    assert!(blocks[0].is_entry_block);
    assert_eq!(blocks[0].ty, BasicBlockType::Exit);
    assert_eq!(pages_of(&blocks), vec![5]);
    set_jit_config(&mut s.config, 0, 1);
    assert!(s.jit_force_generate_unsafe(&mut g, 0x40_0010, true).is_none());
    assert_eq!(s.entry_points[0].heat, 0);
}

#[test]
fn compiled_code_is_found() {
    let mut s: JitState = state();
    let mut g: Guest = guest();
    let next: u16 = *s.free.last().unwrap();
    let index: u16 = published(&mut s, &mut g);
    assert_eq!(index, next);
    assert!(!s.free.contains(&index));
    assert_eq!(found(&s, 0x5010), (index, 0));
    assert_eq!(found(&s, 0x5011), (0, 0));
    assert_eq!(s.jit_find_cache_entry(0x5010, FLAGS + 1).wasm_table_index.0, 0);
    assert_ne!(dispatch_meta_get(&s.dispatch, 0x400), 0);
    assert_eq!(dispatch_meta_get(&s.dispatch, 0x401), 0);
    assert_eq!(s.codegen_is_compiling(), 0);
    // There is nothing to compile any more.
    assert!(s.jit_force_generate_unsafe(&mut g, 0x40_0010, true).is_none());
}

#[test]
fn only_one_function_is_in_work() {
    let mut s: JitState = state();
    let mut g: Guest = guest();
    let blocks: Vec<BasicBlock> = s.jit_force_generate_unsafe(&mut g, 0x40_0010, true).unwrap();
    let done: Compiled = s
        .jit_analyze_and_generate(&structure(0x5010), &unit(blocks), choices(), &one_byte)
        .unwrap();
    assert_eq!(done.entries, vec![(0x5010, 0)]);
    assert!(done.code.builder.code.len() > 0);
    assert_eq!(s.codegen_is_compiling(), 1);
    assert!(s.jit_force_generate_unsafe(&mut g, 0x40_1020, true).is_none());
    assert_eq!(found(&s, 0x5010), (0, 0));
}

#[test]
fn a_written_page_has_no_code() {
    let mut s: JitState = state();
    let mut g: Guest = guest();
    let one: u16 = published(&mut s, &mut g);
    let two: u16 = published_at(&mut s, &mut g, 0x40_1020);
    assert_ne!(one, two);
    s.jit_dirty_cache_small(0x5FF0, 0x5FF4);
    assert_eq!(found(&s, 0x5010), (0, 0));
    assert!(!s.jit_page_has_code(5));
    assert_eq!(dispatch_meta_get(&s.dispatch, 0x400), 0);
    assert_eq!(s.tlb[0].data & 32, 0);
    assert!(s.free.contains(&one));
    assert_eq!(s.emptied, vec![one]);
    assert_eq!(found(&s, 0x6020), (two, 0));
    s.jit_dirty_cache(0x5FFF, 0x6001);
    assert_eq!(found(&s, 0x6020), (0, 0));
    assert_eq!(s.free.len(), 899);
}

#[test]
fn a_page_written_meanwhile_is_not_published() {
    let mut s: JitState = state();
    let mut g: Guest = guest();
    let blocks: Vec<BasicBlock> = s.jit_force_generate_unsafe(&mut g, 0x40_0010, true).unwrap();
    let done: Compiled = s
        .jit_analyze_and_generate(&structure(0x5010), &unit(blocks), choices(), &one_byte)
        .unwrap();
    s.jit_dirty_page(5);
    s.codegen_finalize_finished(done.wasm_table_index, FLAGS);
    assert_eq!(found(&s, 0x5010), (0, 0));
    assert_eq!(s.free.len(), 899);
    assert_eq!(s.codegen_is_compiling(), 0);
}

#[test]
fn failed_compilations_are_recorded() {
    let mut s: JitState = state();
    let mut g: Guest = guest();
    assert_eq!(s.codegen_finalize_failed(7, 0x5010, 2), 1);
    let blocks: Vec<BasicBlock> = s.jit_force_generate_unsafe(&mut g, 0x40_0010, true).unwrap();
    let done: Compiled = s
        .jit_analyze_and_generate(&structure(0x5010), &unit(blocks), choices(), &one_byte)
        .unwrap();
    assert_eq!(s.codegen_finalize_failed(done.wasm_table_index - 1, 0x5010, 3), 2);
    assert_eq!(s.codegen_is_compiling(), 1);
    assert_eq!(s.codegen_finalize_failed(done.wasm_table_index, 0x5010, 4), 0);
    assert_eq!(s.codegen_is_compiling(), 0);
    assert_eq!(s.free.len(), 899);
    assert_eq!(s.codegen_get_finalize_failure_count(), 3);
    assert_eq!(s.codegen_get_finalize_failure_info(0), done.wasm_table_index as u32);
    assert_eq!(s.codegen_get_finalize_failure_info(1), 0x5010);
    assert_eq!(s.codegen_get_finalize_failure_info(2), 4);
}

#[test]
fn code_for_another_state_replaces() {
    let mut s: JitState = state();
    let mut g: Guest = guest();
    let one: u16 = published(&mut s, &mut g);
    // The page is entered somewhere else, and compiled again with both places.
    g.listing.put(0x5030, step(0x5031, AnalysisType::BlockBoundary, true));
    let two: u16 = {
        let blocks: Vec<BasicBlock> =
            s.jit_force_generate_unsafe(&mut g, 0x40_0030, true).unwrap();
        let mut u: Unit = unit(blocks);
        u.listing.put(0x5030, step(0x5031, AnalysisType::BlockBoundary, true));
        let parts: Vec<WasmStructure> = vec![WasmStructure::Block(vec![
            WasmStructure::Block(vec![
                WasmStructure::Dispatcher(vec![0x5010, 0x5030]),
                WasmStructure::BasicBlock(0x5010),
            ]),
            WasmStructure::BasicBlock(0x5030),
        ])];
        let done: Compiled =
            s.jit_analyze_and_generate(&parts, &u, choices(), &one_byte).unwrap();
        s.codegen_finalize_finished(done.wasm_table_index, FLAGS);
        done.wasm_table_index
    };
    assert_eq!(found(&s, 0x5010), (two, 0));
    assert_eq!(found(&s, 0x5030), (two, 1));
    assert!(s.free.contains(&one));
    assert_eq!(s.free.len(), 898);
}

#[test]
fn a_cleared_cache_is_empty() {
    let mut s: JitState = state();
    let mut g: Guest = guest();
    published(&mut s, &mut g);
    published_at(&mut s, &mut g, 0x40_1020);
    s.jit_clear_cache_js();
    assert_eq!(found(&s, 0x5010), (0, 0));
    assert_eq!(found(&s, 0x6020), (0, 0));
    assert!(!s.jit_page_has_code(5));
    assert_eq!(s.free.len(), 899);
    assert_eq!(s.pages.len(), 0);
    assert_eq!(s.entry_points.len(), 0);
}

fn begin(s: &mut JitState, index: u32, pages: u32) -> u32 {
    let lo: u32 = jit_codegen_fingerprint_lo(&s.config);
    let hi: u32 = jit_codegen_fingerprint_hi(&s.config);
    s.jit_aot_tx_begin(index, pages, lo, hi)
}

#[test]
fn staged_units_are_published_at_once() {
    let mut s: JitState = state();
    let ram: u32 = 0x8000;
    assert_eq!(begin(&mut s, 7, 2), AOT_TX_OK);
    assert_eq!(s.jit_aot_tx_staged_index(), 7);
    assert_eq!(s.jit_aot_free_table_index_count(), 898);
    assert_eq!(s.jit_aot_tx_page_begin(0x5000, FLAGS, 1, ram), AOT_TX_OK);
    assert_eq!(s.jit_aot_tx_entry_push(0x10, 3), AOT_TX_OK);
    assert_eq!(s.jit_aot_tx_page_finish(), AOT_TX_OK);
    assert_eq!(s.jit_aot_tx_prepare_finish(), AOT_TX_BAD_STATE);
    assert_eq!(s.jit_aot_tx_page_begin(0x6000, FLAGS, 0, ram), AOT_TX_OK);
    assert_eq!(s.jit_aot_tx_page_finish(), AOT_TX_OK);
    assert_eq!(s.jit_aot_tx_commit(), AOT_TX_BAD_STATE);
    assert_eq!(s.jit_aot_tx_prepare_finish(), AOT_TX_OK);
    assert_eq!(found(&s, 0x5010), (0, 0));
    assert_eq!(s.jit_aot_tx_commit(), AOT_TX_OK);
    assert_eq!(found(&s, 0x5010), (7, 3));
    assert_eq!(s.jit_aot_registered_count(), 2);
    assert_eq!(s.tier2_pages, vec![5, 6]);
    assert_eq!(s.jit_aot_tx_staged_index(), NO_INDEX);
    assert_eq!(s.jit_aot_tier2_blocked_count(), 0);
}

#[test]
fn refused_steps_say_why() {
    let mut s: JitState = state();
    let ram: u32 = 0x8000;
    let lo: u32 = jit_codegen_fingerprint_lo(&s.config);
    let hi: u32 = jit_codegen_fingerprint_hi(&s.config);
    assert_eq!(s.jit_aot_tx_begin(0, 1, lo, hi), AOT_TX_BAD_INDEX);
    assert_eq!(s.jit_aot_tx_begin(900, 1, lo, hi), AOT_TX_BAD_INDEX);
    assert_eq!(s.jit_aot_tx_begin(7, 0, lo, hi), AOT_TX_BAD_PAGE_COUNT);
    assert_eq!(s.jit_aot_tx_begin(7, 257, lo, hi), AOT_TX_BAD_PAGE_COUNT);
    assert_eq!(s.jit_aot_tx_begin(7, 1, lo ^ 1, hi), AOT_TX_FINGERPRINT_MISMATCH);
    assert_eq!(s.jit_aot_tx_begin(7, 1, lo, hi ^ 1), AOT_TX_FINGERPRINT_MISMATCH);
    assert_eq!(s.jit_aot_tx_page_begin(0x5000, FLAGS, 1, ram), AOT_TX_BAD_STATE);
    assert_eq!(s.jit_aot_tx_abort(), AOT_TX_BAD_STATE);
    let mut g: Guest = guest();
    let taken: u16 = published(&mut s, &mut g);
    assert_eq!(s.jit_aot_tx_begin(taken as u32, 1, lo, hi), AOT_TX_SLOT_UNAVAILABLE);
    assert_eq!(s.jit_aot_tx_begin(7, 2, lo, hi), AOT_TX_OK);
    assert_eq!(s.jit_aot_tx_begin(8, 2, lo, hi), AOT_TX_BAD_STATE);
    assert_eq!(s.jit_aot_tx_page_begin(0x6001, FLAGS, 1, ram), AOT_TX_BAD_PAGE);
    assert_eq!(s.jit_aot_tx_page_begin(0x8000, FLAGS, 1, ram), AOT_TX_BAD_PAGE);
    assert_eq!(s.jit_aot_tx_page_begin(0x6000, 16, 1, ram), AOT_TX_BAD_FLAGS);
    assert_eq!(s.jit_aot_tx_page_begin(0x5000, FLAGS, 1, ram), AOT_TX_PAGE_OWNED);
    assert_eq!(s.jit_aot_tx_page_begin(0x6000, FLAGS, 4097, ram), AOT_TX_BAD_ENTRY);
    assert_eq!(s.jit_aot_tx_entry_push(0, 0), AOT_TX_BAD_STATE);
    assert_eq!(s.jit_aot_tx_page_begin(0x6000, FLAGS, 0, ram), AOT_TX_OK);
    assert_eq!(s.jit_aot_tx_entry_push(0, 0), AOT_TX_BAD_ENTRY);
    assert_eq!(s.jit_aot_tx_page_begin(0x7000, FLAGS, 1, ram), AOT_TX_BAD_STATE);
    assert_eq!(s.jit_aot_tx_page_finish(), AOT_TX_OK);
    assert_eq!(s.jit_aot_tx_page_begin(0x6000, FLAGS, 1, ram), AOT_TX_PAGE_OWNED);
    assert_eq!(s.jit_aot_tx_page_begin(0x7000, FLAGS, 0, ram), AOT_TX_OK);
    assert_eq!(s.jit_aot_tx_page_finish(), AOT_TX_OK);
    assert_eq!(s.jit_aot_tx_prepare_finish(), AOT_TX_NO_ENTRIES);
    assert_eq!(s.jit_aot_tx_abort(), AOT_TX_OK);
    assert_eq!(s.jit_aot_free_table_index_count(), 898);
    assert_eq!(s.jit_aot_tx_page_finish(), AOT_TX_BAD_STATE);
    assert_eq!(jit_aot_alloc_table_index(), NO_INDEX);
    assert_eq!(jit_register_aot_module(7, 0x5000, FLAGS), AOT_TX_BAD_STATE);
}

#[test]
fn an_incomplete_page_is_not_finished() {
    let mut s: JitState = state();
    assert_eq!(begin(&mut s, 7, 1), AOT_TX_OK);
    assert_eq!(s.jit_aot_tx_page_begin(0x5000, FLAGS, 2, 0x8000), AOT_TX_OK);
    assert_eq!(s.jit_aot_tx_entry_push(0x10, 0), AOT_TX_OK);
    assert_eq!(s.jit_aot_tx_page_finish(), AOT_TX_BAD_ENTRY);
    assert_eq!(s.jit_aot_tx_entry_push(0x1000, 0), AOT_TX_BAD_ENTRY);
    assert_eq!(s.jit_aot_tx_entry_push(0x20, 0x1_0000), AOT_TX_BAD_ENTRY);
    assert_eq!(s.jit_aot_tx_entry_push(0x20, 1), AOT_TX_OK);
    assert_eq!(s.jit_aot_tx_page_finish(), AOT_TX_OK);
}

fn jump(virt: u32, phys: u32) -> Jump {
    Jump {
        state_flags: FLAGS,
        virt,
        phys: Some(phys),
        limit: 100,
        instruction_counter: 10,
        slice_start: 0,
        in_hlt: false,
    }
}

fn target(index: u16, state: u16) -> i32 {
    ((index as i32 + 1024) << 16) | state as i32
}

#[test]
fn computed_jumps_are_chained() {
    let mut s: JitState = state();
    let mut g: Guest = guest();
    set_dispatch_stats(&mut s.config, 1);
    let index: u16 = published(&mut s, &mut g);
    assert_eq!(
        s.jit_find_cache_entry_for_dynamic_chaining(jump(0x40_0010, 0x5010)),
        target(index, 0)
    );
    // The second time by the memo.
    assert_eq!(
        s.jit_find_cache_entry_for_dynamic_chaining(jump(0x40_0010, 0x5010)),
        target(index, 0)
    );
    assert_eq!(s.jit_find_cache_entry_for_dynamic_chaining(jump(0x40_0011, 0x5011)), -1);
    assert_eq!(s.run.counts.chain_entries, 2);
    assert_eq!(s.run.counts.chain_hits, 2);
    let late: Jump = Jump { instruction_counter: 100, ..jump(0x40_0010, 0x5010) };
    assert_eq!(s.jit_find_cache_entry_for_dynamic_chaining(late), -1);
    let halted: Jump = Jump { in_hlt: true, ..jump(0x40_0010, 0x5010) };
    assert_eq!(s.jit_find_cache_entry_for_dynamic_chaining(halted), -1);
    // A freed place is forgotten.
    s.jit_dirty_page(5);
    assert_eq!(s.jit_find_cache_entry_for_dynamic_chaining(jump(0x40_0010, 0x5010)), -1);
}

#[test]
fn jumps_within_a_page_are_dispatched() {
    let mut s: JitState = state();
    let mut g: Guest = guest();
    set_dispatch_stats(&mut s.config, 1);
    let index: u16 = published(&mut s, &mut g);
    assert_eq!(s.jit_find_cache_entry_in_page(0x40_0010, index, FLAGS), 0);
    assert_eq!(s.jit_find_cache_entry_in_page(0x40_0011, index, FLAGS), -1);
    assert_eq!(s.jit_find_cache_entry_in_page(0x40_0010, index - 1, FLAGS), -1);
    assert_eq!(s.jit_find_cache_entry_in_page(0x40_0010, index, FLAGS + 1), -1);
    assert_eq!(s.run.counts.page_dispatches, 4);
    assert_eq!(s.run.counts.page_misses, 3);
}

#[test]
fn frequent_functions_get_the_larger_budget() {
    let mut s: JitState = state();
    let mut g: Guest = guest();
    set_jit_config(&mut s.config, 15, 3);
    let index: u16 = published(&mut s, &mut g);
    assert!(!s.jit_tier2_note_execution(index));
    assert!(!s.jit_tier2_note_execution(index));
    assert!(s.jit_tier2_note_execution(index));
    assert_eq!(s.tier2_pages, vec![5]);
    assert_eq!(found(&s, 0x5010), (0, 0));
    assert_eq!(s.run.counts.promotions, 1);
    // Compiled anew it keeps its budget, and is not given up again.
    let again: u16 = published(&mut s, &mut g);
    for _ in 0..3 {
        assert!(!s.jit_tier2_note_execution(again));
    }
    assert_eq!(found(&s, 0x5010), (again, 0));
    s.jit_tier2_drain_pending();
    assert_eq!(found(&s, 0x5010), (again, 0));
}

#[test]
fn wrong_dispatches_are_counted() {
    let mut s: JitState = state();
    let mut g: Guest = guest();
    let index: u16 = published(&mut s, &mut g);
    assert!(s.jit_verify_dispatch_entry(0x5010, FLAGS, index, 0, 0x40_0010, false));
    assert_eq!(s.run.counts.wrong_direct, 0);
    assert!(!s.jit_verify_dispatch_entry(0x5010, FLAGS, index, 1, 0x40_0010, false));
    assert!(!s.jit_verify_dispatch_entry(0x5010, FLAGS, index - 1, 0, 0x40_0010, true));
    assert_eq!((s.run.counts.wrong_direct, s.run.counts.wrong_chain), (1, 1));
    assert_eq!(found(&s, 0x5010), (index, 0));
}

#[test]
fn pages_are_published_for_other_addresses() {
    let mut s: JitState = state();
    let mut g: Guest = guest();
    let index: u16 = published(&mut s, &mut g);
    assert!(s.update_tlb_code(0x900, 5));
    assert_eq!(s.jit_find_cache_entry_in_page(0x90_0010, index, FLAGS), 0);
    assert!(!s.update_tlb_code(0x901, 6));
}

#[test]
fn the_driver_compiles_what_was_entered() {
    let mut s: JitState = state();
    let mut g: Guest = guest();
    let mut d: AotDriver = AotDriver::new();
    aot_drv_add_ctx_entry(&mut s, 0x5000, 0x10);
    assert_eq!(d.aot_drv_seed_from_ctx(&s, 0x5000), 1);
    let blocks: Vec<BasicBlock> = d.aot_drv_find(&s, &mut g, 0x40_0010, 0x5010, true).unwrap();
    assert_eq!(blocks[0].addr, 0x5010);
    d.aot_drv_compile(&structure(0x5010), &unit(blocks), &choices(), &one_byte);
    assert_eq!(d.aot_drv_entry_count(), 1);
    assert_eq!(d.aot_drv_entry_addr(0), 0x5010);
    assert_eq!(d.aot_drv_entry_state(0), 0);
    assert_eq!(d.aot_drv_block_count(), 1);
    assert_eq!(d.aot_drv_page_count(), 1);
    d.aot_drv_reset();
    assert_eq!(d.aot_drv_entry_count(), 0);
    assert_eq!(aot_drv_page_owned(&s, 0x5000), 0);
    let mut owner: JitState = state();
    published(&mut owner, &mut guest());
    assert_eq!(aot_drv_page_owned(&owner, 0x5000), 1);
}

#[test]
fn the_cache_is_listed() {
    let mut s: JitState = state();
    let mut g: Guest = guest();
    let one: u16 = published(&mut s, &mut g);
    let two: u16 = published_at(&mut s, &mut g, 0x40_1020);
    assert_eq!(s.jit_snapshot_cache(), 2);
    assert_eq!(s.snapshot, vec![(one, 5 << 12, 1), (two, 6 << 12, 1)]);
}

#[test]
fn without_a_free_place_everything_is_given_up() {
    let mut s: JitState = state();
    let mut g: Guest = guest();
    let one: u16 = published(&mut s, &mut g);
    s.free.clear();
    let two: u16 = published_at(&mut s, &mut g, 0x40_1020);
    // The place of the first function was the only one to be had.
    assert_eq!(two, one);
    assert_eq!(found(&s, 0x5010), (0, 0));
    assert_eq!(found(&s, 0x6020), (two, 0));
}

#[test]
fn watching_changes_no_dispatch() {
    for level in 0..3 {
        let mut s: JitState = state();
        let mut g: Guest = guest();
        set_jit_config(&mut s.config, 24, level);
        let index: u16 = published(&mut s, &mut g);
        for _ in 0..2 {
            assert_eq!(
                s.jit_find_cache_entry_for_dynamic_chaining(jump(0x40_0010, 0x5010)),
                target(index, 0)
            );
        }
        assert_eq!((s.run.counts.wrong_chain, s.run.counts.memo_mismatch), (0, 0));
    }
}

#[test]
fn wrong_dispatches_are_refused() {
    for (level, wanted) in [(1, true), (2, false)] {
        let mut s: JitState = state();
        let mut g: Guest = guest();
        set_jit_config(&mut s.config, 24, level);
        let index: u16 = published(&mut s, &mut g);
        // The code of the page is gone, but the dispatch table still leads to it.
        s.pages.clear();
        let r: i32 = s.jit_find_cache_entry_for_dynamic_chaining(jump(0x40_0010, 0x5010));
        assert_eq!(r == target(index, 0), wanted);
        assert_eq!(s.run.counts.wrong_chain, 1);
    }
}

#[test]
fn giving_up_leaves_nothing_behind() {
    let mut s: JitState = state();
    let free: u32 = s.jit_aot_free_table_index_count();
    assert_eq!(begin(&mut s, 7, 2), AOT_TX_OK);
    assert_eq!(s.jit_aot_tx_page_begin(0x5000, FLAGS, 2, 0x8000), AOT_TX_OK);
    assert_eq!(s.jit_aot_tx_entry_push(0x10, 3), AOT_TX_OK);
    assert_eq!(s.jit_aot_free_table_index_count(), free - 1);
    assert_eq!(s.jit_aot_tx_abort(), AOT_TX_OK);
    assert_eq!(s.jit_aot_free_table_index_count(), free);
    assert_eq!(s.jit_aot_tx_staged_index(), NO_INDEX);
    assert_eq!(found(&s, 0x5010), (0, 0));
    assert_eq!(s.jit_aot_tx_abort(), AOT_TX_BAD_STATE);
    assert_eq!(s.jit_aot_free_table_index_count(), free);
}

#[test]
fn committed_entries_read_back() {
    let mut s: JitState = state();
    assert_eq!(begin(&mut s, 7, 1), AOT_TX_OK);
    assert_eq!(s.jit_aot_tx_page_begin(0x5000, FLAGS, 3, 0x8000), AOT_TX_OK);
    for (offset, state) in [(0x30, 9), (0x10, 3), (0xFFF, 0)] {
        assert_eq!(s.jit_aot_tx_entry_push(offset, state), AOT_TX_OK);
    }
    assert_eq!(s.jit_aot_tx_page_finish(), AOT_TX_OK);
    assert_eq!(s.jit_aot_tx_prepare_finish(), AOT_TX_OK);
    assert_eq!(s.jit_aot_tx_commit(), AOT_TX_OK);
    let read: Vec<u32> = (0..4).map(|i| s.jit_aot_page_entry_at(0x5000, i)).collect();
    assert_eq!(read, vec![0x0030_0009, 0x0010_0003, 0x0FFF_0000, 0xFFFF_FFFF]);
}

#[test]
fn a_page_with_the_budget_is_not_refused_it() {
    for (page, refused) in [(0x5000, 0), (0x6000, 1)] {
        let mut s: JitState = state();
        s.tier2_pages = (0..TIER2_PAGE_SET_CAP as u32).map(|i| 0x100 + i).collect();
        s.tier2_pages[0] = 5;
        assert_eq!(begin(&mut s, 7, 1), AOT_TX_OK);
        assert_eq!(s.jit_aot_tx_page_begin(page, FLAGS, 1, 0x8000), AOT_TX_OK);
        assert_eq!(s.jit_aot_tx_entry_push(0x10, 3), AOT_TX_OK);
        assert_eq!(s.jit_aot_tx_page_finish(), AOT_TX_OK);
        assert_eq!(s.jit_aot_tx_prepare_finish(), AOT_TX_OK);
        assert_eq!(s.jit_aot_tx_commit(), AOT_TX_OK);
        assert_eq!(s.jit_aot_tier2_blocked_count(), refused);
        assert_eq!(s.tier2_blocked_pages.len(), refused as usize);
        assert_eq!(s.tier2_pages.len(), TIER2_PAGE_SET_CAP);
    }
}

#[test]
fn what_waits_already_is_not_dropped() {
    let mut s: JitState = state();
    for index in 1..65 {
        s.run.chain_note_execution(target(index, 0), true, 1);
    }
    assert_eq!(s.run.pending.len(), TIER2_PENDING_CAP);
    s.run.chain_note_execution(target(1, 0), true, 1);
    assert_eq!(s.run.counts.pending_dropped, 0);
    s.run.chain_note_execution(target(65, 0), true, 1);
    assert_eq!(s.run.counts.pending_dropped, 1);
    assert_eq!(s.run.pending.len(), TIER2_PENDING_CAP);
}

#[test]
fn arrangements_are_tested_before_they_are_compiled() {
    let mut s: JitState = state();
    let mut g: Guest = guest();
    let blocks: Vec<BasicBlock> = s.jit_force_generate_unsafe(&mut g, 0x40_0010, true).unwrap();
    let addr: u32 = blocks[0].addr;
    let u: Unit = unit(blocks);
    assert!(can_be_compiled(&structure(addr), &u));
    assert!(!can_be_compiled(&structure(addr + 1), &u));
    assert!(!can_be_compiled(&vec![WasmStructure::BasicBlock(addr)], &u));
}

#[test]
fn the_census_has_a_switch_of_its_own() {
    let mut lengths: Vec<usize> = vec![];
    for enabled in [false, true] {
        let mut s: JitState = state();
        let mut g: Guest = guest();
        let blocks: Vec<BasicBlock> =
            s.jit_force_generate_unsafe(&mut g, 0x40_0010, true).unwrap();
        let addr: u32 = blocks[0].addr;
        let mut c: Choices = choices();
        c.env.opstats.enabled = enabled;
        let done: Compiled =
            s.jit_analyze_and_generate(&structure(addr), &unit(blocks), c, &one_byte).unwrap();
        lengths.push(done.code.builder.code.len());
    }
    assert!(lengths[0] < lengths[1]);
}

#[test]
fn compiled_instructions_are_counted() {
    let mut s: JitState = state();
    let mut g: Guest = guest();
    let blocks: Vec<BasicBlock> = s.jit_force_generate_unsafe(&mut g, 0x40_0010, true).unwrap();
    let u: Unit = unit(blocks);
    let mut census: Opstats = Opstats::new();
    record_unit_compiled(&mut census, &u);
    assert_eq!(census.compiled[0x900], 0);
    set_opstats(&mut census, 1);
    record_unit_compiled(&mut census, &u);
    assert_eq!(census.compiled[0x900], 2);
    assert_eq!(census.compiled.iter().sum::<u64>(), 2);
}

#[test]
fn blocks_of_profiled_pages_are_registered() {
    let block = |addr: u32, ty: BasicBlockType| BasicBlock {
        addr,
        virt_addr: addr as i32,
        last_instruction_addr: addr + 3,
        end_addr: addr + 5,
        is_entry_block: addr == 0x5010,
        ty,
        has_sti: false,
        number_of_instructions: 2,
        ret_speculation: vec![],
    };
    let mut u: Unit = unit(vec![
        block(
            0x5010,
            BasicBlockType::ConditionalJump {
                next_block_addr: Some(0x5015),
                next_block_branch_taken_addr: None,
                condition: 4,
                jump_offset: 8,
                jump_offset_is_32: true,
            },
        ),
        block(0x6020, BasicBlockType::Exit),
        block(
            0x5030,
            BasicBlockType::Normal {
                next_block_addr: Some(0x5010),
                jump_offset: -37,
                jump_offset_is_32: true,
            },
        ),
        block(0x5050, BasicBlockType::AbsoluteEip),
    ]);
    assert_eq!(block_records(&u), vec![]);
    u.watched_pages = vec![5];
    let r: Vec<BlockRecord> = block_records(&u);
    assert_eq!(r.len(), 3);
    assert_eq!(
        r[0],
        BlockRecord {
            addr: 0x5010,
            last_instruction_addr: 0x5013,
            end_addr: 0x5015,
            kind: BlockKind::Conditional,
            condition: 4,
            succ_fallthrough: 0x5015,
            succ_taken: 0,
            number_of_instructions: 2,
            is_entry_block: true,
        }
    );
    assert_eq!((r[1].kind, r[1].succ_fallthrough), (BlockKind::Normal, 0x5010));
    assert_eq!((r[2].kind, r[2].is_entry_block), (BlockKind::AbsoluteEip, false));
}

fn with_a_call(c: JitContext) -> (JitContext, u32) {
    let mut c: JitContext = c;
    c.builder.call("helper", Sig::Fn0);
    c.st.cpu.eip += 1;
    (c, 0)
}

#[test]
fn helpers_find_the_flags_in_memory() {
    for flag_locals in [false, true] {
        let mut s: JitState = state();
        let mut g: Guest = guest();
        let blocks: Vec<BasicBlock> =
            s.jit_force_generate_unsafe(&mut g, 0x40_0010, true).unwrap();
        let addr: u32 = blocks[0].addr;
        let mut c: Choices = choices();
        c.flag_locals = flag_locals;
        let done: Compiled =
            s.jit_analyze_and_generate(&structure(addr), &unit(blocks), c, &with_a_call).unwrap();
        let code: &Vec<Op> = &done.code.builder.code;
        let calls: Vec<usize> =
            (0..code.len()).filter(|i| code[*i] == Op::Call("helper", Sig::Fn0)).collect();
        assert_eq!(calls.len(), 2);
        for i in calls {
            let written: bool = matches!(code[i - 2], Op::LocalGet(_))
                && matches!(code[i - 1], Op::Store(Width::A32, _));
            let read: bool = matches!(code[i + 2], Op::Load(Width::A32, _))
                && matches!(code[i + 3], Op::LocalSet(_));
            assert_eq!((written, read), (flag_locals, flag_locals));
        }
        // The registers, the counter and the flags are given back.
        let given: usize = if flag_locals { 14 } else { 9 };
        assert_eq!(done.code.builder.free_i32.len(), given);
    }
}

#[test]
fn a_fresh_state_has_nothing() {
    let s: JitState = JitState::create_and_initialise();
    for page in [0, 5, 0xF_FFFF] {
        assert_eq!(dispatch_meta_get(&s.dispatch, page), 0);
    }
    assert_eq!(s.config.values[15], 300_000);
    assert_eq!(s.run.counts.promotions, 0);
    assert_eq!(s.tlb.len(), 0);
    assert_eq!(s.free.len(), 899);
}

#[test]
fn turning_counters_drops_the_code() {
    let mut s: JitState = state();
    let mut g: Guest = guest();
    published(&mut s, &mut g);
    let print: u32 = jit_codegen_fingerprint_lo(&s.config);
    assert_eq!(get_fpu_relaxed_stats(&s.config), 0);
    // No change: the code stays.
    set_fpu_relaxed_stats(&mut s, 0);
    assert!(s.jit_page_has_code(5));
    set_fpu_relaxed_stats(&mut s, 7);
    assert!(is_fpu_relaxed_stats(&s.config));
    assert_eq!(get_fpu_relaxed_stats(&s.config), 1);
    assert!(!s.jit_page_has_code(5));
    assert_ne!(jit_codegen_fingerprint_lo(&s.config), print);
    let c: Choices = follow_settings(choices(), &s.config);
    assert!(c.env.fpu_relaxed_stats);
    assert!(!c.flag_locals);
    set_jit_config(&mut s.config, 21, 1);
    set_jit_config(&mut s.config, 2, 0);
    let safe: Choices = Choices { loop_safety: Some(100), ..choices() };
    assert_eq!(follow_settings(safe, &s.config).loop_safety, None);
    assert!(follow_settings(choices(), &s.config).flag_locals);
}

#[test]
fn every_third_entry_asks() {
    let mut s: JitState = state();
    for j in 1..=9 {
        assert_eq!(s.run.tier2_count_entry(7, 3), j % 3 == 0);
    }
    assert_eq!(s.run.entry_totals[7], 9);
    for _ in 0..5 {
        assert!(!s.run.tier2_count_entry(8, 0));
    }
    assert_eq!(s.run.entry_totals[8], 5);
    assert_eq!(s.run.exec_counts[8], 0);
    assert_eq!(s.run.entry_totals[9], 0);
}

#[test]
fn nops_are_compiled() {
    let mut s: JitState = state();
    let mut g: Guest = guest();
    let blocks: Vec<BasicBlock> = s.jit_force_generate_unsafe(&mut g, 0x40_0010, true).unwrap();
    let addr: u32 = blocks[0].addr;
    let done: Compiled =
        s.jit_analyze_and_generate(&structure(addr), &unit(blocks), choices(), &gen_nop).unwrap();
    assert!(done.code.builder.code.len() > 0);
    assert_eq!(done.entries, vec![(addr, 0)]);
}
