use bottleship::guest_ram::Ram;
use bottleship::jit_blocks::{
    classify_flag_class, find_block, is_near_end_of_page, should_elide_current_flags,
    AnalysisType, BasicBlock, BasicBlockType, FlagClass, Listing, Step,
};
use bottleship::jit_search::{jit_find_basic_blocks, Guest, Limits};
use bottleship::opstats::{
    decode, get_opstats, is_prefix_byte, opstats_enabled, opstats_reset, record_opstat_compiled,
    set_opstats, Instruction, Opstats,
};
use std::collections::HashMap;

fn step(end: u32, ty: AnalysisType) -> Step {
    let last: bool = ty == AnalysisType::BlockBoundary;
    Step { end, ty, no_next_instruction: last, absolute_jump: false }
}

fn guest(listing: Listing) -> Guest {
    let mut translation: HashMap<u32, u32> = HashMap::new();
    translation.insert(0x400, 5);
    translation.insert(0x401, 6);
    let mut entry_points: HashMap<u32, Vec<u16>> = HashMap::new();
    entry_points.insert(5, vec![0x10]);
    Guest {
        ram: Ram { bytes: vec![0x90; 0x8000] },
        listing,
        translation,
        entry_points,
        compiled: HashMap::new(),
        hot_targets: HashMap::new(),
        cs_offset: 0,
        max_pages: 3,
        exclude_lo: 0,
        exclude_hi: 0,
        indirect_regions: false,
    }
}

fn limits() -> Limits {
    Limits {
        max_pages: 3,
        region_max_pages: 8,
        tier2_max_pages: 8,
        ret_speculation: false,
        ret_spec_max_instr: 24,
        tier2_ret_spec_max_instr: 96,
    }
}

/// A loop at 0x5010: its body, then a conditional jump back.
fn looping() -> Guest {
    let mut l: Listing = Listing::new();
    l.put(0x5010, step(0x5011, AnalysisType::Normal));
    l.put(
        0x5011,
        step(0x5013, AnalysisType::Jump { offset: -3, is_32: true, condition: Some(5) }),
    );
    l.put(0x5013, step(0x5014, AnalysisType::BlockBoundary));
    guest(l)
}

#[test]
fn loops_are_blocks() {
    let mut g: Guest = looping();
    let (blocks, _) = jit_find_basic_blocks(&mut g, &vec![0x40_0010], &limits(), &vec![], true);
    assert_eq!(blocks.len(), 2);
    let one: &BasicBlock = &blocks[find_block(&blocks, 0x5010).unwrap()];
    assert_eq!((one.addr, one.last_instruction_addr, one.end_addr), (0x5010, 0x5011, 0x5013));
    assert_eq!(one.virt_addr, 0x40_0010);
    assert!(one.is_entry_block);
    assert_eq!(
        one.ty,
        BasicBlockType::ConditionalJump {
            next_block_addr: Some(0x5013),
            next_block_branch_taken_addr: Some(0x5010),
            condition: 5,
            jump_offset: -3,
            jump_offset_is_32: true,
        }
    );
    let two: &BasicBlock = &blocks[find_block(&blocks, 0x5013).unwrap()];
    assert!(!two.is_entry_block);
    assert_eq!(two.ty, BasicBlockType::Exit);
    assert_eq!(find_block(&blocks, 0x5011), None);
    // Every edge goes to a block that was found.
    for b in &blocks {
        if let BasicBlockType::ConditionalJump {
            next_block_addr,
            next_block_branch_taken_addr,
            ..
        } = b.ty
        {
            for next in [next_block_addr, next_block_branch_taken_addr] {
                assert!(find_block(&blocks, next.unwrap()).is_some());
            }
        }
    }
}

#[test]
fn a_jump_into_a_block_splits_it() {
    let mut g: Guest = looping();
    let (blocks, _) =
        jit_find_basic_blocks(&mut g, &vec![0x40_0010, 0x40_0011], &limits(), &vec![], true);
    let one: &BasicBlock = &blocks[find_block(&blocks, 0x5010).unwrap()];
    assert_eq!(one.end_addr, 0x5011);
    assert_eq!(
        one.ty,
        BasicBlockType::Normal {
            next_block_addr: Some(0x5011),
            jump_offset: 0,
            jump_offset_is_32: true,
        }
    );
    assert_eq!(blocks.len(), 3);
}

#[test]
fn growth_avoids_excluded_addresses() {
    for (lo, hi, pages) in
        [(0, 0, vec![5, 6]), (0x40_1000, 0x40_2000, vec![5]), (0x40_0000, 0x40_1000, vec![5, 6])]
    {
        // A jump to the next page, which has been entered.
        let mut l: Listing = Listing::new();
        l.put(
            0x5010,
            step(0x5015, AnalysisType::Jump { offset: 0x100B, is_32: true, condition: None }),
        );
        l.put(0x6020, step(0x6021, AnalysisType::BlockBoundary));
        let mut g: Guest = guest(l);
        g.entry_points.insert(6, vec![0x20]);
        g.exclude_lo = lo;
        g.exclude_hi = hi;
        let (blocks, found) =
            jit_find_basic_blocks(&mut g, &vec![0x40_0010], &limits(), &vec![], true);
        assert_eq!(found, pages);
        assert_eq!(blocks.len(), pages.len());
        for b in &blocks {
            assert!(found.contains(&(b.addr / 0x1000)));
            assert_eq!(g.translate_address(b.virt_addr), Some(b.addr));
        }
    }
}

#[test]
fn the_end_of_a_page_is_near() {
    assert!(!is_near_end_of_page(0x5FEF));
    assert!(is_near_end_of_page(0x5FF0));
    assert!(is_near_end_of_page(0x5FFF));
    assert!(!is_near_end_of_page(0x6000));
}

fn code(bytes: &[u8]) -> Ram {
    let mut all: Vec<u8> = vec![0; 0x6000];
    for (i, b) in bytes.iter().enumerate() {
        all[0x5010 + i] = *b;
    }
    Ram { bytes: all }
}

#[test]
fn instructions_are_classified() {
    // add eax, ecx
    assert_eq!(
        classify_flag_class(&code(&[0x01, 0xC8]), 0x5010),
        FlagClass::Overwrite { non_faulting: true }
    );
    // add [eax], ecx
    assert_eq!(
        classify_flag_class(&code(&[0x01, 0x08]), 0x5010),
        FlagClass::Overwrite { non_faulting: false }
    );
}

#[test]
fn overwritten_flags_are_elided() {
    // add eax, ecx; add eax, ecx; then a boundary
    let ram: Ram = code(&[0x01, 0xC8, 0x01, 0xC8, 0xF4]);
    let mut l: Listing = Listing::new();
    l.put(0x5010, step(0x5012, AnalysisType::Normal));
    l.put(0x5012, step(0x5014, AnalysisType::Normal));
    l.put(0x5014, step(0x5015, AnalysisType::BlockBoundary));
    let mut g: Guest = guest(l);
    g.ram = Ram { bytes: ram.bytes.clone() };
    let (blocks, _) = jit_find_basic_blocks(&mut g, &vec![0x40_0010], &limits(), &vec![], true);
    let b: &BasicBlock = &blocks[0];
    assert!(should_elide_current_flags(true, &ram, &g.listing, 0x5010, b, &blocks));
    assert!(!should_elide_current_flags(true, &ram, &g.listing, 0x5012, b, &blocks));
    assert!(!should_elide_current_flags(false, &ram, &g.listing, 0x5010, b, &blocks));
}

#[test]
fn words_are_read_from_memory() {
    let ram: Ram = code(&[1, 2, 3, 4, 5, 6, 7, 8]);
    assert_eq!(ram.read8(0x5011), 2);
    assert_eq!(ram.read64(0x5010), 0x0807_0605_0403_0201);
}

#[test]
fn opcodes_are_counted() {
    assert!(is_prefix_byte(0x66));
    assert!(is_prefix_byte(0xF3));
    assert!(!is_prefix_byte(0x90));
    let plain: Instruction = decode(0xC801);
    assert_eq!(plain.opcode, 0x01);
    assert!(plain.has_modrm && !plain.is_mem);
    // add [eax + 4 * ecx], ecx
    let scaled: Instruction = decode(0x88_0C01);
    assert!(scaled.has_modrm && scaled.is_mem && scaled.has_sib);
    assert_eq!(scaled.sib, 0x88);
    let mut s: Opstats = Opstats::new();
    assert!(!opstats_enabled(&s));
    set_opstats(&mut s, 1);
    assert_eq!(get_opstats(&s), 1);
    record_opstat_compiled(&mut s, 0x9090);
    opstats_reset(&mut s);
    assert_eq!(get_opstats(&s), 1);
}
