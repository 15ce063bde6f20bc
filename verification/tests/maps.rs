use bottleship::dispatch::{
    dispatch_meta_clear, dispatch_meta_get, dispatch_meta_init, dispatch_meta_set,
    dispatch_meta_state_flags, dispatch_meta_table_index, dispatch_slab_high_water,
    dispatch_slab_overflows, dispatch_state_lookup, jit_debug_meta_hi, jit_debug_meta_lo,
    jit_debug_slab_cell, jit_get_dispatch_slabs_len, jit_slab_audit, jit_slab_audit_last,
    set_tlb_code, DispatchTable, NO_STATE,
};
use bottleship::perm_map::{
    get_perm_map_reads, perm_byte_of, perm_map_byte, perm_map_reads_enabled,
    perm_map_rebuild_and_diff, set_perm_map_reads, PermMap,
};
use bottleship::virtual_mem::{Frame, VirtualMemory};
use bottleship::write_map::{
    fastmem_get_speculated_stores_compiled, fastmem_note_speculated_store_compiled,
    fastmem_write_map_clear_code, fastmem_write_map_clear_watch, fastmem_write_map_count,
    fastmem_write_map_get, fastmem_write_map_max_page, fastmem_write_map_reset,
    fastmem_write_map_set_base, fastmem_write_map_set_code, fastmem_write_map_set_exclude,
    fastmem_write_map_set_watch, WriteMap,
};
use std::collections::HashMap;

const RAM: u32 = 0x3000_0000;

#[test]
fn only_plain_pages_become_writable() {
    let mut m: WriteMap = WriteMap::new();
    fastmem_write_map_set_base(&mut m, 0, 0x10_0000, 1, RAM);
    assert_eq!(fastmem_write_map_get(&m, 0xFF), 0);
    assert_eq!(fastmem_write_map_get(&m, 0x100), 1);
    assert_eq!(fastmem_write_map_get(&m, 0x2_2FFF), 1);
    assert_eq!(fastmem_write_map_get(&m, 0x2_3000), 0);
    assert_eq!(fastmem_write_map_get(&m, 0x2_3FFF), 0);
    assert_eq!(fastmem_write_map_get(&m, 0x2_4000), 1);
    assert_eq!(fastmem_write_map_get(&m, 0x2_FFFF), 1);
    assert_eq!(fastmem_write_map_get(&m, 0x3_0000), 0);
    assert_eq!(fastmem_write_map_max_page(&m), 0x2_FFFF);
    assert_eq!(fastmem_write_map_count(&m, 1), 0x2_2F00 + 0xC000);
    fastmem_write_map_set_base(&mut m, 0x100, 2, 0, RAM);
    assert_eq!(fastmem_write_map_get(&m, 0x101), 0);
    assert_eq!(fastmem_write_map_get(&m, 0x102), 1);
    assert_eq!(fastmem_write_map_get(&m, 0x10_0000), 0);
}

#[test]
fn excluded_pages_stay_closed() {
    let mut m: WriteMap = WriteMap::new();
    fastmem_write_map_set_base(&mut m, 0x200, 0x10, 1, RAM);
    fastmem_write_map_set_exclude(&mut m, 0x204, 0x208);
    assert_eq!(fastmem_write_map_get(&m, 0x203), 1);
    assert_eq!(fastmem_write_map_get(&m, 0x204), 0);
    fastmem_write_map_set_base(&mut m, 0x200, 0x10, 1, RAM);
    assert_eq!(fastmem_write_map_get(&m, 0x207), 0);
    assert_eq!(fastmem_write_map_get(&m, 0x208), 1);
    fastmem_note_speculated_store_compiled(&mut m);
    assert_eq!(fastmem_get_speculated_stores_compiled(&m), 1);
    fastmem_write_map_reset(&mut m);
    assert_eq!(fastmem_write_map_get(&m, 0x208), 0);
    assert_eq!(fastmem_get_speculated_stores_compiled(&m), 0);
    fastmem_write_map_set_base(&mut m, 0x200, 0x10, 1, RAM);
    assert_eq!(fastmem_write_map_get(&m, 0x207), 0);
}

#[test]
fn code_and_watches_close_a_page() {
    let mut m: WriteMap = WriteMap::new();
    fastmem_write_map_set_base(&mut m, 0x200, 1, 1, RAM);
    fastmem_write_map_set_code(&mut m, 0x200);
    assert_eq!(fastmem_write_map_get(&m, 0x200), 3);
    fastmem_write_map_set_watch(&mut m, 0x200);
    assert_eq!(fastmem_write_map_get(&m, 0x200), 7);
    fastmem_write_map_clear_code(&mut m, 0x200);
    assert_eq!(fastmem_write_map_get(&m, 0x200), 5);
    fastmem_write_map_clear_watch(&mut m, 0x200);
    assert_eq!(fastmem_write_map_get(&m, 0x200), 1);
    fastmem_write_map_set_code(&mut m, 0x10_0000);
    assert_eq!(fastmem_write_map_count(&m, 2), 0);
}

#[test]
fn permissions_follow_the_entries() {
    let mem8: u32 = 0x1000;
    let identity: i32 = ((mem8 + 0x5000) ^ 0x5000) as i32;
    assert_eq!(perm_byte_of(5, 0, mem8), 0);
    assert_eq!(perm_byte_of(5, identity | 1, mem8), 1 + 2 + 4 + 8);
    assert_eq!(perm_byte_of(5, identity | 1 | 2 | 4 | 32, mem8), 1 + 8 + 16);
    assert_eq!(perm_byte_of(5, identity | 1 | 8 | 32, mem8), 16);
    assert_eq!(perm_byte_of(5, identity | 32, mem8), 16);
    assert_eq!(perm_byte_of(6, identity | 1, mem8), 1 + 2 + 4);
}

#[test]
fn the_mirror_is_compared() {
    let mem8: u32 = 0x1000;
    let entry: i32 = ((mem8 + 0x5000) ^ 0x5000) as i32 | 1;
    let mut m: PermMap = PermMap::new();
    let mut tlb: Vec<i32> = vec![0; 16];
    assert_eq!(perm_map_rebuild_and_diff(&m, &tlb, mem8), 0);
    tlb[5] = entry;
    tlb[6] = entry;
    assert_eq!(perm_map_rebuild_and_diff(&m, &tlb, mem8), 2);
    m.follow(5, entry, mem8);
    assert_eq!(perm_map_rebuild_and_diff(&m, &tlb, mem8), 1);
    m.follow(6, entry, mem8);
    assert_eq!(perm_map_rebuild_and_diff(&m, &tlb, mem8), 0);
    assert_eq!(perm_map_byte(&m, 5), 15);
    assert_eq!(perm_map_byte(&m, 6), 7);
    assert_eq!(perm_map_byte(&m, 0x10_0000), 0);
    assert!(!perm_map_reads_enabled(&m));
    set_perm_map_reads(&mut m, 7);
    assert_eq!(get_perm_map_reads(&m), 1);
}

#[test]
fn published_blocks_are_found() {
    let mut t: DispatchTable = dispatch_meta_init();
    dispatch_meta_set(&mut t, 0x400, 7, &vec![(0x10, 0), (0xFFF, 3), (0x20, NO_STATE)], 9);
    let meta: u64 = dispatch_meta_get(&t, 0x400);
    assert_eq!(dispatch_meta_state_flags(meta), 9);
    assert_eq!(dispatch_meta_table_index(meta), 7);
    assert_eq!(dispatch_state_lookup(&t, meta, 0x40_0010), 0);
    assert_eq!(dispatch_state_lookup(&t, meta, 0x40_0FFF), 3);
    assert_eq!(dispatch_state_lookup(&t, meta, 0x40_0020), NO_STATE);
    assert_eq!(dispatch_state_lookup(&t, meta, 0x40_0011), NO_STATE);
    assert_eq!(dispatch_meta_get(&t, 0x401), 0);
    assert_eq!(jit_debug_meta_hi(&t, 0x400), 9);
    assert_eq!(jit_debug_meta_lo(&t, 0x400) >> 16, 7);
    assert_eq!(jit_debug_slab_cell(&t, 0x400, 0xFFF), 4);
    assert_eq!(dispatch_slab_high_water(&t), 1);
}

#[test]
fn pages_do_not_share_a_slab() {
    let mut t: DispatchTable = dispatch_meta_init();
    set_tlb_code(&mut t, 1, 7, &vec![(0x10, 0)], 0);
    set_tlb_code(&mut t, 2, 8, &vec![(0x20, 1)], 0);
    let one: u64 = dispatch_meta_get(&t, 1);
    let two: u64 = dispatch_meta_get(&t, 2);
    assert_eq!(dispatch_state_lookup(&t, one, 0x1020), NO_STATE);
    assert_eq!(dispatch_state_lookup(&t, two, 0x2020), 1);
    // Published again, the page keeps its slab and loses its old blocks.
    set_tlb_code(&mut t, 1, 9, &vec![(0x30, 2)], 0);
    let again: u64 = dispatch_meta_get(&t, 1);
    assert_eq!(again & 0xFFFF, one & 0xFFFF);
    assert_eq!(dispatch_state_lookup(&t, again, 0x1010), NO_STATE);
    assert_eq!(dispatch_state_lookup(&t, again, 0x1030), 2);
    assert!(dispatch_meta_clear(&mut t, 1));
    assert!(!dispatch_meta_clear(&mut t, 1));
    assert_eq!(dispatch_meta_get(&t, 1), 0);
    assert_eq!(dispatch_slab_high_water(&t), 2);
    assert_eq!(dispatch_slab_overflows(&t), 0);
    assert_eq!(jit_get_dispatch_slabs_len(), 0x200_0000);
}

#[test]
fn damaged_slabs_are_reported() {
    let mut t: DispatchTable = dispatch_meta_init();
    set_tlb_code(&mut t, 1, 7, &vec![(0x10, 0), (0x11, 1)], 0);
    assert_eq!(jit_slab_audit(&mut t), 0);
    let slab: usize = (dispatch_meta_get(&t, 1) & 0xFFFF) as usize;
    t.slabs[slab * 0x1000 + 0x10] = 0;
    assert_eq!(jit_slab_audit(&mut t), 1);
    assert_eq!(jit_slab_audit_last(&t, 0), slab as u32);
    assert_eq!(jit_slab_audit_last(&t, 1), 2);
    assert_eq!(jit_slab_audit_last(&t, 2), 1);
    assert_eq!(jit_slab_audit_last(&t, 3), 0);
}

#[test]
fn without_slabs_nothing_is_published() {
    let mut t: DispatchTable = dispatch_meta_init();
    for page in 0..4095 {
        dispatch_meta_set(&mut t, page, 1, &vec![(0, 0)], 0);
    }
    assert_eq!(dispatch_slab_overflows(&t), 0);
    dispatch_meta_set(&mut t, 5000, 1, &vec![(0, 0)], 0);
    assert_eq!(dispatch_slab_overflows(&t), 1);
    assert_eq!(dispatch_meta_get(&t, 5000), 0);
}

fn words() -> VirtualMemory {
    let mut pages: HashMap<u32, Frame> = HashMap::new();
    pages.insert(0x10, Frame { number: 1, writable: true });
    pages.insert(0x11, Frame { number: 0, writable: true });
    pages.insert(0x12, Frame { number: 0, writable: false });
    VirtualMemory { ram: vec![0; 0x2000], pages }
}

#[test]
fn words_cross_pages() {
    let mut m: VirtualMemory = words();
    assert!(m.safe_write32(0x1_0FFE, 0x0403_0201));
    assert_eq!(m.ram[0x1FFE..0x2000], [1, 2]);
    assert_eq!(m.ram[0..2], [3, 4]);
    assert_eq!(m.safe_read32s(0x1_0FFE), Some(0x0403_0201));
    assert_eq!(m.safe_read16(0x1_2000), Some(0x0403));
    assert_eq!(m.safe_read8(0x1_1001), Some(4));
}

#[test]
fn a_fault_writes_nothing() {
    let mut m: VirtualMemory = words();
    assert!(!m.safe_write32(0x1_1FFE, -1));
    assert_eq!(m.ram[0xFFE..0x1000], [0, 0]);
    assert!(!m.safe_write32(0x1_2000, -1));
    assert_eq!(m.safe_read32s(0x1_2FFD), None);
    assert_eq!(m.safe_read16(0x1_2FFF), None);
    assert_eq!(m.safe_read8(0x1_3000), None);
    assert_eq!(m.safe_read32s(-2), None);
}

#[test]
fn repeated_entries_are_no_damage() {
    let mut t: DispatchTable = dispatch_meta_init();
    assert_eq!(jit_slab_audit(&mut t), 0);
    set_tlb_code(&mut t, 1, 7, &vec![(0x10, 0), (0x10, 1), (0x20, NO_STATE)], 0);
    assert_eq!(jit_slab_audit(&mut t), 0);
    let meta: u64 = dispatch_meta_get(&t, 1);
    assert_eq!(dispatch_state_lookup(&t, meta, 0x1010), 1);
    assert_eq!(dispatch_state_lookup(&t, meta, 0x1020), NO_STATE);
    dispatch_meta_clear(&mut t, 1);
    assert_eq!(jit_slab_audit(&mut t), 0);
}
