use bottleship::eagl_apply::{
    eagl_apply_walk, ftol_low32, handle_eagl_apply_packed, handle_eagl_apply_reg_float,
    handle_eagl_apply_reg_int, handle_eagl_shader_const_convert, move_single, single_of_int,
    ApplyFamily, ApplyLayout, Walk, APPLY_E_FAIL, D3DERR_INVALIDCALL,
};
use bottleship::eagl_tokens::{eagl_resolve_record, eagl_stub_fid, EaglPass, TokenState};
use bottleship::virtual_mem::{Frame, VirtualMemory};
use std::collections::HashMap;

const ESP: i32 = 0x1000;

/// Four pages at their own addresses.
fn memory() -> VirtualMemory {
    let mut pages: HashMap<u32, Frame> = HashMap::new();
    for page in 1..5 {
        pages.insert(page, Frame { number: page, writable: true });
    }
    VirtualMemory { ram: vec![0; 0x5000], pages }
}

fn put(m: &mut VirtualMemory, at: i32, words: &[i32]) {
    for (i, w) in words.iter().enumerate() {
        assert!(m.safe_write32(at + 4 * i as i32, *w));
    }
}

fn get(m: &VirtualMemory, at: i32, n: i32) -> Vec<i32> {
    (0..n).map(|i| m.safe_read32s(at + 4 * i).unwrap()).collect()
}

fn single(x: f32) -> i32 {
    x.to_bits() as i32
}

#[test]
fn singles_become_integers() {
    for x in [
        0.0f32, 0.99, 1.0, 1.5, -1.5, 255.9, -3.0, 16777216.0, 3e9, -3e9, 5e9, 1e18, -9e18, 1e19,
        f32::INFINITY, f32::NAN, 1e-40,
    ] {
        let wide: i64 = if x.abs() < 9.3e18 { x as i64 } else { 0 };
        let wide: i64 = if x.is_nan() { 0 } else { wide };
        if x.abs() < 9.2e18 || x.is_nan() || x.abs() >= 9.3e18 {
            assert_eq!(ftol_low32(x.to_bits()), wide as u32);
        }
    }
}

#[test]
fn integers_become_singles() {
    for n in [0u32, 1, 2, 3, 255, 16777216, 16777217, 16777219, 0x7FFF_FFFF, 0x8000_0080, u32::MAX] {
        assert_eq!(single_of_int(false, n), (n as f32).to_bits());
        if n != 0 {
            assert_eq!(single_of_int(true, n), (-(n as f32)).to_bits());
        }
    }
    assert_eq!(move_single(0x7F80_0001), 0x7FC0_0001);
    assert_eq!(move_single(0x7FC0_0001), 0x7FC0_0001);
    assert_eq!(move_single(0x7F80_0000), 0x7F80_0000);
}

fn convert(mode: i32, rows: i32, cols: i32, count: i32) -> (VirtualMemory, Option<i32>) {
    let mut m: VirtualMemory = memory();
    put(&mut m, ESP + 4, &[0x2000, 0x4000, 0x3000, count]);
    put(&mut m, 0x2000, &[mode, 0, 0, 0, 0, rows, cols]);
    put(&mut m, 0x3000, &[single(1.5), single(0.5), single(-2.0), 7]);
    put(&mut m, 0x3010, &[single(3.0), single(4.0), single(5.0), 8]);
    put(&mut m, 0x3040, &[single(9.0), single(10.0)]);
    let r: Option<i32> = handle_eagl_shader_const_convert(&mut m, ESP);
    (m, r)
}

#[test]
fn matrices_are_converted() {
    let (m, r) = convert(2, 2, 3, 1);
    assert_eq!(r, Some(0));
    assert_eq!(get(&m, 0x4000, 7), vec![1, 0, -2, 3, 4, 5, 0]);
    let (m, r) = convert(1, 1, 3, 1);
    assert_eq!(r, Some(0));
    assert_eq!(get(&m, 0x4000, 4), vec![1, 0, 1, 0]);
    let (m, r) = convert(3, 1, 2, 2);
    assert_eq!(r, Some(0));
    assert_eq!(
        get(&m, 0x4000, 4),
        vec![single(1.5), single(0.5), single(9.0), single(10.0)]
    );
}

#[test]
fn conversions_are_refused() {
    assert_eq!(convert(0, 1, 1, 1).1, Some(D3DERR_INVALIDCALL));
    assert_eq!(convert(4, 1, 1, 1).1, Some(D3DERR_INVALIDCALL));
    assert_eq!(convert(2, 17, 1, 1).1, None);
    assert_eq!(convert(2, 1, 17, 1).1, None);
    assert_eq!(convert(2, 1, 1, 4097).1, None);
    let mut m: VirtualMemory = memory();
    assert_eq!(handle_eagl_shader_const_convert(&mut m, 0x8000), None);
}

/// One descriptor of values, with its cursors on the stack.
fn values(class: i32, mode: i32, rows: i32, cols: i32, budget: i32) -> VirtualMemory {
    let mut m: VirtualMemory = memory();
    put(&mut m, ESP + 4, &[0x1100, 0x1104, 0x1108, 0x110C]);
    put(&mut m, 0x1100, &[0x2000, 0x3000, 0x4000, budget]);
    put(&mut m, 0x2000, &[mode, class, 0, 0, 0, rows, cols]);
    put(&mut m, 0x3000, &[1, -2, 3, 4, 5, 6, 7, 8]);
    m
}

#[test]
fn values_fill_registers() {
    // Two columns of two words, each in a register of its own.
    let mut m: VirtualMemory = values(0, 1, 2, 2, 10);
    assert_eq!(handle_eagl_apply_reg_int(&mut m, ESP), Some(0));
    assert_eq!(
        get(&m, 0x4000, 8),
        vec![single(1.0), single(3.0), 0, 0, single(-2.0), single(4.0), 0, 0]
    );
    assert_eq!(get(&m, 0x1100, 4), vec![0x201C, 0x3010, 0x4020, 8]);
}

#[test]
fn values_are_packed() {
    let mut m: VirtualMemory = values(0, 1, 2, 2, 3);
    assert_eq!(handle_eagl_apply_packed(&mut m, ESP), Some(0));
    // The budget holds for three words.
    assert_eq!(get(&m, 0x4000, 4), vec![1, 3, -2, 0]);
    assert_eq!(get(&m, 0x1100, 4), vec![0x201C, 0x3010, 0x400C, 0]);
}

#[test]
fn singles_are_applied_as_integers() {
    let mut m: VirtualMemory = values(1, 3, 1, 1, 4);
    put(&mut m, 0x3000, &[single(41.9)]);
    assert_eq!(handle_eagl_apply_reg_float(&mut m, ESP), Some(0));
    assert_eq!(get(&m, 0x4000, 2), vec![41, 0]);
}

#[test]
fn containers_are_walked() {
    let mut m: VirtualMemory = values(5, 0, 2, 0, 10);
    // Two children follow the header of the container.
    put(&mut m, 0x2018, &[1, 0, 0, 0, 0, 1, 1]);
    put(&mut m, 0x2034, &[1, 0, 0, 0, 0, 1, 1]);
    assert_eq!(handle_eagl_apply_reg_int(&mut m, ESP), Some(0));
    assert_eq!(get(&m, 0x4000, 5), vec![single(1.0), 0, 0, 0, single(-2.0)]);
    assert_eq!(get(&m, 0x1100, 4), vec![0x2050, 0x3008, 0x4020, 8]);
}

#[test]
fn walks_that_give_up_put_the_cursors_back() {
    // The source runs off the mapped pages.
    let mut m: VirtualMemory = values(0, 1, 4, 2, 10);
    put(&mut m, 0x1104, &[0x4FF0]);
    let before: Vec<i32> = get(&m, 0x1100, 4);
    assert_eq!(handle_eagl_apply_reg_int(&mut m, ESP), None);
    assert_eq!(get(&m, 0x1100, 4), before);
    let mut unknown: VirtualMemory = values(4, 1, 1, 1, 10);
    assert_eq!(handle_eagl_apply_reg_int(&mut unknown, ESP), Some(APPLY_E_FAIL));
    let mut mode: VirtualMemory = values(0, 4, 1, 1, 10);
    assert_eq!(handle_eagl_apply_reg_int(&mut mode, ESP), Some(APPLY_E_FAIL));
    let mut rich: VirtualMemory = values(0, 1, 1, 1, 4097);
    assert_eq!(handle_eagl_apply_reg_int(&mut rich, ESP), None);
}

#[test]
fn dry_walks_move_only_the_cursors() {
    let mut m: VirtualMemory = values(0, 1, 2, 2, 10);
    let w: Walk = Walk {
        family: ApplyFamily::Int,
        layout: ApplyLayout::Register,
        desc_cur: 0x1100,
        src_cur: 0x1104,
        dst_cur: 0x1108,
        budget: 0x110C,
        commit: false,
    };
    assert_eq!(eagl_apply_walk(&mut m, w, 0), Some(0));
    assert_eq!(get(&m, 0x1100, 4), vec![0x201C, 0x3010, 0x4020, 8]);
    assert_eq!(get(&m, 0x4000, 8), vec![0; 8]);
    assert_eq!(eagl_apply_walk(&mut m, w, 9), None);
}

#[test]
fn a_pass_remembers_cells() {
    let mut p: EaglPass = EaglPass::new(false, 0x40);
    assert_eq!(p.model_get(8), None);
    p.model_put(8, 1);
    p.model_put(8, 2);
    assert_eq!(p.model_get(8), Some(2));
    for i in 1..65 {
        p.model_put(8 + 4 * i, i);
    }
    assert!(p.overflow);
    assert_eq!(p.model_get(8 + 4 * 63), Some(63));
    assert_eq!(p.model_get(8 + 4 * 64), None);
}

const CFG: i32 = 0x1200;
const CTX: i32 = 0x1400;
const DEV: i32 = 0x1500;
const TABLE: i32 = 0x1600;
const STUB: i32 = 0x1A00;
const NODE: i32 = 0x2000;
const RING: i32 = 0x3000;

/// A device whose call to set a render state has the number 77, and a token that sets state 7.
fn device() -> VirtualMemory {
    let mut m: VirtualMemory = memory();
    // The configuration: version, then its words; the generation stands at 0x38.
    put(&mut m, CFG, &[2, 0x2100, 0x2200, RING, 0x400, 0x2204, 77, 0x2300, 0x2208]);
    put(&mut m, 0x2204, &[DEV]);
    put(&mut m, CTX + 8, &[DEV]);
    put(&mut m, DEV, &[TABLE]);
    put(&mut m, TABLE + 0xE4, &[STUB]);
    m.ram[STUB as usize] = 0xB8;
    put(&mut m, STUB + 1, &[77]);
    put(&mut m, ESP + 4, &[NODE, 0]);
    put(&mut m, NODE, &[3]);
    put(&mut m, NODE + 0x68, &[99]);
    put(&mut m, 0x2100 + 3 * 0x1C, &[0x0100_0007]);
    m
}

#[test]
fn states_are_appended_to_the_ring() {
    let mut m: VirtualMemory = device();
    let mut t: TokenState = TokenState::new();
    assert_eq!(eagl_stub_fid(&m, TABLE, 0xE4, 77), Some(77));
    assert_eq!(eagl_stub_fid(&m, TABLE, 0xE4, 78), None);
    assert_eq!(t.dispatch_inner_loop(&mut m, 132, CFG, ESP, CTX), Some(0));
    assert_eq!(get(&m, RING, 5), vec![77, DEV, 7, 99, 0]);
    assert_eq!(get(&m, 0x2200, 1), vec![16]);
    assert_eq!(get(&m, 0x2300 + 7 * 4, 1), vec![99]);
    // The state is set already: the call is saved.
    assert_eq!(t.dispatch_inner_loop(&mut m, 132, CFG, ESP, CTX), Some(0));
    assert_eq!(get(&m, 0x2200, 1), vec![16]);
    assert_eq!(get(&m, 0x2208, 1), vec![1]);
    assert_eq!(t.eagl_token_skip_count(), 1);
    // Another value is appended.
    put(&mut m, NODE + 0x68, &[100]);
    assert_eq!(t.dispatch_inner_loop(&mut m, 132, CFG, ESP, CTX), Some(0));
    assert_eq!(get(&m, RING + 16, 4), vec![77, DEV, 7, 100]);
    assert_eq!(get(&m, 0x2200, 1), vec![32]);
    assert_eq!(t.eagl_token_enter_count(), 3);
    assert_eq!(t.eagl_token_handled_count(), 3);
    assert_eq!(t.eagl_token_decline_count(), 0);
}

#[test]
fn tokens_are_left_to_the_guest() {
    let mut t: TokenState = TokenState::new();
    let mut version: VirtualMemory = device();
    put(&mut version, CFG, &[4]);
    assert_eq!(t.dispatch_inner_loop(&mut version, 132, CFG, ESP, CTX), None);
    let mut full: VirtualMemory = device();
    put(&mut full, 0x2200, &[0x400 - 36]);
    assert_eq!(t.dispatch_inner_loop(&mut full, 132, CFG, ESP, CTX), None);
    assert_eq!(get(&full, RING, 1), vec![0]);
    let mut hooked: VirtualMemory = device();
    hooked.ram[STUB as usize] = 0xE9;
    assert_eq!(t.dispatch_inner_loop(&mut hooked, 132, CFG, ESP, CTX), None);
    let mut class: VirtualMemory = device();
    put(&mut class, 0x2100 + 3 * 0x1C, &[0x0300_0007]);
    assert_eq!(t.dispatch_inner_loop(&mut class, 132, CFG, ESP, CTX), None);
    assert_eq!(t.dispatch_inner_loop(&mut class, 133, CFG, ESP, CTX), None);
    assert_eq!(t.eagl_token_decline_count(), 4);
    assert_eq!(t.eagl_token_enter_count(), 4);
    assert_eq!(eagl_resolve_record(&class, 0x9000, 0), None);
}

#[test]
fn a_declined_batch_leaves_no_trace() {
    let mut m: VirtualMemory = device();
    let mut t: TokenState = TokenState::new();
    // There is no room on the ring.
    put(&mut m, 0x2100 + 3 * 0x1C, &[0x0600_0000]);
    put(&mut m, CTX + 0x84, &[1]);
    put(&mut m, 0x2200, &[0x400]);
    let before: Vec<u8> = m.ram.clone();
    assert_eq!(t.dispatch_inner_loop(&mut m, 132, CFG, ESP, CTX), None);
    assert!(m.ram == before);
    assert_eq!(t.eagl_token_decline_count(), 1);
}

#[test]
fn a_declined_state_is_sent_again() {
    let mut m: VirtualMemory = device();
    let mut t: TokenState = TokenState::new();
    // The word for the end of the ring stands on a page that cannot be written.
    put(&mut m, CFG + 8, &[0x4000]);
    m.pages.insert(4, Frame { number: 4, writable: false });
    assert_eq!(t.dispatch_inner_loop(&mut m, 132, CFG, ESP, CTX), None);
    assert_eq!(get(&m, 0x2300 + 7 * 4, 1), vec![0]);
    assert_eq!(get(&m, 0x4000, 1), vec![0]);
    m.pages.insert(4, Frame { number: 4, writable: true });
    assert_eq!(t.dispatch_inner_loop(&mut m, 132, CFG, ESP, CTX), Some(0));
    assert_eq!(get(&m, RING, 4), vec![77, DEV, 7, 99]);
    assert_eq!(get(&m, 0x2300 + 7 * 4, 1), vec![99]);
    assert_eq!(get(&m, 0x4000, 1), vec![16]);
    assert_eq!(t.eagl_token_skip_count(), 0);
}

#[test]
fn a_dry_walk_foretells_the_commit() {
    let dry: Walk = Walk {
        family: ApplyFamily::Int,
        layout: ApplyLayout::Register,
        desc_cur: 0x1100,
        src_cur: 0x1104,
        dst_cur: 0x1108,
        budget: 0x110C,
        commit: false,
    };
    let mut scanned: VirtualMemory = values(0, 1, 2, 2, 10);
    let mut written: VirtualMemory = values(0, 1, 2, 2, 10);
    let foretold: Option<i32> = eagl_apply_walk(&mut scanned, dry, 0);
    assert_eq!(eagl_apply_walk(&mut written, Walk { commit: true, ..dry }, 0), foretold);
    assert_eq!(get(&written, 0x1100, 4), get(&scanned, 0x1100, 4));
    assert_eq!(written.ram[..0x4000], scanned.ram[..0x4000]);
    assert!(get(&written, 0x4000, 8) != get(&scanned, 0x4000, 8));
}

/// A device on which batches set the vertex format (88) and constants of the vertex program (89).
fn batched(desc: i32) -> VirtualMemory {
    let mut m: VirtualMemory = device();
    put(&mut m, CFG + 0x3C, &[88]);
    put(&mut m, CFG + 0x48, &[89]);
    for (slot, at, fid) in [(0x164, STUB + 0x40, 88), (0x178, STUB + 0x50, 89)] {
        put(&mut m, TABLE + slot, &[at]);
        m.ram[at as usize] = 0xB8;
        put(&mut m, at + 1, &[fid]);
    }
    put(&mut m, 0x2100 + 3 * 0x1C, &[desc]);
    m
}

#[test]
fn a_batch_that_fits_is_done() {
    let mut t: TokenState = TokenState::new();
    let mut format: VirtualMemory = batched(0x0600_0008);
    assert_eq!(t.dispatch_inner_loop(&mut format, 132, CFG, ESP, CTX), Some(0));
    assert_eq!(get(&format, RING, 4), vec![88, DEV, 99, 0]);
    assert_eq!(get(&format, 0x2200, 1), vec![12]);
    let mut constants: VirtualMemory = batched(0x0600_0002);
    put(&mut constants, NODE + 0x4C, &[0x2400]);
    put(&mut constants, NODE + 0xA8, &[2]);
    put(&mut constants, 0x2400, &[1, 2, 3, 4, 5, 6, 7, 8]);
    put(&mut constants, ESP + 8, &[5]);
    assert_eq!(t.dispatch_inner_loop(&mut constants, 132, CFG, ESP, CTX), Some(0));
    assert_eq!(get(&constants, RING, 13), vec![89, DEV, 5, 2, 1, 2, 3, 4, 5, 6, 7, 8, 0]);
    assert_eq!(get(&constants, 0x2200, 1), vec![48]);
    // The last constants cannot be read.
    let mut unreadable: VirtualMemory = batched(0x0600_0002);
    put(&mut unreadable, NODE + 0x4C, &[0x4FF0]);
    put(&mut unreadable, NODE + 0xA8, &[2]);
    let before: Vec<u8> = unreadable.ram.clone();
    assert_eq!(t.dispatch_inner_loop(&mut unreadable, 132, CFG, ESP, CTX), None);
    assert!(unreadable.ram == before);
}
