use bottleship::arena::{
    d3d9_clear_pipeline_identity, d3d9_get_last_wbuf_compact_offset, d3d9_record_draw,
    d3d9_reset_frame, d3d9_set_compact_template_words, d3d9_truncate_frame,
    get_d3d9_arena_abi_version, rd_u32, wr_u32, Arena, AT_BLOCK_CHANGED, AT_BLOCK_SLOTS,
    AT_BUMP_ARENA, AT_BUMP_CURSOR, AT_CMD_A, AT_CMD_B, AT_CMD_TYPES, AT_COMMAND_COUNT,
    AT_INDEX_BUFFER, AT_PIPELINE_IDENTITY, AT_PIPELINE_KEY, AT_PS_HANDLE, AT_SAMPLER_STAGE0,
    AT_SHADER_CONST_LEN_PS, AT_SHADER_CONST_LEN_VS, AT_STREAM_SOURCE, AT_TEXTURE_BOUND_IDS,
    AT_VS_CONSTANTS, AT_VS_HANDLE,
    BLOCK_MASK_RS, BLOCK_MASK_SAMP, BLOCK_SLOT_WORDS, BLOCK_VS_RANGES, CMD_DRAW_INDEXED,
    COMPACT_RUN_MAGIC_SPARSE, COMPACT_RUN_MAGIC_STORAGE, D3DRS_ALPHABLENDENABLE, D3DRS_ALPHAFUNC,
    D3DRS_ALPHAREF, D3DRS_ALPHATESTENABLE, D3DRS_SRCBLEND, DRAW_STATE_HEADER_WORDS,
};
use bottleship::arena_blocks::{d3d9_block_apply, d3d9_block_capture};
use bottleship::arena_run::d3d9_record_wbuf_indexed_run;

const GUEST_BASE: i32 = 0x1000;

fn packet(second_device: u32) -> Vec<u32> {
    vec![
        11, 99, 4, 1, 1, 2, 3, 4,
        22, 99, 4, 0, 0, 3, 7, 2,
        11, 99, 4, 1, 5, 6, 7, 8,
        22, second_device, 4, 0, 0, 3, 11, 3,
    ]
}

fn bytes(words: &Vec<u32>) -> Vec<u8> {
    let mut out: Vec<u8> = Vec::new();
    for w in words {
        out.extend_from_slice(&w.to_le_bytes());
    }
    out
}

fn get(a: &Arena, at: usize) -> u32 {
    rd_u32(a, 4 * at)
}

fn put(a: &mut Arena, at: usize, v: u32) {
    wr_u32(a, 4 * at, v);
}

fn prepared() -> Arena {
    let mut a: Arena = Arena::new();
    d3d9_reset_frame(&mut a);
    put(&mut a, AT_VS_HANDLE, 1);
    put(&mut a, AT_PS_HANDLE, 1);
    // The lengths are 16-bit cells; the cell of handle 1 is the upper half of the first word.
    put(&mut a, AT_SHADER_CONST_LEN_VS, 32 << 16);
    put(&mut a, AT_SHADER_CONST_LEN_PS, 4 << 16);
    put(&mut a, AT_STREAM_SOURCE, 10);
    put(&mut a, AT_STREAM_SOURCE + 1, 0);
    put(&mut a, AT_STREAM_SOURCE + 2, 32);
    put(&mut a, AT_INDEX_BUFFER, 20);
    put(&mut a, AT_INDEX_BUFFER + 1, 16);
    a
}

fn record(a: &mut Arena, words: &Vec<u32>, mode: u32, index_capacity: u32) -> i32 {
    let source: Vec<u8> = bytes(words);
    let len: u32 = source.len() as u32;
    d3d9_record_wbuf_indexed_run(
        a,
        Some(&source),
        GUEST_BASE,
        len,
        11,
        22,
        99,
        32,
        0,
        mode,
        index_capacity,
    )
}

#[test]
fn wbuf_indexed_run_is_atomic_and_captures_each_constant_value() {
    let mut a: Arena = prepared();
    assert_eq!(record(&mut a, &packet(99), 0, 0), 2);
    assert_eq!(get(&a, AT_COMMAND_COUNT), 8);
    assert_eq!(get(&a, AT_CMD_TYPES + 4), CMD_DRAW_INDEXED);
    assert_eq!(get(&a, AT_CMD_A + 4), 6);
    assert_eq!(get(&a, AT_CMD_B + 4), 7);
    assert_eq!(get(&a, AT_CMD_TYPES + 7), CMD_DRAW_INDEXED);
    assert_eq!(get(&a, AT_CMD_A + 7), 9);
    assert_eq!(get(&a, AT_CMD_B + 7), 11);
    assert_eq!(get(&a, AT_VS_CONSTANTS + 16), 5);
    let first_state: usize = get(&a, AT_CMD_B + 2) as usize;
    assert_eq!(
        rd_u32(&a, 4 * AT_BUMP_ARENA + first_state + 4 * (DRAW_STATE_HEADER_WORDS + 16)),
        1
    );
}

#[test]
fn malformed_wbuf_run_declines_without_mutation() {
    let mut a: Arena = prepared();
    put(&mut a, AT_VS_CONSTANTS + 16, 0xdead_beef);
    let command_before: u32 = get(&a, AT_COMMAND_COUNT);
    let bump_before: u32 = get(&a, AT_BUMP_CURSOR);
    assert_eq!(record(&mut a, &packet(100), 0, 0), -1);
    assert_eq!(get(&a, AT_COMMAND_COUNT), command_before);
    assert_eq!(get(&a, AT_BUMP_CURSOR), bump_before);
    assert_eq!(get(&a, AT_VS_CONSTANTS + 16), 0xdead_beef);
}

#[test]
fn truncated_wbuf_constant_payload_declines_without_panicking_or_mutation() {
    let mut a: Arena = prepared();
    put(&mut a, AT_VS_CONSTANTS, 0xdead_beef);
    let command_before: u32 = get(&a, AT_COMMAND_COUNT);
    let bump_before: u32 = get(&a, AT_BUMP_CURSOR);
    assert_eq!(record(&mut a, &vec![11, 99, 0, 256], 0, 0), -1);
    assert_eq!(get(&a, AT_COMMAND_COUNT), command_before);
    assert_eq!(get(&a, AT_BUMP_CURSOR), bump_before);
    assert_eq!(get(&a, AT_VS_CONSTANTS), 0xdead_beef);
}

#[test]
fn compact_wbuf_run_emits_sparse_payload_without_draw_rows() {
    let mut a: Arena = prepared();
    let mut words: Vec<u32> = packet(99);
    words[30] = 7;
    words[31] = 2;
    assert_eq!(record(&mut a, &words, 2, 64), 2);
    assert_eq!(get(&a, AT_COMMAND_COUNT), 0);
    let offset: i32 = d3d9_get_last_wbuf_compact_offset(&a);
    assert!(offset >= 0);
    let header: usize = 4 * AT_BUMP_ARENA + offset as usize;
    assert_eq!(rd_u32(&a, header), COMPACT_RUN_MAGIC_SPARSE);
    assert_eq!(rd_u32(&a, header + 4), 2);
    assert_eq!(rd_u32(&a, header + 8), 4);
    assert_eq!(rd_u32(&a, header + 12), 4);
    assert_eq!(rd_u32(&a, header + 20), 8);
    assert_eq!(rd_u32(&a, header + 24), 6);
    let payload: usize = rd_u32(&a, header + 16) as usize;
    assert_eq!(rd_u32(&a, 4 * AT_BUMP_ARENA + payload), 1);
    assert_eq!(rd_u32(&a, 4 * AT_BUMP_ARENA + payload + 4 * 4), 5);
    assert_eq!(get(&a, AT_VS_CONSTANTS + 16), 5);
}

#[test]
fn storage_ready_compact_run_expands_template_in_rust() {
    let mut a: Arena = prepared();
    let mut words: Vec<u32> = packet(99);
    words[30] = 7;
    words[31] = 2;
    for word in 0..24 {
        a.compact_template[word] = 100 + word as u32;
    }
    assert_eq!(d3d9_set_compact_template_words(&mut a, 24), 24);
    assert_eq!(record(&mut a, &words, 3, 64), 2);
    let header: usize = 4 * AT_BUMP_ARENA + d3d9_get_last_wbuf_compact_offset(&a) as usize;
    assert_eq!(rd_u32(&a, header), COMPACT_RUN_MAGIC_STORAGE);
    assert_eq!(rd_u32(&a, header + 9 * 4), 24);
    let payload: usize = rd_u32(&a, header + 16) as usize;
    assert_eq!(rd_u32(&a, 4 * AT_BUMP_ARENA + payload), 100);
    assert_eq!(rd_u32(&a, 4 * AT_BUMP_ARENA + payload + 16 * 4), 1);
    assert_eq!(rd_u32(&a, 4 * AT_BUMP_ARENA + payload + (24 + 16) * 4), 5);
}

#[test]
fn truncating_undoes_a_draw() {
    let mut a: Arena = prepared();
    let commands: u32 = get(&a, AT_COMMAND_COUNT);
    let bump: u32 = get(&a, AT_BUMP_CURSOR);
    assert!(d3d9_record_draw(&mut a, 4, 3, 0, 32, 0) >= 0);
    assert!(get(&a, AT_COMMAND_COUNT) > commands);
    assert!(get(&a, AT_BUMP_CURSOR) > bump);
    d3d9_truncate_frame(&mut a, commands, bump);
    assert_eq!(get(&a, AT_COMMAND_COUNT), commands);
    assert_eq!(get(&a, AT_BUMP_CURSOR), bump);
}

#[test]
fn truncating_never_goes_forward() {
    let mut a: Arena = prepared();
    d3d9_truncate_frame(&mut a, 100, 400);
    assert_eq!(get(&a, AT_COMMAND_COUNT), 0);
    assert_eq!(get(&a, AT_BUMP_CURSOR), 0);
}

#[test]
fn an_unreadable_source_is_declined() {
    let mut a: Arena = prepared();
    let r: i32 =
        d3d9_record_wbuf_indexed_run(&mut a, None, GUEST_BASE, 128, 11, 22, 99, 32, 0, 0, 0);
    assert_eq!(r, -1);
    assert_eq!(get(&a, AT_COMMAND_COUNT), 0);
}

#[test]
fn the_template_is_unpublished_by_a_bad_length() {
    let mut a: Arena = prepared();
    assert_eq!(d3d9_set_compact_template_words(&mut a, 1025), 0);
    assert_eq!(d3d9_set_compact_template_words(&mut a, 1024), 1024);
    assert_eq!(d3d9_set_compact_template_words(&mut a, 0), 0);
    assert_eq!(get_d3d9_arena_abi_version(), 4);
    d3d9_clear_pipeline_identity(&mut a);
}

/// The identity of the pipeline and the keys of the first rows, after a draw.
fn keys(states: &[(usize, u32)]) -> Vec<u32> {
    let mut a: Arena = prepared();
    for (state, value) in states {
        put(&mut a, *state, *value);
    }
    assert!(d3d9_record_draw(&mut a, 4, 3, 0, 32, 0) >= 0);
    (0..17)
        .map(|i| get(&a, AT_PIPELINE_IDENTITY + i))
        .chain((0..4).map(|i| get(&a, AT_PIPELINE_KEY + i)))
        .collect()
}

#[test]
fn disabled_stages_are_ignored() {
    let off: [(usize, u32); 2] = [(D3DRS_ALPHABLENDENABLE, 0), (D3DRS_ALPHATESTENABLE, 0)];
    let plain: Vec<u32> = keys(&off);
    let left: Vec<u32> =
        keys(&[off[0], off[1], (D3DRS_SRCBLEND, 9), (D3DRS_ALPHAREF, 77), (D3DRS_ALPHAFUNC, 3)]);
    assert_eq!(plain, left);
    let on: (usize, u32) = (D3DRS_ALPHABLENDENABLE, 1);
    assert_ne!(keys(&[on, (D3DRS_SRCBLEND, 5)]), keys(&[on, (D3DRS_SRCBLEND, 9)]));
}

#[test]
fn a_captured_block_differs_in_nothing() {
    let mut a: Arena = Arena::new();
    let slot: usize = AT_BLOCK_SLOTS + 3 * BLOCK_SLOT_WORDS;
    // Render states 1 and 40, sampler state 2, and one register of vertex constants.
    put(&mut a, slot + BLOCK_MASK_RS, 2);
    put(&mut a, slot + BLOCK_MASK_RS + 1, 1 << 8);
    put(&mut a, slot + BLOCK_MASK_SAMP, 4);
    put(&mut a, slot + BLOCK_VS_RANGES, 4 << 16);
    put(&mut a, 1, 11);
    put(&mut a, 40, 12);
    put(&mut a, AT_SAMPLER_STAGE0 + 2, 13);
    put(&mut a, AT_VS_CONSTANTS + 3, 14);
    d3d9_block_capture(&mut a, 3);
    assert_eq!(d3d9_block_apply(&mut a, 3), 0);
    put(&mut a, 40, 99);
    put(&mut a, 41, 99);
    put(&mut a, AT_SAMPLER_STAGE0 + 2, 99);
    put(&mut a, AT_VS_CONSTANTS + 3, 99);
    assert_eq!(d3d9_block_apply(&mut a, 3), 3);
    let changes: Vec<u32> = (0..6).map(|i| get(&a, AT_BLOCK_CHANGED + i)).collect();
    assert_eq!(changes, vec![40, 12, 0x1_0002, 13, 0x2_0000, 0]);
    assert_eq!(d3d9_block_apply(&mut a, 128), 0);
}

#[test]
fn draws_leave_the_frame_as_it_was() {
    let mut a: Arena = prepared();
    assert!(d3d9_record_draw(&mut a, 0, 3, 0, 32, 0) >= 0);
    let rows: usize = get(&a, AT_COMMAND_COUNT) as usize;
    let taken: usize = get(&a, AT_BUMP_CURSOR) as usize / 4;
    let before: Vec<u32> = (0..AT_BUMP_ARENA + taken).map(|i| get(&a, i)).collect();
    // Nothing has changed: the capture is shared.
    assert!(d3d9_record_draw(&mut a, 0, 6, 0, 32, 0) >= 0);
    assert_eq!(get(&a, AT_BUMP_CURSOR) as usize / 4, taken);
    // A blend state has changed: there is another one.
    put(&mut a, D3DRS_ALPHABLENDENABLE, 1);
    assert!(d3d9_record_draw(&mut a, 0, 9, 0, 32, 0) >= 0);
    assert!(get(&a, AT_BUMP_CURSOR) as usize / 4 > taken);
    for i in 0..taken {
        assert_eq!(get(&a, AT_BUMP_ARENA + i), before[AT_BUMP_ARENA + i]);
    }
    for k in 0..rows {
        for column in [AT_CMD_TYPES, AT_CMD_A, AT_CMD_B, AT_PIPELINE_KEY] {
            assert_eq!(get(&a, column + k), before[column + k]);
        }
    }
}

#[test]
fn the_compact_offset_finds_the_descriptor() {
    let mut a: Arena = prepared();
    let mut words: Vec<u32> = packet(99);
    words[30] = 7;
    words[31] = 2;
    assert!(d3d9_record_draw(&mut a, 0, 3, 0, 32, 0) >= 0);
    let cursor: i32 = get(&a, AT_BUMP_CURSOR) as i32;
    // The rows and captures of the run come after its descriptor.
    assert_eq!(record(&mut a, &words, 1, 64), 2);
    assert_eq!(d3d9_get_last_wbuf_compact_offset(&a), cursor);
    let header: usize = AT_BUMP_ARENA + cursor as usize / 4;
    let words_there: Vec<u32> = (0..10).map(|i| get(&a, header + i)).collect();
    let payload: u32 = cursor as u32 + 40;
    assert_eq!(words_there, vec![COMPACT_RUN_MAGIC_SPARSE, 2, 4, 4, payload, 8, 6, 7, 0, 4]);
    assert_eq!(record(&mut a, &words, 0, 64), 2);
    assert_eq!(d3d9_get_last_wbuf_compact_offset(&a), -1);
    assert_eq!(record(&mut a, &words, 2, 64), 2);
    assert!(d3d9_get_last_wbuf_compact_offset(&a) > cursor);
    assert_eq!(record(&mut a, &packet(100), 2, 64), -1);
    assert_eq!(d3d9_get_last_wbuf_compact_offset(&a), -1);
}

#[test]
fn a_rebound_texture_gets_a_capture_of_its_own() {
    let mut a: Arena = prepared();
    assert!(d3d9_record_draw(&mut a, 0, 3, 0, 32, 0) >= 0);
    let cursor: usize = get(&a, AT_BUMP_CURSOR) as usize;
    let before: Vec<u32> = (0..cursor / 4).map(|i| get(&a, AT_BUMP_ARENA + i)).collect();
    for stage in 0..8 {
        put(&mut a, AT_TEXTURE_BOUND_IDS + stage, 5000 + stage as u32);
    }
    assert!(d3d9_record_draw(&mut a, 0, 3, 0, 32, 0) >= 0);
    assert_eq!(get(&a, AT_BUMP_CURSOR) as usize, 2 * cursor);
    let slot: usize = AT_BUMP_ARENA + cursor / 4;
    for stage in 0..8 {
        assert_eq!(get(&a, slot + 3 + stage), 5000 + stage as u32);
    }
    for (i, w) in before.iter().enumerate() {
        assert_eq!(get(&a, AT_BUMP_ARENA + i), *w);
    }
    // Nothing has changed: the capture is shared.
    assert!(d3d9_record_draw(&mut a, 0, 3, 0, 32, 0) >= 0);
    assert_eq!(get(&a, AT_BUMP_CURSOR) as usize, 2 * cursor);
}
