use bottleship::jit_config::{
    branch_hint_mask, dispatch_stats_enabled, fastmem_get_guard_base, fastmem_get_guard_size,
    fastmem_get_low_mem_end, fastmem_writes_compile_enabled, flag_locals_enabled,
    get_dispatch_stats, get_jit_config, jit_codegen_fingerprint, jit_codegen_fingerprint_hi,
    jit_codegen_fingerprint_lo, jit_config_abi_version, jit_config_supported_mask,
    jit_set_region_exclusion, jit_wrong_entry_refuse_enabled, push_run_coalescing_enabled,
    set_dispatch_stats, set_jit_config, wrong_entry_verify_enabled, x87_locals_enabled, JitConfig,
    JIT_CONFIG_UNSUPPORTED,
};

#[test]
fn settings_read_back() {
    let mut c: JitConfig = JitConfig::new();
    assert_eq!(get_jit_config(&c, 1), 3);
    assert_eq!(get_jit_config(&c, 15), 300_000);
    assert_eq!(set_jit_config(&mut c, 1, 5), 0);
    assert_eq!(get_jit_config(&c, 1), 5);
    assert_eq!(set_jit_config(&mut c, 10, 77), 0);
    assert_eq!(get_jit_config(&c, 10), 1);
    assert!(x87_locals_enabled(&c));
    assert_eq!(set_jit_config(&mut c, 22, 77), 0);
    assert_eq!(branch_hint_mask(&c), 77);
    set_jit_config(&mut c, 11, 1);
    set_jit_config(&mut c, 21, 1);
    assert!(push_run_coalescing_enabled(&c));
    assert!(flag_locals_enabled(&c));
    assert_eq!(jit_config_abi_version(), 1);
}

#[test]
fn numbers_without_a_setting_are_refused() {
    let mut c: JitConfig = JitConfig::new();
    for index in [4, 9, 18, 25, 31, 32, 0xFFFF_FFFF] {
        assert_eq!(set_jit_config(&mut c, index, 1), JIT_CONFIG_UNSUPPORTED);
        assert_eq!(get_jit_config(&c, index), JIT_CONFIG_UNSUPPORTED);
    }
    assert_eq!(c.values, JitConfig::new().values);
    for index in 0..32 {
        let named: bool = jit_config_supported_mask() & (1 << index) != 0;
        assert_eq!(named, get_jit_config(&c, index) != JIT_CONFIG_UNSUPPORTED);
    }
}

#[test]
fn wrong_entries_have_two_levels() {
    let mut c: JitConfig = JitConfig::new();
    assert!(!wrong_entry_verify_enabled(&c));
    set_jit_config(&mut c, 24, 1);
    assert!(wrong_entry_verify_enabled(&c));
    assert!(!jit_wrong_entry_refuse_enabled(&c));
    set_jit_config(&mut c, 24, 2);
    assert!(jit_wrong_entry_refuse_enabled(&c));
}

#[test]
fn the_fingerprint_covers_the_code() {
    let mut c: JitConfig = JitConfig::new();
    assert_eq!(jit_codegen_fingerprint(&c), 0x187E_E623_665E_5984);
    assert_eq!(jit_codegen_fingerprint_lo(&c), 0x665E_5984);
    assert_eq!(jit_codegen_fingerprint_hi(&c), 0x187E_E623);
    for index in [0, 15, 20, 24] {
        set_jit_config(&mut c, index, 9);
        assert_eq!(jit_codegen_fingerprint(&c), 0x187E_E623_665E_5984);
    }
    jit_set_region_exclusion(&mut c, 1, 2);
    assert_eq!((c.region_exclude_lo, c.region_exclude_hi), (1, 2));
    assert_eq!(jit_codegen_fingerprint(&c), 0x187E_E623_665E_5984);
    for index in [1, 2, 3, 5, 6, 7, 8, 10, 11, 12, 13, 14, 16, 17, 19, 21, 22, 23] {
        let mut d: JitConfig = JitConfig::new();
        let other: u32 = if index == 2 { 0 } else { 1 };
        let other: u32 = if get_jit_config(&d, index) == other { 2 } else { other };
        set_jit_config(&mut d, index, other);
        assert_ne!(jit_codegen_fingerprint(&d), 0x187E_E623_665E_5984);
    }
    set_dispatch_stats(&mut c, 3);
    assert_eq!(get_dispatch_stats(&c), 1);
    assert!(dispatch_stats_enabled(&c));
    assert_ne!(jit_codegen_fingerprint(&c), 0x187E_E623_665E_5984);
}

#[test]
fn direct_stores_need_paging() {
    let mut c: JitConfig = JitConfig::new();
    assert!(!fastmem_writes_compile_enabled(&c, true, true, true));
    set_jit_config(&mut c, 19, 1);
    assert!(fastmem_writes_compile_enabled(&c, true, true, true));
    assert!(!fastmem_writes_compile_enabled(&c, true, true, false));
    assert!(!fastmem_writes_compile_enabled(&c, true, false, true));
    assert!(!fastmem_writes_compile_enabled(&c, false, true, true));
    assert_eq!(fastmem_get_low_mem_end(), 0x10_0000);
    assert_eq!(fastmem_get_guard_base(), 0x2300_0000);
    assert_eq!(fastmem_get_guard_size(), 0x100_0000);
}
