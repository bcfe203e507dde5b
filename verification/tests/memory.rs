use hwall::collect::memory::{edac_module_identity, locator_is_specific, slot_device_id};

#[test]
fn accepts_physical_slot_names() {
    assert!(locator_is_specific("DIMM_A2"));
    assert!(locator_is_specific("CPU0 Channel1 DIMM0"));
    assert!(!locator_is_specific("DIMM"));
    assert!(!locator_is_specific("dimm0"));
    assert!(!locator_is_specific("Unknown"));
    assert!(!locator_is_specific("SPD5118"));
    assert!(!locator_is_specific("---"));
}

#[test]
fn creates_stable_slot_ids() {
    assert_eq!(slot_device_id("DIMM A2").as_deref(), Some("memory:slot:dimm-a2"));
}

#[test]
fn generic_locators_get_no_slot_id() {
    assert_eq!(slot_device_id("DIMM 1"), None);
    assert_eq!(slot_device_id("  not installed "), None);
    assert_eq!(slot_device_id("Ä"), None);
}

#[test]
fn edac_modules_fall_back_to_controller_names() {
    let (id, name) = edac_module_identity("mc0", "dimm3", Some("DIMM_B1"));
    assert_eq!(id, "memory:slot:dimm-b1");
    assert_eq!(name, "Memory module DIMM_B1");
    let (id, name) = edac_module_identity("mc0", "dimm3", Some("unknown"));
    assert_eq!(id, "memory:mc0:dimm3");
    assert_eq!(name, "Memory module mc0/dimm3");
    let (id, name) = edac_module_identity("mc1", "dimm0", None);
    assert_eq!(id, "memory:mc1:dimm0");
    assert_eq!(name, "Memory module mc1/dimm0");
}

use hwall::collect::memory::{edac_controller_identity, memory_usage};

#[test]
fn meminfo_usage_is_computed_in_bytes() {
    let text = "MemTotal:       32000000 kB\nMemFree:         1000000 kB\nMemAvailable:   20000000 kB\nBuffers:          500000 kB\nCached:          8000000 kB\nSwapCached:            0 kB\nShmem:            300000 kB\nSReclaimable:     700000 kB\nSwapTotal:       8000000 kB\nSwapFree:        7000000 kB\n";
    let usage = memory_usage(text).unwrap();
    assert_eq!(usage.total, 32_000_000 * 1024);
    assert_eq!(usage.available, 20_000_000 * 1024);
    assert_eq!(usage.used, 12_000_000 * 1024);
    assert_eq!(usage.cached, (8_000_000 + 700_000 - 300_000) * 1024);
    assert_eq!(usage.buffers, 500_000 * 1024);
    assert_eq!(usage.swap_total, 8_000_000 * 1024);
    assert_eq!(usage.swap_used, 1_000_000 * 1024);
}

#[test]
fn meminfo_falls_back_and_caps() {
    let usage = memory_usage("MemTotal: 100 kB\nMemFree: 200 kB\nbogus line\nShmem: 5 kB\n").unwrap();
    assert_eq!(usage.available, 100 * 1024);
    assert_eq!(usage.used, 0);
    assert_eq!(usage.cached, 0);
    assert_eq!(usage.swap_total, 0);
    assert!(memory_usage("MemFree: 1 kB\n").is_none());
    let last_wins = memory_usage("MemTotal: 1 kB\nMemTotal: 2 kB\n").unwrap();
    assert_eq!(last_wins.total, 2048);
}

#[test]
fn edac_controllers_are_named() {
    assert_eq!(
        edac_controller_identity("mc0"),
        Some(("memory:mc0".to_owned(), "Memory controller mc0".to_owned()))
    );
    assert_eq!(edac_controller_identity("power"), None);
}
