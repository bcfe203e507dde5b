use hwall::collect::util::{
    block_device_from_path, i2c_client_from_path, is_nvme_controller_id, is_nvme_controller_name,
    is_virtual_block_device_name, normalize_pci_address, parse_hex_u16, pci_address_from_path,
    stable_path_token, humanize_token,
};

#[test]
fn selects_leaf_pci_address() {
    let path = "/sys/devices/pci0000:00/0000:00:01.0/0000:03:00.0/drm/card0";
    assert_eq!(pci_address_from_path(path).as_deref(), Some("0000:03:00.0"));
}

#[test]
fn extracts_i2c_client() {
    let path = "/sys/devices/pci0000:00/0000:00:14.0/i2c-6/6-0053";
    assert_eq!(i2c_client_from_path(path).as_deref(), Some("6-0053"));
}

#[test]
fn extracts_block_devices() {
    let path = "/sys/devices/pci0000:00/host0/target0:0:0/0:0:0:0/block/sda";
    assert_eq!(block_device_from_path(path).as_deref(), Some("sda"));

    let path = "/sys/devices/pci0000:00/0000:02:00.0/nvme/nvme0/nvme0n1";
    assert_eq!(block_device_from_path(path).as_deref(), Some("nvme0n1"));
}

#[test]
fn creates_readable_stable_path_tokens() {
    let path = "/sys/devices/platform/peci-0/0-30/peci_dimmtemp.0";
    assert_eq!(stable_path_token(path), "platform-peci-0-0-30-peci-dimmtemp-0");
}

#[test]
fn stable_path_tokens_fall_back_to_root_and_keep_other_trees() {
    assert_eq!(stable_path_token("/sys/devices"), "root");
    assert_eq!(stable_path_token("/sys/devices/"), "root");
    assert_eq!(stable_path_token("/sys//./devices/virtual/THERMAL"), "virtual-thermal");
    assert_eq!(stable_path_token("/sys/devicesx/a"), "sys-devicesx-a");
    assert_eq!(stable_path_token("/sys/class/hwmon/hwmon3"), "sys-class-hwmon-hwmon3");
}

#[test]
fn pci_addresses_are_normalized_and_missing_ones_are_none() {
    assert_eq!(normalize_pci_address("  PCI:0000:0A:00.1 "), "0000:0a:00.1");
    assert_eq!(normalize_pci_address("xyz"), "xyz");
    assert_eq!(pci_address_from_path("/sys/devices/platform/coretemp.0"), None);
}

#[test]
fn i2c_clients_need_a_four_digit_hex_address() {
    assert_eq!(i2c_client_from_path("/sys/bus/i2c/devices/12-00AB"), Some("12-00ab".to_owned()));
    assert_eq!(i2c_client_from_path("/sys/bus/i2c/devices/i2c-12"), None);
    assert_eq!(i2c_client_from_path("/x/1-005"), None);
}

#[test]
fn hex_ids_accept_an_optional_prefix() {
    assert_eq!(parse_hex_u16(" 0x10de\n"), Some(0x10de));
    assert_eq!(parse_hex_u16("8086"), Some(0x8086));
    assert_eq!(parse_hex_u16("0x10000"), None);
    assert_eq!(parse_hex_u16("zz"), None);
}

#[test]
fn nvme_and_virtual_device_names() {
    assert!(is_nvme_controller_name("nvme0"));
    assert!(!is_nvme_controller_name("nvme0n1"));
    assert!(!is_nvme_controller_name("nvme"));
    assert!(is_nvme_controller_id("block:nvme12"));
    assert!(!is_nvme_controller_id("pci:nvme1"));
    assert!(is_virtual_block_device_name("zram0"));
    assert!(is_virtual_block_device_name("loop7"));
    assert!(!is_virtual_block_device_name("sda"));
}

#[test]
fn tokens_are_humanized_word_by_word() {
    assert_eq!(humanize_token("nct6775"), "Nct6775");
    assert_eq!(humanize_token("asus-ec-sensors"), "Asus Ec Sensors");
    assert_eq!(humanize_token("_k10temp__zen_"), "K10temp Zen");
    assert_eq!(humanize_token("__"), "");
}
