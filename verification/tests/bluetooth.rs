use hwall::collect::bluetooth::{
    device_id_base, device_type, parse_battery_percentage, parse_connected_device,
    parse_device_info, parse_rssi, parse_usb_modalias_vendor, ListedDevice,
};

#[test]
fn parses_connected_devices_with_names_containing_spaces() {
    assert_eq!(
        parse_connected_device("Device AA:BB:CC:DD:EE:FF MX Master 3S"),
        Some(ListedDevice {
            address: "AA:BB:CC:DD:EE:FF".to_owned(),
            name: "MX Master 3S".to_owned(),
        })
    );
    assert_eq!(parse_connected_device("Controller AA:BB:CC:DD:EE:FF"), None);
    assert_eq!(parse_connected_device("Device not-an-address Mouse"), None);
}

#[test]
fn parses_device_type_and_battery() {
    let info = parse_device_info(
        "\tAlias: MX Master 3S\n\tIcon: input-mouse\n\tConnected: yes\n\tModalias: usb:v046DpB037d0003\n\tRSSI: -58\n\tBattery Percentage: 0x55 (85)\n",
    );
    assert_eq!(info.alias.as_deref(), Some("MX Master 3S"));
    assert_eq!(info.icon.as_deref().and_then(device_type), Some("Mouse"));
    assert_eq!(info.modalias.as_deref(), Some("usb:v046DpB037d0003"));
    assert_eq!(info.rssi, Some(-58));
    assert_eq!(info.battery_percent, Some(85));
}

#[test]
fn parses_modalias_vendor_and_rssi_formats() {
    assert_eq!(
        parse_usb_modalias_vendor("usb:v046DpB037d0003"),
        Some(0x046d)
    );
    assert_eq!(
        parse_usb_modalias_vendor("usb:v054Cp0CD3d0452"),
        Some(0x054c)
    );
    assert_eq!(parse_usb_modalias_vendor("pci:v00008086"), None);
    assert_eq!(parse_rssi("-58"), Some(-58));
    assert_eq!(parse_rssi("0xffc6 (-58)"), Some(-58));
    assert_eq!(parse_rssi("unknown"), None);
}

#[test]
fn parses_battery_formats_and_device_ids() {
    assert_eq!(parse_battery_percentage("0x64 (100)"), Some(100));
    assert_eq!(parse_battery_percentage("85%"), Some(85));
    assert_eq!(parse_battery_percentage("101%"), None);
    assert_eq!(device_id_base("MX Master 3S"), "mx-master-3s");
    assert_eq!(device_id_base("  !!!  "), "device");
}

#[test]
fn battery_edge_cases() {
    assert_eq!(parse_battery_percentage("0x65"), None);
    assert_eq!(parse_battery_percentage("0x64"), Some(100));
    assert_eq!(parse_battery_percentage(""), None);
    assert_eq!(parse_battery_percentage("(50%)"), Some(50));
}

#[test]
fn info_ignores_unknown_lines_and_empty_values() {
    let info = parse_device_info("Alias:   \nName: X\r\nRSSI: (12)\n");
    assert_eq!(info.alias, None);
    assert_eq!(info.rssi, Some(12));
}
