use hwall::collect::usb::{parse_usb_id_entry, UsbIds};

#[test]
fn parses_usb_ids() {
    let ids = UsbIds::parse(
        "# Vendors, devices and classes\n8087  Intel Corp.\n\t0032  AX210 Bluetooth\nC 00  (Defined at Interface level)\n",
    );
    assert_eq!(ids.vendor_name(0x8087).as_deref(), Some("Intel Corp."));
    assert_eq!(ids.product_name(0x8087, 0x0032).as_deref(), Some("AX210 Bluetooth"));
}

#[test]
fn parses_usb_id_entries() {
    assert_eq!(parse_usb_id_entry("8087  Intel Corp."), Some((0x8087, "Intel Corp.".to_owned())));
    assert_eq!(parse_usb_id_entry("not-an-id"), None);
    assert_eq!(parse_usb_id_entry("8087"), None);
}

#[test]
fn later_entries_replace_earlier_ones_and_orphans_are_dropped() {
    let ids = UsbIds::parse("\t0001  Orphan\n046d  Logitech\n046d  Logitech, Inc.\n\t\t0002  deep\n");
    assert_eq!(ids.vendor_name(0x046d).as_deref(), Some("Logitech, Inc."));
    assert_eq!(ids.product_name(0x046d, 0x0001), None);
    assert_eq!(ids.product_name(0x046d, 0x0002), None);
}
