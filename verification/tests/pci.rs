use hwall::collect::pci::{parse_pci_id_entry, PciIds};

#[test]
fn parses_pci_id_entries() {
    assert_eq!(
        parse_pci_id_entry("10de  NVIDIA Corporation"),
        Some((0x10de, "NVIDIA Corporation".to_owned())),
    );
    assert_eq!(parse_pci_id_entry("not-an-id"), None);
    assert_eq!(parse_pci_id_entry("10de"), None);
}

#[test]
fn pci_database_tracks_the_open_vendor() {
    let ids = PciIds::parse(
        "# comment\n10de  NVIDIA Corporation\n\t2684  AD102 [GeForce RTX 4090]\n\t\t1043 889d  subsystem\nC 03  Display controller\n\t00  VGA compatible controller\n",
    );
    assert_eq!(ids.vendor_name(0x10de).as_deref(), Some("NVIDIA Corporation"));
    assert_eq!(ids.device_name(0x10de, 0x2684).as_deref(), Some("AD102 [GeForce RTX 4090]"));
    assert_eq!(ids.device_name(0x10de, 0x1043), None);
    assert_eq!(ids.device_name(0x10de, 0x0000), None);
}
