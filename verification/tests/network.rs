use hwall::collect::network::{ethtool_properties, interface_kind, interface_kind_name, InterfaceFacts};

fn facts() -> InterfaceFacts {
    InterfaceFacts {
        wireless: false,
        bridge: false,
        bonding: false,
        uevent: None,
        tun_flags: false,
        device: false,
        link_type: None,
    }
}

#[test]
fn names_known_interface_kinds() {
    assert_eq!(interface_kind_name("ethernet"), "Ethernet");
    assert_eq!(interface_kind_name("wifi"), "Wi-Fi");
    assert_eq!(interface_kind_name("wireguard"), "WireGuard tunnel");
    assert_eq!(interface_kind_name("veth"), "Virtual Ethernet");
    assert_eq!(interface_kind_name("unknown"), "Virtual network interface");
}

#[test]
fn classifies_interfaces_by_name_and_sysfs_facts() {
    assert_eq!(interface_kind("lo", &facts()), "loopback");
    let mut wifi = facts();
    wifi.wireless = true;
    assert_eq!(interface_kind("wlan0", &wifi), "wifi");
    let mut vlan = facts();
    vlan.uevent = Some("INTERFACE=eth0.5\nDEVTYPE=vlan".to_owned());
    assert_eq!(interface_kind("eth0.5", &vlan), "vlan");
    assert_eq!(interface_kind("VETH12", &facts()), "veth");
    assert_eq!(interface_kind("home-wg", &facts()), "wireguard");
    assert_eq!(interface_kind("tap0", &facts()), "tap");
    assert_eq!(interface_kind("wwan0", &facts()), "mobile");
    let mut wired = facts();
    wired.device = true;
    wired.link_type = Some("1".to_owned());
    assert_eq!(interface_kind("enp3s0", &wired), "ethernet");
    wired.link_type = Some("32".to_owned());
    assert_eq!(interface_kind("ib0", &wired), "infiniband");
    wired.link_type = None;
    assert_eq!(interface_kind("x0", &wired), "network");
    assert_eq!(interface_kind("dummy0", &facts()), "virtual");
}

#[test]
fn ethtool_lines_become_prefixed_properties() {
    let props = ethtool_properties("driver: igc\nfirmware-version: 1082:8770\nbus-info:   \nnot a pair\n");
    assert_eq!(
        props,
        vec![
            ("ethtool_driver".to_owned(), "igc".to_owned()),
            ("ethtool_firmware_version".to_owned(), "1082:8770".to_owned()),
        ]
    );
}
