use hwall::collect::reconcile::{
    concise_vendor_name, i2c_client_sort_key, i2c_sort_key, is_generic_nvme_name,
    is_copied_from_pci, is_nvme_namespace_name, memory_telemetry_driver, network_hardware_name,
    network_identity_sources, normalized_locator, NetworkFacts,
};
use hwall::model::DeviceClass;

#[test]
fn keeps_factual_wifi_model_names() {
    assert_eq!(
        network_hardware_name(
            Some("Intel Corporation"),
            Some("Wi-Fi 6E(802.11ax) AX210/AX1675* 2x2 [Typhoon Peak]"),
            Some("wifi"),
        )
        .as_deref(),
        Some("Intel Wi-Fi 6E(802.11ax) AX210/AX1675* 2x2 [Typhoon Peak]"),
    );
}

#[test]
fn network_names_cover_each_case() {
    assert_eq!(
        network_hardware_name(
            Some("Realtek Semiconductor Co., Ltd."),
            Some("Ethernet Controller RTL8125"),
            Some("ethernet"),
        )
        .as_deref(),
        Some("Realtek RTL8125 Ethernet")
    );
    assert_eq!(
        network_hardware_name(Some("Intel Corporation"), Some("Intel I225-V"), Some("ethernet"))
            .as_deref(),
        Some("Intel I225-V")
    );
    assert_eq!(
        network_hardware_name(None, Some("  Model X "), None).as_deref(),
        Some("Model X")
    );
    assert_eq!(
        network_hardware_name(Some("MediaTek Inc."), Some("   "), Some("wifi")).as_deref(),
        Some("MediaTek Wi-Fi")
    );
    assert_eq!(
        network_hardware_name(Some("Intel Corporation"), None, Some("ethernet")).as_deref(),
        Some("Intel Ethernet")
    );
    assert_eq!(
        network_hardware_name(Some("Acme"), None, None).as_deref(),
        Some("Acme network adapter")
    );
    assert_eq!(network_hardware_name(None, None, Some("wifi")), None);
}

#[test]
fn vendor_names_drop_corporate_suffixes() {
    assert_eq!(concise_vendor_name(" NVIDIA Corporation "), "NVIDIA");
    assert_eq!(concise_vendor_name("Qualcomm Semiconductor Corporation"), "Qualcomm");
    assert_eq!(concise_vendor_name("Broadcom"), "Broadcom");
}

#[test]
fn locators_ignore_case_and_punctuation() {
    assert_eq!(normalized_locator("DIMM A2"), "dimma2");
    assert_eq!(normalized_locator("dimm_a2"), "dimma2");
    assert_eq!(normalized_locator("P0 CHANNEL-B"), "p0channelb");
}

#[test]
fn i2c_keys_order_by_bus_and_address() {
    assert_eq!(i2c_client_sort_key("6-0053"), Some((6, 0x53)));
    assert_eq!(i2c_client_sort_key("12-0x1a"), Some((12, 0x1a)));
    assert_eq!(i2c_client_sort_key("6"), None);
    assert_eq!(i2c_client_sort_key("x-0053"), None);
    assert_eq!(i2c_sort_key("0", "0x0x50"), Some((0, 0x50)));
    assert_eq!(i2c_sort_key("0", "10000"), None);
}

#[test]
fn nvme_names_are_recognized() {
    assert!(is_nvme_namespace_name("nvme0n1"));
    assert!(is_nvme_namespace_name("nvme12n3"));
    assert!(!is_nvme_namespace_name("nvme0"));
    assert!(!is_nvme_namespace_name("nvme0n1p1"));
    assert!(!is_nvme_namespace_name("nvmen1"));
    assert!(is_generic_nvme_name("NVMe"));
    assert!(is_generic_nvme_name("NVMe controller nvme0"));
    assert!(!is_generic_nvme_name("Samsung 990 PRO"));
    assert!(memory_telemetry_driver("spd5118"));
    assert!(memory_telemetry_driver("jc42"));
    assert!(!memory_telemetry_driver("nct6775"));
}

#[test]
fn enriches_network_interfaces_from_their_pci_device() {
    let records = vec![
        NetworkFacts {
            class: DeviceClass::Pci,
            pci_address: None,
            has_pci_identity: false,
            bus_address: Some("0000:06:00.0".to_string()),
        },
        NetworkFacts {
            class: DeviceClass::Network,
            pci_address: Some("0000:06:00.0".to_string()),
            has_pci_identity: false,
            bus_address: Some("eno1".to_string()),
        },
    ];
    let sources = network_identity_sources(&records);
    assert_eq!(sources, vec![None, Some(0)]);
    assert_eq!(
        network_hardware_name(
            Some("Intel Corporation"),
            Some("Ethernet Controller I225-V"),
            Some("ethernet"),
        )
        .as_deref(),
        Some("Intel I225-V Ethernet"),
    );
    assert!(is_copied_from_pci("revision"));
    assert!(is_copied_from_pci("class_code"));
    assert!(is_copied_from_pci("iommu_group"));
    assert!(!is_copied_from_pci("network_kind"));
}

#[test]
fn identified_network_records_leave_their_address_alone() {
    let records = vec![
        NetworkFacts {
            class: DeviceClass::Network,
            pci_address: Some("0000:07:00.0".to_string()),
            has_pci_identity: true,
            bus_address: None,
        },
        NetworkFacts {
            class: DeviceClass::Pci,
            pci_address: None,
            has_pci_identity: false,
            bus_address: Some("0000:07:00.0".to_string()),
        },
        NetworkFacts {
            class: DeviceClass::Network,
            pci_address: Some("0000:08:00.0".to_string()),
            has_pci_identity: false,
            bus_address: None,
        },
        NetworkFacts {
            class: DeviceClass::Pci,
            pci_address: None,
            has_pci_identity: false,
            bus_address: Some("0000:08:00.0".to_string()),
        },
        NetworkFacts {
            class: DeviceClass::Pci,
            pci_address: None,
            has_pci_identity: false,
            bus_address: Some("0000:08:00.0".to_string()),
        },
    ];
    assert_eq!(network_identity_sources(&records), vec![None, None, Some(4), None, None]);
}
