use hwall::hardware::{
    build_hardware_inventory, hardware_device_text, hardware_inventory_text, storage_health_availability_text,
    HardwareCategory, HardwareCategoryKind, HardwareDevice, HardwareInventory, HardwareProperty,
    HardwareSection, HardwareSensor,
};
use hwall::model::StorageHealthAvailability;

fn property(key: &str, label: &str, value: &str) -> HardwareProperty {
    HardwareProperty { key: key.to_owned(), label: label.to_owned(), value: value.to_owned() }
}

fn sensor(group: &str, label: &str) -> HardwareSensor {
    HardwareSensor {
        id: format!("{group}:{label}"),
        group: group.to_owned(),
        label: label.to_owned(),
        current: "42.0 °C".to_owned(),
        minimum: "40.0 °C".to_owned(),
        maximum: "45.0 °C".to_owned(),
        average: "42.5 °C".to_owned(),
        status: "Normal".to_owned(),
        current_color: None,
        minimum_color: None,
        maximum_color: None,
        average_color: None,
        status_color: None,
        dimmed: false,
    }
}

fn device(id: &str, name: &str) -> HardwareDevice {
    HardwareDevice {
        id: id.to_owned(),
        category: HardwareCategoryKind::Processor,
        name: name.to_owned(),
        subtitle: "  ".to_owned(),
        sections: vec![HardwareSection {
            title: "Identity".to_owned(),
            properties: vec![property("vendor", "Vendor", "AMD")],
        }],
        advanced: vec![property("cpu_family", "CPU family", "25")],
        sensors: vec![sensor("Temperature", "Tctl"), sensor("Temperature", "Tccd1"), sensor("Power", "Package")],
        storage_health_refreshable: false,
        storage_health_permission_required: false,
        search_text: "amd ryzen 9 cpu:0".to_owned(),
    }
}

#[test]
fn category_labels_and_order() {
    assert_eq!(HardwareCategoryKind::ALL.len(), 16);
    assert_eq!(HardwareCategoryKind::ALL[0], HardwareCategoryKind::System);
    assert_eq!(HardwareCategoryKind::Motherboard.label(), "Motherboard & firmware");
    assert_eq!(HardwareCategoryKind::Controllers.label(), "Sensor controllers");
    assert!(HardwareCategoryKind::System < HardwareCategoryKind::Other);
}

#[test]
fn device_text_groups_sensors_and_lists_advanced_properties() {
    let text = hardware_device_text(&device("cpu:0", "AMD Ryzen 9"));
    assert_eq!(
        text,
        "AMD Ryzen 9\n\nIdentity\nVendor: AMD\n\nRelated sensors\nTemperature\n  Tctl\n    Current: 42.0 °C\n    Minimum: 40.0 °C\n    Maximum: 45.0 °C\n    Average: 42.5 °C\n    Status: Normal\n  Tccd1\n    Current: 42.0 °C\n    Minimum: 40.0 °C\n    Maximum: 45.0 °C\n    Average: 42.5 °C\n    Status: Normal\nPower\n  Package\n    Current: 42.0 °C\n    Minimum: 40.0 °C\n    Maximum: 45.0 °C\n    Average: 42.5 °C\n    Status: Normal\n\nAdvanced\ncpu_family: 25"
    );
}

#[test]
fn inventory_text_underlines_categories_and_finds_devices() {
    let mut plain = device("cpu:1", "Second CPU");
    plain.sensors.clear();
    plain.advanced.clear();
    plain.sections.clear();
    plain.subtitle = "Spare".to_owned();
    let inventory = HardwareInventory {
        categories: vec![
            HardwareCategory {
                kind: HardwareCategoryKind::Processor,
                label: "Processor".to_owned(),
                devices: vec![plain.clone()],
            },
            HardwareCategory {
                kind: HardwareCategoryKind::Other,
                label: "Other".to_owned(),
                devices: vec![],
            },
        ],
    };
    assert_eq!(
        hardware_inventory_text(&inventory),
        "Processor\n=========\n\nSecond CPU\nSpare\n\nOther\n====="
    );
    assert_eq!(inventory.device_count(), 1);
    assert_eq!(inventory.devices().len(), 1);
    assert_eq!(inventory.device("cpu:1").map(|d| d.name.as_str()), Some("Second CPU"));
    assert!(inventory.device("cpu:9").is_none());
}

#[test]
fn device_search_ignores_case_and_blank_queries() {
    let d = device("cpu:0", "AMD Ryzen 9");
    assert!(d.matches("  "));
    assert!(d.matches(" RYZEN "));
    assert!(!d.matches("intel"));
}

#[test]
fn permission_denied_health_explains_the_retry() {
    assert_eq!(
        storage_health_availability_text(StorageHealthAvailability::PermissionDenied),
        "Permission required. Use Refresh as administrator for a one-time refresh."
    );
    assert_eq!(storage_health_availability_text(StorageHealthAvailability::DriveAsleep), "Drive asleep");
}

use hwall::hardware::{
    advanced_property, bus_address_label, category_for, chassis_type_name, chassis_type_value,
    device_subtitle, display_name, duplicate_memory_location_property, hardware_device_visible,
    identity_property, property_priority, property_section, section_order_for, sort_properties,
    storage_health_summary, DeviceSummary,
};
use hwall::model::{DeviceClass, StorageHealth, StorageHealthStatus};

fn summary(class: DeviceClass, name: &str) -> DeviceSummary {
    DeviceSummary {
        id: "pci:0000:00:1f.3".to_owned(),
        class,
        name: name.to_owned(),
        vendor: None,
        model: None,
        driver: None,
        bus_address: None,
        parent: None,
        device_class: None,
        class_code: None,
        memory_role: None,
        slot_label: None,
        locator: None,
        os_pretty_name: None,
        os_name: None,
        partition: None,
        has_sensors: false,
        has_properties: false,
    }
}

#[test]
fn properties_are_sorted_into_sections() {
    assert_eq!(property_section("chassis_type"), "Identity");
    assert_eq!(property_section("os_pretty_name"), "Operating system");
    assert_eq!(property_section("scaling_governor"), "Performance");
    assert_eq!(property_section("max_frequency_hz"), "Performance");
    assert_eq!(property_section("bios_version"), "Firmware & platform");
    assert_eq!(property_section("agesa_version"), "Firmware & platform");
    assert_eq!(property_section("management_device_type"), "Monitoring & management");
    assert_eq!(property_section("tpm_version"), "Security");
    assert_eq!(property_section("cores"), "Topology");
    assert_eq!(property_section("memory_type"), "Memory");
    assert_eq!(property_section("ce_count"), "Memory");
    assert_eq!(property_section("vendor_id"), "Interface");
    assert_eq!(property_section("percentage_used"), "SMART / Health");
    assert_eq!(property_section("logical_block_size"), "Storage");
    assert_eq!(property_section("charge_full"), "Power");
    assert_eq!(property_section("vulnerability_spectre_v2"), "Security");
    assert_eq!(property_section("something_else"), "Properties");
    assert_eq!(
        section_order_for(HardwareCategoryKind::Storage),
        vec!["Identity", "Storage", "SMART / Health", "Interface", "Properties"]
    );
    assert_eq!(
        section_order_for(HardwareCategoryKind::Audio),
        vec!["Identity", "Interface", "Performance", "Properties"]
    );
    assert!(advanced_property("hwmon_path", false));
    assert!(advanced_property("raw_value", false));
    assert!(advanced_property("i2c_bus", false));
    assert!(advanced_property("anything", true));
    assert!(!advanced_property("vendor", false));
    assert_eq!(property_priority("hwall_class"), 0);
    assert_eq!(property_priority("size_mb"), 9);
    assert_eq!(property_priority("logical_cpus"), 12);
    assert_eq!(property_priority("zzz"), 100);
    assert_eq!(bus_address_label(DeviceClass::Network), "Interface");
    assert_eq!(bus_address_label(DeviceClass::Pci), "Bus address");
}

#[test]
fn property_sorting_is_stable_by_priority_and_label() {
    let mut properties = vec![
        property("zeta", "Zeta", "1"),
        property("vendor", "Vendor", "AMD"),
        property("alpha", "Alpha", "2"),
        property("hwall_class", "Class", "CPU"),
        property("alpha2", "Alpha", "3"),
    ];
    sort_properties(&mut properties);
    let keys: Vec<&str> = properties.iter().map(|p| p.key.as_str()).collect();
    assert_eq!(keys, vec!["hwall_class", "vendor", "alpha", "alpha2", "zeta"]);
}

#[test]
fn chassis_types_are_named() {
    assert_eq!(chassis_type_name(3), Some("Desktop"));
    assert_eq!(chassis_type_name(0x83), Some("Desktop"));
    assert_eq!(chassis_type_name(36), Some("Stick PC"));
    assert_eq!(chassis_type_name(37), None);
    assert_eq!(chassis_type_name(0), None);
    assert_eq!(chassis_type_value(Some("Tower"), Some("3")).as_deref(), Some("Tower"));
    assert_eq!(chassis_type_value(None, Some("10")).as_deref(), Some("Notebook"));
    assert_eq!(chassis_type_value(None, Some("x")), None);
    assert_eq!(chassis_type_value(None, None), None);
}

#[test]
fn categories_follow_text_class_codes_and_classes() {
    let mut audio = summary(DeviceClass::Pci, "Family 17h HD Audio Controller");
    assert_eq!(category_for(&audio), HardwareCategoryKind::Audio);
    audio.name = "Device".to_owned();
    audio.class_code = Some("0x040300".to_owned());
    assert_eq!(category_for(&audio), HardwareCategoryKind::Audio);
    let mut usb = summary(DeviceClass::Pci, "Controller");
    usb.class_code = Some("0x0c0330".to_owned());
    assert_eq!(category_for(&usb), HardwareCategoryKind::Usb);
    let tpm = summary(DeviceClass::Other, "TPM 2.0");
    assert_eq!(category_for(&tpm), HardwareCategoryKind::Security);
    let mut chip = summary(DeviceClass::SensorController, "nct6799");
    assert_eq!(category_for(&chip), HardwareCategoryKind::Controllers);
    chip.parent = Some("motherboard:0".to_owned());
    assert_eq!(category_for(&chip), HardwareCategoryKind::Motherboard);
    assert_eq!(category_for(&summary(DeviceClass::Battery, "BAT0")), HardwareCategoryKind::Power);
}

#[test]
fn subtitles_avoid_repeating_the_name() {
    let mut nic = summary(DeviceClass::Network, "Intel Ethernet");
    assert_eq!(device_subtitle(&nic), "Network");
    nic.driver = Some(" igc ".to_owned());
    nic.bus_address = Some("enp5s0".to_owned());
    assert_eq!(device_subtitle(&nic), "igc · enp5s0");
    let mut system = summary(DeviceClass::System, "Workstation");
    system.os_name = Some("Fedora Linux".to_owned());
    assert_eq!(device_subtitle(&system), "Fedora Linux");
    let mut module = summary(DeviceClass::Memory, "Kingston 16 GiB");
    module.memory_role = Some("module".to_owned());
    module.slot_label = Some("DIMM A2".to_owned());
    module.vendor = Some("Kingston".to_owned());
    module.model = Some("KF556C40".to_owned());
    module.driver = Some("KF556C40".to_owned());
    module.bus_address = Some("DIMM A2".to_owned());
    assert_eq!(device_subtitle(&module), "DIMM A2 · KF556C40");
    assert_eq!(device_subtitle(&summary(DeviceClass::Cpu, "CPU")), "CPU");
}

#[test]
fn visibility_hides_plumbing() {
    let mut bridge = summary(DeviceClass::Pci, "Root Complex");
    assert!(!hardware_device_visible(&bridge));
    bridge.name = "Device".to_owned();
    bridge.class_code = Some("0x060400".to_owned());
    assert!(!hardware_device_visible(&bridge));
    bridge.class_code = Some("0x0c0330".to_owned());
    assert!(hardware_device_visible(&bridge));
    assert!(!hardware_device_visible(&summary(DeviceClass::Usb, "Generic USB Hub")));
    assert!(!hardware_device_visible(&summary(DeviceClass::Usb, "Linux Foundation 3.0 root hub")));
    let mut disk = summary(DeviceClass::Storage, "zram0");
    disk.id = "block:zram0".to_owned();
    assert!(!hardware_device_visible(&disk));
    assert!(!hardware_device_visible(&summary(DeviceClass::Thermal, "zone")));
    let mut other = summary(DeviceClass::Other, "x");
    other.has_properties = true;
    assert!(hardware_device_visible(&other));
}

#[test]
fn identity_lines_locations_aliases_and_health() {
    let mut module = summary(DeviceClass::Memory, "Module");
    module.memory_role = Some("module".to_owned());
    module.slot_label = Some("DIMM A2".to_owned());
    module.locator = Some("A2".to_owned());
    assert!(duplicate_memory_location_property(&module, "locator", Some(" DIMM A2 ")));
    assert!(!duplicate_memory_location_property(&module, "locator", Some("A2")));
    assert!(duplicate_memory_location_property(&module, "bank_locator", Some("A2")));
    assert!(!duplicate_memory_location_property(&module, "slot_label", Some("DIMM A2")));
    let identity = identity_property("vendor", "Vendor", Some("  AMD ")).unwrap();
    assert_eq!(identity.value, "AMD");
    assert!(identity_property("vendor", "Vendor", Some("  ")).is_none());
    assert_eq!(display_name(Some("My GPU"), "Navi 31"), "My GPU");
    assert_eq!(display_name(Some(" "), "Navi 31"), "Navi 31");
    assert_eq!(display_name(None, "Navi 31"), "Navi 31");

    let none = storage_health_summary(None, "");
    assert_eq!(none.len(), 1);
    assert_eq!(none[0].value, "Not checked");
    let health = StorageHealth {
        status: StorageHealthStatus::Passed,
        availability: StorageHealthAvailability::Current,
        last_attempt_unix_ms: Some(1),
        last_success_unix_ms: Some(1),
        message: Some("  ".to_owned()),
        sources: vec!["smartctl".to_owned(), "nvme-cli".to_owned()],
    };
    let lines = storage_health_summary(Some(&health), "2 min ago");
    let keys: Vec<&str> = lines.iter().map(|p| p.key.as_str()).collect();
    assert_eq!(keys, vec!["health_status", "health_availability", "health_last_checked", "health_sources"]);
    assert_eq!(lines[0].value, "Passed");
    assert_eq!(lines[1].value, "Current");
    assert_eq!(lines[2].value, "2 min ago");
    assert_eq!(lines[3].value, "smartctl, nvme-cli");
}

use hwall::hardware::{project_device, sort_sensors, PropertyInput};

fn input(key: &str, label: &str, value: Option<&str>) -> PropertyInput {
    PropertyInput {
        key: key.to_owned(),
        label: label.to_owned(),
        value: value.map(str::to_owned),
        text: value.map(str::to_owned),
        low_level: false,
    }
}

#[test]
fn projected_devices_group_and_order_properties() {
    let mut d = summary(DeviceClass::Cpu, "AMD Ryzen 9 7950X");
    d.id = "cpu:0".to_owned();
    d.vendor = Some("AuthenticAMD".to_owned());
    d.driver = Some("  ".to_owned());
    let properties = vec![
        input("cores", "Cores", Some("16")),
        input("threads", "Threads", Some("32")),
        input("scaling_governor", "Governor", Some("schedutil")),
        input("cpu_family", "CPU family", Some("25")),
        input("hidden", "Hidden", None),
        input("hwmon_path", "hwmon path", Some("/sys/class/hwmon/hwmon3")),
        input("zz_custom", "Custom", Some("x")),
    ];
    let sensors = vec![sensor("Temperature", "Tccd10"), sensor("Temperature", "Tccd2"), sensor("Power", "Package")];
    let device = project_device(&d, Some("Workstation CPU"), &properties, None, "", false, sensors);
    assert_eq!(device.category, HardwareCategoryKind::Processor);
    assert_eq!(device.name, "Workstation CPU");
    let titles: Vec<&str> = device.sections.iter().map(|s| s.title.as_str()).collect();
    assert_eq!(titles, vec!["Identity", "Topology", "Performance", "Properties"]);
    let identity: Vec<&str> = device.sections[0].properties.iter().map(|p| p.key.as_str()).collect();
    assert_eq!(identity, vec!["hwall_class", "vendor", "generated_name"]);
    let topology: Vec<&str> = device.sections[1].properties.iter().map(|p| p.key.as_str()).collect();
    assert_eq!(topology, vec!["cores", "threads", "cpu_family"]);
    assert_eq!(device.advanced.len(), 1);
    assert_eq!(device.advanced[0].key, "hwmon_path");
    let labels: Vec<&str> = device.sensors.iter().map(|s| s.label.as_str()).collect();
    assert_eq!(labels, vec!["Package", "Tccd2", "Tccd10"]);
    assert!(device.matches("workstation"));
    assert!(device.matches("schedutil"));
    assert!(device.matches("hwmon_path"));
    assert!(device.matches("tccd10"));
    assert!(!device.storage_health_permission_required);
}

#[test]
fn storage_devices_get_a_health_section() {
    let mut d = summary(DeviceClass::Storage, "Samsung SSD");
    d.id = "block:nvme0".to_owned();
    let properties = vec![input("percentage_used", "Percentage used", Some("7%"))];
    let health = StorageHealth {
        status: StorageHealthStatus::Unknown,
        availability: StorageHealthAvailability::PermissionDenied,
        last_attempt_unix_ms: Some(5),
        last_success_unix_ms: None,
        message: Some("denied".to_owned()),
        sources: vec![],
    };
    let device = project_device(&d, None, &properties, Some(&health), "1 min ago", true, vec![]);
    assert_eq!(device.category, HardwareCategoryKind::Storage);
    let titles: Vec<&str> = device.sections.iter().map(|s| s.title.as_str()).collect();
    assert_eq!(titles, vec!["Identity", "SMART / Health"]);
    let keys: Vec<&str> = device.sections[1].properties.iter().map(|p| p.key.as_str()).collect();
    assert_eq!(keys, vec!["health_status", "health_last_attempt", "health_message", "percentage_used", "health_availability"]);
    assert!(device.storage_health_permission_required);
    assert!(device.storage_health_refreshable);
}

#[test]
fn sensors_sort_by_group_then_natural_label() {
    let mut sensors = vec![sensor("b", "x10"), sensor("a", "x2"), sensor("b", "X9")];
    sort_sensors(&mut sensors);
    let order: Vec<(&str, &str)> = sensors.iter().map(|s| (s.group.as_str(), s.label.as_str())).collect();
    assert_eq!(order, vec![("a", "x2"), ("b", "X9"), ("b", "x10")]);
}

#[test]
fn inventory_groups_categories_in_order_and_devices_by_name_then_id() {
    let mut storage_b = device("block:sdb", "samsung SSD");
    storage_b.category = HardwareCategoryKind::Storage;
    let mut storage_a = device("block:sda", "Samsung SSD");
    storage_a.category = HardwareCategoryKind::Storage;
    let mut storage_c = device("block:nvme0", "ADATA");
    storage_c.category = HardwareCategoryKind::Storage;
    let mut system = device("system", "Desktop");
    system.category = HardwareCategoryKind::System;
    let cpu = device("cpu:0", "AMD Ryzen 9");

    let inventory = build_hardware_inventory(vec![storage_b, cpu, storage_a, system, storage_c]);
    let kinds: Vec<HardwareCategoryKind> = inventory.categories.iter().map(|category| category.kind).collect();
    assert_eq!(
        kinds,
        vec![HardwareCategoryKind::System, HardwareCategoryKind::Processor, HardwareCategoryKind::Storage]
    );
    assert_eq!(inventory.categories[2].label, "Storage");
    let storage: Vec<&str> = inventory.categories[2].devices.iter().map(|device| device.id.as_str()).collect();
    assert_eq!(storage, vec!["block:nvme0", "block:sda", "block:sdb"]);
}

#[test]
fn an_empty_inventory_has_no_categories() {
    assert!(build_hardware_inventory(Vec::new()).categories.is_empty());
}
