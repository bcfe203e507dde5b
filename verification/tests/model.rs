use hwall::model::{class_rank, device_class_order, sensor_kind_order, SensorKind, merge_warnings, natural_cmp, overlaid_label, should_replace_name, DeviceClass, Identification};
use std::cmp::Ordering;

#[test]
fn natural_sort_orders_numbered_sensor_labels_numerically() {
    let mut labels = vec!["CPU 10", "CPU 2", "CPU 1", "CPU 02"];
    labels.sort_by(|left, right| natural_cmp(left, right));

    assert_eq!(labels, vec!["CPU 1", "CPU 2", "CPU 02", "CPU 10"]);
}

#[test]
fn natural_order_is_antisymmetric_and_ignores_case() {
    let pairs = [
        ("fan2", "fan10"),
        ("Core 9", "core 10"),
        ("temp", "temp1"),
        ("a1b", "a1c"),
        ("x7", "x007"),
        ("1a", "a"),
    ];
    for (left, right) in pairs {
        assert_eq!(natural_cmp(left, right), Ordering::Less, "{left} < {right}");
        assert_eq!(natural_cmp(right, left), Ordering::Greater, "{right} > {left}");
    }
    assert_eq!(natural_cmp("CPU 1", "cpu 1"), Ordering::Equal);
    assert_eq!(natural_cmp("", ""), Ordering::Equal);
    assert_eq!(natural_cmp("", "a"), Ordering::Less);
}

#[test]
fn refreshed_names_replace_only_placeholders() {
    assert!(should_replace_name("", "Samsung SSD"));
    assert!(should_replace_name("Unknown device", "Samsung SSD"));
    assert!(should_replace_name("PCI device 0000:01:00.0", "RTX 4090"));
    assert!(should_replace_name("sysfs:abc", "Sensor"));
    assert!(should_replace_name("Same", "Same"));
    assert!(!should_replace_name("Example CPU", "CPU"));
    assert!(!should_replace_name("Unknown", ""));
    assert!(!should_replace_name("Unknown", "GPU card0"));
    assert!(!should_replace_name("Unknown", "k10temp sensor controller"));
    assert!(!should_replace_name("Samsung SSD", "Other SSD"));
}

#[test]
fn class_rank_prefers_specific_classes() {
    assert_eq!(class_rank(&DeviceClass::Other), 0);
    assert_eq!(class_rank(&DeviceClass::Pci), 1);
    assert_eq!(class_rank(&DeviceClass::Usb), 1);
    assert_eq!(class_rank(&DeviceClass::Thermal), 2);
    assert_eq!(class_rank(&DeviceClass::Cpu), 3);
}

#[test]
fn overlay_keeps_enriched_label() {
    let (label, identification) = overlaid_label(
        Some(("CPU Package", Identification::LibSensorsConfig)),
        "Temperature 1".to_string(),
        Identification::Unidentified,
    );
    assert_eq!(label, "CPU Package");
    assert_eq!(identification, Identification::LibSensorsConfig);
    assert!(!should_replace_name("Example CPU", "CPU"));
}

#[test]
fn identified_refresh_keeps_its_own_label() {
    let (label, identification) = overlaid_label(
        Some(("CPU Package", Identification::LibSensorsConfig)),
        "Tctl".to_string(),
        Identification::KernelLabel,
    );
    assert_eq!(label, "Tctl");
    assert_eq!(identification, Identification::KernelLabel);
    let (label, identification) = overlaid_label(None, "Temperature 1".to_string(), Identification::Unidentified);
    assert_eq!(label, "Temperature 1");
    assert_eq!(identification, Identification::Unidentified);
}

#[test]
fn overlaid_warnings_are_sorted_and_unique() {
    let base = vec!["sensors unavailable".to_string(), "b".to_string()];
    let dynamic = vec!["a".to_string(), "sensors unavailable".to_string(), "a".to_string()];
    assert_eq!(
        merge_warnings(&base, &dynamic),
        vec!["a".to_string(), "b".to_string(), "sensors unavailable".to_string()]
    );
    assert!(merge_warnings(&[], &[]).is_empty());
}

#[test]
fn classes_and_kinds_sort_in_declaration_order() {
    assert!(device_class_order(DeviceClass::System) < device_class_order(DeviceClass::Cpu));
    assert!(device_class_order(DeviceClass::Cpu) < device_class_order(DeviceClass::Storage));
    assert!(device_class_order(DeviceClass::Thunderbolt) < device_class_order(DeviceClass::Other));
    assert!(sensor_kind_order(SensorKind::Temperature) < sensor_kind_order(SensorKind::Voltage));
    assert!(sensor_kind_order(SensorKind::Fan) < sensor_kind_order(SensorKind::Frequency));
    assert_eq!(sensor_kind_order(SensorKind::Other), 14);
}
