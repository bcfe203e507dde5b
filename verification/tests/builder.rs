use hwall::builder::{
    build_devices, order_devices, order_readings, DeviceOrderKey, ReadingOrderKey, RecordKeys,
};
use hwall::model::{DeviceClass, SensorKind};

fn record(id: &str, name: &str, class: DeviceClass, has_model: bool, sensors: &[&str]) -> RecordKeys {
    RecordKeys {
        id: id.to_owned(),
        name: name.to_owned(),
        class,
        has_model,
        sensor_ids: sensors.iter().map(|sensor| (*sensor).to_owned()).collect(),
    }
}

#[test]
fn builder_merges_memory_inventory_and_slot_telemetry() {
    let records = vec![
        record("memory:slot:dimm-a2", "Kingston KF560C30", DeviceClass::Memory, true, &[]),
        record("memory:slot:dimm-a2", "SPD5118 — DIMM_A2", DeviceClass::Memory, false, &["memory:slot:dimm-a2:temp1"]),
    ];
    let built = build_devices(&records);
    assert_eq!(built.len(), 1);
    assert_eq!(built[0].first, 0);
    assert_eq!(built[0].merged, vec![1]);
    // The inventory name stays: the telemetry name is no placeholder replacement.
    assert_eq!(built[0].name, 0);
    assert_eq!(built[0].sensors, vec![(1, 0)]);
}

#[test]
fn a_record_that_brings_the_first_model_names_the_device() {
    let records = vec![
        record("pci:01", "Example GPU", DeviceClass::Pci, false, &["b", "a"]),
        record("pci:01", "Radeon RX", DeviceClass::Gpu, true, &["a"]),
        record("cpu:0", "CPU", DeviceClass::Cpu, false, &[]),
    ];
    let built = build_devices(&records);
    assert_eq!(built.len(), 2);
    assert_eq!(built[0].first, 2);
    let gpu = &built[1];
    assert_eq!(gpu.name, 1);
    assert!(gpu.has_model);
    assert_eq!(gpu.class, DeviceClass::Gpu);
    // Readings are keyed by id once records are merged.
    assert_eq!(gpu.sensors, vec![(1, 0), (0, 0)]);
}

#[test]
fn snapshot_sort_uses_natural_sensor_ordering() {
    let keys: Vec<ReadingOrderKey> = ["CPU 10", "CPU 2", "CPU 1", "cpu 2"]
        .iter()
        .enumerate()
        .map(|(index, label)| ReadingOrderKey {
            kind: SensorKind::Temperature,
            label: (*label).to_owned(),
            id: format!("t{index}"),
        })
        .collect();
    assert_eq!(order_readings(&keys), vec![2, 1, 3, 0]);
    let mixed = vec![
        ReadingOrderKey { kind: SensorKind::Voltage, label: "A".to_owned(), id: "v".to_owned() },
        ReadingOrderKey { kind: SensorKind::Temperature, label: "Z".to_owned(), id: "t".to_owned() },
    ];
    assert_eq!(order_readings(&mixed), vec![1, 0]);
}

#[test]
fn devices_sort_by_class_then_name_then_id() {
    let keys = vec![
        DeviceOrderKey { class: DeviceClass::Storage, name: "b".to_owned(), id: "2".to_owned() },
        DeviceOrderKey { class: DeviceClass::Cpu, name: "Z".to_owned(), id: "1".to_owned() },
        DeviceOrderKey { class: DeviceClass::Storage, name: "A".to_owned(), id: "3".to_owned() },
        DeviceOrderKey { class: DeviceClass::Storage, name: "a".to_owned(), id: "0".to_owned() },
    ];
    assert_eq!(order_devices(&keys), vec![1, 3, 2, 0]);
}
