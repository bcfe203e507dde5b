use hwall::model::Identification;
use hwall::overlay::{overlay_plan, DeviceKeys, Origin, PlannedSensor, SensorKeys};

fn sensor(id: &str, label: &str, identification: Identification) -> SensorKeys {
    SensorKeys { id: id.to_owned(), label: label.to_owned(), identification }
}

fn device(id: &str, name: &str, sensors: Vec<SensorKeys>) -> DeviceKeys {
    DeviceKeys { id: id.to_owned(), name: name.to_owned(), sensors }
}

#[test]
fn overlay_keeps_the_enriched_label_of_an_unidentified_refresh() {
    let base = vec![device(
        "cpu:0",
        "Example CPU",
        vec![sensor("cpu:0:temp1", "CPU Package", Identification::LibSensorsConfig)],
    )];
    let dynamic = vec![device(
        "cpu:0",
        "CPU",
        vec![sensor("cpu:0:temp1", "Temperature 1", Identification::Unidentified)],
    )];
    let plan = overlay_plan(&base, &dynamic);
    assert_eq!(plan.len(), 1);
    let entry = &plan[0];
    assert_eq!(entry.origin, Origin::Base(0));
    assert_eq!(entry.merged, vec![0]);
    // "CPU" never replaces a known name.
    assert_eq!(entry.name, Origin::Base(0));
    assert_eq!(
        entry.sensors,
        vec![PlannedSensor { reading: (Origin::Dynamic(0), 0), label: (Origin::Base(0), 0) }]
    );
}

#[test]
fn overlay_adds_new_devices_and_orders_entries_by_id() {
    let base = vec![
        device("b", "Unknown device", vec![sensor("t2", "B", Identification::KernelLabel), sensor("t1", "A", Identification::KernelLabel)]),
        device("a", "First", vec![]),
    ];
    let dynamic = vec![
        device("c", "New", vec![]),
        device("b", "Named device", vec![sensor("t1", "Fresh", Identification::KernelLabel)]),
    ];
    let plan = overlay_plan(&base, &dynamic);
    let origins: Vec<Origin> = plan.iter().map(|entry| entry.origin).collect();
    assert_eq!(origins, vec![Origin::Base(1), Origin::Base(0), Origin::Dynamic(0)]);
    let merged = &plan[1];
    assert_eq!(merged.name, Origin::Dynamic(1));
    // Readings of a merged entry are keyed and ordered by id.
    assert_eq!(
        merged.sensors,
        vec![
            PlannedSensor { reading: (Origin::Dynamic(1), 0), label: (Origin::Dynamic(1), 0) },
            PlannedSensor { reading: (Origin::Base(0), 0), label: (Origin::Base(0), 0) },
        ]
    );
    assert!(plan[0].merged.is_empty());
}

#[test]
fn a_later_full_record_replaces_an_earlier_one_with_its_id() {
    let base = vec![device("a", "Old", vec![]), device("a", "New", vec![])];
    let plan = overlay_plan(&base, &[]);
    assert_eq!(plan.len(), 1);
    assert_eq!(plan[0].origin, Origin::Base(1));
}
