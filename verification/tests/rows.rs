use hwall::model::SensorKind;
use hwall::rows::{
    build_sensor_rows, device_display_label, ordered_device_indices, DeviceEntry, RowKind, RowOptions,
    SensorCells, SensorEntry, SensorRow,
};
use hwall::visibility::VisibilityState;

fn cells(current: &str) -> SensorCells {
    SensorCells {
        current: current.to_owned(),
        minimum: current.to_owned(),
        maximum: current.to_owned(),
        average: current.to_owned(),
        status: "Normal".to_owned(),
        current_color: None,
        minimum_color: None,
        maximum_color: None,
        average_color: None,
        status_color: None,
    }
}

fn sensor(id: &str, kind: SensorKind, kind_name: &str, label: &str, current: &str) -> SensorEntry {
    SensorEntry {
        id: id.to_owned(),
        kind,
        kind_name: kind_name.to_owned(),
        label: label.to_owned(),
        alias: None,
        cells: cells(current),
    }
}

fn device(id: &str, name: &str, sensors: Vec<SensorEntry>) -> DeviceEntry {
    DeviceEntry {
        id: id.to_owned(),
        label: name.to_owned(),
        name: name.to_owned(),
        driver: None,
        sensors,
    }
}

fn devices() -> Vec<DeviceEntry> {
    vec![
        device(
            "cpu:0",
            "Processor",
            vec![sensor("temp:0", SensorKind::Temperature, "Temperatures", "CPU temperature", "42.0 °C")],
        ),
        device("gpu:0", "Graphics card", vec![sensor("fan:0", SensorKind::Fan, "Fans", "Fan", "800 RPM")]),
    ]
}

fn options() -> RowOptions {
    RowOptions {
        device_order: Vec::new(),
        show_sensor_groups: false,
        query: String::new(),
        favorites_only: false,
    }
}

fn rows(devices: &[DeviceEntry], options: &RowOptions) -> Vec<SensorRow> {
    build_sensor_rows(devices, options, &VisibilityState::new())
}

#[test]
fn custom_device_order_is_applied() {
    let mut options = options();
    options.device_order = vec!["gpu:0".to_owned(), "cpu:0".to_owned()];
    let rows = rows(&devices(), &options);
    let devices: Vec<_> = rows
        .iter()
        .filter(|row| row.kind == RowKind::Device)
        .map(|row| row.label.as_str())
        .collect();
    assert_eq!(devices, vec!["Graphics card", "Processor"]);
}

#[test]
fn groups_are_flattened_by_default() {
    let rows = rows(&devices(), &options());
    assert!(!rows.iter().any(|row| row.kind == RowKind::Header));
    assert!(rows.iter().filter(|row| row.kind == RowKind::Sensor).all(|row| row.depth == 1));
}

#[test]
fn sensor_aliases_replace_the_display_label_but_keep_the_original() {
    let mut devices = devices();
    devices[0].sensors[0].alias = Some("CPU package".to_owned());
    let rows = rows(&devices, &options());
    let sensor = rows
        .iter()
        .find(|row| row.kind == RowKind::Sensor && row.id.contains("temp:0"))
        .expect("CPU sensor row");
    assert_eq!(sensor.label, "CPU package");
    assert_eq!(sensor.original_label, "CPU temperature");
    assert_eq!(sensor.id, "sensor:cpu:0:temp:0");
}

#[test]
fn memory_device_header_includes_i2c_address() {
    let label = device_display_label("SPD5118 DDR5 memory module", true, None, Some("0x53"));
    let memory = DeviceEntry {
        id: "memory:spd5118:6-0053".to_owned(),
        label,
        name: "SPD5118 DDR5 memory module".to_owned(),
        driver: None,
        sensors: vec![sensor("temp:0", SensorKind::Temperature, "Temperatures", "Module temperature", "48.0 °C")],
    };
    let rows = rows(&[memory], &options());
    assert_eq!(rows.first().map(|row| row.label.as_str()), Some("SPD5118 DDR5 memory module — I²C 0x53"));
}

#[test]
fn search_can_match_across_display_fields() {
    let mut options = options();
    options.query = "temperature 42".to_owned();
    let rows = rows(&devices(), &options);
    assert!(rows.iter().any(|row| row.kind == RowKind::Sensor && row.id.contains("temp:0")));
    assert!(!rows.iter().any(|row| row.id.contains("fan:0")));
}

#[test]
fn groups_can_be_enabled() {
    let mut options = options();
    options.show_sensor_groups = true;
    let rows = rows(&devices(), &options);
    assert!(rows.iter().any(|row| row.kind == RowKind::Header));
    assert!(rows.iter().filter(|row| row.kind == RowKind::Sensor).all(|row| row.depth == 2));
    let header = rows.iter().find(|row| row.kind == RowKind::Header).expect("group heading");
    assert_eq!(header.id, "group:cpu:0:temperature");
    assert_eq!(header.label, "Temperatures");
    assert_eq!(header.status, "1 sensors");
}

#[test]
fn hidden_collapsed_and_favourite_rows_follow_the_visibility_state() {
    let mut visibility = VisibilityState::new();
    visibility.hide_key("sensor:gpu:0:fan:0", "Fan");
    visibility.toggle_collapsed("device:cpu:0");
    let rows = build_sensor_rows(&devices(), &options(), &visibility);
    assert_eq!(rows.len(), 1);
    assert_eq!(rows[0].id, "device:cpu:0");
    assert!(rows[0].collapsed);

    let mut visibility = VisibilityState::new();
    visibility.toggle_favorite("sensor:gpu:0:fan:0");
    let mut favourites = options();
    favourites.favorites_only = true;
    let rows = build_sensor_rows(&devices(), &favourites, &visibility);
    let ids: Vec<&str> = rows.iter().map(|row| row.id.as_str()).collect();
    assert_eq!(ids, vec!["device:gpu:0", "sensor:gpu:0:fan:0"]);
    assert!(rows[1].favorite);
}

#[test]
fn kinds_are_listed_in_kind_order_and_sensors_in_collection_order() {
    let cpu = device(
        "cpu:0",
        "Processor",
        vec![
            sensor("fan:1", SensorKind::Fan, "Fans", "Fan 1", "1"),
            sensor("temp:0", SensorKind::Temperature, "Temperatures", "Package", "2"),
            sensor("fan:0", SensorKind::Fan, "Fans", "Fan 0", "3"),
        ],
    );
    let rows = rows(&[cpu], &options());
    let ids: Vec<&str> = rows.iter().map(|row| row.id.as_str()).collect();
    assert_eq!(ids, vec!["device:cpu:0", "sensor:cpu:0:temp:0", "sensor:cpu:0:fan:1", "sensor:cpu:0:fan:0"]);
}

#[test]
fn devices_without_sensors_are_left_out() {
    let rows = rows(&[device("disk:0", "Disk", Vec::new())], &options());
    assert!(rows.is_empty());
}

#[test]
fn device_order_uses_last_positions_then_original_places() {
    let ids = vec!["a".to_owned(), "b".to_owned(), "c".to_owned()];
    assert_eq!(ordered_device_indices(&ids, &["c".to_owned(), "a".to_owned()]), vec![2, 0, 1]);
    assert_eq!(ordered_device_indices(&ids, &[]), vec![0, 1, 2]);
    assert_eq!(ordered_device_indices(&ids, &["b".to_owned(), "x".to_owned(), "b".to_owned()]), vec![0, 1, 2]);
}

#[test]
fn memory_labels_skip_a_locator_the_name_already_holds() {
    assert_eq!(device_display_label("DIMM A1 module", true, Some("A1"), Some(" ")), "DIMM A1 module");
    assert_eq!(device_display_label("Module", true, Some("DIMM_B2"), Some("0x51")), "Module — DIMM_B2 · I²C 0x51");
    assert_eq!(device_display_label("Disk", false, Some("bay 1"), None), "Disk");
}
