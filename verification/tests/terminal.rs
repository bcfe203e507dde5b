use hwall::hardware::{
    HardwareCategory, HardwareCategoryKind, HardwareDevice, HardwareInventory, HardwareProperty,
    HardwareSection, HardwareSensor,
};
use hwall::model::SensorKind;
use hwall::rows::{build_sensor_rows, DeviceEntry, RowOptions, SensorCells, SensorEntry};
use hwall::terminal::{render_inventory, render_sensor_rows, render_terminal_view, truncate, TerminalView};
use hwall::visibility::VisibilityState;

#[test]
fn views_cycle_in_both_directions() {
    for view in [TerminalView::Mixed, TerminalView::Sensors, TerminalView::Hardware] {
        assert_eq!(view.next().previous(), view);
        assert_eq!(view.next().next().next(), view);
        assert_ne!(view.next(), view);
    }
    assert_eq!(TerminalView::Mixed.next(), TerminalView::Sensors);
    assert_eq!(TerminalView::Mixed.previous(), TerminalView::Hardware);
    assert_eq!(TerminalView::Hardware.display_name(), "Hardware");
}


fn hardware_device(id: &str, category: HardwareCategoryKind, name: &str) -> HardwareDevice {
    HardwareDevice {
        id: id.to_owned(),
        category,
        name: name.to_owned(),
        subtitle: String::new(),
        sections: Vec::new(),
        advanced: Vec::new(),
        sensors: Vec::new(),
        storage_health_refreshable: false,
        storage_health_permission_required: false,
        search_text: name.to_lowercase(),
    }
}

fn sample_inventory() -> HardwareInventory {
    let mut board = hardware_device("board:0", HardwareCategoryKind::Motherboard, "Example board");
    board.subtitle = "Desktop".to_owned();
    board.sections.push(HardwareSection {
        title: "Firmware".to_owned(),
        properties: vec![HardwareProperty {
            key: "bios_version".to_owned(),
            label: "BIOS version".to_owned(),
            value: "1.2.3".to_owned(),
        }],
    });
    let mut cpu = hardware_device("cpu:0", HardwareCategoryKind::Processor, "Example CPU");
    cpu.sensors.push(HardwareSensor {
        id: "temperature".to_owned(),
        group: "Temperatures".to_owned(),
        label: "Package temperature".to_owned(),
        current: "42.0 °C".to_owned(),
        minimum: "—".to_owned(),
        maximum: "—".to_owned(),
        average: "—".to_owned(),
        status: "Normal".to_owned(),
        current_color: None,
        minimum_color: None,
        maximum_color: None,
        average_color: None,
        status_color: None,
        dimmed: false,
    });
    HardwareInventory {
        categories: vec![
            HardwareCategory {
                kind: HardwareCategoryKind::Motherboard,
                label: "Motherboard & firmware".to_owned(),
                devices: vec![board],
            },
            HardwareCategory {
                kind: HardwareCategoryKind::Processor,
                label: "Processor".to_owned(),
                devices: vec![cpu],
            },
        ],
    }
}

fn sample_rows() -> Vec<hwall::rows::SensorRow> {
    let entry = DeviceEntry {
        id: "cpu:0".to_owned(),
        label: "Example CPU".to_owned(),
        name: "Example CPU".to_owned(),
        driver: None,
        sensors: vec![SensorEntry {
            id: "temperature".to_owned(),
            kind: SensorKind::Temperature,
            kind_name: "Temperatures".to_owned(),
            label: "Package temperature".to_owned(),
            alias: None,
            cells: SensorCells {
                current: "42.0 °C".to_owned(),
                minimum: "—".to_owned(),
                maximum: "—".to_owned(),
                average: "—".to_owned(),
                status: "Normal".to_owned(),
                current_color: None,
                minimum_color: None,
                maximum_color: None,
                average_color: None,
                status_color: None,
            },
        }],
    };
    let options = RowOptions {
        device_order: Vec::new(),
        show_sensor_groups: true,
        query: String::new(),
        favorites_only: false,
    };
    build_sensor_rows(&[entry], &options, &VisibilityState::new())
}

#[test]
fn mixed_report_uses_the_shared_hardware_projection() {
    let report = render_terminal_view(TerminalView::Mixed, &sample_inventory(), &sample_rows(), &[]);
    assert!(report.contains("Motherboard & firmware"));
    assert!(report.contains("BIOS version"));
    assert!(report.contains("Desktop"));
    assert!(report.contains("Package temperature"));
    assert!(!report.contains("\nFirmware\n··"));
}

#[test]
fn hardware_and_sensor_views_are_distinct() {
    let inventory = sample_inventory();
    let rows = sample_rows();
    let hardware = render_terminal_view(TerminalView::Hardware, &inventory, &rows, &[]);
    let sensors = render_terminal_view(TerminalView::Sensors, &inventory, &rows, &[]);
    assert!(!hardware.contains("Package temperature"));
    assert!(sensors.contains("Package temperature"));
    assert!(!sensors.contains("BIOS version"));
}

#[test]
fn hardware_report_lays_out_devices_exactly() {
    let report = render_inventory(&sample_inventory(), true);
    let dots = "·".repeat(84);
    let expected = format!(
        "HWall hardware report\n{}\nMotherboard & firmware\n{}\nExample board\n  Desktop\n{dots}\n  Firmware\n    {:<30} 1.2.3\n\nProcessor\n{}\nExample CPU\n{dots}\n  Temperatures\n    {:<47} {:>18}  Status\n    {:<47} {:>18}  Normal\n\n",
        "=".repeat(84),
        "-".repeat(84),
        "BIOS version",
        "-".repeat(84),
        "Reading",
        "Current",
        "Package temperature",
        "42.0 °C",
    );
    assert_eq!(report, expected);
}

#[test]
fn sensor_report_switches_to_observed_columns_and_lists_warnings() {
    let mut rows = sample_rows();
    for row in rows.iter_mut() {
        if row.kind == hwall::rows::RowKind::Sensor {
            row.minimum = "40.0 °C".to_owned();
            row.label = "A very long sensor label that is cut".to_owned();
        }
    }
    let report = render_sensor_rows(&rows);
    assert!(report.contains(&format!(
        "    {:<27} {:>11} {:>11} {:>11} {:>11}  Status\n",
        "Reading", "Current", "Minimum", "Maximum", "Average"
    )));
    assert!(report.contains("    A very long sensor label t… "));
    let with_warnings = render_terminal_view(
        TerminalView::Sensors,
        &sample_inventory(),
        &rows,
        &["libsensors unavailable".to_owned()],
    );
    assert!(with_warnings.ends_with(&format!("Warnings\n{}\n- libsensors unavailable\n", "-".repeat(84))));
}

#[test]
fn truncation_marks_cut_text() {
    let cut: String = truncate(&"abcdef".chars().collect::<Vec<_>>(), 4).into_iter().collect();
    assert_eq!(cut, "abc…");
    let kept: String = truncate(&"abc".chars().collect::<Vec<_>>(), 4).into_iter().collect();
    assert_eq!(kept, "abc");
    let one: String = truncate(&"abc".chars().collect::<Vec<_>>(), 1).into_iter().collect();
    assert_eq!(one, "…");
}
