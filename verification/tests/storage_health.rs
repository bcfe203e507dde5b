use hwall::collect::storage_health::{
    block_device_target, block_health_candidate, critical_warning_details, current_health,
    helper_error, helper_unavailable, nvme_controller_target, nvme_failure, nvme_field,
    nvme_health_properties, nvme_health_status, parse_helper_u64, smartctl_args,
    smartctl_failure, target_from_device, HealthHelper, HelperFailure, StorageDeviceFacts,
    NVME_FIELD_COUNT, nvme_json_values, smart_fields_found, smart_json_values, smart_status, SmartJson,
};
use hwall::collect::util::is_nvme_controller_name;
use hwall::model::{DeviceClass, StorageHealthAvailability, StorageHealthStatus};

#[test]
fn decodes_nvme_critical_warning_bits() {
    assert!(critical_warning_details(0).is_empty());
    assert_eq!(
        critical_warning_details((1 << 0) | (1 << 3)),
        vec![
            "Available spare below threshold".to_owned(),
            "Media placed in read-only mode".to_owned(),
        ]
    );
}

#[test]
fn recognizes_controller_names_only() {
    assert!(is_nvme_controller_name("nvme2"));
    assert!(!is_nvme_controller_name("nvme2n1"));
}

#[test]
fn high_warning_bits_are_not_described() {
    assert_eq!(
        critical_warning_details(0b1100_0000 | (1 << 5)),
        vec!["Persistent memory region is read-only".to_owned()]
    );
}

#[test]
fn helper_numbers_accept_hex_separators_and_decimal() {
    assert_eq!(parse_helper_u64("0x0"), Some(0));
    assert_eq!(parse_helper_u64(" 0X1F "), Some(31));
    assert_eq!(parse_helper_u64("1,234,567"), Some(1_234_567));
    assert_eq!(parse_helper_u64("8"), Some(8));
    assert_eq!(parse_helper_u64("0xZZ"), None);
    assert_eq!(parse_helper_u64(""), None);
    assert_eq!(parse_helper_u64("-1"), None);
}

#[test]
fn nvme_status_follows_the_critical_warning() {
    assert_eq!(nvme_health_status(Some(0)), StorageHealthStatus::Passed);
    assert_eq!(nvme_health_status(Some(4)), StorageHealthStatus::Warning);
    assert_eq!(nvme_health_status(None), StorageHealthStatus::Unknown);
}

#[test]
fn nvme_fields_prefer_the_current_percentage_key() {
    assert_eq!(nvme_field(2), ("percent_used", "percentage_used"));
    assert_eq!(nvme_field(12), ("num_err_log_entries", "error_log_entries"));
    let mut values = vec![None; NVME_FIELD_COUNT];
    values[0] = Some(100);
    values[2] = Some(7);
    values[3] = Some(9);
    values[8] = Some(12);
    assert_eq!(
        nvme_health_properties(&values),
        vec![
            ("available_spare".to_owned(), 100),
            ("percentage_used".to_owned(), 7),
            ("power_cycles".to_owned(), 12),
        ]
    );
    let mut legacy = vec![None; NVME_FIELD_COUNT];
    legacy[3] = Some(8);
    assert_eq!(
        nvme_health_properties(&legacy),
        vec![("percentage_used".to_owned(), 8)]
    );
}

#[test]
fn helper_errors_use_the_first_meaningful_line() {
    assert_eq!(
        helper_error("nvme", "/dev/nvme0", "\n  \r\n  Bad things happened...  \nmore"),
        "nvme could not read /dev/nvme0: Bad things happened."
    );
    assert_eq!(
        helper_error("smartctl", "/dev/sda", " \n"),
        "smartctl could not read /dev/sda: unknown error."
    );
}

#[test]
fn helper_output_is_classified() {
    assert_eq!(
        smartctl_failure("Smartctl open device: /dev/sda failed: Permission denied", "/dev/sda", true),
        Some(HelperFailure::PermissionDenied(
            "smartctl could not open /dev/sda because permission was denied.".to_owned()
        ))
    );
    assert_eq!(
        smartctl_failure("Device is in STANDBY mode, exit(2)", "/dev/sdb", true),
        Some(HelperFailure::DriveAsleep(
            "/dev/sdb is asleep; HWall did not wake it.".to_owned()
        ))
    );
    assert_eq!(smartctl_failure("Device is in STANDBY mode, exit(2)", "/dev/sdb", false), None);
    assert_eq!(
        smartctl_failure("SMART support is: Unavailable", "/dev/sdc", false),
        Some(HelperFailure::Unsupported(
            "SMART health is not supported for /dev/sdc.".to_owned()
        ))
    );
    assert_eq!(
        nvme_failure("failure\n", "/dev/nvme0", false),
        Some(HelperFailure::Error("nvme could not read /dev/nvme0: failure.".to_owned()))
    );
    assert_eq!(nvme_failure("{}", "/dev/nvme0", true), None);
    assert_eq!(
        nvme_failure("Operation not permitted", "/dev/nvme0", false),
        Some(HelperFailure::PermissionDenied(
            "nvme-cli could not open /dev/nvme0 because permission was denied.".to_owned()
        ))
    );
}

#[test]
fn missing_helpers_and_health_records() {
    assert_eq!(
        helper_unavailable(HealthHelper::Smartctl, false, false, true),
        Some(HelperFailure::HelperMissing("smartctl was not found.".to_owned()))
    );
    assert_eq!(
        helper_unavailable(HealthHelper::NvmeCli, true, true, false),
        Some(HelperFailure::HelperMissing(
            "pkexec was not found, so an administrator retry is unavailable.".to_owned()
        ))
    );
    assert_eq!(helper_unavailable(HealthHelper::NvmeCli, true, true, true), None);

    let failed = HelperFailure::DriveAsleep("asleep".to_owned()).into_health(42);
    assert_eq!(failed.status, StorageHealthStatus::Unknown);
    assert_eq!(failed.availability, StorageHealthAvailability::DriveAsleep);
    assert_eq!(failed.last_attempt_unix_ms, Some(42));
    assert_eq!(failed.last_success_unix_ms, None);
    assert_eq!(failed.message.as_deref(), Some("asleep"));
    assert!(failed.sources.is_empty());

    let ok = current_health(StorageHealthStatus::Passed, "nvme-cli", 7);
    assert_eq!(ok.availability, StorageHealthAvailability::Current);
    assert_eq!(ok.last_success_unix_ms, Some(7));
    assert_eq!(ok.sources, vec!["nvme-cli".to_owned()]);
}

#[test]
fn smartctl_does_not_wake_rotating_disks() {
    assert_eq!(
        smartctl_args(true, "/dev/sda"),
        vec!["--nocheck=standby", "--all", "--json", "/dev/sda"]
    );
    assert_eq!(smartctl_args(false, "/dev/sdb"), vec!["--all", "--json", "/dev/sdb"]);
}

fn facts(id: &str) -> StorageDeviceFacts {
    StorageDeviceFacts {
        id: id.to_owned(),
        class: DeviceClass::Storage,
        name: "Disk".to_owned(),
        model: Some("Model".to_owned()),
        driver: None,
        parent: None,
        bus_address: None,
        partition: None,
        controller_name: None,
        rotational: None,
    }
}

#[test]
fn chooses_health_targets() {
    let disk = target_from_device(&facts("block:sda")).unwrap();
    assert_eq!(disk.device_path, "/dev/sda");
    assert_eq!(disk.nvme_path, None);
    assert!(disk.rotational);
    assert_eq!(disk.model.as_deref(), Some("Model"));

    let mut namespace = facts("block:nvme0n1");
    namespace.controller_name = Some("nvme0".to_owned());
    let target = target_from_device(&namespace).unwrap();
    assert_eq!(target.device_path, "/dev/nvme0");
    assert_eq!(target.nvme_path.as_deref(), Some("/dev/nvme0"));
    assert!(!target.rotational);

    namespace.parent = Some("block:nvme0".to_owned());
    assert!(target_from_device(&namespace).is_none());

    let mut partition = facts("block:sda1");
    partition.partition = Some(true);
    assert!(target_from_device(&partition).is_none());
    assert!(target_from_device(&facts("block:loop0")).is_none());
    assert!(target_from_device(&facts("pci:0000:00:01.0")).is_none());
    let mut gpu = facts("block:sdz");
    gpu.class = DeviceClass::Gpu;
    assert!(target_from_device(&gpu).is_none());

    let mut ssd = facts("block:sdb");
    ssd.rotational = Some(false);
    ssd.bus_address = Some("sg1".to_owned());
    let target = target_from_device(&ssd).unwrap();
    assert_eq!(target.device_path, "/dev/sg1");
    assert!(!target.rotational);
}

#[test]
fn discovered_targets() {
    let controller = nvme_controller_target("nvme1");
    assert_eq!(controller.id, "block:nvme1");
    assert_eq!(controller.name, "NVMe controller nvme1");
    assert_eq!(controller.nvme_path.as_deref(), Some("/dev/nvme1"));
    assert_eq!(controller.driver.as_deref(), Some("nvme"));
    let disk = block_device_target("sda", None);
    assert_eq!(disk.device_path, "/dev/sda");
    assert!(disk.rotational);
    assert!(!block_device_target("sdb", Some(false)).rotational);
    assert!(block_health_candidate("sda", false, true));
    assert!(!block_health_candidate("nvme0n1", false, true));
    assert!(!block_health_candidate("sda1", true, true));
    assert!(!block_health_candidate("zram0", false, true));
    assert!(!block_health_candidate("sdc", false, false));
}

#[test]
fn parses_current_nvme_json_into_canonical_properties() {
    let json = br#"{
        "critical_warning": 0,
        "avail_spare": 100,
        "spare_thresh": 10,
        "percent_used": 7,
        "power_cycles": 12,
        "temperature": 316
    }"#;
    let values = nvme_json_values(json).unwrap();
    assert_eq!(nvme_health_status(values.critical_warning), StorageHealthStatus::Passed);
    let properties = nvme_health_properties(&values.values);
    assert!(properties.contains(&("percentage_used".to_owned(), 7)));
    assert!(properties.contains(&("power_cycles".to_owned(), 12)));
    assert!(properties.contains(&("available_spare".to_owned(), 100)));
}

#[test]
fn accepts_legacy_percentage_key_and_string_numbers() {
    let values = nvme_json_values(br#"{"critical_warning":"0x0","percentage_used":"8"}"#).unwrap();
    assert_eq!(values.critical_warning, Some(0));
    let properties = nvme_health_properties(&values.values);
    assert!(properties.contains(&("percentage_used".to_owned(), 8)));
}

#[test]
fn missing_critical_warning_does_not_imply_passed_health() {
    let values = nvme_json_values(br#"{"percent_used":7}"#).unwrap();
    assert_eq!(values.critical_warning, None);
    assert_eq!(nvme_health_status(values.critical_warning), StorageHealthStatus::Unknown);
    let properties = nvme_health_properties(&values.values);
    assert!(!properties.iter().any(|(key, _)| key == "critical_warning"));
}

#[test]
fn helper_output_that_is_not_json_is_an_error() {
    match nvme_json_values(b"not json") {
        Err(HelperFailure::Error(message)) => assert!(message.starts_with("nvme returned invalid JSON: ")),
        other => panic!("unexpected {other:?}"),
    }
    match smart_json_values(b"{") {
        Err(HelperFailure::Error(message)) => assert!(message.starts_with("smartctl returned invalid JSON: ")),
        other => panic!("unexpected {other:?}"),
    }
}

#[test]
fn reads_the_smart_assessment_model_and_hours() {
    let json = br#"{"model_name":"Example SSD","power_on_time":{"hours":"1,234"},"smart_status":{"passed":false}}"#;
    let values = smart_json_values(json).unwrap();
    assert_eq!(values.model.as_deref(), Some("Example SSD"));
    assert_eq!(values.power_on_hours, Some(1234));
    assert_eq!(values.passed, Some(false));
    let empty = smart_json_values(b"{}").unwrap();
    assert_eq!(
        empty,
        SmartJson {
            model: None,
            firmware: None,
            serial: None,
            wwn: None,
            passed: None,
            power_on_hours: None,
            power_cycles: None,
            has_temperature: false,
        }
    );
    assert!(!smart_fields_found(&empty, true));
    assert_eq!(smart_status(values.passed), StorageHealthStatus::Failed);
}

#[test]
fn reads_firmware_identity_cycles_and_temperature_presence() {
    let json = br#"{"firmware_version":"1.0","serial_number":"S123","wwn":{"naa":5},"power_cycle_count":42,"temperature":{"current":37.5}}"#;
    let values = smart_json_values(json).unwrap();
    assert_eq!(values.firmware.as_deref(), Some("1.0"));
    assert_eq!(values.serial.as_deref(), Some("S123"));
    assert_eq!(values.wwn, Some(5));
    assert_eq!(values.power_cycles, Some(42));
    assert!(values.has_temperature);
    assert_eq!(smart_status(values.passed), StorageHealthStatus::Unknown);
    let identity_only = smart_json_values(br#"{"serial_number":"S123"}"#).unwrap();
    assert!(smart_fields_found(&identity_only, true));
    assert!(!smart_fields_found(&identity_only, false));
}
