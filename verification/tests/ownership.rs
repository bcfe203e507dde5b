use hwall::collect::ownership::{
    default_sensor_label, hwmon_display_name, hwmon_profile_properties, nvme_controller_from_path, profile_for, resolve_device, DriverProfile,
};
use hwall::model::{DeviceClass, Identification, SensorKind};

#[test]
fn memory_profiles_ignore_the_upstream_pci_controller() {
    let path = "/sys/devices/pci0000:00/0000:00:14.0/i2c-6/6-0053";
    let resolved = resolve_device(path, Some("spd5118"), None);
    assert_eq!(resolved.id, "memory:spd5118:6-0053");
    assert_eq!(resolved.class, DeviceClass::Memory);

    let jc42 = "/sys/devices/platform/i2c-1/1-0018";
    let resolved = resolve_device(jc42, Some("jc42"), None);
    assert_eq!(resolved.id, "memory:jc42:1-0018");
    assert_eq!(resolved.class, DeviceClass::Memory);
}

#[test]
fn known_profiles_keep_their_owner_when_transport_identity_is_missing() {
    let path = "/sys/devices/platform/unusual-memory-sensor";
    let resolved = resolve_device(path, Some("jc42"), None);
    assert!(resolved.id.starts_with("memory:jc42:"));
    assert_eq!(resolved.class, DeviceClass::Memory);
}

#[test]
fn recognizes_driver_name_variants() {
    assert!(profile_for("peci-dimmtemp").is_some());
    assert!(profile_for("peci_dimmtemp.cpu0").is_some());
    assert!(profile_for("i915").is_some());
}

#[test]
fn maps_storage_and_gpu_profiles_to_their_physical_devices() {
    let nvme = "/sys/devices/pci0000:00/0000:02:00.0/nvme/nvme2";
    let resolved = resolve_device(nvme, Some("nvme"), None);
    assert_eq!(resolved.id, "block:nvme2");
    assert_eq!(resolved.class, DeviceClass::Storage);

    let gpu = "/sys/devices/pci0000:00/0000:01:00.0";
    let resolved = resolve_device(gpu, Some("amdgpu"), None);
    assert_eq!(resolved.id, "pci:0000:01:00.0");
    assert_eq!(resolved.class, DeviceClass::Gpu);
}

#[test]
fn fixed_labels_do_not_hide_additional_temperature_channels() {
    let profile = profile_for("spd5118");
    assert_eq!(
        default_sensor_label(profile, SensorKind::Temperature, Some(1), false)
            .map(|value| value.0)
            .as_deref(),
        Some("Module temperature")
    );
    assert!(default_sensor_label(profile, SensorKind::Temperature, Some(2), false).is_none());
}

#[test]
fn profiles_fall_back_and_label_indexed_channels() {
    assert_eq!(profile_for(" K10TEMP "), Some(DriverProfile::Cpu));
    assert_eq!(profile_for("k10tempx"), None);
    assert_eq!(profile_for("unknown"), None);
    let slot = resolve_device("/sys/devices/pci0000:00/i2c-6/6-0050", Some("spd5118"), Some("DIMM_A1"));
    assert_eq!(slot.id, "memory:slot:dimm-a1");
    let peci = resolve_device("/sys/devices/platform/peci-0/0-30/peci_dimmtemp.0", Some("peci_dimmtemp"), None);
    assert_eq!(peci.id, "memory:peci_dimmtemp:platform-peci-0-0-30-peci-dimmtemp-0");
    let plain = resolve_device("/sys/devices/platform/nct6775.656", None, None);
    assert_eq!(plain.id, "sysfs:platform-nct6775-656");
    assert_eq!(plain.class, DeviceClass::Other);
    let pci = resolve_device("/sys/devices/pci0000:00/0000:00:18.3", None, None);
    assert_eq!((pci.id.as_str(), pci.class), ("pci:0000:00:18.3", DeviceClass::Pci));
    let dimm = Some(DriverProfile::PeciDimmtemp);
    assert_eq!(
        default_sensor_label(dimm, SensorKind::Temperature, Some(3), true),
        Some(("DIMM temperature 3 average".to_owned(), Identification::KnownDriverMapping))
    );
    assert_eq!(default_sensor_label(dimm, SensorKind::Fan, Some(3), false), None);
    assert_eq!(default_sensor_label(Some(DriverProfile::Cpu), SensorKind::Temperature, Some(1), false), None);
    assert_eq!(nvme_controller_from_path("/sys/class/nvme/nvme12n1/x"), Some("nvme12".to_owned()));
    assert_eq!(nvme_controller_from_path("/sys/block/sda"), None);
}

#[test]
fn hwmon_devices_are_named_by_profile_or_driver() {
    assert_eq!(hwmon_display_name("nct6775", None, None), "Nct6775 sensor controller");
    let spd = profile_for("spd5118").expect("SPD hub profile");
    assert_eq!(
        hwmon_display_name("spd5118", Some(spd), Some("DIMM A1")),
        format!("{} — DIMM A1", spd.family_name())
    );
    assert_eq!(hwmon_display_name("spd5118", Some(spd), None), spd.display_name());
    let cpu = profile_for("k10temp").expect("CPU profile");
    assert_eq!(hwmon_display_name("k10temp", Some(cpu), Some("DIMM A1")), cpu.display_name());
}

#[test]
fn memory_profiles_record_their_slot() {
    let spd = profile_for("spd5118").expect("SPD hub profile");
    let properties = hwmon_profile_properties(Some(spd), Some("DIMM A1"));
    assert!(properties.contains(&("locator".to_owned(), "DIMM A1".to_owned())));
    let cpu = profile_for("k10temp").expect("CPU profile");
    let properties = hwmon_profile_properties(Some(cpu), Some("DIMM A1"));
    assert!(!properties.iter().any(|(key, _)| key == "locator"));
    assert!(hwmon_profile_properties(None, Some("DIMM A1")).is_empty());
}
