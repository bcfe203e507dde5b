use hwall::collect::hwmon::{
    channel_number, classify_status, is_pwm_attribute, pci_token, reading_attribute,
    resolve_label, select_libsensors_chip, LibSensorsChipIdentity, SensorPrefix, SensorSpec,
};
use hwall::collect::ownership::resolve_device;
use hwall::model::{Identification, SensorKind, SensorStatus, Unit};

fn ratio(spec: &SensorSpec) -> f64 {
    let (numerator, denominator) = spec.divisor();
    numerator as f64 / denominator as f64
}

#[test]
fn derives_lm_sensors_pci_token() {
    assert_eq!(pci_token("0000:03:00.0").as_deref(), Some("0300"));
}

#[test]
fn recognizes_standard_inputs() {
    let temp = SensorSpec::from_filename("temp2_input").unwrap();
    assert_eq!(temp.kind, SensorKind::Temperature);
    assert_eq!(ratio(&temp), 1_000.0);
    assert!(SensorSpec::from_filename("temp2_label").is_none());
}

#[test]
fn recognizes_pwm_duty_cycles() {
    let pwm = SensorSpec::from_filename("pwm3").unwrap();
    assert_eq!(pwm.kind, SensorKind::Fan);
    assert_eq!(pwm.unit, Unit::Percent);
    assert_eq!(pwm.channel, Some(3));
    assert_eq!(pwm.metric_id, "pwm3");
    assert!((51.0 / ratio(&pwm) - 20.0).abs() < 0.000_001);
    assert!((255.0 / ratio(&pwm) - 100.0).abs() < 0.000_001);
    assert!(SensorSpec::from_filename("pwm3_enable").is_none());
    assert!(SensorSpec::from_filename("pwm3_mode").is_none());

    let (label, identification) = resolve_label(None, &pwm, None, None);

    assert_eq!(label, "PWM 3");
    assert_eq!(identification, Identification::Unidentified);
}

#[test]
fn gives_spd5118_temperature_a_semantic_label() {
    let temp = SensorSpec::from_filename("temp1_input").unwrap();
    let (label, identification) = resolve_label(
        None,
        &temp,
        None,
        resolve_device("/sys/devices/i2c-6/6-0053", Some("spd5118"), None).profile,
    );
    assert_eq!(label, "Module temperature");
    assert_eq!(identification, Identification::KnownDriverMapping);
}

#[test]
fn ignores_numeric_alarm_when_limits_are_unconfigured() {
    assert_eq!(
        classify_status(SensorKind::Voltage, false, true, [Some(0), Some(0), None]),
        (SensorStatus::Okay, true),
    );
}

#[test]
fn keeps_boolean_alarm_without_numeric_limits() {
    assert_eq!(
        classify_status(SensorKind::Boolean, false, true, [None, None, None]),
        (SensorStatus::Alarm, false),
    );
}

#[test]
fn keeps_alarm_when_a_real_limit_exists() {
    assert_eq!(
        classify_status(
            SensorKind::Temperature,
            false,
            true,
            [None, Some(80_000), Some(100_000)],
        ),
        (SensorStatus::Alarm, false),
    );
}

#[test]
fn fault_wins_over_alarm_and_no_alarm_is_ok() {
    assert_eq!(
        classify_status(SensorKind::Temperature, true, true, [Some(1), None, None]),
        (SensorStatus::Fault, false),
    );
    assert_eq!(
        classify_status(SensorKind::Temperature, false, false, [None, None, None]),
        (SensorStatus::Okay, false),
    );
    assert_eq!(
        classify_status(SensorKind::Voltage, false, true, [Some(-5), None, None]),
        (SensorStatus::Alarm, false),
    );
}

#[test]
fn averages_and_families_are_recognized() {
    let power = SensorSpec::from_filename("power1_average").unwrap();
    assert!(power.is_average);
    assert_eq!(power.base, "power1");
    assert_eq!(power.prefix, SensorPrefix::Power);
    assert_eq!(power.unit, Unit::Watt);
    assert_eq!(power.divisor(), (1_000_000, 1));
    let (label, identification) = resolve_label(None, &power, None, None);
    assert_eq!(label, "Power 1 average");
    assert_eq!(identification, Identification::Unidentified);

    let intrusion = SensorSpec::from_filename("intrusion0_input").unwrap();
    assert_eq!(intrusion.kind, SensorKind::Boolean);
    assert_eq!(intrusion.channel, Some(0));
    assert!(SensorSpec::from_filename("foo1_input").is_none());
    assert!(SensorSpec::from_filename("pwm").is_none());
    assert!(SensorSpec::from_filename("pwmx").is_none());
    let fan = SensorSpec::from_filename("fan_input").unwrap();
    assert_eq!(fan.channel, None);
    assert_eq!(fan.divisor(), (1, 1));
}

#[test]
fn kernel_and_lm_sensors_labels_take_precedence() {
    let temp = SensorSpec::from_filename("temp1_average").unwrap();
    let (label, identification) = resolve_label(Some("Tctl"), &temp, Some("CPU"), None);
    assert_eq!(label, "Tctl average");
    assert_eq!(identification, Identification::KernelLabel);
    let (label, identification) = resolve_label(None, &temp, Some("CPU"), None);
    assert_eq!(label, "CPU average");
    assert_eq!(identification, Identification::LibSensorsConfig);
}

#[test]
fn pwm_and_channel_helpers() {
    let chars = |s: &str| s.chars().collect::<Vec<char>>();
    assert!(is_pwm_attribute(&chars("pwm12")));
    assert!(!is_pwm_attribute(&chars("pwm1_enable")));
    assert_eq!(channel_number(&chars("in7")), Some(7));
    assert_eq!(channel_number(&chars("temp")), None);
    assert_eq!(pci_token("0000:03"), None);
    assert_eq!(pci_token("0000:0a:1f.3").as_deref(), Some("0a1f"));
}

#[test]
fn reads_chip_identity_and_selects_chips() {
    let gpu = LibSensorsChipIdentity::from_chip_name("amdgpu-pci-0A00");
    assert_eq!(gpu.prefix, "amdgpu");
    assert_eq!(gpu.pci_token.as_deref(), Some("0a00"));
    let other_gpu = LibSensorsChipIdentity::from_chip_name("amdgpu-pci-0300");
    let cpu = LibSensorsChipIdentity::from_chip_name("k10temp-pci-00c3");
    let plain = LibSensorsChipIdentity::from_chip_name("nct6799");
    assert_eq!(plain.prefix, "nct6799");
    assert_eq!(plain.pci_token, None);
    assert!(reading_attribute("temp1_input"));
    assert!(reading_attribute("power1_average"));
    assert!(!reading_attribute("temp1_max"));

    let chips = vec![gpu, cpu, other_gpu, plain];
    assert_eq!(
        select_libsensors_chip(&chips, "k10temp", "/sys/devices/pci0000:00/0000:00:18.3"),
        Some(1)
    );
    assert_eq!(
        select_libsensors_chip(
            &chips,
            "amdgpu",
            "/sys/devices/pci0000:00/0000:00:01.1/0000:03:00.0"
        ),
        Some(2)
    );
    assert_eq!(
        select_libsensors_chip(&chips, "amdgpu", "/sys/devices/platform/foo"),
        None
    );
    assert_eq!(select_libsensors_chip(&chips, "it87", "/sys/devices/platform/it87"), None);
}
