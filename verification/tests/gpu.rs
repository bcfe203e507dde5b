use hwall::collect::gpu::{
    dpm_clock_candidates, gpu_metrics_header, is_drm_card_name, nvidia_measurement,
    nvidia_smi_args, parse_nvidia_smi_line,
};
use hwall::model::{SensorKind, Unit};

#[test]
fn drm_cards_are_recognized() {
    assert!(is_drm_card_name("card0"));
    assert!(is_drm_card_name("card12"));
    assert!(!is_drm_card_name("card0-DP-1"));
    assert!(!is_drm_card_name("renderD128"));
}

#[test]
fn gpu_metrics_header_is_little_endian() {
    let header = gpu_metrics_header(&[0x34, 0x12, 2, 4, 0, 0]).unwrap();
    assert_eq!(header.structure_size, 0x1234);
    assert_eq!(header.format_revision, 2);
    assert_eq!(header.content_revision, 4);
    assert_eq!(header.bytes_read, 6);
    assert!(gpu_metrics_header(&[1, 2, 3]).is_none());
}

#[test]
fn dpm_tables_use_the_active_level() {
    assert_eq!(
        dpm_clock_candidates("0: 500Mhz\n1: 800Mhz *\n2: 1200Mhz"),
        vec![("800".to_owned(), 1_000_000)]
    );
    assert_eq!(
        dpm_clock_candidates("0: 500Mhz\n1: 1.2GHz"),
        vec![("1.2".to_owned(), 1_000_000_000)]
    );
    assert!(dpm_clock_candidates("").is_empty());
    assert_eq!(
        dpm_clock_candidates("S: 96Mhz 100Mhz *"),
        vec![("96".to_owned(), 1_000_000), ("100".to_owned(), 1_000_000)]
    );
}

#[test]
fn nvidia_smi_rows_have_thirteen_columns() {
    let args = nvidia_smi_args();
    assert_eq!(args[1], "--format=csv,noheader,nounits");
    assert!(args[0].starts_with("--query-gpu=pci.bus_id,name,uuid"));
    let record = parse_nvidia_smi_line(
        "00000000:01:00.0, NVIDIA GeForce RTX 4070, GPU-1234, 550.54, 45, 30, 12, 5, 12282, 900, 35.20, 1500, 7000",
    )
    .unwrap();
    assert_eq!(record.address, "0000:01:00.0");
    assert_eq!(record.name, "NVIDIA GeForce RTX 4070");
    assert_eq!(record.uuid, "GPU-1234");
    assert_eq!(record.driver_version, "550.54");
    assert_eq!(record.readings.len(), 9);
    assert_eq!(record.readings[0], "45");
    assert_eq!(record.readings[8], "7000");
    assert!(parse_nvidia_smi_line("a, b, c").is_none());
    assert_eq!(
        nvidia_measurement(4),
        ("memory_total", "VRAM total", SensorKind::Capacity, Unit::Byte, 1_048_576)
    );
    assert_eq!(
        nvidia_measurement(8),
        ("memory_clock", "Memory clock", SensorKind::Frequency, Unit::Hertz, 1_000_000)
    );
}
