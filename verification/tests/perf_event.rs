use hwall::collect::perf_event::{
    decode_group_read, encode_event_config, energy_event_name, joule_unit, parse_config_range,
    parse_event_value, PerfGroupError, PerfGroupReading,
};

#[test]
fn parses_rapl_event_encoding() {
    assert_eq!(parse_config_range("config:0-7"), Some((0, 8)));
    assert_eq!(parse_event_value("event=0x2"), Some(2));
    assert_eq!(parse_event_value("event=3"), Some(3));
}

#[test]
fn rejects_unsupported_event_encodings() {
    assert_eq!(parse_config_range("config1:0-7"), None);
    assert_eq!(parse_config_range("config:0-3,8-11"), None);
    assert_eq!(parse_event_value("event=3,other=1"), None);
}

#[test]
fn decodes_grouped_perf_values() {
    let words = [2_u64, 1_000, 900, 41, 56];
    let bytes = words
        .into_iter()
        .flat_map(|word| word.to_ne_bytes())
        .collect::<Vec<_>>();
    assert_eq!(
        decode_group_read(&bytes).unwrap(),
        PerfGroupReading {
            first: 41,
            second: 56,
            time_enabled: 1_000,
            time_running: 900,
        }
    );
}

#[test]
fn rejects_invalid_grouped_perf_values() {
    assert!(decode_group_read(&[0_u8; 8]).is_err());
    let invalid = [3_u64, 1_000, 900, 41, 56]
        .into_iter()
        .flat_map(|word| word.to_ne_bytes())
        .collect::<Vec<_>>();
    assert!(decode_group_read(&invalid).is_err());
}

#[test]
fn grouped_reads_report_which_check_failed() {
    assert_eq!(decode_group_read(&[0_u8; 8]), Err(PerfGroupError::InvalidSize));
    let running_too_long = [2_u64, 10, 11, 1, 1]
        .into_iter()
        .flat_map(|word| word.to_ne_bytes())
        .collect::<Vec<_>>();
    assert_eq!(decode_group_read(&running_too_long), Err(PerfGroupError::InvalidContents));
    let big = [2_u64, u64::MAX, 7, 0x0102_0304_0506_0708, 0]
        .into_iter()
        .flat_map(|word| word.to_ne_bytes())
        .collect::<Vec<_>>();
    let reading = decode_group_read(&big).unwrap();
    assert_eq!(reading.time_enabled, u64::MAX);
    assert_eq!(reading.first, 0x0102_0304_0506_0708);
}

#[test]
fn single_bit_ranges_and_event_fields() {
    assert_eq!(parse_config_range(" config:5 "), Some((5, 1)));
    assert_eq!(parse_config_range("config:7-3"), None);
    assert_eq!(parse_config_range("config:0-64"), None);
    assert_eq!(parse_event_value(" event= 0X1f "), Some(31));
    assert_eq!(parse_event_value("event =1"), None);
    assert_eq!(parse_event_value("umask=1"), None);
    assert_eq!(encode_event_config(2, 8, 8), Some(0x200));
    assert_eq!(encode_event_config(256, 0, 8), None);
    assert_eq!(encode_event_config(u64::MAX, 0, 64), Some(u64::MAX));
}

#[test]
fn energy_events_are_named_and_measured_in_joules() {
    assert!(energy_event_name("energy-pkg"));
    assert!(!energy_event_name("energy-pkg.scale"));
    assert!(!energy_event_name("energy-pkg.unit"));
    assert!(!energy_event_name("cycles"));
    assert!(joule_unit("Joules"));
    assert!(joule_unit("joule"));
    assert!(!joule_unit("J"));
}
