use hwall::cli::sensors::{
    delimited_line, device_matches, device_query, escape_delimited, pad, sensor_selected,
    status_key, status_name, table_header, table_row, truncate, SensorStatusFilter,
};
use hwall::model::{ReadingFreshness, SensorKind, SensorStatus};

#[test]
fn stale_status_filter_matches_freshness() {
    let freshness = ReadingFreshness::Stale;
    let status = SensorStatus::Okay;
    assert!(SensorStatusFilter::Stale.matches(freshness, status));
    assert!(!SensorStatusFilter::Okay.matches(freshness, status));
}

#[test]
fn offline_status_filter_matches_freshness() {
    let freshness = ReadingFreshness::Offline;
    let status = SensorStatus::Okay;
    assert!(SensorStatusFilter::Offline.matches(freshness, status));
    assert!(!SensorStatusFilter::Unavailable.matches(freshness, status));
}

#[test]
fn delimiter_escaping_quotes_special_fields() {
    assert_eq!(escape_delimited("plain", ','), "plain");
    assert_eq!(escape_delimited("a,b", ','), "\"a,b\"");
    assert_eq!(escape_delimited("a\"b", ','), "\"a\"\"b\"");
}

#[test]
fn tabs_and_line_breaks_are_quoted() {
    assert_eq!(escape_delimited("a\tb", '\t'), "\"a\tb\"");
    assert_eq!(escape_delimited("a\tb", ','), "a\tb");
    assert_eq!(escape_delimited("two\nlines", ','), "\"two\nlines\"");
    assert_eq!(
        delimited_line(&["cpu:0".to_owned(), "CPU, main".to_owned(), "".to_owned()], ','),
        "cpu:0,\"CPU, main\","
    );
    assert_eq!(delimited_line(&[], ','), "");
}

#[test]
fn filters_select_readings() {
    assert!(SensorStatusFilter::Unavailable.matches(ReadingFreshness::Current, SensorStatus::Unavailable));
    assert!(SensorStatusFilter::Unavailable.matches(ReadingFreshness::Unavailable, SensorStatus::Okay));
    assert!(!SensorStatusFilter::Alarm.matches(ReadingFreshness::Stale, SensorStatus::Alarm));
    assert!(sensor_selected(
        Some(SensorKind::Fan),
        None,
        SensorKind::Fan,
        ReadingFreshness::Current,
        SensorStatus::Okay,
        false
    ));
    assert!(!sensor_selected(
        Some(SensorKind::Fan),
        None,
        SensorKind::Voltage,
        ReadingFreshness::Current,
        SensorStatus::Okay,
        false
    ));
    assert!(!sensor_selected(
        None,
        Some(SensorStatusFilter::Alarm),
        SensorKind::Voltage,
        ReadingFreshness::Current,
        SensorStatus::Alarm,
        true
    ));
    assert!(sensor_selected(
        None,
        Some(SensorStatusFilter::Alarm),
        SensorKind::Voltage,
        ReadingFreshness::Current,
        SensorStatus::Alarm,
        false
    ));
}

#[test]
fn device_queries_ignore_case() {
    assert_eq!(device_query(Some("  NVMe ")).as_deref(), Some("nvme"));
    assert_eq!(device_query(Some("   ")), None);
    assert_eq!(device_query(None), None);
    assert!(device_matches(Some("nvme"), "block:nvme0", "Disk"));
    assert!(device_matches(Some("samsung"), "block:sda", "Samsung SSD"));
    assert!(!device_matches(Some("intel"), "cpu:0", "AMD Ryzen"));
    assert!(device_matches(None, "cpu:0", "AMD Ryzen"));
}

#[test]
fn status_columns() {
    assert_eq!(
        status_name(ReadingFreshness::Stale, SensorStatus::Okay, false, Some("5s ago")),
        "Stale — last updated 5s ago"
    );
    assert_eq!(status_name(ReadingFreshness::Stale, SensorStatus::Okay, false, None), "Stale");
    assert_eq!(
        status_name(ReadingFreshness::Current, SensorStatus::Alarm, true, None),
        "Limits not configured"
    );
    assert_eq!(status_name(ReadingFreshness::Current, SensorStatus::Fault, false, None), "Fault");
    assert_eq!(status_key(ReadingFreshness::Current, SensorStatus::Okay, false), "ok");
    assert_eq!(
        status_key(ReadingFreshness::Current, SensorStatus::Alarm, true),
        "limits_not_configured"
    );
    assert_eq!(status_key(ReadingFreshness::Offline, SensorStatus::Alarm, false), "offline");
}

#[test]
fn truncation_and_padding() {
    assert_eq!(truncate("short", 10), "short");
    assert_eq!(truncate("exactly10!", 10), "exactly10!");
    assert_eq!(truncate("much too long", 5), "much…");
    assert_eq!(truncate("ab", 1), "…");
    assert_eq!(pad("ab", 4, true), "ab  ");
    assert_eq!(pad("ab", 4, false), "  ab");
    assert_eq!(pad("abcdef", 4, false), "abcdef");
    let header = table_header();
    assert_eq!(header.chars().count(), 22 + 34 + 18 + 18 + 22 + 8);
    assert!(header.starts_with("Device                  Sensor"));
    let row = table_row("CPU", "Package", "temperature", "42.0 °C", "OK");
    assert_eq!(row, format!("{:<22}  {:<34}  {:<18}  {:>18}  {:<22}", "CPU", "Package", "temperature", "42.0 °C", "OK"));
}
