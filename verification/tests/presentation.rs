use hwall::alerts::AlertState;
use hwall::model::{ReadingFreshness, SensorStatus};
use hwall::presentation::{dimmed, format_age_compact, sensor_status, status_color_allowed, EMPTY_VALUE};
use hwall::rows::{RowKind, SensorRow};

#[test]
fn status_text_follows_freshness_alerts_and_hardware() {
    let current = ReadingFreshness::Current;
    assert_eq!(
        sensor_status(current, None, SensorStatus::Okay, None, false, AlertState::Normal, false),
        "Normal"
    );
    assert_eq!(
        sensor_status(ReadingFreshness::Stale, Some("5s ago"), SensorStatus::Okay, None, false, AlertState::Suspended, false),
        "Stale — last updated 5s ago"
    );
    assert_eq!(
        sensor_status(ReadingFreshness::Offline, None, SensorStatus::Okay, None, false, AlertState::Suspended, false),
        "Offline"
    );
    assert_eq!(
        sensor_status(current, None, SensorStatus::Okay, None, false, AlertState::Normal, true),
        "Limits not configured"
    );
    assert_eq!(
        sensor_status(current, None, SensorStatus::Okay, None, true, AlertState::Critical, true),
        "Critical"
    );
    assert_eq!(
        sensor_status(current, None, SensorStatus::Alarm, Some("3 min ago"), true, AlertState::Critical, true),
        "Sampled 3 min ago"
    );
    assert_eq!(
        sensor_status(current, None, SensorStatus::Fault, None, true, AlertState::Critical, false),
        "Fault"
    );
    assert_eq!(
        sensor_status(current, None, SensorStatus::Alarm, None, false, AlertState::Critical, false),
        "Hardware alarm"
    );
    assert!(dimmed(ReadingFreshness::Stale));
    assert!(!dimmed(current));
    assert!(status_color_allowed(current, SensorStatus::Alarm));
    assert!(!status_color_allowed(current, SensorStatus::Fault));
    assert!(!status_color_allowed(ReadingFreshness::Unavailable, SensorStatus::Okay));
    assert_eq!(EMPTY_VALUE, "—");
}

#[test]
fn section_rows_have_no_values_and_search_their_text() {
    let row = SensorRow::section(
        "device:cpu:0".to_owned(),
        "cpu:0".to_owned(),
        RowKind::Device,
        0,
        "Ryzen".to_owned(),
        "AMD Ryzen 9".to_owned(),
        "3 sensors".to_owned(),
        true,
    );
    assert_eq!(row.hide_key, "device:cpu:0");
    assert_eq!(row.sensor_id, None);
    assert!(row.current.is_empty());
    assert!(!row.favorite);
    assert!(row.collapsed);
    assert!(row.matches_query("ryzen 9"));
    assert!(row.matches_query("3 sensors"));
    assert!(!row.matches_query("intel"));
}

#[test]
fn normal_status_is_explicit() {
    assert_eq!(
        sensor_status(ReadingFreshness::Current, None, SensorStatus::Okay, None, false, AlertState::Normal, false),
        "Normal"
    );
}

#[test]
fn stale_reading_is_dimmed_and_reports_last_update() {
    let status = sensor_status(
        ReadingFreshness::Stale,
        Some("56y ago"),
        SensorStatus::Okay,
        None,
        false,
        AlertState::Suspended,
        false,
    );
    assert!(dimmed(ReadingFreshness::Stale));
    assert!(status.starts_with("Stale — last updated "));
}

#[test]
fn unavailable_reading_is_dimmed() {
    assert!(dimmed(ReadingFreshness::Unavailable));
    assert_eq!(
        sensor_status(ReadingFreshness::Unavailable, None, SensorStatus::Okay, None, false, AlertState::Suspended, false),
        "Unavailable"
    );
}

#[test]
fn offline_reading_is_dimmed() {
    assert!(dimmed(ReadingFreshness::Offline));
    assert_eq!(
        sensor_status(ReadingFreshness::Offline, None, SensorStatus::Okay, None, false, AlertState::Suspended, false),
        "Offline"
    );
}

#[test]
fn unconfigured_hardware_alarm_is_informational() {
    assert_eq!(
        sensor_status(ReadingFreshness::Current, None, SensorStatus::Okay, None, false, AlertState::Normal, true),
        "Limits not configured"
    );
}

#[test]
fn user_alert_takes_precedence_over_hardware_alarm_note() {
    assert_eq!(
        sensor_status(ReadingFreshness::Current, None, SensorStatus::Okay, None, true, AlertState::Critical, true),
        "Critical"
    );
}

#[test]
fn reading_ages_are_compact() {
    assert_eq!(format_age_compact(1_000, 42_999), "41s ago");
    assert_eq!(format_age_compact(0, 60_000), "1 min ago");
    assert_eq!(format_age_compact(0, 3_599_999), "59 min ago");
    assert_eq!(format_age_compact(0, 7_200_000), "2 h ago");
    assert_eq!(format_age_compact(5_000, 1_000), "0s ago");
}
