use hwall::collect::storage_health::StorageDeviceFacts;
use hwall::collect::{supports_storage_health, CollectOptions, CollectionProfile};
use hwall::model::{DeviceClass, Identification, ReadingFreshness};
use hwall::model::CollectorId;
use hwall::monitor::{
    is_identifying_storage_property, monitor_start, monitor_step, MonitorEvent, MonitorState, PassKind,
    is_replaced_reading, plan_missing_readings, ReadingKey, RetainedReading,
    depends_on_libsensors, missing_freshness, releases_storage_claim, source_probes,
    storage_health_due, MonitorRequestResult, SourceProbe,
};

#[test]
fn default_collection_is_full_without_sensitive_data() {
    let options = CollectOptions::default();
    assert_eq!(options.profile, CollectionProfile::Full);
    assert!(options.allow_helper_commands);
    assert!(!options.include_sensitive);
    assert!(!options.include_storage_health);
}

#[test]
fn storage_health_support_follows_the_target_rules() {
    let facts = StorageDeviceFacts {
        id: "block:sda".to_owned(),
        class: DeviceClass::Storage,
        name: "Disk".to_owned(),
        model: None,
        driver: None,
        parent: None,
        bus_address: None,
        partition: Some(false),
        controller_name: None,
        rotational: Some(true),
    };
    assert!(supports_storage_health(&facts));
    let mut usb = facts.clone();
    usb.class = DeviceClass::Usb;
    assert!(!supports_storage_health(&usb));
}

#[test]
fn missing_readings_are_stale_or_unavailable() {
    assert_eq!(missing_freshness(true, false, false, true), ReadingFreshness::Stale);
    assert_eq!(missing_freshness(false, true, false, true), ReadingFreshness::Stale);
    assert_eq!(missing_freshness(false, false, true, true), ReadingFreshness::Stale);
    assert_eq!(missing_freshness(false, false, false, true), ReadingFreshness::Unavailable);
    assert_eq!(missing_freshness(false, false, false, false), ReadingFreshness::Stale);
    assert!(depends_on_libsensors(Identification::LibSensorsConfig, None));
    assert!(depends_on_libsensors(Identification::KernelLabel, Some("lm-sensors")));
    assert!(!depends_on_libsensors(Identification::KernelLabel, Some("other")));
}

#[test]
fn request_results_and_health_schedule() {
    assert!(!releases_storage_claim(MonitorRequestResult::Accepted));
    assert!(releases_storage_claim(MonitorRequestResult::Busy));
    assert!(releases_storage_claim(MonitorRequestResult::Disconnected));
    assert!(!storage_health_due(false, true, None, 10));
    assert!(storage_health_due(true, false, None, 10));
    assert!(storage_health_due(true, false, Some(10), 10));
    assert!(!storage_health_due(true, false, Some(9), 10));
    assert!(storage_health_due(true, true, Some(0), 10));
}

#[test]
fn sources_become_probes() {
    assert_eq!(
        source_probes("/sys/class/hwmon/hwmon0/temp1_input, /proc/stat, /sys/devices/system/cpu/cpu*/cpufreq (CPU 3)"),
        vec![
            SourceProbe::Path("/sys/class/hwmon/hwmon0/temp1_input".to_owned()),
            SourceProbe::Wildcard("/sys/devices/system/cpu/cpu".to_owned(), "/cpufreq".to_owned()),
        ]
    );
    assert!(source_probes("nvidia-smi").is_empty());
}


fn reading(device: &str, sensor: &str, collector: CollectorId) -> ReadingKey {
    ReadingKey {
        device_id: device.to_owned(),
        sensor_id: sensor.to_owned(),
        collector: Some(collector),
        intermittent: false,
        depends_on_libsensors: false,
        source_present: false,
        last_updated_unix_ms: None,
    }
}

#[test]
fn successful_omission_is_unavailable_until_full_rediscovery() {
    let previous = vec![reading("cpu:0", "cpu:0:temp", CollectorId::Hwmon)];
    let kept = plan_missing_readings(&previous, &[], &[], &[CollectorId::Hwmon], true, 1_000);
    assert_eq!(
        kept,
        vec![RetainedReading { reading: 0, freshness: ReadingFreshness::Unavailable, last_updated_unix_ms: 1_000 }]
    );
    let rediscovered = plan_missing_readings(&previous, &[], &[], &[CollectorId::Hwmon], false, 1_000);
    assert!(rediscovered.is_empty());
}

#[test]
fn failed_collector_keeps_last_value_as_stale() {
    let previous = vec![reading("pci:01:00.0", "pci:01:00.0:nvidia:temperature", CollectorId::NvidiaSmi)];
    let kept = plan_missing_readings(&previous, &[], &[CollectorId::NvidiaSmi], &[], true, 1_000);
    assert_eq!(kept.len(), 1);
    assert_eq!(kept[0].freshness, ReadingFreshness::Stale);
    assert_eq!(kept[0].last_updated_unix_ms, 1_000);
}

#[test]
fn failed_libsensors_enrichment_keeps_enriched_reading_stale() {
    let mut enriched = reading("cpu:0", "cpu:0:temp", CollectorId::Hwmon);
    enriched.depends_on_libsensors = true;
    // The degraded current reading was discarded, so the pass did not produce it.
    let kept = plan_missing_readings(
        &[enriched],
        &[],
        &[CollectorId::LibSensors],
        &[CollectorId::Hwmon],
        true,
        1_000,
    );
    assert_eq!(kept.len(), 1);
    assert_eq!(kept[0].freshness, ReadingFreshness::Stale);
}

#[test]
fn fresh_reading_replaces_stale_state() {
    let previous = vec![reading("cpu:0", "cpu:0:temp", CollectorId::NvidiaSmi)];
    let observed = vec![("cpu:0".to_owned(), "cpu:0:temp".to_owned())];
    let kept = plan_missing_readings(&previous, &observed, &[], &[CollectorId::NvidiaSmi], true, 1_000);
    assert!(kept.is_empty());
    assert!(!is_replaced_reading(&previous, &observed, &"cpu:0".to_owned(), &"cpu:0:temp".to_owned()));
}

#[test]
fn present_source_and_intermittent_readings() {
    let mut present = reading("cpu:0", "a", CollectorId::Hwmon);
    present.source_present = true;
    present.last_updated_unix_ms = Some(500);
    let mut sampled = reading("cpu:0", "b", CollectorId::Hwmon);
    sampled.intermittent = true;
    let mut unowned = reading("cpu:0", "c", CollectorId::Hwmon);
    unowned.collector = None;
    let previous = vec![present, sampled, unowned];
    let kept = plan_missing_readings(&previous, &[], &[], &[CollectorId::Hwmon], false, 1_000);
    assert_eq!(
        kept,
        vec![RetainedReading { reading: 0, freshness: ReadingFreshness::Stale, last_updated_unix_ms: 500 }]
    );
    assert!(is_replaced_reading(&previous, &[], &"cpu:0".to_owned(), &"a".to_owned()));
    assert!(!is_replaced_reading(&previous, &[], &"cpu:0".to_owned(), &"b".to_owned()));
}

fn monitor() -> MonitorState {
    monitor_start(0, 30_000, 1_800_000, true, true, false).0
}

#[test]
fn refreshes_run_fast_passes_until_rediscovery_is_due() {
    let (state, action) = monitor_step(&monitor(), MonitorEvent::Refresh { now_ms: 1_000, forced: false });
    assert_eq!(action.pass, Some(PassKind::Fast));
    assert!(action.keep_unavailable);
    assert!(action.send_update);
    // Health was never read, so the first refresh claims a job.
    assert!(action.find_health_targets);
    assert!(state.storage_busy);
    let (state, action) = monitor_step(&state, MonitorEvent::Refresh { now_ms: 30_000, forced: false });
    assert_eq!(action.pass, Some(PassKind::Full));
    assert!(!action.keep_unavailable);
    assert!(!action.find_health_targets);
    assert_eq!(state.last_discovery_ms, 30_000);
    let (_, action) = monitor_step(&state, MonitorEvent::Refresh { now_ms: 31_000, forced: true });
    assert_eq!(action.pass, Some(PassKind::Full));
}

#[test]
fn health_jobs_run_one_at_a_time_and_at_their_interval() {
    let (state, _) = monitor_step(&monitor(), MonitorEvent::Refresh { now_ms: 1_000, forced: false });
    let (state, action) = monitor_step(&state, MonitorEvent::HealthTargets { count: 2, requested: false });
    assert!(action.send_health_job);
    let (_, refused) = monitor_step(&state, MonitorEvent::HealthRequest);
    assert!(refused.refused);
    let (state, action) = monitor_step(&state, MonitorEvent::HealthResult { now_ms: 5_000, included_sensitive: true });
    assert!(!state.storage_busy);
    assert_eq!(state.last_health_ms, Some(5_000));
    // Identifying values were switched off, so they are stripped.
    assert!(action.strip_sensitive);
    let (_, action) = monitor_step(&state, MonitorEvent::Refresh { now_ms: 6_000, forced: false });
    assert!(!action.find_health_targets);
    let (_, action) = monitor_step(&state, MonitorEvent::Refresh { now_ms: 1_805_000, forced: false });
    assert!(action.find_health_targets);
}

#[test]
fn no_targets_release_the_claim() {
    let (state, _) = monitor_step(&monitor(), MonitorEvent::HealthRequest);
    assert!(state.storage_busy);
    let (state, action) = monitor_step(&state, MonitorEvent::HealthTargets { count: 0, requested: true });
    assert!(!state.storage_busy);
    assert!(action.send_update);
    assert!(!action.send_health_job);
}

#[test]
fn switching_identifying_values_rediscovers() {
    let (state, action) = monitor_step(&monitor(), MonitorEvent::SetSensitive { now_ms: 9, include_sensitive: false });
    assert_eq!(action.pass, Some(PassKind::Full));
    assert!(action.strip_sensitive);
    assert!(!state.include_sensitive);
    assert!(is_identifying_storage_property("serial"));
    assert!(is_identifying_storage_property("wwid"));
    assert!(!is_identifying_storage_property("model"));
}

#[test]
fn health_without_helpers_is_disabled_with_a_warning() {
    let (state, warning) = monitor_start(0, 30_000, 1_800_000, true, false, false);
    assert!(!state.storage_health_enabled);
    assert_eq!(warning, Some("Storage health requested, but helper commands were disabled."));
    let (_, action) = monitor_step(&state, MonitorEvent::Refresh { now_ms: 1, forced: true });
    assert!(!action.find_health_targets);
}
