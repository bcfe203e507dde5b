use hwall::collect::effective_clock::{
    counter_interval, descriptor_budget_allows_values, finish_sample, midpoint, parse_cpu_mask,
    plan_sample, aggregate_readings, AggregateCounts, ReadingSummary, CounterDeltas, CpuMaskError,
    CpuSampleState, GlobalCounterFailure, RetryPolicy,
    SampleOutcome, SamplePlan,
};
use hwall::collect::perf_event::PerfGroupReading;
use hwall::model::ReadingFreshness;

fn reading(aperf: u64, mperf: u64, enabled: u64, running: u64) -> PerfGroupReading {
    PerfGroupReading { first: aperf, second: mperf, time_enabled: enabled, time_running: running }
}

#[test]
fn parses_sparse_cpu_masks() {
    assert_eq!(parse_cpu_mask("0-3,8,16-17").unwrap(), vec![0, 1, 2, 3, 8, 16, 17]);
}

#[test]
fn rejects_unsafe_cpu_masks_without_expanding_them() {
    assert!(parse_cpu_mask("7-3").is_err());
    assert!(parse_cpu_mask("0-4294967295").is_err());
    assert!(parse_cpu_mask("0,,2").is_err());
}

#[test]
fn cpu_mask_errors_name_their_cause() {
    assert_eq!(parse_cpu_mask("7-3"), Err(CpuMaskError::ReversedRange));
    assert_eq!(parse_cpu_mask("0-4294967295"), Err(CpuMaskError::IdTooLarge));
    assert_eq!(parse_cpu_mask("0,,2"), Err(CpuMaskError::EmptyToken));
    assert_eq!(parse_cpu_mask("x"), Err(CpuMaskError::InvalidId));
    assert_eq!(parse_cpu_mask("0-8192"), Err(CpuMaskError::TooManyCpus));
    assert_eq!(parse_cpu_mask("0-8000,9000-9500"), Err(CpuMaskError::TooManyCpus));
    assert_eq!(parse_cpu_mask(" 5 , 1-2 ,2").unwrap(), vec![1, 2, 5]);
}

#[test]
fn reserves_descriptor_headroom_for_the_complete_cpu_set() {
    assert!(descriptor_budget_allows_values(1_024, 64, 16, 400));
    assert!(!descriptor_budget_allows_values(1_024, 64, 16, 450));
}

#[test]
fn existing_effective_descriptors_are_not_counted_twice() {
    assert!(descriptor_budget_allows_values(1_024, 800, 400, 448));
}

#[test]
fn recovery_wait_states_preserve_their_freshness() {
    assert_eq!(RetryPolicy::StaleUntilFullDiscovery.waiting_freshness(), Some(ReadingFreshness::Stale));
    assert_eq!(
        RetryPolicy::UnavailableUntilFullDiscovery.waiting_freshness(),
        Some(ReadingFreshness::Unavailable)
    );
    assert_eq!(RetryPolicy::RecoveryNextSample.waiting_freshness(), None);
    assert_eq!(
        RetryPolicy::StaleUntilFullDiscovery.after_full_discovery(),
        RetryPolicy::RecoveryNextSample
    );
    assert_eq!(
        RetryPolicy::UnavailableUntilFullDiscovery.after_full_discovery(),
        RetryPolicy::NextSample
    );
}

#[test]
fn midpoint_tracks_each_individual_counter_read() {
    let before: u128 = 1_000_000_000;
    let after = before + 10_000_000;
    assert_eq!(midpoint(before, after), before + 5_000_000);
    assert_eq!(midpoint(after, before), after);
}

#[test]
fn counter_intervals_reject_regressions_and_asymmetry() {
    assert_eq!(
        counter_interval(reading(100, 100, 1_000, 1_000), reading(41_251_285, 56_984_122, 1_001_000, 1_001_000), 1_000_000_000),
        Some(CounterDeltas { aperf: 41_251_185, mperf: 56_984_022, enabled: 1_000_000, running: 1_000_000 })
    );
    assert_eq!(counter_interval(reading(100, 100, 100, 100), reading(99, 101, 200, 200), 1_000_000_000), None);
    assert_eq!(counter_interval(reading(100, 100, 100, 100), reading(100, 101, 200, 200), 1_000_000_000), None);
    assert_eq!(counter_interval(reading(10, 10, 10, 10), reading(10, 10, 20, 20), 1_000_000_000).is_some(), true);
    assert_eq!(counter_interval(reading(0, 0, 0, 0), reading(1, 1, 10, 20), 1), None);
    assert_eq!(counter_interval(reading(0, 0, 0, 0), reading(1, 1, 1, 1), 0), None);
    assert_eq!(counter_interval(reading(0, 0, 0, 0), reading(1, 1, 1, 1), 300_000_000_001), None);
}

#[test]
fn sampling_state_machine_follows_failures_and_recovery() {
    let fresh = CpuSampleState { has_group: false, has_previous: false, has_last_value: false, retry: RetryPolicy::NextSample };
    assert_eq!(plan_sample(fresh, true), (fresh, SamplePlan::OpenAndRead));
    let (offline, plan) = plan_sample(CpuSampleState { has_group: true, ..fresh }, false);
    assert_eq!(plan, SamplePlan::Report(ReadingFreshness::Offline));
    assert!(!offline.has_group);
    let (s1, f1) = finish_sample(fresh, SampleOutcome::Baseline);
    assert_eq!(f1, Ok(ReadingFreshness::Unavailable));
    assert_eq!(plan_sample(s1, true).1, SamplePlan::Read);
    let (s2, f2) = finish_sample(s1, SampleOutcome::Measured);
    assert_eq!(f2, Ok(ReadingFreshness::Current));
    let (s3, f3) = finish_sample(s2, SampleOutcome::ReadFailed);
    assert_eq!(f3, Ok(ReadingFreshness::Stale));
    assert_eq!(s3.retry, RetryPolicy::RecoveryNextSample);
    let (s4, f4) = finish_sample(s3, SampleOutcome::OpenFailed);
    assert_eq!(f4, Ok(ReadingFreshness::Stale));
    assert_eq!(s4.retry, RetryPolicy::StaleUntilFullDiscovery);
    assert_eq!(plan_sample(s4, true).1, SamplePlan::Report(ReadingFreshness::Stale));
    assert_eq!(finish_sample(s4, SampleOutcome::OpenFailedGlobally).1, Err(GlobalCounterFailure));
}

#[test]
fn package_aggregate_counts_offline_cpus_and_marks_gaps_stale() {
    let current = ReadingSummary { freshness: ReadingFreshness::Current, has_value: true };
    let offline = ReadingSummary { freshness: ReadingFreshness::Offline, has_value: true };
    let stale = ReadingSummary { freshness: ReadingFreshness::Stale, has_value: true };
    let unavailable = ReadingSummary { freshness: ReadingFreshness::Unavailable, has_value: false };

    let all = aggregate_readings(&[current, offline, current]);
    assert_eq!(all, AggregateCounts { freshness: ReadingFreshness::Current, measured: 2, included: 3 });

    let gap = aggregate_readings(&[current, unavailable]);
    assert_eq!(gap, AggregateCounts { freshness: ReadingFreshness::Stale, measured: 1, included: 1 });

    let only_stale = aggregate_readings(&[stale, unavailable]);
    assert_eq!(only_stale, AggregateCounts { freshness: ReadingFreshness::Stale, measured: 0, included: 0 });

    let nothing = aggregate_readings(&[unavailable]);
    assert_eq!(nothing, AggregateCounts { freshness: ReadingFreshness::Unavailable, measured: 0, included: 0 });

    let empty = aggregate_readings(&[]);
    assert_eq!(empty, AggregateCounts { freshness: ReadingFreshness::Unavailable, measured: 0, included: 0 });
}

/// The package average as the aggregate defines it: the sum of the measured
/// values over the CPUs that take part.
fn package_average(readings: &[(Option<f64>, ReadingFreshness)]) -> (Option<f64>, AggregateCounts) {
    let summaries: Vec<ReadingSummary> = readings
        .iter()
        .map(|(value, freshness)| ReadingSummary { freshness: *freshness, has_value: value.is_some() })
        .collect();
    let counts = aggregate_readings(&summaries);
    let sum: f64 = readings
        .iter()
        .filter(|(value, freshness)| *freshness == ReadingFreshness::Current && value.is_some())
        .map(|(value, _)| value.unwrap_or(0.0))
        .sum();
    let value = if counts.included > 0 { Some(sum / counts.included as f64) } else { None };
    (value, counts)
}

#[test]
fn offline_cpus_are_zero_and_count_toward_the_average() {
    let (value, counts) = package_average(&[
        (Some(2_000_000_000.0), ReadingFreshness::Current),
        (Some(0.0), ReadingFreshness::Offline),
    ]);
    assert_eq!(value, Some(1_000_000_000.0));
    assert_eq!(counts, AggregateCounts { freshness: ReadingFreshness::Current, measured: 1, included: 2 });
}

#[test]
fn partial_average_excludes_unknown_cpus_and_is_stale() {
    let (value, counts) = package_average(&[
        (Some(2_000_000_000.0), ReadingFreshness::Current),
        (Some(0.0), ReadingFreshness::Offline),
        (Some(4_000_000_000.0), ReadingFreshness::Unavailable),
    ]);
    assert_eq!(value, Some(1_000_000_000.0));
    assert_eq!(counts, AggregateCounts { freshness: ReadingFreshness::Stale, measured: 1, included: 2 });
}

#[test]
fn all_offline_cpus_produce_a_current_zero_average() {
    let (value, counts) = package_average(&[
        (Some(0.0), ReadingFreshness::Offline),
        (Some(0.0), ReadingFreshness::Offline),
    ]);
    assert_eq!(value, Some(0.0));
    assert_eq!(counts, AggregateCounts { freshness: ReadingFreshness::Current, measured: 0, included: 2 });
}
