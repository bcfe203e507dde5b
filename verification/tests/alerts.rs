use hwall::alerts::{
    sensor_key, AlertEngine, AlertInput, AlertPolicy, AlertSeverity, AlertState, SensorObservation, ThresholdHits,
};

const SECOND: u64 = 1000;

fn policy(duration_seconds: u64, cooldown_seconds: u64, desktop: bool, recovery: bool) -> AlertPolicy {
    AlertPolicy {
        duration_seconds,
        cooldown_seconds,
        desktop_notifications: desktop,
        recovery_notifications: recovery,
    }
}

/// The rule's defaults: 10 s duration, 600 s cooldown, notifications on.
fn default_policy() -> AlertPolicy {
    policy(10, 600, true, true)
}

fn hits(critical_hit: bool, warning_hit: bool, critical_retained: bool, warning_retained: bool) -> ThresholdHits {
    ThresholdHits { critical_hit, warning_hit, critical_retained, warning_retained }
}

/// A reading above `warning_above` (and the critical threshold when `critical`).
fn above(critical: bool) -> ThresholdHits {
    hits(critical, true, critical, true)
}

/// A reading below every threshold and outside every hysteresis band.
fn below() -> ThresholdHits {
    hits(false, false, false, false)
}

fn key() -> String {
    sensor_key("cpu:0", "temp:package")
}

fn input(policy: AlertPolicy, observation: SensorObservation) -> AlertInput {
    AlertInput {
        key: key(),
        device_name: "Processor".to_owned(),
        sensor_name: "Package".to_owned(),
        policy,
        observation,
        value: "85.0 °C".to_owned(),
    }
}

fn reading(policy: AlertPolicy, h: ThresholdHits) -> Vec<AlertInput> {
    vec![input(policy, SensorObservation::Reading(h))]
}

#[test]
fn duration_delays_active_transition() {
    let p = policy(10, 600, false, true);
    let rules = vec![key()];
    let mut engine = AlertEngine::new();
    engine.evaluate(&rules, &reading(p, above(false)), 0);
    assert_eq!(engine.state(&key()), AlertState::WarningPending);
    engine.evaluate(&rules, &reading(p, above(false)), 10 * SECOND);
    assert_eq!(engine.state(&key()), AlertState::Warning);
}

#[test]
fn recovery_is_reported_without_using_statistics() {
    let p = policy(0, 600, true, true);
    let rules = vec![key()];
    let mut engine = AlertEngine::new();
    let active = engine.evaluate(&rules, &reading(p, above(false)), 0);
    assert_eq!(active.len(), 1);
    assert!(!active[0].recovered);
    let recovered = engine.evaluate(&rules, &reading(p, below()), SECOND);
    assert_eq!(recovered.len(), 1);
    assert!(recovered[0].recovered);
    assert_eq!(recovered[0].severity, AlertSeverity::Normal);
    assert_eq!(engine.state(&key()), AlertState::Normal);
}

#[test]
fn suppressed_reactivation_does_not_emit_a_recovery_notice() {
    let p = policy(0, 60, true, true);
    let rules = vec![key()];
    let mut engine = AlertEngine::new();
    assert!(engine.evaluate(&rules, &reading(p, above(false)), 0)[0].notify);
    engine.evaluate(&rules, &reading(p, below()), SECOND);
    let reactivated = engine.evaluate(&rules, &reading(p, above(false)), 2 * SECOND);
    assert_eq!(reactivated.len(), 1);
    assert!(!reactivated[0].notify);
    let recovered = engine.evaluate(&rules, &reading(p, below()), 3 * SECOND);
    assert_eq!(recovered.len(), 1);
    assert!(!recovered[0].notify);
}

#[test]
fn critical_to_warning_is_a_recovery_transition() {
    let p = policy(0, 600, true, false);
    let rules = vec![key()];
    let mut engine = AlertEngine::new();
    engine.evaluate(&rules, &reading(p, above(true)), 0);
    let events = engine.evaluate(&rules, &reading(p, above(false)), SECOND);
    assert_eq!(engine.state(&key()), AlertState::Warning);
    assert_eq!(events.len(), 1);
    assert_eq!(events[0].severity, AlertSeverity::Warning);
    assert!(events[0].recovered);
    assert!(!events[0].notify);
}

#[test]
fn intermittent_readings_are_not_evaluated() {
    // An intermittent sensor cannot be alerted on, so it is not monitored.
    let p = policy(0, 600, true, true);
    let rules = vec![key()];
    let mut engine = AlertEngine::new();
    assert!(engine.evaluate(&rules, &[input(p, SensorObservation::Unmonitored)], 0).is_empty());
    assert_eq!(engine.state(&key()), AlertState::Normal);
}

#[test]
fn hysteresis_prevents_immediate_recovery() {
    // warning above 80 with a hysteresis of 3: 85, then 79 (still within the band), then 76.
    let p = policy(0, 600, false, true);
    let rules = vec![key()];
    let mut engine = AlertEngine::new();
    engine.evaluate(&rules, &reading(p, hits(false, true, false, true)), 0);
    assert_eq!(engine.state(&key()), AlertState::Warning);
    engine.evaluate(&rules, &reading(p, hits(false, false, false, true)), SECOND);
    assert_eq!(engine.state(&key()), AlertState::Warning);
    engine.evaluate(&rules, &reading(p, hits(false, false, false, false)), 2 * SECOND);
    assert_eq!(engine.state(&key()), AlertState::Normal);
}

#[test]
fn stale_reading_suspends_active_alert_until_fresh_data_returns() {
    let p = policy(0, 600, true, true);
    let rules = vec![key()];
    let mut engine = AlertEngine::new();
    engine.evaluate(&rules, &reading(p, above(false)), 0);
    assert_eq!(engine.state(&key()), AlertState::Warning);
    assert!(engine.evaluate(&rules, &[input(p, SensorObservation::Unreadable)], SECOND).is_empty());
    assert_eq!(engine.state(&key()), AlertState::Suspended);
    let recovered = engine.evaluate(&rules, &reading(p, below()), 2 * SECOND);
    assert_eq!(engine.state(&key()), AlertState::Normal);
    assert_eq!(recovered.len(), 1);
    assert!(recovered[0].recovered);
}

#[test]
fn missing_sensor_suspends_active_alert_without_recovery_event() {
    let p = policy(0, 600, true, true);
    let rules = vec![key()];
    let mut engine = AlertEngine::new();
    engine.evaluate(&rules, &reading(p, above(false)), 0);
    assert!(engine.evaluate(&rules, &[], SECOND).is_empty());
    assert_eq!(engine.state(&key()), AlertState::Suspended);
}

#[test]
fn default_duration_keeps_a_new_warning_pending() {
    let rules = vec![key()];
    let mut engine = AlertEngine::new();
    let events = engine.evaluate(&rules, &reading(default_policy(), above(false)), 0);
    assert!(events.is_empty());
    assert_eq!(engine.state(&key()), AlertState::WarningPending);
    engine.reset(&key());
    assert_eq!(engine.state(&key()), AlertState::Normal);
}
