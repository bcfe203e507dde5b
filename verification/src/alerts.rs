//! Per-sensor alert policy: severities, the pending/active/suspended state
//! machine with duration, hysteresis and cooldown, and the alert engine.
//!
//! Threshold comparisons themselves are made on floating-point readings by
//! the caller, which hands the engine the outcome of each comparison as
//! [`ThresholdHits`].  Times are milliseconds on a monotonic clock.
use crate::model::{SensorKind, Unit};
use crate::text::{append_str, char_is_hex_digit, chars_of, is_hex_digit, string_of};
use vstd::prelude::*;

verus! {

#[derive(Debug, Clone, Copy, PartialEq, Eq, Structural)]
pub enum AlertSeverity {
    Normal,
    Warning,
    Critical,
}

impl Default for AlertSeverity {
    fn default() -> (r: Self)
        ensures
            r == AlertSeverity::Normal,
    {
        AlertSeverity::Normal
    }
}

/// The order of severities: `Normal < Warning < Critical`.
pub open spec fn rank(s: AlertSeverity) -> nat {
    match s {
        AlertSeverity::Normal => 0,
        AlertSeverity::Warning => 1,
        AlertSeverity::Critical => 2,
    }
}

pub fn severity_rank(s: AlertSeverity) -> (r: u8)
    ensures
        r == rank(s),
{
    match s {
        AlertSeverity::Normal => 0,
        AlertSeverity::Warning => 1,
        AlertSeverity::Critical => 2,
    }
}

#[derive(Debug, Clone, Copy, PartialEq, Eq, Structural)]
pub enum AlertState {
    Normal,
    WarningPending,
    CriticalPending,
    Warning,
    Critical,
    Suspended,
}

impl Default for AlertState {
    fn default() -> (r: Self)
        ensures
            r == AlertState::Normal,
    {
        AlertState::Normal
    }
}

pub open spec fn state_severity(s: AlertState) -> AlertSeverity {
    match s {
        AlertState::Normal => AlertSeverity::Normal,
        AlertState::WarningPending | AlertState::Warning => AlertSeverity::Warning,
        AlertState::CriticalPending | AlertState::Critical => AlertSeverity::Critical,
        AlertState::Suspended => AlertSeverity::Normal,
    }
}

pub open spec fn state_label(s: AlertState) -> Seq<char> {
    match s {
        AlertState::Normal => "Normal"@,
        AlertState::WarningPending => "Warning pending"@,
        AlertState::CriticalPending => "Critical pending"@,
        AlertState::Warning => "Warning"@,
        AlertState::Critical => "Critical"@,
        AlertState::Suspended => "Suspended"@,
    }
}

impl AlertState {
    pub fn severity(self) -> (r: AlertSeverity)
        ensures
            r == state_severity(self),
    {
        match self {
            AlertState::Normal => AlertSeverity::Normal,
            AlertState::WarningPending | AlertState::Warning => AlertSeverity::Warning,
            AlertState::CriticalPending | AlertState::Critical => AlertSeverity::Critical,
            AlertState::Suspended => AlertSeverity::Normal,
        }
    }

    pub fn label(self) -> (r: &'static str)
        ensures
            r@ == state_label(self),
    {
        match self {
            AlertState::Normal => "Normal",
            AlertState::WarningPending => "Warning pending",
            AlertState::CriticalPending => "Critical pending",
            AlertState::Warning => "Warning",
            AlertState::Critical => "Critical",
            AlertState::Suspended => "Suspended",
        }
    }
}

/// The outcome of comparing one finite reading with a rule's thresholds.
///
/// `critical_hit`/`warning_hit`: the value is at or beyond a critical or
/// warning threshold.  `critical_retained`/`warning_retained`: the value is
/// still within the hysteresis band of that threshold.
#[derive(Debug, Clone, Copy, PartialEq, Eq)]
pub struct ThresholdHits {
    pub critical_hit: bool,
    pub warning_hit: bool,
    pub critical_retained: bool,
    pub warning_retained: bool,
}

/// The severity a single reading measures.
pub open spec fn measured(h: ThresholdHits) -> AlertSeverity {
    if h.critical_hit {
        AlertSeverity::Critical
    } else if h.warning_hit {
        AlertSeverity::Warning
    } else {
        AlertSeverity::Normal
    }
}

/// The severity an active alert keeps while the reading is within hysteresis.
pub open spec fn retained(h: ThresholdHits, active: AlertSeverity) -> AlertSeverity {
    match active {
        AlertSeverity::Critical => if h.critical_retained {
            AlertSeverity::Critical
        } else if h.warning_retained {
            AlertSeverity::Warning
        } else {
            AlertSeverity::Normal
        },
        AlertSeverity::Warning => if h.warning_retained {
            AlertSeverity::Warning
        } else {
            AlertSeverity::Normal
        },
        AlertSeverity::Normal => AlertSeverity::Normal,
    }
}

pub fn severity_for_hits(h: &ThresholdHits) -> (r: AlertSeverity)
    ensures
        r == measured(*h),
{
    if h.critical_hit {
        AlertSeverity::Critical
    } else if h.warning_hit {
        AlertSeverity::Warning
    } else {
        AlertSeverity::Normal
    }
}

pub fn retained_severity(h: &ThresholdHits, active: AlertSeverity) -> (r: AlertSeverity)
    ensures
        r == retained(*h, active),
        rank(r) <= rank(active),
{
    match active {
        AlertSeverity::Critical => {
            if h.critical_retained {
                AlertSeverity::Critical
            } else if h.warning_retained {
                AlertSeverity::Warning
            } else {
                AlertSeverity::Normal
            }
        },
        AlertSeverity::Warning => {
            if h.warning_retained {
                AlertSeverity::Warning
            } else {
                AlertSeverity::Normal
            }
        },
        AlertSeverity::Normal => AlertSeverity::Normal,
    }
}

/// The timing and notification settings of a rule.
#[derive(Debug, Clone, Copy, PartialEq, Eq)]
pub struct AlertPolicy {
    pub duration_seconds: u64,
    pub cooldown_seconds: u64,
    pub desktop_notifications: bool,
    pub recovery_notifications: bool,
}

/// A severity waiting for its duration to elapse.
#[derive(Debug, Clone, Copy)]
pub struct Candidate {
    pub severity: AlertSeverity,
    pub since_ms: u64,
}

/// The alert state of one sensor.
#[derive(Debug, Clone, Copy)]
pub struct RuntimeAlert {
    pub active: AlertSeverity,
    pub candidate: Option<Candidate>,
    pub suspended: bool,
    pub last_notification: Option<(u64, AlertSeverity)>,
    pub episode_notified: bool,
}

pub open spec fn fresh_runtime() -> RuntimeAlert {
    RuntimeAlert {
        active: AlertSeverity::Normal,
        candidate: None,
        suspended: false,
        last_notification: None,
        episode_notified: false,
    }
}

/// Whole seconds elapsed from `since` to `now` (zero when `now` is earlier).
pub open spec fn elapsed_seconds(now: u64, since: u64) -> nat {
    if now >= since {
        ((now - since) / 1000) as nat
    } else {
        0
    }
}

/// A new severity may notify when it is higher than the last notified one
/// or when the cooldown has elapsed.
pub open spec fn notification_allowed(rt: RuntimeAlert, severity: AlertSeverity, policy: AlertPolicy, now: u64) -> bool {
    match rt.last_notification {
        None => true,
        Some(last) => rank(severity) > rank(last.1) || elapsed_seconds(now, last.0)
            >= policy.cooldown_seconds,
    }
}

/// The state after a reading, before notification bookkeeping.
pub open spec fn transition(rt: RuntimeAlert, h: ThresholdHits, policy: AlertPolicy, now: u64) -> RuntimeAlert {
    let m = measured(h);
    let rt = RuntimeAlert { suspended: false, ..rt };
    if rank(m) > rank(rt.active) {
        let cand = match rt.candidate {
            Some(c) => if c.severity == m {
                c
            } else {
                Candidate { severity: m, since_ms: now }
            },
            None => Candidate { severity: m, since_ms: now },
        };
        if policy.duration_seconds == 0 || elapsed_seconds(now, cand.since_ms) >= policy.duration_seconds {
            RuntimeAlert { active: m, candidate: None, ..rt }
        } else {
            RuntimeAlert { candidate: Some(cand), ..rt }
        }
    } else if rank(m) < rank(rt.active) {
        RuntimeAlert { active: retained(h, rt.active), candidate: None, ..rt }
    } else {
        RuntimeAlert { candidate: None, ..rt }
    }
}

/// An event as `(severity, recovered, notify)`.
pub type EventKind = (AlertSeverity, bool, bool);

/// One reading of a monitored sensor: the new state, and the event when the
/// active severity changed.
pub open spec fn step(rt: RuntimeAlert, h: ThresholdHits, policy: AlertPolicy, now: u64) -> (RuntimeAlert, Option<EventKind>) {
    let t = transition(rt, h, policy, now);
    if t.active == rt.active {
        (t, None)
    } else {
        let deescalated = rank(t.active) < rank(rt.active);
        let notify = if deescalated {
            policy.desktop_notifications && policy.recovery_notifications && t.episode_notified
        } else {
            policy.desktop_notifications && notification_allowed(t, t.active, policy, now)
        };
        let t2 = if t.active == AlertSeverity::Normal {
            RuntimeAlert { episode_notified: false, ..t }
        } else if notify {
            RuntimeAlert { last_notification: Some((now, t.active)), episode_notified: true, ..t }
        } else {
            t
        };
        (t2, Some((t2.active, deescalated, notify)))
    }
}

/// A sensor whose reading cannot be evaluated keeps its severity but waits.
pub open spec fn suspend(rt: RuntimeAlert) -> RuntimeAlert {
    RuntimeAlert { candidate: None, suspended: true, ..rt }
}

/// The state shown for a sensor.
pub open spec fn runtime_state(rt: RuntimeAlert) -> AlertState {
    if rt.suspended {
        AlertState::Suspended
    } else {
        match rt.candidate {
            Some(c) => if c.severity == AlertSeverity::Critical {
                AlertState::CriticalPending
            } else if c.severity == AlertSeverity::Warning && rt.active == AlertSeverity::Normal {
                AlertState::WarningPending
            } else {
                active_state(rt.active)
            },
            None => active_state(rt.active),
        }
    }
}

pub open spec fn active_state(s: AlertSeverity) -> AlertState {
    match s {
        AlertSeverity::Normal => AlertState::Normal,
        AlertSeverity::Warning => AlertState::Warning,
        AlertSeverity::Critical => AlertState::Critical,
    }
}

fn elapsed_seconds_exec(now: u64, since: u64) -> (r: u64)
    ensures
        r == elapsed_seconds(now, since),
{
    if now >= since {
        (now - since) / 1000
    } else {
        0
    }
}

fn notification_allowed_exec(rt: &RuntimeAlert, severity: AlertSeverity, policy: &AlertPolicy, now: u64) -> (r: bool)
    ensures
        r == notification_allowed(*rt, severity, *policy, now),
{
    match rt.last_notification {
        None => true,
        Some((last, last_severity)) => severity_rank(severity) > severity_rank(last_severity)
            || elapsed_seconds_exec(now, last) >= policy.cooldown_seconds,
    }
}

/// Applies one reading to a sensor's alert state; returns the event when the
/// active severity changed.
pub fn apply_reading(rt: &mut RuntimeAlert, h: &ThresholdHits, policy: &AlertPolicy, now: u64) -> (r: Option<EventKind>)
    ensures
        (*final(rt), r) == step(*old(rt), *h, *policy, now),
{
    let previous = rt.active;
    rt.suspended = false;
    let m = severity_for_hits(h);
    if severity_rank(m) > severity_rank(rt.active) {
        let cand = match rt.candidate {
            Some(c) => if c.severity == m {
                c
            } else {
                Candidate { severity: m, since_ms: now }
            },
            None => Candidate { severity: m, since_ms: now },
        };
        if policy.duration_seconds == 0 || elapsed_seconds_exec(now, cand.since_ms) >= policy.duration_seconds {
            rt.active = m;
            rt.candidate = None;
        } else {
            rt.candidate = Some(cand);
        }
    } else if severity_rank(m) < severity_rank(rt.active) {
        rt.active = retained_severity(h, rt.active);
        rt.candidate = None;
    } else {
        rt.candidate = None;
    }
    if rt.active == previous {
        return None;
    }
    let deescalated = severity_rank(rt.active) < severity_rank(previous);
    let notify = if deescalated {
        policy.desktop_notifications && policy.recovery_notifications && rt.episode_notified
    } else {
        policy.desktop_notifications && notification_allowed_exec(rt, rt.active, policy, now)
    };
    if rt.active == AlertSeverity::Normal {
        rt.episode_notified = false;
    } else if notify {
        rt.last_notification = Some((now, rt.active));
        rt.episode_notified = true;
    }
    Some((rt.active, deescalated, notify))
}

// ---------------------------------------------------------------------------
// The engine: alert states keyed by sensor key
// ---------------------------------------------------------------------------
/// The abstract engine: `(sensor key, state)` pairs in insertion order.
pub type EngineView = Seq<(Seq<char>, RuntimeAlert)>;

pub open spec fn has_key(v: EngineView, k: Seq<char>) -> bool
    decreases v.len(),
{
    v.len() > 0 && (v.last().0 == k || has_key(v.drop_last(), k))
}

/// No key occurs twice.
pub open spec fn unique(v: EngineView) -> bool
    decreases v.len(),
{
    v.len() == 0 || (unique(v.drop_last()) && !has_key(v.drop_last(), v.last().0))
}

pub open spec fn lookup(v: EngineView, k: Seq<char>) -> Option<RuntimeAlert>
    decreases v.len(),
{
    if v.len() == 0 {
        None
    } else if v.last().0 == k {
        Some(v.last().1)
    } else {
        lookup(v.drop_last(), k)
    }
}

pub open spec fn key_index(v: EngineView, k: Seq<char>) -> Option<int>
    decreases v.len(),
{
    if v.len() == 0 {
        None
    } else if v.last().0 == k {
        Some(v.len() - 1)
    } else {
        key_index(v.drop_last(), k)
    }
}

/// The state shown for a key.
pub open spec fn state_of(v: EngineView, k: Seq<char>) -> AlertState {
    match lookup(v, k) {
        Some(rt) => runtime_state(rt),
        None => AlertState::Normal,
    }
}

pub open spec fn runtime_or_fresh(v: EngineView, k: Seq<char>) -> RuntimeAlert {
    match lookup(v, k) {
        Some(rt) => rt,
        None => fresh_runtime(),
    }
}

pub open spec fn remove_key(v: EngineView, k: Seq<char>) -> EngineView
    decreases v.len(),
{
    if v.len() == 0 {
        v
    } else if v.last().0 == k {
        remove_key(v.drop_last(), k)
    } else {
        remove_key(v.drop_last(), k).push(v.last())
    }
}

pub open spec fn retain_keys(v: EngineView, keys: Seq<Seq<char>>) -> EngineView
    decreases v.len(),
{
    if v.len() == 0 {
        v
    } else if keys.contains(v.last().0) {
        retain_keys(v.drop_last(), keys).push(v.last())
    } else {
        retain_keys(v.drop_last(), keys)
    }
}

pub open spec fn upsert(v: EngineView, k: Seq<char>, rt: RuntimeAlert) -> EngineView {
    match key_index(v, k) {
        Some(i) => v.update(i, (k, rt)),
        None => v.push((k, rt)),
    }
}

pub open spec fn suspend_unseen(v: EngineView, seen: Seq<Seq<char>>) -> EngineView {
    v.map_values(
        |e: (Seq<char>, RuntimeAlert)|
            if seen.contains(e.0) {
                e
            } else {
                (e.0, suspend(e.1))
            },
    )
}

proof fn lemma_key_index(v: EngineView, k: Seq<char>)
    ensures
        key_index(v, k) matches Some(i) ==> 0 <= i < v.len() && v[i].0 == k && lookup(v, k) == Some(
            v[i].1,
        ) && has_key(v, k),
        key_index(v, k) is None ==> lookup(v, k) is None && !has_key(v, k),
        lookup(v, k) is Some <==> has_key(v, k),
    decreases v.len(),
{
    if v.len() > 0 && v.last().0 != k {
        lemma_key_index(v.drop_last(), k);
        if let Some(i) = key_index(v.drop_last(), k) {
            assert(v.drop_last()[i] == v[i]);
        }
    }
}

/// In an engine with one entry per key, each entry is the one its key finds.
pub proof fn law_entry_is_found_by_its_key(v: EngineView, i: int)
    requires
        unique(v),
        0 <= i < v.len(),
    ensures
        key_index(v, v[i].0) == Some(i),
        has_key(v, v[i].0),
        state_of(v, v[i].0) == runtime_state(v[i].1),
    decreases v.len(),
{
    if i < v.len() - 1 {
        let d = v.drop_last();
        law_entry_is_found_by_its_key(d, i);
        assert(d[i] == v[i]);
        if v.last().0 == v[i].0 {
            assert(has_key(d, v.last().0));
            assert(false);
        }
    }
    lemma_key_index(v, v[i].0);
}

proof fn lemma_update_at_key_x(v: EngineView, k: Seq<char>, rt: RuntimeAlert, i: int, x: Seq<char>)
    requires
        key_index(v, k) == Some(i),
    ensures
        has_key(v.update(i, (k, rt)), x) == has_key(v, x),
        x == k ==> lookup(v.update(i, (k, rt)), x) == Some(rt),
        x != k ==> lookup(v.update(i, (k, rt)), x) == lookup(v, x),
    decreases v.len(),
{
    lemma_key_index(v, k);
    let u = v.update(i, (k, rt));
    if i == v.len() - 1 {
        assert(u.drop_last() =~= v.drop_last());
        if x == k {
            lemma_key_index(v.drop_last(), k);
        }
    } else {
        assert(u.drop_last() =~= v.drop_last().update(i, (k, rt)));
        lemma_update_at_key_x(v.drop_last(), k, rt, i, x);
    }
}

proof fn lemma_update_at_key_unique(v: EngineView, k: Seq<char>, rt: RuntimeAlert, i: int)
    requires
        key_index(v, k) == Some(i),
        unique(v),
    ensures
        unique(v.update(i, (k, rt))),
    decreases v.len(),
{
    lemma_key_index(v, k);
    let u = v.update(i, (k, rt));
    if i == v.len() - 1 {
        assert(u.drop_last() =~= v.drop_last());
    } else {
        assert(u.drop_last() =~= v.drop_last().update(i, (k, rt)));
        lemma_update_at_key_unique(v.drop_last(), k, rt, i);
        lemma_update_at_key_x(v.drop_last(), k, rt, i, v.last().0);
    }
}

proof fn lemma_upsert(v: EngineView, k: Seq<char>, rt: RuntimeAlert)
    ensures
        forall|x: Seq<char>| has_key(upsert(v, k, rt), x) == (has_key(v, x) || x == k),
        lookup(upsert(v, k, rt), k) == Some(rt),
        forall|x: Seq<char>| x != k ==> lookup(upsert(v, k, rt), x) == lookup(v, x),
        unique(v) ==> unique(upsert(v, k, rt)),
{
    lemma_key_index(v, k);
    match key_index(v, k) {
        Some(i) => {
            assert forall|x: Seq<char>| has_key(upsert(v, k, rt), x) == (has_key(v, x) || x == k) by {
                lemma_update_at_key_x(v, k, rt, i, x);
            }
            assert forall|x: Seq<char>| x != k implies lookup(upsert(v, k, rt), x) == lookup(v, x) by {
                lemma_update_at_key_x(v, k, rt, i, x);
            }
            lemma_update_at_key_x(v, k, rt, i, k);
            if unique(v) {
                lemma_update_at_key_unique(v, k, rt, i);
            }
        },
        None => {
            assert(v.push((k, rt)).drop_last() =~= v);
        },
    }
}

proof fn lemma_remove_key_x(v: EngineView, k: Seq<char>, x: Seq<char>)
    ensures
        has_key(remove_key(v, k), x) == (has_key(v, x) && x != k),
        x != k ==> lookup(remove_key(v, k), x) == lookup(v, x),
        x == k ==> lookup(remove_key(v, k), x) is None,
    decreases v.len(),
{
    if v.len() > 0 {
        lemma_remove_key_x(v.drop_last(), k, x);
        if v.last().0 != k {
            assert(remove_key(v.drop_last(), k).push(v.last()).drop_last() =~= remove_key(
                v.drop_last(),
                k,
            ));
        }
    }
}

proof fn lemma_remove_key(v: EngineView, k: Seq<char>)
    ensures
        forall|x: Seq<char>| has_key(remove_key(v, k), x) == (has_key(v, x) && x != k),
        forall|x: Seq<char>| x != k ==> lookup(remove_key(v, k), x) == lookup(v, x),
        lookup(remove_key(v, k), k) is None,
        unique(v) ==> unique(remove_key(v, k)),
    decreases v.len(),
{
    assert forall|x: Seq<char>| has_key(remove_key(v, k), x) == (has_key(v, x) && x != k) by {
        lemma_remove_key_x(v, k, x);
    }
    assert forall|x: Seq<char>| x != k implies lookup(remove_key(v, k), x) == lookup(v, x) by {
        lemma_remove_key_x(v, k, x);
    }
    lemma_remove_key_x(v, k, k);
    if v.len() > 0 {
        lemma_remove_key(v.drop_last(), k);
        lemma_remove_key_x(v.drop_last(), k, v.last().0);
        if v.last().0 != k {
            assert(remove_key(v.drop_last(), k).push(v.last()).drop_last() =~= remove_key(
                v.drop_last(),
                k,
            ));
        }
    }
}

proof fn lemma_retain_keys_x(v: EngineView, keys: Seq<Seq<char>>, x: Seq<char>)
    ensures
        has_key(retain_keys(v, keys), x) == (has_key(v, x) && keys.contains(x)),
        keys.contains(x) ==> lookup(retain_keys(v, keys), x) == lookup(v, x),
    decreases v.len(),
{
    if v.len() > 0 {
        lemma_retain_keys_x(v.drop_last(), keys, x);
        if keys.contains(v.last().0) {
            assert(retain_keys(v.drop_last(), keys).push(v.last()).drop_last() =~= retain_keys(
                v.drop_last(),
                keys,
            ));
        }
    }
}

proof fn lemma_retain_keys(v: EngineView, keys: Seq<Seq<char>>)
    ensures
        forall|x: Seq<char>| has_key(retain_keys(v, keys), x) == (has_key(v, x) && keys.contains(x)),
        forall|x: Seq<char>| keys.contains(x) ==> lookup(retain_keys(v, keys), x) == lookup(v, x),
        unique(v) ==> unique(retain_keys(v, keys)),
    decreases v.len(),
{
    assert forall|x: Seq<char>| has_key(retain_keys(v, keys), x) == (has_key(v, x) && keys.contains(x)) by {
        lemma_retain_keys_x(v, keys, x);
    }
    assert forall|x: Seq<char>| keys.contains(x) implies lookup(retain_keys(v, keys), x) == lookup(v, x) by {
        lemma_retain_keys_x(v, keys, x);
    }
    if v.len() > 0 {
        lemma_retain_keys(v.drop_last(), keys);
        lemma_retain_keys_x(v.drop_last(), keys, v.last().0);
        if keys.contains(v.last().0) {
            assert(retain_keys(v.drop_last(), keys).push(v.last()).drop_last() =~= retain_keys(
                v.drop_last(),
                keys,
            ));
        }
    }
}

proof fn lemma_suspend_unseen_x(v: EngineView, seen: Seq<Seq<char>>, x: Seq<char>)
    ensures
        has_key(suspend_unseen(v, seen), x) == has_key(v, x),
        lookup(suspend_unseen(v, seen), x) == (match lookup(v, x) {
            Some(rt) => Some(
                if seen.contains(x) {
                    rt
                } else {
                    suspend(rt)
                },
            ),
            None => None,
        }),
    decreases v.len(),
{
    if v.len() > 0 {
        lemma_suspend_unseen_x(v.drop_last(), seen, x);
        assert(suspend_unseen(v, seen).drop_last() =~= suspend_unseen(v.drop_last(), seen));
    }
}

proof fn lemma_suspend_unseen(v: EngineView, seen: Seq<Seq<char>>)
    ensures
        forall|x: Seq<char>| has_key(suspend_unseen(v, seen), x) == has_key(v, x),
        forall|x: Seq<char>|
            lookup(suspend_unseen(v, seen), x) == (match lookup(v, x) {
                Some(rt) => Some(
                    if seen.contains(x) {
                        rt
                    } else {
                        suspend(rt)
                    },
                ),
                None => None,
            }),
        unique(v) ==> unique(suspend_unseen(v, seen)),
    decreases v.len(),
{
    assert forall|x: Seq<char>| has_key(suspend_unseen(v, seen), x) == has_key(v, x) by {
        lemma_suspend_unseen_x(v, seen, x);
    }
    assert forall|x: Seq<char>|
        lookup(suspend_unseen(v, seen), x) == (match lookup(v, x) {
            Some(rt) => Some(
                if seen.contains(x) {
                    rt
                } else {
                    suspend(rt)
                },
            ),
            None => None,
        }) by {
        lemma_suspend_unseen_x(v, seen, x);
    }
    if v.len() > 0 {
        lemma_suspend_unseen(v.drop_last(), seen);
        lemma_suspend_unseen_x(v.drop_last(), seen, v.last().0);
        assert(suspend_unseen(v, seen).drop_last() =~= suspend_unseen(v.drop_last(), seen));
    }
}

/// What the engine is told about one sensor of a snapshot.
#[derive(Debug, Clone, Copy)]
pub enum SensorObservation {
    /// The sensor has no configured rule, or its unit cannot be alerted on.
    Unmonitored,
    /// The reading is stale, failed, unavailable or not a finite number.
    Unreadable,
    /// A current, finite reading compared with the rule's thresholds.
    Reading(ThresholdHits),
}

/// One sensor of a snapshot, in snapshot order.
#[derive(Debug, Clone)]
pub struct AlertInput {
    pub key: String,
    pub device_name: String,
    pub sensor_name: String,
    pub policy: AlertPolicy,
    pub observation: SensorObservation,
    /// The formatted reading, used in the event text.
    pub value: String,
}

#[derive(Debug, Clone, PartialEq, Eq)]
pub struct AlertEvent {
    pub sensor_key: String,
    pub device_name: String,
    pub sensor_name: String,
    pub severity: AlertSeverity,
    pub recovered: bool,
    pub notify: bool,
    pub value: String,
}

pub type EventView = (Seq<char>, Seq<char>, Seq<char>, AlertSeverity, bool, bool, Seq<char>);

pub open spec fn event_view(e: AlertEvent) -> EventView {
    (e.sensor_key@, e.device_name@, e.sensor_name@, e.severity, e.recovered, e.notify, e.value@)
}

pub open spec fn events_view(v: Seq<AlertEvent>) -> Seq<EventView> {
    v.map_values(|e: AlertEvent| event_view(e))
}

pub open spec fn keys_view(v: Seq<String>) -> Seq<Seq<char>> {
    v.map_values(|s: String| s@)
}

/// Engine state while a snapshot is evaluated: entries, keys seen, events.
pub type Progress = (EngineView, Seq<Seq<char>>, Seq<EventView>);

/// Evaluates one sensor.
pub open spec fn process(p: Progress, rule_keys: Seq<Seq<char>>, input: AlertInput, now: u64) -> Progress {
    let k = input.key@;
    if !rule_keys.contains(k) {
        (remove_key(p.0, k), p.1, p.2)
    } else {
        match input.observation {
            SensorObservation::Unmonitored => (remove_key(p.0, k), p.1, p.2),
            SensorObservation::Unreadable => (
                upsert(p.0, k, suspend(runtime_or_fresh(p.0, k))),
                p.1.push(k),
                p.2,
            ),
            SensorObservation::Reading(h) => {
                let r = step(runtime_or_fresh(p.0, k), h, input.policy, now);
                (
                    upsert(p.0, k, r.0),
                    p.1.push(k),
                    match r.1 {
                        Some(e) => p.2.push(
                            (k, input.device_name@, input.sensor_name@, e.0, e.1, e.2, input.value@),
                        ),
                        None => p.2,
                    },
                )
            },
        }
    }
}

pub open spec fn process_all(start: Progress, rule_keys: Seq<Seq<char>>, inputs: Seq<AlertInput>, now: u64) -> Progress
    decreases inputs.len(),
{
    if inputs.len() == 0 {
        start
    } else {
        process(process_all(start, rule_keys, inputs.drop_last(), now), rule_keys, inputs.last(), now)
    }
}

/// The entries and events after evaluating one snapshot.
pub open spec fn evaluate_spec(v: EngineView, rule_keys: Seq<Seq<char>>, inputs: Seq<AlertInput>, now: u64) -> (EngineView, Seq<EventView>) {
    let p = process_all((retain_keys(v, rule_keys), Seq::empty(), Seq::empty()), rule_keys, inputs, now);
    (suspend_unseen(p.0, p.1), p.2)
}

/// The alert engine: the state of every monitored sensor.
#[derive(Debug)]
pub struct AlertEngine {
    entries: Vec<(String, RuntimeAlert)>,
}

pub open spec fn entries_view(v: Seq<(String, RuntimeAlert)>) -> EngineView {
    v.map_values(|e: (String, RuntimeAlert)| (e.0@, e.1))
}

impl View for AlertEngine {
    type V = EngineView;

    closed spec fn view(&self) -> EngineView {
        entries_view(self.entries@)
    }
}

impl AlertEngine {
    /// The engine keeps one entry per key.
    pub open spec fn wf(&self) -> bool {
        unique(self@)
    }

    #[verifier::type_invariant]
    closed spec fn one_entry_per_key(self) -> bool {
        unique(self@)
    }

    pub fn new() -> (r: Self)
        ensures
            r@ == Seq::<(Seq<char>, RuntimeAlert)>::empty(),
            r.wf(),
    {
        let r = AlertEngine { entries: Vec::new() };
        assert(r@ =~= Seq::<(Seq<char>, RuntimeAlert)>::empty());
        r
    }

    fn find(&self, key: &String) -> (r: Option<usize>)
        ensures
            r matches Some(i) ==> key_index(self@, key@) == Some(i as int),
            r is None ==> key_index(self@, key@) is None,
    {
        let mut i = self.entries.len();
        proof {
            assert(self@.take(i as int) =~= self@);
        }
        while i > 0
            invariant
                i <= self.entries@.len(),
                key_index(self@, key@) == key_index(self@.take(i as int), key@),
            decreases i,
        {
            proof {
                assert(self@.take(i as int).drop_last() =~= self@.take(i - 1));
                assert(self@.take(i as int).last() == self@[i - 1]);
            }
            if self.entries[i - 1].0 == *key {
                return Some(i - 1);
            }
            i -= 1;
        }
        None
    }

    /// The state shown for a sensor key.
    pub fn state(&self, sensor_key: &str) -> (r: AlertState)
        ensures
            r == state_of(self@, sensor_key@),
    {
        let key = crate::text::owned(sensor_key);
        match self.find(&key) {
            Some(i) => {
                proof {
                    lemma_key_index(self@, key@);
                }
                let rt = self.entries[i].1;
                runtime_state_exec(&rt)
            },
            None => {
                proof {
                    lemma_key_index(self@, key@);
                }
                AlertState::Normal
            },
        }
    }

    /// Every key with its shown state, in the order the keys were first seen.
    pub fn states(&self) -> (r: Vec<(String, AlertState)>)
        ensures
            r@.len() == self@.len(),
            forall|i: int|
                0 <= i < r@.len() ==> r@[i].0@ == self@[i].0 && r@[i].1 == runtime_state(
                    self@[i].1,
                ),
            forall|i: int| 0 <= i < r@.len() ==> #[trigger] r@[i].1 == state_of(self@, r@[i].0@),
    {
        proof {
            use_type_invariant(self);
            assert forall|i: int| 0 <= i < self@.len() implies state_of(self@, self@[i].0) == runtime_state(
                self@[i].1,
            ) by {
                law_entry_is_found_by_its_key(self@, i);
            }
        }
        let mut r: Vec<(String, AlertState)> = Vec::new();
        let mut i: usize = 0;
        while i < self.entries.len()
            invariant
                i <= self.entries@.len(),
                r@.len() == i,
                forall|j: int|
                    0 <= j < i ==> r@[j].0@ == self@[j].0 && r@[j].1 == runtime_state(self@[j].1),
            decreases self.entries.len() - i,
        {
            let key = self.entries[i].0.clone();
            let rt = self.entries[i].1;
            r.push((key, runtime_state_exec(&rt)));
            i += 1;
        }
        r
    }

    fn remove(&mut self, key: &String)
        ensures
            final(self)@ == remove_key(old(self)@, key@),
    {
        let mut kept: Vec<(String, RuntimeAlert)> = Vec::new();
        let mut i: usize = 0;
        while i < self.entries.len()
            invariant
                i <= self.entries@.len(),
                entries_view(kept@) == remove_key(self@.take(i as int), key@),
            decreases self.entries.len() - i,
        {
            proof {
                assert(self@.take(i + 1).drop_last() =~= self@.take(i as int));
                assert(self@.take(i + 1).last() == self@[i as int]);
            }
            if self.entries[i].0 != *key {
                let e = (self.entries[i].0.clone(), self.entries[i].1);
                proof {
                    assert(entries_view(kept@.push(e)) =~= entries_view(kept@).push(self@[i as int]));
                }
                kept.push(e);
            }
            i += 1;
        }
        proof {
            assert(self@.take(self.entries@.len() as int) =~= self@);
            use_type_invariant(&*self);
            lemma_remove_key(self@, key@);
        }
        self.entries = kept;
    }

    /// Forgets a sensor's alert state.
    pub fn reset(&mut self, sensor_key: &str)
        ensures
            final(self)@ == remove_key(old(self)@, sensor_key@),
            final(self).wf(),
            state_of(final(self)@, sensor_key@) == AlertState::Normal,
    {
        proof {
            use_type_invariant(&*self);
        }
        let key = crate::text::owned(sensor_key);
        self.remove(&key);
        proof {
            lemma_remove_key(old(self)@, key@);
        }
    }

    fn upsert_entry(&mut self, key: &String, rt: RuntimeAlert)
        ensures
            final(self)@ == upsert(old(self)@, key@, rt),
    {
        proof {
            use_type_invariant(&*self);
            lemma_upsert(self@, key@, rt);
        }
        let found = self.find(key);
        let mut entries: Vec<(String, RuntimeAlert)> = Vec::new();
        std::mem::swap(&mut entries, &mut self.entries);
        match found {
            Some(i) => {
                proof {
                    lemma_key_index(old(self)@, key@);
                }
                let k = key.clone();
                entries.set(i, (k, rt));
                proof {
                    assert(entries_view(entries@) =~= upsert(old(self)@, key@, rt));
                }
            },
            None => {
                let k = key.clone();
                entries.push((k, rt));
                proof {
                    assert(entries_view(entries@) =~= upsert(old(self)@, key@, rt));
                }
            },
        }
        self.entries = entries;
    }

    fn retain(&mut self, keys: &[String])
        ensures
            final(self)@ == retain_keys(old(self)@, keys_view(keys@)),
    {
        let mut kept: Vec<(String, RuntimeAlert)> = Vec::new();
        let mut i: usize = 0;
        while i < self.entries.len()
            invariant
                i <= self.entries@.len(),
                entries_view(kept@) == retain_keys(self@.take(i as int), keys_view(keys@)),
            decreases self.entries.len() - i,
        {
            proof {
                assert(self@.take(i + 1).drop_last() =~= self@.take(i as int));
                assert(self@.take(i + 1).last() == self@[i as int]);
            }
            if contains_key(keys, &self.entries[i].0) {
                let e = (self.entries[i].0.clone(), self.entries[i].1);
                proof {
                    assert(entries_view(kept@.push(e)) =~= entries_view(kept@).push(self@[i as int]));
                }
                kept.push(e);
            }
            i += 1;
        }
        proof {
            assert(self@.take(self.entries@.len() as int) =~= self@);
            use_type_invariant(&*self);
            lemma_retain_keys(self@, keys_view(keys@));
        }
        self.entries = kept;
    }

    fn runtime_or_fresh_exec(&self, key: &String) -> (r: RuntimeAlert)
        ensures
            r == runtime_or_fresh(self@, key@),
    {
        proof {
            lemma_key_index(self@, key@);
        }
        match self.find(key) {
            Some(i) => self.entries[i].1,
            None => RuntimeAlert {
                active: AlertSeverity::Normal,
                candidate: None,
                suspended: false,
                last_notification: None,
                episode_notified: false,
            },
        }
    }

    /// Evaluates the sensors of one snapshot at time `now_ms`.
    ///
    /// State is kept only for keys with a rule; sensors without a usable
    /// rule lose their state, unreadable ones are suspended, and monitored
    /// keys missing from the snapshot are suspended too.
    pub fn evaluate(&mut self, rule_keys: &[String], inputs: &[AlertInput], now_ms: u64) -> (r: Vec<AlertEvent>)
        ensures
            (final(self)@, events_view(r@)) == evaluate_spec(
                old(self)@,
                keys_view(rule_keys@),
                inputs@,
                now_ms,
            ),
            final(self).wf(),
            forall|i: int| 0 <= i < final(self)@.len() ==> keys_view(rule_keys@).contains(#[trigger] final(self)@[i].0),
    {
        proof {
            use_type_invariant(&*self);
            law_evaluation_keeps_rule_keys_and_suspends_missing(old(self)@, keys_view(rule_keys@), inputs@, now_ms);
        }
        let ghost rk = keys_view(rule_keys@);
        self.retain(rule_keys);
        proof {
            lemma_retain_keys(old(self)@, rk);
        }
        let ghost start: Progress = (self@, Seq::empty(), Seq::empty());
        let mut seen: Vec<String> = Vec::new();
        let mut events: Vec<AlertEvent> = Vec::new();
        let mut i: usize = 0;
        while i < inputs.len()
            invariant
                i <= inputs@.len(),
                rk == keys_view(rule_keys@),
                start.0 == retain_keys(old(self)@, rk),
                start.1 == Seq::<Seq<char>>::empty(),
                start.2 == Seq::<EventView>::empty(),
                process_all(start, rk, inputs@.take(i as int), now_ms) == (
                    self@,
                    keys_view(seen@),
                    events_view(events@),
                ),
                unique(self@),
            decreases inputs.len() - i,
        {
            let input = &inputs[i];
            proof {
                assert(inputs@.take(i + 1).drop_last() =~= inputs@.take(i as int));
                assert(inputs@.take(i + 1).last() == inputs@[i as int]);
            }
            let ghost before = self@;
            if !contains_key(rule_keys, &input.key) {
                self.remove(&input.key);
                proof {
                    lemma_remove_key(before, input.key@);
                }
            } else {
                match input.observation {
                    SensorObservation::Unmonitored => {
                        self.remove(&input.key);
                        proof {
                            lemma_remove_key(before, input.key@);
                        }
                    },
                    SensorObservation::Unreadable => {
                        let mut rt = self.runtime_or_fresh_exec(&input.key);
                        rt.candidate = None;
                        rt.suspended = true;
                        self.upsert_entry(&input.key, rt);
                        proof {
                            lemma_upsert(before, input.key@, rt);
                            assert(keys_view(seen@.push(input.key)) =~= keys_view(seen@).push(input.key@));
                        }
                        seen.push(input.key.clone());
                    },
                    SensorObservation::Reading(h) => {
                        let mut rt = self.runtime_or_fresh_exec(&input.key);
                        let event = apply_reading(&mut rt, &h, &input.policy, now_ms);
                        self.upsert_entry(&input.key, rt);
                        proof {
                            lemma_upsert(before, input.key@, rt);
                            assert(keys_view(seen@.push(input.key)) =~= keys_view(seen@).push(input.key@));
                        }
                        seen.push(input.key.clone());
                        if let Some((severity, recovered, notify)) = event {
                            let e = AlertEvent {
                                sensor_key: input.key.clone(),
                                device_name: input.device_name.clone(),
                                sensor_name: input.sensor_name.clone(),
                                severity,
                                recovered,
                                notify,
                                value: input.value.clone(),
                            };
                            proof {
                                assert(events_view(events@.push(e)) =~= events_view(events@).push(event_view(e)));
                            }
                            events.push(e);
                        }
                    },
                }
            }
            i += 1;
        }
        proof {
            assert(inputs@.take(inputs@.len() as int) =~= inputs@);
        }
        let ghost before_suspend = self@;
        proof {
            lemma_suspend_unseen(before_suspend, keys_view(seen@));
        }
        let mut es: Vec<(String, RuntimeAlert)> = Vec::new();
        std::mem::swap(&mut es, &mut self.entries);
        assert(entries_view(es@) == before_suspend);
        let mut j: usize = 0;
        while j < es.len()
            invariant
                j <= es@.len(),
                es@.len() == before_suspend.len(),
                forall|x: int|
                    0 <= x < j ==> entries_view(es@)[x] == suspend_unseen(before_suspend, keys_view(seen@))[x],
                forall|x: int| j <= x < es@.len() ==> entries_view(es@)[x] == before_suspend[x],
            decreases es.len() - j,
        {
            let ghost prev = entries_view(es@);
            proof {
                assert(prev[j as int] == (es@[j as int].0@, es@[j as int].1));
            }
            if !contains_key(&seen, &es[j].0) {
                let k = es[j].0.clone();
                let mut rt = es[j].1;
                rt.candidate = None;
                rt.suspended = true;
                es.set(j, (k, rt));
                proof {
                    assert(entries_view(es@) =~= prev.update(j as int, (k@, rt)));
                }
            }
            j += 1;
        }
        proof {
            assert(entries_view(es@) =~= suspend_unseen(before_suspend, keys_view(seen@)));
        }
        self.entries = es;
        proof {
            law_evaluation_keeps_rule_keys_and_suspends_missing(old(self)@, rk, inputs@, now_ms);
            assert forall|i: int| 0 <= i < self@.len() implies rk.contains(#[trigger] self@[i].0) by {
                law_entry_is_found_by_its_key(self@, i);
            }
        }
        events
    }
}

fn runtime_state_exec(rt: &RuntimeAlert) -> (r: AlertState)
    ensures
        r == runtime_state(*rt),
{
    if rt.suspended {
        return AlertState::Suspended;
    }
    let active = match rt.active {
        AlertSeverity::Normal => AlertState::Normal,
        AlertSeverity::Warning => AlertState::Warning,
        AlertSeverity::Critical => AlertState::Critical,
    };
    match rt.candidate {
        Some(c) => {
            if c.severity == AlertSeverity::Critical {
                AlertState::CriticalPending
            } else if c.severity == AlertSeverity::Warning && rt.active == AlertSeverity::Normal {
                AlertState::WarningPending
            } else {
                active
            }
        },
        None => active,
    }
}

/// Whether `key` is one of `keys`.
pub fn contains_key(keys: &[String], key: &String) -> (r: bool)
    ensures
        r == keys_view(keys@).contains(key@),
{
    let mut i: usize = 0;
    while i < keys.len()
        invariant
            i <= keys@.len(),
            forall|j: int| 0 <= j < i ==> keys@[j]@ != key@,
        decreases keys.len() - i,
    {
        if keys[i] == *key {
            proof {
                assert(keys_view(keys@)[i as int] == key@);
            }
            return true;
        }
        i += 1;
    }
    proof {
        if keys_view(keys@).contains(key@) {
            let j = choose|j: int| 0 <= j < keys_view(keys@).len() && keys_view(keys@)[j] == key@;
            assert(keys@[j]@ == key@);
        }
    }
    false
}

// ---------------------------------------------------------------------------
// Laws
// ---------------------------------------------------------------------------
/// A current reading always resumes a suspended alert.
pub proof fn law_reading_resumes_monitoring(rt: RuntimeAlert, h: ThresholdHits, policy: AlertPolicy, now: u64)
    ensures
        !step(rt, h, policy, now).0.suspended,
{
}

/// An event is reported exactly when the active severity changes; it carries
/// the new severity and is a recovery exactly when the severity went down.
pub proof fn law_event_reports_change(rt: RuntimeAlert, h: ThresholdHits, policy: AlertPolicy, now: u64)
    ensures
        step(rt, h, policy, now).1 is Some <==> step(rt, h, policy, now).0.active != rt.active,
        step(rt, h, policy, now).1 matches Some(e) ==> e.0 == step(rt, h, policy, now).0.active && (e.1
            <==> rank(e.0) < rank(rt.active)),
{
}

/// Without a duration, a higher severity becomes active at once.
pub proof fn law_zero_duration_escalates_at_once(rt: RuntimeAlert, h: ThresholdHits, policy: AlertPolicy, now: u64)
    requires
        policy.duration_seconds == 0,
        rank(measured(h)) > rank(rt.active),
    ensures
        step(rt, h, policy, now).0.active == measured(h),
        step(rt, h, policy, now).0.candidate is None,
{
}

/// With a duration, a newly measured higher severity only becomes pending.
pub proof fn law_duration_delays_escalation(rt: RuntimeAlert, h: ThresholdHits, policy: AlertPolicy, now: u64)
    requires
        policy.duration_seconds > 0,
        rank(measured(h)) > rank(rt.active),
        rt.candidate is None,
    ensures
        step(rt, h, policy, now).0.active == rt.active,
        step(rt, h, policy, now).0.candidate == Some(Candidate { severity: measured(h), since_ms: now }),
        step(rt, h, policy, now).1 is None,
{
}

/// A pending severity becomes active once its duration has elapsed.
pub proof fn law_pending_escalates_after_duration(rt: RuntimeAlert, h: ThresholdHits, policy: AlertPolicy, now: u64)
    requires
        rank(measured(h)) > rank(rt.active),
        rt.candidate matches Some(c) && c.severity == measured(h) && elapsed_seconds(now, c.since_ms)
            >= policy.duration_seconds,
    ensures
        step(rt, h, policy, now).0.active == measured(h),
{
}

/// A reading at the active severity changes nothing visible and drops any
/// pending severity.
pub proof fn law_steady_reading_is_silent(rt: RuntimeAlert, h: ThresholdHits, policy: AlertPolicy, now: u64)
    requires
        measured(h) == rt.active,
    ensures
        step(rt, h, policy, now).1 is None,
        step(rt, h, policy, now).0.candidate is None,
        step(rt, h, policy, now).0.active == rt.active,
{
}

/// A lower reading keeps the severity its hysteresis band allows, never more.
pub proof fn law_hysteresis_bounds_recovery(rt: RuntimeAlert, h: ThresholdHits, policy: AlertPolicy, now: u64)
    requires
        rank(measured(h)) < rank(rt.active),
    ensures
        step(rt, h, policy, now).0.active == retained(h, rt.active),
        rank(step(rt, h, policy, now).0.active) <= rank(rt.active),
{
}

/// Nothing notifies when desktop notifications are off.
pub proof fn law_disabled_notifications_stay_silent(rt: RuntimeAlert, h: ThresholdHits, policy: AlertPolicy, now: u64)
    requires
        !policy.desktop_notifications,
    ensures
        step(rt, h, policy, now).1 matches Some(e) ==> !e.2,
{
}

/// A recovery notifies only when the episode it ends was notified.
pub proof fn law_recovery_notice_needs_notified_episode(rt: RuntimeAlert, h: ThresholdHits, policy: AlertPolicy, now: u64)
    ensures
        step(rt, h, policy, now).1 matches Some(e) ==> (e.1 && e.2 ==> rt.episode_notified
            && policy.recovery_notifications),
{
}

/// With desktop notifications on, an escalation always notifies when it is
/// the sensor's first notice or when it rises above the severity of the last
/// notice, however little time has passed since that notice; the cooldown
/// only holds back escalations to a severity already notified.
pub proof fn law_escalation_above_last_notice_notifies(
    rt: RuntimeAlert,
    h: ThresholdHits,
    policy: AlertPolicy,
    now: u64,
)
    requires
        policy.desktop_notifications,
    ensures
        step(rt, h, policy, now).1 matches Some(e) ==> (!e.1 && rt.last_notification is None ==> e.2),
        step(rt, h, policy, now).1 matches Some(e) ==> (!e.1 && (rt.last_notification matches Some(
            last,
        ) && rank(e.0) > rank(last.1)) ==> e.2),
        step(rt, h, policy, now).1 matches Some(e) ==> (!e.1 && (rt.last_notification matches Some(
            last,
        ) && rank(e.0) <= rank(last.1) && now >= last.0 && now - last.0 < policy.cooldown_seconds
            * 1000) ==> !e.2),
        step(rt, h, policy, now).1 matches Some(e) ==> (!e.1 && (rt.last_notification matches Some(
            last,
        ) && now >= last.0 && now - last.0 >= policy.cooldown_seconds * 1000) ==> e.2),
{
}

/// The keys of the sensors of a snapshot.
pub open spec fn input_keys(inputs: Seq<AlertInput>) -> Seq<Seq<char>> {
    inputs.map_values(|i: AlertInput| i.key@)
}

proof fn lemma_process_all(start: Progress, rk: Seq<Seq<char>>, inputs: Seq<AlertInput>, now: u64)
    requires
        unique(start.0),
        forall|x: Seq<char>| has_key(start.0, x) ==> rk.contains(x),
        start.1.len() == 0,
    ensures
        unique(process_all(start, rk, inputs, now).0),
        forall|x: Seq<char>| has_key(process_all(start, rk, inputs, now).0, x) ==> rk.contains(x),
        forall|x: Seq<char>|
            process_all(start, rk, inputs, now).1.contains(x) ==> input_keys(inputs).contains(x),
    decreases inputs.len(),
{
    if inputs.len() > 0 {
        let prev = process_all(start, rk, inputs.drop_last(), now);
        lemma_process_all(start, rk, inputs.drop_last(), now);
        let input = inputs.last();
        let k = input.key@;
        lemma_remove_key(prev.0, k);
        lemma_upsert(prev.0, k, suspend(runtime_or_fresh(prev.0, k)));
        lemma_upsert(prev.0, k, step(runtime_or_fresh(prev.0, k), ThresholdHits {
            critical_hit: false,
            warning_hit: false,
            critical_retained: false,
            warning_retained: false,
        }, input.policy, now).0);
        match input.observation {
            SensorObservation::Reading(h) => {
                lemma_upsert(prev.0, k, step(runtime_or_fresh(prev.0, k), h, input.policy, now).0);
            },
            _ => {},
        }
        let cur = process_all(start, rk, inputs, now);
        assert forall|x: Seq<char>| cur.1.contains(x) implies input_keys(inputs).contains(x) by {
            if prev.1.contains(x) {
                assert(input_keys(inputs.drop_last()).contains(x));
                let j = choose|j: int| 0 <= j < input_keys(inputs.drop_last()).len() && input_keys(
                    inputs.drop_last(),
                )[j] == x;
                assert(inputs.drop_last()[j] == inputs[j]);
                assert(input_keys(inputs)[j] == x);
            } else {
                assert(x == k);
                assert(input_keys(inputs)[inputs.len() - 1] == x);
            }
        }
    }
}

/// After a snapshot is evaluated, state is kept only for keys with a rule,
/// once per key, and every kept sensor that the snapshot did not hold is
/// suspended.
pub proof fn law_evaluation_keeps_rule_keys_and_suspends_missing(
    v: EngineView,
    rule_keys: Seq<Seq<char>>,
    inputs: Seq<AlertInput>,
    now: u64,
)
    requires
        unique(v),
    ensures
        unique(evaluate_spec(v, rule_keys, inputs, now).0),
        forall|x: Seq<char>| has_key(evaluate_spec(v, rule_keys, inputs, now).0, x) ==> rule_keys.contains(x),
        forall|x: Seq<char>|
            has_key(evaluate_spec(v, rule_keys, inputs, now).0, x) && !input_keys(inputs).contains(x)
                ==> state_of(evaluate_spec(v, rule_keys, inputs, now).0, x) == AlertState::Suspended,
{
    lemma_retain_keys(v, rule_keys);
    let start: Progress = (retain_keys(v, rule_keys), Seq::empty(), Seq::empty());
    lemma_process_all(start, rule_keys, inputs, now);
    let p = process_all(start, rule_keys, inputs, now);
    lemma_suspend_unseen(p.0, p.1);
    assert forall|x: Seq<char>|
        has_key(evaluate_spec(v, rule_keys, inputs, now).0, x) && !input_keys(inputs).contains(x)
        implies state_of(evaluate_spec(v, rule_keys, inputs, now).0, x) == AlertState::Suspended by {
        lemma_key_index(p.0, x);
    }
}

/// A key without a state shows as normal.
pub proof fn law_unknown_keys_are_normal(v: EngineView, k: Seq<char>)
    requires
        !has_key(v, k),
    ensures
        state_of(v, k) == AlertState::Normal,
{
    lemma_key_index(v, k);
}

// ---------------------------------------------------------------------------
// Keys, directions, colors and units
// ---------------------------------------------------------------------------
pub const DEFAULT_WARNING_COLOR: &'static str = "#e5a50a";

pub const DEFAULT_CRITICAL_COLOR: &'static str = "#c01c28";

/// Whether a color is written `#RRGGBB`.
pub open spec fn alert_color_valid(c: Seq<char>) -> bool {
    c.len() == 7 && c[0] == '#' && forall|i: int| 1 <= i < 7 ==> is_hex_digit(c[i])
}

pub fn valid_alert_color(color: &str) -> (r: bool)
    ensures
        r == alert_color_valid(color@),
{
    let c = chars_of(color);
    if c.len() != 7 || c[0] != '#' {
        return false;
    }
    let mut i: usize = 1;
    while i < 7
        invariant
            c@ == color@,
            c@.len() == 7,
            1 <= i <= 7,
            forall|j: int| 1 <= j < i ==> is_hex_digit(c@[j]),
        decreases 7 - i,
    {
        if !char_is_hex_digit(c[i]) {
            return false;
        }
        i += 1;
    }
    true
}

/// The key of a sensor's rule and alert state: `sensor:<device>:<sensor>`.
pub open spec fn sensor_key_spec(device_id: Seq<char>, sensor_id: Seq<char>) -> Seq<char> {
    "sensor:"@ + device_id + ":"@ + sensor_id
}

pub fn sensor_key(device_id: &str, sensor_id: &str) -> (r: String)
    ensures
        r@ == sensor_key_spec(device_id@, sensor_id@),
{
    let mut v: Vec<char> = Vec::new();
    append_str(&mut v, "sensor:");
    append_str(&mut v, device_id);
    append_str(&mut v, ":");
    append_str(&mut v, sensor_id);
    string_of(&v)
}

/// Which side of a reading a rule normally watches.
#[derive(Debug, Clone, Copy, PartialEq, Eq, Structural)]
pub enum AlertDirection {
    Above,
    Below,
    Both,
}

pub open spec fn direction_for(kind: SensorKind) -> AlertDirection {
    match kind {
        SensorKind::Fan => AlertDirection::Below,
        SensorKind::Temperature | SensorKind::Power | SensorKind::Energy | SensorKind::Throughput
        | SensorKind::Utilization => AlertDirection::Above,
        _ => AlertDirection::Both,
    }
}

pub fn alert_direction(kind: SensorKind) -> (r: AlertDirection)
    ensures
        r == direction_for(kind),
{
    match kind {
        SensorKind::Fan => AlertDirection::Below,
        SensorKind::Temperature | SensorKind::Power | SensorKind::Energy | SensorKind::Throughput
        | SensorKind::Utilization => AlertDirection::Above,
        SensorKind::Voltage | SensorKind::Current | SensorKind::Frequency
        | SensorKind::EffectiveClock | SensorKind::Capacity | SensorKind::Humidity
        | SensorKind::Counter | SensorKind::Boolean | SensorKind::Other => AlertDirection::Both,
    }
}

/// The suffix written after a value of a unit.
pub open spec fn unit_suffix_spec(unit: Unit) -> Seq<char> {
    match unit {
        Unit::Celsius => "°C"@,
        Unit::Volt => "V"@,
        Unit::Ampere => "A"@,
        Unit::Watt => "W"@,
        Unit::WattHour => "Wh"@,
        Unit::AmpereHour => "Ah"@,
        Unit::Joule => "J"@,
        Unit::Rpm => "RPM"@,
        Unit::Hertz => "Hz"@,
        Unit::Percent => "%"@,
        Unit::Byte => "B"@,
        Unit::BytePerSecond => "B/s"@,
        Unit::Count => ""@,
        Unit::CountPerSecond => "/s"@,
        Unit::Boolean => ""@,
        Unit::Raw => ""@,
    }
}

pub fn unit_suffix(unit: Unit) -> (r: &'static str)
    ensures
        r@ == unit_suffix_spec(unit),
{
    match unit {
        Unit::Celsius => "°C",
        Unit::Volt => "V",
        Unit::Ampere => "A",
        Unit::Watt => "W",
        Unit::WattHour => "Wh",
        Unit::AmpereHour => "Ah",
        Unit::Joule => "J",
        Unit::Rpm => "RPM",
        Unit::Hertz => "Hz",
        Unit::Percent => "%",
        Unit::Byte => "B",
        Unit::BytePerSecond => "B/s",
        Unit::Count => "",
        Unit::CountPerSecond => "/s",
        Unit::Boolean => "",
        Unit::Raw => "",
    }
}

} // verus!
