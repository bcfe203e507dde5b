//! Decisions of the background monitor: how a request to the worker ended,
//! when storage health is due, and what a reading that went missing is.
use vstd::prelude::*;
use crate::model::{CollectorId, Identification, ReadingFreshness};
use crate::text::{
    chars_eq, chars_eq_str, chars_of, split, split_chars, split_once_chars, split_seq, split_seq_chars,
    starts_with_str, string_of, trim, trim_chars, views, index_of, index_of_seq, split_once,
};

verus! {

/// How a request to the collector worker ended.
#[derive(Debug, Clone, Copy, PartialEq, Eq, Structural)]
pub enum MonitorRequestResult {
    Accepted,
    Busy,
    Disconnected,
}

/// Whether a storage-health request that ended so leaves the health worker
/// free again (it stays claimed only by an accepted request).
pub fn releases_storage_claim(result: MonitorRequestResult) -> (r: bool)
    ensures
        r == (result != MonitorRequestResult::Accepted),
{
    result != MonitorRequestResult::Accepted
}

/// Whether storage health should be read now: it is enabled, and it was
/// forced, never read, or read at least one interval ago.
pub open spec fn health_due(enabled: bool, force: bool, since_last_ms: Option<u64>, interval_ms: u64) -> bool {
    enabled && (force || match since_last_ms {
        None => true,
        Some(e) => e >= interval_ms,
    })
}

pub fn storage_health_due(enabled: bool, force: bool, since_last_ms: Option<u64>, interval_ms: u64) -> (r: bool)
    ensures
        r == health_due(enabled, force, since_last_ms, interval_ms),
{
    enabled && (force || match since_last_ms {
        None => true,
        Some(e) => e >= interval_ms,
    })
}

/// Whether a reading came from lm-sensors.
pub open spec fn from_libsensors(identification: Identification, computed_by: Option<Seq<char>>) -> bool {
    identification == Identification::LibSensorsConfig || computed_by == Some("lm-sensors"@)
}

pub fn depends_on_libsensors(identification: Identification, computed_by: Option<&str>) -> (r: bool)
    ensures
        r == from_libsensors(identification, match computed_by {
            Some(c) => Some(c@),
            None => None,
        }),
{
    identification == Identification::LibSensorsConfig || match computed_by {
        Some(c) => chars_eq_str(&chars_of(c), "lm-sensors"),
        None => false,
    }
}

/// The freshness of a reading that the latest pass did not produce: stale
/// when its collector (or lm-sensors, for readings that depend on it)
/// failed or its source is still there, unavailable when its collector
/// succeeded without it, and stale otherwise.
pub open spec fn missing_freshness_of(
    collector_failed: bool,
    libsensors_failed: bool,
    source_present: bool,
    collector_succeeded: bool,
) -> ReadingFreshness {
    if collector_failed || libsensors_failed {
        ReadingFreshness::Stale
    } else if source_present {
        ReadingFreshness::Stale
    } else if collector_succeeded {
        ReadingFreshness::Unavailable
    } else {
        ReadingFreshness::Stale
    }
}

/// Decides the freshness of a missing reading. `libsensors_failed` is true
/// when the reading depends on lm-sensors and that enrichment failed.
pub fn missing_freshness(
    collector_failed: bool,
    libsensors_failed: bool,
    source_present: bool,
    collector_succeeded: bool,
) -> (r: ReadingFreshness)
    ensures
        r == missing_freshness_of(collector_failed, libsensors_failed, source_present, collector_succeeded),
{
    if collector_failed || libsensors_failed {
        return ReadingFreshness::Stale;
    }
    if source_present {
        return ReadingFreshness::Stale;
    }
    if collector_succeeded {
        return ReadingFreshness::Unavailable;
    }
    ReadingFreshness::Stale
}

/// A place whose existence shows that a reading's source is still there.
#[derive(Debug, Clone, PartialEq, Eq)]
pub enum SourceProbe {
    /// A sysfs path.
    Path(String),
    /// Entries of the directory of `prefix` whose names start with its last
    /// component, joined with `suffix`.
    Wildcard(String, String),
}

/// The part of a source entry before a ` (CPU ` annotation.
pub open spec fn source_path(candidate: Seq<char>) -> Seq<char> {
    match index_of_seq(candidate, " (CPU "@) {
        Some(i) => candidate.take(i),
        None => candidate,
    }
}

/// What to probe for one comma-separated source entry: nothing outside
/// `/sys/`, the path itself, or a wildcard split at its first `*`.
pub open spec fn probe_of(entry: Seq<char>) -> Option<(Seq<char>, Option<Seq<char>>)> {
    let c = source_path(trim(entry));
    if !(5 <= c.len() && c.take(5) == "/sys/"@) {
        None
    } else {
        match split_once(c, '*') {
            Some((prefix, suffix)) => Some((prefix, Some(suffix))),
            None => Some((c, None)),
        }
    }
}

/// The view of a probe.
pub open spec fn probe_view(p: SourceProbe) -> (Seq<char>, Option<Seq<char>>) {
    match p {
        SourceProbe::Path(a) => (a@, None),
        SourceProbe::Wildcard(a, b) => (a@, Some(b@)),
    }
}

/// What to probe for one source entry.
pub fn source_probe(entry: &[char]) -> (r: Option<SourceProbe>)
    ensures
        match r {
            Some(p) => probe_of(entry@) == Some(probe_view(p)),
            None => probe_of(entry@) is None,
        },
{
    let t = trim_chars(entry);
    let pattern = chars_of(" (CPU ");
    proof {
        reveal_strlit(" (CPU ");
        reveal_strlit("/sys/");
    }
    assert(t@.skip(0) =~= t@);
    let c = match crate::text::find_seq_from(&t, 0, &pattern) {
        Some(i) => crate::text::slice_chars(&t, 0, i),
        None => crate::text::slice_chars(&t, 0, t.len()),
    };
    assert(t@.subrange(0, t@.len() as int) =~= t@);
    assert(c@ == source_path(trim(entry@)));
    if !starts_with_str(&c, "/sys/") {
        return None;
    }
    match split_once_chars(&c, '*') {
        Some((prefix, suffix)) => Some(SourceProbe::Wildcard(string_of(&prefix), string_of(&suffix))),
        None => Some(SourceProbe::Path(string_of(&c))),
    }
}

/// The probes of the first `n` entries of a comma-separated source.
pub open spec fn probes_of(entries: Seq<Seq<char>>, n: nat) -> Seq<(Seq<char>, Option<Seq<char>>)>
    decreases n,
{
    if n == 0 {
        seq![]
    } else {
        let rest = probes_of(entries, (n - 1) as nat);
        match probe_of(entries[n - 1]) {
            Some(p) => rest.push(p),
            None => rest,
        }
    }
}

/// The probes for a reading's source, whose entries are separated by
/// commas; the source is still present when any of them exists.
pub fn source_probes(source: &str) -> (r: Vec<SourceProbe>)
    ensures
        r@.map_values(|p: SourceProbe| probe_view(p)) == probes_of(split(source@, ','), split(source@, ',').len()),
{
    let parts = split_chars(&chars_of(source), ',');
    let ghost entries = split(source@, ',');
    let mut out: Vec<SourceProbe> = Vec::new();
    let mut i: usize = 0;
    while i < parts.len()
        invariant
            i <= parts.len(),
            views(parts@) == entries,
            entries == split(source@, ','),
            out@.map_values(|p: SourceProbe| probe_view(p)) == probes_of(entries, i as nat),
        decreases parts.len() - i,
    {
        assert(entries[i as int] == parts@[i as int]@);
        match source_probe(&parts[i]) {
            Some(p) => {
                let ghost pv = probe_view(p);
                out.push(p);
                assert(out@.map_values(|p: SourceProbe| probe_view(p)) =~= probes_of(entries, i as nat).push(pv));
            },
            None => {},
        }
        i += 1;
    }
    out
}


// ---------------------------------------------------------------------------
// Readings that a pass did not produce
// ---------------------------------------------------------------------------
/// What the monitor reads of a reading of the previous snapshot: its device
/// and sensor ids, the collector that produced it, whether it is sampled
/// intermittently, whether it depends on lm-sensors, whether its source is
/// still present (probed by the caller), and when it was last updated.
#[derive(Debug, Clone)]
pub struct ReadingKey {
    pub device_id: String,
    pub sensor_id: String,
    pub collector: Option<CollectorId>,
    pub intermittent: bool,
    pub depends_on_libsensors: bool,
    pub source_present: bool,
    pub last_updated_unix_ms: Option<u128>,
}

/// A previous reading kept in the new snapshot: which one, with what
/// freshness, and when it was last updated.
#[derive(Debug, Clone, Copy, PartialEq, Eq)]
pub struct RetainedReading {
    pub reading: usize,
    pub freshness: ReadingFreshness,
    pub last_updated_unix_ms: u128,
}

/// Whether the pass produced the reading `(d, s)`.
pub open spec fn was_observed(observed: Seq<(String, String)>, d: Seq<char>, s: Seq<char>) -> bool {
    exists|j: int| 0 <= j < observed.len() && (#[trigger] observed[j]).0@ == d && observed[j].1@ == s
}

/// Whether `c` is one of `cs`.
pub open spec fn lists(cs: Seq<CollectorId>, c: CollectorId) -> bool {
    cs.contains(c)
}

/// Whether a previous reading went missing: it has a collector, is not
/// sampled intermittently, and the pass did not produce it.
pub open spec fn went_missing(k: ReadingKey, observed: Seq<(String, String)>) -> bool {
    k.collector is Some && !k.intermittent && !was_observed(observed, k.device_id@, k.sensor_id@)
}

/// The freshness a missing reading is kept with.
pub open spec fn freshness_after(k: ReadingKey, failed: Seq<CollectorId>, succeeded: Seq<CollectorId>) -> ReadingFreshness {
    missing_freshness_of(
        k.collector matches Some(c) && lists(failed, c),
        k.depends_on_libsensors && lists(failed, CollectorId::LibSensors),
        k.source_present,
        k.collector matches Some(c) && lists(succeeded, c),
    )
}

/// Whether a missing reading is kept: always when stale, and when
/// unavailable only if unavailable readings are kept.
pub open spec fn kept(k: ReadingKey, observed: Seq<(String, String)>, failed: Seq<CollectorId>, succeeded: Seq<CollectorId>, keep_unavailable: bool) -> bool {
    went_missing(k, observed) && (keep_unavailable || freshness_after(k, failed, succeeded)
        != ReadingFreshness::Unavailable)
}

/// The kept readings among the first `n`, in order.
pub open spec fn missing_plan(
    previous: Seq<ReadingKey>,
    n: nat,
    observed: Seq<(String, String)>,
    failed: Seq<CollectorId>,
    succeeded: Seq<CollectorId>,
    keep_unavailable: bool,
    captured_at: u128,
) -> Seq<RetainedReading>
    decreases n,
{
    if n == 0 {
        Seq::empty()
    } else {
        let k = previous[n - 1];
        let before = missing_plan(previous, (n - 1) as nat, observed, failed, succeeded, keep_unavailable, captured_at);
        if kept(k, observed, failed, succeeded, keep_unavailable) {
            before.push(
                RetainedReading {
                    reading: (n - 1) as usize,
                    freshness: freshness_after(k, failed, succeeded),
                    last_updated_unix_ms: match k.last_updated_unix_ms {
                        Some(t) => t,
                        None => captured_at,
                    },
                },
            )
        } else {
            before
        }
    }
}

fn same_text(a: &String, b: &String) -> (r: bool)
    ensures
        r == (a@ == b@),
{
    let x = chars_of(a.as_str());
    let y = chars_of(b.as_str());
    chars_eq(&x, &y)
}

fn observed_pair(observed: &[(String, String)], d: &String, s: &String) -> (r: bool)
    ensures
        r == was_observed(observed@, d@, s@),
{
    let mut j: usize = 0;
    while j < observed.len()
        invariant
            j <= observed@.len(),
            forall|x: int| 0 <= x < j ==> !((#[trigger] observed@[x]).0@ == d@ && observed@[x].1@ == s@),
        decreases observed.len() - j,
    {
        if same_text(&observed[j].0, d) && same_text(&observed[j].1, s) {
            return true;
        }
        j += 1;
    }
    false
}

fn listed(cs: &[CollectorId], c: CollectorId) -> (r: bool)
    ensures
        r == lists(cs@, c),
{
    let mut j: usize = 0;
    while j < cs.len()
        invariant
            j <= cs@.len(),
            forall|x: int| 0 <= x < j ==> cs@[x] != c,
        decreases cs.len() - j,
    {
        if cs[j] == c {
            assert(cs@[j as int] == c);
            return true;
        }
        j += 1;
    }
    false
}

/// Whether a reading of the new snapshot is one that went missing from the
/// previous one (such a reading is replaced by the kept previous reading).
pub open spec fn replaced_by_previous(previous: Seq<ReadingKey>, observed: Seq<(String, String)>, d: Seq<char>, s: Seq<char>) -> bool {
    exists|i: int|
        0 <= i < previous.len() && went_missing(#[trigger] previous[i], observed) && previous[i].device_id@ == d
            && previous[i].sensor_id@ == s
}

pub fn is_replaced_reading(previous: &[ReadingKey], observed: &[(String, String)], device_id: &String, sensor_id: &String) -> (r: bool)
    ensures
        r == replaced_by_previous(previous@, observed@, device_id@, sensor_id@),
{
    let mut i: usize = 0;
    while i < previous.len()
        invariant
            i <= previous@.len(),
            forall|x: int|
                0 <= x < i ==> !(went_missing(#[trigger] previous@[x], observed@) && previous@[x].device_id@ == device_id@
                    && previous@[x].sensor_id@ == sensor_id@),
        decreases previous.len() - i,
    {
        let k = &previous[i];
        if k.collector.is_some() && !k.intermittent && same_text(&k.device_id, device_id) && same_text(&k.sensor_id, sensor_id)
            && !observed_pair(observed, &k.device_id, &k.sensor_id) {
            return true;
        }
        i += 1;
    }
    false
}

/// The previous readings the new snapshot keeps although the pass did not
/// produce them, in the previous snapshot's order, with their freshness and
/// the time they were last updated (the previous capture when unknown).
pub fn plan_missing_readings(
    previous: &[ReadingKey],
    observed: &[(String, String)],
    failed: &[CollectorId],
    succeeded: &[CollectorId],
    keep_unavailable: bool,
    previous_captured_at: u128,
) -> (r: Vec<RetainedReading>)
    ensures
        r@ == missing_plan(previous@, previous@.len(), observed@, failed@, succeeded@, keep_unavailable, previous_captured_at),
{
    let mut r: Vec<RetainedReading> = Vec::new();
    let mut i: usize = 0;
    while i < previous.len()
        invariant
            i <= previous@.len(),
            r@ == missing_plan(previous@, i as nat, observed@, failed@, succeeded@, keep_unavailable, previous_captured_at),
        decreases previous.len() - i,
    {
        let k = &previous[i];
        let missing = k.collector.is_some() && !k.intermittent && !observed_pair(observed, &k.device_id, &k.sensor_id);
        if missing {
            let collector_failed = match k.collector {
                Some(c) => listed(failed, c),
                None => false,
            };
            let collector_succeeded = match k.collector {
                Some(c) => listed(succeeded, c),
                None => false,
            };
            let libsensors_failed = k.depends_on_libsensors && listed(failed, CollectorId::LibSensors);
            let freshness = missing_freshness(collector_failed, libsensors_failed, k.source_present, collector_succeeded);
            if keep_unavailable || freshness != ReadingFreshness::Unavailable {
                let last = match k.last_updated_unix_ms {
                    Some(t) => t,
                    None => previous_captured_at,
                };
                r.push(RetainedReading { reading: i, freshness, last_updated_unix_ms: last });
            }
        }
        i += 1;
    }
    r
}


// ---------------------------------------------------------------------------
// The monitor's decisions
// ---------------------------------------------------------------------------
/// What the monitor remembers between events (times in milliseconds).
#[derive(Debug, Clone, Copy, PartialEq, Eq)]
pub struct MonitorState {
    /// When the last full discovery pass ran.
    pub last_discovery_ms: u64,
    /// When storage health was last applied.
    pub last_health_ms: Option<u64>,
    /// How often full discovery re-runs.
    pub rediscover_ms: u64,
    /// How often storage health is read.
    pub health_interval_ms: u64,
    /// Whether storage health is read at all (asked for, and helpers allowed).
    pub storage_health_enabled: bool,
    /// Whether a storage-health job is running or claimed.
    pub storage_busy: bool,
    /// Whether identifying values are wanted.
    pub include_sensitive: bool,
}

/// What happened.
#[derive(Debug, Clone, Copy, PartialEq, Eq)]
pub enum MonitorEvent {
    /// A refresh was asked for, forced (a rediscovery) or not.
    Refresh { now_ms: u64, forced: bool },
    /// The user asked for storage health of chosen devices.
    HealthRequest,
    /// The storage-health targets were looked up: how many there are, and
    /// whether the user asked for them (else a refresh found health due).
    HealthTargets { count: usize, requested: bool },
    /// A storage-health job finished; it read identifying values or not.
    HealthResult { now_ms: u64, included_sensitive: bool },
    /// The user switched identifying values on or off.
    SetSensitive { now_ms: u64, include_sensitive: bool },
}

/// Which collection pass to run.
#[derive(Debug, Clone, Copy, PartialEq, Eq, Structural)]
pub enum PassKind {
    /// Full discovery (hotplug, labels, lm-sensors).
    Full,
    /// Fast telemetry, overlaid on the last full pass.
    Fast,
}

/// What the monitor does in answer.
#[derive(Debug, Clone, Copy, PartialEq, Eq)]
pub struct MonitorAction {
    /// The pass to run, if any.
    pub pass: Option<PassKind>,
    /// Whether readings a fast pass did not produce are kept when their
    /// collector succeeded (as unavailable, until the next full pass).
    pub keep_unavailable: bool,
    /// Whether to look up the storage-health targets (a job was claimed).
    pub find_health_targets: bool,
    /// Whether to send a storage-health job for the targets found.
    pub send_health_job: bool,
    /// Whether the request was refused because a job is running.
    pub refused: bool,
    /// Whether to strip identifying storage properties from the result.
    pub strip_sensitive: bool,
    /// Whether to send an update to the user interface.
    pub send_update: bool,
}

pub open spec fn no_action() -> MonitorAction {
    MonitorAction {
        pass: None,
        keep_unavailable: false,
        find_health_targets: false,
        send_health_job: false,
        refused: false,
        strip_sensitive: false,
        send_update: false,
    }
}

/// Whether `interval` has passed since `since` at `now` (a clock that went
/// back counts as no time passed).
pub open spec fn elapsed_at_least(now: u64, since: u64, interval: u64) -> bool {
    now >= since && now - since >= interval
}

/// Whether storage health is due: it is enabled, and forced, never read, or
/// read at least one interval ago.
pub open spec fn health_due_at(s: MonitorState, now: u64, forced: bool) -> bool {
    s.storage_health_enabled && (forced || match s.last_health_ms {
        None => true,
        Some(t) => elapsed_at_least(now, t, s.health_interval_ms),
    })
}

/// The monitor's answer to an event:
/// - a refresh runs a full pass when forced or when rediscovery is due
///   (else a fast pass, which keeps unavailable readings), claims a
///   storage-health job when health is due and none is running, and sends
///   an update;
/// - a user's health request is refused while a job runs, else claims one;
/// - looked-up targets release the claim when there are none (answering a
///   user's request with an update), else send the job;
/// - a finished job releases the claim, marks health as read, strips
///   identifying values read before they were switched off, and sends an
///   update;
/// - switching identifying values runs a full pass, strips them when
///   switched off, and sends an update.
pub open spec fn monitor_step_of(s: MonitorState, e: MonitorEvent) -> (MonitorState, MonitorAction) {
    match e {
        MonitorEvent::Refresh { now_ms, forced } => {
            let full = forced || elapsed_at_least(now_ms, s.last_discovery_ms, s.rediscover_ms);
            let claim = health_due_at(s, now_ms, forced) && !s.storage_busy;
            (
                MonitorState {
                    last_discovery_ms: if full { now_ms } else { s.last_discovery_ms },
                    storage_busy: s.storage_busy || claim,
                    ..s
                },
                MonitorAction {
                    pass: Some(if full { PassKind::Full } else { PassKind::Fast }),
                    keep_unavailable: !full,
                    find_health_targets: claim,
                    send_update: true,
                    ..no_action()
                },
            )
        },
        MonitorEvent::HealthRequest => if s.storage_busy {
            (s, MonitorAction { refused: true, ..no_action() })
        } else {
            (MonitorState { storage_busy: true, ..s }, MonitorAction { find_health_targets: true, ..no_action() })
        },
        MonitorEvent::HealthTargets { count, requested } => if count == 0 {
            (MonitorState { storage_busy: false, ..s }, MonitorAction { send_update: requested, ..no_action() })
        } else {
            (s, MonitorAction { send_health_job: true, ..no_action() })
        },
        MonitorEvent::HealthResult { now_ms, included_sensitive } => (
            MonitorState { storage_busy: false, last_health_ms: Some(now_ms), ..s },
            MonitorAction {
                strip_sensitive: included_sensitive && !s.include_sensitive,
                send_update: true,
                ..no_action()
            },
        ),
        MonitorEvent::SetSensitive { now_ms, include_sensitive } => (
            MonitorState { include_sensitive, last_discovery_ms: now_ms, ..s },
            MonitorAction {
                pass: Some(PassKind::Full),
                strip_sensitive: !include_sensitive,
                send_update: true,
                ..no_action()
            },
        ),
    }
}

fn elapsed_since(now: u64, since: u64, interval: u64) -> (r: bool)
    ensures
        r == elapsed_at_least(now, since, interval),
{
    now >= since && now - since >= interval
}

fn quiet() -> (r: MonitorAction)
    ensures
        r == no_action(),
{
    MonitorAction {
        pass: None,
        keep_unavailable: false,
        find_health_targets: false,
        send_health_job: false,
        refused: false,
        strip_sensitive: false,
        send_update: false,
    }
}

/// The monitor's next state and action after an event.
pub fn monitor_step(state: &MonitorState, event: MonitorEvent) -> (r: (MonitorState, MonitorAction))
    ensures
        r == monitor_step_of(*state, event),
{
    let s = *state;
    match event {
        MonitorEvent::Refresh { now_ms, forced } => {
            let full = forced || elapsed_since(now_ms, s.last_discovery_ms, s.rediscover_ms);
            let due = s.storage_health_enabled && (forced || match s.last_health_ms {
                None => true,
                Some(t) => elapsed_since(now_ms, t, s.health_interval_ms),
            });
            let claim = due && !s.storage_busy;
            (
                MonitorState {
                    last_discovery_ms: if full { now_ms } else { s.last_discovery_ms },
                    storage_busy: s.storage_busy || claim,
                    ..s
                },
                MonitorAction {
                    pass: Some(if full { PassKind::Full } else { PassKind::Fast }),
                    keep_unavailable: !full,
                    find_health_targets: claim,
                    send_update: true,
                    ..quiet()
                },
            )
        },
        MonitorEvent::HealthRequest => {
            if s.storage_busy {
                (s, MonitorAction { refused: true, ..quiet() })
            } else {
                (MonitorState { storage_busy: true, ..s }, MonitorAction { find_health_targets: true, ..quiet() })
            }
        },
        MonitorEvent::HealthTargets { count, requested } => {
            if count == 0 {
                (MonitorState { storage_busy: false, ..s }, MonitorAction { send_update: requested, ..quiet() })
            } else {
                (s, MonitorAction { send_health_job: true, ..quiet() })
            }
        },
        MonitorEvent::HealthResult { now_ms, included_sensitive } => (
            MonitorState { storage_busy: false, last_health_ms: Some(now_ms), ..s },
            MonitorAction {
                strip_sensitive: included_sensitive && !s.include_sensitive,
                send_update: true,
                ..quiet()
            },
        ),
        MonitorEvent::SetSensitive { now_ms, include_sensitive } => (
            MonitorState { include_sensitive, last_discovery_ms: now_ms, ..s },
            MonitorAction {
                pass: Some(PassKind::Full),
                strip_sensitive: !include_sensitive,
                send_update: true,
                ..quiet()
            },
        ),
    }
}

/// The warning a monitor starts with when storage health was asked for but
/// helper commands are not allowed.
pub const HEALTH_HELPERS_DISABLED: &'static str = "Storage health requested, but helper commands were disabled.";

/// The monitor's state after its first, full pass at `now_ms`, and the
/// warning it keeps showing, if any.
pub fn monitor_start(
    now_ms: u64,
    rediscover_ms: u64,
    health_interval_ms: u64,
    health_requested: bool,
    helpers_allowed: bool,
    include_sensitive: bool,
) -> (r: (MonitorState, Option<&'static str>))
    ensures
        r.0 == (MonitorState {
            last_discovery_ms: now_ms,
            last_health_ms: None,
            rediscover_ms,
            health_interval_ms,
            storage_health_enabled: health_requested && helpers_allowed,
            storage_busy: false,
            include_sensitive,
        }),
        r.1 matches Some(w) ==> w@ == HEALTH_HELPERS_DISABLED@,
        r.1 is Some <==> health_requested && !helpers_allowed,
{
    (
        MonitorState {
            last_discovery_ms: now_ms,
            last_health_ms: None,
            rediscover_ms,
            health_interval_ms,
            storage_health_enabled: health_requested && helpers_allowed,
            storage_busy: false,
            include_sensitive,
        },
        if health_requested && !helpers_allowed {
            Some(HEALTH_HELPERS_DISABLED)
        } else {
            None
        },
    )
}

/// A job is never started while another runs: after any event, if a job
/// was running and the event is not its result (nor an empty lookup), the
/// monitor still counts it as running and sends no new job claim.
pub proof fn law_one_health_job_at_a_time(s: MonitorState, e: MonitorEvent)
    requires
        s.storage_busy,
        !(e is HealthResult),
        !(e is HealthTargets),
    ensures
        monitor_step_of(s, e).0.storage_busy,
        !monitor_step_of(s, e).1.find_health_targets,
{
}

/// A missing reading is kept as unavailable only between full passes: a
/// refresh keeps unavailable readings exactly when it runs a fast pass, and
/// a forced refresh always runs a full pass.
pub proof fn law_rediscovery_drops_unavailable(s: MonitorState, now: u64, forced: bool)
    ensures
        monitor_step_of(s, MonitorEvent::Refresh { now_ms: now, forced }).1.keep_unavailable
            <==> monitor_step_of(s, MonitorEvent::Refresh { now_ms: now, forced }).1.pass == Some(PassKind::Fast),
        forced ==> monitor_step_of(s, MonitorEvent::Refresh { now_ms: now, forced }).1.pass == Some(PassKind::Full),
{
}


/// Whether a storage property identifies the drive (stripped when
/// identifying values are switched off).
pub open spec fn identifying_storage_key(key: Seq<char>) -> bool {
    key == "serial"@ || key == "wwid"@
}

pub fn is_identifying_storage_property(key: &str) -> (r: bool)
    ensures
        r == identifying_storage_key(key@),
{
    let k = chars_of(key);
    chars_eq_str(&k, "serial") || chars_eq_str(&k, "wwid")
}

} // verus!
