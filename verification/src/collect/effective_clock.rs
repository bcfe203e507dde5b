//! Effective CPU clocks from APERF/MPERF counters: the CPU masks they are
//! read for, the descriptor budget, the per-CPU sampling state machine and
//! the checks on counter intervals.
use vstd::prelude::*;
use crate::collect::cpulist::{insert_sorted, strictly_sorted, token_cpus};
use crate::collect::perf_event::PerfGroupReading;
use crate::model::ReadingFreshness;
use crate::text::{
    chars_of, parse_unsigned, parse_unsigned_chars, split, split_chars, split_once,
    split_once_chars, trim, trim_chars, views,
};

verus! {

/// Most CPUs a mask may name.
pub const MAX_CPU_COUNT: u64 = 8192;

/// Largest CPU number a mask may name.
pub const MAX_CPU_ID: u32 = 65535;

/// Why a CPU mask was refused.
#[derive(Debug, Clone, Copy, PartialEq, Eq, Structural)]
pub enum CpuMaskError {
    /// Two commas with nothing between them, or an empty mask.
    EmptyToken,
    /// A CPU number that is not a 32-bit number.
    InvalidId,
    /// A CPU number above the supported limit.
    IdTooLarge,
    /// A range whose start is after its end.
    ReversedRange,
    /// More CPUs than the supported limit.
    TooManyCpus,
}

/// A CPU number of a mask: a trimmed 32-bit number no larger than `MAX_CPU_ID`.
pub open spec fn cpu_id(value: Seq<char>) -> Result<u32, CpuMaskError> {
    match parse_unsigned(trim(value), 10, u32::MAX as nat) {
        Some(v) => if v > MAX_CPU_ID {
            Err(CpuMaskError::IdTooLarge)
        } else {
            Ok(v as u32)
        },
        None => Err(CpuMaskError::InvalidId),
    }
}

pub fn parse_cpu_id(value: &[char]) -> (r: Result<u32, CpuMaskError>)
    ensures
        r == cpu_id(value@),
{
    let t = trim_chars(value);
    match parse_unsigned_chars(&t, 10, u32::MAX as u64) {
        Some(v) => if v > MAX_CPU_ID as u64 {
            Err(CpuMaskError::IdTooLarge)
        } else {
            Ok(v as u32)
        },
        None => Err(CpuMaskError::InvalidId),
    }
}

/// The range a trimmed token names: `a-b`, or a single CPU `a`.
pub open spec fn token_range(token: Seq<char>) -> Result<(u32, u32), CpuMaskError> {
    if token.len() == 0 {
        Err(CpuMaskError::EmptyToken)
    } else {
        match split_once(token, '-') {
            Some((a, b)) => match cpu_id(a) {
                Ok(x) => match cpu_id(b) {
                    Ok(y) => Ok((x, y)),
                    Err(e) => Err(e),
                },
                Err(e) => Err(e),
            },
            None => match cpu_id(token) {
                Ok(x) => Ok((x, x)),
                Err(e) => Err(e),
            },
        }
    }
}

pub open spec fn cpu_range(a: u32, b: u32) -> Set<u32> {
    Set::new(|c: u32| a <= c <= b)
}

/// The CPUs of a strict CPU mask, or the first reason to refuse it: every
/// token must be a CPU or an increasing range, and neither one range nor the
/// running set may exceed `MAX_CPU_COUNT` CPUs.
pub open spec fn mask_fold(tokens: Seq<Seq<char>>) -> Result<Set<u32>, CpuMaskError>
    decreases tokens.len(),
{
    if tokens.len() == 0 {
        Ok(Set::empty())
    } else {
        match mask_fold(tokens.drop_last()) {
            Err(e) => Err(e),
            Ok(set) => match token_range(trim(tokens.last())) {
                Err(e) => Err(e),
                Ok((a, b)) => if a > b {
                    Err(CpuMaskError::ReversedRange)
                } else if b - a + 1 > MAX_CPU_COUNT {
                    Err(CpuMaskError::TooManyCpus)
                } else if (set + cpu_range(a, b)).len() > MAX_CPU_COUNT {
                    Err(CpuMaskError::TooManyCpus)
                } else {
                    Ok(set + cpu_range(a, b))
                },
            },
        }
    }
}

pub open spec fn cpu_mask(value: Seq<char>) -> Result<Set<u32>, CpuMaskError> {
    mask_fold(split(value, ','))
}

proof fn lemma_sorted_len(v: Seq<u32>, s: Set<u32>)
    requires
        strictly_sorted(v),
        forall|c: u32| #[trigger] v.contains(c) <==> s.contains(c),
    ensures
        v.len() == s.len(),
        s.finite(),
{
    assert(v.no_duplicates()) by {
        assert forall|i: int, j: int| 0 <= i < v.len() && 0 <= j < v.len() && i != j implies v[i] != v[j] by {
            if i < j {
                assert(v[i] < v[j]);
            } else {
                assert(v[j] < v[i]);
            }
        }
    }
    v.unique_seq_to_set();
    assert(v.to_set() =~= s);
    broadcast use vstd::seq_lib::seq_to_set_is_finite;
}

/// Parses a strict CPU mask, refusing it without expanding what is unsafe.
pub fn parse_cpu_mask(value: &str) -> (r: Result<Vec<u32>, CpuMaskError>)
    ensures
        r matches Ok(v) ==> cpu_mask(value@) matches Ok(s) && strictly_sorted(v@) && forall|c: u32| #[trigger] v@.contains(c) <==> s.contains(c),
        r matches Err(e) ==> cpu_mask(value@) == Err::<Set<u32>, CpuMaskError>(e),
{
    let c = chars_of(value);
    let tokens = split_chars(&c, ',');
    let ghost ts = split(value@, ',');
    let mut cpus: Vec<u32> = Vec::new();
    let ghost mut set: Set<u32> = Set::empty();
    let mut i: usize = 0;
    while i < tokens.len()
        invariant
            i <= tokens@.len(),
            views(tokens@) == ts,
            ts == split(value@, ','),
            mask_fold(ts.take(i as int)) == Ok::<Set<u32>, CpuMaskError>(set),
            strictly_sorted(cpus@),
            set.finite(),
            forall|d: u32| #[trigger] cpus@.contains(d) <==> set.contains(d),
            cpus@.len() <= MAX_CPU_COUNT,
        decreases tokens.len() - i,
    {
        proof {
            assert(ts.take(i + 1).drop_last() =~= ts.take(i as int));
            assert(ts[i as int] == tokens@[i as int]@);
            lemma_sorted_len(cpus@, set);
        }
        let t = trim_chars(&tokens[i]);
        if t.len() == 0 {
            proof {
                lemma_mask_err_prefix(ts, i + 1);
            }
            return Err(CpuMaskError::EmptyToken);
        }
        let (a, b) = match split_once_chars(&t, '-') {
            Some((x, y)) => {
                let a = match parse_cpu_id(&x) {
                    Ok(a) => a,
                    Err(e) => {
                        proof {
                            lemma_mask_err_prefix(ts, i + 1);
                        }
                        return Err(e);
                    },
                };
                let b = match parse_cpu_id(&y) {
                    Ok(b) => b,
                    Err(e) => {
                        proof {
                            lemma_mask_err_prefix(ts, i + 1);
                        }
                        return Err(e);
                    },
                };
                (a, b)
            },
            None => {
                let a = match parse_cpu_id(&t) {
                    Ok(a) => a,
                    Err(e) => {
                        proof {
                            lemma_mask_err_prefix(ts, i + 1);
                        }
                        return Err(e);
                    },
                };
                (a, a)
            },
        };
        if a > b {
            proof {
                lemma_mask_err_prefix(ts, i + 1);
            }
            return Err(CpuMaskError::ReversedRange);
        }
        if (b - a) as u64 + 1 > MAX_CPU_COUNT {
            proof {
                lemma_mask_err_prefix(ts, i + 1);
            }
            return Err(CpuMaskError::TooManyCpus);
        }
        assert(token_range(trim(ts[i as int])) == Ok::<(u32, u32), CpuMaskError>((a, b)));
        let ghost next = set + cpu_range(a, b);
        proof {
            lemma_union_finite(set, a, b);
        }
        let mut cpu: u64 = a as u64;
        while cpu <= b as u64
            invariant
                a <= cpu <= b as u64 + 1,
                b <= MAX_CPU_ID,
                set.finite(),
                next == set + cpu_range(a, b),
                next.finite(),
                strictly_sorted(cpus@),
                forall|d: u32| #[trigger] cpus@.contains(d) <==> (set.contains(d) || (a <= d && d < cpu)),
                cpus@.len() <= MAX_CPU_COUNT,
                i < ts.len(),
                ts == split(value@, ','),
                mask_fold(ts.take(i as int)) == Ok::<Set<u32>, CpuMaskError>(set),
                ts.take(i + 1).drop_last() == ts.take(i as int),
                ts.take(i + 1).last() == ts[i as int],
                token_range(trim(ts[i as int])) == Ok::<(u32, u32), CpuMaskError>((a, b)),
                a <= b,
                b - a + 1 <= MAX_CPU_COUNT,
            decreases b as u64 + 1 - cpu,
        {
            insert_sorted(&mut cpus, cpu as u32);
            let ghost sofar = Set::new(|d: u32| set.contains(d) || (a <= d && d <= cpu));
            proof {
                assert forall|d: u32| #[trigger] cpus@.contains(d) <==> sofar.contains(d) by {}
                lemma_sorted_len(cpus@, sofar);
                assert(sofar.subset_of(next));
                vstd::set_lib::lemma_len_subset(sofar, next);
            }
            if cpus.len() as u64 > MAX_CPU_COUNT {
                proof {
                    assert(next.len() > MAX_CPU_COUNT);
                    assert(mask_fold(ts.take(i + 1)) == Err::<Set<u32>, CpuMaskError>(CpuMaskError::TooManyCpus));
                    lemma_mask_err_prefix(ts, i + 1);
                }
                return Err(CpuMaskError::TooManyCpus);
            }
            cpu += 1;
        }
        proof {
            assert forall|d: u32| #[trigger] cpus@.contains(d) <==> next.contains(d) by {}
            lemma_sorted_len(cpus@, next);
            set = next;
        }
        i += 1;
    }
    assert(ts.take(tokens.len() as int) =~= ts);
    Ok(cpus)
}

proof fn lemma_mask_err_prefix(ts: Seq<Seq<char>>, k: int)
    requires
        0 <= k <= ts.len(),
        mask_fold(ts.take(k)) is Err,
    ensures
        mask_fold(ts) == mask_fold(ts.take(k)),
    decreases ts.len() - k,
{
    if k < ts.len() {
        assert(ts.take(k + 1).drop_last() =~= ts.take(k));
        lemma_mask_err_prefix(ts, k + 1);
    } else {
        assert(ts.take(k) =~= ts);
    }
}

proof fn lemma_union_finite(set: Set<u32>, a: u32, b: u32)
    requires
        set.finite(),
    ensures
        (set + cpu_range(a, b)).finite(),
{
    let full = Set::new(|c: u32| true);
    assert(cpu_range(a, b).subset_of(Set::new(|c: u32| c <= b)));
    lemma_bounded_finite(b);
    vstd::set_lib::lemma_set_union_finite_iff(set, cpu_range(a, b));
    vstd::set_lib::lemma_set_subset_finite(Set::new(|c: u32| c <= b), cpu_range(a, b));
}

proof fn lemma_bounded_finite(b: u32)
    ensures
        Set::new(|c: u32| c <= b).finite(),
    decreases b,
{
    if b == 0 {
        assert(Set::new(|c: u32| c <= b) =~= set![0u32]);
    } else {
        lemma_bounded_finite((b - 1) as u32);
        assert(Set::new(|c: u32| c <= b) =~= Set::new(|c: u32| c <= (b - 1) as u32).insert(b));
    }
}

// ---------------------------------------------------------------------------
// Descriptor budget
// ---------------------------------------------------------------------------
/// Descriptors that one CPU's counter group holds.
pub const PERF_FDS_PER_CPU: u128 = 2;

/// Descriptors kept free for everything else.
pub const FD_HEADROOM: u128 = 128;

pub open spec fn sat_u128(n: int) -> nat {
    if n > u128::MAX {
        u128::MAX as nat
    } else if n < 0 {
        0
    } else {
        n as nat
    }
}

/// Whether counter groups for all online CPUs fit under the soft descriptor
/// limit, keeping the headroom free: the descriptors open besides the
/// existing groups, plus the headroom, plus two per online CPU (each step
/// saturating at `u128::MAX`).
pub open spec fn descriptor_budget(soft_limit: u128, open_descriptors: u128, open_groups: u128, online_cpus: u128) -> bool {
    let effective = sat_u128(open_groups * PERF_FDS_PER_CPU);
    let other = sat_u128(open_descriptors - effective);
    let required = sat_u128(online_cpus * PERF_FDS_PER_CPU);
    sat_u128((sat_u128(other + FD_HEADROOM) + required) as int) <= soft_limit
}

/// `n * PERF_FDS_PER_CPU`, saturating.
fn times_fds_per_cpu(n: u128) -> (r: u128)
    ensures
        r == sat_u128(n * PERF_FDS_PER_CPU),
{
    if n > u128::MAX / PERF_FDS_PER_CPU {
        u128::MAX
    } else {
        n * PERF_FDS_PER_CPU
    }
}

pub fn descriptor_budget_allows_values(
    soft_limit: u128,
    open_descriptors: u128,
    open_groups: u128,
    online_cpus: u128,
) -> (r: bool)
    ensures
        r == descriptor_budget(soft_limit, open_descriptors, open_groups, online_cpus),
{
    let effective = times_fds_per_cpu(open_groups);
    let other = open_descriptors.saturating_sub(effective);
    let required = times_fds_per_cpu(online_cpus);
    other.saturating_add(FD_HEADROOM).saturating_add(required) <= soft_limit
}

// ---------------------------------------------------------------------------
// Per-CPU sampling
// ---------------------------------------------------------------------------
/// When a CPU without an open counter group tries again.
#[derive(Debug, Clone, Copy, PartialEq, Eq, Structural)]
pub enum RetryPolicy {
    NextSample,
    RecoveryNextSample,
    StaleUntilFullDiscovery,
    UnavailableUntilFullDiscovery,
}

impl Default for RetryPolicy {
    fn default() -> (r: Self)
        ensures
            r == RetryPolicy::NextSample,
    {
        RetryPolicy::NextSample
    }
}

/// The freshness a CPU reports while it waits for a full discovery.
pub open spec fn waiting_freshness_of(r: RetryPolicy) -> Option<ReadingFreshness> {
    match r {
        RetryPolicy::StaleUntilFullDiscovery => Some(ReadingFreshness::Stale),
        RetryPolicy::UnavailableUntilFullDiscovery => Some(ReadingFreshness::Unavailable),
        _ => None,
    }
}

/// What a full discovery turns a waiting policy into.
pub open spec fn after_full_discovery_of(r: RetryPolicy) -> RetryPolicy {
    match r {
        RetryPolicy::StaleUntilFullDiscovery => RetryPolicy::RecoveryNextSample,
        RetryPolicy::UnavailableUntilFullDiscovery => RetryPolicy::NextSample,
        _ => r,
    }
}

impl RetryPolicy {
    pub fn waiting_freshness(self) -> (r: Option<ReadingFreshness>)
        ensures
            r == waiting_freshness_of(self),
    {
        match self {
            RetryPolicy::StaleUntilFullDiscovery => Some(ReadingFreshness::Stale),
            RetryPolicy::UnavailableUntilFullDiscovery => Some(ReadingFreshness::Unavailable),
            _ => None,
        }
    }

    pub fn after_full_discovery(self) -> (r: RetryPolicy)
        ensures
            r == after_full_discovery_of(self),
    {
        match self {
            RetryPolicy::StaleUntilFullDiscovery => RetryPolicy::RecoveryNextSample,
            RetryPolicy::UnavailableUntilFullDiscovery => RetryPolicy::NextSample,
            _ => self,
        }
    }
}

/// What the sampler keeps for one CPU, apart from the counters themselves.
#[derive(Debug, Clone, Copy, PartialEq, Eq, Structural)]
pub struct CpuSampleState {
    /// A counter group is open.
    pub has_group: bool,
    /// A baseline reading is held.
    pub has_previous: bool,
    /// An effective clock was measured before.
    pub has_last_value: bool,
    pub retry: RetryPolicy,
}

/// What the sampler has to do for a CPU.
#[derive(Debug, Clone, Copy, PartialEq, Eq, Structural)]
pub enum SamplePlan {
    /// Nothing to read; the CPU reports this freshness.
    Report(ReadingFreshness),
    /// Open a counter group, then read it.
    OpenAndRead,
    /// Read the open counter group.
    Read,
}

/// What opening and reading the counters gave.
#[derive(Debug, Clone, Copy, PartialEq, Eq, Structural)]
pub enum SampleOutcome {
    /// Opening failed for a reason that affects every CPU.
    OpenFailedGlobally,
    /// Opening failed for this CPU.
    OpenFailed,
    /// The read failed.
    ReadFailed,
    /// The read gave the first baseline.
    Baseline,
    /// The interval since the baseline was rejected.
    Rejected,
    /// An effective clock was measured.
    Measured,
}

/// Counter failures that block every CPU until the next full discovery.
#[derive(Debug, Clone, Copy, PartialEq, Eq, Structural)]
pub struct GlobalCounterFailure;

/// What a CPU does at the start of a sample.
pub open spec fn plan_of(state: CpuSampleState, online: bool) -> (CpuSampleState, SamplePlan) {
    if !online {
        (
            CpuSampleState { has_group: false, has_previous: false, retry: RetryPolicy::NextSample, ..state },
            SamplePlan::Report(ReadingFreshness::Offline),
        )
    } else if !state.has_group {
        match waiting_freshness_of(state.retry) {
            Some(f) => (state, SamplePlan::Report(f)),
            None => (state, SamplePlan::OpenAndRead),
        }
    } else {
        (state, SamplePlan::Read)
    }
}

pub fn plan_sample(state: CpuSampleState, online: bool) -> (r: (CpuSampleState, SamplePlan))
    ensures
        r == plan_of(state, online),
{
    if !online {
        (
            CpuSampleState { has_group: false, has_previous: false, retry: RetryPolicy::NextSample, ..state },
            SamplePlan::Report(ReadingFreshness::Offline),
        )
    } else if !state.has_group {
        match state.retry.waiting_freshness() {
            Some(f) => (state, SamplePlan::Report(f)),
            None => (state, SamplePlan::OpenAndRead),
        }
    } else {
        (state, SamplePlan::Read)
    }
}

/// Stale when a value was measured before, else unavailable.
pub open spec fn kept_freshness(state: CpuSampleState) -> ReadingFreshness {
    if state.has_last_value {
        ReadingFreshness::Stale
    } else {
        ReadingFreshness::Unavailable
    }
}

/// The waiting policy after a failure while recovering.
pub open spec fn recovery_wait(state: CpuSampleState) -> RetryPolicy {
    if state.has_last_value {
        RetryPolicy::StaleUntilFullDiscovery
    } else {
        RetryPolicy::UnavailableUntilFullDiscovery
    }
}

/// How a planned open-and-read or read ends: the CPU's new state and the
/// freshness of what it reports, or a failure that concerns every CPU.  A
/// CPU that was recovering (its retry was `RecoveryNextSample`) and fails
/// again waits for the next full discovery.
pub open spec fn finish_of(state: CpuSampleState, outcome: SampleOutcome) -> (CpuSampleState, Result<ReadingFreshness, GlobalCounterFailure>) {
    let recovering = state.retry == RetryPolicy::RecoveryNextSample;
    match outcome {
        SampleOutcome::OpenFailedGlobally => (state, Err(GlobalCounterFailure)),
        SampleOutcome::OpenFailed => {
            let retry = if recovering && state.has_last_value {
                RetryPolicy::StaleUntilFullDiscovery
            } else {
                RetryPolicy::UnavailableUntilFullDiscovery
            };
            (CpuSampleState { retry, ..state }, Ok(waiting_freshness_of(retry)->0))
        },
        SampleOutcome::ReadFailed => (
            CpuSampleState {
                has_group: false,
                has_previous: false,
                retry: if recovering { recovery_wait(state) } else { RetryPolicy::RecoveryNextSample },
                ..state
            },
            Ok(kept_freshness(state)),
        ),
        SampleOutcome::Baseline => (
            CpuSampleState { has_group: true, has_previous: true, ..state },
            Ok(if recovering && state.has_last_value { ReadingFreshness::Stale } else { ReadingFreshness::Unavailable }),
        ),
        SampleOutcome::Rejected => (
            if recovering {
                CpuSampleState { has_group: false, has_previous: false, retry: recovery_wait(state), ..state }
            } else {
                CpuSampleState { has_group: true, has_previous: true, ..state }
            },
            Ok(kept_freshness(state)),
        ),
        SampleOutcome::Measured => (
            CpuSampleState { has_group: true, has_previous: true, has_last_value: true, retry: RetryPolicy::NextSample },
            Ok(ReadingFreshness::Current),
        ),
    }
}

pub fn finish_sample(state: CpuSampleState, outcome: SampleOutcome) -> (r: (CpuSampleState, Result<ReadingFreshness, GlobalCounterFailure>))
    ensures
        r == finish_of(state, outcome),
{
    let recovering = match state.retry {
        RetryPolicy::RecoveryNextSample => true,
        _ => false,
    };
    let kept = if state.has_last_value { ReadingFreshness::Stale } else { ReadingFreshness::Unavailable };
    let wait = if state.has_last_value {
        RetryPolicy::StaleUntilFullDiscovery
    } else {
        RetryPolicy::UnavailableUntilFullDiscovery
    };
    match outcome {
        SampleOutcome::OpenFailedGlobally => (state, Err(GlobalCounterFailure)),
        SampleOutcome::OpenFailed => {
            let retry = if recovering && state.has_last_value {
                RetryPolicy::StaleUntilFullDiscovery
            } else {
                RetryPolicy::UnavailableUntilFullDiscovery
            };
            let f = if recovering && state.has_last_value { ReadingFreshness::Stale } else { ReadingFreshness::Unavailable };
            (CpuSampleState { retry, ..state }, Ok(f))
        },
        SampleOutcome::ReadFailed => (
            CpuSampleState {
                has_group: false,
                has_previous: false,
                retry: if recovering { wait } else { RetryPolicy::RecoveryNextSample },
                ..state
            },
            Ok(kept),
        ),
        SampleOutcome::Baseline => (
            CpuSampleState { has_group: true, has_previous: true, ..state },
            Ok(if recovering && state.has_last_value { ReadingFreshness::Stale } else { ReadingFreshness::Unavailable }),
        ),
        SampleOutcome::Rejected => (
            if recovering {
                CpuSampleState { has_group: false, has_previous: false, retry: wait, ..state }
            } else {
                CpuSampleState { has_group: true, has_previous: true, ..state }
            },
            Ok(kept),
        ),
        SampleOutcome::Measured => (
            CpuSampleState { has_group: true, has_previous: true, has_last_value: true, retry: RetryPolicy::NextSample },
            Ok(ReadingFreshness::Current),
        ),
    }
}

/// A CPU only reports a stale value when it measured one before, and a
/// measurement always makes it current.
pub proof fn law_stale_needs_a_measurement(state: CpuSampleState, outcome: SampleOutcome)
    ensures
        finish_of(state, outcome).1 == Ok::<ReadingFreshness, GlobalCounterFailure>(ReadingFreshness::Stale) ==> state.has_last_value,
        outcome == SampleOutcome::Measured ==> finish_of(state, outcome).1 == Ok::<ReadingFreshness, GlobalCounterFailure>(ReadingFreshness::Current),
        finish_of(state, outcome).0.has_last_value == (state.has_last_value || outcome == SampleOutcome::Measured),
{
}

/// A CPU that waits for a full discovery keeps reporting its waiting
/// freshness without touching the counters, and a full discovery ends the wait.
pub proof fn law_waiting_cpus_keep_their_freshness(state: CpuSampleState)
    requires
        !state.has_group,
        waiting_freshness_of(state.retry) is Some,
    ensures
        plan_of(state, true) == (state, SamplePlan::Report(waiting_freshness_of(state.retry)->0)),
        waiting_freshness_of(after_full_discovery_of(state.retry)) is None,
{
}

// ---------------------------------------------------------------------------
// Counter intervals
// ---------------------------------------------------------------------------
/// Longest interval between two reads, in nanoseconds.
pub const MAX_INTERVAL_NS: u128 = 300_000_000_000;

/// The counts of one interval.
#[derive(Debug, Clone, Copy, PartialEq, Eq, Structural)]
pub struct CounterDeltas {
    pub aperf: u64,
    pub mperf: u64,
    pub enabled: u64,
    pub running: u64,
}

/// The counts between two grouped reads, when the interval is usable: its
/// length is positive and at most `MAX_INTERVAL_NS`, no counter went back,
/// the group was enabled and running, it did not run longer than it was
/// enabled, and the two counters either both advanced or both stood still.
pub open spec fn interval_deltas(previous: PerfGroupReading, current: PerfGroupReading, elapsed_ns: u128) -> Option<CounterDeltas> {
    if elapsed_ns == 0 || elapsed_ns > MAX_INTERVAL_NS || current.first < previous.first || current.second
        < previous.second || current.time_enabled < previous.time_enabled || current.time_running
        < previous.time_running {
        None
    } else {
        let d = CounterDeltas {
            aperf: (current.first - previous.first) as u64,
            mperf: (current.second - previous.second) as u64,
            enabled: (current.time_enabled - previous.time_enabled) as u64,
            running: (current.time_running - previous.time_running) as u64,
        };
        if d.enabled == 0 || d.running == 0 || d.running > d.enabled || ((d.aperf == 0) != (d.mperf == 0)) {
            None
        } else {
            Some(d)
        }
    }
}

pub fn counter_interval(previous: PerfGroupReading, current: PerfGroupReading, elapsed_ns: u128) -> (r: Option<CounterDeltas>)
    ensures
        r == interval_deltas(previous, current, elapsed_ns),
{
    if elapsed_ns == 0 || elapsed_ns > MAX_INTERVAL_NS || current.first < previous.first
        || current.second < previous.second || current.time_enabled < previous.time_enabled
        || current.time_running < previous.time_running {
        return None;
    }
    let d = CounterDeltas {
        aperf: current.first - previous.first,
        mperf: current.second - previous.second,
        enabled: current.time_enabled - previous.time_enabled,
        running: current.time_running - previous.time_running,
    };
    if d.enabled == 0 || d.running == 0 || d.running > d.enabled || ((d.aperf == 0) != (d.mperf == 0)) {
        None
    } else {
        Some(d)
    }
}

/// The moment halfway between two instants given in nanoseconds (the later
/// one when they are out of order).
pub open spec fn midpoint_of(before: u128, after: u128) -> u128 {
    if after >= before {
        (before + (after - before) / 2) as u128
    } else {
        before
    }
}

pub fn midpoint(before: u128, after: u128) -> (r: u128)
    ensures
        r == midpoint_of(before, after),
{
    let half = after.saturating_sub(before) / 2;
    before + half
}


// ---------------------------------------------------------------------------
// Aggregating per-CPU readings
// ---------------------------------------------------------------------------
/// What the aggregate needs of one CPU's reading: its freshness and whether
/// it holds a value.
#[derive(Debug, Clone, Copy, PartialEq, Eq, Structural)]
pub struct ReadingSummary {
    pub freshness: ReadingFreshness,
    pub has_value: bool,
}

/// The aggregate of the CPUs' readings: its freshness, how many CPUs were
/// measured, and how many take part in the average (measured CPUs and
/// offline CPUs, which count as zero). The average itself is the sum of the
/// measured values divided by `included`, when `included` is positive.
#[derive(Debug, Clone, Copy, PartialEq, Eq, Structural)]
pub struct AggregateCounts {
    pub freshness: ReadingFreshness,
    pub measured: usize,
    pub included: usize,
}

/// A current reading with a value.
pub open spec fn is_measured(r: ReadingSummary) -> bool {
    r.freshness == ReadingFreshness::Current && r.has_value
}

/// A reading that lacks a value it should have.
pub open spec fn is_missing(r: ReadingSummary) -> bool {
    r.freshness == ReadingFreshness::Unavailable || (r.freshness == ReadingFreshness::Current && !r.has_value)
}

/// How many of the first `n` readings were measured.
pub open spec fn measured_count(s: Seq<ReadingSummary>, n: nat) -> nat
    decreases n,
{
    if n == 0 {
        0
    } else {
        measured_count(s, (n - 1) as nat) + if is_measured(s[n - 1]) { 1nat } else { 0nat }
    }
}

/// How many of the first `n` readings take part in the average.
pub open spec fn included_count(s: Seq<ReadingSummary>, n: nat) -> nat
    decreases n,
{
    if n == 0 {
        0
    } else {
        included_count(s, (n - 1) as nat) + if is_measured(s[n - 1]) || s[n - 1].freshness
            == ReadingFreshness::Offline { 1nat } else { 0nat }
    }
}

/// Whether one of the readings is stale.
pub open spec fn any_stale(s: Seq<ReadingSummary>) -> bool {
    exists|i: int| 0 <= i < s.len() && #[trigger] s[i].freshness == ReadingFreshness::Stale
}

/// Whether one of the readings lacks its value.
pub open spec fn any_missing(s: Seq<ReadingSummary>) -> bool {
    exists|i: int| 0 <= i < s.len() && is_missing(#[trigger] s[i])
}

/// The freshness of the aggregate: current only when every CPU is current
/// or offline and at least one takes part; stale when some CPU is stale or
/// missing but others take part, or when only stale CPUs remain.
pub open spec fn aggregate_freshness(s: Seq<ReadingSummary>) -> ReadingFreshness {
    if included_count(s, s.len()) > 0 {
        if any_stale(s) || any_missing(s) {
            ReadingFreshness::Stale
        } else {
            ReadingFreshness::Current
        }
    } else if any_stale(s) {
        ReadingFreshness::Stale
    } else {
        ReadingFreshness::Unavailable
    }
}

/// Combines the CPUs' readings into the package reading.
pub fn aggregate_readings(readings: &[ReadingSummary]) -> (r: AggregateCounts)
    ensures
        r.measured == measured_count(readings@, readings@.len()),
        r.included == included_count(readings@, readings@.len()),
        r.freshness == aggregate_freshness(readings@),
{
    let mut measured: usize = 0;
    let mut included: usize = 0;
    let mut stale = false;
    let mut missing = false;
    let mut i: usize = 0;
    while i < readings.len()
        invariant
            i <= readings@.len(),
            measured == measured_count(readings@, i as nat),
            included == included_count(readings@, i as nat),
            measured <= i,
            included <= i,
            stale == (exists|j: int| 0 <= j < i && #[trigger] readings@[j].freshness == ReadingFreshness::Stale),
            missing == (exists|j: int| 0 <= j < i && is_missing(#[trigger] readings@[j])),
        decreases readings@.len() - i,
    {
        let r = readings[i];
        match r.freshness {
            ReadingFreshness::Current => {
                if r.has_value {
                    measured = measured + 1;
                    included = included + 1;
                } else {
                    missing = true;
                }
            },
            ReadingFreshness::Offline => {
                included = included + 1;
            },
            ReadingFreshness::Stale => {
                stale = true;
            },
            ReadingFreshness::Unavailable => {
                missing = true;
            },
        }
        proof {
            assert(readings@[i as int] == r);
            if stale {
                if r.freshness != ReadingFreshness::Stale {
                    let j = choose|j: int| 0 <= j < i && #[trigger] readings@[j].freshness == ReadingFreshness::Stale;
                    assert(0 <= j < i + 1 && readings@[j].freshness == ReadingFreshness::Stale);
                }
            }
            if missing {
                if !is_missing(r) {
                    let j = choose|j: int| 0 <= j < i && is_missing(#[trigger] readings@[j]);
                    assert(0 <= j < i + 1 && is_missing(readings@[j]));
                }
            }
        }
        i = i + 1;
    }
    let freshness = if included > 0 {
        if stale || missing {
            ReadingFreshness::Stale
        } else {
            ReadingFreshness::Current
        }
    } else if stale {
        ReadingFreshness::Stale
    } else {
        ReadingFreshness::Unavailable
    };
    AggregateCounts { freshness, measured, included }
}

} // verus!
