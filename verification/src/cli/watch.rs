//! The cadence of the `watch` command: one sample per interval, measured
//! from the start of each sample, without catching up after an overrun.
use vstd::prelude::*;
use crate::terminal::TerminalView;

verus! {

/// How long to wait between polls of a busy collector.
pub const WORKER_POLL_INTERVAL_MS: u64 = 5;

/// The settings of the `watch` command.
#[derive(Debug, Clone)]
pub struct WatchArgs {
    /// The refresh interval.
    pub interval_ms: u64,
    /// How often full discovery re-runs for hotplug and label changes.
    pub rediscover_ms: u64,
    /// How often storage health is refreshed when it is enabled.
    pub health_interval_ms: u64,
    /// The initial terminal view.
    pub view: TerminalView,
    /// Emit one JSON snapshot per line instead of the terminal UI.
    pub jsonl: bool,
    /// Start in the diagnostic mode.
    pub verbose: bool,
}

impl Default for WatchArgs {
    /// One refresh a second, rediscovery every 30 s, health every 30 min,
    /// the mixed view, the terminal UI.
    fn default() -> (r: Self)
        ensures
            r.interval_ms == 1000,
            r.rediscover_ms == 30_000,
            r.health_interval_ms == 1_800_000,
            r.view == TerminalView::Mixed,
            !r.jsonl,
            !r.verbose,
    {
        WatchArgs {
            interval_ms: 1000,
            rediscover_ms: 30_000,
            health_interval_ms: 1_800_000,
            view: TerminalView::Mixed,
            jsonl: false,
            verbose: false,
        }
    }
}

/// When the next sample starts: one interval after the last one started,
/// or at once when that moment has already passed.
pub open spec fn next_deadline(started: nat, finished: nat, interval: nat) -> nat {
    if started + interval <= finished {
        finished
    } else {
        started + interval
    }
}

/// The next sample's start, in nanoseconds on a monotonic clock.
pub fn next_sample_deadline(started: u128, finished: u128, interval: u128) -> (r: u128)
    requires
        started + interval <= u128::MAX,
    ensures
        r == next_deadline(started as nat, finished as nat, interval as nat),
{
    let scheduled = started + interval;
    if scheduled <= finished {
        finished
    } else {
        scheduled
    }
}

/// How long to sleep until `deadline`: nothing once it has passed.
pub fn time_until(deadline: u128, now: u128) -> (r: u128)
    ensures
        r == (if deadline >= now { deadline - now } else { 0 }),
{
    deadline.saturating_sub(now)
}

/// A sample never starts before the previous one finished, nor earlier than
/// one interval after the previous one started; and when work fits in the
/// interval, the cadence is exact.
pub proof fn law_deadline_keeps_cadence(started: nat, finished: nat, interval: nat)
    ensures
        next_deadline(started, finished, interval) >= finished,
        next_deadline(started, finished, interval) >= started + interval,
        finished < started + interval ==> next_deadline(started, finished, interval) == started
            + interval,
        finished >= started + interval ==> next_deadline(started, finished, interval) == finished,
{
}

} // verus!
