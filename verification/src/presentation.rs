//! How a reading is shown in tables: its status text, whether it is
//! dimmed, and whether its status may be colored.
use vstd::prelude::*;
use crate::alerts::{state_label, AlertState};
use crate::model::{ReadingFreshness, SensorStatus};
use crate::text::{append_chars, append_str, chars_of, decimal, decimal_chars, string_of};

verus! {

/// Shown where a value is missing.
pub const EMPTY_VALUE: &'static str = "—";

/// The formatted cells of one reading.
#[derive(Debug, Clone, PartialEq, Eq)]
pub struct SensorPresentation {
    pub current: String,
    pub minimum: String,
    pub maximum: String,
    pub average: String,
    pub status: String,
    pub current_color: Option<String>,
    pub minimum_color: Option<String>,
    pub maximum_color: Option<String>,
    pub average_color: Option<String>,
    pub status_color: Option<String>,
    pub dimmed: bool,
}

/// The status cell of a reading. A reading that is not current says so
/// (with how long ago a stale one was last updated, when known); a fault
/// or missing value says so; an intermittently sampled value says when it
/// was sampled; then a user alert that is not normal; then an alarm raised
/// against unconfigured limits; else the hardware status.
pub open spec fn status_cell(
    freshness: ReadingFreshness,
    last_update_age: Option<Seq<char>>,
    status: SensorStatus,
    sample_age: Option<Seq<char>>,
    has_rule: bool,
    state: AlertState,
    limits_unconfigured: bool,
) -> Seq<char> {
    match freshness {
        ReadingFreshness::Stale => match last_update_age {
            Some(a) => "Stale — last updated "@ + a,
            None => "Stale"@,
        },
        ReadingFreshness::Unavailable => "Unavailable"@,
        ReadingFreshness::Offline => "Offline"@,
        ReadingFreshness::Current => if status == SensorStatus::Fault {
            "Fault"@
        } else if status == SensorStatus::Unavailable {
            "Unavailable"@
        } else if sample_age is Some {
            "Sampled "@ + sample_age->0
        } else if has_rule && state != AlertState::Normal {
            state_label(state)
        } else if limits_unconfigured {
            "Limits not configured"@
        } else if status == SensorStatus::Okay {
            "Normal"@
        } else {
            "Hardware alarm"@
        },
    }
}

fn prefixed(prefix: &str, rest: &str) -> (r: String)
    ensures
        r@ == prefix@ + rest@,
{
    let mut v = chars_of(prefix);
    append_str(&mut v, rest);
    string_of(&v)
}

/// The status cell; the ages are already formatted.
pub fn sensor_status(
    freshness: ReadingFreshness,
    last_update_age: Option<&str>,
    status: SensorStatus,
    sample_age: Option<&str>,
    has_rule: bool,
    state: AlertState,
    limits_unconfigured: bool,
) -> (r: String)
    ensures
        r@ == status_cell(
            freshness,
            match last_update_age {
                Some(a) => Some(a@),
                None => None,
            },
            status,
            match sample_age {
                Some(a) => Some(a@),
                None => None,
            },
            has_rule,
            state,
            limits_unconfigured,
        ),
{
    match freshness {
        ReadingFreshness::Stale => {
            return match last_update_age {
                Some(a) => prefixed("Stale — last updated ", a),
                None => "Stale".to_string(),
            };
        },
        ReadingFreshness::Unavailable => return "Unavailable".to_string(),
        ReadingFreshness::Offline => return "Offline".to_string(),
        ReadingFreshness::Current => {},
    }
    match status {
        SensorStatus::Fault => return "Fault".to_string(),
        SensorStatus::Unavailable => return "Unavailable".to_string(),
        _ => {},
    }
    if let Some(a) = sample_age {
        return prefixed("Sampled ", a);
    }
    if has_rule && state != AlertState::Normal {
        return state.label().to_string();
    }
    if limits_unconfigured {
        return "Limits not configured".to_string();
    }
    match status {
        SensorStatus::Okay => "Normal".to_string(),
        _ => "Hardware alarm".to_string(),
    }
}

/// Whether a reading's status cell may take its alert color: only a
/// current reading with a value.
pub open spec fn status_colorable(freshness: ReadingFreshness, status: SensorStatus) -> bool {
    freshness == ReadingFreshness::Current && status != SensorStatus::Fault && status
        != SensorStatus::Unavailable
}

pub fn status_color_allowed(freshness: ReadingFreshness, status: SensorStatus) -> (r: bool)
    ensures
        r == status_colorable(freshness, status),
{
    freshness == ReadingFreshness::Current && status != SensorStatus::Fault && status
        != SensorStatus::Unavailable
}

/// A reading that is not current is dimmed.
pub fn dimmed(freshness: ReadingFreshness) -> (r: bool)
    ensures
        r == (freshness != ReadingFreshness::Current),
{
    freshness != ReadingFreshness::Current
}


/// How long ago a reading was updated, compactly: seconds below a minute,
/// minutes below an hour, else hours (a timestamp in the future counts as
/// now).
pub open spec fn age_compact(timestamp_ms: u128, now_ms: u128) -> Seq<char> {
    let elapsed: nat = if now_ms >= timestamp_ms {
        (now_ms - timestamp_ms) as nat
    } else {
        0
    };
    let seconds: nat = elapsed / 1000;
    if seconds < 60 {
        decimal(seconds) + "s ago"@
    } else if seconds < 3600 {
        decimal(seconds / 60) + " min ago"@
    } else {
        decimal(seconds / 3600) + " h ago"@
    }
}

pub fn format_age_compact(timestamp_ms: u128, now_ms: u128) -> (r: String)
    ensures
        r@ == age_compact(timestamp_ms, now_ms),
{
    let seconds = now_ms.saturating_sub(timestamp_ms) / 1000;
    let mut v: Vec<char> = Vec::new();
    if seconds < 60 {
        append_chars(&mut v, &decimal_chars(seconds));
        append_str(&mut v, "s ago");
    } else if seconds < 3600 {
        append_chars(&mut v, &decimal_chars(seconds / 60));
        append_str(&mut v, " min ago");
    } else {
        append_chars(&mut v, &decimal_chars(seconds / 3600));
        append_str(&mut v, " h ago");
    }
    string_of(&v)
}

} // verus!
