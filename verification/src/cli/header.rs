//! The one-line header of the terminal monitor: what it shows at each
//! width, with fixed-width metric fields so that live updates do not make
//! the line jump.
use vstd::prelude::*;
use crate::cli::sensors::{pad, padded, spaces};
use crate::text::{append_str, chars_of, decimal, decimal_string, string_of};

verus! {

/// The width of the state label.
pub const STATE_WIDTH: usize = 8;
/// The width of a latency field.
pub const LATENCY_WIDTH: usize = 7;
/// The width of the sample counter.
pub const COUNT_WIDTH: usize = 6;
/// The width of a line number.
pub const LINE_WIDTH: usize = 5;

/// Whether the monitor is sampling.
#[derive(Debug, Clone, Copy, PartialEq, Eq, Structural)]
pub enum ActivityState {
    Live,
    Paused,
}

pub open spec fn activity_label(s: ActivityState) -> Seq<char> {
    match s {
        ActivityState::Live => "LIVE"@,
        ActivityState::Paused => "PAUSED"@,
    }
}

impl ActivityState {
    pub fn label(self) -> (r: &'static str)
        ensures
            r@ == activity_label(self),
    {
        match self {
            ActivityState::Live => "LIVE",
            ActivityState::Paused => "PAUSED",
        }
    }
}

/// What `format!("{:.N}", d.as_secs_f64())` shows for the duration of
/// `secs` seconds and `nanos` nanoseconds (decimal rendering of a binary
/// floating-point value, which takes pages to state).
pub uninterp spec fn seconds_text(secs: u64, nanos: u32, decimals: nat) -> Seq<char>;

/// Shows a duration in seconds with `decimals` decimals, through `f64`.
#[verifier::external_body]
fn format_seconds(secs: u64, nanos: u32, decimals: usize) -> (r: String)
    requires
        nanos < 1_000_000_000,
        decimals <= 3,
    ensures
        r@ == seconds_text(secs, nanos, decimals as nat),
        secs < 100 ==> r@.len() <= decimals + 4,
{
    format!("{:.*}", decimals, std::time::Duration::new(secs, nanos).as_secs_f64())
}

fn seconds(duration_nanos: u64, decimals: usize) -> (r: String)
    requires
        decimals <= 3,
    ensures
        r@ == seconds_text(
            (duration_nanos / 1_000_000_000) as u64,
            (duration_nanos % 1_000_000_000) as u32,
            decimals as nat,
        ),
        duration_nanos < 100_000_000_000 ==> r@.len() <= decimals + 4,
{
    format_seconds(duration_nanos / 1_000_000_000, (duration_nanos % 1_000_000_000) as u32, decimals)
}

/// The text of a latency before padding: microseconds below a millisecond,
/// milliseconds below a second, seconds with two decimals below 100 s.
pub open spec fn latency_value(duration_nanos: Option<u64>) -> Seq<char> {
    match duration_nanos {
        None => "startup"@,
        Some(n) => if n < 1_000_000 {
            decimal(if n / 1000 < 999 { (n / 1000) as nat } else { 999 }) + "µs"@
        } else if n < 1_000_000_000 {
            decimal(if n / 1_000_000 < 999 { (n / 1_000_000) as nat } else { 999 }) + "ms"@
        } else if n < 100_000_000_000 {
            seconds_text((n / 1_000_000_000) as u64, (n % 1_000_000_000) as u32, 2) + "s"@
        } else {
            ">99.9s"@
        },
    }
}

/// A latency right-aligned in its field.
pub fn latency_field(duration_nanos: Option<u64>) -> (r: String)
    ensures
        r@ == padded(latency_value(duration_nanos), LATENCY_WIDTH as nat, false),
        r@.len() == LATENCY_WIDTH,
{
    let value: String = match duration_nanos {
        None => "startup".to_string(),
        Some(n) => if n < 1_000_000 {
            let us = if n / 1000 < 999 { n / 1000 } else { 999 };
            let mut v = chars_of(decimal_string(us as u128).as_str());
            append_str(&mut v, "µs");
            string_of(&v)
        } else if n < 1_000_000_000 {
            let ms = if n / 1_000_000 < 999 { n / 1_000_000 } else { 999 };
            let mut v = chars_of(decimal_string(ms as u128).as_str());
            append_str(&mut v, "ms");
            string_of(&v)
        } else if n < 100_000_000_000 {
            let text = seconds(n, 2);
            let mut v = chars_of(text.as_str());
            append_str(&mut v, "s");
            proof {
                reveal_strlit("s");
                assert(v@.len() <= LATENCY_WIDTH);
            }
            string_of(&v)
        } else {
            ">99.9s".to_string()
        },
    };
    assert(value@.len() <= LATENCY_WIDTH) by {
        reveal_strlit("startup");
        reveal_strlit("µs");
        reveal_strlit("ms");
        reveal_strlit(">99.9s");
        match duration_nanos {
            Some(n) => {
                if n < 1_000_000 {
                    lemma_decimal_len_3(if n / 1000 < 999 { (n / 1000) as nat } else { 999 });
                } else if n < 1_000_000_000 {
                    lemma_decimal_len_3(if n / 1_000_000 < 999 { (n / 1_000_000) as nat } else { 999 });
                }
            },
            None => {},
        }
    }
    proof {
        reveal_strlit("startup");
        reveal_strlit("µs");
        reveal_strlit("ms");
        reveal_strlit(">99.9s");
        match duration_nanos {
            Some(n) => {
                if n < 1_000_000 {
                    lemma_decimal_len_3(if n / 1000 < 999 { (n / 1000) as nat } else { 999 });
                } else if n < 1_000_000_000 {
                    lemma_decimal_len_3(if n / 1_000_000 < 999 { (n / 1_000_000) as nat } else { 999 });
                }
            },
            None => {},
        }
    }
    pad(value.as_str(), LATENCY_WIDTH, false)
}

proof fn lemma_decimal_len_3(n: nat)
    requires
        n <= 999,
    ensures
        decimal(n).len() <= 3,
{
    reveal_with_fuel(decimal, 4);
}

/// A counter right-aligned in `width` characters, or `99…9+` when it does
/// not fit.
pub open spec fn bounded_text(value: u64, width: nat) -> Seq<char> {
    if decimal(value as nat).len() <= width {
        padded(decimal(value as nat), width, false)
    } else {
        Seq::new((if width > 0 { width - 1 } else { 0 }) as nat, |i: int| '9').push('+')
    }
}

pub fn bounded_number(value: u64, width: usize) -> (r: String)
    ensures
        r@ == bounded_text(value, width as nat),
        width > 0 ==> r@.len() == width,
{
    let text = decimal_string(value as u128);
    let t = chars_of(text.as_str());
    if t.len() <= width {
        return pad(text.as_str(), width, false);
    }
    let n: usize = if width > 0 { width - 1 } else { 0 };
    let mut v: Vec<char> = Vec::new();
    let mut i: usize = 0;
    while i < n
        invariant
            i <= n,
            v@ == Seq::new(i as nat, |k: int| '9'),
        decreases n - i,
    {
        v.push('9');
        assert(v@ =~= Seq::new((i + 1) as nat, |k: int| '9'));
        i += 1;
    }
    v.push('+');
    string_of(&v)
}

/// What the header shows: the state, the mode, the refresh interval, how
/// long collection and rendering took, how many samples were taken, and
/// which lines are on screen. Durations are in nanoseconds.
#[derive(Debug, Clone)]
pub struct HeaderData {
    pub state: ActivityState,
    pub mode: String,
    pub interval_nanos: u64,
    pub collection_latency_nanos: Option<u64>,
    pub render_latency_nanos: u64,
    pub samples: u64,
    pub first_line: usize,
    pub last_line: usize,
    pub total_lines: usize,
}

/// The three segments of the header: identity on the left, then the state
/// and the metrics on the right.
#[derive(Debug, Clone, PartialEq, Eq)]
pub struct HeaderLayout {
    pub left: String,
    pub state: String,
    pub metrics: String,
}

/// The identity segment with the mode and the refresh interval.
pub open spec fn full_left_text(mode: Seq<char>, interval_nanos: u64) -> Seq<char> {
    "HWall  •  "@ + mode + "  •  refresh "@ + seconds_text(
        (interval_nanos / 1_000_000_000) as u64,
        (interval_nanos % 1_000_000_000) as u32,
        3,
    ) + "s"@
}

/// The identity segment with the mode only.
pub open spec fn mode_left_text(mode: Seq<char>) -> Seq<char> {
    "HWall  •  "@ + mode
}

/// The widest identity segment that leaves room for the state label.
pub open spec fn left_text(width: nat, mode: Seq<char>, interval_nanos: u64) -> Seq<char> {
    if full_left_text(mode, interval_nanos).len() + STATE_WIDTH <= width {
        full_left_text(mode, interval_nanos)
    } else if mode_left_text(mode).len() + STATE_WIDTH <= width {
        mode_left_text(mode)
    } else {
        "HWall"@
    }
}

/// The metrics candidates, widest first.
pub open spec fn metric_candidates(d: HeaderData) -> Seq<Seq<char>> {
    let samples = bounded_text(d.samples, COUNT_WIDTH as nat);
    let first = bounded_text(d.first_line as u64, LINE_WIDTH as nat);
    let last = bounded_text(d.last_line as u64, LINE_WIDTH as nat);
    let total = bounded_text(d.total_lines as u64, LINE_WIDTH as nat);
    let collection = padded(latency_value(d.collection_latency_nanos), LATENCY_WIDTH as nat, false);
    let rendering = padded(latency_value(Some(d.render_latency_nanos)), LATENCY_WIDTH as nat, false);
    seq![
        " • samples "@ + samples + " • collect "@ + collection + " • render "@ + rendering
            + " • lines "@ + first + "-"@ + last + "/"@ + total,
        " • samples "@ + samples + " • C "@ + collection + " • R "@ + rendering,
        " • samples "@ + samples + " • "@ + first + "-"@ + last + "/"@ + total,
    ]
}

/// The widest metrics candidate that fits in `available` characters, or
/// nothing.
pub open spec fn metrics_text(candidates: Seq<Seq<char>>, available: nat) -> Seq<char> {
    if candidates[0].len() <= available {
        candidates[0]
    } else if candidates[1].len() <= available {
        candidates[1]
    } else if candidates[2].len() <= available {
        candidates[2]
    } else {
        seq![]
    }
}

/// The widths of the metrics candidates: every field of them has a fixed
/// width, so they depend on nothing the header shows.
pub open spec fn metric_widths() -> Seq<int> {
    seq![
        (" • samples "@).len() + COUNT_WIDTH + (" • collect "@).len() + LATENCY_WIDTH + (" • render "@).len()
            + LATENCY_WIDTH + (" • lines "@).len() + LINE_WIDTH + 1 + LINE_WIDTH + 1 + LINE_WIDTH,
        (" • samples "@).len() + COUNT_WIDTH + (" • C "@).len() + LATENCY_WIDTH + (" • R "@).len() + LATENCY_WIDTH,
        (" • samples "@).len() + COUNT_WIDTH + (" • "@).len() + LINE_WIDTH + 1 + LINE_WIDTH + 1 + LINE_WIDTH,
    ]
}

/// The width of the metrics shown in `available` characters.
pub open spec fn metrics_width(available: nat) -> int {
    let w = metric_widths();
    if w[0] <= available {
        w[0]
    } else if w[1] <= available {
        w[1]
    } else if w[2] <= available {
        w[2]
    } else {
        0
    }
}

/// The room left for metrics beside the identity and the state.
pub open spec fn metrics_room(width: nat, left: Seq<char>) -> nat {
    if width >= left.len() + STATE_WIDTH {
        (width - left.len() - STATE_WIDTH) as nat
    } else {
        0
    }
}

fn width_of(s: &str) -> (r: usize)
    ensures
        r == s@.len(),
{
    chars_of(s).len()
}

fn concat(parts: &[&str]) -> (r: String)
    ensures
        r@ == concat_views(parts@),
{
    let mut v: Vec<char> = Vec::new();
    let mut i: usize = 0;
    while i < parts.len()
        invariant
            i <= parts.len(),
            v@ == concat_views(parts@.take(i as int)),
        decreases parts.len() - i,
    {
        append_str(&mut v, parts[i]);
        assert(parts@.take(i + 1).drop_last() =~= parts@.take(i as int));
        i += 1;
    }
    assert(parts@.take(parts.len() as int) =~= parts@);
    string_of(&v)
}

/// The characters of string slices one after another.
pub open spec fn concat_views(parts: Seq<&str>) -> Seq<char>
    decreases parts.len(),
{
    if parts.len() == 0 {
        seq![]
    } else {
        concat_views(parts.drop_last()) + parts.last()@
    }
}

/// Lays the header out for a terminal `width` characters wide.
pub fn build_layout(width: u16, data: &HeaderData) -> (r: HeaderLayout)
    ensures
        r.left@ == left_text(width as nat, data.mode@, data.interval_nanos),
        r.state@ == padded(activity_label(data.state), STATE_WIDTH as nat, true),
        r.state@.len() == STATE_WIDTH,
        r.metrics@ == metrics_text(metric_candidates(*data), metrics_room(width as nat, r.left@)),
        width >= 5 + STATE_WIDTH ==> r.left@.len() + r.state@.len() + r.metrics@.len() <= width,
        r.metrics@.len() == metrics_width(metrics_room(width as nat, r.left@)),
{
    let w = width as usize;
    let secs = seconds(data.interval_nanos, 3);
    let full_left = concat(&["HWall  •  ", data.mode.as_str(), "  •  refresh ", secs.as_str(), "s"]);
    let mode_left = concat(&["HWall  •  ", data.mode.as_str()]);
    proof {
        reveal_strlit("HWall");
        reveal_strlit("LIVE");
        reveal_strlit("PAUSED");
        reveal_with_fuel(concat_views, 6);
    }
    assert(full_left@ == full_left_text(data.mode@, data.interval_nanos));
    assert(mode_left@ == mode_left_text(data.mode@));
    let state = pad(data.state.label(), STATE_WIDTH, true);
    let left = if width_of(full_left.as_str()).saturating_add(STATE_WIDTH) <= w {
        full_left
    } else if width_of(mode_left.as_str()).saturating_add(STATE_WIDTH) <= w {
        mode_left
    } else {
        "HWall".to_string()
    };
    let collection = latency_field(data.collection_latency_nanos);
    let rendering = latency_field(Some(data.render_latency_nanos));
    let samples = bounded_number(data.samples, COUNT_WIDTH);
    let first = bounded_number(data.first_line as u64, LINE_WIDTH);
    let last = bounded_number(data.last_line as u64, LINE_WIDTH);
    let total = bounded_number(data.total_lines as u64, LINE_WIDTH);
    let full_metrics = concat(
        &[
            " • samples ",
            samples.as_str(),
            " • collect ",
            collection.as_str(),
            " • render ",
            rendering.as_str(),
            " • lines ",
            first.as_str(),
            "-",
            last.as_str(),
            "/",
            total.as_str(),
        ],
    );
    let medium_metrics = concat(
        &[" • samples ", samples.as_str(), " • C ", collection.as_str(), " • R ", rendering.as_str()],
    );
    let compact_metrics = concat(
        &[" • samples ", samples.as_str(), " • ", first.as_str(), "-", last.as_str(), "/", total.as_str()],
    );
    proof {
        reveal_with_fuel(concat_views, 13);
    }
    let ghost cands = metric_candidates(*data);
    assert(full_metrics@ == cands[0]);
    assert(medium_metrics@ == cands[1]);
    assert(compact_metrics@ == cands[2]);
    proof {
        reveal_strlit(" • samples ");
        reveal_strlit(" • collect ");
        reveal_strlit(" • render ");
        reveal_strlit(" • lines ");
        reveal_strlit(" • C ");
        reveal_strlit(" • R ");
        reveal_strlit(" • ");
        reveal_strlit("-");
        reveal_strlit("/");
        assert(full_metrics@.len() == metric_widths()[0]);
        assert(medium_metrics@.len() == metric_widths()[1]);
        assert(compact_metrics@.len() == metric_widths()[2]);
    }
    let left_width = width_of(left.as_str());
    let available: usize = w.saturating_sub(left_width).saturating_sub(STATE_WIDTH);
    let metrics = if width_of(full_metrics.as_str()) <= available {
        full_metrics
    } else if width_of(medium_metrics.as_str()) <= available {
        medium_metrics
    } else if width_of(compact_metrics.as_str()) <= available {
        compact_metrics
    } else {
        String::new()
    };
    HeaderLayout { left, state, metrics }
}

/// The identity segment depends only on the width, the mode and the
/// refresh interval: pausing, latencies, sample counts and scrolling never
/// move it, and the state and metrics segments keep their widths.
pub proof fn law_volatile_state_keeps_left_segment(width: nat, a: HeaderData, b: HeaderData)
    requires
        a.mode@ == b.mode@,
        a.interval_nanos == b.interval_nanos,
    ensures
        left_text(width, a.mode@, a.interval_nanos) == left_text(width, b.mode@, b.interval_nanos),
        metrics_room(width, left_text(width, a.mode@, a.interval_nanos)) == metrics_room(
            width,
            left_text(width, b.mode@, b.interval_nanos),
        ),
        metrics_width(metrics_room(width, left_text(width, a.mode@, a.interval_nanos))) == metrics_width(
            metrics_room(width, left_text(width, b.mode@, b.interval_nanos)),
        ),
        padded(activity_label(a.state), STATE_WIDTH as nat, true).len() == STATE_WIDTH,
        padded(activity_label(b.state), STATE_WIDTH as nat, true).len() == STATE_WIDTH,
{
    reveal_strlit("LIVE");
    reveal_strlit("PAUSED");
}

} // verus!
