//! The `sensors` table: which readings are listed, how their status reads,
//! and how fields are truncated, padded and escaped.
use vstd::prelude::*;
use crate::model::{ReadingFreshness, SensorKind, SensorStatus};
use crate::text::{
    append_chars, append_str, chars_of, contains, contains_seq, lower_seq, string_of, to_lower,
    trim, trim_chars,
};

verus! {

/// Status filters of the `sensors` command.
#[derive(Debug, Clone, Copy, PartialEq, Eq, Structural)]
pub enum SensorStatusFilter {
    Okay,
    Alarm,
    Fault,
    Stale,
    Unavailable,
    Offline,
}

/// Whether a reading passes a status filter: freshness filters look at the
/// freshness, status filters at the status of a current reading only.
pub open spec fn filter_matches(f: SensorStatusFilter, freshness: ReadingFreshness, status: SensorStatus) -> bool {
    let current = freshness == ReadingFreshness::Current;
    match f {
        SensorStatusFilter::Stale => freshness == ReadingFreshness::Stale,
        SensorStatusFilter::Offline => freshness == ReadingFreshness::Offline,
        SensorStatusFilter::Unavailable => freshness == ReadingFreshness::Unavailable || (current
            && status == SensorStatus::Unavailable),
        SensorStatusFilter::Okay => current && status == SensorStatus::Okay,
        SensorStatusFilter::Alarm => current && status == SensorStatus::Alarm,
        SensorStatusFilter::Fault => current && status == SensorStatus::Fault,
    }
}

impl SensorStatusFilter {
    pub fn matches(self, freshness: ReadingFreshness, status: SensorStatus) -> (r: bool)
        ensures
            r == filter_matches(self, freshness, status),
    {
        let current = freshness == ReadingFreshness::Current;
        match self {
            SensorStatusFilter::Stale => freshness == ReadingFreshness::Stale,
            SensorStatusFilter::Offline => freshness == ReadingFreshness::Offline,
            SensorStatusFilter::Unavailable => freshness == ReadingFreshness::Unavailable || (
            current && status == SensorStatus::Unavailable),
            SensorStatusFilter::Okay => current && status == SensorStatus::Okay,
            SensorStatusFilter::Alarm => current && status == SensorStatus::Alarm,
            SensorStatusFilter::Fault => current && status == SensorStatus::Fault,
        }
    }
}

/// Whether a reading is listed under the kind and status filters; an alarm
/// raised against unconfigured limits is not listed as an alarm.
pub open spec fn reading_selected(
    kind_filter: Option<SensorKind>,
    status_filter: Option<SensorStatusFilter>,
    kind: SensorKind,
    freshness: ReadingFreshness,
    status: SensorStatus,
    limits_unconfigured: bool,
) -> bool {
    !(kind_filter matches Some(k) && k != kind) && !(status_filter matches Some(f) && (
    !filter_matches(f, freshness, status) || (f == SensorStatusFilter::Alarm
        && limits_unconfigured)))
}

pub fn sensor_selected(
    kind_filter: Option<SensorKind>,
    status_filter: Option<SensorStatusFilter>,
    kind: SensorKind,
    freshness: ReadingFreshness,
    status: SensorStatus,
    limits_unconfigured: bool,
) -> (r: bool)
    ensures
        r == reading_selected(kind_filter, status_filter, kind, freshness, status, limits_unconfigured),
{
    if let Some(k) = kind_filter {
        if k != kind {
            return false;
        }
    }
    if let Some(f) = status_filter {
        if !f.matches(freshness, status) || (f == SensorStatusFilter::Alarm && limits_unconfigured) {
            return false;
        }
    }
    true
}

/// The device query a `--device` argument makes: trimmed, ASCII
/// lower-cased, and none when blank.
pub open spec fn device_query_of(filter: Option<Seq<char>>) -> Option<Seq<char>> {
    match filter {
        Some(f) => if trim(f).len() > 0 {
            Some(lower_seq(trim(f)))
        } else {
            None
        },
        None => None,
    }
}

pub fn device_query(filter: Option<&str>) -> (r: Option<String>)
    ensures
        match r {
            Some(q) => device_query_of(match filter {
                Some(f) => Some(f@),
                None => None,
            }) == Some(q@),
            None => device_query_of(match filter {
                Some(f) => Some(f@),
                None => None,
            }) is None,
        },
{
    match filter {
        Some(f) => {
            let t = trim_chars(&chars_of(f));
            if t.len() > 0 {
                Some(string_of(&to_lower(&t)))
            } else {
                None
            }
        },
        None => None,
    }
}

/// Whether a device matches a query: a part of its id or of its name,
/// ignoring ASCII case.
pub open spec fn device_matches_query(query: Option<Seq<char>>, id: Seq<char>, name: Seq<char>) -> bool {
    match query {
        Some(q) => contains_seq(lower_seq(id), q) || contains_seq(lower_seq(name), q),
        None => true,
    }
}

pub fn device_matches(query: Option<&str>, id: &str, name: &str) -> (r: bool)
    ensures
        r == device_matches_query(match query {
            Some(q) => Some(q@),
            None => None,
        }, id@, name@),
{
    match query {
        Some(q) => {
            let qc = chars_of(q);
            contains(&to_lower(&chars_of(id)), &qc) || contains(&to_lower(&chars_of(name)), &qc)
        },
        None => true,
    }
}

/// The status column of the table: freshness first, then an alarm against
/// unconfigured limits, then the hardware status.
pub open spec fn status_text(
    freshness: ReadingFreshness,
    status_name: Seq<char>,
    limits_unconfigured: bool,
    stale_age: Option<Seq<char>>,
) -> Seq<char> {
    match freshness {
        ReadingFreshness::Stale => match stale_age {
            Some(age) => "Stale — last updated "@ + age,
            None => "Stale"@,
        },
        ReadingFreshness::Unavailable => "Unavailable"@,
        ReadingFreshness::Offline => "Offline"@,
        ReadingFreshness::Current => if limits_unconfigured {
            "Limits not configured"@
        } else {
            status_name
        },
    }
}

/// The status column; `stale_age` is how long ago a stale reading was
/// last updated, when that is known.
pub fn status_name(
    freshness: ReadingFreshness,
    status: SensorStatus,
    limits_unconfigured: bool,
    stale_age: Option<&str>,
) -> (r: String)
    ensures
        r@ == status_text(freshness, crate::model::sensor_status_display_name(status), limits_unconfigured, match stale_age {
            Some(a) => Some(a@),
            None => None,
        }),
{
    match freshness {
        ReadingFreshness::Stale => match stale_age {
            Some(age) => {
                let mut v = chars_of("Stale — last updated ");
                append_str(&mut v, age);
                string_of(&v)
            },
            None => "Stale".to_string(),
        },
        ReadingFreshness::Unavailable => "Unavailable".to_string(),
        ReadingFreshness::Offline => "Offline".to_string(),
        ReadingFreshness::Current => if limits_unconfigured {
            "Limits not configured".to_string()
        } else {
            status.display_name().to_string()
        },
    }
}

/// The machine-readable status of a reading.
pub open spec fn status_key_text(freshness: ReadingFreshness, status: SensorStatus, limits_unconfigured: bool) -> Seq<char> {
    match freshness {
        ReadingFreshness::Stale => "stale"@,
        ReadingFreshness::Unavailable => "unavailable"@,
        ReadingFreshness::Offline => "offline"@,
        ReadingFreshness::Current => if limits_unconfigured {
            "limits_not_configured"@
        } else {
            crate::model::sensor_status_as_str(status)
        },
    }
}

pub fn status_key(freshness: ReadingFreshness, status: SensorStatus, limits_unconfigured: bool) -> (r: &'static str)
    ensures
        r@ == status_key_text(freshness, status, limits_unconfigured),
{
    match freshness {
        ReadingFreshness::Stale => "stale",
        ReadingFreshness::Unavailable => "unavailable",
        ReadingFreshness::Offline => "offline",
        ReadingFreshness::Current => if limits_unconfigured {
            "limits_not_configured"
        } else {
            status.as_str()
        },
    }
}

/// A value cut to at most `maximum` characters, ending in `…` when it was
/// cut (only the ellipsis is left when `maximum` is 1 or less).
pub open spec fn truncated(value: Seq<char>, maximum: nat) -> Seq<char> {
    if value.len() <= maximum {
        value
    } else if maximum > 1 {
        value.take(maximum - 1).push('…')
    } else {
        seq!['…']
    }
}

pub fn truncate(value: &str, maximum: usize) -> (r: String)
    ensures
        r@ == truncated(value@, maximum as nat),
{
    let v = chars_of(value);
    if v.len() <= maximum {
        return string_of(&v);
    }
    let mut out: Vec<char> = Vec::new();
    if maximum > 1 {
        let mut i: usize = 0;
        while i < maximum - 1
            invariant
                i <= maximum - 1,
                maximum < v@.len(),
                out@ == v@.take(i as int),
            decreases maximum - 1 - i,
        {
            out.push(v[i]);
            assert(v@.take(i + 1) =~= v@.take(i as int).push(v@[i as int]));
            i += 1;
        }
    }
    out.push('…');
    string_of(&out)
}

/// Whether a delimited field must be quoted: it holds the delimiter, a
/// quote or a line break.
pub open spec fn needs_quotes(value: Seq<char>, delimiter: char) -> bool {
    value.contains(delimiter) || value.contains('"') || value.contains('\n') || value.contains('\r')
}

/// A field with each quote doubled.
pub open spec fn doubled_quotes(value: Seq<char>) -> Seq<char>
    decreases value.len(),
{
    if value.len() == 0 {
        seq![]
    } else {
        let rest = doubled_quotes(value.drop_last());
        if value.last() == '"' {
            rest + seq!['"', '"']
        } else {
            rest.push(value.last())
        }
    }
}

/// A field of a CSV or TSV line: as it is, or quoted with its quotes doubled.
pub open spec fn escaped_field(value: Seq<char>, delimiter: char) -> Seq<char> {
    if needs_quotes(value, delimiter) {
        seq!['"'] + doubled_quotes(value) + seq!['"']
    } else {
        value
    }
}

pub fn escape_delimited(value: &str, delimiter: char) -> (r: String)
    ensures
        r@ == escaped_field(value@, delimiter),
{
    let v = chars_of(value);
    let mut quote = false;
    let mut body: Vec<char> = Vec::new();
    let mut i: usize = 0;
    while i < v.len()
        invariant
            i <= v.len(),
            body@ == doubled_quotes(v@.take(i as int)),
            quote == needs_quotes(v@.take(i as int), delimiter),
        decreases v.len() - i,
    {
        let c = v[i];
        let ghost t = v@.take(i + 1);
        assert(t.drop_last() =~= v@.take(i as int));
        assert(t.last() == c);
        proof {
            assert forall|x: char| t.contains(x) <==> (v@.take(i as int).contains(x) || x == c) by {
                if t.contains(x) {
                    let k = choose|k: int| 0 <= k < t.len() && t[k] == x;
                    if k < i {
                        assert(v@.take(i as int)[k] == x);
                    }
                }
                if v@.take(i as int).contains(x) {
                    let k = choose|k: int| 0 <= k < i && v@.take(i as int)[k] == x;
                    assert(t[k] == x);
                }
                if x == c {
                    assert(t[i as int] == x);
                }
            }
        }
        if c == '"' {
            body.push('"');
            body.push('"');
            assert(body@ =~= doubled_quotes(v@.take(i as int)) + seq!['"', '"']);
        } else {
            body.push(c);
        }
        if c == delimiter || c == '"' || c == '\n' || c == '\r' {
            quote = true;
        }
        i += 1;
    }
    assert(v@.take(v.len() as int) =~= v@);
    if quote {
        let mut out: Vec<char> = Vec::new();
        out.push('"');
        append_chars(&mut out, &body);
        out.push('"');
        assert(out@ =~= seq!['"'] + body@ + seq!['"']);
        string_of(&out)
    } else {
        string_of(&v)
    }
}

/// `n` spaces.
pub open spec fn spaces(n: nat) -> Seq<char> {
    Seq::new(n, |i: int| ' ')
}

/// A value padded with spaces to at least `width` characters, on the right
/// (`{:<width}`) or on the left (`{:>width}`).
pub open spec fn padded(value: Seq<char>, width: nat, right: bool) -> Seq<char> {
    if value.len() >= width {
        value
    } else if right {
        value + spaces((width - value.len()) as nat)
    } else {
        spaces((width - value.len()) as nat) + value
    }
}

/// Pads a value to a column width.
pub fn pad(value: &str, width: usize, right: bool) -> (r: String)
    ensures
        r@ == padded(value@, width as nat, right),
{
    let v = chars_of(value);
    if v.len() >= width {
        return string_of(&v);
    }
    let mut fill: Vec<char> = Vec::new();
    let mut i: usize = 0;
    while i < width - v.len()
        invariant
            v@.len() < width,
            i <= width - v@.len(),
            fill@ == spaces(i as nat),
        decreases width - v@.len() - i,
    {
        fill.push(' ');
        assert(fill@ =~= spaces((i + 1) as nat));
        i += 1;
    }
    let mut out: Vec<char> = Vec::new();
    if right {
        append_chars(&mut out, &v);
        append_chars(&mut out, &fill);
    } else {
        append_chars(&mut out, &fill);
        append_chars(&mut out, &v);
    }
    string_of(&out)
}

/// One line of the sensor table: device, sensor, kind, current value and
/// status in columns of 22, 34, 18, 18 (right-aligned) and 22 characters.
pub open spec fn table_line(device: Seq<char>, sensor: Seq<char>, kind: Seq<char>, current: Seq<char>, status: Seq<char>) -> Seq<char> {
    padded(device, 22, true) + "  "@ + padded(sensor, 34, true) + "  "@ + padded(kind, 18, true) + "  "@
        + padded(current, 18, false) + "  "@ + padded(status, 22, true)
}

/// The heading line of the sensor table.
pub fn table_header() -> (r: String)
    ensures
        r@ == table_line("Device"@, "Sensor"@, "Kind"@, "Current"@, "Status"@),
{
    table_columns("Device", "Sensor", "Kind", "Current", "Status")
}

fn table_columns(device: &str, sensor: &str, kind: &str, current: &str, status: &str) -> (r: String)
    ensures
        r@ == table_line(device@, sensor@, kind@, current@, status@),
{
    let mut v = chars_of(pad(device, 22, true).as_str());
    append_str(&mut v, "  ");
    append_str(&mut v, pad(sensor, 34, true).as_str());
    append_str(&mut v, "  ");
    append_str(&mut v, pad(kind, 18, true).as_str());
    append_str(&mut v, "  ");
    append_str(&mut v, pad(current, 18, false).as_str());
    append_str(&mut v, "  ");
    append_str(&mut v, pad(status, 22, true).as_str());
    string_of(&v)
}

/// A row of the sensor table; the device name, sensor label and value are
/// cut to their columns.
pub fn table_row(device: &str, sensor: &str, kind: &str, current: &str, status: &str) -> (r: String)
    ensures
        r@ == table_line(truncated(device@, 22), truncated(sensor@, 34), kind@, truncated(current@, 18), status@),
{
    let d = truncate(device, 22);
    let s = truncate(sensor, 34);
    let c = truncate(current, 18);
    table_columns(d.as_str(), s.as_str(), kind, c.as_str(), status)
}

/// Fields joined by a delimiter.
pub open spec fn joined(fields: Seq<Seq<char>>, delimiter: char) -> Seq<char>
    decreases fields.len(),
{
    if fields.len() == 0 {
        seq![]
    } else if fields.len() == 1 {
        fields[0]
    } else {
        joined(fields.drop_last(), delimiter).push(delimiter) + fields.last()
    }
}

/// A CSV or TSV line: each field escaped, joined by the delimiter.
pub fn delimited_line(fields: &[String], delimiter: char) -> (r: String)
    ensures
        r@ == joined(fields@.map_values(|f: String| escaped_field(f@, delimiter)), delimiter),
{
    let ghost all = fields@.map_values(|f: String| escaped_field(f@, delimiter));
    let mut out: Vec<char> = Vec::new();
    let mut i: usize = 0;
    while i < fields.len()
        invariant
            i <= fields.len(),
            all == fields@.map_values(|f: String| escaped_field(f@, delimiter)),
            out@ == joined(all.take(i as int), delimiter),
        decreases fields.len() - i,
    {
        let e = escape_delimited(fields[i].as_str(), delimiter);
        assert(all.take(i + 1).drop_last() =~= all.take(i as int));
        assert(all.take(i + 1).last() == e@);
        if i > 0 {
            out.push(delimiter);
        } else {
            assert(all.take(1) =~= seq![e@]);
        }
        append_str(&mut out, e.as_str());
        i += 1;
    }
    assert(all.take(fields.len() as int) =~= all);
    string_of(&out)
}

} // verus!
