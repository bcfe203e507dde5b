//! Encodings of sysfs-described perf PMU events and of grouped counter reads.
use vstd::prelude::*;
use crate::text::{
    chars_eq_str, chars_of, contains_seq, contains_str, lower_seq, parse_unsigned,
    parse_unsigned_chars, split, split_chars, split_once, split_once_chars, strip_prefix,
    strip_prefix_str, strip_suffix, strip_suffix_str, to_lower, trim, trim_chars, views,
};

verus! {

// ---------------------------------------------------------------------------
// `format/event`: which bits of `config` hold the event code
// ---------------------------------------------------------------------------
/// `config:<start>-<end>` or `config:<bit>`: the first bit and the width of
/// the event field, for a single range that ends below bit 64.
pub open spec fn config_range(value: Seq<char>) -> Option<(u32, u32)> {
    match split_once(trim(value), ':') {
        Some((register, range)) => if register != "config"@ || contains_seq(range, ","@) {
            None
        } else {
            let (start, end) = match split_once(range, '-') {
                Some((s, e)) => (s, e),
                None => (range, range),
            };
            match (parse_unsigned(start, 10, u32::MAX as nat), parse_unsigned(end, 10, u32::MAX as nat)) {
                (Some(s), Some(e)) => if s <= e && e < 64 {
                    Some((s as u32, (e - s + 1) as u32))
                } else {
                    None
                },
                _ => None,
            }
        },
        None => None,
    }
}

pub fn parse_config_range(value: &str) -> (r: Option<(u32, u32)>)
    ensures
        r == config_range(value@),
{
    let c = chars_of(value);
    let t = trim_chars(&c);
    let (register, range) = match split_once_chars(&t, ':') {
        Some(p) => p,
        None => return None,
    };
    if !chars_eq_str(&register, "config") || contains_str(&range, ",") {
        return None;
    }
    let (start, end) = match split_once_chars(&range, '-') {
        Some(p) => p,
        None => (crate::text::slice_chars(&range, 0, range.len()), crate::text::slice_chars(
            &range,
            0,
            range.len(),
        )),
    };
    proof {
        assert(range@.subrange(0, range@.len() as int) =~= range@);
    }
    let s = match parse_unsigned_chars(&start, 10, u32::MAX as u64) {
        Some(s) => s,
        None => return None,
    };
    let e = match parse_unsigned_chars(&end, 10, u32::MAX as u64) {
        Some(e) => e,
        None => return None,
    };
    if s <= e && e < 64 {
        Some((s as u32, (e - s + 1) as u32))
    } else {
        None
    }
}

// ---------------------------------------------------------------------------
// `events/<name>`: the event code
// ---------------------------------------------------------------------------
/// An unsigned 64-bit number, hexadecimal after `0x` or `0X`, else decimal.
pub open spec fn event_number(v: Seq<char>) -> Option<nat> {
    match strip_prefix(v, "0x"@) {
        Some(h) => parse_unsigned(h, 16, u64::MAX as nat),
        None => match strip_prefix(v, "0X"@) {
            Some(h) => parse_unsigned(h, 16, u64::MAX as nat),
            None => parse_unsigned(v, 10, u64::MAX as nat),
        },
    }
}

/// `event=<number>` and nothing else: a single assignment to `event`.
pub open spec fn event_value(value: Seq<char>) -> Option<nat> {
    let parts = split(value, ',');
    if parts.len() != 1 {
        None
    } else {
        match split_once(trim(parts[0]), '=') {
            Some((name, v)) => if name == "event"@ {
                event_number(trim(v))
            } else {
                None
            },
            None => None,
        }
    }
}

pub fn parse_event_value(value: &str) -> (r: Option<u64>)
    ensures
        r matches Some(v) ==> event_value(value@) == Some(v as nat),
        r is None ==> event_value(value@) is None,
{
    let c = chars_of(value);
    let parts = split_chars(&c, ',');
    if parts.len() != 1 {
        return None;
    }
    proof {
        assert(views(parts@)[0] == parts@[0]@);
    }
    let first = trim_chars(&parts[0]);
    let (name, v) = match split_once_chars(&first, '=') {
        Some(p) => p,
        None => return None,
    };
    if !chars_eq_str(&name, "event") {
        return None;
    }
    let v = trim_chars(&v);
    match strip_prefix_str(&v, "0x") {
        Some(h) => parse_unsigned_chars(&h, 16, u64::MAX),
        None => match strip_prefix_str(&v, "0X") {
            Some(h) => parse_unsigned_chars(&h, 16, u64::MAX),
            None => parse_unsigned_chars(&v, 10, u64::MAX),
        },
    }
}

/// The `config` word for an event code placed at bit `start` of a field
/// `width` bits wide, unless the code does not fit the field.
pub open spec fn event_config(event: u64, start: u32, width: u32) -> Option<u64> {
    if width < 64 && event >= (1u64 << width) {
        None
    } else {
        Some(event << start)
    }
}

pub fn encode_event_config(event: u64, start: u32, width: u32) -> (r: Option<u64>)
    requires
        start < 64,
    ensures
        r == event_config(event, start, width),
{
    if width < 64 && event >= (1u64 << width) {
        None
    } else {
        Some(event << start)
    }
}

/// An `events/` entry that names an energy counter rather than its scale or unit.
pub open spec fn is_energy_event_name(name: Seq<char>) -> bool {
    strip_prefix(name, "energy-"@) is Some && strip_suffix(name, ".scale"@) is None && strip_suffix(
        name,
        ".unit"@,
    ) is None
}

pub fn energy_event_name(name: &str) -> (r: bool)
    ensures
        r == is_energy_event_name(name@),
{
    let n = chars_of(name);
    strip_prefix_str(&n, "energy-").is_some() && strip_suffix_str(&n, ".scale").is_none()
        && strip_suffix_str(&n, ".unit").is_none()
}

/// A unit that is joules, ignoring ASCII case.
pub open spec fn is_joule_unit(unit: Seq<char>) -> bool {
    lower_seq(unit) == "joules"@ || lower_seq(unit) == "joule"@
}

pub fn joule_unit(unit: &str) -> (r: bool)
    ensures
        r == is_joule_unit(unit@),
{
    let u = chars_of(unit);
    let l = to_lower(&u);
    chars_eq_str(&l, "joules") || chars_eq_str(&l, "joule")
}

// ---------------------------------------------------------------------------
// Grouped reads
// ---------------------------------------------------------------------------
/// A grouped read of two counters with their enabled and running times.
#[derive(Debug, Clone, Copy, PartialEq, Eq)]
pub struct PerfGroupReading {
    pub first: u64,
    pub second: u64,
    pub time_enabled: u64,
    pub time_running: u64,
}

/// Why a grouped read was refused.
#[derive(Debug, Clone, Copy, PartialEq, Eq)]
pub enum PerfGroupError {
    /// The record is not five 64-bit words long.
    InvalidSize,
    /// The record does not hold two counters, or it ran longer than it was enabled.
    InvalidContents,
}

/// The value of little-endian bytes.
pub open spec fn le_value(s: Seq<u8>) -> nat
    decreases s.len(),
{
    if s.len() == 0 {
        0
    } else {
        s[0] as nat + 256 * le_value(s.drop_first())
    }
}

/// The `index`-th 64-bit word of a record in the machine's (little-endian) byte order.
pub open spec fn record_word(bytes: Seq<u8>, index: int) -> nat {
    le_value(bytes.subrange(8 * index, 8 * index + 8))
}

pub open spec fn pow256(n: nat) -> nat
    decreases n,
{
    if n == 0 {
        1
    } else {
        256 * pow256((n - 1) as nat)
    }
}

fn read_word(bytes: &[u8], index: usize) -> (r: u64)
    requires
        8 * index + 8 <= bytes@.len(),
    ensures
        r == record_word(bytes@, index as int),
{
    let ghost w = bytes@.subrange(8 * index as int, 8 * index + 8);
    let n = bytes.len();
    assert(8 * index + 8 <= n);
    let base = 8 * index;
    let mut acc: u64 = 0;
    let mut i: usize = 8;
    assert(w.skip(8) =~= Seq::<u8>::empty());
    assert(pow256(8) == 0x1_0000_0000_0000_0000) by {
        reveal_with_fuel(pow256, 9);
    }
    while i > 0
        invariant
            i <= 8,
            8 * index + 8 <= bytes@.len(),
            base == 8 * index,
            n == bytes@.len(),
            base + 8 <= n,
            w == bytes@.subrange(8 * index as int, 8 * index + 8),
            acc == le_value(w.skip(i as int)),
            le_value(w.skip(i as int)) < pow256((8 - i) as nat),
            pow256(8) == 0x1_0000_0000_0000_0000,
        decreases i,
    {
        let b = bytes[base + i - 1];
        proof {
            assert(w.skip(i - 1).drop_first() =~= w.skip(i as int));
            assert(w.skip(i - 1)[0] == b);
            assert(pow256((8 - i + 1) as nat) == 256 * pow256((8 - i) as nat));
            if i > 1 {
                lemma_pow256_monotone((8 - i + 1) as nat, 8);
            }
        }
        acc = acc * 256 + b as u64;
        i -= 1;
    }
    assert(w.skip(0) =~= w);
    acc
}

proof fn lemma_pow256_monotone(a: nat, b: nat)
    requires
        a <= b,
    ensures
        pow256(a) <= pow256(b),
    decreases b - a,
{
    if a < b {
        lemma_pow256_monotone(a, (b - 1) as nat);
        lemma_pow256_positive((b - 1) as nat);
    }
}

proof fn lemma_pow256_positive(n: nat)
    ensures
        pow256(n) >= 1,
    decreases n,
{
    if n > 0 {
        lemma_pow256_positive((n - 1) as nat);
    }
}

/// What a grouped read record of two counters says: five words (the
/// number of counters, which must be 2, the enabled time, the running
/// time, which must not exceed it, and the two counts).
pub open spec fn group_reading(bytes: Seq<u8>) -> Result<PerfGroupReading, PerfGroupError> {
    if bytes.len() != 40 {
        Err(PerfGroupError::InvalidSize)
    } else if record_word(bytes, 0) != 2 || record_word(bytes, 2) > record_word(bytes, 1) {
        Err(PerfGroupError::InvalidContents)
    } else {
        Ok(
            PerfGroupReading {
                time_enabled: record_word(bytes, 1) as u64,
                time_running: record_word(bytes, 2) as u64,
                first: record_word(bytes, 3) as u64,
                second: record_word(bytes, 4) as u64,
            },
        )
    }
}

pub fn decode_group_read(bytes: &[u8]) -> (r: Result<PerfGroupReading, PerfGroupError>)
    ensures
        r == group_reading(bytes@),
{
    if bytes.len() != 40 {
        return Err(PerfGroupError::InvalidSize);
    }
    let count = read_word(bytes, 0);
    let enabled = read_word(bytes, 1);
    let running = read_word(bytes, 2);
    let first = read_word(bytes, 3);
    let second = read_word(bytes, 4);
    if count != 2 || running > enabled {
        return Err(PerfGroupError::InvalidContents);
    }
    Ok(PerfGroupReading { time_enabled: enabled, time_running: running, first, second })
}

} // verus!
