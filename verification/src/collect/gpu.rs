//! Graphics adapters: DRM card names, the AMD `gpu_metrics` header, DPM
//! clock tables, and `nvidia-smi` CSV records.
use vstd::prelude::*;
use crate::collect::util::{normalize_pci_address, normalized_pci_address};
use crate::model::{SensorKind, Unit};
use crate::text::{
    all_digits, append_str, chars_all_digits, chars_of, lines, lines_of, lower_seq, string_of,
    strip_prefix, strip_prefix_str, strip_suffix, strip_suffix_str, split, split_chars, to_lower,
    trim, trim_chars, views, words, words_of,
};

verus! {

/// Whether a DRM class entry is a card (`card` and digits), not a connector.
pub open spec fn is_card_name(name: Seq<char>) -> bool {
    match strip_prefix(name, "card"@) {
        Some(rest) => all_digits(rest),
        None => false,
    }
}

pub fn is_drm_card_name(name: &str) -> (r: bool)
    ensures
        r == is_card_name(name@),
{
    match strip_prefix_str(&chars_of(name), "card") {
        Some(rest) => chars_all_digits(&rest),
        None => false,
    }
}

/// The header of an AMD `gpu_metrics` table.
#[derive(Debug, Clone, Copy, PartialEq, Eq, Structural)]
pub struct GpuMetricsHeader {
    /// The little-endian structure size in the first two bytes.
    pub structure_size: u16,
    pub format_revision: u8,
    pub content_revision: u8,
    /// How many bytes the table had.
    pub bytes_read: u64,
}

/// Reads the header of a `gpu_metrics` table; shorter tables have none.
pub fn gpu_metrics_header(bytes: &[u8]) -> (r: Option<GpuMetricsHeader>)
    ensures
        bytes@.len() < 4 <==> r is None,
        r matches Some(h) ==> h.structure_size == bytes@[0] + 256 * bytes@[1] && h.format_revision
            == bytes@[2] && h.content_revision == bytes@[3] && h.bytes_read == bytes@.len(),
{
    if bytes.len() < 4 {
        return None;
    }
    let size: u16 = (bytes[0] as u16) + 256 * (bytes[1] as u16);
    Some(GpuMetricsHeader {
        structure_size: size,
        format_revision: bytes[2],
        content_revision: bytes[3],
        bytes_read: bytes.len() as u64,
    })
}

/// The first line of `ls` that marks the active level with `*`.
pub open spec fn first_starred(ls: Seq<Seq<char>>) -> Option<Seq<char>>
    decreases ls.len(),
{
    if ls.len() == 0 {
        None
    } else if ls[0].contains('*') {
        Some(ls[0])
    } else {
        first_starred(ls.drop_first())
    }
}

/// The active line of a DPM table: the one marked `*`, else the last.
pub open spec fn dpm_active_line_of(text: Seq<char>) -> Option<Seq<char>> {
    match first_starred(lines(text)) {
        Some(l) => Some(l),
        None => if lines(text).len() > 0 {
            Some(lines(text).last())
        } else {
            None
        },
    }
}

/// The number and multiplier to hertz of a clock token such as `1200Mhz`.
pub open spec fn clock_token(token: Seq<char>) -> Option<(Seq<char>, u64)> {
    let l = lower_seq(token);
    match strip_suffix(l, "mhz"@) {
        Some(n) => Some((n, 1_000_000)),
        None => match strip_suffix(l, "ghz"@) {
            Some(n) => Some((n, 1_000_000_000)),
            None => None,
        },
    }
}

/// The clock tokens of the first `n` words, in order.
pub open spec fn clock_tokens(ws: Seq<Seq<char>>, n: nat) -> Seq<(Seq<char>, u64)>
    decreases n,
{
    if n == 0 {
        seq![]
    } else {
        match clock_token(ws[n - 1]) {
            Some(t) => clock_tokens(ws, (n - 1) as nat).push(t),
            None => clock_tokens(ws, (n - 1) as nat),
        }
    }
}

fn contains_char(s: &Vec<char>, c: char) -> (r: bool)
    ensures
        r == s@.contains(c),
{
    let mut i: usize = 0;
    while i < s.len()
        invariant
            i <= s@.len(),
            forall|k: int| 0 <= k < i ==> s@[k] != c,
        decreases s.len() - i,
    {
        if s[i] == c {
            assert(s@[i as int] == c);
            return true;
        }
        i += 1;
    }
    false
}

/// The clock candidates of a DPM table's active line, in order: each is a
/// number to parse and the multiplier from its unit to hertz. The first
/// one whose number parses is the current clock.
pub fn dpm_clock_candidates(text: &str) -> (r: Vec<(String, u64)>)
    ensures
        match dpm_active_line_of(text@) {
            Some(line) => r@.map_values(|p: (String, u64)| (p.0@, p.1)) == clock_tokens(words(line), words(line).len()),
            None => r@.len() == 0,
        },
{
    let ls = lines_of(&chars_of(text));
    let ghost lv = lines(text@);
    let mut line: Option<usize> = None;
    let mut i: usize = 0;
    assert(lv.skip(0) =~= lv);
    while i < ls.len() && line.is_none()
        invariant
            i <= ls@.len(),
            views(ls@) == lv,
            line is None ==> first_starred(lv) == first_starred(lv.skip(i as int)),
            line matches Some(k) ==> k < ls@.len() && first_starred(lv) == Some(lv[k as int]),
        decreases ls.len() - i + (if line is None { 1int } else { 0int }),
    {
        assert(lv.skip(i as int)[0] == lv[i as int]);
        assert(lv[i as int] == ls@[i as int]@);
        if contains_char(&ls[i], '*') {
            line = Some(i);
        } else {
            assert(lv.skip(i as int).drop_first() =~= lv.skip(i + 1));
            i += 1;
        }
    }
    let chosen: usize = match line {
        Some(k) => k,
        None => {
            assert(lv.skip(i as int).len() == 0);
            if ls.len() == 0 {
                return Vec::new();
            }
            ls.len() - 1
        },
    };
    assert(views(ls@)[chosen as int] == ls@[chosen as int]@);
    let ws = words_of(&ls[chosen]);
    let ghost wv = words(ls@[chosen as int]@);
    let mut out: Vec<(String, u64)> = Vec::new();
    let mut j: usize = 0;
    while j < ws.len()
        invariant
            j <= ws@.len(),
            views(ws@) == wv,
            out@.map_values(|p: (String, u64)| (p.0@, p.1)) == clock_tokens(wv, j as nat),
        decreases ws.len() - j,
    {
        assert(wv[j as int] == ws@[j as int]@);
        let l = to_lower(&ws[j]);
        let token: Option<(Vec<char>, u64)> = match strip_suffix_str(&l, "mhz") {
            Some(n) => Some((n, 1_000_000)),
            None => match strip_suffix_str(&l, "ghz") {
                Some(n) => Some((n, 1_000_000_000)),
                None => None,
            },
        };
        match token {
            Some((n, m)) => {
                let ghost before = out@.map_values(|p: (String, u64)| (p.0@, p.1));
                out.push((string_of(&n), m));
                assert(out@.map_values(|p: (String, u64)| (p.0@, p.1)) =~= before.push((n@, m)));
            },
            None => {},
        }
        j += 1;
    }
    out
}

/// The `nvidia-smi` arguments for the GPU table.
pub fn nvidia_smi_args() -> (r: Vec<&'static str>)
    ensures
        r@.len() == 2,
        r@[0]@ == "--query-gpu=pci.bus_id,name,uuid,driver_version,temperature.gpu,fan.speed,utilization.gpu,utilization.memory,memory.total,memory.used,power.draw,clocks.current.graphics,clocks.current.memory"@,
        r@[1]@ == "--format=csv,noheader,nounits"@,
{
    vec![
        "--query-gpu=pci.bus_id,name,uuid,driver_version,temperature.gpu,fan.speed,utilization.gpu,utilization.memory,memory.total,memory.used,power.draw,clocks.current.graphics,clocks.current.memory",
        "--format=csv,noheader,nounits",
    ]
}

/// One GPU of the `nvidia-smi` table.
#[derive(Debug, Clone, PartialEq, Eq)]
pub struct NvidiaGpuRecord {
    /// The normalized PCI address.
    pub address: String,
    pub name: String,
    pub uuid: String,
    pub driver_version: String,
    /// The nine measurement columns, as text, in the order of
    /// `nvidia_measurement`.
    pub readings: Vec<String>,
}

/// The columns of a line: split at commas and trimmed.
pub open spec fn csv_columns(line: Seq<char>) -> Seq<Seq<char>> {
    split(line, ',').map_values(|c: Seq<char>| trim(c))
}

/// Reads one line of the table: exactly thirteen columns.
pub fn parse_nvidia_smi_line(line: &str) -> (r: Option<NvidiaGpuRecord>)
    ensures
        csv_columns(line@).len() == 13 <==> r is Some,
        r matches Some(g) ==> {
            let c = csv_columns(line@);
            &&& g.address@ == normalized_pci_address(c[0])
            &&& g.name@ == c[1]
            &&& g.uuid@ == c[2]
            &&& g.driver_version@ == c[3]
            &&& g.readings@.map_values(|s: String| s@) == c.subrange(4, 13)
        },
{
    let parts = split_chars(&chars_of(line), ',');
    let ghost c = csv_columns(line@);
    if parts.len() != 13 {
        return None;
    }
    let mut cols: Vec<String> = Vec::new();
    let mut i: usize = 0;
    while i < parts.len()
        invariant
            i <= parts@.len(),
            parts@.len() == 13,
            views(parts@) == split(line@, ','),
            c == csv_columns(line@),
            cols@.map_values(|s: String| s@) == c.take(i as int),
        decreases parts.len() - i,
    {
        assert(c[i as int] == trim(parts@[i as int]@));
        let ghost before = cols@.map_values(|s: String| s@);
        cols.push(string_of(&trim_chars(&parts[i])));
        assert(cols@.map_values(|s: String| s@) =~= before.push(c[i as int]));
        assert(c.take(i + 1) =~= c.take(i as int).push(c[i as int]));
        i += 1;
    }
    assert(c.take(13) =~= c);
    let ghost cv = cols@.map_values(|s: String| s@);
    assert(cv[0] == cols@[0]@ && cv[1] == cols@[1]@ && cv[2] == cols@[2]@ && cv[3] == cols@[3]@);
    let mut readings: Vec<String> = Vec::new();
    let mut k: usize = 4;
    while k < 13
        invariant
            4 <= k <= 13,
            cols@.len() == 13,
            cols@.map_values(|s: String| s@) == c,
            readings@.map_values(|s: String| s@) == c.subrange(4, k as int),
        decreases 13 - k,
    {
        let ghost before = readings@.map_values(|s: String| s@);
        readings.push(cols[k].clone());
        assert(c[k as int] == cols@[k as int]@);
        assert(readings@.map_values(|s: String| s@) =~= before.push(c[k as int]));
        assert(c.subrange(4, k + 1) =~= c.subrange(4, k as int).push(c[k as int]));
        k += 1;
    }
    Some(NvidiaGpuRecord {
        address: normalize_pci_address(cols[0].as_str()),
        name: cols[1].clone(),
        uuid: cols[2].clone(),
        driver_version: cols[3].clone(),
        readings,
    })
}

/// The nine `nvidia-smi` measurements: sensor id, label, kind, unit and
/// the multiplier from the reported unit (MiB, MHz) to the model's unit.
pub open spec fn nvidia_measurement_of(i: int) -> (Seq<char>, Seq<char>, SensorKind, Unit, u64) {
    if i == 0 {
        ("temperature"@, "GPU temperature"@, SensorKind::Temperature, Unit::Celsius, 1)
    } else if i == 1 {
        ("fan_percent"@, "Fan"@, SensorKind::Fan, Unit::Percent, 1)
    } else if i == 2 {
        ("gpu_utilization"@, "GPU utilization"@, SensorKind::Utilization, Unit::Percent, 1)
    } else if i == 3 {
        ("memory_utilization"@, "Memory utilization"@, SensorKind::Utilization, Unit::Percent, 1)
    } else if i == 4 {
        ("memory_total"@, "VRAM total"@, SensorKind::Capacity, Unit::Byte, 1048576)
    } else if i == 5 {
        ("memory_used"@, "VRAM used"@, SensorKind::Capacity, Unit::Byte, 1048576)
    } else if i == 6 {
        ("power"@, "Board power"@, SensorKind::Power, Unit::Watt, 1)
    } else if i == 7 {
        ("graphics_clock"@, "Graphics clock"@, SensorKind::Frequency, Unit::Hertz, 1000000)
    } else {
        ("memory_clock"@, "Memory clock"@, SensorKind::Frequency, Unit::Hertz, 1000000)
    }
}

pub fn nvidia_measurement(i: usize) -> (r: (&'static str, &'static str, SensorKind, Unit, u64))
    requires
        i < 9,
    ensures
        (r.0@, r.1@, r.2, r.3, r.4) == nvidia_measurement_of(i as int),
{
    if i == 0 {
        ("temperature", "GPU temperature", SensorKind::Temperature, Unit::Celsius, 1)
    } else if i == 1 {
        ("fan_percent", "Fan", SensorKind::Fan, Unit::Percent, 1)
    } else if i == 2 {
        ("gpu_utilization", "GPU utilization", SensorKind::Utilization, Unit::Percent, 1)
    } else if i == 3 {
        ("memory_utilization", "Memory utilization", SensorKind::Utilization, Unit::Percent, 1)
    } else if i == 4 {
        ("memory_total", "VRAM total", SensorKind::Capacity, Unit::Byte, 1048576)
    } else if i == 5 {
        ("memory_used", "VRAM used", SensorKind::Capacity, Unit::Byte, 1048576)
    } else if i == 6 {
        ("power", "Board power", SensorKind::Power, Unit::Watt, 1)
    } else if i == 7 {
        ("graphics_clock", "Graphics clock", SensorKind::Frequency, Unit::Hertz, 1000000)
    } else {
        ("memory_clock", "Memory clock", SensorKind::Frequency, Unit::Hertz, 1000000)
    }
}

} // verus!
