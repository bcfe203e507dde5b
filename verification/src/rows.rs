//! Rows of the sensor table: device headings, group headings and readings.
use vstd::prelude::*;
use crate::text::{
    append_str, chars_eq, chars_of, contains, contains_seq, decimal, decimal_string, str_to_lowercase, string_of,
    trim, trim_chars, unicode_lower_str, is_ascii_text, lower_seq,
};
use crate::visibility::{str_views, VisibilityState};
use crate::alerts::{sensor_key, sensor_key_spec};
use crate::model::{sensor_kind_as_str, SensorKind};

verus! {

/// What a row stands for.
#[derive(Debug, Clone, Copy, PartialEq, Eq, Structural)]
pub enum RowKind {
    Device,
    Header,
    Sensor,
}

/// One row of the sensor table.
#[derive(Debug, Clone, PartialEq, Eq)]
pub struct SensorRow {
    pub id: String,
    pub device_id: String,
    pub sensor_id: Option<String>,
    /// The key under which the row is hidden or collapsed.
    pub hide_key: String,
    pub kind: RowKind,
    pub depth: u8,
    pub label: String,
    pub original_label: String,
    pub current: String,
    pub minimum: String,
    pub maximum: String,
    pub average: String,
    pub status: String,
    pub current_color: Option<String>,
    pub minimum_color: Option<String>,
    pub maximum_color: Option<String>,
    pub average_color: Option<String>,
    pub status_color: Option<String>,
    pub favorite: bool,
    pub collapsed: bool,
}

impl SensorRow {
    /// A device or group heading: hidden by its own id, with no values,
    /// colors or favorite mark.
    pub fn section(
        id: String,
        device_id: String,
        kind: RowKind,
        depth: u8,
        label: String,
        original_label: String,
        status: String,
        collapsed: bool,
    ) -> (r: SensorRow)
        ensures
            r.id@ == id@,
            r.hide_key@ == id@,
            r.device_id@ == device_id@,
            r.sensor_id is None,
            r.kind == kind,
            r.depth == depth,
            r.label@ == label@,
            r.original_label@ == original_label@,
            r.current@.len() == 0 && r.minimum@.len() == 0 && r.maximum@.len() == 0 && r.average@.len() == 0,
            r.status@ == status@,
            r.current_color is None && r.minimum_color is None && r.maximum_color is None,
            r.average_color is None && r.status_color is None,
            !r.favorite,
            r.collapsed == collapsed,
    {
        SensorRow {
            hide_key: id.clone(),
            id,
            device_id,
            sensor_id: None,
            kind,
            depth,
            label,
            original_label,
            current: String::new(),
            minimum: String::new(),
            maximum: String::new(),
            average: String::new(),
            status,
            current_color: None,
            minimum_color: None,
            maximum_color: None,
            average_color: None,
            status_color: None,
            favorite: false,
            collapsed,
        }
    }

    /// The text a search looks in: label, original label, current value and
    /// status, lower-cased.
    pub open spec fn search_text(&self) -> Seq<char> {
        unicode_lower_str(self.label@ + " "@ + self.original_label@ + " "@ + self.current@ + " "@ + self.status@)
    }

    /// Whether the row matches an already lower-cased query.
    pub fn matches_query(&self, query: &str) -> (r: bool)
        ensures
            r == contains_seq(self.search_text(), query@),
    {
        let mut v = chars_of(self.label.as_str());
        append_str(&mut v, " ");
        append_str(&mut v, self.original_label.as_str());
        append_str(&mut v, " ");
        append_str(&mut v, self.current.as_str());
        append_str(&mut v, " ");
        append_str(&mut v, self.status.as_str());
        let text = str_to_lowercase(string_of(&v).as_str());
        contains(&chars_of(text.as_str()), &chars_of(query))
    }
}

// ---------------------------------------------------------------------------
// Device order
// ---------------------------------------------------------------------------
/// The last position of `id` among the first `n` entries of the order.
pub open spec fn last_position(order: Seq<Seq<char>>, id: Seq<char>, n: nat) -> Option<nat>
    decreases n,
{
    if n == 0 {
        None
    } else if order[n - 1] == id {
        Some((n - 1) as nat)
    } else {
        last_position(order, id, (n - 1) as nat)
    }
}

/// How many different ids the first `n` entries of the order name.
pub open spec fn distinct_count(order: Seq<Seq<char>>, n: nat) -> nat
    decreases n,
{
    if n == 0 {
        0
    } else {
        distinct_count(order, (n - 1) as nat) + if order.take(n - 1).contains(order[n - 1]) {
            0nat
        } else {
            1nat
        }
    }
}

/// Where the device at `index` goes: at the last position the order gives
/// its id, or after every ordered position, in its original place.
pub open spec fn order_rank(order: Seq<Seq<char>>, id: Seq<char>, index: nat) -> nat {
    match last_position(order, id, order.len()) {
        Some(p) => p,
        None => distinct_count(order, order.len()) + index,
    }
}

/// Whether device `a` comes before device `b`: by rank, then by original place.
pub open spec fn placed_before(order: Seq<Seq<char>>, ids: Seq<Seq<char>>, a: int, b: int) -> bool {
    order_rank(order, ids[a], a as nat) < order_rank(order, ids[b], b as nat) || (order_rank(order, ids[a], a as nat)
        == order_rank(order, ids[b], b as nat) && a < b)
}

/// A listing of the indices below `n`, each once, in the order of `placed_before`.
pub open spec fn ordered_listing(r: Seq<usize>, order: Seq<Seq<char>>, ids: Seq<Seq<char>>, n: nat) -> bool {
    &&& r.len() == n
    &&& forall|j: int| 0 <= j < r.len() ==> #[trigger] r[j] < n
    &&& r.no_duplicates()
    &&& forall|a: int, b: int| 0 <= a < b < r.len() ==> placed_before(order, ids, #[trigger] r[a] as int, #[trigger] r[b] as int)
}

fn position_in_order(order: &[String], id: &str) -> (r: Option<usize>)
    ensures
        r matches Some(p) ==> last_position(str_views(order@), id@, order@.len() as nat) == Some(p as nat),
        r is None ==> last_position(str_views(order@), id@, order@.len() as nat) is None,
{
    let ghost ov = str_views(order@);
    let k = chars_of(id);
    let mut n: usize = order.len();
    while n > 0
        invariant
            n <= order@.len(),
            ov == str_views(order@),
            k@ == id@,
            last_position(ov, id@, order@.len() as nat) == last_position(ov, id@, n as nat),
        decreases n,
    {
        assert(ov[n - 1] == order@[n - 1]@);
        if chars_eq(&chars_of(order[n - 1].as_str()), &k) {
            return Some(n - 1);
        }
        n -= 1;
    }
    None
}

fn count_distinct(order: &[String]) -> (r: usize)
    ensures
        r == distinct_count(str_views(order@), order@.len() as nat),
{
    let ghost ov = str_views(order@);
    let mut count: usize = 0;
    let mut i: usize = 0;
    while i < order.len()
        invariant
            i <= order@.len(),
            ov == str_views(order@),
            count == distinct_count(ov, i as nat),
            count <= i,
        decreases order@.len() - i,
    {
        let c = chars_of(order[i].as_str());
        let mut seen = false;
        let mut j: usize = 0;
        while j < i
            invariant
                j <= i < order@.len(),
                ov == str_views(order@),
                c@ == ov[i as int],
                seen == ov.take(j as int).contains(ov[i as int]),
            decreases i - j,
        {
            let e = chars_eq(&chars_of(order[j].as_str()), &c);
            proof {
                assert(ov[j as int] == order@[j as int]@);
                let before = ov.take(j as int);
                let after = ov.take(j + 1);
                let x = ov[i as int];
                assert(after =~= before.push(ov[j as int]));
                if before.contains(x) {
                    let t = choose|t: int| 0 <= t < before.len() && before[t] == x;
                    assert(after[t] == x);
                }
                if e {
                    assert(after[j as int] == x);
                }
                if after.contains(x) {
                    let t = choose|t: int| 0 <= t < after.len() && after[t] == x;
                    if t < j {
                        assert(before[t] == x);
                    }
                }
            }
            seen = seen || e;
            j += 1;
        }
        if !seen {
            count += 1;
        }
        i += 1;
    }
    count
}

/// The order in which devices are listed: the ids named by `order` first,
/// each at its last position, then the rest in their original order.
pub fn ordered_device_indices(ids: &[String], order: &[String]) -> (r: Vec<usize>)
    ensures
        ordered_listing(r@, str_views(order@), str_views(ids@), ids@.len() as nat),
{
    let ghost ov = str_views(order@);
    let ghost iv = str_views(ids@);
    let distinct = count_distinct(order);
    let mut ranks: Vec<u128> = Vec::new();
    let mut i: usize = 0;
    while i < ids.len()
        invariant
            i <= ids@.len(),
            ov == str_views(order@),
            iv == str_views(ids@),
            distinct == distinct_count(ov, order@.len() as nat),
            ranks@.len() == i,
            forall|j: int| 0 <= j < i ==> #[trigger] ranks@[j] == order_rank(ov, iv[j], j as nat),
        decreases ids@.len() - i,
    {
        let rank: u128 = match position_in_order(order, ids[i].as_str()) {
            Some(p) => p as u128,
            None => distinct as u128 + i as u128,
        };
        assert(iv[i as int] == ids@[i as int]@);
        ranks.push(rank);
        i += 1;
    }
    let mut r: Vec<usize> = Vec::new();
    let mut i: usize = 0;
    while i < ids.len()
        invariant
            i <= ids@.len(),
            ranks@.len() == ids@.len(),
            forall|j: int| 0 <= j < ids@.len() ==> #[trigger] ranks@[j] == order_rank(ov, iv[j], j as nat),
            r@.len() == i,
            forall|j: int| 0 <= j < r@.len() ==> #[trigger] r@[j] < i,
            r@.no_duplicates(),
            forall|a: int, b: int| 0 <= a < b < r@.len() ==> placed_before(ov, iv, #[trigger] r@[a] as int, #[trigger] r@[b] as int),
        decreases ids@.len() - i,
    {
        let mut p: usize = 0;
        while p < r.len() && ranks[r[p]] <= ranks[i]
            invariant
                p <= r@.len(),
                r@.len() == i,
                i < ids@.len(),
                ranks@.len() == ids@.len(),
                forall|j: int| 0 <= j < r@.len() ==> #[trigger] r@[j] < i,
                forall|j: int| 0 <= j < p ==> ranks@[#[trigger] r@[j] as int] <= ranks@[i as int],
            decreases r@.len() - p,
        {
            p += 1;
        }
        let ghost old_r = r@;
        r.insert(p, i);
        proof {
            assert(r@ =~= old_r.insert(p as int, i));
            assert forall|j: int| 0 <= j < r@.len() implies #[trigger] r@[j] < i + 1 by {
                if j < p {
                    assert(r@[j] == old_r[j]);
                } else if j > p {
                    assert(r@[j] == old_r[j - 1]);
                }
            }
            assert forall|a: int, b: int| 0 <= a < r@.len() && 0 <= b < r@.len() && a != b implies r@[a] != r@[b] by {
                if a == p {
                    if b < p {
                        assert(r@[b] == old_r[b]);
                    } else {
                        assert(r@[b] == old_r[b - 1]);
                    }
                } else if b == p {
                    if a < p {
                        assert(r@[a] == old_r[a]);
                    } else {
                        assert(r@[a] == old_r[a - 1]);
                    }
                } else {
                    let oa = if a < p { a } else { a - 1 };
                    let ob = if b < p { b } else { b - 1 };
                    assert(r@[a] == old_r[oa] && r@[b] == old_r[ob]);
                }
            }
            assert forall|a: int, b: int| 0 <= a < b < r@.len() implies placed_before(
                ov,
                iv,
                #[trigger] r@[a] as int,
                #[trigger] r@[b] as int,
            ) by {
                if b < p {
                    assert(r@[a] == old_r[a] && r@[b] == old_r[b]);
                } else if b == p {
                    assert(r@[a] == old_r[a]);
                    assert(ranks@[old_r[a] as int] <= ranks@[i as int]);
                } else if a == p {
                    assert(r@[b] == old_r[b - 1]);
                    if b - 1 == p {
                        assert(!(ranks@[old_r[p as int] as int] <= ranks@[i as int]));
                    } else {
                        assert(placed_before(ov, iv, old_r[p as int] as int, old_r[b - 1] as int));
                        assert(!(ranks@[old_r[p as int] as int] <= ranks@[i as int]));
                    }
                } else if a < p {
                    assert(r@[a] == old_r[a] && r@[b] == old_r[b - 1]);
                } else {
                    assert(r@[a] == old_r[a - 1] && r@[b] == old_r[b - 1]);
                }
            }
        }
        i += 1;
    }
    r
}

// ---------------------------------------------------------------------------
// Building the rows
// ---------------------------------------------------------------------------
/// The presented cells of a sensor: its values as text, its status and the
/// colors of each, as the presentation of its reading gave them.
#[derive(Debug, Clone)]
pub struct SensorCells {
    pub current: String,
    pub minimum: String,
    pub maximum: String,
    pub average: String,
    pub status: String,
    pub current_color: Option<String>,
    pub minimum_color: Option<String>,
    pub maximum_color: Option<String>,
    pub average_color: Option<String>,
    pub status_color: Option<String>,
}

/// A sensor of a device: its id, kind, the heading of its kind, its label,
/// the alias the user gave it, and its presented cells.
#[derive(Debug, Clone)]
pub struct SensorEntry {
    pub id: String,
    pub kind: SensorKind,
    pub kind_name: String,
    pub label: String,
    pub alias: Option<String>,
    pub cells: SensorCells,
}

/// A device with sensors: its id, the label it is shown under, its name,
/// its driver and its sensors in the order they were collected.
#[derive(Debug, Clone)]
pub struct DeviceEntry {
    pub id: String,
    pub label: String,
    pub name: String,
    pub driver: Option<String>,
    pub sensors: Vec<SensorEntry>,
}

/// How the table is built: the user's device order, whether sensors are
/// grouped under kind headings, the search, and whether only favourites show.
#[derive(Debug, Clone)]
pub struct RowOptions {
    pub device_order: Vec<String>,
    pub show_sensor_groups: bool,
    pub query: String,
    pub favorites_only: bool,
}

/// A row as values.
pub struct RowView {
    pub id: Seq<char>,
    pub device_id: Seq<char>,
    pub sensor_id: Option<Seq<char>>,
    pub hide_key: Seq<char>,
    pub kind: RowKind,
    pub depth: u8,
    pub label: Seq<char>,
    pub original_label: Seq<char>,
    pub current: Seq<char>,
    pub minimum: Seq<char>,
    pub maximum: Seq<char>,
    pub average: Seq<char>,
    pub status: Seq<char>,
    pub current_color: Option<Seq<char>>,
    pub minimum_color: Option<Seq<char>>,
    pub maximum_color: Option<Seq<char>>,
    pub average_color: Option<Seq<char>>,
    pub status_color: Option<Seq<char>>,
    pub favorite: bool,
    pub collapsed: bool,
}

/// What the rows depend on besides the devices.
pub struct RowContext {
    pub hidden: Set<Seq<char>>,
    pub collapsed: Set<Seq<char>>,
    pub favorites: Set<Seq<char>>,
    pub groups: bool,
    pub favorites_only: bool,
    /// The search, trimmed and lower-cased.
    pub query: Seq<char>,
}

pub open spec fn context_of(visibility: &VisibilityState, options: &RowOptions) -> RowContext {
    RowContext {
        hidden: visibility.hidden_view().dom(),
        collapsed: visibility.collapsed_view(),
        favorites: visibility.favorites_view(),
        groups: options.show_sensor_groups,
        favorites_only: options.favorites_only,
        query: unicode_lower_str(trim(options.query@)),
    }
}

pub open spec fn opt_text(o: Option<String>) -> Option<Seq<char>> {
    match o {
        Some(t) => Some(t@),
        None => None,
    }
}

pub open spec fn row_view(r: SensorRow) -> RowView {
    RowView {
        id: r.id@,
        device_id: r.device_id@,
        sensor_id: opt_text(r.sensor_id),
        hide_key: r.hide_key@,
        kind: r.kind,
        depth: r.depth,
        label: r.label@,
        original_label: r.original_label@,
        current: r.current@,
        minimum: r.minimum@,
        maximum: r.maximum@,
        average: r.average@,
        status: r.status@,
        current_color: opt_text(r.current_color),
        minimum_color: opt_text(r.minimum_color),
        maximum_color: opt_text(r.maximum_color),
        average_color: opt_text(r.average_color),
        status_color: opt_text(r.status_color),
        favorite: r.favorite,
        collapsed: r.collapsed,
    }
}

pub open spec fn row_views(v: Seq<SensorRow>) -> Seq<RowView> {
    v.map_values(|r: SensorRow| row_view(r))
}

/// The lower-cased text a search looks in.
pub open spec fn row_text(v: RowView) -> Seq<char> {
    unicode_lower_str(v.label + " "@ + v.original_label + " "@ + v.current + " "@ + v.status)
}

/// Where a kind sorts among the kinds.
pub open spec fn kind_rank(k: SensorKind) -> nat {
    match k {
        SensorKind::Temperature => 0,
        SensorKind::Voltage => 1,
        SensorKind::Current => 2,
        SensorKind::Power => 3,
        SensorKind::Energy => 4,
        SensorKind::Fan => 5,
        SensorKind::Frequency => 6,
        SensorKind::EffectiveClock => 7,
        SensorKind::Throughput => 8,
        SensorKind::Utilization => 9,
        SensorKind::Capacity => 10,
        SensorKind::Humidity => 11,
        SensorKind::Counter => 12,
        SensorKind::Boolean => 13,
        SensorKind::Other => 14,
    }
}

/// The number of kinds.
pub const KIND_COUNT: usize = 15;

/// The kind at a rank.
pub fn kind_at(rank: usize) -> (k: SensorKind)
    requires
        rank < KIND_COUNT,
    ensures
        kind_rank(k) == rank,
{
    match rank {
        0 => SensorKind::Temperature,
        1 => SensorKind::Voltage,
        2 => SensorKind::Current,
        3 => SensorKind::Power,
        4 => SensorKind::Energy,
        5 => SensorKind::Fan,
        6 => SensorKind::Frequency,
        7 => SensorKind::EffectiveClock,
        8 => SensorKind::Throughput,
        9 => SensorKind::Utilization,
        10 => SensorKind::Capacity,
        11 => SensorKind::Humidity,
        12 => SensorKind::Counter,
        13 => SensorKind::Boolean,
        _ => SensorKind::Other,
    }
}

fn rank_of(k: SensorKind) -> (r: usize)
    ensures
        r == kind_rank(k),
{
    match k {
        SensorKind::Temperature => 0,
        SensorKind::Voltage => 1,
        SensorKind::Current => 2,
        SensorKind::Power => 3,
        SensorKind::Energy => 4,
        SensorKind::Fan => 5,
        SensorKind::Frequency => 6,
        SensorKind::EffectiveClock => 7,
        SensorKind::Throughput => 8,
        SensorKind::Utilization => 9,
        SensorKind::Capacity => 10,
        SensorKind::Humidity => 11,
        SensorKind::Counter => 12,
        SensorKind::Boolean => 13,
        SensorKind::Other => 14,
    }
}

/// The label a sensor is shown under: its alias when that is not blank.
pub open spec fn shown_label(s: SensorEntry) -> Seq<char> {
    match s.alias {
        Some(a) => if trim(a@).len() > 0 {
            a@
        } else {
            s.label@
        },
        None => s.label@,
    }
}

/// The row of a sensor.
pub open spec fn sensor_row_view(d: DeviceEntry, s: SensorEntry, c: RowContext) -> RowView {
    let key = sensor_key_spec(d.id@, s.id@);
    RowView {
        id: key,
        device_id: d.id@,
        sensor_id: Some(s.id@),
        hide_key: key,
        kind: RowKind::Sensor,
        depth: if c.groups { 2u8 } else { 1u8 },
        label: shown_label(s),
        original_label: s.label@,
        current: s.cells.current@,
        minimum: s.cells.minimum@,
        maximum: s.cells.maximum@,
        average: s.cells.average@,
        status: s.cells.status@,
        current_color: opt_text(s.cells.current_color),
        minimum_color: opt_text(s.cells.minimum_color),
        maximum_color: opt_text(s.cells.maximum_color),
        average_color: opt_text(s.cells.average_color),
        status_color: opt_text(s.cells.status_color),
        favorite: c.favorites.contains(key),
        collapsed: false,
    }
}

/// A device or group heading.
pub open spec fn section_view(
    id: Seq<char>,
    device_id: Seq<char>,
    kind: RowKind,
    depth: u8,
    label: Seq<char>,
    original_label: Seq<char>,
    status: Seq<char>,
    collapsed: bool,
) -> RowView {
    RowView {
        id,
        device_id,
        sensor_id: None,
        hide_key: id,
        kind,
        depth,
        label,
        original_label,
        current: seq![],
        minimum: seq![],
        maximum: seq![],
        average: seq![],
        status,
        current_color: None,
        minimum_color: None,
        maximum_color: None,
        average_color: None,
        status_color: None,
        favorite: false,
        collapsed,
    }
}

/// Whether the query (empty or not) finds `text`.
pub open spec fn query_hits(query: Seq<char>, text: Seq<char>) -> bool {
    query.len() > 0 && contains_seq(unicode_lower_str(text), query)
}

/// The sensor survives hiding and the favourites filter.
pub open spec fn sensor_passes(d: DeviceEntry, s: SensorEntry, c: RowContext) -> bool {
    let key = sensor_key_spec(d.id@, s.id@);
    !c.hidden.contains(key) && (!c.favorites_only || c.favorites.contains(key))
}

/// The rows of the first `n` sensors of kind `rank` that survive the
/// filters and the search.
pub open spec fn projected(d: DeviceEntry, rank: nat, n: nat, c: RowContext, device_hit: bool, group_hit: bool) -> Seq<RowView>
    decreases n,
{
    if n == 0 {
        seq![]
    } else {
        let rest = projected(d, rank, (n - 1) as nat, c, device_hit, group_hit);
        let s = d.sensors@[n - 1];
        let row = sensor_row_view(d, s, c);
        if kind_rank(s.kind) == rank && sensor_passes(d, s, c) && (c.query.len() == 0 || contains_seq(
            row_text(row),
            c.query,
        ) || device_hit || group_hit) {
            rest.push(row)
        } else {
            rest
        }
    }
}

/// Whether one of the first `n` sensors has kind `rank`.
pub open spec fn has_rank(ss: Seq<SensorEntry>, rank: nat, n: int) -> bool {
    exists|i: int| #![trigger ss[i]] 0 <= i < n && kind_rank(ss[i].kind) == rank
}

/// The heading of kind `rank`: the kind name of its first sensor.
pub open spec fn kind_heading(ss: Seq<SensorEntry>, rank: nat, n: nat) -> Seq<char>
    decreases n,
{
    if n == 0 {
        seq![]
    } else if has_rank(ss, rank, n - 1) {
        kind_heading(ss, rank, (n - 1) as nat)
    } else if kind_rank(ss[n - 1].kind) == rank {
        ss[n - 1].kind_name@
    } else {
        seq![]
    }
}

pub open spec fn device_key_spec(id: Seq<char>) -> Seq<char> {
    "device:"@ + id
}

pub open spec fn group_key_spec(id: Seq<char>, rank: nat) -> Seq<char> {
    "group:"@ + id + ":"@ + sensor_kind_as_str(kind_of_rank(rank))
}

pub open spec fn kind_of_rank(rank: nat) -> SensorKind {
    if rank == 0 { SensorKind::Temperature }
    else if rank == 1 { SensorKind::Voltage }
    else if rank == 2 { SensorKind::Current }
    else if rank == 3 { SensorKind::Power }
    else if rank == 4 { SensorKind::Energy }
    else if rank == 5 { SensorKind::Fan }
    else if rank == 6 { SensorKind::Frequency }
    else if rank == 7 { SensorKind::EffectiveClock }
    else if rank == 8 { SensorKind::Throughput }
    else if rank == 9 { SensorKind::Utilization }
    else if rank == 10 { SensorKind::Capacity }
    else if rank == 11 { SensorKind::Humidity }
    else if rank == 12 { SensorKind::Counter }
    else if rank == 13 { SensorKind::Boolean }
    else { SensorKind::Other }
}

/// The rows of one kind of a device: nothing when the group is hidden or
/// none of its sensors is listed; else, when grouping, its heading (with
/// the number of listed sensors) and, unless collapsed, the sensors.
pub open spec fn group_rows(d: DeviceEntry, rank: nat, c: RowContext, device_hit: bool) -> Seq<RowView> {
    let heading = kind_heading(d.sensors@, rank, d.sensors@.len());
    let group_hit = query_hits(c.query, heading);
    let gkey = group_key_spec(d.id@, rank);
    let p = projected(d, rank, d.sensors@.len(), c, device_hit, group_hit);
    if c.hidden.contains(gkey) || p.len() == 0 {
        seq![]
    } else if c.groups {
        seq![section_view(gkey, d.id@, RowKind::Header, 1, heading, heading, decimal(p.len()) + " sensors"@, c.collapsed.contains(gkey))]
            + if c.collapsed.contains(gkey) {
            seq![]
        } else {
            p
        }
    } else {
        p
    }
}

/// The rows of the first `m` kinds of a device.
pub open spec fn groups_body(d: DeviceEntry, c: RowContext, device_hit: bool, m: nat) -> Seq<RowView>
    decreases m,
{
    if m == 0 {
        seq![]
    } else {
        groups_body(d, c, device_hit, (m - 1) as nat) + group_rows(d, (m - 1) as nat, c, device_hit)
    }
}

/// The rows of a device: nothing when it has no sensors, is hidden, or
/// lists none; else its heading and, unless collapsed, its groups.
pub open spec fn device_rows(d: DeviceEntry, c: RowContext) -> Seq<RowView> {
    let dkey = device_key_spec(d.id@);
    let body = groups_body(d, c, query_hits(c.query, d.label@), KIND_COUNT as nat);
    if d.sensors@.len() == 0 || c.hidden.contains(dkey) || body.len() == 0 {
        seq![]
    } else {
        seq![section_view(dkey, d.id@, RowKind::Device, 0, d.label@, d.name@, opt_or_empty(d.driver), c.collapsed.contains(dkey))]
            + if c.collapsed.contains(dkey) {
            seq![]
        } else {
            body
        }
    }
}

pub open spec fn opt_or_empty(o: Option<String>) -> Seq<char> {
    match o {
        Some(t) => t@,
        None => seq![],
    }
}

/// The rows of the first `n` devices of a listing.
pub open spec fn listed_rows(devices: Seq<DeviceEntry>, listing: Seq<usize>, c: RowContext, n: nat) -> Seq<RowView>
    decreases n,
{
    if n == 0 {
        seq![]
    } else {
        listed_rows(devices, listing, c, (n - 1) as nat) + device_rows(devices[listing[n - 1] as int], c)
    }
}

fn clone_text(o: &Option<String>) -> (r: Option<String>)
    ensures
        opt_text(r) == opt_text(*o),
{
    match o {
        Some(t) => Some(t.clone()),
        None => None,
    }
}

/// Whether the (already trimmed and lower-cased) query finds `text`.
fn query_finds(query: &str, text: &str) -> (r: bool)
    ensures
        r == query_hits(query@, text@),
{
    let q = chars_of(query);
    if q.len() == 0 {
        return false;
    }
    let lowered = str_to_lowercase(text);
    contains(&chars_of(lowered.as_str()), &q)
}

/// The row of one sensor.
fn sensor_row(d: &DeviceEntry, s: &SensorEntry, options: &RowOptions, visibility: &VisibilityState) -> (r: SensorRow)
    ensures
        row_view(r) == sensor_row_view(*d, *s, context_of(visibility, options)),
{
    let key = sensor_key(d.id.as_str(), s.id.as_str());
    let label = match &s.alias {
        Some(a) => {
            if trim_chars(&chars_of(a.as_str())).len() > 0 {
                a.clone()
            } else {
                s.label.clone()
            }
        },
        None => s.label.clone(),
    };
    let favorite = visibility.is_favorite(key.as_str());
    SensorRow {
        hide_key: key.clone(),
        id: key,
        device_id: d.id.clone(),
        sensor_id: Some(s.id.clone()),
        kind: RowKind::Sensor,
        depth: if options.show_sensor_groups { 2 } else { 1 },
        label,
        original_label: s.label.clone(),
        current: s.cells.current.clone(),
        minimum: s.cells.minimum.clone(),
        maximum: s.cells.maximum.clone(),
        average: s.cells.average.clone(),
        status: s.cells.status.clone(),
        current_color: clone_text(&s.cells.current_color),
        minimum_color: clone_text(&s.cells.minimum_color),
        maximum_color: clone_text(&s.cells.maximum_color),
        average_color: clone_text(&s.cells.average_color),
        status_color: clone_text(&s.cells.status_color),
        favorite,
        collapsed: false,
    }
}

proof fn lemma_heading_absent(ss: Seq<SensorEntry>, rank: nat, n: nat)
    requires
        n <= ss.len(),
        !has_rank(ss, rank, n as int),
    ensures
        kind_heading(ss, rank, n) == Seq::<char>::empty(),
    decreases n,
{
    if n > 0 {
        assert(!has_rank(ss, rank, n - 1)) by {
            if has_rank(ss, rank, n - 1) {
                let i = choose|i: int| #![trigger ss[i]] 0 <= i < n - 1 && kind_rank(ss[i].kind) == rank;
                assert(0 <= i < n && kind_rank(ss[i].kind) == rank);
            }
        }
        assert(kind_rank(ss[n - 1].kind) != rank);
        lemma_heading_absent(ss, rank, (n - 1) as nat);
    }
}

proof fn lemma_heading_first(ss: Seq<SensorEntry>, rank: nat, first: nat, n: nat)
    requires
        first < n <= ss.len(),
        kind_rank(ss[first as int].kind) == rank,
        !has_rank(ss, rank, first as int),
    ensures
        kind_heading(ss, rank, n) == ss[first as int].kind_name@,
    decreases n,
{
    if n - 1 > first {
        assert(has_rank(ss, rank, n - 1)) by {
            assert(0 <= first < n - 1 && kind_rank(ss[first as int].kind) == rank);
        }
        lemma_heading_first(ss, rank, first, (n - 1) as nat);
    }
}

/// The heading of a kind: the kind name of its first sensor.
fn heading_of(ss: &Vec<SensorEntry>, rank: usize) -> (r: String)
    ensures
        r@ == kind_heading(ss@, rank as nat, ss@.len() as nat),
{
    let mut i: usize = 0;
    while i < ss.len()
        invariant
            i <= ss@.len(),
            !has_rank(ss@, rank as nat, i as int),
        decreases ss@.len() - i,
    {
        if rank_of(ss[i].kind) == rank {
            proof {
                lemma_heading_first(ss@, rank as nat, i as nat, ss@.len() as nat);
            }
            return ss[i].kind_name.clone();
        }
        assert(!has_rank(ss@, rank as nat, i + 1)) by {
            if has_rank(ss@, rank as nat, i + 1) {
                let k = choose|k: int| #![trigger ss@[k]] 0 <= k < i + 1 && kind_rank(ss@[k].kind) == rank;
                assert(k < i);
            }
        }
        i += 1;
    }
    proof {
        lemma_heading_absent(ss@, rank as nat, ss@.len() as nat);
    }
    String::new()
}

/// The listed rows of the sensors of one kind.
fn projected_rows(
    d: &DeviceEntry,
    rank: usize,
    options: &RowOptions,
    visibility: &VisibilityState,
    query: &str,
    device_hit: bool,
    group_hit: bool,
) -> (r: Vec<SensorRow>)
    requires
        query@ == context_of(visibility, options).query,
    ensures
        row_views(r@) == projected(*d, rank as nat, d.sensors@.len() as nat, context_of(visibility, options), device_hit, group_hit),
{
    let ghost c = context_of(visibility, options);
    let query_empty = chars_of(query).len() == 0;
    let mut out: Vec<SensorRow> = Vec::new();
    let mut i: usize = 0;
    while i < d.sensors.len()
        invariant
            i <= d.sensors@.len(),
            c == context_of(visibility, options),
            query@ == c.query,
            query_empty == (c.query.len() == 0),
            row_views(out@) == projected(*d, rank as nat, i as nat, c, device_hit, group_hit),
        decreases d.sensors@.len() - i,
    {
        let s = &d.sensors[i];
        let key = sensor_key(d.id.as_str(), s.id.as_str());
        let passes = rank_of(s.kind) == rank && !visibility.is_hidden(key.as_str()) && (!options.favorites_only
            || visibility.is_favorite(key.as_str()));
        if passes {
            let row = sensor_row(d, s, options, visibility);
            let selected = query_empty || row.matches_query(query) || device_hit || group_hit;
            proof {
                assert(row.search_text() == row_text(row_view(row)));
            }
            if selected {
                out.push(row);
                proof {
                    assert(row_views(out@) =~= projected(*d, rank as nat, i as nat, c, device_hit, group_hit).push(row_view(row)));
                }
            }
        }
        i += 1;
    }
    out
}

proof fn lemma_kind_of_rank(k: SensorKind)
    ensures
        kind_of_rank(kind_rank(k)) == k,
{
}

fn heading_row(
    id: String,
    device_id: String,
    kind: RowKind,
    depth: u8,
    label: String,
    original_label: String,
    status: String,
    collapsed: bool,
) -> (r: SensorRow)
    ensures
        row_view(r) == section_view(id@, device_id@, kind, depth, label@, original_label@, status@, collapsed),
{
    let r = SensorRow::section(id, device_id, kind, depth, label, original_label, status, collapsed);
    assert(r.current@ =~= Seq::<char>::empty());
    assert(r.minimum@ =~= Seq::<char>::empty());
    assert(r.maximum@ =~= Seq::<char>::empty());
    assert(r.average@ =~= Seq::<char>::empty());
    r
}

/// The rows of one kind of a device.
fn kind_rows(
    d: &DeviceEntry,
    rank: usize,
    options: &RowOptions,
    visibility: &VisibilityState,
    query: &str,
    device_hit: bool,
) -> (r: Vec<SensorRow>)
    requires
        rank < KIND_COUNT,
        query@ == context_of(visibility, options).query,
    ensures
        row_views(r@) == group_rows(*d, rank as nat, context_of(visibility, options), device_hit),
{
    let ghost c = context_of(visibility, options);
    let heading = heading_of(&d.sensors, rank);
    let group_hit = query_finds(query, heading.as_str());
    let kind = kind_at(rank);
    proof {
        lemma_kind_of_rank(kind);
    }
    let mut kv = chars_of("group:");
    append_str(&mut kv, d.id.as_str());
    append_str(&mut kv, ":");
    append_str(&mut kv, kind.as_str());
    let gkey = string_of(&kv);
    proof {
        reveal_strlit("group:");
        reveal_strlit(":");
        assert(gkey@ == group_key_spec(d.id@, rank as nat));
    }
    let mut p = projected_rows(d, rank, options, visibility, query, device_hit, group_hit);
    if visibility.is_hidden(gkey.as_str()) || p.len() == 0 {
        let empty: Vec<SensorRow> = Vec::new();
        assert(row_views(empty@) =~= Seq::<RowView>::empty());
        return empty;
    }
    if options.show_sensor_groups {
        let collapsed = visibility.is_collapsed(gkey.as_str());
        let mut sv = chars_of(decimal_string(p.len() as u128).as_str());
        append_str(&mut sv, " sensors");
        let status = string_of(&sv);
        let header = heading_row(gkey, d.id.clone(), RowKind::Header, 1, heading.clone(), heading, status, collapsed);
        let ghost pv = row_views(p@);
        let mut out: Vec<SensorRow> = Vec::new();
        out.push(header);
        if !collapsed {
            out.append(&mut p);
        }
        proof {
            if collapsed {
                assert(row_views(out@) =~= seq![row_view(header)] + Seq::<RowView>::empty());
            } else {
                assert(row_views(out@) =~= seq![row_view(header)] + pv);
            }
        }
        out
    } else {
        p
    }
}

/// The rows of one device.
fn rows_of_device(d: &DeviceEntry, options: &RowOptions, visibility: &VisibilityState, query: &str) -> (r: Vec<SensorRow>)
    requires
        query@ == context_of(visibility, options).query,
    ensures
        row_views(r@) == device_rows(*d, context_of(visibility, options)),
{
    let ghost c = context_of(visibility, options);
    let mut kv = chars_of("device:");
    append_str(&mut kv, d.id.as_str());
    let dkey = string_of(&kv);
    proof {
        reveal_strlit("device:");
        assert(dkey@ == device_key_spec(d.id@));
    }
    if d.sensors.len() == 0 || visibility.is_hidden(dkey.as_str()) {
        let empty: Vec<SensorRow> = Vec::new();
        assert(row_views(empty@) =~= Seq::<RowView>::empty());
        return empty;
    }
    let device_hit = query_finds(query, d.label.as_str());
    let mut body: Vec<SensorRow> = Vec::new();
    let mut rank: usize = 0;
    assert(row_views(body@) =~= groups_body(*d, c, device_hit, 0));
    while rank < KIND_COUNT
        invariant
            rank <= KIND_COUNT,
            c == context_of(visibility, options),
            query@ == c.query,
            device_hit == query_hits(c.query, d.label@),
            row_views(body@) == groups_body(*d, c, device_hit, rank as nat),
        decreases KIND_COUNT - rank,
    {
        let ghost before = row_views(body@);
        let mut g = kind_rows(d, rank, options, visibility, query, device_hit);
        let ghost gv = row_views(g@);
        body.append(&mut g);
        assert(row_views(body@) =~= before + gv);
        rank += 1;
    }
    if body.len() == 0 {
        let empty: Vec<SensorRow> = Vec::new();
        assert(row_views(empty@) =~= Seq::<RowView>::empty());
        return empty;
    }
    let collapsed = visibility.is_collapsed(dkey.as_str());
    let driver = match &d.driver {
        Some(t) => t.clone(),
        None => String::new(),
    };
    assert(driver@ == opt_or_empty(d.driver));
    let heading = heading_row(dkey, d.id.clone(), RowKind::Device, 0, d.label.clone(), d.name.clone(), driver, collapsed);
    let ghost bv = row_views(body@);
    let mut out: Vec<SensorRow> = Vec::new();
    out.push(heading);
    if !collapsed {
        out.append(&mut body);
    }
    proof {
        if collapsed {
            assert(row_views(out@) =~= seq![row_view(heading)] + Seq::<RowView>::empty());
        } else {
            assert(row_views(out@) =~= seq![row_view(heading)] + bv);
        }
    }
    out
}

/// The ids of the devices.
pub open spec fn device_ids(devices: Seq<DeviceEntry>) -> Seq<Seq<char>> {
    devices.map_values(|d: DeviceEntry| d.id@)
}

/// The rows of the sensor table: the devices in the user's order, each
/// with its heading and its sensors by kind (under kind headings when
/// grouping), leaving out what is hidden, what is not a favourite when only
/// favourites show, and what the search does not find (a sensor is found
/// when its own text matches or its device's or kind's label does).
pub fn build_sensor_rows(devices: &[DeviceEntry], options: &RowOptions, visibility: &VisibilityState) -> (r: Vec<SensorRow>)
    ensures
        exists|listing: Seq<usize>|
            ordered_listing(listing, str_views(options.device_order@), device_ids(devices@), devices@.len() as nat)
                && row_views(r@) == listed_rows(devices@, listing, context_of(visibility, options), devices@.len() as nat),
        is_ascii_text(trim(options.query@)) ==> context_of(visibility, options).query == lower_seq(trim(options.query@)),
{
    let ghost c = context_of(visibility, options);
    let trimmed = string_of(&trim_chars(&chars_of(options.query.as_str())));
    let query = str_to_lowercase(trimmed.as_str());
    assert(query@ == c.query);
    let mut ids: Vec<String> = Vec::new();
    let mut i: usize = 0;
    while i < devices.len()
        invariant
            i <= devices@.len(),
            str_views(ids@) == device_ids(devices@.take(i as int)),
        decreases devices@.len() - i,
    {
        ids.push(devices[i].id.clone());
        assert(device_ids(devices@.take(i + 1)) =~= device_ids(devices@.take(i as int)).push(devices@[i as int].id@));
        assert(str_views(ids@) =~= device_ids(devices@.take(i as int)).push(devices@[i as int].id@));
        i += 1;
    }
    assert(devices@.take(devices@.len() as int) =~= devices@);
    let listing = ordered_device_indices(ids.as_slice(), options.device_order.as_slice());
    let mut rows: Vec<SensorRow> = Vec::new();
    let mut j: usize = 0;
    while j < listing.len()
        invariant
            j <= listing@.len(),
            listing@.len() == devices@.len(),
            forall|k: int| 0 <= k < listing@.len() ==> #[trigger] listing@[k] < devices@.len(),
            c == context_of(visibility, options),
            query@ == c.query,
            row_views(rows@) == listed_rows(devices@, listing@, c, j as nat),
        decreases listing@.len() - j,
    {
        let ghost before = row_views(rows@);
        let mut dr = rows_of_device(&devices[listing[j]], options, visibility, query.as_str());
        let ghost dv = row_views(dr@);
        rows.append(&mut dr);
        assert(row_views(rows@) =~= before + dv);
        j += 1;
    }
    proof {
        assert(ordered_listing(listing@, str_views(options.device_order@), device_ids(devices@), devices@.len() as nat));
    }
    rows
}

/// A property value that is present and not blank.
pub open spec fn filled(o: Option<&str>) -> Option<Seq<char>> {
    match o {
        Some(v) => if trim(v@).len() > 0 {
            Some(v@)
        } else {
            None
        },
        None => None,
    }
}

/// The label of a device in the sensor table. A memory module also names
/// its locator (unless its name already holds it) and its I²C address:
/// `name — locator · I²C address`.
pub open spec fn display_label(name: Seq<char>, is_memory: bool, locator: Option<&str>, i2c_address: Option<&str>) -> Seq<char> {
    let loc = match filled(locator) {
        Some(l) => if contains_seq(name, l) {
            None
        } else {
            Some(l)
        },
        None => None,
    };
    let addr = match filled(i2c_address) {
        Some(a) => Some("I²C "@ + a),
        None => None,
    };
    if !is_memory {
        name
    } else {
        match (loc, addr) {
            (Some(l), Some(a)) => name + " — "@ + l + " · "@ + a,
            (Some(l), None) => name + " — "@ + l,
            (None, Some(a)) => name + " — "@ + a,
            (None, None) => name,
        }
    }
}

fn filled_text(o: Option<&str>) -> (r: Option<Vec<char>>)
    ensures
        match r {
            Some(v) => filled(o) == Some(v@),
            None => filled(o) is None,
        },
{
    match o {
        Some(v) => {
            let c = chars_of(v);
            if trim_chars(&c).len() > 0 {
                Some(c)
            } else {
                None
            }
        },
        None => None,
    }
}

pub fn device_display_label(name: &str, is_memory: bool, locator: Option<&str>, i2c_address: Option<&str>) -> (r: String)
    ensures
        r@ == display_label(name@, is_memory, locator, i2c_address),
{
    if !is_memory {
        return name.to_string();
    }
    let n = chars_of(name);
    let loc = match filled_text(locator) {
        Some(l) => if contains(&n, &l) {
            None
        } else {
            Some(l)
        },
        None => None,
    };
    let addr = filled_text(i2c_address);
    let mut out = n;
    proof {
        reveal_strlit(" — ");
        reveal_strlit(" · ");
        reveal_strlit("I²C ");
    }
    match (loc, addr) {
        (Some(l), Some(a)) => {
            append_str(&mut out, " — ");
            crate::text::append_chars(&mut out, &l);
            append_str(&mut out, " · ");
            append_str(&mut out, "I²C ");
            crate::text::append_chars(&mut out, &a);
            assert(out@ =~= name@ + " — "@ + l@ + " · "@ + ("I²C "@ + a@));
        },
        (Some(l), None) => {
            append_str(&mut out, " — ");
            crate::text::append_chars(&mut out, &l);
        },
        (None, Some(a)) => {
            append_str(&mut out, " — ");
            append_str(&mut out, "I²C ");
            crate::text::append_chars(&mut out, &a);
            assert(out@ =~= name@ + " — "@ + ("I²C "@ + a@));
        },
        (None, None) => {},
    }
    string_of(&out)
}

} // verus!
