//! Building a snapshot from the records the collectors produce.
//!
//! Records are keyed by device id. A record with a new id starts an entry;
//! one with a known id is merged into it: its name replaces the entry's when
//! `replaces_name` allows it or when it brings the first model, its class
//! replaces the entry's when `class_rank` ranks it higher, and its readings
//! are keyed by sensor id, each replacing the reading with its id. Which
//! record's optional fields win (the last one that has them) the caller
//! applies in the order of `merged`. Entries come out in id order.
use vstd::prelude::*;
use crate::model::{
    class_rank, class_rank_of, device_class_order, device_class_position, natural_cmp, replaces_name,
    sensor_kind_order, sensor_kind_position, should_replace_name, DeviceClass, SensorKind,
};
use crate::natural::natural_order;
use crate::text::{str_to_lowercase, unicode_lower_str};
use std::cmp::Ordering;
use crate::text::{chars_eq, chars_lt, chars_of, lex_lt};

verus! {

/// What the builder reads of a collector record.
#[derive(Debug, Clone)]
pub struct RecordKeys {
    pub id: String,
    pub name: String,
    pub class: DeviceClass,
    pub has_model: bool,
    pub sensor_ids: Vec<String>,
}

/// A built device: the record that started it, the records merged into it
/// in order, the record whose name it shows, whether it has a model, its
/// class, and its readings as (record, reading index).
#[derive(Debug, Clone)]
pub struct BuiltDevice {
    pub first: usize,
    pub merged: Vec<usize>,
    pub name: usize,
    pub has_model: bool,
    pub class: DeviceClass,
    pub sensors: Vec<(usize, usize)>,
}

pub struct BuiltView {
    pub first: usize,
    pub merged: Seq<usize>,
    pub name: usize,
    pub has_model: bool,
    pub class: DeviceClass,
    pub sensors: Seq<(usize, usize)>,
}

pub open spec fn built_view(d: BuiltDevice) -> BuiltView {
    BuiltView {
        first: d.first,
        merged: d.merged@,
        name: d.name,
        has_model: d.has_model,
        class: d.class,
        sensors: d.sensors@,
    }
}

pub open spec fn built_views(v: Seq<BuiltDevice>) -> Seq<BuiltView> {
    v.map_values(|d: BuiltDevice| built_view(d))
}

pub open spec fn reading_id(rs: Seq<RecordKeys>, p: (usize, usize)) -> Seq<char> {
    rs[p.0 as int].sensor_ids@[p.1 as int]@
}

/// Where a reading with id `id` goes among readings kept in id order.
pub open spec fn reading_pos(rs: Seq<RecordKeys>, s: Seq<(usize, usize)>, id: Seq<char>, j: int) -> int
    decreases s.len() - j,
{
    if j < 0 || j >= s.len() {
        s.len() as int
    } else if !lex_lt(reading_id(rs, s[j]), id) {
        j
    } else {
        reading_pos(rs, s, id, j + 1)
    }
}

/// Keyed insertion: replaces the reading with the same id, or inserts it
/// in id order.
pub open spec fn put_reading(rs: Seq<RecordKeys>, s: Seq<(usize, usize)>, p: (usize, usize)) -> Seq<(usize, usize)> {
    let id = reading_id(rs, p);
    let j = reading_pos(rs, s, id, 0);
    if j < s.len() && reading_id(rs, s[j]) == id {
        s.update(j, p)
    } else {
        s.insert(j, p)
    }
}

/// The first `n` readings of `s` keyed by id.
pub open spec fn keyed_readings(rs: Seq<RecordKeys>, s: Seq<(usize, usize)>, n: nat) -> Seq<(usize, usize)>
    decreases n,
{
    if n == 0 {
        Seq::empty()
    } else {
        put_reading(rs, keyed_readings(rs, s, (n - 1) as nat), s[n - 1])
    }
}

/// The first `n` readings of record `i` put, one by one, into keyed readings.
pub open spec fn add_readings(rs: Seq<RecordKeys>, s: Seq<(usize, usize)>, i: usize, n: nat) -> Seq<(usize, usize)>
    decreases n,
{
    if n == 0 {
        s
    } else {
        put_reading(rs, add_readings(rs, s, i, (n - 1) as nat), (i, (n - 1) as usize))
    }
}

/// The readings of record `i`, as they are.
pub open spec fn own_readings(rs: Seq<RecordKeys>, i: usize) -> Seq<(usize, usize)> {
    Seq::new(rs[i as int].sensor_ids@.len(), |k: int| (i, k as usize))
}

/// A new entry for record `i`.
pub open spec fn fresh_entry(rs: Seq<RecordKeys>, i: usize) -> BuiltView {
    BuiltView {
        first: i,
        merged: Seq::empty(),
        name: i,
        has_model: rs[i as int].has_model,
        class: rs[i as int].class,
        sensors: own_readings(rs, i),
    }
}

/// An entry with record `i` merged into it.
pub open spec fn merge_entry(rs: Seq<RecordKeys>, d: BuiltView, i: usize) -> BuiltView {
    let r = rs[i as int];
    BuiltView {
        first: d.first,
        merged: d.merged.push(i),
        name: if replaces_name(rs[d.name as int].name@, r.name@) || (r.has_model && !d.has_model) {
            i
        } else {
            d.name
        },
        has_model: d.has_model || r.has_model,
        class: if class_rank_of(r.class) > class_rank_of(d.class) {
            r.class
        } else {
            d.class
        },
        sensors: add_readings(rs, keyed_readings(rs, d.sensors, d.sensors.len()), i, r.sensor_ids@.len()),
    }
}

pub open spec fn entry_id(rs: Seq<RecordKeys>, d: BuiltView) -> Seq<char> {
    rs[d.first as int].id@
}

/// Where an entry with id `id` goes among entries kept in id order.
pub open spec fn entry_pos(rs: Seq<RecordKeys>, s: Seq<BuiltView>, id: Seq<char>, j: int) -> int
    decreases s.len() - j,
{
    if j < 0 || j >= s.len() {
        s.len() as int
    } else if !lex_lt(entry_id(rs, s[j]), id) {
        j
    } else {
        entry_pos(rs, s, id, j + 1)
    }
}

/// The entries after the first `n` records are added.
pub open spec fn built_entries(rs: Seq<RecordKeys>, n: nat) -> Seq<BuiltView>
    decreases n,
{
    if n == 0 {
        Seq::empty()
    } else {
        let s = built_entries(rs, (n - 1) as nat);
        let i = (n - 1) as usize;
        let id = rs[n - 1].id@;
        let j = entry_pos(rs, s, id, 0);
        if j < s.len() && entry_id(rs, s[j]) == id {
            s.update(j, merge_entry(rs, s[j], i))
        } else {
            s.insert(j, fresh_entry(rs, i))
        }
    }
}

pub open spec fn valid_reading(rs: Seq<RecordKeys>, p: (usize, usize)) -> bool {
    p.0 < rs.len() && p.1 < rs[p.0 as int].sensor_ids@.len()
}

pub open spec fn valid_readings(rs: Seq<RecordKeys>, s: Seq<(usize, usize)>) -> bool {
    forall|k: int| 0 <= k < s.len() ==> valid_reading(rs, #[trigger] s[k])
}

pub open spec fn valid_entry(rs: Seq<RecordKeys>, d: BuiltView) -> bool {
    d.first < rs.len() && d.name < rs.len() && valid_readings(rs, d.sensors)
}

pub open spec fn valid_entries(rs: Seq<RecordKeys>, s: Seq<BuiltView>) -> bool {
    forall|k: int| 0 <= k < s.len() ==> valid_entry(rs, #[trigger] s[k])
}

fn reading_chars(rs: &[RecordKeys], p: (usize, usize)) -> (r: Vec<char>)
    requires
        valid_reading(rs@, p),
    ensures
        r@ == reading_id(rs@, p),
{
    chars_of(rs[p.0].sensor_ids[p.1].as_str())
}

fn reading_position(rs: &[RecordKeys], s: &Vec<(usize, usize)>, id: &Vec<char>) -> (r: usize)
    requires
        valid_readings(rs@, s@),
    ensures
        r as int == reading_pos(rs@, s@, id@, 0),
        r <= s@.len(),
{
    let mut j: usize = 0;
    while j < s.len()
        invariant
            j <= s@.len(),
            valid_readings(rs@, s@),
            reading_pos(rs@, s@, id@, 0) == reading_pos(rs@, s@, id@, j as int),
        decreases s.len() - j,
    {
        assert(valid_reading(rs@, s@[j as int]));
        if !chars_lt(&reading_chars(rs, s[j]), id) {
            return j;
        }
        j += 1;
    }
    j
}

fn put_keyed_reading(rs: &[RecordKeys], s: &mut Vec<(usize, usize)>, p: (usize, usize))
    requires
        valid_readings(rs@, old(s)@),
        valid_reading(rs@, p),
    ensures
        final(s)@ == put_reading(rs@, old(s)@, p),
        valid_readings(rs@, final(s)@),
{
    let id = reading_chars(rs, p);
    let j = reading_position(rs, s, &id);
    let mut same = false;
    if j < s.len() {
        assert(valid_reading(rs@, s@[j as int]));
        same = chars_eq(&reading_chars(rs, s[j]), &id);
    }
    if same {
        s.set(j, p);
    } else {
        s.insert(j, p);
    }
    proof {
        let after = s@;
        assert forall|k: int| 0 <= k < after.len() implies valid_reading(rs@, #[trigger] after[k]) by {
            if !same && k > j {
                assert(after[k] == old(s)@[k - 1]);
            } else if k != j {
                assert(after[k] == old(s)@[k]);
            }
        }
    }
}

fn merged_entry(rs: &[RecordKeys], d: &BuiltDevice, i: usize) -> (r: BuiltDevice)
    requires
        i < rs@.len(),
        valid_entry(rs@, built_view(*d)),
    ensures
        built_view(r) == merge_entry(rs@, built_view(*d), i),
        valid_entry(rs@, built_view(r)),
{
    let mut keyed: Vec<(usize, usize)> = Vec::new();
    let mut k: usize = 0;
    while k < d.sensors.len()
        invariant
            k <= d.sensors@.len(),
            valid_readings(rs@, d.sensors@),
            valid_readings(rs@, keyed@),
            keyed@ == keyed_readings(rs@, d.sensors@, k as nat),
        decreases d.sensors.len() - k,
    {
        assert(valid_reading(rs@, d.sensors@[k as int]));
        put_keyed_reading(rs, &mut keyed, d.sensors[k]);
        k += 1;
    }
    let ghost start = keyed@;
    let r = &rs[i];
    let mut t: usize = 0;
    while t < r.sensor_ids.len()
        invariant
            i < rs@.len(),
            *r == rs@[i as int],
            t <= r.sensor_ids@.len(),
            valid_readings(rs@, keyed@),
            keyed@ == add_readings(rs@, start, i, t as nat),
        decreases r.sensor_ids.len() - t,
    {
        put_keyed_reading(rs, &mut keyed, (i, t));
        t += 1;
    }
    let name = if should_replace_name(rs[d.name].name.as_str(), r.name.as_str()) || (r.has_model && !d.has_model) {
        i
    } else {
        d.name
    };
    let class = if class_rank(&r.class) > class_rank(&d.class) {
        r.class
    } else {
        d.class
    };
    let mut merged: Vec<usize> = Vec::new();
    let mut m: usize = 0;
    while m < d.merged.len()
        invariant
            m <= d.merged@.len(),
            merged@ == d.merged@.take(m as int),
        decreases d.merged.len() - m,
    {
        merged.push(d.merged[m]);
        m += 1;
        assert(merged@ =~= d.merged@.take(m as int));
    }
    assert(d.merged@.take(d.merged@.len() as int) =~= d.merged@);
    merged.push(i);
    BuiltDevice { first: d.first, merged, name, has_model: d.has_model || r.has_model, class, sensors: keyed }
}

fn fresh_built(rs: &[RecordKeys], i: usize) -> (r: BuiltDevice)
    requires
        i < rs@.len(),
    ensures
        built_view(r) == fresh_entry(rs@, i),
        valid_entry(rs@, built_view(r)),
{
    let mut sensors: Vec<(usize, usize)> = Vec::new();
    let mut k: usize = 0;
    while k < rs[i].sensor_ids.len()
        invariant
            i < rs@.len(),
            k <= rs@[i as int].sensor_ids@.len(),
            sensors@ =~= own_readings(rs@, i).take(k as int),
        decreases rs@[i as int].sensor_ids@.len() - k,
    {
        sensors.push((i, k));
        k += 1;
    }
    assert(sensors@ =~= own_readings(rs@, i));
    let r = BuiltDevice {
        first: i,
        merged: Vec::new(),
        name: i,
        has_model: rs[i].has_model,
        class: rs[i].class,
        sensors,
    };
    assert(built_view(r).merged =~= Seq::<usize>::empty());
    r
}

fn entry_position(rs: &[RecordKeys], s: &Vec<BuiltDevice>, id: &Vec<char>) -> (r: usize)
    requires
        valid_entries(rs@, built_views(s@)),
    ensures
        r as int == entry_pos(rs@, built_views(s@), id@, 0),
        r <= s@.len(),
{
    let ghost v = built_views(s@);
    let mut j: usize = 0;
    while j < s.len()
        invariant
            j <= s@.len(),
            v == built_views(s@),
            valid_entries(rs@, v),
            entry_pos(rs@, v, id@, 0) == entry_pos(rs@, v, id@, j as int),
        decreases s.len() - j,
    {
        assert(valid_entry(rs@, v[j as int]));
        if !chars_lt(&chars_of(rs[s[j].first].id.as_str()), id) {
            return j;
        }
        j += 1;
    }
    j
}

/// The devices built from collector records, in id order.
pub fn build_devices(rs: &[RecordKeys]) -> (r: Vec<BuiltDevice>)
    ensures
        built_views(r@) == built_entries(rs@, rs@.len()),
        valid_entries(rs@, built_views(r@)),
{
    let mut s: Vec<BuiltDevice> = Vec::new();
    assert(built_views(s@) =~= Seq::<BuiltView>::empty());
    let mut i: usize = 0;
    while i < rs.len()
        invariant
            i <= rs@.len(),
            built_views(s@) == built_entries(rs@, i as nat),
            valid_entries(rs@, built_views(s@)),
        decreases rs.len() - i,
    {
        let ghost before = built_views(s@);
        let id = chars_of(rs[i].id.as_str());
        let j = entry_position(rs, &s, &id);
        let mut same = false;
        if j < s.len() {
            assert(valid_entry(rs@, before[j as int]));
            same = chars_eq(&chars_of(rs[s[j].first].id.as_str()), &id);
        }
        if same {
            assert(valid_entry(rs@, before[j as int]));
            let e = merged_entry(rs, &s[j], i);
            s.set(j, e);
            assert(built_views(s@) =~= before.update(j as int, built_view(e)));
        } else {
            let e = fresh_built(rs, i);
            s.insert(j, e);
            assert(built_views(s@) =~= before.insert(j as int, built_view(e)));
        }
        proof {
            let after = built_views(s@);
            assert forall|k: int| 0 <= k < after.len() implies valid_entry(rs@, #[trigger] after[k]) by {
                if !same && k > j {
                    assert(after[k] == before[k - 1]);
                } else if k != j {
                    assert(after[k] == before[k]);
                }
            }
        }
        i += 1;
    }
    s
}


// ---------------------------------------------------------------------------
// Order
// ---------------------------------------------------------------------------
/// What a snapshot is ordered by: devices by class, then lower-cased name,
/// then id.
#[derive(Debug, Clone)]
pub struct DeviceOrderKey {
    pub class: DeviceClass,
    pub name: String,
    pub id: String,
}

/// What a device's readings are ordered by: kind, then natural label
/// order (ignoring case), then id.
#[derive(Debug, Clone)]
pub struct ReadingOrderKey {
    pub kind: SensorKind,
    pub label: String,
    pub id: String,
}

pub open spec fn device_before(a: DeviceOrderKey, b: DeviceOrderKey) -> bool {
    device_class_position(a.class) < device_class_position(b.class) || (device_class_position(a.class)
        == device_class_position(b.class) && (lex_lt(unicode_lower_str(a.name@), unicode_lower_str(b.name@)) || (
    unicode_lower_str(a.name@) == unicode_lower_str(b.name@) && lex_lt(a.id@, b.id@))))
}

pub open spec fn reading_before(a: ReadingOrderKey, b: ReadingOrderKey) -> bool {
    sensor_kind_position(a.kind) < sensor_kind_position(b.kind) || (sensor_kind_position(a.kind)
        == sensor_kind_position(b.kind) && (natural_order(unicode_lower_str(a.label@), unicode_lower_str(b.label@))
        < 0 || (natural_order(unicode_lower_str(a.label@), unicode_lower_str(b.label@)) == 0 && lex_lt(
        a.id@,
        b.id@,
    ))))
}

/// Where record `i` goes among ordered records: after every record it does
/// not come before (so equal keys keep their order).
pub open spec fn device_slot(ks: Seq<DeviceOrderKey>, s: Seq<usize>, i: usize, j: int) -> int
    decreases s.len() - j,
{
    if j < 0 || j >= s.len() {
        s.len() as int
    } else if device_before(ks[i as int], ks[s[j] as int]) {
        j
    } else {
        device_slot(ks, s, i, j + 1)
    }
}

/// The first `n` devices in order (a stable sort).
pub open spec fn device_order(ks: Seq<DeviceOrderKey>, n: nat) -> Seq<usize>
    decreases n,
{
    if n == 0 {
        Seq::empty()
    } else {
        let s = device_order(ks, (n - 1) as nat);
        s.insert(device_slot(ks, s, (n - 1) as usize, 0), (n - 1) as usize)
    }
}

pub open spec fn reading_slot(ks: Seq<ReadingOrderKey>, s: Seq<usize>, i: usize, j: int) -> int
    decreases s.len() - j,
{
    if j < 0 || j >= s.len() {
        s.len() as int
    } else if reading_before(ks[i as int], ks[s[j] as int]) {
        j
    } else {
        reading_slot(ks, s, i, j + 1)
    }
}

/// The first `n` readings in order (a stable sort).
pub open spec fn reading_order(ks: Seq<ReadingOrderKey>, n: nat) -> Seq<usize>
    decreases n,
{
    if n == 0 {
        Seq::empty()
    } else {
        let s = reading_order(ks, (n - 1) as nat);
        s.insert(reading_slot(ks, s, (n - 1) as usize, 0), (n - 1) as usize)
    }
}

fn lowered(text: &String) -> (r: Vec<char>)
    ensures
        r@ == unicode_lower_str(text@),
{
    chars_of(str_to_lowercase(text.as_str()).as_str())
}

fn device_comes_before(a: &DeviceOrderKey, b: &DeviceOrderKey) -> (r: bool)
    ensures
        r == device_before(*a, *b),
{
    let ca = device_class_order(a.class);
    let cb = device_class_order(b.class);
    if ca != cb {
        return ca < cb;
    }
    let la = lowered(&a.name);
    let lb = lowered(&b.name);
    if chars_lt(&la, &lb) {
        return true;
    }
    chars_eq(&la, &lb) && chars_lt(&chars_of(a.id.as_str()), &chars_of(b.id.as_str()))
}

fn natural_sign(a: &String, b: &String) -> (r: i8)
    ensures
        (r < 0) == (natural_order(unicode_lower_str(a@), unicode_lower_str(b@)) < 0),
        (r == 0) == (natural_order(unicode_lower_str(a@), unicode_lower_str(b@)) == 0),
{
    match natural_cmp(a.as_str(), b.as_str()) {
        Ordering::Less => -1,
        Ordering::Equal => 0,
        Ordering::Greater => 1,
    }
}

fn reading_comes_before(a: &ReadingOrderKey, b: &ReadingOrderKey) -> (r: bool)
    ensures
        r == reading_before(*a, *b),
{
    let ka = sensor_kind_order(a.kind);
    let kb = sensor_kind_order(b.kind);
    if ka != kb {
        return ka < kb;
    }
    let sign = natural_sign(&a.label, &b.label);
    if sign < 0 {
        return true;
    }
    sign == 0 && chars_lt(&chars_of(a.id.as_str()), &chars_of(b.id.as_str()))
}

/// The order of a snapshot's devices: indices into `keys`, sorted stably.
pub fn order_devices(keys: &[DeviceOrderKey]) -> (r: Vec<usize>)
    ensures
        r@ == device_order(keys@, keys@.len()),
{
    let mut s: Vec<usize> = Vec::new();
    let mut i: usize = 0;
    while i < keys.len()
        invariant
            i <= keys@.len(),
            s@ == device_order(keys@, i as nat),
            forall|k: int| 0 <= k < s@.len() ==> #[trigger] s@[k] < i,
            s@.len() == i,
        decreases keys.len() - i,
    {
        let mut j: usize = 0;
        while j < s.len()
            invariant
                i < keys@.len(),
                j <= s@.len(),
                forall|k: int| 0 <= k < s@.len() ==> #[trigger] s@[k] < i,
                device_slot(keys@, s@, i, 0) == device_slot(keys@, s@, i, j as int),
            ensures
                j <= s@.len(),
                device_slot(keys@, s@, i, 0) == j as int,
            decreases s.len() - j,
        {
            assert(s@[j as int] < i);
            if device_comes_before(&keys[i], &keys[s[j]]) {
                break;
            }
            j += 1;
        }
        let ghost before = s@;
        s.insert(j, i);
        proof {
            assert forall|k: int| 0 <= k < s@.len() implies #[trigger] s@[k] < i + 1 by {
                if k < j {
                    assert(s@[k] == before[k]);
                } else if k > j {
                    assert(s@[k] == before[k - 1]);
                }
            }
        }
        i += 1;
    }
    s
}

/// The order of a device's readings: indices into `keys`, sorted stably.
pub fn order_readings(keys: &[ReadingOrderKey]) -> (r: Vec<usize>)
    ensures
        r@ == reading_order(keys@, keys@.len()),
{
    let mut s: Vec<usize> = Vec::new();
    let mut i: usize = 0;
    while i < keys.len()
        invariant
            i <= keys@.len(),
            s@ == reading_order(keys@, i as nat),
            forall|k: int| 0 <= k < s@.len() ==> #[trigger] s@[k] < i,
            s@.len() == i,
        decreases keys.len() - i,
    {
        let mut j: usize = 0;
        while j < s.len()
            invariant
                i < keys@.len(),
                j <= s@.len(),
                forall|k: int| 0 <= k < s@.len() ==> #[trigger] s@[k] < i,
                reading_slot(keys@, s@, i, 0) == reading_slot(keys@, s@, i, j as int),
            ensures
                j <= s@.len(),
                reading_slot(keys@, s@, i, 0) == j as int,
            decreases s.len() - j,
        {
            assert(s@[j as int] < i);
            if reading_comes_before(&keys[i], &keys[s[j]]) {
                break;
            }
            j += 1;
        }
        let ghost before = s@;
        s.insert(j, i);
        proof {
            assert forall|k: int| 0 <= k < s@.len() implies #[trigger] s@[k] < i + 1 by {
                if k < j {
                    assert(s@[k] == before[k]);
                } else if k > j {
                    assert(s@[k] == before[k - 1]);
                }
            }
        }
        i += 1;
    }
    s
}

} // verus!
