//! Overlaying a fast (dynamic) snapshot on a full one.
//!
//! The full snapshot's records are keyed by device id (a later record with
//! the same id replaces an earlier one). Each dynamic record then either
//! starts a new entry or is merged into the entry with its id: the entry
//! takes its name when `replaces_name` allows it, and its readings are keyed
//! by sensor id, each dynamic reading replacing the one with its id while
//! keeping the earlier reading's label when the new one is unidentified and
//! the earlier one was identified. Entries come out in id order, readings of
//! merged entries in sensor-id order. What the plan names by index — which
//! record's fields, which reading's value, which reading's label — the
//! caller copies.
use vstd::prelude::*;
use crate::model::{replaces_name, should_replace_name, Identification};
use crate::text::{chars_lt, chars_of, lemma_lex_transitive, lemma_lex_trichotomy, lex_lt};

verus! {

/// What the overlay reads of a reading.
#[derive(Debug, Clone)]
pub struct SensorKeys {
    pub id: String,
    pub label: String,
    pub identification: Identification,
}

/// What the overlay reads of a device record.
#[derive(Debug, Clone)]
pub struct DeviceKeys {
    pub id: String,
    pub name: String,
    pub sensors: Vec<SensorKeys>,
}

/// A record of the full (`Base`) or the fast (`Dynamic`) snapshot.
#[derive(Debug, Clone, Copy, PartialEq, Eq, Structural)]
pub enum Origin {
    Base(usize),
    Dynamic(usize),
}

/// A reading of the overlaid snapshot: the reading (record and index)
/// whose value it shows, and the reading whose label and identification
/// it shows.
#[derive(Debug, Clone, Copy, PartialEq, Eq)]
pub struct PlannedSensor {
    pub reading: (Origin, usize),
    pub label: (Origin, usize),
}

/// A device of the overlaid snapshot: the record that started it, the
/// dynamic records merged into it in order, the record whose name it
/// shows, and its readings.
#[derive(Debug, Clone)]
pub struct PlannedDevice {
    pub origin: Origin,
    pub merged: Vec<usize>,
    pub name: Origin,
    pub sensors: Vec<PlannedSensor>,
}

pub struct DevicePlanView {
    pub origin: Origin,
    pub merged: Seq<usize>,
    pub name: Origin,
    pub sensors: Seq<PlannedSensor>,
}

pub open spec fn device_plan_view(d: PlannedDevice) -> DevicePlanView {
    DevicePlanView { origin: d.origin, merged: d.merged@, name: d.name, sensors: d.sensors@ }
}

pub open spec fn plan_views(v: Seq<PlannedDevice>) -> Seq<DevicePlanView> {
    v.map_values(|d: PlannedDevice| device_plan_view(d))
}

/// The record an origin names.
pub open spec fn record(base: Seq<DeviceKeys>, dynamic: Seq<DeviceKeys>, o: Origin) -> DeviceKeys {
    match o {
        Origin::Base(i) => base[i as int],
        Origin::Dynamic(k) => dynamic[k as int],
    }
}

pub open spec fn sensor_at(base: Seq<DeviceKeys>, dynamic: Seq<DeviceKeys>, r: (Origin, usize)) -> SensorKeys {
    record(base, dynamic, r.0).sensors@[r.1 as int]
}

pub open spec fn sensor_id(base: Seq<DeviceKeys>, dynamic: Seq<DeviceKeys>, p: PlannedSensor) -> Seq<char> {
    sensor_at(base, dynamic, p.reading).id@
}

/// Where a reading with id `id` goes among readings kept in id order: the
/// first from `j` on whose id is not below it.
pub open spec fn sensor_pos(
    base: Seq<DeviceKeys>,
    dynamic: Seq<DeviceKeys>,
    s: Seq<PlannedSensor>,
    id: Seq<char>,
    j: int,
) -> int
    decreases s.len() - j,
{
    if j < 0 || j >= s.len() {
        s.len() as int
    } else if !lex_lt(sensor_id(base, dynamic, s[j]), id) {
        j
    } else {
        sensor_pos(base, dynamic, s, id, j + 1)
    }
}

/// Keyed insertion: replaces the reading with the same id, or inserts it
/// in id order.
pub open spec fn put_sensor(base: Seq<DeviceKeys>, dynamic: Seq<DeviceKeys>, s: Seq<PlannedSensor>, p: PlannedSensor) -> Seq<PlannedSensor> {
    let id = sensor_id(base, dynamic, p);
    let j = sensor_pos(base, dynamic, s, id, 0);
    if j < s.len() && sensor_id(base, dynamic, s[j]) == id {
        s.update(j, p)
    } else {
        s.insert(j, p)
    }
}

/// The first `n` readings of `s`, keyed by id (a later reading with the
/// same id replacing an earlier one).
pub open spec fn keyed(base: Seq<DeviceKeys>, dynamic: Seq<DeviceKeys>, s: Seq<PlannedSensor>, n: nat) -> Seq<PlannedSensor>
    decreases n,
{
    if n == 0 {
        Seq::empty()
    } else {
        put_sensor(base, dynamic, keyed(base, dynamic, s, (n - 1) as nat), s[n - 1])
    }
}

/// The reading a keyed set holds under `id`, if any.
pub open spec fn find_sensor(base: Seq<DeviceKeys>, dynamic: Seq<DeviceKeys>, s: Seq<PlannedSensor>, id: Seq<char>) -> Option<PlannedSensor> {
    let j = sensor_pos(base, dynamic, s, id, 0);
    if j < s.len() && sensor_id(base, dynamic, s[j]) == id {
        Some(s[j])
    } else {
        None
    }
}

/// The readings of dynamic record `k` merged, one by one, into keyed
/// readings: each keeps the label of the reading it replaces when it is
/// itself unidentified and that one was not.
pub open spec fn merge_sensors(
    base: Seq<DeviceKeys>,
    dynamic: Seq<DeviceKeys>,
    s: Seq<PlannedSensor>,
    k: usize,
    n: nat,
) -> Seq<PlannedSensor>
    decreases n,
{
    if n == 0 {
        s
    } else {
        let acc = merge_sensors(base, dynamic, s, k, (n - 1) as nat);
        let reading = (Origin::Dynamic(k), (n - 1) as usize);
        let incoming = sensor_at(base, dynamic, reading);
        let label = match find_sensor(base, dynamic, acc, incoming.id@) {
            Some(previous) => if incoming.identification == Identification::Unidentified && sensor_at(
                base,
                dynamic,
                previous.label,
            ).identification != Identification::Unidentified {
                previous.label
            } else {
                reading
            },
            None => reading,
        };
        put_sensor(base, dynamic, acc, PlannedSensor { reading, label })
    }
}

/// The readings of a record, as they are.
pub open spec fn own_sensors(base: Seq<DeviceKeys>, dynamic: Seq<DeviceKeys>, o: Origin) -> Seq<PlannedSensor> {
    Seq::new(
        record(base, dynamic, o).sensors@.len(),
        |i: int| PlannedSensor { reading: (o, i as usize), label: (o, i as usize) },
    )
}

/// A new entry for a record.
pub open spec fn fresh(base: Seq<DeviceKeys>, dynamic: Seq<DeviceKeys>, o: Origin) -> DevicePlanView {
    DevicePlanView { origin: o, merged: Seq::empty(), name: o, sensors: own_sensors(base, dynamic, o) }
}

/// An entry with dynamic record `k` merged into it.
pub open spec fn merge_device(base: Seq<DeviceKeys>, dynamic: Seq<DeviceKeys>, d: DevicePlanView, k: usize) -> DevicePlanView {
    let incoming = dynamic[k as int];
    let start = keyed(base, dynamic, d.sensors, d.sensors.len());
    DevicePlanView {
        origin: d.origin,
        merged: d.merged.push(k),
        name: if replaces_name(record(base, dynamic, d.name).name@, incoming.name@) {
            Origin::Dynamic(k)
        } else {
            d.name
        },
        sensors: merge_sensors(base, dynamic, start, k, incoming.sensors@.len()),
    }
}

pub open spec fn device_id(base: Seq<DeviceKeys>, dynamic: Seq<DeviceKeys>, d: DevicePlanView) -> Seq<char> {
    record(base, dynamic, d.origin).id@
}

/// Where an entry with id `id` goes among entries kept in id order.
pub open spec fn device_pos(
    base: Seq<DeviceKeys>,
    dynamic: Seq<DeviceKeys>,
    s: Seq<DevicePlanView>,
    id: Seq<char>,
    j: int,
) -> int
    decreases s.len() - j,
{
    if j < 0 || j >= s.len() {
        s.len() as int
    } else if !lex_lt(device_id(base, dynamic, s[j]), id) {
        j
    } else {
        device_pos(base, dynamic, s, id, j + 1)
    }
}

/// The entries after the first `n` full records, keyed by id.
pub open spec fn base_entries(base: Seq<DeviceKeys>, dynamic: Seq<DeviceKeys>, n: nat) -> Seq<DevicePlanView>
    decreases n,
{
    if n == 0 {
        Seq::empty()
    } else {
        let s = base_entries(base, dynamic, (n - 1) as nat);
        let e = fresh(base, dynamic, Origin::Base((n - 1) as usize));
        let id = base[n - 1].id@;
        let j = device_pos(base, dynamic, s, id, 0);
        if j < s.len() && device_id(base, dynamic, s[j]) == id {
            s.update(j, e)
        } else {
            s.insert(j, e)
        }
    }
}

/// The entries after the first `n` dynamic records are overlaid.
pub open spec fn overlaid_entries(base: Seq<DeviceKeys>, dynamic: Seq<DeviceKeys>, n: nat) -> Seq<DevicePlanView>
    decreases n,
{
    if n == 0 {
        base_entries(base, dynamic, base.len())
    } else {
        let s = overlaid_entries(base, dynamic, (n - 1) as nat);
        let k = (n - 1) as usize;
        let id = dynamic[n - 1].id@;
        let j = device_pos(base, dynamic, s, id, 0);
        if j < s.len() && device_id(base, dynamic, s[j]) == id {
            s.update(j, merge_device(base, dynamic, s[j], k))
        } else {
            s.insert(j, fresh(base, dynamic, Origin::Dynamic(k)))
        }
    }
}

/// The overlay of `dynamic` on `base`.
pub open spec fn overlay_plan_of(base: Seq<DeviceKeys>, dynamic: Seq<DeviceKeys>) -> Seq<DevicePlanView> {
    overlaid_entries(base, dynamic, dynamic.len())
}


pub open spec fn valid_origin(base: Seq<DeviceKeys>, dynamic: Seq<DeviceKeys>, o: Origin) -> bool {
    match o {
        Origin::Base(i) => i < base.len(),
        Origin::Dynamic(k) => k < dynamic.len(),
    }
}

pub open spec fn valid_reading(base: Seq<DeviceKeys>, dynamic: Seq<DeviceKeys>, r: (Origin, usize)) -> bool {
    valid_origin(base, dynamic, r.0) && r.1 < record(base, dynamic, r.0).sensors@.len()
}

pub open spec fn valid_sensor(base: Seq<DeviceKeys>, dynamic: Seq<DeviceKeys>, p: PlannedSensor) -> bool {
    valid_reading(base, dynamic, p.reading) && valid_reading(base, dynamic, p.label)
}

pub open spec fn valid_sensors(base: Seq<DeviceKeys>, dynamic: Seq<DeviceKeys>, s: Seq<PlannedSensor>) -> bool {
    forall|i: int| 0 <= i < s.len() ==> valid_sensor(base, dynamic, #[trigger] s[i])
}

pub open spec fn valid_device(base: Seq<DeviceKeys>, dynamic: Seq<DeviceKeys>, d: DevicePlanView) -> bool {
    &&& valid_origin(base, dynamic, d.origin)
    &&& valid_origin(base, dynamic, d.name)
    &&& valid_sensors(base, dynamic, d.sensors)
}

pub open spec fn valid_devices(base: Seq<DeviceKeys>, dynamic: Seq<DeviceKeys>, s: Seq<DevicePlanView>) -> bool {
    forall|i: int| 0 <= i < s.len() ==> valid_device(base, dynamic, #[trigger] s[i])
}

fn record_of<'a>(base: &'a [DeviceKeys], dynamic: &'a [DeviceKeys], o: Origin) -> (r: &'a DeviceKeys)
    requires
        valid_origin(base@, dynamic@, o),
    ensures
        *r == record(base@, dynamic@, o),
{
    match o {
        Origin::Base(i) => &base[i],
        Origin::Dynamic(k) => &dynamic[k],
    }
}

fn reading_of<'a>(base: &'a [DeviceKeys], dynamic: &'a [DeviceKeys], r: (Origin, usize)) -> (x: &'a SensorKeys)
    requires
        valid_reading(base@, dynamic@, r),
    ensures
        *x == sensor_at(base@, dynamic@, r),
{
    let d = record_of(base, dynamic, r.0);
    &d.sensors[r.1]
}

fn sensor_position(base: &[DeviceKeys], dynamic: &[DeviceKeys], s: &Vec<PlannedSensor>, id: &Vec<char>) -> (r: usize)
    requires
        valid_sensors(base@, dynamic@, s@),
    ensures
        r as int == sensor_pos(base@, dynamic@, s@, id@, 0),
        r <= s@.len(),
{
    let mut j: usize = 0;
    while j < s.len()
        invariant
            j <= s@.len(),
            valid_sensors(base@, dynamic@, s@),
            sensor_pos(base@, dynamic@, s@, id@, 0) == sensor_pos(base@, dynamic@, s@, id@, j as int),
        decreases s.len() - j,
    {
        assert(valid_sensor(base@, dynamic@, s@[j as int]));
        let key = chars_of(reading_of(base, dynamic, s[j].reading).id.as_str());
        if !chars_lt(&key, id) {
            return j;
        }
        j += 1;
    }
    j
}

fn put_planned_sensor(base: &[DeviceKeys], dynamic: &[DeviceKeys], s: &mut Vec<PlannedSensor>, p: PlannedSensor)
    requires
        valid_sensors(base@, dynamic@, old(s)@),
        valid_sensor(base@, dynamic@, p),
    ensures
        final(s)@ == put_sensor(base@, dynamic@, old(s)@, p),
        valid_sensors(base@, dynamic@, final(s)@),
{
    let id = chars_of(reading_of(base, dynamic, p.reading).id.as_str());
    let j = sensor_position(base, dynamic, s, &id);
    let mut same = false;
    if j < s.len() {
        assert(valid_sensor(base@, dynamic@, s@[j as int]));
        let other = chars_of(reading_of(base, dynamic, s[j].reading).id.as_str());
        same = crate::text::chars_eq(&other, &id);
    }
    if same {
        s.set(j, p);
    } else {
        s.insert(j, p);
    }
    proof {
        let after = s@;
        assert forall|i: int| 0 <= i < after.len() implies valid_sensor(base@, dynamic@, #[trigger] after[i]) by {
            if !same && i > j {
                assert(after[i] == old(s)@[i - 1]);
            } else if i != j {
                assert(after[i] == old(s)@[i]);
            }
        }
    }
}

fn keyed_sensors(base: &[DeviceKeys], dynamic: &[DeviceKeys], s: &Vec<PlannedSensor>) -> (r: Vec<PlannedSensor>)
    requires
        valid_sensors(base@, dynamic@, s@),
    ensures
        r@ == keyed(base@, dynamic@, s@, s@.len()),
        valid_sensors(base@, dynamic@, r@),
{
    let mut r: Vec<PlannedSensor> = Vec::new();
    let mut i: usize = 0;
    while i < s.len()
        invariant
            i <= s@.len(),
            valid_sensors(base@, dynamic@, s@),
            valid_sensors(base@, dynamic@, r@),
            r@ == keyed(base@, dynamic@, s@, i as nat),
        decreases s.len() - i,
    {
        assert(valid_sensor(base@, dynamic@, s@[i as int]));
        put_planned_sensor(base, dynamic, &mut r, s[i]);
        i += 1;
    }
    r
}

fn find_planned_sensor(base: &[DeviceKeys], dynamic: &[DeviceKeys], s: &Vec<PlannedSensor>, id: &Vec<char>) -> (r: Option<PlannedSensor>)
    requires
        valid_sensors(base@, dynamic@, s@),
    ensures
        r == find_sensor(base@, dynamic@, s@, id@),
        r matches Some(p) ==> valid_sensor(base@, dynamic@, p),
{
    let j = sensor_position(base, dynamic, s, id);
    if j < s.len() {
        assert(valid_sensor(base@, dynamic@, s@[j as int]));
        let other = chars_of(reading_of(base, dynamic, s[j].reading).id.as_str());
        if crate::text::chars_eq(&other, id) {
            return Some(s[j]);
        }
    }
    None
}

fn merge_dynamic_sensors(base: &[DeviceKeys], dynamic: &[DeviceKeys], s: Vec<PlannedSensor>, k: usize) -> (r: Vec<PlannedSensor>)
    requires
        k < dynamic@.len(),
        valid_sensors(base@, dynamic@, s@),
    ensures
        r@ == merge_sensors(base@, dynamic@, s@, k, dynamic@[k as int].sensors@.len()),
        valid_sensors(base@, dynamic@, r@),
{
    let ghost start = s@;
    let mut acc = s;
    let incoming = &dynamic[k];
    let mut t: usize = 0;
    while t < incoming.sensors.len()
        invariant
            k < dynamic@.len(),
            *incoming == dynamic@[k as int],
            t <= incoming.sensors@.len(),
            valid_sensors(base@, dynamic@, acc@),
            acc@ == merge_sensors(base@, dynamic@, start, k, t as nat),
        decreases incoming.sensors.len() - t,
    {
        let reading = (Origin::Dynamic(k), t);
        assert(valid_reading(base@, dynamic@, reading));
        let x = &incoming.sensors[t];
        let id = chars_of(x.id.as_str());
        let label = match find_planned_sensor(base, dynamic, &acc, &id) {
            Some(previous) => {
                let shown = reading_of(base, dynamic, previous.label);
                if x.identification == Identification::Unidentified && shown.identification != Identification::Unidentified {
                    previous.label
                } else {
                    reading
                }
            },
            None => reading,
        };
        put_planned_sensor(base, dynamic, &mut acc, PlannedSensor { reading, label });
        t += 1;
    }
    acc
}

fn fresh_device(base: &[DeviceKeys], dynamic: &[DeviceKeys], o: Origin) -> (r: PlannedDevice)
    requires
        valid_origin(base@, dynamic@, o),
    ensures
        device_plan_view(r) == fresh(base@, dynamic@, o),
        valid_device(base@, dynamic@, device_plan_view(r)),
{
    let d = record_of(base, dynamic, o);
    let mut sensors: Vec<PlannedSensor> = Vec::new();
    let mut i: usize = 0;
    while i < d.sensors.len()
        invariant
            valid_origin(base@, dynamic@, o),
            *d == record(base@, dynamic@, o),
            i <= d.sensors@.len(),
            sensors@ =~= own_sensors(base@, dynamic@, o).take(i as int),
        decreases d.sensors.len() - i,
    {
        sensors.push(PlannedSensor { reading: (o, i), label: (o, i) });
        i += 1;
    }
    assert(sensors@ =~= own_sensors(base@, dynamic@, o));
    let r = PlannedDevice { origin: o, merged: Vec::new(), name: o, sensors };
    assert(device_plan_view(r).merged =~= Seq::<usize>::empty());
    r
}

fn merged_device(base: &[DeviceKeys], dynamic: &[DeviceKeys], d: &PlannedDevice, k: usize) -> (r: PlannedDevice)
    requires
        k < dynamic@.len(),
        valid_device(base@, dynamic@, device_plan_view(*d)),
    ensures
        device_plan_view(r) == merge_device(base@, dynamic@, device_plan_view(*d), k),
        valid_device(base@, dynamic@, device_plan_view(r)),
{
    let start = keyed_sensors(base, dynamic, &d.sensors);
    let sensors = merge_dynamic_sensors(base, dynamic, start, k);
    let current = record_of(base, dynamic, d.name);
    let name = if should_replace_name(current.name.as_str(), dynamic[k].name.as_str()) {
        Origin::Dynamic(k)
    } else {
        d.name
    };
    let mut merged = d.merged.clone();
    merged.push(k);
    PlannedDevice { origin: d.origin, merged, name, sensors }
}

fn device_position(base: &[DeviceKeys], dynamic: &[DeviceKeys], s: &Vec<PlannedDevice>, id: &Vec<char>) -> (r: usize)
    requires
        valid_devices(base@, dynamic@, plan_views(s@)),
    ensures
        r as int == device_pos(base@, dynamic@, plan_views(s@), id@, 0),
        r <= s@.len(),
{
    let ghost v = plan_views(s@);
    let mut j: usize = 0;
    while j < s.len()
        invariant
            j <= s@.len(),
            v == plan_views(s@),
            valid_devices(base@, dynamic@, v),
            device_pos(base@, dynamic@, v, id@, 0) == device_pos(base@, dynamic@, v, id@, j as int),
        decreases s.len() - j,
    {
        assert(valid_device(base@, dynamic@, v[j as int]));
        let key = chars_of(record_of(base, dynamic, s[j].origin).id.as_str());
        if !chars_lt(&key, id) {
            return j;
        }
        j += 1;
    }
    j
}

/// Places an entry: replacing the one with the same id when `same`, else
/// inserting it at `j`.
fn place(base: &[DeviceKeys], dynamic: &[DeviceKeys], s: &mut Vec<PlannedDevice>, j: usize, same: bool, e: PlannedDevice)
    requires
        j <= old(s)@.len(),
        same ==> j < old(s)@.len(),
        valid_devices(base@, dynamic@, plan_views(old(s)@)),
        valid_device(base@, dynamic@, device_plan_view(e)),
    ensures
        plan_views(final(s)@) == if same {
            plan_views(old(s)@).update(j as int, device_plan_view(e))
        } else {
            plan_views(old(s)@).insert(j as int, device_plan_view(e))
        },
        valid_devices(base@, dynamic@, plan_views(final(s)@)),
{
    if same {
        s.set(j, e);
        assert(plan_views(s@) =~= plan_views(old(s)@).update(j as int, device_plan_view(e)));
    } else {
        s.insert(j, e);
        assert(plan_views(s@) =~= plan_views(old(s)@).insert(j as int, device_plan_view(e)));
    }
    proof {
        let after = plan_views(s@);
        let before = plan_views(old(s)@);
        assert forall|i: int| 0 <= i < after.len() implies valid_device(base@, dynamic@, #[trigger] after[i]) by {
            if !same && i > j {
                assert(after[i] == before[i - 1]);
            } else if i != j {
                assert(after[i] == before[i]);
            }
        }
    }
}

fn same_id_at(base: &[DeviceKeys], dynamic: &[DeviceKeys], s: &Vec<PlannedDevice>, j: usize, id: &Vec<char>) -> (r: bool)
    requires
        valid_devices(base@, dynamic@, plan_views(s@)),
    ensures
        r == (j < s@.len() && device_id(base@, dynamic@, plan_views(s@)[j as int]) == id@),
{
    if j < s.len() {
        assert(valid_device(base@, dynamic@, plan_views(s@)[j as int]));
        let other = chars_of(record_of(base, dynamic, s[j].origin).id.as_str());
        crate::text::chars_eq(&other, id)
    } else {
        false
    }
}

/// The plan for overlaying the fast snapshot's records on the full one's.
pub fn overlay_plan(base: &[DeviceKeys], dynamic: &[DeviceKeys]) -> (r: Vec<PlannedDevice>)
    ensures
        plan_views(r@) == overlay_plan_of(base@, dynamic@),
        valid_devices(base@, dynamic@, plan_views(r@)),
{
    let mut s: Vec<PlannedDevice> = Vec::new();
    let mut i: usize = 0;
    assert(plan_views(s@) =~= Seq::<DevicePlanView>::empty());
    while i < base.len()
        invariant
            i <= base@.len(),
            plan_views(s@) == base_entries(base@, dynamic@, i as nat),
            valid_devices(base@, dynamic@, plan_views(s@)),
        decreases base.len() - i,
    {
        let id = chars_of(base[i].id.as_str());
        let j = device_position(base, dynamic, &s, &id);
        let same = same_id_at(base, dynamic, &s, j, &id);
        let e = fresh_device(base, dynamic, Origin::Base(i));
        place(base, dynamic, &mut s, j, same, e);
        i += 1;
    }
    let mut k: usize = 0;
    while k < dynamic.len()
        invariant
            k <= dynamic@.len(),
            plan_views(s@) == overlaid_entries(base@, dynamic@, k as nat),
            valid_devices(base@, dynamic@, plan_views(s@)),
        decreases dynamic.len() - k,
    {
        let id = chars_of(dynamic[k].id.as_str());
        let j = device_position(base, dynamic, &s, &id);
        let same = same_id_at(base, dynamic, &s, j, &id);
        let e = if same {
            assert(valid_device(base@, dynamic@, plan_views(s@)[j as int]));
            merged_device(base, dynamic, &s[j], k)
        } else {
            fresh_device(base, dynamic, Origin::Dynamic(k))
        };
        place(base, dynamic, &mut s, j, same, e);
        k += 1;
    }
    s
}


// ---------------------------------------------------------------------------
// Order
// ---------------------------------------------------------------------------
/// Whether entries are in strictly increasing id order.
pub open spec fn entries_in_id_order(base: Seq<DeviceKeys>, dynamic: Seq<DeviceKeys>, s: Seq<DevicePlanView>) -> bool {
    forall|a: int, b: int|
        0 <= a < b < s.len() ==> lex_lt(
            #[trigger] device_id(base, dynamic, s[a]),
            #[trigger] device_id(base, dynamic, s[b]),
        )
}

/// Whether readings are in strictly increasing sensor-id order.
pub open spec fn readings_in_id_order(base: Seq<DeviceKeys>, dynamic: Seq<DeviceKeys>, s: Seq<PlannedSensor>) -> bool {
    forall|a: int, b: int|
        0 <= a < b < s.len() ==> lex_lt(
            #[trigger] sensor_id(base, dynamic, s[a]),
            #[trigger] sensor_id(base, dynamic, s[b]),
        )
}

proof fn lemma_device_pos(base: Seq<DeviceKeys>, dynamic: Seq<DeviceKeys>, s: Seq<DevicePlanView>, id: Seq<char>, j: int)
    requires
        0 <= j <= s.len(),
        forall|i: int| 0 <= i < j ==> lex_lt(#[trigger] device_id(base, dynamic, s[i]), id),
    ensures
        j <= device_pos(base, dynamic, s, id, j) <= s.len(),
        forall|i: int|
            0 <= i < device_pos(base, dynamic, s, id, j) ==> lex_lt(#[trigger] device_id(base, dynamic, s[i]), id),
        device_pos(base, dynamic, s, id, j) < s.len() ==> !lex_lt(
            device_id(base, dynamic, s[device_pos(base, dynamic, s, id, j)]),
            id,
        ),
    decreases s.len() - j,
{
    if j < s.len() && lex_lt(device_id(base, dynamic, s[j]), id) {
        lemma_device_pos(base, dynamic, s, id, j + 1);
    }
}

proof fn lemma_place_entry(base: Seq<DeviceKeys>, dynamic: Seq<DeviceKeys>, s: Seq<DevicePlanView>, e: DevicePlanView, r: DevicePlanView)
    requires
        entries_in_id_order(base, dynamic, s),
        device_id(base, dynamic, r) == device_id(base, dynamic, e),
    ensures
        ({
            let id = device_id(base, dynamic, e);
            let j = device_pos(base, dynamic, s, id, 0);
            if j < s.len() && device_id(base, dynamic, s[j]) == id {
                entries_in_id_order(base, dynamic, s.update(j, r))
            } else {
                entries_in_id_order(base, dynamic, s.insert(j, e))
            }
        }),
{
    let id = device_id(base, dynamic, e);
    lemma_device_pos(base, dynamic, s, id, 0);
    let j = device_pos(base, dynamic, s, id, 0);
    if j < s.len() && device_id(base, dynamic, s[j]) == id {
        let t = s.update(j, r);
        assert forall|a: int, b: int| 0 <= a < b < t.len() implies lex_lt(
            #[trigger] device_id(base, dynamic, t[a]),
            #[trigger] device_id(base, dynamic, t[b]),
        ) by {
            assert(device_id(base, dynamic, t[a]) == device_id(base, dynamic, s[a]));
            assert(device_id(base, dynamic, t[b]) == device_id(base, dynamic, s[b]));
        }
    } else {
        if j < s.len() {
            lemma_lex_trichotomy(id, device_id(base, dynamic, s[j]));
        }
        let t = s.insert(j, e);
        assert forall|a: int, b: int| 0 <= a < b < t.len() implies lex_lt(
            #[trigger] device_id(base, dynamic, t[a]),
            #[trigger] device_id(base, dynamic, t[b]),
        ) by {
            if b < j {
                assert(t[a] == s[a] && t[b] == s[b]);
            } else if b == j {
                assert(t[a] == s[a]);
            } else if a < j {
                assert(t[a] == s[a] && t[b] == s[b - 1]);
                if b - 1 > j {
                    lemma_lex_transitive(id, device_id(base, dynamic, s[j]), device_id(base, dynamic, s[b - 1]));
                }
                lemma_lex_transitive(device_id(base, dynamic, s[a]), id, device_id(base, dynamic, s[b - 1]));
            } else if a == j {
                assert(t[b] == s[b - 1]);
                if b - 1 > j {
                    lemma_lex_transitive(id, device_id(base, dynamic, s[j]), device_id(base, dynamic, s[b - 1]));
                }
            } else {
                assert(t[a] == s[a - 1] && t[b] == s[b - 1]);
            }
        }
    }
}

proof fn lemma_base_order(base: Seq<DeviceKeys>, dynamic: Seq<DeviceKeys>, n: nat)
    requires
        base.len() <= usize::MAX,
        dynamic.len() <= usize::MAX,
        n <= base.len(),
    ensures
        entries_in_id_order(base, dynamic, base_entries(base, dynamic, n)),
    decreases n,
{
    if n > 0 {
        lemma_base_order(base, dynamic, (n - 1) as nat);
        let e = fresh(base, dynamic, Origin::Base((n - 1) as usize));
        lemma_place_entry(base, dynamic, base_entries(base, dynamic, (n - 1) as nat), e, e);
    }
}

proof fn lemma_overlay_order(base: Seq<DeviceKeys>, dynamic: Seq<DeviceKeys>, n: nat)
    requires
        base.len() <= usize::MAX,
        dynamic.len() <= usize::MAX,
        n <= dynamic.len(),
    ensures
        entries_in_id_order(base, dynamic, overlaid_entries(base, dynamic, n)),
    decreases n,
{
    if n == 0 {
        lemma_base_order(base, dynamic, base.len());
    } else {
        lemma_overlay_order(base, dynamic, (n - 1) as nat);
        let s = overlaid_entries(base, dynamic, (n - 1) as nat);
        let k = (n - 1) as usize;
        let e = fresh(base, dynamic, Origin::Dynamic(k));
        let j = device_pos(base, dynamic, s, dynamic[n - 1].id@, 0);
        if j < s.len() && device_id(base, dynamic, s[j]) == dynamic[n - 1].id@ {
            lemma_place_entry(base, dynamic, s, e, merge_device(base, dynamic, s[j], k));
        } else {
            lemma_place_entry(base, dynamic, s, e, e);
        }
    }
}

proof fn lemma_sensor_pos(base: Seq<DeviceKeys>, dynamic: Seq<DeviceKeys>, s: Seq<PlannedSensor>, id: Seq<char>, j: int)
    requires
        0 <= j <= s.len(),
        forall|i: int| 0 <= i < j ==> lex_lt(#[trigger] sensor_id(base, dynamic, s[i]), id),
    ensures
        j <= sensor_pos(base, dynamic, s, id, j) <= s.len(),
        forall|i: int|
            0 <= i < sensor_pos(base, dynamic, s, id, j) ==> lex_lt(#[trigger] sensor_id(base, dynamic, s[i]), id),
        sensor_pos(base, dynamic, s, id, j) < s.len() ==> !lex_lt(
            sensor_id(base, dynamic, s[sensor_pos(base, dynamic, s, id, j)]),
            id,
        ),
    decreases s.len() - j,
{
    if j < s.len() && lex_lt(sensor_id(base, dynamic, s[j]), id) {
        lemma_sensor_pos(base, dynamic, s, id, j + 1);
    }
}

proof fn lemma_put_sensor_order(base: Seq<DeviceKeys>, dynamic: Seq<DeviceKeys>, s: Seq<PlannedSensor>, p: PlannedSensor)
    requires
        readings_in_id_order(base, dynamic, s),
    ensures
        readings_in_id_order(base, dynamic, put_sensor(base, dynamic, s, p)),
{
    let id = sensor_id(base, dynamic, p);
    lemma_sensor_pos(base, dynamic, s, id, 0);
    let j = sensor_pos(base, dynamic, s, id, 0);
    let t = put_sensor(base, dynamic, s, p);
    if j < s.len() && sensor_id(base, dynamic, s[j]) == id {
        assert forall|a: int, b: int| 0 <= a < b < t.len() implies lex_lt(
            #[trigger] sensor_id(base, dynamic, t[a]),
            #[trigger] sensor_id(base, dynamic, t[b]),
        ) by {
            assert(sensor_id(base, dynamic, t[a]) == sensor_id(base, dynamic, s[a]));
            assert(sensor_id(base, dynamic, t[b]) == sensor_id(base, dynamic, s[b]));
        }
    } else {
        if j < s.len() {
            lemma_lex_trichotomy(id, sensor_id(base, dynamic, s[j]));
        }
        assert forall|a: int, b: int| 0 <= a < b < t.len() implies lex_lt(
            #[trigger] sensor_id(base, dynamic, t[a]),
            #[trigger] sensor_id(base, dynamic, t[b]),
        ) by {
            if b < j {
                assert(t[a] == s[a] && t[b] == s[b]);
            } else if b == j {
                assert(t[a] == s[a]);
            } else if a < j {
                assert(t[a] == s[a] && t[b] == s[b - 1]);
                if b - 1 > j {
                    lemma_lex_transitive(id, sensor_id(base, dynamic, s[j]), sensor_id(base, dynamic, s[b - 1]));
                }
                lemma_lex_transitive(sensor_id(base, dynamic, s[a]), id, sensor_id(base, dynamic, s[b - 1]));
            } else if a == j {
                assert(t[b] == s[b - 1]);
                if b - 1 > j {
                    lemma_lex_transitive(id, sensor_id(base, dynamic, s[j]), sensor_id(base, dynamic, s[b - 1]));
                }
            } else {
                assert(t[a] == s[a - 1] && t[b] == s[b - 1]);
            }
        }
    }
}

proof fn lemma_keyed_order(base: Seq<DeviceKeys>, dynamic: Seq<DeviceKeys>, s: Seq<PlannedSensor>, n: nat)
    ensures
        readings_in_id_order(base, dynamic, keyed(base, dynamic, s, n)),
    decreases n,
{
    if n > 0 {
        lemma_keyed_order(base, dynamic, s, (n - 1) as nat);
        lemma_put_sensor_order(base, dynamic, keyed(base, dynamic, s, (n - 1) as nat), s[n - 1]);
    }
}

proof fn lemma_merge_sensors_order(base: Seq<DeviceKeys>, dynamic: Seq<DeviceKeys>, s: Seq<PlannedSensor>, k: usize, n: nat)
    requires
        readings_in_id_order(base, dynamic, s),
    ensures
        readings_in_id_order(base, dynamic, merge_sensors(base, dynamic, s, k, n)),
    decreases n,
{
    if n > 0 {
        lemma_merge_sensors_order(base, dynamic, s, k, (n - 1) as nat);
        let acc = merge_sensors(base, dynamic, s, k, (n - 1) as nat);
        let reading = (Origin::Dynamic(k), (n - 1) as usize);
        let incoming = sensor_at(base, dynamic, reading);
        let label = match find_sensor(base, dynamic, acc, incoming.id@) {
            Some(previous) => if incoming.identification == Identification::Unidentified && sensor_at(
                base,
                dynamic,
                previous.label,
            ).identification != Identification::Unidentified {
                previous.label
            } else {
                reading
            },
            None => reading,
        };
        lemma_put_sensor_order(base, dynamic, acc, PlannedSensor { reading, label });
    }
}

/// The overlaid snapshot has one entry per device id, in id order, and
/// the readings of every entry a fast record was merged into are in
/// sensor-id order, one per sensor id.
pub proof fn law_overlay_is_keyed_by_id(base: Seq<DeviceKeys>, dynamic: Seq<DeviceKeys>)
    requires
        base.len() <= usize::MAX,
        dynamic.len() <= usize::MAX,
    ensures
        entries_in_id_order(base, dynamic, overlay_plan_of(base, dynamic)),
        forall|i: int|
            0 <= i < overlay_plan_of(base, dynamic).len() && (#[trigger] overlay_plan_of(base, dynamic)[i]).merged.len()
                > 0 ==> readings_in_id_order(base, dynamic, overlay_plan_of(base, dynamic)[i].sensors),
{
    lemma_overlay_order(base, dynamic, dynamic.len());
    lemma_merged_readings_ordered(base, dynamic, dynamic.len());
}

proof fn lemma_merged_readings_ordered(base: Seq<DeviceKeys>, dynamic: Seq<DeviceKeys>, n: nat)
    requires
        base.len() <= usize::MAX,
        dynamic.len() <= usize::MAX,
        n <= dynamic.len(),
    ensures
        forall|i: int|
            0 <= i < overlaid_entries(base, dynamic, n).len() && (#[trigger] overlaid_entries(base, dynamic, n)[i]).merged.len()
                > 0 ==> readings_in_id_order(base, dynamic, overlaid_entries(base, dynamic, n)[i].sensors),
    decreases n,
{
    if n == 0 {
        let s = base_entries(base, dynamic, base.len());
        lemma_base_fresh(base, dynamic, base.len());
    } else {
        lemma_merged_readings_ordered(base, dynamic, (n - 1) as nat);
        let s = overlaid_entries(base, dynamic, (n - 1) as nat);
        let k = (n - 1) as usize;
        let j = device_pos(base, dynamic, s, dynamic[n - 1].id@, 0);
        lemma_device_pos(base, dynamic, s, dynamic[n - 1].id@, 0);
        if j < s.len() && device_id(base, dynamic, s[j]) == dynamic[n - 1].id@ {
            let d = s[j];
            lemma_keyed_order(base, dynamic, d.sensors, d.sensors.len());
            lemma_merge_sensors_order(
                base,
                dynamic,
                keyed(base, dynamic, d.sensors, d.sensors.len()),
                k,
                dynamic[k as int].sensors@.len(),
            );
            let t = overlaid_entries(base, dynamic, n);
            assert(t == s.update(j, merge_device(base, dynamic, s[j], k)));
            assert forall|i: int| 0 <= i < t.len() && (#[trigger] t[i]).merged.len() > 0 implies readings_in_id_order(
                base,
                dynamic,
                t[i].sensors,
            ) by {
                if i != j {
                    assert(t[i] == s[i]);
                }
            }
        } else {
            let t = overlaid_entries(base, dynamic, n);
            assert(t == s.insert(j, fresh(base, dynamic, Origin::Dynamic(k))));
            assert forall|i: int| 0 <= i < t.len() && (#[trigger] t[i]).merged.len() > 0 implies readings_in_id_order(
                base,
                dynamic,
                t[i].sensors,
            ) by {
                if i < j {
                    assert(t[i] == s[i]);
                } else if i > j {
                    assert(t[i] == s[i - 1]);
                }
            }
        }
    }
}

proof fn lemma_base_fresh(base: Seq<DeviceKeys>, dynamic: Seq<DeviceKeys>, n: nat)
    requires
        base.len() <= usize::MAX,
        dynamic.len() <= usize::MAX,
        n <= base.len(),
    ensures
        forall|i: int|
            0 <= i < base_entries(base, dynamic, n).len() ==> (#[trigger] base_entries(base, dynamic, n)[i]).merged.len()
                == 0,
    decreases n,
{
    if n > 0 {
        lemma_base_fresh(base, dynamic, (n - 1) as nat);
        let s = base_entries(base, dynamic, (n - 1) as nat);
        let e = fresh(base, dynamic, Origin::Base((n - 1) as usize));
        let t = base_entries(base, dynamic, n);
        let j = device_pos(base, dynamic, s, base[n - 1].id@, 0);
        lemma_device_pos(base, dynamic, s, base[n - 1].id@, 0);
        assert(t == if j < s.len() && device_id(base, dynamic, s[j]) == base[n - 1].id@ {
            s.update(j, e)
        } else {
            s.insert(j, e)
        });
        assert forall|i: int| 0 <= i < t.len() implies (#[trigger] t[i]).merged.len() == 0 by {
            if j < s.len() && device_id(base, dynamic, s[j]) == base[n - 1].id@ {
                if i != j {
                    assert(t[i] == s[i]);
                }
            } else {
                if i < j {
                    assert(t[i] == s[i]);
                } else if i > j {
                    assert(t[i] == s[i - 1]);
                }
            }
        }
    }
}

} // verus!
