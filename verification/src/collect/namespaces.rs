//! Folding an NVMe controller's only namespace into the controller record.
//!
//! A namespace record is a whole (not partitioned) storage record whose
//! parent is an NVMe controller (`block:nvme<N>`) and whose bus address is a
//! namespace name (`nvme<N>n<M>`). Namespaces are grouped by controller id
//! (groups in id order). When some controller has exactly one namespace,
//! the records with the id of such a namespace are set aside (one per id,
//! the last), and the groups are taken in turn: the first remaining record
//! with the controller's id is told how many namespaces it has and absorbs
//! a lone namespace; without such a record the group's set-aside
//! namespaces are put back after the other records. What is still set
//! aside then follows in id order, and records that named an absorbed
//! namespace as parent name its controller instead. When no controller has
//! a single namespace, the controllers are only told their counts.
use vstd::prelude::*;
use crate::collect::reconcile::{is_nvme_namespace, is_nvme_namespace_name};
use crate::collect::util::{is_nvme_controller_device_id, is_nvme_controller_id};
use crate::text::{chars_eq, chars_lt, chars_of, lex_lt};

verus! {

/// What the coalescing reads of a device record.
#[derive(Debug, Clone)]
pub struct NamespaceFacts {
    pub id: String,
    pub parent: Option<String>,
    /// A storage record that is not a partition.
    pub whole_storage: bool,
    pub bus_address: Option<String>,
}

/// The controller id of a namespace record, for the records that are one.
pub open spec fn namespace_parent(d: NamespaceFacts) -> Option<Seq<char>> {
    match (d.parent, d.bus_address) {
        (Some(p), Some(b)) => if d.whole_storage && is_nvme_controller_device_id(p@) && is_nvme_namespace(
            b@,
        ) {
            Some(p@)
        } else {
            None
        },
        _ => None,
    }
}

/// The id of the controller a record names as parent (empty without one).
pub open spec fn parent_key(ds: Seq<NamespaceFacts>, i: int) -> Seq<char> {
    match ds[i].parent {
        Some(p) => p@,
        None => Seq::empty(),
    }
}


fn parent_of_namespace(d: &NamespaceFacts) -> (r: Option<&String>)
    ensures
        match r {
            Some(p) => namespace_parent(*d) == Some(p@),
            None => namespace_parent(*d) is None,
        },
{
    match (&d.parent, &d.bus_address) {
        (Some(p), Some(b)) => {
            if d.whole_storage && is_nvme_controller_id(p.as_str()) && is_nvme_namespace_name(b.as_str()) {
                Some(p)
            } else {
                None
            }
        },
        _ => None,
    }
}

fn key_chars(d: &NamespaceFacts) -> (r: Vec<char>)
    ensures
        r@ == match d.parent {
            Some(p) => p@,
            None => Seq::<char>::empty(),
        },
{
    match &d.parent {
        Some(p) => chars_of(p.as_str()),
        None => Vec::new(),
    }
}


/// A record of the coalesced snapshot: which input record it is, the
/// `namespace_count` it is given, the namespace record it absorbs, and the
/// absorbed namespace record whose controller it names as parent instead
/// of its own parent.
#[derive(Debug, Clone, Copy, PartialEq, Eq)]
pub struct CoalescedRecord {
    pub index: usize,
    pub namespace_count: Option<u64>,
    pub absorbed: Option<usize>,
    pub parent_from: Option<usize>,
}

pub open spec fn plain(i: usize) -> CoalescedRecord {
    CoalescedRecord { index: i, namespace_count: None, absorbed: None, parent_from: None }
}

pub open spec fn id_of(ds: Seq<NamespaceFacts>, i: usize) -> Seq<char> {
    ds[i as int].id@
}

/// The controller id of a group of namespace records.
pub open spec fn group_key(ds: Seq<NamespaceFacts>, g: Seq<usize>) -> Seq<char> {
    parent_key(ds, g[0] as int)
}

/// Where a group with key `c` goes among groups kept in key order.
pub open spec fn group_pos(ds: Seq<NamespaceFacts>, gs: Seq<Seq<usize>>, c: Seq<char>, j: int) -> int
    decreases gs.len() - j,
{
    if j < 0 || j >= gs.len() {
        gs.len() as int
    } else if !lex_lt(group_key(ds, gs[j]), c) {
        j
    } else {
        group_pos(ds, gs, c, j + 1)
    }
}

/// The namespace records among the first `n`, grouped by controller id.
pub open spec fn groups(ds: Seq<NamespaceFacts>, n: nat) -> Seq<Seq<usize>>
    decreases n,
{
    if n == 0 {
        Seq::empty()
    } else {
        let gs = groups(ds, (n - 1) as nat);
        match namespace_parent(ds[n - 1]) {
            Some(c) => {
                let j = group_pos(ds, gs, c, 0);
                if j < gs.len() && group_key(ds, gs[j]) == c {
                    gs.update(j, gs[j].push((n - 1) as usize))
                } else {
                    gs.insert(j, seq![(n - 1) as usize])
                }
            },
            None => gs,
        }
    }
}

/// Whether `id` is the id of the only namespace of one of the first `n`
/// groups.
pub open spec fn single_id(ds: Seq<NamespaceFacts>, gs: Seq<Seq<usize>>, id: Seq<char>, n: nat) -> bool
    decreases n,
{
    n > 0 && (single_id(ds, gs, id, (n - 1) as nat) || (gs[n - 1].len() == 1 && id_of(ds, gs[n - 1][0]) == id))
}

/// Whether one of the first `n` groups has a single namespace.
pub open spec fn has_single(gs: Seq<Seq<usize>>, n: nat) -> bool
    decreases n,
{
    n > 0 && (has_single(gs, (n - 1) as nat) || gs[n - 1].len() == 1)
}

/// Where a record with id `id` goes among records kept in id order.
pub open spec fn id_pos(ds: Seq<NamespaceFacts>, s: Seq<usize>, id: Seq<char>, j: int) -> int
    decreases s.len() - j,
{
    if j < 0 || j >= s.len() {
        s.len() as int
    } else if !lex_lt(id_of(ds, s[j]), id) {
        j
    } else {
        id_pos(ds, s, id, j + 1)
    }
}

/// Keyed insertion by id: replaces the record with the same id.
pub open spec fn put_id(ds: Seq<NamespaceFacts>, s: Seq<usize>, i: usize) -> Seq<usize> {
    let j = id_pos(ds, s, id_of(ds, i), 0);
    if j < s.len() && id_of(ds, s[j]) == id_of(ds, i) {
        s.update(j, i)
    } else {
        s.insert(j, i)
    }
}

/// The position of the record with id `id` in a keyed set.
pub open spec fn find_id(ds: Seq<NamespaceFacts>, s: Seq<usize>, id: Seq<char>) -> Option<int> {
    let j = id_pos(ds, s, id, 0);
    if j < s.len() && id_of(ds, s[j]) == id {
        Some(j)
    } else {
        None
    }
}

/// The first record from `j` on with id `c`.
pub open spec fn find_rec(ds: Seq<NamespaceFacts>, r: Seq<CoalescedRecord>, c: Seq<char>, j: int) -> Option<int>
    decreases r.len() - j,
{
    if j < 0 || j >= r.len() {
        None
    } else if id_of(ds, r[j].index) == c {
        Some(j)
    } else {
        find_rec(ds, r, c, j + 1)
    }
}

pub open spec fn with_count(x: CoalescedRecord, n: nat) -> CoalescedRecord {
    CoalescedRecord { index: x.index, namespace_count: Some(n as u64), absorbed: x.absorbed, parent_from: x.parent_from }
}

/// The records after the first `t` groups told their controllers (the
/// first record with each controller's id) how many namespaces they have.
pub open spec fn annotate(ds: Seq<NamespaceFacts>, gs: Seq<Seq<usize>>, r: Seq<CoalescedRecord>, t: nat) -> Seq<CoalescedRecord>
    decreases t,
{
    if t == 0 {
        r
    } else {
        let a = annotate(ds, gs, r, (t - 1) as nat);
        let g = gs[t - 1];
        match find_rec(ds, a, group_key(ds, g), 0) {
            Some(f) => a.update(f, with_count(a[f], g.len())),
            None => a,
        }
    }
}

/// The records among the first `n` that are not set aside, in order.
pub open spec fn kept_records(ds: Seq<NamespaceFacts>, gs: Seq<Seq<usize>>, n: nat) -> Seq<CoalescedRecord>
    decreases n,
{
    if n == 0 {
        Seq::empty()
    } else {
        let r = kept_records(ds, gs, (n - 1) as nat);
        if single_id(ds, gs, id_of(ds, (n - 1) as usize), gs.len()) {
            r
        } else {
            r.push(plain((n - 1) as usize))
        }
    }
}

/// The records among the first `n` that are set aside, keyed by id.
pub open spec fn set_aside(ds: Seq<NamespaceFacts>, gs: Seq<Seq<usize>>, n: nat) -> Seq<usize>
    decreases n,
{
    if n == 0 {
        Seq::empty()
    } else {
        let s = set_aside(ds, gs, (n - 1) as nat);
        if single_id(ds, gs, id_of(ds, (n - 1) as usize), gs.len()) {
            put_id(ds, s, (n - 1) as usize)
        } else {
            s
        }
    }
}

/// The state while groups are taken in turn: the records, what is still
/// set aside, and the absorbed namespaces whose ids name their controller.
pub struct CoalescePass {
    pub records: Seq<CoalescedRecord>,
    pub aside: Seq<usize>,
    pub remap: Seq<usize>,
}

/// The set-aside records of the first `k` members of a group put back.
pub open spec fn put_back(ds: Seq<NamespaceFacts>, p: CoalescePass, g: Seq<usize>, k: nat) -> CoalescePass
    decreases k,
{
    if k == 0 {
        p
    } else {
        let q = put_back(ds, p, g, (k - 1) as nat);
        match find_id(ds, q.aside, id_of(ds, g[k - 1])) {
            Some(j) => CoalescePass { records: q.records.push(plain(q.aside[j])), aside: q.aside.remove(j), remap: q.remap },
            None => q,
        }
    }
}

/// One group taken in turn.
pub open spec fn group_step(ds: Seq<NamespaceFacts>, p: CoalescePass, g: Seq<usize>) -> CoalescePass {
    match find_rec(ds, p.records, group_key(ds, g), 0) {
        None => put_back(ds, p, g, g.len()),
        Some(f) => {
            let counted = with_count(p.records[f], g.len());
            if g.len() == 1 {
                match find_id(ds, p.aside, id_of(ds, g[0])) {
                    Some(j) => CoalescePass {
                        records: p.records.update(
                            f,
                            CoalescedRecord {
                                index: counted.index,
                                namespace_count: counted.namespace_count,
                                absorbed: Some(p.aside[j]),
                                parent_from: counted.parent_from,
                            },
                        ),
                        aside: p.aside.remove(j),
                        remap: put_id(ds, p.remap, g[0]),
                    },
                    None => CoalescePass { records: p.records.update(f, counted), aside: p.aside, remap: p.remap },
                }
            } else {
                CoalescePass { records: p.records.update(f, counted), aside: p.aside, remap: p.remap }
            }
        },
    }
}

pub open spec fn groups_pass(ds: Seq<NamespaceFacts>, gs: Seq<Seq<usize>>, p: CoalescePass, t: nat) -> CoalescePass
    decreases t,
{
    if t == 0 {
        p
    } else {
        group_step(ds, groups_pass(ds, gs, p, (t - 1) as nat), gs[t - 1])
    }
}

/// A record whose parent is an absorbed namespace names that namespace's
/// controller.
pub open spec fn reparented(ds: Seq<NamespaceFacts>, remap: Seq<usize>, x: CoalescedRecord) -> CoalescedRecord {
    match ds[x.index as int].parent {
        Some(p) => match find_id(ds, remap, p@) {
            Some(j) => CoalescedRecord {
                index: x.index,
                namespace_count: x.namespace_count,
                absorbed: x.absorbed,
                parent_from: Some(remap[j]),
            },
            None => x,
        },
        None => x,
    }
}

/// The coalesced records of a snapshot, in order.
pub open spec fn coalesced(ds: Seq<NamespaceFacts>) -> Seq<CoalescedRecord> {
    let gs = groups(ds, ds.len());
    if !has_single(gs, gs.len()) {
        annotate(ds, gs, Seq::new(ds.len(), |i: int| plain(i as usize)), gs.len())
    } else {
        let p = groups_pass(
            ds,
            gs,
            CoalescePass { records: kept_records(ds, gs, ds.len()), aside: set_aside(ds, gs, ds.len()), remap: Seq::empty() },
            gs.len(),
        );
        (p.records + p.aside.map_values(|i: usize| plain(i))).map_values(|x: CoalescedRecord| reparented(ds, p.remap, x))
    }
}

pub open spec fn valid_idx(ds: Seq<NamespaceFacts>, s: Seq<usize>) -> bool {
    forall|k: int| 0 <= k < s.len() ==> #[trigger] s[k] < ds.len()
}

pub open spec fn valid_groups(ds: Seq<NamespaceFacts>, gs: Seq<Seq<usize>>) -> bool {
    forall|t: int| 0 <= t < gs.len() ==> (#[trigger] gs[t]).len() > 0 && valid_idx(ds, gs[t])
}

pub open spec fn valid_recs(ds: Seq<NamespaceFacts>, r: Seq<CoalescedRecord>) -> bool {
    forall|k: int| 0 <= k < r.len() ==> (#[trigger] r[k]).index < ds.len()
}

pub open spec fn gviews(gs: Seq<Vec<usize>>) -> Seq<Seq<usize>> {
    gs.map_values(|g: Vec<usize>| g@)
}

fn id_chars(ds: &[NamespaceFacts], i: usize) -> (r: Vec<char>)
    requires
        i < ds.len(),
    ensures
        r@ == id_of(ds@, i),
{
    chars_of(ds[i].id.as_str())
}

fn copy_indices(v: &Vec<usize>) -> (r: Vec<usize>)
    ensures
        r@ == v@,
{
    let mut r: Vec<usize> = Vec::new();
    let mut i: usize = 0;
    while i < v.len()
        invariant
            i <= v@.len(),
            r@ == v@.take(i as int),
        decreases v.len() - i,
    {
        r.push(v[i]);
        i += 1;
        assert(r@ =~= v@.take(i as int));
    }
    assert(v@.take(v@.len() as int) =~= v@);
    r
}

fn group_position(ds: &[NamespaceFacts], gs: &Vec<Vec<usize>>, c: &Vec<char>) -> (r: usize)
    requires
        valid_groups(ds@, gviews(gs@)),
    ensures
        r as int == group_pos(ds@, gviews(gs@), c@, 0),
        r <= gs@.len(),
{
    let ghost v = gviews(gs@);
    let mut j: usize = 0;
    while j < gs.len()
        invariant
            j <= gs@.len(),
            v == gviews(gs@),
            valid_groups(ds@, v),
            group_pos(ds@, v, c@, 0) == group_pos(ds@, v, c@, j as int),
        decreases gs.len() - j,
    {
        assert(v[j as int].len() > 0 && valid_idx(ds@, v[j as int]));
        assert(v[j as int][0] < ds@.len());
        let key = key_chars(&ds[gs[j][0]]);
        if !chars_lt(&key, c) {
            return j;
        }
        j += 1;
    }
    j
}

fn build_groups(ds: &[NamespaceFacts]) -> (r: Vec<Vec<usize>>)
    ensures
        gviews(r@) == groups(ds@, ds@.len()),
        valid_groups(ds@, gviews(r@)),
{
    let mut gs: Vec<Vec<usize>> = Vec::new();
    assert(gviews(gs@) =~= Seq::<Seq<usize>>::empty());
    let mut i: usize = 0;
    while i < ds.len()
        invariant
            i <= ds@.len(),
            gviews(gs@) == groups(ds@, i as nat),
            valid_groups(ds@, gviews(gs@)),
        decreases ds.len() - i,
    {
        let ghost before = gviews(gs@);
        match parent_of_namespace(&ds[i]) {
            Some(p) => {
                let c = chars_of(p.as_str());
                let j = group_position(ds, &gs, &c);
                let mut same = false;
                if j < gs.len() {
                    assert(before[j as int].len() > 0 && valid_idx(ds@, before[j as int]));
                    assert(before[j as int][0] < ds@.len());
                    let key = key_chars(&ds[gs[j][0]]);
                    same = chars_eq(&key, &c);
                }
                if same {
                    let mut g = copy_indices(&gs[j]);
                    g.push(i);
                    gs.set(j, g);
                    assert(gviews(gs@) =~= before.update(j as int, before[j as int].push(i)));
                } else {
                    let mut g: Vec<usize> = Vec::new();
                    g.push(i);
                    gs.insert(j, g);
                    assert(gviews(gs@) =~= before.insert(j as int, seq![i]));
                }
                proof {
                    let after = gviews(gs@);
                    assert forall|t: int| 0 <= t < after.len() implies (#[trigger] after[t]).len() > 0 && valid_idx(ds@, after[t]) by {
                        if t == j {
                        } else if !same && t > j {
                            assert(after[t] == before[t - 1]);
                        } else {
                            assert(after[t] == before[t]);
                        }
                    }
                }
            },
            None => {},
        }
        i += 1;
    }
    gs
}

fn single_id_exec(ds: &[NamespaceFacts], gs: &Vec<Vec<usize>>, id: &Vec<char>) -> (r: bool)
    requires
        valid_groups(ds@, gviews(gs@)),
    ensures
        r == single_id(ds@, gviews(gs@), id@, gs@.len()),
{
    let ghost v = gviews(gs@);
    let mut r = false;
    let mut t: usize = 0;
    while t < gs.len()
        invariant
            t <= gs@.len(),
            v == gviews(gs@),
            valid_groups(ds@, v),
            r == single_id(ds@, v, id@, t as nat),
        decreases gs.len() - t,
    {
        assert(v[t as int].len() > 0 && valid_idx(ds@, v[t as int]));
        assert(v[t as int][0] < ds@.len());
        let hit = gs[t].len() == 1 && chars_eq(&id_chars(ds, gs[t][0]), id);
        r = r || hit;
        t += 1;
    }
    r
}

fn has_single_exec(gs: &Vec<Vec<usize>>) -> (r: bool)
    ensures
        r == has_single(gviews(gs@), gs@.len()),
{
    let ghost v = gviews(gs@);
    let mut r = false;
    let mut t: usize = 0;
    while t < gs.len()
        invariant
            t <= gs@.len(),
            v == gviews(gs@),
            r == has_single(v, t as nat),
        decreases gs.len() - t,
    {
        r = r || gs[t].len() == 1;
        t += 1;
    }
    r
}

fn id_position(ds: &[NamespaceFacts], s: &Vec<usize>, id: &Vec<char>) -> (r: usize)
    requires
        valid_idx(ds@, s@),
    ensures
        r as int == id_pos(ds@, s@, id@, 0),
        r <= s@.len(),
{
    let mut j: usize = 0;
    while j < s.len()
        invariant
            j <= s@.len(),
            valid_idx(ds@, s@),
            id_pos(ds@, s@, id@, 0) == id_pos(ds@, s@, id@, j as int),
        decreases s.len() - j,
    {
        assert(s@[j as int] < ds@.len());
        if !chars_lt(&id_chars(ds, s[j]), id) {
            return j;
        }
        j += 1;
    }
    j
}

fn find_by_id(ds: &[NamespaceFacts], s: &Vec<usize>, id: &Vec<char>) -> (r: Option<usize>)
    requires
        valid_idx(ds@, s@),
    ensures
        match r {
            Some(j) => find_id(ds@, s@, id@) == Some(j as int) && j < s@.len(),
            None => find_id(ds@, s@, id@) is None,
        },
{
    let j = id_position(ds, s, id);
    if j < s.len() {
        assert(s@[j as int] < ds@.len());
        if chars_eq(&id_chars(ds, s[j]), id) {
            return Some(j);
        }
    }
    None
}

fn put_by_id(ds: &[NamespaceFacts], s: &mut Vec<usize>, i: usize)
    requires
        i < ds.len(),
        valid_idx(ds@, old(s)@),
    ensures
        final(s)@ == put_id(ds@, old(s)@, i),
        valid_idx(ds@, final(s)@),
{
    let id = id_chars(ds, i);
    let j = id_position(ds, s, &id);
    let mut same = false;
    if j < s.len() {
        assert(s@[j as int] < ds@.len());
        same = chars_eq(&id_chars(ds, s[j]), &id);
    }
    if same {
        s.set(j, i);
    } else {
        s.insert(j, i);
    }
    proof {
        let after = s@;
        assert forall|k: int| 0 <= k < after.len() implies #[trigger] after[k] < ds@.len() by {
            if k == j {
            } else if !same && k > j {
                assert(after[k] == old(s)@[k - 1]);
            } else {
                assert(after[k] == old(s)@[k]);
            }
        }
    }
}

fn find_record(ds: &[NamespaceFacts], r: &Vec<CoalescedRecord>, c: &Vec<char>) -> (f: Option<usize>)
    requires
        valid_recs(ds@, r@),
    ensures
        match f {
            Some(j) => find_rec(ds@, r@, c@, 0) == Some(j as int) && j < r@.len(),
            None => find_rec(ds@, r@, c@, 0) is None,
        },
{
    let mut j: usize = 0;
    while j < r.len()
        invariant
            j <= r@.len(),
            valid_recs(ds@, r@),
            find_rec(ds@, r@, c@, 0) == find_rec(ds@, r@, c@, j as int),
        decreases r.len() - j,
    {
        assert(r@[j as int].index < ds@.len());
        if chars_eq(&id_chars(ds, r[j].index), c) {
            return Some(j);
        }
        j += 1;
    }
    None
}

fn counted(x: CoalescedRecord, n: usize) -> (r: CoalescedRecord)
    ensures
        r == with_count(x, n as nat),
{
    CoalescedRecord { index: x.index, namespace_count: Some(n as u64), absorbed: x.absorbed, parent_from: x.parent_from }
}

fn set_record(r: &mut Vec<CoalescedRecord>, j: usize, x: CoalescedRecord, Ghost(n): Ghost<nat>)
    requires
        j < old(r)@.len(),
        x.index < n,
        forall|k: int| 0 <= k < old(r)@.len() ==> (#[trigger] old(r)@[k]).index < n,
    ensures
        final(r)@ == old(r)@.update(j as int, x),
        forall|k: int| 0 <= k < final(r)@.len() ==> (#[trigger] final(r)@[k]).index < n,
{
    r.set(j, x);
    proof {
        assert forall|k: int| 0 <= k < r@.len() implies (#[trigger] r@[k]).index < n by {
            if k != j {
                assert(r@[k] == old(r)@[k]);
            }
        }
    }
}

fn take_index(s: &mut Vec<usize>, j: usize, Ghost(n): Ghost<nat>) -> (r: usize)
    requires
        j < old(s)@.len(),
        forall|k: int| 0 <= k < old(s)@.len() ==> #[trigger] old(s)@[k] < n,
    ensures
        r == old(s)@[j as int],
        final(s)@ == old(s)@.remove(j as int),
        r < n,
        forall|k: int| 0 <= k < final(s)@.len() ==> #[trigger] final(s)@[k] < n,
{
    let r = s.remove(j);
    proof {
        assert forall|k: int| 0 <= k < s@.len() implies #[trigger] s@[k] < n by {
            if k < j {
                assert(s@[k] == old(s)@[k]);
            } else {
                assert(s@[k] == old(s)@[k + 1]);
            }
        }
    }
    r
}

fn reparent_record(ds: &[NamespaceFacts], remap: &Vec<usize>, x: CoalescedRecord) -> (r: CoalescedRecord)
    requires
        x.index < ds.len(),
        valid_idx(ds@, remap@),
    ensures
        r == reparented(ds@, remap@, x),
{
    match &ds[x.index].parent {
        Some(p) => match find_by_id(ds, remap, &chars_of(p.as_str())) {
            Some(j) => CoalescedRecord {
                index: x.index,
                namespace_count: x.namespace_count,
                absorbed: x.absorbed,
                parent_from: Some(remap[j]),
            },
            None => x,
        },
        None => x,
    }
}

/// The coalesced records of a snapshot, in the order they are kept.
pub fn plan_namespace_coalescing(ds: &[NamespaceFacts]) -> (r: Vec<CoalescedRecord>)
    ensures
        r@ == coalesced(ds@),
{
    let gs = build_groups(ds);
    let ghost g = gviews(gs@);
    let mut all: Vec<CoalescedRecord> = Vec::new();
    let mut i: usize = 0;
    while i < ds.len()
        invariant
            i <= ds@.len(),
            all@ =~= Seq::new(i as nat, |k: int| plain(k as usize)),
        decreases ds.len() - i,
    {
        all.push(CoalescedRecord { index: i, namespace_count: None, absorbed: None, parent_from: None });
        i += 1;
    }
    let ghost everything = all@;
    if !has_single_exec(&gs) {
        let mut r = all;
        let mut t: usize = 0;
        while t < gs.len()
            invariant
                t <= gs@.len(),
                g == gviews(gs@),
                valid_groups(ds@, g),
                everything == Seq::new(ds@.len(), |k: int| plain(k as usize)),
                r@ == annotate(ds@, g, everything, t as nat),
                valid_recs(ds@, r@),
            decreases gs.len() - t,
        {
            assert(g[t as int].len() > 0 && valid_idx(ds@, g[t as int]));
            assert(g[t as int][0] < ds@.len());
            let key = key_chars(&ds[gs[t][0]]);
            match find_record(ds, &r, &key) {
                Some(f) => {
                    let x = counted(r[f], gs[t].len());
                    set_record(&mut r, f, x, Ghost(ds@.len()));
                },
                None => {},
            }
            t += 1;
        }
        return r;
    }
    let mut records: Vec<CoalescedRecord> = Vec::new();
    let mut aside: Vec<usize> = Vec::new();
    let mut i: usize = 0;
    while i < ds.len()
        invariant
            i <= ds@.len(),
            g == gviews(gs@),
            valid_groups(ds@, g),
            records@ == kept_records(ds@, g, i as nat),
            aside@ == set_aside(ds@, g, i as nat),
            valid_recs(ds@, records@),
            valid_idx(ds@, aside@),
        decreases ds.len() - i,
    {
        if single_id_exec(ds, &gs, &id_chars(ds, i)) {
            put_by_id(ds, &mut aside, i);
        } else {
            records.push(CoalescedRecord { index: i, namespace_count: None, absorbed: None, parent_from: None });
        }
        i += 1;
    }
    let ghost start = CoalescePass { records: records@, aside: aside@, remap: Seq::empty() };
    let mut remap: Vec<usize> = Vec::new();
    let mut t: usize = 0;
    while t < gs.len()
        invariant
            t <= gs@.len(),
            g == gviews(gs@),
            valid_groups(ds@, g),
            records@ == groups_pass(ds@, g, start, t as nat).records,
            aside@ == groups_pass(ds@, g, start, t as nat).aside,
            remap@ == groups_pass(ds@, g, start, t as nat).remap,
            valid_recs(ds@, records@),
            valid_idx(ds@, aside@),
            valid_idx(ds@, remap@),
        decreases gs.len() - t,
    {
        let grp = &gs[t];
        assert(g[t as int] == grp@);
        assert(grp@.len() > 0 && valid_idx(ds@, grp@));
        assert(grp@[0] < ds@.len());
        let ghost before = CoalescePass { records: records@, aside: aside@, remap: remap@ };
        let key = key_chars(&ds[grp[0]]);
        match find_record(ds, &records, &key) {
            None => {
                let mut k: usize = 0;
                while k < grp.len()
                    invariant
                        k <= grp@.len(),
                        valid_idx(ds@, grp@),
                        records@ == put_back(ds@, before, grp@, k as nat).records,
                        aside@ == put_back(ds@, before, grp@, k as nat).aside,
                        remap@ == put_back(ds@, before, grp@, k as nat).remap,
                        valid_recs(ds@, records@),
                        valid_idx(ds@, aside@),
                    decreases grp.len() - k,
                {
                    assert(grp@[k as int] < ds@.len());
                    match find_by_id(ds, &aside, &id_chars(ds, grp[k])) {
                        Some(j) => {
                            let x = take_index(&mut aside, j, Ghost(ds@.len()));
                            records.push(CoalescedRecord { index: x, namespace_count: None, absorbed: None, parent_from: None });
                            proof {
                                assert forall|q: int| 0 <= q < records@.len() implies (#[trigger] records@[q]).index < ds@.len() by {
                                }
                            }
                        },
                        None => {},
                    }
                    k += 1;
                }
            },
            Some(f) => {
                let c = counted(records[f], grp.len());
                if grp.len() == 1 {
                    match find_by_id(ds, &aside, &id_chars(ds, grp[0])) {
                        Some(j) => {
                            let a = take_index(&mut aside, j, Ghost(ds@.len()));
                            let x = CoalescedRecord {
                                index: c.index,
                                namespace_count: c.namespace_count,
                                absorbed: Some(a),
                                parent_from: c.parent_from,
                            };
                            set_record(&mut records, f, x, Ghost(ds@.len()));
                            put_by_id(ds, &mut remap, grp[0]);
                        },
                        None => {
                            set_record(&mut records, f, c, Ghost(ds@.len()));
                        },
                    }
                } else {
                    set_record(&mut records, f, c, Ghost(ds@.len()));
                }
            },
        }
        t += 1;
    }
    let ghost p = groups_pass(ds@, g, start, gs@.len());
    let mut out: Vec<CoalescedRecord> = Vec::new();
    let mut k: usize = 0;
    while k < records.len()
        invariant
            k <= records@.len(),
            valid_recs(ds@, records@),
            valid_idx(ds@, remap@),
            out@ =~= records@.take(k as int).map_values(|x: CoalescedRecord| reparented(ds@, remap@, x)),
        decreases records.len() - k,
    {
        out.push(reparent_record(ds, &remap, records[k]));
        k += 1;
    }
    let ghost first = out@;
    let mut k: usize = 0;
    while k < aside.len()
        invariant
            k <= aside@.len(),
            valid_idx(ds@, aside@),
            valid_idx(ds@, remap@),
            out@ =~= first + aside@.take(k as int).map_values(|i: usize| plain(i)).map_values(
                |x: CoalescedRecord| reparented(ds@, remap@, x),
            ),
        decreases aside.len() - k,
    {
        let x = CoalescedRecord { index: aside[k], namespace_count: None, absorbed: None, parent_from: None };
        out.push(reparent_record(ds, &remap, x));
        k += 1;
    }
    proof {
        assert(records@.take(records@.len() as int) =~= records@);
        assert(aside@.take(aside@.len() as int) =~= aside@);
        assert(out@ =~= (p.records + p.aside.map_values(|i: usize| plain(i))).map_values(
            |x: CoalescedRecord| reparented(ds@, p.remap, x),
        ));
    }
    out
}


proof fn lemma_find_rec_range(ds: Seq<NamespaceFacts>, r: Seq<CoalescedRecord>, c: Seq<char>, j: int)
    requires
        0 <= j,
    ensures
        find_rec(ds, r, c, j) matches Some(f) ==> j <= f < r.len(),
    decreases r.len() - j,
{
    if j < r.len() && id_of(ds, r[j].index) != c {
        lemma_find_rec_range(ds, r, c, j + 1);
    }
}

proof fn lemma_annotate_keeps_records(ds: Seq<NamespaceFacts>, gs: Seq<Seq<usize>>, r: Seq<CoalescedRecord>, t: nat)
    ensures
        annotate(ds, gs, r, t).len() == r.len(),
        forall|i: int| 0 <= i < r.len() ==> (#[trigger] annotate(ds, gs, r, t)[i]).index == r[i].index,
    decreases t,
{
    if t > 0 {
        lemma_annotate_keeps_records(ds, gs, r, (t - 1) as nat);
        let a = annotate(ds, gs, r, (t - 1) as nat);
        lemma_find_rec_range(ds, a, group_key(ds, gs[t - 1]), 0);
    }
}

/// When no controller has a single namespace, every record stays, in
/// order; controllers are only told their counts.
pub proof fn law_without_lone_namespaces_records_stay(ds: Seq<NamespaceFacts>)
    requires
        ds.len() <= usize::MAX,
        !has_single(groups(ds, ds.len()), groups(ds, ds.len()).len()),
    ensures
        coalesced(ds).len() == ds.len(),
        forall|i: int|
            0 <= i < ds.len() ==> (#[trigger] coalesced(ds)[i]).index == i && coalesced(ds)[i].absorbed is None
                && coalesced(ds)[i].parent_from is None,
{
    let gs = groups(ds, ds.len());
    let all = Seq::new(ds.len(), |k: int| plain(k as usize));
    lemma_annotate_keeps_records(ds, gs, all, gs.len());
    lemma_annotate_keeps_links(ds, gs, all, gs.len());
}

proof fn lemma_annotate_keeps_links(ds: Seq<NamespaceFacts>, gs: Seq<Seq<usize>>, r: Seq<CoalescedRecord>, t: nat)
    ensures
        forall|i: int|
            0 <= i < annotate(ds, gs, r, t).len() ==> (#[trigger] annotate(ds, gs, r, t)[i]).absorbed == r[i].absorbed
                && annotate(ds, gs, r, t)[i].parent_from == r[i].parent_from,
    decreases t,
{
    if t > 0 {
        lemma_annotate_keeps_records(ds, gs, r, (t - 1) as nat);
        lemma_annotate_keeps_links(ds, gs, r, (t - 1) as nat);
        let a = annotate(ds, gs, r, (t - 1) as nat);
        lemma_find_rec_range(ds, a, group_key(ds, gs[t - 1]), 0);
    }
}

} // verus!
