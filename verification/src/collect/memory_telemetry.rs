//! Which memory module a standalone module-telemetry device (an SPD hub or
//! a JEDEC temperature sensor) belongs to: first by locator, then, for a
//! single leftover, to the single remaining module, and otherwise by
//! pairing modules in firmware-record order with sensors in I²C order when
//! that pairing is unambiguous.
use vstd::prelude::*;
use crate::text::chars_eq;
use crate::text::chars_of;

verus! {

/// What the pairing reads of a firmware memory module: its firmware record
/// index, its slot label, and the normalized values of its slot label,
/// locator and bank locator (those it has).
#[derive(Debug, Clone)]
pub struct ModuleFacts {
    pub record_index: u64,
    pub slot_label: Option<String>,
    pub locators: Vec<String>,
}

/// What the pairing reads of a telemetry device: its normalized locator,
/// its I²C bus and address, and its driver.
#[derive(Debug, Clone)]
pub struct TelemetryFacts {
    pub locator: Option<String>,
    pub i2c_key: Option<(u32, u16)>,
    pub driver: Option<String>,
}

/// How a telemetry device was tied to its module.
#[derive(Debug, Clone, Copy, PartialEq, Eq, Structural)]
pub enum Mapping {
    FirmwareLocator,
    SingleRemainingModule,
    InferredI2cOrder,
}

pub open spec fn mapping_as_str(m: Mapping) -> Seq<char> {
    match m {
        Mapping::FirmwareLocator => "firmware_locator"@,
        Mapping::SingleRemainingModule => "single_remaining_module"@,
        Mapping::InferredI2cOrder => "inferred_i2c_order"@,
    }
}

impl Mapping {
    /// The name recorded on the merged module.
    pub fn as_str(self) -> (r: &'static str)
        ensures
            r@ == mapping_as_str(self),
    {
        match self {
            Mapping::FirmwareLocator => "firmware_locator",
            Mapping::SingleRemainingModule => "single_remaining_module",
            Mapping::InferredI2cOrder => "inferred_i2c_order",
        }
    }
}

/// One telemetry device merged into one module.
#[derive(Debug, Clone, Copy, PartialEq, Eq, Structural)]
pub struct TelemetryMerge {
    pub telemetry: usize,
    pub module: usize,
    pub mapping: Mapping,
}

/// The merges, in the order they are applied, and the telemetry devices
/// that stay on their own, in the order they are listed after the others.
#[derive(Debug, Clone)]
pub struct TelemetryPlan {
    pub merges: Vec<TelemetryMerge>,
    pub unmatched: Vec<usize>,
}

/// Whether the telemetry device's locator is one of the module's.
pub open spec fn locator_matches(t: TelemetryFacts, m: ModuleFacts) -> bool {
    match t.locator {
        Some(l) => exists|i: int| 0 <= i < m.locators@.len() && #[trigger] m.locators@[i]@ == l@,
        None => false,
    }
}

/// The modules among the first `n` available ones that the device matches.
pub open spec fn matching(ms: Seq<ModuleFacts>, avail: Seq<usize>, t: TelemetryFacts, n: nat) -> Seq<usize>
    decreases n,
{
    if n == 0 {
        seq![]
    } else if locator_matches(t, ms[avail[n - 1] as int]) {
        matching(ms, avail, t, (n - 1) as nat).push(avail[n - 1])
    } else {
        matching(ms, avail, t, (n - 1) as nat)
    }
}

/// The first `n` entries of `s` without `x`.
pub open spec fn without(s: Seq<usize>, x: usize, n: nat) -> Seq<usize>
    decreases n,
{
    if n == 0 {
        seq![]
    } else if s[n - 1] == x {
        without(s, x, (n - 1) as nat)
    } else {
        without(s, x, (n - 1) as nat).push(s[n - 1])
    }
}

/// Where matching by locator stands: the modules still available, the
/// merges made, and the devices that matched no module or several.
pub struct LocatorPass {
    pub available: Seq<usize>,
    pub merges: Seq<TelemetryMerge>,
    pub unmatched: Seq<usize>,
}

/// Matching the first `n` telemetry devices by locator, in order: a device
/// that matches exactly one available module is merged into it, which is
/// then no longer available.
pub open spec fn locator_pass(ms: Seq<ModuleFacts>, ts: Seq<TelemetryFacts>, n: nat) -> LocatorPass
    decreases n,
{
    if n == 0 {
        LocatorPass { available: Seq::new(ms.len(), |i: int| i as usize), merges: seq![], unmatched: seq![] }
    } else {
        let st = locator_pass(ms, ts, (n - 1) as nat);
        let c = matching(ms, st.available, ts[n - 1], st.available.len());
        if c.len() == 1 {
            LocatorPass {
                available: without(st.available, c[0], st.available.len()),
                merges: st.merges.push(TelemetryMerge { telemetry: (n - 1) as usize, module: c[0], mapping: Mapping::FirmwareLocator }),
                unmatched: st.unmatched,
            }
        } else {
            LocatorPass { available: st.available, merges: st.merges, unmatched: st.unmatched.push((n - 1) as usize) }
        }
    }
}

fn locator_in(t: &TelemetryFacts, m: &ModuleFacts) -> (r: bool)
    ensures
        r == locator_matches(*t, *m),
{
    match &t.locator {
        Some(l) => {
            let lc = chars_of(l.as_str());
            let mut i: usize = 0;
            while i < m.locators.len()
                invariant
                    i <= m.locators@.len(),
                    lc@ == l@,
                    t.locator == Some(*l),
                    forall|j: int| 0 <= j < i ==> #[trigger] m.locators@[j]@ != l@,
                decreases m.locators@.len() - i,
            {
                if chars_eq(&chars_of(m.locators[i].as_str()), &lc) {
                    return true;
                }
                i += 1;
            }
            false
        },
        None => false,
    }
}

fn matching_of(ms: &[ModuleFacts], avail: &Vec<usize>, t: &TelemetryFacts) -> (r: Vec<usize>)
    requires
        forall|j: int| 0 <= j < avail@.len() ==> #[trigger] avail@[j] < ms@.len(),
    ensures
        r@ == matching(ms@, avail@, *t, avail@.len() as nat),
{
    let mut r: Vec<usize> = Vec::new();
    let mut i: usize = 0;
    while i < avail.len()
        invariant
            i <= avail@.len(),
            forall|j: int| 0 <= j < avail@.len() ==> #[trigger] avail@[j] < ms@.len(),
            r@ == matching(ms@, avail@, *t, i as nat),
        decreases avail@.len() - i,
    {
        if locator_in(t, &ms[avail[i]]) {
            r.push(avail[i]);
        }
        i += 1;
    }
    r
}

fn without_of(s: &Vec<usize>, x: usize) -> (r: Vec<usize>)
    ensures
        r@ == without(s@, x, s@.len() as nat),
{
    let mut r: Vec<usize> = Vec::new();
    let mut i: usize = 0;
    while i < s.len()
        invariant
            i <= s@.len(),
            r@ == without(s@, x, i as nat),
        decreases s@.len() - i,
    {
        if s[i] != x {
            r.push(s[i]);
        }
        i += 1;
    }
    r
}

proof fn lemma_without_from(s: Seq<usize>, x: usize, n: nat)
    requires
        n <= s.len(),
    ensures
        forall|k: int| 0 <= k < without(s, x, n).len() ==> s.contains(#[trigger] without(s, x, n)[k]) && without(
            s,
            x,
            n,
        )[k] != x,
    decreases n,
{
    if n > 0 {
        lemma_without_from(s, x, (n - 1) as nat);
        let w = without(s, x, (n - 1) as nat);
        if s[n - 1] != x {
            assert forall|k: int| 0 <= k < w.push(s[n - 1]).len() implies s.contains(#[trigger] w.push(s[n - 1])[k])
                && w.push(s[n - 1])[k] != x by {
                if k == w.len() {
                    assert(s[n - 1] == w.push(s[n - 1])[k]);
                } else {
                    assert(w.push(s[n - 1])[k] == w[k]);
                }
            }
        }
    }
}

proof fn lemma_without_distinct(s: Seq<usize>, x: usize, n: nat)
    requires
        n <= s.len(),
        s.no_duplicates(),
    ensures
        without(s, x, n).no_duplicates(),
        forall|k: int| #![trigger without(s, x, n)[k]] 0 <= k < without(s, x, n).len() ==> exists|t: int| 0 <= t < n && #[trigger] s[t] == without(
            s,
            x,
            n,
        )[k],
    decreases n,
{
    if n > 0 {
        lemma_without_distinct(s, x, (n - 1) as nat);
        let w = without(s, x, (n - 1) as nat);
        if s[n - 1] != x {
            let v = w.push(s[n - 1]);
            assert forall|a: int, b: int| 0 <= a < v.len() && 0 <= b < v.len() && a != b implies v[a] != v[b] by {
                if a == w.len() || b == w.len() {
                    let o = if a == w.len() { b } else { a };
                    assert(v[o] == w[o]);
                    let t = choose|t: int| 0 <= t < n - 1 && #[trigger] s[t] == w[o];
                    assert(s[t] != s[n - 1]);
                } else {
                    assert(v[a] == w[a] && v[b] == w[b]);
                }
            }
            assert forall|k: int| #![trigger v[k]] 0 <= k < v.len() implies exists|t: int| 0 <= t < n && #[trigger] s[t] == v[k] by {
                if k == w.len() {
                    assert(s[n - 1] == v[k]);
                } else {
                    assert(v[k] == w[k]);
                    let t = choose|t: int| 0 <= t < n - 1 && #[trigger] s[t] == w[k];
                    assert(s[t] == v[k]);
                }
            }
        } else {
            assert forall|k: int| #![trigger w[k]] 0 <= k < w.len() implies exists|t: int| 0 <= t < n && #[trigger] s[t] == w[k] by {
                let t = choose|t: int| 0 <= t < n - 1 && #[trigger] s[t] == w[k];
                assert(s[t] == w[k]);
            }
        }
    }
}

proof fn lemma_matching_from(ms: Seq<ModuleFacts>, avail: Seq<usize>, t: TelemetryFacts, n: nat)
    requires
        n <= avail.len(),
    ensures
        forall|k: int| 0 <= k < matching(ms, avail, t, n).len() ==> avail.contains(#[trigger] matching(ms, avail, t, n)[k]),
    decreases n,
{
    if n > 0 {
        lemma_matching_from(ms, avail, t, (n - 1) as nat);
        let m = matching(ms, avail, t, (n - 1) as nat);
        if locator_matches(t, ms[avail[n - 1] as int]) {
            assert forall|k: int| 0 <= k < m.push(avail[n - 1]).len() implies avail.contains(
                #[trigger] m.push(avail[n - 1])[k],
            ) by {
                if k == m.len() {
                    assert(avail[n - 1] == m.push(avail[n - 1])[k]);
                } else {
                    assert(m.push(avail[n - 1])[k] == m[k]);
                }
            }
        }
    }
}

/// The modules still available are distinct module indices; the devices
/// left unmatched are distinct device indices below `n`.
pub open spec fn pass_sound(st: LocatorPass, module_count: nat, n: nat) -> bool {
    &&& forall|k: int| 0 <= k < st.available.len() ==> #[trigger] st.available[k] < module_count
    &&& st.available.no_duplicates()
    &&& forall|k: int| 0 <= k < st.unmatched.len() ==> #[trigger] st.unmatched[k] < n
    &&& st.unmatched.no_duplicates()
}

fn locator_pass_of(ms: &[ModuleFacts], ts: &[TelemetryFacts]) -> (r: (Vec<usize>, Vec<TelemetryMerge>, Vec<usize>))
    ensures
        r.0@ == locator_pass(ms@, ts@, ts@.len() as nat).available,
        r.1@ == locator_pass(ms@, ts@, ts@.len() as nat).merges,
        r.2@ == locator_pass(ms@, ts@, ts@.len() as nat).unmatched,
        pass_sound(locator_pass(ms@, ts@, ts@.len() as nat), ms@.len() as nat, ts@.len() as nat),
{
    let mut available: Vec<usize> = Vec::new();
    let mut k: usize = 0;
    while k < ms.len()
        invariant
            k <= ms@.len(),
            available@ == Seq::new(k as nat, |i: int| i as usize),
        decreases ms@.len() - k,
    {
        available.push(k);
        assert(available@ =~= Seq::new((k + 1) as nat, |i: int| i as usize));
        k += 1;
    }
    let mut merges: Vec<TelemetryMerge> = Vec::new();
    let mut unmatched: Vec<usize> = Vec::new();
    let mut i: usize = 0;
    while i < ts.len()
        invariant
            i <= ts@.len(),
            available@ == locator_pass(ms@, ts@, i as nat).available,
            merges@ == locator_pass(ms@, ts@, i as nat).merges,
            unmatched@ == locator_pass(ms@, ts@, i as nat).unmatched,
            pass_sound(locator_pass(ms@, ts@, i as nat), ms@.len() as nat, i as nat),
        decreases ts@.len() - i,
    {
        let c = matching_of(ms, &available, &ts[i]);
        proof {
            lemma_matching_from(ms@, available@, ts@[i as int], available@.len() as nat);
        }
        if c.len() == 1 {
            let m = c[0];
            let next = without_of(&available, m);
            proof {
                lemma_without_from(available@, m, available@.len() as nat);
                lemma_without_distinct(available@, m, available@.len() as nat);
            }
            available = next;
            merges.push(TelemetryMerge { telemetry: i, module: m, mapping: Mapping::FirmwareLocator });
        } else {
            let ghost old_u = unmatched@;
            unmatched.push(i);
            proof {
                assert forall|a: int, b: int| 0 <= a < unmatched@.len() && 0 <= b < unmatched@.len() && a != b implies unmatched@[a]
                    != unmatched@[b] by {
                    if a == old_u.len() {
                        assert(unmatched@[b] == old_u[b]);
                    } else if b == old_u.len() {
                        assert(unmatched@[a] == old_u[a]);
                    } else {
                        assert(unmatched@[a] == old_u[a] && unmatched@[b] == old_u[b]);
                    }
                }
            }
        }
        i += 1;
    }
    (available, merges, unmatched)
}

/// The I²C bus of a device (0 without a client).
pub open spec fn bus_of(t: TelemetryFacts) -> u32 {
    match t.i2c_key {
        Some((bus, _address)) => bus,
        None => 0,
    }
}

/// The position of an I²C client in bus-then-address order.
pub open spec fn i2c_rank(k: (u32, u16)) -> int {
    let (bus, address) = k;
    bus * 65536 + address
}

/// Whether the leftover modules and devices can be paired in order: at
/// least two modules and as many devices; the modules with distinct firmware
/// records and distinct slot labels; the devices with distinct I²C clients on
/// one bus, and one driver among them.
pub open spec fn can_pair_by_i2c(ms: Seq<ModuleFacts>, ts: Seq<TelemetryFacts>, avail: Seq<usize>, unm: Seq<usize>) -> bool {
    &&& avail.len() > 1
    &&& avail.len() == unm.len()
    &&& forall|a: int, b: int| #![trigger avail[a], avail[b]] 0 <= a < avail.len() && 0 <= b < avail.len() && a != b
        ==> ms[avail[a] as int].record_index != ms[avail[b] as int].record_index
    &&& forall|a: int| 0 <= a < avail.len() ==> (#[trigger] ms[avail[a] as int]).slot_label is Some
    &&& forall|a: int, b: int| #![trigger avail[a], avail[b]] 0 <= a < avail.len() && 0 <= b < avail.len() && a != b
        ==> ms[avail[a] as int].slot_label->0@ != ms[avail[b] as int].slot_label->0@
    &&& forall|a: int| 0 <= a < unm.len() ==> (#[trigger] ts[unm[a] as int]).i2c_key is Some
    &&& forall|a: int, b: int| #![trigger unm[a], unm[b]] 0 <= a < unm.len() && 0 <= b < unm.len() && a != b
        ==> ts[unm[a] as int].i2c_key != ts[unm[b] as int].i2c_key
    &&& forall|a: int| 0 <= a < unm.len() ==> bus_of(#[trigger] ts[unm[a] as int]) == bus_of(ts[unm[0] as int])
    &&& exists|a: int| 0 <= a < unm.len() && (#[trigger] ts[unm[a] as int]).driver is Some
    &&& forall|a: int, b: int| #![trigger unm[a], unm[b]] 0 <= a < unm.len() && 0 <= b < unm.len() && ts[unm[a] as int].driver is Some
        && ts[unm[b] as int].driver is Some ==> ts[unm[a] as int].driver->0@ == ts[unm[b] as int].driver->0@
}

/// The pairs made in I²C order: every leftover module with one leftover
/// device, modules in firmware-record order and devices in I²C order.
pub open spec fn paired_in_order(p: Seq<TelemetryMerge>, ms: Seq<ModuleFacts>, ts: Seq<TelemetryFacts>, avail: Seq<usize>, unm: Seq<usize>) -> bool {
    &&& p.len() == avail.len()
    &&& forall|j: int| 0 <= j < p.len() ==> (#[trigger] p[j]).mapping == Mapping::InferredI2cOrder
    &&& forall|j: int| 0 <= j < p.len() ==> avail.contains((#[trigger] p[j]).module) && unm.contains(p[j].telemetry)
    &&& forall|a: int, b: int| 0 <= a < b < p.len() ==> ms[(#[trigger] p[a]).module as int].record_index < ms[(#[trigger] p[b]).module as int].record_index
    &&& forall|a: int, b: int| 0 <= a < b < p.len() ==> i2c_rank(ts[(#[trigger] p[a]).telemetry as int].i2c_key->0) < i2c_rank(
        ts[(#[trigger] p[b]).telemetry as int].i2c_key->0,
    )
}

/// The whole pairing. Without modules or devices, every device stays on its
/// own. Otherwise devices are matched by locator; then one leftover device
/// goes to the one leftover module, or the leftovers are paired in order
/// when that is unambiguous; the rest stay on their own.
pub open spec fn plan_of(ms: Seq<ModuleFacts>, ts: Seq<TelemetryFacts>, merges: Seq<TelemetryMerge>, unmatched: Seq<usize>) -> bool {
    if ms.len() == 0 || ts.len() == 0 {
        merges == Seq::<TelemetryMerge>::empty() && unmatched == Seq::new(ts.len(), |i: int| i as usize)
    } else {
        let st = locator_pass(ms, ts, ts.len());
        if st.unmatched.len() == 1 && st.available.len() == 1 {
            &&& merges == st.merges.push(
                TelemetryMerge { telemetry: st.unmatched[0], module: st.available[0], mapping: Mapping::SingleRemainingModule },
            )
            &&& unmatched == Seq::<usize>::empty()
        } else if can_pair_by_i2c(ms, ts, st.available, st.unmatched) {
            &&& merges.len() >= st.merges.len()
            &&& merges.take(st.merges.len() as int) == st.merges
            &&& paired_in_order(merges.skip(st.merges.len() as int), ms, ts, st.available, st.unmatched)
            &&& unmatched == Seq::<usize>::empty()
        } else {
            merges == st.merges && unmatched == st.unmatched
        }
    }
}

fn text_eq(a: &String, b: &String) -> (r: bool)
    ensures
        r == (a@ == b@),
{
    chars_eq(&chars_of(a.as_str()), &chars_of(b.as_str()))
}

fn pairing_possible(ms: &[ModuleFacts], ts: &[TelemetryFacts], avail: &Vec<usize>, unm: &Vec<usize>) -> (r: bool)
    requires
        forall|k: int| 0 <= k < avail@.len() ==> #[trigger] avail@[k] < ms@.len(),
        forall|k: int| 0 <= k < unm@.len() ==> #[trigger] unm@[k] < ts@.len(),
    ensures
        r == can_pair_by_i2c(ms@, ts@, avail@, unm@),
{
    if avail.len() <= 1 || avail.len() != unm.len() {
        return false;
    }
    let n = avail.len();
    let mut a: usize = 0;
    while a < n
        invariant
            n == avail@.len(),
            n == unm@.len(),
            n > 1,
            a <= n,
            forall|k: int| 0 <= k < avail@.len() ==> #[trigger] avail@[k] < ms@.len(),
            forall|k: int| 0 <= k < unm@.len() ==> #[trigger] unm@[k] < ts@.len(),
            forall|x: int, y: int| #![trigger avail@[x], avail@[y]] 0 <= x < a && 0 <= y < n && x != y
                ==> ms@[avail@[x] as int].record_index != ms@[avail@[y] as int].record_index,
            forall|x: int| 0 <= x < a ==> (#[trigger] ms@[avail@[x] as int]).slot_label is Some,
            forall|x: int, y: int| #![trigger avail@[x], avail@[y]] 0 <= x < a && 0 <= y < n && x != y && ms@[avail@[y] as int].slot_label is Some
                ==> ms@[avail@[x] as int].slot_label->0@ != ms@[avail@[y] as int].slot_label->0@,
            forall|x: int| 0 <= x < a ==> (#[trigger] ts@[unm@[x] as int]).i2c_key is Some,
            forall|x: int, y: int| #![trigger unm@[x], unm@[y]] 0 <= x < a && 0 <= y < n && x != y
                ==> ts@[unm@[x] as int].i2c_key != ts@[unm@[y] as int].i2c_key,
        decreases n - a,
    {
        let ma = &ms[avail[a]];
        let la = match &ma.slot_label {
            Some(l) => l,
            None => {
                return false;
            },
        };
        let (ka_bus, ka_address) = match ts[unm[a]].i2c_key {
            Some(k) => k,
            None => {
                return false;
            },
        };
        let mut b: usize = 0;
        while b < n
            invariant
                n == avail@.len(),
                n == unm@.len(),
                a < n,
                b <= n,
                forall|k: int| 0 <= k < avail@.len() ==> #[trigger] avail@[k] < ms@.len(),
                forall|k: int| 0 <= k < unm@.len() ==> #[trigger] unm@[k] < ts@.len(),
                *ma == ms@[avail@[a as int] as int],
                ma.slot_label == Some(*la),
                ts@[unm@[a as int] as int].i2c_key == Some((ka_bus, ka_address)),
                forall|y: int| #![trigger avail@[y]] 0 <= y < b && y != a ==> ms@[avail@[a as int] as int].record_index
                    != ms@[avail@[y] as int].record_index,
                forall|y: int| #![trigger avail@[y]] 0 <= y < b && y != a && ms@[avail@[y] as int].slot_label is Some
                    ==> la@ != ms@[avail@[y] as int].slot_label->0@,
                forall|y: int| #![trigger unm@[y]] 0 <= y < b && y != a ==> Some((ka_bus, ka_address)) != ts@[unm@[y] as int].i2c_key,
            decreases n - b,
        {
            if b != a {
                let mb = &ms[avail[b]];
                if ma.record_index == mb.record_index {
                    return false;
                }
                match &mb.slot_label {
                    Some(lb) => {
                        if text_eq(la, lb) {
                            return false;
                        }
                    },
                    None => {},
                }
                match ts[unm[b]].i2c_key {
                    Some((kb_bus, kb_address)) => {
                        if kb_bus == ka_bus && kb_address == ka_address {
                            return false;
                        }
                    },
                    None => {},
                }
            }
            b += 1;
        }
        a += 1;
    }
    let bus = match ts[unm[0]].i2c_key {
        Some((b, _address)) => b,
        None => {
            return false;
        },
    };
    let mut a: usize = 0;
    let mut driver: Option<&String> = None;
    while a < n
        invariant
            n == unm@.len(),
            n > 1,
            a <= n,
            forall|k: int| 0 <= k < unm@.len() ==> #[trigger] unm@[k] < ts@.len(),
            forall|x: int| 0 <= x < n ==> (#[trigger] ts@[unm@[x] as int]).i2c_key is Some,
            bus_of(ts@[unm@[0] as int]) == bus,
            forall|x: int| 0 <= x < a ==> bus_of(#[trigger] ts@[unm@[x] as int]) == bus,
            driver is None <==> forall|x: int| 0 <= x < a ==> (#[trigger] ts@[unm@[x] as int]).driver is None,
            driver matches Some(d) ==> forall|x: int| 0 <= x < a && (#[trigger] ts@[unm@[x] as int]).driver is Some
                ==> ts@[unm@[x] as int].driver->0@ == d@,
            driver matches Some(d) ==> exists|x: int| 0 <= x < a && (#[trigger] ts@[unm@[x] as int]).driver == Some(*d),
        decreases n - a,
    {
        let t = &ts[unm[a]];
        match t.i2c_key {
            Some((b, _address)) => {
                if b != bus {
                    return false;
                }
            },
            None => {
                return false;
            },
        }
        match &t.driver {
            Some(d) => match driver {
                Some(e) => {
                    if !text_eq(d, e) {
                        proof {
                            let x = choose|x: int| 0 <= x < a && (#[trigger] ts@[unm@[x] as int]).driver == Some(*e);
                            assert(ts@[unm@[a as int] as int].driver is Some);
                        }
                        return false;
                    }
                },
                None => {
                    driver = Some(d);
                },
            },
            None => {},
        }
        a += 1;
    }
    match driver {
        Some(_) => true,
        None => false,
    }
}

/// The positions of `keys` in increasing order of the keys.
fn sorted_positions(keys: &Vec<u64>) -> (r: Vec<usize>)
    requires
        forall|a: int, b: int| 0 <= a < keys@.len() && 0 <= b < keys@.len() && a != b ==> keys@[a] != keys@[b],
    ensures
        r@.len() == keys@.len(),
        forall|j: int| 0 <= j < r@.len() ==> #[trigger] r@[j] < keys@.len(),
        r@.no_duplicates(),
        forall|a: int, b: int| 0 <= a < b < r@.len() ==> keys@[#[trigger] r@[a] as int] < keys@[#[trigger] r@[b] as int],
{
    let mut r: Vec<usize> = Vec::new();
    let mut i: usize = 0;
    while i < keys.len()
        invariant
            i <= keys@.len(),
            forall|a: int, b: int| 0 <= a < keys@.len() && 0 <= b < keys@.len() && a != b ==> keys@[a] != keys@[b],
            r@.len() == i,
            forall|j: int| 0 <= j < r@.len() ==> #[trigger] r@[j] < i,
            r@.no_duplicates(),
            forall|a: int, b: int| 0 <= a < b < r@.len() ==> keys@[#[trigger] r@[a] as int] < keys@[#[trigger] r@[b] as int],
        decreases keys@.len() - i,
    {
        let mut p: usize = 0;
        while p < r.len() && keys[r[p]] < keys[i]
            invariant
                p <= r@.len(),
                r@.len() == i,
                i < keys@.len(),
                forall|j: int| 0 <= j < r@.len() ==> #[trigger] r@[j] < i,
                forall|j: int| 0 <= j < p ==> keys@[#[trigger] r@[j] as int] < keys@[i as int],
            decreases r@.len() - p,
        {
            p += 1;
        }
        let ghost old_r = r@;
        r.insert(p, i);
        proof {
            assert(r@ =~= old_r.insert(p as int, i));
            assert forall|j: int| 0 <= j < r@.len() implies #[trigger] r@[j] < i + 1 by {
                if j < p {
                    assert(r@[j] == old_r[j]);
                } else if j > p {
                    assert(r@[j] == old_r[j - 1]);
                }
            }
            assert forall|a: int, b: int| 0 <= a < r@.len() && 0 <= b < r@.len() && a != b implies r@[a] != r@[b] by {
                if a == p {
                    if b < p {
                        assert(r@[b] == old_r[b]);
                    } else {
                        assert(r@[b] == old_r[b - 1]);
                    }
                } else if b == p {
                    if a < p {
                        assert(r@[a] == old_r[a]);
                    } else {
                        assert(r@[a] == old_r[a - 1]);
                    }
                } else {
                    let oa = if a < p { a } else { a - 1 };
                    let ob = if b < p { b } else { b - 1 };
                    assert(r@[a] == old_r[oa] && r@[b] == old_r[ob]);
                }
            }
            assert forall|a: int, b: int| 0 <= a < b < r@.len() implies keys@[#[trigger] r@[a] as int] < keys@[#[trigger] r@[b] as int] by {
                if b < p {
                    assert(r@[a] == old_r[a] && r@[b] == old_r[b]);
                } else if b == p {
                    assert(r@[a] == old_r[a]);
                } else if a == p {
                    assert(r@[b] == old_r[b - 1]);
                    assert(!(keys@[old_r[p as int] as int] < keys@[i as int]));
                    assert(old_r[p as int] != i);
                    if b - 1 > p {
                        assert(keys@[old_r[p as int] as int] < keys@[old_r[b - 1] as int]);
                    }
                } else if a < p {
                    assert(r@[a] == old_r[a] && r@[b] == old_r[b - 1]);
                } else {
                    assert(r@[a] == old_r[a - 1] && r@[b] == old_r[b - 1]);
                }
            }
        }
        i += 1;
    }
    r
}

/// Decides which telemetry devices merge into which modules.
pub fn plan_memory_telemetry(ms: &[ModuleFacts], ts: &[TelemetryFacts]) -> (r: TelemetryPlan)
    ensures
        plan_of(ms@, ts@, r.merges@, r.unmatched@),
{
    if ms.len() == 0 || ts.len() == 0 {
        let mut all: Vec<usize> = Vec::new();
        let mut i: usize = 0;
        while i < ts.len()
            invariant
                i <= ts@.len(),
                all@ == Seq::new(i as nat, |k: int| k as usize),
            decreases ts@.len() - i,
        {
            all.push(i);
            assert(all@ =~= Seq::new((i + 1) as nat, |k: int| k as usize));
            i += 1;
        }
        let none: Vec<TelemetryMerge> = Vec::new();
        assert(none@ =~= Seq::<TelemetryMerge>::empty());
        return TelemetryPlan { merges: none, unmatched: all };
    }
    let (avail, mut merges, unm) = locator_pass_of(ms, ts);
    let ghost st = locator_pass(ms@, ts@, ts@.len() as nat);
    if unm.len() == 1 && avail.len() == 1 {
        merges.push(TelemetryMerge { telemetry: unm[0], module: avail[0], mapping: Mapping::SingleRemainingModule });
        let none: Vec<usize> = Vec::new();
        assert(none@ =~= Seq::<usize>::empty());
        return TelemetryPlan { merges, unmatched: none };
    }
    if !pairing_possible(ms, ts, &avail, &unm) {
        return TelemetryPlan { merges, unmatched: unm };
    }
    let n = avail.len();
    let mut record_keys: Vec<u64> = Vec::new();
    let mut i2c_keys: Vec<u64> = Vec::new();
    let mut i: usize = 0;
    while i < n
        invariant
            n == avail@.len(),
            n == unm@.len(),
            i <= n,
            can_pair_by_i2c(ms@, ts@, avail@, unm@),
            pass_sound(st, ms@.len() as nat, ts@.len() as nat),
            avail@ == st.available,
            unm@ == st.unmatched,
            record_keys@.len() == i,
            i2c_keys@.len() == i,
            forall|j: int| 0 <= j < i ==> #[trigger] record_keys@[j] == ms@[avail@[j] as int].record_index,
            forall|j: int| 0 <= j < i ==> #[trigger] i2c_keys@[j] == i2c_rank(ts@[unm@[j] as int].i2c_key->0),
        decreases n - i,
    {
        record_keys.push(ms[avail[i]].record_index);
        assert((ts@[unm@[i as int] as int]).i2c_key is Some);
        let (bus, address) = match ts[unm[i]].i2c_key {
            Some(k) => k,
            None => (0, 0),
        };
        i2c_keys.push(bus as u64 * 65536 + address as u64);
        i += 1;
    }
    proof {
        assert forall|a: int, b: int| 0 <= a < i2c_keys@.len() && 0 <= b < i2c_keys@.len() && a != b implies i2c_keys@[a]
            != i2c_keys@[b] by {
            let ka = ts@[unm@[a] as int].i2c_key->0;
            let kb = ts@[unm@[b] as int].i2c_key->0;
            assert(ts@[unm@[a] as int].i2c_key != ts@[unm@[b] as int].i2c_key);
            assert(ka != kb);
            let (ba, aa) = ka;
            let (bb, ab) = kb;
            if ba == bb {
                assert(aa != ab);
            } else if ba < bb {
                assert(ba * 65536 + aa < bb * 65536 + ab) by (nonlinear_arith)
                    requires
                        ba < bb,
                        aa < 65536,
                ;
            } else {
                assert(bb * 65536 + ab < ba * 65536 + aa) by (nonlinear_arith)
                    requires
                        bb < ba,
                        ab < 65536,
                ;
            }
        }
    }
    let modules_in_order = sorted_positions(&record_keys);
    let devices_in_order = sorted_positions(&i2c_keys);
    let ghost base = merges@;
    let mut j: usize = 0;
    while j < n
        invariant
            n == avail@.len(),
            n == unm@.len(),
            j <= n,
            modules_in_order@.len() == n,
            devices_in_order@.len() == n,
            forall|k: int| 0 <= k < n ==> #[trigger] modules_in_order@[k] < n,
            forall|k: int| 0 <= k < n ==> #[trigger] devices_in_order@[k] < n,
            merges@.len() == base.len() + j,
            merges@.take(base.len() as int) == base,
            forall|k: int| 0 <= k < j ==> #[trigger] merges@[base.len() + k] == (TelemetryMerge {
                telemetry: unm@[devices_in_order@[k] as int],
                module: avail@[modules_in_order@[k] as int],
                mapping: Mapping::InferredI2cOrder,
            }),
        decreases n - j,
    {
        let ghost before = merges@;
        merges.push(TelemetryMerge { telemetry: unm[devices_in_order[j]], module: avail[modules_in_order[j]], mapping: Mapping::InferredI2cOrder });
        assert(merges@.take(base.len() as int) =~= before.take(base.len() as int));
        j += 1;
    }
    proof {
        let p = merges@.skip(base.len() as int);
        assert forall|k: int| 0 <= k < p.len() implies #[trigger] p[k] == (TelemetryMerge {
            telemetry: unm@[devices_in_order@[k] as int],
            module: avail@[modules_in_order@[k] as int],
            mapping: Mapping::InferredI2cOrder,
        }) by {
            assert(p[k] == merges@[base.len() + k]);
        }
        assert forall|k: int| 0 <= k < p.len() implies avail@.contains((#[trigger] p[k]).module) && unm@.contains(p[k].telemetry) by {
            assert(avail@[modules_in_order@[k] as int] == p[k].module);
            assert(unm@[devices_in_order@[k] as int] == p[k].telemetry);
        }
        assert forall|a: int, b: int| 0 <= a < b < p.len() implies ms@[(#[trigger] p[a]).module as int].record_index
            < ms@[(#[trigger] p[b]).module as int].record_index by {
            assert(record_keys@[modules_in_order@[a] as int] < record_keys@[modules_in_order@[b] as int]);
        }
        assert forall|a: int, b: int| 0 <= a < b < p.len() implies i2c_rank(ts@[(#[trigger] p[a]).telemetry as int].i2c_key->0)
            < i2c_rank(ts@[(#[trigger] p[b]).telemetry as int].i2c_key->0) by {
            assert(i2c_keys@[devices_in_order@[a] as int] < i2c_keys@[devices_in_order@[b] as int]);
        }
    }
    let none: Vec<usize> = Vec::new();
    assert(none@ =~= Seq::<usize>::empty());
    TelemetryPlan { merges, unmatched: none }
}

/// What matching by locator keeps: the merges name distinct devices below
/// `n` and distinct modules, none still available; every device below `n`
/// is merged or unmatched, never both.
pub open spec fn pass_accounts(st: LocatorPass, module_count: nat, n: nat) -> bool {
    &&& pass_sound(st, module_count, n)
    &&& forall|j: int| 0 <= j < st.merges.len() ==> (#[trigger] st.merges[j]).telemetry < n && st.merges[j].module < module_count
    &&& forall|a: int, b: int| 0 <= a < st.merges.len() && 0 <= b < st.merges.len() && a != b ==> (#[trigger] st.merges[a]).telemetry
        != (#[trigger] st.merges[b]).telemetry && st.merges[a].module != st.merges[b].module
    &&& forall|j: int, k: int| 0 <= j < st.merges.len() && 0 <= k < st.available.len() ==> (#[trigger] st.merges[j]).module
        != #[trigger] st.available[k]
    &&& forall|j: int, k: int| 0 <= j < st.merges.len() && 0 <= k < st.unmatched.len() ==> (#[trigger] st.merges[j]).telemetry
        != #[trigger] st.unmatched[k]
    &&& forall|t: int| #![trigger st.unmatched.contains(t as usize)] 0 <= t < n ==> (exists|j: int| 0 <= j < st.merges.len()
        && (#[trigger] st.merges[j]).telemetry == t) || st.unmatched.contains(t as usize)
    &&& forall|m: int| #![trigger st.available.contains(m as usize)] 0 <= m < module_count ==> (exists|j: int| 0 <= j
        < st.merges.len() && (#[trigger] st.merges[j]).module == m) || st.available.contains(m as usize)
}

proof fn lemma_pass_accounts(ms: Seq<ModuleFacts>, ts: Seq<TelemetryFacts>, n: nat)
    requires
        n <= ts.len(),
        ms.len() <= usize::MAX,
        ts.len() <= usize::MAX,
    ensures
        pass_accounts(locator_pass(ms, ts, n), ms.len(), n),
    decreases n,
{
    let st = locator_pass(ms, ts, n);
    if n == 0 {
        let a = st.available;
        assert forall|m: int| #![trigger a.contains(m as usize)] 0 <= m < ms.len() implies a.contains(m as usize) by {
            assert(a[m] == m as usize);
        }
        assert forall|x: int, y: int| 0 <= x < a.len() && 0 <= y < a.len() && x != y implies a[x] != a[y] by {
            assert(a[x] == x as usize && a[y] == y as usize);
        }
    } else {
        lemma_pass_accounts(ms, ts, (n - 1) as nat);
        let prev = locator_pass(ms, ts, (n - 1) as nat);
        let c = matching(ms, prev.available, ts[n - 1], prev.available.len());
        lemma_matching_from(ms, prev.available, ts[n - 1], prev.available.len());
        if c.len() == 1 {
            let x = c[0];
            assert(c[0] == x);
            assert(prev.available.contains(x));
            lemma_without_from(prev.available, x, prev.available.len());
            lemma_without_distinct(prev.available, x, prev.available.len());
            let nm = TelemetryMerge { telemetry: (n - 1) as usize, module: x, mapping: Mapping::FirmwareLocator };
            assert(st.merges == prev.merges.push(nm));
            assert(st.available == without(prev.available, x, prev.available.len()));
            assert(st.unmatched == prev.unmatched);
            let xi = choose|i: int| 0 <= i < prev.available.len() && prev.available[i] == x;
            assert forall|j: int| 0 <= j < st.merges.len() implies (#[trigger] st.merges[j]).telemetry < n
                && st.merges[j].module < ms.len() by {
                if j < prev.merges.len() {
                    assert(st.merges[j] == prev.merges[j]);
                }
            }
            assert forall|a: int, b: int| 0 <= a < st.merges.len() && 0 <= b < st.merges.len() && a != b implies (
            #[trigger] st.merges[a]).telemetry != (#[trigger] st.merges[b]).telemetry && st.merges[a].module
                != st.merges[b].module by {
                if a < prev.merges.len() && b < prev.merges.len() {
                    assert(st.merges[a] == prev.merges[a] && st.merges[b] == prev.merges[b]);
                } else if a < prev.merges.len() {
                    assert(st.merges[a] == prev.merges[a]);
                    assert(prev.merges[a].module != prev.available[xi]);
                } else {
                    assert(st.merges[b] == prev.merges[b]);
                    assert(prev.merges[b].module != prev.available[xi]);
                }
            }
            assert forall|j: int, k: int| 0 <= j < st.merges.len() && 0 <= k < st.available.len() implies (
            #[trigger] st.merges[j]).module != #[trigger] st.available[k] by {
                assert(prev.available.contains(st.available[k]));
                let t = choose|t: int| 0 <= t < prev.available.len() && prev.available[t] == st.available[k];
                if j < prev.merges.len() {
                    assert(st.merges[j] == prev.merges[j]);
                    assert(prev.merges[j].module != prev.available[t]);
                }
            }
            assert forall|j: int, k: int| 0 <= j < st.merges.len() && 0 <= k < st.unmatched.len() implies (
            #[trigger] st.merges[j]).telemetry != #[trigger] st.unmatched[k] by {
                if j < prev.merges.len() {
                    assert(st.merges[j] == prev.merges[j]);
                }
            }
            assert forall|t: int| #![trigger st.unmatched.contains(t as usize)] 0 <= t < n implies (exists|j: int| 0 <= j
                < st.merges.len() && (#[trigger] st.merges[j]).telemetry == t) || st.unmatched.contains(t as usize) by {
                if t == n - 1 {
                    assert(st.merges[prev.merges.len() as int].telemetry == t);
                } else if !prev.unmatched.contains(t as usize) {
                    let j = choose|j: int| 0 <= j < prev.merges.len() && (#[trigger] prev.merges[j]).telemetry == t;
                    assert(st.merges[j] == prev.merges[j]);
                }
            }
            assert forall|m: int| #![trigger st.available.contains(m as usize)] 0 <= m < ms.len() implies (exists|j: int|
                0 <= j < st.merges.len() && (#[trigger] st.merges[j]).module == m) || st.available.contains(m as usize) by {
                if m as usize == x {
                    assert(st.merges[prev.merges.len() as int].module == m);
                } else if prev.available.contains(m as usize) {
                    let t = choose|t: int| 0 <= t < prev.available.len() && prev.available[t] == m as usize;
                    lemma_without_keeps(prev.available, x, prev.available.len(), t);
                } else {
                    let j = choose|j: int| 0 <= j < prev.merges.len() && (#[trigger] prev.merges[j]).module == m;
                    assert(st.merges[j] == prev.merges[j]);
                }
            }
        } else {
            let u = st.unmatched;
            assert(u == prev.unmatched.push((n - 1) as usize));
            assert forall|a: int, b: int| 0 <= a < u.len() && 0 <= b < u.len() && a != b implies u[a] != u[b] by {
                if a < prev.unmatched.len() && b < prev.unmatched.len() {
                    assert(u[a] == prev.unmatched[a] && u[b] == prev.unmatched[b]);
                } else if a < prev.unmatched.len() {
                    assert(u[a] == prev.unmatched[a]);
                } else {
                    assert(u[b] == prev.unmatched[b]);
                }
            }
            assert forall|k: int| 0 <= k < u.len() implies #[trigger] u[k] < n by {
                if k < prev.unmatched.len() {
                    assert(u[k] == prev.unmatched[k]);
                }
            }
            assert forall|j: int, k: int| 0 <= j < st.merges.len() && 0 <= k < u.len() implies (
            #[trigger] st.merges[j]).telemetry != #[trigger] u[k] by {
                if k < prev.unmatched.len() {
                    assert(u[k] == prev.unmatched[k]);
                }
            }
            assert forall|t: int| #![trigger u.contains(t as usize)] 0 <= t < n implies (exists|j: int| 0 <= j
                < st.merges.len() && (#[trigger] st.merges[j]).telemetry == t) || u.contains(t as usize) by {
                if t == n - 1 {
                    assert(u[prev.unmatched.len() as int] == t as usize);
                } else if prev.unmatched.contains(t as usize) {
                    let k = choose|k: int| 0 <= k < prev.unmatched.len() && prev.unmatched[k] == t as usize;
                    assert(u[k] == t as usize);
                }
            }
        }
    }
}

proof fn lemma_without_keeps(s: Seq<usize>, x: usize, n: nat, t: int)
    requires
        n <= s.len(),
        0 <= t < n,
        s[t] != x,
    ensures
        without(s, x, n).contains(s[t]),
    decreases n,
{
    if t == n - 1 {
        assert(without(s, x, n)[without(s, x, (n - 1) as nat).len() as int] == s[t]);
    } else {
        lemma_without_keeps(s, x, (n - 1) as nat, t);
        let w = without(s, x, (n - 1) as nat);
        let k = choose|k: int| 0 <= k < w.len() && w[k] == s[t];
        if s[n - 1] != x {
            assert(w.push(s[n - 1])[k] == s[t]);
        }
    }
}

/// Every telemetry device ends up merged into exactly one module or left on
/// its own, never both; no module receives two devices.
pub proof fn law_each_device_placed_once(
    ms: Seq<ModuleFacts>,
    ts: Seq<TelemetryFacts>,
    merges: Seq<TelemetryMerge>,
    unmatched: Seq<usize>,
)
    requires
        ms.len() <= usize::MAX,
        ts.len() <= usize::MAX,
        plan_of(ms, ts, merges, unmatched),
    ensures
        forall|t: int| #![trigger unmatched.contains(t as usize)] 0 <= t < ts.len() ==> ((exists|j: int| 0 <= j < merges.len()
            && (#[trigger] merges[j]).telemetry == t) <==> !unmatched.contains(t as usize)),
        forall|j: int| 0 <= j < merges.len() ==> (#[trigger] merges[j]).telemetry < ts.len() && merges[j].module < ms.len(),
        forall|a: int, b: int| 0 <= a < merges.len() && 0 <= b < merges.len() && a != b ==> (#[trigger] merges[a]).telemetry
            != (#[trigger] merges[b]).telemetry && merges[a].module != merges[b].module,
        forall|k: int| 0 <= k < unmatched.len() ==> #[trigger] unmatched[k] < ts.len(),
        unmatched.no_duplicates(),
{
    if ms.len() == 0 || ts.len() == 0 {
        assert forall|t: int| #![trigger unmatched.contains(t as usize)] 0 <= t < ts.len() implies unmatched.contains(t as usize) by {
            assert(unmatched[t] == t as usize);
        }
        assert forall|a: int, b: int| 0 <= a < unmatched.len() && 0 <= b < unmatched.len() && a != b implies unmatched[a] != unmatched[b] by {
            assert(unmatched[a] == a as usize && unmatched[b] == b as usize);
        }
        return;
    }
    lemma_pass_accounts(ms, ts, ts.len());
    let st = locator_pass(ms, ts, ts.len());
    if st.unmatched.len() == 1 && st.available.len() == 1 {
        let u0 = st.unmatched[0];
        let a0 = st.available[0];
        assert(merges == st.merges.push(TelemetryMerge { telemetry: u0, module: a0, mapping: Mapping::SingleRemainingModule }));
        assert forall|j: int| 0 <= j < merges.len() implies (#[trigger] merges[j]).telemetry < ts.len() && merges[j].module < ms.len() by {
            if j < st.merges.len() {
                assert(merges[j] == st.merges[j]);
            }
        }
        assert forall|a: int, b: int| 0 <= a < merges.len() && 0 <= b < merges.len() && a != b implies (#[trigger] merges[a]).telemetry
            != (#[trigger] merges[b]).telemetry && merges[a].module != merges[b].module by {
            if a < st.merges.len() && b < st.merges.len() {
                assert(merges[a] == st.merges[a] && merges[b] == st.merges[b]);
            } else if a < st.merges.len() {
                assert(merges[a] == st.merges[a]);
                assert(st.merges[a].telemetry != st.unmatched[0]);
                assert(st.merges[a].module != st.available[0]);
            } else {
                assert(merges[b] == st.merges[b]);
                assert(st.merges[b].telemetry != st.unmatched[0]);
                assert(st.merges[b].module != st.available[0]);
            }
        }
        assert forall|t: int| #![trigger unmatched.contains(t as usize)] 0 <= t < ts.len() implies (exists|j: int| 0 <= j < merges.len()
            && (#[trigger] merges[j]).telemetry == t) by {
            if st.unmatched.contains(t as usize) {
                assert(merges[st.merges.len() as int].telemetry == t);
            } else {
                let j = choose|j: int| 0 <= j < st.merges.len() && (#[trigger] st.merges[j]).telemetry == t;
                assert(merges[j] == st.merges[j]);
            }
        }
    } else if can_pair_by_i2c(ms, ts, st.available, st.unmatched) {
        let base = st.merges.len();
        let p = merges.skip(base as int);
        assert forall|k: int| 0 <= k < base implies #[trigger] merges[k] == st.merges[k] by {
            assert(merges.take(base as int)[k] == merges[k]);
        }
        assert forall|k: int| 0 <= k < p.len() implies #[trigger] merges[base + k] == p[k] by {}
        // The paired devices and modules are distinct.
        assert forall|a: int, b: int| 0 <= a < p.len() && 0 <= b < p.len() && a != b implies (#[trigger] p[a]).telemetry
            != (#[trigger] p[b]).telemetry && p[a].module != p[b].module by {
            if a < b {
                assert(ms[p[a].module as int].record_index < ms[p[b].module as int].record_index);
                assert(i2c_rank(ts[p[a].telemetry as int].i2c_key->0) < i2c_rank(ts[p[b].telemetry as int].i2c_key->0));
            } else {
                assert(ms[p[b].module as int].record_index < ms[p[a].module as int].record_index);
                assert(i2c_rank(ts[p[b].telemetry as int].i2c_key->0) < i2c_rank(ts[p[a].telemetry as int].i2c_key->0));
            }
        }
        // Each leftover device is paired: the paired devices are as many as
        // the leftovers, distinct, and all leftovers.
        let tel = p.map_values(|m: TelemetryMerge| m.telemetry);
        assert(tel.no_duplicates()) by {
            assert forall|a: int, b: int| 0 <= a < tel.len() && 0 <= b < tel.len() && a != b implies tel[a] != tel[b] by {
                assert(tel[a] == p[a].telemetry && tel[b] == p[b].telemetry);
            }
        }
        assert(tel.to_set().subset_of(st.unmatched.to_set())) by {
            assert forall|x: usize| tel.to_set().contains(x) implies st.unmatched.to_set().contains(x) by {
                let k = choose|k: int| 0 <= k < tel.len() && tel[k] == x;
                assert(p[k].telemetry == x);
            }
        }
        tel.unique_seq_to_set();
        st.unmatched.unique_seq_to_set();
        vstd::set_lib::lemma_subset_equality(tel.to_set(), st.unmatched.to_set());
        assert forall|j: int| 0 <= j < merges.len() implies (#[trigger] merges[j]).telemetry < ts.len() && merges[j].module < ms.len() by {
            if j < base {
                assert(merges[j] == st.merges[j]);
            } else {
                assert(merges[j] == p[j - base]);
                let mi = choose|i: int| 0 <= i < st.available.len() && st.available[i] == p[j - base].module;
                let ti = choose|i: int| 0 <= i < st.unmatched.len() && st.unmatched[i] == p[j - base].telemetry;
            }
        }
        assert forall|a: int, b: int| 0 <= a < merges.len() && 0 <= b < merges.len() && a != b implies (#[trigger] merges[a]).telemetry
            != (#[trigger] merges[b]).telemetry && merges[a].module != merges[b].module by {
            if a < base && b < base {
                assert(merges[a] == st.merges[a] && merges[b] == st.merges[b]);
            } else if a >= base && b >= base {
                assert(merges[a] == p[a - base] && merges[b] == p[b - base]);
            } else {
                let (o, q) = if a < base { (a, b) } else { (b, a) };
                assert(merges[o] == st.merges[o]);
                assert(merges[q] == p[q - base]);
                let mi = choose|i: int| 0 <= i < st.available.len() && st.available[i] == p[q - base].module;
                let ti = choose|i: int| 0 <= i < st.unmatched.len() && st.unmatched[i] == p[q - base].telemetry;
                assert(st.merges[o].module != st.available[mi]);
                assert(st.merges[o].telemetry != st.unmatched[ti]);
            }
        }
        assert forall|t: int| #![trigger unmatched.contains(t as usize)] 0 <= t < ts.len() implies (exists|j: int| 0 <= j < merges.len()
            && (#[trigger] merges[j]).telemetry == t) by {
            if st.unmatched.contains(t as usize) {
                assert(tel.to_set().contains(t as usize));
                let k = choose|k: int| 0 <= k < tel.len() && tel[k] == t as usize;
                assert(merges[base + k] == p[k]);
                assert(merges[base + k].telemetry == t);
            } else {
                let j = choose|j: int| 0 <= j < st.merges.len() && (#[trigger] st.merges[j]).telemetry == t;
                assert(merges[j] == st.merges[j]);
            }
        }
    } else {
        assert forall|t: int| #![trigger unmatched.contains(t as usize)] 0 <= t < ts.len() implies ((exists|j: int| 0 <= j < merges.len()
            && (#[trigger] merges[j]).telemetry == t) <==> !unmatched.contains(t as usize)) by {
            if unmatched.contains(t as usize) {
                let k = choose|k: int| 0 <= k < unmatched.len() && unmatched[k] == t as usize;
                if exists|j: int| 0 <= j < merges.len() && (#[trigger] merges[j]).telemetry == t {
                    let j = choose|j: int| 0 <= j < merges.len() && (#[trigger] merges[j]).telemetry == t;
                    assert(st.merges[j].telemetry != st.unmatched[k]);
                }
            }
        }
    }
}

} // verus!
