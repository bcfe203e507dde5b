//! `/proc/cpuinfo` records, CPU topology counts, frequency-policy owners and
//! the CPU time counters of `/proc/stat`.
use vstd::prelude::*;
use crate::collect::cpulist::{cpu_list, lists_set, parse_cpu_list_with};
use crate::text::{
    append_chars, append_str, chars_eq, chars_eq_str, chars_of, decimal, decimal_chars, lines,
    lines_of, lower_seq, opt_view, parse_unsigned, parse_unsigned_chars, split_once,
    split_once_chars, split_seq, split_seq_chars, starts_with_str, string_of, strip_prefix,
    to_lower, trim, trim_chars, trim_start_seq, trim_start_seq_chars, views, words, words_of,
};

verus! {

/// The CPUs of a CPU list separated by commas or ASCII whitespace, in
/// increasing order without repeats.
pub fn parse_cpu_list(value: &str) -> (r: Vec<u32>)
    ensures
        lists_set(r@, cpu_list(value@, true)),
{
    parse_cpu_list_with(value, true)
}

// ---------------------------------------------------------------------------
// `/proc/cpuinfo`
// ---------------------------------------------------------------------------
/// The `key: value` entries of one section, keys trimmed and ASCII
/// lower-cased and values trimmed, in line order.
pub open spec fn section_entries(ls: Seq<Seq<char>>) -> Seq<(Seq<char>, Seq<char>)>
    decreases ls.len(),
{
    if ls.len() == 0 {
        Seq::empty()
    } else {
        match split_once(ls.last(), ':') {
            Some((k, v)) => section_entries(ls.drop_last()).push((lower_seq(trim(k)), trim(v))),
            None => section_entries(ls.drop_last()),
        }
    }
}

/// The records of the sections that hold at least one entry.
pub open spec fn section_records(sections: Seq<Seq<char>>) -> Seq<Seq<(Seq<char>, Seq<char>)>>
    decreases sections.len(),
{
    if sections.len() == 0 {
        Seq::empty()
    } else {
        let e = section_entries(lines(sections.last()));
        if e.len() > 0 {
            section_records(sections.drop_last()).push(e)
        } else {
            section_records(sections.drop_last())
        }
    }
}

/// The records of `/proc/cpuinfo`: sections separated by blank lines.
pub open spec fn cpuinfo_records(content: Seq<char>) -> Seq<Seq<(Seq<char>, Seq<char>)>> {
    section_records(split_seq(content, "\n\n"@))
}

/// The value of the last entry with `key`: later entries replace earlier ones.
pub open spec fn entry_value(entries: Seq<(Seq<char>, Seq<char>)>, key: Seq<char>) -> Option<Seq<char>>
    decreases entries.len(),
{
    if entries.len() == 0 {
        None
    } else if entries.last().0 == key {
        Some(entries.last().1)
    } else {
        entry_value(entries.drop_last(), key)
    }
}

/// One `/proc/cpuinfo` record.
pub struct CpuInfoRecord {
    entries: Vec<(String, String)>,
}

pub open spec fn pair_views(v: Seq<(String, String)>) -> Seq<(Seq<char>, Seq<char>)> {
    v.map_values(|p: (String, String)| (p.0@, p.1@))
}

impl View for CpuInfoRecord {
    type V = Seq<(Seq<char>, Seq<char>)>;

    closed spec fn view(&self) -> Seq<(Seq<char>, Seq<char>)> {
        pair_views(self.entries@)
    }
}

impl CpuInfoRecord {
    /// The value recorded for `key`.
    pub fn get(&self, key: &str) -> (r: Option<String>)
        ensures
            opt_view(r) == entry_value(self@, key@),
    {
        let k = chars_of(key);
        let ghost all = self@;
        let mut i = self.entries.len();
        assert(all.take(i as int) =~= all);
        while i > 0
            invariant
                i <= self.entries@.len(),
                k@ == key@,
                all == pair_views(self.entries@),
                entry_value(all, key@) == entry_value(all.take(i as int), key@),
            decreases i,
        {
            proof {
                assert(all.take(i as int).drop_last() =~= all.take(i - 1));
                assert(all.take(i as int).last() == all[i - 1]);
                assert(all[i - 1] == (self.entries@[i - 1].0@, self.entries@[i - 1].1@));
            }
            let ec = chars_of(self.entries[i - 1].0.as_str());
            if chars_eq(&ec, &k) {
                assert(all[i - 1].0 == key@);
                return Some(self.entries[i - 1].1.clone());
            }
            i -= 1;
        }
        None
    }
}

pub open spec fn record_views(v: Seq<CpuInfoRecord>) -> Seq<Seq<(Seq<char>, Seq<char>)>> {
    v.map_values(|r: CpuInfoRecord| r@)
}

fn section_record(section: &[char]) -> (r: CpuInfoRecord)
    ensures
        r@ == section_entries(lines(section@)),
{
    let ls = lines_of(section);
    let mut entries: Vec<(String, String)> = Vec::new();
    let mut i: usize = 0;
    while i < ls.len()
        invariant
            i <= ls@.len(),
            views(ls@) == lines(section@),
            pair_views(entries@) == section_entries(lines(section@).take(i as int)),
        decreases ls.len() - i,
    {
        proof {
            assert(lines(section@).take(i + 1).drop_last() =~= lines(section@).take(i as int));
            assert(lines(section@)[i as int] == ls@[i as int]@);
        }
        match split_once_chars(&ls[i], ':') {
            Some((k, v)) => {
                let key = to_lower(&trim_chars(&k));
                let value = trim_chars(&v);
                let e = (string_of(&key), string_of(&value));
                entries.push(e);
                assert(pair_views(entries@) =~= pair_views(entries@.drop_last()).push((e.0@, e.1@)));
            },
            None => {},
        }
        i += 1;
    }
    assert(lines(section@).take(ls.len() as int) =~= lines(section@));
    CpuInfoRecord { entries }
}

/// Splits `/proc/cpuinfo` into records.
pub fn parse_cpuinfo(content: &str) -> (r: Vec<CpuInfoRecord>)
    ensures
        record_views(r@) == cpuinfo_records(content@),
{
    let c = chars_of(content);
    let sep = chars_of("\n\n");
    proof {
        reveal_strlit("\n\n");
    }
    let sections = split_seq_chars(&c, &sep);
    let ghost ss = split_seq(content@, "\n\n"@);
    let mut r: Vec<CpuInfoRecord> = Vec::new();
    let mut i: usize = 0;
    while i < sections.len()
        invariant
            i <= sections@.len(),
            views(sections@) == ss,
            ss == split_seq(content@, "\n\n"@),
            record_views(r@) == section_records(ss.take(i as int)),
        decreases sections.len() - i,
    {
        proof {
            assert(ss.take(i + 1).drop_last() =~= ss.take(i as int));
            assert(ss[i as int] == sections@[i as int]@);
        }
        let rec = section_record(&sections[i]);
        if rec.entries.len() > 0 {
            let ghost v = rec@;
            r.push(rec);
            assert(record_views(r@) =~= record_views(r@.drop_last()).push(v));
        }
        i += 1;
    }
    assert(ss.take(sections.len() as int) =~= ss);
    r
}

// ---------------------------------------------------------------------------
// Topology
// ---------------------------------------------------------------------------
#[derive(Debug, Clone, Copy, PartialEq, Eq)]
pub struct CpuTopology {
    pub threads: u64,
    pub cores: u64,
    pub sockets: u64,
}

/// Topology counts of logical CPUs given as (package, core) pairs: one
/// thread per CPU, one core per distinct pair, one socket per distinct
/// package (at least one).
pub open spec fn topology_counts(pairs: Seq<(Seq<char>, Seq<char>)>) -> (nat, nat, nat) {
    let packages = pairs.map_values(|p: (Seq<char>, Seq<char>)| p.0).to_set().len();
    (pairs.len(), pairs.to_set().len(), if packages > 1 { packages } else { 1 })
}

pub open spec fn vpairs(v: Seq<(Vec<char>, Vec<char>)>) -> Seq<(Seq<char>, Seq<char>)> {
    v.map_values(|p: (Vec<char>, Vec<char>)| (p.0@, p.1@))
}

fn pair_listed(seen: &Vec<(Vec<char>, Vec<char>)>, a: &[char], b: &[char]) -> (r: bool)
    ensures
        r == vpairs(seen@).contains((a@, b@)),
{
    let ghost sv = vpairs(seen@);
    let mut i: usize = 0;
    while i < seen.len()
        invariant
            i <= seen@.len(),
            sv == vpairs(seen@),
            forall|j: int| 0 <= j < i ==> sv[j] != (a@, b@),
        decreases seen.len() - i,
    {
        if chars_eq(&seen[i].0, a) && chars_eq(&seen[i].1, b) {
            assert(sv[i as int] == (a@, b@));
            return true;
        }
        i += 1;
    }
    false
}

/// Number of distinct pairs.
fn distinct_pairs(keys: &Vec<(Vec<char>, Vec<char>)>) -> (r: usize)
    ensures
        r == vpairs(keys@).to_set().len(),
{
    let ghost kv = vpairs(keys@);
    let mut seen: Vec<(Vec<char>, Vec<char>)> = Vec::new();
    let mut i: usize = 0;
    while i < keys.len()
        invariant
            i <= keys@.len(),
            kv == vpairs(keys@),
            vpairs(seen@).no_duplicates(),
            seen@.len() <= i,
            forall|x: (Seq<char>, Seq<char>)| #[trigger] vpairs(seen@).contains(x) <==> kv.take(i as int).contains(x),
        decreases keys.len() - i,
    {
        let ghost sv = vpairs(seen@);
        let ghost t0 = kv.take(i as int);
        let ghost t1 = kv.take(i + 1);
        proof {
            assert forall|x: (Seq<char>, Seq<char>)| #[trigger] sv.contains(x) <==> t0.contains(x) by {
                assert(vpairs(seen@).contains(x) <==> kv.take(i as int).contains(x));
            }
        }
        let listed = pair_listed(&seen, &keys[i].0, &keys[i].1);
        proof {
            assert(kv[i as int] == (keys@[i as int].0@, keys@[i as int].1@));
            assert(t1 =~= t0.push(kv[i as int]));
        }
        if !listed {
            let a = crate::text::slice_chars(&keys[i].0, 0, keys[i].0.len());
            let b = crate::text::slice_chars(&keys[i].1, 0, keys[i].1.len());
            proof {
                assert(a@ =~= keys@[i as int].0@);
                assert(b@ =~= keys@[i as int].1@);
            }
            seen.push((a, b));
            proof {
                let nv = vpairs(seen@);
                assert(nv =~= sv.push(kv[i as int]));
            }
        } else {
            proof {
                assert forall|x: (Seq<char>, Seq<char>)| #[trigger] sv.contains(x) <==> t1.contains(x) by {
                    if t1.contains(x) {
                        let j = choose|j: int| 0 <= j < i + 1 && t1[j] == x;
                        if j < i {
                            assert(t0[j] == x);
                        }
                    }
                    if sv.contains(x) {
                        assert(t0.contains(x));
                        let j = choose|j: int| 0 <= j < i && t0[j] == x;
                        assert(t1[j] == x);
                    }
                }
            }
        }
        proof {
            let nv = vpairs(seen@);
            if !listed {
                assert forall|x: (Seq<char>, Seq<char>)| #[trigger] nv.contains(x) <==> t1.contains(x) by {
                    if t1.contains(x) {
                        let j = choose|j: int| 0 <= j < i + 1 && t1[j] == x;
                        if j < i {
                            assert(t0[j] == x);
                            assert(sv.contains(x));
                            let k = choose|k: int| 0 <= k < sv.len() && sv[k] == x;
                            assert(nv[k] == x);
                        } else {
                            assert(nv[nv.len() - 1] == x);
                        }
                    }
                    if nv.contains(x) {
                        let k = choose|k: int| 0 <= k < nv.len() && nv[k] == x;
                        if k < sv.len() {
                            assert(sv[k] == x);
                            assert(sv.contains(x));
                            assert(t0.contains(x));
                            let j = choose|j: int| 0 <= j < i && t0[j] == x;
                            assert(t1[j] == x);
                        } else {
                            assert(t1[i as int] == x);
                        }
                    }
                }
            }
        }
        i += 1;
    }
    proof {
        let sv = vpairs(seen@);
        assert(kv.take(keys.len() as int) =~= kv);
        sv.unique_seq_to_set();
        assert(sv.to_set() =~= kv.to_set());
    }
    seen.len()
}

/// Counts the topology of CPUs given by (package, core) identifiers.
pub fn count_topology(pairs: &[(String, String)]) -> (r: CpuTopology)
    requires
        pairs@.len() <= u64::MAX,
    ensures
        r.threads == topology_counts(pair_views(pairs@)).0,
        r.cores == topology_counts(pair_views(pairs@)).1,
        r.sockets == topology_counts(pair_views(pairs@)).2,
{
    let ghost pv = pair_views(pairs@);
    let mut cores: Vec<(Vec<char>, Vec<char>)> = Vec::new();
    let mut packages: Vec<(Vec<char>, Vec<char>)> = Vec::new();
    let mut i: usize = 0;
    while i < pairs.len()
        invariant
            i <= pairs@.len(),
            pv == pair_views(pairs@),
            cores@.len() == i,
            packages@.len() == i,
            forall|j: int| 0 <= j < i ==> (#[trigger] cores@[j]).0@ == pv[j].0 && cores@[j].1@ == pv[j].1,
            forall|j: int| 0 <= j < i ==> (#[trigger] packages@[j]).0@ == pv[j].0 && packages@[j].1@ == Seq::<char>::empty(),
        decreases pairs.len() - i,
    {
        let a = chars_of(pairs[i].0.as_str());
        let b = chars_of(pairs[i].1.as_str());
        let a2 = chars_of(pairs[i].0.as_str());
        cores.push((a, b));
        packages.push((a2, Vec::new()));
        i += 1;
    }
    let ncores = distinct_pairs(&cores);
    let npackages = distinct_pairs(&packages);
    proof {
        let cv = vpairs(cores@);
        assert(cv =~= pv);
        let pk = vpairs(packages@);
        let firsts = pv.map_values(|p: (Seq<char>, Seq<char>)| p.0);
        let e = Seq::<char>::empty();
        // Distinct packages correspond one to one with distinct (package, "") pairs.
        assert(pk =~= firsts.map_values(|s: Seq<char>| (s, e)));
        lemma_pair_with_set_len(firsts, e);
        seq_to_set_len_bound(pv);
    }
    CpuTopology {
        threads: pairs.len() as u64,
        cores: ncores as u64,
        sockets: if npackages > 1 { npackages as u64 } else { 1 },
    }
}

pub open spec fn value_or(v: Option<Seq<char>>, d: Seq<char>) -> Seq<char> {
    match v {
        Some(x) => x,
        None => d,
    }
}

/// The (package, core) identity of a cpuinfo record: `physical id` (else
/// `0`) and `core id` (else `processor`, else `0`).
pub open spec fn cpuinfo_identity(rec: Seq<(Seq<char>, Seq<char>)>) -> (Seq<char>, Seq<char>) {
    (
        value_or(entry_value(rec, "physical id"@), "0"@),
        value_or(
            entry_value(rec, "core id"@),
            value_or(entry_value(rec, "processor"@), "0"@),
        ),
    )
}

fn get_or(rec: &CpuInfoRecord, key: &str, default: String) -> (r: String)
    ensures
        r@ == value_or(entry_value(rec@, key@), default@),
{
    match rec.get(key) {
        Some(v) => v,
        None => default,
    }
}

/// The topology that cpuinfo records describe, when there is any record.
pub fn cpu_topology_from_cpuinfo(records: &[CpuInfoRecord]) -> (r: Option<CpuTopology>)
    ensures
        records@.len() == 0 <==> r is None,
        r matches Some(t) ==> {
            let pairs = record_views(records@).map_values(|rec: Seq<(Seq<char>, Seq<char>)>| cpuinfo_identity(rec));
            &&& t.threads == topology_counts(pairs).0
            &&& t.cores == topology_counts(pairs).1
            &&& t.sockets == topology_counts(pairs).2
        },
{
    if records.len() == 0 {
        return None;
    }
    let ghost want = record_views(records@).map_values(|rec: Seq<(Seq<char>, Seq<char>)>| cpuinfo_identity(rec));
    let mut pairs: Vec<(String, String)> = Vec::new();
    let mut i: usize = 0;
    while i < records.len()
        invariant
            i <= records@.len(),
            want == record_views(records@).map_values(|rec: Seq<(Seq<char>, Seq<char>)>| cpuinfo_identity(rec)),
            pair_views(pairs@) == want.take(i as int),
        decreases records.len() - i,
    {
        let rec = &records[i];
        let package = get_or(rec, "physical id", crate::text::owned("0"));
        let processor = get_or(rec, "processor", crate::text::owned("0"));
        let core = get_or(rec, "core id", processor);
        let ghost old_pairs = pairs@;
        pairs.push((package, core));
        proof {
            assert(record_views(records@)[i as int] == records@[i as int]@);
            assert(want[i as int] == cpuinfo_identity(records@[i as int]@));
            assert(package@ == want[i as int].0);
            assert(core@ == want[i as int].1);
            assert(pair_views(pairs@) =~= pair_views(old_pairs).push((package@, core@)));
            assert(pair_views(pairs@) =~= want.take(i + 1));
        }
        i += 1;
    }
    assert(want.take(records.len() as int) =~= want);
    Some(count_topology(&pairs))
}

/// The model name of the first record (`model name`, else `hardware`, else
/// `processor`, else `CPU`) and its vendor (`vendor_id`, else `cpu implementer`).
pub open spec fn cpu_identity_of(records: Seq<Seq<(Seq<char>, Seq<char>)>>) -> (Seq<char>, Option<Seq<char>>) {
    let first = if records.len() > 0 { records[0] } else { Seq::empty() };
    let model = match entry_value(first, "model name"@) {
        Some(m) => m,
        None => match entry_value(first, "hardware"@) {
            Some(m) => m,
            None => value_or(entry_value(first, "processor"@), "CPU"@),
        },
    };
    let vendor = match entry_value(first, "vendor_id"@) {
        Some(v) => Some(v),
        None => entry_value(first, "cpu implementer"@),
    };
    (model, vendor)
}

pub fn cpu_identity(records: &[CpuInfoRecord]) -> (r: (String, Option<String>))
    ensures
        r.0@ == cpu_identity_of(record_views(records@)).0,
        opt_view(r.1) == cpu_identity_of(record_views(records@)).1,
{
    if records.len() == 0 {
        proof {
            assert(entry_value(Seq::<(Seq<char>, Seq<char>)>::empty(), "model name"@) is None);
        }
        return (crate::text::owned("CPU"), None);
    }
    let first = &records[0];
    proof {
        assert(record_views(records@)[0] == first@);
    }
    let model = match first.get("model name") {
        Some(m) => m,
        None => match first.get("hardware") {
            Some(m) => m,
            None => get_or(first, "processor", crate::text::owned("CPU")),
        },
    };
    let vendor = match first.get("vendor_id") {
        Some(v) => Some(v),
        None => first.get("cpu implementer"),
    };
    (model, vendor)
}

// ---------------------------------------------------------------------------
// Frequency policies
// ---------------------------------------------------------------------------
/// All logical CPUs of a policy sit on one physical core.
pub open spec fn single_core(cores: Seq<(u64, u64)>) -> bool {
    cores.len() > 0 && forall|i: int| 0 <= i < cores.len() ==> #[trigger] cores[i] == cores[0]
}

/// The sensor key and label of a frequency policy: its physical core when
/// all its CPUs share one (`socket<p>:core<c>`, labelled without the socket
/// on socket 0), else the policy itself.
pub open spec fn frequency_owner_of(policy_name: Seq<char>, cores: Seq<(u64, u64)>) -> (Seq<char>, Seq<char>) {
    if single_core(cores) {
        let (p, c) = cores[0];
        (
            "socket"@ + decimal(p as nat) + ":core"@ + decimal(c as nat),
            if p == 0 {
                "Core "@ + decimal(c as nat) + " frequency"@
            } else {
                "Socket "@ + decimal(p as nat) + " core "@ + decimal(c as nat) + " frequency"@
            },
        )
    } else {
        let suffix = trim_start_seq(policy_name, "policy"@);
        ("policy"@ + suffix, "CPU frequency policy "@ + suffix)
    }
}

/// The key and label under which a policy's frequency is reported, given
/// the (package, core) of each of its logical CPUs.
pub fn frequency_owner(policy_name: &str, cores: &[(u64, u64)]) -> (r: (String, String))
    ensures
        r.0@ == frequency_owner_of(policy_name@, cores@).0,
        r.1@ == frequency_owner_of(policy_name@, cores@).1,
{
    let mut same = cores.len() > 0;
    let mut i: usize = 0;
    while same && i < cores.len()
        invariant
            i <= cores@.len(),
            same ==> cores@.len() > 0 && forall|j: int| 0 <= j < i ==> #[trigger] cores@[j] == cores@[0],
            !same ==> !single_core(cores@),
        decreases cores.len() - i,
    {
        if cores[i].0 != cores[0].0 || cores[i].1 != cores[0].1 {
            same = false;
            assert(cores@[i as int] != cores@[0]);
        }
        i += 1;
    }
    let mut key: Vec<char> = Vec::new();
    let mut label: Vec<char> = Vec::new();
    if same {
        let (p, c) = cores[0];
        append_str(&mut key, "socket");
        append_chars(&mut key, &decimal_chars(p as u128));
        append_str(&mut key, ":core");
        append_chars(&mut key, &decimal_chars(c as u128));
        if p == 0 {
            append_str(&mut label, "Core ");
        } else {
            append_str(&mut label, "Socket ");
            append_chars(&mut label, &decimal_chars(p as u128));
            append_str(&mut label, " core ");
        }
        append_chars(&mut label, &decimal_chars(c as u128));
        append_str(&mut label, " frequency");
    } else {
        let n = chars_of(policy_name);
        let prefix = chars_of("policy");
        let suffix = trim_start_seq_chars(&n, &prefix);
        append_str(&mut key, "policy");
        append_chars(&mut key, &suffix);
        append_str(&mut label, "CPU frequency policy ");
        append_chars(&mut label, &suffix);
    }
    proof {
        assert(key@ =~= frequency_owner_of(policy_name@, cores@).0);
        assert(label@ =~= frequency_owner_of(policy_name@, cores@).1);
    }
    (string_of(&key), string_of(&label))
}

// ---------------------------------------------------------------------------
// `/proc/stat`
// ---------------------------------------------------------------------------
/// The first line that starts with `cpu `.
pub open spec fn first_cpu_line(ls: Seq<Seq<char>>) -> Option<Seq<char>>
    decreases ls.len(),
{
    if ls.len() == 0 {
        None
    } else if strip_prefix(ls[0], "cpu "@) is Some {
        Some(ls[0])
    } else {
        first_cpu_line(ls.drop_first())
    }
}

/// Every word parses as a `u64`; their values.
pub open spec fn all_u64(ws: Seq<Seq<char>>) -> Option<Seq<nat>>
    decreases ws.len(),
{
    if ws.len() == 0 {
        Some(Seq::empty())
    } else {
        match (all_u64(ws.drop_last()), parse_unsigned(ws.last(), 10, u64::MAX as nat)) {
            (Some(vs), Some(v)) => Some(vs.push(v)),
            _ => None,
        }
    }
}

/// All but the first word.
pub open spec fn after_first(ws: Seq<Seq<char>>) -> Seq<Seq<char>> {
    if ws.len() > 0 {
        ws.drop_first()
    } else {
        Seq::empty()
    }
}

proof fn lemma_all_u64_prefix(ws: Seq<Seq<char>>, k: int)
    requires
        0 <= k <= ws.len(),
        all_u64(ws.take(k)) is None,
    ensures
        all_u64(ws) is None,
    decreases ws.len() - k,
{
    if k < ws.len() {
        assert(ws.take(k + 1).drop_last() =~= ws.take(k));
        lemma_all_u64_prefix(ws, k + 1);
    } else {
        assert(ws.take(k) =~= ws);
    }
}

pub open spec fn sat(n: int) -> nat {
    if n > u64::MAX { u64::MAX as nat } else if n < 0 { 0 } else { n as nat }
}

pub open spec fn value_at(vs: Seq<nat>, i: int) -> nat {
    if i < vs.len() { vs[i] } else { 0 }
}

/// Saturating sum of the first `n` values (missing ones count as 0).
pub open spec fn sat_sum(vs: Seq<nat>, n: nat) -> nat
    decreases n,
{
    if n == 0 {
        0
    } else {
        sat((sat_sum(vs, (n - 1) as nat) + value_at(vs, n - 1)) as int)
    }
}

/// The total and idle (idle plus iowait) tick counters of the aggregate
/// `cpu ` line of `/proc/stat`: the sum of its first eight fields, when the
/// line exists, all its fields are numbers and there are at least four.
pub open spec fn cpu_time_of(content: Seq<char>) -> Option<(nat, nat)> {
    match first_cpu_line(lines(content)) {
        Some(line) => match all_u64(after_first(words(line))) {
            Some(vs) => if vs.len() >= 4 {
                Some((sat_sum(vs, 8), sat((value_at(vs, 3) + value_at(vs, 4)) as int)))
            } else {
                None
            },
            None => None,
        },
        None => None,
    }
}

fn find_cpu_line(ls: &Vec<Vec<char>>) -> (r: Option<usize>)
    ensures
        r matches Some(k) ==> k < ls@.len() && first_cpu_line(views(ls@)) == Some(ls@[k as int]@),
        r is None ==> first_cpu_line(views(ls@)) is None,
{
    let ghost all = views(ls@);
    let mut k: usize = 0;
    assert(all.skip(0) =~= all);
    while k < ls.len()
        invariant
            k <= ls@.len(),
            all == views(ls@),
            first_cpu_line(all) == first_cpu_line(all.skip(k as int)),
        decreases ls@.len() - k,
    {
        proof {
            assert(all.skip(k as int)[0] == ls@[k as int]@);
            assert(all.skip(k as int).drop_first() =~= all.skip(k + 1));
        }
        if starts_with_str(&ls[k], "cpu ") {
            return Some(k);
        }
        k += 1;
    }
    None
}

pub fn cpu_time_counters(content: &str) -> (r: Option<(u64, u64)>)
    ensures
        r matches Some((t, i)) ==> cpu_time_of(content@) == Some((t as nat, i as nat)),
        r is None ==> cpu_time_of(content@) is None,
{
    let c = chars_of(content);
    let ls = lines_of(&c);
    let ghost all = lines(content@);
    let k = match find_cpu_line(&ls) {
        Some(k) => k,
        None => return None,
    };
    let line = crate::text::slice_chars(&ls[k], 0, ls[k].len());
    proof {
        assert(line@ =~= ls@[k as int]@);
    }
    let ws = words_of(&line);
    let mut vals: Vec<u64> = Vec::new();
    let ghost rest = after_first(words(line@));
    if ws.len() == 0 {
        assert(rest =~= Seq::<Seq<char>>::empty());
        return None;
    }
    let mut i: usize = 1;
    while i < ws.len()
        invariant
            1 <= i <= ws@.len(),
            views(ws@) == words(line@),
            rest == after_first(words(line@)),
            first_cpu_line(lines(content@)) == Some(line@),
            all_u64(rest.take(i - 1)) == Some(vals@.map_values(|v: u64| v as nat)),
        decreases ws.len() - i,
    {
        proof {
            assert(rest.take(i as int).drop_last() =~= rest.take(i - 1));
            assert(rest[i - 1] == ws@[i as int]@);
        }
        match parse_unsigned_chars(&ws[i], 10, u64::MAX) {
            Some(v) => {
                vals.push(v);
                assert(vals@.map_values(|v: u64| v as nat) =~= vals@.drop_last().map_values(|v: u64| v as nat).push(v as nat));
            },
            None => {
                proof {
                    lemma_all_u64_prefix(rest, i as int);
                }
                return None;
            },
        }
        i += 1;
    }
    assert(rest.take(ws.len() - 1) =~= rest);
    assert(all_u64(rest) == Some(vals@.map_values(|v: u64| v as nat)));
    assert(vals@.map_values(|v: u64| v as nat).len() == vals@.len());
    if vals.len() < 4 {
        return None;
    }
    let ghost vs = vals@.map_values(|v: u64| v as nat);
    let mut total: u64 = 0;
    let mut j: usize = 0;
    while j < 8
        invariant
            j <= 8,
            vs == vals@.map_values(|v: u64| v as nat),
            total == sat_sum(vs, j as nat),
        decreases 8 - j,
    {
        let v: u64 = if j < vals.len() { vals[j] } else { 0 };
        total = total.saturating_add(v);
        j += 1;
    }
    let iowait: u64 = if vals.len() > 4 { vals[4] } else { 0 };
    let idle = vals[3].saturating_add(iowait);
    Some((total, idle))
}

proof fn seq_to_set_len_bound(s: Seq<(Seq<char>, Seq<char>)>)
    ensures
        s.to_set().len() <= s.len(),
{
    s.lemma_cardinality_of_set();
}

proof fn lemma_pair_with_set_len(s: Seq<Seq<char>>, e: Seq<char>)
    ensures
        s.map_values(|x: Seq<char>| (x, e)).to_set().len() == s.to_set().len(),
{
    let f = |x: Seq<char>| (x, e);
    s.lemma_to_set_map_commutes(f);
    assert(s.to_set().map(f) == s.map_values(f).to_set());
    vstd::set_lib::lemma_map_size(s.to_set(), s.to_set().map(f), f);
    broadcast use vstd::seq_lib::seq_to_set_is_finite;
}

} // verus!
