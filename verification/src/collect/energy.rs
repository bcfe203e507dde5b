//! Energy-counter domains, the CPUs that read them, and counter arithmetic.
use vstd::prelude::*;
use crate::collect::cpulist::{cpu_list, lists_set, parse_cpu_list_with, strictly_sorted};
use crate::model::DeviceClass;
use crate::text::{
    append_str, chars_eq_str, chars_of, decimal, decimal_chars, is_digit, lower_seq,
    parse_unsigned, parse_unsigned_chars, starts_with_str, string_of, strip_prefix, to_lower, trim,
    trim_chars, append_chars,
};

verus! {

/// The CPUs of a comma-separated CPU list, in increasing order without repeats.
pub fn parse_cpu_list(value: &str) -> (r: Vec<u32>)
    ensures
        lists_set(r@, cpu_list(value@, false)),
{
    parse_cpu_list_with(value, false)
}

// ---------------------------------------------------------------------------
// Domains
// ---------------------------------------------------------------------------
#[derive(Debug, Clone, Copy, PartialEq, Eq, Structural)]
pub enum DomainKind {
    Package,
    Cores,
    Uncore,
    Dram,
    Gpu,
    Platform,
}

/// An energy domain and the package it belongs to.
#[derive(Debug, Clone, Copy, PartialEq, Eq, Structural)]
pub enum Domain {
    Package(u32),
    Cores(u32),
    Core { package: u32, core: u32 },
    Uncore(u32),
    Dram(u32),
    Gpu(u32),
    Platform(u32),
}

pub open spec fn kind_with_package(kind: DomainKind, package: u32) -> Domain {
    match kind {
        DomainKind::Package => Domain::Package(package),
        DomainKind::Cores => Domain::Cores(package),
        DomainKind::Uncore => Domain::Uncore(package),
        DomainKind::Dram => Domain::Dram(package),
        DomainKind::Gpu => Domain::Gpu(package),
        DomainKind::Platform => Domain::Platform(package),
    }
}

impl DomainKind {
    pub fn with_package(self, package: u32) -> (r: Domain)
        ensures
            r == kind_with_package(self, package),
    {
        match self {
            DomainKind::Package => Domain::Package(package),
            DomainKind::Cores => Domain::Cores(package),
            DomainKind::Uncore => Domain::Uncore(package),
            DomainKind::Dram => Domain::Dram(package),
            DomainKind::Gpu => Domain::Gpu(package),
            DomainKind::Platform => Domain::Platform(package),
        }
    }
}

/// The domain kind an energy counter name denotes.
pub open spec fn domain_kind_of(name: Seq<char>) -> Option<DomainKind> {
    if name == "pkg"@ || name == "package"@ {
        Some(DomainKind::Package)
    } else if name == "core"@ || name == "cores"@ {
        Some(DomainKind::Cores)
    } else if name == "uncore"@ {
        Some(DomainKind::Uncore)
    } else if name == "ram"@ || name == "dram"@ {
        Some(DomainKind::Dram)
    } else if name == "gpu"@ {
        Some(DomainKind::Gpu)
    } else if name == "psys"@ || name == "platform"@ {
        Some(DomainKind::Platform)
    } else {
        None
    }
}

fn domain_kind_chars(n: &[char]) -> (r: Option<DomainKind>)
    ensures
        r == domain_kind_of(n@),
{
    if chars_eq_str(n, "pkg") || chars_eq_str(n, "package") {
        Some(DomainKind::Package)
    } else if chars_eq_str(n, "core") || chars_eq_str(n, "cores") {
        Some(DomainKind::Cores)
    } else if chars_eq_str(n, "uncore") {
        Some(DomainKind::Uncore)
    } else if chars_eq_str(n, "ram") || chars_eq_str(n, "dram") {
        Some(DomainKind::Dram)
    } else if chars_eq_str(n, "gpu") {
        Some(DomainKind::Gpu)
    } else if chars_eq_str(n, "psys") || chars_eq_str(n, "platform") {
        Some(DomainKind::Platform)
    } else {
        None
    }
}

pub fn domain_kind(name: &str) -> (r: Option<DomainKind>)
    ensures
        r == domain_kind_of(name@),
{
    let n = chars_of(name);
    domain_kind_chars(&n)
}

/// The domain a powercap zone name denotes: `package-N`/`package_N` zones
/// are packages, other names go by their kind; matching is on the trimmed,
/// ASCII lower-cased name.
pub open spec fn domain_of(name: Seq<char>, package: u32) -> Option<Domain> {
    let n = lower_seq(trim(name));
    if strip_prefix(n, "package-"@) is Some || strip_prefix(n, "package_"@) is Some {
        Some(Domain::Package(package))
    } else {
        match domain_kind_of(n) {
            Some(k) => Some(kind_with_package(k, package)),
            None => None,
        }
    }
}

pub fn domain(name: &str, package: u32) -> (r: Option<Domain>)
    ensures
        r == domain_of(name@, package),
{
    let c = chars_of(name);
    let t = trim_chars(&c);
    let n = to_lower(&t);
    if starts_with_str(&n, "package-") || starts_with_str(&n, "package_") {
        Some(Domain::Package(package))
    } else {
        match domain_kind_chars(&n) {
            Some(k) => Some(k.with_package(package)),
            None => None,
        }
    }
}

/// The leading run of ASCII digits.
pub open spec fn leading_digits(s: Seq<char>) -> Seq<char>
    decreases s.len(),
{
    if s.len() > 0 && is_digit(s[0]) {
        seq![s[0]] + leading_digits(s.drop_first())
    } else {
        Seq::empty()
    }
}

/// What follows the first occurrence of `marker`, if it occurs.
pub open spec fn after_marker(s: Seq<char>, marker: Seq<char>) -> Option<Seq<char>> {
    match crate::text::index_of_seq(s, marker) {
        Some(i) => Some(s.skip(i + marker.len())),
        None => None,
    }
}

/// The number after `marker` when digits follow it: `Some` of the parse
/// (which fails beyond 32 bits), or `None` when the marker is absent or no
/// digit follows it.
pub open spec fn marker_number(s: Seq<char>, marker: Seq<char>) -> Option<Option<u32>> {
    match after_marker(s, marker) {
        Some(rest) => if leading_digits(rest).len() > 0 {
            match parse_unsigned(leading_digits(rest), 10, u32::MAX as nat) {
                Some(v) => Some(Some(v as u32)),
                None => Some(None),
            }
        } else {
            None
        },
        None => None,
    }
}

/// The package number in a zone name such as `package-12`: the first marker
/// (`package-`, then `package_`) followed by digits decides.
pub open spec fn package_number_of(name: Seq<char>) -> Option<u32> {
    match marker_number(name, "package-"@) {
        Some(r) => r,
        None => match marker_number(name, "package_"@) {
            Some(r) => r,
            None => None,
        },
    }
}

fn leading_digits_chars(s: &[char]) -> (r: Vec<char>)
    ensures
        r@ == leading_digits(s@),
{
    let mut i: usize = 0;
    while i < s.len() && crate::text::char_is_digit(s[i])
        invariant
            i <= s@.len(),
            forall|j: int| 0 <= j < i ==> is_digit(#[trigger] s@[j]),
        decreases s.len() - i,
    {
        i += 1;
    }
    proof {
        lemma_leading_digits(s@, i as int);
    }
    crate::text::slice_chars(s, 0, i)
}

proof fn lemma_leading_digits(s: Seq<char>, i: int)
    requires
        0 <= i <= s.len(),
        forall|j: int| 0 <= j < i ==> is_digit(#[trigger] s[j]),
        i == s.len() || !is_digit(s[i]),
    ensures
        leading_digits(s) == s.take(i),
    decreases s.len(),
{
    if i > 0 {
        assert forall|j: int| 0 <= j < i - 1 implies is_digit(#[trigger] s.drop_first()[j]) by {
            assert(s.drop_first()[j] == s[j + 1]);
        }
        if i < s.len() {
            assert(s.drop_first()[i - 1] == s[i]);
        }
        lemma_leading_digits(s.drop_first(), i - 1);
        assert(seq![s[0]] + s.drop_first().take(i - 1) =~= s.take(i));
    } else {
        assert(s.take(0) =~= Seq::<char>::empty());
    }
}

fn marker_number_chars(s: &[char], marker: &str) -> (r: Option<Option<u32>>)
    requires
        marker@.len() > 0,
    ensures
        r == marker_number(s@, marker@),
{
    let m = chars_of(marker);
    match crate::text::find_seq_from(s, 0, &m) {
        Some(i) => {
            proof {
                assert(s@.skip(0) =~= s@);
            }
            let rest = crate::text::slice_chars(s, i + m.len(), s.len());
            proof {
                assert(rest@ =~= s@.skip(i + m@.len()));
            }
            let digits = leading_digits_chars(&rest);
            if digits.len() > 0 {
                match parse_unsigned_chars(&digits, 10, u32::MAX as u64) {
                    Some(v) => Some(Some(v as u32)),
                    None => Some(None),
                }
            } else {
                None
            }
        },
        None => {
            proof {
                assert(s@.skip(0) =~= s@);
            }
            None
        },
    }
}

pub fn package_number(name: &str) -> (r: Option<u32>)
    ensures
        r == package_number_of(name@),
{
    let n = chars_of(name);
    proof {
        reveal_strlit("package-");
        reveal_strlit("package_");
    }
    match marker_number_chars(&n, "package-") {
        Some(r) => r,
        None => match marker_number_chars(&n, "package_") {
            Some(r) => r,
            None => None,
        },
    }
}

pub open spec fn domain_package(d: Domain) -> u32 {
    match d {
        Domain::Package(p) => p,
        Domain::Cores(p) => p,
        Domain::Core { package, .. } => package,
        Domain::Uncore(p) => p,
        Domain::Dram(p) => p,
        Domain::Gpu(p) => p,
        Domain::Platform(p) => p,
    }
}

/// The name of a domain's kind, as sensor metadata records it.
pub open spec fn domain_metadata(d: Domain) -> Seq<char> {
    match d {
        Domain::Package(_) => "package"@,
        Domain::Cores(_) => "cores"@,
        Domain::Core { .. } => "core"@,
        Domain::Uncore(_) => "uncore"@,
        Domain::Dram(_) => "dram"@,
        Domain::Gpu(_) => "gpu"@,
        Domain::Platform(_) => "platform"@,
    }
}

/// The sensor-id key of a domain, such as `core:0:3`.
pub open spec fn domain_key(d: Domain) -> Seq<char> {
    match d {
        Domain::Core { package, core } => "core:"@ + decimal(package as nat) + ":"@ + decimal(
            core as nat,
        ),
        _ => domain_metadata(d) + ":"@ + decimal(domain_package(d) as nat),
    }
}

/// The sensor label of a domain; package 0 is left unnamed.
pub open spec fn domain_label(d: Domain) -> Seq<char> {
    let p = domain_package(d);
    let pn = decimal(p as nat);
    match d {
        Domain::Package(_) => if p == 0 {
            "CPU package power"@
        } else {
            "CPU package "@ + pn + " power"@
        },
        Domain::Cores(_) => if p == 0 {
            "CPU cores power"@
        } else {
            "CPU package "@ + pn + " cores power"@
        },
        Domain::Core { core, .. } => if p == 0 {
            "Core "@ + decimal(core as nat) + " power"@
        } else {
            "Package "@ + pn + " core "@ + decimal(core as nat) + " power"@
        },
        Domain::Uncore(_) => if p == 0 {
            "CPU uncore power"@
        } else {
            "CPU package "@ + pn + " uncore power"@
        },
        Domain::Dram(_) => if p == 0 {
            "DRAM power"@
        } else {
            "DRAM package "@ + pn + " power"@
        },
        Domain::Gpu(_) => if p == 0 {
            "Integrated GPU power"@
        } else {
            "Integrated GPU package "@ + pn + " power"@
        },
        Domain::Platform(_) => if p == 0 {
            "Platform power"@
        } else {
            "Platform package "@ + pn + " power"@
        },
    }
}

/// The class and name of the device that carries a domain's sensor when it
/// has to be created.
pub open spec fn domain_target_identity(d: Domain) -> (DeviceClass, Seq<char>) {
    match d {
        Domain::Dram(_) => (DeviceClass::Memory, "System memory"@),
        Domain::Platform(_) => (DeviceClass::System, "Linux system"@),
        _ => (DeviceClass::Cpu, "CPU"@),
    }
}

impl Domain {
    pub fn package(self) -> (r: u32)
        ensures
            r == domain_package(self),
    {
        match self {
            Domain::Package(p) => p,
            Domain::Cores(p) => p,
            Domain::Core { package, .. } => package,
            Domain::Uncore(p) => p,
            Domain::Dram(p) => p,
            Domain::Gpu(p) => p,
            Domain::Platform(p) => p,
        }
    }

    pub fn metadata(self) -> (r: &'static str)
        ensures
            r@ == domain_metadata(self),
    {
        match self {
            Domain::Package(_) => "package",
            Domain::Cores(_) => "cores",
            Domain::Core { .. } => "core",
            Domain::Uncore(_) => "uncore",
            Domain::Dram(_) => "dram",
            Domain::Gpu(_) => "gpu",
            Domain::Platform(_) => "platform",
        }
    }

    pub fn key(self) -> (r: String)
        ensures
            r@ == domain_key(self),
    {
        let mut v: Vec<char> = Vec::new();
        match self {
            Domain::Core { package, core } => {
                append_str(&mut v, "core:");
                append_chars(&mut v, &decimal_chars(package as u128));
                append_str(&mut v, ":");
                append_chars(&mut v, &decimal_chars(core as u128));
            },
            _ => {
                append_str(&mut v, self.metadata());
                append_str(&mut v, ":");
                append_chars(&mut v, &decimal_chars(self.package() as u128));
            },
        }
        proof {
            assert(v@ =~= domain_key(self));
        }
        string_of(&v)
    }

    pub fn label(self) -> (r: String)
        ensures
            r@ == domain_label(self),
    {
        let p = self.package();
        let mut v: Vec<char> = Vec::new();
        let (zero, before, after): (&str, &str, &str) = match self {
            Domain::Package(_) => ("CPU package power", "CPU package ", " power"),
            Domain::Cores(_) => ("CPU cores power", "CPU package ", " cores power"),
            Domain::Core { .. } => ("", "", ""),
            Domain::Uncore(_) => ("CPU uncore power", "CPU package ", " uncore power"),
            Domain::Dram(_) => ("DRAM power", "DRAM package ", " power"),
            Domain::Gpu(_) => ("Integrated GPU power", "Integrated GPU package ", " power"),
            Domain::Platform(_) => ("Platform power", "Platform package ", " power"),
        };
        match self {
            Domain::Core { package, core } => {
                if package == 0 {
                    append_str(&mut v, "Core ");
                } else {
                    append_str(&mut v, "Package ");
                    append_chars(&mut v, &decimal_chars(package as u128));
                    append_str(&mut v, " core ");
                }
                append_chars(&mut v, &decimal_chars(core as u128));
                append_str(&mut v, " power");
            },
            _ => {
                if p == 0 {
                    append_str(&mut v, zero);
                } else {
                    append_str(&mut v, before);
                    append_chars(&mut v, &decimal_chars(p as u128));
                    append_str(&mut v, after);
                }
            },
        }
        proof {
            assert(v@ =~= domain_label(self));
        }
        string_of(&v)
    }

    /// The class and name of the device that carries this domain's sensor.
    pub fn target_identity(self) -> (r: (DeviceClass, &'static str))
        ensures
            r.0 == domain_target_identity(self).0,
            r.1@ == domain_target_identity(self).1,
    {
        match self {
            Domain::Dram(_) => (DeviceClass::Memory, "System memory"),
            Domain::Platform(_) => (DeviceClass::System, "Linux system"),
            _ => (DeviceClass::Cpu, "CPU"),
        }
    }
}

// ---------------------------------------------------------------------------
// CPUs that read the counters
// ---------------------------------------------------------------------------
/// Where a logical CPU sits.
#[derive(Debug, Clone, Copy, PartialEq, Eq, Structural)]
pub struct CpuLocation {
    pub cpu: u32,
    pub package: u32,
    pub core: u32,
}

/// The grouping key of a CPU: its package and, when grouping by core, its core.
pub open spec fn loc_key(c: CpuLocation, by_core: bool) -> (u32, u32) {
    (c.package, if by_core { c.core } else { 0 })
}

pub open spec fn key_lt(a: (u32, u32), b: (u32, u32)) -> bool {
    a.0 < b.0 || (a.0 == b.0 && a.1 < b.1)
}

/// `items[k]` is the first item whose key is `key`.
pub open spec fn first_with_key(items: Seq<CpuLocation>, by_core: bool, k: int, key: (u32, u32)) -> bool {
    &&& 0 <= k < items.len()
    &&& loc_key(items[k], by_core) == key
    &&& forall|j: int| 0 <= j < k ==> loc_key(#[trigger] items[j], by_core) != key
}

/// `c` is the first item of its key in `items`.
pub open spec fn is_first_of_key(items: Seq<CpuLocation>, by_core: bool, c: CpuLocation) -> bool {
    exists|k: int| #[trigger] first_with_key(items, by_core, k, loc_key(c, by_core)) && items[k] == c
}

/// Some member of `r` has the given key.
pub open spec fn key_listed(r: Seq<CpuLocation>, by_core: bool, key: (u32, u32)) -> bool {
    exists|i: int| 0 <= i < r.len() && #[trigger] loc_key(r[i], by_core) == key
}

/// `r` holds, in increasing key order, the first item of each key that
/// occurs in `items`.
pub open spec fn first_per_key(items: Seq<CpuLocation>, by_core: bool, r: Seq<CpuLocation>) -> bool {
    &&& forall|i: int, j: int|
        0 <= i < j < r.len() ==> key_lt(loc_key(#[trigger] r[i], by_core), loc_key(#[trigger] r[j], by_core))
    &&& forall|i: int| 0 <= i < r.len() ==> #[trigger] is_first_of_key(items, by_core, r[i])
    &&& forall|k: int| 0 <= k < items.len() ==> #[trigger] key_listed(r, by_core, loc_key(items[k], by_core))
}

fn key_of(c: CpuLocation, by_core: bool) -> (r: (u32, u32))
    ensures
        r == loc_key(c, by_core),
{
    (c.package, if by_core { c.core } else { 0 })
}

fn key_below(a: (u32, u32), b: (u32, u32)) -> (r: bool)
    ensures
        r == key_lt(a, b),
{
    a.0 < b.0 || (a.0 == b.0 && a.1 < b.1)
}

proof fn lemma_first_with_key_extend(items: Seq<CpuLocation>, by_core: bool, k: int, key: (u32, u32))
    requires
        items.len() > 0,
        first_with_key(items.drop_last(), by_core, k, key),
    ensures
        first_with_key(items, by_core, k, key),
        items[k] == items.drop_last()[k],
{
    assert forall|j: int| 0 <= j < k implies loc_key(#[trigger] items[j], by_core) != key by {
        assert(items.drop_last()[j] == items[j]);
    }
}

proof fn lemma_keep_first(items: Seq<CpuLocation>, by_core: bool, r: Seq<CpuLocation>, p: int)
    requires
        items.len() > 0,
        first_per_key(items.drop_last(), by_core, r),
        0 <= p < r.len(),
        loc_key(r[p], by_core) == loc_key(items.last(), by_core),
    ensures
        first_per_key(items, by_core, r),
{
    let prev = items.drop_last();
    assert forall|i: int| 0 <= i < r.len() implies #[trigger] is_first_of_key(items, by_core, r[i]) by {
        assert(is_first_of_key(prev, by_core, r[i]));
        let k = choose|k: int| #[trigger] first_with_key(prev, by_core, k, loc_key(r[i], by_core)) && prev[k] == r[i];
        lemma_first_with_key_extend(items, by_core, k, loc_key(r[i], by_core));
    }
    assert forall|k: int| 0 <= k < items.len() implies #[trigger] key_listed(r, by_core, loc_key(items[k], by_core)) by {
        if k == items.len() - 1 {
            assert(loc_key(r[p], by_core) == loc_key(items[k], by_core));
        } else {
            lemma_drop_last_index(items, k);
            assert(key_listed(r, by_core, loc_key(prev[k], by_core)));
        }
    }
}

proof fn lemma_drop_last_index(items: Seq<CpuLocation>, k: int)
    requires
        0 <= k < items.len() - 1,
    ensures
        items.drop_last()[k] == items[k],
{
}

proof fn lemma_insert_first(items: Seq<CpuLocation>, by_core: bool, r: Seq<CpuLocation>, p: int)
    requires
        items.len() > 0,
        first_per_key(items.drop_last(), by_core, r),
        0 <= p <= r.len(),
        forall|i: int| 0 <= i < p ==> key_lt(loc_key(#[trigger] r[i], by_core), loc_key(items.last(), by_core)),
        p < r.len() ==> key_lt(loc_key(items.last(), by_core), loc_key(r[p], by_core)),
    ensures
        first_per_key(items, by_core, r.insert(p, items.last())),
{
    let prev = items.drop_last();
    let x = items.last();
    let kx = loc_key(x, by_core);
    let n = r.insert(p, x);
    assert forall|j: int| 0 <= j < prev.len() implies loc_key(#[trigger] prev[j], by_core) != kx by {
        assert(key_listed(r, by_core, loc_key(prev[j], by_core)));
        let i = choose|i: int| 0 <= i < r.len() && #[trigger] loc_key(r[i], by_core) == loc_key(prev[j], by_core);
        if i < p {
        } else if i > p {
            assert(key_lt(loc_key(r[p], by_core), loc_key(r[i], by_core)));
        }
    }
    assert forall|i: int, j: int| 0 <= i < j < n.len() implies key_lt(loc_key(#[trigger] n[i], by_core), loc_key(#[trigger] n[j], by_core)) by {
        if j < p {
        } else if j == p {
        } else if i < p {
            assert(n[j] == r[j - 1]);
            if j - 1 > p {
                assert(key_lt(loc_key(r[p], by_core), loc_key(r[j - 1], by_core)));
            }
        } else if i == p {
            assert(n[j] == r[j - 1]);
            if j - 1 > p {
                assert(key_lt(loc_key(r[p], by_core), loc_key(r[j - 1], by_core)));
            }
        } else {
            assert(n[j] == r[j - 1]);
            assert(n[i] == r[i - 1]);
        }
    }
    assert forall|i: int| 0 <= i < n.len() implies #[trigger] is_first_of_key(items, by_core, n[i]) by {
        if i == p {
            assert forall|j: int| 0 <= j < items.len() - 1 implies loc_key(#[trigger] items[j], by_core) != kx by {
                lemma_drop_last_index(items, j);
            }
            assert(first_with_key(items, by_core, items.len() - 1, kx));
        } else {
            let bi = if i < p { i } else { i - 1 };
            assert(n[i] == r[bi]);
            assert(is_first_of_key(prev, by_core, r[bi]));
            let k = choose|k: int| #[trigger] first_with_key(prev, by_core, k, loc_key(r[bi], by_core)) && prev[k] == r[bi];
            lemma_first_with_key_extend(items, by_core, k, loc_key(r[bi], by_core));
        }
    }
    assert forall|k: int| 0 <= k < items.len() implies #[trigger] key_listed(n, by_core, loc_key(items[k], by_core)) by {
        if k == items.len() - 1 {
            assert(loc_key(n[p], by_core) == loc_key(items[k], by_core));
        } else {
            lemma_drop_last_index(items, k);
            assert(key_listed(r, by_core, loc_key(prev[k], by_core)));
            let i = choose|i: int| 0 <= i < r.len() && #[trigger] loc_key(r[i], by_core) == loc_key(prev[k], by_core);
            if i < p {
                assert(n[i] == r[i]);
            } else {
                assert(n[i + 1] == r[i]);
            }
        }
    }
}

/// Adds `x` to `r` unless its key is already there.
fn add_first(r: &mut Vec<CpuLocation>, x: CpuLocation, by_core: bool, Ghost(items): Ghost<Seq<CpuLocation>>)
    requires
        items.len() > 0,
        items.last() == x,
        first_per_key(items.drop_last(), by_core, old(r)@),
    ensures
        first_per_key(items, by_core, final(r)@),
{
    let kx = key_of(x, by_core);
    let mut p: usize = 0;
    while p < r.len() && key_below(key_of(r[p], by_core), kx)
        invariant
            p <= r@.len(),
            r@ == old(r)@,
            kx == loc_key(x, by_core),
            forall|i: int| 0 <= i < p ==> key_lt(loc_key(#[trigger] r@[i], by_core), kx),
        decreases r.len() - p,
    {
        p += 1;
    }
    if p < r.len() && key_of(r[p], by_core).0 == kx.0 && key_of(r[p], by_core).1 == kx.1 {
        proof {
            lemma_keep_first(items, by_core, r@, p as int);
        }
        return;
    }
    proof {
        lemma_insert_first(items, by_core, r@, p as int);
    }
    r.insert(p, x);
}

/// One CPU per physical core: the first listed CPU of each (package, core),
/// in increasing (package, core) order.
pub fn physical_cores(topology: &[CpuLocation]) -> (r: Vec<CpuLocation>)
    ensures
        first_per_key(topology@, true, r@),
{
    let mut r: Vec<CpuLocation> = Vec::new();
    let mut n: usize = 0;
    while n < topology.len()
        invariant
            n <= topology@.len(),
            first_per_key(topology@.take(n as int), true, r@),
        decreases topology.len() - n,
    {
        proof {
            assert(topology@.take(n + 1).drop_last() =~= topology@.take(n as int));
        }
        add_first(&mut r, topology[n], true, Ghost(topology@.take(n + 1)));
        n += 1;
    }
    assert(topology@.take(topology.len() as int) =~= topology@);
    r
}

/// The CPUs that may read a package-scope counter of a PMU.
pub open spec fn in_mask(mask: Seq<u32>, c: CpuLocation) -> bool {
    mask.len() == 0 || mask.contains(c.cpu)
}

/// The listed CPUs that the mask admits, in order.
pub open spec fn masked(topology: Seq<CpuLocation>, mask: Seq<u32>) -> Seq<CpuLocation>
    decreases topology.len(),
{
    if topology.len() == 0 {
        Seq::empty()
    } else if in_mask(mask, topology.last()) {
        masked(topology.drop_last(), mask).push(topology.last())
    } else {
        masked(topology.drop_last(), mask)
    }
}

/// The CPU used when no listed CPU may read the counter: the first listed
/// CPU, or else the lowest CPU of the mask (CPU 0 without one) as its own core.
pub open spec fn fallback_cpu(topology: Seq<CpuLocation>, mask: Seq<u32>) -> CpuLocation {
    if topology.len() > 0 {
        topology[0]
    } else {
        let cpu: u32 = if mask.len() > 0 { mask[0] } else { 0 };
        CpuLocation { cpu, package: 0, core: cpu }
    }
}

/// One CPU per package to read a package-scope counter: the first listed
/// CPU of each package that the PMU's CPU mask admits (an empty mask admits
/// all), in increasing package order; when none is admitted, the fallback CPU.
pub fn representative_cpus(mask: &[u32], topology: &[CpuLocation]) -> (r: Vec<CpuLocation>)
    requires
        strictly_sorted(mask@),
    ensures
        masked(topology@, mask@).len() > 0 ==> first_per_key(masked(topology@, mask@), false, r@),
        masked(topology@, mask@).len() == 0 ==> r@ == seq![fallback_cpu(topology@, mask@)],
{
    let mut r: Vec<CpuLocation> = Vec::new();
    let ghost mut admitted: Seq<CpuLocation> = Seq::empty();
    let mut n: usize = 0;
    while n < topology.len()
        invariant
            n <= topology@.len(),
            admitted == masked(topology@.take(n as int), mask@),
            first_per_key(admitted, false, r@),
        decreases topology.len() - n,
    {
        let c = topology[n];
        let mut allowed = mask.len() == 0;
        let mut m: usize = 0;
        while !allowed && m < mask.len()
            invariant
                m <= mask@.len(),
                allowed == (mask@.len() == 0 || exists|j: int| 0 <= j < m && mask@[j] == c.cpu),
            decreases mask.len() - m,
        {
            if mask[m] == c.cpu {
                allowed = true;
            }
            m += 1;
        }
        proof {
            if !allowed {
                assert(!mask@.contains(c.cpu));
            }
            assert(topology@.take(n + 1).drop_last() =~= topology@.take(n as int));
            assert(topology@.take(n + 1).last() == c);
        }
        if allowed {
            proof {
                admitted = admitted.push(c);
                assert(admitted.drop_last() =~= masked(topology@.take(n as int), mask@));
            }
            add_first(&mut r, c, false, Ghost(admitted));
        }
        n += 1;
    }
    assert(topology@.take(topology.len() as int) =~= topology@);
    if r.len() == 0 {
        proof {
            if admitted.len() > 0 {
                assert(key_listed(r@, false, loc_key(admitted[0], false)));
            }
        }
        let fallback = if topology.len() > 0 {
            topology[0]
        } else {
            let cpu: u32 = if mask.len() > 0 { mask[0] } else { 0 };
            CpuLocation { cpu, package: 0, core: cpu }
        };
        r.push(fallback);
        proof {
            assert(r@ =~= seq![fallback_cpu(topology@, mask@)]);
        }
    } else {
        proof {
            assert(admitted.len() > 0) by {
                assert(is_first_of_key(admitted, false, r@[0]));
            }
        }
    }
    r
}

// ---------------------------------------------------------------------------
// Counter arithmetic
// ---------------------------------------------------------------------------
/// The energy counted between two reads: the plain difference, or across
/// one wrap of a counter whose maximum is known and bounds both reads.
pub open spec fn counter_delta_of(previous: u64, current: u64, maximum: Option<u64>) -> Option<int> {
    if current >= previous {
        Some(current - previous)
    } else {
        match maximum {
            Some(m) => if previous <= m && current <= m {
                Some(m - previous + current)
            } else {
                None
            },
            None => None,
        }
    }
}

pub fn counter_delta(previous: u64, current: u64, maximum: Option<u64>) -> (r: Option<u64>)
    ensures
        r matches Some(d) ==> counter_delta_of(previous, current, maximum) == Some(d as int),
        r is None ==> counter_delta_of(previous, current, maximum) is None,
{
    if current >= previous {
        Some(current - previous)
    } else {
        match maximum {
            Some(m) => if previous <= m && current <= m {
                Some(m - previous + current)
            } else {
                None
            },
            None => None,
        }
    }
}

} // verus!
