//! The naming and matching rules used when records from several collectors
//! are reconciled: network adapter names, memory slot locators, I2C client
//! order and NVMe namespace names.
use vstd::prelude::*;
use crate::model::DeviceClass;
use crate::text::{
    all_digits, append_chars, append_str, chars_all_digits, chars_eq, chars_eq_str, chars_of, is_alnum,
    lower, opt_view, parse_unsigned, parse_unsigned_chars, split_once, split_once_chars,
    starts_with_str, string_of, strip_prefix, strip_prefix_str, strip_suffix, strip_suffix_str,
    trim, trim_chars, trim_start_seq, trim_start_seq_chars,
};

verus! {

/// A vendor name without its corporate suffix: the first of
/// ` Semiconductor Co., Ltd.`, ` Semiconductor Corporation`, ` Corporation`
/// and ` Inc.` that ends the trimmed name is removed, then the rest trimmed.
pub open spec fn concise_vendor(value: Seq<char>) -> Seq<char> {
    let t = trim(value);
    let s = match strip_suffix(t, " Semiconductor Co., Ltd."@) {
        Some(x) => x,
        None => match strip_suffix(t, " Semiconductor Corporation"@) {
            Some(x) => x,
            None => match strip_suffix(t, " Corporation"@) {
                Some(x) => x,
                None => match strip_suffix(t, " Inc."@) {
                    Some(x) => x,
                    None => t,
                },
            },
        },
    };
    trim(s)
}

/// Shortens a vendor name.
pub fn concise_vendor_name(value: &str) -> (r: String)
    ensures
        r@ == concise_vendor(value@),
{
    let t = trim_chars(&chars_of(value));
    let s = match strip_suffix_str(&t, " Semiconductor Co., Ltd.") {
        Some(x) => x,
        None => match strip_suffix_str(&t, " Semiconductor Corporation") {
            Some(x) => x,
            None => match strip_suffix_str(&t, " Corporation") {
                Some(x) => x,
                None => match strip_suffix_str(&t, " Inc.") {
                    Some(x) => x,
                    None => t,
                },
            },
        },
    };
    string_of(&trim_chars(&s))
}

/// Whether `s` starts with `p`.
pub open spec fn begins_with(s: Seq<char>, p: Seq<char>) -> bool {
    p.len() <= s.len() && s.take(p.len() as int) == p
}

/// The name of a network adapter from its vendor, model and interface kind:
/// the model, with an Ethernet controller's `Ethernet Controller` prefix
/// moved to the end, led by the short vendor name unless the model already
/// starts with it; or the vendor and the kind of adapter when no model is
/// known.
pub open spec fn network_name_of(
    vendor: Option<Seq<char>>,
    model: Option<Seq<char>>,
    kind: Option<Seq<char>>,
) -> Option<Seq<char>> {
    let v = match vendor {
        Some(x) => Some(concise_vendor(x)),
        None => None,
    };
    let m = match model {
        Some(x) => if trim(x).len() > 0 {
            Some(trim(x))
        } else {
            None
        },
        None => None,
    };
    match (v, m) {
        (Some(v), Some(m)) => {
            let m2 = if kind == Some("ethernet"@) {
                match strip_prefix(m, "Ethernet Controller "@) {
                    Some(x) => x + " Ethernet"@,
                    None => m,
                }
            } else {
                m
            };
            if begins_with(m2, v) {
                Some(m2)
            } else {
                Some(v + " "@ + m2)
            }
        },
        (None, Some(m)) => Some(m),
        (Some(v), None) => Some(
            if kind == Some("wifi"@) {
                v + " Wi-Fi"@
            } else if kind == Some("ethernet"@) {
                v + " Ethernet"@
            } else {
                v + " network adapter"@
            },
        ),
        (None, None) => None,
    }
}

fn is_kind(kind: Option<&str>, name: &str) -> (r: bool)
    ensures
        r == (match kind {
            Some(k) => Some(k@),
            None => None,
        } == Some(name@)),
{
    match kind {
        Some(k) => chars_eq_str(&chars_of(k), name),
        None => false,
    }
}

/// Names a network adapter.
pub fn network_hardware_name(vendor: Option<&str>, model: Option<&str>, kind: Option<&str>) -> (r:
    Option<String>)
    ensures
        opt_view(r) == network_name_of(
            match vendor {
                Some(x) => Some(x@),
                None => None,
            },
            match model {
                Some(x) => Some(x@),
                None => None,
            },
            match kind {
                Some(x) => Some(x@),
                None => None,
            },
        ),
{
    let v = match vendor {
        Some(x) => Some(chars_of(concise_vendor_name(x).as_str())),
        None => None,
    };
    let m = match model {
        Some(x) => {
            let t = trim_chars(&chars_of(x));
            if t.len() > 0 {
                Some(t)
            } else {
                None
            }
        },
        None => None,
    };
    match (v, m) {
        (Some(v), Some(m)) => {
            let m2 = if is_kind(kind, "ethernet") {
                match strip_prefix_str(&m, "Ethernet Controller ") {
                    Some(x) => {
                        let mut y = x;
                        append_str(&mut y, " Ethernet");
                        y
                    },
                    None => m,
                }
            } else {
                m
            };
            let vs = string_of(&v);
            if starts_with_str(&m2, vs.as_str()) {
                Some(string_of(&m2))
            } else {
                let mut out = v;
                append_str(&mut out, " ");
                append_chars(&mut out, &m2);
                Some(string_of(&out))
            }
        },
        (None, Some(m)) => Some(string_of(&m)),
        (Some(v), None) => {
            let mut out = v;
            if is_kind(kind, "wifi") {
                append_str(&mut out, " Wi-Fi");
            } else if is_kind(kind, "ethernet") {
                append_str(&mut out, " Ethernet");
            } else {
                append_str(&mut out, " network adapter");
            }
            Some(string_of(&out))
        },
        (None, None) => None,
    }
}

/// A memory locator reduced to its lowercased ASCII letters and digits, so
/// that `DIMM A2`, `dimm_a2` and `DIMM-A2` compare equal.
pub open spec fn normalized_locator_of(value: Seq<char>) -> Seq<char>
    decreases value.len(),
{
    if value.len() == 0 {
        seq![]
    } else {
        let rest = normalized_locator_of(value.drop_last());
        if is_alnum(value.last()) {
            rest.push(lower(value.last()))
        } else {
            rest
        }
    }
}

/// Normalizes a memory locator for comparison.
pub fn normalized_locator(value: &str) -> (r: String)
    ensures
        r@ == normalized_locator_of(value@),
{
    let v = chars_of(value);
    let mut out: Vec<char> = Vec::new();
    let mut i: usize = 0;
    while i < v.len()
        invariant
            i <= v.len(),
            out@ == normalized_locator_of(v@.take(i as int)),
        decreases v.len() - i,
    {
        assert(v@.take(i + 1).drop_last() =~= v@.take(i as int));
        let c = v[i];
        if crate::text::char_is_alnum(c) {
            out.push(crate::text::char_lower(c));
        }
        i += 1;
    }
    assert(v@.take(v.len() as int) =~= v@);
    string_of(&out)
}

/// The sort key of an I2C client from its bus number and hexadecimal
/// address (leading `0x` prefixes removed).
pub open spec fn i2c_key_of(bus: Seq<char>, address: Seq<char>) -> Option<(u32, u16)> {
    match (
        parse_unsigned(bus, 10, u32::MAX as nat),
        parse_unsigned(trim_start_seq(address, "0x"@), 16, u16::MAX as nat),
    ) {
        (Some(b), Some(a)) => Some((b as u32, a as u16)),
        _ => None,
    }
}

/// The sort key of an I2C client named like `6-0053`.
pub open spec fn i2c_client_key_of(client: Seq<char>) -> Option<(u32, u16)> {
    match split_once(client, '-') {
        Some((bus, address)) => i2c_key_of(bus, address),
        None => None,
    }
}

/// Orders I2C clients by bus and address.
pub fn i2c_sort_key(bus: &str, address: &str) -> (r: Option<(u32, u16)>)
    ensures
        r == i2c_key_of(bus@, address@),
{
    let b = parse_unsigned_chars(&chars_of(bus), 10, 0xffff_ffff);
    let a = parse_unsigned_chars(&trim_start_seq_chars(&chars_of(address), &chars_of("0x")), 16, 0xffff);
    match (b, a) {
        (Some(b), Some(a)) => Some((b as u32, a as u16)),
        _ => None,
    }
}

/// Orders an I2C client by its name.
pub fn i2c_client_sort_key(client: &str) -> (r: Option<(u32, u16)>)
    ensures
        r == i2c_client_key_of(client@),
{
    match split_once_chars(&chars_of(client), '-') {
        Some((bus, address)) => i2c_sort_key(string_of(&bus).as_str(), string_of(&address).as_str()),
        None => None,
    }
}

/// Whether a block device name is an NVMe namespace (`nvme0n1`).
pub open spec fn is_nvme_namespace(name: Seq<char>) -> bool {
    match strip_prefix(name, "nvme"@) {
        Some(rest) => match split_once(rest, 'n') {
            Some((controller, namespace)) => controller.len() > 0 && namespace.len() > 0
                && all_digits(controller) && all_digits(namespace),
            None => false,
        },
        None => false,
    }
}

pub fn is_nvme_namespace_name(name: &str) -> (r: bool)
    ensures
        r == is_nvme_namespace(name@),
{
    let n = chars_of(name);
    match strip_prefix_str(&n, "nvme") {
        Some(rest) => match split_once_chars(&rest, 'n') {
            Some((controller, namespace)) => controller.len() > 0 && namespace.len() > 0
                && chars_all_digits(&controller) && chars_all_digits(&namespace),
            None => false,
        },
        None => false,
    }
}

/// Whether a storage name is only the generic NVMe placeholder.
pub open spec fn is_generic_nvme(name: Seq<char>) -> bool {
    name == "NVMe"@ || begins_with(name, "NVMe controller "@)
}

pub fn is_generic_nvme_name(name: &str) -> (r: bool)
    ensures
        r == is_generic_nvme(name@),
{
    let n = chars_of(name);
    chars_eq_str(&n, "NVMe") || starts_with_str(&n, "NVMe controller ")
}

/// Whether a driver provides memory-module telemetry (SPD hubs and
/// JEDEC temperature sensors).
pub open spec fn is_memory_telemetry_driver(driver: Seq<char>) -> bool {
    driver == "spd5118"@ || driver == "jc42"@
}

pub fn memory_telemetry_driver(driver: &str) -> (r: bool)
    ensures
        r == is_memory_telemetry_driver(driver@),
{
    let d = chars_of(driver);
    chars_eq_str(&d, "spd5118") || chars_eq_str(&d, "jc42")
}


// ---------------------------------------------------------------------------
// Network adapters take their identity from their PCI function
// ---------------------------------------------------------------------------
/// What the network identity pass reads of a device record.
#[derive(Debug, Clone)]
pub struct NetworkFacts {
    pub class: DeviceClass,
    /// The `pci_address` property, when it is a string.
    pub pci_address: Option<String>,
    /// Whether the record already has a `vendor_id` or a `class_code`.
    pub has_pci_identity: bool,
    pub bus_address: Option<String>,
}

/// Whether an optional text is present and equal to `a`.
pub open spec fn text_is(o: Option<String>, a: Seq<char>) -> bool {
    o matches Some(p) && p@ == a
}

/// Whether some network record at PCI address `a` still lacks its PCI
/// identity.
pub open spec fn identity_pending(ds: Seq<NetworkFacts>, a: Seq<char>) -> bool {
    exists|k: int|
        0 <= k < ds.len() && ds[k].class == DeviceClass::Network && !ds[k].has_pci_identity && text_is(
            #[trigger] ds[k].pci_address,
            a,
        )
}

/// The last PCI record before `n` whose bus address is `a`.
pub open spec fn last_pci_before(ds: Seq<NetworkFacts>, a: Seq<char>, n: int) -> Option<int>
    decreases n,
{
    if n <= 0 || n > ds.len() {
        None
    } else if ds[n - 1].class == DeviceClass::Pci && text_is(ds[n - 1].bus_address, a) {
        Some(n - 1)
    } else {
        last_pci_before(ds, a, n - 1)
    }
}

/// The PCI record a network record takes its vendor, model, driver, PCI
/// properties and name from: the last PCI record at the network record's
/// `pci_address`, when some network record there lacks its identity.
pub open spec fn identity_source(ds: Seq<NetworkFacts>, k: int) -> Option<int> {
    if ds[k].class == DeviceClass::Network {
        match ds[k].pci_address {
            Some(p) => if identity_pending(ds, p@) {
                last_pci_before(ds, p@, ds.len() as int)
            } else {
                None
            },
            None => None,
        }
    } else {
        None
    }
}

proof fn lemma_last_pci_range(ds: Seq<NetworkFacts>, a: Seq<char>, n: int)
    ensures
        last_pci_before(ds, a, n) matches Some(i) ==> 0 <= i < n && i < ds.len() && ds[i].class
            == DeviceClass::Pci && text_is(ds[i].bus_address, a),
    decreases n,
{
    if 0 < n <= ds.len() {
        lemma_last_pci_range(ds, a, n - 1);
    }
}

/// Whether two texts are equal.
pub(crate) fn text_eq(a: &String, b: &String) -> (r: bool)
    ensures
        r == (a@ == b@),
{
    let x = chars_of(a.as_str());
    let y = chars_of(b.as_str());
    chars_eq(&x, &y)
}

fn pending_at(ds: &[NetworkFacts], a: &String) -> (r: bool)
    ensures
        r == identity_pending(ds@, a@),
{
    let mut k: usize = 0;
    while k < ds.len()
        invariant
            k <= ds.len(),
            forall|x: int|
                0 <= x < k ==> !(ds@[x].class == DeviceClass::Network && !ds@[x].has_pci_identity && text_is(
                    #[trigger] ds@[x].pci_address,
                    a@,
                )),
        decreases ds.len() - k,
    {
        if ds[k].class == DeviceClass::Network && !ds[k].has_pci_identity {
            match &ds[k].pci_address {
                Some(p) => {
                    if text_eq(p, a) {
                        return true;
                    }
                },
                None => {},
            }
        }
        k = k + 1;
    }
    false
}

fn last_pci(ds: &[NetworkFacts], a: &String) -> (r: Option<usize>)
    ensures
        match r {
            Some(i) => last_pci_before(ds@, a@, ds@.len() as int) == Some(i as int),
            None => last_pci_before(ds@, a@, ds@.len() as int) is None,
        },
{
    let mut n: usize = ds.len();
    while n > 0
        invariant
            n <= ds.len(),
            last_pci_before(ds@, a@, ds@.len() as int) == last_pci_before(ds@, a@, n as int),
        decreases n,
    {
        let i = n - 1;
        if ds[i].class == DeviceClass::Pci {
            match &ds[i].bus_address {
                Some(b) => {
                    if text_eq(b, a) {
                        return Some(i);
                    }
                },
                None => {},
            }
        }
        n = i;
    }
    None
}

/// For each record, the PCI record it takes its identity from.
pub fn network_identity_sources(ds: &[NetworkFacts]) -> (r: Vec<Option<usize>>)
    ensures
        r@.len() == ds.len(),
        forall|k: int|
            0 <= k < ds.len() ==> match #[trigger] r@[k] {
                Some(i) => identity_source(ds@, k) == Some(i as int),
                None => identity_source(ds@, k) is None,
            },
{
    let mut r: Vec<Option<usize>> = Vec::new();
    let mut k: usize = 0;
    while k < ds.len()
        invariant
            k <= ds.len(),
            r@.len() == k,
            forall|x: int|
                0 <= x < k ==> match #[trigger] r@[x] {
                    Some(i) => identity_source(ds@, x) == Some(i as int),
                    None => identity_source(ds@, x) is None,
                },
        decreases ds.len() - k,
    {
        let mut source: Option<usize> = None;
        if ds[k].class == DeviceClass::Network {
            match &ds[k].pci_address {
                Some(p) => {
                    if pending_at(ds, p) {
                        source = last_pci(ds, p);
                    }
                },
                None => {},
            }
        }
        r.push(source);
        k = k + 1;
    }
    r
}

/// The PCI properties a network record copies from its PCI function.
pub open spec fn copied_from_pci(key: Seq<char>) -> bool {
    key == "vendor_id"@ || key == "device_id"@ || key == "subsystem_vendor_id"@ || key
        == "subsystem_device_id"@ || key == "class_code"@ || key == "revision"@ || key
        == "current_link_speed"@ || key == "current_link_width"@ || key == "maximum_link_speed"@
        || key == "maximum_link_width"@ || key == "iommu_group"@ || key == "resource_table_bytes"@
}

pub fn is_copied_from_pci(key: &str) -> (r: bool)
    ensures
        r == copied_from_pci(key@),
{
    let k = chars_of(key);
    chars_eq_str(&k, "vendor_id") || chars_eq_str(&k, "device_id") || chars_eq_str(&k, "subsystem_vendor_id")
        || chars_eq_str(&k, "subsystem_device_id") || chars_eq_str(&k, "class_code") || chars_eq_str(
        &k,
        "revision",
    ) || chars_eq_str(&k, "current_link_speed") || chars_eq_str(&k, "current_link_width")
        || chars_eq_str(&k, "maximum_link_speed") || chars_eq_str(&k, "maximum_link_width")
        || chars_eq_str(&k, "iommu_group") || chars_eq_str(&k, "resource_table_bytes")
}


/// A network record only ever takes its identity from a PCI record whose
/// bus address is the network record's PCI address.
pub proof fn law_identity_source_matches_address(ds: Seq<NetworkFacts>, k: int)
    requires
        0 <= k < ds.len(),
    ensures
        identity_source(ds, k) matches Some(i) ==> {
            &&& 0 <= i < ds.len()
            &&& ds[k].class == DeviceClass::Network
            &&& ds[i].class == DeviceClass::Pci
            &&& ds[k].pci_address matches Some(p) && text_is(ds[i].bus_address, p@)
        },
{
    if let Some(p) = ds[k].pci_address {
        lemma_last_pci_range(ds, p@, ds.len() as int);
    }
}

} // verus!
