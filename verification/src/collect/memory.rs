//! Identity of memory modules: which slot names are specific enough to
//! identify a module, and the stable ids and names derived from them.
use vstd::prelude::*;
use crate::text::{
    all_digits, append_chars, append_str, chars_all_digits, chars_eq_str, chars_of, lower_seq,
    slug, slug_chars, string_of, strip_prefix, strip_prefix_str, to_lower, trim, trim_chars,
    unicode_lower_chars, unicode_lower_seq, opt_view, lines, lines_of, parse_unsigned,
    parse_unsigned_chars, split_once, split_once_chars, views, words, words_of,
};

verus! {

/// Locator values that name no particular slot.
pub open spec fn is_placeholder_locator(n: Seq<char>) -> bool {
    n == "unknown"@ || n == "none"@ || n == "not specified"@ || n == "not installed"@ || n
        == "dimm"@ || n == "module"@ || n == "memory module"@ || n == "spd5118"@ || n == "jc42"@
}

/// The characters of `s` without spaces, dashes and underscores.
pub open spec fn without_separators(s: Seq<char>) -> Seq<char>
    decreases s.len(),
{
    if s.len() == 0 {
        Seq::empty()
    } else {
        let rest = without_separators(s.drop_last());
        let c = s.last();
        if c == ' ' || c == '-' || c == '_' {
            rest
        } else {
            rest.push(c)
        }
    }
}

/// A generic numbered name such as `dimm0`.
pub open spec fn is_numbered_dimm(s: Seq<char>) -> bool {
    strip_prefix(s, "dimm"@) matches Some(rest) && rest.len() > 0 && all_digits(rest)
}

/// A locator that names a physical slot: after trimming and ASCII
/// lower-casing it is not empty, not a placeholder, not made of separators
/// alone, and not a generic numbered `dimm`.
pub open spec fn is_specific_locator(value: Seq<char>) -> bool {
    let n = lower_seq(trim(value));
    let compact = without_separators(n);
    n.len() > 0 && !is_placeholder_locator(n) && compact.len() > 0 && !is_numbered_dimm(compact)
}

fn placeholder_check(n: &[char]) -> (r: bool)
    ensures
        r == is_placeholder_locator(n@),
{
    chars_eq_str(n, "unknown") || chars_eq_str(n, "none") || chars_eq_str(n, "not specified")
        || chars_eq_str(n, "not installed") || chars_eq_str(n, "dimm") || chars_eq_str(n, "module")
        || chars_eq_str(n, "memory module") || chars_eq_str(n, "spd5118") || chars_eq_str(
        n,
        "jc42",
    )
}

fn remove_separators(s: &[char]) -> (r: Vec<char>)
    ensures
        r@ == without_separators(s@),
{
    let mut r: Vec<char> = Vec::new();
    let mut i: usize = 0;
    while i < s.len()
        invariant
            i <= s@.len(),
            r@ == without_separators(s@.take(i as int)),
        decreases s.len() - i,
    {
        proof {
            assert(s@.take(i + 1).drop_last() =~= s@.take(i as int));
        }
        let c = s[i];
        if !(c == ' ' || c == '-' || c == '_') {
            r.push(c);
        }
        i += 1;
    }
    assert(s@.take(s.len() as int) =~= s@);
    r
}

pub fn locator_is_specific(value: &str) -> (r: bool)
    ensures
        r == is_specific_locator(value@),
{
    let c = chars_of(value);
    let t = trim_chars(&c);
    let n = to_lower(&t);
    if n.len() == 0 || placeholder_check(&n) {
        return false;
    }
    let compact = remove_separators(&n);
    if compact.len() == 0 {
        return false;
    }
    let numbered = match strip_prefix_str(&compact, "dimm") {
        Some(rest) => rest.len() > 0 && chars_all_digits(&rest),
        None => false,
    };
    !numbered
}

/// The slug of a locator: its trimmed, lower-cased ASCII alphanumeric runs joined by dashes.
pub open spec fn locator_slug(locator: Seq<char>) -> Seq<char> {
    slug(unicode_lower_seq(trim(locator)))
}

fn locator_slug_chars(locator: &[char]) -> (r: Vec<char>)
    ensures
        r@ == locator_slug(locator@),
{
    let t = trim_chars(locator);
    let l = unicode_lower_chars(&t);
    slug_chars(&l)
}

/// The stable id of a module in a named slot: `memory:slot:<slug>`.
pub open spec fn slot_id(locator: Seq<char>) -> Option<Seq<char>> {
    if !is_specific_locator(locator) || locator_slug(locator).len() == 0 {
        None
    } else {
        Some("memory:slot:"@ + locator_slug(locator))
    }
}

pub fn slot_device_id(locator: &str) -> (r: Option<String>)
    ensures
        opt_view(r) == slot_id(locator@),
{
    if !locator_is_specific(locator) {
        return None;
    }
    let c = chars_of(locator);
    let s = locator_slug_chars(&c);
    if s.len() == 0 {
        return None;
    }
    let mut id: Vec<char> = Vec::new();
    append_str(&mut id, "memory:slot:");
    append_chars(&mut id, &s);
    Some(string_of(&id))
}

/// Id of a module reported by an EDAC memory controller: its slot id when
/// its label names a slot, else `memory:<controller>:<dimm>`.
pub open spec fn edac_module_id(controller: Seq<char>, dimm: Seq<char>, label: Option<Seq<char>>) -> Seq<char> {
    match label {
        Some(l) if slot_id(l) is Some => slot_id(l)->0,
        _ => "memory:"@ + controller + ":"@ + dimm,
    }
}

/// Display name of such a module: `Memory module <label>` when its label
/// names a slot, else `Memory module <controller>/<dimm>`.
pub open spec fn edac_module_name(controller: Seq<char>, dimm: Seq<char>, label: Option<Seq<char>>) -> Seq<char> {
    match label {
        Some(l) if is_specific_locator(l) => "Memory module "@ + l,
        _ => "Memory module "@ + controller + "/"@ + dimm,
    }
}

/// The id and display name of an EDAC memory module.
pub fn edac_module_identity(controller: &str, dimm: &str, label: Option<&str>) -> (r: (String, String))
    ensures
        r.0@ == edac_module_id(controller@, dimm@, opt_str(label)),
        r.1@ == edac_module_name(controller@, dimm@, opt_str(label)),
{
    let id = match label {
        Some(l) => slot_device_id(l),
        None => None,
    };
    let id = match id {
        Some(id) => id,
        None => {
            let mut v: Vec<char> = Vec::new();
            append_str(&mut v, "memory:");
            append_str(&mut v, controller);
            append_str(&mut v, ":");
            append_str(&mut v, dimm);
            string_of(&v)
        },
    };
    let mut name: Vec<char> = Vec::new();
    append_str(&mut name, "Memory module ");
    match label {
        Some(l) if locator_is_specific(l) => {
            append_str(&mut name, l);
        },
        _ => {
            append_str(&mut name, controller);
            append_str(&mut name, "/");
            append_str(&mut name, dimm);
        },
    }
    proof {
        assert(name@ =~= edac_module_name(controller@, dimm@, opt_str(label)));
    }
    (id, string_of(&name))
}

/// View of an optional string slice.
pub open spec fn opt_str(o: Option<&str>) -> Option<Seq<char>> {
    match o {
        Some(s) => Some(s@),
        None => None,
    }
}

/// A `/proc/meminfo` line as a key and a size in bytes (the first word
/// after the colon, in KiB, times 1024, saturating).
pub open spec fn meminfo_line(line: Seq<char>) -> Option<(Seq<char>, u64)> {
    match split_once(line, ':') {
        Some((key, rest)) => if words(rest).len() > 0 {
            match parse_unsigned(words(rest)[0], 10, u64::MAX as nat) {
                Some(kib) => Some((key, if kib * 1024 <= u64::MAX { (kib * 1024) as u64 } else { u64::MAX })),
                None => None,
            }
        } else {
            None
        },
        None => None,
    }
}

/// The last readable value for `key` among the lines.
pub open spec fn meminfo_lookup(ls: Seq<Seq<char>>, key: Seq<char>) -> Option<u64>
    decreases ls.len(),
{
    if ls.len() == 0 {
        None
    } else {
        match meminfo_line(ls.last()) {
            Some((k, b)) => if k == key {
                Some(b)
            } else {
                meminfo_lookup(ls.drop_last(), key)
            },
            None => meminfo_lookup(ls.drop_last(), key),
        }
    }
}

/// System memory use in bytes.
#[derive(Debug, Clone, Copy, PartialEq, Eq, Structural)]
pub struct MemoryUsage {
    pub total: u64,
    pub available: u64,
    pub used: u64,
    pub cached: u64,
    pub buffers: u64,
    pub swap_total: u64,
    pub swap_used: u64,
}

fn or_zero(o: Option<u64>) -> (r: u64)
    ensures
        r == match o {
            Some(v) => v,
            None => 0,
        },
{
    match o {
        Some(v) => v,
        None => 0,
    }
}

/// System memory use from `/proc/meminfo`: none without `MemTotal`;
/// available memory is `MemAvailable` (else `MemFree`) capped at the total;
/// cached memory is page cache plus reclaimable slab minus shared memory;
/// swap use is the total less the free swap.
pub open spec fn usage_of(content: Seq<char>) -> Option<MemoryUsage> {
    let ls = lines(content);
    let v = |k: Seq<char>| meminfo_lookup(ls, k);
    let z = |o: Option<u64>| match o {
        Some(x) => x,
        None => 0u64,
    };
    match v("MemTotal"@) {
        Some(total) => {
            let avail0 = match v("MemAvailable"@) {
                Some(a) => a,
                None => z(v("MemFree"@)),
            };
            let available = if avail0 < total { avail0 } else { total };
            let cache_sum = z(v("Cached"@)) + z(v("SReclaimable"@));
            let cache_sat: u64 = if cache_sum <= u64::MAX { cache_sum as u64 } else { u64::MAX };
            let cached: u64 = if cache_sat >= z(v("Shmem"@)) { (cache_sat - z(v("Shmem"@))) as u64 } else { 0 };
            let swap_total = z(v("SwapTotal"@));
            let swap_free0 = z(v("SwapFree"@));
            let swap_free = if swap_free0 < swap_total { swap_free0 } else { swap_total };
            Some(MemoryUsage {
                total,
                available,
                used: (total - available) as u64,
                cached,
                buffers: z(v("Buffers"@)),
                swap_total,
                swap_used: (swap_total - swap_free) as u64,
            })
        },
        None => None,
    }
}

/// Reads one `/proc/meminfo` line.
fn parse_meminfo_line(line: &Vec<char>) -> (r: Option<(Vec<char>, u64)>)
    ensures
        match r {
            Some((k, b)) => meminfo_line(line@) == Some((k@, b)),
            None => meminfo_line(line@) is None,
        },
{
    let (key, rest) = match split_once_chars(line, ':') {
        Some(p) => p,
        None => return None,
    };
    let ws = words_of(&rest);
    if ws.len() == 0 {
        return None;
    }
    assert(views(ws@)[0] == ws@[0]@);
    match parse_unsigned_chars(&ws[0], 10, u64::MAX) {
        Some(kib) => Some((key, if kib <= u64::MAX / 1024 { kib * 1024 } else { u64::MAX })),
        None => None,
    }
}

/// The meminfo keys that memory use is computed from.
pub open spec fn meminfo_key(i: int) -> Seq<char> {
    if i == 0 {
        "MemTotal"@
    } else if i == 1 {
        "MemAvailable"@
    } else if i == 2 {
        "MemFree"@
    } else if i == 3 {
        "Cached"@
    } else if i == 4 {
        "SReclaimable"@
    } else if i == 5 {
        "Shmem"@
    } else if i == 6 {
        "Buffers"@
    } else if i == 7 {
        "SwapTotal"@
    } else {
        "SwapFree"@
    }
}

fn meminfo_key_str(i: usize) -> (r: &'static str)
    requires
        i < 9,
    ensures
        r@ == meminfo_key(i as int),
{
    if i == 0 {
        "MemTotal"
    } else if i == 1 {
        "MemAvailable"
    } else if i == 2 {
        "MemFree"
    } else if i == 3 {
        "Cached"
    } else if i == 4 {
        "SReclaimable"
    } else if i == 5 {
        "Shmem"
    } else if i == 6 {
        "Buffers"
    } else if i == 7 {
        "SwapTotal"
    } else {
        "SwapFree"
    }
}

/// Computes system memory use from the text of `/proc/meminfo`.
pub fn memory_usage(content: &str) -> (r: Option<MemoryUsage>)
    ensures
        r == usage_of(content@),
{
    let ls = lines_of(&chars_of(content));
    let ghost lv = lines(content@);
    let mut slots: Vec<Option<u64>> = vec![None, None, None, None, None, None, None, None, None];
    let mut i: usize = 0;
    while i < ls.len()
        invariant
            i <= ls@.len(),
            views(ls@) == lv,
            slots@.len() == 9,
            forall|k: int| 0 <= k < 9 ==> #[trigger] slots@[k] == meminfo_lookup(lv.take(i as int), meminfo_key(k)),
        decreases ls.len() - i,
    {
        assert(lv.take(i + 1).drop_last() =~= lv.take(i as int));
        assert(lv.take(i + 1).last() == ls@[i as int]@);
        match parse_meminfo_line(&ls[i]) {
            Some((key, bytes)) => {
                let mut k: usize = 0;
                while k < 9
                    invariant
                        k <= 9,
                        slots@.len() == 9,
                        i + 1 <= lv.len(),
                        meminfo_line(lv.take(i + 1).last()) == Some((key@, bytes)),
                        lv.take(i + 1).drop_last() == lv.take(i as int),
                        forall|m: int| 0 <= m < k ==> #[trigger] slots@[m] == meminfo_lookup(lv.take(i + 1), meminfo_key(m)),
                        forall|m: int| k <= m < 9 ==> #[trigger] slots@[m] == meminfo_lookup(lv.take(i as int), meminfo_key(m)),
                    decreases 9 - k,
                {
                    let ks = meminfo_key_str(k);
                    assert(meminfo_lookup(lv.take(i + 1), meminfo_key(k as int)) == if key@ == meminfo_key(k as int) {
                        Some(bytes)
                    } else {
                        meminfo_lookup(lv.take(i as int), meminfo_key(k as int))
                    });
                    if chars_eq_str(&key, ks) {
                        slots.set(k, Some(bytes));
                    }
                    k += 1;
                }
            },
            None => {
                assert forall|m: int| 0 <= m < 9 implies #[trigger] slots@[m] == meminfo_lookup(lv.take(i + 1), meminfo_key(m)) by {}
            },
        }
        i += 1;
    }
    assert(lv.take(ls.len() as int) =~= lv);
    assert(slots@[0] == meminfo_lookup(lv, "MemTotal"@));
    assert(slots@[1] == meminfo_lookup(lv, "MemAvailable"@));
    assert(slots@[2] == meminfo_lookup(lv, "MemFree"@));
    assert(slots@[3] == meminfo_lookup(lv, "Cached"@));
    assert(slots@[4] == meminfo_lookup(lv, "SReclaimable"@));
    assert(slots@[5] == meminfo_lookup(lv, "Shmem"@));
    assert(slots@[6] == meminfo_lookup(lv, "Buffers"@));
    assert(slots@[7] == meminfo_lookup(lv, "SwapTotal"@));
    assert(slots@[8] == meminfo_lookup(lv, "SwapFree"@));
    let total = match slots[0] {
        Some(t) => t,
        None => return None,
    };
    let avail0 = match slots[1] {
        Some(a) => a,
        None => or_zero(slots[2]),
    };
    let available = if avail0 < total { avail0 } else { total };
    let cached = or_zero(slots[3]).saturating_add(or_zero(slots[4])).saturating_sub(or_zero(slots[5]));
    let swap_total = or_zero(slots[7]);
    let swap_free0 = or_zero(slots[8]);
    let swap_free = if swap_free0 < swap_total { swap_free0 } else { swap_total };
    Some(MemoryUsage {
        total,
        available,
        used: total - available,
        cached,
        buffers: or_zero(slots[6]),
        swap_total,
        swap_used: swap_total - swap_free,
    })
}

/// The id and name of an EDAC memory controller (`mc0`), when the entry
/// is one.
pub open spec fn edac_controller_of(name: Seq<char>) -> Option<(Seq<char>, Seq<char>)> {
    if strip_prefix(name, "mc"@) is Some {
        Some(("memory:"@ + name, "Memory controller "@ + name))
    } else {
        None
    }
}

pub fn edac_controller_identity(name: &str) -> (r: Option<(String, String)>)
    ensures
        match r {
            Some((id, label)) => edac_controller_of(name@) == Some((id@, label@)),
            None => edac_controller_of(name@) is None,
        },
{
    if strip_prefix_str(&chars_of(name), "mc").is_none() {
        return None;
    }
    let mut id = chars_of("memory:");
    append_str(&mut id, name);
    let mut label = chars_of("Memory controller ");
    append_str(&mut label, name);
    Some((string_of(&id), string_of(&label)))
}

} // verus!
