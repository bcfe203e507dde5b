//! Names and tokens that the sysfs collectors derive from paths and ids.
//!
//! A path is handled as text: its components are the pieces between `/`
//! separators.  Empty pieces and `.` never satisfy any of the component
//! predicates below, so the last matching piece is also the last matching
//! `Path::components()` item.
use vstd::prelude::*;
use crate::text::{
    all_radix_digits, char_is_alnum, char_is_digit, char_is_hex_digit, char_lower,
    chars_eq_str, chars_of, find_char_from, index_of, is_alnum, is_digit, is_hex_digit, lower,
    lower_seq, opt_chars, opt_string_of, opt_view, parse_unsigned, parse_unsigned_chars, slice_chars,
    slug, slug_chars, split, split_chars, split_once, split_once_chars, starts_with_str,
    string_of, strip_prefix, strip_prefix_str, to_lower, trim, trim_chars, unicode_lower_chars,
    unicode_lower_seq, views, trim_char, trim_char_chars, append_chars, char_to_uppercase, unicode_upper,
};

verus! {

// ---------------------------------------------------------------------------
// Hexadecimal ids
// ---------------------------------------------------------------------------
/// A trimmed hexadecimal value, with or without a `0x` prefix, that fits in 16 bits.
pub open spec fn hex_u16_value(s: Seq<char>) -> Option<nat> {
    let t = trim(s);
    let d = match strip_prefix(t, "0x"@) {
        Some(rest) => rest,
        None => t,
    };
    parse_unsigned(d, 16, 0xffff)
}

pub fn parse_hex_u16(value: &str) -> (r: Option<u16>)
    ensures
        r matches Some(v) ==> hex_u16_value(value@) == Some(v as nat),
        r is None ==> hex_u16_value(value@) is None,
{
    let c = chars_of(value);
    let t = trim_chars(&c);
    let d = match strip_prefix_str(&t, "0x") {
        Some(rest) => rest,
        None => t,
    };
    match parse_unsigned_chars(&d, 16, 0xffff) {
        Some(v) => Some(v as u16),
        None => None,
    }
}

// ---------------------------------------------------------------------------
// Path components
// ---------------------------------------------------------------------------
/// Kinds of path component that the collectors look for.
#[derive(Clone, Copy, PartialEq, Eq, Structural)]
pub enum PathComponentKind {
    PciAddress,
    I2cClient,
    BlockDevice,
}

/// A PCI address such as `0000:03:00.0`.
pub open spec fn is_pci_address(s: Seq<char>) -> bool {
    &&& s.len() == 12
    &&& s[4] == ':'
    &&& s[7] == ':'
    &&& s[10] == '.'
    &&& forall|i: int| 0 <= i < 12 && i != 4 && i != 7 && i != 10 ==> is_hex_digit(#[trigger] s[i])
}

/// An I2C client such as `6-0053`: decimal bus, dash, four hexadecimal digits.
pub open spec fn is_i2c_client(s: Seq<char>) -> bool {
    match split_once(s, '-') {
        Some((bus, address)) => {
            &&& bus.len() > 0
            &&& forall|i: int| 0 <= i < bus.len() ==> is_digit(#[trigger] bus[i])
            &&& address.len() == 4
            &&& forall|i: int| 0 <= i < 4 ==> is_hex_digit(#[trigger] address[i])
        },
        None => false,
    }
}

/// A non-empty suffix made of ASCII alphanumerics and dashes.
pub open spec fn is_device_suffix(s: Seq<char>) -> bool {
    s.len() > 0 && forall|i: int| 0 <= i < s.len() ==> is_alnum(#[trigger] s[i]) || s[i] == '-'
}

/// The prefixes that name whole block devices.
pub open spec fn block_prefixes() -> Seq<Seq<char>> {
    seq!["sd"@, "hd"@, "vd"@, "xvd"@, "mmcblk"@, "nvme"@, "md"@, "dm-"@]
}

/// `s` is `prefix` followed by a device suffix.
pub open spec fn prefixed_device(s: Seq<char>, prefix: Seq<char>) -> bool {
    strip_prefix(s, prefix) matches Some(rest) && is_device_suffix(rest)
}

/// A block device name: a known prefix followed by a device suffix.
pub open spec fn is_block_device_name(s: Seq<char>) -> bool {
    exists|k: int| 0 <= k < 8 && #[trigger] prefixed_device(s, block_prefixes()[k])
}

pub open spec fn component_matches(kind: PathComponentKind, s: Seq<char>) -> bool {
    match kind {
        PathComponentKind::PciAddress => is_pci_address(s),
        PathComponentKind::I2cClient => is_i2c_client(s),
        PathComponentKind::BlockDevice => is_block_device_name(s),
    }
}

/// The last of `segments` that is a component of the given kind.
pub open spec fn last_matching(segments: Seq<Seq<char>>, kind: PathComponentKind) -> Option<
    Seq<char>,
>
    decreases segments.len(),
{
    if segments.len() == 0 {
        None
    } else if component_matches(kind, segments.last()) {
        Some(segments.last())
    } else {
        last_matching(segments.drop_last(), kind)
    }
}

/// The last component of `path` of the given kind.
pub open spec fn last_component(path: Seq<char>, kind: PathComponentKind) -> Option<Seq<char>> {
    last_matching(split(path, '/'), kind)
}

fn all_hex(s: &[char], lo: usize, hi: usize) -> (r: bool)
    requires
        lo <= hi <= s@.len(),
    ensures
        r == forall|i: int| lo <= i < hi ==> is_hex_digit(#[trigger] s@[i]),
{
    let mut i = lo;
    while i < hi
        invariant
            lo <= i <= hi <= s@.len(),
            forall|j: int| lo <= j < i ==> is_hex_digit(#[trigger] s@[j]),
        decreases hi - i,
    {
        if !char_is_hex_digit(s[i]) {
            return false;
        }
        i += 1;
    }
    true
}

fn pci_address_check(s: &[char]) -> (r: bool)
    ensures
        r == is_pci_address(s@),
{
    if s.len() != 12 || s[4] != ':' || s[7] != ':' || s[10] != '.' {
        return false;
    }
    let ok = all_hex(s, 0, 4) && all_hex(s, 5, 7) && all_hex(s, 8, 10) && all_hex(s, 11, 12);
    proof {
        if ok {
            assert forall|i: int| 0 <= i < 12 && i != 4 && i != 7 && i != 10 implies is_hex_digit(
                #[trigger] s@[i],
            ) by {
                if i < 4 {
                } else if i < 7 {
                } else if i < 10 {
                } else {
                }
            }
        }
    }
    ok
}

fn i2c_client_check(s: &[char]) -> (r: bool)
    ensures
        r == is_i2c_client(s@),
{
    match split_once_chars(s, '-') {
        Some((bus, address)) => {
            if bus.len() == 0 || address.len() != 4 {
                return false;
            }
            let mut i: usize = 0;
            while i < bus.len()
                invariant
                    i <= bus@.len(),
                    split_once(s@, '-') == Some((bus@, address@)),
                    forall|j: int| 0 <= j < i ==> is_digit(#[trigger] bus@[j]),
                decreases bus.len() - i,
            {
                if !char_is_digit(bus[i]) {
                    assert(!is_digit(bus@[i as int]));
                    return false;
                }
                i += 1;
            }
            all_hex(&address, 0, 4)
        },
        None => false,
    }
}

fn device_suffix_check(s: &[char]) -> (r: bool)
    ensures
        r == is_device_suffix(s@),
{
    if s.len() == 0 {
        return false;
    }
    let mut i: usize = 0;
    while i < s.len()
        invariant
            i <= s@.len(),
            forall|j: int| 0 <= j < i ==> is_alnum(#[trigger] s@[j]) || s@[j] == '-',
        decreases s.len() - i,
    {
        if !(char_is_alnum(s[i]) || s[i] == '-') {
            return false;
        }
        i += 1;
    }
    true
}

fn prefixed_device_check(s: &[char], prefix: &str) -> (r: bool)
    ensures
        r == prefixed_device(s@, prefix@),
{
    match strip_prefix_str(s, prefix) {
        Some(rest) => device_suffix_check(&rest),
        None => false,
    }
}

fn block_device_check(s: &[char]) -> (r: bool)
    ensures
        r == is_block_device_name(s@),
{
    let b0 = prefixed_device_check(s, "sd");
    let b1 = prefixed_device_check(s, "hd");
    let b2 = prefixed_device_check(s, "vd");
    let b3 = prefixed_device_check(s, "xvd");
    let b4 = prefixed_device_check(s, "mmcblk");
    let b5 = prefixed_device_check(s, "nvme");
    let b6 = prefixed_device_check(s, "md");
    let b7 = prefixed_device_check(s, "dm-");
    proof {
        let ps = block_prefixes();
        assert(ps[0] == "sd"@ && ps[1] == "hd"@ && ps[2] == "vd"@ && ps[3] == "xvd"@ && ps[4]
            == "mmcblk"@ && ps[5] == "nvme"@ && ps[6] == "md"@ && ps[7] == "dm-"@);
        if b0 {
            assert(prefixed_device(s@, ps[0]));
        } else if b1 {
            assert(prefixed_device(s@, ps[1]));
        } else if b2 {
            assert(prefixed_device(s@, ps[2]));
        } else if b3 {
            assert(prefixed_device(s@, ps[3]));
        } else if b4 {
            assert(prefixed_device(s@, ps[4]));
        } else if b5 {
            assert(prefixed_device(s@, ps[5]));
        } else if b6 {
            assert(prefixed_device(s@, ps[6]));
        } else if b7 {
            assert(prefixed_device(s@, ps[7]));
        } else {
            assert forall|k: int| 0 <= k < 8 implies !#[trigger] prefixed_device(s@, ps[k]) by {
                if k == 0 {
                } else if k == 1 {
                } else if k == 2 {
                } else if k == 3 {
                } else if k == 4 {
                } else if k == 5 {
                } else if k == 6 {
                } else {
                }
            }
        }
    }
    b0 || b1 || b2 || b3 || b4 || b5 || b6 || b7
}

fn component_check(kind: PathComponentKind, s: &[char]) -> (r: bool)
    ensures
        r == component_matches(kind, s@),
{
    match kind {
        PathComponentKind::PciAddress => pci_address_check(s),
        PathComponentKind::I2cClient => i2c_client_check(s),
        PathComponentKind::BlockDevice => block_device_check(s),
    }
}

/// The last component of `path` of the given kind.
pub fn last_path_component(path: &str, kind: PathComponentKind) -> (r: Option<Vec<char>>)
    ensures
        opt_chars(r) == last_component(path@, kind),
{
    let p = chars_of(path);
    let segments = split_chars(&p, '/');
    let ghost all = views(segments@);
    let mut i = segments.len();
    assert(all.take(i as int) =~= all);
    while i > 0
        invariant
            i <= segments@.len(),
            all == views(segments@),
            all == split(path@, '/'),
            last_matching(all, kind) == last_matching(all.take(i as int), kind),
        decreases i,
    {
        let segment = &segments[i - 1];
        proof {
            assert(all.take(i as int).last() == segment@);
            assert(all.take(i as int).drop_last() =~= all.take(i - 1));
        }
        if component_check(kind, segment) {
            return Some(slice_chars(segment, 0, segment.len()));
        }
        i -= 1;
    }
    None
}

/// The PCI address nearest the leaf of a sysfs path, normalized.
pub open spec fn pci_address_in(path: Seq<char>) -> Option<Seq<char>> {
    match last_component(path, PathComponentKind::PciAddress) {
        Some(a) => Some(normalized_pci_address(a)),
        None => None,
    }
}

pub fn pci_address_from_path(path: &str) -> (r: Option<String>)
    ensures
        opt_view(r) == pci_address_in(path@),
{
    match last_path_component(path, PathComponentKind::PciAddress) {
        Some(a) => {
            let s = string_of(&a);
            Some(normalize_pci_address(&s))
        },
        None => None,
    }
}

/// A trimmed, lower-cased PCI address, reduced to its trailing address
/// when it carries a longer prefix.
pub open spec fn normalized_pci_address(s: Seq<char>) -> Seq<char> {
    let a = lower_seq(trim(s));
    if a.len() >= 12 && is_pci_address(a.skip(a.len() - 12)) {
        a.skip(a.len() - 12)
    } else {
        a
    }
}

pub fn normalize_pci_address(address: &str) -> (r: String)
    ensures
        r@ == normalized_pci_address(address@),
{
    let c = chars_of(address);
    let t = trim_chars(&c);
    let a = to_lower(&t);
    if a.len() >= 12 {
        let tail = slice_chars(&a, a.len() - 12, a.len());
        if pci_address_check(&tail) {
            return string_of(&tail);
        }
    }
    string_of(&a)
}

/// The block device name nearest the leaf of a sysfs path.
pub fn block_device_from_path(path: &str) -> (r: Option<String>)
    ensures
        opt_view(r) == last_component(path@, PathComponentKind::BlockDevice),
{
    opt_string_of(last_path_component(path, PathComponentKind::BlockDevice))
}

/// The I2C client token (for example `6-0053`) nearest the leaf of a sysfs
/// path, lower-cased: the bus number, a dash and the four-digit hexadecimal
/// client address.
pub open spec fn i2c_client_in(path: Seq<char>) -> Option<Seq<char>> {
    match last_component(path, PathComponentKind::I2cClient) {
        Some(c) => Some(lower_seq(c)),
        None => None,
    }
}

pub fn i2c_client_from_path(path: &str) -> (r: Option<String>)
    ensures
        opt_view(r) == i2c_client_in(path@),
{
    match last_path_component(path, PathComponentKind::I2cClient) {
        Some(c) => {
            let l = to_lower(&c);
            Some(string_of(&l))
        },
        None => None,
    }
}

// ---------------------------------------------------------------------------
// Stable tokens
// ---------------------------------------------------------------------------
/// What remains of a path after the given leading normal components, as
/// `Path::strip_prefix` sees it: empty pieces and `.` are skipped.
pub open spec fn skip_components(s: Seq<char>, names: Seq<Seq<char>>) -> Option<Seq<char>>
    decreases s.len(),
{
    if names.len() == 0 {
        Some(s)
    } else if s.len() == 0 {
        None
    } else {
        let (segment, rest) = match index_of(s, '/') {
            Some(i) => if 0 <= i < s.len() {
                (s.take(i), s.skip(i + 1))
            } else {
                (s, Seq::empty())
            },
            None => (s, Seq::empty()),
        };
        if segment.len() == 0 || segment == "."@ {
            skip_components(rest, names)
        } else if segment == names[0] {
            skip_components(rest, names.drop_first())
        } else {
            None
        }
    }
}

/// The components of `/sys/devices` after the root.
pub open spec fn sysfs_devices_components() -> Seq<Seq<char>> {
    seq!["sys"@, "devices"@]
}

/// A sysfs path relative to `/sys/devices` when it lies below it.
pub open spec fn sysfs_relative(s: Seq<char>) -> Seq<char> {
    if s.len() > 0 && s[0] == '/' {
        match skip_components(s.drop_first(), sysfs_devices_components()) {
            Some(rest) => rest,
            None => s,
        }
    } else {
        s
    }
}

/// Readable, stable token for a sysfs path: the lower-cased ASCII
/// alphanumeric runs of its part below `/sys/devices`, joined by dashes, or
/// `root` when none is left.
pub open spec fn stable_token(path: Seq<char>) -> Seq<char> {
    let t = slug(unicode_lower_seq(sysfs_relative(path)));
    if t.len() == 0 {
        "root"@
    } else {
        t
    }
}

fn sysfs_relative_chars(s: &[char]) -> (r: Vec<char>)
    ensures
        r@ == sysfs_relative(s@),
{
    if s.len() == 0 || s[0] != '/' {
        return slice_chars(s, 0, s.len());
    }
    let mut names: Vec<Vec<char>> = Vec::new();
    names.push(chars_of("sys"));
    names.push(chars_of("devices"));
    let ghost all_names = sysfs_devices_components();
    assert(views(names@) =~= all_names);
    assert(s@.skip(1) =~= s@.drop_first());
    assert(all_names.skip(0) =~= all_names);
    let mut pos: usize = 1;
    let mut k: usize = 0;
    loop
        invariant
            1 <= pos <= s@.len(),
            s@[0] == '/',
            k <= 2,
            names@.len() == 2,
            views(names@) == all_names,
            all_names == sysfs_devices_components(),
            skip_components(s@.drop_first(), all_names) == skip_components(
                s@.skip(pos as int),
                all_names.skip(k as int),
            ),
        decreases s@.len() - pos, 2 - k,
    {
        let ghost t = s@.skip(pos as int);
        if k == 2 {
            assert(all_names.skip(2).len() == 0);
            assert(s@.subrange(pos as int, s@.len() as int) =~= s@.skip(pos as int));
            return slice_chars(s, pos, s.len());
        }
        if pos == s.len() {
            assert(s@.skip(pos as int).len() == 0);
            assert(s@.subrange(0, s@.len() as int) =~= s@);
            return slice_chars(s, 0, s.len());
        }
        let found = find_char_from(s, pos, '/');
        let (end, next) = match found {
            Some(i) => (i, i + 1),
            None => (s.len(), s.len()),
        };
        proof {
            assert(all_names.skip(k as int)[0] == all_names[k as int]);
            assert(all_names.skip(k as int).drop_first() =~= all_names.skip(k + 1));
            assert(all_names.skip(k as int).len() > 0);
            assert(t.len() > 0);
            match found {
                Some(i) => {
                    assert(t.skip(end - pos + 1) =~= s@.skip(next as int));
                },
                None => {
                    assert(s@.skip(next as int) =~= Seq::<char>::empty());
                    assert(t.take(end - pos) =~= t);
                },
            }
        }
        let segment = slice_chars(s, pos, end);
        proof {
            assert(segment@ =~= t.take(end - pos));
            assert(views(names@)[k as int] == names@[k as int]@);
            let ns = all_names.skip(k as int);
            assert(skip_components(t, ns) == (if segment@.len() == 0 || segment@ == "."@ {
                skip_components(s@.skip(next as int), ns)
            } else if segment@ == ns[0] {
                skip_components(s@.skip(next as int), ns.drop_first())
            } else {
                None
            }));
        }
        if segment.len() == 0 || chars_eq_str(&segment, ".") {
            pos = next;
        } else if crate::text::chars_eq(&segment, &names[k]) {
            pos = next;
            k = k + 1;
        } else {
            assert(s@.subrange(0, s@.len() as int) =~= s@);
            return slice_chars(s, 0, s.len());
        }
    }
}

pub fn stable_path_token(path: &str) -> (r: String)
    ensures
        r@ == stable_token(path@),
{
    let p = chars_of(path);
    let rel = sysfs_relative_chars(&p);
    let lowered = unicode_lower_chars(&rel);
    let token = slug_chars(&lowered);
    if token.len() == 0 {
        crate::text::owned("root")
    } else {
        string_of(&token)
    }
}

// ---------------------------------------------------------------------------
// Device names
// ---------------------------------------------------------------------------
/// Names of memory-backed, loop and floppy devices, which have no hardware behind them.
pub open spec fn is_virtual_block_name(name: Seq<char>) -> bool {
    strip_prefix(name, "loop"@) is Some || strip_prefix(name, "ram"@) is Some || strip_prefix(
        name,
        "zram"@,
    ) is Some || strip_prefix(name, "fd"@) is Some
}

pub fn is_virtual_block_device_name(name: &str) -> (r: bool)
    ensures
        r == is_virtual_block_name(name@),
{
    let n = chars_of(name);
    strip_prefix_str(&n, "loop").is_some() || strip_prefix_str(&n, "ram").is_some()
        || strip_prefix_str(&n, "zram").is_some() || strip_prefix_str(&n, "fd").is_some()
}

/// An NVMe controller name such as `nvme0`, as opposed to a namespace such as `nvme0n1`.
pub open spec fn is_nvme_controller(name: Seq<char>) -> bool {
    strip_prefix(name, "nvme"@) matches Some(rest) && rest.len() > 0 && forall|i: int|
        0 <= i < rest.len() ==> is_digit(#[trigger] rest[i])
}

fn nvme_controller_check(n: &[char]) -> (r: bool)
    ensures
        r == is_nvme_controller(n@),
{
    match strip_prefix_str(n, "nvme") {
        Some(rest) => {
            if rest.len() == 0 {
                return false;
            }
            let mut i: usize = 0;
            while i < rest.len()
                invariant
                    i <= rest@.len(),
                    strip_prefix(n@, "nvme"@) == Some(rest@),
                    forall|j: int| 0 <= j < i ==> is_digit(#[trigger] rest@[j]),
                decreases rest.len() - i,
            {
                if !char_is_digit(rest[i]) {
                    assert(!is_digit(rest@[i as int]));
                    return false;
                }
                i += 1;
            }
            true
        },
        None => false,
    }
}

pub fn is_nvme_controller_name(name: &str) -> (r: bool)
    ensures
        r == is_nvme_controller(name@),
{
    let n = chars_of(name);
    nvme_controller_check(&n)
}

/// A device id of the form `block:<controller>`.
pub open spec fn is_nvme_controller_device_id(id: Seq<char>) -> bool {
    strip_prefix(id, "block:"@) matches Some(name) && is_nvme_controller(name)
}

pub fn is_nvme_controller_id(id: &str) -> (r: bool)
    ensures
        r == is_nvme_controller_device_id(id@),
{
    let n = chars_of(id);
    match strip_prefix_str(&n, "block:") {
        Some(name) => nvme_controller_check(&name),
        None => false,
    }
}

// ---------------------------------------------------------------------------
// Humanized tokens
// ---------------------------------------------------------------------------
/// `-` read as `_`, so that splitting on `_` splits on either.
pub open spec fn dashes_as_underscores(s: Seq<char>) -> Seq<char> {
    s.map_values(|c: char| if c == '-' { '_' } else { c })
}

/// A word with its first character upper-cased.
pub open spec fn capitalized(word: Seq<char>) -> Seq<char> {
    if word.len() == 0 {
        seq![]
    } else {
        unicode_upper(word[0]) + word.drop_first()
    }
}

/// The non-empty words among the first `n`, capitalized and joined by spaces.
pub open spec fn joined_words(words: Seq<Seq<char>>, n: nat) -> Seq<char>
    decreases n,
{
    if n == 0 {
        seq![]
    } else {
        let rest = joined_words(words, (n - 1) as nat);
        let w = words[n - 1];
        if w.len() == 0 {
            rest
        } else if rest.len() == 0 {
            capitalized(w)
        } else {
            rest + " "@ + capitalized(w)
        }
    }
}

/// A token made readable: `_` trimmed from both ends, split at `_` and `-`,
/// empty pieces dropped, each piece capitalized, joined by spaces.
pub open spec fn humanized(value: Seq<char>) -> Seq<char> {
    let words = split(dashes_as_underscores(trim_char(value, '_')), '_');
    joined_words(words, words.len())
}

pub fn humanize_token(value: &str) -> (r: String)
    ensures
        r@ == humanized(value@),
{
    let t = trim_char_chars(&chars_of(value), '_');
    let mut d: Vec<char> = Vec::new();
    let mut i: usize = 0;
    while i < t.len()
        invariant
            i <= t@.len(),
            d@ == dashes_as_underscores(t@.take(i as int)),
        decreases t@.len() - i,
    {
        d.push(if t[i] == '-' { '_' } else { t[i] });
        assert(dashes_as_underscores(t@.take(i + 1)) =~= dashes_as_underscores(t@.take(i as int)).push(
            if t@[i as int] == '-' { '_' } else { t@[i as int] },
        ));
        i += 1;
    }
    assert(t@.take(t@.len() as int) =~= t@);
    let words = split_chars(&d, '_');
    let ghost wv = views(words@);
    let mut out: Vec<char> = Vec::new();
    let mut k: usize = 0;
    proof {
        reveal_strlit(" ");
    }
    while k < words.len()
        invariant
            k <= words@.len(),
            wv == views(words@),
            out@ == joined_words(wv, k as nat),
        decreases words@.len() - k,
    {
        let w = &words[k];
        assert(wv[k as int] == w@);
        let ghost before = out@;
        if w.len() > 0 {
            let had = out.len() > 0;
            if had {
                out.push(' ');
            }
            let ghost spaced = out@;
            let first = char_to_uppercase(w[0]);
            append_chars(&mut out, &first);
            let rest = slice_chars(w, 1, w.len());
            append_chars(&mut out, &rest);
            assert(rest@ =~= w@.drop_first());
            assert(capitalized(w@) == unicode_upper(w@[0]) + w@.drop_first());
            if had {
                proof { reveal_strlit(" "); }
                assert(spaced =~= before + " "@);
                assert(out@ =~= before + " "@ + capitalized(w@));
            } else {
                assert(out@ =~= capitalized(w@));
            }
        }
        k += 1;
    }
    string_of(&out)
}

} // verus!
