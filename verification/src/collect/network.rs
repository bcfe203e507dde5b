//! Classification of network interfaces and parsing of `ethtool -i` output.
use vstd::prelude::*;
use crate::text::{
    append_chars, append_str, chars_eq, chars_eq_str, chars_of, contains_seq, contains_str,
    lines, lines_of, lower_seq, split_once, split_once_chars, starts_with_str, string_of,
    strip_prefix, to_lower, trim, trim_chars, views,
};

verus! {

/// What the interface's sysfs directory shows, read by the caller.
pub struct InterfaceFacts {
    /// A `wireless` entry exists.
    pub wireless: bool,
    /// A `bridge` entry exists.
    pub bridge: bool,
    /// A `bonding` entry exists.
    pub bonding: bool,
    /// The trimmed, non-empty content of `uevent`.
    pub uevent: Option<String>,
    /// A `tun_flags` entry exists.
    pub tun_flags: bool,
    /// A `device` link exists.
    pub device: bool,
    /// The trimmed, non-empty content of `type`.
    pub link_type: Option<String>,
}

/// Some line of the `uevent` content is exactly `DEVTYPE=vlan`.
pub open spec fn uevent_is_vlan(uevent: Option<String>) -> bool {
    match uevent {
        Some(u) => has_vlan_line(u@),
        None => false,
    }
}

pub open spec fn has_vlan_line(text: Seq<char>) -> bool {
    exists|i: int| 0 <= i < lines(text).len() && #[trigger] lines(text)[i] == "DEVTYPE=vlan"@
}

pub open spec fn starts(s: Seq<char>, p: Seq<char>) -> bool {
    strip_prefix(s, p) is Some
}

/// The kind of a network interface, from its name and sysfs facts.
pub open spec fn interface_kind_of(name: Seq<char>, facts: InterfaceFacts) -> Seq<char> {
    let lowered = lower_seq(name);
    if name == "lo"@ {
        "loopback"@
    } else if facts.wireless {
        "wifi"@
    } else if facts.bridge {
        "bridge"@
    } else if facts.bonding {
        "bond"@
    } else if uevent_is_vlan(facts.uevent) {
        "vlan"@
    } else if starts(lowered, "veth"@) {
        "veth"@
    } else if starts(lowered, "wg"@) || contains_seq(lowered, "-wg"@) || contains_seq(
        lowered,
        "wireguard"@,
    ) {
        "wireguard"@
    } else if starts(lowered, "tap"@) {
        "tap"@
    } else if facts.tun_flags || starts(lowered, "tun"@) {
        "tun"@
    } else if starts(lowered, "wwan"@) {
        "mobile"@
    } else if facts.device {
        match facts.link_type {
            Some(t) => if t@ == "1"@ {
                "ethernet"@
            } else if t@ == "32"@ {
                "infiniband"@
            } else {
                "network"@
            },
            None => "network"@,
        }
    } else {
        "virtual"@
    }
}

fn is_vlan_uevent(uevent: &Option<String>) -> (r: bool)
    ensures
        r == uevent_is_vlan(*uevent),
{
    match uevent {
        Some(u) => {
            let c = chars_of(u.as_str());
            let ls = lines_of(&c);
            let mut i: usize = 0;
            while i < ls.len()
                invariant
                    i <= ls@.len(),
                    *uevent == Some(*u),
                    views(ls@) == lines(u@),
                    forall|j: int| 0 <= j < i ==> lines(u@)[j] != "DEVTYPE=vlan"@,
                decreases ls.len() - i,
            {
                if chars_eq_str(&ls[i], "DEVTYPE=vlan") {
                    assert(lines(u@)[i as int] == ls@[i as int]@);
                    assert(0 <= i < lines(u@).len() && lines(u@)[i as int] == "DEVTYPE=vlan"@);
                    assert(has_vlan_line(u@));
                    return true;
                }
                assert(lines(u@)[i as int] == ls@[i as int]@);
                i += 1;
            }
            false
        },
        None => false,
    }
}

pub fn interface_kind(name: &str, facts: &InterfaceFacts) -> (r: &'static str)
    ensures
        r@ == interface_kind_of(name@, *facts),
{
    if chars_eq_str(&chars_of(name), "lo") {
        return "loopback";
    }
    if facts.wireless {
        return "wifi";
    }
    if facts.bridge {
        return "bridge";
    }
    if facts.bonding {
        return "bond";
    }
    if is_vlan_uevent(&facts.uevent) {
        return "vlan";
    }
    let c = chars_of(name);
    let lowered = to_lower(&c);
    if starts_with_str(&lowered, "veth") {
        "veth"
    } else if starts_with_str(&lowered, "wg") || contains_str(&lowered, "-wg") || contains_str(
        &lowered,
        "wireguard",
    ) {
        "wireguard"
    } else if starts_with_str(&lowered, "tap") {
        "tap"
    } else if facts.tun_flags || starts_with_str(&lowered, "tun") {
        "tun"
    } else if starts_with_str(&lowered, "wwan") {
        "mobile"
    } else if facts.device {
        match &facts.link_type {
            Some(t) => {
                let tc = chars_of(t.as_str());
                if chars_eq_str(&tc, "1") {
                    "ethernet"
                } else if chars_eq_str(&tc, "32") {
                    "infiniband"
                } else {
                    "network"
                }
            },
            None => "network",
        }
    } else {
        "virtual"
    }
}

/// The display name of an interface kind.
pub open spec fn kind_display_name(kind: Seq<char>) -> Seq<char> {
    if kind == "loopback"@ {
        "Loopback"@
    } else if kind == "wifi"@ {
        "Wi-Fi"@
    } else if kind == "bridge"@ {
        "Linux bridge"@
    } else if kind == "bond"@ {
        "Network bond"@
    } else if kind == "vlan"@ {
        "VLAN interface"@
    } else if kind == "veth"@ {
        "Virtual Ethernet"@
    } else if kind == "tun"@ {
        "TUN interface"@
    } else if kind == "tap"@ {
        "TAP interface"@
    } else if kind == "wireguard"@ {
        "WireGuard tunnel"@
    } else if kind == "mobile"@ {
        "Mobile broadband"@
    } else if kind == "infiniband"@ {
        "InfiniBand"@
    } else if kind == "ethernet"@ {
        "Ethernet"@
    } else if kind == "network"@ {
        "Network adapter"@
    } else {
        "Virtual network interface"@
    }
}

pub fn interface_kind_name(kind: &str) -> (r: &'static str)
    ensures
        r@ == kind_display_name(kind@),
{
    let k = chars_of(kind);
    if chars_eq_str(&k, "loopback") {
        "Loopback"
    } else if chars_eq_str(&k, "wifi") {
        "Wi-Fi"
    } else if chars_eq_str(&k, "bridge") {
        "Linux bridge"
    } else if chars_eq_str(&k, "bond") {
        "Network bond"
    } else if chars_eq_str(&k, "vlan") {
        "VLAN interface"
    } else if chars_eq_str(&k, "veth") {
        "Virtual Ethernet"
    } else if chars_eq_str(&k, "tun") {
        "TUN interface"
    } else if chars_eq_str(&k, "tap") {
        "TAP interface"
    } else if chars_eq_str(&k, "wireguard") {
        "WireGuard tunnel"
    } else if chars_eq_str(&k, "mobile") {
        "Mobile broadband"
    } else if chars_eq_str(&k, "infiniband") {
        "InfiniBand"
    } else if chars_eq_str(&k, "ethernet") {
        "Ethernet"
    } else if chars_eq_str(&k, "network") {
        "Network adapter"
    } else {
        "Virtual network interface"
    }
}

// ---------------------------------------------------------------------------
// `ethtool -i`
// ---------------------------------------------------------------------------
/// `s` with every `-` replaced by `_`.
pub open spec fn dashes_to_underscores(s: Seq<char>) -> Seq<char> {
    s.map_values(|c: char| if c == '-' { '_' } else { c })
}

/// The property a `key: value` line of `ethtool -i` gives, if its value is not empty.
pub open spec fn ethtool_entry(line: Seq<char>) -> Option<(Seq<char>, Seq<char>)> {
    match split_once(line, ':') {
        Some((k, v)) => if trim(v).len() > 0 {
            Some(("ethtool_"@ + dashes_to_underscores(trim(k)), trim(v)))
        } else {
            None
        },
        None => None,
    }
}

/// The properties of all lines, in order.
pub open spec fn ethtool_entries(ls: Seq<Seq<char>>) -> Seq<(Seq<char>, Seq<char>)>
    decreases ls.len(),
{
    if ls.len() == 0 {
        Seq::empty()
    } else {
        match ethtool_entry(ls.last()) {
            Some(e) => ethtool_entries(ls.drop_last()).push(e),
            None => ethtool_entries(ls.drop_last()),
        }
    }
}

pub open spec fn pair_views(v: Seq<(String, String)>) -> Seq<(Seq<char>, Seq<char>)> {
    v.map_values(|p: (String, String)| (p.0@, p.1@))
}

fn dashes_chars(s: &[char]) -> (r: Vec<char>)
    ensures
        r@ == dashes_to_underscores(s@),
{
    let mut r: Vec<char> = Vec::new();
    let mut i: usize = 0;
    while i < s.len()
        invariant
            i <= s@.len(),
            r@ == dashes_to_underscores(s@.take(i as int)),
        decreases s.len() - i,
    {
        let c = s[i];
        r.push(if c == '-' { '_' } else { c });
        assert(dashes_to_underscores(s@.take(i + 1)) =~= dashes_to_underscores(s@.take(i as int)).push(
            if c == '-' { '_' } else { c },
        ));
        i += 1;
    }
    assert(s@.take(s.len() as int) =~= s@);
    r
}

/// The `ethtool_<key>` properties of `ethtool -i` output, in line order;
/// dashes in keys become underscores, and lines with an empty value are skipped.
pub fn ethtool_properties(text: &str) -> (r: Vec<(String, String)>)
    ensures
        pair_views(r@) == ethtool_entries(lines(text@)),
{
    let c = chars_of(text);
    let ls = lines_of(&c);
    let mut r: Vec<(String, String)> = Vec::new();
    let mut i: usize = 0;
    while i < ls.len()
        invariant
            i <= ls@.len(),
            views(ls@) == lines(text@),
            pair_views(r@) == ethtool_entries(lines(text@).take(i as int)),
        decreases ls.len() - i,
    {
        proof {
            assert(lines(text@).take(i + 1).drop_last() =~= lines(text@).take(i as int));
            assert(lines(text@)[i as int] == ls@[i as int]@);
        }
        match split_once_chars(&ls[i], ':') {
            Some((k, v)) => {
                let value = trim_chars(&v);
                if value.len() > 0 {
                    let key = trim_chars(&k);
                    let key = dashes_chars(&key);
                    let mut name: Vec<char> = Vec::new();
                    append_str(&mut name, "ethtool_");
                    append_chars(&mut name, &key);
                    let entry = (string_of(&name), string_of(&value));
                    r.push(entry);
                    assert(pair_views(r@) =~= pair_views(r@.drop_last()).push((entry.0@, entry.1@)));
                }
            },
            None => {},
        }
        i += 1;
    }
    assert(lines(text@).take(ls.len() as int) =~= lines(text@));
    r
}

} // verus!
