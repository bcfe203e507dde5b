//! Block devices: their parents, display names, activity identity and I/O counters.
use vstd::prelude::*;
use crate::collect::cpu::all_u64;
use crate::collect::util::{is_virtual_block_name, is_virtual_block_device_name};
use crate::text::{
    append_chars, append_str, chars_of, contains_seq, contains_str, index_of, is_digit,
    last_index_of, opt_view, parse_unsigned_chars, slice_chars, starts_with_str, string_of,
    strip_prefix, trim, trim_chars, views, words, words_of, find_char, rfind_char,
};

verus! {

/// The index of the first ASCII digit.
pub open spec fn first_digit(s: Seq<char>) -> Option<int>
    decreases s.len(),
{
    if s.len() == 0 {
        None
    } else if is_digit(s[0]) {
        Some(0)
    } else {
        match first_digit(s.drop_first()) {
            Some(i) => Some(i + 1),
            None => None,
        }
    }
}

proof fn lemma_first_digit(s: Seq<char>, i: int)
    requires
        0 <= i <= s.len(),
        forall|j: int| 0 <= j < i ==> !is_digit(#[trigger] s[j]),
        i < s.len() ==> is_digit(s[i]),
    ensures
        first_digit(s) == (if i < s.len() { Some(i) } else { None::<int> }),
    decreases s.len(),
{
    if s.len() > 0 && i > 0 {
        assert forall|j: int| 0 <= j < i - 1 implies !is_digit(#[trigger] s.drop_first()[j]) by {
            assert(s.drop_first()[j] == s[j + 1]);
        }
        if i < s.len() {
            assert(s.drop_first()[i - 1] == s[i]);
        }
        lemma_first_digit(s.drop_first(), i - 1);
    }
}

/// The whole device of a partition: for `nvme` and `mmcblk` names the part
/// before the last `p`, for others the part before the first digit.
pub open spec fn partition_parent_of(name: Seq<char>) -> Option<Seq<char>> {
    if strip_prefix(name, "nvme"@) is Some || strip_prefix(name, "mmcblk"@) is Some {
        match last_index_of(name, 'p') {
            Some(i) => Some(name.take(i)),
            None => None,
        }
    } else {
        match first_digit(name) {
            Some(i) => Some(name.take(i)),
            None => None,
        }
    }
}

pub fn partition_parent(name: &str) -> (r: Option<String>)
    ensures
        opt_view(r) == partition_parent_of(name@),
{
    let n = chars_of(name);
    if starts_with_str(&n, "nvme") || starts_with_str(&n, "mmcblk") {
        match rfind_char(&n, 'p') {
            Some(i) => {
                Some(string_of(&slice_chars(&n, 0, i)))
            },
            None => None,
        }
    } else {
        let mut i: usize = 0;
        while i < n.len() && !crate::text::char_is_digit(n[i])
            invariant
                i <= n@.len(),
                forall|j: int| 0 <= j < i ==> !is_digit(#[trigger] n@[j]),
            decreases n.len() - i,
        {
            i += 1;
        }
        proof {
            lemma_first_digit(n@, i as int);
        }
        if i < n.len() {
            Some(string_of(&slice_chars(&n, 0, i)))
        } else {
            None
        }
    }
}

/// The NVMe controller of a namespace name such as `nvme0n1`: the name up
/// to the first `n` after the `nvme` prefix.
pub open spec fn nvme_parent_of(name: Seq<char>) -> Option<Seq<char>> {
    match strip_prefix(name, "nvme"@) {
        Some(suffix) => match index_of(suffix, 'n') {
            Some(m) => Some(name.take(4 + m)),
            None => None,
        },
        None => None,
    }
}

pub fn nvme_controller_parent(name: &str) -> (r: Option<String>)
    ensures
        opt_view(r) == nvme_parent_of(name@),
{
    let n = chars_of(name);
    let nl = n.len();
    proof {
        reveal_strlit("nvme");
    }
    match crate::text::strip_prefix_str(&n, "nvme") {
        Some(suffix) => match find_char(&suffix, 'n') {
            Some(m) => {
                proof {
                    crate::text::lemma_index_of_bounds(suffix@, 'n');
                    assert(suffix@.len() == nl - 4);
                }
                Some(string_of(&slice_chars(&n, 0, 4 + m)))
            },
            None => None,
        },
        None => None,
    }
}

/// The activity identity of a block device: a namespace that is the only
/// namespace of its NVMe controller (among names without a `p`) is counted
/// under the controller, anything else under its own name.
pub open spec fn namespace_count(names: Seq<Seq<char>>, controller: Seq<char>) -> nat
    decreases names.len(),
{
    if names.len() == 0 {
        0
    } else {
        namespace_count(names.drop_last(), controller) + if !contains_seq(names.last(), "p"@) && nvme_parent_of(names.last()) == Some(controller) {
            1nat
        } else {
            0nat
        }
    }
}

pub open spec fn activity_id_of(name: Seq<char>, names: Seq<Seq<char>>) -> Seq<char> {
    match nvme_parent_of(name) {
        Some(c) => if namespace_count(names, c) == 1 {
            "block:"@ + c
        } else {
            "block:"@ + name
        },
        None => "block:"@ + name,
    }
}

pub open spec fn string_views(v: Seq<String>) -> Seq<Seq<char>> {
    v.map_values(|s: String| s@)
}

pub fn activity_device_id(name: &str, block_names: &[String]) -> (r: String)
    ensures
        r@ == activity_id_of(name@, string_views(block_names@)),
{
    let mut out: Vec<char> = Vec::new();
    append_str(&mut out, "block:");
    let controller = match nvme_controller_parent(name) {
        Some(c) => c,
        None => {
            append_str(&mut out, name);
            return string_of(&out);
        },
    };
    let ghost all = string_views(block_names@);
    let mut count: usize = 0;
    let mut i: usize = 0;
    while i < block_names.len()
        invariant
            i <= block_names@.len(),
            all == string_views(block_names@),
            count == namespace_count(all.take(i as int), controller@),
            count <= i,
        decreases block_names.len() - i,
    {
        proof {
            assert(all.take(i + 1).drop_last() =~= all.take(i as int));
            assert(all[i as int] == block_names@[i as int]@);
        }
        let candidate = block_names[i].as_str();
        let has_p = contains_str(&chars_of(candidate), "p");
        if !has_p {
            match nvme_controller_parent(candidate) {
                Some(c) => {
                    if crate::text::chars_eq(&chars_of(c.as_str()), &chars_of(controller.as_str())) {
                        count += 1;
                    }
                },
                None => {},
            }
        }
        i += 1;
    }
    assert(all.take(block_names.len() as int) =~= all);
    if count == 1 {
        append_str(&mut out, controller.as_str());
    } else {
        append_str(&mut out, name);
    }
    string_of(&out)
}

/// The parent a block device reports: a partition's whole device, else an
/// NVMe namespace's controller.
pub open spec fn block_parent_of(name: Seq<char>, is_partition: bool) -> Option<Seq<char>> {
    let parent = if is_partition { partition_parent_of(name) } else { nvme_parent_of(name) };
    match parent {
        Some(p) => Some("block:"@ + p),
        None => None,
    }
}

pub fn block_parent_id(name: &str, is_partition: bool) -> (r: Option<String>)
    ensures
        opt_view(r) == block_parent_of(name@, is_partition),
{
    let parent = if is_partition { partition_parent(name) } else { nvme_controller_parent(name) };
    match parent {
        Some(p) => {
            let mut v: Vec<char> = Vec::new();
            append_str(&mut v, "block:");
            append_str(&mut v, p.as_str());
            Some(string_of(&v))
        },
        None => None,
    }
}

/// The display name of a block device: vendor and model, or the model, or the name.
pub open spec fn block_display_of(name: Seq<char>, vendor: Option<Seq<char>>, model: Option<Seq<char>>) -> Seq<char> {
    match (vendor, model) {
        (Some(v), Some(m)) => trim(v) + " "@ + trim(m),
        (_, Some(m)) => trim(m),
        _ => name,
    }
}

pub fn block_display_name(name: &str, vendor: Option<&str>, model: Option<&str>) -> (r: String)
    ensures
        r@ == block_display_of(name@, match vendor {
            Some(v) => Some(v@),
            None => None,
        }, match model {
            Some(m) => Some(m@),
            None => None,
        }),
{
    match (vendor, model) {
        (Some(v), Some(m)) => {
            let mut out = trim_chars(&chars_of(v));
            append_str(&mut out, " ");
            append_chars(&mut out, &trim_chars(&chars_of(m)));
            string_of(&out)
        },
        (_, Some(m)) => string_of(&trim_chars(&chars_of(m))),
        _ => crate::text::owned(name),
    }
}

/// The capacity in bytes of a device of `sectors` 512-byte sectors, when it fits.
pub fn capacity_bytes(sectors: Option<u64>) -> (r: Option<u64>)
    ensures
        r == (match sectors {
            Some(s) => if s * 512 <= u64::MAX { Some((s * 512) as u64) } else { None },
            None => None,
        }),
{
    match sectors {
        Some(s) => s.checked_mul(512),
        None => None,
    }
}

/// Activity counters of a block device `stat` line: reads, sectors read,
/// writes, sectors written and milliseconds spent on I/O.
#[derive(Debug, Clone, Copy, PartialEq, Eq)]
pub struct ActivityCounters {
    pub read_operations: u64,
    pub read_sectors: u64,
    pub write_operations: u64,
    pub write_sectors: u64,
    pub io_milliseconds: u64,
}

/// The counters of a whole, physical device's `stat` line, when all its
/// fields are numbers and there are at least ten.
pub open spec fn activity_of(name: Seq<char>, is_partition: bool, has_device: bool, stat: Seq<char>) -> Option<(nat, nat, nat, nat, nat)> {
    if is_partition || is_virtual_block_name(name) || !has_device {
        None
    } else {
        match all_u64(words(stat)) {
            Some(f) => if f.len() >= 10 {
                Some((f[0], f[2], f[4], f[6], f[9]))
            } else {
                None
            },
            None => None,
        }
    }
}

pub fn activity_counters(name: &str, is_partition: bool, has_device: bool, stat: &str) -> (r: Option<ActivityCounters>)
    ensures
        r matches Some(c) ==> activity_of(name@, is_partition, has_device, stat@) == Some((
            c.read_operations as nat,
            c.read_sectors as nat,
            c.write_operations as nat,
            c.write_sectors as nat,
            c.io_milliseconds as nat,
        )),
        r is None ==> activity_of(name@, is_partition, has_device, stat@) is None,
{
    if is_partition || is_virtual_block_device_name(name) || !has_device {
        return None;
    }
    let ws = words_of(&chars_of(stat));
    let ghost all = words(stat@);
    let mut vals: Vec<u64> = Vec::new();
    let mut i: usize = 0;
    while i < ws.len()
        invariant
            i <= ws@.len(),
            views(ws@) == all,
            all == words(stat@),
            !is_partition && !is_virtual_block_name(name@) && has_device,
            crate::collect::cpu::all_u64(all.take(i as int)) == Some(vals@.map_values(|v: u64| v as nat)),
        decreases ws.len() - i,
    {
        proof {
            assert(all.take(i + 1).drop_last() =~= all.take(i as int));
            assert(all[i as int] == ws@[i as int]@);
        }
        match parse_unsigned_chars(&ws[i], 10, u64::MAX) {
            Some(v) => {
                vals.push(v);
                assert(vals@.map_values(|v: u64| v as nat) =~= vals@.drop_last().map_values(|v: u64| v as nat).push(v as nat));
            },
            None => {
                proof {
                    lemma_all_u64_prefix(all, i + 1);
                }
                return None;
            },
        }
        i += 1;
    }
    assert(all.take(ws.len() as int) =~= all);
    if vals.len() < 10 {
        return None;
    }
    Some(ActivityCounters {
        read_operations: vals[0],
        read_sectors: vals[2],
        write_operations: vals[4],
        write_sectors: vals[6],
        io_milliseconds: vals[9],
    })
}

proof fn lemma_all_u64_prefix(ws: Seq<Seq<char>>, k: int)
    requires
        0 <= k <= ws.len(),
        all_u64(ws.take(k)) is None,
    ensures
        all_u64(ws) is None,
    decreases ws.len() - k,
{
    if k < ws.len() {
        assert(ws.take(k + 1).drop_last() =~= ws.take(k));
        lemma_all_u64_prefix(ws, k + 1);
    } else {
        assert(ws.take(k) =~= ws);
    }
}

} // verus!
