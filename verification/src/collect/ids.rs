//! Vendor and product name tables of the `pci.ids` and `usb.ids` databases.
use vstd::prelude::*;
use crate::text::{
    chars_of, opt_view, parse_unsigned, parse_unsigned_chars, split_first_ws,
    split_first_ws_chars, string_of, trim, trim_chars,
};

verus! {

/// A database entry line: a hexadecimal id, whitespace, and a non-empty name.
pub open spec fn id_entry(line: Seq<char>) -> Option<(u16, Seq<char>)> {
    let (first, rest) = split_first_ws(line);
    match (parse_unsigned(first, 16, 0xffff), rest) {
        (Some(id), Some(r)) => if trim(r).len() > 0 {
            Some((id as u16, trim(r)))
        } else {
            None
        },
        _ => None,
    }
}

/// Parses `<hex id><whitespace><name>`; the name is trimmed and must not be empty.
pub fn parse_id_entry(line: &[char]) -> (r: Option<(u16, String)>)
    ensures
        r matches Some((id, name)) ==> id_entry(line@) == Some((id, name@)),
        r is None ==> id_entry(line@) is None,
{
    let (first, rest) = split_first_ws_chars(line);
    let id = match parse_unsigned_chars(&first, 16, 0xffff) {
        Some(id) => id as u16,
        None => return None,
    };
    match rest {
        Some(r) => {
            let name = trim_chars(&r);
            if name.len() > 0 {
                Some((id, string_of(&name)))
            } else {
                None
            }
        },
        None => None,
    }
}

/// The name that the last entry with key `k` gives.
pub open spec fn last_name<K>(entries: Seq<(K, String)>, k: K) -> Option<Seq<char>>
    decreases entries.len(),
{
    if entries.len() == 0 {
        None
    } else if entries.last().0 == k {
        Some(entries.last().1@)
    } else {
        last_name(entries.drop_last(), k)
    }
}

/// The map that a sequence of insertions builds: later entries replace earlier ones.
pub open spec fn names_map<K>(entries: Seq<(K, String)>) -> Map<K, Seq<char>> {
    Map::new(|k: K| last_name(entries, k) is Some, |k: K| last_name(entries, k)->0)
}

proof fn lemma_names_map_push<K>(entries: Seq<(K, String)>, k: K, name: String)
    ensures
        names_map(entries.push((k, name))) == names_map(entries).insert(k, name@),
{
    let e = entries.push((k, name));
    assert(e.drop_last() =~= entries);
    assert(names_map(e) =~= names_map(entries).insert(k, name@));
}

/// Names keyed by a 16-bit vendor id.
pub struct VendorNames {
    entries: Vec<(u16, String)>,
}

impl View for VendorNames {
    type V = Map<u16, Seq<char>>;

    closed spec fn view(&self) -> Map<u16, Seq<char>> {
        names_map(self.entries@)
    }
}

/// The value a map holds for a key, if any.
pub open spec fn map_get<K>(m: Map<K, Seq<char>>, k: K) -> Option<Seq<char>> {
    if m.contains_key(k) {
        Some(m[k])
    } else {
        None
    }
}

impl VendorNames {
    pub fn new() -> (r: Self)
        ensures
            r@ == Map::<u16, Seq<char>>::empty(),
    {
        let r = VendorNames { entries: Vec::new() };
        assert(r@ =~= Map::<u16, Seq<char>>::empty());
        r
    }

    pub fn insert(&mut self, id: u16, name: String)
        ensures
            final(self)@ == old(self)@.insert(id, name@),
    {
        proof {
            lemma_names_map_push(self.entries@, id, name);
        }
        self.entries.push((id, name));
    }

    pub fn get(&self, id: u16) -> (r: Option<String>)
        ensures
            opt_view(r) == map_get(self@, id),
    {
        let mut i = self.entries.len();
        let ghost all = self.entries@;
        assert(all.take(i as int) =~= all);
        while i > 0
            invariant
                i <= all.len(),
                all == self.entries@,
                last_name(all, id) == last_name(all.take(i as int), id),
            decreases i,
        {
            proof {
                assert(all.take(i as int).drop_last() =~= all.take(i - 1));
            }
            if self.entries[i - 1].0 == id {
                let name = self.entries[i - 1].1.clone();
                return Some(name);
            }
            i -= 1;
        }
        None
    }
}

/// Names keyed by a vendor id and a product id.
pub struct ProductNames {
    entries: Vec<((u16, u16), String)>,
}

impl View for ProductNames {
    type V = Map<(u16, u16), Seq<char>>;

    closed spec fn view(&self) -> Map<(u16, u16), Seq<char>> {
        names_map(self.entries@)
    }
}

impl ProductNames {
    pub fn new() -> (r: Self)
        ensures
            r@ == Map::<(u16, u16), Seq<char>>::empty(),
    {
        let r = ProductNames { entries: Vec::new() };
        assert(r@ =~= Map::<(u16, u16), Seq<char>>::empty());
        r
    }

    pub fn insert(&mut self, vendor: u16, product: u16, name: String)
        ensures
            final(self)@ == old(self)@.insert((vendor, product), name@),
    {
        proof {
            lemma_names_map_push(self.entries@, (vendor, product), name);
        }
        self.entries.push(((vendor, product), name));
    }

    pub fn get(&self, vendor: u16, product: u16) -> (r: Option<String>)
        ensures
            opt_view(r) == map_get(self@, (vendor, product)),
    {
        let mut i = self.entries.len();
        let ghost all = self.entries@;
        assert(all.take(i as int) =~= all);
        while i > 0
            invariant
                i <= all.len(),
                all == self.entries@,
                last_name(all, (vendor, product)) == last_name(all.take(i as int), (vendor, product)),
            decreases i,
        {
            proof {
                assert(all.take(i as int).drop_last() =~= all.take(i - 1));
            }
            let key = self.entries[i - 1].0;
            if key.0 == vendor && key.1 == product {
                let name = self.entries[i - 1].1.clone();
                return Some(name);
            }
            i -= 1;
        }
        None
    }
}

} // verus!
