//! The `usb.ids` database: vendor and product names.
use vstd::prelude::*;
use crate::collect::ids::{id_entry, map_get, parse_id_entry, ProductNames, VendorNames};
use crate::text::{
    chars_of, lines, lines_of, opt_view, starts_with_str, strip_prefix, trim_start_char,
    trim_start_char_chars, views,
};

verus! {

/// Vendor names, product names, and the vendor whose products follow.
pub type IdState = (Map<u16, Seq<char>>, Map<(u16, u16), Seq<char>>, Option<u16>);

/// `line` starts with `p`.
pub open spec fn begins(line: Seq<char>, p: Seq<char>) -> bool {
    strip_prefix(line, p) is Some
}

/// How one line of `usb.ids` changes the tables: a vendor line (no
/// indentation) names a vendor and opens its product list, a product line
/// (one tab) names a product of the open vendor; comments, blank lines and
/// deeper levels are skipped, and any other unindented line closes the list.
pub open spec fn usb_ids_step(st: IdState, line: Seq<char>) -> IdState {
    if line.len() == 0 || begins(line, "#"@) {
        st
    } else if !begins(line, "\t"@) {
        match id_entry(line) {
            Some((id, name)) => (st.0.insert(id, name), st.1, Some(id)),
            None => (st.0, st.1, None),
        }
    } else if !begins(line, "\t\t"@) {
        match (id_entry(trim_start_char(line, '\t')), st.2) {
            (Some((id, name)), Some(vendor)) => (st.0, st.1.insert((vendor, id), name), st.2),
            _ => st,
        }
    } else {
        st
    }
}

pub open spec fn usb_ids_fold(ls: Seq<Seq<char>>) -> IdState
    decreases ls.len(),
{
    if ls.len() == 0 {
        (Map::empty(), Map::empty(), None)
    } else {
        usb_ids_step(usb_ids_fold(ls.drop_last()), ls.last())
    }
}

/// Vendor and product names of `usb.ids`.
pub struct UsbIds {
    pub vendors: VendorNames,
    pub products: ProductNames,
}

impl UsbIds {
    /// Reads the database text line by line.
    pub fn parse(content: &str) -> (r: Self)
        ensures
            r.vendors@ == usb_ids_fold(lines(content@)).0,
            r.products@ == usb_ids_fold(lines(content@)).1,
    {
        let c = chars_of(content);
        let ls = lines_of(&c);
        let mut vendors = VendorNames::new();
        let mut products = ProductNames::new();
        let mut current: Option<u16> = None;
        let mut i: usize = 0;
        while i < ls.len()
            invariant
                i <= ls@.len(),
                views(ls@) == lines(content@),
                (vendors@, products@, current) == usb_ids_fold(lines(content@).take(i as int)),
            decreases ls.len() - i,
        {
            proof {
                assert(lines(content@).take(i + 1).drop_last() =~= lines(content@).take(i as int));
                assert(lines(content@)[i as int] == ls@[i as int]@);
            }
            let line = &ls[i];
            if line.len() == 0 || starts_with_str(line, "#") {
            } else if !starts_with_str(line, "\t") {
                current = None;
                match parse_id_entry(line) {
                    Some((id, name)) => {
                        vendors.insert(id, name);
                        current = Some(id);
                    },
                    None => {},
                }
            } else if !starts_with_str(line, "\t\t") {
                let t = trim_start_char_chars(line, '\t');
                match parse_id_entry(&t) {
                    Some((id, name)) => {
                        match current {
                            Some(vendor) => products.insert(vendor, id, name),
                            None => {},
                        }
                    },
                    None => {},
                }
            }
            i += 1;
        }
        proof {
            assert(lines(content@).take(ls.len() as int) =~= lines(content@));
        }
        UsbIds { vendors, products }
    }

    pub fn vendor_name(&self, vendor: u16) -> (r: Option<String>)
        ensures
            opt_view(r) == map_get(self.vendors@, vendor),
    {
        self.vendors.get(vendor)
    }

    pub fn product_name(&self, vendor: u16, product: u16) -> (r: Option<String>)
        ensures
            opt_view(r) == map_get(self.products@, (vendor, product)),
    {
        self.products.get(vendor, product)
    }
}

/// One `usb.ids` entry line.
pub fn parse_usb_id_entry(line: &str) -> (r: Option<(u16, String)>)
    ensures
        r matches Some((id, name)) ==> id_entry(line@) == Some((id, name@)),
        r is None ==> id_entry(line@) is None,
{
    let c = chars_of(line);
    parse_id_entry(&c)
}

} // verus!
