//! The `pci.ids` database: vendor and device names.
use vstd::prelude::*;
use crate::collect::ids::{id_entry, map_get, parse_id_entry, ProductNames, VendorNames};
use crate::collect::usb::{begins, IdState};
use crate::text::{
    chars_of, lines, lines_of, opt_view, starts_with_str, trim_start_char, trim_start_char_chars,
    views,
};

verus! {

/// How one line of `pci.ids` changes the tables: a vendor line names a
/// vendor and opens its device list, a device line (one tab) names a device
/// of the open vendor, and a class line (`C `) closes the list.  Comments,
/// blank lines, unparsable lines and deeper levels change nothing.
pub open spec fn pci_ids_step(st: IdState, line: Seq<char>) -> IdState {
    if line.len() == 0 || begins(line, "#"@) {
        st
    } else if begins(line, "C "@) {
        (st.0, st.1, None)
    } else if !begins(line, "\t"@) {
        match id_entry(line) {
            Some((id, name)) => (st.0.insert(id, name), st.1, Some(id)),
            None => st,
        }
    } else if !begins(line, "\t\t"@) {
        match (id_entry(trim_start_char(line, '\t')), st.2) {
            (Some((id, name)), Some(vendor)) => (st.0, st.1.insert((vendor, id), name), st.2),
            _ => st,
        }
    } else {
        st
    }
}

pub open spec fn pci_ids_fold(ls: Seq<Seq<char>>) -> IdState
    decreases ls.len(),
{
    if ls.len() == 0 {
        (Map::empty(), Map::empty(), None)
    } else {
        pci_ids_step(pci_ids_fold(ls.drop_last()), ls.last())
    }
}

/// Vendor and device names of `pci.ids`.
pub struct PciIds {
    pub vendors: VendorNames,
    pub devices: ProductNames,
}

impl PciIds {
    /// Reads the database text line by line.
    pub fn parse(content: &str) -> (r: Self)
        ensures
            r.vendors@ == pci_ids_fold(lines(content@)).0,
            r.devices@ == pci_ids_fold(lines(content@)).1,
    {
        let c = chars_of(content);
        let ls = lines_of(&c);
        let mut vendors = VendorNames::new();
        let mut devices = ProductNames::new();
        let mut current: Option<u16> = None;
        let mut i: usize = 0;
        while i < ls.len()
            invariant
                i <= ls@.len(),
                views(ls@) == lines(content@),
                (vendors@, devices@, current) == pci_ids_fold(lines(content@).take(i as int)),
            decreases ls.len() - i,
        {
            proof {
                assert(lines(content@).take(i + 1).drop_last() =~= lines(content@).take(i as int));
                assert(lines(content@)[i as int] == ls@[i as int]@);
            }
            let line = &ls[i];
            if line.len() == 0 || starts_with_str(line, "#") {
            } else if starts_with_str(line, "C ") {
                current = None;
            } else if !starts_with_str(line, "\t") {
                match parse_id_entry(line) {
                    Some((id, name)) => {
                        vendors.insert(id, name);
                        current = Some(id);
                    },
                    None => {},
                }
            } else if !starts_with_str(line, "\t\t") {
                let t = trim_start_char_chars(line, '\t');
                match parse_id_entry(&t) {
                    Some((id, name)) => {
                        match current {
                            Some(vendor) => devices.insert(vendor, id, name),
                            None => {},
                        }
                    },
                    None => {},
                }
            }
            i += 1;
        }
        proof {
            assert(lines(content@).take(ls.len() as int) =~= lines(content@));
        }
        PciIds { vendors, devices }
    }

    pub fn vendor_name(&self, vendor: u16) -> (r: Option<String>)
        ensures
            opt_view(r) == map_get(self.vendors@, vendor),
    {
        self.vendors.get(vendor)
    }

    pub fn device_name(&self, vendor: u16, device: u16) -> (r: Option<String>)
        ensures
            opt_view(r) == map_get(self.devices@, (vendor, device)),
    {
        self.devices.get(vendor, device)
    }
}

/// One `pci.ids` entry line.
pub fn parse_pci_id_entry(line: &str) -> (r: Option<(u16, String)>)
    ensures
        r matches Some((id, name)) ==> id_entry(line@) == Some((id, name@)),
        r is None ==> id_entry(line@) is None,
{
    let c = chars_of(line);
    parse_id_entry(&c)
}

} // verus!
