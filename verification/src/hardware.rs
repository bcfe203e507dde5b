//! The hardware inventory view: devices grouped into categories, with their
//! property sections, related sensors and advanced properties, and its
//! plain-text rendering.
use vstd::prelude::*;
use crate::natural::{natural_order, natural_order_of};
use crate::model::{
    device_class_display_name, is_storage_health_property, storage_health_status_display_name,
    StorageHealth, storage_health_availability_display_name, storage_health_key,
    DeviceClass, StorageHealthAvailability,
};
use crate::text::{
    append_chars, append_str, chars_eq, chars_eq_str, chars_of, contains, contains_seq, contains_str,
    ends_with_str, starts_with_str, str_to_lowercase,
    opt_view, string_of, trim, trim_chars, trim_end, trim_end_chars, trim_start_seq,
    trim_start_seq_chars, unicode_lower_str, views, lower_seq, to_lower, parse_unsigned,
    parse_unsigned_chars, lex_lt, chars_lt, lemma_lex_transitive, lemma_lex_trichotomy,
    contains_at, is_ascii_text, lemma_trim_ascii, lemma_trim_lower_trimmed, lemma_lower_idempotent, lemma_contains_transitive,
};

verus! {

/// The categories of the hardware view, in display order.
#[derive(Debug, Clone, Copy, PartialEq, Eq, PartialOrd, Ord, Structural)]
pub enum HardwareCategoryKind {
    System,
    Motherboard,
    Processor,
    Memory,
    Graphics,
    Storage,
    Network,
    Pci,
    Usb,
    Thunderbolt,
    Audio,
    Power,
    Thermal,
    Security,
    Controllers,
    Other,
}

pub open spec fn category_label(k: HardwareCategoryKind) -> Seq<char> {
    match k {
        HardwareCategoryKind::System => "System"@,
        HardwareCategoryKind::Motherboard => "Motherboard & firmware"@,
        HardwareCategoryKind::Processor => "Processor"@,
        HardwareCategoryKind::Memory => "Memory"@,
        HardwareCategoryKind::Graphics => "Graphics"@,
        HardwareCategoryKind::Storage => "Storage"@,
        HardwareCategoryKind::Network => "Network"@,
        HardwareCategoryKind::Pci => "PCI"@,
        HardwareCategoryKind::Usb => "USB"@,
        HardwareCategoryKind::Thunderbolt => "Thunderbolt"@,
        HardwareCategoryKind::Audio => "Audio"@,
        HardwareCategoryKind::Power => "Power & batteries"@,
        HardwareCategoryKind::Thermal => "Thermal"@,
        HardwareCategoryKind::Security => "Security"@,
        HardwareCategoryKind::Controllers => "Sensor controllers"@,
        HardwareCategoryKind::Other => "Other"@,
    }
}

impl HardwareCategoryKind {
    /// Every category, in display order.
    pub const ALL: [HardwareCategoryKind; 16] = [
        HardwareCategoryKind::System,
        HardwareCategoryKind::Motherboard,
        HardwareCategoryKind::Processor,
        HardwareCategoryKind::Memory,
        HardwareCategoryKind::Graphics,
        HardwareCategoryKind::Storage,
        HardwareCategoryKind::Network,
        HardwareCategoryKind::Pci,
        HardwareCategoryKind::Usb,
        HardwareCategoryKind::Thunderbolt,
        HardwareCategoryKind::Audio,
        HardwareCategoryKind::Power,
        HardwareCategoryKind::Thermal,
        HardwareCategoryKind::Security,
        HardwareCategoryKind::Controllers,
        HardwareCategoryKind::Other,
    ];

    /// The heading of the category.
    pub fn label(self) -> (r: &'static str)
        ensures
            r@ == category_label(self),
    {
        match self {
            HardwareCategoryKind::System => "System",
            HardwareCategoryKind::Motherboard => "Motherboard & firmware",
            HardwareCategoryKind::Processor => "Processor",
            HardwareCategoryKind::Memory => "Memory",
            HardwareCategoryKind::Graphics => "Graphics",
            HardwareCategoryKind::Storage => "Storage",
            HardwareCategoryKind::Network => "Network",
            HardwareCategoryKind::Pci => "PCI",
            HardwareCategoryKind::Usb => "USB",
            HardwareCategoryKind::Thunderbolt => "Thunderbolt",
            HardwareCategoryKind::Audio => "Audio",
            HardwareCategoryKind::Power => "Power & batteries",
            HardwareCategoryKind::Thermal => "Thermal",
            HardwareCategoryKind::Security => "Security",
            HardwareCategoryKind::Controllers => "Sensor controllers",
            HardwareCategoryKind::Other => "Other",
        }
    }
}

/// One property line.
#[derive(Debug, Clone, PartialEq, Eq)]
pub struct HardwareProperty {
    pub key: String,
    pub label: String,
    pub value: String,
}

/// A titled group of properties.
#[derive(Debug, Clone, PartialEq, Eq)]
pub struct HardwareSection {
    pub title: String,
    pub properties: Vec<HardwareProperty>,
}

/// A sensor shown with its device.
#[derive(Debug, Clone, PartialEq, Eq)]
pub struct HardwareSensor {
    pub id: String,
    pub group: String,
    pub label: String,
    pub current: String,
    pub minimum: String,
    pub maximum: String,
    pub average: String,
    pub status: String,
    pub current_color: Option<String>,
    pub minimum_color: Option<String>,
    pub maximum_color: Option<String>,
    pub average_color: Option<String>,
    pub status_color: Option<String>,
    pub dimmed: bool,
}

/// A device of the hardware view.
#[derive(Debug, Clone, PartialEq, Eq)]
pub struct HardwareDevice {
    pub id: String,
    pub category: HardwareCategoryKind,
    pub name: String,
    pub subtitle: String,
    pub sections: Vec<HardwareSection>,
    pub advanced: Vec<HardwareProperty>,
    pub sensors: Vec<HardwareSensor>,
    pub storage_health_refreshable: bool,
    pub storage_health_permission_required: bool,
    /// The lower-cased text a search looks in.
    pub search_text: String,
}

/// A category with its devices.
#[derive(Debug, Clone, PartialEq, Eq)]
pub struct HardwareCategory {
    pub kind: HardwareCategoryKind,
    pub label: String,
    pub devices: Vec<HardwareDevice>,
}

/// The whole hardware view.
#[derive(Debug, Clone, PartialEq, Eq)]
pub struct HardwareInventory {
    pub categories: Vec<HardwareCategory>,
}

impl HardwareDevice {
    /// Whether the device matches a search: a blank query matches every
    /// device; otherwise the trimmed, lower-cased query must occur in the
    /// device's search text.
    pub fn matches(&self, query: &str) -> (r: bool)
        ensures
            r == (unicode_lower_str(trim(query@)).len() == 0 || contains_seq(
                self.search_text@,
                unicode_lower_str(trim(query@)),
            )),
            is_ascii_text(query@) ==> r == query_hits(self.search_text@, query@),
    {
        proof {
            if is_ascii_text(query@) {
                lemma_trim_ascii(query@);
            }
        }
        let t = string_of(&trim_chars(&chars_of(query)));
        let q = chars_of(str_to_lowercase(t.as_str()).as_str());
        q.len() == 0 || contains(&chars_of(self.search_text.as_str()), &q)
    }
}

/// Whether an ASCII query finds a search text: a blank query finds every
/// text; otherwise the trimmed, lower-cased query must occur in it.
pub open spec fn query_hits(text: Seq<char>, query: Seq<char>) -> bool {
    let q = lower_seq(trim(query));
    q.len() == 0 || contains_seq(text, q)
}

/// A search ignores surrounding whitespace and letter case, a blank search
/// finds everything, and what a search finds, every part of it finds too.
pub proof fn law_query_hits(text: Seq<char>, query: Seq<char>, part: Seq<char>)
    ensures
        trim(query).len() == 0 ==> query_hits(text, query),
        query_hits(text, query) == query_hits(text, lower_seq(trim(query))),
        query_hits(text, query) && contains_seq(lower_seq(trim(query)), lower_seq(trim(part))) ==> query_hits(text, part),
{
    lemma_trim_lower_trimmed(query);
    lemma_lower_idempotent(trim(query));
    if query_hits(text, query) && contains_seq(lower_seq(trim(query)), lower_seq(trim(part))) {
        if lower_seq(trim(query)).len() == 0 {
            let i = choose|i: int| contains_at(lower_seq(trim(query)), lower_seq(trim(part)), i);
            assert(lower_seq(trim(part)).len() == 0);
        } else {
            lemma_contains_transitive(text, lower_seq(trim(query)), lower_seq(trim(part)));
        }
    }
}

/// All devices of a list of categories, in order.
pub open spec fn devices_of(categories: Seq<HardwareCategory>) -> Seq<HardwareDevice>
    decreases categories.len(),
{
    if categories.len() == 0 {
        seq![]
    } else {
        devices_of(categories.drop_last()) + categories.last().devices@
    }
}

/// The position of the first device with the given id.
pub open spec fn first_with_id(devices: Seq<HardwareDevice>, id: Seq<char>) -> Option<int>
    decreases devices.len(),
{
    if devices.len() == 0 {
        None
    } else if devices[0].id@ == id {
        Some(0)
    } else {
        match first_with_id(devices.drop_first(), id) {
            Some(i) => Some(i + 1),
            None => None,
        }
    }
}

impl HardwareInventory {
    /// The number of devices in all categories.
    pub fn device_count(&self) -> (r: usize)
        requires
            devices_of(self.categories@).len() <= usize::MAX,
        ensures
            r == devices_of(self.categories@).len(),
            r == category_sizes(self.categories@),
    {
        proof {
            law_device_count_is_sum(self.categories@);
        }
        let mut total: usize = 0;
        let mut i: usize = 0;
        while i < self.categories.len()
            invariant
                i <= self.categories@.len(),
                total == devices_of(self.categories@.take(i as int)).len(),
                devices_of(self.categories@).len() <= usize::MAX,
            decreases self.categories.len() - i,
        {
            assert(self.categories@.take(i + 1).drop_last() =~= self.categories@.take(i as int));
            proof {
                lemma_devices_prefix_len(self.categories@, i as int + 1);
            }
            total = total + self.categories[i].devices.len();
            i += 1;
        }
        assert(self.categories@.take(self.categories.len() as int) =~= self.categories@);
        total
    }

    /// Every device, category by category.
    pub fn devices(&self) -> (r: Vec<&HardwareDevice>)
        ensures
            r@.map_values(|d: &HardwareDevice| *d) == devices_of(self.categories@),
    {
        let mut out: Vec<&HardwareDevice> = Vec::new();
        let mut i: usize = 0;
        while i < self.categories.len()
            invariant
                i <= self.categories@.len(),
                out@.map_values(|d: &HardwareDevice| *d) == devices_of(self.categories@.take(i as int)),
            decreases self.categories.len() - i,
        {
            assert(self.categories@.take(i + 1).drop_last() =~= self.categories@.take(i as int));
            let category = &self.categories[i];
            let ghost before = out@.map_values(|d: &HardwareDevice| *d);
            let mut j: usize = 0;
            while j < category.devices.len()
                invariant
                    j <= category.devices@.len(),
                    out@.map_values(|d: &HardwareDevice| *d) == before + category.devices@.take(j as int),
                decreases category.devices.len() - j,
            {
                let ghost o = out@;
                out.push(&category.devices[j]);
                assert(out@ == o.push(&category.devices@[j as int]));
                assert(category.devices@.take(j + 1) =~= category.devices@.take(j as int).push(category.devices@[j as int]));
                assert(out@.map_values(|d: &HardwareDevice| *d) =~= o.map_values(|d: &HardwareDevice| *d).push(category.devices@[j as int]));
                assert(out@.map_values(|d: &HardwareDevice| *d) =~= before + category.devices@.take(j + 1));
                j += 1;
            }
            assert(category.devices@.take(category.devices.len() as int) =~= category.devices@);
            assert(self.categories@.take(i + 1).last() == self.categories@[i as int]);
            i += 1;
        }
        assert(self.categories@.take(self.categories.len() as int) =~= self.categories@);
        out
    }

    /// The first device with the given id.
    pub fn device(&self, id: &str) -> (r: Option<&HardwareDevice>)
        ensures
            match first_with_id(devices_of(self.categories@), id@) {
                Some(i) => r matches Some(d) && *d == devices_of(self.categories@)[i],
                None => r is None,
            },
            r is None <==> forall|j: int| 0 <= j < devices_of(self.categories@).len() ==> (#[trigger] devices_of(
                self.categories@,
            )[j]).id@ != id@,
            r matches Some(d) ==> d.id@ == id@,
    {
        proof {
            law_first_with_id(devices_of(self.categories@), id@);
        }
        let all = self.devices();
        let ghost ds = devices_of(self.categories@);
        let want = chars_of(id);
        let mut k: usize = 0;
        assert(ds.skip(0) =~= ds);
        while k < all.len()
            invariant
                k <= all@.len(),
                all@.map_values(|d: &HardwareDevice| *d) == ds,
                ds == devices_of(self.categories@),
                want@ == id@,
                first_with_id(ds, id@) == (match first_with_id(ds.skip(k as int), id@) {
                    Some(i) => Some(i + k),
                    None => None,
                }),
            decreases all.len() - k,
        {
            let d = all[k];
            assert(ds.skip(k as int)[0] == ds[k as int]);
            assert(ds[k as int] == *d);
            if chars_eq(&chars_of(d.id.as_str()), &want) {
                assert(ds.skip(k as int)[0].id@ == id@);
                assert(first_with_id(ds.skip(k as int), id@) == Some(0int));
                assert(first_with_id(ds, id@) == Some(k as int));
                return Some(d);
            }
            assert(ds.skip(k as int).drop_first() =~= ds.skip(k + 1));
            k += 1;
        }
        assert(ds.skip(k as int).len() == 0);
        None
    }
}

/// The sum of the categories' device counts.
pub open spec fn category_sizes(categories: Seq<HardwareCategory>) -> nat
    decreases categories.len(),
{
    if categories.len() == 0 {
        0
    } else {
        category_sizes(categories.drop_last()) + categories.last().devices@.len()
    }
}

/// The devices of an inventory are as many as its categories hold together.
pub proof fn law_device_count_is_sum(categories: Seq<HardwareCategory>)
    ensures
        devices_of(categories).len() == category_sizes(categories),
    decreases categories.len(),
{
    if categories.len() > 0 {
        law_device_count_is_sum(categories.drop_last());
    }
}

/// The first device with an id is one with that id, and there is none
/// exactly when no device has it.
pub proof fn law_first_with_id(devices: Seq<HardwareDevice>, id: Seq<char>)
    ensures
        first_with_id(devices, id) is None <==> forall|j: int| 0 <= j < devices.len() ==> (#[trigger] devices[j]).id@ != id,
        first_with_id(devices, id) matches Some(i) ==> 0 <= i < devices.len() && devices[i].id@ == id
            && forall|j: int| 0 <= j < i ==> (#[trigger] devices[j]).id@ != id,
    decreases devices.len(),
{
    if devices.len() > 0 && devices[0].id@ != id {
        let rest = devices.drop_first();
        law_first_with_id(rest, id);
        assert forall|j: int| 0 < j < devices.len() implies devices[j] == rest[j - 1] by {}
        if first_with_id(rest, id) is None {
            assert forall|j: int| 0 <= j < devices.len() implies (#[trigger] devices[j]).id@ != id by {
                if j > 0 {
                    assert(devices[j] == rest[j - 1]);
                }
            }
        } else {
            let i = first_with_id(rest, id)->0;
            assert(devices[i + 1] == rest[i]);
            assert forall|j: int| 0 <= j < i + 1 implies (#[trigger] devices[j]).id@ != id by {
                if j > 0 {
                    assert(devices[j] == rest[j - 1]);
                }
            }
        }
    }
}

proof fn lemma_devices_prefix_len(categories: Seq<HardwareCategory>, i: int)
    requires
        0 <= i <= categories.len(),
    ensures
        devices_of(categories.take(i)).len() <= devices_of(categories).len(),
    decreases categories.len() - i,
{
    if i < categories.len() {
        lemma_devices_prefix_len(categories, i + 1);
        assert(categories.take(i + 1).drop_last() =~= categories.take(i));
    } else {
        assert(categories.take(i) =~= categories);
    }
}

/// The label shown for a storage-health availability.
pub open spec fn availability_text(availability: StorageHealthAvailability) -> Seq<char> {
    if availability == StorageHealthAvailability::PermissionDenied {
        "Permission required. Use Refresh as administrator for a one-time refresh."@
    } else {
        storage_health_availability_display_name(availability)
    }
}

/// The label shown for a storage-health availability; refused access says
/// how to retry.
pub fn storage_health_availability_text(availability: StorageHealthAvailability) -> (r: &'static str)
    ensures
        r@ == availability_text(availability),
{
    if availability == StorageHealthAvailability::PermissionDenied {
        "Permission required. Use Refresh as administrator for a one-time refresh."
    } else {
        availability.display_name()
    }
}

/// Property lines `label: value` (or `key: value`) for the first `n`
/// properties.
pub open spec fn property_lines(p: Seq<HardwareProperty>, n: nat, by_key: bool) -> Seq<char>
    decreases n,
{
    if n == 0 {
        seq![]
    } else {
        let q = p[n - 1];
        property_lines(p, (n - 1) as nat, by_key) + (if by_key {
            q.key@
        } else {
            q.label@
        }) + ": "@ + q.value@ + "\n"@
    }
}

/// The first `n` sections: a blank line, the title, then the properties.
pub open spec fn section_lines(s: Seq<HardwareSection>, n: nat) -> Seq<char>
    decreases n,
{
    if n == 0 {
        seq![]
    } else {
        let t = s[n - 1];
        section_lines(s, (n - 1) as nat) + "\n"@ + t.title@ + "\n"@ + property_lines(
            t.properties@,
            t.properties@.len(),
            false,
        )
    }
}

/// The lines of one sensor under its group.
pub open spec fn sensor_body(x: HardwareSensor) -> Seq<char> {
    "  "@ + x.label@ + "\n    Current: "@ + x.current@ + "\n    Minimum: "@ + x.minimum@
        + "\n    Maximum: "@ + x.maximum@ + "\n    Average: "@ + x.average@ + "\n    Status: "@
        + x.status@ + "\n"@
}

/// The group line that leads sensor `i` when its group differs from the
/// previous sensor's.
pub open spec fn group_line(s: Seq<HardwareSensor>, i: int) -> Seq<char> {
    if i == 0 || s[i - 1].group@ != s[i].group@ {
        s[i].group@ + "\n"@
    } else {
        seq![]
    }
}

/// The lines of the first `n` sensors.
pub open spec fn sensor_lines(s: Seq<HardwareSensor>, n: nat) -> Seq<char>
    decreases n,
{
    if n == 0 {
        seq![]
    } else {
        sensor_lines(s, (n - 1) as nat) + group_line(s, n - 1) + sensor_body(s[n - 1])
    }
}

/// The name lines of a device: its name, and its subtitle when not blank.
pub open spec fn device_head(d: HardwareDevice) -> Seq<char> {
    "\n"@ + d.name@ + "\n"@ + (if trim(d.subtitle@).len() > 0 {
        d.subtitle@ + "\n"@
    } else {
        seq![]
    })
}

/// The related-sensors part of a device, when it has sensors.
pub open spec fn sensors_part(d: HardwareDevice) -> Seq<char> {
    if d.sensors@.len() > 0 {
        "\nRelated sensors\n"@ + sensor_lines(d.sensors@, d.sensors@.len())
    } else {
        seq![]
    }
}

/// The advanced part of a device, when it has advanced properties.
pub open spec fn advanced_part(d: HardwareDevice) -> Seq<char> {
    if d.advanced@.len() > 0 {
        "\nAdvanced\n"@ + property_lines(d.advanced@, d.advanced@.len(), true)
    } else {
        seq![]
    }
}

/// The text block of a device: its name, its subtitle when not blank, its
/// sections, its related sensors grouped, and its advanced properties.
pub open spec fn device_block(d: HardwareDevice) -> Seq<char> {
    device_head(d) + section_lines(d.sections@, d.sections@.len()) + sensors_part(d) + advanced_part(d)
}

fn append_property(out: &mut Vec<char>, q: &HardwareProperty, by_key: bool)
    ensures
        final(out)@ == old(out)@ + (if by_key {
            q.key@
        } else {
            q.label@
        }) + ": "@ + q.value@ + "\n"@,
{
    if by_key {
        append_str(out, q.key.as_str());
    } else {
        append_str(out, q.label.as_str());
    }
    append_str(out, ": ");
    append_str(out, q.value.as_str());
    append_str(out, "\n");
}

fn append_properties(out: &mut Vec<char>, p: &Vec<HardwareProperty>, by_key: bool)
    ensures
        final(out)@ == old(out)@ + property_lines(p@, p@.len(), by_key),
{
    let mut i: usize = 0;
    while i < p.len()
        invariant
            i <= p@.len(),
            out@ == old(out)@ + property_lines(p@, i as nat, by_key),
        decreases p.len() - i,
    {
        append_property(out, &p[i], by_key);
        i += 1;
        assert(out@ =~= old(out)@ + property_lines(p@, i as nat, by_key));
    }
}

fn append_sensor_body(out: &mut Vec<char>, x: &HardwareSensor)
    ensures
        final(out)@ == old(out)@ + sensor_body(*x),
{
    append_str(out, "  ");
    append_str(out, x.label.as_str());
    append_str(out, "\n    Current: ");
    append_str(out, x.current.as_str());
    append_str(out, "\n    Minimum: ");
    append_str(out, x.minimum.as_str());
    append_str(out, "\n    Maximum: ");
    append_str(out, x.maximum.as_str());
    append_str(out, "\n    Average: ");
    append_str(out, x.average.as_str());
    append_str(out, "\n    Status: ");
    append_str(out, x.status.as_str());
    append_str(out, "\n");
    assert(out@ =~= old(out)@ + sensor_body(*x));
}

fn append_sensors(out: &mut Vec<char>, s: &Vec<HardwareSensor>)
    ensures
        final(out)@ == old(out)@ + sensor_lines(s@, s@.len()),
{
    let mut i: usize = 0;
    while i < s.len()
        invariant
            i <= s@.len(),
            out@ == old(out)@ + sensor_lines(s@, i as nat),
        decreases s.len() - i,
    {
        let x = &s[i];
        let ghost before = out@;
        let new_group = i == 0 || !chars_eq(&chars_of(s[i - 1].group.as_str()), &chars_of(x.group.as_str()));
        if new_group {
            append_str(out, x.group.as_str());
            append_str(out, "\n");
        }
        assert(out@ == before + group_line(s@, i as int));
        let ghost grouped = out@;
        append_sensor_body(out, x);
        assert(out@ == grouped + sensor_body(s@[i as int]));
        i += 1;
        assert(out@ =~= old(out)@ + sensor_lines(s@, i as nat));
    }
}

fn append_sections(out: &mut Vec<char>, d: &HardwareDevice)
    ensures
        final(out)@ == old(out)@ + section_lines(d.sections@, d.sections@.len()),
{
    let mut i: usize = 0;
    while i < d.sections.len()
        invariant
            i <= d.sections@.len(),
            out@ == old(out)@ + section_lines(d.sections@, i as nat),
        decreases d.sections.len() - i,
    {
        let t = &d.sections[i];
        append_str(out, "\n");
        append_str(out, t.title.as_str());
        append_str(out, "\n");
        append_properties(out, &t.properties, false);
        i += 1;
        assert(out@ =~= old(out)@ + section_lines(d.sections@, i as nat));
    }
}

fn append_head(out: &mut Vec<char>, d: &HardwareDevice)
    ensures
        final(out)@ == old(out)@ + device_head(*d),
{
    append_str(out, "\n");
    append_str(out, d.name.as_str());
    append_str(out, "\n");
    if trim_chars(&chars_of(d.subtitle.as_str())).len() > 0 {
        append_str(out, d.subtitle.as_str());
        append_str(out, "\n");
    }
    assert(out@ =~= old(out)@ + device_head(*d));
}

fn append_device(out: &mut Vec<char>, d: &HardwareDevice)
    ensures
        final(out)@ == old(out)@ + device_block(*d),
{
    append_head(out, d);
    let ghost a = out@;
    append_sections(out, d);
    let ghost b = out@;
    if d.sensors.len() > 0 {
        append_str(out, "\nRelated sensors\n");
        append_sensors(out, &d.sensors);
    }
    assert(out@ =~= b + sensors_part(*d));
    let ghost c = out@;
    if d.advanced.len() > 0 {
        append_str(out, "\nAdvanced\n");
        append_properties(out, &d.advanced, true);
    }
    assert(out@ =~= c + advanced_part(*d));
    assert(out@ =~= old(out)@ + device_block(*d));
}

/// A device as plain text.
pub fn hardware_device_text(device: &HardwareDevice) -> (r: String)
    ensures
        r@ == trim(device_block(*device)),
{
    let mut out: Vec<char> = Vec::new();
    append_device(&mut out, device);
    assert(out@ =~= device_block(*device));
    string_of(&trim_chars(&out))
}

/// `=` repeated `n` times.
pub open spec fn rule_line(n: nat) -> Seq<char> {
    Seq::new(n, |i: int| '=')
}

/// The blocks of the first `n` devices.
pub open spec fn device_blocks(d: Seq<HardwareDevice>, n: nat) -> Seq<char>
    decreases n,
{
    if n == 0 {
        seq![]
    } else {
        device_blocks(d, (n - 1) as nat) + device_block(d[n - 1])
    }
}

/// The first `n` categories: each after a blank line but the first, its
/// label underlined with `=`, then its devices.
pub open spec fn inventory_lines(c: Seq<HardwareCategory>, n: nat) -> Seq<char>
    decreases n,
{
    if n == 0 {
        seq![]
    } else {
        let k = c[n - 1];
        inventory_lines(c, (n - 1) as nat) + (if n - 1 > 0 {
            "\n"@
        } else {
            seq![]
        }) + k.label@ + "\n"@ + rule_line(k.label@.len()) + "\n"@ + device_blocks(
            k.devices@,
            k.devices@.len(),
        )
    }
}

/// The whole inventory as plain text.
pub fn hardware_inventory_text(inventory: &HardwareInventory) -> (r: String)
    ensures
        r@ == trim_end(inventory_lines(inventory.categories@, inventory.categories@.len())),
{
    let mut out: Vec<char> = Vec::new();
    let mut i: usize = 0;
    while i < inventory.categories.len()
        invariant
            i <= inventory.categories@.len(),
            out@ == inventory_lines(inventory.categories@, i as nat),
        decreases inventory.categories.len() - i,
    {
        let k = &inventory.categories[i];
        let ghost before = out@;
        if i > 0 {
            out.push('\n');
        }
        let ghost sep = out@;
        assert(sep == before + (if i > 0 { "\n"@ } else { Seq::<char>::empty() })) by {
            reveal_strlit("\n");
        }
        append_str(&mut out, k.label.as_str());
        out.push('\n');
        let width = chars_of(k.label.as_str()).len();
        let mut j: usize = 0;
        let ghost with_label = out@;
        while j < width
            invariant
                j <= width,
                out@ == with_label + rule_line(j as nat),
            decreases width - j,
        {
            out.push('=');
            assert(rule_line((j + 1) as nat) =~= rule_line(j as nat).push('='));
            j += 1;
        }
        out.push('\n');
        let ghost with_rule = out@;
        let mut m: usize = 0;
        while m < k.devices.len()
            invariant
                m <= k.devices@.len(),
                out@ == with_rule + device_blocks(k.devices@, m as nat),
            decreases k.devices.len() - m,
        {
            append_device(&mut out, &k.devices[m]);
            m += 1;
            assert(out@ =~= with_rule + device_blocks(k.devices@, m as nat));
        }
        assert(out@ =~= before + (if i > 0 { "\n"@ } else { Seq::<char>::empty() }) + k.label@ + "\n"@ + rule_line(k.label@.len()) + "\n"@ + device_blocks(k.devices@, k.devices@.len())) by {
            reveal_strlit("\n");
        }
        i += 1;
        assert(out@ =~= inventory_lines(inventory.categories@, i as nat));
    }
    string_of(&trim_end_chars(&out))
}

/// Whether `s` starts with `p`.
pub open spec fn has_prefix(s: Seq<char>, p: Seq<char>) -> bool {
    p.len() <= s.len() && s.take(p.len() as int) == p
}

/// Whether `s` ends with `p`.
pub open spec fn has_suffix(s: Seq<char>, p: Seq<char>) -> bool {
    p.len() <= s.len() && s.skip(s.len() - p.len()) == p
}

/// The section a property is shown in, by its key.
pub open spec fn section_of(key: Seq<char>) -> Seq<char> {
    if key == "chassis_type"@ {
        "Identity"@
    } else if has_prefix(key, "os_"@) ||
        has_prefix(key, "kernel_"@) ||
        key == "hostname"@ ||
        key == "architecture"@ {
        "Operating system"@
    } else if has_suffix(key, "_frequency_hz"@) ||
        has_suffix(key, "_freq_hz"@) ||
        has_prefix(key, "scaling_"@) ||
        contains_seq(key, "performance"@) ||
        key == "boost_enabled"@ ||
        key == "policies_sampled"@ {
        "Performance"@
    } else if has_prefix(key, "bios_"@) ||
        has_prefix(key, "board_"@) ||
        has_prefix(key, "chassis_"@) ||
        has_prefix(key, "product_"@) ||
        has_prefix(key, "firmware_"@) ||
        key == "release_date"@ ||
        key == "ec_firmware_release"@ ||
        key == "agesa_version"@ ||
        key == "smbios_version"@ ||
        key == "uefi_supported"@ ||
        key == "platform_firmware_revision"@ {
        "Firmware & platform"@
    } else if has_prefix(key, "management_device"@) {
        "Monitoring & management"@
    } else if has_prefix(key, "tpm_"@) ||
        key == "security_role"@ {
        "Security"@
    } else if key == "cores"@ ||
        key == "threads"@ ||
        key == "sockets"@ ||
        key == "logical_cpus"@ ||
        key == "physical_package_id"@ ||
        key == "core_id"@ ||
        key == "cache_hierarchy"@ ||
        key == "affected_cpus"@ ||
        key == "related_cpus"@ ||
        key == "cpu_family"@ ||
        key == "model_name"@ ||
        key == "socket_designation"@ ||
        key == "processor_upgrade"@ {
        "Topology"@
    } else if contains_seq(key, "memory"@) ||
        has_prefix(key, "dimm_"@) ||
        key == "size_mb"@ ||
        key == "total_bytes"@ ||
        key == "installed_capacity_bytes"@ ||
        key == "maximum_capacity_bytes"@ ||
        key == "memory_slots"@ ||
        key == "capacity_bytes"@ ||
        key == "slot_label"@ ||
        key == "locator"@ ||
        key == "bank_locator"@ ||
        key == "form_factor"@ ||
        key == "module_type"@ ||
        key == "spd_speed"@ ||
        key == "rank"@ ||
        key == "data_width"@ ||
        key == "total_width"@ ||
        key == "minimum_voltage"@ ||
        key == "maximum_voltage"@ ||
        key == "configured_voltage"@ ||
        key == "error_correction_type"@ ||
        key == "ce_count"@ ||
        key == "ue_count"@ ||
        key == "correctable_errors"@ ||
        key == "uncorrectable_errors"@ {
        "Memory"@
    } else if contains_seq(key, "link_"@) ||
        has_suffix(key, "_id"@) ||
        key == "speed_mbps"@ ||
        key == "mac_address"@ ||
        key == "mtu"@ ||
        key == "transport"@ ||
        key == "interface_type"@ ||
        key == "pci_address"@ ||
        key == "usb_version"@ ||
        key == "class_code"@ ||
        key == "iommu_group"@ ||
        key == "number_of_configurations"@ {
        "Interface"@
    } else if storage_health_key(key) {
        "SMART / Health"@
    } else if contains_seq(key, "sector"@) ||
        contains_seq(key, "block_size"@) ||
        contains_seq(key, "io_size"@) ||
        key == "scheduler"@ ||
        key == "state"@ ||
        key == "namespace"@ ||
        key == "namespace_count"@ ||
        key == "partition"@ {
        "Storage"@
    } else if has_prefix(key, "charge_"@) ||
        has_prefix(key, "energy_"@) ||
        has_prefix(key, "voltage_"@) ||
        has_prefix(key, "current_"@) ||
        has_prefix(key, "power_"@) ||
        key == "capacity"@ ||
        key == "system_usage"@ {
        "Power"@
    } else if has_prefix(key, "vulnerability_"@) ||
        key == "security_level"@ {
        "Security"@
    } else {
        "Properties"@
    }
}

/// The section a property is shown in.
pub fn property_section(key: &str) -> (r: &'static str)
    ensures
        r@ == section_of(key@),
{
    let k = chars_of(key);
    if chars_eq_str(&k, "chassis_type") {
        "Identity"
    } else if starts_with_str(&k, "os_") ||
        starts_with_str(&k, "kernel_") ||
        chars_eq_str(&k, "hostname") ||
        chars_eq_str(&k, "architecture") {
        "Operating system"
    } else if ends_with_str(&k, "_frequency_hz") ||
        ends_with_str(&k, "_freq_hz") ||
        starts_with_str(&k, "scaling_") ||
        contains_str(&k, "performance") ||
        chars_eq_str(&k, "boost_enabled") ||
        chars_eq_str(&k, "policies_sampled") {
        "Performance"
    } else if starts_with_str(&k, "bios_") ||
        starts_with_str(&k, "board_") ||
        starts_with_str(&k, "chassis_") ||
        starts_with_str(&k, "product_") ||
        starts_with_str(&k, "firmware_") ||
        chars_eq_str(&k, "release_date") ||
        chars_eq_str(&k, "ec_firmware_release") ||
        chars_eq_str(&k, "agesa_version") ||
        chars_eq_str(&k, "smbios_version") ||
        chars_eq_str(&k, "uefi_supported") ||
        chars_eq_str(&k, "platform_firmware_revision") {
        "Firmware & platform"
    } else if starts_with_str(&k, "management_device") {
        "Monitoring & management"
    } else if starts_with_str(&k, "tpm_") ||
        chars_eq_str(&k, "security_role") {
        "Security"
    } else if chars_eq_str(&k, "cores") ||
        chars_eq_str(&k, "threads") ||
        chars_eq_str(&k, "sockets") ||
        chars_eq_str(&k, "logical_cpus") ||
        chars_eq_str(&k, "physical_package_id") ||
        chars_eq_str(&k, "core_id") ||
        chars_eq_str(&k, "cache_hierarchy") ||
        chars_eq_str(&k, "affected_cpus") ||
        chars_eq_str(&k, "related_cpus") ||
        chars_eq_str(&k, "cpu_family") ||
        chars_eq_str(&k, "model_name") ||
        chars_eq_str(&k, "socket_designation") ||
        chars_eq_str(&k, "processor_upgrade") {
        "Topology"
    } else if contains_str(&k, "memory") ||
        starts_with_str(&k, "dimm_") ||
        chars_eq_str(&k, "size_mb") ||
        chars_eq_str(&k, "total_bytes") ||
        chars_eq_str(&k, "installed_capacity_bytes") ||
        chars_eq_str(&k, "maximum_capacity_bytes") ||
        chars_eq_str(&k, "memory_slots") ||
        chars_eq_str(&k, "capacity_bytes") ||
        chars_eq_str(&k, "slot_label") ||
        chars_eq_str(&k, "locator") ||
        chars_eq_str(&k, "bank_locator") ||
        chars_eq_str(&k, "form_factor") ||
        chars_eq_str(&k, "module_type") ||
        chars_eq_str(&k, "spd_speed") ||
        chars_eq_str(&k, "rank") ||
        chars_eq_str(&k, "data_width") ||
        chars_eq_str(&k, "total_width") ||
        chars_eq_str(&k, "minimum_voltage") ||
        chars_eq_str(&k, "maximum_voltage") ||
        chars_eq_str(&k, "configured_voltage") ||
        chars_eq_str(&k, "error_correction_type") ||
        chars_eq_str(&k, "ce_count") ||
        chars_eq_str(&k, "ue_count") ||
        chars_eq_str(&k, "correctable_errors") ||
        chars_eq_str(&k, "uncorrectable_errors") {
        "Memory"
    } else if contains_str(&k, "link_") ||
        ends_with_str(&k, "_id") ||
        chars_eq_str(&k, "speed_mbps") ||
        chars_eq_str(&k, "mac_address") ||
        chars_eq_str(&k, "mtu") ||
        chars_eq_str(&k, "transport") ||
        chars_eq_str(&k, "interface_type") ||
        chars_eq_str(&k, "pci_address") ||
        chars_eq_str(&k, "usb_version") ||
        chars_eq_str(&k, "class_code") ||
        chars_eq_str(&k, "iommu_group") ||
        chars_eq_str(&k, "number_of_configurations") {
        "Interface"
    } else if is_storage_health_property(key) {
        "SMART / Health"
    } else if contains_str(&k, "sector") ||
        contains_str(&k, "block_size") ||
        contains_str(&k, "io_size") ||
        chars_eq_str(&k, "scheduler") ||
        chars_eq_str(&k, "state") ||
        chars_eq_str(&k, "namespace") ||
        chars_eq_str(&k, "namespace_count") ||
        chars_eq_str(&k, "partition") {
        "Storage"
    } else if starts_with_str(&k, "charge_") ||
        starts_with_str(&k, "energy_") ||
        starts_with_str(&k, "voltage_") ||
        starts_with_str(&k, "current_") ||
        starts_with_str(&k, "power_") ||
        chars_eq_str(&k, "capacity") ||
        chars_eq_str(&k, "system_usage") {
        "Power"
    } else if starts_with_str(&k, "vulnerability_") ||
        chars_eq_str(&k, "security_level") {
        "Security"
    } else {
        "Properties"
    }
}


/// Whether a property belongs to the advanced list: a low-level property,
/// a path, a raw value, or one of the bookkeeping keys.
pub open spec fn is_advanced(key: Seq<char>, low_level: bool) -> bool {
    low_level || has_suffix(key, "_path"@) ||
        has_prefix(key, "raw_"@) ||
        key == "security_role"@ ||
        key == "i2c_bus"@ ||
        key == "i2c_address"@ ||
        key == "computed_by"@ ||
        key == "aggregation"@ ||
        key == "attribute"@ ||
        key == "of_node"@ ||
        key == "drm_node"@ ||
        key == "management_device_address"@ ||
        key == "management_device_address_type"@ ||
        key == "firmware_core_count"@ ||
        key == "firmware_core_enabled"@ ||
        key == "firmware_thread_count"@ ||
        key == "firmware_thread_enabled"@ ||
        key == "memory_slots_populated"@ ||
        key == "memory_slots_total"@
}

/// Whether a property belongs to the advanced list; `low_level` says
/// whether the key is one of the low-level hardware properties.
pub fn advanced_property(key: &str, low_level: bool) -> (r: bool)
    ensures
        r == is_advanced(key@, low_level),
{
    let k = chars_of(key);
    low_level || ends_with_str(&k, "_path") ||
        starts_with_str(&k, "raw_") ||
        chars_eq_str(&k, "security_role") ||
        chars_eq_str(&k, "i2c_bus") ||
        chars_eq_str(&k, "i2c_address") ||
        chars_eq_str(&k, "computed_by") ||
        chars_eq_str(&k, "aggregation") ||
        chars_eq_str(&k, "attribute") ||
        chars_eq_str(&k, "of_node") ||
        chars_eq_str(&k, "drm_node") ||
        chars_eq_str(&k, "management_device_address") ||
        chars_eq_str(&k, "management_device_address_type") ||
        chars_eq_str(&k, "firmware_core_count") ||
        chars_eq_str(&k, "firmware_core_enabled") ||
        chars_eq_str(&k, "firmware_thread_count") ||
        chars_eq_str(&k, "firmware_thread_enabled") ||
        chars_eq_str(&k, "memory_slots_populated") ||
        chars_eq_str(&k, "memory_slots_total")
}

/// Where a property sorts within its section: identity first, then a few
/// well-known keys, then the rest.
pub open spec fn priority_of(key: Seq<char>) -> nat {
    if key == "hwall_class"@ {
        0
    } else if key == "vendor"@ {
        1
    } else if key == "model"@ {
        2
    } else if key == "driver"@ {
        3
    } else if key == "bus_address"@ {
        4
    } else if key == "os_pretty_name"@ {
        5
    } else if key == "kernel_release"@ {
        6
    } else if key == "architecture"@ {
        7
    } else if key == "hostname"@ {
        8
    } else if key == "installed_capacity_bytes"@ ||
        key == "maximum_capacity_bytes"@ ||
        key == "capacity_bytes"@ ||
        key == "total_bytes"@ ||
        key == "size_mb"@ {
        9
    } else if key == "memory_slots"@ ||
        key == "memory_slots_populated"@ ||
        key == "memory_slots_total"@ {
        10
    } else if key == "cores"@ {
        11
    } else if key == "threads"@ ||
        key == "logical_cpus"@ {
        12
    } else {
        100
    }
}

pub fn property_priority(key: &str) -> (r: usize)
    ensures
        r == priority_of(key@),
{
    let k = chars_of(key);
    if chars_eq_str(&k, "hwall_class") {
        0
    } else if chars_eq_str(&k, "vendor") {
        1
    } else if chars_eq_str(&k, "model") {
        2
    } else if chars_eq_str(&k, "driver") {
        3
    } else if chars_eq_str(&k, "bus_address") {
        4
    } else if chars_eq_str(&k, "os_pretty_name") {
        5
    } else if chars_eq_str(&k, "kernel_release") {
        6
    } else if chars_eq_str(&k, "architecture") {
        7
    } else if chars_eq_str(&k, "hostname") {
        8
    } else if chars_eq_str(&k, "installed_capacity_bytes") ||
        chars_eq_str(&k, "maximum_capacity_bytes") ||
        chars_eq_str(&k, "capacity_bytes") ||
        chars_eq_str(&k, "total_bytes") ||
        chars_eq_str(&k, "size_mb") {
        9
    } else if chars_eq_str(&k, "memory_slots") ||
        chars_eq_str(&k, "memory_slots_populated") ||
        chars_eq_str(&k, "memory_slots_total") {
        10
    } else if chars_eq_str(&k, "cores") {
        11
    } else if chars_eq_str(&k, "threads") ||
        chars_eq_str(&k, "logical_cpus") {
        12
    } else {
        100
    }
}

/// The SMBIOS chassis type names, by type code (the top bit is the lock flag).
pub open spec fn chassis_name_of(code: u8) -> Option<Seq<char>> {
    let c = code % 128;
    if c == 1 {
        Some("Other"@)
    } else if c == 2 {
        Some("Unknown"@)
    } else if c == 3 {
        Some("Desktop"@)
    } else if c == 4 {
        Some("Low-profile desktop"@)
    } else if c == 5 {
        Some("Pizza box"@)
    } else if c == 6 {
        Some("Mini tower"@)
    } else if c == 7 {
        Some("Tower"@)
    } else if c == 8 {
        Some("Portable"@)
    } else if c == 9 {
        Some("Laptop"@)
    } else if c == 10 {
        Some("Notebook"@)
    } else if c == 11 {
        Some("Hand-held"@)
    } else if c == 12 {
        Some("Docking station"@)
    } else if c == 13 {
        Some("All-in-one"@)
    } else if c == 14 {
        Some("Sub-notebook"@)
    } else if c == 15 {
        Some("Space-saving"@)
    } else if c == 16 {
        Some("Lunch box"@)
    } else if c == 17 {
        Some("Main server chassis"@)
    } else if c == 18 {
        Some("Expansion chassis"@)
    } else if c == 19 {
        Some("Sub-chassis"@)
    } else if c == 20 {
        Some("Bus expansion chassis"@)
    } else if c == 21 {
        Some("Peripheral chassis"@)
    } else if c == 22 {
        Some("RAID chassis"@)
    } else if c == 23 {
        Some("Rack-mount chassis"@)
    } else if c == 24 {
        Some("Sealed-case PC"@)
    } else if c == 25 {
        Some("Multi-system chassis"@)
    } else if c == 26 {
        Some("Compact PCI"@)
    } else if c == 27 {
        Some("Advanced TCA"@)
    } else if c == 28 {
        Some("Blade"@)
    } else if c == 29 {
        Some("Blade enclosure"@)
    } else if c == 30 {
        Some("Tablet"@)
    } else if c == 31 {
        Some("Convertible"@)
    } else if c == 32 {
        Some("Detachable"@)
    } else if c == 33 {
        Some("IoT gateway"@)
    } else if c == 34 {
        Some("Embedded PC"@)
    } else if c == 35 {
        Some("Mini PC"@)
    } else if c == 36 {
        Some("Stick PC"@)
    } else {
        None
    }
}

pub fn chassis_type_name(code: u8) -> (r: Option<&'static str>)
    ensures
        match r {
            Some(n) => chassis_name_of(code) == Some(n@),
            None => chassis_name_of(code) is None,
        },
{
    let c = code % 128;
    if c == 1 {
        Some("Other")
    } else if c == 2 {
        Some("Unknown")
    } else if c == 3 {
        Some("Desktop")
    } else if c == 4 {
        Some("Low-profile desktop")
    } else if c == 5 {
        Some("Pizza box")
    } else if c == 6 {
        Some("Mini tower")
    } else if c == 7 {
        Some("Tower")
    } else if c == 8 {
        Some("Portable")
    } else if c == 9 {
        Some("Laptop")
    } else if c == 10 {
        Some("Notebook")
    } else if c == 11 {
        Some("Hand-held")
    } else if c == 12 {
        Some("Docking station")
    } else if c == 13 {
        Some("All-in-one")
    } else if c == 14 {
        Some("Sub-notebook")
    } else if c == 15 {
        Some("Space-saving")
    } else if c == 16 {
        Some("Lunch box")
    } else if c == 17 {
        Some("Main server chassis")
    } else if c == 18 {
        Some("Expansion chassis")
    } else if c == 19 {
        Some("Sub-chassis")
    } else if c == 20 {
        Some("Bus expansion chassis")
    } else if c == 21 {
        Some("Peripheral chassis")
    } else if c == 22 {
        Some("RAID chassis")
    } else if c == 23 {
        Some("Rack-mount chassis")
    } else if c == 24 {
        Some("Sealed-case PC")
    } else if c == 25 {
        Some("Multi-system chassis")
    } else if c == 26 {
        Some("Compact PCI")
    } else if c == 27 {
        Some("Advanced TCA")
    } else if c == 28 {
        Some("Blade")
    } else if c == 29 {
        Some("Blade enclosure")
    } else if c == 30 {
        Some("Tablet")
    } else if c == 31 {
        Some("Convertible")
    } else if c == 32 {
        Some("Detachable")
    } else if c == 33 {
        Some("IoT gateway")
    } else if c == 34 {
        Some("Embedded PC")
    } else if c == 35 {
        Some("Mini PC")
    } else if c == 36 {
        Some("Stick PC")
    } else {
        None
    }
}

/// The order of the known sections for a category.
pub open spec fn section_order_of(category: HardwareCategoryKind) -> Seq<Seq<char>> {
    match category {
        HardwareCategoryKind::System => seq!["Identity"@, "Operating system"@, "Firmware & platform"@, "Properties"@],
        HardwareCategoryKind::Motherboard => seq!["Identity"@, "Firmware & platform"@, "Monitoring & management"@, "Interface"@, "Properties"@],
        HardwareCategoryKind::Processor => seq!["Identity"@, "Topology"@, "Performance"@, "Security"@, "Properties"@],
        HardwareCategoryKind::Memory => seq!["Identity"@, "Memory"@, "Properties"@],
        HardwareCategoryKind::Storage => seq!["Identity"@, "Storage"@, "SMART / Health"@, "Interface"@, "Properties"@],
        HardwareCategoryKind::Network => seq!["Identity"@, "Interface"@, "Properties"@],
        HardwareCategoryKind::Power => seq!["Identity"@, "Power"@, "Properties"@],
        HardwareCategoryKind::Security => seq!["Identity"@, "Security"@, "Properties"@],
        _ => seq!["Identity"@, "Interface"@, "Performance"@, "Properties"@],
    }
}

pub fn section_order_for(category: HardwareCategoryKind) -> (r: Vec<&'static str>)
    ensures
        r@.map_values(|s: &'static str| s@) == section_order_of(category),
{
    let v: Vec<&'static str> = match category {
        HardwareCategoryKind::System => vec!["Identity", "Operating system", "Firmware & platform", "Properties"],
        HardwareCategoryKind::Motherboard => vec!["Identity", "Firmware & platform", "Monitoring & management", "Interface", "Properties"],
        HardwareCategoryKind::Processor => vec!["Identity", "Topology", "Performance", "Security", "Properties"],
        HardwareCategoryKind::Memory => vec!["Identity", "Memory", "Properties"],
        HardwareCategoryKind::Storage => vec!["Identity", "Storage", "SMART / Health", "Interface", "Properties"],
        HardwareCategoryKind::Network => vec!["Identity", "Interface", "Properties"],
        HardwareCategoryKind::Power => vec!["Identity", "Power", "Properties"],
        HardwareCategoryKind::Security => vec!["Identity", "Security", "Properties"],
        _ => vec!["Identity", "Interface", "Performance", "Properties"],
    };
    assert(v@.map_values(|s: &'static str| s@) =~= section_order_of(category));
    v
}

/// The label of the bus address line: network devices show their
/// interface there.
pub fn bus_address_label(class: DeviceClass) -> (r: &'static str)
    ensures
        r@ == (if class == DeviceClass::Network {
            "Interface"@
        } else {
            "Bus address"@
        }),
{
    if class == DeviceClass::Network {
        "Interface"
    } else {
        "Bus address"
    }
}

/// What the hardware view reads of an inventory device to place, name and
/// filter it.
#[derive(Debug, Clone)]
pub struct DeviceSummary {
    pub id: String,
    pub class: DeviceClass,
    pub name: String,
    pub vendor: Option<String>,
    pub model: Option<String>,
    pub driver: Option<String>,
    pub bus_address: Option<String>,
    pub parent: Option<String>,
    /// The `device_class` property (USB class), when it is a string.
    pub device_class: Option<String>,
    /// The `class_code` property (PCI class), when it is a string.
    pub class_code: Option<String>,
    /// The `memory_role` property, when it is a string.
    pub memory_role: Option<String>,
    pub slot_label: Option<String>,
    pub locator: Option<String>,
    pub os_pretty_name: Option<String>,
    pub os_name: Option<String>,
    /// The `partition` property, when it is a boolean.
    pub partition: Option<bool>,
    pub has_sensors: bool,
    pub has_properties: bool,
}

/// The view of an optional string, or nothing.
pub open spec fn or_empty(o: Option<String>) -> Seq<char> {
    match o {
        Some(s) => s@,
        None => seq![],
    }
}

/// The text a category is recognized in: name, vendor, model and USB
/// class, lower-cased.
pub open spec fn category_text(d: DeviceSummary) -> Seq<char> {
    unicode_lower_str(d.name@ + " "@ + or_empty(d.vendor) + " "@ + or_empty(d.model) + " "@ + or_empty(d.device_class))
}

/// The PCI class code without `0x` prefixes.
pub open spec fn class_code_digits(d: DeviceSummary) -> Seq<char> {
    trim_start_seq(or_empty(d.class_code), "0x"@)
}

/// The category of a device: audio and security devices by their text or
/// PCI class, USB and SMBus controllers by PCI class, then by device class
/// (sensor chips of the board go with the motherboard).
pub open spec fn category_of(d: DeviceSummary) -> HardwareCategoryKind {
    let t = category_text(d);
    let c = class_code_digits(d);
    if contains_seq(t, "audio"@) || contains_seq(t, "sound"@) || has_prefix(c, "04"@) {
        HardwareCategoryKind::Audio
    } else if contains_seq(t, "tpm"@) || contains_seq(t, "trusted platform"@) || contains_seq(t, "security"@) || has_prefix(c, "10"@) {
        HardwareCategoryKind::Security
    } else if has_prefix(c, "0c03"@) {
        HardwareCategoryKind::Usb
    } else if has_prefix(c, "0c05"@) {
        HardwareCategoryKind::Controllers
    } else {
        match d.class {
            DeviceClass::System => HardwareCategoryKind::System,
            DeviceClass::Motherboard | DeviceClass::Bios => HardwareCategoryKind::Motherboard,
            DeviceClass::Cpu => HardwareCategoryKind::Processor,
            DeviceClass::Memory => HardwareCategoryKind::Memory,
            DeviceClass::Gpu => HardwareCategoryKind::Graphics,
            DeviceClass::Storage => HardwareCategoryKind::Storage,
            DeviceClass::Network => HardwareCategoryKind::Network,
            DeviceClass::Pci => HardwareCategoryKind::Pci,
            DeviceClass::Usb => HardwareCategoryKind::Usb,
            DeviceClass::Thunderbolt => HardwareCategoryKind::Thunderbolt,
            DeviceClass::PowerSupply | DeviceClass::Battery => HardwareCategoryKind::Power,
            DeviceClass::Thermal => HardwareCategoryKind::Thermal,
            DeviceClass::SensorController => if opt_view(d.parent) == Some("motherboard:0"@) {
                HardwareCategoryKind::Motherboard
            } else {
                HardwareCategoryKind::Controllers
            },
            _ => HardwareCategoryKind::Other,
        }
    }
}

/// Whether neither a device's text nor its PCI class code places it in one
/// of the categories that take precedence over its device class (audio,
/// security, USB or SMBus controllers).
pub open spec fn no_category_override(d: DeviceSummary) -> bool {
    let t = category_text(d);
    let c = class_code_digits(d);
    &&& !contains_seq(t, "audio"@)
    &&& !contains_seq(t, "sound"@)
    &&& !contains_seq(t, "tpm"@)
    &&& !contains_seq(t, "trusted platform"@)
    &&& !contains_seq(t, "security"@)
    &&& !has_prefix(c, "04"@)
    &&& !has_prefix(c, "10"@)
    &&& !has_prefix(c, "0c03"@)
    &&& !has_prefix(c, "0c05"@)
}

/// A device whose text and class code name no audio, security, USB or SMBus
/// device is listed under the category of its device class: graphics cards
/// under Graphics, processors under Processor, memory under Memory, drives
/// under Storage, network adapters under Network, and so on; audio text or
/// a 04xx class code always means Audio, whatever the device class.
pub proof fn law_device_class_decides_category(d: DeviceSummary)
    ensures
        no_category_override(d) && d.class == DeviceClass::Gpu ==> category_of(d)
            == HardwareCategoryKind::Graphics,
        no_category_override(d) && d.class == DeviceClass::Cpu ==> category_of(d)
            == HardwareCategoryKind::Processor,
        no_category_override(d) && d.class == DeviceClass::Memory ==> category_of(d)
            == HardwareCategoryKind::Memory,
        no_category_override(d) && d.class == DeviceClass::Storage ==> category_of(d)
            == HardwareCategoryKind::Storage,
        no_category_override(d) && d.class == DeviceClass::Network ==> category_of(d)
            == HardwareCategoryKind::Network,
        no_category_override(d) && d.class == DeviceClass::System ==> category_of(d)
            == HardwareCategoryKind::System,
        no_category_override(d) && (d.class == DeviceClass::Motherboard || d.class
            == DeviceClass::Bios) ==> category_of(d) == HardwareCategoryKind::Motherboard,
        no_category_override(d) && d.class == DeviceClass::Usb ==> category_of(d)
            == HardwareCategoryKind::Usb,
        no_category_override(d) && d.class == DeviceClass::Pci ==> category_of(d)
            == HardwareCategoryKind::Pci,
        no_category_override(d) && d.class == DeviceClass::Thunderbolt ==> category_of(d)
            == HardwareCategoryKind::Thunderbolt,
        no_category_override(d) && (d.class == DeviceClass::PowerSupply || d.class
            == DeviceClass::Battery) ==> category_of(d) == HardwareCategoryKind::Power,
        no_category_override(d) && d.class == DeviceClass::Thermal ==> category_of(d)
            == HardwareCategoryKind::Thermal,
        no_category_override(d) && (d.class == DeviceClass::Bluetooth || d.class
            == DeviceClass::Other) ==> category_of(d) == HardwareCategoryKind::Other,
        no_category_override(d) && d.class == DeviceClass::SensorController ==> category_of(d) == (
        if opt_view(d.parent) == Some("motherboard:0"@) {
            HardwareCategoryKind::Motherboard
        } else {
            HardwareCategoryKind::Controllers
        }),
        contains_seq(category_text(d), "audio"@) ==> category_of(d) == HardwareCategoryKind::Audio,
        contains_seq(category_text(d), "sound"@) ==> category_of(d) == HardwareCategoryKind::Audio,
        has_prefix(class_code_digits(d), "04"@) ==> category_of(d) == HardwareCategoryKind::Audio,
        !contains_seq(category_text(d), "audio"@) && !contains_seq(category_text(d), "sound"@)
            && !has_prefix(class_code_digits(d), "04"@) && (contains_seq(category_text(d), "security"@)
            || contains_seq(category_text(d), "tpm"@) || has_prefix(class_code_digits(d), "10"@))
            ==> category_of(d) == HardwareCategoryKind::Security,
{
}

fn text_or_empty(o: &Option<String>) -> (r: Vec<char>)
    ensures
        r@ == or_empty(*o),
{
    match o {
        Some(s) => chars_of(s.as_str()),
        None => Vec::new(),
    }
}

/// Places a device in a category.
pub fn category_for(d: &DeviceSummary) -> (r: HardwareCategoryKind)
    ensures
        r == category_of(*d),
{
    let mut v = chars_of(d.name.as_str());
    append_str(&mut v, " ");
    append_chars(&mut v, &text_or_empty(&d.vendor));
    append_str(&mut v, " ");
    append_chars(&mut v, &text_or_empty(&d.model));
    append_str(&mut v, " ");
    append_chars(&mut v, &text_or_empty(&d.device_class));
    let t = chars_of(str_to_lowercase(string_of(&v).as_str()).as_str());
    let c = trim_start_seq_chars(&text_or_empty(&d.class_code), &chars_of("0x"));
    if contains_str(&t, "audio") || contains_str(&t, "sound") || starts_with_str(&c, "04") {
        return HardwareCategoryKind::Audio;
    }
    if contains_str(&t, "tpm") || contains_str(&t, "trusted platform") || contains_str(&t, "security") || starts_with_str(&c, "10") {
        return HardwareCategoryKind::Security;
    }
    if starts_with_str(&c, "0c03") {
        return HardwareCategoryKind::Usb;
    }
    if starts_with_str(&c, "0c05") {
        return HardwareCategoryKind::Controllers;
    }
    match d.class {
        DeviceClass::System => HardwareCategoryKind::System,
        DeviceClass::Motherboard | DeviceClass::Bios => HardwareCategoryKind::Motherboard,
        DeviceClass::Cpu => HardwareCategoryKind::Processor,
        DeviceClass::Memory => HardwareCategoryKind::Memory,
        DeviceClass::Gpu => HardwareCategoryKind::Graphics,
        DeviceClass::Storage => HardwareCategoryKind::Storage,
        DeviceClass::Network => HardwareCategoryKind::Network,
        DeviceClass::Pci => HardwareCategoryKind::Pci,
        DeviceClass::Usb => HardwareCategoryKind::Usb,
        DeviceClass::Thunderbolt => HardwareCategoryKind::Thunderbolt,
        DeviceClass::PowerSupply | DeviceClass::Battery => HardwareCategoryKind::Power,
        DeviceClass::Thermal => HardwareCategoryKind::Thermal,
        DeviceClass::SensorController => {
            let on_board = match &d.parent {
                Some(p) => chars_eq_str(&chars_of(p.as_str()), "motherboard:0"),
                None => false,
            };
            if on_board {
                HardwareCategoryKind::Motherboard
            } else {
                HardwareCategoryKind::Controllers
            }
        },
        _ => HardwareCategoryKind::Other,
    }
}

/// `values` with `v` appended unless already present.
pub open spec fn add_unique(values: Seq<Seq<char>>, v: Seq<char>) -> Seq<Seq<char>> {
    if values.contains(v) {
        values
    } else {
        values.push(v)
    }
}

/// A trimmed identity value that is not blank and not already part of the
/// device name.
pub open spec fn extra_value(o: Option<String>, name: Seq<char>) -> Option<Seq<char>> {
    match o {
        Some(x) => if trim(x@).len() > 0 && !contains_seq(name, trim(x@)) {
            Some(trim(x@))
        } else {
            None
        },
        None => None,
    }
}

/// A trimmed value that is not blank.
pub open spec fn nonblank(o: Option<String>) -> Option<Seq<char>> {
    match o {
        Some(x) => if trim(x@).len() > 0 {
            Some(trim(x@))
        } else {
            None
        },
        None => None,
    }
}

/// `values` with an optional value added (uniquely).
pub open spec fn add_opt(values: Seq<Seq<char>>, v: Option<Seq<char>>) -> Seq<Seq<char>> {
    match v {
        Some(x) => add_unique(values, x),
        None => values,
    }
}

/// Values joined by a separator.
pub open spec fn joined_with(values: Seq<Seq<char>>, sep: Seq<char>) -> Seq<char>
    decreases values.len(),
{
    if values.len() == 0 {
        seq![]
    } else if values.len() == 1 {
        values[0]
    } else {
        joined_with(values.drop_last(), sep) + sep + values.last()
    }
}

/// The memory slot a module is in, by label or locator.
pub open spec fn module_slot(d: DeviceSummary) -> Option<Seq<char>> {
    if d.class == DeviceClass::Memory && opt_view(d.memory_role) == Some("module"@) {
        match d.slot_label {
            Some(s) => Some(s@),
            None => opt_view(d.locator),
        }
    } else {
        None
    }
}

/// The subtitle of a device: for a network device its driver and
/// interface; for the system its operating system; otherwise the module
/// slot, then vendor, model and driver where the name does not already say
/// them, then the bus address; or the class name when nothing is left.
pub open spec fn subtitle_of(d: DeviceSummary) -> Seq<char> {
    let sep = " · "@;
    if d.class == DeviceClass::Network {
        let w = match (nonblank(d.driver), nonblank(d.bus_address)) {
            (Some(a), Some(b)) => seq![a, b],
            (Some(a), None) => seq![a],
            (None, Some(b)) => seq![b],
            (None, None) => seq![],
        };
        if w.len() == 0 {
            device_class_display_name(d.class)
        } else {
            joined_with(w, sep)
        }
    } else if d.class == DeviceClass::System && (d.os_pretty_name is Some || d.os_name is Some) {
        match d.os_pretty_name {
            Some(o) => o@,
            None => or_empty(d.os_name),
        }
    } else {
        let v0 = match module_slot(d) {
            Some(slot) => seq![slot],
            None => seq![],
        };
        let v1 = add_opt(v0, extra_value(d.vendor, d.name@));
        let v2 = add_opt(v1, extra_value(d.model, d.name@));
        let v3 = add_opt(v2, extra_value(d.driver, d.name@));
        let v4 = add_opt(v3, nonblank(d.bus_address));
        if v4.len() == 0 {
            device_class_display_name(d.class)
        } else {
            joined_with(v4, sep)
        }
    }
}

fn push_unique(values: &mut Vec<Vec<char>>, v: Vec<char>)
    ensures
        views(final(values)@) == add_unique(views(old(values)@), v@),
{
    let mut i: usize = 0;
    while i < values.len()
        invariant
            i <= values@.len(),
            forall|k: int| 0 <= k < i ==> views(values@)[k] != v@,
        decreases values.len() - i,
    {
        if chars_eq(&values[i], &v) {
            assert(views(values@)[i as int] == v@);
            return;
        }
        i += 1;
    }
    assert(!views(values@).contains(v@));
    let ghost before = values@;
    values.push(v);
    assert(views(values@) =~= views(before).push(v@));
}

fn trimmed_nonblank(o: &Option<String>) -> (r: Option<Vec<char>>)
    ensures
        match r {
            Some(x) => nonblank(*o) == Some(x@),
            None => nonblank(*o) is None,
        },
{
    match o {
        Some(x) => {
            let t = trim_chars(&chars_of(x.as_str()));
            if t.len() > 0 {
                Some(t)
            } else {
                None
            }
        },
        None => None,
    }
}

fn extra(o: &Option<String>, name: &Vec<char>) -> (r: Option<Vec<char>>)
    ensures
        match r {
            Some(x) => extra_value(*o, name@) == Some(x@),
            None => extra_value(*o, name@) is None,
        },
{
    match trimmed_nonblank(o) {
        Some(t) => if contains(name, &t) {
            None
        } else {
            Some(t)
        },
        None => None,
    }
}

fn join_values(values: &Vec<Vec<char>>, sep: &str) -> (r: String)
    ensures
        r@ == joined_with(views(values@), sep@),
{
    let mut out: Vec<char> = Vec::new();
    let mut i: usize = 0;
    while i < values.len()
        invariant
            i <= values@.len(),
            out@ == joined_with(views(values@).take(i as int), sep@),
        decreases values.len() - i,
    {
        assert(views(values@).take(i + 1).drop_last() =~= views(values@).take(i as int));
        if i > 0 {
            append_str(&mut out, sep);
        } else {
            assert(views(values@).take(1) =~= seq![values@[0]@]);
        }
        append_chars(&mut out, &values[i]);
        i += 1;
    }
    assert(views(values@).take(values.len() as int) =~= views(values@));
    string_of(&out)
}

/// The subtitle of a device.
pub fn device_subtitle(d: &DeviceSummary) -> (r: String)
    ensures
        r@ == subtitle_of(*d),
{
    let sep = " · ";
    if d.class == DeviceClass::Network {
        let mut v: Vec<Vec<char>> = Vec::new();
        if let Some(a) = trimmed_nonblank(&d.driver) {
            v.push(a);
        }
        if let Some(b) = trimmed_nonblank(&d.bus_address) {
            v.push(b);
        }
        assert(views(v@) =~= match (nonblank(d.driver), nonblank(d.bus_address)) {
            (Some(a), Some(b)) => seq![a, b],
            (Some(a), None) => seq![a],
            (None, Some(b)) => seq![b],
            (None, None) => Seq::<Seq<char>>::empty(),
        });
        if v.len() == 0 {
            return d.class.display_name().to_string();
        }
        return join_values(&v, sep);
    }
    if d.class == DeviceClass::System {
        if let Some(o) = &d.os_pretty_name {
            return string_of(&chars_of(o.as_str()));
        }
        if let Some(o) = &d.os_name {
            return string_of(&chars_of(o.as_str()));
        }
    }
    let name = chars_of(d.name.as_str());
    let mut v: Vec<Vec<char>> = Vec::new();
    let is_module = d.class == DeviceClass::Memory && match &d.memory_role {
        Some(r) => chars_eq_str(&chars_of(r.as_str()), "module"),
        None => false,
    };
    if is_module {
        match &d.slot_label {
            Some(slot) => v.push(chars_of(slot.as_str())),
            None => match &d.locator {
                Some(l) => v.push(chars_of(l.as_str())),
                None => {},
            },
        }
    }
    assert(views(v@) =~= match module_slot(*d) {
        Some(slot) => seq![slot],
        None => Seq::<Seq<char>>::empty(),
    });
    if let Some(x) = extra(&d.vendor, &name) {
        push_unique(&mut v, x);
    }
    if let Some(x) = extra(&d.model, &name) {
        push_unique(&mut v, x);
    }
    if let Some(x) = extra(&d.driver, &name) {
        push_unique(&mut v, x);
    }
    if let Some(x) = trimmed_nonblank(&d.bus_address) {
        push_unique(&mut v, x);
    }
    if v.len() == 0 {
        return d.class.display_name().to_string();
    }
    join_values(&v, sep)
}

/// Whether a device appears in the hardware view: storage without PCI
/// duplicates, partitions and zram; USB devices that are not hubs or Linux
/// root hubs; PCI devices that are not bridges, display or network
/// controllers (shown elsewhere), NVMe controllers or platform plumbing;
/// thermal zones and sensor chips with sensors; other devices with
/// anything to show.
pub open spec fn visible(d: DeviceSummary) -> bool {
    match d.class {
        DeviceClass::Storage => !has_prefix(d.id@, "pci:"@) && d.partition != Some(true) && !has_prefix(d.name@, "zram"@),
        DeviceClass::Network => true,
        DeviceClass::Usb => !has_prefix(d.name@, "Linux "@) && or_empty(d.device_class) != "09"@ && !contains_seq(lower_seq(d.name@), " hub"@),
        DeviceClass::Pci => {
            let c = class_code_digits(d);
            !has_prefix(c, "06"@) && !has_prefix(c, "03"@) && !has_prefix(c, "02"@) && !has_prefix(c, "010802"@)
                && !contains_seq(d.name@, "Dummy"@) && !contains_seq(d.name@, "Root Complex"@)
                && !contains_seq(d.name@, "Data Fabric"@) && !contains_seq(d.name@, "PCIe Switch"@)
                && !contains_seq(d.name@, "GPP Bridge"@) && !contains_seq(d.name@, "IOMMU"@)
        },
        DeviceClass::Thermal | DeviceClass::SensorController => d.has_sensors,
        DeviceClass::Other => d.has_properties || d.has_sensors,
        _ => true,
    }
}

pub fn hardware_device_visible(d: &DeviceSummary) -> (r: bool)
    ensures
        r == visible(*d),
{
    let name = chars_of(d.name.as_str());
    match d.class {
        DeviceClass::Storage => !starts_with_str(&chars_of(d.id.as_str()), "pci:") && !matches!(d.partition, Some(true))
            && !starts_with_str(&name, "zram"),
        DeviceClass::Network => true,
        DeviceClass::Usb => !starts_with_str(&name, "Linux ") && !chars_eq_str(&text_or_empty(&d.device_class), "09")
            && !contains_str(&to_lower(&name), " hub"),
        DeviceClass::Pci => {
            let c = trim_start_seq_chars(&text_or_empty(&d.class_code), &chars_of("0x"));
            !starts_with_str(&c, "06") && !starts_with_str(&c, "03") && !starts_with_str(&c, "02")
                && !starts_with_str(&c, "010802") && !contains_str(&name, "Dummy")
                && !contains_str(&name, "Root Complex") && !contains_str(&name, "Data Fabric")
                && !contains_str(&name, "PCIe Switch") && !contains_str(&name, "GPP Bridge")
                && !contains_str(&name, "IOMMU")
        },
        DeviceClass::Thermal | DeviceClass::SensorController => d.has_sensors,
        DeviceClass::Other => d.has_properties || d.has_sensors,
        _ => true,
    }
}

/// Whether a memory module's `locator` or `bank_locator` only repeats
/// (after trimming) a location shown before it: the slot label, or for the
/// bank locator also the locator.
pub open spec fn repeats_location(d: DeviceSummary, key: Seq<char>, value: Option<Seq<char>>) -> bool {
    d.class == DeviceClass::Memory && opt_view(d.memory_role) == Some("module"@) && match value {
        Some(v) => trim(v).len() > 0 && if key == "locator"@ {
            nonblank(d.slot_label) == Some(trim(v))
        } else if key == "bank_locator"@ {
            nonblank(d.slot_label) == Some(trim(v)) || nonblank(d.locator) == Some(trim(v))
        } else {
            false
        },
        None => false,
    }
}

fn same_trimmed(o: &Option<String>, v: &Vec<char>) -> (r: bool)
    ensures
        r == (nonblank(*o) == Some(v@)),
{
    match trimmed_nonblank(o) {
        Some(t) => chars_eq(&t, v),
        None => false,
    }
}

/// Whether a memory location property repeats one shown before it; `value`
/// is the property's string value.
pub fn duplicate_memory_location_property(d: &DeviceSummary, key: &str, value: Option<&str>) -> (r: bool)
    ensures
        r == repeats_location(*d, key@, match value {
            Some(v) => Some(v@),
            None => None,
        }),
{
    let is_module = d.class == DeviceClass::Memory && match &d.memory_role {
        Some(r) => chars_eq_str(&chars_of(r.as_str()), "module"),
        None => false,
    };
    if !is_module {
        return false;
    }
    let v = match value {
        Some(v) => trim_chars(&chars_of(v)),
        None => return false,
    };
    if v.len() == 0 {
        return false;
    }
    let k = chars_of(key);
    if chars_eq_str(&k, "locator") {
        same_trimmed(&d.slot_label, &v)
    } else if chars_eq_str(&k, "bank_locator") {
        same_trimmed(&d.slot_label, &v) || same_trimmed(&d.locator, &v)
    } else {
        false
    }
}

/// An identity line, when its value is not blank (trimmed).
pub fn identity_property(key: &str, label: &str, value: Option<&str>) -> (r: Option<HardwareProperty>)
    ensures
        match value {
            Some(v) => if trim(v@).len() > 0 {
                r matches Some(p) && p.key@ == key@ && p.label@ == label@ && p.value@ == trim(v@)
            } else {
                r is None
            },
            None => r is None,
        },
{
    let v = match value {
        Some(v) => trim_chars(&chars_of(v)),
        None => return None,
    };
    if v.len() == 0 {
        return None;
    }
    Some(HardwareProperty { key: key.to_string(), label: label.to_string(), value: string_of(&v) })
}

/// The name a device is shown under: its alias unless that is blank.
pub fn display_name(alias: Option<&str>, name: &str) -> (r: String)
    ensures
        r@ == match alias {
            Some(a) => if trim(a@).len() > 0 {
                a@
            } else {
                name@
            },
            None => name@,
        },
{
    match alias {
        Some(a) => if trim_chars(&chars_of(a)).len() > 0 {
            a.to_string()
        } else {
            name.to_string()
        },
        None => name.to_string(),
    }
}

/// The chassis type a motherboard shows: the firmware's form factor when
/// there is one, else the SMBIOS type code by name; `None` keeps the
/// property as it is.
pub open spec fn chassis_value(form_factor: Option<Seq<char>>, chassis_type: Option<Seq<char>>) -> Option<Seq<char>> {
    match form_factor {
        Some(f) => Some(f),
        None => match chassis_type {
            Some(t) => match parse_unsigned(t, 10, 255) {
                Some(code) => chassis_name_of(code as u8),
                None => None,
            },
            None => None,
        },
    }
}

pub fn chassis_type_value(form_factor: Option<&str>, chassis_type: Option<&str>) -> (r: Option<String>)
    ensures
        opt_view(r) == chassis_value(match form_factor {
            Some(f) => Some(f@),
            None => None,
        }, match chassis_type {
            Some(t) => Some(t@),
            None => None,
        }),
{
    if let Some(f) = form_factor {
        return Some(f.to_string());
    }
    let t = match chassis_type {
        Some(t) => t,
        None => return None,
    };
    match parse_unsigned_chars(&chars_of(t), 10, 255) {
        Some(code) => match chassis_type_name(code as u8) {
            Some(n) => Some(n.to_string()),
            None => None,
        },
        None => None,
    }
}

/// A property as plain values.
pub open spec fn property_view(p: HardwareProperty) -> (Seq<char>, Seq<char>, Seq<char>) {
    (p.key@, p.label@, p.value@)
}

/// The `SMART / Health` lines of a storage device: "Not checked" before
/// any attempt; otherwise the verdict, the refresh state, when it was last
/// checked (or last attempted), its sources and any note. `age` is how long
/// ago that check or attempt was, already formatted.
pub open spec fn health_summary(health: Option<StorageHealth>, age: Seq<char>) -> Seq<(Seq<char>, Seq<char>, Seq<char>)> {
    match health {
        None => seq![("health_status"@, "Health status"@, "Not checked"@)],
        Some(h) => {
            let base = seq![
                ("health_status"@, "Health status"@, storage_health_status_display_name(h.status)),
                ("health_availability"@, "Refresh state"@, availability_text(h.availability)),
            ];
            let with_time = if h.last_success_unix_ms is Some {
                base.push(("health_last_checked"@, "Last checked"@, age))
            } else if h.last_attempt_unix_ms is Some {
                base.push(("health_last_attempt"@, "Last attempt"@, age))
            } else {
                base
            };
            let with_sources = if h.sources@.len() > 0 {
                with_time.push(("health_sources"@, "Sources"@, joined_with(h.sources@.map_values(|x: String| x@), ", "@)))
            } else {
                with_time
            };
            match h.message {
                Some(m) => if trim(m@).len() > 0 {
                    with_sources.push(("health_message"@, "Note"@, m@))
                } else {
                    with_sources
                },
                None => with_sources,
            }
        },
    }
}

fn new_property(key: &str, label: &str, value: String) -> (r: HardwareProperty)
    ensures
        property_view(r) == (key@, label@, value@),
{
    HardwareProperty { key: key.to_string(), label: label.to_string(), value }
}

/// The `SMART / Health` lines of a storage device.
pub fn storage_health_summary(health: Option<&StorageHealth>, age: &str) -> (r: Vec<HardwareProperty>)
    ensures
        r@.map_values(|p: HardwareProperty| property_view(p)) == health_summary(match health {
            Some(h) => Some(*h),
            None => None,
        }, age@),
{
    let mut out: Vec<HardwareProperty> = Vec::new();
    let h = match health {
        None => {
            out.push(new_property("health_status", "Health status", "Not checked".to_string()));
            assert(out@.map_values(|p: HardwareProperty| property_view(p)) =~= seq![("health_status"@, "Health status"@, "Not checked"@)]);
            return out;
        },
        Some(h) => h,
    };
    out.push(new_property("health_status", "Health status", h.status.display_name().to_string()));
    out.push(new_property("health_availability", "Refresh state", storage_health_availability_text(h.availability).to_string()));
    let ghost base = out@.map_values(|p: HardwareProperty| property_view(p));
    assert(base =~= seq![
        ("health_status"@, "Health status"@, storage_health_status_display_name(h.status)),
        ("health_availability"@, "Refresh state"@, availability_text(h.availability)),
    ]);
    if h.last_success_unix_ms.is_some() {
        out.push(new_property("health_last_checked", "Last checked", age.to_string()));
    } else if h.last_attempt_unix_ms.is_some() {
        out.push(new_property("health_last_attempt", "Last attempt", age.to_string()));
    }
    let ghost with_time = out@.map_values(|p: HardwareProperty| property_view(p));
    assert(with_time =~= if h.last_success_unix_ms is Some {
        base.push(("health_last_checked"@, "Last checked"@, age@))
    } else if h.last_attempt_unix_ms is Some {
        base.push(("health_last_attempt"@, "Last attempt"@, age@))
    } else {
        base
    });
    if h.sources.len() > 0 {
        let mut parts: Vec<Vec<char>> = Vec::new();
        let mut i: usize = 0;
        while i < h.sources.len()
            invariant
                i <= h.sources@.len(),
                views(parts@) == h.sources@.map_values(|x: String| x@).take(i as int),
            decreases h.sources.len() - i,
        {
            let ghost before = parts@;
            let piece = chars_of(h.sources[i].as_str());
            parts.push(piece);
            assert(parts@ == before.push(piece));
            assert(views(parts@) =~= views(before).push(h.sources@[i as int]@));
            assert(h.sources@.map_values(|x: String| x@).take(i + 1) =~= h.sources@.map_values(|x: String| x@).take(i as int).push(h.sources@[i as int]@));
            i += 1;
        }
        assert(h.sources@.map_values(|x: String| x@).take(h.sources.len() as int) =~= h.sources@.map_values(|x: String| x@));
        out.push(new_property("health_sources", "Sources", join_values(&parts, ", ")));
    }
    let ghost with_sources = out@.map_values(|p: HardwareProperty| property_view(p));
    assert(with_sources =~= if h.sources@.len() > 0 {
        with_time.push(("health_sources"@, "Sources"@, joined_with(h.sources@.map_values(|x: String| x@), ", "@)))
    } else {
        with_time
    });
    if let Some(m) = &h.message {
        if trim_chars(&chars_of(m.as_str())).len() > 0 {
            out.push(new_property("health_message", "Note", m.clone()));
        }
    }
    assert(out@.map_values(|p: HardwareProperty| property_view(p)) =~= match h.message {
        Some(m) => if trim(m@).len() > 0 {
            with_sources.push(("health_message"@, "Note"@, m@))
        } else {
            with_sources
        },
        None => with_sources,
    });
    out
}

/// A property as plain values: key, label and value.
pub type PropertyView = (Seq<char>, Seq<char>, Seq<char>);

/// The views of a list of properties.
pub open spec fn property_views(s: Seq<HardwareProperty>) -> Seq<PropertyView> {
    s.map_values(|p: HardwareProperty| property_view(p))
}

/// Whether property `a` sorts strictly before `b`: by priority, then label.
pub open spec fn sorts_before(a: PropertyView, b: PropertyView) -> bool {
    priority_of(a.0) < priority_of(b.0) || (priority_of(a.0) == priority_of(b.0) && lex_lt(a.1, b.1))
}

/// Where `x` goes in a sorted list: after every property it does not sort
/// strictly before, so that equal properties keep their order.
pub open spec fn insert_position(sorted: Seq<PropertyView>, x: PropertyView) -> int
    decreases sorted.len(),
{
    if sorted.len() == 0 {
        0
    } else if sorts_before(x, sorted[0]) {
        0
    } else {
        1 + insert_position(sorted.drop_first(), x)
    }
}

/// A list of properties stably sorted by priority and label.
pub open spec fn sorted_properties(s: Seq<PropertyView>) -> Seq<PropertyView>
    decreases s.len(),
{
    if s.len() == 0 {
        s
    } else {
        let r = sorted_properties(s.drop_last());
        r.insert(insert_position(r, s.last()), s.last())
    }
}

proof fn lemma_insert_position(sorted: Seq<PropertyView>, x: PropertyView, j: int)
    requires
        0 <= j <= sorted.len(),
        forall|k: int| 0 <= k < j ==> !sorts_before(x, #[trigger] sorted[k]),
        j < sorted.len() ==> sorts_before(x, sorted[j]),
    ensures
        insert_position(sorted, x) == j,
    decreases sorted.len(),
{
    if sorted.len() > 0 && j > 0 {
        assert forall|k: int| 0 <= k < j - 1 implies !sorts_before(x, #[trigger] sorted.drop_first()[k]) by {
            assert(sorted.drop_first()[k] == sorted[k + 1]);
        }
        if j < sorted.len() {
            assert(sorted.drop_first()[j - 1] == sorted[j]);
        }
        lemma_insert_position(sorted.drop_first(), x, j - 1);
    }
}

proof fn lemma_sorted_len(s: Seq<PropertyView>)
    ensures
        sorted_properties(s).len() == s.len(),
        0 <= insert_position(sorted_properties(s), s.last()) <= sorted_properties(s).len() || s.len() == 0,
    decreases s.len(),
{
    if s.len() > 0 {
        lemma_sorted_len(s.drop_last());
        lemma_insert_position_bounds(sorted_properties(s.drop_last()), s.last());
    }
    lemma_insert_position_bounds(sorted_properties(s), s.last());
}

proof fn lemma_insert_position_bounds(sorted: Seq<PropertyView>, x: PropertyView)
    ensures
        0 <= insert_position(sorted, x) <= sorted.len(),
    decreases sorted.len(),
{
    if sorted.len() > 0 {
        lemma_insert_position_bounds(sorted.drop_first(), x);
    }
}

fn property_sorts_before(a: &HardwareProperty, b: &HardwareProperty) -> (r: bool)
    ensures
        r == sorts_before(property_view(*a), property_view(*b)),
{
    let pa = property_priority(a.key.as_str());
    let pb = property_priority(b.key.as_str());
    pa < pb || (pa == pb && chars_lt(&chars_of(a.label.as_str()), &chars_of(b.label.as_str())))
}

/// Sorts properties by priority and then label, keeping the order of equal
/// ones.
pub fn sort_properties(properties: &mut Vec<HardwareProperty>)
    ensures
        property_views(final(properties)@) == sorted_properties(property_views(old(properties)@)),
{
    let mut input: Vec<HardwareProperty> = Vec::new();
    std::mem::swap(&mut input, properties);
    let ghost orig = property_views(input@);
    assert(orig.len() == input.len());
    let mut out: Vec<HardwareProperty> = Vec::new();
    let mut i: usize = 0;
    assert(property_views(input@) =~= orig.skip(0));
    assert(property_views(out@) =~= sorted_properties(orig.take(0)));
    while input.len() > 0
        invariant
            i <= orig.len(),
            orig.len() <= usize::MAX,
            property_views(input@) == orig.skip(i as int),
            property_views(out@) == sorted_properties(orig.take(i as int)),
        decreases input.len(),
    {
        let ghost before_in = input@;
        assert(property_views(before_in).len() == before_in.len());
        assert(i < orig.len());
        let x = input.remove(0);
        assert(property_views(before_in)[0] == property_view(x));
        assert(orig.skip(i as int)[0] == orig[i as int]);
        assert(property_view(x) == orig[i as int]);
        assert(property_views(input@) =~= property_views(before_in).drop_first());
        assert(property_views(input@) =~= orig.skip(i + 1));
        proof {
            lemma_sorted_len(orig.take(i as int));
        }
        let mut j: usize = 0;
        while j < out.len() && !property_sorts_before(&x, &out[j])
            invariant
                j <= out@.len(),
                forall|k: int| 0 <= k < j ==> !sorts_before(property_view(x), #[trigger] property_views(out@)[k]),
            decreases out.len() - j,
        {
            assert(property_views(out@)[j as int] == property_view(out@[j as int]));
            j += 1;
        }
        proof {
            if j < out.len() {
                assert(property_views(out@)[j as int] == property_view(out@[j as int]));
            }
            lemma_insert_position(property_views(out@), property_view(x), j as int);
            assert(orig.take(i + 1).drop_last() =~= orig.take(i as int));
            assert(orig.take(i + 1).last() == property_view(x));
        }
        let ghost before_out = out@;
        out.insert(j, x);
        assert(property_views(out@) =~= property_views(before_out).insert(j as int, property_view(x)));
        i += 1;
    }
    assert(orig.take(i as int) =~= orig);
    *properties = out;
}

proof fn lemma_insert_position_meaning(sorted: Seq<PropertyView>, x: PropertyView)
    ensures
        forall|k: int| 0 <= k < insert_position(sorted, x) ==> !sorts_before(x, #[trigger] sorted[k]),
        insert_position(sorted, x) < sorted.len() ==> sorts_before(x, sorted[insert_position(sorted, x)]),
    decreases sorted.len(),
{
    lemma_insert_position_bounds(sorted, x);
    if sorted.len() > 0 && !sorts_before(x, sorted[0]) {
        lemma_insert_position_meaning(sorted.drop_first(), x);
        lemma_insert_position_bounds(sorted.drop_first(), x);
        assert(insert_position(sorted, x) == 1 + insert_position(sorted.drop_first(), x));
        assert forall|k: int| 0 <= k < insert_position(sorted, x) implies !sorts_before(x, #[trigger] sorted[k]) by {
            if k > 0 {
                assert(sorted[k] == sorted.drop_first()[k - 1]);
            }
        }
        if insert_position(sorted, x) < sorted.len() {
            assert(sorted[insert_position(sorted, x)] == sorted.drop_first()[insert_position(sorted, x) - 1]);
        }
    }
}

proof fn lemma_sorts_before_order(a: PropertyView, b: PropertyView, c: PropertyView)
    ensures
        !(sorts_before(a, b) && sorts_before(b, a)),
        sorts_before(a, b) && sorts_before(b, c) ==> sorts_before(a, c),
{
    lemma_lex_trichotomy(a.1, b.1);
    if lex_lt(a.1, b.1) && lex_lt(b.1, c.1) {
        lemma_lex_transitive(a.1, b.1, c.1);
    }
}

/// Whether no property of a list sorts strictly before an earlier one.
pub open spec fn properties_in_order(s: Seq<PropertyView>) -> bool {
    forall|i: int, j: int| 0 <= i < j < s.len() ==> !sorts_before(#[trigger] s[j], #[trigger] s[i])
}

/// Sorting properties keeps exactly the same properties and puts them in
/// order of priority and label.
pub proof fn law_sorted_properties(s: Seq<PropertyView>)
    ensures
        sorted_properties(s).to_multiset() == s.to_multiset(),
        properties_in_order(sorted_properties(s)),
    decreases s.len(),
{
    broadcast use vstd::seq_lib::to_multiset_insert, vstd::seq_lib::to_multiset_build;
    if s.len() > 0 {
        let rest = s.drop_last();
        let x = s.last();
        law_sorted_properties(rest);
        let r = sorted_properties(rest);
        lemma_insert_position_bounds(r, x);
        lemma_insert_position_meaning(r, x);
        let p = insert_position(r, x);
        let n = r.insert(p, x);
        assert(s =~= rest.push(x));
        assert(n.to_multiset() == r.to_multiset().insert(x));
        assert forall|i: int, j: int| 0 <= i < j < n.len() implies !sorts_before(#[trigger] n[j], #[trigger] n[i]) by {
            if i < p && j < p {
                assert(n[i] == r[i] && n[j] == r[j]);
            } else if i < p && j == p {
                assert(n[i] == r[i] && n[j] == x);
            } else if i < p {
                assert(n[i] == r[i] && n[j] == r[j - 1]);
            } else if i == p {
                assert(n[i] == x && n[j] == r[j - 1]);
                lemma_sorts_before_order(r[j - 1], x, r[p]);
                lemma_sorts_before_order(x, r[p], r[j - 1]);
                if j - 1 > p {
                    assert(!sorts_before(r[j - 1], r[p]));
                }
            } else {
                assert(n[i] == r[i - 1] && n[j] == r[j - 1]);
            }
        }
    }
}

/// Whether sensor `a` is listed strictly before `b`: by group, then
/// naturally by lower-cased label, then by id.
pub open spec fn sensor_sorts_before(a: HardwareSensor, b: HardwareSensor) -> bool {
    lex_lt(a.group@, b.group@) || (a.group@ == b.group@ && (natural_order(
        unicode_lower_str(a.label@),
        unicode_lower_str(b.label@),
    ) < 0 || (natural_order(unicode_lower_str(a.label@), unicode_lower_str(b.label@)) == 0
        && lex_lt(a.id@, b.id@))))
}

/// Where sensor `x` goes in a sorted list, after the ones it does not sort
/// strictly before.
pub open spec fn sensor_insert_position(sorted: Seq<HardwareSensor>, x: HardwareSensor) -> int
    decreases sorted.len(),
{
    if sorted.len() == 0 {
        0
    } else if sensor_sorts_before(x, sorted[0]) {
        0
    } else {
        1 + sensor_insert_position(sorted.drop_first(), x)
    }
}

/// Sensors stably sorted by group, label and id.
pub open spec fn sorted_sensors(s: Seq<HardwareSensor>) -> Seq<HardwareSensor>
    decreases s.len(),
{
    if s.len() == 0 {
        s
    } else {
        let r = sorted_sensors(s.drop_last());
        r.insert(sensor_insert_position(r, s.last()), s.last())
    }
}

proof fn lemma_sensor_insert_position(sorted: Seq<HardwareSensor>, x: HardwareSensor, j: int)
    requires
        0 <= j <= sorted.len(),
        forall|k: int| 0 <= k < j ==> !sensor_sorts_before(x, #[trigger] sorted[k]),
        j < sorted.len() ==> sensor_sorts_before(x, sorted[j]),
    ensures
        sensor_insert_position(sorted, x) == j,
    decreases sorted.len(),
{
    if sorted.len() > 0 && j > 0 {
        assert forall|k: int| 0 <= k < j - 1 implies !sensor_sorts_before(x, #[trigger] sorted.drop_first()[k]) by {
            assert(sorted.drop_first()[k] == sorted[k + 1]);
        }
        if j < sorted.len() {
            assert(sorted.drop_first()[j - 1] == sorted[j]);
        }
        lemma_sensor_insert_position(sorted.drop_first(), x, j - 1);
    }
}

proof fn lemma_sensor_insert_bounds(sorted: Seq<HardwareSensor>, x: HardwareSensor)
    ensures
        0 <= sensor_insert_position(sorted, x) <= sorted.len(),
    decreases sorted.len(),
{
    if sorted.len() > 0 {
        lemma_sensor_insert_bounds(sorted.drop_first(), x);
    }
}

proof fn lemma_sorted_sensors_len(s: Seq<HardwareSensor>)
    ensures
        sorted_sensors(s).len() == s.len(),
    decreases s.len(),
{
    if s.len() > 0 {
        lemma_sorted_sensors_len(s.drop_last());
        lemma_sensor_insert_bounds(sorted_sensors(s.drop_last()), s.last());
    }
}

fn sensor_before(a: &HardwareSensor, b: &HardwareSensor) -> (r: bool)
    ensures
        r == sensor_sorts_before(*a, *b),
{
    let ga = chars_of(a.group.as_str());
    let gb = chars_of(b.group.as_str());
    if chars_lt(&ga, &gb) {
        return true;
    }
    if !chars_eq(&ga, &gb) {
        return false;
    }
    let la = chars_of(str_to_lowercase(a.label.as_str()).as_str());
    let lb = chars_of(str_to_lowercase(b.label.as_str()).as_str());
    let order = natural_order_of(&la, &lb);
    order < 0 || (order == 0 && chars_lt(&chars_of(a.id.as_str()), &chars_of(b.id.as_str())))
}

/// Sorts sensors by group, then naturally by label, then by id, keeping
/// the order of equal ones.
pub fn sort_sensors(sensors: &mut Vec<HardwareSensor>)
    ensures
        final(sensors)@ == sorted_sensors(old(sensors)@),
{
    let mut input: Vec<HardwareSensor> = Vec::new();
    std::mem::swap(&mut input, sensors);
    let ghost orig = input@;
    assert(orig.len() == input.len());
    let mut out: Vec<HardwareSensor> = Vec::new();
    let mut i: usize = 0;
    assert(orig.skip(0) =~= orig);
    assert(orig.take(0) =~= Seq::<HardwareSensor>::empty());
    while input.len() > 0
        invariant
            i <= orig.len(),
            orig.len() <= usize::MAX,
            input@ == orig.skip(i as int),
            out@ == sorted_sensors(orig.take(i as int)),
        decreases input.len(),
    {
        let x = input.remove(0);
        assert(x == orig[i as int]);
        assert(input@ =~= orig.skip(i + 1));
        proof {
            lemma_sorted_sensors_len(orig.take(i as int));
        }
        let mut j: usize = 0;
        while j < out.len() && !sensor_before(&x, &out[j])
            invariant
                j <= out@.len(),
                forall|k: int| 0 <= k < j ==> !sensor_sorts_before(x, #[trigger] out@[k]),
            decreases out.len() - j,
        {
            j += 1;
        }
        proof {
            lemma_sensor_insert_position(out@, x, j as int);
            assert(orig.take(i + 1).drop_last() =~= orig.take(i as int));
            assert(orig.take(i + 1).last() == x);
        }
        out.insert(j, x);
        i += 1;
    }
    assert(orig.take(i as int) =~= orig);
    *sensors = out;
}

/// Every section title a device can have, in display order: the known
/// sections of its category first, then the others alphabetically.
pub open spec fn section_titles_of(category: HardwareCategoryKind) -> Seq<Seq<char>> {
    match category {
        HardwareCategoryKind::System => seq!["Identity"@, "Operating system"@, "Firmware & platform"@, "Properties"@, "Interface"@, "Memory"@, "Monitoring & management"@, "Performance"@, "Power"@, "SMART / Health"@, "Security"@, "Storage"@, "Topology"@],
        HardwareCategoryKind::Motherboard => seq!["Identity"@, "Firmware & platform"@, "Monitoring & management"@, "Interface"@, "Properties"@, "Memory"@, "Operating system"@, "Performance"@, "Power"@, "SMART / Health"@, "Security"@, "Storage"@, "Topology"@],
        HardwareCategoryKind::Processor => seq!["Identity"@, "Topology"@, "Performance"@, "Security"@, "Properties"@, "Firmware & platform"@, "Interface"@, "Memory"@, "Monitoring & management"@, "Operating system"@, "Power"@, "SMART / Health"@, "Storage"@],
        HardwareCategoryKind::Memory => seq!["Identity"@, "Memory"@, "Properties"@, "Firmware & platform"@, "Interface"@, "Monitoring & management"@, "Operating system"@, "Performance"@, "Power"@, "SMART / Health"@, "Security"@, "Storage"@, "Topology"@],
        HardwareCategoryKind::Storage => seq!["Identity"@, "Storage"@, "SMART / Health"@, "Interface"@, "Properties"@, "Firmware & platform"@, "Memory"@, "Monitoring & management"@, "Operating system"@, "Performance"@, "Power"@, "Security"@, "Topology"@],
        HardwareCategoryKind::Network => seq!["Identity"@, "Interface"@, "Properties"@, "Firmware & platform"@, "Memory"@, "Monitoring & management"@, "Operating system"@, "Performance"@, "Power"@, "SMART / Health"@, "Security"@, "Storage"@, "Topology"@],
        HardwareCategoryKind::Power => seq!["Identity"@, "Power"@, "Properties"@, "Firmware & platform"@, "Interface"@, "Memory"@, "Monitoring & management"@, "Operating system"@, "Performance"@, "SMART / Health"@, "Security"@, "Storage"@, "Topology"@],
        HardwareCategoryKind::Security => seq!["Identity"@, "Security"@, "Properties"@, "Firmware & platform"@, "Interface"@, "Memory"@, "Monitoring & management"@, "Operating system"@, "Performance"@, "Power"@, "SMART / Health"@, "Storage"@, "Topology"@],
        _ => seq!["Identity"@, "Interface"@, "Performance"@, "Properties"@, "Firmware & platform"@, "Memory"@, "Monitoring & management"@, "Operating system"@, "Power"@, "SMART / Health"@, "Security"@, "Storage"@, "Topology"@],
    }
}

fn section_titles(category: HardwareCategoryKind) -> (r: Vec<&'static str>)
    ensures
        r@.map_values(|s: &'static str| s@) == section_titles_of(category),
{
    let v: Vec<&'static str> = match category {
        HardwareCategoryKind::System => vec!["Identity", "Operating system", "Firmware & platform", "Properties", "Interface", "Memory", "Monitoring & management", "Performance", "Power", "SMART / Health", "Security", "Storage", "Topology"],
        HardwareCategoryKind::Motherboard => vec!["Identity", "Firmware & platform", "Monitoring & management", "Interface", "Properties", "Memory", "Operating system", "Performance", "Power", "SMART / Health", "Security", "Storage", "Topology"],
        HardwareCategoryKind::Processor => vec!["Identity", "Topology", "Performance", "Security", "Properties", "Firmware & platform", "Interface", "Memory", "Monitoring & management", "Operating system", "Power", "SMART / Health", "Storage"],
        HardwareCategoryKind::Memory => vec!["Identity", "Memory", "Properties", "Firmware & platform", "Interface", "Monitoring & management", "Operating system", "Performance", "Power", "SMART / Health", "Security", "Storage", "Topology"],
        HardwareCategoryKind::Storage => vec!["Identity", "Storage", "SMART / Health", "Interface", "Properties", "Firmware & platform", "Memory", "Monitoring & management", "Operating system", "Performance", "Power", "Security", "Topology"],
        HardwareCategoryKind::Network => vec!["Identity", "Interface", "Properties", "Firmware & platform", "Memory", "Monitoring & management", "Operating system", "Performance", "Power", "SMART / Health", "Security", "Storage", "Topology"],
        HardwareCategoryKind::Power => vec!["Identity", "Power", "Properties", "Firmware & platform", "Interface", "Memory", "Monitoring & management", "Operating system", "Performance", "SMART / Health", "Security", "Storage", "Topology"],
        HardwareCategoryKind::Security => vec!["Identity", "Security", "Properties", "Firmware & platform", "Interface", "Memory", "Monitoring & management", "Operating system", "Performance", "Power", "SMART / Health", "Storage", "Topology"],
        _ => vec!["Identity", "Interface", "Performance", "Properties", "Firmware & platform", "Memory", "Monitoring & management", "Operating system", "Power", "SMART / Health", "Security", "Storage", "Topology"],
    };
    assert(v@.map_values(|s: &'static str| s@) =~= section_titles_of(category));
    v
}


/// A property of an inventory device as the hardware view receives it.
#[derive(Debug, Clone)]
pub struct PropertyInput {
    pub key: String,
    /// The label shown for the key.
    pub label: String,
    /// The formatted value, or `None` when the value is not shown.
    pub value: Option<String>,
    /// The value when it is a string (to spot repeated memory locations).
    pub text: Option<String>,
    /// Whether the key is one of the low-level hardware properties.
    pub low_level: bool,
}

/// A property placed in a section: its title and the property.
pub type Entry = (Seq<char>, PropertyView);

/// An identity entry, when its value is not blank.
pub open spec fn identity_entry(key: Seq<char>, label: Seq<char>, value: Option<Seq<char>>) -> Seq<Entry> {
    match value {
        Some(v) => if trim(v).len() > 0 {
            seq![("Identity"@, (key, label, trim(v)))]
        } else {
            seq![]
        },
        None => seq![],
    }
}

/// The identity lines of a device: its class, its original name when an
/// alias replaced it, vendor, model, driver and bus address.
pub open spec fn identity_entries(d: DeviceSummary, name: Seq<char>) -> Seq<Entry> {
    identity_entry("hwall_class"@, "Class"@, Some(device_class_display_name(d.class))) + (if name != d.name@ {
        identity_entry("generated_name"@, "Original name"@, Some(d.name@))
    } else {
        seq![]
    }) + identity_entry("vendor"@, "Vendor"@, opt_view(d.vendor)) + identity_entry("model"@, "Model"@, opt_view(d.model))
        + identity_entry("driver"@, "Driver"@, opt_view(d.driver)) + identity_entry(
        "bus_address"@,
        if d.class == DeviceClass::Network {
            "Interface"@
        } else {
            "Bus address"@
        },
        opt_view(d.bus_address),
    )
}

/// Whether any property key belongs to storage health.
pub open spec fn any_health_key(ps: Seq<PropertyInput>) -> bool {
    exists|i: int| 0 <= i < ps.len() && storage_health_key(#[trigger] ps[i].key@)
}

/// Whether a property is shown at all: it has a shown value and does not
/// repeat a memory location.
pub open spec fn property_shown(d: DeviceSummary, p: PropertyInput) -> bool {
    p.value is Some && !repeats_location(d, p.key@, opt_view(p.text))
}

/// The view of a shown property.
pub open spec fn input_view(p: PropertyInput) -> PropertyView {
    (p.key@, p.label@, or_empty(p.value))
}

/// The section entries of the first `n` properties that are shown and not
/// advanced.
pub open spec fn property_entries(d: DeviceSummary, ps: Seq<PropertyInput>, n: nat) -> Seq<Entry>
    decreases n,
{
    if n == 0 {
        seq![]
    } else {
        let p = ps[n - 1];
        property_entries(d, ps, (n - 1) as nat) + if property_shown(d, p) && !is_advanced(p.key@, p.low_level) {
            seq![(section_of(p.key@), input_view(p))]
        } else {
            seq![]
        }
    }
}

/// The advanced properties among the first `n` shown ones.
pub open spec fn advanced_views(d: DeviceSummary, ps: Seq<PropertyInput>, n: nat) -> Seq<PropertyView>
    decreases n,
{
    if n == 0 {
        seq![]
    } else {
        let p = ps[n - 1];
        advanced_views(d, ps, (n - 1) as nat) + if property_shown(d, p) && is_advanced(p.key@, p.low_level) {
            seq![input_view(p)]
        } else {
            seq![]
        }
    }
}

/// The properties of the first `n` entries that belong to section `t`.
pub open spec fn titled(entries: Seq<Entry>, t: Seq<char>, n: nat) -> Seq<PropertyView>
    decreases n,
{
    if n == 0 {
        seq![]
    } else {
        titled(entries, t, (n - 1) as nat) + if entries[n - 1].0 == t {
            seq![entries[n - 1].1]
        } else {
            seq![]
        }
    }
}

/// The sections for the first `n` titles: each title that has properties,
/// with its properties sorted.
pub open spec fn sections_for(entries: Seq<Entry>, titles: Seq<Seq<char>>, n: nat) -> Seq<(Seq<char>, Seq<PropertyView>)>
    decreases n,
{
    if n == 0 {
        seq![]
    } else {
        let t = titles[n - 1];
        let ps = titled(entries, t, entries.len());
        sections_for(entries, titles, (n - 1) as nat) + if ps.len() > 0 {
            seq![(t, sorted_properties(ps))]
        } else {
            seq![]
        }
    }
}

/// The view of a section.
pub open spec fn section_view(s: HardwareSection) -> (Seq<char>, Seq<PropertyView>) {
    (s.title@, property_views(s.properties@))
}

/// The views of placed properties.
pub open spec fn entry_views(v: Seq<(&'static str, HardwareProperty)>) -> Seq<Entry> {
    v.map_values(|e: (&'static str, HardwareProperty)| (e.0@, property_view(e.1)))
}

fn copy_property(p: &HardwareProperty) -> (r: HardwareProperty)
    ensures
        property_view(r) == property_view(*p),
{
    HardwareProperty { key: p.key.clone(), label: p.label.clone(), value: p.value.clone() }
}

fn push_entry(entries: &mut Vec<(&'static str, HardwareProperty)>, title: &'static str, p: HardwareProperty)
    ensures
        entry_views(final(entries)@) == entry_views(old(entries)@).push((title@, property_view(p))),
{
    let ghost v = property_view(p);
    entries.push((title, p));
    assert(entry_views(entries@) =~= entry_views(old(entries)@).push((title@, v)));
}

fn push_identity(entries: &mut Vec<(&'static str, HardwareProperty)>, key: &str, label: &str, value: Option<&str>)
    ensures
        entry_views(final(entries)@) == entry_views(old(entries)@) + identity_entry(key@, label@, match value {
            Some(v) => Some(v@),
            None => None,
        }),
{
    match identity_property(key, label, value) {
        Some(p) => push_entry(entries, "Identity", p),
        None => {},
    }
    assert(entry_views(entries@) =~= entry_views(old(entries)@) + identity_entry(key@, label@, match value {
        Some(v) => Some(v@),
        None => None,
    }));
}

fn opt_str(o: &Option<String>) -> (r: Option<&str>)
    ensures
        match r {
            Some(s) => opt_view(*o) == Some(s@),
            None => o is None,
        },
{
    match o {
        Some(s) => Some(s.as_str()),
        None => None,
    }
}

fn identity_entries_of(d: &DeviceSummary, name: &str) -> (r: Vec<(&'static str, HardwareProperty)>)
    ensures
        entry_views(r@) == identity_entries(*d, name@),
{
    let mut e: Vec<(&'static str, HardwareProperty)> = Vec::new();
    push_identity(&mut e, "hwall_class", "Class", Some(d.class.display_name()));
    let ghost a = entry_views(e@);
    if !chars_eq(&chars_of(name), &chars_of(d.name.as_str())) {
        push_identity(&mut e, "generated_name", "Original name", Some(d.name.as_str()));
    }
    let ghost b = entry_views(e@);
    assert(b =~= a + (if name@ != d.name@ {
        identity_entry("generated_name"@, "Original name"@, Some(d.name@))
    } else {
        Seq::<Entry>::empty()
    }));
    push_identity(&mut e, "vendor", "Vendor", opt_str(&d.vendor));
    push_identity(&mut e, "model", "Model", opt_str(&d.model));
    push_identity(&mut e, "driver", "Driver", opt_str(&d.driver));
    push_identity(&mut e, "bus_address", bus_address_label(d.class), opt_str(&d.bus_address));
    assert(entry_views(e@) =~= identity_entries(*d, name@));
    e
}

fn any_health_property(ps: &Vec<PropertyInput>) -> (r: bool)
    ensures
        r == any_health_key(ps@),
{
    let mut i: usize = 0;
    while i < ps.len()
        invariant
            i <= ps@.len(),
            forall|k: int| 0 <= k < i ==> !storage_health_key(#[trigger] ps@[k].key@),
        decreases ps.len() - i,
    {
        if is_storage_health_property(ps[i].key.as_str()) {
            assert(storage_health_key(ps@[i as int].key@));
            return true;
        }
        i += 1;
    }
    false
}

fn place_properties(d: &DeviceSummary, ps: &Vec<PropertyInput>, entries: &mut Vec<(&'static str, HardwareProperty)>)
    -> (advanced: Vec<HardwareProperty>)
    ensures
        entry_views(final(entries)@) == entry_views(old(entries)@) + property_entries(*d, ps@, ps@.len()),
        property_views(advanced@) == advanced_views(*d, ps@, ps@.len()),
{
    let mut advanced: Vec<HardwareProperty> = Vec::new();
    let mut i: usize = 0;
    while i < ps.len()
        invariant
            i <= ps@.len(),
            entry_views(entries@) == entry_views(old(entries)@) + property_entries(*d, ps@, i as nat),
            property_views(advanced@) == advanced_views(*d, ps@, i as nat),
        decreases ps.len() - i,
    {
        let p = &ps[i];
        let ghost before_e = entry_views(entries@);
        let ghost before_a = property_views(advanced@);
        let repeated = duplicate_memory_location_property(d, p.key.as_str(), opt_str(&p.text));
        match &p.value {
            Some(v) => if !repeated {
                let prop = HardwareProperty { key: p.key.clone(), label: p.label.clone(), value: v.clone() };
                assert(property_view(prop) == input_view(*p));
                if advanced_property(p.key.as_str(), p.low_level) {
                    advanced.push(prop);
                    assert(property_views(advanced@) =~= before_a.push(input_view(*p)));
                } else {
                    push_entry(entries, property_section(p.key.as_str()), prop);
                }
            },
            None => {},
        }
        i += 1;
        assert(entry_views(entries@) =~= entry_views(old(entries)@) + property_entries(*d, ps@, i as nat));
        assert(property_views(advanced@) =~= advanced_views(*d, ps@, i as nat));
    }
    advanced
}

fn titled_properties(entries: &Vec<(&'static str, HardwareProperty)>, title: &str) -> (r: Vec<HardwareProperty>)
    ensures
        property_views(r@) == titled(entry_views(entries@), title@, entries@.len()),
{
    let ghost ev = entry_views(entries@);
    let t = chars_of(title);
    let mut out: Vec<HardwareProperty> = Vec::new();
    let mut i: usize = 0;
    while i < entries.len()
        invariant
            i <= entries@.len(),
            ev == entry_views(entries@),
            t@ == title@,
            property_views(out@) == titled(ev, title@, i as nat),
        decreases entries.len() - i,
    {
        assert(ev[i as int] == (entries@[i as int].0@, property_view(entries@[i as int].1)));
        if chars_eq(&chars_of(entries[i].0), &t) {
            let ghost before = property_views(out@);
            let p = copy_property(&entries[i].1);
            out.push(p);
            assert(property_views(out@) =~= before.push(ev[i as int].1));
        }
        i += 1;
        assert(property_views(out@) =~= titled(ev, title@, i as nat));
    }
    out
}

fn build_sections(entries: &Vec<(&'static str, HardwareProperty)>, category: HardwareCategoryKind) -> (r: Vec<HardwareSection>)
    ensures
        r@.map_values(|x: HardwareSection| section_view(x)) == sections_for(
            entry_views(entries@),
            section_titles_of(category),
            section_titles_of(category).len(),
        ),
{
    let titles = section_titles(category);
    let ghost tv = section_titles_of(category);
    let ghost ev = entry_views(entries@);
    let mut out: Vec<HardwareSection> = Vec::new();
    let mut i: usize = 0;
    while i < titles.len()
        invariant
            i <= titles@.len(),
            titles@.map_values(|s: &'static str| s@) == tv,
            ev == entry_views(entries@),
            out@.map_values(|x: HardwareSection| section_view(x)) == sections_for(ev, tv, i as nat),
        decreases titles.len() - i,
    {
        let title = titles[i];
        assert(tv[i as int] == title@);
        let mut ps = titled_properties(entries, title);
        let ghost before = out@.map_values(|x: HardwareSection| section_view(x));
        if ps.len() > 0 {
            sort_properties(&mut ps);
            let section = HardwareSection { title: title.to_string(), properties: ps };
            out.push(section);
            assert(out@.map_values(|x: HardwareSection| section_view(x)) =~= before.push(
                (title@, sorted_properties(titled(ev, title@, ev.len()))),
            ));
        }
        i += 1;
        assert(out@.map_values(|x: HardwareSection| section_view(x)) =~= sections_for(ev, tv, i as nat));
    }
    assert(titles@.len() == tv.len());
    out
}

/// The searchable words of sections: each title, then each property's
/// label and value.
pub open spec fn section_words(secs: Seq<(Seq<char>, Seq<PropertyView>)>, n: nat) -> Seq<Seq<char>>
    decreases n,
{
    if n == 0 {
        seq![]
    } else {
        section_words(secs, (n - 1) as nat) + seq![secs[n - 1].0] + label_value_words(secs[n - 1].1, secs[n - 1].1.len())
    }
}

/// Labels and values of the first `n` properties.
pub open spec fn label_value_words(ps: Seq<PropertyView>, n: nat) -> Seq<Seq<char>>
    decreases n,
{
    if n == 0 {
        seq![]
    } else {
        label_value_words(ps, (n - 1) as nat) + seq![ps[n - 1].1, ps[n - 1].2]
    }
}

/// Labels, values and keys of the first `n` advanced properties.
pub open spec fn advanced_words(ps: Seq<PropertyView>, n: nat) -> Seq<Seq<char>>
    decreases n,
{
    if n == 0 {
        seq![]
    } else {
        advanced_words(ps, (n - 1) as nat) + seq![ps[n - 1].1, ps[n - 1].2, ps[n - 1].0]
    }
}

/// Groups and labels of the first `n` sensors.
pub open spec fn sensor_words(s: Seq<HardwareSensor>, n: nat) -> Seq<Seq<char>>
    decreases n,
{
    if n == 0 {
        seq![]
    } else {
        sensor_words(s, (n - 1) as nat) + seq![s[n - 1].group@, s[n - 1].label@]
    }
}

fn push_word(words: &mut Vec<Vec<char>>, w: Vec<char>)
    ensures
        views(final(words)@) == views(old(words)@).push(w@),
{
    let ghost v = w@;
    words.push(w);
    assert(views(words@) =~= views(old(words)@).push(v));
}

fn push_words_of_properties(words: &mut Vec<Vec<char>>, ps: &Vec<HardwareProperty>, with_key: bool)
    ensures
        views(final(words)@) == views(old(words)@) + if with_key {
            advanced_words(property_views(ps@), ps@.len())
        } else {
            label_value_words(property_views(ps@), ps@.len())
        },
{
    let ghost pv = property_views(ps@);
    let mut i: usize = 0;
    while i < ps.len()
        invariant
            i <= ps@.len(),
            pv == property_views(ps@),
            views(words@) == views(old(words)@) + if with_key {
                advanced_words(pv, i as nat)
            } else {
                label_value_words(pv, i as nat)
            },
        decreases ps.len() - i,
    {
        let ghost before = views(words@);
        assert(pv[i as int] == property_view(ps@[i as int]));
        push_word(words, chars_of(ps[i].label.as_str()));
        push_word(words, chars_of(ps[i].value.as_str()));
        if with_key {
            push_word(words, chars_of(ps[i].key.as_str()));
        }
        i += 1;
        assert(views(words@) =~= views(old(words)@) + if with_key {
            advanced_words(pv, i as nat)
        } else {
            label_value_words(pv, i as nat)
        });
    }
}

/// Everything a search looks in: category, name, original name, subtitle
/// and id, then sections, advanced properties and sensors.
pub open spec fn search_words(
    category: HardwareCategoryKind,
    name: Seq<char>,
    d: DeviceSummary,
    subtitle: Seq<char>,
    secs: Seq<(Seq<char>, Seq<PropertyView>)>,
    advanced: Seq<PropertyView>,
    sensors: Seq<HardwareSensor>,
) -> Seq<Seq<char>> {
    seq![category_label(category), name, d.name@, subtitle, d.id@] + section_words(secs, secs.len())
        + advanced_words(advanced, advanced.len()) + sensor_words(sensors, sensors.len())
}

fn search_text_of(
    category: HardwareCategoryKind,
    name: &str,
    d: &DeviceSummary,
    subtitle: &str,
    sections: &Vec<HardwareSection>,
    advanced: &Vec<HardwareProperty>,
    sensors: &Vec<HardwareSensor>,
) -> (r: String)
    ensures
        r@ == unicode_lower_str(joined_with(search_words(
            category,
            name@,
            *d,
            subtitle@,
            sections@.map_values(|x: HardwareSection| section_view(x)),
            property_views(advanced@),
            sensors@,
        ), " "@)),
        is_ascii_text(joined_with(search_words(
            category,
            name@,
            *d,
            subtitle@,
            sections@.map_values(|x: HardwareSection| section_view(x)),
            property_views(advanced@),
            sensors@,
        ), " "@)) ==> r@ == lower_seq(joined_with(search_words(
            category,
            name@,
            *d,
            subtitle@,
            sections@.map_values(|x: HardwareSection| section_view(x)),
            property_views(advanced@),
            sensors@,
        ), " "@)),
{
    let ghost sv = sections@.map_values(|x: HardwareSection| section_view(x));
    let mut words: Vec<Vec<char>> = Vec::new();
    words.push(chars_of(category.label()));
    words.push(chars_of(name));
    words.push(chars_of(d.name.as_str()));
    words.push(chars_of(subtitle));
    words.push(chars_of(d.id.as_str()));
    assert(views(words@) =~= seq![category_label(category), name@, d.name@, subtitle@, d.id@]);
    let ghost head = views(words@);
    let mut i: usize = 0;
    while i < sections.len()
        invariant
            i <= sections@.len(),
            sv == sections@.map_values(|x: HardwareSection| section_view(x)),
            views(words@) == head + section_words(sv, i as nat),
        decreases sections.len() - i,
    {
        let ghost before = views(words@);
        push_word(&mut words, chars_of(sections[i].title.as_str()));
        push_words_of_properties(&mut words, &sections[i].properties, false);
        assert(sv[i as int] == section_view(sections@[i as int]));
        i += 1;
        assert(views(words@) =~= head + section_words(sv, i as nat));
    }
    let ghost mid = views(words@);
    push_words_of_properties(&mut words, advanced, true);
    let ghost late = views(words@);
    let mut j: usize = 0;
    while j < sensors.len()
        invariant
            j <= sensors@.len(),
            views(words@) == late + sensor_words(sensors@, j as nat),
        decreases sensors.len() - j,
    {
        push_word(&mut words, chars_of(sensors[j].group.as_str()));
        push_word(&mut words, chars_of(sensors[j].label.as_str()));
        j += 1;
        assert(views(words@) =~= late + sensor_words(sensors@, j as nat));
    }
    assert(views(words@) =~= search_words(category, name@, *d, subtitle@, sv, property_views(advanced@), sensors@));
    let joined = join_values(&words, " ");
    str_to_lowercase(joined.as_str())
}

/// Shapes an inventory device for the hardware view: category, shown name
/// (an alias when one is set), subtitle, identity and health lines, its
/// properties placed in sections (or the advanced list) and sorted, its
/// sensors sorted, and the text a search looks in. `health_age` is how
/// long ago health was last checked or attempted, already formatted;
/// `health_refreshable` whether health can be read for the device.
pub fn project_device(
    d: &DeviceSummary,
    alias: Option<&str>,
    properties: &Vec<PropertyInput>,
    health: Option<&StorageHealth>,
    health_age: &str,
    health_refreshable: bool,
    sensors: Vec<HardwareSensor>,
) -> (r: HardwareDevice)
    ensures
        r.id@ == d.id@,
        r.category == category_of(*d),
        r.name@ == (match alias {
            Some(a) => if trim(a@).len() > 0 {
                a@
            } else {
                d.name@
            },
            None => d.name@,
        }),
        r.subtitle@ == subtitle_of(*d),
        r.sections@.map_values(|x: HardwareSection| section_view(x)) == sections_for(
            identity_entries(*d, r.name@) + (if category_of(*d) == HardwareCategoryKind::Storage
                && (health_refreshable || health is Some || any_health_key(properties@)) {
                health_summary(match health {
                    Some(h) => Some(*h),
                    None => None,
                }, health_age@).map_values(|p: PropertyView| ("SMART / Health"@, p))
            } else {
                seq![]
            }) + property_entries(*d, properties@, properties@.len()),
            section_titles_of(category_of(*d)),
            section_titles_of(category_of(*d)).len(),
        ),
        property_views(r.advanced@) == sorted_properties(advanced_views(*d, properties@, properties@.len())),
        r.sensors@ == sorted_sensors(sensors@),
        r.storage_health_refreshable == health_refreshable,
        r.storage_health_permission_required == (health matches Some(h) && h.availability
            == StorageHealthAvailability::PermissionDenied),
        r.search_text@ == unicode_lower_str(joined_with(search_words(
            r.category,
            r.name@,
            *d,
            r.subtitle@,
            r.sections@.map_values(|x: HardwareSection| section_view(x)),
            property_views(r.advanced@),
            r.sensors@,
        ), " "@)),
        is_ascii_text(joined_with(search_words(
            r.category,
            r.name@,
            *d,
            r.subtitle@,
            r.sections@.map_values(|x: HardwareSection| section_view(x)),
            property_views(r.advanced@),
            r.sensors@,
        ), " "@)) ==> r.search_text@ == lower_seq(joined_with(search_words(
            r.category,
            r.name@,
            *d,
            r.subtitle@,
            r.sections@.map_values(|x: HardwareSection| section_view(x)),
            property_views(r.advanced@),
            r.sensors@,
        ), " "@)),
{
    let category = category_for(d);
    let name = display_name(alias, d.name.as_str());
    let subtitle = device_subtitle(d);
    let mut entries = identity_entries_of(d, name.as_str());
    let ghost identity = entry_views(entries@);
    let has_health = health.is_some() || any_health_property(properties);
    if category == HardwareCategoryKind::Storage && (health_refreshable || has_health) {
        let summary = storage_health_summary(health, health_age);
        let mut k: usize = 0;
        while k < summary.len()
            invariant
                k <= summary@.len(),
                entry_views(entries@) == identity + property_views(summary@).take(k as int).map_values(
                    |p: PropertyView| ("SMART / Health"@, p),
                ),
            decreases summary.len() - k,
        {
            let p = copy_property(&summary[k]);
            push_entry(&mut entries, "SMART / Health", p);
            assert(property_views(summary@)[k as int] == property_view(summary@[k as int]));
            k += 1;
            assert(entry_views(entries@) =~= identity + property_views(summary@).take(k as int).map_values(
                |p: PropertyView| ("SMART / Health"@, p),
            ));
        }
        assert(property_views(summary@).take(summary.len() as int) =~= property_views(summary@));
    }
    let ghost with_health = entry_views(entries@);
    assert(with_health =~= identity + (if category_of(*d) == HardwareCategoryKind::Storage
        && (health_refreshable || health is Some || any_health_key(properties@)) {
        health_summary(match health {
            Some(h) => Some(*h),
            None => None,
        }, health_age@).map_values(|p: PropertyView| ("SMART / Health"@, p))
    } else {
        seq![]
    }));
    let mut advanced = place_properties(d, properties, &mut entries);
    let sections = build_sections(&entries, category);
    sort_properties(&mut advanced);
    let mut sorted = sensors;
    sort_sensors(&mut sorted);
    let search_text = search_text_of(category, name.as_str(), d, subtitle.as_str(), &sections, &advanced, &sorted);
    let permission = match health {
        Some(h) => h.availability == StorageHealthAvailability::PermissionDenied,
        None => false,
    };
    HardwareDevice {
        id: d.id.clone(),
        category,
        name,
        subtitle,
        sections,
        advanced,
        sensors: sorted,
        storage_health_refreshable: health_refreshable,
        storage_health_permission_required: permission,
        search_text,
    }
}

// ---------------------------------------------------------------------------
// The inventory
// ---------------------------------------------------------------------------
/// Where a category sorts.
pub open spec fn category_rank(k: HardwareCategoryKind) -> nat {
    match k {
        HardwareCategoryKind::System => 0,
        HardwareCategoryKind::Motherboard => 1,
        HardwareCategoryKind::Processor => 2,
        HardwareCategoryKind::Memory => 3,
        HardwareCategoryKind::Graphics => 4,
        HardwareCategoryKind::Storage => 5,
        HardwareCategoryKind::Network => 6,
        HardwareCategoryKind::Pci => 7,
        HardwareCategoryKind::Usb => 8,
        HardwareCategoryKind::Thunderbolt => 9,
        HardwareCategoryKind::Audio => 10,
        HardwareCategoryKind::Power => 11,
        HardwareCategoryKind::Thermal => 12,
        HardwareCategoryKind::Security => 13,
        HardwareCategoryKind::Controllers => 14,
        HardwareCategoryKind::Other => 15,
    }
}

fn category_rank_of(k: HardwareCategoryKind) -> (r: usize)
    ensures
        r == category_rank(k),
{
    match k {
        HardwareCategoryKind::System => 0,
        HardwareCategoryKind::Motherboard => 1,
        HardwareCategoryKind::Processor => 2,
        HardwareCategoryKind::Memory => 3,
        HardwareCategoryKind::Graphics => 4,
        HardwareCategoryKind::Storage => 5,
        HardwareCategoryKind::Network => 6,
        HardwareCategoryKind::Pci => 7,
        HardwareCategoryKind::Usb => 8,
        HardwareCategoryKind::Thunderbolt => 9,
        HardwareCategoryKind::Audio => 10,
        HardwareCategoryKind::Power => 11,
        HardwareCategoryKind::Thermal => 12,
        HardwareCategoryKind::Security => 13,
        HardwareCategoryKind::Controllers => 14,
        HardwareCategoryKind::Other => 15,
    }
}

/// Whether device `a` is listed before device `b` in its category: by
/// lower-cased name, then by id.
pub open spec fn listed_before(a: HardwareDevice, b: HardwareDevice) -> bool {
    let la = unicode_lower_str(a.name@);
    let lb = unicode_lower_str(b.name@);
    lex_lt(la, lb) || (la == lb && lex_lt(a.id@, b.id@))
}

/// The devices of one category: the input devices of that category, each
/// once (given by their input positions), by name and id, equal ones in
/// input order.
pub open spec fn category_listing(devices: Seq<HardwareDevice>, input: Seq<HardwareDevice>, kind: HardwareCategoryKind, idx: Seq<usize>) -> bool {
    &&& idx.len() == devices.len()
    &&& forall|j: int| 0 <= j < idx.len() ==> #[trigger] idx[j] < input.len() && devices[j] == input[idx[j] as int]
    &&& idx.no_duplicates()
    &&& forall|j: int| 0 <= j < idx.len() ==> (#[trigger] input[idx[j] as int]).category == kind
    &&& forall|i: int| 0 <= i < input.len() && (#[trigger] input[i]).category == kind ==> idx.contains(i as usize)
    &&& forall|a: int, b: int| 0 <= a < b < idx.len() ==> !listed_before(
        #[trigger] input[idx[b] as int],
        #[trigger] input[idx[a] as int],
    ) && (listed_before(input[idx[a] as int], input[idx[b] as int]) || idx[a] < idx[b])
}

/// The inventory of the devices: one category per kind that has devices,
/// in category order, each with its heading and its devices in order.
pub open spec fn inventory_of(input: Seq<HardwareDevice>, inv: HardwareInventory) -> bool {
    let cats = inv.categories@;
    &&& forall|a: int, b: int| 0 <= a < b < cats.len() ==> category_rank((#[trigger] cats[a]).kind) < category_rank(
        (#[trigger] cats[b]).kind,
    )
    &&& forall|c: int| 0 <= c < cats.len() ==> (#[trigger] cats[c]).devices@.len() > 0 && cats[c].label@ == category_label(
        cats[c].kind,
    ) && exists|idx: Seq<usize>| category_listing(cats[c].devices@, input, cats[c].kind, idx)
    &&& forall|i: int| 0 <= i < input.len() ==> exists|c: int| 0 <= c < cats.len() && (#[trigger] cats[c]).kind == (
    #[trigger] input[i]).category
}

/// Whether the positions in `r` list their devices in order, equal ones by position.
pub open spec fn positions_listed(d: Seq<HardwareDevice>, r: Seq<usize>) -> bool {
    forall|a: int, b: int| 0 <= a < b < r.len() ==> !listed_before(#[trigger] d[r[b] as int], #[trigger] d[r[a] as int])
        && (listed_before(d[r[a] as int], d[r[b] as int]) || r[a] < r[b])
}

/// Inserts position `i`, later than every position in `r`, where its device belongs.
fn insert_listed(devices: &Vec<HardwareDevice>, names: &Vec<Vec<char>>, ids: &Vec<Vec<char>>, r: &mut Vec<usize>, i: usize)
    requires
        i < devices@.len(),
        names@.len() == devices@.len(),
        ids@.len() == devices@.len(),
        forall|k: int| 0 <= k < devices@.len() ==> (#[trigger] names@[k])@ == unicode_lower_str(devices@[k].name@),
        forall|k: int| 0 <= k < devices@.len() ==> (#[trigger] ids@[k])@ == devices@[k].id@,
        forall|j: int| 0 <= j < old(r)@.len() ==> #[trigger] old(r)@[j] < i,
        old(r)@.no_duplicates(),
        positions_listed(devices@, old(r)@),
    ensures
        forall|j: int| 0 <= j < final(r)@.len() ==> #[trigger] final(r)@[j] <= i,
        final(r)@.no_duplicates(),
        positions_listed(devices@, final(r)@),
        forall|x: usize| #[trigger] final(r)@.contains(x) <==> (old(r)@.contains(x) || x == i),
{
    let ghost d = devices@;
    let mut p: usize = 0;
    while p < r.len() && !(chars_lt(&names[i], &names[r[p]]) || (chars_eq(&names[i], &names[r[p]]) && chars_lt(
        &ids[i],
        &ids[r[p]],
    )))
        invariant
            p <= r@.len(),
            r@ == old(r)@,
            i < d.len(),
            d == devices@,
            names@.len() == d.len(),
            ids@.len() == d.len(),
            forall|k: int| 0 <= k < d.len() ==> (#[trigger] names@[k])@ == unicode_lower_str(d[k].name@),
            forall|k: int| 0 <= k < d.len() ==> (#[trigger] ids@[k])@ == d[k].id@,
            forall|j: int| 0 <= j < r@.len() ==> #[trigger] r@[j] < i,
            forall|j: int| 0 <= j < p ==> !listed_before(d[i as int], #[trigger] d[r@[j] as int]),
        decreases r@.len() - p,
    {
        p += 1;
    }
    proof {
        if p < r@.len() {
            assert(listed_before(d[i as int], d[r@[p as int] as int]));
        }
    }
    let ghost old_r = r@;
    r.insert(p, i);
    proof {
        assert(r@ =~= old_r.insert(p as int, i));
        assert forall|j: int| 0 <= j < r@.len() implies #[trigger] r@[j] <= i by {
            if j < p {
                assert(r@[j] == old_r[j]);
            } else if j > p {
                assert(r@[j] == old_r[j - 1]);
            }
        }
        assert forall|x: int, y: int| 0 <= x < r@.len() && 0 <= y < r@.len() && x != y implies r@[x] != r@[y] by {
            if x == p {
                if y < p {
                    assert(r@[y] == old_r[y]);
                } else {
                    assert(r@[y] == old_r[y - 1]);
                }
            } else if y == p {
                if x < p {
                    assert(r@[x] == old_r[x]);
                } else {
                    assert(r@[x] == old_r[x - 1]);
                }
            } else {
                let ox = if x < p { x } else { x - 1 };
                let oy = if y < p { y } else { y - 1 };
                assert(r@[x] == old_r[ox] && r@[y] == old_r[oy]);
            }
        }
        assert forall|v: usize| #[trigger] r@.contains(v) <==> (old_r.contains(v) || v == i) by {
            if r@.contains(v) {
                let t = choose|t: int| 0 <= t < r@.len() && r@[t] == v;
                if t < p {
                    assert(old_r[t] == v);
                } else if t > p {
                    assert(old_r[t - 1] == v);
                }
            }
            if old_r.contains(v) {
                let t = choose|t: int| 0 <= t < old_r.len() && old_r[t] == v;
                if t < p {
                    assert(r@[t] == v);
                } else {
                    assert(r@[t + 1] == v);
                }
            }
            if v == i {
                assert(r@[p as int] == v);
            }
        }
        assert forall|a: int, b: int| 0 <= a < b < r@.len() implies !listed_before(#[trigger] d[r@[b] as int], #[trigger] d[r@[a] as int])
            && (listed_before(d[r@[a] as int], d[r@[b] as int]) || r@[a] < r@[b]) by {
            let x = d[i as int];
            if b < p {
                assert(r@[a] == old_r[a] && r@[b] == old_r[b]);
            } else if b == p {
                assert(r@[a] == old_r[a]);
                let y = d[old_r[a] as int];
                assert(!listed_before(x, y));
                lemma_listed_total(x, y);
            } else if a == p {
                assert(r@[b] == old_r[b - 1]);
                let z = d[old_r[b - 1] as int];
                let w = d[old_r[p as int] as int];
                assert(listed_before(x, w));
                if b - 1 > p {
                    assert(!listed_before(z, w));
                    lemma_listed_chain(x, w, z);
                } else {
                    lemma_listed_asymmetric(x, w);
                }
            } else if a < p {
                assert(r@[a] == old_r[a] && r@[b] == old_r[b - 1]);
            } else {
                assert(r@[a] == old_r[a - 1] && r@[b] == old_r[b - 1]);
            }
        }
    }
}

/// The positions of the devices of category `rank`, in listing order.
fn category_positions(devices: &Vec<HardwareDevice>, names: &Vec<Vec<char>>, ids: &Vec<Vec<char>>, rank: usize) -> (r: Vec<usize>)
    requires
        names@.len() == devices@.len(),
        ids@.len() == devices@.len(),
        forall|i: int| 0 <= i < devices@.len() ==> (#[trigger] names@[i])@ == unicode_lower_str(devices@[i].name@),
        forall|i: int| 0 <= i < devices@.len() ==> (#[trigger] ids@[i])@ == devices@[i].id@,
    ensures
        forall|j: int| 0 <= j < r@.len() ==> #[trigger] r@[j] < devices@.len() && category_rank(devices@[r@[j] as int].category)
            == rank,
        r@.no_duplicates(),
        forall|i: int| 0 <= i < devices@.len() && category_rank((#[trigger] devices@[i]).category) == rank ==> r@.contains(
            i as usize,
        ),
        positions_listed(devices@, r@),
{
    let ghost d = devices@;
    let mut r: Vec<usize> = Vec::new();
    let mut i: usize = 0;
    while i < devices.len()
        invariant
            i <= d.len(),
            d == devices@,
            names@.len() == d.len(),
            ids@.len() == d.len(),
            forall|k: int| 0 <= k < d.len() ==> (#[trigger] names@[k])@ == unicode_lower_str(d[k].name@),
            forall|k: int| 0 <= k < d.len() ==> (#[trigger] ids@[k])@ == d[k].id@,
            forall|j: int| 0 <= j < r@.len() ==> #[trigger] r@[j] < i && category_rank(d[r@[j] as int].category) == rank,
            r@.no_duplicates(),
            forall|k: int| 0 <= k < i && category_rank((#[trigger] d[k]).category) == rank ==> r@.contains(k as usize),
            positions_listed(d, r@),
        decreases d.len() - i,
    {
        if category_rank_of(devices[i].category) == rank {
            let ghost old_r = r@;
            insert_listed(devices, names, ids, &mut r, i);
            proof {
                assert forall|j: int| 0 <= j < r@.len() implies #[trigger] r@[j] < i + 1 && category_rank(d[r@[j] as int].category) == rank by {
                    assert(r@.contains(r@[j]));
                    if r@[j] != i {
                        assert(old_r.contains(r@[j]));
                        let t = choose|t: int| 0 <= t < old_r.len() && old_r[t] == r@[j];
                        assert(category_rank(d[old_r[t] as int].category) == rank);
                    }
                }
                assert forall|k: int| 0 <= k < i + 1 && category_rank((#[trigger] d[k]).category) == rank implies r@.contains(k as usize) by {
                    if k < i {
                        assert(old_r.contains(k as usize));
                    }
                }
            }
        }
        i += 1;
    }
    r
}

/// Two devices cannot each come before the other.
proof fn lemma_listed_asymmetric(x: HardwareDevice, y: HardwareDevice)
    requires
        listed_before(x, y),
    ensures
        !listed_before(y, x),
{
    lemma_lex_trichotomy(unicode_lower_str(x.name@), unicode_lower_str(y.name@));
    lemma_lex_trichotomy(x.id@, y.id@);
}

/// Two devices are in order one way or the other, or have equal keys.
proof fn lemma_listed_total(x: HardwareDevice, y: HardwareDevice)
    requires
        !listed_before(x, y),
    ensures
        !listed_before(y, x) ==> unicode_lower_str(x.name@) == unicode_lower_str(y.name@) && x.id@ == y.id@,
        !listed_before(y, x) || listed_before(y, x),
{
    lemma_lex_trichotomy(unicode_lower_str(x.name@), unicode_lower_str(y.name@));
    lemma_lex_trichotomy(x.id@, y.id@);
}

/// Coming before `w`, which comes no later than `z`, `x` comes before `z`.
proof fn lemma_listed_chain(x: HardwareDevice, w: HardwareDevice, z: HardwareDevice)
    requires
        listed_before(x, w),
        !listed_before(z, w),
    ensures
        listed_before(x, z),
        !listed_before(z, x),
{
    let lx = unicode_lower_str(x.name@);
    let lw = unicode_lower_str(w.name@);
    let lz = unicode_lower_str(z.name@);
    lemma_lex_trichotomy(lx, lw);
    lemma_lex_trichotomy(lw, lz);
    lemma_lex_trichotomy(lx, lz);
    lemma_lex_trichotomy(x.id@, w.id@);
    lemma_lex_trichotomy(w.id@, z.id@);
    lemma_lex_trichotomy(x.id@, z.id@);
    if lex_lt(lx, lw) {
        if lex_lt(lw, lz) {
            lemma_lex_transitive(lx, lw, lz);
        }
    } else if !lex_lt(lw, lz) && lex_lt(w.id@, z.id@) {
        lemma_lex_transitive(x.id@, w.id@, z.id@);
    }
    lemma_listed_asymmetric(x, z);
}

proof fn lemma_category_rank_injective(a: HardwareCategoryKind, b: HardwareCategoryKind)
    ensures
        category_rank(a) == category_rank(b) ==> a == b,
{
}

fn category_at(rank: usize) -> (k: HardwareCategoryKind)
    requires
        rank < 16,
    ensures
        category_rank(k) == rank,
{
    match rank {
        0 => HardwareCategoryKind::System,
        1 => HardwareCategoryKind::Motherboard,
        2 => HardwareCategoryKind::Processor,
        3 => HardwareCategoryKind::Memory,
        4 => HardwareCategoryKind::Graphics,
        5 => HardwareCategoryKind::Storage,
        6 => HardwareCategoryKind::Network,
        7 => HardwareCategoryKind::Pci,
        8 => HardwareCategoryKind::Usb,
        9 => HardwareCategoryKind::Thunderbolt,
        10 => HardwareCategoryKind::Audio,
        11 => HardwareCategoryKind::Power,
        12 => HardwareCategoryKind::Thermal,
        13 => HardwareCategoryKind::Security,
        14 => HardwareCategoryKind::Controllers,
        _ => HardwareCategoryKind::Other,
    }
}

fn take_slot(slots: &mut Vec<Option<HardwareDevice>>, i: usize) -> (d: HardwareDevice)
    requires
        i < old(slots)@.len(),
        old(slots)@[i as int] is Some,
    ensures
        d == old(slots)@[i as int]->0,
        final(slots)@ == old(slots)@.update(i as int, None),
{
    let x = slots.remove(i);
    slots.insert(i, None);
    x.unwrap()
}

/// Groups the devices of the hardware view into their categories, in
/// category order, each listing its devices by lower-cased name, then id.
pub fn build_hardware_inventory(devices: Vec<HardwareDevice>) -> (r: HardwareInventory)
    ensures
        inventory_of(devices@, r),
{
    let ghost input = devices@;
    let n = devices.len();
    let mut names: Vec<Vec<char>> = Vec::new();
    let mut ids: Vec<Vec<char>> = Vec::new();
    let mut i: usize = 0;
    while i < n
        invariant
            n == input.len(),
            input == devices@,
            i <= n,
            names@.len() == i,
            ids@.len() == i,
            forall|k: int| 0 <= k < i ==> (#[trigger] names@[k])@ == unicode_lower_str(input[k].name@),
            forall|k: int| 0 <= k < i ==> (#[trigger] ids@[k])@ == input[k].id@,
        decreases n - i,
    {
        names.push(chars_of(str_to_lowercase(devices[i].name.as_str()).as_str()));
        ids.push(chars_of(devices[i].id.as_str()));
        i += 1;
    }
    let mut positions: Vec<Vec<usize>> = Vec::new();
    let mut rank: usize = 0;
    while rank < 16
        invariant
            n == input.len(),
            input == devices@,
            names@.len() == n,
            ids@.len() == n,
            forall|k: int| 0 <= k < n ==> (#[trigger] names@[k])@ == unicode_lower_str(input[k].name@),
            forall|k: int| 0 <= k < n ==> (#[trigger] ids@[k])@ == input[k].id@,
            rank <= 16,
            positions@.len() == rank,
            forall|q: int| 0 <= q < rank ==> {
                let r = #[trigger] positions@[q];
                &&& forall|j: int| 0 <= j < r@.len() ==> #[trigger] r@[j] < n && category_rank(input[r@[j] as int].category) == q
                &&& r@.no_duplicates()
                &&& forall|k: int| 0 <= k < n && category_rank((#[trigger] input[k]).category) == q ==> r@.contains(k as usize)
                &&& positions_listed(input, r@)
            },
        decreases 16 - rank,
    {
        let p = category_positions(&devices, &names, &ids, rank);
        positions.push(p);
        rank += 1;
    }
    let mut source = devices;
    let mut slots: Vec<Option<HardwareDevice>> = Vec::new();
    while source.len() > 0
        invariant
            slots@.len() + source@.len() == n,
            forall|k: int| 0 <= k < slots@.len() ==> #[trigger] slots@[k] == Some(input[k]),
            forall|k: int| 0 <= k < source@.len() ==> #[trigger] source@[k] == input[slots@.len() + k],
        decreases source@.len(),
    {
        let d = source.remove(0);
        slots.push(Some(d));
    }
    let mut categories: Vec<HardwareCategory> = Vec::new();
    let mut rank: usize = 0;
    while rank < 16
        invariant
            n == input.len(),
            rank <= 16,
            positions@.len() == 16,
            slots@.len() == n,
            forall|q: int| 0 <= q < 16 ==> {
                let r = #[trigger] positions@[q];
                &&& forall|j: int| 0 <= j < r@.len() ==> #[trigger] r@[j] < n && category_rank(input[r@[j] as int].category) == q
                &&& r@.no_duplicates()
                &&& forall|k: int| 0 <= k < n && category_rank((#[trigger] input[k]).category) == q ==> r@.contains(k as usize)
                &&& positions_listed(input, r@)
            },
            forall|k: int| 0 <= k < n && category_rank(input[k].category) >= rank ==> #[trigger] slots@[k] == Some(input[k]),
            forall|a: int, b: int| 0 <= a < b < categories@.len() ==> category_rank((#[trigger] categories@[a]).kind) < category_rank(
                (#[trigger] categories@[b]).kind,
            ),
            forall|c: int| 0 <= c < categories@.len() ==> category_rank((#[trigger] categories@[c]).kind) < rank,
            forall|c: int| 0 <= c < categories@.len() ==> (#[trigger] categories@[c]).devices@.len() > 0 && categories@[c].label@
                == category_label(categories@[c].kind) && exists|idx: Seq<usize>| category_listing(categories@[c].devices@, input, categories@[c].kind, idx),
            forall|k: int| 0 <= k < n && category_rank((#[trigger] input[k]).category) < rank ==> exists|c: int| 0 <= c < categories@.len()
                && (#[trigger] categories@[c]).kind == input[k].category,
        decreases 16 - rank,
    {
        let kind = category_at(rank);
        let ghost pos = positions@[rank as int]@;
        let m = positions[rank].len();
        if m > 0 {
            let mut list: Vec<HardwareDevice> = Vec::new();
            let mut j: usize = 0;
            while j < m
                invariant
                    n == input.len(),
                    m == pos.len(),
                    positions@.len() == 16,
                    pos == positions@[rank as int]@,
                    rank < 16,
                    j <= m,
                    slots@.len() == n,
                    forall|t: int| 0 <= t < pos.len() ==> #[trigger] pos[t] < n && category_rank(input[pos[t] as int].category) == rank,
                    pos.no_duplicates(),
                    forall|k: int| 0 <= k < n && category_rank(input[k].category) > rank ==> #[trigger] slots@[k] == Some(input[k]),
                    forall|t: int| j <= t < m ==> #[trigger] slots@[pos[t] as int] == Some(input[pos[t] as int]),
                    list@.len() == j,
                    forall|t: int| 0 <= t < j ==> #[trigger] list@[t] == input[pos[t] as int],
                decreases m - j,
            {
                let at = positions[rank][j];
                let d = take_slot(&mut slots, at);
                list.push(d);
                proof {
                    assert forall|t: int| j + 1 <= t < m implies #[trigger] slots@[pos[t] as int] == Some(input[pos[t] as int]) by {
                        assert(pos[t] != pos[j as int]);
                    }
                }
                j += 1;
            }
            let ghost old_c = categories@;
            categories.push(HardwareCategory { kind, label: kind.label().to_string(), devices: list });
            proof {
                let nc = categories@;
                assert(category_listing(nc[old_c.len() as int].devices@, input, kind, pos)) by {
                    assert forall|i: int| 0 <= i < input.len() && (#[trigger] input[i]).category == kind implies pos.contains(i as usize) by {}
                    assert forall|j: int| 0 <= j < pos.len() implies (#[trigger] input[pos[j] as int]).category == kind by {
                        lemma_category_rank_injective(input[pos[j] as int].category, kind);
                    }
                }
                assert forall|c: int| 0 <= c < nc.len() implies (#[trigger] nc[c]).devices@.len() > 0 && nc[c].label@
                    == category_label(nc[c].kind) && exists|idx: Seq<usize>| category_listing(nc[c].devices@, input, nc[c].kind, idx) by {
                    if c < old_c.len() {
                        assert(nc[c] == old_c[c]);
                    }
                }
                assert forall|k: int| 0 <= k < n && category_rank((#[trigger] input[k]).category) < rank + 1 implies exists|c: int| 0 <= c < nc.len()
                    && (#[trigger] nc[c]).kind == input[k].category by {
                    if category_rank(input[k].category) == rank {
                        lemma_category_rank_injective(input[k].category, kind);
                        assert(nc[old_c.len() as int].kind == input[k].category);
                    } else {
                        let c = choose|c: int| 0 <= c < old_c.len() && (#[trigger] old_c[c]).kind == input[k].category;
                        assert(nc[c] == old_c[c]);
                    }
                }
                assert forall|a: int, b: int| 0 <= a < b < nc.len() implies category_rank((#[trigger] nc[a]).kind) < category_rank(
                    (#[trigger] nc[b]).kind,
                ) by {
                    if b < old_c.len() {
                        assert(nc[a] == old_c[a] && nc[b] == old_c[b]);
                    } else {
                        assert(nc[a] == old_c[a]);
                    }
                }
            }
        } else {
            proof {
                assert forall|k: int| 0 <= k < n && category_rank((#[trigger] input[k]).category) < rank + 1 implies exists|c: int| 0 <= c < categories@.len()
                    && (#[trigger] categories@[c]).kind == input[k].category by {
                    if category_rank(input[k].category) == rank {
                        assert(pos.contains(k as usize));
                    }
                }
            }
        }
        rank += 1;
    }
    HardwareInventory { categories }
}

} // verus!
