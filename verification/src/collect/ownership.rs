//! Which physical device owns the telemetry of an hwmon driver.
//!
//! Sysfs ancestry describes transport, not ownership: a DIMM temperature
//! sensor may sit below an SMBus PCI function while its values belong to the
//! memory module.  The driver profiles below keep that policy in one place.
use vstd::prelude::*;
use crate::collect::memory::{slot_device_id, slot_id};
use crate::collect::util::{
    humanize_token, humanized,
    block_device_from_path, i2c_client_from_path, i2c_client_in, last_component,
    pci_address_from_path, pci_address_in, stable_path_token, stable_token, PathComponentKind,
};
use crate::model::{DeviceClass, Identification, SensorKind};
use crate::text::{
    append_chars, append_str, chars_eq_str, chars_of, decimal, decimal_chars, is_digit,
    lower_seq, opt_view, owned, split, split_chars, string_of, strip_prefix, strip_prefix_str,
    to_lower, trim, trim_chars, views,
};

verus! {

#[derive(Debug, Clone, Copy, PartialEq, Eq, Structural)]
pub enum PhysicalOwner {
    Cpu,
    Memory,
    Gpu,
    Storage,
}

#[derive(Debug, Clone, Copy, PartialEq, Eq, Structural)]
pub enum IdentityStrategy {
    CpuPackage,
    MemoryI2cClient,
    DriverInstance,
    NvmeController,
    BlockDevice,
    PciFunction,
}

/// How temperature channels without a firmware label are named.
#[derive(Debug, Clone, Copy, PartialEq, Eq, Structural)]
pub enum TemperatureLabel {
    Unnamed,
    /// A semantic label for the first temperature channel only.
    First,
    /// The label followed by the channel number.
    Indexed,
}

/// The known hwmon driver families.
#[derive(Debug, Clone, Copy, PartialEq, Eq, Structural)]
pub enum DriverProfile {
    Cpu,
    Spd5118,
    Jc42,
    PeciDimmtemp,
    Nvme,
    Drivetemp,
    Gpu,
}

/// The profiles in lookup order.
pub open spec fn profiles() -> Seq<DriverProfile> {
    seq![
        DriverProfile::Cpu,
        DriverProfile::Spd5118,
        DriverProfile::Jc42,
        DriverProfile::PeciDimmtemp,
        DriverProfile::Nvme,
        DriverProfile::Drivetemp,
        DriverProfile::Gpu,
    ]
}

pub open spec fn canonical_name_of(p: DriverProfile) -> Seq<char> {
    match p {
        DriverProfile::Cpu => "cpu"@,
        DriverProfile::Spd5118 => "spd5118"@,
        DriverProfile::Jc42 => "jc42"@,
        DriverProfile::PeciDimmtemp => "peci_dimmtemp"@,
        DriverProfile::Nvme => "nvme"@,
        DriverProfile::Drivetemp => "drivetemp"@,
        DriverProfile::Gpu => "gpu"@,
    }
}

/// The driver names a profile covers.
pub open spec fn aliases_of(p: DriverProfile) -> Seq<Seq<char>> {
    match p {
        DriverProfile::Cpu => seq!["coretemp"@, "k8temp"@, "k10temp"@, "zenpower"@, "fam15h_power"@, "peci_cputemp"@],
        DriverProfile::Spd5118 => seq!["spd5118"@],
        DriverProfile::Jc42 => seq!["jc42"@],
        DriverProfile::PeciDimmtemp => seq!["peci_dimmtemp"@],
        DriverProfile::Nvme => seq!["nvme"@],
        DriverProfile::Drivetemp => seq!["drivetemp"@],
        DriverProfile::Gpu => seq!["amdgpu"@, "radeon"@, "nouveau"@, "nvidia"@, "i915"@, "xe"@],
    }
}

pub open spec fn owner_of(p: DriverProfile) -> PhysicalOwner {
    match p {
        DriverProfile::Cpu => PhysicalOwner::Cpu,
        DriverProfile::Spd5118 | DriverProfile::Jc42 | DriverProfile::PeciDimmtemp => PhysicalOwner::Memory,
        DriverProfile::Nvme | DriverProfile::Drivetemp => PhysicalOwner::Storage,
        DriverProfile::Gpu => PhysicalOwner::Gpu,
    }
}

pub open spec fn identity_of(p: DriverProfile) -> IdentityStrategy {
    match p {
        DriverProfile::Cpu => IdentityStrategy::CpuPackage,
        DriverProfile::Spd5118 | DriverProfile::Jc42 => IdentityStrategy::MemoryI2cClient,
        DriverProfile::PeciDimmtemp => IdentityStrategy::DriverInstance,
        DriverProfile::Nvme => IdentityStrategy::NvmeController,
        DriverProfile::Drivetemp => IdentityStrategy::BlockDevice,
        DriverProfile::Gpu => IdentityStrategy::PciFunction,
    }
}

pub open spec fn display_name_of(p: DriverProfile) -> Seq<char> {
    match p {
        DriverProfile::Cpu => "CPU sensor controller"@,
        DriverProfile::Spd5118 => "SPD5118 DDR5 memory module"@,
        DriverProfile::Jc42 => "JC42 memory temperature sensor"@,
        DriverProfile::PeciDimmtemp => "PECI DIMM temperature sensors"@,
        DriverProfile::Nvme => "NVMe sensor controller"@,
        DriverProfile::Drivetemp => "Drive temperature sensor controller"@,
        DriverProfile::Gpu => "GPU sensor controller"@,
    }
}

pub open spec fn sensor_family_of(p: DriverProfile) -> Option<Seq<char>> {
    match p {
        DriverProfile::Spd5118 => Some("SPD5118"@),
        DriverProfile::Jc42 => Some("JC42"@),
        DriverProfile::PeciDimmtemp => Some("PECI DIMM"@),
        _ => None,
    }
}

pub open spec fn memory_type_of(p: DriverProfile) -> Option<Seq<char>> {
    match p {
        DriverProfile::Spd5118 => Some("DDR5"@),
        _ => None,
    }
}

pub open spec fn memory_owner_name_of(p: DriverProfile) -> Option<Seq<char>> {
    match p {
        DriverProfile::Spd5118 => Some("DDR5 module"@),
        DriverProfile::Jc42 => Some("Memory module"@),
        DriverProfile::PeciDimmtemp => Some("DIMM"@),
        _ => None,
    }
}

/// The temperature naming of a profile and its label.
pub open spec fn temperature_label_of(p: DriverProfile) -> (TemperatureLabel, Seq<char>) {
    match p {
        DriverProfile::Cpu => (TemperatureLabel::Unnamed, Seq::empty()),
        DriverProfile::Spd5118 | DriverProfile::Jc42 => (TemperatureLabel::First, "Module temperature"@),
        DriverProfile::PeciDimmtemp => (TemperatureLabel::Indexed, "DIMM temperature"@),
        DriverProfile::Nvme => (TemperatureLabel::First, "Controller temperature"@),
        DriverProfile::Drivetemp => (TemperatureLabel::First, "Drive temperature"@),
        DriverProfile::Gpu => (TemperatureLabel::First, "GPU temperature"@),
    }
}

impl DriverProfile {
    pub fn canonical_name(self) -> (r: &'static str)
        ensures
            r@ == canonical_name_of(self),
    {
        match self {
            DriverProfile::Cpu => "cpu",
            DriverProfile::Spd5118 => "spd5118",
            DriverProfile::Jc42 => "jc42",
            DriverProfile::PeciDimmtemp => "peci_dimmtemp",
            DriverProfile::Nvme => "nvme",
            DriverProfile::Drivetemp => "drivetemp",
            DriverProfile::Gpu => "gpu",
        }
    }

    pub fn aliases(self) -> (r: Vec<&'static str>)
        ensures
            r@.map_values(|s: &str| s@) == aliases_of(self),
    {
        let mut v: Vec<&'static str> = Vec::new();
        match self {
            DriverProfile::Cpu => {
                v.push("coretemp");
                v.push("k8temp");
                v.push("k10temp");
                v.push("zenpower");
                v.push("fam15h_power");
                v.push("peci_cputemp");
            },
            DriverProfile::Spd5118 => v.push("spd5118"),
            DriverProfile::Jc42 => v.push("jc42"),
            DriverProfile::PeciDimmtemp => v.push("peci_dimmtemp"),
            DriverProfile::Nvme => v.push("nvme"),
            DriverProfile::Drivetemp => v.push("drivetemp"),
            DriverProfile::Gpu => {
                v.push("amdgpu");
                v.push("radeon");
                v.push("nouveau");
                v.push("nvidia");
                v.push("i915");
                v.push("xe");
            },
        }
        assert(v@.map_values(|s: &str| s@) =~= aliases_of(self));
        v
    }

    pub fn owner(self) -> (r: PhysicalOwner)
        ensures
            r == owner_of(self),
    {
        match self {
            DriverProfile::Cpu => PhysicalOwner::Cpu,
            DriverProfile::Spd5118 | DriverProfile::Jc42 | DriverProfile::PeciDimmtemp => PhysicalOwner::Memory,
            DriverProfile::Nvme | DriverProfile::Drivetemp => PhysicalOwner::Storage,
            DriverProfile::Gpu => PhysicalOwner::Gpu,
        }
    }

    pub fn identity(self) -> (r: IdentityStrategy)
        ensures
            r == identity_of(self),
    {
        match self {
            DriverProfile::Cpu => IdentityStrategy::CpuPackage,
            DriverProfile::Spd5118 | DriverProfile::Jc42 => IdentityStrategy::MemoryI2cClient,
            DriverProfile::PeciDimmtemp => IdentityStrategy::DriverInstance,
            DriverProfile::Nvme => IdentityStrategy::NvmeController,
            DriverProfile::Drivetemp => IdentityStrategy::BlockDevice,
            DriverProfile::Gpu => IdentityStrategy::PciFunction,
        }
    }

    pub fn display_name(self) -> (r: &'static str)
        ensures
            r@ == display_name_of(self),
    {
        match self {
            DriverProfile::Cpu => "CPU sensor controller",
            DriverProfile::Spd5118 => "SPD5118 DDR5 memory module",
            DriverProfile::Jc42 => "JC42 memory temperature sensor",
            DriverProfile::PeciDimmtemp => "PECI DIMM temperature sensors",
            DriverProfile::Nvme => "NVMe sensor controller",
            DriverProfile::Drivetemp => "Drive temperature sensor controller",
            DriverProfile::Gpu => "GPU sensor controller",
        }
    }

    pub fn sensor_family(self) -> (r: Option<&'static str>)
        ensures
            r matches Some(s) ==> sensor_family_of(self) == Some(s@),
            r is None ==> sensor_family_of(self) is None,
    {
        match self {
            DriverProfile::Spd5118 => Some("SPD5118"),
            DriverProfile::Jc42 => Some("JC42"),
            DriverProfile::PeciDimmtemp => Some("PECI DIMM"),
            _ => None,
        }
    }

    pub fn memory_type(self) -> (r: Option<&'static str>)
        ensures
            r matches Some(s) ==> memory_type_of(self) == Some(s@),
            r is None ==> memory_type_of(self) is None,
    {
        match self {
            DriverProfile::Spd5118 => Some("DDR5"),
            _ => None,
        }
    }

    pub fn memory_owner_name(self) -> (r: Option<&'static str>)
        ensures
            r matches Some(s) ==> memory_owner_name_of(self) == Some(s@),
            r is None ==> memory_owner_name_of(self) is None,
    {
        match self {
            DriverProfile::Spd5118 => Some("DDR5 module"),
            DriverProfile::Jc42 => Some("Memory module"),
            DriverProfile::PeciDimmtemp => Some("DIMM"),
            _ => None,
        }
    }

    pub fn temperature_label(self) -> (r: (TemperatureLabel, &'static str))
        ensures
            r.0 == temperature_label_of(self).0,
            r.1@ == temperature_label_of(self).1,
    {
        proof {
            reveal_strlit("");
        }
        match self {
            DriverProfile::Cpu => (TemperatureLabel::Unnamed, ""),
            DriverProfile::Spd5118 | DriverProfile::Jc42 => (TemperatureLabel::First, "Module temperature"),
            DriverProfile::PeciDimmtemp => (TemperatureLabel::Indexed, "DIMM temperature"),
            DriverProfile::Nvme => (TemperatureLabel::First, "Controller temperature"),
            DriverProfile::Drivetemp => (TemperatureLabel::First, "Drive temperature"),
            DriverProfile::Gpu => (TemperatureLabel::First, "GPU temperature"),
        }
    }

    /// The class of the devices the profile's telemetry belongs to.
    pub fn device_class(self) -> (r: DeviceClass)
        ensures
            r == profile_class(self),
    {
        match self.owner() {
            PhysicalOwner::Cpu => DeviceClass::Cpu,
            PhysicalOwner::Memory => DeviceClass::Memory,
            PhysicalOwner::Gpu => DeviceClass::Gpu,
            PhysicalOwner::Storage => DeviceClass::Storage,
        }
    }

    /// The id namespace of the owner.
    pub fn owner_namespace(self) -> (r: &'static str)
        ensures
            r@ == owner_namespace_of(self),
    {
        match self.owner() {
            PhysicalOwner::Cpu => "cpu",
            PhysicalOwner::Memory => "memory",
            PhysicalOwner::Gpu => "gpu",
            PhysicalOwner::Storage => "block",
        }
    }

    /// The family shown for memory sensors: the sensor family, else the canonical name.
    pub fn family_name(self) -> (r: &'static str)
        ensures
            r@ == match sensor_family_of(self) {
                Some(f) => f,
                None => canonical_name_of(self),
            },
    {
        match self.sensor_family() {
            Some(f) => f,
            None => self.canonical_name(),
        }
    }
}

pub open spec fn profile_class(p: DriverProfile) -> DeviceClass {
    match owner_of(p) {
        PhysicalOwner::Cpu => DeviceClass::Cpu,
        PhysicalOwner::Memory => DeviceClass::Memory,
        PhysicalOwner::Gpu => DeviceClass::Gpu,
        PhysicalOwner::Storage => DeviceClass::Storage,
    }
}

pub open spec fn owner_namespace_of(p: DriverProfile) -> Seq<char> {
    match owner_of(p) {
        PhysicalOwner::Cpu => "cpu"@,
        PhysicalOwner::Memory => "memory"@,
        PhysicalOwner::Gpu => "gpu"@,
        PhysicalOwner::Storage => "block"@,
    }
}

// ---------------------------------------------------------------------------
// Driver names
// ---------------------------------------------------------------------------
/// A driver name trimmed, ASCII lower-cased, with dashes turned into underscores.
pub open spec fn normalized_driver(name: Seq<char>) -> Seq<char> {
    lower_seq(trim(name)).map_values(|c: char| if c == '-' { '_' } else { c })
}

/// The driver is `alias`, or an instance of it such as `alias.0` or `alias_cpu`.
pub open spec fn driver_matches(name: Seq<char>, alias: Seq<char>) -> bool {
    name == alias || (strip_prefix(name, alias) matches Some(rest) && rest.len() > 0 && (rest[0] == '.' || rest[0] == '_'))
}

pub open spec fn profile_matches(name: Seq<char>, p: DriverProfile) -> bool {
    exists|i: int| 0 <= i < aliases_of(p).len() && driver_matches(name, #[trigger] aliases_of(p)[i])
}

/// The first profile, in lookup order, that covers the driver.
pub open spec fn first_profile(name: Seq<char>, ps: Seq<DriverProfile>) -> Option<DriverProfile>
    decreases ps.len(),
{
    if ps.len() == 0 {
        None
    } else if profile_matches(name, ps[0]) {
        Some(ps[0])
    } else {
        first_profile(name, ps.drop_first())
    }
}

pub open spec fn profile_of(driver_name: Seq<char>) -> Option<DriverProfile> {
    first_profile(normalized_driver(driver_name), profiles())
}

fn driver_matches_chars(name: &[char], alias: &str) -> (r: bool)
    ensures
        r == driver_matches(name@, alias@),
{
    if chars_eq_str(name, alias) {
        return true;
    }
    match strip_prefix_str(name, alias) {
        Some(rest) => rest.len() > 0 && (rest[0] == '.' || rest[0] == '_'),
        None => false,
    }
}

fn profile_matches_chars(name: &[char], p: DriverProfile) -> (r: bool)
    ensures
        r == profile_matches(name@, p),
{
    let aliases = p.aliases();
    let ghost av = aliases@.map_values(|s: &str| s@);
    let mut i: usize = 0;
    while i < aliases.len()
        invariant
            i <= aliases@.len(),
            av == aliases@.map_values(|s: &str| s@),
            av == aliases_of(p),
            forall|j: int| 0 <= j < i ==> !driver_matches(name@, #[trigger] av[j]),
        decreases aliases.len() - i,
    {
        proof {
            assert(av[i as int] == aliases@[i as int]@);
        }
        if driver_matches_chars(name, aliases[i]) {
            return true;
        }
        i += 1;
    }
    false
}

pub fn profile_for(driver_name: &str) -> (r: Option<DriverProfile>)
    ensures
        r == profile_of(driver_name@),
{
    let l = to_lower(&trim_chars(&chars_of(driver_name)));
    let mut n: Vec<char> = Vec::new();
    let mut i: usize = 0;
    while i < l.len()
        invariant
            i <= l@.len(),
            n@ == l@.take(i as int).map_values(|c: char| if c == '-' { '_' } else { c }),
        decreases l.len() - i,
    {
        n.push(if l[i] == '-' { '_' } else { l[i] });
        assert(n@ =~= l@.take(i + 1).map_values(|c: char| if c == '-' { '_' } else { c }));
        i += 1;
    }
    assert(l@.take(l.len() as int) =~= l@);
    let ps = [
        DriverProfile::Cpu,
        DriverProfile::Spd5118,
        DriverProfile::Jc42,
        DriverProfile::PeciDimmtemp,
        DriverProfile::Nvme,
        DriverProfile::Drivetemp,
        DriverProfile::Gpu,
    ];
    let ghost all = profiles();
    assert(ps@ =~= all);
    let mut k: usize = 0;
    assert(all.skip(0) =~= all);
    while k < 7
        invariant
            k <= 7,
            ps@ == all,
            all == profiles(),
            n@ == normalized_driver(driver_name@),
            first_profile(n@, all) == first_profile(n@, all.skip(k as int)),
        decreases 7 - k,
    {
        proof {
            assert(all.skip(k as int)[0] == all[k as int]);
            assert(all.skip(k as int).drop_first() =~= all.skip(k + 1));
        }
        if profile_matches_chars(&n, ps[k]) {
            return Some(ps[k]);
        }
        k += 1;
    }
    assert(all.skip(7).len() == 0);
    None
}

// ---------------------------------------------------------------------------
// Owners of hwmon devices
// ---------------------------------------------------------------------------
/// The leading ASCII digits of `s`.
pub open spec fn leading_digits(s: Seq<char>) -> Seq<char>
    decreases s.len(),
{
    if s.len() > 0 && is_digit(s[0]) {
        seq![s[0]] + leading_digits(s.drop_first())
    } else {
        Seq::empty()
    }
}

/// The NVMe controller a path component names: `nvme` and the digits after it.
pub open spec fn nvme_controller_of(component: Seq<char>) -> Option<Seq<char>> {
    match strip_prefix(component, "nvme"@) {
        Some(rest) => if leading_digits(rest).len() > 0 {
            Some("nvme"@ + leading_digits(rest))
        } else {
            None
        },
        None => None,
    }
}

/// The controller of the last path component that names one.
pub open spec fn last_nvme_controller(components: Seq<Seq<char>>) -> Option<Seq<char>>
    decreases components.len(),
{
    if components.len() == 0 {
        None
    } else {
        match nvme_controller_of(components.last()) {
            Some(c) => Some(c),
            None => last_nvme_controller(components.drop_last()),
        }
    }
}

fn leading_digits_chars(s: &[char]) -> (r: Vec<char>)
    ensures
        r@ == leading_digits(s@),
{
    let mut i: usize = 0;
    while i < s.len() && crate::text::char_is_digit(s[i])
        invariant
            i <= s@.len(),
            forall|j: int| 0 <= j < i ==> is_digit(#[trigger] s@[j]),
        decreases s.len() - i,
    {
        i += 1;
    }
    proof {
        lemma_leading_digits(s@, i as int);
    }
    crate::text::slice_chars(s, 0, i)
}

proof fn lemma_leading_digits(s: Seq<char>, i: int)
    requires
        0 <= i <= s.len(),
        forall|j: int| 0 <= j < i ==> is_digit(#[trigger] s[j]),
        i == s.len() || !is_digit(s[i]),
    ensures
        leading_digits(s) == s.take(i),
    decreases s.len(),
{
    if i > 0 {
        assert forall|j: int| 0 <= j < i - 1 implies is_digit(#[trigger] s.drop_first()[j]) by {
            assert(s.drop_first()[j] == s[j + 1]);
        }
        if i < s.len() {
            assert(s.drop_first()[i - 1] == s[i]);
        }
        lemma_leading_digits(s.drop_first(), i - 1);
        assert(seq![s[0]] + s.drop_first().take(i - 1) =~= s.take(i));
    } else {
        assert(s.take(0) =~= Seq::<char>::empty());
    }
}

pub fn nvme_controller_from_path(path: &str) -> (r: Option<String>)
    ensures
        opt_view(r) == last_nvme_controller(split(path@, '/')),
{
    let c = chars_of(path);
    let parts = split_chars(&c, '/');
    let ghost all = views(parts@);
    let mut i = parts.len();
    assert(all.take(i as int) =~= all);
    while i > 0
        invariant
            i <= parts@.len(),
            all == views(parts@),
            all == split(path@, '/'),
            last_nvme_controller(all) == last_nvme_controller(all.take(i as int)),
        decreases i,
    {
        proof {
            assert(all.take(i as int).drop_last() =~= all.take(i - 1));
            assert(all.take(i as int).last() == parts@[i - 1]@);
        }
        match strip_prefix_str(&parts[i - 1], "nvme") {
            Some(rest) => {
                let digits = leading_digits_chars(&rest);
                if digits.len() > 0 {
                    let mut v: Vec<char> = Vec::new();
                    append_str(&mut v, "nvme");
                    append_chars(&mut v, &digits);
                    return Some(string_of(&v));
                }
            },
            None => {},
        }
        i -= 1;
    }
    None
}

/// The device that owns an hwmon device's telemetry.
pub struct ResolvedDevice {
    pub id: String,
    pub class: DeviceClass,
    pub profile: Option<DriverProfile>,
}

pub open spec fn prefixed(prefix: Seq<char>, v: Option<Seq<char>>) -> Option<Seq<char>> {
    match v {
        Some(x) => Some(prefix + x),
        None => None,
    }
}

/// The id a profile derives from the device's path (and, for memory, the
/// slot locator the firmware gives), when the path carries it.
pub open spec fn profile_device_id(p: DriverProfile, path: Seq<char>, locator: Option<Seq<char>>) -> Option<Seq<char>> {
    match identity_of(p) {
        IdentityStrategy::CpuPackage => Some("cpu:0"@),
        IdentityStrategy::MemoryI2cClient => match locator {
            Some(l) if slot_id(l) is Some => slot_id(l),
            _ => prefixed("memory:"@ + canonical_name_of(p) + ":"@, i2c_client_in(path)),
        },
        IdentityStrategy::DriverInstance => None,
        IdentityStrategy::NvmeController => prefixed("block:"@, last_nvme_controller(split(path, '/'))),
        IdentityStrategy::BlockDevice => prefixed("block:"@, last_component(path, PathComponentKind::BlockDevice)),
        IdentityStrategy::PciFunction => prefixed("pci:"@, pci_address_in(path)),
    }
}

/// The id of the device that owns an hwmon device's telemetry: by driver
/// profile when the driver is known (falling back to a stable token of the
/// path within the owner's namespace), else the nearest PCI function, else
/// the nearest block device, else a stable token of the path.
pub open spec fn resolved_of(path: Seq<char>, driver: Option<Seq<char>>, locator: Option<Seq<char>>) -> (Seq<char>, DeviceClass, Option<DriverProfile>) {
    let profile = match driver {
        Some(d) => profile_of(d),
        None => None,
    };
    match profile {
        Some(p) => (
            match profile_device_id(p, path, locator) {
                Some(id) => id,
                None => owner_namespace_of(p) + ":"@ + canonical_name_of(p) + ":"@ + stable_token(path),
            },
            profile_class(p),
            Some(p),
        ),
        None => match pci_address_in(path) {
            Some(a) => ("pci:"@ + a, DeviceClass::Pci, None),
            None => match last_component(path, PathComponentKind::BlockDevice) {
                Some(b) => ("block:"@ + b, DeviceClass::Storage, None),
                None => ("sysfs:"@ + stable_token(path), DeviceClass::Other, None),
            },
        },
    }
}

fn prefix_string(prefix: &str, v: &str) -> (r: String)
    ensures
        r@ == prefix@ + v@,
{
    let mut c: Vec<char> = Vec::new();
    append_str(&mut c, prefix);
    append_str(&mut c, v);
    string_of(&c)
}

fn device_id_for(p: DriverProfile, path: &str, locator: Option<&str>) -> (r: Option<String>)
    ensures
        opt_view(r) == profile_device_id(p, path@, match locator {
            Some(l) => Some(l@),
            None => None,
        }),
{
    match p.identity() {
        IdentityStrategy::CpuPackage => Some(owned("cpu:0")),
        IdentityStrategy::MemoryI2cClient => {
            let slot = match locator {
                Some(l) => slot_device_id(l),
                None => None,
            };
            match slot {
                Some(id) => Some(id),
                None => match i2c_client_from_path(path) {
                    Some(client) => {
                        let mut v: Vec<char> = Vec::new();
                        append_str(&mut v, "memory:");
                        append_str(&mut v, p.canonical_name());
                        append_str(&mut v, ":");
                        append_str(&mut v, client.as_str());
                        proof {
                            assert(v@ =~= ("memory:"@ + canonical_name_of(p) + ":"@) + client@);
                        }
                        Some(string_of(&v))
                    },
                    None => None,
                },
            }
        },
        IdentityStrategy::DriverInstance => None,
        IdentityStrategy::NvmeController => match nvme_controller_from_path(path) {
            Some(c) => Some(prefix_string("block:", c.as_str())),
            None => None,
        },
        IdentityStrategy::BlockDevice => match block_device_from_path(path) {
            Some(b) => Some(prefix_string("block:", b.as_str())),
            None => None,
        },
        IdentityStrategy::PciFunction => match pci_address_from_path(path) {
            Some(a) => Some(prefix_string("pci:", a.as_str())),
            None => None,
        },
    }
}

/// Resolves the owner of an hwmon device at `path`, given its driver name
/// and the slot locator its firmware node gives, if any.
pub fn resolve_device(path: &str, driver_name: Option<&str>, locator: Option<&str>) -> (r: ResolvedDevice)
    ensures
        (r.id@, r.class, r.profile) == resolved_of(path@, match driver_name {
            Some(d) => Some(d@),
            None => None,
        }, match locator {
            Some(l) => Some(l@),
            None => None,
        }),
{
    let profile = match driver_name {
        Some(d) => profile_for(d),
        None => None,
    };
    match profile {
        Some(p) => {
            let id = match device_id_for(p, path, locator) {
                Some(id) => id,
                None => {
                    let mut v: Vec<char> = Vec::new();
                    append_str(&mut v, p.owner_namespace());
                    append_str(&mut v, ":");
                    append_str(&mut v, p.canonical_name());
                    append_str(&mut v, ":");
                    append_str(&mut v, stable_path_token(path).as_str());
                    string_of(&v)
                },
            };
            ResolvedDevice { id, class: p.device_class(), profile: Some(p) }
        },
        None => match pci_address_from_path(path) {
            Some(a) => ResolvedDevice { id: prefix_string("pci:", a.as_str()), class: DeviceClass::Pci, profile: None },
            None => match block_device_from_path(path) {
                Some(b) => ResolvedDevice { id: prefix_string("block:", b.as_str()), class: DeviceClass::Storage, profile: None },
                None => ResolvedDevice {
                    id: prefix_string("sysfs:", stable_path_token(path).as_str()),
                    class: DeviceClass::Other,
                    profile: None,
                },
            },
        },
    }
}

/// The label a known driver gives a temperature channel without a firmware
/// label: profiles with a first-channel label name channel 1 only, indexed
/// profiles add the channel number, and averages say so.
pub open spec fn default_label_of(profile: Option<DriverProfile>, kind: SensorKind, channel: Option<u32>, is_average: bool) -> Option<Seq<char>> {
    match profile {
        Some(p) => if kind != SensorKind::Temperature {
            None
        } else {
            let (style, label) = temperature_label_of(p);
            let base = match style {
                TemperatureLabel::Unnamed => None,
                TemperatureLabel::First => if channel == Some(1u32) { Some(label) } else { None },
                TemperatureLabel::Indexed => match channel {
                    Some(c) => Some(label + " "@ + decimal(c as nat)),
                    None => Some(label),
                },
            };
            match base {
                Some(b) => Some(if is_average { b + " average"@ } else { b }),
                None => None,
            }
        },
        None => None,
    }
}

pub fn default_sensor_label(profile: Option<DriverProfile>, kind: SensorKind, channel: Option<u32>, is_average: bool) -> (r: Option<(String, Identification)>)
    ensures
        r matches Some((l, i)) ==> default_label_of(profile, kind, channel, is_average) == Some(l@) && i == Identification::KnownDriverMapping,
        r is None ==> default_label_of(profile, kind, channel, is_average) is None,
{
    let p = match profile {
        Some(p) => p,
        None => return None,
    };
    match kind {
        SensorKind::Temperature => {},
        _ => return None,
    }
    let (style, label) = p.temperature_label();
    let mut v: Vec<char> = Vec::new();
    match style {
        TemperatureLabel::Unnamed => return None,
        TemperatureLabel::First => {
            match channel {
                Some(c) if c == 1 => append_str(&mut v, label),
                _ => return None,
            }
        },
        TemperatureLabel::Indexed => {
            append_str(&mut v, label);
            match channel {
                Some(c) => {
                    append_str(&mut v, " ");
                    append_chars(&mut v, &decimal_chars(c as u128));
                },
                None => {},
            }
        },
    }
    if is_average {
        append_str(&mut v, " average");
    }
    Some((string_of(&v), Identification::KnownDriverMapping))
}

/// The family shown for memory sensors: the sensor family, else the
/// canonical name.
pub open spec fn family_of(p: DriverProfile) -> Seq<char> {
    match sensor_family_of(p) {
        Some(f) => f,
        None => canonical_name_of(p),
    }
}

/// The name of a hwmon device: `<Driver> sensor controller` for an unknown
/// driver; for a memory sensor with a known locator `<family> — <locator>`;
/// else the profile's display name.
pub open spec fn hwmon_name_of(driver_name: Seq<char>, profile: Option<DriverProfile>, locator: Option<Seq<char>>) -> Seq<char> {
    match profile {
        None => humanized(driver_name) + " sensor controller"@,
        Some(p) => match locator {
            Some(l) => if owner_of(p) == PhysicalOwner::Memory {
                family_of(p) + " — "@ + l
            } else {
                display_name_of(p)
            },
            None => display_name_of(p),
        },
    }
}

/// Names a hwmon device; `locator` is the memory slot read for it, if any.
pub fn hwmon_display_name(driver_name: &str, profile: Option<DriverProfile>, locator: Option<&str>) -> (r: String)
    ensures
        r@ == hwmon_name_of(driver_name@, profile, opt_str_view(locator)),
{
    match profile {
        None => {
            let mut v = chars_of(humanize_token(driver_name).as_str());
            append_str(&mut v, " sensor controller");
            string_of(&v)
        },
        Some(p) => match locator {
            Some(l) => if p.owner() == PhysicalOwner::Memory {
                let mut v = chars_of(p.family_name());
                append_str(&mut v, " — ");
                append_str(&mut v, l);
                string_of(&v)
            } else {
                owned(p.display_name())
            },
            None => owned(p.display_name()),
        },
    }
}

pub open spec fn opt_str_view(o: Option<&str>) -> Option<Seq<char>> {
    match o {
        Some(s) => Some(s@),
        None => None,
    }
}

/// Appends `(key, value)` when there is a value.
pub open spec fn with_static(acc: Seq<(Seq<char>, Seq<char>)>, key: Seq<char>, value: Option<Seq<char>>) -> Seq<(Seq<char>, Seq<char>)> {
    match value {
        Some(v) => acc.push((key, v)),
        None => acc,
    }
}

/// The properties a driver profile gives its hwmon device: its sensor
/// family, memory type and memory owner name where it has them, and, for a
/// memory sensor, the slot it reads.
pub open spec fn profile_properties_of(profile: Option<DriverProfile>, locator: Option<Seq<char>>) -> Seq<(Seq<char>, Seq<char>)> {
    match profile {
        None => seq![],
        Some(p) => {
            let a = with_static(seq![], "sensor_family"@, sensor_family_of(p));
            let a = with_static(a, "memory_type"@, memory_type_of(p));
            let a = with_static(a, "memory_owner_name"@, memory_owner_name_of(p));
            if owner_of(p) == PhysicalOwner::Memory {
                with_static(a, "locator"@, locator)
            } else {
                a
            }
        },
    }
}

pub open spec fn pair_string_views(v: Seq<(String, String)>) -> Seq<(Seq<char>, Seq<char>)> {
    v.map_values(|p: (String, String)| (p.0@, p.1@))
}

fn push_static(out: &mut Vec<(String, String)>, key: &str, value: Option<&str>)
    ensures
        pair_string_views(final(out)@) == with_static(pair_string_views(old(out)@), key@, opt_str_view(value)),
{
    if let Some(v) = value {
        let ghost before = pair_string_views(out@);
        out.push((owned(key), owned(v)));
        assert(pair_string_views(out@) =~= before.push((key@, v@)));
    }
}

/// The properties a driver profile gives its hwmon device.
pub fn hwmon_profile_properties(profile: Option<DriverProfile>, locator: Option<&str>) -> (r: Vec<(String, String)>)
    ensures
        pair_string_views(r@) == profile_properties_of(profile, opt_str_view(locator)),
{
    let mut out: Vec<(String, String)> = Vec::new();
    assert(pair_string_views(out@) =~= Seq::<(Seq<char>, Seq<char>)>::empty());
    if let Some(p) = profile {
        push_static(&mut out, "sensor_family", p.sensor_family());
        push_static(&mut out, "memory_type", p.memory_type());
        push_static(&mut out, "memory_owner_name", p.memory_owner_name());
        if p.owner() == PhysicalOwner::Memory {
            push_static(&mut out, "locator", locator);
        }
    }
    out
}

} // verus!
