//! The hardware model shared by the collectors and the presentation layer:
//! device classes, sensor kinds and units, reading freshness and status,
//! storage health, and natural ordering of labels.
use crate::natural::{law_natural_order_antisymmetric, natural_order, natural_order_of};
use crate::text::{
    chars_eq, chars_lt, lemma_lex_transitive, lemma_lex_trichotomy, lex_lt,
    chars_eq_str, chars_of, ends_with_str, starts_with_str, is_ascii_text, lemma_lower_ascii, lemma_lower_idempotent, lower_seq, str_to_lowercase,
    unicode_lower_str,
};
use std::cmp::Ordering;
use vstd::prelude::*;

verus! {

/// The kind of a device.
#[derive(Debug, Clone, Copy, PartialEq, Eq, Structural)]
pub enum DeviceClass {
    System,
    Motherboard,
    Bios,
    Cpu,
    Memory,
    Gpu,
    Storage,
    Network,
    Usb,
    Pci,
    PowerSupply,
    Battery,
    Thermal,
    SensorController,
    Thunderbolt,
    Bluetooth,
    Other,
}

pub open spec fn device_class_as_str(v: DeviceClass) -> Seq<char> {
    match v {
        DeviceClass::System => "system"@,
        DeviceClass::Motherboard => "motherboard"@,
        DeviceClass::Bios => "bios"@,
        DeviceClass::Cpu => "cpu"@,
        DeviceClass::Memory => "memory"@,
        DeviceClass::Gpu => "gpu"@,
        DeviceClass::Storage => "storage"@,
        DeviceClass::Network => "network"@,
        DeviceClass::Usb => "usb"@,
        DeviceClass::Pci => "pci"@,
        DeviceClass::PowerSupply => "power_supply"@,
        DeviceClass::Battery => "battery"@,
        DeviceClass::Thermal => "thermal"@,
        DeviceClass::SensorController => "sensor_controller"@,
        DeviceClass::Thunderbolt => "thunderbolt"@,
        DeviceClass::Bluetooth => "bluetooth"@,
        DeviceClass::Other => "other"@,
    }
}

pub open spec fn device_class_display_name(v: DeviceClass) -> Seq<char> {
    match v {
        DeviceClass::System => "System"@,
        DeviceClass::Motherboard => "Motherboard"@,
        DeviceClass::Bios => "BIOS/firmware"@,
        DeviceClass::Cpu => "CPU"@,
        DeviceClass::Memory => "Memory"@,
        DeviceClass::Gpu => "GPU"@,
        DeviceClass::Storage => "Storage"@,
        DeviceClass::Network => "Network"@,
        DeviceClass::Usb => "USB"@,
        DeviceClass::Pci => "PCI"@,
        DeviceClass::PowerSupply => "Power supply"@,
        DeviceClass::Battery => "Battery"@,
        DeviceClass::Thermal => "Thermal"@,
        DeviceClass::SensorController => "Sensor controller"@,
        DeviceClass::Thunderbolt => "Thunderbolt/USB4"@,
        DeviceClass::Bluetooth => "Bluetooth"@,
        DeviceClass::Other => "Other"@,
    }
}

impl DeviceClass {
    /// The serialized name.
    pub fn as_str(self) -> (r: &'static str)
        ensures
            r@ == device_class_as_str(self),
    {
        match self {
            DeviceClass::System => "system",
            DeviceClass::Motherboard => "motherboard",
            DeviceClass::Bios => "bios",
            DeviceClass::Cpu => "cpu",
            DeviceClass::Memory => "memory",
            DeviceClass::Gpu => "gpu",
            DeviceClass::Storage => "storage",
            DeviceClass::Network => "network",
            DeviceClass::Usb => "usb",
            DeviceClass::Pci => "pci",
            DeviceClass::PowerSupply => "power_supply",
            DeviceClass::Battery => "battery",
            DeviceClass::Thermal => "thermal",
            DeviceClass::SensorController => "sensor_controller",
            DeviceClass::Thunderbolt => "thunderbolt",
            DeviceClass::Bluetooth => "bluetooth",
            DeviceClass::Other => "other",
        }
    }

    /// The name shown to users.
    pub fn display_name(self) -> (r: &'static str)
        ensures
            r@ == device_class_display_name(self),
    {
        match self {
            DeviceClass::System => "System",
            DeviceClass::Motherboard => "Motherboard",
            DeviceClass::Bios => "BIOS/firmware",
            DeviceClass::Cpu => "CPU",
            DeviceClass::Memory => "Memory",
            DeviceClass::Gpu => "GPU",
            DeviceClass::Storage => "Storage",
            DeviceClass::Network => "Network",
            DeviceClass::Usb => "USB",
            DeviceClass::Pci => "PCI",
            DeviceClass::PowerSupply => "Power supply",
            DeviceClass::Battery => "Battery",
            DeviceClass::Thermal => "Thermal",
            DeviceClass::SensorController => "Sensor controller",
            DeviceClass::Thunderbolt => "Thunderbolt/USB4",
            DeviceClass::Bluetooth => "Bluetooth",
            DeviceClass::Other => "Other",
        }
    }
}

/// What a sensor measures.
#[derive(Debug, Clone, Copy, PartialEq, Eq, Structural)]
pub enum SensorKind {
    Temperature,
    Voltage,
    Current,
    Power,
    Energy,
    Fan,
    Frequency,
    EffectiveClock,
    Throughput,
    Utilization,
    Capacity,
    Humidity,
    Counter,
    Boolean,
    Other,
}

pub open spec fn sensor_kind_as_str(v: SensorKind) -> Seq<char> {
    match v {
        SensorKind::Temperature => "temperature"@,
        SensorKind::Voltage => "voltage"@,
        SensorKind::Current => "current"@,
        SensorKind::Power => "power"@,
        SensorKind::Energy => "energy"@,
        SensorKind::Fan => "fan"@,
        SensorKind::Frequency => "frequency"@,
        SensorKind::EffectiveClock => "effective_clock"@,
        SensorKind::Throughput => "throughput"@,
        SensorKind::Utilization => "utilization"@,
        SensorKind::Capacity => "capacity"@,
        SensorKind::Humidity => "humidity"@,
        SensorKind::Counter => "counter"@,
        SensorKind::Boolean => "boolean"@,
        SensorKind::Other => "other"@,
    }
}

impl SensorKind {
    /// The serialized name.
    pub fn as_str(self) -> (r: &'static str)
        ensures
            r@ == sensor_kind_as_str(self),
    {
        match self {
            SensorKind::Temperature => "temperature",
            SensorKind::Voltage => "voltage",
            SensorKind::Current => "current",
            SensorKind::Power => "power",
            SensorKind::Energy => "energy",
            SensorKind::Fan => "fan",
            SensorKind::Frequency => "frequency",
            SensorKind::EffectiveClock => "effective_clock",
            SensorKind::Throughput => "throughput",
            SensorKind::Utilization => "utilization",
            SensorKind::Capacity => "capacity",
            SensorKind::Humidity => "humidity",
            SensorKind::Counter => "counter",
            SensorKind::Boolean => "boolean",
            SensorKind::Other => "other",
        }
    }
}

/// The unit of a reading.
#[derive(Debug, Clone, Copy, PartialEq, Eq, Structural)]
pub enum Unit {
    Celsius,
    Volt,
    Ampere,
    Watt,
    WattHour,
    AmpereHour,
    Joule,
    Rpm,
    Hertz,
    Percent,
    Byte,
    BytePerSecond,
    Count,
    CountPerSecond,
    Boolean,
    Raw,
}

pub open spec fn unit_as_str(v: Unit) -> Seq<char> {
    match v {
        Unit::Celsius => "celsius"@,
        Unit::Volt => "volt"@,
        Unit::Ampere => "ampere"@,
        Unit::Watt => "watt"@,
        Unit::WattHour => "watt_hour"@,
        Unit::AmpereHour => "ampere_hour"@,
        Unit::Joule => "joule"@,
        Unit::Rpm => "rpm"@,
        Unit::Hertz => "hertz"@,
        Unit::Percent => "percent"@,
        Unit::Byte => "byte"@,
        Unit::BytePerSecond => "byte_per_second"@,
        Unit::Count => "count"@,
        Unit::CountPerSecond => "count_per_second"@,
        Unit::Boolean => "boolean"@,
        Unit::Raw => "raw"@,
    }
}

impl Unit {
    /// The serialized name.
    pub fn as_str(self) -> (r: &'static str)
        ensures
            r@ == unit_as_str(self),
    {
        match self {
            Unit::Celsius => "celsius",
            Unit::Volt => "volt",
            Unit::Ampere => "ampere",
            Unit::Watt => "watt",
            Unit::WattHour => "watt_hour",
            Unit::AmpereHour => "ampere_hour",
            Unit::Joule => "joule",
            Unit::Rpm => "rpm",
            Unit::Hertz => "hertz",
            Unit::Percent => "percent",
            Unit::Byte => "byte",
            Unit::BytePerSecond => "byte_per_second",
            Unit::Count => "count",
            Unit::CountPerSecond => "count_per_second",
            Unit::Boolean => "boolean",
            Unit::Raw => "raw",
        }
    }
}

/// A collector of a snapshot pass.
#[derive(Debug, Clone, Copy, PartialEq, Eq, Structural)]
pub enum CollectorId {
    Cpu,
    Memory,
    Network,
    Block,
    Power,
    Thermal,
    Hwmon,
    LibSensors,
    Drm,
    NvidiaSmi,
    Energy,
}

/// How a sensor's label was identified.
#[derive(Debug, Clone, Copy, PartialEq, Eq, Structural)]
pub enum Identification {
    KernelLabel,
    FirmwareLabel,
    LibSensorsConfig,
    VendorApi,
    KnownDriverMapping,
    BoardDatabase,
    Inferred,
    Unidentified,
}

/// Whether a reading is from the latest refresh.
#[derive(Debug, Clone, Copy, PartialEq, Eq, Structural)]
pub enum ReadingFreshness {
    Current,
    Stale,
    Unavailable,
    Offline,
}

pub open spec fn reading_freshness_as_str(v: ReadingFreshness) -> Seq<char> {
    match v {
        ReadingFreshness::Current => "current"@,
        ReadingFreshness::Stale => "stale"@,
        ReadingFreshness::Unavailable => "unavailable"@,
        ReadingFreshness::Offline => "offline"@,
    }
}

impl ReadingFreshness {
    /// The serialized name.
    pub fn as_str(self) -> (r: &'static str)
        ensures
            r@ == reading_freshness_as_str(self),
    {
        match self {
            ReadingFreshness::Current => "current",
            ReadingFreshness::Stale => "stale",
            ReadingFreshness::Unavailable => "unavailable",
            ReadingFreshness::Offline => "offline",
        }
    }
}

impl Default for ReadingFreshness {
    fn default() -> (r: Self)
        ensures
            r == ReadingFreshness::Current,
    {
        ReadingFreshness::Current
    }
}

impl ReadingFreshness {
    pub fn is_current(self) -> (r: bool)
        ensures
            r == (self == ReadingFreshness::Current),
    {
        match self {
            ReadingFreshness::Current => true,
            _ => false,
        }
    }
}

/// The hardware status a sensor reports.
#[derive(Debug, Clone, Copy, PartialEq, Eq, Structural)]
pub enum SensorStatus {
    Okay,
    Alarm,
    Fault,
    Unavailable,
}

pub open spec fn sensor_status_as_str(v: SensorStatus) -> Seq<char> {
    match v {
        SensorStatus::Okay => "ok"@,
        SensorStatus::Alarm => "alarm"@,
        SensorStatus::Fault => "fault"@,
        SensorStatus::Unavailable => "unavailable"@,
    }
}

pub open spec fn sensor_status_display_name(v: SensorStatus) -> Seq<char> {
    match v {
        SensorStatus::Okay => "OK"@,
        SensorStatus::Alarm => "Alarm"@,
        SensorStatus::Fault => "Fault"@,
        SensorStatus::Unavailable => "Unavailable"@,
    }
}

impl SensorStatus {
    /// The serialized name.
    pub fn as_str(self) -> (r: &'static str)
        ensures
            r@ == sensor_status_as_str(self),
    {
        match self {
            SensorStatus::Okay => "ok",
            SensorStatus::Alarm => "alarm",
            SensorStatus::Fault => "fault",
            SensorStatus::Unavailable => "unavailable",
        }
    }

    /// The name shown to users.
    pub fn display_name(self) -> (r: &'static str)
        ensures
            r@ == sensor_status_display_name(self),
    {
        match self {
            SensorStatus::Okay => "OK",
            SensorStatus::Alarm => "Alarm",
            SensorStatus::Fault => "Fault",
            SensorStatus::Unavailable => "Unavailable",
        }
    }
}

/// The overall SMART/NVMe health verdict.
#[derive(Debug, Clone, Copy, PartialEq, Eq, Structural)]
pub enum StorageHealthStatus {
    Passed,
    Warning,
    Failed,
    Unknown,
}

pub open spec fn storage_health_status_display_name(v: StorageHealthStatus) -> Seq<char> {
    match v {
        StorageHealthStatus::Passed => "Passed"@,
        StorageHealthStatus::Warning => "Warning"@,
        StorageHealthStatus::Failed => "Failed"@,
        StorageHealthStatus::Unknown => "Unknown"@,
    }
}

impl StorageHealthStatus {
    /// The name shown to users.
    pub fn display_name(self) -> (r: &'static str)
        ensures
            r@ == storage_health_status_display_name(self),
    {
        match self {
            StorageHealthStatus::Passed => "Passed",
            StorageHealthStatus::Warning => "Warning",
            StorageHealthStatus::Failed => "Failed",
            StorageHealthStatus::Unknown => "Unknown",
        }
    }
}

impl Default for StorageHealthStatus {
    fn default() -> (r: Self)
        ensures
            r == StorageHealthStatus::Unknown,
    {
        StorageHealthStatus::Unknown
    }
}

/// Why storage health is, or is not, current.
#[derive(Debug, Clone, Copy, PartialEq, Eq, Structural)]
pub enum StorageHealthAvailability {
    Current,
    DriveAsleep,
    PermissionDenied,
    HelperMissing,
    Unsupported,
    Error,
}

pub open spec fn storage_health_availability_display_name(v: StorageHealthAvailability) -> Seq<char> {
    match v {
        StorageHealthAvailability::Current => "Current"@,
        StorageHealthAvailability::DriveAsleep => "Drive asleep"@,
        StorageHealthAvailability::PermissionDenied => "Permission required"@,
        StorageHealthAvailability::HelperMissing => "Helper unavailable"@,
        StorageHealthAvailability::Unsupported => "Unsupported"@,
        StorageHealthAvailability::Error => "Error"@,
    }
}

impl StorageHealthAvailability {
    /// The name shown to users.
    pub fn display_name(self) -> (r: &'static str)
        ensures
            r@ == storage_health_availability_display_name(self),
    {
        match self {
            StorageHealthAvailability::Current => "Current",
            StorageHealthAvailability::DriveAsleep => "Drive asleep",
            StorageHealthAvailability::PermissionDenied => "Permission required",
            StorageHealthAvailability::HelperMissing => "Helper unavailable",
            StorageHealthAvailability::Unsupported => "Unsupported",
            StorageHealthAvailability::Error => "Error",
        }
    }
}

/// The property keys that belong to storage health.
pub open spec fn storage_health_key(key: Seq<char>) -> bool {
        key == "critical_warning"@ ||
        key == "critical_warning_details"@ ||
        key == "available_spare"@ ||
        key == "spare_threshold"@ ||
        key == "percentage_used"@ ||
        key == "power_on_hours"@ ||
        key == "power_cycles"@ ||
        key == "unsafe_shutdowns"@ ||
        key == "media_errors"@ ||
        key == "error_log_entries"@ ||
        key == "data_units_read"@ ||
        key == "data_units_written"@ ||
        key == "host_read_commands"@ ||
        key == "host_write_commands"@ ||
        key == "warning_temperature_time"@ ||
        key == "critical_temperature_time"@
}

pub fn is_storage_health_property(key: &str) -> (r: bool)
    ensures
        r == storage_health_key(key@),
{
    let k = chars_of(key);
    chars_eq_str(&k, "critical_warning") ||
        chars_eq_str(&k, "critical_warning_details") ||
        chars_eq_str(&k, "available_spare") ||
        chars_eq_str(&k, "spare_threshold") ||
        chars_eq_str(&k, "percentage_used") ||
        chars_eq_str(&k, "power_on_hours") ||
        chars_eq_str(&k, "power_cycles") ||
        chars_eq_str(&k, "unsafe_shutdowns") ||
        chars_eq_str(&k, "media_errors") ||
        chars_eq_str(&k, "error_log_entries") ||
        chars_eq_str(&k, "data_units_read") ||
        chars_eq_str(&k, "data_units_written") ||
        chars_eq_str(&k, "host_read_commands") ||
        chars_eq_str(&k, "host_write_commands") ||
        chars_eq_str(&k, "warning_temperature_time") ||
        chars_eq_str(&k, "critical_temperature_time")
}

/// The health of one storage device.
#[derive(Debug, Clone, PartialEq, Eq)]
pub struct StorageHealth {
    pub status: StorageHealthStatus,
    pub availability: StorageHealthAvailability,
    pub last_attempt_unix_ms: Option<u128>,
    pub last_success_unix_ms: Option<u128>,
    pub message: Option<String>,
    pub sources: Vec<String>,
}

/// Whether a timestamp is absent or at least `maximum_age_ms` old.
pub open spec fn is_due(stamp: Option<u128>, now: u128, maximum_age_ms: u128) -> bool {
    match stamp {
        None => true,
        Some(t) => (if now >= t { now - t } else { 0 }) >= maximum_age_ms,
    }
}

/// Whether health should be read again: never for states that cannot
/// change by themselves, after `maximum_age_ms` since the last attempt for a
/// sleeping drive or an error, and since the last success otherwise.
pub open spec fn health_needs_refresh(h: StorageHealth, now: u128, maximum_age_ms: u128) -> bool {
    match h.availability {
        StorageHealthAvailability::PermissionDenied
        | StorageHealthAvailability::HelperMissing
        | StorageHealthAvailability::Unsupported => false,
        StorageHealthAvailability::DriveAsleep | StorageHealthAvailability::Error => is_due(
            h.last_attempt_unix_ms,
            now,
            maximum_age_ms,
        ),
        StorageHealthAvailability::Current => is_due(h.last_success_unix_ms, now, maximum_age_ms),
    }
}

fn is_due_exec(stamp: Option<u128>, now: u128, maximum_age_ms: u128) -> (r: bool)
    ensures
        r == is_due(stamp, now, maximum_age_ms),
{
    match stamp {
        None => true,
        Some(t) => now.saturating_sub(t) >= maximum_age_ms,
    }
}

impl StorageHealth {
    pub fn needs_refresh(&self, now_unix_ms: u128, maximum_age_ms: u128) -> (r: bool)
        ensures
            r == health_needs_refresh(*self, now_unix_ms, maximum_age_ms),
    {
        match self.availability {
            StorageHealthAvailability::PermissionDenied
            | StorageHealthAvailability::HelperMissing
            | StorageHealthAvailability::Unsupported => false,
            StorageHealthAvailability::DriveAsleep | StorageHealthAvailability::Error => is_due_exec(
                self.last_attempt_unix_ms,
                now_unix_ms,
                maximum_age_ms,
            ),
            StorageHealthAvailability::Current => is_due_exec(
                self.last_success_unix_ms,
                now_unix_ms,
                maximum_age_ms,
            ),
        }
    }
}

/// The ordering a sign (-1, 0 or 1) stands for.
pub open spec fn ordering_from(sign: int) -> Ordering {
    if sign < 0 {
        Ordering::Less
    } else if sign == 0 {
        Ordering::Equal
    } else {
        Ordering::Greater
    }
}

/// Compares labels naturally after lower-casing them: `CPU 2` before
/// `CPU 02` before `CPU 10`.
pub fn natural_cmp(left: &str, right: &str) -> (r: Ordering)
    ensures
        r == ordering_from(natural_order(unicode_lower_str(left@), unicode_lower_str(right@))),
        is_ascii_text(left@) && is_ascii_text(right@) ==> r == ordering_from(
            natural_order(lower_seq(left@), lower_seq(right@)),
        ),
{
    let l = chars_of(str_to_lowercase(left).as_str());
    let r = chars_of(str_to_lowercase(right).as_str());
    let sign = natural_order_of(&l, &r);
    if sign < 0 {
        Ordering::Less
    } else if sign == 0 {
        Ordering::Equal
    } else {
        Ordering::Greater
    }
}

/// The ordering the other way round.
pub open spec fn reversed_ordering(o: Ordering) -> Ordering {
    match o {
        Ordering::Less => Ordering::Greater,
        Ordering::Equal => Ordering::Equal,
        Ordering::Greater => Ordering::Less,
    }
}

/// Comparing labels the other way round reverses the result, and two
/// labels compare equal exactly when their lower-cased texts are the same.
pub proof fn law_natural_cmp_antisymmetric(left: Seq<char>, right: Seq<char>)
    ensures
        ordering_from(natural_order(unicode_lower_str(left), unicode_lower_str(right))) == reversed_ordering(
            ordering_from(natural_order(unicode_lower_str(right), unicode_lower_str(left))),
        ),
        ordering_from(natural_order(unicode_lower_str(left), unicode_lower_str(right))) == Ordering::Equal
            <==> unicode_lower_str(left) == unicode_lower_str(right),
{
    law_natural_order_antisymmetric(unicode_lower_str(left), unicode_lower_str(right));
}

/// Of ASCII labels: comparing the lower-cased labels gives the same result
/// (they are ASCII too), and the comparison is antisymmetric, calling two
/// labels equal exactly when they are the same apart from letter case.
pub proof fn law_natural_cmp_ignores_case(left: Seq<char>, right: Seq<char>)
    requires
        is_ascii_text(left),
        is_ascii_text(right),
    ensures
        is_ascii_text(lower_seq(left)),
        is_ascii_text(lower_seq(right)),
        natural_order(lower_seq(lower_seq(left)), lower_seq(lower_seq(right))) == natural_order(
            lower_seq(left),
            lower_seq(right),
        ),
        ordering_from(natural_order(lower_seq(left), lower_seq(right))) == reversed_ordering(
            ordering_from(natural_order(lower_seq(right), lower_seq(left))),
        ),
        ordering_from(natural_order(lower_seq(left), lower_seq(right))) == Ordering::Equal <==> lower_seq(left)
            == lower_seq(right),
{
    lemma_lower_ascii(left);
    lemma_lower_ascii(right);
    lemma_lower_idempotent(left);
    lemma_lower_idempotent(right);
    law_natural_order_antisymmetric(lower_seq(left), lower_seq(right));
}


// ---------------------------------------------------------------------------
// Merging records of one device
// ---------------------------------------------------------------------------
/// Whether `s` starts with `p`.
pub open spec fn has_prefix(s: Seq<char>, p: Seq<char>) -> bool {
    p.len() <= s.len() && s.take(p.len() as int) == p
}

/// Whether `s` ends with `p`.
pub open spec fn has_suffix(s: Seq<char>, p: Seq<char>) -> bool {
    p.len() <= s.len() && s.skip(s.len() - p.len()) == p
}

/// Whether a later record's name replaces the name already known for a
/// device: never when the incoming name is empty, `CPU`, a `GPU card`
/// placeholder or a generic ` sensor controller` name; otherwise when the
/// known name is empty, a placeholder (`Unknown…`, `PCI device …`,
/// `GPU card…`, `sysfs:…`) or the same name.
pub open spec fn replaces_name(existing: Seq<char>, incoming: Seq<char>) -> bool {
    if incoming.len() == 0 || incoming == "CPU"@ || has_prefix(incoming, "GPU card"@) || has_suffix(
        incoming,
        " sensor controller"@,
    ) {
        false
    } else {
        existing.len() == 0 || has_prefix(existing, "Unknown"@) || has_prefix(existing, "PCI device "@)
            || has_prefix(existing, "GPU card"@) || has_prefix(existing, "sysfs:"@) || existing
            == incoming
    }
}

/// Whether a name is a real device name that may replace another: not
/// empty, not the bare `CPU`, not a `GPU card…` placeholder and not a
/// generic `… sensor controller` name.
pub open spec fn is_real_name(name: Seq<char>) -> bool {
    &&& name.len() > 0
    &&& name != "CPU"@
    &&& !has_prefix(name, "GPU card"@)
    &&& !has_suffix(name, " sensor controller"@)
}

/// Whether a known name only stands in for a real one: empty, or starting
/// with `Unknown`, `PCI device `, `GPU card` or `sysfs:`.
pub open spec fn is_placeholder_name(name: Seq<char>) -> bool {
    ||| name.len() == 0
    ||| has_prefix(name, "Unknown"@)
    ||| has_prefix(name, "PCI device "@)
    ||| has_prefix(name, "GPU card"@)
    ||| has_prefix(name, "sysfs:"@)
}

/// When records of one device are merged, a real incoming name replaces a
/// placeholder (so a DRM record's `GPU card0` gives way to the PCI name of
/// the same card), a name that is not real never replaces anything, and a
/// real known name is kept against a different real name.
pub proof fn law_real_name_replaces_placeholder(existing: Seq<char>, incoming: Seq<char>)
    ensures
        is_real_name(incoming) && is_placeholder_name(existing) ==> replaces_name(existing, incoming),
        !is_real_name(incoming) ==> !replaces_name(existing, incoming),
        is_real_name(incoming) && existing == incoming ==> replaces_name(existing, incoming),
        !is_placeholder_name(existing) && existing != incoming ==> !replaces_name(existing, incoming),
{
}

pub fn should_replace_name(existing: &str, incoming: &str) -> (r: bool)
    ensures
        r == replaces_name(existing@, incoming@),
{
    let e = chars_of(existing);
    let i = chars_of(incoming);
    if i.len() == 0 || chars_eq_str(&i, "CPU") || starts_with_str(&i, "GPU card") || ends_with_str(
        &i,
        " sensor controller",
    ) {
        return false;
    }
    e.len() == 0 || starts_with_str(&e, "Unknown") || starts_with_str(&e, "PCI device ")
        || starts_with_str(&e, "GPU card") || starts_with_str(&e, "sysfs:") || chars_eq_str(
        &e,
        incoming,
    )
}

/// How specific a device class is, when two records of one device disagree:
/// `Other` below PCI and USB, those below sensor controllers and thermal
/// zones, and those below every other class.
pub open spec fn class_rank_of(class: DeviceClass) -> u8 {
    match class {
        DeviceClass::Other => 0,
        DeviceClass::Pci | DeviceClass::Usb => 1,
        DeviceClass::SensorController | DeviceClass::Thermal => 2,
        _ => 3,
    }
}

pub fn class_rank(class: &DeviceClass) -> (r: u8)
    ensures
        r == class_rank_of(*class),
{
    match class {
        DeviceClass::Other => 0,
        DeviceClass::Pci | DeviceClass::Usb => 1,
        DeviceClass::SensorController | DeviceClass::Thermal => 2,
        _ => 3,
    }
}

/// The label and identification a refreshed sensor is shown with: an
/// unidentified refresh keeps the label of an identified earlier reading of
/// the same sensor; otherwise the refresh's own.
pub open spec fn overlaid_label_of(
    previous: Option<(Seq<char>, Identification)>,
    label: Seq<char>,
    identification: Identification,
) -> (Seq<char>, Identification) {
    match previous {
        Some((l, id)) => if identification == Identification::Unidentified && id
            != Identification::Unidentified {
            (l, id)
        } else {
            (label, identification)
        },
        None => (label, identification),
    }
}

pub fn overlaid_label(
    previous: Option<(&str, Identification)>,
    label: String,
    identification: Identification,
) -> (r: (String, Identification))
    ensures
        (r.0@, r.1) == overlaid_label_of(
            match previous {
                Some((l, id)) => Some((l@, id)),
                None => None,
            },
            label@,
            identification,
        ),
{
    match previous {
        Some((l, id)) => {
            if identification == Identification::Unidentified && id != Identification::Unidentified {
                (l.to_string(), id)
            } else {
                (label, identification)
            }
        },
        None => (label, identification),
    }
}


/// Whether texts are in strictly increasing code-point order (the order of
/// their UTF-8 bytes), so that none occurs twice.
pub open spec fn strictly_ordered(s: Seq<String>) -> bool {
    forall|a: int, b: int| 0 <= a < b < s.len() ==> lex_lt(#[trigger] s[a]@, #[trigger] s[b]@)
}

/// Whether `w` is the text of one of `s`.
pub open spec fn holds_text(s: Seq<String>, w: Seq<char>) -> bool {
    exists|i: int| 0 <= i < s.len() && (#[trigger] s[i])@ == w
}

/// Adds `w` to ordered texts unless it is already there.
fn insert_ordered(v: &mut Vec<String>, w: &String)
    requires
        strictly_ordered(old(v)@),
    ensures
        strictly_ordered(final(v)@),
        forall|x: Seq<char>| holds_text(final(v)@, x) <==> (holds_text(old(v)@, x) || x == w@),
{
    let wc = chars_of(w.as_str());
    let mut p: usize = 0;
    while p < v.len()
        invariant
            p <= v@.len(),
            wc@ == w@,
            strictly_ordered(v@),
            v@ == old(v)@,
            forall|q: int| 0 <= q < p ==> lex_lt(#[trigger] v@[q]@, w@),
        ensures
            p <= v@.len(),
            v@ == old(v)@,
            forall|q: int| 0 <= q < p ==> lex_lt(#[trigger] v@[q]@, w@),
            p < v@.len() ==> !lex_lt(v@[p as int]@, w@),
        decreases v@.len() - p,
    {
        let other = chars_of(v[p].as_str());
        if !chars_lt(&other, &wc) {
            break;
        }
        p = p + 1;
    }
    if p < v.len() {
        let other = chars_of(v[p].as_str());
        if chars_eq(&other, &wc) {
            proof {
                assert forall|x: Seq<char>| holds_text(v@, x) <==> (holds_text(old(v)@, x) || x == w@) by {
                    if x == w@ {
                        assert(v@[p as int]@ == x);
                    }
                }
            }
            return;
        }
        proof {
            lemma_lex_trichotomy(v@[p as int]@, w@);
            assert forall|q: int| p <= q < v@.len() implies lex_lt(w@, #[trigger] v@[q]@) by {
                if q > p {
                    lemma_lex_transitive(w@, v@[p as int]@, v@[q]@);
                }
            }
        }
    }
    let ghost before = v@;
    v.insert(p, w.clone());
    proof {
        let after = v@;
        assert(after[p as int]@ == w@);
        assert forall|a: int, b: int| 0 <= a < b < after.len() implies lex_lt(
            #[trigger] after[a]@,
            #[trigger] after[b]@,
        ) by {
            if b < p {
                assert(after[a] == before[a] && after[b] == before[b]);
            } else if b == p {
                assert(after[a] == before[a]);
            } else if a < p {
                assert(after[a] == before[a] && after[b] == before[b - 1]);
                lemma_lex_transitive(before[a]@, w@, before[b - 1]@);
            } else if a == p {
                assert(after[b] == before[b - 1]);
            } else {
                assert(after[a] == before[a - 1] && after[b] == before[b - 1]);
            }
        }
        assert forall|x: Seq<char>| holds_text(after, x) <==> (holds_text(before, x) || x == w@) by {
            if holds_text(after, x) {
                let i = choose|i: int| 0 <= i < after.len() && (#[trigger] after[i])@ == x;
                if i < p {
                    assert(before[i] == after[i]);
                } else if i > p {
                    assert(before[i - 1] == after[i]);
                }
            }
            if holds_text(before, x) {
                let i = choose|i: int| 0 <= i < before.len() && (#[trigger] before[i])@ == x;
                if i < p {
                    assert(after[i] == before[i]);
                } else {
                    assert(after[i + 1] == before[i]);
                }
            }
            if x == w@ {
                assert(after[p as int]@ == x);
            }
        }
    }
}

/// The warnings of an overlaid snapshot: those of both snapshots, each
/// once, in order.
pub fn merge_warnings(base: &[String], dynamic: &[String]) -> (r: Vec<String>)
    ensures
        strictly_ordered(r@),
        forall|x: Seq<char>| holds_text(r@, x) <==> (holds_text(base@, x) || holds_text(dynamic@, x)),
{
    let mut r: Vec<String> = Vec::new();
    let mut i: usize = 0;
    while i < base.len()
        invariant
            i <= base.len(),
            strictly_ordered(r@),
            forall|x: Seq<char>| holds_text(r@, x) <==> holds_text(base@.take(i as int), x),
        decreases base.len() - i,
    {
        insert_ordered(&mut r, &base[i]);
        proof {
            let t = base@.take(i + 1);
            assert forall|x: Seq<char>| holds_text(t, x) <==> (holds_text(base@.take(i as int), x) || x == base@[i as int]@) by {
                if holds_text(t, x) {
                    let j = choose|j: int| 0 <= j < t.len() && (#[trigger] t[j])@ == x;
                    if j < i {
                        assert(base@.take(i as int)[j] == t[j]);
                    }
                }
                if holds_text(base@.take(i as int), x) {
                    let j = choose|j: int| 0 <= j < i && (#[trigger] base@.take(i as int)[j])@ == x;
                    assert(t[j] == base@.take(i as int)[j]);
                }
                if x == base@[i as int]@ {
                    assert(t[i as int]@ == x);
                }
            }
        }
        i = i + 1;
    }
    assert(base@.take(base.len() as int) =~= base@);
    let mut k: usize = 0;
    while k < dynamic.len()
        invariant
            k <= dynamic.len(),
            strictly_ordered(r@),
            forall|x: Seq<char>|
                holds_text(r@, x) <==> (holds_text(base@, x) || holds_text(dynamic@.take(k as int), x)),
        decreases dynamic.len() - k,
    {
        insert_ordered(&mut r, &dynamic[k]);
        proof {
            let t = dynamic@.take(k + 1);
            assert forall|x: Seq<char>| holds_text(t, x) <==> (holds_text(dynamic@.take(k as int), x) || x == dynamic@[k as int]@) by {
                if holds_text(t, x) {
                    let j = choose|j: int| 0 <= j < t.len() && (#[trigger] t[j])@ == x;
                    if j < k {
                        assert(dynamic@.take(k as int)[j] == t[j]);
                    }
                }
                if holds_text(dynamic@.take(k as int), x) {
                    let j = choose|j: int| 0 <= j < k && (#[trigger] dynamic@.take(k as int)[j])@ == x;
                    assert(t[j] == dynamic@.take(k as int)[j]);
                }
                if x == dynamic@[k as int]@ {
                    assert(t[k as int]@ == x);
                }
            }
        }
        k = k + 1;
    }
    assert(dynamic@.take(dynamic.len() as int) =~= dynamic@);
    r
}


/// The position of a device class in declaration order, the order in which
/// snapshots list classes.
pub open spec fn device_class_position(c: DeviceClass) -> u8 {
    match c {
        DeviceClass::System => 0,
        DeviceClass::Motherboard => 1,
        DeviceClass::Bios => 2,
        DeviceClass::Cpu => 3,
        DeviceClass::Memory => 4,
        DeviceClass::Gpu => 5,
        DeviceClass::Storage => 6,
        DeviceClass::Network => 7,
        DeviceClass::Usb => 8,
        DeviceClass::Pci => 9,
        DeviceClass::PowerSupply => 10,
        DeviceClass::Battery => 11,
        DeviceClass::Thermal => 12,
        DeviceClass::SensorController => 13,
        DeviceClass::Thunderbolt => 14,
        DeviceClass::Bluetooth => 15,
        DeviceClass::Other => 16,
    }
}

pub fn device_class_order(c: DeviceClass) -> (r: u8)
    ensures
        r == device_class_position(c),
{
    match c {
        DeviceClass::System => 0,
        DeviceClass::Motherboard => 1,
        DeviceClass::Bios => 2,
        DeviceClass::Cpu => 3,
        DeviceClass::Memory => 4,
        DeviceClass::Gpu => 5,
        DeviceClass::Storage => 6,
        DeviceClass::Network => 7,
        DeviceClass::Usb => 8,
        DeviceClass::Pci => 9,
        DeviceClass::PowerSupply => 10,
        DeviceClass::Battery => 11,
        DeviceClass::Thermal => 12,
        DeviceClass::SensorController => 13,
        DeviceClass::Thunderbolt => 14,
        DeviceClass::Bluetooth => 15,
        DeviceClass::Other => 16,
    }
}

/// The position of a sensor kind in declaration order, the order in which
/// a device lists its readings.
pub open spec fn sensor_kind_position(k: SensorKind) -> u8 {
    match k {
        SensorKind::Temperature => 0,
        SensorKind::Voltage => 1,
        SensorKind::Current => 2,
        SensorKind::Power => 3,
        SensorKind::Energy => 4,
        SensorKind::Fan => 5,
        SensorKind::Frequency => 6,
        SensorKind::EffectiveClock => 7,
        SensorKind::Throughput => 8,
        SensorKind::Utilization => 9,
        SensorKind::Capacity => 10,
        SensorKind::Humidity => 11,
        SensorKind::Counter => 12,
        SensorKind::Boolean => 13,
        SensorKind::Other => 14,
    }
}

pub fn sensor_kind_order(k: SensorKind) -> (r: u8)
    ensures
        r == sensor_kind_position(k),
{
    match k {
        SensorKind::Temperature => 0,
        SensorKind::Voltage => 1,
        SensorKind::Current => 2,
        SensorKind::Power => 3,
        SensorKind::Energy => 4,
        SensorKind::Fan => 5,
        SensorKind::Frequency => 6,
        SensorKind::EffectiveClock => 7,
        SensorKind::Throughput => 8,
        SensorKind::Utilization => 9,
        SensorKind::Capacity => 10,
        SensorKind::Humidity => 11,
        SensorKind::Counter => 12,
        SensorKind::Boolean => 13,
        SensorKind::Other => 14,
    }
}

} // verus!
