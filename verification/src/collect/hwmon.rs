//! hwmon attributes: which sysfs files are readings, what they measure, how
//! their channels are labelled, and how a raised alarm is judged.
use vstd::prelude::*;
use crate::collect::ownership::{default_label_of, default_sensor_label, DriverProfile};
use crate::collect::util::{pci_address_from_path, pci_address_in};
use crate::model::{Identification, SensorKind, SensorStatus, Unit};
use crate::text::{
    append_chars, append_str, char_is_alpha, chars_all_digits, all_digits, chars_eq, chars_of,
    ends_with_str, index_of_seq, is_alpha, lemma_split_nonempty, lower, lower_seq, opt_view, parse_unsigned, parse_unsigned_chars, slice_chars,
    find_seq_from, split, split_chars, split_once, split_seq, split_seq_chars, string_of, strip_prefix,
    strip_prefix_str, strip_suffix, strip_suffix_str, views, to_lower,
};

verus! {

/// Length of the run of ASCII letters that starts `s`.
pub open spec fn alpha_len(s: Seq<char>) -> nat
    decreases s.len(),
{
    if s.len() == 0 || !is_alpha(s[0]) {
        0
    } else {
        1 + alpha_len(s.drop_first())
    }
}

proof fn lemma_alpha_len(s: Seq<char>, i: int)
    requires
        0 <= i <= s.len(),
        forall|j: int| 0 <= j < i ==> is_alpha(#[trigger] s[j]),
        i < s.len() ==> !is_alpha(s[i]),
    ensures
        alpha_len(s) == i,
    decreases s.len(),
{
    if s.len() > 0 && i > 0 {
        assert forall|j: int| 0 <= j < i - 1 implies is_alpha(#[trigger] s.drop_first()[j]) by {
            assert(s.drop_first()[j] == s[j + 1]);
        }
        if i < s.len() {
            assert(s.drop_first()[i - 1] == s[i]);
        }
        lemma_alpha_len(s.drop_first(), i - 1);
    }
}

/// The letters that start `s` (its `take_while(is_ascii_alphabetic)`).
pub open spec fn alpha_prefix(s: Seq<char>) -> Seq<char> {
    s.take(alpha_len(s) as int)
}

/// What follows the letters that start `s`.
pub open spec fn after_alpha(s: Seq<char>) -> Seq<char> {
    s.skip(alpha_len(s) as int)
}

/// Counts the ASCII letters at the start of `s`.
fn alpha_run(s: &[char]) -> (r: usize)
    ensures
        r == alpha_len(s@),
        r <= s@.len(),
{
    let mut i: usize = 0;
    while i < s.len() && char_is_alpha(s[i])
        invariant
            i <= s.len(),
            forall|j: int| 0 <= j < i ==> is_alpha(#[trigger] s@[j]),
        decreases s.len() - i,
    {
        i += 1;
    }
    proof {
        lemma_alpha_len(s@, i as int);
    }
    i
}

/// The lm-sensors bus token of a PCI address: its bus and device numbers
/// run together (`0000:03:00.0` gives `0300`), present when the address has
/// at least three fields separated by `:` or `.`.
pub open spec fn pci_token_of(address: Seq<char>) -> Option<Seq<char>> {
    let parts = split(address.map_values(|c: char| if c == '.' { ':' } else { c }), ':');
    if parts.len() >= 3 {
        Some(parts[1] + parts[2])
    } else {
        None
    }
}

/// The lm-sensors bus token of a PCI address.
pub fn pci_token(address: &str) -> (r: Option<String>)
    ensures
        opt_view(r) == pci_token_of(address@),
{
    let a = chars_of(address);
    let mut v: Vec<char> = Vec::new();
    let mut i: usize = 0;
    while i < a.len()
        invariant
            i <= a.len(),
            v@ == a@.take(i as int).map_values(|c: char| if c == '.' { ':' } else { c }),
        decreases a.len() - i,
    {
        let c = if a[i] == '.' { ':' } else { a[i] };
        v.push(c);
        assert(a@.take(i + 1).map_values(|c: char| if c == '.' { ':' } else { c }) =~= a@.take(
            i as int,
        ).map_values(|c: char| if c == '.' { ':' } else { c }).push(c));
        i += 1;
    }
    assert(a@.take(a.len() as int) =~= a@);
    let parts = split_chars(&v, ':');
    if parts.len() >= 3 {
        let mut out: Vec<char> = Vec::new();
        append_chars(&mut out, &parts[1]);
        append_chars(&mut out, &parts[2]);
        assert(views(parts@)[1] == parts@[1]@);
        assert(views(parts@)[2] == parts@[2]@);
        Some(string_of(&out))
    } else {
        None
    }
}

/// Whether a file name is a fan duty-cycle attribute: `pwm` and digits only.
pub open spec fn pwm_attribute(filename: Seq<char>) -> bool {
    match strip_prefix(filename, "pwm"@) {
        Some(n) => n.len() > 0 && all_digits(n),
        None => false,
    }
}

/// Whether a file name is a fan duty-cycle attribute.
pub fn is_pwm_attribute(filename: &[char]) -> (r: bool)
    ensures
        r == pwm_attribute(filename@),
{
    match strip_prefix_str(filename, "pwm") {
        Some(n) => n.len() > 0 && chars_all_digits(&n),
        None => false,
    }
}

/// The channel number of an attribute base (`temp2` gives 2).
pub open spec fn channel_of(base: Seq<char>) -> Option<u32> {
    match parse_unsigned(after_alpha(base), 10, u32::MAX as nat) {
        Some(n) => Some(n as u32),
        None => None,
    }
}

/// The channel number of an attribute base.
pub fn channel_number(base: &[char]) -> (r: Option<u32>)
    ensures
        r == channel_of(base@),
{
    let k = alpha_run(base);
    let rest = slice_chars(base, k, base.len());
    assert(rest@ == after_alpha(base@));
    match parse_unsigned_chars(&rest, 10, 0xffff_ffff) {
        Some(n) => Some(n as u32),
        None => None,
    }
}

/// The measurement families hwmon names its attributes by.
#[derive(Debug, Clone, Copy, PartialEq, Eq, Structural)]
pub enum SensorPrefix {
    Temp,
    In,
    Curr,
    Power,
    Energy,
    Fan,
    Pwm,
    Freq,
    Humidity,
    Intrusion,
}

/// The attribute prefix of each family.
pub open spec fn prefix_name(p: SensorPrefix) -> Seq<char> {
    match p {
        SensorPrefix::Temp => "temp"@,
        SensorPrefix::In => "in"@,
        SensorPrefix::Curr => "curr"@,
        SensorPrefix::Power => "power"@,
        SensorPrefix::Energy => "energy"@,
        SensorPrefix::Fan => "fan"@,
        SensorPrefix::Pwm => "pwm"@,
        SensorPrefix::Freq => "freq"@,
        SensorPrefix::Humidity => "humidity"@,
        SensorPrefix::Intrusion => "intrusion"@,
    }
}

/// The family an attribute prefix names, if any.
pub open spec fn prefix_of(s: Seq<char>) -> Option<SensorPrefix> {
    if s == "temp"@ {
        Some(SensorPrefix::Temp)
    } else if s == "in"@ {
        Some(SensorPrefix::In)
    } else if s == "curr"@ {
        Some(SensorPrefix::Curr)
    } else if s == "power"@ {
        Some(SensorPrefix::Power)
    } else if s == "energy"@ {
        Some(SensorPrefix::Energy)
    } else if s == "fan"@ {
        Some(SensorPrefix::Fan)
    } else if s == "pwm"@ {
        Some(SensorPrefix::Pwm)
    } else if s == "freq"@ {
        Some(SensorPrefix::Freq)
    } else if s == "humidity"@ {
        Some(SensorPrefix::Humidity)
    } else if s == "intrusion"@ {
        Some(SensorPrefix::Intrusion)
    } else {
        None
    }
}

/// What each family measures.
pub open spec fn prefix_kind(p: SensorPrefix) -> SensorKind {
    match p {
        SensorPrefix::Temp => SensorKind::Temperature,
        SensorPrefix::In => SensorKind::Voltage,
        SensorPrefix::Curr => SensorKind::Current,
        SensorPrefix::Power => SensorKind::Power,
        SensorPrefix::Energy => SensorKind::Energy,
        SensorPrefix::Fan => SensorKind::Fan,
        SensorPrefix::Pwm => SensorKind::Fan,
        SensorPrefix::Freq => SensorKind::Frequency,
        SensorPrefix::Humidity => SensorKind::Humidity,
        SensorPrefix::Intrusion => SensorKind::Boolean,
    }
}

/// The unit of each family's scaled value.
pub open spec fn prefix_unit(p: SensorPrefix) -> Unit {
    match p {
        SensorPrefix::Temp => Unit::Celsius,
        SensorPrefix::In => Unit::Volt,
        SensorPrefix::Curr => Unit::Ampere,
        SensorPrefix::Power => Unit::Watt,
        SensorPrefix::Energy => Unit::Joule,
        SensorPrefix::Fan => Unit::Rpm,
        SensorPrefix::Pwm => Unit::Percent,
        SensorPrefix::Freq => Unit::Hertz,
        SensorPrefix::Humidity => Unit::Percent,
        SensorPrefix::Intrusion => Unit::Boolean,
    }
}

/// The divisor from a raw sysfs value to the unit, as numerator and
/// denominator: milli-units for temperature, voltage, current and humidity,
/// micro-units for power and energy, and a 0..=255 duty cycle to percent.
pub open spec fn prefix_divisor(p: SensorPrefix) -> (u64, u64) {
    match p {
        SensorPrefix::Temp => (1000, 1),
        SensorPrefix::In => (1000, 1),
        SensorPrefix::Curr => (1000, 1),
        SensorPrefix::Power => (1_000_000, 1),
        SensorPrefix::Energy => (1_000_000, 1),
        SensorPrefix::Fan => (1, 1),
        SensorPrefix::Pwm => (255, 100),
        SensorPrefix::Freq => (1, 1),
        SensorPrefix::Humidity => (1000, 1),
        SensorPrefix::Intrusion => (1, 1),
    }
}

/// The name a channel gets when nothing better is known.
pub open spec fn prefix_generic_name(p: SensorPrefix) -> Seq<char> {
    match p {
        SensorPrefix::Temp => "Temperature"@,
        SensorPrefix::In => "Voltage"@,
        SensorPrefix::Curr => "Current"@,
        SensorPrefix::Power => "Power"@,
        SensorPrefix::Energy => "Energy"@,
        SensorPrefix::Fan => "Fan"@,
        SensorPrefix::Pwm => "PWM"@,
        SensorPrefix::Freq => "Frequency"@,
        SensorPrefix::Humidity => "Humidity"@,
        SensorPrefix::Intrusion => "Intrusion"@,
    }
}

impl SensorPrefix {
    /// The family an attribute prefix names.
    pub fn from_prefix(s: &[char]) -> (r: Option<SensorPrefix>)
        ensures
            r == prefix_of(s@),
    {
        if chars_eq(s, &chars_of("temp")) {
            Some(SensorPrefix::Temp)
        } else if chars_eq(s, &chars_of("in")) {
            Some(SensorPrefix::In)
        } else if chars_eq(s, &chars_of("curr")) {
            Some(SensorPrefix::Curr)
        } else if chars_eq(s, &chars_of("power")) {
            Some(SensorPrefix::Power)
        } else if chars_eq(s, &chars_of("energy")) {
            Some(SensorPrefix::Energy)
        } else if chars_eq(s, &chars_of("fan")) {
            Some(SensorPrefix::Fan)
        } else if chars_eq(s, &chars_of("pwm")) {
            Some(SensorPrefix::Pwm)
        } else if chars_eq(s, &chars_of("freq")) {
            Some(SensorPrefix::Freq)
        } else if chars_eq(s, &chars_of("humidity")) {
            Some(SensorPrefix::Humidity)
        } else if chars_eq(s, &chars_of("intrusion")) {
            Some(SensorPrefix::Intrusion)
        } else {
            None
        }
    }

    pub fn kind(self) -> (r: SensorKind)
        ensures
            r == prefix_kind(self),
    {
        match self {
            SensorPrefix::Temp => SensorKind::Temperature,
            SensorPrefix::In => SensorKind::Voltage,
            SensorPrefix::Curr => SensorKind::Current,
            SensorPrefix::Power => SensorKind::Power,
            SensorPrefix::Energy => SensorKind::Energy,
            SensorPrefix::Fan => SensorKind::Fan,
            SensorPrefix::Pwm => SensorKind::Fan,
            SensorPrefix::Freq => SensorKind::Frequency,
            SensorPrefix::Humidity => SensorKind::Humidity,
            SensorPrefix::Intrusion => SensorKind::Boolean,
        }
    }

    pub fn unit(self) -> (r: Unit)
        ensures
            r == prefix_unit(self),
    {
        match self {
            SensorPrefix::Temp => Unit::Celsius,
            SensorPrefix::In => Unit::Volt,
            SensorPrefix::Curr => Unit::Ampere,
            SensorPrefix::Power => Unit::Watt,
            SensorPrefix::Energy => Unit::Joule,
            SensorPrefix::Fan => Unit::Rpm,
            SensorPrefix::Pwm => Unit::Percent,
            SensorPrefix::Freq => Unit::Hertz,
            SensorPrefix::Humidity => Unit::Percent,
            SensorPrefix::Intrusion => Unit::Boolean,
        }
    }

    /// The divisor from a raw value to the unit, as numerator and denominator.
    pub fn divisor(self) -> (r: (u64, u64))
        ensures
            r == prefix_divisor(self),
    {
        match self {
            SensorPrefix::Temp => (1000, 1),
            SensorPrefix::In => (1000, 1),
            SensorPrefix::Curr => (1000, 1),
            SensorPrefix::Power => (1_000_000, 1),
            SensorPrefix::Energy => (1_000_000, 1),
            SensorPrefix::Fan => (1, 1),
            SensorPrefix::Pwm => (255, 100),
            SensorPrefix::Freq => (1, 1),
            SensorPrefix::Humidity => (1000, 1),
            SensorPrefix::Intrusion => (1, 1),
        }
    }

    pub fn generic_name(self) -> (r: &'static str)
        ensures
            r@ == prefix_generic_name(self),
    {
        match self {
            SensorPrefix::Temp => "Temperature",
            SensorPrefix::In => "Voltage",
            SensorPrefix::Curr => "Current",
            SensorPrefix::Power => "Power",
            SensorPrefix::Energy => "Energy",
            SensorPrefix::Fan => "Fan",
            SensorPrefix::Pwm => "PWM",
            SensorPrefix::Freq => "Frequency",
            SensorPrefix::Humidity => "Humidity",
            SensorPrefix::Intrusion => "Intrusion",
        }
    }
}

/// The base of a reading attribute and whether it is an average: the part
/// before `_input` or `_average`, or a whole duty-cycle attribute.
pub open spec fn attribute_base(filename: Seq<char>) -> Option<(Seq<char>, bool)> {
    match strip_suffix(filename, "_input"@) {
        Some(b) => Some((b, false)),
        None => match strip_suffix(filename, "_average"@) {
            Some(b) => Some((b, true)),
            None => if pwm_attribute(filename) {
                Some((filename, false))
            } else {
                None
            },
        },
    }
}

/// Whether a file name is a reading of a known family.
pub open spec fn is_sensor_attribute(filename: Seq<char>) -> bool {
    attribute_base(filename) matches Some((b, _)) && prefix_of(alpha_prefix(b)) is Some
}

/// A reading attribute of an hwmon chip.
#[derive(Debug)]
pub struct SensorSpec {
    /// The attribute name without its `_input`/`_average` suffix.
    pub base: String,
    /// The attribute file name.
    pub metric_id: String,
    pub prefix: SensorPrefix,
    pub kind: SensorKind,
    pub unit: Unit,
    pub is_average: bool,
    pub channel: Option<u32>,
}

impl SensorSpec {
    /// The family recorded in `prefix` is the one the base names.
    pub open spec fn wf(&self) -> bool {
        prefix_of(alpha_prefix(self.base@)) == Some(self.prefix)
    }

    /// Recognizes a reading attribute by its file name.
    pub fn from_filename(filename: &str) -> (r: Option<SensorSpec>)
        ensures
            r is Some <==> is_sensor_attribute(filename@),
            r matches Some(s) ==> {
                &&& s.wf()
                &&& attribute_base(filename@) == Some((s.base@, s.is_average))
                &&& s.metric_id@ == filename@
                &&& s.kind == prefix_kind(s.prefix)
                &&& s.unit == prefix_unit(s.prefix)
                &&& s.channel == channel_of(s.base@)
            },
    {
        let f = chars_of(filename);
        let (base, is_average) = match strip_suffix_str(&f, "_input") {
            Some(b) => (b, false),
            None => match strip_suffix_str(&f, "_average") {
                Some(b) => (b, true),
                None => if is_pwm_attribute(&f) {
                    (slice_chars(&f, 0, f.len()), false)
                } else {
                    return None;
                },
            },
        };
        assert(f@.subrange(0, f@.len() as int) =~= f@);
        let k = alpha_run(&base);
        let head = slice_chars(&base, 0, k);
        let prefix = match SensorPrefix::from_prefix(&head) {
            Some(p) => p,
            None => return None,
        };
        let channel = channel_number(&base);
        Some(SensorSpec {
            base: string_of(&base),
            metric_id: string_of(&f),
            prefix,
            kind: prefix.kind(),
            unit: prefix.unit(),
            is_average,
            channel,
        })
    }

    /// The divisor from the raw sysfs value to the unit, as numerator and
    /// denominator.
    pub fn divisor(&self) -> (r: (u64, u64))
        ensures
            r == prefix_divisor(self.prefix),
    {
        self.prefix.divisor()
    }
}

/// The kernel's hwmon interface reports temperatures in millidegrees,
/// voltages in millivolts, currents in milliamperes and humidity in
/// milli-percent, power in microwatts and energy in microjoules, fan speeds
/// in RPM and frequencies in hertz directly, and PWM as a duty cycle of
/// 0..=255.  So a raw value is divided by 1000 to reach degrees Celsius,
/// volts, amperes or percent humidity, by 1000000 to reach watts or joules,
/// by nothing for RPM, hertz and intrusion flags, and by 255/100 to reach a
/// duty-cycle percentage.
pub proof fn law_sysfs_scale_by_unit(p: SensorPrefix)
    ensures
        prefix_unit(p) == Unit::Celsius ==> prefix_divisor(p) == (1000u64, 1u64),
        prefix_unit(p) == Unit::Volt ==> prefix_divisor(p) == (1000u64, 1u64),
        prefix_unit(p) == Unit::Ampere ==> prefix_divisor(p) == (1000u64, 1u64),
        prefix_kind(p) == SensorKind::Humidity ==> prefix_divisor(p) == (1000u64, 1u64),
        prefix_unit(p) == Unit::Watt ==> prefix_divisor(p) == (1000000u64, 1u64),
        prefix_unit(p) == Unit::Joule ==> prefix_divisor(p) == (1000000u64, 1u64),
        prefix_unit(p) == Unit::Rpm ==> prefix_divisor(p) == (1u64, 1u64),
        prefix_unit(p) == Unit::Hertz ==> prefix_divisor(p) == (1u64, 1u64),
        prefix_unit(p) == Unit::Boolean ==> prefix_divisor(p) == (1u64, 1u64),
        prefix_unit(p) == Unit::Percent && prefix_kind(p) == SensorKind::Fan ==> prefix_divisor(p)
            == (255u64, 100u64),
{
}

/// A label with ` average` appended for averaged attributes.
pub open spec fn averaged(label: Seq<char>, is_average: bool) -> Seq<char> {
    if is_average {
        label + " average"@
    } else {
        label
    }
}

/// The label of a reading and how it was found: the kernel's own label file
/// first, then the lm-sensors configuration, then a known driver's naming,
/// and last the family name with the channel number.
pub open spec fn resolved_label(
    kernel_label: Option<Seq<char>>,
    spec: SensorSpec,
    override_label: Option<Seq<char>>,
    profile: Option<DriverProfile>,
) -> (Seq<char>, Identification) {
    match kernel_label {
        Some(l) => (averaged(l, spec.is_average), Identification::KernelLabel),
        None => match override_label {
            Some(l) => (averaged(l, spec.is_average), Identification::LibSensorsConfig),
            None => match default_label_of(profile, spec.kind, spec.channel, spec.is_average) {
                Some(l) => (l, Identification::KnownDriverMapping),
                None => (
                    averaged(
                        prefix_generic_name(spec.prefix) + " "@ + after_alpha(spec.base@),
                        spec.is_average,
                    ),
                    Identification::Unidentified,
                ),
            },
        },
    }
}

fn append_average(v: &mut Vec<char>, is_average: bool)
    ensures
        final(v)@ == averaged(old(v)@, is_average),
{
    if is_average {
        append_str(v, " average");
    }
}

/// Labels a reading. `kernel_label` is the trimmed content of the
/// attribute's `_label` file, `override_label` the lm-sensors feature label.
pub fn resolve_label(
    kernel_label: Option<&str>,
    spec: &SensorSpec,
    override_label: Option<&str>,
    profile: Option<DriverProfile>,
) -> (r: (String, Identification))
    requires
        spec.wf(),
    ensures
        (r.0@, r.1) == resolved_label(
            match kernel_label {
                Some(l) => Some(l@),
                None => None,
            },
            *spec,
            match override_label {
                Some(l) => Some(l@),
                None => None,
            },
            profile,
        ),
{
    if let Some(l) = kernel_label {
        let mut v = chars_of(l);
        append_average(&mut v, spec.is_average);
        return (string_of(&v), Identification::KernelLabel);
    }
    if let Some(l) = override_label {
        let mut v = chars_of(l);
        append_average(&mut v, spec.is_average);
        return (string_of(&v), Identification::LibSensorsConfig);
    }
    if let Some(found) = default_sensor_label(profile, spec.kind, spec.channel, spec.is_average) {
        return found;
    }
    let b = chars_of(spec.base.as_str());
    let k = alpha_run(&b);
    let number = slice_chars(&b, k, b.len());
    let mut v = chars_of(spec.prefix.generic_name());
    append_str(&mut v, " ");
    append_chars(&mut v, &number);
    append_average(&mut v, spec.is_average);
    (string_of(&v), Identification::Unidentified)
}

/// Whether a raw threshold reading is a real limit: present and non-zero
/// (firmware leaves unconfigured limits at zero).
pub open spec fn limit_configured(t: Option<i64>) -> bool {
    t matches Some(v) && v != 0
}

/// The status of a reading from its fault and alarm flags, and whether an
/// alarm was set on a numeric channel whose minimum, maximum and critical
/// limits (raw sysfs integers) are all missing or zero. Such an alarm is a
/// firmware default and leaves the reading OK, with a note; a boolean
/// channel such as chassis intrusion needs no limits.
pub open spec fn status_of(
    kind: SensorKind,
    raw_fault: bool,
    raw_alarm: bool,
    thresholds: Seq<Option<i64>>,
) -> (SensorStatus, bool) {
    if raw_fault {
        (SensorStatus::Fault, false)
    } else if !raw_alarm {
        (SensorStatus::Okay, false)
    } else if kind == SensorKind::Boolean {
        (SensorStatus::Alarm, false)
    } else if limit_configured(thresholds[0]) || limit_configured(thresholds[1])
        || limit_configured(thresholds[2]) {
        (SensorStatus::Alarm, false)
    } else {
        (SensorStatus::Okay, true)
    }
}

fn configured(t: Option<i64>) -> (r: bool)
    ensures
        r == limit_configured(t),
{
    match t {
        Some(v) => v != 0,
        None => false,
    }
}

/// Judges a reading's fault and alarm flags against its limits.
pub fn classify_status(
    kind: SensorKind,
    raw_fault: bool,
    raw_alarm: bool,
    thresholds: [Option<i64>; 3],
) -> (r: (SensorStatus, bool))
    ensures
        r == status_of(kind, raw_fault, raw_alarm, thresholds@),
{
    if raw_fault {
        return (SensorStatus::Fault, false);
    }
    if !raw_alarm {
        return (SensorStatus::Okay, false);
    }
    if kind == SensorKind::Boolean {
        return (SensorStatus::Alarm, false);
    }
    if configured(thresholds[0]) || configured(thresholds[1]) || configured(thresholds[2]) {
        (SensorStatus::Alarm, false)
    } else {
        (SensorStatus::Okay, true)
    }
}

/// Whether an lm-sensors attribute carries a reading.
pub open spec fn is_reading_attribute(attribute: Seq<char>) -> bool {
    strip_suffix(attribute, "_input"@) is Some || strip_suffix(attribute, "_average"@) is Some
}

/// Whether an lm-sensors attribute carries a reading.
pub fn reading_attribute(attribute: &str) -> (r: bool)
    ensures
        r == is_reading_attribute(attribute@),
{
    let a = chars_of(attribute);
    strip_suffix_str(&a, "_input").is_some() || strip_suffix_str(&a, "_average").is_some()
}

/// Which chip an lm-sensors chip name (`amdgpu-pci-0300`) stands for.
#[derive(Debug, Clone)]
pub struct LibSensorsChipIdentity {
    /// The driver prefix: the name up to its first `-`.
    pub prefix: String,
    /// The lowercased bus token after `-pci-`, for PCI chips.
    pub pci_token: Option<String>,
}

/// The driver prefix of a chip name.
pub open spec fn chip_prefix_of(name: Seq<char>) -> Seq<char> {
    split(name, '-')[0]
}

/// The lowercased bus token of a chip name, after its first `-pci-`.
pub open spec fn chip_pci_token_of(name: Seq<char>) -> Option<Seq<char>> {
    match index_of_seq(name, "-pci-"@) {
        Some(i) => Some(lower_seq(name.skip(i + 5))),
        None => None,
    }
}

impl LibSensorsChipIdentity {
    /// Reads the identity out of an lm-sensors chip name.
    pub fn from_chip_name(name: &str) -> (r: LibSensorsChipIdentity)
        ensures
            r.prefix@ == chip_prefix_of(name@),
            opt_view(r.pci_token) == chip_pci_token_of(name@),
    {
        let n = chars_of(name);
        let parts = split_chars(&n, '-');
        proof {
            lemma_split_nonempty(n@, '-');
        }
        assert(views(parts@)[0] == parts@[0]@);
        let prefix = string_of(&parts[0]);
        let pattern = chars_of("-pci-");
        proof {
            reveal_strlit("-pci-");
        }
        assert(n@.skip(0) =~= n@);
        let pci_token = match find_seq_from(&n, 0, &pattern) {
            Some(i) => {
                let rest = slice_chars(&n, i + 5, n.len());
                assert(rest@ =~= n@.skip(i + 5));
                Some(string_of(&to_lower(&rest)))
            },
            None => None,
        };
        LibSensorsChipIdentity { prefix, pci_token }
    }
}

/// The identities of the chips as plain values.
pub open spec fn chip_views(chips: Seq<LibSensorsChipIdentity>) -> Seq<(Seq<char>, Option<Seq<char>>)> {
    chips.map_values(|c: LibSensorsChipIdentity| (c.prefix@, opt_view(c.pci_token)))
}

/// The indices of the chips whose prefix is the hwmon name, in order.
pub open spec fn chip_candidates(chips: Seq<(Seq<char>, Option<Seq<char>>)>, name: Seq<char>) -> Seq<int>
    decreases chips.len(),
{
    if chips.len() == 0 {
        seq![]
    } else {
        let rest = chip_candidates(chips.drop_last(), name);
        if chips.last().0 == name {
            rest.push(chips.len() - 1)
        } else {
            rest
        }
    }
}

/// The first candidate whose bus token is `token`.
pub open spec fn first_with_token(
    chips: Seq<(Seq<char>, Option<Seq<char>>)>,
    candidates: Seq<int>,
    token: Seq<char>,
) -> Option<int>
    decreases candidates.len(),
{
    if candidates.len() == 0 {
        None
    } else if chips[candidates[0]].1 == Some(token) {
        Some(candidates[0])
    } else {
        first_with_token(chips, candidates.drop_first(), token)
    }
}

/// The lm-sensors chip that describes an hwmon chip: the only chip with its
/// driver name, or else the one on the same PCI bus and device.
pub open spec fn selected_chip(
    chips: Seq<(Seq<char>, Option<Seq<char>>)>,
    hwmon_name: Seq<char>,
    device_path: Seq<char>,
) -> Option<int> {
    let candidates = chip_candidates(chips, hwmon_name);
    if candidates.len() == 1 {
        Some(candidates[0])
    } else {
        match pci_address_in(device_path) {
            Some(a) => match pci_token_of(a) {
                Some(t) => first_with_token(chips, candidates, t),
                None => None,
            },
            None => None,
        }
    }
}

proof fn lemma_candidates_bounded(chips: Seq<(Seq<char>, Option<Seq<char>>)>, name: Seq<char>)
    ensures
        forall|k: int| 0 <= k < chip_candidates(chips, name).len() ==> 0 <= #[trigger] chip_candidates(chips, name)[k] < chips.len(),
    decreases chips.len(),
{
    if chips.len() > 0 {
        lemma_candidates_bounded(chips.drop_last(), name);
        let rest = chip_candidates(chips.drop_last(), name);
        if chips.last().0 == name {
            assert forall|k: int| 0 <= k < rest.push(chips.len() - 1).len() implies 0 <= #[trigger] rest.push(chips.len() - 1)[k] < chips.len() by {
                if k < rest.len() {
                    assert(rest.push(chips.len() - 1)[k] == rest[k]);
                }
            }
        }
    }
}

/// Picks the lm-sensors chip for an hwmon chip, by index.
pub fn select_libsensors_chip(
    chips: &[LibSensorsChipIdentity],
    hwmon_name: &str,
    device_path: &str,
) -> (r: Option<usize>)
    ensures
        match r {
            Some(i) => selected_chip(chip_views(chips@), hwmon_name@, device_path@) == Some(i as int),
            None => selected_chip(chip_views(chips@), hwmon_name@, device_path@) is None,
        },
{
    let ghost cv = chip_views(chips@);
    let name = chars_of(hwmon_name);
    let mut candidates: Vec<usize> = Vec::new();
    let mut i: usize = 0;
    while i < chips.len()
        invariant
            i <= chips.len(),
            cv == chip_views(chips@),
            name@ == hwmon_name@,
            candidates@.map_values(|k: usize| k as int) == chip_candidates(cv.take(i as int), name@),
        decreases chips.len() - i,
    {
        let p = chars_of(chips[i].prefix.as_str());
        assert(cv.take(i + 1).drop_last() =~= cv.take(i as int));
        assert(cv.take(i + 1).last() == cv[i as int]);
        if chars_eq(&p, &name) {
            candidates.push(i);
            assert(candidates@.map_values(|k: usize| k as int) =~= chip_candidates(cv.take(i as int), name@).push(i as int));
        }
        i += 1;
    }
    assert(cv.take(chips.len() as int) =~= cv);
    let ghost cs = chip_candidates(cv, hwmon_name@);
    proof {
        lemma_candidates_bounded(cv, hwmon_name@);
    }
    assert(candidates@.len() == cs.len());
    if candidates.len() == 1 {
        assert(cs[0] == candidates@[0] as int);
        return Some(candidates[0]);
    }
    let address = match pci_address_from_path(device_path) {
        Some(a) => a,
        None => return None,
    };
    let token = match pci_token(address.as_str()) {
        Some(t) => t,
        None => return None,
    };
    let tc = chars_of(token.as_str());
    let mut j: usize = 0;
    assert(cs.skip(0) =~= cs);
    while j < candidates.len()
        invariant
            j <= candidates.len(),
            cv == chip_views(chips@),
            candidates@.len() == cs.len(),
            forall|k: int| 0 <= k < cs.len() ==> cs[k] == #[trigger] candidates@[k] as int,
            forall|k: int| 0 <= k < cs.len() ==> 0 <= #[trigger] cs[k] < cv.len(),
            cv.len() == chips@.len(),
            cs == chip_candidates(cv, hwmon_name@),
            cs.len() != 1,
            pci_address_in(device_path@) == Some(address@),
            pci_token_of(address@) == Some(tc@),
            first_with_token(cv, cs, tc@) == first_with_token(cv, cs.skip(j as int), tc@),
        decreases candidates.len() - j,
    {
        let c = candidates[j];
        assert(cs.skip(j as int)[0] == cs[j as int]);
        assert(cs.skip(j as int).drop_first() =~= cs.skip(j + 1));
        assert(cv[c as int] == (chips@[c as int].prefix@, opt_view(chips@[c as int].pci_token)));
        match &chips[c].pci_token {
            Some(t) => {
                let tv = chars_of(t.as_str());
                if chars_eq(&tv, &tc) {
                    assert(cv[c as int].1 == Some(tc@));
                    assert(first_with_token(cv, cs.skip(j as int), tc@) == Some(c as int));
                    return Some(c);
                }
            },
            None => {},
        }
        j += 1;
    }
    assert(cs.skip(j as int).len() == 0);
    None
}

} // verus!
