//! Storage health through the `smartctl` and `nvme` helpers: which devices
//! are asked, with which arguments, how helper output is judged, and how
//! NVMe health fields become properties.
use vstd::prelude::*;
use crate::collect::util::{
    is_nvme_controller, is_nvme_controller_device_id, is_nvme_controller_id, is_nvme_controller_name,
    is_virtual_block_device_name, is_virtual_block_name,
};
use crate::model::{DeviceClass, StorageHealth, StorageHealthAvailability, StorageHealthStatus};
use crate::text::{
    append_chars, append_str, chars_of, contains_seq, contains_str, lines, lines_of, lower_seq, opt_view,
    parse_unsigned, parse_unsigned_chars, slice_chars, string_of, strip_prefix, strip_prefix_str, to_lower,
    trim, trim_chars, trim_end_char, trim_end_char_chars, views,
};

verus! {

/// The meaning of each NVMe critical-warning bit that is reported.
pub open spec fn warning_label(bit: int) -> Seq<char> {
    if bit == 0 {
        "Available spare below threshold"@
    } else if bit == 1 {
        "Temperature threshold exceeded"@
    } else if bit == 2 {
        "Reliability degraded"@
    } else if bit == 3 {
        "Media placed in read-only mode"@
    } else if bit == 4 {
        "Volatile memory backup failed"@
    } else {
        "Persistent memory region is read-only"@
    }
}

fn warning_label_str(bit: u64) -> (r: &'static str)
    requires
        bit < 6,
    ensures
        r@ == warning_label(bit as int),
{
    if bit == 0 {
        "Available spare below threshold"
    } else if bit == 1 {
        "Temperature threshold exceeded"
    } else if bit == 2 {
        "Reliability degraded"
    } else if bit == 3 {
        "Media placed in read-only mode"
    } else if bit == 4 {
        "Volatile memory backup failed"
    } else {
        "Persistent memory region is read-only"
    }
}

/// Whether bit `bit` of `bits` is set.
pub open spec fn bit_set(bits: u64, bit: u64) -> bool {
    bits & (1u64 << bit) != 0u64
}

/// The labels of the set bits among the first `n`, lowest bit first.
pub open spec fn warning_details(bits: u64, n: nat) -> Seq<Seq<char>>
    decreases n,
{
    if n == 0 {
        seq![]
    } else {
        let rest = warning_details(bits, (n - 1) as nat);
        if bit_set(bits, (n - 1) as u64) {
            rest.push(warning_label(n - 1))
        } else {
            rest
        }
    }
}

/// The views of a list of strings.
pub open spec fn string_views(v: Seq<String>) -> Seq<Seq<char>> {
    v.map_values(|s: String| s@)
}

/// Explains the set bits of an NVMe critical-warning byte (bits 0 to 5).
pub fn critical_warning_details(bits: u64) -> (r: Vec<String>)
    ensures
        string_views(r@) == warning_details(bits, 6),
{
    let mut details: Vec<String> = Vec::new();
    let mut bit: u64 = 0;
    while bit < 6
        invariant
            bit <= 6,
            string_views(details@) == warning_details(bits, bit as nat),
        decreases 6 - bit,
    {
        if bits & (1u64 << bit) != 0 {
            let label = warning_label_str(bit);
            details.push(label.to_string());
            assert(string_views(details@) =~= warning_details(bits, bit as nat).push(
                warning_label(bit as int),
            ));
        }
        bit += 1;
    }
    details
}

/// Whether helper output (already lowercased) says access was refused.
pub open spec fn says_permission_denied(text: Seq<char>) -> bool {
    contains_seq(text, "permission denied"@) || contains_seq(text, "operation not permitted"@)
        || contains_seq(text, "not authorized"@) || contains_seq(text, "authentication failed"@)
        || contains_seq(text, "authorization failed"@)
}

/// Whether helper output (already lowercased) says the drive was left asleep.
pub open spec fn says_drive_asleep(text: Seq<char>) -> bool {
    (contains_seq(text, "standby"@) || contains_seq(text, "sleep"@)) && (contains_seq(
        text,
        "exit"@,
    ) || contains_seq(text, "skip"@) || contains_seq(text, "low-power"@))
}

/// Whether helper output (already lowercased) says health is not supported.
pub open spec fn says_unsupported(text: Seq<char>) -> bool {
    contains_seq(text, "unsupported"@) || contains_seq(text, "not supported"@) || contains_seq(
        text,
        "smart support is: unavailable"@,
    )
}

pub fn is_permission_denied(text: &[char]) -> (r: bool)
    ensures
        r == says_permission_denied(text@),
{
    contains_str(text, "permission denied") || contains_str(text, "operation not permitted")
        || contains_str(text, "not authorized") || contains_str(text, "authentication failed")
        || contains_str(text, "authorization failed")
}

pub fn is_drive_asleep(text: &[char]) -> (r: bool)
    ensures
        r == says_drive_asleep(text@),
{
    (contains_str(text, "standby") || contains_str(text, "sleep")) && (contains_str(text, "exit")
        || contains_str(text, "skip") || contains_str(text, "low-power"))
}

pub fn is_unsupported(text: &[char]) -> (r: bool)
    ensures
        r == says_unsupported(text@),
{
    contains_str(text, "unsupported") || contains_str(text, "not supported") || contains_str(
        text,
        "smart support is: unavailable",
    )
}

/// The first line of `ls` that is not blank, trimmed.
pub open spec fn first_nonblank(ls: Seq<Seq<char>>) -> Option<Seq<char>>
    decreases ls.len(),
{
    if ls.len() == 0 {
        None
    } else if trim(ls[0]).len() > 0 {
        Some(trim(ls[0]))
    } else {
        first_nonblank(ls.drop_first())
    }
}

/// The message for a helper run that produced nothing usable: the first
/// non-blank line of its output without trailing full stops, or
/// `unknown error`.
pub open spec fn helper_error_text(helper: Seq<char>, path: Seq<char>, text: Seq<char>) -> Seq<char> {
    let detail = match first_nonblank(lines(text)) {
        Some(l) => l,
        None => "unknown error"@,
    };
    helper + " could not read "@ + path + ": "@ + trim_end_char(detail, '.') + "."@
}

/// Describes a failed helper run from its output.
pub fn helper_error(helper: &str, path: &str, text: &str) -> (r: String)
    ensures
        r@ == helper_error_text(helper@, path@, text@),
{
    let t = chars_of(text);
    let ls = lines_of(&t);
    let ghost lv = lines(t@);
    let mut detail: Vec<char> = chars_of("unknown error");
    let mut i: usize = 0;
    let mut found = false;
    assert(lv.skip(0) =~= lv);
    while i < ls.len() && !found
        invariant
            i <= ls.len(),
            views(ls@) == lv,
            !found ==> first_nonblank(lv) == first_nonblank(lv.skip(i as int)) && detail@
                == "unknown error"@,
            found ==> first_nonblank(lv) == Some(detail@),
        decreases (ls.len() - i) * 2 + (if found { 0int } else { 1int }),
    {
        let line = trim_chars(&ls[i]);
        assert(lv.skip(i as int)[0] == ls@[i as int]@);
        if line.len() > 0 {
            detail = line;
            found = true;
        } else {
            assert(lv.skip(i as int).drop_first() =~= lv.skip(i + 1));
            i += 1;
        }
    }
    proof {
        if !found {
            assert(lv.skip(i as int).len() == 0);
        }
    }
    let detail = trim_end_char_chars(&detail, '.');
    let mut v = chars_of(helper);
    append_str(&mut v, " could not read ");
    append_str(&mut v, path);
    append_str(&mut v, ": ");
    append_chars(&mut v, &detail);
    append_str(&mut v, ".");
    string_of(&v)
}

/// A string with its commas removed.
pub open spec fn without_commas(s: Seq<char>) -> Seq<char>
    decreases s.len(),
{
    if s.len() == 0 {
        seq![]
    } else {
        let r = without_commas(s.drop_last());
        if s.last() == ',' {
            r
        } else {
            r.push(s.last())
        }
    }
}

/// A helper's number written as text: trimmed, with thousands separators
/// dropped, in hexadecimal after `0x`/`0X` or else in decimal.
pub open spec fn helper_number(text: Seq<char>) -> Option<u64> {
    let compact = without_commas(trim(text));
    let hex = match strip_prefix(compact, "0x"@) {
        Some(h) => parse_unsigned(h, 16, u64::MAX as nat),
        None => match strip_prefix(compact, "0X"@) {
            Some(h) => parse_unsigned(h, 16, u64::MAX as nat),
            None => None,
        },
    };
    match hex {
        Some(n) => Some(n as u64),
        None => match parse_unsigned(compact, 10, u64::MAX as nat) {
            Some(n) => Some(n as u64),
            None => None,
        },
    }
}

/// Reads a number that a helper reported as text.
pub fn parse_helper_u64(text: &str) -> (r: Option<u64>)
    ensures
        r == helper_number(text@),
{
    let t = chars_of(text);
    let trimmed = trim_chars(&t);
    let mut compact: Vec<char> = Vec::new();
    let mut i: usize = 0;
    while i < trimmed.len()
        invariant
            i <= trimmed.len(),
            compact@ == without_commas(trimmed@.take(i as int)),
        decreases trimmed.len() - i,
    {
        assert(trimmed@.take(i + 1).drop_last() =~= trimmed@.take(i as int));
        if trimmed[i] != ',' {
            compact.push(trimmed[i]);
        }
        i += 1;
    }
    assert(trimmed@.take(trimmed.len() as int) =~= trimmed@);
    let hex = match strip_prefix_str(&compact, "0x") {
        Some(h) => parse_unsigned_chars(&h, 16, u64::MAX),
        None => match strip_prefix_str(&compact, "0X") {
            Some(h) => parse_unsigned_chars(&h, 16, u64::MAX),
            None => None,
        },
    };
    match hex {
        Some(n) => Some(n),
        None => parse_unsigned_chars(&compact, 10, u64::MAX),
    }
}

/// The NVMe verdict from the critical-warning byte: passed when it is zero,
/// a warning when any bit is set, unknown when it was not reported.
pub open spec fn nvme_status_of(critical_warning: Option<u64>) -> StorageHealthStatus {
    match critical_warning {
        Some(w) => if w == 0 {
            StorageHealthStatus::Passed
        } else {
            StorageHealthStatus::Warning
        },
        None => StorageHealthStatus::Unknown,
    }
}

pub fn nvme_health_status(critical_warning: Option<u64>) -> (r: StorageHealthStatus)
    ensures
        r == nvme_status_of(critical_warning),
{
    match critical_warning {
        Some(0) => StorageHealthStatus::Passed,
        Some(_) => StorageHealthStatus::Warning,
        None => StorageHealthStatus::Unknown,
    }
}

/// The number of `nvme smart-log` fields that become properties.
pub const NVME_FIELD_COUNT: usize = 15;

/// The `nvme smart-log` JSON key of each field.
pub open spec fn nvme_source(i: int) -> Seq<char> {
    if i == 0 {
        "avail_spare"@
    } else if i == 1 {
        "spare_thresh"@
    } else if i == 2 {
        "percent_used"@
    } else if i == 3 {
        "percentage_used"@
    } else if i == 4 {
        "data_units_read"@
    } else if i == 5 {
        "data_units_written"@
    } else if i == 6 {
        "host_read_commands"@
    } else if i == 7 {
        "host_write_commands"@
    } else if i == 8 {
        "power_cycles"@
    } else if i == 9 {
        "power_on_hours"@
    } else if i == 10 {
        "unsafe_shutdowns"@
    } else if i == 11 {
        "media_errors"@
    } else if i == 12 {
        "num_err_log_entries"@
    } else if i == 13 {
        "warning_temp_time"@
    } else {
        "critical_comp_time"@
    }
}

/// The property each field is stored as.
pub open spec fn nvme_target(i: int) -> Seq<char> {
    if i == 0 {
        "available_spare"@
    } else if i == 1 {
        "spare_threshold"@
    } else if i == 2 || i == 3 {
        "percentage_used"@
    } else if i == 4 {
        "data_units_read"@
    } else if i == 5 {
        "data_units_written"@
    } else if i == 6 {
        "host_read_commands"@
    } else if i == 7 {
        "host_write_commands"@
    } else if i == 8 {
        "power_cycles"@
    } else if i == 9 {
        "power_on_hours"@
    } else if i == 10 {
        "unsafe_shutdowns"@
    } else if i == 11 {
        "media_errors"@
    } else if i == 12 {
        "error_log_entries"@
    } else if i == 13 {
        "warning_temperature_time"@
    } else {
        "critical_temperature_time"@
    }
}

/// The JSON key and property name of field `i`.
pub fn nvme_field(i: usize) -> (r: (&'static str, &'static str))
    requires
        i < NVME_FIELD_COUNT,
    ensures
        r.0@ == nvme_source(i as int),
        r.1@ == nvme_target(i as int),
{
    if i == 0 {
        ("avail_spare", "available_spare")
    } else if i == 1 {
        ("spare_thresh", "spare_threshold")
    } else if i == 2 {
        ("percent_used", "percentage_used")
    } else if i == 3 {
        ("percentage_used", "percentage_used")
    } else if i == 4 {
        ("data_units_read", "data_units_read")
    } else if i == 5 {
        ("data_units_written", "data_units_written")
    } else if i == 6 {
        ("host_read_commands", "host_read_commands")
    } else if i == 7 {
        ("host_write_commands", "host_write_commands")
    } else if i == 8 {
        ("power_cycles", "power_cycles")
    } else if i == 9 {
        ("power_on_hours", "power_on_hours")
    } else if i == 10 {
        ("unsafe_shutdowns", "unsafe_shutdowns")
    } else if i == 11 {
        ("media_errors", "media_errors")
    } else if i == 12 {
        ("num_err_log_entries", "error_log_entries")
    } else if i == 13 {
        ("warning_temp_time", "warning_temperature_time")
    } else {
        ("critical_comp_time", "critical_temperature_time")
    }
}

/// The properties from the first `n` fields, given each field's reported
/// value in table order: every reported field is kept, except that the
/// legacy `percentage_used` key yields to `percent_used`.
pub open spec fn nvme_properties(values: Seq<Option<u64>>, n: nat) -> Seq<(Seq<char>, u64)>
    decreases n,
{
    if n == 0 {
        seq![]
    } else {
        let rest = nvme_properties(values, (n - 1) as nat);
        let i = n - 1;
        match values[i] {
            Some(v) => if i == 3 && values[2] is Some {
                rest
            } else {
                rest.push((nvme_target(i), v))
            },
            None => rest,
        }
    }
}

/// The properties of a list of named values.
pub open spec fn property_views(v: Seq<(String, u64)>) -> Seq<(Seq<char>, u64)> {
    v.map_values(|p: (String, u64)| (p.0@, p.1))
}

/// Turns the reported `nvme smart-log` fields into properties;
/// `values[i]` is the value reported under `nvme_field(i).0`.
pub fn nvme_health_properties(values: &[Option<u64>]) -> (r: Vec<(String, u64)>)
    requires
        values@.len() == NVME_FIELD_COUNT,
    ensures
        property_views(r@) == nvme_properties(values@, NVME_FIELD_COUNT as nat),
{
    let mut out: Vec<(String, u64)> = Vec::new();
    let mut i: usize = 0;
    while i < NVME_FIELD_COUNT
        invariant
            i <= NVME_FIELD_COUNT,
            values@.len() == NVME_FIELD_COUNT,
            property_views(out@) == nvme_properties(values@, i as nat),
        decreases NVME_FIELD_COUNT - i,
    {
        match values[i] {
            Some(v) => {
                if !(i == 3 && values[2].is_some()) {
                    let (_, target) = nvme_field(i);
                    out.push((target.to_string(), v));
                    assert(property_views(out@) =~= nvme_properties(values@, i as nat).push(
                        (nvme_target(i as int), v),
                    ));
                }
            },
            None => {},
        }
        i += 1;
    }
    out
}

/// Why a helper gave no health data, with the message shown to users.
#[derive(Debug, Clone, PartialEq, Eq)]
pub enum HelperFailure {
    PermissionDenied(String),
    DriveAsleep(String),
    HelperMissing(String),
    Unsupported(String),
    Error(String),
}

/// The availability a failure reports and its message.
pub open spec fn failure_view(f: HelperFailure) -> (StorageHealthAvailability, Seq<char>) {
    match f {
        HelperFailure::PermissionDenied(m) => (StorageHealthAvailability::PermissionDenied, m@),
        HelperFailure::DriveAsleep(m) => (StorageHealthAvailability::DriveAsleep, m@),
        HelperFailure::HelperMissing(m) => (StorageHealthAvailability::HelperMissing, m@),
        HelperFailure::Unsupported(m) => (StorageHealthAvailability::Unsupported, m@),
        HelperFailure::Error(m) => (StorageHealthAvailability::Error, m@),
    }
}

impl HelperFailure {
    /// The health recorded for a failed attempt: status unknown, no success,
    /// no sources.
    pub fn into_health(self, attempted_at: u128) -> (r: StorageHealth)
        ensures
            r.status == StorageHealthStatus::Unknown,
            r.availability == failure_view(self).0,
            r.last_attempt_unix_ms == Some(attempted_at),
            r.last_success_unix_ms is None,
            r.message matches Some(m) && m@ == failure_view(self).1,
            r.sources@.len() == 0,
    {
        let (availability, message) = match self {
            HelperFailure::PermissionDenied(m) => (StorageHealthAvailability::PermissionDenied, m),
            HelperFailure::DriveAsleep(m) => (StorageHealthAvailability::DriveAsleep, m),
            HelperFailure::HelperMissing(m) => (StorageHealthAvailability::HelperMissing, m),
            HelperFailure::Unsupported(m) => (StorageHealthAvailability::Unsupported, m),
            HelperFailure::Error(m) => (StorageHealthAvailability::Error, m),
        };
        StorageHealth {
            status: StorageHealthStatus::Unknown,
            availability,
            last_attempt_unix_ms: Some(attempted_at),
            last_success_unix_ms: None,
            message: Some(message),
            sources: Vec::new(),
        }
    }
}

/// The health recorded for a successful read by `source`.
pub fn current_health(status: StorageHealthStatus, source: &str, attempted_at: u128) -> (r: StorageHealth)
    ensures
        r.status == status,
        r.availability == StorageHealthAvailability::Current,
        r.last_attempt_unix_ms == Some(attempted_at),
        r.last_success_unix_ms == Some(attempted_at),
        r.message is None,
        string_views(r.sources@) == seq![source@],
{
    let mut sources: Vec<String> = Vec::new();
    sources.push(source.to_string());
    assert(string_views(sources@) =~= seq![source@]);
    StorageHealth {
        status,
        availability: StorageHealthAvailability::Current,
        last_attempt_unix_ms: Some(attempted_at),
        last_success_unix_ms: Some(attempted_at),
        message: None,
        sources,
    }
}

/// The helper programs that read storage health.
#[derive(Debug, Clone, Copy, PartialEq, Eq, Structural)]
pub enum HealthHelper {
    Smartctl,
    NvmeCli,
}

/// Why a helper cannot be run at all: the program is missing, or an
/// administrator retry was asked for without `pkexec`.
pub open spec fn unavailable_helper(
    helper: HealthHelper,
    elevated: bool,
    helper_installed: bool,
    pkexec_installed: bool,
) -> Option<(StorageHealthAvailability, Seq<char>)> {
    if !helper_installed {
        Some(
            (
                StorageHealthAvailability::HelperMissing,
                match helper {
                    HealthHelper::Smartctl => "smartctl was not found."@,
                    HealthHelper::NvmeCli => "nvme-cli was not found."@,
                },
            ),
        )
    } else if elevated && !pkexec_installed {
        Some(
            (
                StorageHealthAvailability::HelperMissing,
                "pkexec was not found, so an administrator retry is unavailable."@,
            ),
        )
    } else {
        None
    }
}

/// Checks that a helper can be run.
pub fn helper_unavailable(
    helper: HealthHelper,
    elevated: bool,
    helper_installed: bool,
    pkexec_installed: bool,
) -> (r: Option<HelperFailure>)
    ensures
        match r {
            Some(f) => unavailable_helper(helper, elevated, helper_installed, pkexec_installed)
                == Some(failure_view(f)),
            None => unavailable_helper(helper, elevated, helper_installed, pkexec_installed) is None,
        },
{
    if !helper_installed {
        let m = match helper {
            HealthHelper::Smartctl => "smartctl was not found.",
            HealthHelper::NvmeCli => "nvme-cli was not found.",
        };
        return Some(HelperFailure::HelperMissing(m.to_string()));
    }
    if elevated && !pkexec_installed {
        return Some(
            HelperFailure::HelperMissing(
                "pkexec was not found, so an administrator retry is unavailable.".to_string(),
            ),
        );
    }
    None
}

/// The `smartctl` arguments for a device: a rotating disk in standby is
/// not woken.
pub open spec fn smartctl_args_of(rotational: bool, device_path: Seq<char>) -> Seq<Seq<char>> {
    if rotational {
        seq!["--nocheck=standby"@, "--all"@, "--json"@, device_path]
    } else {
        seq!["--all"@, "--json"@, device_path]
    }
}

pub fn smartctl_args(rotational: bool, device_path: &str) -> (r: Vec<String>)
    ensures
        string_views(r@) == smartctl_args_of(rotational, device_path@),
{
    let mut args: Vec<String> = Vec::new();
    if rotational {
        args.push("--nocheck=standby".to_string());
    }
    args.push("--all".to_string());
    args.push("--json".to_string());
    args.push(device_path.to_string());
    assert(string_views(args@) =~= smartctl_args_of(rotational, device_path@));
    args
}

/// What `smartctl` output says before its JSON is read: refused access,
/// a sleeping rotating disk that was left alone, or no SMART support.
pub open spec fn smartctl_failure_of(text: Seq<char>, device_path: Seq<char>, rotational: bool) -> Option<
    (StorageHealthAvailability, Seq<char>),
> {
    let t = lower_seq(text);
    if says_permission_denied(t) {
        Some(
            (
                StorageHealthAvailability::PermissionDenied,
                "smartctl could not open "@ + device_path + " because permission was denied."@,
            ),
        )
    } else if rotational && says_drive_asleep(t) {
        Some(
            (
                StorageHealthAvailability::DriveAsleep,
                device_path + " is asleep; HWall did not wake it."@,
            ),
        )
    } else if says_unsupported(t) {
        Some(
            (
                StorageHealthAvailability::Unsupported,
                "SMART health is not supported for "@ + device_path + "."@,
            ),
        )
    } else {
        None
    }
}

fn message(a: &str, b: &str, c: &str) -> (r: String)
    ensures
        r@ == a@ + b@ + c@,
{
    let mut v = chars_of(a);
    append_str(&mut v, b);
    append_str(&mut v, c);
    string_of(&v)
}

/// Judges `smartctl` output.
pub fn smartctl_failure(text: &str, device_path: &str, rotational: bool) -> (r: Option<HelperFailure>)
    ensures
        match r {
            Some(f) => smartctl_failure_of(text@, device_path@, rotational) == Some(failure_view(f)),
            None => smartctl_failure_of(text@, device_path@, rotational) is None,
        },
{
    let t = to_lower(&chars_of(text));
    if is_permission_denied(&t) {
        return Some(
            HelperFailure::PermissionDenied(
                message("smartctl could not open ", device_path, " because permission was denied."),
            ),
        );
    }
    if rotational && is_drive_asleep(&t) {
        let mut v = chars_of(device_path);
        append_str(&mut v, " is asleep; HWall did not wake it.");
        return Some(HelperFailure::DriveAsleep(string_of(&v)));
    }
    if is_unsupported(&t) {
        return Some(
            HelperFailure::Unsupported(message("SMART health is not supported for ", device_path, ".")),
        );
    }
    None
}

/// What `nvme smart-log` output says: refused access, no support, or a
/// failed run described by its output.
pub open spec fn nvme_failure_of(text: Seq<char>, path: Seq<char>, succeeded: bool) -> Option<
    (StorageHealthAvailability, Seq<char>),
> {
    let t = lower_seq(text);
    if says_permission_denied(t) {
        Some(
            (
                StorageHealthAvailability::PermissionDenied,
                "nvme-cli could not open "@ + path + " because permission was denied."@,
            ),
        )
    } else if says_unsupported(t) {
        Some(
            (
                StorageHealthAvailability::Unsupported,
                "NVMe health is not supported for "@ + path + "."@,
            ),
        )
    } else if !succeeded {
        Some((StorageHealthAvailability::Error, helper_error_text("nvme"@, path, text)))
    } else {
        None
    }
}

/// Judges `nvme smart-log` output and exit status.
pub fn nvme_failure(text: &str, path: &str, succeeded: bool) -> (r: Option<HelperFailure>)
    ensures
        match r {
            Some(f) => nvme_failure_of(text@, path@, succeeded) == Some(failure_view(f)),
            None => nvme_failure_of(text@, path@, succeeded) is None,
        },
{
    let t = to_lower(&chars_of(text));
    if is_permission_denied(&t) {
        return Some(
            HelperFailure::PermissionDenied(
                message("nvme-cli could not open ", path, " because permission was denied."),
            ),
        );
    }
    if is_unsupported(&t) {
        return Some(HelperFailure::Unsupported(message("NVMe health is not supported for ", path, ".")));
    }
    if !succeeded {
        return Some(HelperFailure::Error(helper_error("nvme", path, text)));
    }
    None
}

/// A device whose health is read, and how to reach it.
#[derive(Debug, Clone)]
pub struct StorageHealthTarget {
    pub id: String,
    pub name: String,
    pub model: Option<String>,
    pub driver: Option<String>,
    /// The node `smartctl` opens.
    pub device_path: String,
    /// The controller node `nvme` opens, for NVMe controllers.
    pub nvme_path: Option<String>,
    /// Whether the disk may spin down (and must then not be woken).
    pub rotational: bool,
}

/// What the inventory knows of a device that decides whether and how its
/// health is read.
#[derive(Debug, Clone)]
pub struct StorageDeviceFacts {
    pub id: String,
    pub class: DeviceClass,
    pub name: String,
    pub model: Option<String>,
    pub driver: Option<String>,
    pub parent: Option<String>,
    pub bus_address: Option<String>,
    /// The `partition` property, when it is a boolean.
    pub partition: Option<bool>,
    /// The `controller_name` property, when it is a string.
    pub controller_name: Option<String>,
    /// The `rotational` property, when it is a boolean.
    pub rotational: Option<bool>,
}

/// The kernel name of a block device id (`block:sda` gives `sda`).
pub open spec fn block_name_of(f: StorageDeviceFacts) -> Option<Seq<char>> {
    strip_prefix(f.id@, "block:"@)
}

/// Whether a device's health is read: a whole, physical storage device that
/// is not a namespace shown under its NVMe controller.
pub open spec fn wants_health(f: StorageDeviceFacts) -> bool {
    &&& f.class == DeviceClass::Storage
    &&& f.partition != Some(true)
    &&& block_name_of(f) matches Some(n)
    &&& !is_virtual_block_name(n)
    &&& !(strip_prefix(n, "nvme"@) is Some && (f.parent matches Some(p)
        && is_nvme_controller_device_id(p@)))
}

/// The NVMe controller a device is read through: its `controller_name`
/// property when that names a controller, else its own name when it is one.
pub open spec fn health_controller_of(f: StorageDeviceFacts, name: Seq<char>) -> Option<Seq<char>> {
    match f.controller_name {
        Some(c) if is_nvme_controller(c@) => Some(c@),
        _ => if is_nvme_controller(name) {
            Some(name)
        } else {
            None
        },
    }
}

/// The node name a device is opened by: its controller, its bus address,
/// or its kernel name.
pub open spec fn health_path_name(f: StorageDeviceFacts, name: Seq<char>) -> Seq<char> {
    match health_controller_of(f, name) {
        Some(c) => c,
        None => match f.bus_address {
            Some(b) => b@,
            None => name,
        },
    }
}

/// Chooses whether and how to read a device's health.
pub fn target_from_device(f: &StorageDeviceFacts) -> (r: Option<StorageHealthTarget>)
    ensures
        r is Some <==> wants_health(*f),
        r matches Some(t) ==> {
            let n = block_name_of(*f)->0;
            &&& t.id@ == f.id@
            &&& t.name@ == f.name@
            &&& opt_view(t.model) == opt_view(f.model)
            &&& opt_view(t.driver) == opt_view(f.driver)
            &&& t.device_path@ == "/dev/"@ + health_path_name(*f, n)
            &&& opt_view(t.nvme_path) == match health_controller_of(*f, n) {
                Some(c) => Some("/dev/"@ + c),
                None => None,
            }
            &&& t.rotational == (health_controller_of(*f, n) is None && f.rotational != Some(
                false,
            ))
        },
{
    if f.class != DeviceClass::Storage {
        return None;
    }
    if let Some(true) = f.partition {
        return None;
    }
    let id = chars_of(f.id.as_str());
    let name = match strip_prefix_str(&id, "block:") {
        Some(n) => n,
        None => return None,
    };
    let name_s = string_of(&name);
    if is_virtual_block_device_name(name_s.as_str()) {
        return None;
    }
    if strip_prefix_str(&name, "nvme").is_some() {
        if let Some(p) = &f.parent {
            if is_nvme_controller_id(p.as_str()) {
                return None;
            }
        }
    }
    let controller: Option<Vec<char>> = match &f.controller_name {
        Some(c) if is_nvme_controller_name(c.as_str()) => Some(chars_of(c.as_str())),
        _ => if is_nvme_controller_name(name_s.as_str()) {
            Some(slice_chars(&name, 0, name.len()))
        } else {
            None
        },
    };
    assert(name@.subrange(0, name@.len() as int) =~= name@);
    let path_name: Vec<char> = match &controller {
        Some(c) => slice_chars(c, 0, c.len()),
        None => match &f.bus_address {
            Some(b) => chars_of(b.as_str()),
            None => slice_chars(&name, 0, name.len()),
        },
    };
    let mut device_path = chars_of("/dev/");
    append_chars(&mut device_path, &path_name);
    let nvme_path = match &controller {
        Some(c) => {
            let mut v = chars_of("/dev/");
            append_chars(&mut v, c);
            Some(string_of(&v))
        },
        None => None,
    };
    let rotational = match &controller {
        Some(_) => false,
        None => match f.rotational {
            Some(r) => r,
            None => true,
        },
    };
    Some(
        StorageHealthTarget {
            id: f.id.clone(),
            name: f.name.clone(),
            model: f.model.clone(),
            driver: f.driver.clone(),
            device_path: string_of(&device_path),
            nvme_path,
            rotational,
        },
    )
}

/// The target for an NVMe controller found under `/sys/class/nvme`.
pub fn nvme_controller_target(name: &str) -> (r: StorageHealthTarget)
    ensures
        r.id@ == "block:"@ + name@,
        r.name@ == "NVMe controller "@ + name@,
        r.model is None,
        opt_view(r.driver) == Some("nvme"@),
        r.device_path@ == "/dev/"@ + name@,
        opt_view(r.nvme_path) == Some("/dev/"@ + name@),
        !r.rotational,
{
    let mut id = chars_of("block:");
    append_str(&mut id, name);
    let mut label = chars_of("NVMe controller ");
    append_str(&mut label, name);
    let mut path = chars_of("/dev/");
    append_str(&mut path, name);
    StorageHealthTarget {
        id: string_of(&id),
        name: string_of(&label),
        model: None,
        driver: Some("nvme".to_string()),
        device_path: string_of(&path),
        nvme_path: Some(string_of(&path)),
        rotational: false,
    }
}

/// Whether a block device found under `/sys/class/block` is asked directly:
/// not an NVMe namespace (its controller is asked), not a partition, backed
/// by a device, and not virtual.
pub open spec fn is_block_health_candidate(name: Seq<char>, is_partition: bool, has_device: bool) -> bool {
    !(strip_prefix(name, "nvme"@) is Some || is_partition || !has_device || is_virtual_block_name(
        name,
    ))
}

pub fn block_health_candidate(name: &str, is_partition: bool, has_device: bool) -> (r: bool)
    ensures
        r == is_block_health_candidate(name@, is_partition, has_device),
{
    let n = chars_of(name);
    !(strip_prefix_str(&n, "nvme").is_some() || is_partition || !has_device
        || is_virtual_block_device_name(name))
}

/// The target for a block device found under `/sys/class/block`; a disk
/// whose `queue/rotational` cannot be read counts as rotating.
pub fn block_device_target(name: &str, rotational: Option<bool>) -> (r: StorageHealthTarget)
    ensures
        r.id@ == "block:"@ + name@,
        r.name@ == name@,
        r.model is None,
        r.driver is None,
        r.device_path@ == "/dev/"@ + name@,
        r.nvme_path is None,
        r.rotational == (rotational != Some(false)),
{
    let mut id = chars_of("block:");
    append_str(&mut id, name);
    let mut path = chars_of("/dev/");
    append_str(&mut path, name);
    StorageHealthTarget {
        id: string_of(&id),
        name: name.to_string(),
        model: None,
        driver: None,
        device_path: string_of(&path),
        nvme_path: None,
        rotational: match rotational {
            Some(r) => r,
            None => true,
        },
    }
}

// ---------------------------------------------------------------------------
// Helper JSON
// ---------------------------------------------------------------------------
/// A JSON value as the health readers use it: a number (its value when it
/// is an unsigned integer), a string, a boolean, or anything else.
#[derive(Debug, Clone, PartialEq, Eq)]
pub enum JsonScalar {
    Number(Option<u64>),
    Text(String),
    Bool(bool),
    Other,
}

/// A `JsonScalar` as a value.
pub enum JsonScalarView {
    Number(Option<u64>),
    Text(Seq<char>),
    Bool(bool),
    Other,
}

pub open spec fn scalar_view(v: JsonScalar) -> JsonScalarView {
    match v {
        JsonScalar::Number(n) => JsonScalarView::Number(n),
        JsonScalar::Text(t) => JsonScalarView::Text(t@),
        JsonScalar::Bool(b) => JsonScalarView::Bool(b),
        JsonScalar::Other => JsonScalarView::Other,
    }
}

pub open spec fn json_result_view(r: Result<Option<JsonScalar>, String>) -> Result<Option<JsonScalarView>, Seq<char>> {
    match r {
        Ok(Some(v)) => Ok(Some(scalar_view(v))),
        Ok(None) => Ok(None),
        Err(e) => Err(e@),
    }
}

/// What parsing `bytes` as JSON and looking up `pointer` in it yields: the
/// parser's error text when the bytes are not JSON, nothing when the pointer
/// names no value, else the value (JSON parsing and pointer resolution take
/// pages to state).
pub uninterp spec fn json_pointer_of(bytes: Seq<u8>, pointer: Seq<char>) -> Result<Option<JsonScalarView>, Seq<char>>;

/// `serde_json::from_slice::<Value>` then `Value::pointer`, with the value
/// converted; the error is the parser error's text.
#[verifier::external_body]
fn json_at(bytes: &[u8], pointer: &str) -> (r: Result<Option<JsonScalar>, String>)
    ensures
        json_result_view(r) == json_pointer_of(bytes@, pointer@),
{
    match serde_json::from_slice::<serde_json::Value>(bytes) {
        Err(error) => Err(error.to_string()),
        Ok(value) => Ok(value.pointer(pointer).map(|v| match v {
            serde_json::Value::Number(n) => JsonScalar::Number(n.as_u64()),
            serde_json::Value::String(t) => JsonScalar::Text(t.clone()),
            serde_json::Value::Bool(b) => JsonScalar::Bool(*b),
            _ => JsonScalar::Other,
        })),
    }
}

/// A health number: an unsigned JSON number, or a string read as a helper
/// number.
pub open spec fn health_number_of(v: Option<JsonScalarView>) -> Option<u64> {
    match v {
        Some(JsonScalarView::Number(n)) => n,
        Some(JsonScalarView::Text(t)) => helper_number(t),
        _ => None,
    }
}

pub fn health_number(v: &Option<JsonScalar>) -> (r: Option<u64>)
    ensures
        r == health_number_of(match v {
            Some(x) => Some(scalar_view(*x)),
            None => None,
        }),
{
    match v {
        Some(JsonScalar::Number(n)) => *n,
        Some(JsonScalar::Text(t)) => parse_helper_u64(t.as_str()),
        _ => None,
    }
}

/// The message for helper output that is not JSON.
pub open spec fn invalid_json_text(helper: Seq<char>, error: Seq<char>) -> Seq<char> {
    helper + " returned invalid JSON: "@ + error + "."@
}

fn invalid_json(helper: &str, error: &str) -> (r: HelperFailure)
    ensures
        r matches HelperFailure::Error(m) && m@ == invalid_json_text(helper@, error@),
{
    let mut v = chars_of(helper);
    append_str(&mut v, " returned invalid JSON: ");
    append_str(&mut v, error);
    append_str(&mut v, ".");
    HelperFailure::Error(string_of(&v))
}

/// The number at `pointer`, or the parse error.
pub open spec fn json_number_of(bytes: Seq<u8>, pointer: Seq<char>) -> Result<Option<u64>, Seq<char>> {
    match json_pointer_of(bytes, pointer) {
        Ok(v) => Ok(health_number_of(v)),
        Err(e) => Err(e),
    }
}

/// The NVMe fields read from `nvme smart-log` JSON, in field order, up to
/// field `n`, or the first parse error.
pub open spec fn nvme_fields_of(bytes: Seq<u8>, n: nat) -> Result<Seq<Option<u64>>, Seq<char>>
    decreases n,
{
    if n == 0 {
        Ok(seq![])
    } else {
        match nvme_fields_of(bytes, (n - 1) as nat) {
            Err(e) => Err(e),
            Ok(vs) => match json_number_of(bytes, "/"@ + nvme_source(n - 1)) {
                Err(e) => Err(e),
                Ok(v) => Ok(vs.push(v)),
            },
        }
    }
}

/// The critical-warning bits and the health fields of `nvme smart-log`
/// JSON output.
#[derive(Debug, Clone, PartialEq, Eq)]
pub struct NvmeJson {
    pub critical_warning: Option<u64>,
    pub values: Vec<Option<u64>>,
}

/// Reads the critical warning and each health field from `nvme smart-log`
/// JSON; bytes that are not JSON give an error naming the parser's complaint.
pub fn nvme_json_values(bytes: &[u8]) -> (r: Result<NvmeJson, HelperFailure>)
    ensures
        match (json_number_of(bytes@, "/critical_warning"@), nvme_fields_of(bytes@, NVME_FIELD_COUNT as nat)) {
            (Err(e), _) => r matches Err(HelperFailure::Error(m)) && m@ == invalid_json_text("nvme"@, e),
            (Ok(_), Err(e)) => r matches Err(HelperFailure::Error(m)) && m@ == invalid_json_text("nvme"@, e),
            (Ok(c), Ok(vs)) => r matches Ok(j) && j.critical_warning == c && j.values@ == vs,
        },
{
    let critical_warning = match json_at(bytes, "/critical_warning") {
        Err(e) => {
            return Err(invalid_json("nvme", e.as_str()));
        },
        Ok(v) => health_number(&v),
    };
    assert(json_number_of(bytes@, "/critical_warning"@) == Ok::<Option<u64>, Seq<char>>(critical_warning));
    let mut values: Vec<Option<u64>> = Vec::new();
    let mut i: usize = 0;
    while i < NVME_FIELD_COUNT
        invariant
            i <= NVME_FIELD_COUNT,
            json_number_of(bytes@, "/critical_warning"@) == Ok::<Option<u64>, Seq<char>>(critical_warning),
            nvme_fields_of(bytes@, i as nat) == Ok::<Seq<Option<u64>>, Seq<char>>(values@),
        decreases NVME_FIELD_COUNT - i,
    {
        let (source, _target) = nvme_field(i);
        let mut p = chars_of("/");
        append_str(&mut p, source);
        let pointer = string_of(&p);
        match json_at(bytes, pointer.as_str()) {
            Err(e) => {
                proof {
                    assert(nvme_fields_of(bytes@, NVME_FIELD_COUNT as nat) is Err) by {
                        lemma_nvme_fields_err(bytes@, (i + 1) as nat, NVME_FIELD_COUNT as nat);
                    }
                    assert(pointer@ == "/"@ + nvme_source(i as int));
                    assert(nvme_fields_of(bytes@, (i + 1) as nat) == Err::<Seq<Option<u64>>, Seq<char>>(e@));
                    lemma_nvme_fields_err_same(bytes@, (i + 1) as nat, NVME_FIELD_COUNT as nat);
                }
                return Err(invalid_json("nvme", e.as_str()));
            },
            Ok(v) => {
                let n = health_number(&v);
                assert(pointer@ == "/"@ + nvme_source(i as int));
                assert(json_number_of(bytes@, "/"@ + nvme_source(i as int)) == Ok::<Option<u64>, Seq<char>>(n));
                values.push(n);
            },
        }
        i += 1;
    }
    Ok(NvmeJson { critical_warning, values })
}

proof fn lemma_nvme_fields_err(bytes: Seq<u8>, k: nat, n: nat)
    requires
        k <= n,
        nvme_fields_of(bytes, k) is Err,
    ensures
        nvme_fields_of(bytes, n) is Err,
    decreases n - k,
{
    if k < n {
        lemma_nvme_fields_err(bytes, k + 1, n);
    }
}

proof fn lemma_nvme_fields_err_same(bytes: Seq<u8>, k: nat, n: nat)
    requires
        k <= n,
        nvme_fields_of(bytes, k) is Err,
    ensures
        nvme_fields_of(bytes, n) == nvme_fields_of(bytes, k),
    decreases n - k,
{
    if k < n {
        lemma_nvme_fields_err_same(bytes, k, (n - 1) as nat);
    }
}

/// What the SMART reader takes from `smartctl --json` output.
#[derive(Debug, Clone, PartialEq, Eq)]
pub struct SmartJson {
    pub model: Option<String>,
    pub firmware: Option<String>,
    pub serial: Option<String>,
    pub wwn: Option<u64>,
    pub passed: Option<bool>,
    pub power_on_hours: Option<u64>,
    pub power_cycles: Option<u64>,
    /// Whether a current drive temperature is reported (a number, which the
    /// caller reads as a floating-point value).
    pub has_temperature: bool,
}

pub open spec fn text_of(v: Option<JsonScalarView>) -> Option<Seq<char>> {
    match v {
        Some(JsonScalarView::Text(t)) => Some(t),
        _ => None,
    }
}

pub open spec fn bool_of(v: Option<JsonScalarView>) -> Option<bool> {
    match v {
        Some(JsonScalarView::Bool(b)) => Some(b),
        _ => None,
    }
}

/// The fields read from `smartctl --json` output, in order.
pub open spec fn smart_pointer(i: int) -> Seq<char> {
    if i == 0 {
        "/model_name"@
    } else if i == 1 {
        "/firmware_version"@
    } else if i == 2 {
        "/serial_number"@
    } else if i == 3 {
        "/wwn/naa"@
    } else if i == 4 {
        "/smart_status/passed"@
    } else if i == 5 {
        "/power_on_time/hours"@
    } else if i == 6 {
        "/power_cycle_count"@
    } else {
        "/temperature/current"@
    }
}

pub const SMART_FIELD_COUNT: usize = 8;

/// The first `n` fields, or the parser's complaint.
pub open spec fn smart_fields_of(bytes: Seq<u8>, n: nat) -> Result<Seq<Option<JsonScalarView>>, Seq<char>>
    decreases n,
{
    if n == 0 {
        Ok(Seq::empty())
    } else {
        match smart_fields_of(bytes, (n - 1) as nat) {
            Err(e) => Err(e),
            Ok(vs) => match json_pointer_of(bytes, smart_pointer(n - 1)) {
                Err(e) => Err(e),
                Ok(v) => Ok(vs.push(v)),
            },
        }
    }
}

fn smart_pointer_str(i: usize) -> (r: &'static str)
    ensures
        r@ == smart_pointer(i as int),
{
    if i == 0 {
        "/model_name"
    } else if i == 1 {
        "/firmware_version"
    } else if i == 2 {
        "/serial_number"
    } else if i == 3 {
        "/wwn/naa"
    } else if i == 4 {
        "/smart_status/passed"
    } else if i == 5 {
        "/power_on_time/hours"
    } else if i == 6 {
        "/power_cycle_count"
    } else {
        "/temperature/current"
    }
}

pub open spec fn scalar_views(v: Seq<Option<JsonScalar>>) -> Seq<Option<JsonScalarView>> {
    v.map_values(|x: Option<JsonScalar>| match x {
        Some(y) => Some(scalar_view(y)),
        None => None,
    })
}

fn text_field(v: &Option<JsonScalar>) -> (r: Option<String>)
    ensures
        opt_view(r) == text_of(match v {
            Some(x) => Some(scalar_view(*x)),
            None => None,
        }),
{
    match v {
        Some(JsonScalar::Text(t)) => Some(t.clone()),
        _ => None,
    }
}

/// Reads the model name, firmware version, serial number, WWN, SMART
/// assessment, power-on hours, power cycles and whether a temperature is
/// reported from `smartctl --json` output; bytes that are not JSON give an
/// error naming the parser's complaint.
pub fn smart_json_values(bytes: &[u8]) -> (r: Result<SmartJson, HelperFailure>)
    ensures
        match smart_fields_of(bytes@, SMART_FIELD_COUNT as nat) {
            Err(e) => r matches Err(HelperFailure::Error(m)) && m@ == invalid_json_text("smartctl"@, e),
            Ok(vs) => r matches Ok(j) && opt_view(j.model) == text_of(vs[0]) && opt_view(j.firmware) == text_of(
                vs[1],
            ) && opt_view(j.serial) == text_of(vs[2]) && j.wwn == health_number_of(vs[3]) && j.passed == bool_of(
                vs[4],
            ) && j.power_on_hours == health_number_of(vs[5]) && j.power_cycles == health_number_of(vs[6])
                && j.has_temperature == (vs[7] matches Some(JsonScalarView::Number(_))),
        },
{
    let mut values: Vec<Option<JsonScalar>> = Vec::new();
    let mut i: usize = 0;
    assert(scalar_views(values@) =~= Seq::<Option<JsonScalarView>>::empty());
    while i < SMART_FIELD_COUNT
        invariant
            i <= SMART_FIELD_COUNT,
            values@.len() == i,
            smart_fields_of(bytes@, i as nat) == Ok::<Seq<Option<JsonScalarView>>, Seq<char>>(scalar_views(values@)),
        decreases SMART_FIELD_COUNT - i,
    {
        match json_at(bytes, smart_pointer_str(i)) {
            Err(e) => {
                proof {
                    lemma_smart_fields_err_same(bytes@, (i + 1) as nat, SMART_FIELD_COUNT as nat);
                }
                return Err(invalid_json("smartctl", e.as_str()));
            },
            Ok(v) => {
                let ghost before = values@;
                values.push(v);
                assert(values@.drop_last() =~= before);
                assert(scalar_views(values@) =~= scalar_views(before).push(match v {
                    Some(x) => Some(scalar_view(x)),
                    None => None,
                }));
            },
        }
        i += 1;
    }
    let ghost vs = scalar_views(values@);
    assert(vs[0] == (match values@[0] { Some(x) => Some(scalar_view(x)), None => None }));
    assert(vs[3] == (match values@[3] { Some(x) => Some(scalar_view(x)), None => None }));
    assert(vs[4] == (match values@[4] { Some(x) => Some(scalar_view(x)), None => None }));
    assert(vs[5] == (match values@[5] { Some(x) => Some(scalar_view(x)), None => None }));
    assert(vs[6] == (match values@[6] { Some(x) => Some(scalar_view(x)), None => None }));
    assert(vs[7] == (match values@[7] { Some(x) => Some(scalar_view(x)), None => None }));
    let passed = match &values[4] {
        Some(JsonScalar::Bool(b)) => Some(*b),
        _ => None,
    };
    let has_temperature = match &values[7] {
        Some(JsonScalar::Number(_)) => true,
        _ => false,
    };
    Ok(SmartJson {
        model: text_field(&values[0]),
        firmware: text_field(&values[1]),
        serial: text_field(&values[2]),
        wwn: health_number(&values[3]),
        passed,
        power_on_hours: health_number(&values[5]),
        power_cycles: health_number(&values[6]),
        has_temperature,
    })
}

proof fn lemma_smart_fields_err_same(bytes: Seq<u8>, k: nat, n: nat)
    requires
        k <= n,
        smart_fields_of(bytes, k) is Err,
    ensures
        smart_fields_of(bytes, n) == smart_fields_of(bytes, k),
    decreases n - k,
{
    if k < n {
        lemma_smart_fields_err_same(bytes, k, (n - 1) as nat);
    }
}

/// Whether the output held any field the reader recognizes (the serial
/// number and WWN only count when identifying values are wanted).
pub open spec fn smart_found(j: SmartJson, include_sensitive: bool) -> bool {
    j.model is Some || j.firmware is Some || (include_sensitive && (j.serial is Some || j.wwn is Some))
        || j.passed is Some || j.power_on_hours is Some || j.power_cycles is Some || j.has_temperature
}

pub fn smart_fields_found(j: &SmartJson, include_sensitive: bool) -> (r: bool)
    ensures
        r == smart_found(*j, include_sensitive),
{
    j.model.is_some() || j.firmware.is_some() || (include_sensitive && (j.serial.is_some() || j.wwn.is_some()))
        || j.passed.is_some() || j.power_on_hours.is_some() || j.power_cycles.is_some() || j.has_temperature
}

/// The SMART assessment as a health status.
pub open spec fn smart_status_of(passed: Option<bool>) -> StorageHealthStatus {
    match passed {
        Some(true) => StorageHealthStatus::Passed,
        Some(false) => StorageHealthStatus::Failed,
        None => StorageHealthStatus::Unknown,
    }
}

/// A drive whose SMART self-assessment passed is healthy, one whose
/// assessment failed is failing, and one that reported no assessment is of
/// unknown health.
pub proof fn law_smart_assessment_decides_status(passed: Option<bool>)
    ensures
        smart_status_of(passed) == StorageHealthStatus::Passed <==> passed == Some(true),
        smart_status_of(passed) == StorageHealthStatus::Failed <==> passed == Some(false),
        smart_status_of(passed) == StorageHealthStatus::Unknown <==> passed is None,
{
}

pub fn smart_status(passed: Option<bool>) -> (r: StorageHealthStatus)
    ensures
        r == smart_status_of(passed),
{
    match passed {
        Some(true) => StorageHealthStatus::Passed,
        Some(false) => StorageHealthStatus::Failed,
        None => StorageHealthStatus::Unknown,
    }
}

} // verus!
