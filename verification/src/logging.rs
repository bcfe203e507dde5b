//! Sensor logs: their format and scope, and where their files go.
use vstd::prelude::*;
use crate::text::{
    append_chars, append_str, chars_eq_str, chars_of, decimal, decimal_chars, join_path,
    join_path_string, owned, string_of,
};

verus! {

/// The file format of sensor logs.
#[derive(Debug, Clone, Copy, PartialEq, Eq, Structural)]
pub enum LogFormat {
    Csv,
    JsonLines,
}

pub open spec fn log_format_id(v: LogFormat) -> Seq<char> {
    match v {
        LogFormat::Csv => "csv"@,
        LogFormat::JsonLines => "jsonl"@,
    }
}

pub open spec fn log_format_display_name(v: LogFormat) -> Seq<char> {
    match v {
        LogFormat::Csv => "CSV"@,
        LogFormat::JsonLines => "JSON Lines"@,
    }
}

impl LogFormat {
    /// The stored id, also the file extension.
    pub fn id(self) -> (r: &'static str)
        ensures
            r@ == log_format_id(self),
    {
        match self {
            LogFormat::Csv => "csv",
            LogFormat::JsonLines => "jsonl",
        }
    }

    /// The name shown to the user.
    pub fn display_name(self) -> (r: &'static str)
        ensures
            r@ == log_format_display_name(self),
    {
        match self {
            LogFormat::Csv => "CSV",
            LogFormat::JsonLines => "JSON Lines",
        }
    }
}

impl Default for LogFormat {
    fn default() -> (r: Self)
        ensures
            r == LogFormat::Csv,
    {
        LogFormat::Csv
    }
}

/// Which sensors a log records.
#[derive(Debug, Clone, Copy, PartialEq, Eq, Structural)]
pub enum LogScope {
    All,
    Visible,
    Favorites,
}

pub open spec fn log_scope_id(v: LogScope) -> Seq<char> {
    match v {
        LogScope::All => "all"@,
        LogScope::Visible => "visible"@,
        LogScope::Favorites => "favorites"@,
    }
}

pub open spec fn log_scope_display_name(v: LogScope) -> Seq<char> {
    match v {
        LogScope::All => "All sensors"@,
        LogScope::Visible => "Visible sensors"@,
        LogScope::Favorites => "Favorite sensors"@,
    }
}

impl LogScope {
    /// The stored id.
    pub fn id(self) -> (r: &'static str)
        ensures
            r@ == log_scope_id(self),
    {
        match self {
            LogScope::All => "all",
            LogScope::Visible => "visible",
            LogScope::Favorites => "favorites",
        }
    }

    /// The name shown to the user.
    pub fn display_name(self) -> (r: &'static str)
        ensures
            r@ == log_scope_display_name(self),
    {
        match self {
            LogScope::All => "All sensors",
            LogScope::Visible => "Visible sensors",
            LogScope::Favorites => "Favorite sensors",
        }
    }
}

impl Default for LogScope {
    fn default() -> (r: Self)
        ensures
            r == LogScope::Visible,
    {
        LogScope::Visible
    }
}

pub open spec fn log_format_from_id(v: Seq<char>) -> Option<LogFormat> {
    if v == "csv"@ {
        Some(LogFormat::Csv)
    } else if v == "jsonl"@ {
        Some(LogFormat::JsonLines)
    } else {
        None
    }
}

impl LogFormat {
    /// Every format, in display order.
    pub const ALL: [LogFormat; 2] = [LogFormat::Csv, LogFormat::JsonLines];

    /// The format with the given id.
    pub fn from_id(value: &str) -> (r: Option<LogFormat>)
        ensures
            r == log_format_from_id(value@),
    {
        let v = chars_of(value);
        if chars_eq_str(&v, "csv") {
            Some(LogFormat::Csv)
        } else if chars_eq_str(&v, "jsonl") {
            Some(LogFormat::JsonLines)
        } else {
            None
        }
    }
}

pub open spec fn log_scope_from_id(v: Seq<char>) -> Option<LogScope> {
    if v == "all"@ {
        Some(LogScope::All)
    } else if v == "visible"@ {
        Some(LogScope::Visible)
    } else if v == "favorites"@ {
        Some(LogScope::Favorites)
    } else {
        None
    }
}

impl LogScope {
    /// Every scope, in display order.
    pub const ALL: [LogScope; 3] = [LogScope::All, LogScope::Visible, LogScope::Favorites];

    /// The scope with the given id.
    pub fn from_id(value: &str) -> (r: Option<LogScope>)
        ensures
            r == log_scope_from_id(value@),
    {
        let v = chars_of(value);
        if chars_eq_str(&v, "all") {
            Some(LogScope::All)
        } else if chars_eq_str(&v, "visible") {
            Some(LogScope::Visible)
        } else if chars_eq_str(&v, "favorites") {
            Some(LogScope::Favorites)
        } else {
            None
        }
    }
}

/// Every format's and every scope's id leads back to it.
pub proof fn law_log_ids_round_trip(f: LogFormat, s: LogScope)
    ensures
        log_format_from_id(log_format_id(f)) == Some(f),
        log_scope_from_id(log_scope_id(s)) == Some(s),
{
    reveal_strlit("csv");
    reveal_strlit("jsonl");
    reveal_strlit("all");
    reveal_strlit("visible");
    reveal_strlit("favorites");
    assert("csv"@.len() == 3 && "jsonl"@.len() == 5);
    assert("all"@.len() == 3 && "visible"@.len() == 7 && "favorites"@.len() == 9);
}

/// Where logs go by default: `logs` in the user's local data directory,
/// or `logs` in the working directory without one.
pub open spec fn default_log_dir(data_dir: Option<Seq<char>>) -> Seq<char> {
    match data_dir {
        Some(d) => join_path(d, "logs"@),
        None => "logs"@,
    }
}

pub fn default_log_directory(data_dir: Option<&str>) -> (r: String)
    ensures
        r@ == default_log_dir(match data_dir {
            Some(d) => Some(d@),
            None => None,
        }),
{
    match data_dir {
        Some(d) => join_path_string(d, "logs"),
        None => owned("logs"),
    }
}

/// The log file for a moment: `hwall-<milliseconds>.<format id>` in `directory`.
pub open spec fn log_file_path_of(directory: Seq<char>, timestamp_ms: u128, format: LogFormat) -> Seq<char> {
    join_path(directory, "hwall-"@ + decimal(timestamp_ms as nat) + "."@ + log_format_id(format))
}

pub fn log_file_path(directory: &str, timestamp_ms: u128, format: LogFormat) -> (r: String)
    ensures
        r@ == log_file_path_of(directory@, timestamp_ms, format),
{
    let mut name: Vec<char> = Vec::new();
    append_str(&mut name, "hwall-");
    append_chars(&mut name, &decimal_chars(timestamp_ms));
    append_str(&mut name, ".");
    append_str(&mut name, format.id());
    let n = string_of(&name);
    proof {
        assert(n@ =~= "hwall-"@ + decimal(timestamp_ms as nat) + "."@ + log_format_id(format));
    }
    join_path_string(directory, n.as_str())
}

/// `SystemTime::now()` as milliseconds since the Unix epoch (zero for a
/// clock set before it).  Nothing is stated of the value: it is the time.
#[verifier::external_body]
fn unix_time_ms() -> u128 {
    std::time::SystemTime::now().duration_since(std::time::UNIX_EPOCH).unwrap_or_default().as_millis()
}

/// A new log file in `directory`, named after the current time.
pub fn timestamped_log_path(directory: &str, format: LogFormat) -> (r: String)
    ensures
        exists|t: u128| r@ == log_file_path_of(directory@, t, format),
{
    let t = unix_time_ms();
    log_file_path(directory, t, format)
}

} // verus!
