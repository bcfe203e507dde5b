//! User settings: theme and density choices, the column layout, refresh and
//! retention limits, and where the settings file lives.
use vstd::prelude::*;
use crate::text::{chars_eq_str, chars_of, join_path, join_path_string, owned};

verus! {

/// Shortest refresh interval, in milliseconds.
pub const MIN_REFRESH_INTERVAL_MS: u64 = 200;
/// Shortest history retention, in seconds.
pub const MIN_HISTORY_RETENTION_SECONDS: u64 = 60;
/// Longest history retention, in seconds (a day).
pub const MAX_HISTORY_RETENTION_SECONDS: u64 = 86400;
/// History retention when nothing else is chosen, in seconds.
pub const DEFAULT_HISTORY_RETENTION_SECONDS: u64 = 60;

/// The colour theme the user prefers.
#[derive(Debug, Clone, Copy, PartialEq, Eq, Structural)]
pub enum ThemePreference {
    System,
    Light,
    Dark,
}

pub open spec fn theme_preference_id(v: ThemePreference) -> Seq<char> {
    match v {
        ThemePreference::System => "system"@,
        ThemePreference::Light => "light"@,
        ThemePreference::Dark => "dark"@,
    }
}

pub open spec fn theme_preference_display_name(v: ThemePreference) -> Seq<char> {
    match v {
        ThemePreference::System => "System"@,
        ThemePreference::Light => "Light"@,
        ThemePreference::Dark => "Dark"@,
    }
}

impl ThemePreference {
    /// The stored id.
    pub fn id(self) -> (r: &'static str)
        ensures
            r@ == theme_preference_id(self),
    {
        match self {
            ThemePreference::System => "system",
            ThemePreference::Light => "light",
            ThemePreference::Dark => "dark",
        }
    }

    /// The name shown to the user.
    pub fn display_name(self) -> (r: &'static str)
        ensures
            r@ == theme_preference_display_name(self),
    {
        match self {
            ThemePreference::System => "System",
            ThemePreference::Light => "Light",
            ThemePreference::Dark => "Dark",
        }
    }
}

impl Default for ThemePreference {
    fn default() -> (r: Self)
        ensures
            r == ThemePreference::System,
    {
        ThemePreference::System
    }
}

/// How tightly rows are packed.
#[derive(Debug, Clone, Copy, PartialEq, Eq, Structural)]
pub enum Density {
    Compact,
    Normal,
    Comfortable,
}

pub open spec fn density_id(v: Density) -> Seq<char> {
    match v {
        Density::Compact => "compact"@,
        Density::Normal => "normal"@,
        Density::Comfortable => "comfortable"@,
    }
}

pub open spec fn density_display_name(v: Density) -> Seq<char> {
    match v {
        Density::Compact => "Compact"@,
        Density::Normal => "Normal"@,
        Density::Comfortable => "Comfortable"@,
    }
}

impl Density {
    /// The stored id.
    pub fn id(self) -> (r: &'static str)
        ensures
            r@ == density_id(self),
    {
        match self {
            Density::Compact => "compact",
            Density::Normal => "normal",
            Density::Comfortable => "comfortable",
        }
    }

    /// The name shown to the user.
    pub fn display_name(self) -> (r: &'static str)
        ensures
            r@ == density_display_name(self),
    {
        match self {
            Density::Compact => "Compact",
            Density::Normal => "Normal",
            Density::Comfortable => "Comfortable",
        }
    }
}

impl Default for Density {
    fn default() -> (r: Self)
        ensures
            r == Density::Compact,
    {
        Density::Compact
    }
}

pub open spec fn theme_from_id(v: Seq<char>) -> Option<ThemePreference> {
    if v == "system"@ {
        Some(ThemePreference::System)
    } else if v == "light"@ {
        Some(ThemePreference::Light)
    } else if v == "dark"@ {
        Some(ThemePreference::Dark)
    } else {
        None
    }
}

impl ThemePreference {
    /// Every theme, in display order.
    pub const ALL: [ThemePreference; 3] = [ThemePreference::System, ThemePreference::Light, ThemePreference::Dark];

    /// The theme with the given id.
    pub fn from_id(value: &str) -> (r: Option<ThemePreference>)
        ensures
            r == theme_from_id(value@),
    {
        let v = chars_of(value);
        if chars_eq_str(&v, "system") {
            Some(ThemePreference::System)
        } else if chars_eq_str(&v, "light") {
            Some(ThemePreference::Light)
        } else if chars_eq_str(&v, "dark") {
            Some(ThemePreference::Dark)
        } else {
            None
        }
    }
}

/// Every theme's id leads back to the theme.
pub proof fn law_theme_ids_round_trip(t: ThemePreference)
    ensures
        theme_from_id(theme_preference_id(t)) == Some(t),
{
    reveal_strlit("system");
    reveal_strlit("light");
    reveal_strlit("dark");
    assert("system"@.len() == 6 && "light"@.len() == 5 && "dark"@.len() == 4);
}

pub open spec fn density_from_id(v: Seq<char>) -> Option<Density> {
    if v == "compact"@ {
        Some(Density::Compact)
    } else if v == "normal"@ {
        Some(Density::Normal)
    } else if v == "comfortable"@ {
        Some(Density::Comfortable)
    } else {
        None
    }
}

impl Density {
    /// Every density, in display order.
    pub const ALL: [Density; 3] = [Density::Compact, Density::Normal, Density::Comfortable];

    /// The density with the given id.
    pub fn from_id(value: &str) -> (r: Option<Density>)
        ensures
            r == density_from_id(value@),
    {
        let v = chars_of(value);
        if chars_eq_str(&v, "compact") {
            Some(Density::Compact)
        } else if chars_eq_str(&v, "normal") {
            Some(Density::Normal)
        } else if chars_eq_str(&v, "comfortable") {
            Some(Density::Comfortable)
        } else {
            None
        }
    }
}

/// Every density's id leads back to the density.
pub proof fn law_density_ids_round_trip(d: Density)
    ensures
        density_from_id(density_id(d)) == Some(d),
{
    reveal_strlit("compact");
    reveal_strlit("normal");
    reveal_strlit("comfortable");
    assert("compact"@.len() == 7 && "normal"@.len() == 6 && "comfortable"@.len() == 11);
}

/// One column of the sensor table.
#[derive(Debug, Clone, PartialEq, Eq)]
pub struct ColumnSettings {
    pub id: String,
    pub width: i32,
    pub visible: bool,
}

/// The default columns: id, width and visibility.
pub open spec fn default_columns() -> Seq<(Seq<char>, i32, bool)> {
    seq![
        ("sensor"@, 420i32, true),
        ("current"@, 118i32, true),
        ("minimum"@, 118i32, true),
        ("maximum"@, 118i32, true),
        ("average"@, 118i32, true),
        ("status"@, 112i32, false),
    ]
}

pub open spec fn column_views(v: Seq<ColumnSettings>) -> Seq<(Seq<char>, i32, bool)> {
    v.map_values(|c: ColumnSettings| (c.id@, c.width, c.visible))
}

impl ColumnSettings {
    pub fn new(id: &str, width: i32, visible: bool) -> (r: ColumnSettings)
        ensures
            r.id@ == id@,
            r.width == width,
            r.visible == visible,
    {
        ColumnSettings { id: owned(id), width, visible }
    }

    /// The default layout: every column visible except `status`.
    pub fn default_layout() -> (r: Vec<ColumnSettings>)
        ensures
            column_views(r@) == default_columns(),
    {
        let mut v: Vec<ColumnSettings> = Vec::new();
        v.push(ColumnSettings::new("sensor", 420, true));
        v.push(ColumnSettings::new("current", 118, true));
        v.push(ColumnSettings::new("minimum", 118, true));
        v.push(ColumnSettings::new("maximum", 118, true));
        v.push(ColumnSettings::new("average", 118, true));
        v.push(ColumnSettings::new("status", 112, false));
        assert(column_views(v@) =~= default_columns());
        v
    }
}

/// The refresh interval in use: the chosen one, but no shorter than the minimum.
pub open spec fn effective_refresh_ms(interval_ms: u64) -> u64 {
    if interval_ms > MIN_REFRESH_INTERVAL_MS { interval_ms } else { MIN_REFRESH_INTERVAL_MS }
}

pub fn refresh_interval_ms(interval_ms: u64) -> (r: u64)
    ensures
        r == effective_refresh_ms(interval_ms),
{
    if interval_ms > MIN_REFRESH_INTERVAL_MS { interval_ms } else { MIN_REFRESH_INTERVAL_MS }
}

/// The history retention in use: the chosen one, within the supported range.
pub open spec fn effective_retention_seconds(seconds: u64) -> u64 {
    if seconds < MIN_HISTORY_RETENTION_SECONDS {
        MIN_HISTORY_RETENTION_SECONDS
    } else if seconds > MAX_HISTORY_RETENTION_SECONDS {
        MAX_HISTORY_RETENTION_SECONDS
    } else {
        seconds
    }
}

pub fn history_retention_seconds(seconds: u64) -> (r: u64)
    ensures
        r == effective_retention_seconds(seconds),
{
    if seconds < MIN_HISTORY_RETENTION_SECONDS {
        MIN_HISTORY_RETENTION_SECONDS
    } else if seconds > MAX_HISTORY_RETENTION_SECONDS {
        MAX_HISTORY_RETENTION_SECONDS
    } else {
        seconds
    }
}

/// Where the settings file lives.
#[derive(Debug)]
pub struct SettingsStore {
    path: String,
}

impl View for SettingsStore {
    type V = Seq<char>;

    /// The path of the settings file.
    closed spec fn view(&self) -> Seq<char> {
        self.path@
    }
}

/// The settings file: `settings.json` in the user's configuration
/// directory, or `hwall-settings.json` in the working directory without one.
pub open spec fn settings_path(config_dir: Option<Seq<char>>) -> Seq<char> {
    match config_dir {
        Some(d) => join_path(d, "settings.json"@),
        None => "hwall-settings.json"@,
    }
}

impl SettingsStore {
    /// The store in the user's configuration directory, when there is one.
    pub fn discover(config_dir: Option<&str>) -> (r: SettingsStore)
        ensures
            r@ == settings_path(match config_dir {
                Some(d) => Some(d@),
                None => None,
            }),
    {
        match config_dir {
            Some(d) => SettingsStore { path: join_path_string(d, "settings.json") },
            None => SettingsStore { path: owned("hwall-settings.json") },
        }
    }

    /// A store at the given file.
    pub fn at(path: &str) -> (r: SettingsStore)
        ensures
            r@ == path@,
    {
        SettingsStore { path: owned(path) }
    }

    /// The settings file.
    pub fn path(&self) -> (r: &str)
        ensures
            r@ == self@,
    {
        self.path.as_str()
    }
}

} // verus!
