use hwall::settings::{
    history_retention_seconds, refresh_interval_ms, ColumnSettings, Density, SettingsStore,
    ThemePreference, MIN_REFRESH_INTERVAL_MS,
};

#[test]
fn theme_ids_round_trip() {
    for theme in ThemePreference::ALL {
        assert_eq!(ThemePreference::from_id(theme.id()), Some(theme));
    }
    assert_eq!(ThemePreference::from_id("unknown"), None);
}

#[test]
fn density_ids_round_trip() {
    for density in Density::ALL {
        assert_eq!(Density::from_id(density.id()), Some(density));
    }
    assert_eq!(Density::from_id("unknown"), None);
}

#[test]
fn status_column_is_hidden_by_default() {
    let layout = ColumnSettings::default_layout();
    let status = layout
        .iter()
        .find(|column| column.id == "status")
        .expect("status column");
    assert!(!status.visible);
}

#[test]
fn refresh_interval_respects_the_supported_minimum() {
    assert_eq!(refresh_interval_ms(100), MIN_REFRESH_INTERVAL_MS);
    assert_eq!(refresh_interval_ms(750), 750);
}

#[test]
fn history_retention_is_clamped_to_a_day() {
    assert_eq!(history_retention_seconds(10), 60);
    assert_eq!(history_retention_seconds(3_600), 3_600);
    assert_eq!(history_retention_seconds(1_000_000), 86_400);
}

#[test]
fn defaults_names_and_store_paths() {
    assert_eq!(ThemePreference::default(), ThemePreference::System);
    assert_eq!(Density::default(), Density::Compact);
    assert_eq!(ThemePreference::Dark.display_name(), "Dark");
    assert_eq!(Density::Comfortable.display_name(), "Comfortable");
    let layout = ColumnSettings::default_layout();
    assert_eq!(layout.len(), 6);
    assert_eq!(layout[0], ColumnSettings::new("sensor", 420, true));
    assert_eq!(SettingsStore::discover(Some("/home/u/.config/hwall")).path(), "/home/u/.config/hwall/settings.json");
    assert_eq!(SettingsStore::discover(None).path(), "hwall-settings.json");
    assert_eq!(SettingsStore::at("/tmp/x.json").path(), "/tmp/x.json");
}
