use hwall::logging::{default_log_directory, log_file_path, timestamped_log_path, LogFormat, LogScope};
use std::path::Path;

#[test]
fn format_and_scope_ids_round_trip() {
    for format in LogFormat::ALL {
        assert_eq!(LogFormat::from_id(format.id()), Some(format));
    }
    for scope in LogScope::ALL {
        assert_eq!(LogScope::from_id(scope.id()), Some(scope));
    }
    assert_eq!(LogFormat::from_id("unknown"), None);
    assert_eq!(LogScope::from_id("unknown"), None);
}

#[test]
fn timestamped_paths_use_the_selected_format() {
    let csv = timestamped_log_path("logs", LogFormat::Csv);
    let jsonl = timestamped_log_path("logs", LogFormat::JsonLines);
    let csv = Path::new(&csv);
    let jsonl = Path::new(&jsonl);
    assert_eq!(csv.parent(), Some(Path::new("logs")));
    assert_eq!(csv.extension().and_then(|value| value.to_str()), Some("csv"));
    assert_eq!(jsonl.extension().and_then(|value| value.to_str()), Some("jsonl"));
}

#[test]
fn log_paths_and_directories() {
    assert_eq!(log_file_path("logs", 1234, LogFormat::JsonLines), "logs/hwall-1234.jsonl");
    assert_eq!(log_file_path("/var/log/", 0, LogFormat::Csv), "/var/log/hwall-0.csv");
    assert_eq!(default_log_directory(Some("/home/u/.local/share/hwall")), "/home/u/.local/share/hwall/logs");
    assert_eq!(default_log_directory(None), "logs");
    assert_eq!(LogScope::default(), LogScope::Visible);
    assert_eq!(LogScope::Favorites.display_name(), "Favorite sensors");
    assert_eq!(LogFormat::JsonLines.display_name(), "JSON Lines");
}
