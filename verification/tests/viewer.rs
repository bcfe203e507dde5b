use hwall::cli::viewer::{
    closes_help, match_number, match_status, matching_lines, nearest_match, next_match,
    no_match_status, normal_key_action, page_size, poll_timeout, scroll_back, scroll_forward,
    scroll_limit, search_key_edit, should_request_refresh, Key, KeyAction, SearchEdit,
    WORKER_POLL_INTERVAL_NANOS,
};

#[test]
fn keys_map_to_actions() {
    assert_eq!(normal_key_action(Key::Char('c'), true), KeyAction::Quit);
    assert_eq!(normal_key_action(Key::Char('c'), false), KeyAction::Nothing);
    assert_eq!(normal_key_action(Key::Esc, false), KeyAction::Quit);
    assert_eq!(normal_key_action(Key::Char('j'), false), KeyAction::LineDown);
    assert_eq!(normal_key_action(Key::PageUp, false), KeyAction::PageUp);
    assert_eq!(normal_key_action(Key::Char('G'), false), KeyAction::Bottom);
    assert_eq!(normal_key_action(Key::Char('u'), true), KeyAction::HalfPageUp);
    assert_eq!(normal_key_action(Key::Char('u'), false), KeyAction::Nothing);
    assert_eq!(normal_key_action(Key::Char(' '), false), KeyAction::TogglePause);
    assert_eq!(normal_key_action(Key::Char('N'), false), KeyAction::PreviousMatch);
    assert_eq!(normal_key_action(Key::Char('?'), false), KeyAction::ShowHelp);
    assert!(closes_help(Key::Char('q')));
    assert!(!closes_help(Key::Char('j')));
    assert_eq!(search_key_edit(Key::Char('a'), false), SearchEdit::Insert('a'));
    assert_eq!(search_key_edit(Key::Char('a'), true), SearchEdit::Ignore);
    assert_eq!(search_key_edit(Key::Enter, false), SearchEdit::Submit);
    assert_eq!(search_key_edit(Key::Backspace, false), SearchEdit::DeleteLast);
}

#[test]
fn scrolling_stays_within_limits() {
    assert_eq!(page_size(0), 1);
    assert_eq!(page_size(1), 1);
    assert_eq!(page_size(40), 39);
    assert_eq!(scroll_back(3, 10), 0);
    assert_eq!(scroll_back(30, 10), 20);
    assert_eq!(scroll_forward(30, 10, 35), 35);
    assert_eq!(scroll_forward(30, 10, 50), 40);
    assert_eq!(scroll_forward(u16::MAX - 1, 10, u16::MAX), u16::MAX);
    assert_eq!(scroll_limit(100, 30), 70);
    assert_eq!(scroll_limit(10, 30), 0);
}

#[test]
fn searches_wrap_around() {
    let lines: Vec<String> = ["CPU", "Temp 40", "fan", "CPU temp 50", "Disk"].iter().map(|s| s.to_string()).collect();
    let matches = matching_lines(&lines, "TEMP");
    assert_eq!(matches, vec![1, 3]);
    assert_eq!(next_match(&matches, None, false), Some(1));
    assert_eq!(next_match(&matches, None, true), Some(3));
    assert_eq!(next_match(&matches, Some(1), false), Some(3));
    assert_eq!(next_match(&matches, Some(3), false), Some(1));
    assert_eq!(next_match(&matches, Some(3), true), Some(1));
    assert_eq!(next_match(&matches, Some(1), true), Some(3));
    assert_eq!(next_match(&Vec::new(), Some(1), true), None);
    assert_eq!(match_number(&matches, 3), 2);
    assert_eq!(match_number(&matches, 4), 1);
    assert_eq!(nearest_match(&matches, Some(2)), Some(1));
    assert_eq!(nearest_match(&matches, Some(4)), Some(3));
    assert_eq!(nearest_match(&matches, None), None);
    assert_eq!(match_status(2, 5, "cpu"), "Match 2 of 5 for ‘cpu’");
    assert_eq!(no_match_status("gpu"), "No match for ‘gpu’");
}

#[test]
fn refreshes_are_requested_when_due() {
    assert!(should_request_refresh(false, false, false, 10, 10, false));
    assert!(!should_request_refresh(false, false, false, 9, 10, false));
    assert!(should_request_refresh(false, false, false, 9, 10, true));
    assert!(!should_request_refresh(true, false, false, 20, 10, true));
    assert!(!should_request_refresh(false, true, false, 20, 10, false));
    assert_eq!(poll_timeout(true, false, false, 0, 0), WORKER_POLL_INTERVAL_NANOS);
    assert_eq!(poll_timeout(false, true, false, 0, 0), 1_000_000_000);
    assert_eq!(poll_timeout(false, false, false, 100, 105), 5);
    assert_eq!(poll_timeout(false, false, false, 100, 1_000_000_000), WORKER_POLL_INTERVAL_NANOS);
    assert_eq!(poll_timeout(false, false, false, 200, 100), 0);
}
