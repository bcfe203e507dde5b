use hwall::visibility::VisibilityState;

#[test]
fn visibility_actions_are_independent() {
    let mut state = VisibilityState::default();
    state.hide_key("sensor:cpu:temp", "CPU temperature");
    assert!(state.is_hidden("sensor:cpu:temp"));
    assert!(state.toggle_favorite("sensor:cpu:temp"));
    assert!(state.is_favorite("sensor:cpu:temp"));
    assert!(state.toggle_collapsed("device:cpu"));
    assert!(state.is_collapsed("device:cpu"));

    state.show_all();
    assert!(!state.is_hidden("sensor:cpu:temp"));
    assert!(state.is_favorite("sensor:cpu:temp"));
    assert!(state.is_collapsed("device:cpu"));
}

#[test]
fn hidden_items_are_listed_by_key_and_can_be_shown_again() {
    let mut state = VisibilityState::new();
    state.hide_key("sensor:z", "Z");
    state.hide_key("sensor:a", "A");
    state.hide_key("sensor:m", "M");
    state.hide_key("sensor:a", "A again");
    assert_eq!(
        state.hidden_items(),
        vec![
            ("sensor:a".to_owned(), "A again".to_owned()),
            ("sensor:m".to_owned(), "M".to_owned()),
            ("sensor:z".to_owned(), "Z".to_owned()),
        ]
    );
    assert!(state.show("sensor:m"));
    assert!(!state.show("sensor:m"));
    assert_eq!(state.hidden_items().len(), 2);
    assert!(!state.toggle_favorite("x") || state.is_favorite("x"));
    assert!(!state.toggle_favorite("x"));
    assert!(!state.is_favorite("x"));
    state.toggle_collapsed("d");
    state.expand_all();
    assert!(!state.is_collapsed("d"));
}
