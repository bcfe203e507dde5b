use hwall::plasma::{
    is_plasma_session, managed_rule_entries, parse_rule_ids, plasma_window_placement_supported,
    sync_plasma_window_placement, ConfigEdit, PlasmaEnvironment, RuleConfig, MAIN_WINDOW_TITLE,
    RULE_ID,
};

#[test]
fn managed_rule_remembers_position_without_overwriting_it() {
    let entries = managed_rule_entries();
    assert_eq!(RULE_ID, "io.github.hwall.HWallPlacement");
    assert!(entries.contains(&("enabled", "true")));
    assert!(entries.contains(&("title", MAIN_WINDOW_TITLE)));
    assert!(entries.contains(&("titlematch", "1")));
    assert!(entries.contains(&("positionrule", "4")));
    assert!(!entries.iter().any(|(key, _)| *key == "position"));
}

fn plasma() -> PlasmaEnvironment {
    PlasmaEnvironment { plasma_session: true, kconfig_tools: true, qdbus: Some("qdbus6".to_owned()) }
}

#[test]
fn sessions_and_rule_lists() {
    assert!(is_plasma_session(true, None));
    assert!(is_plasma_session(false, Some("ubuntu:KDE")));
    assert!(is_plasma_session(false, Some("X;plasma")));
    assert!(!is_plasma_session(false, Some("GNOME")));
    assert!(!is_plasma_session(false, None));
    assert_eq!(parse_rule_ids(" a, ,b,"), vec!["a".to_owned(), "b".to_owned()]);
    assert!(plasma_window_placement_supported(&plasma()));
    assert!(!plasma_window_placement_supported(&PlasmaEnvironment { qdbus: None, ..plasma() }));
}

#[test]
fn enabling_waits_for_the_first_placement_then_creates_the_rule() {
    let empty = RuleConfig { rules: None, count: None, rule_values: vec![] };
    let waiting = sync_plasma_window_placement(true, false, &plasma(), &empty).unwrap();
    assert!(waiting.creation_pending);
    assert!(waiting.edits.is_empty());
    assert!(!waiting.reconfigure);

    let created = sync_plasma_window_placement(true, true, &plasma(), &empty).unwrap();
    assert!(!created.creation_pending);
    assert!(created.reconfigure);
    assert_eq!(
        created.edits[0],
        ConfigEdit::Write { group: "General".to_owned(), key: "rules".to_owned(), value: RULE_ID.to_owned() }
    );
    assert_eq!(
        created.edits[1],
        ConfigEdit::Write { group: "General".to_owned(), key: "count".to_owned(), value: "1".to_owned() }
    );
    assert_eq!(created.edits.len(), 2 + managed_rule_entries().len());
    assert!(!created.edits.iter().any(|e| matches!(e, ConfigEdit::Write { key, .. } if key == "position")));

    assert!(sync_plasma_window_placement(true, true, &PlasmaEnvironment { plasma_session: false, ..plasma() }, &empty).is_err());
}

#[test]
fn disabling_removes_the_rule_and_its_position() {
    let values = managed_rule_entries()
        .iter()
        .map(|(k, v)| (k.to_string(), v.to_string()))
        .chain(std::iter::once(("position".to_owned(), "10,10".to_owned())))
        .collect::<Vec<_>>();
    let config = RuleConfig {
        rules: Some(format!("other,{RULE_ID}")),
        count: Some("2".to_owned()),
        rule_values: values.clone(),
    };
    let plan = sync_plasma_window_placement(false, false, &plasma(), &config).unwrap();
    assert_eq!(
        plan.edits[0],
        ConfigEdit::Write { group: "General".to_owned(), key: "rules".to_owned(), value: "other".to_owned() }
    );
    assert!(plan.edits.contains(&ConfigEdit::Delete { group: RULE_ID.to_owned(), key: "position".to_owned() }));
    assert!(plan.reconfigure);

    let settled = RuleConfig { rules: Some(RULE_ID.to_owned()), count: Some("1".to_owned()), rule_values: values };
    let plan = sync_plasma_window_placement(true, false, &plasma(), &settled).unwrap();
    assert!(plan.edits.is_empty());
    assert!(!plan.reconfigure);
}
