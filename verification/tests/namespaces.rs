use hwall::collect::namespaces::{plan_namespace_coalescing, CoalescedRecord, NamespaceFacts};

fn record(id: &str, parent: Option<&str>, whole_storage: bool, bus: Option<&str>) -> NamespaceFacts {
    NamespaceFacts {
        id: id.to_string(),
        parent: parent.map(|p| p.to_string()),
        whole_storage,
        bus_address: bus.map(|b| b.to_string()),
    }
}

fn plain(index: usize) -> CoalescedRecord {
    CoalescedRecord { index, namespace_count: None, absorbed: None, parent_from: None }
}

#[test]
fn combines_a_single_namespace_with_its_controller() {
    let records = vec![
        record("block:nvme2", None, true, Some("nvme2")),
        record("block:nvme2n1", Some("block:nvme2"), true, Some("nvme2n1")),
        record("block:nvme2n1p1", Some("block:nvme2n1"), false, None),
    ];
    let plan = plan_namespace_coalescing(&records);
    assert_eq!(plan.len(), 2);
    assert_eq!(
        plan,
        vec![
            CoalescedRecord { index: 0, namespace_count: Some(1), absorbed: Some(1), parent_from: None },
            // The partition now names the controller as parent.
            CoalescedRecord { index: 2, namespace_count: None, absorbed: None, parent_from: Some(1) },
        ]
    );
}

#[test]
fn keeps_multiple_namespaces_as_children() {
    let mut records = vec![record("block:nvme0", None, true, None)];
    for name in ["nvme0n1", "nvme0n2"] {
        records.push(record(&format!("block:{name}"), Some("block:nvme0"), true, Some(name)));
    }
    let plan = plan_namespace_coalescing(&records);
    assert_eq!(plan.len(), 3);
    assert_eq!(plan[0].namespace_count, Some(2));
    assert_eq!(plan[1], plain(1));
    assert_eq!(plan[2], plain(2));
}

#[test]
fn lone_namespaces_without_controllers_move_in_controller_order() {
    let records = vec![
        record("block:nvme3n1", Some("block:nvme3"), true, Some("nvme3n1")),
        record("block:sda", None, true, Some("sda")),
        record("block:nvme1n1", Some("block:nvme1"), true, Some("nvme1n1")),
    ];
    let plan = plan_namespace_coalescing(&records);
    assert_eq!(plan, vec![plain(1), plain(2), plain(0)]);
}

#[test]
fn partitions_and_foreign_parents_are_not_namespaces() {
    let records = vec![
        record("block:nvme0", None, true, Some("nvme0")),
        record("block:nvme0n1", Some("block:nvme0"), false, Some("nvme0n1")),
        record("block:sdb", Some("block:sda"), true, Some("nvme0n2")),
    ];
    let plan = plan_namespace_coalescing(&records);
    assert_eq!(plan, vec![plain(0), plain(1), plain(2)]);
}

#[test]
fn records_sharing_an_id_are_set_aside_once() {
    let records = vec![
        record("block:nvme0", None, true, None),
        record("dup", Some("block:nvme0"), true, Some("nvme0n1")),
        record("dup", Some("block:nvme1"), true, Some("nvme1n1")),
    ];
    let plan = plan_namespace_coalescing(&records);
    assert_eq!(
        plan,
        vec![CoalescedRecord { index: 0, namespace_count: Some(1), absorbed: Some(2), parent_from: None }]
    );
}
