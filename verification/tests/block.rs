use hwall::collect::block::{
    activity_counters, activity_device_id, block_display_name, block_parent_id, capacity_bytes,
    nvme_controller_parent, partition_parent, ActivityCounters,
};

#[test]
fn single_nvme_namespace_uses_controller_identity() {
    let names = vec!["nvme0n1".to_owned(), "sda".to_owned()];
    assert_eq!(activity_device_id("nvme0n1", &names), "block:nvme0");
}

#[test]
fn multiple_nvme_namespaces_keep_namespace_identity() {
    let names = vec!["nvme0n1".to_owned(), "nvme0n2".to_owned()];
    assert_eq!(activity_device_id("nvme0n1", &names), "block:nvme0n1");
}

#[test]
fn partitions_and_namespaces_find_their_parents() {
    assert_eq!(partition_parent("nvme0n1p2"), Some("nvme0n1".to_owned()));
    assert_eq!(partition_parent("mmcblk0p1"), Some("mmcblk0".to_owned()));
    assert_eq!(partition_parent("sda3"), Some("sda".to_owned()));
    assert_eq!(partition_parent("sdb"), None);
    assert_eq!(nvme_controller_parent("nvme1n2"), Some("nvme1".to_owned()));
    assert_eq!(nvme_controller_parent("nvme1"), None);
    assert_eq!(nvme_controller_parent("sda"), None);
    assert_eq!(block_parent_id("nvme0n1p1", true), Some("block:nvme0n1".to_owned()));
    assert_eq!(block_parent_id("nvme0n1", false), Some("block:nvme0".to_owned()));
    assert_eq!(block_parent_id("sda", false), None);
    let names = vec!["nvme0n1".to_owned(), "nvme0n1p1".to_owned()];
    assert_eq!(activity_device_id("nvme0n1", &names), "block:nvme0");
    assert_eq!(activity_device_id("sda", &names), "block:sda");
}

#[test]
fn display_names_capacity_and_counters() {
    assert_eq!(block_display_name("sda", Some(" ATA "), Some(" Disk ")), "ATA Disk");
    assert_eq!(block_display_name("sda", None, Some("Disk")), "Disk");
    assert_eq!(block_display_name("sda", Some("ATA"), None), "sda");
    assert_eq!(capacity_bytes(Some(2)), Some(1024));
    assert_eq!(capacity_bytes(Some(u64::MAX)), None);
    assert_eq!(capacity_bytes(None), None);
    let stat = "1 2 3 4 5 6 7 8 9 10 11";
    assert_eq!(
        activity_counters("sda", false, true, stat),
        Some(ActivityCounters { read_operations: 1, read_sectors: 3, write_operations: 5, write_sectors: 7, io_milliseconds: 10 })
    );
    assert_eq!(activity_counters("sda1", true, true, stat), None);
    assert_eq!(activity_counters("loop0", false, true, stat), None);
    assert_eq!(activity_counters("sda", false, false, stat), None);
    assert_eq!(activity_counters("sda", false, true, "1 2 3"), None);
    assert_eq!(activity_counters("sda", false, true, "1 2 3 4 5 6 7 8 9 x"), None);
}
