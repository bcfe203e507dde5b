use hwall::collect::frequency::{group_policy_frequencies, PolicyFrequency};

fn policy(key: &str, label: &str, name: &str, khz: u64, cpus: &[u32]) -> PolicyFrequency {
    PolicyFrequency {
        key: key.to_owned(),
        label: label.to_owned(),
        policy: name.to_owned(),
        khz,
        cpus: cpus.to_vec(),
    }
}

#[test]
fn policies_of_one_core_share_a_sensor_in_key_order() {
    let policies = vec![
        policy("socket0:core2", "Core 2 frequency", "policy5", 3_000_000, &[5, 4]),
        policy("socket0:core10", "Core 10 frequency", "policy20", 2_000_000, &[20]),
        policy("socket0:core2", "Core 2 frequency (again)", "policy4", 1_000_000, &[4]),
        policy("policy7", "CPU frequency policy 7", "policy7", 800_000, &[7, 6, 7]),
    ];
    let groups = group_policy_frequencies(&policies);
    let keys: Vec<&str> = groups.iter().map(|group| group.key.as_str()).collect();
    assert_eq!(keys, vec!["policy7", "socket0:core10", "socket0:core2"]);

    let core2 = &groups[2];
    assert_eq!(core2.label, "Core 2 frequency");
    assert_eq!(core2.khz, vec![3_000_000, 1_000_000]);
    assert_eq!(core2.policies, vec!["policy4".to_owned(), "policy5".to_owned()]);
    assert_eq!(core2.cpus, vec![4, 5]);

    assert_eq!(groups[0].cpus, vec![6, 7]);
    assert_eq!(groups[1].khz, vec![2_000_000]);
}

#[test]
fn no_policies_give_no_groups() {
    assert!(group_policy_frequencies(&[]).is_empty());
}
