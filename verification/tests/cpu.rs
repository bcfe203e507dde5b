use hwall::collect::cpu::{
    count_topology, cpu_identity, cpu_time_counters, cpu_topology_from_cpuinfo, frequency_owner,
    parse_cpu_list, parse_cpuinfo, CpuTopology,
};

#[test]
fn parses_cpu_lists_and_ranges() {
    assert_eq!(parse_cpu_list("0 1 8 9"), vec![0, 1, 8, 9]);
    assert_eq!(parse_cpu_list("0-3,8-9"), vec![0, 1, 2, 3, 8, 9]);
    assert_eq!(parse_cpu_list("2 2 3"), vec![2, 3]);
}

#[test]
fn falls_back_to_cpuinfo_topology() {
    let records = parse_cpuinfo(
        "processor: 0\nphysical id: 0\ncore id: 0\n\n\
         processor: 1\nphysical id: 0\ncore id: 0\n\n\
         processor: 2\nphysical id: 1\ncore id: 0\n",
    );
    assert_eq!(
        cpu_topology_from_cpuinfo(&records),
        Some(CpuTopology {
            threads: 3,
            cores: 2,
            sockets: 2,
        })
    );
}

#[test]
fn empty_cpu_list_uses_policy_identity() {
    assert_eq!(
        frequency_owner("policy7", &[]),
        ("policy7".to_owned(), "CPU frequency policy 7".to_owned())
    );
}

#[test]
fn sysfs_style_topology_counts_distinct_cores_and_packages() {
    let pairs: Vec<(String, String)> = [("0", "0"), ("0", "0"), ("0", "1"), ("0", "1")]
        .iter()
        .map(|(p, c)| (p.to_string(), c.to_string()))
        .collect();
    assert_eq!(count_topology(&pairs), CpuTopology { threads: 4, cores: 2, sockets: 1 });
    assert_eq!(count_topology(&[]), CpuTopology { threads: 0, cores: 0, sockets: 1 });
    assert_eq!(cpu_topology_from_cpuinfo(&[]), None);
}

#[test]
fn policies_on_one_core_are_named_after_it() {
    assert_eq!(
        frequency_owner("policy3", &[(0, 3), (0, 3)]),
        ("socket0:core3".to_owned(), "Core 3 frequency".to_owned())
    );
    assert_eq!(
        frequency_owner("policy9", &[(1, 2)]),
        ("socket1:core2".to_owned(), "Socket 1 core 2 frequency".to_owned())
    );
    assert_eq!(
        frequency_owner("policy4", &[(0, 4), (0, 5)]),
        ("policy4".to_owned(), "CPU frequency policy 4".to_owned())
    );
}

#[test]
fn cpuinfo_records_identify_the_model() {
    let records = parse_cpuinfo("Vendor_ID : AuthenticAMD\nmodel name\t: Ryzen\nmodel name: Ryzen 9\n\n\nnot a field\n");
    assert_eq!(records.len(), 1);
    assert_eq!(records[0].get("vendor_id").as_deref(), Some("AuthenticAMD"));
    assert_eq!(cpu_identity(&records), ("Ryzen 9".to_owned(), Some("AuthenticAMD".to_owned())));
    assert_eq!(cpu_identity(&[]), ("CPU".to_owned(), None));
}

#[test]
fn proc_stat_counters_sum_the_first_eight_fields() {
    let stat = "intr 1 2\ncpu  10 20 30 40 5 6 7 8 9 10\ncpu0 1 1 1 1\n";
    assert_eq!(cpu_time_counters(stat), Some((126, 45)));
    assert_eq!(cpu_time_counters("cpu  1 2 3\n"), None);
    assert_eq!(cpu_time_counters("cpu  1 2 x 4\n"), None);
    assert_eq!(cpu_time_counters("cpu0 1 2 3 4\n"), None);
    assert_eq!(cpu_time_counters(&format!("cpu  {} 1 0 0\n", u64::MAX)), Some((u64::MAX, 0)));
}
