use hwall::collect::energy::{
    counter_delta, domain, domain_kind, package_number, parse_cpu_list, physical_cores,
    representative_cpus, CpuLocation, Domain, DomainKind,
};
use hwall::model::DeviceClass;

#[test]
fn parses_cpu_lists() {
    assert_eq!(parse_cpu_list("0-3,8,10-11"), vec![0, 1, 2, 3, 8, 10, 11]);
}

#[test]
fn maps_common_energy_domains() {
    assert!(matches!(domain_kind("pkg"), Some(DomainKind::Package)));
    assert!(matches!(domain_kind("cores"), Some(DomainKind::Cores)));
    assert!(matches!(domain_kind("ram"), Some(DomainKind::Dram)));
    assert_eq!(package_number("package-12"), Some(12));
}

#[test]
fn selects_one_logical_cpu_per_physical_core() {
    let topology = vec![
        CpuLocation { cpu: 0, package: 0, core: 0 },
        CpuLocation { cpu: 8, package: 0, core: 0 },
        CpuLocation { cpu: 1, package: 0, core: 1 },
    ];
    assert_eq!(physical_cores(&topology).len(), 2);
    assert_eq!(physical_cores(&topology)[0].cpu, 0);
}

#[test]
fn physical_cores_are_ordered_by_package_and_core() {
    let topology = vec![
        CpuLocation { cpu: 5, package: 1, core: 0 },
        CpuLocation { cpu: 3, package: 0, core: 2 },
        CpuLocation { cpu: 1, package: 0, core: 2 },
        CpuLocation { cpu: 0, package: 0, core: 0 },
    ];
    let cpus: Vec<u32> = physical_cores(&topology).iter().map(|c| c.cpu).collect();
    assert_eq!(cpus, vec![0, 3, 5]);
}

#[test]
fn representatives_follow_the_pmu_mask() {
    let topology = vec![
        CpuLocation { cpu: 0, package: 0, core: 0 },
        CpuLocation { cpu: 1, package: 0, core: 1 },
        CpuLocation { cpu: 2, package: 1, core: 0 },
        CpuLocation { cpu: 3, package: 1, core: 1 },
    ];
    let all: Vec<u32> = representative_cpus(&[], &topology).iter().map(|c| c.cpu).collect();
    assert_eq!(all, vec![0, 2]);
    let masked: Vec<u32> = representative_cpus(&[1, 3], &topology).iter().map(|c| c.cpu).collect();
    assert_eq!(masked, vec![1, 3]);
    let none = representative_cpus(&[7], &topology);
    assert_eq!(none, vec![CpuLocation { cpu: 0, package: 0, core: 0 }]);
    let empty = representative_cpus(&[4, 6], &[]);
    assert_eq!(empty, vec![CpuLocation { cpu: 4, package: 0, core: 4 }]);
}

#[test]
fn counter_deltas_handle_one_wrap() {
    assert_eq!(counter_delta(100, 175, None), Some(75));
    assert_eq!(counter_delta(950, 25, Some(1_000)), Some(75));
    assert_eq!(counter_delta(950, 25, None), None);
    assert_eq!(counter_delta(1_200, 25, Some(1_000)), None);
}

#[test]
fn domains_have_keys_labels_and_targets() {
    assert_eq!(domain(" Package-0 ", 3), Some(Domain::Package(3)));
    assert_eq!(domain("dram", 1), Some(Domain::Dram(1)));
    assert_eq!(domain("mystery", 0), None);
    assert_eq!(package_number("intel-rapl:package_2"), Some(2));
    assert_eq!(package_number("package-x package_4"), Some(4));
    assert_eq!(package_number("package-99999999999"), None);
    assert_eq!(package_number("core"), None);
    assert_eq!(DomainKind::Gpu.with_package(2), Domain::Gpu(2));
    assert_eq!(Domain::Core { package: 1, core: 7 }.key(), "core:1:7");
    assert_eq!(Domain::Uncore(0).key(), "uncore:0");
    assert_eq!(Domain::Package(0).label(), "CPU package power");
    assert_eq!(Domain::Package(2).label(), "CPU package 2 power");
    assert_eq!(Domain::Core { package: 0, core: 3 }.label(), "Core 3 power");
    assert_eq!(Domain::Core { package: 1, core: 3 }.label(), "Package 1 core 3 power");
    assert_eq!(Domain::Dram(1).label(), "DRAM package 1 power");
    assert_eq!(Domain::Platform(0).metadata(), "platform");
    assert_eq!(Domain::Dram(0).target_identity(), (DeviceClass::Memory, "System memory"));
    assert_eq!(Domain::Cores(4).package(), 4);
}
