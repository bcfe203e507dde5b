use hwall::collect::reconcile::{i2c_client_sort_key, normalized_locator};
use hwall::collect::memory_telemetry::{
    plan_memory_telemetry, Mapping, ModuleFacts, TelemetryFacts, TelemetryMerge,
};

fn module(record_index: u64, slot: &str, locators: &[&str]) -> ModuleFacts {
    ModuleFacts {
        record_index,
        slot_label: Some(slot.to_owned()),
        locators: locators.iter().map(|value| (*value).to_owned()).collect(),
    }
}

fn telemetry(locator: Option<&str>, i2c_key: Option<(u32, u16)>) -> TelemetryFacts {
    TelemetryFacts {
        locator: locator.map(str::to_owned),
        i2c_key,
        driver: Some("spd5118".to_owned()),
    }
}

fn merge(telemetry: usize, module: usize, mapping: Mapping) -> TelemetryMerge {
    TelemetryMerge { telemetry, module, mapping }
}

#[test]
fn without_modules_every_device_stays_on_its_own() {
    let plan = plan_memory_telemetry(&[], &[telemetry(None, None), telemetry(None, None)]);
    assert!(plan.merges.is_empty());
    assert_eq!(plan.unmatched, vec![0, 1]);
}

#[test]
fn a_unique_locator_match_merges_the_device() {
    let modules = vec![module(10, "A1", &["dimma1", "p0channela"]), module(11, "B1", &["dimmb1"])];
    let plan = plan_memory_telemetry(&modules, &[telemetry(Some("dimmb1"), None)]);
    assert_eq!(plan.merges, vec![merge(0, 1, Mapping::FirmwareLocator)]);
    assert!(plan.unmatched.is_empty());
    assert_eq!(Mapping::FirmwareLocator.as_str(), "firmware_locator");
}

#[test]
fn a_single_leftover_goes_to_the_single_remaining_module() {
    let modules = vec![module(10, "A1", &["dimma1"]), module(11, "B1", &["dimmb1"])];
    let devices = vec![telemetry(Some("dimma1"), None), telemetry(None, None)];
    let plan = plan_memory_telemetry(&modules, &devices);
    assert_eq!(
        plan.merges,
        vec![merge(0, 0, Mapping::FirmwareLocator), merge(1, 1, Mapping::SingleRemainingModule)]
    );
    assert!(plan.unmatched.is_empty());
}

#[test]
fn leftovers_pair_in_record_and_i2c_order() {
    let modules = vec![module(20, "A1", &[]), module(10, "B1", &[])];
    let devices = vec![telemetry(None, Some((6, 0x51))), telemetry(None, Some((6, 0x50)))];
    let plan = plan_memory_telemetry(&modules, &devices);
    assert_eq!(
        plan.merges,
        vec![merge(1, 1, Mapping::InferredI2cOrder), merge(0, 0, Mapping::InferredI2cOrder)]
    );
    assert!(plan.unmatched.is_empty());
    assert_eq!(Mapping::InferredI2cOrder.as_str(), "inferred_i2c_order");
}

#[test]
fn ambiguous_leftovers_stay_on_their_own() {
    let modules = vec![module(20, "A1", &[]), module(10, "B1", &[])];
    let two_buses = vec![telemetry(None, Some((6, 0x51))), telemetry(None, Some((7, 0x50)))];
    let plan = plan_memory_telemetry(&modules, &two_buses);
    assert!(plan.merges.is_empty());
    assert_eq!(plan.unmatched, vec![0, 1]);

    let same_slot = vec![module(20, "A1", &[]), module(10, "A1", &[])];
    let one_bus = vec![telemetry(None, Some((6, 0x51))), telemetry(None, Some((6, 0x50)))];
    let plan = plan_memory_telemetry(&same_slot, &one_bus);
    assert!(plan.merges.is_empty());
    assert_eq!(plan.unmatched, vec![0, 1]);
}

#[test]
fn a_device_matching_two_modules_is_not_merged_by_locator() {
    let modules = vec![module(10, "A1", &["dimma1"]), module(11, "B1", &["dimma1"]), module(12, "C1", &[])];
    let plan = plan_memory_telemetry(&modules, &[telemetry(Some("dimma1"), None)]);
    assert!(plan.merges.is_empty());
    assert_eq!(plan.unmatched, vec![0]);
}

fn dmi_module(index: u64, slot: &str) -> ModuleFacts {
    ModuleFacts {
        record_index: index,
        slot_label: Some(slot.to_owned()),
        locators: vec![normalized_locator(slot)],
    }
}

fn spd_device(client: &str, locator: Option<&str>) -> TelemetryFacts {
    TelemetryFacts {
        locator: locator.map(normalized_locator),
        i2c_key: i2c_client_sort_key(client),
        driver: Some("spd5118".to_owned()),
    }
}

#[test]
fn merges_memory_telemetry_by_firmware_locator() {
    let plan = plan_memory_telemetry(&[dmi_module(0, "DIMM A2")], &[spd_device("0-0050", Some("DIMM A2"))]);
    assert_eq!(plan.merges, vec![merge(0, 0, Mapping::FirmwareLocator)]);
    assert_eq!(plan.merges[0].mapping.as_str(), "firmware_locator");
    assert!(plan.unmatched.is_empty());
}

#[test]
fn pairs_equal_dimm_and_spd_sets_by_stable_order() {
    let modules = vec![dmi_module(10, "P0 CHANNEL A / DIMM 1"), dmi_module(20, "P0 CHANNEL B / DIMM 1")];
    let devices = vec![spd_device("0-0052", None), spd_device("0-0050", None)];
    let plan = plan_memory_telemetry(&modules, &devices);
    // Channel A (record 10) takes the device at 0x50, channel B the one at 0x52.
    assert_eq!(
        plan.merges,
        vec![merge(1, 0, Mapping::InferredI2cOrder), merge(0, 1, Mapping::InferredI2cOrder)]
    );
    assert_eq!(plan.merges[0].mapping.as_str(), "inferred_i2c_order");
    assert!(plan.unmatched.is_empty());
}

#[test]
fn keeps_ambiguous_memory_telemetry_standalone() {
    let modules = vec![dmi_module(10, "P0 CHANNEL A / DIMM 1"), dmi_module(20, "P0 CHANNEL B / DIMM 1")];
    let plan = plan_memory_telemetry(&modules, &[spd_device("0-0050", None)]);
    assert!(plan.merges.is_empty());
    assert_eq!(plan.unmatched, vec![0]);
}

#[test]
fn memory_reconciliation_is_idempotent() {
    let modules = vec![dmi_module(0, "DIMM A2")];
    let first = plan_memory_telemetry(&modules, &[spd_device("0-0050", None)]);
    assert_eq!(first.merges, vec![merge(0, 0, Mapping::SingleRemainingModule)]);
    // Once merged, no standalone telemetry is left, so a second pass changes nothing.
    let second = plan_memory_telemetry(&modules, &[]);
    assert!(second.merges.is_empty());
    assert!(second.unmatched.is_empty());
}
