use hwall::collect::dmi::{
    empty_slot, field_allow_none, memory_module_identity, memory_module_properties, memory_slot_label, normalize_socket_name, parse_agesa, parse_bool,
    parse_fields, parse_records, parse_smbios_version, processor_upgrade, raw_field,
    split_quantity, system_memory_slot_count, valid_field,
};

const SAMPLE: &str = r#"# dmidecode 3.7
SMBIOS 3.6.0 present.

Handle 0x0000, DMI type 0, 26 bytes
Platform Firmware Information
        Vendor: American Megatrends Inc.
        Version: 3854
        Release Date: 04/03/2026
        Platform Firmware Revision: 38.54
        Characteristics:
                Firmware is upgradeable
                UEFI is supported

Handle 0x0010, DMI type 4, 50 bytes
Processor Information
        Socket Designation: AM5
        Upgrade: Socket AM5
        Core Count: 8
        Thread Count: 16
        Max Speed: 5650 MHz

Handle 0x0008, DMI type 34, 11 bytes
Management Device
        Description: Nuvoton NCT6799D-R
        Type: Other
        Address: 0x00000295
        Address Type: I/O Port

Handle 0x0013, DMI type 16, 23 bytes
Physical Memory Array
        Use: System Memory
        Error Correction Type: None
        Maximum Capacity: 256 GiB
        Number Of Devices: 4

Handle 0x0018, DMI type 17, 92 bytes
Memory Device
        Size: 32 GiB
        Form Factor: DIMM
        Locator: DIMM 1
        Bank Locator: P0 CHANNEL A
        Type: DDR5
        Type Detail: Synchronous Unbuffered (Unregistered)
        Speed: 4800 MT/s
        Manufacturer: Kingston
        Serial Number: EXAMPLE
        Part Number: KF556C40-32
        Rank: 2
        Configured Memory Speed: 6000 MT/s
        Memory Technology: DRAM

Handle 0x001F, DMI type 40, 14 bytes
Additional Information 1
        String: AGESA!V9 ComboAm5PI 1.3.0.1

Handle 0x000B, DMI type 43, 31 bytes
TPM Device
        Vendor ID: AMD
        Specification Version: 2.0
        Firmware Revision: 6.32
        Description: AMD

Handle 0x000C, DMI type 45, 26 bytes
Firmware Inventory Information
        Firmware Component Name: TPM Firmware
        Firmware Version: 60020.6
        Release Date: 2021-05-15T00:00:00Z
        Manufacturer: AMD
        State: Enabled
        Characteristics:
                Updatable: No
                Write-Protect: No
"#;

#[test]
fn parses_relevant_dmi_records() {
    let records = parse_records(SAMPLE);
    assert_eq!(records.len(), 8);
    assert_eq!(records[3].type_id, 16);
    assert_eq!(
        records[4].fields().get("part_number").as_deref(),
        Some("KF556C40-32")
    );
    assert_eq!(parse_smbios_version(SAMPLE).as_deref(), Some("3.6.0"));
}

#[test]
fn keeps_meaningful_none_but_filters_identity_placeholders() {
    let fields = parse_fields(
        "Error Correction Type: None\n\
         Manufacturer: Default string\n\
         Product Name: System Product Name",
    );
    assert_eq!(
        field_allow_none(&fields, "error_correction_type").as_deref(),
        Some("None")
    );
    assert_eq!(valid_field(&fields, "manufacturer"), None);
    assert_eq!(valid_field(&fields, "product_name"), None);
}

#[test]
fn combines_generic_locator_with_specific_bank() {
    assert_eq!(
        memory_slot_label(Some("DIMM 1"), Some("P0 CHANNEL A")).as_deref(),
        Some("P0 CHANNEL A / DIMM 1")
    );
}

#[test]
fn parses_tpm_firmware_boolean_fields() {
    let record = parse_records(SAMPLE)
        .into_iter()
        .find(|record| record.type_id == 45)
        .unwrap();
    let fields = record.fields();
    assert_eq!(raw_field(&fields, "updatable").as_deref(), Some("No"));
    assert_eq!(
        parse_bool(&raw_field(&fields, "updatable").unwrap()),
        Some(false)
    );
}

#[test]
fn record_helpers_read_lists_and_named_values() {
    let records = parse_records(SAMPLE);
    let firmware = &records[0];
    assert_eq!(
        firmware.list_after("Characteristics:"),
        vec!["Firmware is upgradeable".to_owned(), "UEFI is supported".to_owned()]
    );
    let extra = records.iter().find(|r| r.type_id == 40).unwrap();
    assert_eq!(extra.values_named("string"), vec!["AGESA!V9 ComboAm5PI 1.3.0.1".to_owned()]);
    let array = records.iter().find(|r| r.type_id == 16).unwrap();
    assert_eq!(system_memory_slot_count(array), Some(4));
    assert_eq!(system_memory_slot_count(firmware), None);
    assert_eq!(parse_records("no handles here").len(), 0);
    assert_eq!(parse_records("Handle 0x1, DMI type x, 4 bytes\nBody").len(), 0);
}

#[test]
fn agesa_sockets_and_slots() {
    assert_eq!(parse_agesa("AGESA!V9 ComboAm5PI 1.3.0.1").as_deref(), Some("ComboAm5PI 1.3.0.1"));
    assert_eq!(parse_agesa("agesa 1.2"), Some("1.2".to_owned()));
    assert_eq!(parse_agesa("AGESA!V9"), None);
    assert_eq!(parse_agesa("other"), None);
    assert_eq!(normalize_socket_name(" Socket AM5 "), "am5");
    assert_eq!(processor_upgrade(Some("AM5"), Some("Socket AM5")), None);
    assert_eq!(processor_upgrade(Some("AM4"), Some("Socket AM5")), Some("Socket AM5".to_owned()));
    assert_eq!(processor_upgrade(None, Some("Other")), Some("Other".to_owned()));
    assert_eq!(memory_slot_label(Some("DIMM_A2"), None), Some("DIMM_A2".to_owned()));
    assert_eq!(memory_slot_label(Some("DIMM 1"), Some("BANK 0")), Some("BANK 0 / DIMM 1".to_owned()));
    assert_eq!(memory_slot_label(Some("DIMM 1"), Some("Unknown")), None);
    assert_eq!(parse_bool(" Supported "), Some(true));
    assert_eq!(parse_bool("Not Supported"), Some(false));
    assert_eq!(parse_bool("maybe"), None);
}

#[test]
fn quantities_split_into_amount_and_unit() {
    assert_eq!(split_quantity("16 GB", false), Some(("16".to_owned(), 1_073_741_824)));
    assert_eq!(split_quantity("512 kB", false), Some(("512".to_owned(), 1024)));
    assert_eq!(split_quantity("2 TiB", false), Some(("2".to_owned(), 1_099_511_627_776)));
    assert_eq!(split_quantity("3200 MT/s", false), None);
    assert_eq!(split_quantity("16", false), None);
    assert_eq!(split_quantity("4.5 GHz", true), Some(("4.5".to_owned(), 1_000_000_000)));
    assert_eq!(split_quantity("100 MHz", true), Some(("100".to_owned(), 1_000_000)));
    assert_eq!(split_quantity("100 MB", true), None);
}

#[test]
fn memory_modules_are_named_by_part_and_identified_by_slot() {
    let record = parse_records(SAMPLE)
        .into_iter()
        .find(|record| record.type_id == 17)
        .unwrap();
    let fields = record.fields();
    let identity = memory_module_identity(&fields, 0);
    assert_eq!(identity.name, "Kingston KF556C40-32");
    assert_eq!(identity.slot_label.as_deref(), Some("P0 CHANNEL A / DIMM 1"));
    assert_eq!(
        Some(identity.id.clone()),
        hwall::collect::memory::slot_device_id("P0 CHANNEL A / DIMM 1")
    );
    assert_eq!(identity.locator.as_deref(), Some("DIMM 1"));
    assert_eq!(identity.bank_locator.as_deref(), Some("P0 CHANNEL A"));
    assert!(!empty_slot("32 GiB"));
    assert!(empty_slot("No Module Installed"));

    let properties = memory_module_properties(&fields, false);
    let keys: Vec<&str> = properties.iter().map(|(key, _)| key.as_str()).collect();
    assert_eq!(
        keys,
        vec![
            "form_factor",
            "memory_type",
            "module_type",
            "spd_speed",
            "configured_memory_speed",
            "rank",
            "memory_technology"
        ]
    );
    assert_eq!(properties[1].1, "DDR5");
    let sensitive = memory_module_properties(&fields, true);
    assert_eq!(sensitive.last().map(|(key, value)| (key.as_str(), value.as_str())), Some(("serial", "EXAMPLE")));
}

#[test]
fn anonymous_memory_modules_are_numbered_from_one() {
    let fields = parse_fields("Size: 8 GB\nLocator: DIMM\nManufacturer: Unknown");
    let identity = memory_module_identity(&fields, 2);
    assert_eq!(identity.name, "Memory module 3");
    assert_eq!(identity.id, "memory:dmi:2");
    assert_eq!(identity.vendor, None);
}
