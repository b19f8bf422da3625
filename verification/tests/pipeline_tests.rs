//! The retrieval-and-normalization pipeline on concrete stores.
use mac_inventory::csv_out::csv_export;
use mac_inventory::device::StoreError;
use mac_inventory::pipeline::build_result_set;

#[test]
fn bare_value_becomes_a_csv_row() {
    let keys = vec![String::from("SN001")];
    let values = vec![String::from(
        "{\"bluetooth_mac\":\"AA:BB\",\"wired_mac\":\"CC:DD\",\"wireless_mac\":\"EE:FF\"}",
    )];
    let (rs, discarded) = build_result_set(&keys, &values, false).unwrap();
    assert_eq!(discarded.len(), 0);
    assert_eq!(rs.len(), 1);
    let doc = csv_export(&rs);
    assert_eq!(
        doc,
        "SN,wired_mac,wireless_mac,bluetooth_mac\nSN001,CC:DD,EE:FF,AA:BB\n"
    );
}

#[test]
fn store_key_wins_over_embedded_identifier() {
    let keys = vec![String::from("SN002")];
    let values = vec![String::from(
        "{\"sn\":\"ignored\",\"bluetooth_mac\":\"11\",\"wired_mac\":\"22\",\"wireless_mac\":\"33\"}",
    )];
    let (rs, discarded) = build_result_set(&keys, &values, true).unwrap();
    assert_eq!(discarded.len(), 0);
    let record = rs.lookup("SN002").unwrap();
    assert_eq!(record.sn, "SN002");
    assert_eq!(record.bluetooth_mac, "11");
    assert_eq!(record.wired_mac, "22");
    assert_eq!(record.wireless_mac, "33");
    assert!(rs.lookup("ignored").is_none());
}

#[test]
fn undecodable_value_is_discarded_with_one_diagnostic() {
    let keys = vec![String::from("SN003")];
    let values = vec![String::from("\"not json\"")];
    let (rs, discarded) = build_result_set(&keys, &values, false).unwrap();
    assert_eq!(rs.len(), 0);
    assert_eq!(discarded, vec![String::from("SN003")]);
}

#[test]
fn one_bad_value_never_aborts_the_run() {
    let keys = vec![
        String::from("SN001"),
        String::from("SN003"),
        String::from("SN004"),
    ];
    let values = vec![
        String::from("{\"bluetooth_mac\":\"a\",\"wired_mac\":\"b\",\"wireless_mac\":\"c\"}"),
        String::from("not json"),
        String::from("{\"bluetooth_mac\":\"1\",\"wired_mac\":\"2\",\"wireless_mac\":\"3\"}"),
    ];
    let (rs, discarded) = build_result_set(&keys, &values, false).unwrap();
    assert_eq!(rs.len(), 2);
    assert_eq!(discarded, vec![String::from("SN003")]);
    assert!(rs.lookup("SN001").is_some());
    assert!(rs.lookup("SN003").is_none());
    assert!(rs.lookup("SN004").is_some());
}

#[test]
fn length_mismatch_is_fatal() {
    let keys = vec![String::from("SN001"), String::from("SN002")];
    let values = vec![String::from("{}")];
    let r = build_result_set(&keys, &values, false);
    assert_eq!(r.err(), Some(StoreError::LengthMismatch));
}

#[test]
fn missing_mac_field_is_discarded() {
    let keys = vec![String::from("SN005")];
    let values = vec![String::from("{\"bluetooth_mac\":\"a\",\"wired_mac\":\"b\"}")];
    let (rs, discarded) = build_result_set(&keys, &values, false).unwrap();
    assert_eq!(rs.len(), 0);
    assert_eq!(discarded, vec![String::from("SN005")]);
}

#[test]
fn non_string_mac_field_is_discarded() {
    let keys = vec![String::from("SN006")];
    let values = vec![String::from(
        "{\"bluetooth_mac\":5,\"wired_mac\":\"b\",\"wireless_mac\":\"c\"}",
    )];
    let (rs, discarded) = build_result_set(&keys, &values, false).unwrap();
    assert_eq!(rs.len(), 0);
    assert_eq!(discarded.len(), 1);
}

#[test]
fn decode_order_preference_never_changes_the_outcome() {
    let keys = vec![String::from("K1"), String::from("K2"), String::from("K3")];
    let values = vec![
        String::from("{\"sn\":\"x\",\"bluetooth_mac\":\"1\",\"wired_mac\":\"2\",\"wireless_mac\":\"3\"}"),
        String::from("{\"bluetooth_mac\":\"4\",\"wired_mac\":\"5\",\"wireless_mac\":\"6\"}"),
        String::from("nonsense"),
    ];
    let (rs_a, disc_a) = build_result_set(&keys, &values, true).unwrap();
    let (rs_b, disc_b) = build_result_set(&keys, &values, false).unwrap();
    assert_eq!(disc_a, disc_b);
    assert_eq!(csv_export(&rs_a), csv_export(&rs_b));
}

#[test]
fn last_write_wins_for_a_repeated_key() {
    let keys = vec![String::from("DUP"), String::from("DUP")];
    let values = vec![
        String::from("{\"bluetooth_mac\":\"old\",\"wired_mac\":\"old\",\"wireless_mac\":\"old\"}"),
        String::from("{\"bluetooth_mac\":\"new\",\"wired_mac\":\"new\",\"wireless_mac\":\"new\"}"),
    ];
    let (rs, discarded) = build_result_set(&keys, &values, false).unwrap();
    assert_eq!(discarded.len(), 0);
    assert_eq!(rs.len(), 1);
    assert_eq!(rs.lookup("DUP").unwrap().bluetooth_mac, "new");
}

#[test]
fn empty_store_yields_an_empty_result_set() {
    let keys: Vec<String> = vec![];
    let values: Vec<String> = vec![];
    let (rs, discarded) = build_result_set(&keys, &values, false).unwrap();
    assert_eq!(rs.len(), 0);
    assert_eq!(discarded.len(), 0);
}
