//! The connection-address grammar, exercised on concrete addresses.
use mac_inventory::address::check_address;
use mac_inventory::address::validate_address;
use mac_inventory::device::ConfigError;

#[test]
fn accepts_default_address() {
    assert!(validate_address("redis://127.0.0.1:6379/0"));
}

#[test]
fn accepts_extreme_valid_parts() {
    assert!(validate_address("redis://255.255.255.255:65535/15"));
    assert!(validate_address("redis://0.0.0.0:1/0"));
    assert!(validate_address("redis://1.2.3.4:10/10"));
}

#[test]
fn rejects_port_out_of_range() {
    assert!(!validate_address("redis://127.0.0.1:70000/0"));
    assert!(!validate_address("redis://127.0.0.1:65536/0"));
    assert!(!validate_address("redis://127.0.0.1:0/0"));
}

#[test]
fn rejects_port_with_leading_zero() {
    assert!(!validate_address("redis://127.0.0.1:06379/0"));
}

#[test]
fn rejects_octet_out_of_range() {
    assert!(!validate_address("redis://256.0.0.1:6379/0"));
    assert!(!validate_address("redis://1.2.3.1000:6379/0"));
}

#[test]
fn rejects_db_index_out_of_range() {
    assert!(!validate_address("redis://127.0.0.1:6379/16"));
    assert!(!validate_address("redis://127.0.0.1:6379/01"));
    assert!(!validate_address("redis://127.0.0.1:6379/"));
}

#[test]
fn rejects_wrong_shape() {
    assert!(!validate_address(""));
    assert!(!validate_address("redis://"));
    assert!(!validate_address("http://127.0.0.1:6379/0"));
    assert!(!validate_address("redis://127.0.0.1:6379"));
    assert!(!validate_address("redis://127.0.0.1/0"));
    assert!(!validate_address("redis://127.0.0.1:6379/0 "));
    assert!(!validate_address("redis://127.0.0:6379/0"));
}

#[test]
fn check_address_reports_the_configuration_fault() {
    assert_eq!(check_address("redis://127.0.0.1:6379/0"), Ok(()));
    assert_eq!(
        check_address("redis://127.0.0.1:70000/0"),
        Err(ConfigError::InvalidAddress)
    );
}
