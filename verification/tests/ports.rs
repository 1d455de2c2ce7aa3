use aide_sandbox::errors::Error;
use aide_sandbox::ports::{normalize_port_mapping, parse_port_number};

#[test]
fn bare_port_expands_to_pair() {
    assert_eq!(normalize_port_mapping("3000").unwrap(), "3000:3000");
}

#[test]
fn host_container_pair_passes_through() {
    assert_eq!(normalize_port_mapping("8080:3000").unwrap(), "8080:3000");
}

#[test]
fn ip_host_container_passes_through() {
    assert_eq!(
        normalize_port_mapping("127.0.0.1:8080:3000").unwrap(),
        "127.0.0.1:8080:3000"
    );
}

#[test]
fn four_components_fail() {
    let e = normalize_port_mapping("1:2:3:4").unwrap_err();
    assert_eq!(e, Error::InvalidPortSpec("1:2:3:4".to_string()));
}

#[test]
fn non_numeric_fails() {
    let e = normalize_port_mapping("abc").unwrap_err();
    assert_eq!(e, Error::InvalidPortSpec("abc".to_string()));
}

#[test]
fn error_message_names_the_offending_value() {
    let e = normalize_port_mapping("abc").unwrap_err();
    assert_eq!(
        e.message(),
        "Invalid port format: abc. Use PORT, HOST:CONTAINER, or IP:HOST:CONTAINER"
    );
}

#[test]
fn bare_port_is_reprinted_numerically() {
    // leading zeros and a plus sign are accepted by the number parser and
    // disappear in the normalized pair
    assert_eq!(normalize_port_mapping("08").unwrap(), "8:8");
    assert_eq!(normalize_port_mapping("+80").unwrap(), "80:80");
}

#[test]
fn port_range_limits() {
    assert_eq!(normalize_port_mapping("65535").unwrap(), "65535:65535");
    assert!(normalize_port_mapping("65536").is_err());
    assert!(normalize_port_mapping("99999999999999999999").is_err());
}

#[test]
fn empty_and_blank_components_fail() {
    assert!(normalize_port_mapping("").is_err());
    assert!(normalize_port_mapping(":").is_err());
    assert!(normalize_port_mapping("8080:").is_err());
    assert!(normalize_port_mapping(":3000").is_err());
}

#[test]
fn pair_with_bad_member_fails() {
    assert!(normalize_port_mapping("8080:abc").is_err());
    assert!(normalize_port_mapping("abc:3000").is_err());
    // the address part of the three-component form is not validated
    assert!(normalize_port_mapping("not-an-ip:8080:3000").is_ok());
}

#[test]
fn parse_port_number_accepts_what_u16_from_str_accepts() {
    assert_eq!(parse_port_number("0"), Some(0));
    assert_eq!(parse_port_number("3000"), Some(3000));
    assert_eq!(parse_port_number("+3000"), Some(3000));
    assert_eq!(parse_port_number("65535"), Some(65535));
    assert_eq!(parse_port_number("65536"), None);
    assert_eq!(parse_port_number(""), None);
    assert_eq!(parse_port_number("+"), None);
    assert_eq!(parse_port_number("-1"), None);
    assert_eq!(parse_port_number("12a"), None);
}
