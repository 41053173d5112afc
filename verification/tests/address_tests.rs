use abigen_util::address::{parse_address, Address, ParseAddressError};

#[test]
fn parse_address_missing_prefix() {
    assert!(
        !parse_address("0000000000000000000000000000000000000000").is_ok(),
        "parsing address not starting with 0x should fail"
    );
}

#[test]
fn parse_address_address_too_short() {
    assert!(
        !parse_address("0x00000000000000").is_ok(),
        "parsing address not starting with 0x should fail"
    );
}

#[test]
fn parse_address_ok() {
    let expected = Address::from_bytes([
        0, 1, 2, 3, 4, 5, 6, 7, 8, 9, 10, 11, 12, 13, 14, 15, 16, 17, 18, 19,
    ]);
    assert_eq!(parse_address("0x000102030405060708090a0b0c0d0e0f10111213").unwrap(), expected);
}

#[test]
fn parse_address_error_kinds() {
    assert_eq!(
        parse_address("0000000000000000000000000000000000000000").unwrap_err(),
        ParseAddressError::MissingPrefix
    );
    assert_eq!(parse_address("").unwrap_err(), ParseAddressError::MissingPrefix);
    assert_eq!(parse_address("0").unwrap_err(), ParseAddressError::MissingPrefix);
    assert_eq!(
        parse_address("0x00000000000000").unwrap_err(),
        ParseAddressError::InvalidEncoding
    );
    assert_eq!(
        parse_address("0x0000000000000000").unwrap_err(),
        ParseAddressError::InvalidEncoding
    );
    assert_eq!(
        parse_address("0xzz0102030405060708090a0b0c0d0e0f10111213").unwrap_err(),
        ParseAddressError::InvalidEncoding
    );
    assert_eq!(
        parse_address("0x000102030405060708090a0b0c0d0e0f1011121300").unwrap_err(),
        ParseAddressError::InvalidEncoding
    );
}

#[test]
fn parse_address_mixed_case_hex() {
    let a = parse_address("0xAbCdEf000102030405060708090a0b0c0d0e0f10").unwrap();
    assert_eq!(a.as_bytes()[0], 0xab);
    assert_eq!(a.as_bytes()[1], 0xcd);
    assert_eq!(a.as_bytes()[2], 0xef);
    assert_eq!(a.as_bytes()[19], 0x10);
}

#[test]
fn address_from_bytes_round_trip() {
    let arr = [
        255, 1, 2, 3, 4, 5, 6, 7, 8, 9, 10, 11, 12, 13, 14, 15, 16, 17, 18, 19,
    ];
    let a = Address::from_bytes(arr);
    assert_eq!(a.as_bytes().as_slice(), &arr);
}
