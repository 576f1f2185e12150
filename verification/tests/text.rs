use soroban_event_indexer::text::{decimal, hex_encode, parse_decimal, signed_decimal, IntParseFailure};

#[test]
fn decimal_rendering() {
    assert_eq!(decimal(0), "0");
    assert_eq!(decimal(1234567890), "1234567890");
    assert_eq!(decimal(u128::MAX), u128::MAX.to_string());
    assert_eq!(signed_decimal(-1), "-1");
    assert_eq!(signed_decimal(i128::MIN), i128::MIN.to_string());
    assert_eq!(signed_decimal(i128::MAX), i128::MAX.to_string());
}

#[test]
fn hex_rendering() {
    assert_eq!(hex_encode(&[]), "");
    assert_eq!(hex_encode(&[0x00, 0x0f, 0xa0, 0xff]), "000fa0ff");
}

#[test]
fn decimal_parsing() {
    assert_eq!(parse_decimal("255", 255), Ok(255));
    assert_eq!(parse_decimal("256", 255), Err(IntParseFailure::PosOverflow));
    assert_eq!(parse_decimal("2x", 255), Err(IntParseFailure::InvalidDigit));
    assert_eq!(parse_decimal("", 255), Err(IntParseFailure::Empty));
    assert_eq!(parse_decimal("+", 255), Err(IntParseFailure::InvalidDigit));
    assert_eq!(parse_decimal("+12", 255), Ok(12));
    assert_eq!(IntParseFailure::Empty.message(), "cannot parse integer from empty string");
}
