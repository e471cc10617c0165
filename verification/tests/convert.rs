use bash_builtins::convert::convert;
use bash_builtins::convert::parse_bool;
use bash_builtins::convert::parse_i64;
use bash_builtins::convert::parse_u64;
use bash_builtins::convert::validate_utf8;
use bash_builtins::convert::DecodedValue;
use bash_builtins::convert::ParseError;
use bash_builtins::convert::Utf8OrParseError;
use bash_builtins::convert::ValueKind;

#[test]
fn unsigned_parse_exact_values() {
    assert_eq!(parse_u64(&b"0".to_vec()), Ok(0));
    assert_eq!(parse_u64(&b"42".to_vec()), Ok(42));
    assert_eq!(parse_u64(&b"18446744073709551615".to_vec()), Ok(u64::MAX));
}

#[test]
fn unsigned_parse_errors() {
    assert_eq!(parse_u64(&Vec::new()), Err(ParseError::Empty));
    assert_eq!(parse_u64(&b"1a".to_vec()), Err(ParseError::InvalidDigit));
    assert_eq!(parse_u64(&b"-1".to_vec()), Err(ParseError::InvalidDigit));
    assert_eq!(
        parse_u64(&b"18446744073709551616".to_vec()),
        Err(ParseError::Overflow)
    );
}

#[test]
fn signed_parse_exact_values() {
    assert_eq!(parse_i64(&b"-100".to_vec()), Ok(-100));
    assert_eq!(parse_i64(&b"+7".to_vec()), Ok(7));
    assert_eq!(parse_i64(&b"9223372036854775807".to_vec()), Ok(i64::MAX));
    assert_eq!(parse_i64(&b"-9223372036854775808".to_vec()), Ok(i64::MIN));
}

#[test]
fn signed_parse_errors() {
    assert_eq!(parse_i64(&Vec::new()), Err(ParseError::Empty));
    assert_eq!(parse_i64(&b"-".to_vec()), Err(ParseError::InvalidDigit));
    assert_eq!(parse_i64(&b"12 3".to_vec()), Err(ParseError::InvalidDigit));
    assert_eq!(
        parse_i64(&b"9223372036854775808".to_vec()),
        Err(ParseError::Overflow)
    );
    assert_eq!(
        parse_i64(&b"-9223372036854775809".to_vec()),
        Err(ParseError::Overflow)
    );
}

#[test]
fn boolean_parse() {
    assert_eq!(parse_bool(&b"true".to_vec()), Ok(true));
    assert_eq!(parse_bool(&b"false".to_vec()), Ok(false));
    assert_eq!(parse_bool(&b"TRUE".to_vec()), Err(ParseError::InvalidDigit));
    assert_eq!(parse_bool(&b"yes".to_vec()), Err(ParseError::InvalidDigit));
}

#[test]
fn utf8_validation_accepts_well_formed_sequences() {
    assert!(validate_utf8(&b"plain ascii".to_vec()));
    // Two-byte, three-byte and four-byte encodings.
    assert!(validate_utf8(&vec![0xC3, 0xA9]));
    assert!(validate_utf8(&vec![0xE2, 0x82, 0xAC]));
    assert!(validate_utf8(&vec![0xF0, 0x9F, 0x92, 0xA1]));
    assert!(validate_utf8(&Vec::new()));
}

#[test]
fn utf8_validation_rejects_malformed_sequences() {
    // Lone continuation byte.
    assert!(!validate_utf8(&vec![0x80]));
    // Overlong two-byte encoding.
    assert!(!validate_utf8(&vec![0xC0, 0xAF]));
    // Truncated three-byte encoding.
    assert!(!validate_utf8(&vec![0xE2, 0x82]));
    // Surrogate range.
    assert!(!validate_utf8(&vec![0xED, 0xA0, 0x80]));
    // Above the last code point.
    assert!(!validate_utf8(&vec![0xF4, 0x90, 0x80, 0x80]));
}

#[test]
fn convert_raw_and_path_accept_any_bytes() {
    let r = convert(ValueKind::RawBytes, vec![0xFF, 0x00]);
    assert!(matches!(r, Ok(DecodedValue::Bytes(b)) if b == vec![0xFF, 0x00]));

    let r = convert(ValueKind::PathName, vec![0xFF]);
    assert!(matches!(r, Ok(DecodedValue::PathName(b)) if b == vec![0xFF]));
}

#[test]
fn convert_text_requires_utf8() {
    let r = convert(ValueKind::Text, b"abc".to_vec());
    assert!(matches!(r, Ok(DecodedValue::Text(t)) if t == b"abc".to_vec()));

    let r = convert(ValueKind::Text, vec![0xFF]);
    assert!(matches!(r, Err(Utf8OrParseError::Utf8)));
}

#[test]
fn convert_numeric_surfaces_the_failing_step() {
    let r = convert(ValueKind::SignedInt, vec![0xFF]);
    assert!(matches!(r, Err(Utf8OrParseError::Utf8)));

    let r = convert(ValueKind::SignedInt, b"12x".to_vec());
    assert!(matches!(
        r,
        Err(Utf8OrParseError::Parse(ParseError::InvalidDigit))
    ));

    let r = convert(ValueKind::UnsignedInt, b"7".to_vec());
    assert!(matches!(r, Ok(DecodedValue::UnsignedInt(7))));

    let r = convert(ValueKind::Boolean, b"true".to_vec());
    assert!(matches!(r, Ok(DecodedValue::Boolean(true))));
}
