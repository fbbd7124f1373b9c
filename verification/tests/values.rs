//! Tests of the typed values and fixed-point numbers on their own:
//! parsing from tag and payload, and the per-variant wire bytes.

use wiremsg::errors::{AddStrError, EncodeError};
use wiremsg::fixnum::FixNumber;
use wiremsg::value::DataValue;

#[test]
fn short_value_encodes_little_endian() {
    let v = DataValue::from_str("N", "4660").unwrap();
    assert_eq!(v.to_bytes().unwrap(), vec![0x34, 0x12]);
}

#[test]
fn long_value_encodes_little_endian() {
    let v = DataValue::from_str("U", "2309737967").unwrap();
    assert_eq!(v.to_bytes().unwrap(), vec![0xEF, 0xCD, 0xAB, 0x89]);
}

#[test]
fn string_value_keeps_text_verbatim() {
    let v = DataValue::from_str("S", "hello world").unwrap();
    match &v {
        DataValue::StringValue(s) => assert_eq!(s.as_str(), "hello world"),
        other => panic!("unexpected value: {:?}", other),
    }
    let mut expected = b"011".to_vec();
    expected.extend_from_slice(b"hello world");
    assert_eq!(v.to_bytes().unwrap(), expected);
}

#[test]
fn hex_value_decodes_pairs() {
    let v = DataValue::from_str("H", "00ff10").unwrap();
    match &v {
        DataValue::HexValue(b) => assert_eq!(b, &vec![0x00, 0xFF, 0x10]),
        other => panic!("unexpected value: {:?}", other),
    }
    let mut expected = b"003".to_vec();
    expected.extend_from_slice(&[0x00, 0xFF, 0x10]);
    assert_eq!(v.to_bytes().unwrap(), expected);
}

#[test]
fn empty_hex_payload_is_valid() {
    let v = DataValue::from_str("H", "").unwrap();
    assert_eq!(v.to_bytes().unwrap(), b"000".to_vec());
}

#[test]
fn unknown_tag_is_rejected() {
    assert!(matches!(
        DataValue::from_str("Q", "1"),
        Err(AddStrError::UnknownType)
    ));
    assert!(matches!(
        DataValue::from_str("", "1"),
        Err(AddStrError::UnknownType)
    ));
}

#[test]
fn numeric_payloads_reject_signs_and_spaces() {
    assert!(matches!(
        DataValue::from_str("N", "+1"),
        Err(AddStrError::NumericOverflow)
    ));
    assert!(matches!(
        DataValue::from_str("U", ""),
        Err(AddStrError::NumericOverflow)
    ));
}

#[test]
fn fix_number_splits_on_single_point() {
    let f = FixNumber::from_str("12.345").unwrap();
    assert_eq!(f.matrix, "12345");
    assert_eq!(f.precision, 3);
    let g = FixNumber::from_str("42").unwrap();
    assert_eq!(g.matrix, "42");
    assert_eq!(g.precision, 0);
    let h = FixNumber::from_str("7.").unwrap();
    assert_eq!(h.matrix, "7");
    assert_eq!(h.precision, 0);
    assert!(matches!(
        FixNumber::from_str("1.2.3"),
        Err(AddStrError::MalformedDecimal)
    ));
    assert!(matches!(
        FixNumber::from_str("12a"),
        Err(AddStrError::MalformedDecimal)
    ));
}

#[test]
fn lone_decimal_point_means_no_digits() {
    let f = FixNumber::from_str(".").unwrap();
    assert_eq!(f.matrix, "");
    assert_eq!(f.precision, 0);
    let v = DataValue::FixValue(f);
    assert_eq!(v.to_bytes().unwrap(), vec![b'0', 0x00]);
}

#[test]
fn fix_number_encoding_recovers_digits_and_precision() {
    for digits in ["1", "12345", "987654321"] {
        let precision = digits.len() / 2;
        let v = DataValue::FixValue(FixNumber {
            precision,
            matrix: digits.to_string(),
        });
        let bytes = v.to_bytes().unwrap();
        assert_eq!(bytes[0], b'0' + (digits.len() % 10) as u8);
        assert_eq!(bytes[1] as usize, precision);
        assert_eq!(&bytes[2..], digits.as_bytes());
    }
}

#[test]
fn fix_number_length_byte_wraps_at_ten_digits() {
    let v = DataValue::FixValue(FixNumber {
        precision: 0,
        matrix: "0123456789012".to_string(),
    });
    let bytes = v.to_bytes().unwrap();
    assert_eq!(bytes[0], b'3');
    assert_eq!(bytes.len(), 2 + 13);
}

#[test]
fn oversized_blob_reports_payload_too_large() {
    let v = DataValue::HexValue(vec![0u8; 1000]);
    assert_eq!(v.to_bytes(), Err(EncodeError::PayloadTooLarge));
    let w = DataValue::HexValue(vec![0u8; 999]);
    assert_eq!(w.to_bytes().unwrap().len(), 3 + 999);
}
