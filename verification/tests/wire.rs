//! End-to-end tests of the line grammar, insertion rules, presence
//! bitmap, and the wire bytes of whole messages.

use wiremsg::errors::{AddStrError, EncodeError};
use wiremsg::message::{build_bitmap, AddStr, Message};
use wiremsg::value::DataValue;

#[test]
fn empty_message_serializes_to_bare_bitmap() {
    let m = Message::new();
    assert_eq!(m.len(), 0);
    assert_eq!(build_bitmap(&m), 0);
    assert_eq!(m.serialize().unwrap(), vec![0, 0, 0, 0]);
}

#[test]
fn two_numeric_fields() {
    let mut m = Message::new();
    m.add_str("0 N 42").unwrap();
    m.add_str("1 U 1000000").unwrap();
    assert_eq!(build_bitmap(&m), 3);
    let bytes = m.serialize().unwrap();
    assert_eq!(
        bytes,
        vec![0x03, 0x00, 0x00, 0x00, 0x2A, 0x00, 0x40, 0x42, 0x0F, 0x00]
    );
}

#[test]
fn string_field() {
    let mut m = Message::new();
    m.add_str("2 S hello").unwrap();
    assert_eq!(build_bitmap(&m), 4);
    let mut expected = vec![0x04, 0x00, 0x00, 0x00];
    expected.extend_from_slice(b"005");
    expected.extend_from_slice(b"hello");
    assert_eq!(m.serialize().unwrap(), expected);
}

#[test]
fn hex_field() {
    let mut m = Message::new();
    m.add_str("3 H deadbeef").unwrap();
    match m.get(3) {
        Some(DataValue::HexValue(v)) => assert_eq!(v, &vec![0xDE, 0xAD, 0xBE, 0xEF]),
        other => panic!("unexpected value: {:?}", other),
    }
    let mut expected = vec![0x08, 0x00, 0x00, 0x00];
    expected.extend_from_slice(b"004");
    expected.extend_from_slice(&[0xDE, 0xAD, 0xBE, 0xEF]);
    assert_eq!(m.serialize().unwrap(), expected);
}

#[test]
fn decimal_field() {
    let mut m = Message::new();
    m.add_str("4 D 12.345").unwrap();
    match m.get(4) {
        Some(DataValue::FixValue(f)) => {
            assert_eq!(f.matrix, "12345");
            assert_eq!(f.precision, 3);
        }
        other => panic!("unexpected value: {:?}", other),
    }
    let mut expected = vec![0x10, 0x00, 0x00, 0x00];
    expected.push(b'5');
    expected.push(0x03);
    expected.extend_from_slice(b"12345");
    assert_eq!(m.serialize().unwrap(), expected);
}

#[test]
fn duplicate_number_keeps_first_value() {
    let mut m = Message::new();
    m.add_str("5 N 1").unwrap();
    assert_eq!(
        m.add_str("5 U 2"),
        Err(AddStrError::DuplicateFieldNumber(5))
    );
    assert_eq!(m.len(), 1);
    match m.get(5) {
        Some(DataValue::ShortValue(v)) => assert_eq!(*v, 1),
        other => panic!("unexpected value: {:?}", other),
    }
}

#[test]
fn field_number_boundary() {
    let mut m = Message::new();
    assert_eq!(m.add_str("32 N 1"), Err(AddStrError::FieldNumberTooLarge(32)));
    assert_eq!(m.len(), 0);
    m.add_str("31 N 1").unwrap();
    assert_eq!(build_bitmap(&m), 1u32 << 31);
}

#[test]
fn each_number_sets_its_own_bit() {
    for n in [0u32, 7, 15, 31] {
        let mut m = Message::new();
        m.add_str(&format!("{} S x", n)).unwrap();
        assert_eq!(build_bitmap(&m), 1u32 << n);
    }
}

#[test]
fn bitmap_accumulates_distinct_bits() {
    let mut m = Message::new();
    m.add_str("0 N 1").unwrap();
    m.add_str("5 N 2").unwrap();
    m.add_str("31 U 7").unwrap();
    assert_eq!(build_bitmap(&m), 1 | (1 << 5) | (1u32 << 31));
}

#[test]
fn fields_serialize_in_ascending_number_order() {
    let mut m = Message::new();
    m.add_str("9 N 2").unwrap();
    m.add_str("1 N 1").unwrap();
    let bytes = m.serialize().unwrap();
    let bitmap = (1u32 << 9) | (1 << 1);
    let mut expected = bitmap.to_le_bytes().to_vec();
    expected.extend_from_slice(&[0x01, 0x00, 0x02, 0x00]);
    assert_eq!(bytes, expected);
}

#[test]
fn serialized_length_is_four_plus_field_encodings() {
    let mut m = Message::new();
    m.add_str("1 N 7").unwrap();
    m.add_str("2 S hello").unwrap();
    m.add_str("3 H beef").unwrap();
    m.add_str("4 D 1.5").unwrap();
    let len = m.serialize().unwrap().len();
    assert_eq!(len, 4 + 2 + (3 + 5) + (3 + 2) + (2 + 2));
}

#[test]
fn malformed_line_needs_three_tokens() {
    let mut m = Message::new();
    assert_eq!(m.add_str(""), Err(AddStrError::MalformedLine));
    assert_eq!(m.add_str("1 N"), Err(AddStrError::MalformedLine));
    assert_eq!(m.add_str("   "), Err(AddStrError::MalformedLine));
    assert_eq!(m.len(), 0);
}

#[test]
fn field_number_must_be_decimal_digits() {
    let mut m = Message::new();
    assert_eq!(m.add_str("x N 1"), Err(AddStrError::NumberParseFailure));
    assert_eq!(m.add_str("+1 N 1"), Err(AddStrError::NumberParseFailure));
    assert_eq!(m.add_str("4294967296 N 1"), Err(AddStrError::NumberParseFailure));
    m.add_str("007 N 1").unwrap();
    assert_eq!(build_bitmap(&m), 1 << 7);
}

#[test]
fn unknown_type_tag() {
    let mut m = Message::new();
    assert_eq!(m.add_str("1 Z foo"), Err(AddStrError::UnknownType));
    assert_eq!(m.add_str("1 NN 1"), Err(AddStrError::UnknownType));
}

#[test]
fn numeric_payload_bounds() {
    let mut m = Message::new();
    assert_eq!(m.add_str("1 N 65536"), Err(AddStrError::NumericOverflow));
    assert_eq!(m.add_str("2 N 12a"), Err(AddStrError::NumericOverflow));
    assert_eq!(m.add_str("3 U 4294967296"), Err(AddStrError::NumericOverflow));
    m.add_str("1 N 65535").unwrap();
    m.add_str("3 U 4294967295").unwrap();
    let bytes = m.serialize().unwrap();
    let mut expected = vec![0x0A, 0x00, 0x00, 0x00];
    expected.extend_from_slice(&[0xFF, 0xFF]);
    expected.extend_from_slice(&[0xFF, 0xFF, 0xFF, 0xFF]);
    assert_eq!(bytes, expected);
}

#[test]
fn hex_payload_rules() {
    let mut m = Message::new();
    assert_eq!(m.add_str("1 H abc"), Err(AddStrError::MalformedHex));
    assert_eq!(m.add_str("1 H zz"), Err(AddStrError::MalformedHex));
    m.add_str("1 H AbCd").unwrap();
    match m.get(1) {
        Some(DataValue::HexValue(v)) => assert_eq!(v, &vec![0xAB, 0xCD]),
        other => panic!("unexpected value: {:?}", other),
    }
}

#[test]
fn decimal_payload_rules() {
    let mut m = Message::new();
    assert_eq!(m.add_str("1 D 1.2.3"), Err(AddStrError::MalformedDecimal));
    assert_eq!(m.add_str("1 D 12a"), Err(AddStrError::MalformedDecimal));
    assert_eq!(m.add_str("1 D -1"), Err(AddStrError::MalformedDecimal));
    m.add_str("1 D .5").unwrap();
    match m.get(1) {
        Some(DataValue::FixValue(f)) => {
            assert_eq!(f.matrix, "5");
            assert_eq!(f.precision, 1);
        }
        other => panic!("unexpected value: {:?}", other),
    }
}

#[test]
fn payload_whitespace_collapses_to_single_spaces() {
    let mut m = Message::new();
    m.add_str("1 S a  b\tc").unwrap();
    match m.get(1) {
        Some(DataValue::StringValue(s)) => assert_eq!(s.as_str(), "a b c"),
        other => panic!("unexpected value: {:?}", other),
    }
}

#[test]
fn string_length_prefix_counts_utf8_bytes() {
    let mut m = Message::new();
    m.add_str("0 S \u{e9}").unwrap();
    let bytes = m.serialize().unwrap();
    let mut expected = vec![0x01, 0x00, 0x00, 0x00];
    expected.extend_from_slice(b"002");
    expected.extend_from_slice(&[0xC3, 0xA9]);
    assert_eq!(bytes, expected);
}

#[test]
fn oversized_payload_fails_to_serialize() {
    let mut m = Message::new();
    let line = format!("0 S {}", "x".repeat(1000));
    m.add_str(&line).unwrap();
    assert_eq!(m.serialize(), Err(EncodeError::PayloadTooLarge));
}

#[test]
fn largest_encodable_payload_serializes() {
    let mut m = Message::new();
    let line = format!("0 S {}", "x".repeat(999));
    m.add_str(&line).unwrap();
    let bytes = m.serialize().unwrap();
    assert_eq!(bytes.len(), 4 + 3 + 999);
    assert_eq!(&bytes[4..7], b"999");
}
