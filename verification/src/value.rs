//! Typed field values: parsing from a one-character type tag and a text
//! payload, and the byte-exact wire encoding of each variant.

use vstd::prelude::*;
use vstd::utf8::{encode_utf8, is_ascii_chars, is_ascii_chars_encode_utf8};
use crate::errors::{AddStrError, EncodeError};
use crate::fixnum::{fix_wf, spec_encode_fix, spec_parse_fix, FixModel, FixNumber};
use crate::hexcodec::{hex_bytes, hex_decode, hex_valid};
use crate::numparse::{all_digits, digits_value, parse_u32_digits};

verus! {

/// The mathematical content of a [`DataValue`]: the payload of each
/// variant as a plain value.
pub enum ValueModel {
    ShortValue(u16),
    LongValue(u32),
    StringValue(Seq<char>),
    HexValue(Seq<u8>),
    FixValue(FixModel),
}

/// A typed field value: one of a 16-bit unsigned integer, a 32-bit
/// unsigned integer, a text string, a byte blob, or a fixed-point number.
#[derive(Debug)]
pub enum DataValue {
    ShortValue(u16),
    LongValue(u32),
    StringValue(String),
    HexValue(Vec<u8>),
    FixValue(FixNumber),
}

impl View for DataValue {
    type V = ValueModel;

    open spec fn view(&self) -> ValueModel {
        match self {
            DataValue::ShortValue(x) => ValueModel::ShortValue(*x),
            DataValue::LongValue(x) => ValueModel::LongValue(*x),
            DataValue::StringValue(s) => ValueModel::StringValue(s@),
            DataValue::HexValue(b) => ValueModel::HexValue(b@),
            DataValue::FixValue(f) => ValueModel::FixValue(f@),
        }
    }
}

/// The invariant of a value: only its fixed-point variant carries one.
pub open spec fn vm_wf(v: ValueModel) -> bool {
    match v {
        ValueModel::FixValue(f) => fix_wf(f),
        _ => true,
    }
}

/// What a (type tag, payload text) pair denotes, and with which error
/// each unusable pair is rejected.
pub open spec fn spec_parse_value(tag: Seq<char>, text: Seq<char>) -> Result<
    ValueModel,
    AddStrError,
> {
    if tag == seq!['N'] {
        if text.len() > 0 && all_digits(text) && digits_value(text) <= u16::MAX {
            Ok(ValueModel::ShortValue(digits_value(text) as u16))
        } else {
            Err(AddStrError::NumericOverflow)
        }
    } else if tag == seq!['U'] {
        if text.len() > 0 && all_digits(text) && digits_value(text) <= u32::MAX {
            Ok(ValueModel::LongValue(digits_value(text) as u32))
        } else {
            Err(AddStrError::NumericOverflow)
        }
    } else if tag == seq!['S'] {
        Ok(ValueModel::StringValue(text))
    } else if tag == seq!['H'] {
        if hex_valid(text) {
            Ok(ValueModel::HexValue(hex_bytes(text)))
        } else {
            Err(AddStrError::MalformedHex)
        }
    } else if tag == seq!['D'] {
        match spec_parse_fix(text) {
            Some(m) => Ok(ValueModel::FixValue(m)),
            None => Err(AddStrError::MalformedDecimal),
        }
    } else {
        Err(AddStrError::UnknownType)
    }
}

/// The two little-endian bytes of a 16-bit unsigned integer.
pub open spec fn u16_le_bytes(x: u16) -> Seq<u8> {
    seq![(x % 256) as u8, (x / 256) as u8]
}

/// The four little-endian bytes of a 32-bit unsigned integer.
pub open spec fn u32_le_bytes(x: u32) -> Seq<u8> {
    seq![
        (x % 256) as u8,
        ((x / 256) % 256) as u8,
        ((x / 65536) % 256) as u8,
        ((x / 16777216) % 256) as u8,
    ]
}

/// A byte count below 1000 as three ASCII decimal digits, zero-padded.
pub open spec fn three_digits(n: nat) -> Seq<u8>
    recommends
        n < 1000,
{
    seq![(0x30 + n / 100) as u8, (0x30 + (n / 10) % 10) as u8, (0x30 + n % 10) as u8]
}

/// Whether a value fits the wire format: string and blob payloads must
/// fit the three-digit length prefix.
pub open spec fn vm_encodable(v: ValueModel) -> bool {
    match v {
        ValueModel::StringValue(s) => encode_utf8(s).len() < 1000,
        ValueModel::HexValue(b) => b.len() < 1000,
        _ => true,
    }
}

/// The wire bytes of a value: integers little-endian; strings and blobs
/// length-prefixed with three ASCII digits; fixed-point numbers with
/// their own two-byte header.
pub open spec fn spec_encode(v: ValueModel) -> Seq<u8>
    recommends
        vm_wf(v),
        vm_encodable(v),
{
    match v {
        ValueModel::ShortValue(x) => u16_le_bytes(x),
        ValueModel::LongValue(x) => u32_le_bytes(x),
        ValueModel::StringValue(s) => three_digits(encode_utf8(s).len()) + encode_utf8(s),
        ValueModel::HexValue(b) => three_digits(b.len()) + b,
        ValueModel::FixValue(f) => spec_encode_fix(f),
    }
}

/// Appends `n < 1000` as three ASCII decimal digits.
fn push_three_digits(row: &mut Vec<u8>, n: usize)
    requires
        n < 1000,
    ensures
        final(row)@ == old(row)@ + three_digits(n as nat),
{
    row.push((0x30 + n / 100) as u8);
    row.push((0x30 + (n / 10) % 10) as u8);
    row.push((0x30 + n % 10) as u8);
    assert(final(row)@ =~= old(row)@ + three_digits(n as nat));
}

impl DataValue {
    /// The invariant of this value, stated over its view.
    pub open spec fn wf(&self) -> bool {
        vm_wf(self@)
    }

    /// Parses a payload according to a one-character type tag: `N` and `U`
    /// for unsigned integers of 16 and 32 bits, `S` for text, `H` for
    /// hex-encoded bytes, `D` for a fixed-point number.
    pub fn from_str(data_type: &str, data_value: &str) -> (r: Result<DataValue, AddStrError>)
        ensures
            match r {
                Ok(v) => spec_parse_value(data_type@, data_value@) == Ok::<
                    ValueModel,
                    AddStrError,
                >(v@) && v.wf(),
                Err(e) => spec_parse_value(data_type@, data_value@) == Err::<
                    ValueModel,
                    AddStrError,
                >(e),
            },
    {
        if data_type.unicode_len() != 1 {
            return Err(AddStrError::UnknownType);
        }
        let c = data_type.get_char(0);
        proof {
            assert(data_type@ =~= seq![c]);
        }
        match c {
            'N' => match parse_u32_digits(data_value) {
                Some(v) => {
                    if v <= 0xFFFF {
                        Ok(DataValue::ShortValue(v as u16))
                    } else {
                        Err(AddStrError::NumericOverflow)
                    }
                },
                None => Err(AddStrError::NumericOverflow),
            },
            'U' => match parse_u32_digits(data_value) {
                Some(v) => Ok(DataValue::LongValue(v)),
                None => Err(AddStrError::NumericOverflow),
            },
            'S' => Ok(DataValue::StringValue(data_value.to_owned())),
            'H' => match hex_decode(data_value) {
                Some(v) => Ok(DataValue::HexValue(v)),
                None => Err(AddStrError::MalformedHex),
            },
            'D' => match FixNumber::from_str(data_value) {
                Ok(f) => Ok(DataValue::FixValue(f)),
                Err(e) => Err(e),
            },
            _ => Err(AddStrError::UnknownType),
        }
    }

    /// Encodes this value into its wire bytes; fails with
    /// `PayloadTooLarge` on a string or blob of 1000 bytes or more.
    pub fn to_bytes(&self) -> (r: Result<Vec<u8>, EncodeError>)
        requires
            self.wf(),
        ensures
            match r {
                Ok(bytes) => vm_encodable(self@) && bytes@ == spec_encode(self@),
                Err(e) => e == EncodeError::PayloadTooLarge && !vm_encodable(self@),
            },
    {
        let mut row: Vec<u8> = Vec::new();
        match self {
            DataValue::ShortValue(val) => {
                let x = *val;
                row.push((x % 256) as u8);
                row.push((x / 256) as u8);
                assert(row@ =~= u16_le_bytes(x));
            },
            DataValue::LongValue(val) => {
                let x = *val;
                row.push((x % 256) as u8);
                row.push(((x / 256) % 256) as u8);
                row.push(((x / 65536) % 256) as u8);
                row.push(((x / 16777216) % 256) as u8);
                assert(row@ =~= u32_le_bytes(x));
            },
            DataValue::StringValue(val) => {
                let bytes = val.as_str().as_bytes();
                let len = bytes.len();
                if len >= 1000 {
                    return Err(EncodeError::PayloadTooLarge);
                }
                push_three_digits(&mut row, len);
                row.extend_from_slice(bytes);
            },
            DataValue::HexValue(val) => {
                let len = val.len();
                if len >= 1000 {
                    return Err(EncodeError::PayloadTooLarge);
                }
                push_three_digits(&mut row, len);
                row.extend_from_slice(val.as_slice());
            },
            DataValue::FixValue(val) => {
                proof {
                    assert(is_ascii_chars(val.matrix@));
                    is_ascii_chars_encode_utf8(val.matrix@);
                }
                let bytes = val.matrix.as_str().as_bytes();
                row.push((0x30 + bytes.len() % 10) as u8);
                row.push((val.precision % 256) as u8);
                row.extend_from_slice(bytes);
                assert(bytes@ =~= val.matrix@.map_values(|ch: char| ch as u8));
                assert(row@ =~= spec_encode_fix(val@));
            },
        }
        Ok(row)
    }
}

} // verus!
