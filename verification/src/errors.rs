//! Error types for parsing input lines and encoding messages.

use vstd::prelude::*;

verus! {

/// Why a line could not be parsed or a field could not be inserted.
#[derive(Debug, Clone, Copy, PartialEq, Eq, Structural)]
pub enum AddStrError {
    /// Fewer than three whitespace-separated tokens on the line.
    MalformedLine,
    /// The field-number token is not a decimal number that fits in 32 bits.
    NumberParseFailure,
    /// The type tag is not one of `N`, `U`, `S`, `H`, `D`.
    UnknownType,
    /// An `N` or `U` payload is not numeric or does not fit its width.
    NumericOverflow,
    /// An `H` payload has odd length or a non-hex character.
    MalformedHex,
    /// A `D` payload has more than one decimal point or a non-digit character.
    MalformedDecimal,
    /// The field number does not fit the 32-bit presence bitmap.
    FieldNumberTooLarge(u32),
    /// The field number is already present in the message.
    DuplicateFieldNumber(u32),
}

/// Why a value could not be turned into wire bytes.
#[derive(Debug, Clone, Copy, PartialEq, Eq, Structural)]
pub enum EncodeError {
    /// A string or blob payload of 1000 bytes or more does not fit the
    /// three-digit length prefix of the wire format.
    PayloadTooLarge,
}

} // verus!
