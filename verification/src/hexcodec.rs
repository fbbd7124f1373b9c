//! Hexadecimal payloads: what a hex string denotes, and the trusted call
//! into the `hex` crate that decodes one.

use vstd::prelude::*;

verus! {

/// A hexadecimal digit character, either case.
pub open spec fn is_hex_digit(c: char) -> bool {
    ('0' <= c && c <= '9') || ('a' <= c && c <= 'f') || ('A' <= c && c <= 'F')
}

/// The numeric value of one hexadecimal digit character.
pub open spec fn hex_digit_val(c: char) -> nat
    recommends
        is_hex_digit(c),
{
    if '0' <= c && c <= '9' {
        (c as int - '0' as int) as nat
    } else if 'a' <= c && c <= 'f' {
        (c as int - 'a' as int + 10) as nat
    } else {
        (c as int - 'A' as int + 10) as nat
    }
}

/// A well-formed hex string: even length, hex digits throughout.
pub open spec fn hex_valid(s: Seq<char>) -> bool {
    s.len() % 2 == 0 && (forall|i: int| 0 <= i < s.len() ==> is_hex_digit(#[trigger] s[i]))
}

/// The bytes denoted by a hex string, two digits per byte,
/// most significant digit first.
pub open spec fn hex_bytes(s: Seq<char>) -> Seq<u8>
    recommends
        hex_valid(s),
    decreases s.len(),
{
    if s.len() < 2 {
        Seq::empty()
    } else {
        seq![(hex_digit_val(s[0]) * 16 + hex_digit_val(s[1])) as u8] + hex_bytes(s.skip(2))
    }
}

/// Relies on `hex::decode`: it returns the decoded bytes exactly when the
/// input is an even-length string of hexadecimal digits of either case,
/// and reports an error (odd length or invalid character) otherwise.
#[verifier::external_body]
pub(crate) fn hex_decode(s: &str) -> (r: Option<Vec<u8>>)
    ensures
        match r {
            Some(v) => hex_valid(s@) && v@ == hex_bytes(s@),
            None => !hex_valid(s@),
        },
{
    hex::decode(s).ok()
}

} // verus!
