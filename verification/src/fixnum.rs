//! Fixed-point numbers: a digit string plus a fractional precision,
//! parsed from a decimal literal with at most one decimal point.

use vstd::prelude::*;
use vstd::string::StringExecFns;
use crate::errors::AddStrError;
use crate::numparse::{all_digits, is_digit_char, is_digit_str};

verus! {

/// The mathematical content of a [`FixNumber`]: its digit characters
/// and how many of them are fractional.
pub struct FixModel {
    pub digits: Seq<char>,
    pub precision: nat,
}

/// A fixed-point number: the decimal digits with the point removed,
/// and the number of fractional digits.
#[derive(Debug)]
pub struct FixNumber {
    pub precision: usize,
    pub matrix: String,
}

impl View for FixNumber {
    type V = FixModel;

    open spec fn view(&self) -> FixModel {
        FixModel { digits: self.matrix@, precision: self.precision as nat }
    }
}

/// The invariant of a fixed-point number: only digit characters,
/// and no more fractional digits than digits.
pub open spec fn fix_wf(m: FixModel) -> bool {
    all_digits(m.digits) && m.precision <= m.digits.len()
}

/// The index of the first decimal point in `s`, if any.
pub open spec fn first_dot(s: Seq<char>) -> Option<int>
    decreases s.len(),
{
    if s.len() == 0 {
        None
    } else if s[0] == '.' {
        Some(0int)
    } else {
        match first_dot(s.drop_first()) {
            Some(i) => Some(i + 1),
            None => None,
        }
    }
}

/// What `first_dot` finds: the first decimal point, or none at all.
pub proof fn lemma_first_dot(s: Seq<char>)
    ensures
        match first_dot(s) {
            Some(i) => 0 <= i < s.len() && s[i] == '.' && (forall|j: int|
                0 <= j < i ==> s[j] != '.'),
            None => forall|j: int| 0 <= j < s.len() ==> s[j] != '.',
        },
    decreases s.len(),
{
    if s.len() > 0 && s[0] != '.' {
        let t = s.drop_first();
        lemma_first_dot(t);
        assert(forall|j: int| 0 <= j < t.len() ==> t[j] == s[j + 1]);
        match first_dot(t) {
            Some(i) => {
                assert(first_dot(s) == Some(i + 1));
                assert(s[i + 1] == t[i]);
                assert forall|j: int| 0 <= j < i + 1 implies s[j] != '.' by {
                    if j > 0 {
                        assert(s[j] == t[j - 1]);
                    }
                }
            },
            None => {
                assert forall|j: int| 0 <= j < s.len() implies s[j] != '.' by {
                    if j > 0 {
                        assert(s[j] == t[j - 1]);
                    }
                }
            },
        }
    }
}

/// What a decimal literal denotes: with no decimal point, the digits
/// verbatim and precision zero; with one point, the digits of both parts
/// and the length of the fractional part; otherwise nothing.
pub open spec fn spec_parse_fix(s: Seq<char>) -> Option<FixModel> {
    match first_dot(s) {
        None => if all_digits(s) {
            Some(FixModel { digits: s, precision: 0 })
        } else {
            None
        },
        Some(i) => {
            let whole = s.subrange(0, i);
            let frac = s.subrange(i + 1, s.len() as int);
            if first_dot(frac) is None && all_digits(whole) && all_digits(frac) {
                Some(FixModel { digits: whole + frac, precision: frac.len() })
            } else {
                None
            }
        },
    }
}

/// Finds the first decimal point of `s`, as `first_dot` describes it.
fn find_dot(s: &str) -> (r: Option<usize>)
    ensures
        match r {
            Some(i) => first_dot(s@) == Some(i as int),
            None => first_dot(s@) is None,
        },
{
    let n = s.unicode_len();
    let mut i: usize = 0;
    while i < n
        invariant
            0 <= i <= n,
            n == s@.len(),
            forall|j: int| 0 <= j < i ==> s@[j] != '.',
        decreases n - i,
    {
        let c = s.get_char(i);
        if c == '.' {
            proof {
                lemma_first_dot(s@);
            }
            return Some(i);
        }
        i = i + 1;
    }
    proof {
        lemma_first_dot(s@);
    }
    None
}

impl FixNumber {
    /// The invariant of this number, stated over its view.
    pub open spec fn wf(&self) -> bool {
        fix_wf(self@)
    }

    /// Parses a decimal literal: an optional single decimal point between
    /// digit characters; no sign, no normalization of leading zeros.
    /// Fails with `MalformedDecimal` on a second point or a non-digit.
    pub fn from_str(data: &str) -> (r: Result<FixNumber, AddStrError>)
        ensures
            match r {
                Ok(f) => spec_parse_fix(data@) == Some(f@) && f.wf(),
                Err(e) => spec_parse_fix(data@) is None && e == AddStrError::MalformedDecimal,
            },
    {
        let n = data.unicode_len();
        match find_dot(data) {
            None => {
                if is_digit_str(data) {
                    Ok(FixNumber { precision: 0, matrix: data.to_owned() })
                } else {
                    Err(AddStrError::MalformedDecimal)
                }
            },
            Some(i) => {
                proof {
                    lemma_first_dot(data@);
                }
                let whole = data.substring_char(0, i);
                let frac = data.substring_char(i + 1, n);
                if find_dot(frac).is_some() {
                    return Err(AddStrError::MalformedDecimal);
                }
                if !is_digit_str(whole) || !is_digit_str(frac) {
                    return Err(AddStrError::MalformedDecimal);
                }
                let matrix = whole.to_owned().concat(frac);
                let precision = n - i - 1;
                Ok(FixNumber { precision, matrix })
            },
        }
    }
}

/// The wire encoding of a fixed-point number: one ASCII digit holding the
/// digit count modulo ten, one byte holding the precision modulo 256, then
/// the digit characters as ASCII bytes.
pub open spec fn spec_encode_fix(m: FixModel) -> Seq<u8>
    recommends
        fix_wf(m),
{
    seq![(0x30 + m.digits.len() % 10) as u8, (m.precision % 256) as u8] + m.digits.map_values(
        |c: char| c as u8,
    )
}

/// Reading a fixed-point encoding back: the digit bytes after the two
/// header bytes, and the precision byte.
pub open spec fn spec_decode_fix(b: Seq<u8>) -> FixModel
    recommends
        b.len() >= 2,
{
    FixModel {
        digits: b.subrange(2, b.len() as int).map_values(|x: u8| x as char),
        precision: b[1] as nat,
    }
}

/// Law: for any fixed-point number of one to nine digits, decoding the
/// encoding recovers the same digit characters and the same precision,
/// and the leading byte is the ASCII digit of the digit count.
pub proof fn lemma_fix_encode_round_trip(m: FixModel)
    requires
        fix_wf(m),
        1 <= m.digits.len() <= 9,
    ensures
        spec_encode_fix(m).len() == 2 + m.digits.len(),
        spec_decode_fix(spec_encode_fix(m)) == m,
        spec_encode_fix(m)[0] == 0x30 + m.digits.len(),
{
    let e = spec_encode_fix(m);
    assert(e.subrange(2, e.len() as int) =~= m.digits.map_values(|c: char| c as u8));
    assert forall|i: int| 0 <= i < m.digits.len() implies spec_decode_fix(e).digits[i]
        == m.digits[i] by {
        assert(is_digit_char(m.digits[i]));
    }
    assert(spec_decode_fix(e).digits =~= m.digits);
    assert(spec_decode_fix(e).precision == m.precision);
}

} // verus!
