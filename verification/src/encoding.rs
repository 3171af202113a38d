use vstd::prelude::*;

use crate::text::{decimal, decimal_string};

verus! {

/// The lowercase hex digit of a nibble (`n < 16`).
pub open spec fn hex_digit(n: u8) -> char {
    if n < 10 {
        (n + 48) as char
    } else {
        (n + 87) as char
    }
}

/// Lowercase hex encoding: two digits per byte, high nibble first.
pub open spec fn hex_encode_spec(data: Seq<u8>) -> Seq<char>
    decreases data.len(),
{
    if data.len() == 0 {
        Seq::empty()
    } else {
        seq![hex_digit(data[0] >> 4), hex_digit(data[0] & 0x0f)] + hex_encode_spec(
            data.drop_first(),
        )
    }
}

/// Value of a hex digit, either case; `None` for any other character.
pub open spec fn hex_value(c: char) -> Option<u8> {
    if '0' <= c && c <= '9' {
        Some((c as int - 48) as u8)
    } else if 'a' <= c && c <= 'f' {
        Some((c as int - 87) as u8)
    } else if 'A' <= c && c <= 'F' {
        Some((c as int - 55) as u8)
    } else {
        None
    }
}

pub open spec fn is_hex_digit(c: char) -> bool {
    hex_value(c) is Some
}

/// Every character is a hex digit.
pub open spec fn all_hex(s: Seq<char>) -> bool {
    forall|i: int| 0 <= i < s.len() ==> is_hex_digit(#[trigger] s[i])
}

/// Decoding of a string of hex digits of even length, two digits per byte.
pub open spec fn hex_decode_spec(s: Seq<char>) -> Seq<u8>
    decreases s.len(),
{
    if s.len() < 2 {
        Seq::empty()
    } else {
        seq![(hex_value(s[0]).unwrap() * 16 + hex_value(s[1]).unwrap()) as u8] + hex_decode_spec(
            s.subrange(2, s.len() as int),
        )
    }
}

/// Whether a string is a hex encoding that decodes without error.
pub open spec fn is_valid_hex(s: Seq<char>) -> bool {
    s.len() % 2 == 0 && all_hex(s)
}

/// The position of the first character that is not a hex digit.
pub open spec fn is_first_non_hex(s: Seq<char>, k: int) -> bool {
    &&& 0 <= k < s.len()
    &&& !is_hex_digit(s[k])
    &&& forall|j: int| 0 <= j < k ==> is_hex_digit(#[trigger] s[j])
}

/// The ways in which a hex string can fail to decode.
#[derive(Clone, Copy, Debug, PartialEq, Eq)]
pub enum HexError {
    /// A character that is not a hex digit, and its position.
    InvalidHexCharacter { c: char, index: usize },
    /// The string has an odd number of digits.
    OddLength,
    /// The decoded bytes do not have the expected length.
    InvalidStringLength,
}

/// What `hex::decode` reports for a string of ASCII characters.
pub open spec fn hex_decode_result(s: Seq<char>) -> Result<Seq<u8>, HexError> {
    if s.len() % 2 == 1 {
        Err(HexError::OddLength)
    } else if all_hex(s) {
        Ok(hex_decode_spec(s))
    } else {
        let k = choose|k: int| is_first_non_hex(s, k);
        Err(HexError::InvalidHexCharacter { c: s[k], index: k as usize })
    }
}

/// The text of `char`'s `Debug` format: the character in single quotes, with
/// quotes, backslashes and unprintable characters escaped.
pub uninterp spec fn char_debug_text(c: char) -> Seq<char>;

/// `<char as Debug>::fmt`, through `format!`. Stated exactly only for
/// printable ASCII other than quotes and backslash, which it writes between
/// single quotes unchanged; the escapes of other characters are left unsaid.
#[verifier::external_body]
fn char_debug(c: char) -> (s: String)
    ensures
        s@ == char_debug_text(c),
        ('!' <= c <= '~' && c != '\'' && c != '"' && c != '\\') ==> s@ == seq!['\'', c, '\''],
{
    format!("{:?}", c)
}

/// The message of a decoding error, as `hex::FromHexError` displays it.
pub open spec fn hex_error_text(e: HexError) -> Seq<char> {
    match e {
        HexError::InvalidHexCharacter { c, index } => "Invalid character "@ + char_debug_text(c)
            + " at position "@ + decimal(index as nat),
        HexError::OddLength => "Odd number of digits"@,
        HexError::InvalidStringLength => "Invalid string length"@,
    }
}

impl HexError {
    /// The message of the error.
    pub fn message(&self) -> (s: String)
        ensures
            s@ == hex_error_text(*self),
    {
        match *self {
            HexError::InvalidHexCharacter { c, index } => {
                let mut s = String::from_str("Invalid character ");
                let d = char_debug(c);
                s.append(d.as_str());
                s.append(" at position ");
                let n = decimal_string(index as u64);
                s.append(n.as_str());
                s
            },
            HexError::OddLength => String::from_str("Odd number of digits"),
            HexError::InvalidStringLength => String::from_str("Invalid string length"),
        }
    }
}

/// `hex::encode`: lowercase hex digits of the bytes, high nibble first.
#[verifier::external_body]
pub(crate) fn hex_encode(data: &[u8]) -> (s: String)
    ensures
        s@ == hex_encode_spec(data@),
{
    hex::encode(data)
}

/// `hex::decode`: the string must have an even number of bytes, all hex
/// digits of either case. For a string of ASCII characters the result, error
/// included, is `hex_decode_result`; for any other string it is an error, whose
/// variant and position this contract leaves unsaid.
#[verifier::external_body]
pub(crate) fn hex_decode(s: &str) -> (r: Result<Vec<u8>, HexError>)
    ensures
        r is Ok <==> is_valid_hex(s@),
        r matches Ok(v) ==> v@ == hex_decode_spec(s@),
        vstd::string::is_ascii(s) ==> match r {
            Ok(v) => hex_decode_result(s@) == Ok::<Seq<u8>, HexError>(v@),
            Err(e) => hex_decode_result(s@) == Err::<Seq<u8>, HexError>(e),
        },
{
    match hex::decode(s) {
        Ok(v) => Ok(v),
        Err(hex::FromHexError::InvalidHexCharacter { c, index }) => Err(
            HexError::InvalidHexCharacter { c, index },
        ),
        Err(hex::FromHexError::OddLength) => Err(HexError::OddLength),
        Err(hex::FromHexError::InvalidStringLength) => Err(HexError::InvalidStringLength),
    }
}

/// Length of an encoding: two digits per byte.
pub proof fn lemma_hex_encode_len(data: Seq<u8>)
    ensures
        hex_encode_spec(data).len() == 2 * data.len(),
    decreases data.len(),
{
    if data.len() > 0 {
        lemma_hex_encode_len(data.drop_first());
    }
}

proof fn lemma_nibbles(b: u8)
    ensures
        b >> 4 < 16,
        b & 0x0f < 16,
        (b >> 4) * 16 + (b & 0x0f) == b,
{
    assert(b >> 4 < 16) by (bit_vector);
    assert(b & 0x0f < 16) by (bit_vector);
    assert((b >> 4) * 16 + (b & 0x0f) == b) by (bit_vector);
}

proof fn lemma_digit_value(n: u8)
    requires
        n < 16,
    ensures
        hex_value(hex_digit(n)) == Some(n),
        is_hex_digit(hex_digit(n)),
{
}

/// An encoding consists of hex digits only, and decodes back to the bytes.
pub proof fn lemma_hex_roundtrip(data: Seq<u8>)
    ensures
        is_valid_hex(hex_encode_spec(data)),
        hex_decode_spec(hex_encode_spec(data)) == data,
    decreases data.len(),
{
    lemma_hex_encode_len(data);
    if data.len() > 0 {
        let rest = data.drop_first();
        lemma_hex_roundtrip(rest);
        let e = hex_encode_spec(data);
        lemma_nibbles(data[0]);
        lemma_digit_value(data[0] >> 4);
        lemma_digit_value(data[0] & 0x0f);
        assert(e.subrange(2, e.len() as int) =~= hex_encode_spec(rest));
        assert forall|i: int| 0 <= i < e.len() implies is_hex_digit(#[trigger] e[i]) by {
            if i >= 2 {
                assert(e[i] == hex_encode_spec(rest)[i - 2]);
            }
        }
        assert(hex_decode_spec(e) =~= data);
    }
}

} // verus!
