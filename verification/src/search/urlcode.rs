//! Percent-encoding and -decoding of URL components, through the
//! `urlencoding` crate.

use vstd::prelude::*;
use vstd::utf8::{decode_utf8, encode_utf8, valid_utf8};

verus! {

/// Bytes that `urlencoding` leaves as they are: ASCII letters, digits, `-`,
/// `.`, `_` and `~`.
pub open spec fn is_unreserved(b: u8) -> bool {
    ||| (48 <= b && b <= 57)
    ||| (65 <= b && b <= 90)
    ||| (97 <= b && b <= 122)
    ||| b == 45
    ||| b == 46
    ||| b == 95
    ||| b == 126
}

/// Upper-case hexadecimal digit for `d < 16`.
pub open spec fn hex_digit(d: u8) -> char {
    if d < 10 {
        ((48 + d) as u8) as char
    } else {
        ((55 + d) as u8) as char
    }
}

/// The text one byte becomes: itself when unreserved, else `%XX`.
pub open spec fn encode_byte(b: u8) -> Seq<char> {
    if is_unreserved(b) {
        seq![b as char]
    } else {
        seq!['%', hex_digit(b / 16), hex_digit(b % 16)]
    }
}

/// Percent-encoding of a byte string.
pub open spec fn percent_encode_bytes(b: Seq<u8>) -> Seq<char>
    decreases b.len(),
{
    if b.len() == 0 {
        seq![]
    } else {
        encode_byte(b[0]) + percent_encode_bytes(b.drop_first())
    }
}

/// Percent-encoding of the UTF-8 bytes of `s`.
pub open spec fn percent_encoded(s: Seq<char>) -> Seq<char> {
    percent_encode_bytes(encode_utf8(s))
}

/// Value of a hexadecimal digit byte (either case).
pub open spec fn hex_value(b: u8) -> Option<u8> {
    if 48 <= b && b <= 57 {
        Some((b - 48) as u8)
    } else if 65 <= b && b <= 70 {
        Some((b - 55) as u8)
    } else if 97 <= b && b <= 102 {
        Some((b - 87) as u8)
    } else {
        None
    }
}

/// Percent-decoding of a byte string: `%` followed by two hexadecimal digits
/// becomes the byte they spell; every other byte stays as it is.
pub open spec fn percent_decode_bytes(b: Seq<u8>) -> Seq<u8>
    decreases b.len(),
{
    if b.len() == 0 {
        seq![]
    } else if b[0] == 37 && b.len() >= 3 && hex_value(b[1]) is Some && hex_value(b[2]) is Some {
        seq![(hex_value(b[1]).unwrap() * 16 + hex_value(b[2]).unwrap()) as u8]
            + percent_decode_bytes(b.skip(3))
    } else {
        seq![b[0]] + percent_decode_bytes(b.drop_first())
    }
}

/// The decoded text of `s`, when the decoded bytes are valid UTF-8.
pub open spec fn percent_decoded(s: Seq<char>) -> Option<Seq<char>> {
    let d = percent_decode_bytes(encode_utf8(s));
    if valid_utf8(d) {
        Some(decode_utf8(d))
    } else {
        None
    }
}

/// `urlencoding::encode`: every UTF-8 byte of `s` except ASCII letters,
/// digits and `-._~` becomes `%` and two upper-case hexadecimal digits.
/// Claims exactly that, over the UTF-8 bytes of the input.
#[verifier::external_body]
pub(crate) fn percent_encode(s: &str) -> (r: String)
    ensures
        r@ == percent_encoded(s@),
{
    urlencoding::encode(s).into_owned()
}

/// `urlencoding::decode`: turns `%XX` escapes back into bytes and reads the
/// bytes as UTF-8. Claims that the result is `Some` exactly when the decoded
/// bytes are valid UTF-8, and is then their text; the crate's error
/// (`FromUtf8Error`) becomes `None`.
#[verifier::external_body]
pub(crate) fn percent_decode(s: &str) -> (r: Option<String>)
    ensures
        match r {
            Some(d) => percent_decoded(s@) == Some(d@),
            None => percent_decoded(s@) is None,
        },
{
    urlencoding::decode(s).ok().map(|c| c.into_owned())
}

} // verus!
