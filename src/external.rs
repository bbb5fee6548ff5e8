//! The calls into outside code that the library relies on, each with the
//! contract that the library assumes of it.

use vstd::prelude::*;
use vstd::utf8::{encode_utf8, valid_utf8};

verus! {

#[verifier::external_type_specification]
#[verifier::external_body]
pub struct ExFromHexError(hex::FromHexError);

/// The value of an ASCII hexadecimal digit, either case.
pub open spec fn hex_digit(c: u8) -> Option<u8> {
    if 48 <= c <= 57 {
        Some((c - 48) as u8)
    } else if 97 <= c <= 102 {
        Some((c - 87) as u8)
    } else if 65 <= c <= 70 {
        Some((c - 55) as u8)
    } else {
        None
    }
}

/// The bytes that the hexadecimal text `s` spells, two digits per byte,
/// high digit first.
pub open spec fn hex_decoded(s: Seq<u8>) -> Option<Seq<u8>> {
    if s.len() % 2 == 0 && forall|i: int| 0 <= i < s.len() ==> #[trigger] hex_digit(s[i]) is Some {
        Some(
            Seq::new(
                s.len() / 2,
                |i: int| (16 * hex_digit(s[2 * i]).unwrap() + hex_digit(s[2 * i + 1]).unwrap()) as u8,
            ),
        )
    } else {
        None
    }
}

/// Relies on hex::decode: fails on a text of odd length or with a byte that
/// is not a hexadecimal digit; otherwise gives the byte of each pair of
/// digits.
#[verifier::external_body]
pub(crate) fn hex_decode(s: &[u8]) -> (r: Result<Vec<u8>, hex::FromHexError>)
    ensures
        r is Ok <==> hex_decoded(s@) is Some,
        r matches Ok(v) ==> hex_decoded(s@) == Some(v@),
{
    hex::decode(s)
}

/// What gzip decompression of `b` gives: the bytes, or `None` when `b` is
/// not a well-formed gzip stream.
pub uninterp spec fn gunzip_of(b: Seq<u8>) -> Option<Seq<u8>>;

/// Relies on flate2's `read::GzDecoder`, read to its end: the decompressed
/// bytes of a gzip stream, which depend on the stream alone.
#[verifier::external_body]
pub(crate) fn gunzip(b: &[u8]) -> (r: Option<Vec<u8>>)
    ensures
        r is Some <==> gunzip_of(b@) is Some,
        r matches Some(v) ==> gunzip_of(b@) == Some(v@),
{
    let mut out = Vec::new();
    match std::io::Read::read_to_end(&mut flate2::read::GzDecoder::new(b), &mut out) {
        Ok(_) => Some(out),
        Err(_) => None,
    }
}

/// Relies on std's `String::from_utf8`: the text whose UTF-8 encoding is
/// `b`, or an error when `b` is not valid UTF-8.
#[verifier::external_body]
pub(crate) fn utf8_string(b: Vec<u8>) -> (r: Option<String>)
    ensures
        r is Some <==> valid_utf8(b@),
        r matches Some(s) ==> encode_utf8(s@) == b@,
{
    String::from_utf8(b).ok()
}

} // verus!
