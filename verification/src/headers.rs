//! Reading the values of game headers: text, possibly escaped, and ratings.
//!
//! Three functions here rest on outside code and are taken on trust: the
//! unescaping of a header value by `pgn_reader`, the lossy decoding of
//! UTF-8 by the standard library, and the reading of an integer by `btoi`.

use pgn_reader::RawHeader;
use vstd::prelude::*;
use vstd::utf8::{decode_utf8, valid_utf8};

use crate::decimal::{all_digits, digits_value};

verus! {

/// The byte of the backslash, which starts an escape in a header value.
pub const BACKSLASH: u8 = 92;

/// The bytes of a header value with its escapes resolved, as `pgn_reader`
/// resolves them.
pub uninterp spec fn unescaped(raw: Seq<u8>) -> Seq<u8>;

/// The text that the standard library makes of bytes meant as UTF-8, with a
/// replacement character for whatever is no UTF-8.
pub uninterp spec fn lossy_text(bytes: Seq<u8>) -> Seq<char>;

/// The text of a header value: its escapes resolved, then decoded.
pub open spec fn header_text(raw: Seq<u8>) -> Seq<char> {
    lossy_text(unescaped(raw))
}

/// The integer that `text` spells: decimal digits, at least one, after an
/// optional sign (`+` is byte 43, `-` is byte 45). `None` for any other
/// text.
pub open spec fn signed_decimal(text: Seq<u8>) -> Option<int> {
    if text.len() == 0 {
        None
    } else {
        let digits = if text[0] == 43 || text[0] == 45 {
            text.skip(1)
        } else {
            text
        };
        if digits.len() == 0 || !all_digits(digits) {
            None
        } else if text[0] == 45 {
            Some(-(digits_value(digits) as int))
        } else {
            Some(digits_value(digits) as int)
        }
    }
}

/// The rating that `text` spells: an integer that fits `i32`.
pub open spec fn rating_of(text: Seq<u8>) -> Option<i32> {
    match signed_decimal(text) {
        Some(v) => if i32::MIN <= v <= i32::MAX {
            Some(v as i32)
        } else {
            None
        },
        None => None,
    }
}

/// Calls `RawHeader::decode` of `pgn_reader`, which resolves the escapes of
/// a header value. The contract names the result, and says what the source
/// shows at a glance: a value without a backslash is returned as it is.
#[verifier::external_body]
fn unescape(raw: &[u8]) -> (r: Vec<u8>)
    ensures
        r@ == unescaped(raw@),
        (forall|i: int| 0 <= i < raw@.len() ==> raw@[i] != BACKSLASH) ==> r@ == raw@,
{
    RawHeader(raw).decode().into_owned()
}

/// Calls `String::from_utf8_lossy` of the standard library. The contract
/// names the result, and says what the documentation promises: bytes that
/// are valid UTF-8 decode to the text they encode.
#[verifier::external_body]
pub(crate) fn utf8_lossy(bytes: &[u8]) -> (r: String)
    ensures
        r@ == lossy_text(bytes@),
        valid_utf8(bytes@) ==> r@ == decode_utf8(bytes@),
{
    String::from_utf8_lossy(bytes).into_owned()
}

/// Calls `btoi::btoi` for an `i32`. As its documentation says, it accepts
/// decimal digits after an optional sign and fails on anything else and on
/// a number that does not fit.
#[verifier::external_body]
pub(crate) fn read_i32(text: &[u8]) -> (r: Option<i32>)
    ensures
        r == rating_of(text@),
{
    btoi::btoi::<i32>(text).ok()
}

/// The text of a header value, its escapes resolved.
pub fn decoded_text(raw: &[u8]) -> (r: String)
    ensures
        r@ == header_text(raw@),
        (forall|i: int| 0 <= i < raw@.len() ==> raw@[i] != BACKSLASH) ==> r@ == lossy_text(raw@),
{
    let bytes = unescape(raw);
    utf8_lossy(bytes.as_slice())
}

} // verus!
