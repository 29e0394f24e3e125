//! What the HTTP transport accepts: status codes, header values as text, and
//! bodies read as text. The functions here call into `actix_web::http` and the
//! standard library; their contracts are taken on trust.

use actix_web::http::header::HeaderValue;
use actix_web::http::StatusCode;
use vstd::prelude::*;
use vstd::utf8::{decode_utf8, valid_utf8};

verus! {

/// The status codes that the transport can send: three decimal digits, the
/// first of them not zero.
pub open spec fn is_status(code: u16) -> bool {
    100 <= code && code <= 999
}

/// A byte that may stand in a header value read as text: printable ASCII,
/// the blank, or a horizontal tab.
pub open spec fn is_visible(b: u8) -> bool {
    (32 <= b && b < 127) || b == 9
}

/// True when a header value can be read as text.
pub open spec fn is_text(value: Seq<u8>) -> bool {
    forall|i: int| 0 <= i < value.len() ==> is_visible(#[trigger] value[i])
}

/// A header value read as text, byte for character.
pub open spec fn text_of(value: Seq<u8>) -> Seq<char> {
    Seq::new(value.len(), |i: int| value[i] as char)
}

/// The text that lenient UTF-8 decoding makes of a run of bytes: valid parts
/// are decoded, every invalid part becomes U+FFFD.
pub uninterp spec fn utf8_lossy(bytes: Seq<u8>) -> Seq<char>;

/// Asks `StatusCode::from_u16` whether it accepts `code`. It accepts exactly
/// the codes from 100 to 999.
#[verifier::external_body]
pub(crate) fn accepts_status(code: u16) -> (ok: bool)
    ensures
        ok == is_status(code),
{
    StatusCode::from_u16(code).is_ok()
}

/// Reads a header value as text, through `HeaderValue::from_bytes` and
/// `HeaderValue::to_str`. The first refuses control bytes other than the tab,
/// the second everything that is not printable ASCII, blank or tab; what
/// passes both comes back unchanged, one character per byte.
#[verifier::external_body]
pub(crate) fn read_text(value: &[u8]) -> (text: Option<String>)
    ensures
        text is Some <==> is_text(value@),
        text matches Some(t) ==> t@ == text_of(value@),
{
    match HeaderValue::from_bytes(value) {
        Ok(held) => match held.to_str() {
            Ok(t) => Some(t.to_owned()),
            Err(_) => None,
        },
        Err(_) => None,
    }
}

/// Decodes bytes as UTF-8 with `String::from_utf8_lossy`, which never fails:
/// invalid sequences are replaced. Bytes that are valid UTF-8 give the text
/// they encode.
#[verifier::external_body]
pub(crate) fn decode_lossy(bytes: &[u8]) -> (text: String)
    ensures
        text@ == utf8_lossy(bytes@),
        valid_utf8(bytes@) ==> text@ == decode_utf8(bytes@),
{
    String::from_utf8_lossy(bytes).into_owned()
}

} // verus!
