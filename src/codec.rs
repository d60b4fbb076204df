//! Text codecs: base64 and URL percent-encoding.

use base64::Engine;
use vstd::prelude::*;
use vstd::string::StringSliceAdditionalSpecFns;
use vstd::utf8::{valid_utf8, decode_utf8};
use crate::pem::{base64_decoded, decode_base64};

verus! {

/// The standard base64 text (with padding) of some bytes.
pub uninterp spec fn base64_text(b: Seq<u8>) -> Seq<char>;

/// The text that lossy UTF-8 decoding makes of some bytes.
pub uninterp spec fn lossy_text(b: Seq<u8>) -> Seq<char>;

/// What percent-decoding makes of some bytes.
pub uninterp spec fn url_decoded(b: Seq<u8>) -> Seq<u8>;

/// Bytes kept as they are by percent-encoding.
pub open spec fn is_unreserved(c: u8) -> bool {
    (48 <= c <= 57) || (65 <= c <= 90) || (97 <= c <= 122) || c == 45 || c == 46 || c == 95 || c == 126
}

/// An upper-case hex digit.
pub open spec fn upper_hex(n: int) -> char {
    seq!['0', '1', '2', '3', '4', '5', '6', '7', '8', '9', 'A', 'B', 'C', 'D', 'E', 'F'][n]
}

/// Percent-encoding: unreserved bytes as themselves, every other byte as `%XX`.
pub open spec fn url_escaped(b: Seq<u8>) -> Seq<char>
    decreases b.len(),
{
    if b.len() == 0 {
        seq![]
    } else {
        let c = b.last();
        url_escaped(b.drop_last()) + if is_unreserved(c) {
            seq![c as char]
        } else {
            seq!['%', upper_hex(c as int / 16), upper_hex(c as int % 16)]
        }
    }
}

/// Relies on `base64::engine::general_purpose::STANDARD.encode`, a function of the bytes alone.
#[verifier::external_body]
fn encode_base64(b: &[u8]) -> (r: String)
    ensures
        r@ == base64_text(b@),
{
    base64::engine::general_purpose::STANDARD.encode(b)
}

/// Relies on `String::from_utf8_lossy`: valid UTF-8 comes out as its characters.
#[verifier::external_body]
fn utf8_lossy(b: &[u8]) -> (r: String)
    ensures
        r@ == lossy_text(b@),
        valid_utf8(b@) ==> r@ == decode_utf8(b@),
{
    String::from_utf8_lossy(b).to_string()
}

/// Relies on `urlencoding::decode_binary`, a function of the bytes alone.
#[verifier::external_body]
fn percent_decode(b: &[u8]) -> (r: Vec<u8>)
    ensures
        r@ == url_decoded(b@),
{
    urlencoding::decode_binary(b).into_owned()
}

/// Relies on `urlencoding::encode`: alphanumerics and `-`, `.`, `_`, `~` are kept,
/// every other byte of the UTF-8 text becomes `%` and two upper-case hex digits.
#[verifier::external_body]
fn percent_encode(s: &str) -> (r: String)
    ensures
        r@ == url_escaped(s.spec_bytes()),
{
    urlencoding::encode(s).into_owned()
}

/// The base64 text of the input's UTF-8 bytes.
pub fn base64_encode(input: &str) -> (r: String)
    ensures
        r@ == base64_text(input.spec_bytes()),
{
    encode_base64(input.as_bytes())
}

/// The text that the base64 input decodes to (invalid UTF-8 replaced), or a
/// description of why the input is not base64.
pub fn base64_decode(input: &str) -> (r: String)
    ensures
        base64_decoded(input.spec_bytes()) matches Some(b) ==> r@ == lossy_text(b),
{
    match decode_base64(input.as_bytes()) {
        Ok(b) => utf8_lossy(b.as_slice()),
        Err(e) => e,
    }
}

/// The text that percent-decoding the input gives (invalid UTF-8 replaced).
pub fn url_decode(input: &str) -> (r: String)
    ensures
        r@ == lossy_text(url_decoded(input.spec_bytes())),
{
    let b = percent_decode(input.as_bytes());
    utf8_lossy(b.as_slice())
}

/// The input percent-encoded.
pub fn url_encode(input: &str) -> (r: String)
    ensures
        r@ == url_escaped(input.spec_bytes()),
{
    percent_encode(input)
}

} // verus!
