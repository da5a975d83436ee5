//! Byte and text codings done by outside crates: base64url without padding
//! (`base64`), percent encoding (`urlencoding`), UTF-8 checking (std) and
//! HMAC-SHA-256 (`hmac`, `sha2`).
use vstd::prelude::*;

use base64::engine::general_purpose::URL_SAFE_NO_PAD;
use base64::Engine;
use hmac::{Hmac, Mac};
use sha2::Sha256;
use vstd::utf8::{decode_utf8, encode_utf8, valid_utf8};

verus! {

/// The text `base64`'s `URL_SAFE_NO_PAD` engine encodes `bytes` to.
pub uninterp spec fn base64url_encoded(bytes: Seq<u8>) -> Seq<char>;

/// The bytes `base64`'s `URL_SAFE_NO_PAD` engine decodes from `s`, `None`
/// when it refuses the text.
pub uninterp spec fn base64url_decoded(s: Seq<char>) -> Option<Seq<u8>>;

/// A character of the URL-safe base64 alphabet: `A-Z`, `a-z`, `0-9`, `-`, `_`.
pub open spec fn is_base64url_char(c: char) -> bool {
    ||| ('A' as u32 <= c as u32 && c as u32 <= 'Z' as u32)
    ||| ('a' as u32 <= c as u32 && c as u32 <= 'z' as u32)
    ||| ('0' as u32 <= c as u32 && c as u32 <= '9' as u32)
    ||| c == '-'
    ||| c == '_'
}

/// Encode bytes as base64url without padding by `URL_SAFE_NO_PAD.encode`.
///
/// Trusted: the text is the engine's encoding of the bytes; it is made of
/// the URL-safe alphabet only (no padding is written), and the same
/// engine's `decode` gives the bytes back.
#[verifier::external_body]
pub(crate) fn encode_base64url(bytes: &[u8]) -> (r: String)
    ensures
        r@ == base64url_encoded(bytes@),
        base64url_decoded(r@) == Some(bytes@),
        forall|i: int| 0 <= i < r@.len() ==> is_base64url_char(#[trigger] r@[i]),
{
    URL_SAFE_NO_PAD.encode(bytes)
}

/// Decode base64url text without padding by `URL_SAFE_NO_PAD.decode`.
///
/// Trusted: the result is what the engine returns for this text (its error
/// mapped to `None`); nothing is claimed about which texts it accepts.
#[verifier::external_body]
pub(crate) fn decode_base64url(value: &str) -> (r: Option<Vec<u8>>)
    ensures
        match r {
            Some(b) => base64url_decoded(value@) == Some(b@),
            None => base64url_decoded(value@) is None,
        },
{
    URL_SAFE_NO_PAD.decode(value).ok()
}

/// A byte that percent encoding leaves as it is: an ASCII letter or digit,
/// `-`, `.`, `_` or `~`.
pub open spec fn is_unreserved_byte(b: u8) -> bool {
    ||| (48 <= b && b <= 57)
    ||| (65 <= b && b <= 90)
    ||| (97 <= b && b <= 122)
    ||| b == 45
    ||| b == 46
    ||| b == 95
    ||| b == 126
}

/// Upper-case hexadecimal digit of `d` (below 16).
pub open spec fn hex_digit(d: int) -> char {
    if d < 10 {
        (48 + d) as char
    } else {
        (55 + d) as char
    }
}

/// The text one byte is percent-encoded to.
pub open spec fn byte_encoding(b: u8) -> Seq<char> {
    if is_unreserved_byte(b) {
        seq![b as char]
    } else {
        seq!['%', hex_digit(b as int / 16), hex_digit(b as int % 16)]
    }
}

/// Percent encoding of `bytes`: each byte is kept when unreserved, else
/// written as `%` and two upper-case hexadecimal digits.
pub open spec fn percent_encoded(bytes: Seq<u8>) -> Seq<char>
    decreases bytes.len(),
{
    if bytes.len() == 0 {
        Seq::empty()
    } else {
        percent_encoded(bytes.drop_last()) + byte_encoding(bytes.last())
    }
}

/// Percent-encode the UTF-8 bytes of `s` by `urlencoding::encode`.
///
/// Trusted: the crate's documentation and source encode every byte except
/// ASCII alphanumerics and `-`, `_`, `.`, `~` as `%` followed by two
/// upper-case hexadecimal digits, and copy those four and the alphanumerics.
#[verifier::external_body]
pub(crate) fn url_encode(s: &str) -> (r: String)
    ensures
        r@ == percent_encoded(encode_utf8(s@)),
{
    urlencoding::encode(s).into_owned()
}

/// Read bytes as UTF-8 text by `std::str::from_utf8`.
///
/// Trusted: std documents that it succeeds exactly on valid UTF-8, and then
/// gives the text those bytes encode.
#[verifier::external_body]
pub(crate) fn utf8_text(bytes: &[u8]) -> (r: Option<String>)
    ensures
        match r {
            Some(s) => valid_utf8(bytes@) && s@ == decode_utf8(bytes@),
            None => !valid_utf8(bytes@),
        },
{
    std::str::from_utf8(bytes).ok().map(|s| s.to_string())
}

/// The HMAC-SHA-256 tag of `msg` under `key`.
pub uninterp spec fn hmac_sha256(key: Seq<u8>, msg: Seq<u8>) -> Seq<u8>;

/// The HMAC-SHA-256 tag of `msg` under `key`, by `Hmac::<Sha256>`
/// (`new_from_slice`, `update`, `finalize`).
///
/// Trusted: the tag is the MAC of this key and message, 32 bytes long (the
/// SHA-256 output size); `new_from_slice` accepts keys of any length, as its
/// source shows.
#[verifier::external_body]
pub(crate) fn hmac_sha256_tag(key: &[u8], msg: &[u8]) -> (r: Vec<u8>)
    ensures
        r@ == hmac_sha256(key@, msg@),
        r@.len() == 32,
{
    match <Hmac<Sha256> as Mac>::new_from_slice(key) {
        Ok(mut mac) => {
            mac.update(msg);
            mac.finalize().into_bytes().to_vec()
        },
        Err(_) => Vec::new(),
    }
}

/// Check a tag by `Hmac::<Sha256>` (`new_from_slice`, `update`, `verify_slice`).
///
/// Trusted: `verify_slice` accepts exactly a tag of the MAC's length equal
/// to the MAC of this key and message (compared in constant time).
#[verifier::external_body]
pub(crate) fn hmac_sha256_verify(key: &[u8], msg: &[u8], tag: &[u8]) -> (r: bool)
    ensures
        r == (tag@ == hmac_sha256(key@, msg@)),
{
    match <Hmac<Sha256> as Mac>::new_from_slice(key) {
        Ok(mut mac) => {
            mac.update(msg);
            mac.verify_slice(tag).is_ok()
        },
        Err(_) => false,
    }
}

} // verus!
