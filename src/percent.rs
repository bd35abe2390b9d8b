//! Percent-decoding and URL paths, through the `percent-encoding` and `url`
//! crates.

use vstd::prelude::*;
use vstd::utf8::{decode_utf8, encode_utf8, valid_utf8};

verus! {

/// The value of an ASCII hexadecimal digit, of either case.
pub open spec fn hex_digit_value(b: u8) -> Option<u8> {
    if 48 <= b && b <= 57 {
        Some((b - 48) as u8)
    } else if 65 <= b && b <= 70 {
        Some((b - 55) as u8)
    } else if 97 <= b && b <= 102 {
        Some((b - 87) as u8)
    } else {
        None
    }
}

/// The bytes `b` with each `%` that two hexadecimal digits follow replaced,
/// together with the digits, by the byte that they denote.
pub open spec fn percent_decoded(b: Seq<u8>) -> Seq<u8>
    decreases b.len(),
{
    if b.len() == 0 {
        Seq::empty()
    } else if b[0] == 37u8 && b.len() >= 3 && hex_digit_value(b[1]) is Some && hex_digit_value(
        b[2],
    ) is Some {
        seq![(hex_digit_value(b[1])->0 * 16 + hex_digit_value(b[2])->0) as u8] + percent_decoded(
            b.skip(3),
        )
    } else {
        seq![b[0]] + percent_decoded(b.skip(1))
    }
}

/// The text that `s` percent-decodes to, where the decoded bytes are valid
/// UTF-8.
pub open spec fn percent_decode_utf8_spec(s: Seq<char>) -> Option<Seq<char>> {
    let d = percent_decoded(encode_utf8(s));
    if valid_utf8(d) {
        Some(decode_utf8(d))
    } else {
        None
    }
}

/// Relies on `percent_encoding::percent_decode_str` and `decode_utf8`: the
/// UTF-8 encoding of `s` is percent-decoded and read back as UTF-8, which
/// fails where the decoded bytes are not valid UTF-8.
#[verifier::external_body]
pub(crate) fn percent_decode_utf8(s: &[char]) -> (r: Option<Vec<char>>)
    ensures
        r.deep_view() == percent_decode_utf8_spec(s@),
{
    let s: String = s.iter().collect();
    match percent_encoding::percent_decode_str(&s).decode_utf8() {
        Ok(d) => Some(d.chars().collect()),
        Err(_) => None,
    }
}

/// The path of the URL that `url` denotes, `None` where it is no URL.
pub uninterp spec fn url_path(url: Seq<char>) -> Option<Seq<char>>;

/// Relies on `url::Url::parse` and `url::Url::path`: the path of the parsed
/// URL, which depends on the text of `url` alone.
#[verifier::external_body]
pub(crate) fn parsed_url_path(url: &str) -> (r: Option<Vec<char>>)
    ensures
        r.deep_view() == url_path(url@),
{
    match url::Url::parse(url) {
        Ok(u) => Some(u.path().chars().collect()),
        Err(_) => None,
    }
}

} // verus!
