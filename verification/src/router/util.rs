//! Percent-decoding of path parameters.

use vstd::prelude::*;
use vstd::utf8::{valid_utf8, decode_utf8, encode_utf8};

verus! {

/// The value of a hexadecimal digit (either case).
pub open spec fn hex_value(b: u8) -> Option<u8> {
    if 48 <= b <= 57 {
        Some((b - 48) as u8)
    } else if 97 <= b <= 102 {
        Some((b - 87) as u8)
    } else if 65 <= b <= 70 {
        Some((b - 55) as u8)
    } else {
        None
    }
}

/// Percent-decoding of bytes: each `%` followed by two hexadecimal digits
/// stands for the byte they spell; every other byte, a `%` without two
/// digits after it included, stands for itself.
pub open spec fn percent_decode_bytes(b: Seq<u8>) -> Seq<u8>
    decreases b.len(),
{
    if b.len() == 0 {
        Seq::empty()
    } else if b.len() >= 3 && b[0] == 37 && hex_value(b[1]) is Some && hex_value(b[2]) is Some {
        seq![(hex_value(b[1])->0 * 16 + hex_value(b[2])->0) as u8] + percent_decode_bytes(b.skip(3))
    } else {
        seq![b[0]] + percent_decode_bytes(b.skip(1))
    }
}

/// The text that `s` percent-decodes to, or `None` when the decoded bytes
/// are not UTF-8.
pub open spec fn percent_decoded(s: Seq<char>) -> Option<Seq<char>> {
    let b = percent_decode_bytes(encode_utf8(s));
    if valid_utf8(b) {
        Some(decode_utf8(b))
    } else {
        None
    }
}

/// Calls `percent_encoding::percent_decode(s.as_bytes()).decode_utf8()`:
/// the bytes of `s` are percent-decoded (see `percent_decode_bytes`) and
/// read as UTF-8, which fails where they are not UTF-8.
#[verifier::external_body]
fn percent_decode_utf8(s: &str) -> (r: Option<String>)
    ensures
        match r {
            Some(d) => percent_decoded(s@) == Some(d@),
            None => percent_decoded(s@) is None,
        },
{
    percent_encoding::percent_decode(s.as_bytes()).decode_utf8().ok().map(|d| d.into_owned())
}

/// A percent-decoded string.
#[derive(Clone, Debug, PartialEq, Eq, Hash)]
pub struct PercentDecodedStr(String);

impl View for PercentDecodedStr {
    type V = Seq<char>;

    closed spec fn view(&self) -> Seq<char> {
        self.0@
    }
}

impl PercentDecodedStr {
    /// The text that `s` percent-decodes to; `None` when the decoded bytes
    /// are not UTF-8.
    pub fn new(s: &str) -> (r: Option<PercentDecodedStr>)
        ensures
            match r {
                Some(d) => percent_decoded(s@) == Some(d@),
                None => percent_decoded(s@) is None,
            },
    {
        match percent_decode_utf8(s) {
            Some(d) => Some(PercentDecodedStr(d)),
            None => None,
        }
    }

    /// The decoded text.
    pub fn as_str(&self) -> (r: &str)
        ensures
            r@ == self@,
    {
        self.0.as_str()
    }

    /// The decoded text, owned.
    pub fn into_string(self) -> (r: String)
        ensures
            r@ == self@,
    {
        self.0
    }
}

} // verus!
