//! The encoding boundary: tokens live in the buffer as bytes but are
//! handed out as strings, so validity and decoding of UTF-8 are named
//! here and supplied by the standard library.

use vstd::prelude::*;

verus! {

/// Whether `str::from_utf8` accepts `bytes` as UTF-8 text.
pub uninterp spec fn utf8_ok(bytes: Seq<u8>) -> bool;

/// The characters `str::from_utf8` decodes valid `bytes` into.
pub uninterp spec fn chars_of(bytes: Seq<u8>) -> Seq<char>;

/// The UTF-8 bytes that encode the text `s`, as `str::as_bytes` hands
/// them back.
pub uninterp spec fn bytes_of(s: Seq<char>) -> Seq<u8>;

/// Relies on str::from_utf8: tells valid UTF-8 from invalid; the empty
/// slice is valid.
#[verifier::external_body]
pub(crate) fn utf8_check(bytes: &[u8]) -> (r: bool)
    ensures
        r == utf8_ok(bytes@),
        bytes@.len() == 0 ==> r,
{
    core::str::from_utf8(bytes).is_ok()
}

/// Relies on String::from_utf8: decodes valid UTF-8 bytes into the string
/// of their characters; the string is empty exactly when the bytes are,
/// and encoding the string back (`str::as_bytes`) gives the input bytes —
/// the documented round trip.
#[verifier::external_body]
pub(crate) fn bytes_to_string(bytes: Vec<u8>) -> (r: String)
    requires
        utf8_ok(bytes@),
    ensures
        r@ == chars_of(bytes@),
        r@.len() == 0 <==> bytes@.len() == 0,
        bytes_of(r@) == bytes@,
{
    String::from_utf8(bytes).unwrap()
}

} // verus!
