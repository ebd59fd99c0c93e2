//! From bytes to text: strict and lossy UTF-8 decoding.

use vstd::prelude::*;
use vstd::utf8::{decode_utf8, encode_utf8, encode_utf8_decode_utf8, valid_utf8};

verus! {

/// What `String::from_utf8_lossy` makes of a byte sequence: its text, with
/// U+FFFD in place of each part that is not valid UTF-8.
pub uninterp spec fn lossy_text(bytes: Seq<u8>) -> Seq<char>;

/// Decodes bytes as text, replacing what is not valid UTF-8.
///
/// Trusted: the body calls `String::from_utf8_lossy`.  Its result depends on
/// the bytes alone, and the contract gives it its name; for valid UTF-8 the
/// result is the text whose encoding the bytes are.
#[verifier::external_body]
fn decode_lossy(bytes: &[u8]) -> (r: String)
    ensures
        r@ == lossy_text(bytes@),
        valid_utf8(bytes@) ==> encode_utf8(r@) == bytes@,
{
    String::from_utf8_lossy(bytes).into_owned()
}

/// Decodes bytes as text, if they are valid UTF-8.
///
/// Trusted: the body calls `core::str::from_utf8`, which succeeds exactly on
/// valid UTF-8 and then returns the text whose encoding the bytes are.
#[verifier::external_body]
fn decode_strict(bytes: &[u8]) -> (r: Option<&str>)
    ensures
        r is Some == valid_utf8(bytes@),
        r is Some ==> encode_utf8(r->0@) == bytes@,
{
    core::str::from_utf8(bytes).ok()
}

/// The text that bytes are taken for: what they encode where they are valid
/// UTF-8, and what lossy decoding makes of them where they are not.
pub open spec fn decoded(bytes: Seq<u8>) -> Seq<char> {
    if valid_utf8(bytes) {
        decode_utf8(bytes)
    } else {
        lossy_text(bytes)
    }
}

/// The text of bytes, with U+FFFD for what is not valid UTF-8.
pub fn text_lossy(bytes: &[u8]) -> (r: String)
    ensures
        r@ == decoded(bytes@),
{
    let r = decode_lossy(bytes);
    proof {
        encode_utf8_decode_utf8(r@);
    }
    r
}

/// The text of bytes that are valid UTF-8.
pub fn text_of_bytes(bytes: &[u8]) -> (r: Option<String>)
    ensures
        match r {
            Some(s) => valid_utf8(bytes@) && s@ == decode_utf8(bytes@),
            None => !valid_utf8(bytes@),
        },
{
    match decode_strict(bytes) {
        Some(s) => {
            proof {
                encode_utf8_decode_utf8(s@);
            }
            Some(s.to_owned())
        },
        None => None,
    }
}

} // verus!
