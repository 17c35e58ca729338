//! Text out of bytes.

use vstd::prelude::*;
use vstd::utf8::*;

verus! {

/// What [`String::from_utf8_lossy`] makes of some bytes.
pub uninterp spec fn utf8_lossy(bytes: Seq<u8>) -> Seq<char>;

/// Calls [`String::from_utf8_lossy`]. The result depends on the bytes alone,
/// and where they are valid UTF-8 it is the text that they encode. What stands
/// in place of bytes that are not valid is not said here.
#[verifier::external_body]
pub(crate) fn lossy_text(bytes: &[u8]) -> (r: String)
    ensures
        r@ == utf8_lossy(bytes@),
        valid_utf8(bytes@) ==> r@ == decode_utf8(bytes@),
{
    String::from_utf8_lossy(bytes).into_owned()
}

} // verus!
