//! Decoding engine output bytes into text, through the standard
//! library's UTF-8 routines, which vstd gives no specification.

use vstd::prelude::*;

verus! {

use vstd::utf8::decode_utf8;
use vstd::utf8::valid_utf8;

/// The text that lossy UTF-8 decoding yields for the given bytes: a
/// function of the bytes alone, with invalid sequences replaced.
pub uninterp spec fn lossy_of(b: Seq<u8>) -> Seq<char>;

/// Relies on String::from_utf8_lossy: the result depends on the bytes
/// alone, and valid UTF-8 decodes unchanged.
#[verifier::external_body]
pub fn lossy_string(b: &[u8]) -> (s: String)
    ensures
        s@ == lossy_of(b@),
        valid_utf8(b@) ==> s@ == decode_utf8(b@),
        b@.len() == 0 ==> s@.len() == 0,
{
    String::from_utf8_lossy(b).into_owned()
}

/// Relies on str::from_utf8: it succeeds exactly on valid UTF-8 and
/// returns the decoded text.
#[verifier::external_body]
pub fn utf8_string(b: &[u8]) -> (r: Option<String>)
    ensures
        r is Some <==> valid_utf8(b@),
        r matches Some(s) ==> s@ == decode_utf8(b@),
{
    match core::str::from_utf8(b) {
        Ok(s) => Some(s.to_owned()),
        Err(_) => None,
    }
}

} // verus!
