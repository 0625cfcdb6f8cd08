use vstd::prelude::*;
use vstd::utf8::{decode_utf8, valid_utf8};

verus! {

/// What `String::from_utf8_lossy` makes of a byte string (invalid sequences become
/// U+FFFD); a function of the bytes alone.
pub uninterp spec fn lossy_utf8(b: Seq<u8>) -> Seq<char>;

/// What `String::from_utf8_lossy` makes of a byte string: the decoded text of valid
/// UTF-8, else `lossy_utf8`.
pub open spec fn lenient_utf8(b: Seq<u8>) -> Seq<char> {
    if valid_utf8(b) {
        decode_utf8(b)
    } else {
        lossy_utf8(b)
    }
}

/// `String::from_utf8_lossy` (made owned): claims the result is `lossy_utf8` of the bytes,
/// which for valid UTF-8 is the decoded text, as the documentation states.
#[verifier::external_body]
pub(crate) fn string_from_utf8_lossy(b: &[u8]) -> (s: String)
    ensures
        s@ == lossy_utf8(b@),
        valid_utf8(b@) ==> s@ == decode_utf8(b@),
{
    String::from_utf8_lossy(b).into_owned()
}

/// `String::from_utf8`: claims it succeeds exactly on valid UTF-8, with the decoded text.
#[verifier::external_body]
pub(crate) fn string_from_utf8(b: Vec<u8>) -> (s: Option<String>)
    ensures
        s is Some <==> valid_utf8(b@),
        s matches Some(t) ==> t@ == decode_utf8(b@),
{
    String::from_utf8(b).ok()
}

} // verus!
