use vstd::prelude::*;
use vstd::string::StringSliceAdditionalSpecFns;
use vstd::utf8::{
    decode_utf8, encode_utf8, encode_utf8_decode_utf8, encode_utf8_valid_utf8, valid_utf8,
};

use super::buf::{buf_bytes, encoded};
use super::bytes_field::{
    bytes_field, decode_bytes, encode_bytes, lemma_bytes_roundtrip, spec_decode_bytes,
};
use super::error::{DecodeError, EncodeError};
use super::string::string_from_utf8;
use super::varint::varint_bound;

verus! {

broadcast use crate::coding::varint::lemma_decode_varint_len;

/// The wire form of a text: its UTF-8 bytes, length-prefixed.
pub open spec fn string_bytes(s: Seq<char>) -> Seq<u8> {
    bytes_field(encode_utf8(s))
}

/// A text can be encoded when its UTF-8 length fits a variable-length integer.
pub open spec fn string_encodable(s: Seq<char>) -> bool {
    encode_utf8(s).len() < varint_bound()
}

/// Decoding a length-prefixed text from the front of `s`; bytes that are not UTF-8 are
/// refused.
pub open spec fn spec_decode_string(s: Seq<u8>) -> Result<(Seq<char>, int), DecodeError> {
    match spec_decode_bytes(s) {
        Ok((b, n)) => if valid_utf8(b) {
            Ok((decode_utf8(b), n))
        } else {
            Err(DecodeError::InvalidString)
        },
        Err(e) => Err(e),
    }
}

/// Every text whose UTF-8 form is shorter than 2^62 bytes decodes from its wire form.
pub proof fn lemma_string_roundtrip(s: Seq<char>, rest: Seq<u8>)
    requires
        string_encodable(s),
        encode_utf8(s).len() <= usize::MAX,
    ensures
        spec_decode_string(string_bytes(s) + rest) == Ok::<(Seq<char>, int), DecodeError>(
            (s, string_bytes(s).len() as int),
        ),
{
    lemma_bytes_roundtrip(encode_utf8(s), rest);
    encode_utf8_valid_utf8(s);
    encode_utf8_decode_utf8(s);
}

/// Appends a text: its UTF-8 length, then its bytes.
pub fn encode_string(s: &str, w: &mut bytes::BytesMut) -> (res: Result<(), EncodeError>)
    ensures
        encoded(
            res,
            buf_bytes(*old(w)),
            buf_bytes(*final(w)),
            string_encodable(s@),
            string_bytes(s@),
            EncodeError::BoundsExceeded,
        ),
{
    encode_bytes(s.as_bytes(), w)
}

/// Reads a length-prefixed text.
pub fn decode_string(r: &mut bytes::BytesMut) -> (res: Result<String, DecodeError>)
    ensures
        match spec_decode_string(buf_bytes(*old(r))) {
            Ok((v, n)) => res is Ok && res->Ok_0@ == v && buf_bytes(*final(r)) == buf_bytes(
                *old(r),
            ).skip(n) && 0 < n <= buf_bytes(*old(r)).len(),
            Err(e) => res == Err::<String, DecodeError>(e),
        },
{
    let v = decode_bytes(r)?;
    match string_from_utf8(v) {
        Some(t) => Ok(t),
        None => Err(DecodeError::InvalidString),
    }
}

} // verus!
