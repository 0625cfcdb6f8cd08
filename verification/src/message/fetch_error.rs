use vstd::prelude::*;

use crate::coding::buf::{
    buf_bytes, encoded, lemma_encoded_fail, lemma_encoded_then, lemma_skip_skip,
};
use crate::coding::error::{DecodeError, EncodeError};
use crate::coding::integer::{decode_u64, encode_u64};
use crate::coding::varint::{lemma_varint_roundtrip, spec_decode_varint, varint_bound, varint_bytes};
use crate::coding::string_field::{
    decode_string, encode_string, lemma_string_roundtrip, spec_decode_string, string_bytes,
    string_encodable,
};
use vstd::utf8::encode_utf8;

verus! {

broadcast use crate::coding::varint::lemma_decode_varint_len;

/// Sent by the publisher to refuse a fetch.
#[derive(Clone, Debug, PartialEq, Eq)]
pub struct FetchError {
    /// The id of this subscription.
    pub id: u64,
    /// An error code.
    pub code: u64,
    /// A human-readable reason, possibly empty.
    pub reason: String,
}

/// The message as plain data.
pub struct FetchErrorView {
    pub id: u64,
    pub code: u64,
    pub reason: Seq<char>,
}

impl View for FetchError {
    type V = FetchErrorView;

    open spec fn view(&self) -> FetchErrorView {
        FetchErrorView { id: self.id, code: self.code, reason: self.reason@ }
    }
}

/// The wire form: id, code, reason, one after another.
pub open spec fn fetch_error_bytes(m: FetchErrorView) -> Seq<u8> {
    varint_bytes(m.id) + varint_bytes(m.code) + string_bytes(m.reason)
}

/// Every field can be encoded.
pub open spec fn fetch_error_valid(m: FetchErrorView) -> bool {
    (m.id < varint_bound()) && (m.code < varint_bound()) && (string_encodable(m.reason))
}

/// The error of the first field that cannot be encoded.
pub open spec fn fetch_error_err(m: FetchErrorView) -> EncodeError {
    if !(m.id < varint_bound()) {
        EncodeError::BoundsExceeded
    } else if !(m.code < varint_bound()) {
        EncodeError::BoundsExceeded
    } else {
        EncodeError::BoundsExceeded
    }
}

/// Decoding the message from the front of `s`, field by field.
pub open spec fn spec_decode_fetch_error(s: Seq<u8>) -> Result<(FetchErrorView, int), DecodeError> {
    match spec_decode_varint(s) {
        Ok((x1, n1)) => match spec_decode_varint(s.skip(n1)) {
            Ok((x2, n2)) => match spec_decode_string(s.skip(n1 + n2)) {
                Ok((x3, n3)) => Ok((FetchErrorView { id: x1, code: x2, reason: x3 }, n1 + n2 + n3)),
                Err(e) => Err(e),
            },
            Err(e) => Err(e),
        },
        Err(e) => Err(e),
    }
}

/// Decoding what `FetchError::encode` writes gives back the same message, for every message
/// that can be encoded.
pub proof fn lemma_fetch_error_roundtrip(m: FetchError, rest: Seq<u8>)
    requires
        fetch_error_valid(m@),
        encode_utf8(m@.reason).len() <= usize::MAX,
    ensures
        spec_decode_fetch_error(fetch_error_bytes(m@) + rest) == Ok::<(FetchErrorView, int), DecodeError>(
            (m@, fetch_error_bytes(m@).len() as int),
        ),
{
    let s = fetch_error_bytes(m@) + rest;
    assert(s =~= varint_bytes(m@.id) + (varint_bytes(m@.code) + (string_bytes(m@.reason) + rest)));
    lemma_varint_roundtrip(m@.id, (varint_bytes(m@.code) + (string_bytes(m@.reason) + rest)));
    assert(s.skip((varint_bytes(m@.id).len()) as int) =~= varint_bytes(m@.code) + (string_bytes(m@.reason) + rest));
    lemma_varint_roundtrip(m@.code, (string_bytes(m@.reason) + rest));
    assert(s.skip((varint_bytes(m@.id).len() + varint_bytes(m@.code).len()) as int) =~= string_bytes(m@.reason) + rest);
    lemma_string_roundtrip(m@.reason, rest);
}

impl FetchError {
    /// Appends the message: id, code, reason.
    pub fn encode(&self, w: &mut bytes::BytesMut) -> (res: Result<(), EncodeError>)
        ensures
            encoded(
                res,
                buf_bytes(*old(w)),
                buf_bytes(*final(w)),
                fetch_error_valid(self@),
                fetch_error_bytes(self@),
                fetch_error_err(self@),
            ),
    {
        let ghost b0 = buf_bytes(*w);
        let r1 = encode_u64(self.id, w);
        let ghost b1 = buf_bytes(*w);
        if r1.is_err() {
            proof {
                lemma_encoded_fail(r1, b0, b1, (self@.id < varint_bound()), varint_bytes(self@.id), EncodeError::BoundsExceeded, (self@.code < varint_bound()) && (string_encodable(self@.reason)), varint_bytes(self@.code) + string_bytes(self@.reason), if !(self@.code < varint_bound()) { EncodeError::BoundsExceeded } else { EncodeError::BoundsExceeded });
                assert(varint_bytes(self@.id) + (varint_bytes(self@.code) + string_bytes(self@.reason)) =~= varint_bytes(self@.id) + varint_bytes(self@.code) + string_bytes(self@.reason));
            }
            return r1;
        }
        let r2 = encode_u64(self.code, w);
        let ghost b2 = buf_bytes(*w);
        proof {
            lemma_encoded_then(r1, b0, b1, (self@.id < varint_bound()), varint_bytes(self@.id), EncodeError::BoundsExceeded, r2, b2, self@.code < varint_bound(), varint_bytes(self@.code), EncodeError::BoundsExceeded);
        }
        if r2.is_err() {
            proof {
                lemma_encoded_fail(r2, b0, b2, (self@.id < varint_bound()) && (self@.code < varint_bound()), varint_bytes(self@.id) + varint_bytes(self@.code), if !(self@.id < varint_bound()) { EncodeError::BoundsExceeded } else { EncodeError::BoundsExceeded }, (string_encodable(self@.reason)), string_bytes(self@.reason), EncodeError::BoundsExceeded);
                assert(varint_bytes(self@.id) + varint_bytes(self@.code) + (string_bytes(self@.reason)) =~= varint_bytes(self@.id) + varint_bytes(self@.code) + string_bytes(self@.reason));
            }
            return r2;
        }
        let r3 = encode_string(self.reason.as_str(), w);
        let ghost b3 = buf_bytes(*w);
        proof {
            lemma_encoded_then(r2, b0, b2, (self@.id < varint_bound()) && (self@.code < varint_bound()), varint_bytes(self@.id) + varint_bytes(self@.code), if !(self@.id < varint_bound()) { EncodeError::BoundsExceeded } else { EncodeError::BoundsExceeded }, r3, b3, string_encodable(self@.reason), string_bytes(self@.reason), EncodeError::BoundsExceeded);
        }
        r3
    }

    /// Reads the message: id, code, reason.
    pub fn decode(r: &mut bytes::BytesMut) -> (res: Result<FetchError, DecodeError>)
        ensures
            match spec_decode_fetch_error(buf_bytes(*old(r))) {
                Ok((v, n)) => res is Ok && res->Ok_0@ == v && buf_bytes(*final(r)) == buf_bytes(
                    *old(r),
                ).skip(n) && 0 < n <= buf_bytes(*old(r)).len(),
                Err(e) => res == Err::<FetchError, DecodeError>(e),
            },
    {
        let ghost s = buf_bytes(*r);
        let id = decode_u64(r)?;
        let ghost s1 = buf_bytes(*r);
        let code = decode_u64(r)?;
        let ghost s2 = buf_bytes(*r);
        proof {
            lemma_skip_skip(s, s.len() - s1.len(), s1.len() - s2.len());
        }
        let reason = decode_string(r)?;
        let ghost s3 = buf_bytes(*r);
        proof {
            lemma_skip_skip(s, s.len() - s2.len(), s2.len() - s3.len());
        }
        Ok(FetchError { id, code, reason })
    }
}

} // verus!
