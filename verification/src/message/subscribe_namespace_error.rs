use vstd::prelude::*;

use crate::coding::buf::{
    buf_bytes, encoded, lemma_encoded_fail, lemma_encoded_then, lemma_skip_skip,
};
use crate::coding::error::{DecodeError, EncodeError};
use crate::coding::integer::{decode_u64, encode_u64};
use crate::coding::varint::{lemma_varint_roundtrip, spec_decode_varint, varint_bound, varint_bytes};
use crate::coding::string_field::{
    decode_string, encode_string, lemma_string_roundtrip, spec_decode_string, string_bytes,
    string_encodable,
};
use vstd::utf8::encode_utf8;

verus! {

broadcast use crate::coding::varint::lemma_decode_varint_len;

/// Sent by the publisher to refuse a namespace subscription.
#[derive(Clone, Debug, PartialEq, Eq)]
pub struct SubscribeNamespaceError {
    /// The namespace prefix, echoed back.
    pub namespace_prefix: String,
    /// An error code.
    pub code: u64,
    /// A human-readable reason, possibly empty.
    pub reason: String,
}

/// The message as plain data.
pub struct SubscribeNamespaceErrorView {
    pub namespace_prefix: Seq<char>,
    pub code: u64,
    pub reason: Seq<char>,
}

impl View for SubscribeNamespaceError {
    type V = SubscribeNamespaceErrorView;

    open spec fn view(&self) -> SubscribeNamespaceErrorView {
        SubscribeNamespaceErrorView { namespace_prefix: self.namespace_prefix@, code: self.code, reason: self.reason@ }
    }
}

/// The wire form: namespace_prefix, code, reason, one after another.
pub open spec fn subscribe_namespace_error_bytes(m: SubscribeNamespaceErrorView) -> Seq<u8> {
    string_bytes(m.namespace_prefix) + varint_bytes(m.code) + string_bytes(m.reason)
}

/// Every field can be encoded.
pub open spec fn subscribe_namespace_error_valid(m: SubscribeNamespaceErrorView) -> bool {
    (string_encodable(m.namespace_prefix)) && (m.code < varint_bound()) && (string_encodable(m.reason))
}

/// The error of the first field that cannot be encoded.
pub open spec fn subscribe_namespace_error_err(m: SubscribeNamespaceErrorView) -> EncodeError {
    if !(string_encodable(m.namespace_prefix)) {
        EncodeError::BoundsExceeded
    } else if !(m.code < varint_bound()) {
        EncodeError::BoundsExceeded
    } else {
        EncodeError::BoundsExceeded
    }
}

/// Decoding the message from the front of `s`, field by field.
pub open spec fn spec_decode_subscribe_namespace_error(s: Seq<u8>) -> Result<(SubscribeNamespaceErrorView, int), DecodeError> {
    match spec_decode_string(s) {
        Ok((x1, n1)) => match spec_decode_varint(s.skip(n1)) {
            Ok((x2, n2)) => match spec_decode_string(s.skip(n1 + n2)) {
                Ok((x3, n3)) => Ok((SubscribeNamespaceErrorView { namespace_prefix: x1, code: x2, reason: x3 }, n1 + n2 + n3)),
                Err(e) => Err(e),
            },
            Err(e) => Err(e),
        },
        Err(e) => Err(e),
    }
}

/// Decoding what `SubscribeNamespaceError::encode` writes gives back the same message, for every message
/// that can be encoded.
pub proof fn lemma_subscribe_namespace_error_roundtrip(m: SubscribeNamespaceError, rest: Seq<u8>)
    requires
        subscribe_namespace_error_valid(m@),
        encode_utf8(m@.namespace_prefix).len() <= usize::MAX,
        encode_utf8(m@.reason).len() <= usize::MAX,
    ensures
        spec_decode_subscribe_namespace_error(subscribe_namespace_error_bytes(m@) + rest) == Ok::<(SubscribeNamespaceErrorView, int), DecodeError>(
            (m@, subscribe_namespace_error_bytes(m@).len() as int),
        ),
{
    let s = subscribe_namespace_error_bytes(m@) + rest;
    assert(s =~= string_bytes(m@.namespace_prefix) + (varint_bytes(m@.code) + (string_bytes(m@.reason) + rest)));
    lemma_string_roundtrip(m@.namespace_prefix, (varint_bytes(m@.code) + (string_bytes(m@.reason) + rest)));
    assert(s.skip((string_bytes(m@.namespace_prefix).len()) as int) =~= varint_bytes(m@.code) + (string_bytes(m@.reason) + rest));
    lemma_varint_roundtrip(m@.code, (string_bytes(m@.reason) + rest));
    assert(s.skip((string_bytes(m@.namespace_prefix).len() + varint_bytes(m@.code).len()) as int) =~= string_bytes(m@.reason) + rest);
    lemma_string_roundtrip(m@.reason, rest);
}

impl SubscribeNamespaceError {
    /// Appends the message: namespace_prefix, code, reason.
    pub fn encode(&self, w: &mut bytes::BytesMut) -> (res: Result<(), EncodeError>)
        ensures
            encoded(
                res,
                buf_bytes(*old(w)),
                buf_bytes(*final(w)),
                subscribe_namespace_error_valid(self@),
                subscribe_namespace_error_bytes(self@),
                subscribe_namespace_error_err(self@),
            ),
    {
        let ghost b0 = buf_bytes(*w);
        let r1 = encode_string(self.namespace_prefix.as_str(), w);
        let ghost b1 = buf_bytes(*w);
        if r1.is_err() {
            proof {
                lemma_encoded_fail(r1, b0, b1, (string_encodable(self@.namespace_prefix)), string_bytes(self@.namespace_prefix), EncodeError::BoundsExceeded, (self@.code < varint_bound()) && (string_encodable(self@.reason)), varint_bytes(self@.code) + string_bytes(self@.reason), if !(self@.code < varint_bound()) { EncodeError::BoundsExceeded } else { EncodeError::BoundsExceeded });
                assert(string_bytes(self@.namespace_prefix) + (varint_bytes(self@.code) + string_bytes(self@.reason)) =~= string_bytes(self@.namespace_prefix) + varint_bytes(self@.code) + string_bytes(self@.reason));
            }
            return r1;
        }
        let r2 = encode_u64(self.code, w);
        let ghost b2 = buf_bytes(*w);
        proof {
            lemma_encoded_then(r1, b0, b1, (string_encodable(self@.namespace_prefix)), string_bytes(self@.namespace_prefix), EncodeError::BoundsExceeded, r2, b2, self@.code < varint_bound(), varint_bytes(self@.code), EncodeError::BoundsExceeded);
        }
        if r2.is_err() {
            proof {
                lemma_encoded_fail(r2, b0, b2, (string_encodable(self@.namespace_prefix)) && (self@.code < varint_bound()), string_bytes(self@.namespace_prefix) + varint_bytes(self@.code), if !(string_encodable(self@.namespace_prefix)) { EncodeError::BoundsExceeded } else { EncodeError::BoundsExceeded }, (string_encodable(self@.reason)), string_bytes(self@.reason), EncodeError::BoundsExceeded);
                assert(string_bytes(self@.namespace_prefix) + varint_bytes(self@.code) + (string_bytes(self@.reason)) =~= string_bytes(self@.namespace_prefix) + varint_bytes(self@.code) + string_bytes(self@.reason));
            }
            return r2;
        }
        let r3 = encode_string(self.reason.as_str(), w);
        let ghost b3 = buf_bytes(*w);
        proof {
            lemma_encoded_then(r2, b0, b2, (string_encodable(self@.namespace_prefix)) && (self@.code < varint_bound()), string_bytes(self@.namespace_prefix) + varint_bytes(self@.code), if !(string_encodable(self@.namespace_prefix)) { EncodeError::BoundsExceeded } else { EncodeError::BoundsExceeded }, r3, b3, string_encodable(self@.reason), string_bytes(self@.reason), EncodeError::BoundsExceeded);
        }
        r3
    }

    /// Reads the message: namespace_prefix, code, reason.
    pub fn decode(r: &mut bytes::BytesMut) -> (res: Result<SubscribeNamespaceError, DecodeError>)
        ensures
            match spec_decode_subscribe_namespace_error(buf_bytes(*old(r))) {
                Ok((v, n)) => res is Ok && res->Ok_0@ == v && buf_bytes(*final(r)) == buf_bytes(
                    *old(r),
                ).skip(n) && 0 < n <= buf_bytes(*old(r)).len(),
                Err(e) => res == Err::<SubscribeNamespaceError, DecodeError>(e),
            },
    {
        let ghost s = buf_bytes(*r);
        let namespace_prefix = decode_string(r)?;
        let ghost s1 = buf_bytes(*r);
        let code = decode_u64(r)?;
        let ghost s2 = buf_bytes(*r);
        proof {
            lemma_skip_skip(s, s.len() - s1.len(), s1.len() - s2.len());
        }
        let reason = decode_string(r)?;
        let ghost s3 = buf_bytes(*r);
        proof {
            lemma_skip_skip(s, s.len() - s2.len(), s2.len() - s3.len());
        }
        Ok(SubscribeNamespaceError { namespace_prefix, code, reason })
    }
}

} // verus!
