use vstd::prelude::*;

use crate::coding::buf::{
    buf_bytes, encoded, lemma_encoded_fail, lemma_encoded_then, lemma_skip_skip,
};
use crate::coding::error::{DecodeError, EncodeError};
use crate::coding::integer::{decode_u64, encode_u64};
use crate::coding::varint::{lemma_varint_roundtrip, spec_decode_varint, varint_bound, varint_bytes};
use crate::coding::string_field::string_bytes;
use crate::coding::reason_phrase::{
    lemma_reason_roundtrip, reason_encodable, reason_too_long, spec_decode_reason, ReasonPhrase,
};

verus! {

broadcast use crate::coding::varint::lemma_decode_varint_len;

/// Sent by the publisher to end a subscription cleanly.
#[derive(Clone, Debug, PartialEq, Eq)]
pub struct SubscribeDone {
    /// The request id of the subscription being ended.
    pub id: u64,
    /// Why the subscription ended.
    pub status_code: u64,
    /// The number of data streams the publisher opened for it.
    pub stream_count: u64,
    /// A human-readable reason, possibly empty.
    pub reason: ReasonPhrase,
}

/// The message as plain data.
pub struct SubscribeDoneView {
    pub id: u64,
    pub status_code: u64,
    pub stream_count: u64,
    pub reason: Seq<char>,
}

impl View for SubscribeDone {
    type V = SubscribeDoneView;

    open spec fn view(&self) -> SubscribeDoneView {
        SubscribeDoneView { id: self.id, status_code: self.status_code, stream_count: self.stream_count, reason: self.reason@ }
    }
}

/// The wire form: id, status_code, stream_count, reason, one after another.
pub open spec fn subscribe_done_bytes(m: SubscribeDoneView) -> Seq<u8> {
    varint_bytes(m.id) + varint_bytes(m.status_code) + varint_bytes(m.stream_count) + string_bytes(m.reason)
}

/// Every field can be encoded.
pub open spec fn subscribe_done_valid(m: SubscribeDoneView) -> bool {
    (m.id < varint_bound()) && (m.status_code < varint_bound()) && (m.stream_count < varint_bound()) && (reason_encodable(m.reason))
}

/// The error of the first field that cannot be encoded.
pub open spec fn subscribe_done_err(m: SubscribeDoneView) -> EncodeError {
    if !(m.id < varint_bound()) {
        EncodeError::BoundsExceeded
    } else if !(m.status_code < varint_bound()) {
        EncodeError::BoundsExceeded
    } else if !(m.stream_count < varint_bound()) {
        EncodeError::BoundsExceeded
    } else {
        reason_too_long()
    }
}

/// Decoding the message from the front of `s`, field by field.
pub open spec fn spec_decode_subscribe_done(s: Seq<u8>) -> Result<(SubscribeDoneView, int), DecodeError> {
    match spec_decode_varint(s) {
        Ok((x1, n1)) => match spec_decode_varint(s.skip(n1)) {
            Ok((x2, n2)) => match spec_decode_varint(s.skip(n1 + n2)) {
                Ok((x3, n3)) => match spec_decode_reason(s.skip(n1 + n2 + n3)) {
                    Ok((x4, n4)) => Ok((SubscribeDoneView { id: x1, status_code: x2, stream_count: x3, reason: x4 }, n1 + n2 + n3 + n4)),
                    Err(e) => Err(e),
                },
                Err(e) => Err(e),
            },
            Err(e) => Err(e),
        },
        Err(e) => Err(e),
    }
}

/// Decoding what `SubscribeDone::encode` writes gives back the same message, for every message
/// that can be encoded.
pub proof fn lemma_subscribe_done_roundtrip(m: SubscribeDone, rest: Seq<u8>)
    requires
        subscribe_done_valid(m@),
    ensures
        spec_decode_subscribe_done(subscribe_done_bytes(m@) + rest) == Ok::<(SubscribeDoneView, int), DecodeError>(
            (m@, subscribe_done_bytes(m@).len() as int),
        ),
{
    let s = subscribe_done_bytes(m@) + rest;
    assert(s =~= varint_bytes(m@.id) + (varint_bytes(m@.status_code) + (varint_bytes(m@.stream_count) + (string_bytes(m@.reason) + rest))));
    lemma_varint_roundtrip(m@.id, (varint_bytes(m@.status_code) + (varint_bytes(m@.stream_count) + (string_bytes(m@.reason) + rest))));
    assert(s.skip((varint_bytes(m@.id).len()) as int) =~= varint_bytes(m@.status_code) + (varint_bytes(m@.stream_count) + (string_bytes(m@.reason) + rest)));
    lemma_varint_roundtrip(m@.status_code, (varint_bytes(m@.stream_count) + (string_bytes(m@.reason) + rest)));
    assert(s.skip((varint_bytes(m@.id).len() + varint_bytes(m@.status_code).len()) as int) =~= varint_bytes(m@.stream_count) + (string_bytes(m@.reason) + rest));
    lemma_varint_roundtrip(m@.stream_count, (string_bytes(m@.reason) + rest));
    assert(s.skip((varint_bytes(m@.id).len() + varint_bytes(m@.status_code).len() + varint_bytes(m@.stream_count).len()) as int) =~= string_bytes(m@.reason) + rest);
    lemma_reason_roundtrip(m@.reason, rest);
}

impl SubscribeDone {
    /// Appends the message: id, status_code, stream_count, reason.
    pub fn encode(&self, w: &mut bytes::BytesMut) -> (res: Result<(), EncodeError>)
        ensures
            encoded(
                res,
                buf_bytes(*old(w)),
                buf_bytes(*final(w)),
                subscribe_done_valid(self@),
                subscribe_done_bytes(self@),
                subscribe_done_err(self@),
            ),
    {
        let ghost b0 = buf_bytes(*w);
        let r1 = encode_u64(self.id, w);
        let ghost b1 = buf_bytes(*w);
        if r1.is_err() {
            proof {
                lemma_encoded_fail(r1, b0, b1, (self@.id < varint_bound()), varint_bytes(self@.id), EncodeError::BoundsExceeded, (self@.status_code < varint_bound()) && (self@.stream_count < varint_bound()) && (reason_encodable(self@.reason)), varint_bytes(self@.status_code) + varint_bytes(self@.stream_count) + string_bytes(self@.reason), if !(self@.status_code < varint_bound()) { EncodeError::BoundsExceeded } else if !(self@.stream_count < varint_bound()) { EncodeError::BoundsExceeded } else { reason_too_long() });
                assert(varint_bytes(self@.id) + (varint_bytes(self@.status_code) + varint_bytes(self@.stream_count) + string_bytes(self@.reason)) =~= varint_bytes(self@.id) + varint_bytes(self@.status_code) + varint_bytes(self@.stream_count) + string_bytes(self@.reason));
            }
            return r1;
        }
        let r2 = encode_u64(self.status_code, w);
        let ghost b2 = buf_bytes(*w);
        proof {
            lemma_encoded_then(r1, b0, b1, (self@.id < varint_bound()), varint_bytes(self@.id), EncodeError::BoundsExceeded, r2, b2, self@.status_code < varint_bound(), varint_bytes(self@.status_code), EncodeError::BoundsExceeded);
        }
        if r2.is_err() {
            proof {
                lemma_encoded_fail(r2, b0, b2, (self@.id < varint_bound()) && (self@.status_code < varint_bound()), varint_bytes(self@.id) + varint_bytes(self@.status_code), if !(self@.id < varint_bound()) { EncodeError::BoundsExceeded } else { EncodeError::BoundsExceeded }, (self@.stream_count < varint_bound()) && (reason_encodable(self@.reason)), varint_bytes(self@.stream_count) + string_bytes(self@.reason), if !(self@.stream_count < varint_bound()) { EncodeError::BoundsExceeded } else { reason_too_long() });
                assert(varint_bytes(self@.id) + varint_bytes(self@.status_code) + (varint_bytes(self@.stream_count) + string_bytes(self@.reason)) =~= varint_bytes(self@.id) + varint_bytes(self@.status_code) + varint_bytes(self@.stream_count) + string_bytes(self@.reason));
            }
            return r2;
        }
        let r3 = encode_u64(self.stream_count, w);
        let ghost b3 = buf_bytes(*w);
        proof {
            lemma_encoded_then(r2, b0, b2, (self@.id < varint_bound()) && (self@.status_code < varint_bound()), varint_bytes(self@.id) + varint_bytes(self@.status_code), if !(self@.id < varint_bound()) { EncodeError::BoundsExceeded } else { EncodeError::BoundsExceeded }, r3, b3, self@.stream_count < varint_bound(), varint_bytes(self@.stream_count), EncodeError::BoundsExceeded);
        }
        if r3.is_err() {
            proof {
                lemma_encoded_fail(r3, b0, b3, (self@.id < varint_bound()) && (self@.status_code < varint_bound()) && (self@.stream_count < varint_bound()), varint_bytes(self@.id) + varint_bytes(self@.status_code) + varint_bytes(self@.stream_count), if !(self@.id < varint_bound()) { EncodeError::BoundsExceeded } else if !(self@.status_code < varint_bound()) { EncodeError::BoundsExceeded } else { EncodeError::BoundsExceeded }, (reason_encodable(self@.reason)), string_bytes(self@.reason), reason_too_long());
                assert(varint_bytes(self@.id) + varint_bytes(self@.status_code) + varint_bytes(self@.stream_count) + (string_bytes(self@.reason)) =~= varint_bytes(self@.id) + varint_bytes(self@.status_code) + varint_bytes(self@.stream_count) + string_bytes(self@.reason));
            }
            return r3;
        }
        let r4 = self.reason.encode(w);
        let ghost b4 = buf_bytes(*w);
        proof {
            lemma_encoded_then(r3, b0, b3, (self@.id < varint_bound()) && (self@.status_code < varint_bound()) && (self@.stream_count < varint_bound()), varint_bytes(self@.id) + varint_bytes(self@.status_code) + varint_bytes(self@.stream_count), if !(self@.id < varint_bound()) { EncodeError::BoundsExceeded } else if !(self@.status_code < varint_bound()) { EncodeError::BoundsExceeded } else { EncodeError::BoundsExceeded }, r4, b4, reason_encodable(self@.reason), string_bytes(self@.reason), reason_too_long());
        }
        r4
    }

    /// Reads the message: id, status_code, stream_count, reason.
    pub fn decode(r: &mut bytes::BytesMut) -> (res: Result<SubscribeDone, DecodeError>)
        ensures
            match spec_decode_subscribe_done(buf_bytes(*old(r))) {
                Ok((v, n)) => res is Ok && res->Ok_0@ == v && buf_bytes(*final(r)) == buf_bytes(
                    *old(r),
                ).skip(n) && 0 < n <= buf_bytes(*old(r)).len(),
                Err(e) => res == Err::<SubscribeDone, DecodeError>(e),
            },
    {
        let ghost s = buf_bytes(*r);
        let id = decode_u64(r)?;
        let ghost s1 = buf_bytes(*r);
        let status_code = decode_u64(r)?;
        let ghost s2 = buf_bytes(*r);
        proof {
            lemma_skip_skip(s, s.len() - s1.len(), s1.len() - s2.len());
        }
        let stream_count = decode_u64(r)?;
        let ghost s3 = buf_bytes(*r);
        proof {
            lemma_skip_skip(s, s.len() - s2.len(), s2.len() - s3.len());
        }
        let reason = ReasonPhrase::decode(r)?;
        let ghost s4 = buf_bytes(*r);
        proof {
            lemma_skip_skip(s, s.len() - s3.len(), s3.len() - s4.len());
        }
        Ok(SubscribeDone { id, status_code, stream_count, reason })
    }
}

} // verus!
