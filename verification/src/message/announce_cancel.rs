use vstd::prelude::*;

use crate::coding::buf::{
    buf_bytes, encoded, lemma_encoded_fail, lemma_encoded_then, lemma_skip_skip,
};
use crate::coding::error::{DecodeError, EncodeError};
use crate::coding::integer::{decode_u64, encode_u64};
use crate::coding::varint::{lemma_varint_roundtrip, spec_decode_varint, varint_bound, varint_bytes};
use crate::coding::track_namespace::{
    lemma_namespace_roundtrip, namespace_bytes, namespace_encodable, namespace_encode_error,
    spec_decode_namespace, TrackNamespace,
};
use crate::coding::string_field::string_bytes;
use crate::coding::reason_phrase::{
    lemma_reason_roundtrip, reason_encodable, reason_too_long, spec_decode_reason, ReasonPhrase,
};

verus! {

broadcast use crate::coding::varint::lemma_decode_varint_len;

/// Sent by the subscriber to withdraw its acceptance of an announce.
#[derive(Clone, Debug, PartialEq, Eq)]
pub struct AnnounceCancel {
    /// The namespace being withdrawn.
    pub track_namespace: TrackNamespace,
    /// An error code.
    pub error_code: u64,
    /// A human-readable reason, possibly empty.
    pub reason_phrase: ReasonPhrase,
}

/// The message as plain data.
pub struct AnnounceCancelView {
    pub track_namespace: Seq<Seq<u8>>,
    pub error_code: u64,
    pub reason_phrase: Seq<char>,
}

impl View for AnnounceCancel {
    type V = AnnounceCancelView;

    open spec fn view(&self) -> AnnounceCancelView {
        AnnounceCancelView { track_namespace: self.track_namespace@, error_code: self.error_code, reason_phrase: self.reason_phrase@ }
    }
}

/// The wire form: track_namespace, error_code, reason_phrase, one after another.
pub open spec fn announce_cancel_bytes(m: AnnounceCancelView) -> Seq<u8> {
    namespace_bytes(m.track_namespace) + varint_bytes(m.error_code) + string_bytes(m.reason_phrase)
}

/// Every field can be encoded.
pub open spec fn announce_cancel_valid(m: AnnounceCancelView) -> bool {
    (namespace_encodable(m.track_namespace)) && (m.error_code < varint_bound()) && (reason_encodable(m.reason_phrase))
}

/// The error of the first field that cannot be encoded.
pub open spec fn announce_cancel_err(m: AnnounceCancelView) -> EncodeError {
    if !(namespace_encodable(m.track_namespace)) {
        namespace_encode_error(m.track_namespace)
    } else if !(m.error_code < varint_bound()) {
        EncodeError::BoundsExceeded
    } else {
        reason_too_long()
    }
}

/// Decoding the message from the front of `s`, field by field.
pub open spec fn spec_decode_announce_cancel(s: Seq<u8>) -> Result<(AnnounceCancelView, int), DecodeError> {
    match spec_decode_namespace(s) {
        Ok((x1, n1)) => match spec_decode_varint(s.skip(n1)) {
            Ok((x2, n2)) => match spec_decode_reason(s.skip(n1 + n2)) {
                Ok((x3, n3)) => Ok((AnnounceCancelView { track_namespace: x1, error_code: x2, reason_phrase: x3 }, n1 + n2 + n3)),
                Err(e) => Err(e),
            },
            Err(e) => Err(e),
        },
        Err(e) => Err(e),
    }
}

/// Decoding what `AnnounceCancel::encode` writes gives back the same message, for every message
/// that can be encoded.
pub proof fn lemma_announce_cancel_roundtrip(m: AnnounceCancel, rest: Seq<u8>)
    requires
        announce_cancel_valid(m@),
    ensures
        spec_decode_announce_cancel(announce_cancel_bytes(m@) + rest) == Ok::<(AnnounceCancelView, int), DecodeError>(
            (m@, announce_cancel_bytes(m@).len() as int),
        ),
{
    let s = announce_cancel_bytes(m@) + rest;
    assert(s =~= namespace_bytes(m@.track_namespace) + (varint_bytes(m@.error_code) + (string_bytes(m@.reason_phrase) + rest)));
    lemma_namespace_roundtrip(m.track_namespace, (varint_bytes(m@.error_code) + (string_bytes(m@.reason_phrase) + rest)));
    assert(s.skip((namespace_bytes(m@.track_namespace).len()) as int) =~= varint_bytes(m@.error_code) + (string_bytes(m@.reason_phrase) + rest));
    lemma_varint_roundtrip(m@.error_code, (string_bytes(m@.reason_phrase) + rest));
    assert(s.skip((namespace_bytes(m@.track_namespace).len() + varint_bytes(m@.error_code).len()) as int) =~= string_bytes(m@.reason_phrase) + rest);
    lemma_reason_roundtrip(m@.reason_phrase, rest);
}

impl AnnounceCancel {
    /// Appends the message: track_namespace, error_code, reason_phrase.
    pub fn encode(&self, w: &mut bytes::BytesMut) -> (res: Result<(), EncodeError>)
        ensures
            encoded(
                res,
                buf_bytes(*old(w)),
                buf_bytes(*final(w)),
                announce_cancel_valid(self@),
                announce_cancel_bytes(self@),
                announce_cancel_err(self@),
            ),
    {
        let ghost b0 = buf_bytes(*w);
        let r1 = self.track_namespace.encode(w);
        let ghost b1 = buf_bytes(*w);
        if r1.is_err() {
            proof {
                lemma_encoded_fail(r1, b0, b1, (namespace_encodable(self@.track_namespace)), namespace_bytes(self@.track_namespace), namespace_encode_error(self@.track_namespace), (self@.error_code < varint_bound()) && (reason_encodable(self@.reason_phrase)), varint_bytes(self@.error_code) + string_bytes(self@.reason_phrase), if !(self@.error_code < varint_bound()) { EncodeError::BoundsExceeded } else { reason_too_long() });
                assert(namespace_bytes(self@.track_namespace) + (varint_bytes(self@.error_code) + string_bytes(self@.reason_phrase)) =~= namespace_bytes(self@.track_namespace) + varint_bytes(self@.error_code) + string_bytes(self@.reason_phrase));
            }
            return r1;
        }
        let r2 = encode_u64(self.error_code, w);
        let ghost b2 = buf_bytes(*w);
        proof {
            lemma_encoded_then(r1, b0, b1, (namespace_encodable(self@.track_namespace)), namespace_bytes(self@.track_namespace), namespace_encode_error(self@.track_namespace), r2, b2, self@.error_code < varint_bound(), varint_bytes(self@.error_code), EncodeError::BoundsExceeded);
        }
        if r2.is_err() {
            proof {
                lemma_encoded_fail(r2, b0, b2, (namespace_encodable(self@.track_namespace)) && (self@.error_code < varint_bound()), namespace_bytes(self@.track_namespace) + varint_bytes(self@.error_code), if !(namespace_encodable(self@.track_namespace)) { namespace_encode_error(self@.track_namespace) } else { EncodeError::BoundsExceeded }, (reason_encodable(self@.reason_phrase)), string_bytes(self@.reason_phrase), reason_too_long());
                assert(namespace_bytes(self@.track_namespace) + varint_bytes(self@.error_code) + (string_bytes(self@.reason_phrase)) =~= namespace_bytes(self@.track_namespace) + varint_bytes(self@.error_code) + string_bytes(self@.reason_phrase));
            }
            return r2;
        }
        let r3 = self.reason_phrase.encode(w);
        let ghost b3 = buf_bytes(*w);
        proof {
            lemma_encoded_then(r2, b0, b2, (namespace_encodable(self@.track_namespace)) && (self@.error_code < varint_bound()), namespace_bytes(self@.track_namespace) + varint_bytes(self@.error_code), if !(namespace_encodable(self@.track_namespace)) { namespace_encode_error(self@.track_namespace) } else { EncodeError::BoundsExceeded }, r3, b3, reason_encodable(self@.reason_phrase), string_bytes(self@.reason_phrase), reason_too_long());
        }
        r3
    }

    /// Reads the message: track_namespace, error_code, reason_phrase.
    pub fn decode(r: &mut bytes::BytesMut) -> (res: Result<AnnounceCancel, DecodeError>)
        ensures
            match spec_decode_announce_cancel(buf_bytes(*old(r))) {
                Ok((v, n)) => res is Ok && res->Ok_0@ == v && buf_bytes(*final(r)) == buf_bytes(
                    *old(r),
                ).skip(n) && 0 < n <= buf_bytes(*old(r)).len(),
                Err(e) => res == Err::<AnnounceCancel, DecodeError>(e),
            },
    {
        let ghost s = buf_bytes(*r);
        let track_namespace = TrackNamespace::decode(r)?;
        let ghost s1 = buf_bytes(*r);
        let error_code = decode_u64(r)?;
        let ghost s2 = buf_bytes(*r);
        proof {
            lemma_skip_skip(s, s.len() - s1.len(), s1.len() - s2.len());
        }
        let reason_phrase = ReasonPhrase::decode(r)?;
        let ghost s3 = buf_bytes(*r);
        proof {
            lemma_skip_skip(s, s.len() - s2.len(), s2.len() - s3.len());
        }
        Ok(AnnounceCancel { track_namespace, error_code, reason_phrase })
    }
}

} // verus!
