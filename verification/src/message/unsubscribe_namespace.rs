use vstd::prelude::*;

use crate::coding::buf::{buf_bytes, encoded};
use crate::coding::error::{DecodeError, EncodeError};
use crate::coding::track_namespace::{
    lemma_namespace_roundtrip, namespace_bytes, namespace_encodable, namespace_encode_error,
    spec_decode_namespace, TrackNamespace,
};

verus! {

broadcast use crate::coding::varint::lemma_decode_varint_len;

/// Sent by a subscriber to stop following a namespace prefix.
#[derive(Clone, Debug, PartialEq, Eq)]
pub struct UnsubscribeNamespace {
    /// The namespace prefix.
    pub namespace_prefix: TrackNamespace,
}

/// The message as plain data.
pub struct UnsubscribeNamespaceView {
    pub namespace_prefix: Seq<Seq<u8>>,
}

impl View for UnsubscribeNamespace {
    type V = UnsubscribeNamespaceView;

    open spec fn view(&self) -> UnsubscribeNamespaceView {
        UnsubscribeNamespaceView { namespace_prefix: self.namespace_prefix@ }
    }
}

/// The wire form: namespace_prefix, one after another.
pub open spec fn unsubscribe_namespace_bytes(m: UnsubscribeNamespaceView) -> Seq<u8> {
    namespace_bytes(m.namespace_prefix)
}

/// Every field can be encoded.
pub open spec fn unsubscribe_namespace_valid(m: UnsubscribeNamespaceView) -> bool {
    (namespace_encodable(m.namespace_prefix))
}

/// The error of the first field that cannot be encoded.
pub open spec fn unsubscribe_namespace_err(m: UnsubscribeNamespaceView) -> EncodeError {
    namespace_encode_error(m.namespace_prefix)
}

/// Decoding the message from the front of `s`, field by field.
pub open spec fn spec_decode_unsubscribe_namespace(s: Seq<u8>) -> Result<(UnsubscribeNamespaceView, int), DecodeError> {
    match spec_decode_namespace(s) {
        Ok((x1, n1)) => Ok((UnsubscribeNamespaceView { namespace_prefix: x1 }, n1)),
        Err(e) => Err(e),
    }
}

/// Decoding what `UnsubscribeNamespace::encode` writes gives back the same message, for every message
/// that can be encoded.
pub proof fn lemma_unsubscribe_namespace_roundtrip(m: UnsubscribeNamespace, rest: Seq<u8>)
    requires
        unsubscribe_namespace_valid(m@),
    ensures
        spec_decode_unsubscribe_namespace(unsubscribe_namespace_bytes(m@) + rest) == Ok::<(UnsubscribeNamespaceView, int), DecodeError>(
            (m@, unsubscribe_namespace_bytes(m@).len() as int),
        ),
{
    let s = unsubscribe_namespace_bytes(m@) + rest;
    assert(s =~= namespace_bytes(m@.namespace_prefix) + rest);
    lemma_namespace_roundtrip(m.namespace_prefix, rest);
}

impl UnsubscribeNamespace {
    /// Appends the message: namespace_prefix.
    pub fn encode(&self, w: &mut bytes::BytesMut) -> (res: Result<(), EncodeError>)
        ensures
            encoded(
                res,
                buf_bytes(*old(w)),
                buf_bytes(*final(w)),
                unsubscribe_namespace_valid(self@),
                unsubscribe_namespace_bytes(self@),
                unsubscribe_namespace_err(self@),
            ),
    {
        self.namespace_prefix.encode(w)
    }

    /// Reads the message: namespace_prefix.
    pub fn decode(r: &mut bytes::BytesMut) -> (res: Result<UnsubscribeNamespace, DecodeError>)
        ensures
            match spec_decode_unsubscribe_namespace(buf_bytes(*old(r))) {
                Ok((v, n)) => res is Ok && res->Ok_0@ == v && buf_bytes(*final(r)) == buf_bytes(
                    *old(r),
                ).skip(n) && 0 < n <= buf_bytes(*old(r)).len(),
                Err(e) => res == Err::<UnsubscribeNamespace, DecodeError>(e),
            },
    {
        let ghost s = buf_bytes(*r);
        let namespace_prefix = TrackNamespace::decode(r)?;
        let ghost s1 = buf_bytes(*r);
        Ok(UnsubscribeNamespace { namespace_prefix })
    }
}

} // verus!
