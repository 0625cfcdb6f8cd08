use vstd::prelude::*;

use crate::coding::buf::{buf_bytes, encoded};
use crate::coding::error::{DecodeError, EncodeError};
use crate::coding::varint::varint_bound;
use crate::coding::tuple::{
    fields_encodable, lemma_tuple_roundtrip, spec_decode_tuple, tuple_bytes, Tuple,
};

verus! {

broadcast use crate::coding::varint::lemma_decode_varint_len;

/// Sent by the publisher to withdraw an announce.
#[derive(Clone, Debug, PartialEq, Eq)]
pub struct Unannounce {
    /// The namespace being withdrawn.
    pub namespace: Tuple,
}

/// The message as plain data.
pub struct UnannounceView {
    pub namespace: Seq<Seq<u8>>,
}

impl View for Unannounce {
    type V = UnannounceView;

    open spec fn view(&self) -> UnannounceView {
        UnannounceView { namespace: self.namespace@ }
    }
}

/// The wire form: namespace, one after another.
pub open spec fn unannounce_bytes(m: UnannounceView) -> Seq<u8> {
    tuple_bytes(m.namespace)
}

/// Every field can be encoded.
pub open spec fn unannounce_valid(m: UnannounceView) -> bool {
    (m.namespace.len() < varint_bound() && fields_encodable(m.namespace))
}

/// The error of the first field that cannot be encoded.
pub open spec fn unannounce_err(m: UnannounceView) -> EncodeError {
    EncodeError::BoundsExceeded
}

/// Decoding the message from the front of `s`, field by field.
pub open spec fn spec_decode_unannounce(s: Seq<u8>) -> Result<(UnannounceView, int), DecodeError> {
    match spec_decode_tuple(s) {
        Ok((x1, n1)) => Ok((UnannounceView { namespace: x1 }, n1)),
        Err(e) => Err(e),
    }
}

/// Decoding what `Unannounce::encode` writes gives back the same message, for every message
/// that can be encoded.
pub proof fn lemma_unannounce_roundtrip(m: Unannounce, rest: Seq<u8>)
    requires
        unannounce_valid(m@),
    ensures
        spec_decode_unannounce(unannounce_bytes(m@) + rest) == Ok::<(UnannounceView, int), DecodeError>(
            (m@, unannounce_bytes(m@).len() as int),
        ),
{
    let s = unannounce_bytes(m@) + rest;
    assert(s =~= tuple_bytes(m@.namespace) + rest);
    lemma_tuple_roundtrip(m.namespace, rest);
}

impl Unannounce {
    /// Appends the message: namespace.
    pub fn encode(&self, w: &mut bytes::BytesMut) -> (res: Result<(), EncodeError>)
        ensures
            encoded(
                res,
                buf_bytes(*old(w)),
                buf_bytes(*final(w)),
                unannounce_valid(self@),
                unannounce_bytes(self@),
                unannounce_err(self@),
            ),
    {
        self.namespace.encode(w)
    }

    /// Reads the message: namespace.
    pub fn decode(r: &mut bytes::BytesMut) -> (res: Result<Unannounce, DecodeError>)
        ensures
            match spec_decode_unannounce(buf_bytes(*old(r))) {
                Ok((v, n)) => res is Ok && res->Ok_0@ == v && buf_bytes(*final(r)) == buf_bytes(
                    *old(r),
                ).skip(n) && 0 < n <= buf_bytes(*old(r)).len(),
                Err(e) => res == Err::<Unannounce, DecodeError>(e),
            },
    {
        let ghost s = buf_bytes(*r);
        let namespace = Tuple::decode(r)?;
        let ghost s1 = buf_bytes(*r);
        Ok(Unannounce { namespace })
    }
}

} // verus!
