use vstd::prelude::*;

use crate::coding::buf::{buf_bytes, encoded};
use crate::coding::error::{DecodeError, EncodeError};
use crate::coding::integer::{decode_u64, encode_u64};
use crate::coding::varint::{lemma_varint_roundtrip, spec_decode_varint, varint_bound, varint_bytes};

verus! {

broadcast use crate::coding::varint::lemma_decode_varint_len;

/// Sent by the publisher to raise the largest subscription id allowed in the session.
#[derive(Clone, Debug, PartialEq, Eq)]
pub struct MaxSubscribeId {
    /// The largest subscription id allowed.
    pub id: u64,
}

/// The message as plain data.
pub struct MaxSubscribeIdView {
    pub id: u64,
}

impl View for MaxSubscribeId {
    type V = MaxSubscribeIdView;

    open spec fn view(&self) -> MaxSubscribeIdView {
        MaxSubscribeIdView { id: self.id }
    }
}

/// The wire form: id, one after another.
pub open spec fn max_subscribe_id_bytes(m: MaxSubscribeIdView) -> Seq<u8> {
    varint_bytes(m.id)
}

/// Every field can be encoded.
pub open spec fn max_subscribe_id_valid(m: MaxSubscribeIdView) -> bool {
    (m.id < varint_bound())
}

/// The error of the first field that cannot be encoded.
pub open spec fn max_subscribe_id_err(m: MaxSubscribeIdView) -> EncodeError {
    EncodeError::BoundsExceeded
}

/// Decoding the message from the front of `s`, field by field.
pub open spec fn spec_decode_max_subscribe_id(s: Seq<u8>) -> Result<(MaxSubscribeIdView, int), DecodeError> {
    match spec_decode_varint(s) {
        Ok((x1, n1)) => Ok((MaxSubscribeIdView { id: x1 }, n1)),
        Err(e) => Err(e),
    }
}

/// Decoding what `MaxSubscribeId::encode` writes gives back the same message, for every message
/// that can be encoded.
pub proof fn lemma_max_subscribe_id_roundtrip(m: MaxSubscribeId, rest: Seq<u8>)
    requires
        max_subscribe_id_valid(m@),
    ensures
        spec_decode_max_subscribe_id(max_subscribe_id_bytes(m@) + rest) == Ok::<(MaxSubscribeIdView, int), DecodeError>(
            (m@, max_subscribe_id_bytes(m@).len() as int),
        ),
{
    let s = max_subscribe_id_bytes(m@) + rest;
    assert(s =~= varint_bytes(m@.id) + rest);
    lemma_varint_roundtrip(m@.id, rest);
}

impl MaxSubscribeId {
    /// Appends the message: id.
    pub fn encode(&self, w: &mut bytes::BytesMut) -> (res: Result<(), EncodeError>)
        ensures
            encoded(
                res,
                buf_bytes(*old(w)),
                buf_bytes(*final(w)),
                max_subscribe_id_valid(self@),
                max_subscribe_id_bytes(self@),
                max_subscribe_id_err(self@),
            ),
    {
        encode_u64(self.id, w)
    }

    /// Reads the message: id.
    pub fn decode(r: &mut bytes::BytesMut) -> (res: Result<MaxSubscribeId, DecodeError>)
        ensures
            match spec_decode_max_subscribe_id(buf_bytes(*old(r))) {
                Ok((v, n)) => res is Ok && res->Ok_0@ == v && buf_bytes(*final(r)) == buf_bytes(
                    *old(r),
                ).skip(n) && 0 < n <= buf_bytes(*old(r)).len(),
                Err(e) => res == Err::<MaxSubscribeId, DecodeError>(e),
            },
    {
        let ghost s = buf_bytes(*r);
        let id = decode_u64(r)?;
        let ghost s1 = buf_bytes(*r);
        Ok(MaxSubscribeId { id })
    }
}

} // verus!
