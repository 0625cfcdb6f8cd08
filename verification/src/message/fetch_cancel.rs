use vstd::prelude::*;

use crate::coding::buf::{buf_bytes, encoded};
use crate::coding::error::{DecodeError, EncodeError};
use crate::coding::integer::{decode_u64, encode_u64};
use crate::coding::varint::{lemma_varint_roundtrip, spec_decode_varint, varint_bound, varint_bytes};

verus! {

broadcast use crate::coding::varint::lemma_decode_varint_len;

/// Sent by a subscriber that no longer wants the objects of a fetch.
#[derive(Clone, Debug, PartialEq, Eq)]
pub struct FetchCancel {
    /// The subscription id.
    pub id: u64,
}

/// The message as plain data.
pub struct FetchCancelView {
    pub id: u64,
}

impl View for FetchCancel {
    type V = FetchCancelView;

    open spec fn view(&self) -> FetchCancelView {
        FetchCancelView { id: self.id }
    }
}

/// The wire form: id, one after another.
pub open spec fn fetch_cancel_bytes(m: FetchCancelView) -> Seq<u8> {
    varint_bytes(m.id)
}

/// Every field can be encoded.
pub open spec fn fetch_cancel_valid(m: FetchCancelView) -> bool {
    (m.id < varint_bound())
}

/// The error of the first field that cannot be encoded.
pub open spec fn fetch_cancel_err(m: FetchCancelView) -> EncodeError {
    EncodeError::BoundsExceeded
}

/// Decoding the message from the front of `s`, field by field.
pub open spec fn spec_decode_fetch_cancel(s: Seq<u8>) -> Result<(FetchCancelView, int), DecodeError> {
    match spec_decode_varint(s) {
        Ok((x1, n1)) => Ok((FetchCancelView { id: x1 }, n1)),
        Err(e) => Err(e),
    }
}

/// Decoding what `FetchCancel::encode` writes gives back the same message, for every message
/// that can be encoded.
pub proof fn lemma_fetch_cancel_roundtrip(m: FetchCancel, rest: Seq<u8>)
    requires
        fetch_cancel_valid(m@),
    ensures
        spec_decode_fetch_cancel(fetch_cancel_bytes(m@) + rest) == Ok::<(FetchCancelView, int), DecodeError>(
            (m@, fetch_cancel_bytes(m@).len() as int),
        ),
{
    let s = fetch_cancel_bytes(m@) + rest;
    assert(s =~= varint_bytes(m@.id) + rest);
    lemma_varint_roundtrip(m@.id, rest);
}

impl FetchCancel {
    /// Appends the message: id.
    pub fn encode(&self, w: &mut bytes::BytesMut) -> (res: Result<(), EncodeError>)
        ensures
            encoded(
                res,
                buf_bytes(*old(w)),
                buf_bytes(*final(w)),
                fetch_cancel_valid(self@),
                fetch_cancel_bytes(self@),
                fetch_cancel_err(self@),
            ),
    {
        encode_u64(self.id, w)
    }

    /// Reads the message: id.
    pub fn decode(r: &mut bytes::BytesMut) -> (res: Result<FetchCancel, DecodeError>)
        ensures
            match spec_decode_fetch_cancel(buf_bytes(*old(r))) {
                Ok((v, n)) => res is Ok && res->Ok_0@ == v && buf_bytes(*final(r)) == buf_bytes(
                    *old(r),
                ).skip(n) && 0 < n <= buf_bytes(*old(r)).len(),
                Err(e) => res == Err::<FetchCancel, DecodeError>(e),
            },
    {
        let ghost s = buf_bytes(*r);
        let id = decode_u64(r)?;
        let ghost s1 = buf_bytes(*r);
        Ok(FetchCancel { id })
    }
}

} // verus!
