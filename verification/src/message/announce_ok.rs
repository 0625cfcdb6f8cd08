use vstd::prelude::*;

use crate::coding::buf::{buf_bytes, encoded};
use crate::coding::error::{DecodeError, EncodeError};
use crate::coding::integer::{decode_u64, encode_u64};
use crate::coding::varint::{lemma_varint_roundtrip, spec_decode_varint, varint_bound, varint_bytes};

verus! {

broadcast use crate::coding::varint::lemma_decode_varint_len;

/// Sent by the subscriber to accept an announce.
#[derive(Clone, Debug, PartialEq, Eq)]
pub struct AnnounceOk {
    /// The request id of the announce this message answers.
    pub id: u64,
}

/// The message as plain data.
pub struct AnnounceOkView {
    pub id: u64,
}

impl View for AnnounceOk {
    type V = AnnounceOkView;

    open spec fn view(&self) -> AnnounceOkView {
        AnnounceOkView { id: self.id }
    }
}

/// The wire form: id, one after another.
pub open spec fn announce_ok_bytes(m: AnnounceOkView) -> Seq<u8> {
    varint_bytes(m.id)
}

/// Every field can be encoded.
pub open spec fn announce_ok_valid(m: AnnounceOkView) -> bool {
    (m.id < varint_bound())
}

/// The error of the first field that cannot be encoded.
pub open spec fn announce_ok_err(m: AnnounceOkView) -> EncodeError {
    EncodeError::BoundsExceeded
}

/// Decoding the message from the front of `s`, field by field.
pub open spec fn spec_decode_announce_ok(s: Seq<u8>) -> Result<(AnnounceOkView, int), DecodeError> {
    match spec_decode_varint(s) {
        Ok((x1, n1)) => Ok((AnnounceOkView { id: x1 }, n1)),
        Err(e) => Err(e),
    }
}

/// Decoding what `AnnounceOk::encode` writes gives back the same message, for every message
/// that can be encoded.
pub proof fn lemma_announce_ok_roundtrip(m: AnnounceOk, rest: Seq<u8>)
    requires
        announce_ok_valid(m@),
    ensures
        spec_decode_announce_ok(announce_ok_bytes(m@) + rest) == Ok::<(AnnounceOkView, int), DecodeError>(
            (m@, announce_ok_bytes(m@).len() as int),
        ),
{
    let s = announce_ok_bytes(m@) + rest;
    assert(s =~= varint_bytes(m@.id) + rest);
    lemma_varint_roundtrip(m@.id, rest);
}

impl AnnounceOk {
    /// Appends the message: id.
    pub fn encode(&self, w: &mut bytes::BytesMut) -> (res: Result<(), EncodeError>)
        ensures
            encoded(
                res,
                buf_bytes(*old(w)),
                buf_bytes(*final(w)),
                announce_ok_valid(self@),
                announce_ok_bytes(self@),
                announce_ok_err(self@),
            ),
    {
        encode_u64(self.id, w)
    }

    /// Reads the message: id.
    pub fn decode(r: &mut bytes::BytesMut) -> (res: Result<AnnounceOk, DecodeError>)
        ensures
            match spec_decode_announce_ok(buf_bytes(*old(r))) {
                Ok((v, n)) => res is Ok && res->Ok_0@ == v && buf_bytes(*final(r)) == buf_bytes(
                    *old(r),
                ).skip(n) && 0 < n <= buf_bytes(*old(r)).len(),
                Err(e) => res == Err::<AnnounceOk, DecodeError>(e),
            },
    {
        let ghost s = buf_bytes(*r);
        let id = decode_u64(r)?;
        let ghost s1 = buf_bytes(*r);
        Ok(AnnounceOk { id })
    }
}

} // verus!
