use vstd::prelude::*;

use crate::coding::buf::{buf_bytes, encoded};
use crate::coding::error::{DecodeError, EncodeError};
use crate::coding::integer::{decode_u64, encode_u64};
use crate::coding::varint::{lemma_varint_roundtrip, spec_decode_varint, varint_bytes};

verus! {

broadcast use crate::coding::varint::lemma_decode_varint_len;

/// The status of an object that carries no payload.
#[derive(Clone, Copy, Debug, PartialEq, Eq, Structural, Hash)]
pub enum ObjectStatus {
    Normal,
    DoesNotExist,
    EndOfGroup,
    EndOfTrack,
}

/// The number that stands for a status on the wire.
pub open spec fn object_status_code(s: ObjectStatus) -> u64 {
    match s {
        ObjectStatus::Normal => 0x0,
        ObjectStatus::DoesNotExist => 0x1,
        ObjectStatus::EndOfGroup => 0x3,
        ObjectStatus::EndOfTrack => 0x4,
    }
}

/// The status a number stands for, if any.
pub open spec fn object_status_of(v: u64) -> Option<ObjectStatus> {
    if v == 0x0 {
        Some(ObjectStatus::Normal)
    } else if v == 0x1 {
        Some(ObjectStatus::DoesNotExist)
    } else if v == 0x3 {
        Some(ObjectStatus::EndOfGroup)
    } else if v == 0x4 {
        Some(ObjectStatus::EndOfTrack)
    } else {
        None
    }
}

/// Decoding a status from the front of `s`; an unknown number is refused.
pub open spec fn spec_decode_object_status(s: Seq<u8>) -> Result<(ObjectStatus, int), DecodeError> {
    match spec_decode_varint(s) {
        Ok((v, n)) => match object_status_of(v) {
            Some(st) => Ok((st, n)),
            None => Err(DecodeError::InvalidObjectStatus),
        },
        Err(e) => Err(e),
    }
}

/// Every status decodes from its own wire form.
pub proof fn lemma_object_status_roundtrip(st: ObjectStatus, rest: Seq<u8>)
    ensures
        spec_decode_object_status(varint_bytes(object_status_code(st)) + rest) == Ok::<
            (ObjectStatus, int),
            DecodeError,
        >((st, varint_bytes(object_status_code(st)).len() as int)),
{
    lemma_varint_roundtrip(object_status_code(st), rest);
}

impl ObjectStatus {
    /// Appends the status number.
    pub fn encode(&self, w: &mut bytes::BytesMut) -> (res: Result<(), EncodeError>)
        ensures
            encoded(
                res,
                buf_bytes(*old(w)),
                buf_bytes(*final(w)),
                true,
                varint_bytes(object_status_code(*self)),
                EncodeError::BoundsExceeded,
            ),
    {
        let v: u64 = match self {
            ObjectStatus::Normal => 0x0,
            ObjectStatus::DoesNotExist => 0x1,
            ObjectStatus::EndOfGroup => 0x3,
            ObjectStatus::EndOfTrack => 0x4,
        };
        encode_u64(v, w)
    }

    /// Reads a status number.
    pub fn decode(r: &mut bytes::BytesMut) -> (res: Result<ObjectStatus, DecodeError>)
        ensures
            match spec_decode_object_status(buf_bytes(*old(r))) {
                Ok((v, n)) => res == Ok::<ObjectStatus, DecodeError>(v) && buf_bytes(*final(r))
                    == buf_bytes(*old(r)).skip(n) && 0 < n <= buf_bytes(*old(r)).len(),
                Err(e) => res == Err::<ObjectStatus, DecodeError>(e),
            },
    {
        match decode_u64(r)? {
            0x0 => Ok(ObjectStatus::Normal),
            0x1 => Ok(ObjectStatus::DoesNotExist),
            0x3 => Ok(ObjectStatus::EndOfGroup),
            0x4 => Ok(ObjectStatus::EndOfTrack),
            _ => Err(DecodeError::InvalidObjectStatus),
        }
    }
}

} // verus!
