use vstd::prelude::*;

use crate::coding::buf::{buf_bytes, encoded};
use crate::coding::error::{DecodeError, EncodeError};
use crate::coding::integer::{decode_u64, encode_u64};
use crate::coding::varint::{lemma_varint_roundtrip, spec_decode_varint, varint_bytes};

verus! {

broadcast use crate::coding::varint::lemma_decode_varint_len;

/// What a fetch asks for: a range of a track on its own, or the objects before a
/// subscription it joins (counted back from the latest group, or from a given group).
#[derive(Clone, Copy, Debug, PartialEq, Eq, Structural)]
pub enum FetchType {
    Standalone,
    RelativeJoining,
    AbsoluteJoining,
}

/// The number that stands for a fetch type on the wire.
pub open spec fn fetch_type_code(t: FetchType) -> u64 {
    match t {
        FetchType::Standalone => 0x1,
        FetchType::RelativeJoining => 0x2,
        FetchType::AbsoluteJoining => 0x3,
    }
}

/// Decoding a fetch type from the front of `s`; an unknown number is refused.
pub open spec fn spec_decode_fetch_type(s: Seq<u8>) -> Result<(FetchType, int), DecodeError> {
    match spec_decode_varint(s) {
        Ok((v, n)) => if v == 0x1 {
            Ok((FetchType::Standalone, n))
        } else if v == 0x2 {
            Ok((FetchType::RelativeJoining, n))
        } else if v == 0x3 {
            Ok((FetchType::AbsoluteJoining, n))
        } else {
            Err(DecodeError::InvalidFetchType)
        },
        Err(e) => Err(e),
    }
}

/// Every fetch type decodes from its own wire form.
pub proof fn lemma_fetch_type_roundtrip(t: FetchType, rest: Seq<u8>)
    ensures
        spec_decode_fetch_type(varint_bytes(fetch_type_code(t)) + rest) == Ok::<(FetchType, int), DecodeError>(
            (t, varint_bytes(fetch_type_code(t)).len() as int),
        ),
{
    lemma_varint_roundtrip(fetch_type_code(t), rest);
}

impl FetchType {
    /// Appends the fetch type number.
    pub fn encode(&self, w: &mut bytes::BytesMut) -> (res: Result<(), EncodeError>)
        ensures
            encoded(
                res,
                buf_bytes(*old(w)),
                buf_bytes(*final(w)),
                true,
                varint_bytes(fetch_type_code(*self)),
                EncodeError::BoundsExceeded,
            ),
    {
        match self {
            FetchType::Standalone => encode_u64(0x1, w),
            FetchType::RelativeJoining => encode_u64(0x2, w),
            FetchType::AbsoluteJoining => encode_u64(0x3, w),
        }
    }

    /// Reads a fetch type number; an unknown one is refused.
    pub fn decode(r: &mut bytes::BytesMut) -> (res: Result<FetchType, DecodeError>)
        ensures
            match spec_decode_fetch_type(buf_bytes(*old(r))) {
                Ok((v, n)) => res == Ok::<FetchType, DecodeError>(v) && buf_bytes(*final(r))
                    == buf_bytes(*old(r)).skip(n) && 0 < n <= buf_bytes(*old(r)).len(),
                Err(e) => res == Err::<FetchType, DecodeError>(e),
            },
    {
        match decode_u64(r)? {
            0x1 => Ok(FetchType::Standalone),
            0x2 => Ok(FetchType::RelativeJoining),
            0x3 => Ok(FetchType::AbsoluteJoining),
            _ => Err(DecodeError::InvalidFetchType),
        }
    }
}

} // verus!
