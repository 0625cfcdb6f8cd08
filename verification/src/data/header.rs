use vstd::prelude::*;

use crate::coding::buf::{buf_bytes, encoded};
use crate::coding::error::{DecodeError, EncodeError};
use crate::coding::integer::{decode_u64, encode_u64};
use crate::coding::varint::{lemma_varint_roundtrip, spec_decode_varint, varint_bytes};

verus! {

broadcast use crate::coding::varint::lemma_decode_varint_len;

/// The type that opens a data stream: a subgroup stream, with or without a subgroup id,
/// extension headers and an end-of-group mark, or a fetch stream.
#[derive(Clone, Copy, Debug, PartialEq, Eq, Structural, Hash)]
pub enum StreamHeaderType {
    SubgroupZeroId,
    SubgroupZeroIdExt,
    SubgroupFirstObjectId,
    SubgroupFirstObjectIdExt,
    SubgroupId,
    SubgroupIdExt,
    SubgroupZeroIdEndOfGroup,
    SubgroupZeroIdExtEndOfGroup,
    SubgroupFirstObjectIdEndOfGroup,
    SubgroupFirstObjectIdExtEndOfGroup,
    SubgroupIdEndOfGroup,
    SubgroupIdExtEndOfGroup,
    Fetch,
}

/// The number that stands for a stream type on the wire.
pub open spec fn header_type_code(t: StreamHeaderType) -> u64 {
    match t {
        StreamHeaderType::SubgroupZeroId => 0x10,
        StreamHeaderType::SubgroupZeroIdExt => 0x11,
        StreamHeaderType::SubgroupFirstObjectId => 0x12,
        StreamHeaderType::SubgroupFirstObjectIdExt => 0x13,
        StreamHeaderType::SubgroupId => 0x14,
        StreamHeaderType::SubgroupIdExt => 0x15,
        StreamHeaderType::SubgroupZeroIdEndOfGroup => 0x18,
        StreamHeaderType::SubgroupZeroIdExtEndOfGroup => 0x19,
        StreamHeaderType::SubgroupFirstObjectIdEndOfGroup => 0x1a,
        StreamHeaderType::SubgroupFirstObjectIdExtEndOfGroup => 0x1b,
        StreamHeaderType::SubgroupIdEndOfGroup => 0x1c,
        StreamHeaderType::SubgroupIdExtEndOfGroup => 0x1d,
        StreamHeaderType::Fetch => 0x05,
    }
}

/// The stream type a number stands for, if any.
pub open spec fn header_type_of(v: u64) -> Option<StreamHeaderType> {
    if v == 0x10 {
        Some(StreamHeaderType::SubgroupZeroId)
    } else if v == 0x11 {
        Some(StreamHeaderType::SubgroupZeroIdExt)
    } else if v == 0x12 {
        Some(StreamHeaderType::SubgroupFirstObjectId)
    } else if v == 0x13 {
        Some(StreamHeaderType::SubgroupFirstObjectIdExt)
    } else if v == 0x14 {
        Some(StreamHeaderType::SubgroupId)
    } else if v == 0x15 {
        Some(StreamHeaderType::SubgroupIdExt)
    } else if v == 0x18 {
        Some(StreamHeaderType::SubgroupZeroIdEndOfGroup)
    } else if v == 0x19 {
        Some(StreamHeaderType::SubgroupZeroIdExtEndOfGroup)
    } else if v == 0x1a {
        Some(StreamHeaderType::SubgroupFirstObjectIdEndOfGroup)
    } else if v == 0x1b {
        Some(StreamHeaderType::SubgroupFirstObjectIdExtEndOfGroup)
    } else if v == 0x1c {
        Some(StreamHeaderType::SubgroupIdEndOfGroup)
    } else if v == 0x1d {
        Some(StreamHeaderType::SubgroupIdExtEndOfGroup)
    } else if v == 0x05 {
        Some(StreamHeaderType::Fetch)
    } else {
        None
    }
}

/// The subgroup id is carried explicitly in the header.
pub open spec fn spec_has_subgroup_id(t: StreamHeaderType) -> bool {
    t == StreamHeaderType::SubgroupId || t == StreamHeaderType::SubgroupIdExt || t
        == StreamHeaderType::SubgroupIdEndOfGroup || t == StreamHeaderType::SubgroupIdExtEndOfGroup
}

/// The objects of the stream carry extension headers.
pub open spec fn spec_has_extension_headers(t: StreamHeaderType) -> bool {
    t != StreamHeaderType::Fetch && header_type_code(t) % 2 == 1
}

/// Decoding a stream type from the front of `s`; an unknown number is refused.
pub open spec fn spec_decode_header_type(s: Seq<u8>) -> Result<(StreamHeaderType, int), DecodeError> {
    match spec_decode_varint(s) {
        Ok((v, n)) => match header_type_of(v) {
            Some(t) => Ok((t, n)),
            None => Err(DecodeError::InvalidHeaderType),
        },
        Err(e) => Err(e),
    }
}

/// Every stream type decodes from its own wire form.
pub proof fn lemma_header_type_roundtrip(t: StreamHeaderType, rest: Seq<u8>)
    ensures
        spec_decode_header_type(varint_bytes(header_type_code(t)) + rest) == Ok::<
            (StreamHeaderType, int),
            DecodeError,
        >((t, varint_bytes(header_type_code(t)).len() as int)),
{
    lemma_varint_roundtrip(header_type_code(t), rest);
}

impl StreamHeaderType {
    /// The number that stands for this type on the wire.
    pub fn code(&self) -> (v: u64)
        ensures
            v == header_type_code(*self),
    {
        match self {
            StreamHeaderType::SubgroupZeroId => 0x10,
            StreamHeaderType::SubgroupZeroIdExt => 0x11,
            StreamHeaderType::SubgroupFirstObjectId => 0x12,
            StreamHeaderType::SubgroupFirstObjectIdExt => 0x13,
            StreamHeaderType::SubgroupId => 0x14,
            StreamHeaderType::SubgroupIdExt => 0x15,
            StreamHeaderType::SubgroupZeroIdEndOfGroup => 0x18,
            StreamHeaderType::SubgroupZeroIdExtEndOfGroup => 0x19,
            StreamHeaderType::SubgroupFirstObjectIdEndOfGroup => 0x1a,
            StreamHeaderType::SubgroupFirstObjectIdExtEndOfGroup => 0x1b,
            StreamHeaderType::SubgroupIdEndOfGroup => 0x1c,
            StreamHeaderType::SubgroupIdExtEndOfGroup => 0x1d,
            StreamHeaderType::Fetch => 0x05,
        }
    }

    /// Tells whether the header carries the subgroup id.
    pub fn has_subgroup_id(&self) -> (r: bool)
        ensures
            r == spec_has_subgroup_id(*self),
    {
        match self {
            StreamHeaderType::SubgroupId | StreamHeaderType::SubgroupIdExt
            | StreamHeaderType::SubgroupIdEndOfGroup
            | StreamHeaderType::SubgroupIdExtEndOfGroup => true,
            _ => false,
        }
    }

    /// Tells whether the objects of the stream carry extension headers.
    pub fn has_extension_headers(&self) -> (r: bool)
        ensures
            r == spec_has_extension_headers(*self),
    {
        match self {
            StreamHeaderType::Fetch => false,
            _ => self.code() % 2 == 1,
        }
    }

    /// Tells whether this is a subgroup stream (every type but fetch).
    pub fn is_subgroup(&self) -> (r: bool)
        ensures
            r == (*self != StreamHeaderType::Fetch),
    {
        match self {
            StreamHeaderType::Fetch => false,
            _ => true,
        }
    }

    /// Appends the type number.
    pub fn encode(&self, w: &mut bytes::BytesMut) -> (res: Result<(), EncodeError>)
        ensures
            encoded(
                res,
                buf_bytes(*old(w)),
                buf_bytes(*final(w)),
                true,
                varint_bytes(header_type_code(*self)),
                EncodeError::BoundsExceeded,
            ),
    {
        encode_u64(self.code(), w)
    }

    /// Reads a type number.
    pub fn decode(r: &mut bytes::BytesMut) -> (res: Result<StreamHeaderType, DecodeError>)
        ensures
            match spec_decode_header_type(buf_bytes(*old(r))) {
                Ok((v, n)) => res == Ok::<StreamHeaderType, DecodeError>(v) && buf_bytes(*final(r))
                    == buf_bytes(*old(r)).skip(n) && 0 < n <= buf_bytes(*old(r)).len(),
                Err(e) => res == Err::<StreamHeaderType, DecodeError>(e),
            },
    {
        match decode_u64(r)? {
            0x10 => Ok(StreamHeaderType::SubgroupZeroId),
            0x11 => Ok(StreamHeaderType::SubgroupZeroIdExt),
            0x12 => Ok(StreamHeaderType::SubgroupFirstObjectId),
            0x13 => Ok(StreamHeaderType::SubgroupFirstObjectIdExt),
            0x14 => Ok(StreamHeaderType::SubgroupId),
            0x15 => Ok(StreamHeaderType::SubgroupIdExt),
            0x18 => Ok(StreamHeaderType::SubgroupZeroIdEndOfGroup),
            0x19 => Ok(StreamHeaderType::SubgroupZeroIdExtEndOfGroup),
            0x1a => Ok(StreamHeaderType::SubgroupFirstObjectIdEndOfGroup),
            0x1b => Ok(StreamHeaderType::SubgroupFirstObjectIdExtEndOfGroup),
            0x1c => Ok(StreamHeaderType::SubgroupIdEndOfGroup),
            0x1d => Ok(StreamHeaderType::SubgroupIdExtEndOfGroup),
            0x05 => Ok(StreamHeaderType::Fetch),
            _ => Err(DecodeError::InvalidHeaderType),
        }
    }
}

} // verus!
