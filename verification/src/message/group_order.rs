use vstd::prelude::*;

use crate::coding::buf::{buf_bytes, encoded};
use crate::coding::error::{DecodeError, EncodeError};
use crate::coding::integer::{decode_u8, encode_u8, spec_decode_u8};

verus! {

/// The order in which the groups of a track are delivered.
#[derive(Clone, Copy, Debug, PartialEq, Eq, Structural)]
pub enum GroupOrder {
    Publisher,
    Ascending,
    Descending,
}

/// The byte that stands for a group order on the wire.
pub open spec fn group_order_code(g: GroupOrder) -> u8 {
    match g {
        GroupOrder::Publisher => 0x0,
        GroupOrder::Ascending => 0x1,
        GroupOrder::Descending => 0x2,
    }
}

/// Decoding a group order from the front of `s`; an unknown byte is refused.
pub open spec fn spec_decode_group_order(s: Seq<u8>) -> Result<(GroupOrder, int), DecodeError> {
    match spec_decode_u8(s) {
        Ok((v, n)) => if v == 0x0 {
            Ok((GroupOrder::Publisher, n))
        } else if v == 0x1 {
            Ok((GroupOrder::Ascending, n))
        } else if v == 0x2 {
            Ok((GroupOrder::Descending, n))
        } else {
            Err(DecodeError::InvalidGroupOrder)
        },
        Err(e) => Err(e),
    }
}

/// Every group order decodes from its own byte.
pub proof fn lemma_group_order_roundtrip(g: GroupOrder, rest: Seq<u8>)
    ensures
        spec_decode_group_order(seq![group_order_code(g)] + rest) == Ok::<(GroupOrder, int), DecodeError>(
            (g, 1),
        ),
{
    assert((seq![group_order_code(g)] + rest)[0] == group_order_code(g));
}

impl GroupOrder {
    /// Appends the group order byte.
    pub fn encode(&self, w: &mut bytes::BytesMut) -> (res: Result<(), EncodeError>)
        ensures
            encoded(
                res,
                buf_bytes(*old(w)),
                buf_bytes(*final(w)),
                true,
                seq![group_order_code(*self)],
                EncodeError::More(1),
            ),
    {
        match self {
            GroupOrder::Publisher => encode_u8(0x0, w),
            GroupOrder::Ascending => encode_u8(0x1, w),
            GroupOrder::Descending => encode_u8(0x2, w),
        }
    }

    /// Reads a group order byte; an unknown one is refused.
    pub fn decode(r: &mut bytes::BytesMut) -> (res: Result<GroupOrder, DecodeError>)
        ensures
            match spec_decode_group_order(buf_bytes(*old(r))) {
                Ok((v, n)) => res == Ok::<GroupOrder, DecodeError>(v) && buf_bytes(*final(r))
                    == buf_bytes(*old(r)).skip(n) && 0 < n <= buf_bytes(*old(r)).len(),
                Err(e) => res == Err::<GroupOrder, DecodeError>(e),
            },
    {
        match decode_u8(r)? {
            0x0 => Ok(GroupOrder::Publisher),
            0x1 => Ok(GroupOrder::Ascending),
            0x2 => Ok(GroupOrder::Descending),
            _ => Err(DecodeError::InvalidGroupOrder),
        }
    }
}

} // verus!
