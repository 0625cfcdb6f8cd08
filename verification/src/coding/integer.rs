use vstd::prelude::*;

use super::buf::{
    buf_bytes, buf_get_u16, buf_get_u8, buf_put_u16, buf_put_u8, decode_remaining,
    encode_remaining, encoded,
};
use super::error::{DecodeError, EncodeError};
use super::varint::{
    decode_varint, encode_varint, spec_decode_varint, spec_encode_varint, varint_bound, varint_bytes,
};

verus! {

broadcast use crate::coding::varint::lemma_decode_varint_len;

/// Decoding one byte from the front of `s`.
pub open spec fn spec_decode_u8(s: Seq<u8>) -> Result<(u8, int), DecodeError> {
    if s.len() == 0 {
        Err(DecodeError::More(1))
    } else {
        Ok((s[0], 1))
    }
}

/// Decoding a big-endian `u16` from the front of `s`.
pub open spec fn spec_decode_u16(s: Seq<u8>) -> Result<(u16, int), DecodeError> {
    if s.len() < 2 {
        Err(DecodeError::More((2 - s.len()) as usize))
    } else {
        Ok((((s[0] as u16) << 8u16 | s[1] as u16), 2))
    }
}

/// The big-endian bytes of a `u16`.
pub open spec fn u16_bytes(v: u16) -> Seq<u8> {
    seq![(v >> 8u16) as u8, v as u8]
}

/// Decoding a `usize` carried as a variable-length integer.
pub open spec fn spec_decode_usize(s: Seq<u8>) -> Result<(usize, int), DecodeError> {
    match spec_decode_varint(s) {
        Ok((v, n)) => if v <= usize::MAX {
            Ok((v as usize, n))
        } else {
            Err(DecodeError::BoundsExceeded)
        },
        Err(e) => Err(e),
    }
}

/// Appends one byte.
pub fn encode_u8(x: u8, w: &mut bytes::BytesMut) -> (res: Result<(), EncodeError>)
    ensures
        encoded(
            res,
            buf_bytes(*old(w)),
            buf_bytes(*final(w)),
            true,
            seq![x],
            EncodeError::More(1),
        ),
{
    encode_remaining(w, 1)?;
    buf_put_u8(w, x);
    assert(buf_bytes(*w) =~= buf_bytes(*old(w)) + seq![x]);
    Ok(())
}

/// Reads one byte.
pub fn decode_u8(r: &mut bytes::BytesMut) -> (res: Result<u8, DecodeError>)
    ensures
        match spec_decode_u8(buf_bytes(*old(r))) {
            Ok((v, n)) => res == Ok::<u8, DecodeError>(v) && buf_bytes(*final(r)) == buf_bytes(
                *old(r),
            ).skip(n),
            Err(e) => res == Err::<u8, DecodeError>(e),
        },
{
    decode_remaining(r, 1)?;
    let v = buf_get_u8(r);
    assert(buf_bytes(*r) =~= buf_bytes(*old(r)).skip(1));
    Ok(v)
}

/// Appends the two big-endian bytes of `x`.
pub fn encode_u16(x: u16, w: &mut bytes::BytesMut) -> (res: Result<(), EncodeError>)
    ensures
        encoded(
            res,
            buf_bytes(*old(w)),
            buf_bytes(*final(w)),
            true,
            u16_bytes(x),
            EncodeError::More(2),
        ),
{
    encode_remaining(w, 2)?;
    buf_put_u16(w, x);
    Ok(())
}

/// Reads a big-endian `u16`.
pub fn decode_u16(r: &mut bytes::BytesMut) -> (res: Result<u16, DecodeError>)
    ensures
        match spec_decode_u16(buf_bytes(*old(r))) {
            Ok((v, n)) => res == Ok::<u16, DecodeError>(v) && buf_bytes(*final(r)) == buf_bytes(
                *old(r),
            ).skip(n),
            Err(e) => res == Err::<u16, DecodeError>(e),
        },
{
    decode_remaining(r, 2)?;
    Ok(buf_get_u16(r))
}

/// Appends a `u64` as a variable-length integer.
pub fn encode_u64(x: u64, w: &mut bytes::BytesMut) -> (res: Result<(), EncodeError>)
    ensures
        encoded(
            res,
            buf_bytes(*old(w)),
            buf_bytes(*final(w)),
            x < varint_bound(),
            varint_bytes(x),
            EncodeError::BoundsExceeded,
        ),
        match spec_encode_varint(x, buf_bytes(*old(w)).len() as int) {
            Ok(b) => res is Ok && buf_bytes(*final(w)) == buf_bytes(*old(w)) + b,
            Err(e) => res == Err::<(), EncodeError>(e),
        },
{
    proof {
        if x < varint_bound() {
            super::varint::lemma_varint_roundtrip(x, Seq::empty());
        }
    }
    encode_varint(x, w)
}

/// Reads a `u64` carried as a variable-length integer.
pub fn decode_u64(r: &mut bytes::BytesMut) -> (res: Result<u64, DecodeError>)
    ensures
        match spec_decode_varint(buf_bytes(*old(r))) {
            Ok((v, n)) => res == Ok::<u64, DecodeError>(v) && buf_bytes(*final(r)) == buf_bytes(
                *old(r),
            ).skip(n) && 0 < n <= buf_bytes(*old(r)).len(),
            Err(e) => res == Err::<u64, DecodeError>(e),
        },
{
    decode_varint(r)
}

/// Appends a `usize` as a variable-length integer.
pub fn encode_usize(x: usize, w: &mut bytes::BytesMut) -> (res: Result<(), EncodeError>)
    ensures
        encoded(
            res,
            buf_bytes(*old(w)),
            buf_bytes(*final(w)),
            x < varint_bound(),
            varint_bytes(x as u64),
            EncodeError::BoundsExceeded,
        ),
        match spec_encode_varint(x as u64, buf_bytes(*old(w)).len() as int) {
            Ok(b) => res is Ok && buf_bytes(*final(w)) == buf_bytes(*old(w)) + b,
            Err(e) => res == Err::<(), EncodeError>(e),
        },
{
    encode_u64(x as u64, w)
}

/// Reads a `usize` carried as a variable-length integer; a value beyond `usize::MAX`
/// is refused.
pub fn decode_usize(r: &mut bytes::BytesMut) -> (res: Result<usize, DecodeError>)
    ensures
        match spec_decode_usize(buf_bytes(*old(r))) {
            Ok((v, n)) => res == Ok::<usize, DecodeError>(v) && buf_bytes(*final(r)) == buf_bytes(
                *old(r),
            ).skip(n) && 0 < n <= buf_bytes(*old(r)).len(),
            Err(e) => res == Err::<usize, DecodeError>(e),
        },
{
    let v = decode_u64(r)?;
    if v <= usize::MAX as u64 {
        Ok(v as usize)
    } else {
        Err(DecodeError::BoundsExceeded)
    }
}

} // verus!
