use vstd::prelude::*;

use super::buf::{
    buf_bytes, buf_capacity_limit, buf_put_slice, buf_split_to, buf_to_vec, decode_remaining, encode_remaining,
    encoded,
};
use super::error::{DecodeError, EncodeError};
use super::integer::{decode_usize, encode_usize, spec_decode_usize};
use super::varint::{lemma_varint_roundtrip, spec_encode_varint, varint_bound, varint_bytes};

verus! {

broadcast use crate::coding::varint::lemma_decode_varint_len;

/// The wire form of a byte string: its length as a variable-length integer, then the bytes.
pub open spec fn bytes_field(v: Seq<u8>) -> Seq<u8> {
    varint_bytes(v.len() as u64) + v
}

/// Decoding a length-prefixed byte string from the front of `s`.
pub open spec fn spec_decode_bytes(s: Seq<u8>) -> Result<(Seq<u8>, int), DecodeError> {
    match spec_decode_usize(s) {
        Ok((size, n)) => if s.len() - n >= size {
            Ok((s.subrange(n, n + size), n + size))
        } else {
            Err(DecodeError::More((size - (s.len() - n)) as usize))
        },
        Err(e) => Err(e),
    }
}

/// A byte string shorter than 2^62 decodes from its own wire form, whatever follows.
pub proof fn lemma_bytes_roundtrip(v: Seq<u8>, rest: Seq<u8>)
    requires
        v.len() < varint_bound(),
        v.len() <= usize::MAX,
    ensures
        spec_decode_bytes(bytes_field(v) + rest) == Ok::<(Seq<u8>, int), DecodeError>(
            (v, bytes_field(v).len() as int),
        ),
{
    let s = bytes_field(v) + rest;
    lemma_varint_roundtrip(v.len() as u64, v + rest);
    assert(s == varint_bytes(v.len() as u64) + (v + rest));
    let n = varint_bytes(v.len() as u64).len() as int;
    assert(s.subrange(n, n + v.len()) =~= v);
}

/// Appending the byte string `v` to a buffer holding `len` bytes: the bytes appended, or
/// the error (a length beyond 2^62, or no room for the length or for the bytes).
pub open spec fn spec_encode_bytes(v: Seq<u8>, len: int) -> Result<Seq<u8>, EncodeError> {
    match spec_encode_varint(v.len() as u64, len) {
        Ok(b) => if len + b.len() + v.len() > buf_capacity_limit() {
            Err(EncodeError::More((len + b.len() + v.len() - buf_capacity_limit()) as usize))
        } else {
            Ok(b + v)
        },
        Err(e) => Err(e),
    }
}

/// Appends a length-prefixed byte string.
pub fn encode_bytes(v: &[u8], w: &mut bytes::BytesMut) -> (res: Result<(), EncodeError>)
    ensures
        encoded(
            res,
            buf_bytes(*old(w)),
            buf_bytes(*final(w)),
            v@.len() < varint_bound(),
            bytes_field(v@),
            EncodeError::BoundsExceeded,
        ),
        match spec_encode_bytes(v@, buf_bytes(*old(w)).len() as int) {
            Ok(b) => res is Ok && buf_bytes(*final(w)) == buf_bytes(*old(w)) + b,
            Err(e) => res == Err::<(), EncodeError>(e),
        },
{
    let ghost start = buf_bytes(*w);
    encode_usize(v.len(), w)?;
    encode_remaining(w, v.len())?;
    buf_put_slice(w, v);
    assert(buf_bytes(*w) =~= start + bytes_field(v@));
    Ok(())
}

/// Reads a length-prefixed byte string.
pub fn decode_bytes(r: &mut bytes::BytesMut) -> (res: Result<Vec<u8>, DecodeError>)
    ensures
        match spec_decode_bytes(buf_bytes(*old(r))) {
            Ok((v, n)) => res is Ok && res->Ok_0@ == v && buf_bytes(*final(r)) == buf_bytes(
                *old(r),
            ).skip(n) && 0 < n <= buf_bytes(*old(r)).len(),
            Err(e) => res == Err::<Vec<u8>, DecodeError>(e),
        },
{
    let ghost s = buf_bytes(*r);
    let size = decode_usize(r)?;
    decode_remaining(r, size)?;
    let front = buf_split_to(r, size);
    let v = buf_to_vec(&front);
    proof {
        let n = s.len() - buf_bytes(front).len() - buf_bytes(*r).len();
        assert(v@ =~= s.subrange(n, n + size));
        assert(buf_bytes(*r) =~= s.skip(n + size));
    }
    Ok(v)
}

} // verus!
