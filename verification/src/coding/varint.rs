use vstd::prelude::*;

use super::buf::{
    buf_bytes, buf_capacity_limit, buf_get_u8, buf_put_u8, decode_remaining, encode_remaining,
};
use super::error::{DecodeError, EncodeError};

verus! {

/// The exclusive upper bound of the values a variable-length integer can carry (2^62).
pub open spec fn varint_bound() -> u64 {
    0x4000_0000_0000_0000u64
}

/// The number of bytes of the variable-length encoding of `x`.
pub open spec fn varint_len(x: u64) -> nat {
    if x < 0x40 {
        1
    } else if x < 0x4000 {
        2
    } else if x < 0x4000_0000 {
        4
    } else {
        8
    }
}

/// The QUIC variable-length integer encoding of `x` (two tag bits, then `x` big-endian).
pub open spec fn varint_bytes(x: u64) -> Seq<u8> {
    if x < 0x40 {
        seq![x as u8]
    } else if x < 0x4000 {
        seq![(0x40u64 | (x >> 8u64)) as u8, x as u8]
    } else if x < 0x4000_0000 {
        seq![
            (0x80u64 | (x >> 24u64)) as u8,
            (x >> 16u64) as u8,
            (x >> 8u64) as u8,
            x as u8,
        ]
    } else {
        seq![
            (0xC0u64 | (x >> 56u64)) as u8,
            (x >> 48u64) as u8,
            (x >> 40u64) as u8,
            (x >> 32u64) as u8,
            (x >> 24u64) as u8,
            (x >> 16u64) as u8,
            (x >> 8u64) as u8,
            x as u8,
        ]
    }
}

/// The length that the two tag bits of a first byte announce.
pub open spec fn varint_tag_len(b: u8) -> int {
    if b >> 6u8 == 0 {
        1
    } else if b >> 6u8 == 1 {
        2
    } else if b >> 6u8 == 2 {
        4
    } else {
        8
    }
}

/// The value carried by the first `n` bytes of `s`, with the tag bits cleared.
pub open spec fn varint_value(s: Seq<u8>, n: int) -> u64 {
    if n == 1 {
        (s[0] & 0x3f) as u64
    } else if n == 2 {
        ((s[0] & 0x3f) as u64) << 8u64 | s[1] as u64
    } else if n == 4 {
        ((s[0] & 0x3f) as u64) << 24u64 | (s[1] as u64) << 16u64 | (s[2] as u64) << 8u64
            | s[3] as u64
    } else {
        ((s[0] & 0x3f) as u64) << 56u64 | (s[1] as u64) << 48u64 | (s[2] as u64) << 40u64 | (
        s[3] as u64) << 32u64 | (s[4] as u64) << 24u64 | (s[5] as u64) << 16u64 | (s[6] as u64)
            << 8u64 | s[7] as u64
    }
}

/// Decoding a variable-length integer from the front of `s`: the value and the number of
/// bytes it took, or how many more bytes are needed.
pub closed spec fn spec_decode_varint(s: Seq<u8>) -> Result<(u64, int), DecodeError> {
    if s.len() == 0 {
        Err(DecodeError::More(1))
    } else if s.len() < varint_tag_len(s[0]) {
        Err(DecodeError::More((varint_tag_len(s[0]) - s.len()) as usize))
    } else {
        Ok((varint_value(s, varint_tag_len(s[0])), varint_tag_len(s[0])))
    }
}

/// A decoded variable-length integer takes between one and eight bytes, no more than
/// there are; decoding fails only for want of bytes.
pub broadcast proof fn lemma_decode_varint_len(s: Seq<u8>)
    ensures
        #[trigger] spec_decode_varint(s) matches Ok((v, n)) ==> 0 < n <= s.len() && n <= 8,
        spec_decode_varint(s) matches Err(e) ==> e is More,
{
}

/// Encoding `x` into a buffer holding `len` bytes: the bytes appended, or the error.
pub open spec fn spec_encode_varint(x: u64, len: int) -> Result<Seq<u8>, EncodeError> {
    if x >= varint_bound() {
        Err(EncodeError::BoundsExceeded)
    } else if len + varint_len(x) > buf_capacity_limit() {
        Err(EncodeError::More((len + varint_len(x) - buf_capacity_limit()) as usize))
    } else {
        Ok(varint_bytes(x))
    }
}

/// Every value below 2^62 decodes from its own encoding, whatever follows it.
pub proof fn lemma_varint_roundtrip(x: u64, rest: Seq<u8>)
    requires
        x < varint_bound(),
    ensures
        varint_bytes(x).len() == varint_len(x),
        spec_decode_varint(varint_bytes(x) + rest) == Ok::<(u64, int), DecodeError>(
            (x, varint_len(x) as int),
        ),
{
    let s = varint_bytes(x) + rest;
    if x < 0x40 {
        assert(s[0] == x as u8);
        assert((x as u8) >> 6u8 == 0 && ((x as u8) & 0x3f) as u64 == x) by (bit_vector)
            requires
                x < 0x40,
        ;
    } else if x < 0x4000 {
        let b0 = (0x40u64 | (x >> 8u64)) as u8;
        let b1 = x as u8;
        assert(s[0] == b0 && s[1] == b1);
        assert(b0 >> 6u8 == 1 && (((b0 & 0x3f) as u64) << 8u64 | b1 as u64) == x) by (bit_vector)
            requires
                0x40 <= x < 0x4000,
                b0 == (0x40u64 | (x >> 8u64)) as u8,
                b1 == x as u8,
        ;
    } else if x < 0x4000_0000 {
        let b0 = (0x80u64 | (x >> 24u64)) as u8;
        let b1 = (x >> 16u64) as u8;
        let b2 = (x >> 8u64) as u8;
        let b3 = x as u8;
        assert(s[0] == b0 && s[1] == b1 && s[2] == b2 && s[3] == b3);
        assert(b0 >> 6u8 == 2 && (((b0 & 0x3f) as u64) << 24u64 | (b1 as u64) << 16u64 | (
        b2 as u64) << 8u64 | b3 as u64) == x) by (bit_vector)
            requires
                0x4000 <= x < 0x4000_0000,
                b0 == (0x80u64 | (x >> 24u64)) as u8,
                b1 == (x >> 16u64) as u8,
                b2 == (x >> 8u64) as u8,
                b3 == x as u8,
        ;
    } else {
        let b0 = (0xC0u64 | (x >> 56u64)) as u8;
        let b1 = (x >> 48u64) as u8;
        let b2 = (x >> 40u64) as u8;
        let b3 = (x >> 32u64) as u8;
        let b4 = (x >> 24u64) as u8;
        let b5 = (x >> 16u64) as u8;
        let b6 = (x >> 8u64) as u8;
        let b7 = x as u8;
        assert(s[0] == b0 && s[1] == b1 && s[2] == b2 && s[3] == b3);
        assert(s[4] == b4 && s[5] == b5 && s[6] == b6 && s[7] == b7);
        assert(b0 >> 6u8 == 3 && (((b0 & 0x3f) as u64) << 56u64 | (b1 as u64) << 48u64 | (
        b2 as u64) << 40u64 | (b3 as u64) << 32u64 | (b4 as u64) << 24u64 | (b5 as u64) << 16u64
            | (b6 as u64) << 8u64 | b7 as u64) == x) by (bit_vector)
            requires
                0x4000_0000 <= x < 0x4000_0000_0000_0000u64,
                b0 == (0xC0u64 | (x >> 56u64)) as u8,
                b1 == (x >> 48u64) as u8,
                b2 == (x >> 40u64) as u8,
                b3 == (x >> 32u64) as u8,
                b4 == (x >> 24u64) as u8,
                b5 == (x >> 16u64) as u8,
                b6 == (x >> 8u64) as u8,
                b7 == x as u8,
        ;
    }
}

/// Appends the variable-length encoding of `x` (the `u64` encoding of the wire format).
pub fn encode_varint(x: u64, w: &mut bytes::BytesMut) -> (res: Result<(), EncodeError>)
    ensures
        match spec_encode_varint(x, buf_bytes(*old(w)).len() as int) {
            Ok(b) => res is Ok && buf_bytes(*final(w)) == buf_bytes(*old(w)) + b,
            Err(e) => res == Err::<(), EncodeError>(e),
        },
{
    let ghost start = buf_bytes(*w);
    if x < 0x40 {
        encode_remaining(w, 1)?;
        buf_put_u8(w, x as u8);
    } else if x < 0x4000 {
        encode_remaining(w, 2)?;
        buf_put_u8(w, (0x40u64 | (x >> 8u64)) as u8);
        buf_put_u8(w, x as u8);
    } else if x < 0x4000_0000 {
        encode_remaining(w, 4)?;
        buf_put_u8(w, (0x80u64 | (x >> 24u64)) as u8);
        buf_put_u8(w, (x >> 16u64) as u8);
        buf_put_u8(w, (x >> 8u64) as u8);
        buf_put_u8(w, x as u8);
    } else if x < 0x4000_0000_0000_0000u64 {
        encode_remaining(w, 8)?;
        buf_put_u8(w, (0xC0u64 | (x >> 56u64)) as u8);
        buf_put_u8(w, (x >> 48u64) as u8);
        buf_put_u8(w, (x >> 40u64) as u8);
        buf_put_u8(w, (x >> 32u64) as u8);
        buf_put_u8(w, (x >> 24u64) as u8);
        buf_put_u8(w, (x >> 16u64) as u8);
        buf_put_u8(w, (x >> 8u64) as u8);
        buf_put_u8(w, x as u8);
    } else {
        return Err(EncodeError::BoundsExceeded);
    }
    assert(buf_bytes(*w) =~= start + varint_bytes(x));
    Ok(())
}

/// Reads a variable-length integer from the front of `r` (the `u64` decoding of the wire format).
pub fn decode_varint(r: &mut bytes::BytesMut) -> (res: Result<u64, DecodeError>)
    ensures
        match spec_decode_varint(buf_bytes(*old(r))) {
            Ok((v, n)) => res == Ok::<u64, DecodeError>(v) && buf_bytes(*final(r)) == buf_bytes(
                *old(r),
            ).skip(n),
            Err(e) => res == Err::<u64, DecodeError>(e),
        },
{
    let ghost s = buf_bytes(*r);
    decode_remaining(r, 1)?;
    let b0 = buf_get_u8(r);
    let tag = b0 >> 6u8;
    let hi = (b0 & 0x3f) as u64;
    if tag == 0 {
        assert(buf_bytes(*r) =~= s.skip(1));
        Ok(hi)
    } else if tag == 1 {
        decode_remaining(r, 1)?;
        let b1 = buf_get_u8(r);
        assert(buf_bytes(*r) =~= s.skip(2));
        Ok(hi << 8u64 | b1 as u64)
    } else if tag == 2 {
        decode_remaining(r, 3)?;
        let b1 = buf_get_u8(r);
        let b2 = buf_get_u8(r);
        let b3 = buf_get_u8(r);
        assert(buf_bytes(*r) =~= s.skip(4));
        Ok(hi << 24u64 | (b1 as u64) << 16u64 | (b2 as u64) << 8u64 | b3 as u64)
    } else {
        decode_remaining(r, 7)?;
        let b1 = buf_get_u8(r);
        let b2 = buf_get_u8(r);
        let b3 = buf_get_u8(r);
        let b4 = buf_get_u8(r);
        let b5 = buf_get_u8(r);
        let b6 = buf_get_u8(r);
        let b7 = buf_get_u8(r);
        assert(buf_bytes(*r) =~= s.skip(8));
        Ok(hi << 56u64 | (b1 as u64) << 48u64 | (b2 as u64) << 40u64 | (b3 as u64) << 32u64 | (
        b4 as u64) << 24u64 | (b5 as u64) << 16u64 | (b6 as u64) << 8u64 | b7 as u64)
    }
}

} // verus!
