use vstd::prelude::*;

use super::error::{DecodeError, EncodeError};

verus! {

#[verifier::external_type_specification]
#[verifier::external_body]
pub struct ExBytesMut(bytes::BytesMut);

/// The bytes held by a `BytesMut`, from its read position to its end.
pub uninterp spec fn buf_bytes(b: bytes::BytesMut) -> Seq<u8>;

/// The largest number of bytes a `BytesMut` can hold (`isize::MAX`).
pub open spec fn buf_capacity_limit() -> int {
    isize::MAX as int
}

/// `BytesMut::new`: claims the new buffer holds no bytes.
#[verifier::external_body]
pub(crate) fn buf_new() -> (b: bytes::BytesMut)
    ensures
        buf_bytes(b) == Seq::<u8>::empty(),
{
    bytes::BytesMut::new()
}

/// `BytesMut::len`: claims the result is the number of bytes held.
#[verifier::external_body]
pub(crate) fn buf_len(b: &bytes::BytesMut) -> (n: usize)
    ensures
        n == buf_bytes(*b).len(),
{
    b.len()
}

/// `Buf::remaining` for `BytesMut`: claims the result is the number of readable bytes.
#[verifier::external_body]
pub(crate) fn buf_remaining(b: &bytes::BytesMut) -> (n: usize)
    ensures
        n == buf_bytes(*b).len(),
{
    bytes::Buf::remaining(b)
}

/// `Buf::has_remaining` for `BytesMut`: claims the result tells whether any byte is left.
#[verifier::external_body]
pub(crate) fn buf_has_remaining(b: &bytes::BytesMut) -> (r: bool)
    ensures
        r == (buf_bytes(*b).len() > 0),
{
    bytes::Buf::has_remaining(b)
}

/// `BufMut::remaining_mut` for `BytesMut`: claims the result is `isize::MAX` less the
/// number of bytes held (the source computes exactly that).
#[verifier::external_body]
pub(crate) fn buf_remaining_mut(b: &bytes::BytesMut) -> (n: usize)
    ensures
        n + buf_bytes(*b).len() == buf_capacity_limit(),
{
    bytes::BufMut::remaining_mut(b)
}

/// `BufMut::put_u8` for `BytesMut`: claims the byte is appended at the end.
/// The buffer must stay within `isize::MAX` bytes, else the allocation panics.
#[verifier::external_body]
pub(crate) fn buf_put_u8(w: &mut bytes::BytesMut, v: u8)
    requires
        buf_bytes(*old(w)).len() + 1 <= buf_capacity_limit(),
    ensures
        buf_bytes(*final(w)) == buf_bytes(*old(w)).push(v),
{
    bytes::BufMut::put_u8(w, v)
}

/// `BufMut::put_slice` for `BytesMut`: claims the slice is appended at the end.
/// The buffer must stay within `isize::MAX` bytes, else the allocation panics.
#[verifier::external_body]
pub(crate) fn buf_put_slice(w: &mut bytes::BytesMut, s: &[u8])
    requires
        buf_bytes(*old(w)).len() + s@.len() <= buf_capacity_limit(),
    ensures
        buf_bytes(*final(w)) == buf_bytes(*old(w)) + s@,
{
    bytes::BufMut::put_slice(w, s)
}

/// `Buf::get_u8` for `BytesMut`: claims the first byte is returned and removed.
/// It panics on an empty buffer, which `requires` rules out.
#[verifier::external_body]
pub(crate) fn buf_get_u8(r: &mut bytes::BytesMut) -> (v: u8)
    requires
        buf_bytes(*old(r)).len() >= 1,
    ensures
        v == buf_bytes(*old(r))[0],
        buf_bytes(*final(r)) == buf_bytes(*old(r)).drop_first(),
{
    bytes::Buf::get_u8(r)
}

/// `BytesMut::split_to`: claims the first `at` bytes are returned and removed.
/// It panics when `at` exceeds the length, which `requires` rules out.
#[verifier::external_body]
pub(crate) fn buf_split_to(r: &mut bytes::BytesMut, at: usize) -> (front: bytes::BytesMut)
    requires
        at <= buf_bytes(*old(r)).len(),
    ensures
        buf_bytes(front) == buf_bytes(*old(r)).take(at as int),
        buf_bytes(*final(r)) == buf_bytes(*old(r)).skip(at as int),
{
    r.split_to(at)
}

/// `to_vec` on the bytes of a `BytesMut`: claims the vector holds exactly those bytes.
#[verifier::external_body]
pub(crate) fn buf_to_vec(b: &bytes::BytesMut) -> (v: Vec<u8>)
    ensures
        v@ == buf_bytes(*b),
{
    b.to_vec()
}

/// Checks that at least `required` bytes can be read, else says how many more are needed.
pub fn decode_remaining(r: &bytes::BytesMut, required: usize) -> (res: Result<(), DecodeError>)
    ensures
        res == (if buf_bytes(*r).len() >= required {
            Ok::<(), DecodeError>(())
        } else {
            Err(DecodeError::More((required - buf_bytes(*r).len()) as usize))
        }),
{
    let remaining = buf_remaining(r);
    if remaining >= required {
        Ok(())
    } else {
        Err(DecodeError::More(required - remaining))
    }
}

/// Checks that at least `required` more bytes can be written, else says how many are missing.
pub fn encode_remaining(w: &bytes::BytesMut, required: usize) -> (res: Result<(), EncodeError>)
    ensures
        res == (if buf_bytes(*w).len() + required <= buf_capacity_limit() {
            Ok::<(), EncodeError>(())
        } else {
            Err(EncodeError::More((buf_bytes(*w).len() + required - buf_capacity_limit()) as usize))
        }),
{
    let remaining = buf_remaining_mut(w);
    if remaining >= required {
        Ok(())
    } else {
        Err(EncodeError::More(required - remaining))
    }
}

} // verus!

verus! {

/// `BufMut::put_u16` for `BytesMut`: claims the two big-endian bytes of `v` are appended.
/// The buffer must stay within `isize::MAX` bytes, else the allocation panics.
#[verifier::external_body]
pub(crate) fn buf_put_u16(w: &mut bytes::BytesMut, v: u16)
    requires
        buf_bytes(*old(w)).len() + 2 <= buf_capacity_limit(),
    ensures
        buf_bytes(*final(w)) == buf_bytes(*old(w)) + seq![(v >> 8u16) as u8, v as u8],
{
    bytes::BufMut::put_u16(w, v)
}

/// `Buf::get_u16` for `BytesMut`: claims the first two bytes are removed and returned
/// as a big-endian value. It panics with fewer than two bytes, which `requires` rules out.
#[verifier::external_body]
pub(crate) fn buf_get_u16(r: &mut bytes::BytesMut) -> (v: u16)
    requires
        buf_bytes(*old(r)).len() >= 2,
    ensures
        v == ((buf_bytes(*old(r))[0] as u16) << 8u16 | buf_bytes(*old(r))[1] as u16),
        buf_bytes(*final(r)) == buf_bytes(*old(r)).skip(2),
{
    bytes::Buf::get_u16(r)
}

/// What an encoder promises: on success the buffer grew by exactly `bytes` and the value
/// was encodable; an encodable value with room in the buffer is always encoded, and fails
/// only for want of room; a value that is not encodable always fails, and fails with
/// `err` whenever the buffer has room for `bytes` (the pieces that come before the
/// refused one are a prefix of `bytes`, so running out of room is the only other error).
pub open spec fn encoded(
    res: Result<(), EncodeError>,
    before: Seq<u8>,
    after: Seq<u8>,
    valid: bool,
    bytes: Seq<u8>,
    err: EncodeError,
) -> bool {
    &&& res is Ok ==> valid && after == before + bytes
    &&& valid && before.len() + bytes.len() <= buf_capacity_limit() ==> res is Ok
    &&& valid && res is Err ==> res->Err_0 is More
    &&& !valid ==> res is Err && (res->Err_0 is More || res->Err_0 == err)
    &&& !valid && before.len() + bytes.len() <= buf_capacity_limit() ==> res == Err::<(), EncodeError>(err)
}

/// Skipping twice is skipping the sum.
pub proof fn lemma_skip_skip(s: Seq<u8>, a: int, b: int)
    requires
        0 <= a <= s.len(),
        0 <= b <= s.len() - a,
    ensures
        s.skip(a).skip(b) == s.skip(a + b),
{
    assert(s.skip(a).skip(b) =~= s.skip(a + b));
}

/// Skipping into the appended part of a concatenation.
pub proof fn lemma_skip_concat(a: Seq<u8>, b: Seq<u8>, rest: Seq<u8>)
    ensures
        (a + b + rest).skip(a.len() as int) == b + rest,
        (a + (b + rest)) == a + b + rest,
{
    assert((a + b + rest).skip(a.len() as int) =~= b + rest);
    assert((a + (b + rest)) =~= a + b + rest);
}

} // verus!

verus! {

/// `BytesMut::from(&[u8])`: claims the new buffer holds exactly the slice's bytes.
#[verifier::external_body]
pub(crate) fn buf_from_slice(s: &[u8]) -> (b: bytes::BytesMut)
    ensures
        buf_bytes(b) == s@,
{
    bytes::BytesMut::from(s)
}

} // verus!

verus! {

/// Two encoders run one after the other, where the first failed: the failure stands for
/// the pair. The pair's error is the first one's, unless the first value was encodable.
pub proof fn lemma_encoded_fail(
    r1: Result<(), EncodeError>,
    b0: Seq<u8>,
    b1: Seq<u8>,
    v1: bool,
    bytes1: Seq<u8>,
    e1: EncodeError,
    v2: bool,
    bytes2: Seq<u8>,
    e2: EncodeError,
)
    requires
        encoded(r1, b0, b1, v1, bytes1, e1),
        r1 is Err,
    ensures
        encoded(r1, b0, b1, v1 && v2, bytes1 + bytes2, if v1 { e2 } else { e1 }),
{
}

/// Two encoders run one after the other, where the first succeeded: the second one's
/// result stands for the pair, and the bytes are the two parts in order.
pub proof fn lemma_encoded_then(
    r1: Result<(), EncodeError>,
    b0: Seq<u8>,
    b1: Seq<u8>,
    v1: bool,
    bytes1: Seq<u8>,
    e1: EncodeError,
    r2: Result<(), EncodeError>,
    b2: Seq<u8>,
    v2: bool,
    bytes2: Seq<u8>,
    e2: EncodeError,
)
    requires
        encoded(r1, b0, b1, v1, bytes1, e1),
        r1 is Ok,
        encoded(r2, b1, b2, v2, bytes2, e2),
    ensures
        encoded(r2, b0, b2, v1 && v2, bytes1 + bytes2, if v1 { e2 } else { e1 }),
{
    assert(b0 + bytes1 + bytes2 =~= b0 + (bytes1 + bytes2));
}

} // verus!
