use vstd::prelude::*;

use super::buf::{buf_bytes, encoded, lemma_encoded_fail, lemma_encoded_then};
use super::error::{DecodeError, EncodeError};
use super::integer::{decode_u64, encode_u64};
use super::varint::{lemma_varint_roundtrip, spec_decode_varint, varint_bound, varint_bytes};

verus! {

broadcast use crate::coding::varint::lemma_decode_varint_len;

/// A position in a track: a group and an object within it.
#[derive(Clone, Copy, Debug, PartialEq, Eq, Structural, PartialOrd, Ord, Hash)]
pub struct Location {
    pub group: u64,
    pub object: u64,
}

/// Locations are ordered by group, then by object.
pub open spec fn location_lt(a: Location, b: Location) -> bool {
    a.group < b.group || (a.group == b.group && a.object < b.object)
}

/// Locations are totally ordered: no location comes before itself, the order is
/// transitive, and of two different locations one comes first.
pub proof fn lemma_location_order(a: Location, b: Location, c: Location)
    ensures
        !location_lt(a, a),
        location_lt(a, b) && location_lt(b, c) ==> location_lt(a, c),
        a != b ==> location_lt(a, b) || location_lt(b, a),
        location_lt(a, b) ==> !location_lt(b, a),
{
}

/// The wire form: the group, then the object, as variable-length integers.
pub open spec fn location_bytes(l: Location) -> Seq<u8> {
    varint_bytes(l.group) + varint_bytes(l.object)
}

/// Both numbers fit a variable-length integer.
pub open spec fn location_encodable(l: Location) -> bool {
    l.group < varint_bound() && l.object < varint_bound()
}

/// Decoding a location from the front of `s`.
pub open spec fn spec_decode_location(s: Seq<u8>) -> Result<(Location, int), DecodeError> {
    match spec_decode_varint(s) {
        Ok((g, n)) => match spec_decode_varint(s.skip(n)) {
            Ok((o, m)) => Ok((Location { group: g, object: o }, n + m)),
            Err(e) => Err(e),
        },
        Err(e) => Err(e),
    }
}

/// An encodable location decodes from its own wire form.
pub proof fn lemma_location_roundtrip(l: Location, rest: Seq<u8>)
    requires
        location_encodable(l),
    ensures
        spec_decode_location(location_bytes(l) + rest) == Ok::<(Location, int), DecodeError>(
            (l, location_bytes(l).len() as int),
        ),
{
    let s = location_bytes(l) + rest;
    lemma_varint_roundtrip(l.group, varint_bytes(l.object) + rest);
    assert(s =~= varint_bytes(l.group) + (varint_bytes(l.object) + rest));
    assert(s.skip(varint_bytes(l.group).len() as int) =~= varint_bytes(l.object) + rest);
    lemma_varint_roundtrip(l.object, rest);
}

impl Location {
    pub fn new(group: u64, object: u64) -> (l: Self)
        ensures
            l.group == group,
            l.object == object,
    {
        Location { group, object }
    }

    /// Tells whether `self` comes strictly after `other`.
    pub fn is_after(&self, other: &Location) -> (r: bool)
        ensures
            r == location_lt(*other, *self),
    {
        self.group > other.group || (self.group == other.group && self.object > other.object)
    }

    /// Appends the group, then the object.
    pub fn encode(&self, w: &mut bytes::BytesMut) -> (res: Result<(), EncodeError>)
        ensures
            encoded(
                res,
                buf_bytes(*old(w)),
                buf_bytes(*final(w)),
                location_encodable(*self),
                location_bytes(*self),
                EncodeError::BoundsExceeded,
            ),
    {
        let ghost b0 = buf_bytes(*w);
        let r1 = encode_u64(self.group, w);
        let ghost b1 = buf_bytes(*w);
        if r1.is_err() {
            proof {
                lemma_encoded_fail(r1, b0, b1, self.group < varint_bound(), varint_bytes(self.group),
                    EncodeError::BoundsExceeded, self.object < varint_bound(),
                    varint_bytes(self.object), EncodeError::BoundsExceeded);
            }
            return r1;
        }
        let r2 = encode_u64(self.object, w);
        proof {
            lemma_encoded_then(r1, b0, b1, self.group < varint_bound(), varint_bytes(self.group),
                EncodeError::BoundsExceeded, r2, buf_bytes(*w), self.object < varint_bound(),
                varint_bytes(self.object), EncodeError::BoundsExceeded);
        }
        r2
    }

    /// Reads the group, then the object.
    pub fn decode(r: &mut bytes::BytesMut) -> (res: Result<Location, DecodeError>)
        ensures
            match spec_decode_location(buf_bytes(*old(r))) {
                Ok((v, n)) => res == Ok::<Location, DecodeError>(v) && buf_bytes(*final(r))
                    == buf_bytes(*old(r)).skip(n) && 0 < n <= buf_bytes(*old(r)).len(),
                Err(e) => res == Err::<Location, DecodeError>(e),
            },
    {
        let ghost s = buf_bytes(*r);
        let group = decode_u64(r)?;
        let ghost s1 = buf_bytes(*r);
        let object = decode_u64(r)?;
        proof {
            let n = s.len() - s1.len();
            assert(buf_bytes(*r) =~= s.skip(n + (s1.len() - buf_bytes(*r).len())));
        }
        Ok(Location { group, object })
    }
}

} // verus!
