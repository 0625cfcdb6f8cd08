use vstd::prelude::*;

use crate::coding::buf::{
    buf_bytes, encoded, lemma_encoded_fail, lemma_encoded_then, lemma_skip_skip,
};
use crate::coding::error::{DecodeError, EncodeError};
use crate::coding::integer::{decode_u64, decode_u8, encode_u64, encode_u8, spec_decode_u8};
use crate::coding::varint::{lemma_varint_roundtrip, spec_decode_varint, varint_bound, varint_bytes};
use crate::coding::params::{
    lemma_params_has_order, lemma_params_roundtrip, params_bytes, params_encodable,
    params_order, spec_decode_params, Params,
};

verus! {

broadcast use crate::coding::varint::lemma_decode_varint_len;

/// Sent by the publisher to accept a fetch.
#[derive(Clone, Debug, PartialEq, Eq)]
pub struct FetchOk {
    /// The subscription id.
    pub id: u64,
    /// The order in which groups will be delivered.
    pub group_order: u8,
    /// Nonzero if every object of the track has been published.
    pub end_of_track: u8,
    /// The largest group id available for this track.
    pub largest_group_id: u64,
    /// The largest object id available within that group.
    pub largest_object_id: u64,
    /// Optional parameters.
    pub params: Params,
}

/// The message as plain data.
pub struct FetchOkView {
    pub id: u64,
    pub group_order: u8,
    pub end_of_track: u8,
    pub largest_group_id: u64,
    pub largest_object_id: u64,
    pub params: Map<u64, Seq<u8>>,
}

impl View for FetchOk {
    type V = FetchOkView;

    open spec fn view(&self) -> FetchOkView {
        FetchOkView { id: self.id, group_order: self.group_order, end_of_track: self.end_of_track, largest_group_id: self.largest_group_id, largest_object_id: self.largest_object_id, params: self.params@ }
    }
}

/// The wire form: id, group_order, end_of_track, largest_group_id, largest_object_id, params, one after another (parameters in the order `o`).
pub open spec fn fetch_ok_bytes(m: FetchOkView, o: Seq<(u64, Seq<u8>)>) -> Seq<u8> {
    varint_bytes(m.id) + seq![m.group_order] + seq![m.end_of_track] + varint_bytes(m.largest_group_id) + varint_bytes(m.largest_object_id) + params_bytes(o)
}

/// Every field can be encoded.
pub open spec fn fetch_ok_valid(m: FetchOkView, o: Seq<(u64, Seq<u8>)>) -> bool {
    (m.id < varint_bound()) && (true) && (true) && (m.largest_group_id < varint_bound()) && (m.largest_object_id < varint_bound()) && (params_encodable(o))
}

/// The error of the first field that cannot be encoded.
pub open spec fn fetch_ok_err(m: FetchOkView, o: Seq<(u64, Seq<u8>)>) -> EncodeError {
    if !(m.id < varint_bound()) {
        EncodeError::BoundsExceeded
    } else if !(true) {
        EncodeError::More(1)
    } else if !(true) {
        EncodeError::More(1)
    } else if !(m.largest_group_id < varint_bound()) {
        EncodeError::BoundsExceeded
    } else if !(m.largest_object_id < varint_bound()) {
        EncodeError::BoundsExceeded
    } else {
        EncodeError::BoundsExceeded
    }
}

/// Decoding the message from the front of `s`, field by field.
pub open spec fn spec_decode_fetch_ok(s: Seq<u8>) -> Result<(FetchOkView, int), DecodeError> {
    match spec_decode_varint(s) {
        Ok((x1, n1)) => match spec_decode_u8(s.skip(n1)) {
            Ok((x2, n2)) => match spec_decode_u8(s.skip(n1 + n2)) {
                Ok((x3, n3)) => match spec_decode_varint(s.skip(n1 + n2 + n3)) {
                    Ok((x4, n4)) => match spec_decode_varint(s.skip(n1 + n2 + n3 + n4)) {
                        Ok((x5, n5)) => match spec_decode_params(s.skip(n1 + n2 + n3 + n4 + n5)) {
                            Ok((x6, n6)) => Ok((FetchOkView { id: x1, group_order: x2, end_of_track: x3, largest_group_id: x4, largest_object_id: x5, params: x6 }, n1 + n2 + n3 + n4 + n5 + n6)),
                            Err(e) => Err(e),
                        },
                        Err(e) => Err(e),
                    },
                    Err(e) => Err(e),
                },
                Err(e) => Err(e),
            },
            Err(e) => Err(e),
        },
        Err(e) => Err(e),
    }
}

/// Decoding what `FetchOk::encode` writes gives back the same message, for every message
/// that can be encoded.
#[verifier::rlimit(60)]
pub proof fn lemma_fetch_ok_roundtrip(m: FetchOk, o: Seq<(u64, Seq<u8>)>, rest: Seq<u8>)
    requires
        fetch_ok_valid(m@, o),
        params_order(m@.params, o) && forall|k: u64| m@.params.contains_key(k) ==> (#[trigger] m@.params[k]).len() <= usize::MAX,
    ensures
        spec_decode_fetch_ok(fetch_ok_bytes(m@, o) + rest) == Ok::<(FetchOkView, int), DecodeError>(
            (m@, fetch_ok_bytes(m@, o).len() as int),
        ),
{
    let s = fetch_ok_bytes(m@, o) + rest;
    assert(s =~= varint_bytes(m@.id) + (seq![m@.group_order] + (seq![m@.end_of_track] + (varint_bytes(m@.largest_group_id) + (varint_bytes(m@.largest_object_id) + (params_bytes(o) + rest))))));
    lemma_varint_roundtrip(m@.id, (seq![m@.group_order] + (seq![m@.end_of_track] + (varint_bytes(m@.largest_group_id) + (varint_bytes(m@.largest_object_id) + (params_bytes(o) + rest))))));
    assert(s.skip((varint_bytes(m@.id).len()) as int) =~= seq![m@.group_order] + (seq![m@.end_of_track] + (varint_bytes(m@.largest_group_id) + (varint_bytes(m@.largest_object_id) + (params_bytes(o) + rest)))));
    assert((seq![m@.group_order] + (seq![m@.end_of_track] + (varint_bytes(m@.largest_group_id) + (varint_bytes(m@.largest_object_id) + (params_bytes(o) + rest)))))[0] == m@.group_order);
    assert(s.skip((varint_bytes(m@.id).len() + seq![m@.group_order].len()) as int) =~= seq![m@.end_of_track] + (varint_bytes(m@.largest_group_id) + (varint_bytes(m@.largest_object_id) + (params_bytes(o) + rest))));
    assert((seq![m@.end_of_track] + (varint_bytes(m@.largest_group_id) + (varint_bytes(m@.largest_object_id) + (params_bytes(o) + rest))))[0] == m@.end_of_track);
    assert(s.skip((varint_bytes(m@.id).len() + seq![m@.group_order].len() + seq![m@.end_of_track].len()) as int) =~= varint_bytes(m@.largest_group_id) + (varint_bytes(m@.largest_object_id) + (params_bytes(o) + rest)));
    lemma_varint_roundtrip(m@.largest_group_id, (varint_bytes(m@.largest_object_id) + (params_bytes(o) + rest)));
    assert(s.skip((varint_bytes(m@.id).len() + seq![m@.group_order].len() + seq![m@.end_of_track].len() + varint_bytes(m@.largest_group_id).len()) as int) =~= varint_bytes(m@.largest_object_id) + (params_bytes(o) + rest));
    lemma_varint_roundtrip(m@.largest_object_id, (params_bytes(o) + rest));
    assert(s.skip((varint_bytes(m@.id).len() + seq![m@.group_order].len() + seq![m@.end_of_track].len() + varint_bytes(m@.largest_group_id).len() + varint_bytes(m@.largest_object_id).len()) as int) =~= params_bytes(o) + rest);
    lemma_params_roundtrip(m@.params, o, rest);
}

impl FetchOk {
    /// Appends the message: id, group_order, end_of_track, largest_group_id, largest_object_id, params.
    pub fn encode(&self, w: &mut bytes::BytesMut) -> (res: Result<(), EncodeError>)
        ensures
            exists|o: Seq<(u64, Seq<u8>)>|
                params_order(self.params@, o) && encoded(
                    res,
                    buf_bytes(*old(w)),
                    buf_bytes(*final(w)),
                    fetch_ok_valid(self@, o),
                    fetch_ok_bytes(self@, o),
                    fetch_ok_err(self@, o),
                ),
    {
        let ghost mut o: Seq<(u64, Seq<u8>)> = Seq::empty();
        proof {
            assert(self.params@.dom() =~= self.params.0@.dom());
            lemma_params_has_order(self.params@);
            o = choose|o: Seq<(u64, Seq<u8>)>| params_order(self.params@, o);
        }
        let ghost b0 = buf_bytes(*w);
        let r1 = encode_u64(self.id, w);
        let ghost b1 = buf_bytes(*w);
        if r1.is_err() {
            proof {
                lemma_encoded_fail(r1, b0, b1, (self@.id < varint_bound()), varint_bytes(self@.id), EncodeError::BoundsExceeded, (true) && (true) && (self@.largest_group_id < varint_bound()) && (self@.largest_object_id < varint_bound()) && (params_encodable(o)), seq![self@.group_order] + seq![self@.end_of_track] + varint_bytes(self@.largest_group_id) + varint_bytes(self@.largest_object_id) + params_bytes(o), if !(true) { EncodeError::More(1) } else if !(true) { EncodeError::More(1) } else if !(self@.largest_group_id < varint_bound()) { EncodeError::BoundsExceeded } else if !(self@.largest_object_id < varint_bound()) { EncodeError::BoundsExceeded } else { EncodeError::BoundsExceeded });
                assert(varint_bytes(self@.id) + (seq![self@.group_order] + seq![self@.end_of_track] + varint_bytes(self@.largest_group_id) + varint_bytes(self@.largest_object_id) + params_bytes(o)) =~= varint_bytes(self@.id) + seq![self@.group_order] + seq![self@.end_of_track] + varint_bytes(self@.largest_group_id) + varint_bytes(self@.largest_object_id) + params_bytes(o));
                assert(params_order(self.params@, o));
            }
            return r1;
        }
        let r2 = encode_u8(self.group_order, w);
        let ghost b2 = buf_bytes(*w);
        proof {
            lemma_encoded_then(r1, b0, b1, (self@.id < varint_bound()), varint_bytes(self@.id), EncodeError::BoundsExceeded, r2, b2, true, seq![self@.group_order], EncodeError::More(1));
        }
        if r2.is_err() {
            proof {
                lemma_encoded_fail(r2, b0, b2, (self@.id < varint_bound()) && (true), varint_bytes(self@.id) + seq![self@.group_order], if !(self@.id < varint_bound()) { EncodeError::BoundsExceeded } else { EncodeError::More(1) }, (true) && (self@.largest_group_id < varint_bound()) && (self@.largest_object_id < varint_bound()) && (params_encodable(o)), seq![self@.end_of_track] + varint_bytes(self@.largest_group_id) + varint_bytes(self@.largest_object_id) + params_bytes(o), if !(true) { EncodeError::More(1) } else if !(self@.largest_group_id < varint_bound()) { EncodeError::BoundsExceeded } else if !(self@.largest_object_id < varint_bound()) { EncodeError::BoundsExceeded } else { EncodeError::BoundsExceeded });
                assert(varint_bytes(self@.id) + seq![self@.group_order] + (seq![self@.end_of_track] + varint_bytes(self@.largest_group_id) + varint_bytes(self@.largest_object_id) + params_bytes(o)) =~= varint_bytes(self@.id) + seq![self@.group_order] + seq![self@.end_of_track] + varint_bytes(self@.largest_group_id) + varint_bytes(self@.largest_object_id) + params_bytes(o));
                assert(params_order(self.params@, o));
            }
            return r2;
        }
        let r3 = encode_u8(self.end_of_track, w);
        let ghost b3 = buf_bytes(*w);
        proof {
            lemma_encoded_then(r2, b0, b2, (self@.id < varint_bound()) && (true), varint_bytes(self@.id) + seq![self@.group_order], if !(self@.id < varint_bound()) { EncodeError::BoundsExceeded } else { EncodeError::More(1) }, r3, b3, true, seq![self@.end_of_track], EncodeError::More(1));
        }
        if r3.is_err() {
            proof {
                lemma_encoded_fail(r3, b0, b3, (self@.id < varint_bound()) && (true) && (true), varint_bytes(self@.id) + seq![self@.group_order] + seq![self@.end_of_track], if !(self@.id < varint_bound()) { EncodeError::BoundsExceeded } else if !(true) { EncodeError::More(1) } else { EncodeError::More(1) }, (self@.largest_group_id < varint_bound()) && (self@.largest_object_id < varint_bound()) && (params_encodable(o)), varint_bytes(self@.largest_group_id) + varint_bytes(self@.largest_object_id) + params_bytes(o), if !(self@.largest_group_id < varint_bound()) { EncodeError::BoundsExceeded } else if !(self@.largest_object_id < varint_bound()) { EncodeError::BoundsExceeded } else { EncodeError::BoundsExceeded });
                assert(varint_bytes(self@.id) + seq![self@.group_order] + seq![self@.end_of_track] + (varint_bytes(self@.largest_group_id) + varint_bytes(self@.largest_object_id) + params_bytes(o)) =~= varint_bytes(self@.id) + seq![self@.group_order] + seq![self@.end_of_track] + varint_bytes(self@.largest_group_id) + varint_bytes(self@.largest_object_id) + params_bytes(o));
                assert(params_order(self.params@, o));
            }
            return r3;
        }
        let r4 = encode_u64(self.largest_group_id, w);
        let ghost b4 = buf_bytes(*w);
        proof {
            lemma_encoded_then(r3, b0, b3, (self@.id < varint_bound()) && (true) && (true), varint_bytes(self@.id) + seq![self@.group_order] + seq![self@.end_of_track], if !(self@.id < varint_bound()) { EncodeError::BoundsExceeded } else if !(true) { EncodeError::More(1) } else { EncodeError::More(1) }, r4, b4, self@.largest_group_id < varint_bound(), varint_bytes(self@.largest_group_id), EncodeError::BoundsExceeded);
        }
        if r4.is_err() {
            proof {
                lemma_encoded_fail(r4, b0, b4, (self@.id < varint_bound()) && (true) && (true) && (self@.largest_group_id < varint_bound()), varint_bytes(self@.id) + seq![self@.group_order] + seq![self@.end_of_track] + varint_bytes(self@.largest_group_id), if !(self@.id < varint_bound()) { EncodeError::BoundsExceeded } else if !(true) { EncodeError::More(1) } else if !(true) { EncodeError::More(1) } else { EncodeError::BoundsExceeded }, (self@.largest_object_id < varint_bound()) && (params_encodable(o)), varint_bytes(self@.largest_object_id) + params_bytes(o), if !(self@.largest_object_id < varint_bound()) { EncodeError::BoundsExceeded } else { EncodeError::BoundsExceeded });
                assert(varint_bytes(self@.id) + seq![self@.group_order] + seq![self@.end_of_track] + varint_bytes(self@.largest_group_id) + (varint_bytes(self@.largest_object_id) + params_bytes(o)) =~= varint_bytes(self@.id) + seq![self@.group_order] + seq![self@.end_of_track] + varint_bytes(self@.largest_group_id) + varint_bytes(self@.largest_object_id) + params_bytes(o));
                assert(params_order(self.params@, o));
            }
            return r4;
        }
        let r5 = encode_u64(self.largest_object_id, w);
        let ghost b5 = buf_bytes(*w);
        proof {
            lemma_encoded_then(r4, b0, b4, (self@.id < varint_bound()) && (true) && (true) && (self@.largest_group_id < varint_bound()), varint_bytes(self@.id) + seq![self@.group_order] + seq![self@.end_of_track] + varint_bytes(self@.largest_group_id), if !(self@.id < varint_bound()) { EncodeError::BoundsExceeded } else if !(true) { EncodeError::More(1) } else if !(true) { EncodeError::More(1) } else { EncodeError::BoundsExceeded }, r5, b5, self@.largest_object_id < varint_bound(), varint_bytes(self@.largest_object_id), EncodeError::BoundsExceeded);
        }
        if r5.is_err() {
            proof {
                lemma_encoded_fail(r5, b0, b5, (self@.id < varint_bound()) && (true) && (true) && (self@.largest_group_id < varint_bound()) && (self@.largest_object_id < varint_bound()), varint_bytes(self@.id) + seq![self@.group_order] + seq![self@.end_of_track] + varint_bytes(self@.largest_group_id) + varint_bytes(self@.largest_object_id), if !(self@.id < varint_bound()) { EncodeError::BoundsExceeded } else if !(true) { EncodeError::More(1) } else if !(true) { EncodeError::More(1) } else if !(self@.largest_group_id < varint_bound()) { EncodeError::BoundsExceeded } else { EncodeError::BoundsExceeded }, (params_encodable(o)), params_bytes(o), EncodeError::BoundsExceeded);
                assert(varint_bytes(self@.id) + seq![self@.group_order] + seq![self@.end_of_track] + varint_bytes(self@.largest_group_id) + varint_bytes(self@.largest_object_id) + (params_bytes(o)) =~= varint_bytes(self@.id) + seq![self@.group_order] + seq![self@.end_of_track] + varint_bytes(self@.largest_group_id) + varint_bytes(self@.largest_object_id) + params_bytes(o));
                assert(params_order(self.params@, o));
            }
            return r5;
        }
        let r6 = self.params.encode(w);
        let ghost b6 = buf_bytes(*w);
        proof {
            o = choose|o: Seq<(u64, Seq<u8>)>| params_order(self.params@, o) && o.len() == self.params@.dom().len() && encoded(r6, b5, b6, params_encodable(o), params_bytes(o), EncodeError::BoundsExceeded);
        }
        proof {
            lemma_encoded_then(r5, b0, b5, (self@.id < varint_bound()) && (true) && (true) && (self@.largest_group_id < varint_bound()) && (self@.largest_object_id < varint_bound()), varint_bytes(self@.id) + seq![self@.group_order] + seq![self@.end_of_track] + varint_bytes(self@.largest_group_id) + varint_bytes(self@.largest_object_id), if !(self@.id < varint_bound()) { EncodeError::BoundsExceeded } else if !(true) { EncodeError::More(1) } else if !(true) { EncodeError::More(1) } else if !(self@.largest_group_id < varint_bound()) { EncodeError::BoundsExceeded } else { EncodeError::BoundsExceeded }, r6, b6, params_encodable(o), params_bytes(o), EncodeError::BoundsExceeded);
        }
        assert(params_order(self.params@, o));
        r6
    }

    /// Reads the message: id, group_order, end_of_track, largest_group_id, largest_object_id, params.
    pub fn decode(r: &mut bytes::BytesMut) -> (res: Result<FetchOk, DecodeError>)
        ensures
            match spec_decode_fetch_ok(buf_bytes(*old(r))) {
                Ok((v, n)) => res is Ok && res->Ok_0@ == v && buf_bytes(*final(r)) == buf_bytes(
                    *old(r),
                ).skip(n) && 0 < n <= buf_bytes(*old(r)).len(),
                Err(e) => res == Err::<FetchOk, DecodeError>(e),
            },
    {
        let ghost s = buf_bytes(*r);
        let id = decode_u64(r)?;
        let ghost s1 = buf_bytes(*r);
        let group_order = decode_u8(r)?;
        let ghost s2 = buf_bytes(*r);
        proof {
            lemma_skip_skip(s, s.len() - s1.len(), s1.len() - s2.len());
        }
        let end_of_track = decode_u8(r)?;
        let ghost s3 = buf_bytes(*r);
        proof {
            lemma_skip_skip(s, s.len() - s2.len(), s2.len() - s3.len());
        }
        let largest_group_id = decode_u64(r)?;
        let ghost s4 = buf_bytes(*r);
        proof {
            lemma_skip_skip(s, s.len() - s3.len(), s3.len() - s4.len());
        }
        let largest_object_id = decode_u64(r)?;
        let ghost s5 = buf_bytes(*r);
        proof {
            lemma_skip_skip(s, s.len() - s4.len(), s4.len() - s5.len());
        }
        let params = Params::decode(r)?;
        let ghost s6 = buf_bytes(*r);
        proof {
            lemma_skip_skip(s, s.len() - s5.len(), s5.len() - s6.len());
        }
        Ok(FetchOk { id, group_order, end_of_track, largest_group_id, largest_object_id, params })
    }
}

} // verus!
