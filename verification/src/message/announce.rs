use vstd::prelude::*;

use crate::coding::buf::{
    buf_bytes, encoded, lemma_encoded_fail, lemma_encoded_then, lemma_skip_skip,
};
use crate::coding::error::{DecodeError, EncodeError};
use crate::coding::varint::varint_bound;
use crate::coding::tuple::{
    fields_encodable, lemma_tuple_roundtrip, spec_decode_tuple, tuple_bytes, Tuple,
};
use crate::coding::params::{
    lemma_params_has_order, lemma_params_roundtrip, params_bytes, params_encodable,
    params_order, spec_decode_params, Params,
};

verus! {

broadcast use crate::coding::varint::lemma_decode_varint_len;

/// Sent by the publisher to announce the availability of a group of tracks.
#[derive(Clone, Debug, PartialEq, Eq)]
pub struct Announce {
    /// The track namespace.
    pub namespace: Tuple,
    /// Optional parameters.
    pub params: Params,
}

/// The message as plain data.
pub struct AnnounceView {
    pub namespace: Seq<Seq<u8>>,
    pub params: Map<u64, Seq<u8>>,
}

impl View for Announce {
    type V = AnnounceView;

    open spec fn view(&self) -> AnnounceView {
        AnnounceView { namespace: self.namespace@, params: self.params@ }
    }
}

/// The wire form: namespace, params, one after another (parameters in the order `o`).
pub open spec fn announce_bytes(m: AnnounceView, o: Seq<(u64, Seq<u8>)>) -> Seq<u8> {
    tuple_bytes(m.namespace) + params_bytes(o)
}

/// Every field can be encoded.
pub open spec fn announce_valid(m: AnnounceView, o: Seq<(u64, Seq<u8>)>) -> bool {
    (m.namespace.len() < varint_bound() && fields_encodable(m.namespace)) && (params_encodable(o))
}

/// The error of the first field that cannot be encoded.
pub open spec fn announce_err(m: AnnounceView, o: Seq<(u64, Seq<u8>)>) -> EncodeError {
    if !(m.namespace.len() < varint_bound() && fields_encodable(m.namespace)) {
        EncodeError::BoundsExceeded
    } else {
        EncodeError::BoundsExceeded
    }
}

/// Decoding the message from the front of `s`, field by field.
pub open spec fn spec_decode_announce(s: Seq<u8>) -> Result<(AnnounceView, int), DecodeError> {
    match spec_decode_tuple(s) {
        Ok((x1, n1)) => match spec_decode_params(s.skip(n1)) {
            Ok((x2, n2)) => Ok((AnnounceView { namespace: x1, params: x2 }, n1 + n2)),
            Err(e) => Err(e),
        },
        Err(e) => Err(e),
    }
}

/// Decoding what `Announce::encode` writes gives back the same message, for every message
/// that can be encoded.
pub proof fn lemma_announce_roundtrip(m: Announce, o: Seq<(u64, Seq<u8>)>, rest: Seq<u8>)
    requires
        announce_valid(m@, o),
        params_order(m@.params, o) && forall|k: u64| m@.params.contains_key(k) ==> (#[trigger] m@.params[k]).len() <= usize::MAX,
    ensures
        spec_decode_announce(announce_bytes(m@, o) + rest) == Ok::<(AnnounceView, int), DecodeError>(
            (m@, announce_bytes(m@, o).len() as int),
        ),
{
    let s = announce_bytes(m@, o) + rest;
    assert(s =~= tuple_bytes(m@.namespace) + (params_bytes(o) + rest));
    lemma_tuple_roundtrip(m.namespace, (params_bytes(o) + rest));
    assert(s.skip((tuple_bytes(m@.namespace).len()) as int) =~= params_bytes(o) + rest);
    lemma_params_roundtrip(m@.params, o, rest);
}

impl Announce {
    /// Appends the message: namespace, params.
    pub fn encode(&self, w: &mut bytes::BytesMut) -> (res: Result<(), EncodeError>)
        ensures
            exists|o: Seq<(u64, Seq<u8>)>|
                params_order(self.params@, o) && encoded(
                    res,
                    buf_bytes(*old(w)),
                    buf_bytes(*final(w)),
                    announce_valid(self@, o),
                    announce_bytes(self@, o),
                    announce_err(self@, o),
                ),
    {
        let ghost mut o: Seq<(u64, Seq<u8>)> = Seq::empty();
        proof {
            assert(self.params@.dom() =~= self.params.0@.dom());
            lemma_params_has_order(self.params@);
            o = choose|o: Seq<(u64, Seq<u8>)>| params_order(self.params@, o);
        }
        let ghost b0 = buf_bytes(*w);
        let r1 = self.namespace.encode(w);
        let ghost b1 = buf_bytes(*w);
        if r1.is_err() {
            proof {
                lemma_encoded_fail(r1, b0, b1, (self@.namespace.len() < varint_bound() && fields_encodable(self@.namespace)), tuple_bytes(self@.namespace), EncodeError::BoundsExceeded, (params_encodable(o)), params_bytes(o), EncodeError::BoundsExceeded);
                assert(tuple_bytes(self@.namespace) + (params_bytes(o)) =~= tuple_bytes(self@.namespace) + params_bytes(o));
                assert(params_order(self.params@, o));
            }
            return r1;
        }
        let r2 = self.params.encode(w);
        let ghost b2 = buf_bytes(*w);
        proof {
            o = choose|o: Seq<(u64, Seq<u8>)>| params_order(self.params@, o) && o.len() == self.params@.dom().len() && encoded(r2, b1, b2, params_encodable(o), params_bytes(o), EncodeError::BoundsExceeded);
        }
        proof {
            lemma_encoded_then(r1, b0, b1, (self@.namespace.len() < varint_bound() && fields_encodable(self@.namespace)), tuple_bytes(self@.namespace), EncodeError::BoundsExceeded, r2, b2, params_encodable(o), params_bytes(o), EncodeError::BoundsExceeded);
        }
        assert(params_order(self.params@, o));
        r2
    }

    /// Reads the message: namespace, params.
    pub fn decode(r: &mut bytes::BytesMut) -> (res: Result<Announce, DecodeError>)
        ensures
            match spec_decode_announce(buf_bytes(*old(r))) {
                Ok((v, n)) => res is Ok && res->Ok_0@ == v && buf_bytes(*final(r)) == buf_bytes(
                    *old(r),
                ).skip(n) && 0 < n <= buf_bytes(*old(r)).len(),
                Err(e) => res == Err::<Announce, DecodeError>(e),
            },
    {
        let ghost s = buf_bytes(*r);
        let namespace = Tuple::decode(r)?;
        let ghost s1 = buf_bytes(*r);
        let params = Params::decode(r)?;
        let ghost s2 = buf_bytes(*r);
        proof {
            lemma_skip_skip(s, s.len() - s1.len(), s1.len() - s2.len());
        }
        Ok(Announce { namespace, params })
    }
}

} // verus!
