use vstd::prelude::*;

use crate::coding::buf::{
    buf_bytes, encoded, lemma_encoded_fail, lemma_encoded_then, lemma_skip_skip,
};
use crate::coding::error::{DecodeError, EncodeError};
use crate::coding::varint::varint_bound;
use crate::coding::tuple::{
    fields_encodable, lemma_tuple_roundtrip, spec_decode_tuple, tuple_bytes, Tuple,
};
use crate::coding::params::{
    lemma_params_has_order, lemma_params_roundtrip, params_bytes, params_encodable,
    params_order, spec_decode_params, Params,
};

verus! {

broadcast use crate::coding::varint::lemma_decode_varint_len;

/// Sent by a subscriber to follow the announces under a namespace prefix.
#[derive(Clone, Debug, PartialEq, Eq)]
pub struct SubscribeNamespace {
    /// The namespace prefix.
    pub namespace_prefix: Tuple,
    /// Optional parameters.
    pub params: Params,
}

/// The message as plain data.
pub struct SubscribeNamespaceView {
    pub namespace_prefix: Seq<Seq<u8>>,
    pub params: Map<u64, Seq<u8>>,
}

impl View for SubscribeNamespace {
    type V = SubscribeNamespaceView;

    open spec fn view(&self) -> SubscribeNamespaceView {
        SubscribeNamespaceView { namespace_prefix: self.namespace_prefix@, params: self.params@ }
    }
}

/// The wire form: namespace_prefix, params, one after another (parameters in the order `o`).
pub open spec fn subscribe_namespace_bytes(m: SubscribeNamespaceView, o: Seq<(u64, Seq<u8>)>) -> Seq<u8> {
    tuple_bytes(m.namespace_prefix) + params_bytes(o)
}

/// Every field can be encoded.
pub open spec fn subscribe_namespace_valid(m: SubscribeNamespaceView, o: Seq<(u64, Seq<u8>)>) -> bool {
    (m.namespace_prefix.len() < varint_bound() && fields_encodable(m.namespace_prefix)) && (params_encodable(o))
}

/// The error of the first field that cannot be encoded.
pub open spec fn subscribe_namespace_err(m: SubscribeNamespaceView, o: Seq<(u64, Seq<u8>)>) -> EncodeError {
    if !(m.namespace_prefix.len() < varint_bound() && fields_encodable(m.namespace_prefix)) {
        EncodeError::BoundsExceeded
    } else {
        EncodeError::BoundsExceeded
    }
}

/// Decoding the message from the front of `s`, field by field.
pub open spec fn spec_decode_subscribe_namespace(s: Seq<u8>) -> Result<(SubscribeNamespaceView, int), DecodeError> {
    match spec_decode_tuple(s) {
        Ok((x1, n1)) => match spec_decode_params(s.skip(n1)) {
            Ok((x2, n2)) => Ok((SubscribeNamespaceView { namespace_prefix: x1, params: x2 }, n1 + n2)),
            Err(e) => Err(e),
        },
        Err(e) => Err(e),
    }
}

/// Decoding what `SubscribeNamespace::encode` writes gives back the same message, for every message
/// that can be encoded.
pub proof fn lemma_subscribe_namespace_roundtrip(m: SubscribeNamespace, o: Seq<(u64, Seq<u8>)>, rest: Seq<u8>)
    requires
        subscribe_namespace_valid(m@, o),
        params_order(m@.params, o) && forall|k: u64| m@.params.contains_key(k) ==> (#[trigger] m@.params[k]).len() <= usize::MAX,
    ensures
        spec_decode_subscribe_namespace(subscribe_namespace_bytes(m@, o) + rest) == Ok::<(SubscribeNamespaceView, int), DecodeError>(
            (m@, subscribe_namespace_bytes(m@, o).len() as int),
        ),
{
    let s = subscribe_namespace_bytes(m@, o) + rest;
    assert(s =~= tuple_bytes(m@.namespace_prefix) + (params_bytes(o) + rest));
    lemma_tuple_roundtrip(m.namespace_prefix, (params_bytes(o) + rest));
    assert(s.skip((tuple_bytes(m@.namespace_prefix).len()) as int) =~= params_bytes(o) + rest);
    lemma_params_roundtrip(m@.params, o, rest);
}

impl SubscribeNamespace {
    /// Appends the message: namespace_prefix, params.
    pub fn encode(&self, w: &mut bytes::BytesMut) -> (res: Result<(), EncodeError>)
        ensures
            exists|o: Seq<(u64, Seq<u8>)>|
                params_order(self.params@, o) && encoded(
                    res,
                    buf_bytes(*old(w)),
                    buf_bytes(*final(w)),
                    subscribe_namespace_valid(self@, o),
                    subscribe_namespace_bytes(self@, o),
                    subscribe_namespace_err(self@, o),
                ),
    {
        let ghost mut o: Seq<(u64, Seq<u8>)> = Seq::empty();
        proof {
            assert(self.params@.dom() =~= self.params.0@.dom());
            lemma_params_has_order(self.params@);
            o = choose|o: Seq<(u64, Seq<u8>)>| params_order(self.params@, o);
        }
        let ghost b0 = buf_bytes(*w);
        let r1 = self.namespace_prefix.encode(w);
        let ghost b1 = buf_bytes(*w);
        if r1.is_err() {
            proof {
                lemma_encoded_fail(r1, b0, b1, (self@.namespace_prefix.len() < varint_bound() && fields_encodable(self@.namespace_prefix)), tuple_bytes(self@.namespace_prefix), EncodeError::BoundsExceeded, (params_encodable(o)), params_bytes(o), EncodeError::BoundsExceeded);
                assert(tuple_bytes(self@.namespace_prefix) + (params_bytes(o)) =~= tuple_bytes(self@.namespace_prefix) + params_bytes(o));
                assert(params_order(self.params@, o));
            }
            return r1;
        }
        let r2 = self.params.encode(w);
        let ghost b2 = buf_bytes(*w);
        proof {
            o = choose|o: Seq<(u64, Seq<u8>)>| params_order(self.params@, o) && o.len() == self.params@.dom().len() && encoded(r2, b1, b2, params_encodable(o), params_bytes(o), EncodeError::BoundsExceeded);
        }
        proof {
            lemma_encoded_then(r1, b0, b1, (self@.namespace_prefix.len() < varint_bound() && fields_encodable(self@.namespace_prefix)), tuple_bytes(self@.namespace_prefix), EncodeError::BoundsExceeded, r2, b2, params_encodable(o), params_bytes(o), EncodeError::BoundsExceeded);
        }
        assert(params_order(self.params@, o));
        r2
    }

    /// Reads the message: namespace_prefix, params.
    pub fn decode(r: &mut bytes::BytesMut) -> (res: Result<SubscribeNamespace, DecodeError>)
        ensures
            match spec_decode_subscribe_namespace(buf_bytes(*old(r))) {
                Ok((v, n)) => res is Ok && res->Ok_0@ == v && buf_bytes(*final(r)) == buf_bytes(
                    *old(r),
                ).skip(n) && 0 < n <= buf_bytes(*old(r)).len(),
                Err(e) => res == Err::<SubscribeNamespace, DecodeError>(e),
            },
    {
        let ghost s = buf_bytes(*r);
        let namespace_prefix = Tuple::decode(r)?;
        let ghost s1 = buf_bytes(*r);
        let params = Params::decode(r)?;
        let ghost s2 = buf_bytes(*r);
        proof {
            lemma_skip_skip(s, s.len() - s1.len(), s1.len() - s2.len());
        }
        Ok(SubscribeNamespace { namespace_prefix, params })
    }
}

} // verus!
