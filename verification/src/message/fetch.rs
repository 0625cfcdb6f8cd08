use vstd::prelude::*;
use vstd::utf8::encode_utf8;

use crate::coding::buf::{
    buf_bytes, encoded, lemma_encoded_fail, lemma_encoded_then, lemma_skip_skip,
};
use crate::coding::error::{DecodeError, EncodeError};
use crate::coding::integer::{decode_u64, decode_u8, encode_u64, encode_u8, spec_decode_u8};
use crate::coding::kvp::{
    kvps_bytes, kvps_err, kvps_order, kvps_seq_view, kvps_valid, kvps_wire_ok, lemma_kvps_has_order,
    lemma_kvps_roundtrip, spec_decode_kvps, KeyValuePair, KeyValuePairs, ValueModel,
};
use crate::coding::location::{
    lemma_location_roundtrip, location_bytes, location_encodable, spec_decode_location, Location,
};
use crate::coding::string_field::{
    decode_string, encode_string, lemma_string_roundtrip, spec_decode_string, string_bytes,
    string_encodable,
};
use crate::coding::track_namespace::{
    lemma_namespace_roundtrip, namespace_bytes, namespace_encodable, namespace_encode_error,
    spec_decode_namespace, TrackNamespace,
};
use crate::coding::varint::{lemma_varint_roundtrip, spec_decode_varint, varint_bound, varint_bytes};

use super::fetch_type::{
    fetch_type_code, lemma_fetch_type_roundtrip, spec_decode_fetch_type, FetchType,
};
use super::group_order::{
    group_order_code, lemma_group_order_roundtrip, spec_decode_group_order, GroupOrder,
};

verus! {

broadcast use crate::coding::varint::lemma_decode_varint_len;

/// Sent by the subscriber to request a range of objects of a track that were already
/// published.
#[derive(Clone, Debug, PartialEq, Eq)]
pub struct Fetch {
    /// The fetch request id.
    pub id: u64,
    /// Subscriber priority.
    pub subscriber_priority: u8,
    /// Object delivery order.
    pub group_order: GroupOrder,
    /// Standalone fetch, or relative or absolute joining fetch.
    pub fetch_type: FetchType,
    /// Track properties, for a standalone fetch.
    pub track_namespace: Option<TrackNamespace>,
    pub track_name: Option<String>,
    pub start_location: Option<Location>,
    pub end_location: Option<Location>,
    /// For a joining fetch: the request id of the subscription joined, and where to start.
    pub joining_id: Option<u64>,
    pub joining_start: Option<u64>,
    /// Optional parameters.
    pub params: KeyValuePairs,
}

/// A fetch as plain data.
pub struct FetchView {
    pub id: u64,
    pub subscriber_priority: u8,
    pub group_order: GroupOrder,
    pub fetch_type: FetchType,
    pub track_namespace: Option<Seq<Seq<u8>>>,
    pub track_name: Option<Seq<char>>,
    pub start_location: Option<Location>,
    pub end_location: Option<Location>,
    pub joining_id: Option<u64>,
    pub joining_start: Option<u64>,
    pub params: Map<u64, (u64, ValueModel)>,
}

impl View for Fetch {
    type V = FetchView;

    open spec fn view(&self) -> FetchView {
        FetchView {
            id: self.id,
            subscriber_priority: self.subscriber_priority,
            group_order: self.group_order,
            fetch_type: self.fetch_type,
            track_namespace: match self.track_namespace {
                Some(t) => Some(t@),
                None => None,
            },
            track_name: match self.track_name {
                Some(t) => Some(t@),
                None => None,
            },
            start_location: self.start_location,
            end_location: self.end_location,
            joining_id: self.joining_id,
            joining_start: self.joining_start,
            params: self.params@,
        }
    }
}

/// The fixed fields: id, priority, group order, fetch type.
pub open spec fn fetch_head_bytes(m: FetchView) -> Seq<u8> {
    varint_bytes(m.id) + seq![m.subscriber_priority] + seq![group_order_code(m.group_order)]
        + varint_bytes(fetch_type_code(m.fetch_type))
}

/// The wire form of an optional namespace: nothing when absent.
pub open spec fn opt_namespace_bytes(x: Option<Seq<Seq<u8>>>) -> Seq<u8> {
    match x {
        Some(v) => namespace_bytes(v),
        None => Seq::empty(),
    }
}

/// The wire form of an optional text: nothing when absent.
pub open spec fn opt_string_bytes(x: Option<Seq<char>>) -> Seq<u8> {
    match x {
        Some(v) => string_bytes(v),
        None => Seq::empty(),
    }
}

/// The wire form of an optional location: nothing when absent.
pub open spec fn opt_location_bytes(x: Option<Location>) -> Seq<u8> {
    match x {
        Some(v) => location_bytes(v),
        None => Seq::empty(),
    }
}

/// The wire form of an optional number: nothing when absent.
pub open spec fn opt_varint_bytes(x: Option<u64>) -> Seq<u8> {
    match x {
        Some(v) => varint_bytes(v),
        None => Seq::empty(),
    }
}

/// The fields that depend on the fetch type: the track properties of a standalone fetch,
/// or the joined subscription and start of a joining fetch.
pub open spec fn fetch_mid_bytes(m: FetchView) -> Seq<u8> {
    if m.fetch_type == FetchType::Standalone {
        opt_namespace_bytes(m.track_namespace) + opt_string_bytes(m.track_name) + opt_location_bytes(
            m.start_location,
        ) + opt_location_bytes(m.end_location)
    } else {
        opt_varint_bytes(m.joining_id) + opt_varint_bytes(m.joining_start)
    }
}

/// The fields that the fetch type calls for are present and can be encoded.
pub open spec fn fetch_mid_valid(m: FetchView) -> bool {
    if m.fetch_type == FetchType::Standalone {
        &&& m.track_namespace is Some && namespace_encodable(m.track_namespace->0)
        &&& m.track_name is Some && string_encodable(m.track_name->0)
        &&& m.start_location is Some && location_encodable(m.start_location->0)
        &&& m.end_location is Some && location_encodable(m.end_location->0)
    } else {
        &&& m.joining_id is Some && m.joining_id->0 < varint_bound()
        &&& m.joining_start is Some && m.joining_start->0 < varint_bound()
    }
}

/// Why the fields that the fetch type calls for cannot be encoded: the first one that is
/// missing or too large, in wire order.
pub open spec fn fetch_mid_err(m: FetchView) -> EncodeError {
    if m.fetch_type == FetchType::Standalone {
        if m.track_namespace is None {
            EncodeError::MissingField
        } else if !namespace_encodable(m.track_namespace->0) {
            namespace_encode_error(m.track_namespace->0)
        } else if m.track_name is None {
            EncodeError::MissingField
        } else if !string_encodable(m.track_name->0) {
            EncodeError::BoundsExceeded
        } else if m.start_location is None {
            EncodeError::MissingField
        } else if !location_encodable(m.start_location->0) {
            EncodeError::BoundsExceeded
        } else if m.end_location is None {
            EncodeError::MissingField
        } else {
            EncodeError::BoundsExceeded
        }
    } else {
        if m.joining_id is None {
            EncodeError::MissingField
        } else if !(m.joining_id->0 < varint_bound()) {
            EncodeError::BoundsExceeded
        } else if m.joining_start is None {
            EncodeError::MissingField
        } else {
            EncodeError::BoundsExceeded
        }
    }
}

/// The wire form of a fetch whose parameters are written in the order `vs`.
pub open spec fn fetch_bytes(m: FetchView, vs: Seq<(u64, ValueModel)>) -> Seq<u8> {
    fetch_head_bytes(m) + (fetch_mid_bytes(m) + kvps_bytes(vs))
}

/// A fetch can be encoded: its id fits, the fields its type calls for are present and
/// fit, and so do its parameters.
pub open spec fn fetch_valid(m: FetchView, vs: Seq<(u64, ValueModel)>) -> bool {
    m.id < varint_bound() && (fetch_mid_valid(m) && kvps_valid(vs))
}

/// Why a fetch cannot be encoded, checking its parts in wire order.
pub open spec fn fetch_err(m: FetchView, vs: Seq<(u64, ValueModel)>) -> EncodeError {
    if !(m.id < varint_bound()) {
        EncodeError::BoundsExceeded
    } else if !fetch_mid_valid(m) {
        fetch_mid_err(m)
    } else {
        kvps_err(vs)
    }
}

/// The fields of a fetch other than those its type calls for are absent.
pub open spec fn fetch_consistent(m: FetchView) -> bool {
    if m.fetch_type == FetchType::Standalone {
        m.joining_id is None && m.joining_start is None
    } else {
        m.track_namespace is None && m.track_name is None && m.start_location is None
            && m.end_location is None
    }
}

/// Decoding the fixed fields from the front of `s`.
pub open spec fn spec_decode_fetch_head(s: Seq<u8>) -> Result<((u64, u8, GroupOrder, FetchType), int), DecodeError> {
    match spec_decode_varint(s) {
        Ok((id, n1)) => match spec_decode_u8(s.skip(n1)) {
            Ok((p, n2)) => match spec_decode_group_order(s.skip(n1 + n2)) {
                Ok((g, n3)) => match spec_decode_fetch_type(s.skip(n1 + n2 + n3)) {
                    Ok((t, n4)) => Ok(((id, p, g, t), n1 + n2 + n3 + n4)),
                    Err(e) => Err(e),
                },
                Err(e) => Err(e),
            },
            Err(e) => Err(e),
        },
        Err(e) => Err(e),
    }
}

/// The fields that depend on the fetch type, as plain data.
pub type FetchMid = (
    Option<Seq<Seq<u8>>>,
    Option<Seq<char>>,
    Option<Location>,
    Option<Location>,
    Option<u64>,
    Option<u64>,
);

/// Decoding the fields that a fetch of type `t` calls for from the front of `s`.
pub open spec fn spec_decode_fetch_mid(t: FetchType, s: Seq<u8>) -> Result<(FetchMid, int), DecodeError> {
    if t == FetchType::Standalone {
        match spec_decode_namespace(s) {
            Ok((ns, a)) => match spec_decode_string(s.skip(a)) {
                Ok((name, b)) => match spec_decode_location(s.skip(a + b)) {
                    Ok((st, c)) => match spec_decode_location(s.skip(a + b + c)) {
                        Ok((en, d)) => Ok(
                            ((Some(ns), Some(name), Some(st), Some(en), None, None), a + b + c + d),
                        ),
                        Err(e) => Err(e),
                    },
                    Err(e) => Err(e),
                },
                Err(e) => Err(e),
            },
            Err(e) => Err(e),
        }
    } else {
        match spec_decode_varint(s) {
            Ok((j, a)) => match spec_decode_varint(s.skip(a)) {
                Ok((js, b)) => Ok(((None, None, None, None, Some(j), Some(js)), a + b)),
                Err(e) => Err(e),
            },
            Err(e) => Err(e),
        }
    }
}

/// Decoding a fetch from the front of `s`: the fixed fields, the fields its type calls
/// for, then the parameters.
pub open spec fn spec_decode_fetch(s: Seq<u8>) -> Result<(FetchView, int), DecodeError> {
    match spec_decode_fetch_head(s) {
        Ok((h, n1)) => match spec_decode_fetch_mid(h.3, s.skip(n1)) {
            Ok((md, n2)) => match spec_decode_kvps(s.skip(n1 + n2)) {
                Ok((p, n3)) => Ok(
                    (
                        FetchView {
                            id: h.0,
                            subscriber_priority: h.1,
                            group_order: h.2,
                            fetch_type: h.3,
                            track_namespace: md.0,
                            track_name: md.1,
                            start_location: md.2,
                            end_location: md.3,
                            joining_id: md.4,
                            joining_start: md.5,
                            params: p,
                        },
                        n1 + n2 + n3,
                    ),
                ),
                Err(e) => Err(e),
            },
            Err(e) => Err(e),
        },
        Err(e) => Err(e),
    }
}

/// An optional namespace as plain data.
pub open spec fn opt_namespace_view(x: Option<TrackNamespace>) -> Option<Seq<Seq<u8>>> {
    match x {
        Some(t) => Some(t@),
        None => None,
    }
}

/// An optional text as plain data.
pub open spec fn opt_string_view(x: Option<String>) -> Option<Seq<char>> {
    match x {
        Some(t) => Some(t@),
        None => None,
    }
}

/// Appends a namespace that must be present.
fn encode_req_namespace(x: &Option<TrackNamespace>, w: &mut bytes::BytesMut) -> (res: Result<(), EncodeError>)
    ensures
        encoded(
            res,
            buf_bytes(*old(w)),
            buf_bytes(*final(w)),
            x is Some && namespace_encodable(x->0@),
            opt_namespace_bytes(opt_namespace_view(*x)),
            if x is Some { namespace_encode_error(x->0@) } else { EncodeError::MissingField },
        ),
{
    match x {
        Some(ns) => ns.encode(w),
        None => Err(EncodeError::MissingField),
    }
}

/// Appends a text that must be present.
fn encode_req_string(x: &Option<String>, w: &mut bytes::BytesMut) -> (res: Result<(), EncodeError>)
    ensures
        encoded(
            res,
            buf_bytes(*old(w)),
            buf_bytes(*final(w)),
            x is Some && string_encodable(x->0@),
            opt_string_bytes(opt_string_view(*x)),
            if x is Some { EncodeError::BoundsExceeded } else { EncodeError::MissingField },
        ),
{
    match x {
        Some(s) => encode_string(s.as_str(), w),
        None => Err(EncodeError::MissingField),
    }
}

/// Appends a location that must be present.
fn encode_req_location(x: &Option<Location>, w: &mut bytes::BytesMut) -> (res: Result<(), EncodeError>)
    ensures
        encoded(
            res,
            buf_bytes(*old(w)),
            buf_bytes(*final(w)),
            x is Some && location_encodable(x->0),
            opt_location_bytes(*x),
            if x is Some { EncodeError::BoundsExceeded } else { EncodeError::MissingField },
        ),
{
    match x {
        Some(l) => l.encode(w),
        None => Err(EncodeError::MissingField),
    }
}

/// Appends a number that must be present.
fn encode_req_u64(x: Option<u64>, w: &mut bytes::BytesMut) -> (res: Result<(), EncodeError>)
    ensures
        encoded(
            res,
            buf_bytes(*old(w)),
            buf_bytes(*final(w)),
            x is Some && x->0 < varint_bound(),
            opt_varint_bytes(x),
            if x is Some { EncodeError::BoundsExceeded } else { EncodeError::MissingField },
        ),
{
    match x {
        Some(v) => encode_u64(v, w),
        None => Err(EncodeError::MissingField),
    }
}

impl Fetch {
    /// Appends the fixed fields.
    fn encode_head(&self, w: &mut bytes::BytesMut) -> (res: Result<(), EncodeError>)
        ensures
            encoded(
                res,
                buf_bytes(*old(w)),
                buf_bytes(*final(w)),
                self.id < varint_bound(),
                fetch_head_bytes(self@),
                EncodeError::BoundsExceeded,
            ),
    {
        let ghost be = EncodeError::BoundsExceeded;
        let ghost m1 = EncodeError::More(1);
        let ghost b0 = buf_bytes(*w);
        let ghost p1 = varint_bytes(self.id);
        let ghost p2 = seq![self.subscriber_priority];
        let ghost p3 = seq![group_order_code(self.group_order)];
        let ghost p4 = varint_bytes(fetch_type_code(self.fetch_type));
        let ghost v1 = self.id < varint_bound();
        let r1 = encode_u64(self.id, w);
        let ghost b1 = buf_bytes(*w);
        if r1.is_err() {
            proof {
                lemma_encoded_fail(r1, b0, b1, v1, p1, be, true, p2 + p3 + p4, be);
                assert(p1 + (p2 + p3 + p4) =~= p1 + p2 + p3 + p4);
            }
            return r1;
        }
        let r2 = encode_u8(self.subscriber_priority, w);
        let ghost b2 = buf_bytes(*w);
        proof {
            lemma_encoded_then(r1, b0, b1, v1, p1, be, r2, b2, true, p2, m1);
        }
        if r2.is_err() {
            proof {
                lemma_encoded_fail(r2, b0, b2, v1, p1 + p2, be, true, p3 + p4, be);
                assert(p1 + p2 + (p3 + p4) =~= p1 + p2 + p3 + p4);
            }
            return r2;
        }
        let r3 = self.group_order.encode(w);
        let ghost b3 = buf_bytes(*w);
        proof {
            lemma_encoded_then(r2, b0, b2, v1, p1 + p2, be, r3, b3, true, p3, m1);
        }
        if r3.is_err() {
            proof {
                lemma_encoded_fail(r3, b0, b3, v1, p1 + p2 + p3, be, true, p4, be);
            }
            return r3;
        }
        let r4 = self.fetch_type.encode(w);
        proof {
            lemma_encoded_then(r3, b0, b3, v1, p1 + p2 + p3, be, r4, buf_bytes(*w), true, p4, be);
        }
        r4
    }

    /// Appends the fields that the fetch type calls for; a missing one is refused.
    fn encode_mid(&self, w: &mut bytes::BytesMut) -> (res: Result<(), EncodeError>)
        ensures
            encoded(
                res,
                buf_bytes(*old(w)),
                buf_bytes(*final(w)),
                fetch_mid_valid(self@),
                fetch_mid_bytes(self@),
                fetch_mid_err(self@),
            ),
    {
        let ghost m = self@;
        let ghost b0 = buf_bytes(*w);
        let ghost be = EncodeError::BoundsExceeded;
        let ghost mf = EncodeError::MissingField;
        match self.fetch_type {
            FetchType::Standalone => {
                let ghost p1 = opt_namespace_bytes(m.track_namespace);
                let ghost p2 = opt_string_bytes(m.track_name);
                let ghost p3 = opt_location_bytes(m.start_location);
                let ghost p4 = opt_location_bytes(m.end_location);
                let ghost v1 = m.track_namespace is Some && namespace_encodable(m.track_namespace->0);
                let ghost v2 = m.track_name is Some && string_encodable(m.track_name->0);
                let ghost v3 = m.start_location is Some && location_encodable(m.start_location->0);
                let ghost v4 = m.end_location is Some && location_encodable(m.end_location->0);
                let ghost e1 = if m.track_namespace is Some { namespace_encode_error(m.track_namespace->0) } else { mf };
                let ghost e2 = if m.track_name is Some { be } else { mf };
                let ghost e3 = if m.start_location is Some { be } else { mf };
                let ghost e4 = if m.end_location is Some { be } else { mf };
                let ghost e34 = if v3 { e4 } else { e3 };
                let ghost e234 = if v2 { e34 } else { e2 };
                let r1 = encode_req_namespace(&self.track_namespace, w);
                let ghost b1 = buf_bytes(*w);
                if r1.is_err() {
                    proof {
                        lemma_encoded_fail(r1, b0, b1, v1, p1, e1, v2 && v3 && v4, p2 + p3 + p4, e234);
                        assert(p1 + (p2 + p3 + p4) =~= p1 + p2 + p3 + p4);
                    }
                    return r1;
                }
                let r2 = encode_req_string(&self.track_name, w);
                let ghost b2 = buf_bytes(*w);
                proof {
                    lemma_encoded_then(r1, b0, b1, v1, p1, e1, r2, b2, v2, p2, e2);
                }
                if r2.is_err() {
                    proof {
                        lemma_encoded_fail(r2, b0, b2, v1 && v2, p1 + p2, if v1 { e2 } else { e1 }, v3 && v4,
                            p3 + p4, e34);
                        assert(p1 + p2 + (p3 + p4) =~= p1 + p2 + p3 + p4);
                    }
                    return r2;
                }
                let r3 = encode_req_location(&self.start_location, w);
                let ghost b3 = buf_bytes(*w);
                proof {
                    lemma_encoded_then(r2, b0, b2, v1 && v2, p1 + p2, if v1 { e2 } else { e1 }, r3, b3,
                        v3, p3, e3);
                }
                if r3.is_err() {
                    proof {
                        lemma_encoded_fail(r3, b0, b3, v1 && v2 && v3, p1 + p2 + p3,
                            if v1 && v2 { e3 } else if v1 { e2 } else { e1 }, v4, p4, e4);
                    }
                    return r3;
                }
                let r4 = encode_req_location(&self.end_location, w);
                proof {
                    lemma_encoded_then(r3, b0, b3, v1 && v2 && v3, p1 + p2 + p3,
                        if v1 && v2 { e3 } else if v1 { e2 } else { e1 }, r4, buf_bytes(*w), v4, p4, e4);
                }
                r4
            },
            _ => {
                let ghost p1 = opt_varint_bytes(m.joining_id);
                let ghost p2 = opt_varint_bytes(m.joining_start);
                let ghost v1 = m.joining_id is Some && m.joining_id->0 < varint_bound();
                let ghost v2 = m.joining_start is Some && m.joining_start->0 < varint_bound();
                let ghost e1 = if m.joining_id is Some { be } else { mf };
                let ghost e2 = if m.joining_start is Some { be } else { mf };
                let r1 = encode_req_u64(self.joining_id, w);
                let ghost b1 = buf_bytes(*w);
                if r1.is_err() {
                    proof {
                        lemma_encoded_fail(r1, b0, b1, v1, p1, e1, v2, p2, e2);
                    }
                    return r1;
                }
                let r2 = encode_req_u64(self.joining_start, w);
                proof {
                    lemma_encoded_then(r1, b0, b1, v1, p1, e1, r2, buf_bytes(*w), v2, p2, e2);
                }
                r2
            },
        }
    }

    /// Appends the fetch: the fixed fields, the fields its type calls for (a missing one
    /// is refused), then the parameters in the order in which the map yields them.
    pub fn encode(&self, w: &mut bytes::BytesMut) -> (res: Result<(), EncodeError>)
        ensures
            exists|o: Seq<KeyValuePair>|
                kvps_order(self.params.0@, o) && encoded(
                    res,
                    buf_bytes(*old(w)),
                    buf_bytes(*final(w)),
                    fetch_valid(self@, kvps_seq_view(o)),
                    fetch_bytes(self@, kvps_seq_view(o)),
                    fetch_err(self@, kvps_seq_view(o)),
                ),
    {
        let ghost m = self@;
        let ghost mut o: Seq<KeyValuePair> = Seq::empty();
        proof {
            lemma_kvps_has_order(self.params.0@);
            o = choose|o: Seq<KeyValuePair>| kvps_order(self.params.0@, o);
        }
        let ghost be = EncodeError::BoundsExceeded;
        let ghost b0 = buf_bytes(*w);
        let ghost hv = m.id < varint_bound();
        let ghost hb = fetch_head_bytes(m);
        let ghost mv = fetch_mid_valid(m);
        let ghost mb = fetch_mid_bytes(m);
        let ghost me = fetch_mid_err(m);
        let r1 = self.encode_head(w);
        let ghost b1 = buf_bytes(*w);
        if r1.is_err() {
            proof {
                let vs = kvps_seq_view(o);
                lemma_encoded_fail(r1, b0, b1, hv, hb, be, mv && kvps_valid(vs), mb + kvps_bytes(vs),
                    if mv { kvps_err(vs) } else { me });
            }
            return r1;
        }
        let r2 = self.encode_mid(w);
        let ghost b2 = buf_bytes(*w);
        proof {
            lemma_encoded_then(r1, b0, b1, hv, hb, be, r2, b2, mv, mb, me);
        }
        if r2.is_err() {
            proof {
                let vs = kvps_seq_view(o);
                lemma_encoded_fail(r2, b0, b2, hv && mv, hb + mb, if hv { me } else { be }, kvps_valid(vs),
                    kvps_bytes(vs), kvps_err(vs));
                assert(hb + mb + kvps_bytes(vs) =~= hb + (mb + kvps_bytes(vs)));
            }
            return r2;
        }
        let r3 = self.params.encode(w);
        let ghost b3 = buf_bytes(*w);
        proof {
            o = choose|o: Seq<KeyValuePair>|
                kvps_order(self.params.0@, o) && encoded(
                    r3,
                    b2,
                    b3,
                    kvps_valid(kvps_seq_view(o)),
                    kvps_bytes(kvps_seq_view(o)),
                    kvps_err(kvps_seq_view(o)),
                );
            let vs = kvps_seq_view(o);
            lemma_encoded_then(r2, b0, b2, hv && mv, hb + mb, if hv { me } else { be }, r3, b3,
                kvps_valid(vs), kvps_bytes(vs), kvps_err(vs));
            assert(hb + mb + kvps_bytes(vs) =~= hb + (mb + kvps_bytes(vs)));
        }
        r3
    }
}

/// Reads the fixed fields.
fn decode_fetch_head(r: &mut bytes::BytesMut) -> (res: Result<(u64, u8, GroupOrder, FetchType), DecodeError>)
    ensures
        match spec_decode_fetch_head(buf_bytes(*old(r))) {
            Ok((v, n)) => res == Ok::<(u64, u8, GroupOrder, FetchType), DecodeError>(v) && buf_bytes(*final(r))
                == buf_bytes(*old(r)).skip(n) && 0 < n <= buf_bytes(*old(r)).len(),
            Err(e) => res == Err::<(u64, u8, GroupOrder, FetchType), DecodeError>(e),
        },
{
    let ghost s = buf_bytes(*r);
    let id = decode_u64(r)?;
    let ghost s1 = buf_bytes(*r);
    let subscriber_priority = decode_u8(r)?;
    let ghost s2 = buf_bytes(*r);
    proof {
        lemma_skip_skip(s, s.len() - s1.len(), s1.len() - s2.len());
    }
    let group_order = GroupOrder::decode(r)?;
    let ghost s3 = buf_bytes(*r);
    proof {
        lemma_skip_skip(s, s.len() - s2.len(), s2.len() - s3.len());
    }
    let fetch_type = FetchType::decode(r)?;
    proof {
        lemma_skip_skip(s, s.len() - s3.len(), s3.len() - buf_bytes(*r).len());
    }
    Ok((id, subscriber_priority, group_order, fetch_type))
}

/// The fields that depend on the fetch type, as read.
pub open spec fn fetch_mid_view(
    x: (Option<TrackNamespace>, Option<String>, Option<Location>, Option<Location>, Option<u64>, Option<u64>),
) -> FetchMid {
    (opt_namespace_view(x.0), opt_string_view(x.1), x.2, x.3, x.4, x.5)
}

/// Reads the fields that a fetch of type `t` calls for.
fn decode_fetch_mid(t: FetchType, r: &mut bytes::BytesMut) -> (res: Result<
    (Option<TrackNamespace>, Option<String>, Option<Location>, Option<Location>, Option<u64>, Option<u64>),
    DecodeError,
>)
    ensures
        match spec_decode_fetch_mid(t, buf_bytes(*old(r))) {
            Ok((v, n)) => res is Ok && fetch_mid_view(res->Ok_0) == v && buf_bytes(*final(r))
                == buf_bytes(*old(r)).skip(n) && 0 <= n <= buf_bytes(*old(r)).len(),
            Err(e) => res is Err && res->Err_0 == e,
        },
{
    let ghost s = buf_bytes(*r);
    match t {
        FetchType::Standalone => {
            let track_namespace = TrackNamespace::decode(r)?;
            let ghost s1 = buf_bytes(*r);
            let track_name = decode_string(r)?;
            let ghost s2 = buf_bytes(*r);
            proof {
                lemma_skip_skip(s, s.len() - s1.len(), s1.len() - s2.len());
            }
            let start_location = Location::decode(r)?;
            let ghost s3 = buf_bytes(*r);
            proof {
                lemma_skip_skip(s, s.len() - s2.len(), s2.len() - s3.len());
            }
            let end_location = Location::decode(r)?;
            proof {
                lemma_skip_skip(s, s.len() - s3.len(), s3.len() - buf_bytes(*r).len());
            }
            Ok((Some(track_namespace), Some(track_name), Some(start_location), Some(end_location), None, None))
        },
        _ => {
            let joining_id = decode_u64(r)?;
            let ghost s1 = buf_bytes(*r);
            let joining_start = decode_u64(r)?;
            proof {
                lemma_skip_skip(s, s.len() - s1.len(), s1.len() - buf_bytes(*r).len());
            }
            Ok((None, None, None, None, Some(joining_id), Some(joining_start)))
        },
    }
}

impl Fetch {
    /// Reads a fetch: the fixed fields, the fields its type calls for, then the
    /// parameters.
    pub fn decode(r: &mut bytes::BytesMut) -> (res: Result<Fetch, DecodeError>)
        ensures
            match spec_decode_fetch(buf_bytes(*old(r))) {
                Ok((v, n)) => res is Ok && res->Ok_0@ == v && buf_bytes(*final(r)) == buf_bytes(
                    *old(r),
                ).skip(n) && 0 < n <= buf_bytes(*old(r)).len(),
                Err(e) => res == Err::<Fetch, DecodeError>(e),
            },
    {
        let ghost s = buf_bytes(*r);
        let (id, subscriber_priority, group_order, fetch_type) = decode_fetch_head(r)?;
        let ghost s1 = buf_bytes(*r);
        let mid = match decode_fetch_mid(fetch_type, r) {
            Ok(mid) => mid,
            Err(e) => {
                return Err(e);
            },
        };
        let ghost s2 = buf_bytes(*r);
        proof {
            lemma_skip_skip(s, s.len() - s1.len(), s1.len() - s2.len());
        }
        let params = KeyValuePairs::decode(r)?;
        proof {
            lemma_skip_skip(s, s.len() - s2.len(), s2.len() - buf_bytes(*r).len());
        }
        let (track_namespace, track_name, start_location, end_location, joining_id, joining_start) = mid;
        Ok(Fetch {
            id,
            subscriber_priority,
            group_order,
            fetch_type,
            track_namespace,
            track_name,
            start_location,
            end_location,
            joining_id,
            joining_start,
            params,
        })
    }
}

/// The fixed fields decode from their own wire form, whatever follows.
pub proof fn lemma_fetch_head_roundtrip(m: FetchView, rest: Seq<u8>)
    requires
        m.id < varint_bound(),
    ensures
        spec_decode_fetch_head(fetch_head_bytes(m) + rest) == Ok::<((u64, u8, GroupOrder, FetchType), int), DecodeError>(
            ((m.id, m.subscriber_priority, m.group_order, m.fetch_type), fetch_head_bytes(m).len() as int),
        ),
{
    let p1 = varint_bytes(m.id);
    let p2 = seq![m.subscriber_priority];
    let p3 = seq![group_order_code(m.group_order)];
    let p4 = varint_bytes(fetch_type_code(m.fetch_type));
    let s = fetch_head_bytes(m) + rest;
    assert(s =~= p1 + (p2 + (p3 + (p4 + rest))));
    lemma_varint_roundtrip(m.id, p2 + (p3 + (p4 + rest)));
    let n1 = p1.len() as int;
    assert(s.skip(n1) =~= p2 + (p3 + (p4 + rest)));
    assert(s.skip(n1 + 1) =~= p3 + (p4 + rest));
    lemma_group_order_roundtrip(m.group_order, p4 + rest);
    assert(s.skip(n1 + 2) =~= p4 + rest);
    lemma_fetch_type_roundtrip(m.fetch_type, rest);
}

/// The fields that the fetch type calls for decode from their own wire form, whatever
/// follows.
pub proof fn lemma_fetch_mid_roundtrip(f: Fetch, rest: Seq<u8>)
    requires
        fetch_mid_valid(f@),
        fetch_consistent(f@),
        f@.track_name matches Some(n) ==> encode_utf8(n).len() <= usize::MAX,
    ensures
        spec_decode_fetch_mid(f@.fetch_type, fetch_mid_bytes(f@) + rest) == Ok::<(FetchMid, int), DecodeError>(
            (
                (f@.track_namespace, f@.track_name, f@.start_location, f@.end_location, f@.joining_id, f@.joining_start),
                fetch_mid_bytes(f@).len() as int,
            ),
        ),
{
    let m = f@;
    let s = fetch_mid_bytes(m) + rest;
    if m.fetch_type == FetchType::Standalone {
        let ns = m.track_namespace->0;
        let name = m.track_name->0;
        let st = m.start_location->0;
        let en = m.end_location->0;
        let p1 = namespace_bytes(ns);
        let p2 = string_bytes(name);
        let p3 = location_bytes(st);
        let p4 = location_bytes(en);
        assert(s =~= p1 + (p2 + (p3 + (p4 + rest))));
        lemma_namespace_roundtrip(f.track_namespace->0, p2 + (p3 + (p4 + rest)));
        let a = p1.len() as int;
        assert(s.skip(a) =~= p2 + (p3 + (p4 + rest)));
        lemma_string_roundtrip(name, p3 + (p4 + rest));
        let b = p2.len() as int;
        assert(s.skip(a + b) =~= p3 + (p4 + rest));
        lemma_location_roundtrip(st, p4 + rest);
        let c = p3.len() as int;
        assert(s.skip(a + b + c) =~= p4 + rest);
        lemma_location_roundtrip(en, rest);
    } else {
        let p1 = varint_bytes(m.joining_id->0);
        let p2 = varint_bytes(m.joining_start->0);
        assert(s =~= p1 + (p2 + rest));
        lemma_varint_roundtrip(m.joining_id->0, p2 + rest);
        assert(s.skip(p1.len() as int) =~= p2 + rest);
        lemma_varint_roundtrip(m.joining_start->0, rest);
    }
}

/// Decoding what `Fetch::encode` writes gives back the same fetch, for every fetch that
/// can be encoded, carries only the fields its type calls for, and whose parameters
/// decoding accepts.
pub proof fn lemma_fetch_roundtrip(m: Fetch, o: Seq<KeyValuePair>, rest: Seq<u8>)
    requires
        fetch_valid(m@, kvps_seq_view(o)),
        fetch_consistent(m@),
        kvps_wire_ok(m.params.0@, o),
        m@.track_name matches Some(n) ==> encode_utf8(n).len() <= usize::MAX,
    ensures
        spec_decode_fetch(fetch_bytes(m@, kvps_seq_view(o)) + rest) == Ok::<(FetchView, int), DecodeError>(
            (m@, fetch_bytes(m@, kvps_seq_view(o)).len() as int),
        ),
{
    let v = m@;
    let vs = kvps_seq_view(o);
    let hb = fetch_head_bytes(v);
    let mb = fetch_mid_bytes(v);
    let kb = kvps_bytes(vs);
    let s = fetch_bytes(v, vs) + rest;
    assert(s =~= hb + (mb + (kb + rest)));
    lemma_fetch_head_roundtrip(v, mb + (kb + rest));
    let n1 = hb.len() as int;
    assert(s.skip(n1) =~= mb + (kb + rest));
    lemma_fetch_mid_roundtrip(m, kb + rest);
    let n2 = mb.len() as int;
    assert(s.skip(n1 + n2) =~= kb + rest);
    lemma_kvps_roundtrip(m.params, o, rest);
}

} // verus!
