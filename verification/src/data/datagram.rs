use vstd::prelude::*;

use crate::coding::buf::{
    buf_bytes, buf_remaining, buf_split_to, buf_to_vec, buf_put_slice, encode_remaining, encoded,
    lemma_encoded_fail, lemma_encoded_then, lemma_skip_skip,
};
use crate::coding::error::{DecodeError, EncodeError};
use crate::coding::integer::{decode_u64, decode_u8, encode_u64, encode_u8, spec_decode_u8};
use crate::coding::kvp::{
    kvps_bytes, kvps_err, kvps_order, kvps_seq_view, kvps_valid, spec_decode_kvps, KeyValuePairs,
    ValueModel,
};
use crate::coding::varint::{lemma_varint_roundtrip, spec_decode_varint, varint_bound, varint_bytes};

use super::object_status::{
    object_status_code, spec_decode_object_status, ObjectStatus,
};

verus! {

broadcast use crate::coding::varint::lemma_decode_varint_len;

/// The type of a datagram: whether it ends its group, carries extension headers, or
/// carries a status in place of a payload.
#[derive(Clone, Copy, Debug, PartialEq, Eq, Structural, Hash)]
pub enum DatagramType {
    NoEndOfGroupNoExtensions,
    NoEndOfGroupWithExtensions,
    EndOfGroupNoExtensions,
    EndOfGroupWithExtensions,
    StatusNoExtensions,
    StatusWithExtensions,
}

/// The number that stands for a datagram type on the wire.
pub open spec fn datagram_type_code(t: DatagramType) -> u64 {
    match t {
        DatagramType::NoEndOfGroupNoExtensions => 0x0,
        DatagramType::NoEndOfGroupWithExtensions => 0x1,
        DatagramType::EndOfGroupNoExtensions => 0x2,
        DatagramType::EndOfGroupWithExtensions => 0x3,
        DatagramType::StatusNoExtensions => 0x4,
        DatagramType::StatusWithExtensions => 0x5,
    }
}

/// The datagram type a number stands for, if any.
pub open spec fn datagram_type_of(v: u64) -> Option<DatagramType> {
    if v == 0x0 {
        Some(DatagramType::NoEndOfGroupNoExtensions)
    } else if v == 0x1 {
        Some(DatagramType::NoEndOfGroupWithExtensions)
    } else if v == 0x2 {
        Some(DatagramType::EndOfGroupNoExtensions)
    } else if v == 0x3 {
        Some(DatagramType::EndOfGroupWithExtensions)
    } else if v == 0x4 {
        Some(DatagramType::StatusNoExtensions)
    } else if v == 0x5 {
        Some(DatagramType::StatusWithExtensions)
    } else {
        None
    }
}

/// The datagram carries extension headers.
pub open spec fn dg_has_ext(t: DatagramType) -> bool {
    t == DatagramType::NoEndOfGroupWithExtensions || t == DatagramType::EndOfGroupWithExtensions
        || t == DatagramType::StatusWithExtensions
}

/// The datagram carries a status in place of a payload.
pub open spec fn dg_is_status(t: DatagramType) -> bool {
    t == DatagramType::StatusNoExtensions || t == DatagramType::StatusWithExtensions
}

/// Decoding a datagram type from the front of `s`; an unknown number is refused.
pub open spec fn spec_decode_datagram_type(s: Seq<u8>) -> Result<(DatagramType, int), DecodeError> {
    match spec_decode_varint(s) {
        Ok((v, n)) => match datagram_type_of(v) {
            Some(t) => Ok((t, n)),
            None => Err(DecodeError::InvalidDatagramType),
        },
        Err(e) => Err(e),
    }
}

/// Every datagram type decodes from its own wire form.
pub proof fn lemma_datagram_type_roundtrip(t: DatagramType, rest: Seq<u8>)
    ensures
        spec_decode_datagram_type(varint_bytes(datagram_type_code(t)) + rest) == Ok::<
            (DatagramType, int),
            DecodeError,
        >((t, varint_bytes(datagram_type_code(t)).len() as int)),
{
    lemma_varint_roundtrip(datagram_type_code(t), rest);
}

impl DatagramType {
    /// Tells whether datagrams of this type carry extension headers.
    pub fn has_extension_headers(&self) -> (r: bool)
        ensures
            r == dg_has_ext(*self),
    {
        match self {
            DatagramType::NoEndOfGroupWithExtensions | DatagramType::EndOfGroupWithExtensions
            | DatagramType::StatusWithExtensions => true,
            _ => false,
        }
    }

    /// Tells whether datagrams of this type carry a status in place of a payload.
    pub fn is_status(&self) -> (r: bool)
        ensures
            r == dg_is_status(*self),
    {
        match self {
            DatagramType::StatusNoExtensions | DatagramType::StatusWithExtensions => true,
            _ => false,
        }
    }

    /// Appends the type number.
    pub fn encode(&self, w: &mut bytes::BytesMut) -> (res: Result<(), EncodeError>)
        ensures
            encoded(
                res,
                buf_bytes(*old(w)),
                buf_bytes(*final(w)),
                true,
                varint_bytes(datagram_type_code(*self)),
                EncodeError::BoundsExceeded,
            ),
    {
        let v: u64 = match self {
            DatagramType::NoEndOfGroupNoExtensions => 0x0,
            DatagramType::NoEndOfGroupWithExtensions => 0x1,
            DatagramType::EndOfGroupNoExtensions => 0x2,
            DatagramType::EndOfGroupWithExtensions => 0x3,
            DatagramType::StatusNoExtensions => 0x4,
            DatagramType::StatusWithExtensions => 0x5,
        };
        encode_u64(v, w)
    }

    /// Reads a type number; an unknown one is refused.
    pub fn decode(r: &mut bytes::BytesMut) -> (res: Result<DatagramType, DecodeError>)
        ensures
            match spec_decode_datagram_type(buf_bytes(*old(r))) {
                Ok((v, n)) => res == Ok::<DatagramType, DecodeError>(v) && buf_bytes(*final(r))
                    == buf_bytes(*old(r)).skip(n) && 0 < n <= buf_bytes(*old(r)).len(),
                Err(e) => res == Err::<DatagramType, DecodeError>(e),
            },
    {
        match decode_u64(r)? {
            0x0 => Ok(DatagramType::NoEndOfGroupNoExtensions),
            0x1 => Ok(DatagramType::NoEndOfGroupWithExtensions),
            0x2 => Ok(DatagramType::EndOfGroupNoExtensions),
            0x3 => Ok(DatagramType::EndOfGroupWithExtensions),
            0x4 => Ok(DatagramType::StatusNoExtensions),
            0x5 => Ok(DatagramType::StatusWithExtensions),
            _ => Err(DecodeError::InvalidDatagramType),
        }
    }
}

/// An object sent on its own in a datagram.
#[derive(Clone, Debug, PartialEq, Eq)]
pub struct Datagram {
    /// The type of this datagram object.
    pub datagram_type: DatagramType,
    /// The track alias.
    pub track_alias: u64,
    /// The sequence number within the track.
    pub group_id: u64,
    /// The object id within the group.
    pub object_id: u64,
    /// Publisher priority, where smaller values are sent first.
    pub publisher_priority: u8,
    /// Extension headers, for the types that carry them.
    pub extension_headers: Option<KeyValuePairs>,
    /// The object status, for the status types.
    pub status: Option<ObjectStatus>,
    /// The payload, for the other types.
    pub payload: Option<Vec<u8>>,
}

/// A datagram as plain data.
pub struct DatagramView {
    pub datagram_type: DatagramType,
    pub track_alias: u64,
    pub group_id: u64,
    pub object_id: u64,
    pub publisher_priority: u8,
    pub extension_headers: Option<Map<u64, (u64, ValueModel)>>,
    pub status: Option<ObjectStatus>,
    pub payload: Option<Seq<u8>>,
}

impl View for Datagram {
    type V = DatagramView;

    open spec fn view(&self) -> DatagramView {
        DatagramView {
            datagram_type: self.datagram_type,
            track_alias: self.track_alias,
            group_id: self.group_id,
            object_id: self.object_id,
            publisher_priority: self.publisher_priority,
            extension_headers: match self.extension_headers {
                Some(k) => Some(k@),
                None => None,
            },
            status: self.status,
            payload: match self.payload {
                Some(p) => Some(p@),
                None => None,
            },
        }
    }
}

/// The fixed fields: type, alias, group, object, priority.
pub open spec fn dg_head_bytes(d: DatagramView) -> Seq<u8> {
    varint_bytes(datagram_type_code(d.datagram_type)) + varint_bytes(d.track_alias) + varint_bytes(
        d.group_id,
    ) + varint_bytes(d.object_id) + seq![d.publisher_priority]
}

/// The fixed fields can be encoded.
pub open spec fn dg_head_valid(d: DatagramView) -> bool {
    d.track_alias < varint_bound() && d.group_id < varint_bound() && d.object_id < varint_bound()
}

/// The extension headers part, written in the order `vs`.
pub open spec fn dg_ext_bytes(d: DatagramView, vs: Seq<(u64, ValueModel)>) -> Seq<u8> {
    if dg_has_ext(d.datagram_type) {
        kvps_bytes(vs)
    } else {
        Seq::empty()
    }
}

/// The extension headers are present and can be encoded, where the type calls for them.
pub open spec fn dg_ext_valid(d: DatagramView, vs: Seq<(u64, ValueModel)>) -> bool {
    dg_has_ext(d.datagram_type) ==> d.extension_headers is Some && kvps_valid(vs)
}

/// The status or the payload, whichever the type calls for.
pub open spec fn dg_body_bytes(d: DatagramView) -> Seq<u8> {
    if dg_is_status(d.datagram_type) {
        match d.status {
            Some(st) => varint_bytes(object_status_code(st)),
            None => Seq::empty(),
        }
    } else {
        match d.payload {
            Some(p) => p,
            None => Seq::empty(),
        }
    }
}

/// The status or the payload that the type calls for is present.
pub open spec fn dg_body_valid(d: DatagramView) -> bool {
    if dg_is_status(d.datagram_type) {
        d.status is Some
    } else {
        d.payload is Some
    }
}

/// The wire form of a datagram whose extension headers are written in the order `vs`.
pub open spec fn datagram_bytes(d: DatagramView, vs: Seq<(u64, ValueModel)>) -> Seq<u8> {
    dg_head_bytes(d) + (dg_ext_bytes(d, vs) + dg_body_bytes(d))
}

/// A datagram can be encoded: its numbers fit, and the parts its type calls for are
/// present and can be encoded.
pub open spec fn datagram_valid(d: DatagramView, vs: Seq<(u64, ValueModel)>) -> bool {
    dg_head_valid(d) && (dg_ext_valid(d, vs) && dg_body_valid(d))
}

/// Why a datagram cannot be encoded: a number too large, else a missing part, else the
/// extension headers' own error.
pub open spec fn datagram_err(d: DatagramView, vs: Seq<(u64, ValueModel)>) -> EncodeError {
    if !dg_head_valid(d) {
        EncodeError::BoundsExceeded
    } else if dg_ext_valid(d, vs) {
        EncodeError::MissingField
    } else if d.extension_headers is None {
        EncodeError::MissingField
    } else {
        kvps_err(vs)
    }
}

/// Decoding the fixed fields from the front of `s`.
pub open spec fn spec_decode_dg_head(s: Seq<u8>) -> Result<((DatagramType, u64, u64, u64, u8), int), DecodeError> {
    match spec_decode_datagram_type(s) {
        Ok((t, n1)) => match spec_decode_varint(s.skip(n1)) {
            Ok((a, n2)) => match spec_decode_varint(s.skip(n1 + n2)) {
                Ok((g, n3)) => match spec_decode_varint(s.skip(n1 + n2 + n3)) {
                    Ok((o, n4)) => match spec_decode_u8(s.skip(n1 + n2 + n3 + n4)) {
                        Ok((p, n5)) => Ok(((t, a, g, o, p), n1 + n2 + n3 + n4 + n5)),
                        Err(e) => Err(e),
                    },
                    Err(e) => Err(e),
                },
                Err(e) => Err(e),
            },
            Err(e) => Err(e),
        },
        Err(e) => Err(e),
    }
}

/// Decoding the extension headers part for a datagram of type `t`.
pub open spec fn spec_decode_dg_ext(t: DatagramType, s: Seq<u8>) -> Result<
    (Option<Map<u64, (u64, ValueModel)>>, int),
    DecodeError,
> {
    if dg_has_ext(t) {
        match spec_decode_kvps(s) {
            Ok((m, n)) => Ok((Some(m), n)),
            Err(e) => Err(e),
        }
    } else {
        Ok((None, 0))
    }
}

/// Decoding a datagram from `s`: the fixed fields, the extension headers where the type
/// calls for them, then a status, or else a payload made of every remaining byte.
pub open spec fn spec_decode_datagram(s: Seq<u8>) -> Result<(DatagramView, int), DecodeError> {
    match spec_decode_dg_head(s) {
        Ok((h, n)) => match spec_decode_dg_ext(h.0, s.skip(n)) {
            Ok((ext, k)) => if dg_is_status(h.0) {
                match spec_decode_object_status(s.skip(n + k)) {
                    Ok((st, j)) => Ok(
                        (
                            DatagramView {
                                datagram_type: h.0,
                                track_alias: h.1,
                                group_id: h.2,
                                object_id: h.3,
                                publisher_priority: h.4,
                                extension_headers: ext,
                                status: Some(st),
                                payload: None,
                            },
                            n + k + j,
                        ),
                    ),
                    Err(e) => Err(e),
                }
            } else {
                Ok(
                    (
                        DatagramView {
                            datagram_type: h.0,
                            track_alias: h.1,
                            group_id: h.2,
                            object_id: h.3,
                            publisher_priority: h.4,
                            extension_headers: ext,
                            status: None,
                            payload: Some(s.skip(n + k)),
                        },
                        s.len() as int,
                    ),
                )
            },
            Err(e) => Err(e),
        },
        Err(e) => Err(e),
    }
}

/// Appends the fixed fields.
fn encode_dg_head(
    t: DatagramType,
    track_alias: u64,
    group_id: u64,
    object_id: u64,
    priority: u8,
    w: &mut bytes::BytesMut,
) -> (res: Result<(), EncodeError>)
    ensures
        encoded(
            res,
            buf_bytes(*old(w)),
            buf_bytes(*final(w)),
            track_alias < varint_bound() && group_id < varint_bound() && object_id < varint_bound(),
            varint_bytes(datagram_type_code(t)) + varint_bytes(track_alias) + varint_bytes(group_id)
                + varint_bytes(object_id) + seq![priority],
            EncodeError::BoundsExceeded,
        ),
{
    let ghost be = EncodeError::BoundsExceeded;
    let ghost b0 = buf_bytes(*w);
    let ghost p1 = varint_bytes(datagram_type_code(t));
    let ghost p2 = varint_bytes(track_alias);
    let ghost p3 = varint_bytes(group_id);
    let ghost p4 = varint_bytes(object_id);
    let ghost p5 = seq![priority];
    let ghost v2 = track_alias < varint_bound();
    let ghost v3 = group_id < varint_bound();
    let ghost v4 = object_id < varint_bound();
    let r1 = t.encode(w);
    let ghost b1 = buf_bytes(*w);
    if r1.is_err() {
        proof {
            lemma_encoded_fail(r1, b0, b1, true, p1, be, v2 && v3 && v4, p2 + p3 + p4 + p5, be);
            assert(p1 + (p2 + p3 + p4 + p5) =~= p1 + p2 + p3 + p4 + p5);
        }
        return r1;
    }
    let r2 = encode_u64(track_alias, w);
    let ghost b2 = buf_bytes(*w);
    proof {
        lemma_encoded_then(r1, b0, b1, true, p1, be, r2, b2, v2, p2, be);
    }
    if r2.is_err() {
        proof {
            lemma_encoded_fail(r2, b0, b2, v2, p1 + p2, be, v3 && v4, p3 + p4 + p5, be);
            assert(p1 + p2 + (p3 + p4 + p5) =~= p1 + p2 + p3 + p4 + p5);
        }
        return r2;
    }
    let r3 = encode_u64(group_id, w);
    let ghost b3 = buf_bytes(*w);
    proof {
        lemma_encoded_then(r2, b0, b2, v2, p1 + p2, be, r3, b3, v3, p3, be);
    }
    if r3.is_err() {
        proof {
            lemma_encoded_fail(r3, b0, b3, v2 && v3, p1 + p2 + p3, be, v4, p4 + p5, be);
            assert(p1 + p2 + p3 + (p4 + p5) =~= p1 + p2 + p3 + p4 + p5);
        }
        return r3;
    }
    let r4 = encode_u64(object_id, w);
    let ghost b4 = buf_bytes(*w);
    proof {
        lemma_encoded_then(r3, b0, b3, v2 && v3, p1 + p2 + p3, be, r4, b4, v4, p4, be);
    }
    if r4.is_err() {
        proof {
            lemma_encoded_fail(r4, b0, b4, v2 && v3 && v4, p1 + p2 + p3 + p4, be, true, p5, be);
        }
        return r4;
    }
    let r5 = encode_u8(priority, w);
    proof {
        lemma_encoded_then(r4, b0, b4, v2 && v3 && v4, p1 + p2 + p3 + p4, be, r5, buf_bytes(*w),
            true, p5, EncodeError::More(1));
    }
    r5
}

/// Reads the fixed fields.
fn decode_dg_head(r: &mut bytes::BytesMut) -> (res: Result<(DatagramType, u64, u64, u64, u8), DecodeError>)
    ensures
        match spec_decode_dg_head(buf_bytes(*old(r))) {
            Ok((v, n)) => res == Ok::<(DatagramType, u64, u64, u64, u8), DecodeError>(v) && buf_bytes(*final(r))
                == buf_bytes(*old(r)).skip(n) && 0 < n <= buf_bytes(*old(r)).len(),
            Err(e) => res == Err::<(DatagramType, u64, u64, u64, u8), DecodeError>(e),
        },
{
    let ghost s = buf_bytes(*r);
    let t = DatagramType::decode(r)?;
    let ghost s1 = buf_bytes(*r);
    let a = decode_u64(r)?;
    let ghost s2 = buf_bytes(*r);
    proof {
        lemma_skip_skip(s, s.len() - s1.len(), s1.len() - s2.len());
    }
    let g = decode_u64(r)?;
    let ghost s3 = buf_bytes(*r);
    proof {
        lemma_skip_skip(s, s.len() - s2.len(), s2.len() - s3.len());
    }
    let o = decode_u64(r)?;
    let ghost s4 = buf_bytes(*r);
    proof {
        lemma_skip_skip(s, s.len() - s3.len(), s3.len() - s4.len());
    }
    let p = decode_u8(r)?;
    proof {
        let n = s.len() - s4.len();
        lemma_skip_skip(s, n, 1);
    }
    Ok((t, a, g, o, p))
}

impl Datagram {
    /// Appends the datagram: the fixed fields, the extension headers where the type calls
    /// for them, then the status or the payload (every payload byte, unprefixed). A part
    /// that the type calls for but that is absent is refused.
    pub fn encode(&self, w: &mut bytes::BytesMut) -> (res: Result<(), EncodeError>)
        ensures
            exists|o: Seq<crate::coding::KeyValuePair>|
                (self.extension_headers matches Some(k) ==> kvps_order(k.0@, o)) && encoded(
                    res,
                    buf_bytes(*old(w)),
                    buf_bytes(*final(w)),
                    datagram_valid(self@, kvps_seq_view(o)),
                    datagram_bytes(self@, kvps_seq_view(o)),
                    datagram_err(self@, kvps_seq_view(o)),
                ),
    {
        let ghost d = self@;
        let ghost mut o: Seq<crate::coding::KeyValuePair> = Seq::empty();
        proof {
            if let Some(k) = &self.extension_headers {
                crate::coding::kvp::lemma_kvps_has_order(k.0@);
                o = choose|o: Seq<crate::coding::KeyValuePair>| kvps_order(k.0@, o);
            }
        }
        let ghost b0 = buf_bytes(*w);
        let r1 = encode_dg_head(
            self.datagram_type,
            self.track_alias,
            self.group_id,
            self.object_id,
            self.publisher_priority,
            w,
        );
        let ghost b1 = buf_bytes(*w);
        if r1.is_err() {
            proof {
                let vs = kvps_seq_view(o);
                lemma_encoded_fail(r1, b0, b1, dg_head_valid(d), dg_head_bytes(d),
                    EncodeError::BoundsExceeded, dg_ext_valid(d, vs) && dg_body_valid(d),
                    dg_ext_bytes(d, vs) + dg_body_bytes(d), datagram_err(d, vs));
                assert(self.extension_headers matches Some(k) ==> kvps_order(k.0@, o));
            }
            return r1;
        }
        // the extension headers
        let mut r2: Result<(), EncodeError> = Ok(());
        if self.datagram_type.has_extension_headers() {
            match &self.extension_headers {
                Some(eh) => {
                    r2 = eh.encode(w);
                    proof {
                        o = choose|o: Seq<crate::coding::KeyValuePair>|
                            kvps_order(eh.0@, o) && encoded(
                                r2,
                                b1,
                                buf_bytes(*w),
                                kvps_valid(kvps_seq_view(o)),
                                kvps_bytes(kvps_seq_view(o)),
                                kvps_err(kvps_seq_view(o)),
                            );
                    }
                },
                None => {
                    r2 = Err(EncodeError::MissingField);
                },
            }
        } else {
            assert(b1 + Seq::<u8>::empty() =~= b1);
        }
        let ghost vs = kvps_seq_view(o);
        let ghost b2 = buf_bytes(*w);
        let ghost e2 = if d.extension_headers is None { EncodeError::MissingField } else { kvps_err(vs) };
        assert(encoded(r2, b1, b2, dg_ext_valid(d, vs), dg_ext_bytes(d, vs), e2));
        proof {
            lemma_encoded_then(r1, b0, b1, dg_head_valid(d), dg_head_bytes(d),
                EncodeError::BoundsExceeded, r2, b2, dg_ext_valid(d, vs), dg_ext_bytes(d, vs), e2);
        }
        if r2.is_err() {
            proof {
                lemma_encoded_fail(r2, b0, b2, dg_head_valid(d) && dg_ext_valid(d, vs), dg_head_bytes(d)
                    + dg_ext_bytes(d, vs), e2, dg_body_valid(d), dg_body_bytes(d),
                    EncodeError::MissingField);
                assert(dg_head_bytes(d) + dg_ext_bytes(d, vs) + dg_body_bytes(d) =~= datagram_bytes(d, vs));
            }
            return r2;
        }
        // the status or the payload
        let mut r3: Result<(), EncodeError> = Ok(());
        if self.datagram_type.is_status() {
            match &self.status {
                Some(status) => {
                    r3 = status.encode(w);
                },
                None => {
                    r3 = Err(EncodeError::MissingField);
                },
            }
        } else {
            match &self.payload {
                Some(payload) => {
                    r3 = encode_remaining(w, payload.len());
                    if r3.is_ok() {
                        buf_put_slice(w, payload.as_slice());
                    }
                },
                None => {
                    r3 = Err(EncodeError::MissingField);
                },
            }
        }
        proof {
            assert(encoded(r3, b2, buf_bytes(*w), dg_body_valid(d), dg_body_bytes(d), EncodeError::MissingField));
            lemma_encoded_then(r2, b0, b2, dg_head_valid(d) && dg_ext_valid(d, vs), dg_head_bytes(d)
                + dg_ext_bytes(d, vs), e2, r3, buf_bytes(*w), dg_body_valid(d), dg_body_bytes(d),
                EncodeError::MissingField);
            assert(dg_head_bytes(d) + dg_ext_bytes(d, vs) + dg_body_bytes(d) =~= datagram_bytes(d, vs));
            assert(self.extension_headers matches Some(k) ==> kvps_order(k.0@, o));
        }
        r3
    }

    /// Reads a datagram from the buffer: the fixed fields, the extension headers where
    /// the type calls for them, then a status, or else a payload made of every remaining
    /// byte.
    pub fn decode(r: &mut bytes::BytesMut) -> (res: Result<Datagram, DecodeError>)
        ensures
            match spec_decode_datagram(buf_bytes(*old(r))) {
                Ok((v, n)) => res is Ok && res->Ok_0@ == v && buf_bytes(*final(r)) == buf_bytes(
                    *old(r),
                ).skip(n) && 0 < n <= buf_bytes(*old(r)).len(),
                Err(e) => res == Err::<Datagram, DecodeError>(e),
            },
    {
        let ghost s = buf_bytes(*r);
        let (datagram_type, track_alias, group_id, object_id, publisher_priority) = decode_dg_head(r)?;
        let ghost s1 = buf_bytes(*r);
        let ghost n = s.len() - s1.len();
        let extension_headers = if datagram_type.has_extension_headers() {
            Some(KeyValuePairs::decode(r)?)
        } else {
            None
        };
        let ghost s2 = buf_bytes(*r);
        let ghost h = (datagram_type, track_alias, group_id, object_id, publisher_priority);
        let ghost ext = match &extension_headers {
            Some(k) => Some(k@),
            None => None,
        };
        proof {
            lemma_skip_skip(s, n, s1.len() - s2.len());
            assert(spec_decode_dg_head(s) == Ok::<((DatagramType, u64, u64, u64, u8), int), DecodeError>((h, n)));
            assert(spec_decode_dg_ext(datagram_type, s.skip(n)) == Ok::<(Option<Map<u64, (u64, ValueModel)>>, int), DecodeError>((ext, s1.len() - s2.len())));
        }
        let status: Option<ObjectStatus>;
        let payload: Option<Vec<u8>>;
        if datagram_type.is_status() {
            status = Some(ObjectStatus::decode(r)?);
            payload = None;
            proof {
                lemma_skip_skip(s, s.len() - s2.len(), s2.len() - buf_bytes(*r).len());
            }
        } else {
            let remaining = buf_remaining(r);
            let front = buf_split_to(r, remaining);
            let v = buf_to_vec(&front);
            proof {
                assert(buf_bytes(*r) =~= s.skip(s.len() as int));
                assert(v@ =~= s2);
                assert(s2 == s.skip(s.len() - s2.len()));
            }
            status = None;
            payload = Some(v);
        }
        let d = Datagram {
            datagram_type,
            track_alias,
            group_id,
            object_id,
            publisher_priority,
            extension_headers,
            status,
            payload,
        };
        assert(d@.extension_headers == ext);
        Ok(d)
    }
}

} // verus!

verus! {

/// The fixed fields decode from their own wire form, whatever follows.
pub proof fn lemma_dg_head_roundtrip(d: DatagramView, rest: Seq<u8>)
    requires
        dg_head_valid(d),
    ensures
        spec_decode_dg_head(dg_head_bytes(d) + rest) == Ok::<((DatagramType, u64, u64, u64, u8), int), DecodeError>(
            (
                (d.datagram_type, d.track_alias, d.group_id, d.object_id, d.publisher_priority),
                dg_head_bytes(d).len() as int,
            ),
        ),
{
    let p1 = varint_bytes(datagram_type_code(d.datagram_type));
    let p2 = varint_bytes(d.track_alias);
    let p3 = varint_bytes(d.group_id);
    let p4 = varint_bytes(d.object_id);
    let p5 = seq![d.publisher_priority];
    let s = dg_head_bytes(d) + rest;
    assert(s =~= p1 + (p2 + (p3 + (p4 + (p5 + rest)))));
    lemma_datagram_type_roundtrip(d.datagram_type, p2 + (p3 + (p4 + (p5 + rest))));
    let n1 = p1.len() as int;
    assert(s.skip(n1) =~= p2 + (p3 + (p4 + (p5 + rest))));
    lemma_varint_roundtrip(d.track_alias, p3 + (p4 + (p5 + rest)));
    let n2 = p2.len() as int;
    assert(s.skip(n1 + n2) =~= p3 + (p4 + (p5 + rest)));
    lemma_varint_roundtrip(d.group_id, p4 + (p5 + rest));
    let n3 = p3.len() as int;
    assert(s.skip(n1 + n2 + n3) =~= p4 + (p5 + rest));
    lemma_varint_roundtrip(d.object_id, p5 + rest);
    let n4 = p4.len() as int;
    assert(s.skip(n1 + n2 + n3 + n4) =~= p5 + rest);
}

/// The parts of a datagram agree with its type: extension headers exactly for the types
/// that carry them, and a status or a payload, whichever the type calls for.
pub open spec fn datagram_consistent(d: DatagramView) -> bool {
    &&& dg_has_ext(d.datagram_type) <==> d.extension_headers is Some
    &&& dg_is_status(d.datagram_type) <==> d.status is Some
    &&& dg_is_status(d.datagram_type) <==> d.payload is None
}

/// Decoding what `Datagram::encode` writes gives back the same datagram, for every
/// datagram that can be encoded and whose parts agree with its type (extension headers
/// that decoding accepts).
pub proof fn lemma_datagram_roundtrip(d: Datagram, o: Seq<crate::coding::KeyValuePair>)
    requires
        datagram_consistent(d@),
        datagram_valid(d@, kvps_seq_view(o)),
        d.extension_headers matches Some(k) ==> crate::coding::kvp::kvps_wire_ok(k.0@, o),
    ensures
        spec_decode_datagram(datagram_bytes(d@, kvps_seq_view(o))) == Ok::<(DatagramView, int), DecodeError>(
            (d@, datagram_bytes(d@, kvps_seq_view(o)).len() as int),
        ),
{
    let v = d@;
    let vs = kvps_seq_view(o);
    let head = dg_head_bytes(v);
    let ext = dg_ext_bytes(v, vs);
    let body = dg_body_bytes(v);
    let s = datagram_bytes(v, vs);
    lemma_dg_head_roundtrip(v, ext + body);
    let n = head.len() as int;
    assert(s.skip(n) =~= ext + body);
    if let Some(k) = d.extension_headers {
        crate::coding::kvp::lemma_kvps_roundtrip(k, o, body);
    } else {
        assert(ext + body =~= body);
    }
    let k = ext.len() as int;
    assert(s.skip(n + k) =~= body);
    if dg_is_status(v.datagram_type) {
        crate::data::object_status::lemma_object_status_roundtrip(v.status->0, Seq::empty());
        assert(body + Seq::<u8>::empty() =~= body);
    }
    let r = spec_decode_datagram(s);
    assert(r is Ok);
    assert(r->Ok_0.0 == v);
}

} // verus!
