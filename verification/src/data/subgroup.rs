use vstd::prelude::*;

use crate::coding::buf::{
    buf_bytes, encoded, lemma_encoded_fail, lemma_encoded_then, lemma_skip_skip,
};
use crate::coding::error::{DecodeError, EncodeError};
use crate::coding::integer::{
    decode_u64, decode_u8, decode_usize, encode_u64, encode_u8, encode_usize, spec_decode_u8,
    spec_decode_usize,
};
use crate::coding::kvp::{
    kvps_bytes, kvps_err, kvps_order, kvps_seq_view, kvps_valid, spec_decode_kvps, KeyValuePair,
    KeyValuePairs, ValueModel,
};
use crate::coding::varint::{spec_decode_varint, varint_bound, varint_bytes};

use super::header::{header_type_code, spec_has_subgroup_id, StreamHeaderType};
use super::object_status::{object_status_code, spec_decode_object_status, ObjectStatus};

verus! {

broadcast use crate::coding::varint::lemma_decode_varint_len;

/// The header that opens a subgroup stream.
#[derive(Clone, Copy, Debug, PartialEq, Eq, Structural)]
pub struct SubgroupHeader {
    /// Subgroup header type.
    pub header_type: StreamHeaderType,
    /// The track alias.
    pub track_alias: u64,
    /// The group sequence number.
    pub group_id: u64,
    /// The subgroup sequence number, for the types that carry it.
    pub subgroup_id: Option<u64>,
    /// Publisher priority, where smaller values are sent first.
    pub publisher_priority: u8,
}

/// The subgroup id part of a header: present only for the types that carry it.
pub open spec fn sg_id_bytes(h: SubgroupHeader) -> Seq<u8> {
    if spec_has_subgroup_id(h.header_type) {
        match h.subgroup_id {
            Some(x) => varint_bytes(x),
            None => Seq::empty(),
        }
    } else {
        Seq::empty()
    }
}

/// The wire form of a header: type, alias, group, the subgroup id where the type calls
/// for it, then the priority.
pub open spec fn subgroup_header_bytes(h: SubgroupHeader) -> Seq<u8> {
    varint_bytes(header_type_code(h.header_type)) + varint_bytes(h.track_alias) + varint_bytes(
        h.group_id,
    ) + sg_id_bytes(h) + seq![h.publisher_priority]
}

/// The subgroup id is present and fits, where the type calls for it.
pub open spec fn sg_id_valid(h: SubgroupHeader) -> bool {
    spec_has_subgroup_id(h.header_type) ==> h.subgroup_id is Some && h.subgroup_id->0 < varint_bound()
}

/// A header can be encoded.
pub open spec fn subgroup_header_valid(h: SubgroupHeader) -> bool {
    h.track_alias < varint_bound() && h.group_id < varint_bound() && sg_id_valid(h)
}

/// Why a header cannot be encoded: a number too large, or a missing subgroup id.
pub open spec fn subgroup_header_err(h: SubgroupHeader) -> EncodeError {
    if h.track_alias < varint_bound() && h.group_id < varint_bound() && h.subgroup_id is None {
        EncodeError::MissingField
    } else {
        EncodeError::BoundsExceeded
    }
}

/// Decoding the rest of a header of type `t` (whose type number was read already).
pub open spec fn spec_decode_subgroup_header(t: StreamHeaderType, s: Seq<u8>) -> Result<(SubgroupHeader, int), DecodeError> {
    match spec_decode_varint(s) {
        Ok((a, n1)) => match spec_decode_varint(s.skip(n1)) {
            Ok((g, n2)) => {
                let sub: Result<(Option<u64>, int), DecodeError> = if spec_has_subgroup_id(t) {
                    match spec_decode_varint(s.skip(n1 + n2)) {
                        Ok((x, n3)) => Ok((Some(x), n3)),
                        Err(e) => Err(e),
                    }
                } else {
                    Ok((None, 0))
                };
                match sub {
                    Ok((id, n3)) => match spec_decode_u8(s.skip(n1 + n2 + n3)) {
                        Ok((p, n4)) => Ok(
                            (
                                SubgroupHeader {
                                    header_type: t,
                                    track_alias: a,
                                    group_id: g,
                                    subgroup_id: id,
                                    publisher_priority: p,
                                },
                                n1 + n2 + n3 + n4,
                            ),
                        ),
                        Err(e) => Err(e),
                    },
                    Err(e) => Err(e),
                }
            },
            Err(e) => Err(e),
        },
        Err(e) => Err(e),
    }
}

impl SubgroupHeader {
    /// Reads the rest of a header whose type was read already; the subgroup id is read
    /// only for the types that carry it.
    pub fn decode(header_type: StreamHeaderType, r: &mut bytes::BytesMut) -> (res: Result<SubgroupHeader, DecodeError>)
        ensures
            match spec_decode_subgroup_header(header_type, buf_bytes(*old(r))) {
                Ok((v, n)) => res == Ok::<SubgroupHeader, DecodeError>(v) && buf_bytes(*final(r))
                    == buf_bytes(*old(r)).skip(n) && 0 < n <= buf_bytes(*old(r)).len(),
                Err(e) => res == Err::<SubgroupHeader, DecodeError>(e),
            },
    {
        let ghost s = buf_bytes(*r);
        let track_alias = decode_u64(r)?;
        let ghost s1 = buf_bytes(*r);
        let group_id = decode_u64(r)?;
        let ghost s2 = buf_bytes(*r);
        proof {
            lemma_skip_skip(s, s.len() - s1.len(), s1.len() - s2.len());
        }
        let subgroup_id = if header_type.has_subgroup_id() {
            Some(decode_u64(r)?)
        } else {
            None
        };
        let ghost s3 = buf_bytes(*r);
        proof {
            lemma_skip_skip(s, s.len() - s2.len(), s2.len() - s3.len());
        }
        let publisher_priority = decode_u8(r)?;
        proof {
            lemma_skip_skip(s, s.len() - s3.len(), 1);
        }
        Ok(SubgroupHeader { header_type, track_alias, group_id, subgroup_id, publisher_priority })
    }

    /// Appends the header: type, alias, group, the subgroup id where the type calls for
    /// it (refused if absent), then the priority.
    pub fn encode(&self, w: &mut bytes::BytesMut) -> (res: Result<(), EncodeError>)
        ensures
            encoded(
                res,
                buf_bytes(*old(w)),
                buf_bytes(*final(w)),
                subgroup_header_valid(*self),
                subgroup_header_bytes(*self),
                subgroup_header_err(*self),
            ),
    {
        let ghost h = *self;
        let ghost be = EncodeError::BoundsExceeded;
        let ghost b0 = buf_bytes(*w);
        let ghost p1 = varint_bytes(header_type_code(h.header_type));
        let ghost p2 = varint_bytes(h.track_alias);
        let ghost p3 = varint_bytes(h.group_id);
        let ghost p4 = sg_id_bytes(h);
        let ghost p5 = seq![h.publisher_priority];
        let ghost v2 = h.track_alias < varint_bound();
        let ghost v3 = h.group_id < varint_bound();
        let ghost v4 = sg_id_valid(h);
        let ghost e4 = if h.subgroup_id is None { EncodeError::MissingField } else { be };
        let r1 = self.header_type.encode(w);
        let ghost b1 = buf_bytes(*w);
        if r1.is_err() {
            proof {
                lemma_encoded_fail(r1, b0, b1, true, p1, be, v2 && v3 && v4, p2 + p3 + p4 + p5,
                    subgroup_header_err(h));
                assert(p1 + (p2 + p3 + p4 + p5) =~= p1 + p2 + p3 + p4 + p5);
            }
            return r1;
        }
        let r2 = encode_u64(self.track_alias, w);
        let ghost b2 = buf_bytes(*w);
        proof {
            lemma_encoded_then(r1, b0, b1, true, p1, be, r2, b2, v2, p2, be);
        }
        if r2.is_err() {
            proof {
                lemma_encoded_fail(r2, b0, b2, v2, p1 + p2, be, v3 && v4, p3 + p4 + p5,
                    subgroup_header_err(h));
                assert(p1 + p2 + (p3 + p4 + p5) =~= p1 + p2 + p3 + p4 + p5);
            }
            return r2;
        }
        let r3 = encode_u64(self.group_id, w);
        let ghost b3 = buf_bytes(*w);
        proof {
            lemma_encoded_then(r2, b0, b2, v2, p1 + p2, be, r3, b3, v3, p3, be);
        }
        if r3.is_err() {
            proof {
                lemma_encoded_fail(r3, b0, b3, v2 && v3, p1 + p2 + p3, be, v4, p4 + p5, e4);
                assert(p1 + p2 + p3 + (p4 + p5) =~= p1 + p2 + p3 + p4 + p5);
            }
            return r3;
        }
        let mut r4: Result<(), EncodeError> = Ok(());
        if self.header_type.has_subgroup_id() {
            match self.subgroup_id {
                Some(subgroup_id) => {
                    r4 = encode_u64(subgroup_id, w);
                },
                None => {
                    r4 = Err(EncodeError::MissingField);
                },
            }
        } else {
            assert(b3 + Seq::<u8>::empty() =~= b3);
        }
        let ghost b4 = buf_bytes(*w);
        proof {
            lemma_encoded_then(r3, b0, b3, v2 && v3, p1 + p2 + p3, be, r4, b4, v4, p4, e4);
        }
        if r4.is_err() {
            proof {
                lemma_encoded_fail(r4, b0, b4, v2 && v3 && v4, p1 + p2 + p3 + p4,
                    if v2 && v3 { e4 } else { be }, true, p5, be);
            }
            return r4;
        }
        let r5 = encode_u8(self.publisher_priority, w);
        proof {
            lemma_encoded_then(r4, b0, b4, v2 && v3 && v4, p1 + p2 + p3 + p4, if v2 && v3 { e4 } else { be },
                r5, buf_bytes(*w), true, p5, EncodeError::More(1));
        }
        r5
    }
}

/// An object of a subgroup stream without extension headers (its payload follows it).
#[derive(Clone, Copy, Debug, PartialEq, Eq, Structural)]
pub struct SubgroupObject {
    pub object_id_delta: u64,
    pub payload_length: usize,
    pub status: Option<ObjectStatus>,
}

/// The status part of an object: present only when the payload is empty.
pub open spec fn obj_status_bytes(payload_length: usize, status: Option<ObjectStatus>) -> Seq<u8> {
    if payload_length == 0 {
        match status {
            Some(st) => varint_bytes(object_status_code(st)),
            None => Seq::empty(),
        }
    } else {
        Seq::empty()
    }
}

/// The wire form of an object: the id delta, the payload length, and the status when the
/// payload is empty.
pub open spec fn subgroup_object_bytes(o: SubgroupObject) -> Seq<u8> {
    varint_bytes(o.object_id_delta) + varint_bytes(o.payload_length as u64) + obj_status_bytes(
        o.payload_length,
        o.status,
    )
}

/// An object can be encoded: its numbers fit, and an empty payload comes with a status.
pub open spec fn subgroup_object_valid(o: SubgroupObject) -> bool {
    o.object_id_delta < varint_bound() && o.payload_length < varint_bound() && (o.payload_length
        == 0 ==> o.status is Some)
}

/// Why an object cannot be encoded: a number too large, else a missing status.
pub open spec fn subgroup_object_err(o: SubgroupObject) -> EncodeError {
    if o.object_id_delta < varint_bound() && o.payload_length < varint_bound() {
        EncodeError::MissingField
    } else {
        EncodeError::BoundsExceeded
    }
}

/// Decoding the status part of an object whose payload length is `len`.
pub open spec fn spec_decode_obj_status(len: usize, s: Seq<u8>) -> Result<(Option<ObjectStatus>, int), DecodeError> {
    if len == 0 {
        match spec_decode_object_status(s) {
            Ok((st, n)) => Ok((Some(st), n)),
            Err(e) => Err(e),
        }
    } else {
        Ok((None, 0))
    }
}

/// Decoding an object from the front of `s`.
pub open spec fn spec_decode_subgroup_object(s: Seq<u8>) -> Result<(SubgroupObject, int), DecodeError> {
    match spec_decode_varint(s) {
        Ok((d, n1)) => match spec_decode_usize(s.skip(n1)) {
            Ok((len, n2)) => match spec_decode_obj_status(len, s.skip(n1 + n2)) {
                Ok((st, n3)) => Ok(
                    (
                        SubgroupObject { object_id_delta: d, payload_length: len, status: st },
                        n1 + n2 + n3,
                    ),
                ),
                Err(e) => Err(e),
            },
            Err(e) => Err(e),
        },
        Err(e) => Err(e),
    }
}

/// Reads the status of an object whose payload is empty.
fn decode_obj_status(len: usize, r: &mut bytes::BytesMut) -> (res: Result<Option<ObjectStatus>, DecodeError>)
    ensures
        match spec_decode_obj_status(len, buf_bytes(*old(r))) {
            Ok((v, n)) => res == Ok::<Option<ObjectStatus>, DecodeError>(v) && buf_bytes(*final(r))
                == buf_bytes(*old(r)).skip(n) && 0 <= n <= buf_bytes(*old(r)).len(),
            Err(e) => res == Err::<Option<ObjectStatus>, DecodeError>(e),
        },
{
    if len == 0 {
        Ok(Some(ObjectStatus::decode(r)?))
    } else {
        assert(buf_bytes(*r) =~= buf_bytes(*r).skip(0));
        Ok(None)
    }
}

/// Appends the status of an object whose payload is empty; it must be present then.
fn encode_obj_status(len: usize, status: Option<ObjectStatus>, w: &mut bytes::BytesMut) -> (res: Result<(), EncodeError>)
    ensures
        encoded(
            res,
            buf_bytes(*old(w)),
            buf_bytes(*final(w)),
            len == 0 ==> status is Some,
            obj_status_bytes(len, status),
            EncodeError::MissingField,
        ),
{
    if len == 0 {
        match status {
            Some(st) => st.encode(w),
            None => Err(EncodeError::MissingField),
        }
    } else {
        assert(buf_bytes(*w) + Seq::<u8>::empty() =~= buf_bytes(*w));
        Ok(())
    }
}

impl SubgroupObject {
    /// Reads an object: the id delta, the payload length, and the status when the payload
    /// is empty.
    pub fn decode(r: &mut bytes::BytesMut) -> (res: Result<SubgroupObject, DecodeError>)
        ensures
            match spec_decode_subgroup_object(buf_bytes(*old(r))) {
                Ok((v, n)) => res == Ok::<SubgroupObject, DecodeError>(v) && buf_bytes(*final(r))
                    == buf_bytes(*old(r)).skip(n) && 0 < n <= buf_bytes(*old(r)).len(),
                Err(e) => res == Err::<SubgroupObject, DecodeError>(e),
            },
    {
        let ghost s = buf_bytes(*r);
        let object_id_delta = decode_u64(r)?;
        let ghost s1 = buf_bytes(*r);
        let payload_length = decode_usize(r)?;
        let ghost s2 = buf_bytes(*r);
        proof {
            lemma_skip_skip(s, s.len() - s1.len(), s1.len() - s2.len());
        }
        let status = decode_obj_status(payload_length, r)?;
        proof {
            lemma_skip_skip(s, s.len() - s2.len(), s2.len() - buf_bytes(*r).len());
        }
        Ok(SubgroupObject { object_id_delta, payload_length, status })
    }

    /// Appends the object: the id delta, the payload length, and the status when the
    /// payload is empty (refused if absent then).
    pub fn encode(&self, w: &mut bytes::BytesMut) -> (res: Result<(), EncodeError>)
        ensures
            encoded(
                res,
                buf_bytes(*old(w)),
                buf_bytes(*final(w)),
                subgroup_object_valid(*self),
                subgroup_object_bytes(*self),
                subgroup_object_err(*self),
            ),
    {
        let ghost o = *self;
        let ghost be = EncodeError::BoundsExceeded;
        let ghost b0 = buf_bytes(*w);
        let ghost p1 = varint_bytes(o.object_id_delta);
        let ghost p2 = varint_bytes(o.payload_length as u64);
        let ghost p3 = obj_status_bytes(o.payload_length, o.status);
        let ghost v1 = o.object_id_delta < varint_bound();
        let ghost v2 = o.payload_length < varint_bound();
        let ghost v3 = o.payload_length == 0 ==> o.status is Some;
        let r1 = encode_u64(self.object_id_delta, w);
        let ghost b1 = buf_bytes(*w);
        if r1.is_err() {
            proof {
                lemma_encoded_fail(r1, b0, b1, v1, p1, be, v2 && v3, p2 + p3,
                    if v2 { EncodeError::MissingField } else { be });
                assert(p1 + (p2 + p3) =~= p1 + p2 + p3);
            }
            return r1;
        }
        let r2 = encode_usize(self.payload_length, w);
        let ghost b2 = buf_bytes(*w);
        proof {
            lemma_encoded_then(r1, b0, b1, v1, p1, be, r2, b2, v2, p2, be);
        }
        if r2.is_err() {
            proof {
                lemma_encoded_fail(r2, b0, b2, v1 && v2, p1 + p2, be, v3, p3, EncodeError::MissingField);
            }
            return r2;
        }
        let r3 = encode_obj_status(self.payload_length, self.status, w);
        proof {
            lemma_encoded_then(r2, b0, b2, v1 && v2, p1 + p2, be, r3, buf_bytes(*w), v3, p3,
                EncodeError::MissingField);
        }
        r3
    }
}

/// An object of a subgroup stream with extension headers (its payload follows it).
#[derive(Clone, Debug, PartialEq, Eq)]
pub struct SubgroupObjectExt {
    pub object_id_delta: u64,
    pub extension_headers: KeyValuePairs,
    pub payload_length: usize,
    pub status: Option<ObjectStatus>,
}

/// An object with extension headers, as plain data.
pub struct SubgroupObjectExtView {
    pub object_id_delta: u64,
    pub extension_headers: Map<u64, (u64, ValueModel)>,
    pub payload_length: usize,
    pub status: Option<ObjectStatus>,
}

impl View for SubgroupObjectExt {
    type V = SubgroupObjectExtView;

    open spec fn view(&self) -> SubgroupObjectExtView {
        SubgroupObjectExtView {
            object_id_delta: self.object_id_delta,
            extension_headers: self.extension_headers@,
            payload_length: self.payload_length,
            status: self.status,
        }
    }
}

/// The wire form of an object with extension headers written in the order `vs`.
pub open spec fn subgroup_object_ext_bytes(o: SubgroupObjectExtView, vs: Seq<(u64, ValueModel)>) -> Seq<u8> {
    varint_bytes(o.object_id_delta) + kvps_bytes(vs) + varint_bytes(o.payload_length as u64)
        + obj_status_bytes(o.payload_length, o.status)
}

/// An object with extension headers can be encoded.
pub open spec fn subgroup_object_ext_valid(o: SubgroupObjectExtView, vs: Seq<(u64, ValueModel)>) -> bool {
    o.object_id_delta < varint_bound() && kvps_valid(vs) && o.payload_length < varint_bound() && (
    o.payload_length == 0 ==> o.status is Some)
}

/// Why an object with extension headers cannot be encoded, checking its parts in order.
pub open spec fn subgroup_object_ext_err(o: SubgroupObjectExtView, vs: Seq<(u64, ValueModel)>) -> EncodeError {
    if !(o.object_id_delta < varint_bound()) {
        EncodeError::BoundsExceeded
    } else if !kvps_valid(vs) {
        kvps_err(vs)
    } else if !(o.payload_length < varint_bound()) {
        EncodeError::BoundsExceeded
    } else {
        EncodeError::MissingField
    }
}

/// Decoding an object with extension headers from the front of `s`.
pub open spec fn spec_decode_subgroup_object_ext(s: Seq<u8>) -> Result<(SubgroupObjectExtView, int), DecodeError> {
    match spec_decode_varint(s) {
        Ok((d, n1)) => match spec_decode_kvps(s.skip(n1)) {
            Ok((m, n2)) => match spec_decode_usize(s.skip(n1 + n2)) {
                Ok((len, n3)) => match spec_decode_obj_status(len, s.skip(n1 + n2 + n3)) {
                    Ok((st, n4)) => Ok(
                        (
                            SubgroupObjectExtView {
                                object_id_delta: d,
                                extension_headers: m,
                                payload_length: len,
                                status: st,
                            },
                            n1 + n2 + n3 + n4,
                        ),
                    ),
                    Err(e) => Err(e),
                },
                Err(e) => Err(e),
            },
            Err(e) => Err(e),
        },
        Err(e) => Err(e),
    }
}

impl SubgroupObjectExt {
    /// Reads an object: the id delta, the extension headers, the payload length, and the
    /// status when the payload is empty.
    pub fn decode(r: &mut bytes::BytesMut) -> (res: Result<SubgroupObjectExt, DecodeError>)
        ensures
            match spec_decode_subgroup_object_ext(buf_bytes(*old(r))) {
                Ok((v, n)) => res is Ok && res->Ok_0@ == v && buf_bytes(*final(r)) == buf_bytes(
                    *old(r),
                ).skip(n) && 0 < n <= buf_bytes(*old(r)).len(),
                Err(e) => res == Err::<SubgroupObjectExt, DecodeError>(e),
            },
    {
        let ghost s = buf_bytes(*r);
        let object_id_delta = decode_u64(r)?;
        let ghost s1 = buf_bytes(*r);
        let extension_headers = KeyValuePairs::decode(r)?;
        let ghost s2 = buf_bytes(*r);
        proof {
            lemma_skip_skip(s, s.len() - s1.len(), s1.len() - s2.len());
        }
        let payload_length = decode_usize(r)?;
        let ghost s3 = buf_bytes(*r);
        proof {
            lemma_skip_skip(s, s.len() - s2.len(), s2.len() - s3.len());
        }
        let status = decode_obj_status(payload_length, r)?;
        proof {
            lemma_skip_skip(s, s.len() - s3.len(), s3.len() - buf_bytes(*r).len());
        }
        Ok(SubgroupObjectExt { object_id_delta, extension_headers, payload_length, status })
    }

    /// Appends the object: the id delta, the extension headers, the payload length, and
    /// the status when the payload is empty (refused if absent then).
    pub fn encode(&self, w: &mut bytes::BytesMut) -> (res: Result<(), EncodeError>)
        ensures
            exists|o: Seq<KeyValuePair>|
                kvps_order(self.extension_headers.0@, o) && encoded(
                    res,
                    buf_bytes(*old(w)),
                    buf_bytes(*final(w)),
                    subgroup_object_ext_valid(self@, kvps_seq_view(o)),
                    subgroup_object_ext_bytes(self@, kvps_seq_view(o)),
                    subgroup_object_ext_err(self@, kvps_seq_view(o)),
                ),
    {
        let ghost ob = self@;
        let ghost be = EncodeError::BoundsExceeded;
        let ghost b0 = buf_bytes(*w);
        let r1 = encode_u64(self.object_id_delta, w);
        let ghost b1 = buf_bytes(*w);
        let r2 = if r1.is_ok() { self.extension_headers.encode(w) } else { Ok(()) };
        let ghost b2 = buf_bytes(*w);
        let ghost o = if r1.is_ok() {
            choose|o: Seq<KeyValuePair>|
                kvps_order(self.extension_headers.0@, o) && encoded(
                    r2,
                    b1,
                    b2,
                    kvps_valid(kvps_seq_view(o)),
                    kvps_bytes(kvps_seq_view(o)),
                    kvps_err(kvps_seq_view(o)),
                )
        } else {
            choose|o: Seq<KeyValuePair>| kvps_order(self.extension_headers.0@, o)
        };
        proof {
            if r1.is_err() {
                crate::coding::kvp::lemma_kvps_has_order(self.extension_headers.0@);
            }
        }
        let ghost vs = kvps_seq_view(o);
        let ghost p1 = varint_bytes(ob.object_id_delta);
        let ghost p2 = kvps_bytes(vs);
        let ghost p3 = varint_bytes(ob.payload_length as u64);
        let ghost p4 = obj_status_bytes(ob.payload_length, ob.status);
        let ghost v1 = ob.object_id_delta < varint_bound();
        let ghost v2 = kvps_valid(vs);
        let ghost v3 = ob.payload_length < varint_bound();
        let ghost v4 = ob.payload_length == 0 ==> ob.status is Some;
        let ghost e3 = if v3 { EncodeError::MissingField } else { be };
        let ghost e2 = if v2 { e3 } else { kvps_err(vs) };
        if r1.is_err() {
            proof {
                lemma_encoded_fail(r1, b0, b1, v1, p1, be, v2 && v3 && v4, p2 + p3 + p4, e2);
                assert(p1 + (p2 + p3 + p4) =~= p1 + p2 + p3 + p4);
            }
            return r1;
        }
        proof {
            lemma_encoded_then(r1, b0, b1, v1, p1, be, r2, b2, v2, p2, kvps_err(vs));
        }
        if r2.is_err() {
            proof {
                lemma_encoded_fail(r2, b0, b2, v1 && v2, p1 + p2, if v1 { kvps_err(vs) } else { be },
                    v3 && v4, p3 + p4, e3);
                assert(p1 + p2 + (p3 + p4) =~= p1 + p2 + p3 + p4);
            }
            return r2;
        }
        let r3 = encode_usize(self.payload_length, w);
        let ghost b3 = buf_bytes(*w);
        proof {
            lemma_encoded_then(r2, b0, b2, v1 && v2, p1 + p2, if v1 { kvps_err(vs) } else { be }, r3,
                b3, v3, p3, be);
        }
        if r3.is_err() {
            proof {
                lemma_encoded_fail(r3, b0, b3, v1 && v2 && v3, p1 + p2 + p3,
                    if v1 && v2 { be } else if v1 { kvps_err(vs) } else { be }, v4, p4,
                    EncodeError::MissingField);
            }
            return r3;
        }
        let r4 = encode_obj_status(self.payload_length, self.status, w);
        proof {
            lemma_encoded_then(r3, b0, b3, v1 && v2 && v3, p1 + p2 + p3,
                if v1 && v2 { be } else if v1 { kvps_err(vs) } else { be }, r4, buf_bytes(*w), v4, p4,
                EncodeError::MissingField);
        }
        r4
    }
}

} // verus!

verus! {

/// A header's subgroup id is present exactly for the types that carry it.
pub open spec fn subgroup_header_consistent(h: SubgroupHeader) -> bool {
    spec_has_subgroup_id(h.header_type) <==> h.subgroup_id is Some
}

/// Decoding what `SubgroupHeader::encode` writes gives back the same header: the type
/// first, then the rest, for every header that can be encoded and whose subgroup id agrees
/// with its type.
pub proof fn lemma_subgroup_header_roundtrip(h: SubgroupHeader, rest: Seq<u8>)
    requires
        subgroup_header_valid(h),
        subgroup_header_consistent(h),
    ensures
        ({
            let s = subgroup_header_bytes(h) + rest;
            let n = varint_bytes(header_type_code(h.header_type)).len() as int;
            &&& super::header::spec_decode_header_type(s) == Ok::<(StreamHeaderType, int), DecodeError>(
                (h.header_type, n),
            )
            &&& spec_decode_subgroup_header(h.header_type, s.skip(n)) == Ok::<(SubgroupHeader, int), DecodeError>(
                (h, subgroup_header_bytes(h).len() - n),
            )
        }),
{
    let p1 = varint_bytes(header_type_code(h.header_type));
    let p2 = varint_bytes(h.track_alias);
    let p3 = varint_bytes(h.group_id);
    let p4 = sg_id_bytes(h);
    let p5 = seq![h.publisher_priority];
    let s = subgroup_header_bytes(h) + rest;
    assert(s =~= p1 + (p2 + (p3 + (p4 + (p5 + rest)))));
    super::header::lemma_header_type_roundtrip(h.header_type, p2 + (p3 + (p4 + (p5 + rest))));
    let n = p1.len() as int;
    let t = s.skip(n);
    assert(t =~= p2 + (p3 + (p4 + (p5 + rest))));
    crate::coding::varint::lemma_varint_roundtrip(h.track_alias, p3 + (p4 + (p5 + rest)));
    let n1 = p2.len() as int;
    assert(t.skip(n1) =~= p3 + (p4 + (p5 + rest)));
    crate::coding::varint::lemma_varint_roundtrip(h.group_id, p4 + (p5 + rest));
    let n2 = p3.len() as int;
    assert(t.skip(n1 + n2) =~= p4 + (p5 + rest));
    if spec_has_subgroup_id(h.header_type) {
        crate::coding::varint::lemma_varint_roundtrip(h.subgroup_id->0, p5 + rest);
    } else {
        assert(p4 + (p5 + rest) =~= p5 + rest);
    }
    let n3 = p4.len() as int;
    assert(t.skip(n1 + n2 + n3) =~= p5 + rest);
}

/// The status part decodes from its own wire form when an empty payload comes with a
/// status and a non-empty one comes without.
pub proof fn lemma_obj_status_roundtrip(len: usize, status: Option<ObjectStatus>, rest: Seq<u8>)
    requires
        len == 0 <==> status is Some,
    ensures
        spec_decode_obj_status(len, obj_status_bytes(len, status) + rest) == Ok::<(Option<ObjectStatus>, int), DecodeError>(
            (status, obj_status_bytes(len, status).len() as int),
        ),
{
    if len == 0 {
        super::object_status::lemma_object_status_roundtrip(status->0, rest);
    } else {
        assert(obj_status_bytes(len, status) + rest =~= rest);
    }
}

/// Decoding what `SubgroupObject::encode` writes gives back the same object, for every
/// object that can be encoded and carries a status exactly when its payload is empty.
pub proof fn lemma_subgroup_object_roundtrip(o: SubgroupObject, rest: Seq<u8>)
    requires
        subgroup_object_valid(o),
        o.payload_length == 0 <==> o.status is Some,
    ensures
        spec_decode_subgroup_object(subgroup_object_bytes(o) + rest) == Ok::<(SubgroupObject, int), DecodeError>(
            (o, subgroup_object_bytes(o).len() as int),
        ),
{
    let p1 = varint_bytes(o.object_id_delta);
    let p2 = varint_bytes(o.payload_length as u64);
    let p3 = obj_status_bytes(o.payload_length, o.status);
    let s = subgroup_object_bytes(o) + rest;
    assert(s =~= p1 + (p2 + (p3 + rest)));
    crate::coding::varint::lemma_varint_roundtrip(o.object_id_delta, p2 + (p3 + rest));
    let n1 = p1.len() as int;
    assert(s.skip(n1) =~= p2 + (p3 + rest));
    crate::coding::varint::lemma_varint_roundtrip(o.payload_length as u64, p3 + rest);
    let n2 = p2.len() as int;
    assert(s.skip(n1 + n2) =~= p3 + rest);
    lemma_obj_status_roundtrip(o.payload_length, o.status, rest);
}

/// Decoding what `SubgroupObjectExt::encode` writes gives back the same object, for every
/// object that can be encoded, carries a status exactly when its payload is empty, and
/// whose extension headers decoding accepts.
pub proof fn lemma_subgroup_object_ext_roundtrip(o: SubgroupObjectExt, ord: Seq<KeyValuePair>, rest: Seq<u8>)
    requires
        subgroup_object_ext_valid(o@, kvps_seq_view(ord)),
        o.payload_length == 0 <==> o.status is Some,
        crate::coding::kvp::kvps_wire_ok(o.extension_headers.0@, ord),
    ensures
        spec_decode_subgroup_object_ext(subgroup_object_ext_bytes(o@, kvps_seq_view(ord)) + rest)
            == Ok::<(SubgroupObjectExtView, int), DecodeError>(
            (o@, subgroup_object_ext_bytes(o@, kvps_seq_view(ord)).len() as int),
        ),
{
    let vs = kvps_seq_view(ord);
    let p1 = varint_bytes(o.object_id_delta);
    let p2 = kvps_bytes(vs);
    let p3 = varint_bytes(o.payload_length as u64);
    let p4 = obj_status_bytes(o.payload_length, o.status);
    let s = subgroup_object_ext_bytes(o@, vs) + rest;
    assert(s =~= p1 + (p2 + (p3 + (p4 + rest))));
    crate::coding::varint::lemma_varint_roundtrip(o.object_id_delta, p2 + (p3 + (p4 + rest)));
    let n1 = p1.len() as int;
    assert(s.skip(n1) =~= p2 + (p3 + (p4 + rest)));
    crate::coding::kvp::lemma_kvps_roundtrip(o.extension_headers, ord, p3 + (p4 + rest));
    let n2 = p2.len() as int;
    assert(s.skip(n1 + n2) =~= p3 + (p4 + rest));
    crate::coding::varint::lemma_varint_roundtrip(o.payload_length as u64, p4 + rest);
    let n3 = p3.len() as int;
    assert(s.skip(n1 + n2 + n3) =~= p4 + rest);
    lemma_obj_status_roundtrip(o.payload_length, o.status, rest);
}

} // verus!
