use vstd::prelude::*;

use crate::coding::buf::buf_bytes;
use crate::coding::DecodeError;
use crate::data::header::spec_has_extension_headers;
use crate::data::subgroup::{spec_decode_subgroup_object, spec_decode_subgroup_object_ext};
use crate::data::{ObjectStatus, StreamHeaderType, SubgroupObject, SubgroupObjectExt};

use super::error::SessionError;

verus! {

/// The start of an object read from a subgroup stream: its id, the length of the
/// payload that follows, and its status when the payload is empty.
#[derive(Clone, Copy, Debug, PartialEq, Eq, Structural)]
pub struct ObjectStart {
    pub object_id: u64,
    pub payload_length: usize,
    pub status: Option<ObjectStatus>,
}

/// Follows the objects of a received subgroup stream: their ids, counted from the
/// deltas, and how much of the current payload is still to come.
pub struct SubgroupReceiver {
    header_type: StreamHeaderType,
    current_object_id: u64,
    remaining: usize,
    object_count: u64,
}

impl SubgroupReceiver {
    /// The type of the stream's header.
    pub closed spec fn spec_header_type(&self) -> StreamHeaderType {
        self.header_type
    }

    /// The id of the last object started (0 before the first).
    pub closed spec fn spec_object_id(&self) -> u64 {
        self.current_object_id
    }

    /// The bytes of the current payload still to come.
    pub closed spec fn spec_remaining(&self) -> usize {
        self.remaining
    }

    /// The number of objects read in full.
    pub closed spec fn spec_object_count(&self) -> u64 {
        self.object_count
    }

    /// A receiver for a subgroup stream of the given type, before its first object.
    pub fn new(header_type: StreamHeaderType) -> (r: Self)
        ensures
            r.spec_header_type() == header_type,
            r.spec_object_id() == 0,
            r.spec_remaining() == 0,
            r.spec_object_count() == 0,
    {
        SubgroupReceiver { header_type, current_object_id: 0, remaining: 0, object_count: 0 }
    }

    /// The bytes of the current payload still to come.
    pub fn remaining(&self) -> (n: usize)
        ensures
            n == self.spec_remaining(),
    {
        self.remaining
    }

    /// The number of objects read in full.
    pub fn object_count(&self) -> (n: u64)
        ensures
            n == self.spec_object_count(),
    {
        self.object_count
    }

    /// Reads the header of the next object, with or without extension headers as the
    /// stream type says; its id is the last one plus the delta (wrapping). An object with
    /// an empty payload is complete at once.
    pub fn next_object(&mut self, r: &mut bytes::BytesMut) -> (res: Result<ObjectStart, DecodeError>)
        requires
            old(self).spec_remaining() == 0,
        ensures
            final(self).spec_header_type() == old(self).spec_header_type(),
            res is Err ==> final(self).spec_object_id() == old(self).spec_object_id()
                && final(self).spec_remaining() == 0 && final(self).spec_object_count() == old(self).spec_object_count(),
            spec_has_extension_headers(old(self).spec_header_type()) ==> match spec_decode_subgroup_object_ext(buf_bytes(*old(r))) {
                Ok((o, n)) => res == Ok::<ObjectStart, DecodeError>(ObjectStart {
                    object_id: old(self).spec_object_id().wrapping_add(o.object_id_delta),
                    payload_length: o.payload_length,
                    status: o.status,
                }) && buf_bytes(*final(r)) == buf_bytes(*old(r)).skip(n),
                Err(e) => res == Err::<ObjectStart, DecodeError>(e),
            },
            !spec_has_extension_headers(old(self).spec_header_type()) ==> match spec_decode_subgroup_object(buf_bytes(*old(r))) {
                Ok((o, n)) => res == Ok::<ObjectStart, DecodeError>(ObjectStart {
                    object_id: old(self).spec_object_id().wrapping_add(o.object_id_delta),
                    payload_length: o.payload_length,
                    status: o.status,
                }) && buf_bytes(*final(r)) == buf_bytes(*old(r)).skip(n),
                Err(e) => res == Err::<ObjectStart, DecodeError>(e),
            },
            res matches Ok(s) ==> final(self).spec_object_id() == s.object_id && final(self).spec_remaining()
                == s.payload_length && final(self).spec_object_count() == if s.payload_length == 0 {
                old(self).spec_object_count().wrapping_add(1)
            } else {
                old(self).spec_object_count()
            },
    {
        let (delta, payload_length, status) = if self.header_type.has_extension_headers() {
            let object = SubgroupObjectExt::decode(r)?;
            (object.object_id_delta, object.payload_length, object.status)
        } else {
            let object = SubgroupObject::decode(r)?;
            (object.object_id_delta, object.payload_length, object.status)
        };
        self.current_object_id = self.current_object_id.wrapping_add(delta);
        self.remaining = payload_length;
        if payload_length == 0 {
            self.object_count = self.object_count.wrapping_add(1);
        }
        Ok(ObjectStart { object_id: self.current_object_id, payload_length, status })
    }

    /// A chunk of `len` bytes of the current payload was read; the object is complete
    /// when nothing remains.
    pub fn on_chunk(&mut self, len: usize)
        requires
            len <= old(self).spec_remaining(),
        ensures
            final(self).spec_header_type() == old(self).spec_header_type(),
            final(self).spec_object_id() == old(self).spec_object_id(),
            final(self).spec_remaining() == old(self).spec_remaining() - len,
            final(self).spec_object_count() == if len > 0 && len == old(self).spec_remaining() {
                old(self).spec_object_count().wrapping_add(1)
            } else {
                old(self).spec_object_count()
            },
    {
        if len > 0 {
            self.remaining = self.remaining - len;
            if self.remaining == 0 {
                self.object_count = self.object_count.wrapping_add(1);
            }
        }
    }

    /// The stream ended: refused if part of a payload is still missing.
    pub fn on_end(&self) -> (res: Result<(), SessionError>)
        ensures
            res is Ok <==> self.spec_remaining() == 0,
            res matches Err(e) ==> e == SessionError::WrongSize,
    {
        if self.remaining > 0 {
            Err(SessionError::WrongSize)
        } else {
            Ok(())
        }
    }
}

} // verus!
