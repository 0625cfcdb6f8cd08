use vstd::prelude::*;

use crate::coding::buf::{buf_bytes, buf_from_slice, encoded};
use crate::coding::error::{DecodeError, EncodeError};
use crate::coding::integer::{decode_u64, encode_u64};
use crate::coding::varint::{lemma_varint_roundtrip, spec_decode_varint, varint_bytes};

verus! {

broadcast use crate::coding::varint::lemma_decode_varint_len;

/// Whether an endpoint publishes, subscribes, or both.
#[derive(Clone, Copy, Debug, PartialEq, Eq, Structural)]
pub enum Role {
    Publisher,
    Subscriber,
    Both,
}

/// The number that stands for a role on the wire.
pub open spec fn role_code(r: Role) -> u64 {
    match r {
        Role::Publisher => 1,
        Role::Subscriber => 2,
        Role::Both => 3,
    }
}

/// The role a number stands for, if any.
pub open spec fn role_from_code(v: u64) -> Option<Role> {
    if v == 1 {
        Some(Role::Publisher)
    } else if v == 2 {
        Some(Role::Subscriber)
    } else if v == 3 {
        Some(Role::Both)
    } else {
        None
    }
}

/// Decoding a role from the front of `s`: a number, which must stand for a role.
pub open spec fn spec_decode_role(s: Seq<u8>) -> Result<(Role, int), DecodeError> {
    match spec_decode_varint(s) {
        Ok((v, n)) => match role_from_code(v) {
            Some(role) => Ok((role, n)),
            None => Err(DecodeError::InvalidRole(v)),
        },
        Err(e) => Err(e),
    }
}

/// A role decodes from its own wire form, whatever follows.
pub proof fn lemma_role_roundtrip(r: Role, rest: Seq<u8>)
    ensures
        spec_decode_role(varint_bytes(role_code(r)) + rest) == Ok::<(Role, int), DecodeError>(
            (r, varint_bytes(role_code(r)).len() as int),
        ),
{
    lemma_varint_roundtrip(role_code(r), rest);
}

impl Role {
    /// The number that stands for the role.
    pub fn code(&self) -> (c: u64)
        ensures
            c == role_code(*self),
    {
        match self {
            Role::Publisher => 1,
            Role::Subscriber => 2,
            Role::Both => 3,
        }
    }

    /// The role a number stands for, or `InvalidRole`.
    pub fn from_code(v: u64) -> (r: Result<Role, DecodeError>)
        ensures
            r == match role_from_code(v) {
                Some(role) => Ok::<Role, DecodeError>(role),
                None => Err(DecodeError::InvalidRole(v)),
            },
    {
        if v == 1 {
            Ok(Role::Publisher)
        } else if v == 2 {
            Ok(Role::Subscriber)
        } else if v == 3 {
            Ok(Role::Both)
        } else {
            Err(DecodeError::InvalidRole(v))
        }
    }

    /// Appends the role's number.
    pub fn encode(&self, w: &mut bytes::BytesMut) -> (res: Result<(), EncodeError>)
        ensures
            encoded(res, buf_bytes(*old(w)), buf_bytes(*final(w)), true, varint_bytes(role_code(*self)), EncodeError::BoundsExceeded),
    {
        encode_u64(self.code(), w)
    }

    /// Reads a number, which must stand for a role.
    pub fn decode(r: &mut bytes::BytesMut) -> (res: Result<Role, DecodeError>)
        ensures
            match spec_decode_role(buf_bytes(*old(r))) {
                Ok((role, n)) => res == Ok::<Role, DecodeError>(role) && buf_bytes(*final(r)) == buf_bytes(*old(r)).skip(n),
                Err(e) => res == Err::<Role, DecodeError>(e),
            },
    {
        let v = decode_u64(r)?;
        Role::from_code(v)
    }

    /// Reads a role from the front of the bytes of a parameter; what follows it is ignored.
    pub fn decode_from(value: &[u8]) -> (res: Result<Role, DecodeError>)
        ensures
            res == match spec_decode_role(value@) {
                Ok((role, n)) => Ok::<Role, DecodeError>(role),
                Err(e) => Err(e),
            },
    {
        let mut buf = buf_from_slice(value);
        Role::decode(&mut buf)
    }
}

} // verus!
