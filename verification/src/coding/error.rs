use vstd::prelude::*;

verus! {

/// Errors that can occur while decoding a value from a byte buffer.
#[derive(Clone, Debug, PartialEq, Eq)]
pub enum DecodeError {
    /// More bytes are needed; the payload is how many.
    More(usize),
    /// A value does not fit in the target integer type.
    BoundsExceeded,
    InvalidString,
    InvalidMessage(u64),
    InvalidDatagramType,
    InvalidGroupOrder,
    InvalidFetchType,
    InvalidObjectStatus,
    InvalidHeaderType,
    KeyValuePairLengthExceeded(),
    DuplicateParameter(u64),
    MissingParameter,
    InvalidParameter,
    /// A number that stands for no role.
    InvalidRole(u64),
    FieldBoundsExceeded(&'static str),
}

/// Errors that can occur while encoding a value into a byte buffer.
#[derive(Clone, Debug, PartialEq, Eq)]
pub enum EncodeError {
    /// The buffer has no room for this many more bytes.
    More(usize),
    /// A value is too large for the variable-length integer encoding.
    BoundsExceeded,
    InvalidValue,
    MissingField,
    FieldBoundsExceeded(&'static str),
}

} // verus!
