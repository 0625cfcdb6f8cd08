pub mod buf;
pub mod bytes_field;
pub mod error;
pub mod integer;
pub mod kvp;
pub mod location;
pub mod params;
pub mod reason_phrase;
pub mod string;
pub mod string_field;
pub mod text;
pub mod track_namespace;
pub mod tuple;
pub mod varint;

pub use buf::{buf_bytes, encoded};
pub use error::{DecodeError, EncodeError};
pub use integer::{
    decode_u16, decode_u64, decode_u8, decode_usize, encode_u16, encode_u64, encode_u8,
    encode_usize,
};
pub use kvp::{KeyValuePair, KeyValuePairs, Value, ValueModel};
pub use location::Location;
pub use string_field::{decode_string, encode_string};
pub use track_namespace::{TrackNamespace, MAX_NAMESPACE_FIELDS};
pub use tuple::{Tuple, TupleField};
pub use reason_phrase::ReasonPhrase;
pub use params::Params;
