use vstd::prelude::*;
use vstd::string::StringSliceAdditionalSpecFns;
use vstd::utf8::encode_utf8;

use super::buf::{buf_bytes, buf_split_to, buf_to_vec, decode_remaining, encoded};
use super::error::{DecodeError, EncodeError};
use super::integer::{decode_usize, spec_decode_usize};
use super::string::string_from_utf8;
use super::string_field::{encode_string, spec_decode_string, string_bytes, lemma_string_roundtrip};

verus! {

broadcast use crate::coding::varint::lemma_decode_varint_len;

/// The longest reason phrase, in bytes.
pub const MAX_REASON_LEN: usize = 1024;

/// A short human-readable reason sent with an error or a termination.
#[derive(Clone, Debug, PartialEq, Eq)]
pub struct ReasonPhrase(pub String);

impl View for ReasonPhrase {
    type V = Seq<char>;

    open spec fn view(&self) -> Seq<char> {
        self.0@
    }
}

/// A phrase can be encoded when its UTF-8 form is at most `MAX_REASON_LEN` bytes.
pub open spec fn reason_encodable(s: Seq<char>) -> bool {
    encode_utf8(s).len() <= MAX_REASON_LEN
}

/// The error for a phrase that is too long.
pub open spec fn reason_too_long() -> EncodeError {
    EncodeError::FieldBoundsExceeded("Reason Phrase")
}

/// Decoding a reason phrase from the front of `s`: a text whose announced length may not
/// exceed `MAX_REASON_LEN`.
pub open spec fn spec_decode_reason(s: Seq<u8>) -> Result<(Seq<char>, int), DecodeError> {
    match spec_decode_usize(s) {
        Ok((len, n)) => if len > MAX_REASON_LEN {
            Err(DecodeError::FieldBoundsExceeded("Reason Phrase"))
        } else {
            spec_decode_string(s)
        },
        Err(e) => Err(e),
    }
}

/// A phrase of at most `MAX_REASON_LEN` bytes decodes from its own wire form.
pub proof fn lemma_reason_roundtrip(s: Seq<char>, rest: Seq<u8>)
    requires
        reason_encodable(s),
    ensures
        spec_decode_reason(string_bytes(s) + rest) == Ok::<(Seq<char>, int), DecodeError>(
            (s, string_bytes(s).len() as int),
        ),
{
    lemma_string_roundtrip(s, rest);
    super::varint::lemma_varint_roundtrip(
        encode_utf8(s).len() as u64,
        encode_utf8(s) + rest,
    );
    assert(string_bytes(s) + rest =~= super::varint::varint_bytes(encode_utf8(s).len() as u64) + (
    encode_utf8(s) + rest));
}

impl ReasonPhrase {
    /// Appends the phrase as a length-prefixed text; one longer than `MAX_REASON_LEN`
    /// bytes is refused.
    pub fn encode(&self, w: &mut bytes::BytesMut) -> (res: Result<(), EncodeError>)
        ensures
            encoded(
                res,
                buf_bytes(*old(w)),
                buf_bytes(*final(w)),
                reason_encodable(self@),
                string_bytes(self@),
                reason_too_long(),
            ),
    {
        let text = self.0.as_str();
        assert(text@ == self@);
        if text.as_bytes().len() > MAX_REASON_LEN {
            return Err(EncodeError::FieldBoundsExceeded("Reason Phrase"));
        }
        assert(text.spec_bytes() == encode_utf8(self@));
        encode_string(text, w)
    }

    /// Reads a length-prefixed phrase; an announced length beyond `MAX_REASON_LEN` is
    /// refused before any byte of it is read.
    pub fn decode(r: &mut bytes::BytesMut) -> (res: Result<ReasonPhrase, DecodeError>)
        ensures
            match spec_decode_reason(buf_bytes(*old(r))) {
                Ok((v, n)) => res is Ok && res->Ok_0@ == v && buf_bytes(*final(r)) == buf_bytes(
                    *old(r),
                ).skip(n) && 0 < n <= buf_bytes(*old(r)).len(),
                Err(e) => res == Err::<ReasonPhrase, DecodeError>(e),
            },
    {
        let ghost s = buf_bytes(*r);
        let len = decode_usize(r)?;
        if len > MAX_REASON_LEN {
            return Err(DecodeError::FieldBoundsExceeded("Reason Phrase"));
        }
        decode_remaining(r, len)?;
        let front = buf_split_to(r, len);
        let v = buf_to_vec(&front);
        proof {
            let n = s.len() - buf_bytes(front).len() - buf_bytes(*r).len();
            assert(v@ =~= s.subrange(n, n + len));
            assert(buf_bytes(*r) =~= s.skip(n + len));
        }
        match string_from_utf8(v) {
            Some(t) => Ok(ReasonPhrase(t)),
            None => Err(DecodeError::InvalidString),
        }
    }
}

} // verus!
