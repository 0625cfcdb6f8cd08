use vstd::prelude::*;
use vstd::string::StringSliceAdditionalSpecFns;

use super::buf::{buf_bytes, encoded, lemma_skip_concat, lemma_skip_skip};
use super::error::{DecodeError, EncodeError};
use super::integer::{decode_usize, encode_usize, spec_decode_usize};
use super::tuple::{
    decode_fields, encode_fields, fields_bytes, fields_encodable, fields_view, join_utf8_path,
    lemma_fields_roundtrip, lemma_tuple_fields_fit, path_string, spec_decode_fields, split_path,
    split_utf8_path, TupleField,
};
use super::varint::{lemma_varint_roundtrip, varint_bytes};

verus! {

broadcast use crate::coding::varint::lemma_decode_varint_len;

/// The most fields a track namespace may have.
pub const MAX_NAMESPACE_FIELDS: usize = 32;

/// The namespace of a track: an ordered list of byte-string fields.
#[derive(Clone, Debug, PartialEq, Eq, Hash)]
pub struct TrackNamespace {
    pub fields: Vec<TupleField>,
}

impl View for TrackNamespace {
    type V = Seq<Seq<u8>>;

    open spec fn view(&self) -> Seq<Seq<u8>> {
        fields_view(self.fields@)
    }
}

/// The wire form of a namespace: the number of fields, then each field.
pub open spec fn namespace_bytes(fs: Seq<Seq<u8>>) -> Seq<u8> {
    varint_bytes(fs.len() as u64) + fields_bytes(fs)
}

/// A namespace can be encoded: at most 32 fields, each shorter than 2^62 bytes.
pub open spec fn namespace_encodable(fs: Seq<Seq<u8>>) -> bool {
    fs.len() <= MAX_NAMESPACE_FIELDS && fields_encodable(fs)
}

/// Why a namespace cannot be encoded.
pub open spec fn namespace_encode_error(fs: Seq<Seq<u8>>) -> EncodeError {
    if fs.len() > MAX_NAMESPACE_FIELDS {
        EncodeError::FieldBoundsExceeded("TrackNamespace tuples")
    } else {
        EncodeError::BoundsExceeded
    }
}

/// Decoding a namespace from the front of `s`; more than 32 fields are refused.
pub open spec fn spec_decode_namespace(s: Seq<u8>) -> Result<(Seq<Seq<u8>>, int), DecodeError> {
    match spec_decode_usize(s) {
        Ok((count, n)) => if count > MAX_NAMESPACE_FIELDS {
            Err(DecodeError::FieldBoundsExceeded("TrackNamespace tuples"))
        } else {
            match spec_decode_fields(s.skip(n), count as nat) {
                Ok((fs, m)) => Ok((fs, n + m)),
                Err(e) => Err(e),
            }
        },
        Err(e) => Err(e),
    }
}

/// `a` is a prefix of `b`, field by field.
pub open spec fn is_prefix(a: Seq<Seq<u8>>, b: Seq<Seq<u8>>) -> bool {
    a.len() <= b.len() && a == b.take(a.len() as int)
}

/// A copy of a field with the same bytes.
pub fn copy_field(f: &TupleField) -> (c: TupleField)
    ensures
        c@ == f@,
{
    let mut value: Vec<u8> = Vec::new();
    let mut i: usize = 0;
    while i < f.value.len()
        invariant
            i <= f.value@.len(),
            value@ == f.value@.take(i as int),
        decreases f.value.len() - i,
    {
        value.push(f.value[i]);
        i += 1;
        assert(value@ =~= f.value@.take(i as int));
    }
    assert(f.value@.take(i as int) =~= f.value@);
    TupleField { value }
}

impl TrackNamespace {
    /// The most fields a track namespace may have.
    pub const MAX_FIELDS: usize = 32;

    /// An empty namespace.
    pub fn new() -> (t: Self)
        ensures
            t@ == Seq::<Seq<u8>>::empty(),
    {
        let t = TrackNamespace { fields: Vec::new() };
        assert(t@ =~= Seq::<Seq<u8>>::empty());
        t
    }

    /// Appends a field.
    pub fn add(&mut self, field: TupleField)
        ensures
            final(self)@ == old(self)@.push(field@),
    {
        self.fields.push(field);
        assert(self@ =~= old(self)@.push(field@));
    }

    /// Removes every field.
    pub fn clear(&mut self)
        ensures
            final(self)@ == Seq::<Seq<u8>>::empty(),
    {
        self.fields.clear();
        assert(self@ =~= Seq::<Seq<u8>>::empty());
    }

    /// The namespace of the `/`-separated parts of `path`.
    pub fn from_utf8_path(path: &str) -> (t: Self)
        ensures
            t@ == split_path(path.spec_bytes()),
    {
        TrackNamespace { fields: split_utf8_path(path) }
    }

    /// The text `/f1/f2/...` of the fields.
    pub fn to_utf8_path(&self) -> (path: String)
        ensures
            path@ == path_string(self@),
    {
        join_utf8_path(&self.fields)
    }

    /// Whether every field of `self` equals the field at the same place in `other`.
    pub fn is_prefix_of(&self, other: &TrackNamespace) -> (r: bool)
        ensures
            r == is_prefix(self@, other@),
    {
        if self.fields.len() > other.fields.len() {
            return false;
        }
        let mut i: usize = 0;
        while i < self.fields.len()
            invariant
                i <= self.fields.len() <= other.fields.len(),
                self@.take(i as int) == other@.take(i as int),
            decreases self.fields.len() - i,
        {
            if !(self.fields[i].value == other.fields[i].value) {
                assert(self@[i as int] != other@[i as int]);
                assert(self@[i as int] == self@.take(self@.len() as int)[i as int]);
                return false;
            }
            assert(self@[i as int] == other@[i as int]);
            assert(self@.take(i + 1) =~= other@.take(i + 1));
            i += 1;
        }
        assert(self@.take(i as int) =~= self@);
        true
    }

    /// Whether the two namespaces have the same fields.
    pub fn equals(&self, other: &TrackNamespace) -> (r: bool)
        ensures
            r == (self@ == other@),
    {
        if self.fields.len() != other.fields.len() {
            return false;
        }
        let r = self.is_prefix_of(other);
        assert(other@.take(other@.len() as int) =~= other@);
        r
    }

    /// A namespace with the same fields.
    pub fn duplicate(&self) -> (c: TrackNamespace)
        ensures
            c@ == self@,
    {
        let mut c = TrackNamespace::new();
        let mut k: usize = 0;
        while k < self.fields.len()
            invariant
                k <= self@.len(),
                c@ == self@.take(k as int),
            decreases self.fields.len() - k,
        {
            c.add(copy_field(&self.fields[k]));
            assert(c@ =~= self@.take(k + 1));
            k += 1;
        }
        assert(self@.take(k as int) =~= self@);
        c
    }

    /// Every non-empty prefix of this namespace, longest first.
    pub fn get_prefixes(&self) -> (prefixes: Vec<TrackNamespace>)
        ensures
            prefixes@.len() == self@.len(),
            forall|j: int|
                0 <= j < prefixes@.len() ==> #[trigger] prefixes@[j]@ == self@.take(
                    self@.len() - j,
                ),
    {
        let mut prefixes: Vec<TrackNamespace> = Vec::new();
        let n = self.fields.len();
        let mut i: usize = n;
        while i > 0
            invariant
                i <= n == self@.len(),
                prefixes@.len() == n - i,
                forall|j: int|
                    0 <= j < prefixes@.len() ==> #[trigger] prefixes@[j]@ == self@.take(n - j),
            decreases i,
        {
            let mut prefix = TrackNamespace::new();
            let mut k: usize = 0;
            while k < i
                invariant
                    k <= i <= n == self@.len(),
                    prefix@ == self@.take(k as int),
                decreases i - k,
            {
                prefix.add(copy_field(&self.fields[k]));
                assert(prefix@ =~= self@.take(k + 1));
                k += 1;
            }
            prefixes.push(prefix);
            i -= 1;
        }
        prefixes
    }

    /// Appends the wire form: the number of fields, then each field; refuses more than
    /// 32 fields.
    pub fn encode(&self, w: &mut bytes::BytesMut) -> (res: Result<(), EncodeError>)
        ensures
            encoded(
                res,
                buf_bytes(*old(w)),
                buf_bytes(*final(w)),
                namespace_encodable(self@),
                namespace_bytes(self@),
                namespace_encode_error(self@),
            ),
            self@.len() > MAX_NAMESPACE_FIELDS ==> res == Err::<(), EncodeError>(
                EncodeError::FieldBoundsExceeded("TrackNamespace tuples"),
            ) && buf_bytes(*final(w)) == buf_bytes(*old(w)),
    {
        if self.fields.len() > Self::MAX_FIELDS {
            return Err(EncodeError::FieldBoundsExceeded("TrackNamespace tuples"));
        }
        let ghost start = buf_bytes(*w);
        encode_usize(self.fields.len(), w)?;
        let r = encode_fields(&self.fields, w);
        proof {
            lemma_varint_roundtrip(self@.len() as u64, Seq::empty());
        }
        match r {
            Ok(()) => {
                assert(buf_bytes(*w) =~= start + namespace_bytes(self@));
                Ok(())
            },
            Err(e) => Err(e),
        }
    }

    /// Reads a namespace; more than 32 fields are refused.
    pub fn decode(r: &mut bytes::BytesMut) -> (res: Result<TrackNamespace, DecodeError>)
        ensures
            match spec_decode_namespace(buf_bytes(*old(r))) {
                Ok((fs, n)) => res is Ok && res->Ok_0@ == fs && buf_bytes(*final(r)) == buf_bytes(
                    *old(r),
                ).skip(n) && 0 < n <= buf_bytes(*old(r)).len(),
                Err(e) => res == Err::<TrackNamespace, DecodeError>(e),
            },
    {
        let ghost s = buf_bytes(*r);
        let count = decode_usize(r)?;
        if count > MAX_NAMESPACE_FIELDS {
            return Err(DecodeError::FieldBoundsExceeded("TrackNamespace tuples"));
        }
        let ghost n = spec_decode_usize(s)->Ok_0.1;
        let fields = decode_fields(r, count)?;
        proof {
            let m = spec_decode_fields(s.skip(n), count as nat)->Ok_0.1;
            lemma_skip_skip(s, n, m);
        }
        Ok(TrackNamespace { fields })
    }
}

/// An encodable namespace decodes from its own wire form, whatever follows.
pub proof fn lemma_namespace_roundtrip(t: TrackNamespace, rest: Seq<u8>)
    requires
        namespace_encodable(t@),
    ensures
        spec_decode_namespace(namespace_bytes(t@) + rest) == Ok::<
            (Seq<Seq<u8>>, int),
            DecodeError,
        >((t@, namespace_bytes(t@).len() as int)),
{
    lemma_tuple_fields_fit(t.fields);
    lemma_varint_roundtrip(t@.len() as u64, fields_bytes(t@) + rest);
    lemma_skip_concat(varint_bytes(t@.len() as u64), fields_bytes(t@), rest);
    lemma_fields_roundtrip(t@, rest);
}

} // verus!
