use vstd::prelude::*;
use vstd::string::StringSliceAdditionalSpecFns;
use vstd::utf8::encode_utf8;

use super::buf::{
    buf_bytes, buf_capacity_limit, buf_from_slice, buf_new, buf_to_vec, encoded,
    lemma_skip_concat, lemma_skip_skip,
};
use super::bytes_field::{
    bytes_field, decode_bytes, encode_bytes, lemma_bytes_roundtrip, spec_decode_bytes,
    spec_encode_bytes,
};
use super::error::{DecodeError, EncodeError};
use super::integer::{decode_u64, encode_usize};
use super::string::{lenient_utf8, string_from_utf8_lossy};
use super::text::{
    lemma_lenient_encode, lemma_split_bytes_nonempty, lemma_split_encode, lemma_split_text_nonempty, split_bytes,
    split_text,
};
use super::varint::{lemma_varint_roundtrip, spec_decode_varint, varint_bound, varint_bytes};

verus! {

broadcast use crate::coding::varint::lemma_decode_varint_len;

/// One field of a tuple: an opaque byte string.
#[derive(Clone, Debug, PartialEq, Eq, Hash)]
pub struct TupleField {
    pub value: Vec<u8>,
}

impl View for TupleField {
    type V = Seq<u8>;

    open spec fn view(&self) -> Seq<u8> {
        self.value@
    }
}

/// The byte strings of a list of fields.
pub open spec fn fields_view(fs: Seq<TupleField>) -> Seq<Seq<u8>> {
    fs.map_values(|f: TupleField| f@)
}

/// Every field is short enough to carry its length as a variable-length integer.
pub open spec fn fields_encodable(fs: Seq<Seq<u8>>) -> bool {
    forall|i: int| 0 <= i < fs.len() ==> #[trigger] fs[i].len() < varint_bound()
}

/// The wire forms of a list of fields, one after another.
pub open spec fn fields_bytes(fs: Seq<Seq<u8>>) -> Seq<u8>
    decreases fs.len(),
{
    if fs.len() == 0 {
        Seq::empty()
    } else {
        fields_bytes(fs.drop_last()) + bytes_field(fs.last())
    }
}

/// Decoding `k` length-prefixed fields, one after another, from the front of `s`.
pub open spec fn spec_decode_fields(s: Seq<u8>, k: nat) -> Result<(Seq<Seq<u8>>, int), DecodeError>
    decreases k,
{
    if k == 0 {
        Ok((Seq::empty(), 0))
    } else {
        match spec_decode_fields(s, (k - 1) as nat) {
            Ok((fs, m)) => if 0 <= m <= s.len() {
                match spec_decode_bytes(s.skip(m)) {
                    Ok((f, n)) => Ok((fs.push(f), m + n)),
                    Err(e) => Err(e),
                }
            } else {
                Err(DecodeError::More(0))
            },
            Err(e) => Err(e),
        }
    }
}

/// The parts of a path split at every `/` byte (an empty path is one empty part).
pub open spec fn split_path(s: Seq<u8>) -> Seq<Seq<u8>> {
    split_bytes(s, 0x2fu8)
}

/// The text `/f1/f2/...` of a list of fields, each field read leniently as UTF-8.
pub open spec fn path_string(fs: Seq<Seq<u8>>) -> Seq<char>
    decreases fs.len(),
{
    if fs.len() == 0 {
        Seq::empty()
    } else {
        path_string(fs.drop_last()) + seq!['/'] + lenient_utf8(fs.last())
    }
}

pub proof fn lemma_split_path_nonempty(s: Seq<u8>)
    ensures
        split_path(s).len() >= 1,
{
    lemma_split_bytes_nonempty(s, 0x2fu8);
}

/// The text `/p1/p2/...` of the parts of a path.
pub open spec fn join_path(parts: Seq<Seq<char>>) -> Seq<char>
    decreases parts.len(),
{
    if parts.len() == 0 {
        Seq::empty()
    } else {
        join_path(parts.drop_last()) + seq!['/'] + parts.last()
    }
}

/// Reading encoded parts leniently gives the parts back.
proof fn lemma_path_string_encoded(parts: Seq<Seq<char>>)
    ensures
        path_string(parts.map_values(|x: Seq<char>| encode_utf8(x))) == join_path(parts),
    decreases parts.len(),
{
    if parts.len() > 0 {
        let pe = parts.map_values(|x: Seq<char>| encode_utf8(x));
        lemma_path_string_encoded(parts.drop_last());
        assert(pe.drop_last() =~= parts.drop_last().map_values(|x: Seq<char>| encode_utf8(x)));
        lemma_lenient_encode(parts.last());
    }
}

/// Joining the parts of a text split at `/` gives the text behind a leading `/`.
proof fn lemma_join_split(p: Seq<char>)
    ensures
        join_path(split_text(p, '/')) == seq!['/'] + p,
    decreases p.len(),
{
    if p.len() == 0 {
        let one = seq![Seq::<char>::empty()];
        assert(one.drop_last() =~= Seq::<Seq<char>>::empty());
        assert(join_path(one.drop_last()) == Seq::<char>::empty());
        assert(one.last() == Seq::<char>::empty());
        assert(join_path(one) =~= seq!['/']);
        assert(seq!['/'] + p =~= seq!['/']);
    } else {
        let p0 = p.drop_last();
        let x = p.last();
        let t0 = split_text(p0, '/');
        lemma_join_split(p0);
        lemma_split_text_nonempty(p0, '/');
        if x == '/' {
            assert(split_text(p, '/') == t0.push(Seq::<char>::empty()));
            assert(t0.push(Seq::<char>::empty()).drop_last() =~= t0);
            assert(join_path(split_text(p, '/')) =~= seq!['/'] + p);
        } else {
            let t = t0.update(t0.len() - 1, t0.last().push(x));
            assert(split_text(p, '/') == t);
            assert(t.drop_last() =~= t0.drop_last());
            assert(t.last() == t0.last().push(x));
            assert(join_path(t0) == join_path(t0.drop_last()) + seq!['/'] + t0.last());
            assert(join_path(t) == join_path(t0.drop_last()) + seq!['/'] + t0.last().push(x));
            assert(p =~= p0.push(x));
            assert(join_path(t0.drop_last()) + seq!['/'] + t0.last().push(x) =~= (join_path(t0.drop_last())
                + seq!['/'] + t0.last()).push(x));
            assert((seq!['/'] + p0).push(x) =~= seq!['/'] + p);
            assert(join_path(t) =~= seq!['/'] + p);
        }
    }
}

/// The text of a path read back from the path's own bytes is the path behind a leading
/// `/`: `to_utf8_path` undoes `from_utf8_path`, but for that leading `/`.
pub proof fn lemma_path_roundtrip(p: Seq<char>)
    ensures
        path_string(split_path(encode_utf8(p))) == seq!['/'] + p,
{
    assert('/' as u32 == 0x2fu8 as u32);
    lemma_split_encode(p, '/', 0x2fu8);
    lemma_path_string_encoded(split_text(p, '/'));
    lemma_join_split(p);
}

pub proof fn lemma_fields_bytes_len(fs: Seq<Seq<u8>>)
    ensures
        fields_bytes(fs).len() >= fs.len(),
    decreases fs.len(),
{
    if fs.len() > 0 {
        lemma_fields_bytes_len(fs.drop_last());
        lemma_varint_roundtrip(0, Seq::empty());
        assert(varint_bytes(fs.last().len() as u64).len() >= 1);
    }
}

/// Decoding fields stops at the first failure, and that failure is the overall result.
pub proof fn lemma_decode_fields_err(s: Seq<u8>, i: nat, k: nat)
    requires
        i <= k,
        spec_decode_fields(s, i) is Err,
    ensures
        spec_decode_fields(s, k) == spec_decode_fields(s, i),
    decreases k - i,
{
    if i < k {
        lemma_decode_fields_err(s, i, (k - 1) as nat);
    }
}

/// A decoded field list never reaches past the input.
pub proof fn lemma_decode_fields_len(s: Seq<u8>, k: nat)
    ensures
        spec_decode_fields(s, k) matches Ok((fs, m)) ==> 0 <= m <= s.len() && fs.len() == k,
    decreases k,
{
    if k > 0 {
        lemma_decode_fields_len(s, (k - 1) as nat);
    }
}

/// Fields that are all encodable decode from their own wire forms, whatever follows.
pub proof fn lemma_fields_roundtrip(fs: Seq<Seq<u8>>, rest: Seq<u8>)
    requires
        fields_encodable(fs),
        forall|i: int| 0 <= i < fs.len() ==> #[trigger] fs[i].len() <= usize::MAX,
    ensures
        spec_decode_fields(fields_bytes(fs) + rest, fs.len()) == Ok::<
            (Seq<Seq<u8>>, int),
            DecodeError,
        >((fs, fields_bytes(fs).len() as int)),
    decreases fs.len(),
{
    if fs.len() > 0 {
        let init = fs.drop_last();
        let last = fs.last();
        assert(fs[fs.len() - 1] == last);
        lemma_fields_roundtrip(init, bytes_field(last) + rest);
        assert(fields_bytes(init) + (bytes_field(last) + rest) == fields_bytes(fs) + rest) by {
            lemma_skip_concat(fields_bytes(init), bytes_field(last), rest);
        }
        let s = fields_bytes(fs) + rest;
        lemma_skip_concat(fields_bytes(init), bytes_field(last), rest);
        lemma_bytes_roundtrip(last, rest);
        assert(init.push(last) =~= fs);
    } else {
        assert(fs =~= Seq::<Seq<u8>>::empty());
    }
}

/// Appends the wire forms of the fields, one after another.
pub fn encode_fields(fields: &Vec<TupleField>, w: &mut bytes::BytesMut) -> (res: Result<
    (),
    EncodeError,
>)
    ensures
        encoded(
            res,
            buf_bytes(*old(w)),
            buf_bytes(*final(w)),
            fields_encodable(fields_view(fields@)),
            fields_bytes(fields_view(fields@)),
            EncodeError::BoundsExceeded,
        ),
{
    let ghost start = buf_bytes(*w);
    let ghost all = fields_view(fields@);
    let mut i: usize = 0;
    while i < fields.len()
        invariant
            i <= fields.len(),
            all == fields_view(fields@),
            start == buf_bytes(*old(w)),
            fields_encodable(all.take(i as int)),
            buf_bytes(*w) == start + fields_bytes(all.take(i as int)),
        decreases fields.len() - i,
    {
        let ghost before = buf_bytes(*w);
        let r = encode_bytes(fields[i].value.as_slice(), w);
        assert(all.take(i + 1).drop_last() =~= all.take(i as int));
        assert(all[i as int] == fields[i as int]@);
        proof {
            lemma_fields_prefix_bytes(all, i as int);
        }
        match r {
            Ok(()) => {},
            Err(e) => {
                proof {
                    assert(fields[i as int].value@ == all[i as int]);
                    lemma_fields_prefix_bytes_le(all, i as int + 1);
                    assert(before.len() == start.len() + fields_bytes(all.take(i as int)).len());
                    assert(fields_bytes(all.take(i + 1)).len() == fields_bytes(all.take(i as int)).len() + bytes_field(all[i as int]).len());
                    if fields_encodable(all) {
                        assert(all[i as int].len() < varint_bound());
                        assert(before.len() + bytes_field(all[i as int]).len() > buf_capacity_limit());
                    }
                }
                return Err(e);
            },
        }
        i += 1;
    }
    assert(all.take(i as int) =~= all);
    Ok(())
}

/// Extending a prefix of a field list by one field extends its wire form by that field.
pub proof fn lemma_fields_prefix_bytes(all: Seq<Seq<u8>>, i: int)
    requires
        0 <= i < all.len(),
    ensures
        fields_bytes(all.take(i + 1)) == fields_bytes(all.take(i)) + bytes_field(all[i]),
        fields_encodable(all.take(i + 1)) <== fields_encodable(all.take(i)) && all[i].len()
            < varint_bound(),
{
    assert(all.take(i + 1).drop_last() =~= all.take(i));
    assert(all.take(i + 1).last() == all[i]);
    if fields_encodable(all.take(i)) && all[i].len() < varint_bound() {
        assert forall|j: int| 0 <= j < all.take(i + 1).len() implies #[trigger] all.take(
            i + 1,
        )[j].len() < varint_bound() by {
            if j < i {
                assert(all.take(i + 1)[j] == all.take(i)[j]);
            }
        }
    }
}

/// A prefix of a field list has a wire form no longer than the whole list's.
pub proof fn lemma_fields_prefix_bytes_le(all: Seq<Seq<u8>>, i: int)
    requires
        0 <= i <= all.len(),
    ensures
        fields_bytes(all.take(i)).len() <= fields_bytes(all).len(),
    decreases all.len() - i,
{
    if i < all.len() {
        lemma_fields_prefix_bytes(all, i);
        lemma_fields_prefix_bytes_le(all, i + 1);
    } else {
        assert(all.take(i) =~= all);
    }
}

/// Reads `count` length-prefixed fields, one after another.
pub fn decode_fields(r: &mut bytes::BytesMut, count: usize) -> (res: Result<
    Vec<TupleField>,
    DecodeError,
>)
    ensures
        match spec_decode_fields(buf_bytes(*old(r)), count as nat) {
            Ok((fs, n)) => res is Ok && fields_view(res->Ok_0@) == fs && buf_bytes(*final(r))
                == buf_bytes(*old(r)).skip(n) && 0 <= n <= buf_bytes(*old(r)).len(),
            Err(e) => res == Err::<Vec<TupleField>, DecodeError>(e),
        },
{
    let ghost s = buf_bytes(*r);
    let mut fields: Vec<TupleField> = Vec::new();
    let mut i: usize = 0;
    proof {
        assert(s.skip(0) =~= s);
    }
    while i < count
        invariant
            i <= count,
            s == buf_bytes(*old(r)),
            spec_decode_fields(s, i as nat) matches Ok((fs, m)) && fields_view(fields@) == fs
                && 0 <= m <= s.len() && buf_bytes(*r) == s.skip(m),
        decreases count - i,
    {
        let ghost m = spec_decode_fields(s, i as nat)->Ok_0.1;
        let value = match decode_bytes(r) {
            Ok(v) => v,
            Err(e) => {
                proof {
                    lemma_decode_fields_err(s, (i + 1) as nat, count as nat);
                }
                return Err(e);
            },
        };
        proof {
            let n = spec_decode_bytes(s.skip(m))->Ok_0.1;
            lemma_skip_skip(s, m, n);
        }
        fields.push(TupleField { value });
        assert(fields_view(fields@) =~= spec_decode_fields(s, (i + 1) as nat)->Ok_0.0);
        i += 1;
    }
    Ok(fields)
}

/// Splits a path at every `/` into byte-string fields.
pub fn split_utf8_path(path: &str) -> (fields: Vec<TupleField>)
    ensures
        fields_view(fields@) == split_path(path.spec_bytes()),
{
    let bytes = path.as_bytes();
    let mut fields: Vec<TupleField> = Vec::new();
    let mut current: Vec<u8> = Vec::new();
    let mut i: usize = 0;
    while i < bytes.len()
        invariant
            i <= bytes@.len(),
            bytes@ == path.spec_bytes(),
            fields_view(fields@).push(current@) == split_path(bytes@.take(i as int)),
        decreases bytes.len() - i,
    {
        let b = bytes[i];
        let ghost prev = split_path(bytes@.take(i as int));
        assert(bytes@.take(i + 1).drop_last() =~= bytes@.take(i as int));
        proof {
            lemma_split_path_nonempty(bytes@.take(i as int));
        }
        if b == 0x2fu8 {
            fields.push(TupleField { value: current });
            current = Vec::new();
            assert(fields_view(fields@).push(current@) =~= prev.push(Seq::<u8>::empty()));
        } else {
            let ghost old_fields = fields_view(fields@);
            current.push(b);
            assert(fields_view(fields@).push(current@) =~= prev.update(
                prev.len() - 1,
                prev.last().push(b),
            ));
        }
        i += 1;
    }
    fields.push(TupleField { value: current });
    assert(bytes@.take(i as int) =~= bytes@);
    assert(fields_view(fields@) =~= split_path(path.spec_bytes()));
    fields
}

/// Writes `/f1/f2/...`, each field read leniently as UTF-8.
pub fn join_utf8_path(fields: &Vec<TupleField>) -> (path: String)
    ensures
        path@ == path_string(fields_view(fields@)),
{
    let mut path = String::new();
    let mut i: usize = 0;
    while i < fields.len()
        invariant
            i <= fields.len(),
            path@ == path_string(fields_view(fields@).take(i as int)),
        decreases fields.len() - i,
    {
        let part = string_from_utf8_lossy(fields[i].value.as_slice());
        let slash = "/";
        proof {
            reveal_strlit("/");
        }
        path.append(slash);
        path.append(part.as_str());
        let ghost fv = fields_view(fields@);
        assert(fv.take(i + 1).drop_last() =~= fv.take(i as int));
        assert(fv.take(i + 1).last() == fields[i as int]@);
        i += 1;
    }
    assert(fields_view(fields@).take(i as int) =~= fields_view(fields@));
    path
}

impl TupleField {
    /// An empty field.
    pub fn new() -> (f: Self)
        ensures
            f@ == Seq::<u8>::empty(),
    {
        TupleField { value: Vec::new() }
    }

    /// A field holding the UTF-8 bytes of `path`.
    pub fn from_utf8(path: &str) -> (f: Self)
        ensures
            f@ == path.spec_bytes(),
    {
        let mut field = TupleField::new();
        field.value = vstd::slice::slice_to_vec(path.as_bytes());
        field
    }

    /// Replaces this field's bytes by the wire form of `p`.
    pub fn set(&mut self, p: TupleField) -> (res: Result<(), EncodeError>)
        ensures
            res is Ok ==> final(self)@ == bytes_field(p@),
            res is Err ==> final(self)@ == old(self)@,
            p@.len() < varint_bound() && bytes_field(p@).len() <= buf_capacity_limit() ==> res is Ok,
            p@.len() >= varint_bound() ==> res is Err,
            match spec_encode_bytes(p@, 0) {
                Ok(b) => res is Ok && final(self)@ == b,
                Err(e) => res == Err::<(), EncodeError>(e) && final(self)@ == old(self)@,
            },
    {
        let mut value = buf_new();
        p.encode(&mut value)?;
        self.value = buf_to_vec(&value);
        Ok(())
    }

    /// Decodes a length-prefixed field from this field's bytes.
    pub fn get(&self) -> (res: Result<TupleField, DecodeError>)
        ensures
            match spec_decode_bytes(self@) {
                Ok((v, n)) => res is Ok && res->Ok_0@ == v,
                Err(e) => res == Err::<TupleField, DecodeError>(e),
            },
    {
        let mut r = buf_from_slice(self.value.as_slice());
        TupleField::decode(&mut r)
    }

    /// Appends the wire form: the length, then the bytes.
    pub fn encode(&self, w: &mut bytes::BytesMut) -> (res: Result<(), EncodeError>)
        ensures
            encoded(
                res,
                buf_bytes(*old(w)),
                buf_bytes(*final(w)),
                self@.len() < varint_bound(),
                bytes_field(self@),
                EncodeError::BoundsExceeded,
            ),
            match spec_encode_bytes(self@, buf_bytes(*old(w)).len() as int) {
                Ok(b) => res is Ok && buf_bytes(*final(w)) == buf_bytes(*old(w)) + b,
                Err(e) => res == Err::<(), EncodeError>(e),
            },
    {
        encode_bytes(self.value.as_slice(), w)
    }

    /// Reads a length-prefixed field.
    pub fn decode(r: &mut bytes::BytesMut) -> (res: Result<TupleField, DecodeError>)
        ensures
            match spec_decode_bytes(buf_bytes(*old(r))) {
                Ok((v, n)) => res is Ok && res->Ok_0@ == v && buf_bytes(*final(r)) == buf_bytes(
                    *old(r),
                ).skip(n) && 0 < n <= buf_bytes(*old(r)).len(),
                Err(e) => res == Err::<TupleField, DecodeError>(e),
            },
    {
        let value = decode_bytes(r)?;
        Ok(TupleField { value })
    }
}

} // verus!

verus! {

/// An ordered list of byte-string fields.
#[derive(Clone, Debug, PartialEq, Eq, Hash)]
pub struct Tuple {
    pub fields: Vec<TupleField>,
}

impl View for Tuple {
    type V = Seq<Seq<u8>>;

    open spec fn view(&self) -> Seq<Seq<u8>> {
        fields_view(self.fields@)
    }
}

/// The wire form of a tuple: the number of fields, then each field.
pub open spec fn tuple_bytes(fs: Seq<Seq<u8>>) -> Seq<u8> {
    varint_bytes(fs.len() as u64) + fields_bytes(fs)
}

/// Decoding a tuple from the front of `s`.
pub open spec fn spec_decode_tuple(s: Seq<u8>) -> Result<(Seq<Seq<u8>>, int), DecodeError> {
    match spec_decode_varint(s) {
        Ok((count, n)) => match spec_decode_fields(s.skip(n), count as usize as nat) {
            Ok((fs, m)) => Ok((fs, n + m)),
            Err(e) => Err(e),
        },
        Err(e) => Err(e),
    }
}

impl Tuple {
    /// An empty tuple.
    pub fn new() -> (t: Self)
        ensures
            t@ == Seq::<Seq<u8>>::empty(),
    {
        let t = Tuple { fields: Vec::new() };
        assert(t@ =~= Seq::<Seq<u8>>::empty());
        t
    }

    /// Appends a field.
    pub fn add(&mut self, field: TupleField)
        ensures
            final(self)@ == old(self)@.push(field@),
    {
        self.fields.push(field);
        assert(self@ =~= old(self)@.push(field@));
    }

    /// Decodes a length-prefixed field from the bytes of field `index`.
    pub fn get(&self, index: usize) -> (res: Result<TupleField, DecodeError>)
        requires
            index < self@.len(),
        ensures
            match spec_decode_bytes(self@[index as int]) {
                Ok((v, n)) => res is Ok && res->Ok_0@ == v,
                Err(e) => res == Err::<TupleField, DecodeError>(e),
            },
    {
        self.fields[index].get()
    }

    /// Replaces the bytes of field `index` by the wire form of `f`.
    pub fn set(&mut self, index: usize, f: TupleField) -> (res: Result<(), EncodeError>)
        requires
            index < old(self)@.len(),
        ensures
            res is Ok ==> final(self)@ == old(self)@.update(index as int, bytes_field(f@)),
            res is Err ==> final(self)@ == old(self)@,
            f@.len() < varint_bound() && bytes_field(f@).len() <= buf_capacity_limit() ==> res is Ok,
            f@.len() >= varint_bound() ==> res is Err,
            match spec_encode_bytes(f@, 0) {
                Ok(b) => res is Ok && final(self)@ == old(self)@.update(index as int, b),
                Err(e) => res == Err::<(), EncodeError>(e) && final(self)@ == old(self)@,
            },
    {
        let mut field = TupleField { value: Vec::new() };
        field.value = self.fields[index].value.clone();
        let res = field.set(f);
        match res {
            Ok(()) => {
                self.fields.set(index, field);
                assert(self@ =~= old(self)@.update(index as int, bytes_field(f@)));
                Ok(())
            },
            Err(e) => Err(e),
        }
    }

    /// Removes every field.
    pub fn clear(&mut self)
        ensures
            final(self)@ == Seq::<Seq<u8>>::empty(),
    {
        self.fields.clear();
        assert(self@ =~= Seq::<Seq<u8>>::empty());
    }

    /// The tuple of the `/`-separated parts of `path`.
    pub fn from_utf8_path(path: &str) -> (t: Self)
        ensures
            t@ == split_path(path.spec_bytes()),
    {
        Tuple { fields: split_utf8_path(path) }
    }

    /// The text `/f1/f2/...` of the fields.
    pub fn to_utf8_path(&self) -> (path: String)
        ensures
            path@ == path_string(self@),
    {
        join_utf8_path(&self.fields)
    }

    /// Appends the wire form: the number of fields, then each field.
    pub fn encode(&self, w: &mut bytes::BytesMut) -> (res: Result<(), EncodeError>)
        ensures
            encoded(
                res,
                buf_bytes(*old(w)),
                buf_bytes(*final(w)),
                self@.len() < varint_bound() && fields_encodable(self@),
                tuple_bytes(self@),
                EncodeError::BoundsExceeded,
            ),
    {
        let ghost start = buf_bytes(*w);
        encode_usize(self.fields.len(), w)?;
        let ghost mid = buf_bytes(*w);
        let r = encode_fields(&self.fields, w);
        proof {
            lemma_varint_roundtrip(0, Seq::empty());
        }
        match r {
            Ok(()) => {
                assert(buf_bytes(*w) =~= start + tuple_bytes(self@));
                Ok(())
            },
            Err(e) => Err(e),
        }
    }

    /// Reads a tuple: the number of fields, then each field.
    pub fn decode(r: &mut bytes::BytesMut) -> (res: Result<Tuple, DecodeError>)
        ensures
            match spec_decode_tuple(buf_bytes(*old(r))) {
                Ok((fs, n)) => res is Ok && res->Ok_0@ == fs && buf_bytes(*final(r)) == buf_bytes(
                    *old(r),
                ).skip(n) && 0 < n <= buf_bytes(*old(r)).len(),
                Err(e) => res == Err::<Tuple, DecodeError>(e),
            },
    {
        let ghost s = buf_bytes(*r);
        let count = decode_u64(r)? as usize;
        let ghost n = spec_decode_varint(s)->Ok_0.1;
        let fields = decode_fields(r, count)?;
        proof {
            let m = spec_decode_fields(s.skip(n), count as nat)->Ok_0.1;
            lemma_skip_skip(s, n, m);
        }
        Ok(Tuple { fields })
    }
}

/// A tuple whose fields are all encodable decodes from its own wire form.
pub proof fn lemma_tuple_roundtrip(t: Tuple, rest: Seq<u8>)
    requires
        t@.len() < varint_bound(),
        fields_encodable(t@),
    ensures
        spec_decode_tuple(tuple_bytes(t@) + rest) == Ok::<(Seq<Seq<u8>>, int), DecodeError>(
            (t@, tuple_bytes(t@).len() as int),
        ),
{
    lemma_tuple_fields_fit(t.fields);
    lemma_varint_roundtrip(t@.len() as u64, fields_bytes(t@) + rest);
    lemma_skip_concat(varint_bytes(t@.len() as u64), fields_bytes(t@), rest);
    lemma_fields_roundtrip(t@, rest);
}

/// The fields of a vector each hold at most `usize::MAX` bytes, and there are at most
/// `usize::MAX` of them.
pub proof fn lemma_tuple_fields_fit(fields: Vec<TupleField>)
    ensures
        fields_view(fields@).len() <= usize::MAX,
        forall|i: int|
            0 <= i < fields_view(fields@).len() ==> #[trigger] fields_view(fields@)[i].len()
                <= usize::MAX,
{
    assert forall|i: int| 0 <= i < fields_view(fields@).len() implies #[trigger] fields_view(
        fields@,
    )[i].len() <= usize::MAX by {
        let f = fields@[i];
        assert(f.value.len() == f.value@.len());
    }
    assert(fields.len() == fields@.len());
}

} // verus!
