use std::collections::HashMap;
use vstd::prelude::*;
use vstd::std_specs::iter::IteratorSpec;

use super::buf::{
    buf_bytes, buf_has_remaining, buf_len, buf_new, buf_put_slice, buf_split_to, buf_to_vec,
    decode_remaining, encode_remaining, encoded, lemma_skip_concat, lemma_skip_skip,
};
use super::bytes_field::{bytes_field, lemma_bytes_roundtrip};
use super::error::{DecodeError, EncodeError};
use super::integer::{decode_u64, decode_usize, encode_u64, encode_usize, spec_decode_usize};
use super::varint::{lemma_varint_roundtrip, spec_decode_varint, varint_bound, varint_bytes};

verus! {

broadcast use crate::coding::varint::lemma_decode_varint_len;

/// The value of a key-value pair: an integer for even keys, bytes for odd keys.
#[derive(Clone, Debug, PartialEq, Eq)]
pub enum Value {
    IntValue(u64),
    BytesValue(Vec<u8>),
}

/// What a value holds, as plain data.
pub enum ValueModel {
    Int(u64),
    Bytes(Seq<u8>),
}

impl View for Value {
    type V = ValueModel;

    open spec fn view(&self) -> ValueModel {
        match self {
            Value::IntValue(v) => ValueModel::Int(*v),
            Value::BytesValue(b) => ValueModel::Bytes(b@),
        }
    }
}

/// A key with its value.
#[derive(Clone, Debug, PartialEq, Eq)]
pub struct KeyValuePair {
    pub key: u64,
    pub value: Value,
}

impl View for KeyValuePair {
    type V = (u64, ValueModel);

    open spec fn view(&self) -> (u64, ValueModel) {
        (self.key, self.value@)
    }
}

/// The wire form of a pair: the key, then an integer (even key) or length-prefixed bytes.
pub open spec fn kvp_bytes(kv: (u64, ValueModel)) -> Seq<u8> {
    varint_bytes(kv.0) + match kv.1 {
        ValueModel::Int(x) => varint_bytes(x),
        ValueModel::Bytes(b) => bytes_field(b),
    }
}

/// A pair can be encoded: integers go with even keys, bytes with odd keys, and every
/// number fits in a variable-length integer.
pub open spec fn kvp_encodable(kv: (u64, ValueModel)) -> bool {
    &&& kv.0 < varint_bound()
    &&& match kv.1 {
        ValueModel::Int(x) => kv.0 % 2 == 0 && x < varint_bound(),
        ValueModel::Bytes(b) => kv.0 % 2 == 1 && b.len() < varint_bound(),
    }
}

/// Why a pair cannot be encoded: the key has the wrong parity, else a number is too large.
pub open spec fn kvp_encode_error(kv: (u64, ValueModel)) -> EncodeError {
    match kv.1 {
        ValueModel::Int(_) => if kv.0 % 2 == 1 {
            EncodeError::InvalidValue
        } else {
            EncodeError::BoundsExceeded
        },
        ValueModel::Bytes(_) => if kv.0 % 2 == 0 {
            EncodeError::InvalidValue
        } else {
            EncodeError::BoundsExceeded
        },
    }
}

/// The longest byte value a pair may carry when decoded (`u16::MAX`).
pub open spec fn kvp_max_bytes() -> nat {
    0xffff
}

/// Decoding a pair from the front of `s`; a byte value longer than `u16::MAX` is refused.
pub open spec fn spec_decode_kvp(s: Seq<u8>) -> Result<((u64, ValueModel), int), DecodeError> {
    match spec_decode_varint(s) {
        Ok((key, n)) => {
            let t = s.skip(n);
            if key % 2 == 0 {
                match spec_decode_varint(t) {
                    Ok((v, m)) => Ok(((key, ValueModel::Int(v)), n + m)),
                    Err(e) => Err(e),
                }
            } else {
                match spec_decode_usize(t) {
                    Ok((len, m)) => if len > kvp_max_bytes() {
                        Err(DecodeError::KeyValuePairLengthExceeded())
                    } else if t.len() - m < len {
                        Err(DecodeError::More((len - (t.len() - m)) as usize))
                    } else {
                        Ok(((key, ValueModel::Bytes(t.subrange(m, m + len))), n + m + len))
                    },
                    Err(e) => Err(e),
                }
            }
        },
        Err(e) => Err(e),
    }
}

/// An encodable pair whose bytes are at most `u16::MAX` long decodes from its own wire form.
pub proof fn lemma_kvp_roundtrip(kv: (u64, ValueModel), rest: Seq<u8>)
    requires
        kvp_encodable(kv),
        kv.1 matches ValueModel::Bytes(b) ==> b.len() <= kvp_max_bytes(),
    ensures
        spec_decode_kvp(kvp_bytes(kv) + rest) == Ok::<((u64, ValueModel), int), DecodeError>(
            (kv, kvp_bytes(kv).len() as int),
        ),
{
    let key_bytes = varint_bytes(kv.0);
    match kv.1 {
        ValueModel::Int(x) => {
            lemma_varint_roundtrip(kv.0, varint_bytes(x) + rest);
            lemma_skip_concat(key_bytes, varint_bytes(x), rest);
            lemma_varint_roundtrip(x, rest);
        },
        ValueModel::Bytes(b) => {
            lemma_varint_roundtrip(kv.0, bytes_field(b) + rest);
            lemma_skip_concat(key_bytes, bytes_field(b), rest);
            lemma_bytes_roundtrip(b, rest);
            lemma_varint_roundtrip(b.len() as u64, b + rest);
            let t = bytes_field(b) + rest;
            let m = varint_bytes(b.len() as u64).len() as int;
            assert(t.subrange(m, m + b.len()) =~= b);
        },
    }
}

impl KeyValuePair {
    /// A pair of `key` and `value`.
    pub fn new(key: u64, value: Value) -> (kv: Self)
        ensures
            kv.key == key,
            kv.value == value,
    {
        Self { key, value }
    }

    /// A pair of `key` and an integer value.
    pub fn new_int(key: u64, value: u64) -> (kv: Self)
        ensures
            kv@ == (key, ValueModel::Int(value)),
    {
        Self { key, value: Value::IntValue(value) }
    }

    /// A pair of `key` and a byte value.
    pub fn new_bytes(key: u64, value: Vec<u8>) -> (kv: Self)
        ensures
            kv@ == (key, ValueModel::Bytes(value@)),
    {
        Self { key, value: Value::BytesValue(value) }
    }

    /// Reads a pair: the key, then an integer for an even key or at most `u16::MAX`
    /// length-prefixed bytes for an odd key.
    pub fn decode(r: &mut bytes::BytesMut) -> (res: Result<KeyValuePair, DecodeError>)
        ensures
            match spec_decode_kvp(buf_bytes(*old(r))) {
                Ok((kv, n)) => res is Ok && res->Ok_0@ == kv && buf_bytes(*final(r)) == buf_bytes(
                    *old(r),
                ).skip(n) && 0 < n <= buf_bytes(*old(r)).len(),
                Err(e) => res == Err::<KeyValuePair, DecodeError>(e),
            },
    {
        let ghost s = buf_bytes(*r);
        let key = decode_u64(r)?;
        let ghost n = spec_decode_varint(s)->Ok_0.1;
        let ghost t = s.skip(n);
        if key % 2 == 0 {
            let value = decode_u64(r)?;
            proof {
                lemma_skip_skip(s, n, spec_decode_varint(t)->Ok_0.1);
            }
            Ok(KeyValuePair::new_int(key, value))
        } else {
            let length = decode_usize(r)?;
            let ghost m = spec_decode_usize(t)->Ok_0.1;
            if length > 0xffff {
                return Err(DecodeError::KeyValuePairLengthExceeded());
            }
            decode_remaining(r, length)?;
            let front = buf_split_to(r, length);
            let buf = buf_to_vec(&front);
            proof {
                lemma_skip_skip(s, n, m);
                assert(buf@ =~= t.subrange(m, m + length));
                assert(buf_bytes(*r) =~= s.skip(n + m + length));
            }
            Ok(KeyValuePair::new_bytes(key, buf))
        }
    }

    /// Appends the wire form; an integer with an odd key, or bytes with an even key, is
    /// refused.
    pub fn encode(&self, w: &mut bytes::BytesMut) -> (res: Result<(), EncodeError>)
        ensures
            encoded(
                res,
                buf_bytes(*old(w)),
                buf_bytes(*final(w)),
                kvp_encodable(self@),
                kvp_bytes(self@),
                kvp_encode_error(self@),
            ),
            (self.value is IntValue && self.key % 2 != 0) || (self.value is BytesValue && self.key % 2 == 0)
                ==> res == Err::<(), EncodeError>(EncodeError::InvalidValue) && buf_bytes(*final(w)) == buf_bytes(*old(w)),
    {
        let ghost start = buf_bytes(*w);
        proof {
            lemma_varint_roundtrip(0, Seq::empty());
            if self.key < varint_bound() {
                lemma_varint_roundtrip(self.key, Seq::empty());
            }
        }
        match &self.value {
            Value::IntValue(v) => {
                if self.key % 2 != 0 {
                    return Err(EncodeError::InvalidValue);
                }
                encode_u64(self.key, w)?;
                encode_u64(*v, w)?;
                assert(buf_bytes(*w) =~= start + kvp_bytes(self@));
                Ok(())
            },
            Value::BytesValue(v) => {
                if self.key % 2 == 0 {
                    return Err(EncodeError::InvalidValue);
                }
                encode_u64(self.key, w)?;
                encode_usize(v.len(), w)?;
                encode_remaining(w, v.len())?;
                buf_put_slice(w, v.as_slice());
                assert(buf_bytes(*w) =~= start + kvp_bytes(self@));
                Ok(())
            },
        }
    }
}

} // verus!

verus! {

/// A set of key-value pairs, at most one per key.
#[derive(Clone, Debug, PartialEq, Eq)]
pub struct KeyValuePairs(pub HashMap<u64, KeyValuePair>);

/// The pairs of a map, as plain data.
pub open spec fn kvps_view(m: Map<u64, KeyValuePair>) -> Map<u64, (u64, ValueModel)> {
    m.map_values(|kv: KeyValuePair| kv@)
}

impl View for KeyValuePairs {
    type V = Map<u64, (u64, ValueModel)>;

    open spec fn view(&self) -> Map<u64, (u64, ValueModel)> {
        kvps_view(self.0@)
    }
}

/// Each pair is stored under its own key.
pub open spec fn kvps_keyed(m: Map<u64, (u64, ValueModel)>) -> bool {
    forall|k: u64| m.contains_key(k) ==> #[trigger] m[k].0 == k
}

/// Decoding pairs one after another until `s` is used up, adding them to `acc`;
/// a key seen twice is refused.
pub open spec fn spec_decode_kvp_run(s: Seq<u8>, acc: Map<u64, (u64, ValueModel)>) -> Result<
    Map<u64, (u64, ValueModel)>,
    DecodeError,
>
    decreases s.len(),
{
    if s.len() == 0 {
        Ok(acc)
    } else {
        match spec_decode_kvp(s) {
            Ok((kv, n)) => if !(0 < n <= s.len()) {
                Ok(acc)
            } else if acc.contains_key(kv.0) {
                Err(DecodeError::DuplicateParameter(kv.0))
            } else {
                spec_decode_kvp_run(s.skip(n), acc.insert(kv.0, kv))
            },
            Err(e) => Err(e),
        }
    }
}

/// Decoding a set of pairs from the front of `s`: the total byte length, then the pairs.
pub open spec fn spec_decode_kvps(s: Seq<u8>) -> Result<(Map<u64, (u64, ValueModel)>, int), DecodeError> {
    match spec_decode_usize(s) {
        Ok((len, n)) => if s.len() - n < len {
            Err(DecodeError::More((len - (s.len() - n)) as usize))
        } else if len == 0 {
            Ok((Map::empty(), n))
        } else {
            match spec_decode_kvp_run(s.subrange(n, n + len), Map::empty()) {
                Ok(m) => Ok((m, n + len)),
                Err(e) => Err(e),
            }
        },
        Err(e) => Err(e),
    }
}

/// Decoding keeps every pair under its own key.
pub proof fn lemma_decode_kvp_run_keyed(s: Seq<u8>, acc: Map<u64, (u64, ValueModel)>)
    requires
        kvps_keyed(acc),
    ensures
        spec_decode_kvp_run(s, acc) matches Ok(m) ==> kvps_keyed(m),
    decreases s.len(),
{
    if s.len() > 0 {
        if let Ok((kv, n)) = spec_decode_kvp(s) {
            if 0 < n <= s.len() && !acc.contains_key(kv.0) {
                let acc2 = acc.insert(kv.0, kv);
                assert(kvps_keyed(acc2));
                lemma_decode_kvp_run_keyed(s.skip(n), acc2);
            }
        }
    }
}

impl Default for KeyValuePairs {
    fn default() -> (kvps: Self)
        ensures
            kvps@ == Map::<u64, (u64, ValueModel)>::empty(),
    {
        KeyValuePairs::new()
    }
}

impl KeyValuePairs {
    /// An empty set of pairs.
    pub fn new() -> (kvps: Self)
        ensures
            kvps@ == Map::<u64, (u64, ValueModel)>::empty(),
    {
        let kvps = KeyValuePairs(HashMap::new());
        assert(kvps@ =~= Map::<u64, (u64, ValueModel)>::empty());
        kvps
    }

    /// Stores `kvp` under its key, replacing any pair with that key.
    pub fn set(&mut self, kvp: KeyValuePair)
        ensures
            final(self)@ == old(self)@.insert(kvp.key, kvp@),
    {
        let key = kvp.key;
        let ghost v = kvp@;
        self.0.insert(key, kvp);
        assert(final(self)@ =~= old(self)@.insert(key, v));
    }

    /// Stores an integer value under `key`.
    pub fn set_intvalue(&mut self, key: u64, value: u64)
        ensures
            final(self)@ == old(self)@.insert(key, (key, ValueModel::Int(value))),
    {
        self.0.insert(key, KeyValuePair::new_int(key, value));
        assert(final(self)@ =~= old(self)@.insert(key, (key, ValueModel::Int(value))));
    }

    /// Stores a byte value under `key`.
    pub fn set_bytesvalue(&mut self, key: u64, value: Vec<u8>)
        ensures
            final(self)@ == old(self)@.insert(key, (key, ValueModel::Bytes(value@))),
    {
        let ghost b = value@;
        self.0.insert(key, KeyValuePair::new_bytes(key, value));
        assert(final(self)@ =~= old(self)@.insert(key, (key, ValueModel::Bytes(b))));
    }

    /// Whether a pair is stored under `key`.
    pub fn has(&self, key: u64) -> (r: bool)
        ensures
            r == self@.contains_key(key),
    {
        self.0.contains_key(&key)
    }

    /// The pair stored under `key`, if any.
    pub fn get(&mut self, key: u64) -> (r: Option<&KeyValuePair>)
        ensures
            final(self)@ == old(self)@,
            match r {
                Some(kv) => old(self)@.contains_key(key) && kv@ == old(self)@[key],
                None => !old(self)@.contains_key(key),
            },
    {
        self.0.get(&key)
    }

    /// Reads a set of pairs: the total byte length, then pairs until that many bytes are
    /// used; a repeated key is refused.
    pub fn decode(r: &mut bytes::BytesMut) -> (res: Result<KeyValuePairs, DecodeError>)
        ensures
            match spec_decode_kvps(buf_bytes(*old(r))) {
                Ok((m, n)) => res is Ok && res->Ok_0@ == m && buf_bytes(*final(r)) == buf_bytes(
                    *old(r),
                ).skip(n) && 0 < n <= buf_bytes(*old(r)).len(),
                Err(e) => res == Err::<KeyValuePairs, DecodeError>(e),
            },
    {
        let ghost s = buf_bytes(*r);
        let length = decode_usize(r)?;
        let ghost n = spec_decode_usize(s)->Ok_0.1;
        decode_remaining(r, length)?;
        if length == 0 {
            return Ok(KeyValuePairs::new());
        }
        let mut kvps_bytes = buf_split_to(r, length);
        proof {
            assert(buf_bytes(kvps_bytes) =~= s.subrange(n, n + length));
            assert(buf_bytes(*r) =~= s.skip(n + length));
        }
        let ghost chunk = buf_bytes(kvps_bytes);
        let mut kvps: HashMap<u64, KeyValuePair> = HashMap::new();
        proof {
            assert(kvps_view(kvps@) =~= Map::<u64, (u64, ValueModel)>::empty());
        }
        while buf_has_remaining(&kvps_bytes)
            invariant
                s == buf_bytes(*old(r)),
                spec_decode_usize(s) == Ok::<(usize, int), DecodeError>((length, n)),
                0 < length <= s.len() - n,
                chunk == s.subrange(n, n + length),
                buf_bytes(*r) == s.skip(n + length),
                spec_decode_kvp_run(chunk, Map::empty()) == spec_decode_kvp_run(
                    buf_bytes(kvps_bytes),
                    kvps_view(kvps@),
                ),
            decreases buf_bytes(kvps_bytes).len(),
        {
            let ghost cur = buf_bytes(kvps_bytes);
            let kvp = KeyValuePair::decode(&mut kvps_bytes)?;
            if kvps.contains_key(&kvp.key) {
                return Err(DecodeError::DuplicateParameter(kvp.key));
            }
            let key = kvp.key;
            let ghost kv = kvp@;
            let ghost before = kvps_view(kvps@);
            kvps.insert(key, kvp);
            assert(kvps_view(kvps@) =~= before.insert(key, kv));
        }
        Ok(KeyValuePairs(kvps))
    }
}

} // verus!

verus! {

/// The wire forms of pairs, one after another.
pub open spec fn kvps_concat(o: Seq<(u64, ValueModel)>) -> Seq<u8>
    decreases o.len(),
{
    if o.len() == 0 {
        Seq::empty()
    } else {
        kvps_concat(o.drop_last()) + kvp_bytes(o.last())
    }
}

/// Every pair of `o` can be encoded.
pub open spec fn kvps_all_encodable(o: Seq<(u64, ValueModel)>) -> bool {
    forall|i: int| 0 <= i < o.len() ==> #[trigger] kvp_encodable(o[i])
}

/// `o` lists the pairs of `m`, each once, in some order.
pub open spec fn kvps_order(m: Map<u64, KeyValuePair>, o: Seq<KeyValuePair>) -> bool {
    &&& o.len() == m.dom().len()
    &&& o.to_set() == m.values()
}

/// The pairs of `o` as plain data.
pub open spec fn kvps_seq_view(o: Seq<KeyValuePair>) -> Seq<(u64, ValueModel)> {
    o.map_values(|kv: KeyValuePair| kv@)
}

/// The wire form of a set of pairs written in the order `o`: the total byte length of
/// the pairs, then the pairs.
pub open spec fn kvps_bytes(o: Seq<(u64, ValueModel)>) -> Seq<u8> {
    varint_bytes(kvps_concat(o).len() as u64) + kvps_concat(o)
}

/// Pairs written in the order `o` can be encoded: each pair can, and their total length
/// fits a variable-length integer.
pub open spec fn kvps_valid(o: Seq<(u64, ValueModel)>) -> bool {
    kvps_all_encodable(o) && kvps_concat(o).len() < varint_bound()
}

/// Why pairs written in the order `o` cannot be encoded: the error of the first pair that
/// cannot, else the total length is too large.
pub open spec fn kvps_err(o: Seq<(u64, ValueModel)>) -> EncodeError
    decreases o.len(),
{
    if o.len() == 0 {
        EncodeError::BoundsExceeded
    } else if !kvp_encodable(o[0]) {
        kvp_encode_error(o[0])
    } else {
        kvps_err(o.drop_first())
    }
}

/// The error of a set of pairs is that of the first pair that cannot be encoded, or
/// `BoundsExceeded` when every pair can.
pub proof fn lemma_kvps_err(o: Seq<(u64, ValueModel)>, i: int)
    requires
        0 <= i <= o.len(),
        kvps_all_encodable(o.take(i)),
    ensures
        i < o.len() && !kvp_encodable(o[i]) ==> kvps_err(o) == kvp_encode_error(o[i]),
        i == o.len() ==> kvps_err(o) == EncodeError::BoundsExceeded,
    decreases i,
{
    if i > 0 {
        assert(o.take(i)[0] == o[0]);
        assert(kvp_encodable(o[0]));
        let t = o.drop_first();
        assert forall|j: int| 0 <= j < i - 1 implies #[trigger] kvp_encodable(t.take(i - 1)[j]) by {
            assert(t.take(i - 1)[j] == o.take(i)[j + 1]);
        }
        lemma_kvps_err(t, i - 1);
        if i < o.len() {
            assert(t[i - 1] == o[i]);
        }
    }
}

impl KeyValuePairs {
    /// Appends the total byte length of the pairs, then every pair, in the order in which
    /// the map yields them.
    pub fn encode(&self, w: &mut bytes::BytesMut) -> (res: Result<(), EncodeError>)
        ensures
            exists|o: Seq<KeyValuePair>|
                kvps_order(self.0@, o) && encoded(
                    res,
                    buf_bytes(*old(w)),
                    buf_bytes(*final(w)),
                    kvps_valid(kvps_seq_view(o)),
                    kvps_bytes(kvps_seq_view(o)),
                    kvps_err(kvps_seq_view(o)),
                ),
    {
        let mut tmp = buf_new();
        let values = self.0.values();
        let ghost all: Seq<KeyValuePair> = IteratorSpec::remaining(&values).unref();
        let ghost vs = kvps_seq_view(all);
        assert(all.to_set() == self.0@.values());
        assert(all.len() == self.0@.dom().len());
        assert(kvps_order(self.0@, all));
        assert(vs.take(0) =~= Seq::<(u64, ValueModel)>::empty());
        for kvp in it: values
            invariant
                all == it.seq().unref(),
                vs == kvps_seq_view(all),
                kvps_order(self.0@, all),
                buf_bytes(*w) == buf_bytes(*old(w)),
                buf_bytes(tmp) == kvps_concat(vs.take(it.index() as int)),
                kvps_all_encodable(vs.take(it.index() as int)),
        {
            let ghost i = it.index() as int;
            assert(kvp@ == vs[i]);
            let r = kvp.encode(&mut tmp);
            proof {
                lemma_kvps_concat_prefix(vs, i);
            }
            match r {
                Ok(()) => {},
                Err(e) => {
                    proof {
                        assert(kvps_all_encodable(vs) ==> kvp_encodable(vs[i]));
                        lemma_kvps_concat_prefix_le(vs, i + 1);
                        lemma_kvps_err(vs, i);
                    }
                    return Err(e);
                },
            }
        }
        assert(vs.take(vs.len() as int) =~= vs);
        let len = buf_len(&tmp);
        let ghost before = buf_bytes(*w);
        proof {
            lemma_kvps_err(vs, vs.len() as int);
            lemma_varint_roundtrip(0, Seq::empty());
            if len < varint_bound() {
                lemma_varint_roundtrip(len as u64, Seq::empty());
            }
        }
        encode_u64(len as u64, w)?;
        encode_remaining(w, len)?;
        let bytes = buf_to_vec(&tmp);
        buf_put_slice(w, bytes.as_slice());
        assert(buf_bytes(*w) =~= buf_bytes(*old(w)) + kvps_bytes(vs));
        Ok(())
    }
}

/// Extending a prefix of pairs by one pair extends its wire form by that pair.
pub proof fn lemma_kvps_concat_prefix(vs: Seq<(u64, ValueModel)>, i: int)
    requires
        0 <= i < vs.len(),
    ensures
        kvps_concat(vs.take(i + 1)) == kvps_concat(vs.take(i)) + kvp_bytes(vs[i]),
        kvps_all_encodable(vs.take(i)) && kvp_encodable(vs[i]) ==> kvps_all_encodable(
            vs.take(i + 1),
        ),
{
    assert(vs.take(i + 1).drop_last() =~= vs.take(i));
    assert(vs.take(i + 1).last() == vs[i]);
    if kvps_all_encodable(vs.take(i)) && kvp_encodable(vs[i]) {
        assert forall|j: int| 0 <= j < vs.take(i + 1).len() implies #[trigger] kvp_encodable(
            vs.take(i + 1)[j],
        ) by {
            if j < i {
                assert(vs.take(i + 1)[j] == vs.take(i)[j]);
            }
        }
    }
}

/// A prefix of pairs has a wire form no longer than all of them.
pub proof fn lemma_kvps_concat_prefix_le(vs: Seq<(u64, ValueModel)>, i: int)
    requires
        0 <= i <= vs.len(),
    ensures
        kvps_concat(vs.take(i)).len() <= kvps_concat(vs).len(),
    decreases vs.len() - i,
{
    if i < vs.len() {
        lemma_kvps_concat_prefix(vs, i);
        lemma_kvps_concat_prefix_le(vs, i + 1);
    } else {
        assert(vs.take(i) =~= vs);
    }
}

} // verus!

verus! {

/// `m` holds exactly the pairs of `acc` together with the pairs of `vs`, each under its key.
pub open spec fn kvps_extends(
    m: Map<u64, (u64, ValueModel)>,
    acc: Map<u64, (u64, ValueModel)>,
    vs: Seq<(u64, ValueModel)>,
) -> bool {
    &&& forall|k: u64|
        #[trigger] m.contains_key(k) <==> acc.contains_key(k) || exists|i: int|
            0 <= i < vs.len() && (#[trigger] vs[i]).0 == k
    &&& forall|k: u64| acc.contains_key(k) ==> #[trigger] m[k] == acc[k]
    &&& forall|i: int| 0 <= i < vs.len() ==> #[trigger] m[vs[i].0] == vs[i]
}

/// The keys of `vs` are distinct and none is in `acc`.
pub open spec fn kvps_fresh(acc: Map<u64, (u64, ValueModel)>, vs: Seq<(u64, ValueModel)>) -> bool {
    &&& forall|i: int, j: int| 0 <= i < j < vs.len() ==> (#[trigger] vs[i]).0 != (#[trigger] vs[j]).0
    &&& forall|i: int| 0 <= i < vs.len() ==> !acc.contains_key((#[trigger] vs[i]).0)
}

/// Every pair can be encoded and its byte value, if any, is at most `u16::MAX` long.
pub open spec fn kvps_decodable(vs: Seq<(u64, ValueModel)>) -> bool {
    forall|i: int|
        0 <= i < vs.len() ==> kvp_encodable(#[trigger] vs[i]) && (vs[i].1 matches ValueModel::Bytes(
            b,
        ) ==> b.len() <= kvp_max_bytes())
}

pub proof fn lemma_kvps_concat_cons(x: (u64, ValueModel), t: Seq<(u64, ValueModel)>)
    ensures
        kvps_concat(seq![x] + t) == kvp_bytes(x) + kvps_concat(t),
    decreases t.len(),
{
    if t.len() == 0 {
        let one = seq![x];
        assert(seq![x] + t =~= one);
        assert(one.drop_last() =~= Seq::<(u64, ValueModel)>::empty());
        assert(one.last() == x);
        assert(kvps_concat(one) == kvps_concat(one.drop_last()) + kvp_bytes(x));
        assert(kvps_concat(one) =~= kvp_bytes(x));
        assert(kvp_bytes(x) + kvps_concat(t) =~= kvp_bytes(x));
    } else {
        lemma_kvps_concat_cons(x, t.drop_last());
        assert((seq![x] + t).drop_last() =~= seq![x] + t.drop_last());
        assert((seq![x] + t).last() == t.last());
        assert(kvps_concat(seq![x] + t) =~= kvp_bytes(x) + kvps_concat(t));
    }
}

/// Decoding the concatenated wire forms of fresh, decodable pairs adds exactly those pairs.
pub proof fn lemma_kvp_run_roundtrip(
    vs: Seq<(u64, ValueModel)>,
    acc: Map<u64, (u64, ValueModel)>,
    m: Map<u64, (u64, ValueModel)>,
)
    requires
        kvps_decodable(vs),
        kvps_fresh(acc, vs),
        kvps_extends(m, acc, vs),
    ensures
        spec_decode_kvp_run(kvps_concat(vs), acc) == Ok::<Map<u64, (u64, ValueModel)>, DecodeError>(
            m,
        ),
    decreases vs.len(),
{
    if vs.len() == 0 {
        assert(m =~= acc);
    } else {
        let x = vs[0];
        let t = vs.drop_first();
        assert(vs =~= seq![x] + t);
        lemma_kvps_concat_cons(x, t);
        let s = kvps_concat(vs);
        assert(kvp_encodable(x));
        lemma_kvp_roundtrip(x, kvps_concat(t));
        lemma_varint_roundtrip(x.0, Seq::empty());
        let n = kvp_bytes(x).len() as int;
        assert(s.skip(n) =~= kvps_concat(t));
        let acc2 = acc.insert(x.0, x);
        assert(!acc.contains_key(x.0));
        assert forall|i: int| 0 <= i < t.len() implies kvp_encodable(#[trigger] t[i]) && (
        t[i].1 matches ValueModel::Bytes(b) ==> b.len() <= kvp_max_bytes()) by {
            assert(t[i] == vs[i + 1]);
        }
        assert forall|i: int, j: int| 0 <= i < j < t.len() implies (#[trigger] t[i]).0 != (
        #[trigger] t[j]).0 by {
            assert(t[i] == vs[i + 1] && t[j] == vs[j + 1]);
        }
        assert forall|i: int| 0 <= i < t.len() implies !acc2.contains_key((#[trigger] t[i]).0) by {
            assert(t[i] == vs[i + 1]);
            assert(vs[0].0 != vs[i + 1].0);
        }
        assert forall|k: u64| #[trigger] m.contains_key(k) <==> acc2.contains_key(k) || exists|
            i: int,
        | 0 <= i < t.len() && (#[trigger] t[i]).0 == k by {
            if m.contains_key(k) && !acc2.contains_key(k) {
                assert(!acc.contains_key(k));
                let i = choose|i: int| 0 <= i < vs.len() && (#[trigger] vs[i]).0 == k;
                assert(i != 0);
                assert(t[i - 1] == vs[i]);
            }
            if exists|i: int| 0 <= i < t.len() && (#[trigger] t[i]).0 == k {
                let i = choose|i: int| 0 <= i < t.len() && (#[trigger] t[i]).0 == k;
                assert(t[i] == vs[i + 1]);
            }
            if acc2.contains_key(k) && !acc.contains_key(k) {
                assert(vs[0].0 == k);
            }
        }
        assert forall|k: u64| acc2.contains_key(k) implies #[trigger] m[k] == acc2[k] by {
            if k == x.0 {
                assert(m[vs[0].0] == vs[0]);
            }
        }
        assert forall|i: int| 0 <= i < t.len() implies #[trigger] m[t[i].0] == t[i] by {
            assert(t[i] == vs[i + 1]);
        }
        lemma_kvp_run_roundtrip(t, acc2, m);
    }
}

} // verus!

verus! {

pub proof fn lemma_kvps_concat_len(vs: Seq<(u64, ValueModel)>)
    ensures
        kvps_concat(vs).len() >= vs.len(),
    decreases vs.len(),
{
    if vs.len() > 0 {
        lemma_kvps_concat_len(vs.drop_last());
        lemma_varint_roundtrip(0, Seq::empty());
        assert(varint_bytes(vs.last().0).len() >= 1);
    }
}

/// Decoding what `encode` writes gives back the same pairs, whatever order the map
/// yielded them in, provided each pair is stored under its own key, can be encoded, and
/// carries at most `u16::MAX` bytes, and their total length fits a variable-length integer.
pub proof fn lemma_kvps_roundtrip(kvps: KeyValuePairs, o: Seq<KeyValuePair>, rest: Seq<u8>)
    requires
        kvps_order(kvps.0@, o),
        kvps_keyed(kvps@),
        forall|k: u64|
            kvps@.contains_key(k) ==> kvp_encodable(#[trigger] kvps@[k]) && (kvps@[k].1 matches ValueModel::Bytes(
                b,
            ) ==> b.len() <= kvp_max_bytes()),
        kvps_concat(kvps_seq_view(o)).len() < varint_bound(),
        kvps_concat(kvps_seq_view(o)).len() <= usize::MAX,
    ensures
        spec_decode_kvps(kvps_bytes(kvps_seq_view(o)) + rest) == Ok::<
            (Map<u64, (u64, ValueModel)>, int),
            DecodeError,
        >((kvps@, kvps_bytes(kvps_seq_view(o)).len() as int)),
{
    let raw = kvps.0@;
    let m = kvps@;
    let vs = kvps_seq_view(o);
    assert(raw.dom().finite());
    assert forall|k1: u64, k2: u64|
        k1 != k2 && raw.dom().contains(k1) && raw.dom().contains(k2) implies #[trigger] raw[k1]
        != #[trigger] raw[k2] by {
        assert(m[k1].0 == k1 && m[k2].0 == k2);
    }
    raw.lemma_injective_values_len();
    o.lemma_no_dup_set_cardinality();
    assert forall|i: int| 0 <= i < o.len() implies raw.contains_key((#[trigger] o[i]).key) && raw[o[i].key]
        == o[i] by {
        assert(o.to_set().contains(o[i]));
        assert(raw.values().contains(o[i]));
        let k = choose|k: u64| raw.contains_key(k) && raw[k] == o[i];
        assert(m[k].0 == k);
    }
    assert forall|i: int|
        0 <= i < vs.len() implies kvp_encodable(#[trigger] vs[i]) && (vs[i].1 matches ValueModel::Bytes(
        b,
    ) ==> b.len() <= kvp_max_bytes()) by {
        assert(vs[i] == o[i]@);
        assert(m[o[i].key] == vs[i]);
    }
    let empty = Map::<u64, (u64, ValueModel)>::empty();
    assert forall|i: int, j: int| 0 <= i < j < vs.len() implies (#[trigger] vs[i]).0 != (
    #[trigger] vs[j]).0 by {
        assert(vs[i] == o[i]@ && vs[j] == o[j]@);
        if o[i].key == o[j].key {
            assert(o[i] == o[j]);
        }
    }
    assert forall|k: u64| #[trigger] m.contains_key(k) <==> empty.contains_key(k) || exists|i: int|
        0 <= i < vs.len() && (#[trigger] vs[i]).0 == k by {
        if m.contains_key(k) {
            assert(raw.values().contains(raw[k]));
            assert(o.to_set().contains(raw[k]));
            let i = choose|i: int| 0 <= i < o.len() && o[i] == raw[k];
            assert(vs[i] == o[i]@);
            assert(m[k].0 == k);
        }
        if exists|i: int| 0 <= i < vs.len() && (#[trigger] vs[i]).0 == k {
            let i = choose|i: int| 0 <= i < vs.len() && (#[trigger] vs[i]).0 == k;
            assert(vs[i] == o[i]@);
        }
    }
    assert forall|i: int| 0 <= i < vs.len() implies #[trigger] m[vs[i].0] == vs[i] by {
        assert(vs[i] == o[i]@);
    }
    lemma_kvp_run_roundtrip(vs, empty, m);
    let c = kvps_concat(vs);
    let s = kvps_bytes(vs) + rest;
    lemma_varint_roundtrip(c.len() as u64, c + rest);
    assert(s =~= varint_bytes(c.len() as u64) + (c + rest));
    let n = varint_bytes(c.len() as u64).len() as int;
    if c.len() == 0 {
        lemma_kvps_concat_len(vs);
        assert(m =~= empty);
    } else {
        assert(s.subrange(n, n + c.len()) =~= c);
    }
}

} // verus!

verus! {

/// Every finite map of pairs can be listed in some order.
pub proof fn lemma_kvps_has_order(m: Map<u64, KeyValuePair>)
    requires
        m.dom().finite(),
    ensures
        exists|o: Seq<KeyValuePair>| kvps_order(m, o),
    decreases m.dom().len(),
{
    if m.dom().len() == 0 {
        assert(m.dom() =~= Set::<u64>::empty());
        let o = Seq::<KeyValuePair>::empty();
        assert(o.to_set() =~= m.values());
        assert(kvps_order(m, o));
    } else {
        let k = m.dom().choose();
        let m2 = m.remove(k);
        lemma_kvps_has_order(m2);
        let o2 = choose|o: Seq<KeyValuePair>| kvps_order(m2, o);
        let o = o2.push(m[k]);
        assert forall|v: KeyValuePair| #[trigger] o.to_set().contains(v) <==> m.values().contains(v) by {
            if o.to_set().contains(v) {
                let i = choose|i: int| 0 <= i < o.len() && o[i] == v;
                if i < o2.len() {
                    assert(o2.to_set().contains(o2[i]));
                    assert(m2.values().contains(v));
                    let j = choose|j: u64| m2.contains_key(j) && m2[j] == v;
                    assert(m.contains_key(j) && m[j] == v);
                } else {
                    assert(m.contains_key(k) && m[k] == v);
                }
            }
            if m.values().contains(v) {
                let j = choose|j: u64| m.contains_key(j) && m[j] == v;
                if j == k {
                    assert(o[o.len() - 1] == v);
                } else {
                    assert(m2.contains_key(j) && m2[j] == v);
                    assert(m2.values().contains(v));
                    assert(o2.to_set().contains(v));
                    let i = choose|i: int| 0 <= i < o2.len() && o2[i] == v;
                    assert(o[i] == v);
                }
            }
        }
        assert(o.to_set() =~= m.values());
        assert(kvps_order(m, o));
    }
}

} // verus!

verus! {

/// What decoding needs of a map of pairs written in the order `o` to give it back: `o`
/// lists the map, each pair sits under its own key, can be encoded, carries at most
/// `u16::MAX` bytes, and the total length fits.
pub open spec fn kvps_wire_ok(m: Map<u64, KeyValuePair>, o: Seq<KeyValuePair>) -> bool {
    &&& kvps_order(m, o)
    &&& kvps_keyed(kvps_view(m))
    &&& forall|k: u64|
        kvps_view(m).contains_key(k) ==> kvp_encodable(#[trigger] kvps_view(m)[k]) && (kvps_view(
            m,
        )[k].1 matches ValueModel::Bytes(b) ==> b.len() <= kvp_max_bytes())
    &&& kvps_concat(kvps_seq_view(o)).len() < varint_bound()
    &&& kvps_concat(kvps_seq_view(o)).len() <= usize::MAX
}

} // verus!
