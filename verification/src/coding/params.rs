use std::collections::HashMap;
use vstd::prelude::*;
use vstd::std_specs::iter::IteratorSpec;

use super::buf::{buf_bytes, encoded, lemma_encoded_fail, lemma_encoded_then, lemma_skip_skip};
use super::bytes_field::{
    bytes_field, decode_bytes, encode_bytes, lemma_bytes_roundtrip, spec_decode_bytes,
};
use super::error::{DecodeError, EncodeError};
use super::integer::{decode_u64, encode_u64, encode_usize};
use super::varint::{lemma_varint_roundtrip, spec_decode_varint, varint_bound, varint_bytes};

verus! {

broadcast use crate::coding::varint::lemma_decode_varint_len;

/// Setup and control-message parameters: byte strings keyed by number.
#[derive(Clone, Debug, PartialEq, Eq)]
pub struct Params(pub HashMap<u64, Vec<u8>>);

impl View for Params {
    type V = Map<u64, Seq<u8>>;

    open spec fn view(&self) -> Map<u64, Seq<u8>> {
        self.0@.map_values(|v: Vec<u8>| v@)
    }
}

/// The wire form of one parameter: its key, then its length-prefixed bytes.
pub open spec fn param_bytes(p: (u64, Seq<u8>)) -> Seq<u8> {
    varint_bytes(p.0) + bytes_field(p.1)
}

/// One parameter can be encoded when its key and length fit a variable-length integer.
pub open spec fn param_encodable(p: (u64, Seq<u8>)) -> bool {
    p.0 < varint_bound() && p.1.len() < varint_bound()
}

/// The wire forms of parameters, one after another.
pub open spec fn params_concat(o: Seq<(u64, Seq<u8>)>) -> Seq<u8>
    decreases o.len(),
{
    if o.len() == 0 {
        Seq::empty()
    } else {
        param_bytes(o[0]) + params_concat(o.drop_first())
    }
}

/// The wire form of parameters written in the order `o`: their count, then each one.
pub open spec fn params_bytes(o: Seq<(u64, Seq<u8>)>) -> Seq<u8> {
    varint_bytes(o.len() as u64) + params_concat(o)
}

/// Parameters written in the order `o` can be encoded.
pub open spec fn params_encodable(o: Seq<(u64, Seq<u8>)>) -> bool {
    &&& o.len() < varint_bound()
    &&& forall|i: int| 0 <= i < o.len() ==> #[trigger] param_encodable(o[i])
}

/// `o` lists the entries of `m`, each key once.
pub open spec fn params_order(m: Map<u64, Seq<u8>>, o: Seq<(u64, Seq<u8>)>) -> bool {
    &&& forall|i: int| 0 <= i < o.len() ==> m.contains_key((#[trigger] o[i]).0) && m[o[i].0] == o[i].1
    &&& forall|k: u64| m.contains_key(k) ==> exists|i: int| 0 <= i < o.len() && (#[trigger] o[i]).0 == k
    &&& forall|i: int, j: int| 0 <= i < j < o.len() ==> (#[trigger] o[i]).0 != (#[trigger] o[j]).0
}

/// Adds `d` to the byte count of a successful decoding.
pub open spec fn shifted<T>(r: Result<(T, int), DecodeError>, d: int) -> Result<(T, int), DecodeError> {
    match r {
        Ok((v, n)) => Ok((v, n + d)),
        Err(e) => Err(e),
    }
}

/// Decoding `k` parameters one after another from the front of `s`, adding them to
/// `acc`; a key seen twice is refused.
pub open spec fn spec_decode_param_run(s: Seq<u8>, k: nat, acc: Map<u64, Seq<u8>>) -> Result<
    (Map<u64, Seq<u8>>, int),
    DecodeError,
>
    decreases k,
{
    if k == 0 {
        Ok((acc, 0))
    } else {
        match spec_decode_varint(s) {
            Ok((kind, n)) => if acc.contains_key(kind) {
                Err(DecodeError::DuplicateParameter(kind))
            } else {
                match spec_decode_bytes(s.skip(n)) {
                    Ok((v, m)) => shifted(
                        spec_decode_param_run(s.skip(n + m), (k - 1) as nat, acc.insert(kind, v)),
                        n + m,
                    ),
                    Err(e) => Err(e),
                }
            },
            Err(e) => Err(e),
        }
    }
}

/// Decoding parameters from the front of `s`: their count, then each one.
pub open spec fn spec_decode_params(s: Seq<u8>) -> Result<(Map<u64, Seq<u8>>, int), DecodeError> {
    match spec_decode_varint(s) {
        Ok((count, n)) => shifted(spec_decode_param_run(s.skip(n), count as nat, Map::empty()), n),
        Err(e) => Err(e),
    }
}

/// The wire form of parameters splits at any point of the order.
pub proof fn lemma_params_concat_append(a: Seq<(u64, Seq<u8>)>, b: Seq<(u64, Seq<u8>)>)
    ensures
        params_concat(a + b) == params_concat(a) + params_concat(b),
    decreases a.len(),
{
    if a.len() == 0 {
        assert(a + b =~= b);
        assert(params_concat(a) + params_concat(b) =~= params_concat(b));
    } else {
        assert((a + b).drop_first() =~= a.drop_first() + b);
        lemma_params_concat_append(a.drop_first(), b);
        assert(params_concat(a + b) =~= params_concat(a) + params_concat(b));
    }
}

/// Writing the first `i + 1` parameters writes the first `i`, then the next one.
pub proof fn lemma_params_concat_take(o: Seq<(u64, Seq<u8>)>, i: int)
    requires
        0 <= i < o.len(),
    ensures
        params_concat(o.take(i + 1)) == params_concat(o.take(i)) + param_bytes(o[i]),
        params_concat(o.take(i + 1)).len() <= params_concat(o).len(),
{
    let one = seq![o[i]];
    assert(o.take(i + 1) =~= o.take(i) + one);
    lemma_params_concat_append(o.take(i), one);
    assert(one.drop_first() =~= Seq::<(u64, Seq<u8>)>::empty());
    assert(params_concat(one.drop_first()) == Seq::<u8>::empty());
    assert(params_concat(one) =~= param_bytes(o[i]));
    assert(o =~= o.take(i + 1) + o.skip(i + 1));
    lemma_params_concat_append(o.take(i + 1), o.skip(i + 1));
}

/// One encodable parameter decodes from the front of its wire form, whatever follows.
pub proof fn lemma_param_step(p: (u64, Seq<u8>), tail: Seq<u8>)
    requires
        param_encodable(p),
        p.1.len() <= usize::MAX,
    ensures
        ({
            let s = param_bytes(p) + tail;
            let n = varint_bytes(p.0).len() as int;
            let m = bytes_field(p.1).len() as int;
            &&& spec_decode_varint(s) == Ok::<(u64, int), DecodeError>((p.0, n))
            &&& spec_decode_bytes(s.skip(n)) == Ok::<(Seq<u8>, int), DecodeError>((p.1, m))
            &&& s.skip(n + m) == tail
            &&& n + m == param_bytes(p).len()
        }),
{
    let s = param_bytes(p) + tail;
    assert(s =~= varint_bytes(p.0) + (bytes_field(p.1) + tail));
    lemma_varint_roundtrip(p.0, bytes_field(p.1) + tail);
    let n = varint_bytes(p.0).len() as int;
    assert(s.skip(n) =~= bytes_field(p.1) + tail);
    lemma_bytes_roundtrip(p.1, tail);
    let m = bytes_field(p.1).len() as int;
    assert(s.skip(n + m) =~= tail);
}

/// Decoding the wire form of encodable parameters with distinct keys, none of them in
/// `acc`, adds exactly those parameters to `acc`.
#[verifier::rlimit(40)]
pub proof fn lemma_param_run_roundtrip(
    o: Seq<(u64, Seq<u8>)>,
    rest: Seq<u8>,
    acc: Map<u64, Seq<u8>>,
    target: Map<u64, Seq<u8>>,
)
    requires
        forall|i: int| 0 <= i < o.len() ==> #[trigger] param_encodable(o[i]),
        forall|i: int| 0 <= i < o.len() ==> (#[trigger] o[i]).1.len() <= usize::MAX,
        forall|i: int, j: int| 0 <= i < j < o.len() ==> (#[trigger] o[i]).0 != (#[trigger] o[j]).0,
        forall|i: int| 0 <= i < o.len() ==> !acc.contains_key((#[trigger] o[i]).0),
        forall|i: int| 0 <= i < o.len() ==> target.contains_key((#[trigger] o[i]).0) && target[o[i].0] == o[i].1,
        forall|k: u64| #[trigger] target.contains_key(k) <==> acc.contains_key(k) || exists|i: int| 0 <= i < o.len() && (#[trigger] o[i]).0 == k,
        forall|k: u64| acc.contains_key(k) ==> #[trigger] target[k] == acc[k],
    ensures
        spec_decode_param_run(params_concat(o) + rest, o.len(), acc) == Ok::<(Map<u64, Seq<u8>>, int), DecodeError>(
            (target, params_concat(o).len() as int),
        ),
    decreases o.len(),
{
    if o.len() == 0 {
        assert(target =~= acc);
        assert(params_concat(o) + rest =~= rest);
    } else {
        let p = o[0];
        let t = o.drop_first();
        let tail = params_concat(t) + rest;
        assert(param_encodable(o[0]));
        assert(params_concat(o) + rest =~= param_bytes(p) + tail);
        lemma_param_step(p, tail);
        let acc2 = acc.insert(p.0, p.1);
        assert forall|i: int| 0 <= i < t.len() implies !acc2.contains_key((#[trigger] t[i]).0) by {
            assert(t[i] == o[i + 1]);
        }
        assert forall|k: u64| #[trigger] target.contains_key(k) <==> acc2.contains_key(k) || exists|i: int|
            0 <= i < t.len() && (#[trigger] t[i]).0 == k by {
            if exists|i: int| 0 <= i < o.len() && (#[trigger] o[i]).0 == k {
                let i = choose|i: int| 0 <= i < o.len() && (#[trigger] o[i]).0 == k;
                if i > 0 {
                    assert(t[i - 1] == o[i]);
                }
            }
            if exists|i: int| 0 <= i < t.len() && (#[trigger] t[i]).0 == k {
                let i = choose|i: int| 0 <= i < t.len() && (#[trigger] t[i]).0 == k;
                assert(t[i] == o[i + 1]);
            }
        }
        assert forall|i: int| 0 <= i < t.len() implies #[trigger] param_encodable(t[i]) && t[i].1.len()
            <= usize::MAX && target.contains_key(t[i].0) && target[t[i].0] == t[i].1 by {
            assert(t[i] == o[i + 1]);
        }
        assert forall|i: int, j: int| 0 <= i < j < t.len() implies (#[trigger] t[i]).0 != (
        #[trigger] t[j]).0 by {
            assert(t[i] == o[i + 1] && t[j] == o[j + 1]);
        }
        lemma_param_run_roundtrip(t, rest, acc2, target);
    }
}

/// Decoding what `encode` writes gives back the same parameters, whatever order the
/// map yielded them in, provided every key and length fits a variable-length integer.
pub proof fn lemma_params_roundtrip(m: Map<u64, Seq<u8>>, o: Seq<(u64, Seq<u8>)>, rest: Seq<u8>)
    requires
        params_order(m, o),
        params_encodable(o),
        forall|k: u64| m.contains_key(k) ==> (#[trigger] m[k]).len() <= usize::MAX,
    ensures
        spec_decode_params(params_bytes(o) + rest) == Ok::<(Map<u64, Seq<u8>>, int), DecodeError>(
            (m, params_bytes(o).len() as int),
        ),
{
    let s = params_bytes(o) + rest;
    lemma_varint_roundtrip(o.len() as u64, params_concat(o) + rest);
    assert(s =~= varint_bytes(o.len() as u64) + (params_concat(o) + rest));
    let n = varint_bytes(o.len() as u64).len() as int;
    assert(s.skip(n) =~= params_concat(o) + rest);
    assert forall|i: int| 0 <= i < o.len() implies (#[trigger] o[i]).1.len() <= usize::MAX by {
        assert(m.contains_key(o[i].0));
    }
    lemma_param_run_roundtrip(o, rest, Map::empty(), m);
}

/// Every finite map of parameters can be listed in some order.
pub proof fn lemma_params_has_order(m: Map<u64, Seq<u8>>)
    requires
        m.dom().finite(),
    ensures
        exists|o: Seq<(u64, Seq<u8>)>| params_order(m, o),
    decreases m.dom().len(),
{
    if m.dom().len() == 0 {
        assert(m.dom() =~= Set::<u64>::empty());
        assert(params_order(m, Seq::<(u64, Seq<u8>)>::empty()));
    } else {
        let k = m.dom().choose();
        let m2 = m.remove(k);
        lemma_params_has_order(m2);
        let o2 = choose|o: Seq<(u64, Seq<u8>)>| params_order(m2, o);
        let o = o2.push((k, m[k]));
        assert forall|i: int| 0 <= i < o.len() implies m.contains_key((#[trigger] o[i]).0) && m[o[i].0]
            == o[i].1 by {
            if i < o2.len() {
                assert(o[i] == o2[i]);
            }
        }
        assert forall|x: u64| m.contains_key(x) implies exists|i: int|
            0 <= i < o.len() && (#[trigger] o[i]).0 == x by {
            if x == k {
                assert(o[o.len() - 1].0 == x);
            } else {
                assert(m2.contains_key(x));
                let i = choose|i: int| 0 <= i < o2.len() && (#[trigger] o2[i]).0 == x;
                assert(o[i] == o2[i]);
            }
        }
        assert forall|i: int, j: int| 0 <= i < j < o.len() implies (#[trigger] o[i]).0 != (
        #[trigger] o[j]).0 by {
            if j < o2.len() {
                assert(o[i] == o2[i] && o[j] == o2[j]);
            } else {
                assert(o[i] == o2[i]);
                assert(m2.contains_key(o2[i].0));
            }
        }
        assert(params_order(m, o));
    }
}

/// Appends one parameter: its key, then its length-prefixed bytes.
fn encode_param(kind: u64, value: &Vec<u8>, w: &mut bytes::BytesMut) -> (res: Result<(), EncodeError>)
    ensures
        encoded(
            res,
            buf_bytes(*old(w)),
            buf_bytes(*final(w)),
            param_encodable((kind, value@)),
            param_bytes((kind, value@)),
            EncodeError::BoundsExceeded,
        ),
{
    let ghost b0 = buf_bytes(*w);
    let r1 = encode_u64(kind, w);
    let ghost b1 = buf_bytes(*w);
    if r1.is_err() {
        proof {
            lemma_encoded_fail(r1, b0, b1, kind < varint_bound(), varint_bytes(kind),
                EncodeError::BoundsExceeded, value@.len() < varint_bound(), bytes_field(value@),
                EncodeError::BoundsExceeded);
        }
        return r1;
    }
    let r2 = encode_bytes(value.as_slice(), w);
    proof {
        lemma_encoded_then(r1, b0, b1, kind < varint_bound(), varint_bytes(kind),
            EncodeError::BoundsExceeded, r2, buf_bytes(*w), value@.len() < varint_bound(),
            bytes_field(value@), EncodeError::BoundsExceeded);
    }
    r2
}

impl Default for Params {
    fn default() -> (p: Self)
        ensures
            p@ == Map::<u64, Seq<u8>>::empty(),
    {
        Params::new()
    }
}

impl Params {
    /// No parameters.
    pub fn new() -> (p: Self)
        ensures
            p@ == Map::<u64, Seq<u8>>::empty(),
    {
        let p = Params(HashMap::new());
        assert(p@ =~= Map::<u64, Seq<u8>>::empty());
        p
    }

    /// Tells whether a parameter is stored under `key`.
    pub fn has(&self, key: u64) -> (r: bool)
        ensures
            r == self@.contains_key(key),
    {
        self.0.contains_key(&key)
    }

    /// Reads the number of parameters, then each parameter; a repeated key is refused.
    pub fn decode(r: &mut bytes::BytesMut) -> (res: Result<Params, DecodeError>)
        ensures
            match spec_decode_params(buf_bytes(*old(r))) {
                Ok((m, n)) => res is Ok && res->Ok_0@ == m && buf_bytes(*final(r)) == buf_bytes(
                    *old(r),
                ).skip(n) && 0 < n <= buf_bytes(*old(r)).len(),
                Err(e) => res == Err::<Params, DecodeError>(e),
            },
    {
        let ghost s = buf_bytes(*r);
        let count = decode_u64(r)?;
        let ghost n0 = s.len() - buf_bytes(*r).len();
        let mut params = Params::new();
        let mut i: u64 = 0;
        let ghost mut consumed: int = n0;
        while i < count
            invariant
                s == buf_bytes(*old(r)),
                spec_decode_varint(s) == Ok::<(u64, int), DecodeError>((count, n0)),
                0 < n0 <= consumed <= s.len(),
                i <= count,
                buf_bytes(*r) == s.skip(consumed),
                spec_decode_params(s) == shifted(
                    spec_decode_param_run(buf_bytes(*r), (count - i) as nat, params@),
                    consumed,
                ),
            decreases count - i,
        {
            let ghost cur = buf_bytes(*r);
            let kind = decode_u64(r)?;
            let ghost n = cur.len() - buf_bytes(*r).len();
            if params.0.contains_key(&kind) {
                return Err(DecodeError::DuplicateParameter(kind));
            }
            let ghost mid = buf_bytes(*r);
            let value = decode_bytes(r)?;
            let ghost m = mid.len() - buf_bytes(*r).len();
            proof {
                lemma_skip_skip(cur, n, m);
                lemma_skip_skip(s, consumed, n + m);
                assert(params@.insert(kind, value@) =~= params@.insert(kind, value@));
            }
            let ghost before = params@;
            params.0.insert(kind, value);
            assert(params@ =~= before.insert(kind, value@));
            proof {
                consumed = consumed + n + m;
            }
            i = i + 1;
        }
        Ok(params)
    }

    /// Appends the number of parameters, then each parameter, in the order in which the
    /// map yields them.
    pub fn encode(&self, w: &mut bytes::BytesMut) -> (res: Result<(), EncodeError>)
        ensures
            exists|o: Seq<(u64, Seq<u8>)>|
                params_order(self@, o) && o.len() == self@.dom().len() && encoded(
                    res,
                    buf_bytes(*old(w)),
                    buf_bytes(*final(w)),
                    params_encodable(o),
                    params_bytes(o),
                    EncodeError::BoundsExceeded,
                ),
    {
        let ghost b0 = buf_bytes(*w);
        let iter = self.0.iter();
        let ghost all: Seq<(u64, Vec<u8>)> = IteratorSpec::remaining(&iter).unref();
        let ghost vs: Seq<(u64, Seq<u8>)> = all.map_values(|p: (u64, Vec<u8>)| (p.0, p.1@));
        proof {
            let r = IteratorSpec::remaining(&iter);
            assert forall|i: int| 0 <= i < vs.len() implies self@.contains_key((#[trigger] vs[i]).0)
                && self@[vs[i].0] == vs[i].1 by {
                assert(self.0@.contains_key(*r[i].0) && self.0@[*r[i].0] == *r[i].1);
            }
            assert forall|k: u64| self@.contains_key(k) implies exists|i: int|
                0 <= i < vs.len() && (#[trigger] vs[i]).0 == k by {
                assert(r.contains((&k, &self.0@[k])));
                let i = choose|i: int| 0 <= i < r.len() && r[i] == (&k, &self.0@[k]);
                assert(vs[i].0 == k);
            }
            assert forall|i: int, j: int| 0 <= i < j < vs.len() implies (#[trigger] vs[i]).0 != (
            #[trigger] vs[j]).0 by {
                if vs[i].0 == vs[j].0 {
                    assert(self.0@.contains_key(*r[i].0) && self.0@[*r[i].0] == *r[i].1);
                    assert(self.0@.contains_key(*r[j].0) && self.0@[*r[j].0] == *r[j].1);
                    assert(r[i] == r[j]);
                }
            }
        }
        assert(self@.dom() =~= self.0@.dom());
        let count = self.0.len();
        let r0 = encode_usize(count, w);
        let ghost b1 = buf_bytes(*w);
        let ghost rest_ok = forall|i: int| 0 <= i < vs.len() ==> #[trigger] param_encodable(vs[i]);
        if r0.is_err() {
            proof {
                lemma_encoded_fail(r0, b0, b1, count < varint_bound(), varint_bytes(count as u64),
                    EncodeError::BoundsExceeded, rest_ok, params_concat(vs),
                    EncodeError::BoundsExceeded);
            }
            assert(params_order(self@, vs) && vs.len() == self@.dom().len());
            return r0;
        }
        assert(vs.take(0) =~= Seq::<(u64, Seq<u8>)>::empty());
        for (kind, value) in it: iter
            invariant
                all == it.seq().unref(),
                vs == all.map_values(|p: (u64, Vec<u8>)| (p.0, p.1@)),
                params_order(self@, vs),
                vs.len() == count,
                vs.len() == self@.dom().len(),
                count < varint_bound(),
                b0 == buf_bytes(*old(w)),
                buf_bytes(*w) == b0 + varint_bytes(count as u64) + params_concat(vs.take(it.index() as int)),
                forall|i: int| 0 <= i < it.index() ==> #[trigger] param_encodable(vs[i]),
        {
            let ghost i = it.index() as int;
            let ghost cur = buf_bytes(*w);
            assert(vs[i] == (*kind, value@));
            let r = encode_param(*kind, value, w);
            proof {
                lemma_params_concat_take(vs, i);
            }
            match r {
                Ok(()) => {
                    assert(buf_bytes(*w) =~= b0 + varint_bytes(count as u64) + params_concat(
                        vs.take(i + 1),
                    ));
                },
                Err(e) => {
                    proof {
                        assert(b0 + varint_bytes(count as u64) + params_concat(vs) =~= b0
                            + params_bytes(vs));
                        assert(params_order(self@, vs) && vs.len() == self@.dom().len());
                    }
                    return Err(e);
                },
            }
        }
        assert(vs.take(vs.len() as int) =~= vs);
        assert(buf_bytes(*w) =~= b0 + params_bytes(vs));
        assert(params_order(self@, vs) && vs.len() == self@.dom().len());
        Ok(())
    }
}

} // verus!
