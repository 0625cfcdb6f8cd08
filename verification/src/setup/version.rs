use vstd::prelude::*;

use crate::coding::buf::{
    buf_bytes, buf_capacity_limit, encoded, lemma_encoded_fail, lemma_skip_skip,
};
use crate::coding::error::{DecodeError, EncodeError};
use crate::coding::integer::{decode_u64, encode_u64, encode_usize};
use crate::coding::params::shifted;
use crate::coding::varint::{lemma_varint_roundtrip, spec_decode_varint, varint_bound, varint_bytes};

verus! {

broadcast use crate::coding::varint::lemma_decode_varint_len;

/// A version of the protocol.
#[derive(Clone, Copy, Debug, PartialEq, Eq, Structural, Hash)]
pub struct Version(pub u64);

/// The number of draft 06 of the specification.
pub const DRAFT_06: u64 = 0xff000006;

/// The number of draft 14 of the specification.
pub const DRAFT_14: u64 = 0xff00000e;

/// Versions, most preferred first.
#[derive(Clone, Debug, PartialEq, Eq)]
pub struct Versions(pub Vec<Version>);

impl View for Versions {
    type V = Seq<u64>;

    open spec fn view(&self) -> Seq<u64> {
        self.0@.map_values(|v: Version| v.0)
    }
}

/// The wire forms of versions, one after another.
pub open spec fn versions_concat(vs: Seq<u64>) -> Seq<u8>
    decreases vs.len(),
{
    if vs.len() == 0 {
        Seq::empty()
    } else {
        versions_concat(vs.drop_last()) + varint_bytes(vs.last())
    }
}

/// The wire form of a list of versions: how many, then each one.
pub open spec fn versions_bytes(vs: Seq<u64>) -> Seq<u8> {
    varint_bytes(vs.len() as u64) + versions_concat(vs)
}

/// A list of versions can be encoded: its length and every version fit a
/// variable-length integer.
pub open spec fn versions_encodable(vs: Seq<u64>) -> bool {
    &&& vs.len() < varint_bound()
    &&& forall|i: int| 0 <= i < vs.len() ==> #[trigger] vs[i] < varint_bound()
}

/// Decoding `k` versions one after another from the front of `s`.
pub open spec fn spec_decode_version_run(s: Seq<u8>, k: nat) -> Result<(Seq<u64>, int), DecodeError>
    decreases k,
{
    if k == 0 {
        Ok((Seq::empty(), 0))
    } else {
        match spec_decode_varint(s) {
            Ok((v, n)) => match spec_decode_version_run(s.skip(n), (k - 1) as nat) {
                Ok((vs, m)) => Ok((seq![v] + vs, n + m)),
                Err(e) => Err(e),
            },
            Err(e) => Err(e),
        }
    }
}

/// Decoding a list of versions from the front of `s`: how many, then each one.
pub open spec fn spec_decode_versions(s: Seq<u8>) -> Result<(Seq<u64>, int), DecodeError> {
    match spec_decode_varint(s) {
        Ok((count, n)) => shifted(spec_decode_version_run(s.skip(n), count as nat), n),
        Err(e) => Err(e),
    }
}

/// The wire forms of versions split between the first and the rest.
proof fn lemma_versions_concat_front(vs: Seq<u64>)
    requires
        vs.len() > 0,
    ensures
        versions_concat(vs) == varint_bytes(vs[0]) + versions_concat(vs.drop_first()),
    decreases vs.len(),
{
    if vs.len() == 1 {
        assert(vs.drop_last() =~= Seq::<u64>::empty());
        assert(vs.drop_first() =~= Seq::<u64>::empty());
        assert(versions_concat(vs.drop_last()) == Seq::<u8>::empty());
        assert(versions_concat(vs.drop_first()) == Seq::<u8>::empty());
        assert(vs.last() == vs[0]);
        assert(versions_concat(vs) =~= varint_bytes(vs[0]));
    } else {
        lemma_versions_concat_front(vs.drop_last());
        assert(vs.drop_last().drop_first() =~= vs.drop_first().drop_last());
        assert(vs.drop_first().last() == vs.last());
        assert(versions_concat(vs) =~= varint_bytes(vs[0]) + versions_concat(vs.drop_first()));
    }
}

/// Decoding the wire forms of encodable versions gives them back, whatever follows.
proof fn lemma_version_run_roundtrip(vs: Seq<u64>, rest: Seq<u8>)
    requires
        forall|i: int| 0 <= i < vs.len() ==> #[trigger] vs[i] < varint_bound(),
    ensures
        spec_decode_version_run(versions_concat(vs) + rest, vs.len()) == Ok::<(Seq<u64>, int), DecodeError>(
            (vs, versions_concat(vs).len() as int),
        ),
    decreases vs.len(),
{
    if vs.len() == 0 {
        assert(versions_concat(vs) + rest =~= rest);
        assert(vs =~= Seq::<u64>::empty());
    } else {
        lemma_versions_concat_front(vs);
        let t = vs.drop_first();
        assert forall|i: int| 0 <= i < t.len() implies #[trigger] t[i] < varint_bound() by {
            assert(t[i] == vs[i + 1]);
        }
        let tail = versions_concat(t) + rest;
        let s = versions_concat(vs) + rest;
        assert(s =~= varint_bytes(vs[0]) + tail);
        assert(vs[0] < varint_bound());
        lemma_varint_roundtrip(vs[0], tail);
        let n = varint_bytes(vs[0]).len() as int;
        assert(s.skip(n) =~= tail);
        lemma_version_run_roundtrip(t, rest);
        assert(seq![vs[0]] + t =~= vs);
    }
}

/// Decoding what `Versions::encode` writes gives back the same versions, for every
/// list that can be encoded.
pub proof fn lemma_versions_roundtrip(vs: Seq<u64>, rest: Seq<u8>)
    requires
        versions_encodable(vs),
    ensures
        spec_decode_versions(versions_bytes(vs) + rest) == Ok::<(Seq<u64>, int), DecodeError>(
            (vs, versions_bytes(vs).len() as int),
        ),
{
    let s = versions_bytes(vs) + rest;
    lemma_varint_roundtrip(vs.len() as u64, versions_concat(vs) + rest);
    assert(s =~= varint_bytes(vs.len() as u64) + (versions_concat(vs) + rest));
    let n = varint_bytes(vs.len() as u64).len() as int;
    assert(s.skip(n) =~= versions_concat(vs) + rest);
    lemma_version_run_roundtrip(vs, rest);
}

impl Versions {
    /// Appends how many versions there are, then each one.
    pub fn encode(&self, w: &mut bytes::BytesMut) -> (res: Result<(), EncodeError>)
        ensures
            encoded(
                res,
                buf_bytes(*old(w)),
                buf_bytes(*final(w)),
                versions_encodable(self@),
                versions_bytes(self@),
                EncodeError::BoundsExceeded,
            ),
    {
        let ghost vs = self@;
        let ghost b0 = buf_bytes(*w);
        let ghost rest_ok = forall|i: int| 0 <= i < vs.len() ==> #[trigger] vs[i] < varint_bound();
        let r0 = encode_usize(self.0.len(), w);
        let ghost b1 = buf_bytes(*w);
        if r0.is_err() {
            proof {
                lemma_encoded_fail(r0, b0, b1, (vs.len() as u64) < varint_bound(), varint_bytes(vs.len() as u64),
                    EncodeError::BoundsExceeded, rest_ok, versions_concat(vs), EncodeError::BoundsExceeded);
            }
            return r0;
        }
        assert(vs.take(0) =~= Seq::<u64>::empty());
        let mut i: usize = 0;
        while i < self.0.len()
            invariant
                vs == self@,
                i <= vs.len(),
                vs.len() < varint_bound(),
                buf_bytes(*w) == b1 + versions_concat(vs.take(i as int)),
                forall|j: int| 0 <= j < i ==> #[trigger] vs[j] < varint_bound(),
                buf_bytes(*w).len() == b1.len() + versions_concat(vs.take(i as int)).len(),
                b1 == b0 + varint_bytes(vs.len() as u64),
                b0 == buf_bytes(*old(w)),
            decreases self.0.len() - i,
        {
            let ghost before = buf_bytes(*w);
            let v = self.0[i].0;
            assert(v == vs[i as int]);
            let r = encode_u64(v, w);
            if r.is_err() {
                proof {
                    // Either the version is too large or the buffer ran out of room.
                    assert(vs.take(i + 1).drop_last() =~= vs.take(i as int));
                    if v < varint_bound() {
                        assert(versions_concat(vs.take(i + 1)) =~= versions_concat(vs.take(i as int)) + varint_bytes(v));
                        lemma_versions_prefix_len(vs, i as int + 1);
                        assert(before.len() + varint_bytes(v).len() > buf_capacity_limit());
                        assert(b0.len() + versions_bytes(vs).len() > buf_capacity_limit());
                    } else {
                        assert(!versions_encodable(vs)) by {
                            assert(vs[i as int] >= varint_bound());
                        }
                    }
                }
                return r;
            }
            proof {
                assert(vs.take(i + 1).drop_last() =~= vs.take(i as int));
                assert(versions_concat(vs.take(i + 1)) =~= versions_concat(vs.take(i as int)) + varint_bytes(v));
                assert(buf_bytes(*w) =~= b1 + versions_concat(vs.take(i + 1)));
            }
            i += 1;
        }
        proof {
            assert(vs.take(vs.len() as int) =~= vs);
            assert(buf_bytes(*w) =~= b0 + versions_bytes(vs));
        }
        Ok(())
    }

    /// Reads how many versions there are, then each one.
    pub fn decode(r: &mut bytes::BytesMut) -> (res: Result<Versions, DecodeError>)
        ensures
            match spec_decode_versions(buf_bytes(*old(r))) {
                Ok((vs, n)) => res is Ok && res->Ok_0@ == vs && buf_bytes(*final(r)) == buf_bytes(*old(r)).skip(n)
                    && 0 < n <= buf_bytes(*old(r)).len(),
                Err(e) => res == Err::<Versions, DecodeError>(e),
            },
    {
        let ghost s = buf_bytes(*r);
        let count = decode_u64(r)?;
        let ghost n0 = s.len() - buf_bytes(*r).len();
        let mut vs: Vec<Version> = Vec::new();
        let mut i: u64 = 0;
        let ghost mut consumed: int = n0;
        while i < count
            invariant
                s == buf_bytes(*old(r)),
                spec_decode_varint(s) == Ok::<(u64, int), DecodeError>((count, n0)),
                0 < n0 <= consumed <= s.len(),
                i <= count,
                buf_bytes(*r) == s.skip(consumed),
                spec_decode_versions(s) == shifted(
                    match spec_decode_version_run(buf_bytes(*r), (count - i) as nat) {
                        Ok((rest, m)) => Ok((vs@.map_values(|v: Version| v.0) + rest, m)),
                        Err(e) => Err(e),
                    },
                    consumed,
                ),
            decreases count - i,
        {
            let ghost cur = buf_bytes(*r);
            let v = decode_u64(r)?;
            let ghost n = cur.len() - buf_bytes(*r).len();
            proof {
                lemma_skip_skip(s, consumed, n);
                consumed = consumed + n;
            }
            let ghost before = vs@.map_values(|v: Version| v.0);
            vs.push(Version(v));
            assert(vs@.map_values(|v: Version| v.0) =~= before.push(v));
            proof {
                assert forall|rest: Seq<u64>| before + (seq![v] + rest) == #[trigger] (before.push(v) + rest) by {
                    assert(before + (seq![v] + rest) =~= before.push(v) + rest);
                }
            }
            i = i + 1;
        }
        proof {
            assert(vs@.map_values(|v: Version| v.0) + Seq::<u64>::empty() =~= vs@.map_values(|v: Version| v.0));
        }
        Ok(Versions(vs))
    }

    /// The most recent version that both lists hold, if they share one.
    pub fn largest_common(&self, other: &Versions) -> (r: Option<Version>)
        ensures
            r is None <==> (forall|i: int| 0 <= i < self@.len() ==> !other@.contains(#[trigger] self@[i])),
            r matches Some(v) ==> self@.contains(v.0) && other@.contains(v.0) && forall|i: int|
                0 <= i < self@.len() && other@.contains(#[trigger] self@[i]) ==> self@[i] <= v.0,
    {
        let mut best: Option<Version> = None;
        let mut i: usize = 0;
        while i < self.0.len()
            invariant
                i <= self@.len(),
                self@.len() == self.0@.len(),
                best is None <==> (forall|j: int| 0 <= j < i ==> !other@.contains(#[trigger] self@[j])),
                best matches Some(v) ==> self@.contains(v.0) && other@.contains(v.0) && forall|j: int|
                    0 <= j < i && other@.contains(#[trigger] self@[j]) ==> self@[j] <= v.0,
            decreases self.0.len() - i,
        {
            let v = self.0[i];
            assert(v.0 == self@[i as int]);
            if other.contains(v) {
                let better = match best {
                    Some(b) => b.0 < v.0,
                    None => true,
                };
                if better {
                    best = Some(v);
                }
            }
            i += 1;
        }
        best
    }

    /// Whether the list holds `v`.
    pub fn contains(&self, v: Version) -> (r: bool)
        ensures
            r == self@.contains(v.0),
    {
        let mut i: usize = 0;
        while i < self.0.len()
            invariant
                i <= self@.len(),
                self@.len() == self.0@.len(),
                forall|j: int| 0 <= j < i ==> self@[j] != v.0,
            decreases self.0.len() - i,
        {
            if self.0[i].0 == v.0 {
                assert(self@[i as int] == v.0);
                return true;
            }
            i += 1;
        }
        false
    }
}

/// The wire form of the first `i` versions is no longer than that of all of them.
proof fn lemma_versions_prefix_len(vs: Seq<u64>, i: int)
    requires
        0 <= i <= vs.len(),
    ensures
        versions_concat(vs.take(i)).len() <= versions_concat(vs).len(),
    decreases vs.len() - i,
{
    if i < vs.len() {
        lemma_versions_prefix_len(vs, i + 1);
        assert(vs.take(i + 1).drop_last() =~= vs.take(i));
    } else {
        assert(vs.take(i) =~= vs);
    }
}

} // verus!
