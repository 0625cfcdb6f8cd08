use vstd::prelude::*;
use vstd::string::StringSliceAdditionalSpecFns;
use vstd::utf8::encode_utf8;

use crate::coding::string::{lenient_utf8, string_from_utf8_lossy};
use crate::coding::text::{
    lemma_encode_avoids, lemma_lenient_encode, lemma_split_bytes_append, lemma_split_bytes_nonempty, split_bytes,
};
use crate::serve::{ServeError, TrackReader};

verus! {

/// No name occurs twice.
pub open spec fn names_distinct(s: Seq<Seq<char>>) -> bool {
    forall|i: int, j: int| 0 <= i < j < s.len() ==> s[i] != s[j]
}

/// A listing snapshot: every name followed by a newline.
pub open spec fn snapshot_bytes(names: Seq<Seq<char>>) -> Seq<u8>
    decreases names.len(),
{
    if names.len() == 0 {
        Seq::empty()
    } else {
        snapshot_bytes(names.drop_last()) + encode_utf8(names.last()) + seq![0x0au8]
    }
}

/// A listing delta: `+` or `-`, then the name.
pub open spec fn delta_bytes(sign: u8, name: Seq<char>) -> Seq<u8> {
    seq![sign] + encode_utf8(name)
}

/// What the listing writer must append to its track after a change.
#[derive(Clone, Debug, PartialEq, Eq)]
pub enum ListingWrite {
    /// One object appended to the current subgroup.
    Delta(Vec<u8>),
    /// A new subgroup, whose first object lists every name.
    Snapshot(Vec<u8>),
}

/// A write as plain data: whether it starts a new subgroup, and the object's bytes.
pub open spec fn listing_write_view(w: ListingWrite) -> (bool, Seq<u8>) {
    match w {
        ListingWrite::Delta(b) => (false, b@),
        ListingWrite::Snapshot(b) => (true, b@),
    }
}

/// The write owed after a change that leaves `names`, given how many objects the current
/// subgroup holds (if one was started): a delta while the names are fewer than twice that
/// many objects, else a snapshot in a new subgroup. Also the object count afterwards.
pub open spec fn listing_step(objects: Option<usize>, names: Seq<Seq<char>>, sign: u8, name: Seq<char>) -> ((bool, Seq<u8>), Option<usize>) {
    if objects is Some && names.len() < 2 * objects->0 {
        (
            (false, delta_bytes(sign, name)),
            Some(if objects->0 < usize::MAX { (objects->0 + 1) as usize } else { objects->0 }),
        )
    } else {
        ((true, snapshot_bytes(names)), Some(1usize))
    }
}

/// Publishes a listing of names as a track: snapshots of every name, each followed by
/// deltas until a new snapshot is cheaper.
pub struct ListingWriter {
    current: Vec<String>,
    objects: Option<usize>,
    /// The calls made so far: `(true, n)` for `insert(n)`, `(false, n)` for `remove(n)`.
    calls: Ghost<Seq<(bool, Seq<char>)>>,
}

impl ListingWriter {
    /// No name is listed twice, and the names listed are those the calls so far leave.
    pub closed spec fn wf(&self) -> bool {
        &&& names_distinct(self.names())
        &&& self.names().to_set() == listed_after(self.history())
    }

    /// The calls of `insert` and `remove` made on this listing so far, oldest first:
    /// `(true, n)` for `insert(n)`, `(false, n)` for `remove(n)`, refused ones included.
    pub closed spec fn history(&self) -> Seq<(bool, Seq<char>)> {
        self.calls@
    }

    /// The names listed, in the order of the next snapshot.
    pub closed spec fn names(&self) -> Seq<Seq<char>> {
        self.current@.map_values(|s: String| s@)
    }

    /// How many objects the current subgroup holds, once one was started.
    pub closed spec fn objects(&self) -> Option<usize> {
        self.objects
    }

    /// An empty listing, with no subgroup started.
    pub fn new() -> (w: Self)
        ensures
            w.wf(),
            w.names() == Seq::<Seq<char>>::empty(),
            w.history() == Seq::<(bool, Seq<char>)>::empty(),
            w.objects() is None,
    {
        let w = ListingWriter { current: Vec::new(), objects: None, calls: Ghost(Seq::empty()) };
        assert(w.names().to_set() =~= Set::<Seq<char>>::empty());
        assert(w.names() =~= Seq::<Seq<char>>::empty());
        w
    }

    /// Where `name` is listed, if it is.
    fn position(&self, name: &String) -> (r: Option<usize>)
        ensures
            r matches Some(i) ==> i < self.names().len() && self.names()[i as int] == name@,
            r is None ==> !self.names().contains(name@),
    {
        let mut i: usize = 0;
        while i < self.current.len()
            invariant
                i <= self.current@.len(),
                forall|j: int| 0 <= j < i ==> self.names()[j] != name@,
            decreases self.current.len() - i,
        {
            if self.current[i] == *name {
                return Some(i);
            }
            i += 1;
        }
        None
    }

    /// Every listed name followed by a newline.
    fn snapshot(&self) -> (b: Vec<u8>)
        ensures
            b@ == snapshot_bytes(self.names()),
    {
        let mut msg: Vec<u8> = Vec::new();
        let mut i: usize = 0;
        while i < self.current.len()
            invariant
                i <= self.current@.len(),
                msg@ == snapshot_bytes(self.names().take(i as int)),
            decreases self.current.len() - i,
        {
            let mut part = vstd::slice::slice_to_vec(self.current[i].as_str().as_bytes());
            msg.append(&mut part);
            msg.push(0x0au8);
            let ghost n = self.names();
            assert(n.take(i + 1).drop_last() =~= n.take(i as int));
            assert(n.take(i + 1).last() == self.current@[i as int]@);
            i += 1;
        }
        assert(self.names().take(i as int) =~= self.names());
        msg
    }

    /// The write owed after a change of `name` marked by `sign`.
    fn step(&mut self, sign: u8, name: &str) -> (w: ListingWrite)
        ensures
            final(self).names() == old(self).names(),
            (listing_write_view(w), final(self).objects()) == listing_step(old(self).objects(), old(self).names(), sign, name@),
    {
        let len = self.current.len();
        match self.objects {
            Some(n) if len / 2 < n => {
                let mut msg: Vec<u8> = Vec::new();
                msg.push(sign);
                let mut part = vstd::slice::slice_to_vec(name.as_bytes());
                msg.append(&mut part);
                self.objects = Some(if n < usize::MAX { n + 1 } else { n });
                assert(msg@ =~= delta_bytes(sign, name@));
                ListingWrite::Delta(msg)
            },
            _ => {
                let msg = self.snapshot();
                self.objects = Some(1);
                ListingWrite::Snapshot(msg)
            },
        }
    }

    /// Adds a name; a name listed already is refused as a duplicate. On success, returns
    /// the object to write: a delta `+name` while the names are fewer than twice the
    /// objects of the current subgroup, else a snapshot in a new subgroup.
    pub fn insert(&mut self, name: String) -> (res: Result<ListingWrite, ServeError>)
        requires
            old(self).wf(),
        ensures
            final(self).wf(),
            old(self).names().contains(name@) ==> res == Err::<ListingWrite, ServeError>(ServeError::Duplicate)
                && final(self).names() == old(self).names() && final(self).objects() == old(self).objects(),
            final(self).names().to_set() == old(self).names().to_set().insert(name@),
            final(self).history() == old(self).history().push((true, name@)),
            !old(self).names().contains(name@) ==> res is Ok && final(self).names() == old(self).names().push(name@)
                && (listing_write_view(res->Ok_0), final(self).objects()) == listing_step(
                old(self).objects(),
                final(self).names(),
                0x2bu8,
                name@,
            ),
    {
        let ghost h = self.history();
        proof {
            lemma_listed_after_step(h, (true, name@));
        }
        if self.position(&name).is_some() {
            assert(self.names().to_set() =~= self.names().to_set().insert(name@));
            self.calls = Ghost(h.push((true, name@)));
            return Err(ServeError::Duplicate);
        }
        let ghost old_names = self.names();
        let ghost name_view = name@;
        let text = name.clone();
        self.current.push(name);
        assert(self.names() =~= old_names.push(name_view));
        assert(self.names().to_set() =~= old_names.to_set().insert(name_view)) by {
            assert forall|x: Seq<char>| #[trigger] old_names.contains(x) implies self.names().contains(x) by {
                let k = choose|k: int| 0 <= k < old_names.len() && old_names[k] == x;
                assert(self.names()[k] == x);
            }
            assert(self.names()[old_names.len() as int] == name_view);
        }
        assert forall|a: int, b: int| names_distinct(old_names) && 0 <= a < b < self.names().len()
            implies self.names()[a] != self.names()[b] by {
            if b == old_names.len() {
                assert(old_names[a] != name_view);
            }
        }
        let w = self.step(0x2bu8, text.as_str());
        self.calls = Ghost(h.push((true, name_view)));
        Ok(w)
    }

    /// Removes a name; a name not listed is refused as not found. On success, returns
    /// the object to write: a delta `-name` while the names are fewer than twice the
    /// objects of the current subgroup, else a snapshot in a new subgroup.
    pub fn remove(&mut self, name: &str) -> (res: Result<ListingWrite, ServeError>)
        requires
            old(self).wf(),
        ensures
            final(self).wf(),
            !old(self).names().contains(name@) ==> res == Err::<ListingWrite, ServeError>(ServeError::NotFound)
                && final(self).names() == old(self).names() && final(self).objects() == old(self).objects(),
            final(self).names().to_set() == old(self).names().to_set().remove(name@),
            final(self).history() == old(self).history().push((false, name@)),
            old(self).names().contains(name@) ==> res is Ok && (exists|i: int|
                0 <= i < old(self).names().len() && old(self).names()[i] == name@ && final(self).names()
                    == old(self).names().remove(i)) && (listing_write_view(res->Ok_0), final(self).objects())
                == listing_step(old(self).objects(), final(self).names(), 0x2du8, name@),
    {
        let owned = name.to_owned();
        let ghost h = self.history();
        proof {
            lemma_listed_after_step(h, (false, name@));
        }
        match self.position(&owned) {
            None => {
                assert(self.names().to_set() =~= self.names().to_set().remove(name@));
                self.calls = Ghost(h.push((false, name@)));
                Err(ServeError::NotFound)
            },
            Some(i) => {
                let ghost old_names = self.names();
                self.current.remove(i);
                assert(self.names() =~= old_names.remove(i as int));
                assert forall|a: int, b: int| names_distinct(old_names) && 0 <= a < b < self.names().len()
                    implies self.names()[a] != self.names()[b] by {
                    let a2 = if a < i { a } else { a + 1 };
                    let b2 = if b < i { b } else { b + 1 };
                    assert(self.names()[a] == old_names[a2] && self.names()[b] == old_names[b2]);
                }
                assert(self.names().to_set() =~= old_names.to_set().remove(name@)) by {
                    assert forall|x: Seq<char>| #[trigger] old_names.contains(x) && x != name@ implies self.names().contains(
                        x,
                    ) by {
                        let k = choose|k: int| 0 <= k < old_names.len() && old_names[k] == x;
                        if k < i {
                            assert(self.names()[k] == x);
                        } else {
                            assert(self.names()[k - 1] == x);
                        }
                    }
                    assert forall|x: Seq<char>| #[trigger] self.names().contains(x) implies old_names.contains(x)
                        && x != name@ by {
                        let k = choose|k: int| 0 <= k < self.names().len() && self.names()[k] == x;
                        let k2 = if k < i { k } else { k + 1 };
                        assert(old_names[k2] == x);
                    }
                }
                let w = self.step(0x2du8, name);
                self.calls = Ghost(h.push((false, name@)));
                Ok(w)
            },
        }
    }

    /// The number of names listed: the number of names whose latest call was an insert
    /// (a refused call changes nothing).
    pub fn len(&self) -> (n: usize)
        ensures
            n == self.names().len(),
            self.wf() ==> n == listed_after(self.history()).len(),
    {
        proof {
            if self.wf() {
                lemma_listing_counts_distinct_names(self);
            }
        }
        self.current.len()
    }

    /// Whether no name is listed.
    pub fn is_empty(&self) -> (r: bool)
        ensures
            r == (self.names().len() == 0),
    {
        self.current.len() == 0
    }
}

/// The names listed after a run of calls, from an empty listing: each `(true, n)` is an
/// `insert(n)`, each `(false, n)` a `remove(n)`, whether it succeeded or was refused.
pub open spec fn listed_after(ops: Seq<(bool, Seq<char>)>) -> Set<Seq<char>>
    decreases ops.len(),
{
    if ops.len() == 0 {
        Set::empty()
    } else {
        let prev = listed_after(ops.drop_last());
        let op = ops.last();
        if op.0 {
            prev.insert(op.1)
        } else {
            prev.remove(op.1)
        }
    }
}

/// One more call on a run: an insert adds its name to the names listed, a remove takes
/// its name away (a refused call changes nothing, as its name was listed already, or
/// was not listed).
pub proof fn lemma_listed_after_step(ops: Seq<(bool, Seq<char>)>, op: (bool, Seq<char>))
    ensures
        listed_after(ops.push(op)) == if op.0 {
            listed_after(ops).insert(op.1)
        } else {
            listed_after(ops).remove(op.1)
        },
        listed_after(ops).finite(),
    decreases ops.len(),
{
    assert(ops.push(op).drop_last() =~= ops);
    if ops.len() > 0 {
        lemma_listed_after_step(ops.drop_last(), ops.last());
        assert(ops.drop_last().push(ops.last()) =~= ops);
    }
}

/// The length of a listing over the run of calls made on it: it has as many names as
/// `listed_after` of its calls holds, that is, the names whose latest successful call
/// was an insert; a new listing has none.
pub proof fn lemma_listing_len_after_run(w: &ListingWriter)
    requires
        w.wf(),
    ensures
        w.names().len() == listed_after(w.history()).len(),
        w.history().len() == 0 ==> w.names().len() == 0,
{
    lemma_listing_counts_distinct_names(w);
}

/// A listing holds a set of names: it counts each of them once, so its length is the
/// number of distinct names listed.
pub proof fn lemma_listing_counts_distinct_names(w: &ListingWriter)
    requires
        w.wf(),
    ensures
        w.names().len() == w.names().to_set().len(),
{
    assert(w.names().no_duplicates()) by {
        assert forall|i: int, j: int| 0 <= i < w.names().len() && 0 <= j < w.names().len() && i != j implies w.names()[i]
            != w.names()[j] by {
            if j < i {
                assert(w.names()[j] != w.names()[i]);
            }
        }
    }
    w.names().unique_seq_to_set();
}

/// The pieces of `s` between newline bytes (an empty payload is one empty piece).
pub open spec fn split_lines(s: Seq<u8>) -> Seq<Seq<u8>> {
    split_bytes(s, 0x0au8)
}

pub proof fn lemma_split_lines_nonempty(s: Seq<u8>)
    ensures
        split_lines(s).len() >= 1,
{
    lemma_split_bytes_nonempty(s, 0x0au8);
}

/// Each piece read leniently as UTF-8.
pub open spec fn lenient_all(ps: Seq<Seq<u8>>) -> Seq<Seq<char>> {
    ps.map_values(|p: Seq<u8>| lenient_utf8(p))
}

/// The distinct elements of `s`, each where it first occurs.
pub open spec fn dedup(s: Seq<Seq<char>>) -> Seq<Seq<char>>
    decreases s.len(),
{
    if s.len() == 0 {
        Seq::empty()
    } else {
        let d = dedup(s.drop_last());
        if d.contains(s.last()) {
            d
        } else {
            d.push(s.last())
        }
    }
}

/// The elements of `s` that `other` lacks, in order.
pub open spec fn absent_from(s: Seq<Seq<char>>, other: Seq<Seq<char>>) -> Seq<Seq<char>>
    decreases s.len(),
{
    if s.len() == 0 {
        Seq::empty()
    } else {
        let d = absent_from(s.drop_last(), other);
        if other.contains(s.last()) {
            d
        } else {
            d.push(s.last())
        }
    }
}

/// The names a snapshot payload lists.
pub open spec fn snapshot_names(payload: Seq<u8>) -> Seq<Seq<char>> {
    dedup(lenient_all(split_lines(payload)))
}

/// Without repeats, `dedup` changes nothing.
proof fn lemma_dedup_distinct(s: Seq<Seq<char>>)
    requires
        names_distinct(s),
    ensures
        dedup(s) == s,
    decreases s.len(),
{
    if s.len() > 0 {
        let s0 = s.drop_last();
        assert(names_distinct(s0));
        lemma_dedup_distinct(s0);
        assert(!s0.contains(s.last())) by {
            if s0.contains(s.last()) {
                let i = choose|i: int| 0 <= i < s0.len() && s0[i] == s.last();
                assert(s[i] == s[s.len() - 1]);
            }
        }
        assert(s0.push(s.last()) =~= s);
    }
}

/// The lines of a snapshot are the encoded names, then the empty piece after the last
/// newline.
proof fn lemma_snapshot_lines(names: Seq<Seq<char>>)
    requires
        forall|i: int| 0 <= i < names.len() ==> !(#[trigger] names[i]).contains('\n'),
    ensures
        split_lines(snapshot_bytes(names)) == names.map_values(|n: Seq<char>| encode_utf8(n)).push(Seq::<u8>::empty()),
    decreases names.len(),
{
    if names.len() == 0 {
        assert(names.map_values(|n: Seq<char>| encode_utf8(n)).push(Seq::<u8>::empty()) =~= seq![Seq::<u8>::empty()]);
    } else {
        let n0 = names.drop_last();
        let w = names.last();
        assert forall|i: int| 0 <= i < n0.len() implies !(#[trigger] n0[i]).contains('\n') by {
            assert(n0[i] == names[i]);
        }
        lemma_snapshot_lines(n0);
        assert(!w.contains('\n')) by {
            assert(names[names.len() - 1] == w);
        }
        assert('\n' as u32 == 0x0au8 as u32);
        lemma_encode_avoids(w, '\n', 0x0au8);
        let x = snapshot_bytes(n0) + encode_utf8(w);
        lemma_split_bytes_append(snapshot_bytes(n0), encode_utf8(w), 0x0au8);
        assert(snapshot_bytes(names) =~= x.push(0x0au8));
        assert(x.push(0x0au8).drop_last() =~= x);
        let e0 = n0.map_values(|n: Seq<char>| encode_utf8(n));
        assert(e0.push(Seq::<u8>::empty()).update(e0.len() as int, Seq::<u8>::empty() + encode_utf8(w)) =~= e0.push(
            encode_utf8(w),
        ));
        assert(e0.push(encode_utf8(w)) =~= names.map_values(|n: Seq<char>| encode_utf8(n)));
    }
}

/// A reader gets back from a snapshot what the writer listed, followed by one empty
/// name (the empty piece after the last newline), for distinct non-empty names without
/// newlines.
pub proof fn lemma_snapshot_read_back(names: Seq<Seq<char>>)
    requires
        names_distinct(names),
        forall|i: int| 0 <= i < names.len() ==> !(#[trigger] names[i]).contains('\n'),
        forall|i: int| 0 <= i < names.len() ==> (#[trigger] names[i]).len() > 0,
    ensures
        snapshot_names(snapshot_bytes(names)) == names.push(Seq::<char>::empty()),
{
    lemma_snapshot_lines(names);
    let lines = names.map_values(|n: Seq<char>| encode_utf8(n)).push(Seq::<u8>::empty());
    assert forall|i: int| 0 <= i < names.len() implies #[trigger] lenient_utf8(lines[i]) == names[i] by {
        lemma_lenient_encode(names[i]);
    }
    lemma_lenient_encode(Seq::<char>::empty());
    assert(encode_utf8(Seq::<char>::empty()) =~= Seq::<u8>::empty());
    assert(lenient_all(lines) =~= names.push(Seq::<char>::empty()));
    let all = names.push(Seq::<char>::empty());
    assert(names_distinct(all)) by {
        assert forall|i: int, j: int| 0 <= i < j < all.len() implies all[i] != all[j] by {
            if j == names.len() {
                assert(all[i].len() > 0);
            }
        }
    }
    lemma_dedup_distinct(all);
}

/// A reader gets back from a delta the sign and the name the writer wrote.
pub proof fn lemma_delta_read_back(sign: u8, name: Seq<char>)
    ensures
        delta_bytes(sign, name).len() > 0,
        delta_bytes(sign, name)[0] == sign,
        lenient_utf8(delta_bytes(sign, name).skip(1)) == name,
{
    assert(delta_bytes(sign, name).skip(1) =~= encode_utf8(name));
    lemma_lenient_encode(name);
}

/// A change to a listing: a name added or removed.
#[derive(Clone, Debug, PartialEq, Eq)]
pub enum ListingDelta {
    Add(String),
    Rem(String),
}

/// A change as plain data: whether it adds, and the name.
pub open spec fn delta_view(d: ListingDelta) -> (bool, Seq<char>) {
    match d {
        ListingDelta::Add(n) => (true, n@),
        ListingDelta::Rem(n) => (false, n@),
    }
}

/// The changes that lead from the listing `old` to the snapshot `new`: the names added,
/// in the snapshot's order, then the names removed, in the old listing's order.
pub open spec fn snapshot_changes(old: Seq<Seq<char>>, new: Seq<Seq<char>>) -> Seq<(bool, Seq<char>)> {
    absent_from(new, old).map_values(|n: Seq<char>| (true, n)) + absent_from(old, new).map_values(
        |n: Seq<char>| (false, n),
    )
}

/// Why an object of a listing track cannot be read.
#[derive(Clone, Copy, Debug, PartialEq, Eq, Structural)]
pub enum ListingError {
    /// The object is empty.
    EmptyPayload,
    /// A delta starts with neither `+` nor `-`.
    InvalidDelta,
}

/// Follows a listing published as a track, turning its snapshots and deltas into
/// changes.
pub struct ListingReader {
    track: TrackReader,
    current: Vec<String>,
    deltas: Vec<ListingDelta>,
}

/// Whether `v` holds a text equal to `name`.
fn contains_name(v: &Vec<String>, name: &String) -> (r: bool)
    ensures
        r == v@.map_values(|s: String| s@).contains(name@),
{
    let mut i: usize = 0;
    while i < v.len()
        invariant
            i <= v@.len(),
            forall|j: int| 0 <= j < i ==> v@[j]@ != name@,
        decreases v.len() - i,
    {
        if v[i] == *name {
            assert(v@.map_values(|s: String| s@)[i as int] == name@);
            return true;
        }
        i += 1;
    }
    let ghost mv = v@.map_values(|s: String| s@);
    assert(!mv.contains(name@)) by {
        if mv.contains(name@) {
            let j = choose|j: int| 0 <= j < mv.len() && #[trigger] mv[j] == name@;
            assert(v@[j]@ == name@);
        }
    }
    false
}

/// The lines of a payload, each read leniently as UTF-8.
fn payload_lines(payload: &[u8]) -> (lines: Vec<String>)
    ensures
        lines@.map_values(|s: String| s@) == lenient_all(split_lines(payload@)),
{
    let mut parts: Vec<Vec<u8>> = Vec::new();
    let mut cur: Vec<u8> = Vec::new();
    let mut i: usize = 0;
    while i < payload.len()
        invariant
            i <= payload@.len(),
            parts@.map_values(|p: Vec<u8>| p@).push(cur@) == split_lines(payload@.take(i as int)),
        decreases payload.len() - i,
    {
        let b = payload[i];
        let ghost prev = split_lines(payload@.take(i as int));
        assert(payload@.take(i + 1).drop_last() =~= payload@.take(i as int));
        proof {
            lemma_split_lines_nonempty(payload@.take(i as int));
        }
        if b == 0x0au8 {
            parts.push(cur);
            cur = Vec::new();
            assert(parts@.map_values(|p: Vec<u8>| p@).push(cur@) =~= prev.push(Seq::<u8>::empty()));
        } else {
            cur.push(b);
            assert(parts@.map_values(|p: Vec<u8>| p@).push(cur@) =~= prev.update(prev.len() - 1, prev.last().push(b)));
        }
        i += 1;
    }
    parts.push(cur);
    assert(payload@.take(i as int) =~= payload@);
    let ghost pv = parts@.map_values(|p: Vec<u8>| p@);
    assert(pv =~= split_lines(payload@));
    let mut lines: Vec<String> = Vec::new();
    let mut k: usize = 0;
    while k < parts.len()
        invariant
            k <= parts@.len(),
            pv == parts@.map_values(|p: Vec<u8>| p@),
            lines@.map_values(|s: String| s@) == lenient_all(pv.take(k as int)),
        decreases parts.len() - k,
    {
        let ghost before = lines@.map_values(|s: String| s@);
        let line = string_from_utf8_lossy(parts[k].as_slice());
        assert(line@ == lenient_utf8(pv[k as int]));
        lines.push(line);
        assert(lines@.map_values(|s: String| s@) =~= before.push(line@));
        assert(lenient_all(pv.take(k + 1)) =~= lenient_all(pv.take(k as int)).push(lenient_utf8(pv[k as int])));
        assert(lines@.map_values(|s: String| s@) =~= lenient_all(pv.take(k + 1)));
        k += 1;
    }
    assert(pv.take(k as int) =~= pv);
    lines
}

/// The distinct names of `names`, each where it first occurs.
fn dedup_names(names: &Vec<String>) -> (d: Vec<String>)
    ensures
        d@.map_values(|s: String| s@) == dedup(names@.map_values(|s: String| s@)),
{
    let ghost nv = names@.map_values(|s: String| s@);
    let mut d: Vec<String> = Vec::new();
    let mut i: usize = 0;
    while i < names.len()
        invariant
            i <= names@.len(),
            nv == names@.map_values(|s: String| s@),
            d@.map_values(|s: String| s@) == dedup(nv.take(i as int)),
        decreases names.len() - i,
    {
        assert(nv.take(i + 1).drop_last() =~= nv.take(i as int));
        assert(nv.take(i + 1).last() == names@[i as int]@);
        if !contains_name(&d, &names[i]) {
            d.push(names[i].clone());
            assert(d@.map_values(|s: String| s@) =~= dedup(nv.take(i + 1)));
        }
        i += 1;
    }
    assert(nv.take(i as int) =~= nv);
    d
}

/// Appends a change for every name of `from` that `other` lacks, in order.
fn push_absent(deltas: &mut Vec<ListingDelta>, from: &Vec<String>, other: &Vec<String>, add: bool)
    ensures
        final(deltas)@.map_values(|d: ListingDelta| delta_view(d)) == old(deltas)@.map_values(
            |d: ListingDelta| delta_view(d),
        ) + absent_from(
            from@.map_values(|s: String| s@),
            other@.map_values(|s: String| s@),
        ).map_values(|n: Seq<char>| (add, n)),
{
    let ghost fv = from@.map_values(|s: String| s@);
    let ghost ov = other@.map_values(|s: String| s@);
    let ghost start = deltas@.map_values(|d: ListingDelta| delta_view(d));
    let mut i: usize = 0;
    while i < from.len()
        invariant
            i <= from@.len(),
            fv == from@.map_values(|s: String| s@),
            ov == other@.map_values(|s: String| s@),
            deltas@.map_values(|d: ListingDelta| delta_view(d)) == start + absent_from(fv.take(i as int), ov).map_values(
                |n: Seq<char>| (add, n),
            ),
        decreases from.len() - i,
    {
        assert(fv.take(i + 1).drop_last() =~= fv.take(i as int));
        assert(fv.take(i + 1).last() == from@[i as int]@);
        if !contains_name(other, &from[i]) {
            let name = from[i].clone();
            let delta = if add { ListingDelta::Add(name) } else { ListingDelta::Rem(name) };
            let ghost before = deltas@.map_values(|d: ListingDelta| delta_view(d));
            assert(delta_view(delta) == (add, fv[i as int]));
            deltas.push(delta);
            assert(deltas@.map_values(|d: ListingDelta| delta_view(d)) =~= before.push((add, fv[i as int])));
            let ghost ab = absent_from(fv.take(i as int), ov);
            assert(absent_from(fv.take(i + 1), ov) == ab.push(fv[i as int]));
            assert(ab.push(fv[i as int]).map_values(|n: Seq<char>| (add, n)) =~= ab.map_values(|n: Seq<char>| (add, n)).push((add, fv[i as int])));
            assert(deltas@.map_values(|d: ListingDelta| delta_view(d)) =~= start + absent_from(fv.take(i + 1), ov).map_values(
                |n: Seq<char>| (add, n),
            ));
        } else {
            assert(absent_from(fv.take(i + 1), ov) == absent_from(fv.take(i as int), ov));
        }
        i += 1;
    }
    assert(fv.take(i as int) =~= fv);
}

impl ListingReader {
    /// The names listed by the last snapshot read.
    pub closed spec fn names(&self) -> Seq<Seq<char>> {
        self.current@.map_values(|s: String| s@)
    }

    /// The changes found and not yet handed out, oldest first.
    pub closed spec fn pending(&self) -> Seq<(bool, Seq<char>)> {
        self.deltas@.map_values(|d: ListingDelta| delta_view(d))
    }

    /// The track followed.
    pub closed spec fn track(&self) -> TrackReader {
        self.track
    }

    /// Follows the listing published on `track`, with no names and no changes yet.
    pub fn new(track: TrackReader) -> (r: Self)
        ensures
            r.track() == track,
            r.names() == Seq::<Seq<char>>::empty(),
            r.pending() == Seq::<(bool, Seq<char>)>::empty(),
    {
        let r = ListingReader { track, current: Vec::new(), deltas: Vec::new() };
        assert(r.names() =~= Seq::<Seq<char>>::empty());
        assert(r.pending() =~= Seq::<(bool, Seq<char>)>::empty());
        r
    }

    /// Hands out the oldest change not handed out yet, if any.
    pub fn pop_delta(&mut self) -> (d: Option<ListingDelta>)
        ensures
            final(self).names() == old(self).names(),
            final(self).track() == old(self).track(),
            old(self).pending().len() == 0 ==> d is None && final(self).pending() == old(self).pending(),
            old(self).pending().len() > 0 ==> d is Some && delta_view(d->0) == old(self).pending()[0]
                && final(self).pending() == old(self).pending().drop_first(),
    {
        if self.deltas.len() > 0 {
            let d = self.deltas.remove(0);
            assert(self.pending() =~= old(self).pending().drop_first());
            Some(d)
        } else {
            None
        }
    }

    /// Reads one object of the listing track. The first object of a subgroup is a
    /// snapshot: the names it lists replace the listing, the changes from the old listing
    /// are queued, and the first of them is handed out. A later object is a delta, `+name`
    /// or `-name`, handed out as it is. An empty object, or a delta with another first
    /// byte, is refused.
    pub fn apply_object(&mut self, payload: &[u8], first: bool) -> (res: Result<Option<ListingDelta>, ListingError>)
        ensures
            final(self).track() == old(self).track(),
            payload@.len() == 0 ==> res == Err::<Option<ListingDelta>, ListingError>(ListingError::EmptyPayload)
                && final(self).names() == old(self).names() && final(self).pending() == old(self).pending(),
            payload@.len() > 0 && first ==> {
                let queue = old(self).pending() + snapshot_changes(old(self).names(), snapshot_names(payload@));
                &&& final(self).names() == snapshot_names(payload@)
                &&& res is Ok
                &&& queue.len() == 0 ==> res->Ok_0 is None && final(self).pending() == queue
                &&& queue.len() > 0 ==> res->Ok_0 is Some && delta_view(res->Ok_0->0) == queue[0]
                    && final(self).pending() == queue.drop_first()
            },
            payload@.len() > 0 && !first ==> final(self).names() == old(self).names() && final(self).pending()
                == old(self).pending() && if payload@[0] == 0x2bu8 {
                res is Ok && res->Ok_0 is Some && delta_view(res->Ok_0->0) == (true, lenient_utf8(payload@.skip(1)))
            } else if payload@[0] == 0x2du8 {
                res is Ok && res->Ok_0 is Some && delta_view(res->Ok_0->0) == (false, lenient_utf8(payload@.skip(1)))
            } else {
                res == Err::<Option<ListingDelta>, ListingError>(ListingError::InvalidDelta)
            },
    {
        if payload.len() == 0 {
            return Err(ListingError::EmptyPayload);
        }
        if first {
            let lines = payload_lines(payload);
            let set = dedup_names(&lines);
            let ghost before = self.pending();
            push_absent(&mut self.deltas, &set, &self.current, true);
            push_absent(&mut self.deltas, &self.current, &set, false);
            assert(self.pending() =~= before + snapshot_changes(old(self).names(), snapshot_names(payload@)));
            self.current = set;
            Ok(self.pop_delta())
        } else if payload[0] == 0x2bu8 {
            let rest = vstd::slice::slice_subrange(payload, 1, payload.len());
            assert(rest@ =~= payload@.skip(1));
            Ok(Some(ListingDelta::Add(string_from_utf8_lossy(rest))))
        } else if payload[0] == 0x2du8 {
            let rest = vstd::slice::slice_subrange(payload, 1, payload.len());
            assert(rest@ =~= payload@.skip(1));
            Ok(Some(ListingDelta::Rem(string_from_utf8_lossy(rest))))
        } else {
            Err(ListingError::InvalidDelta)
        }
    }

    /// The track followed, to pass it on unchanged.
    pub fn into_inner(self) -> (t: TrackReader)
        ensures
            t == self.track(),
    {
        self.track
    }
}

} // verus!
