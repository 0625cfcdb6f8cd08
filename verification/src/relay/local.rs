use vstd::prelude::*;

use crate::coding::track_namespace::is_prefix;
use crate::coding::TrackNamespace;
use crate::serve::{ServeError, TracksReader};

verus! {

/// Registry of the broadcasts served locally, by namespace.
pub struct Locals {
    lookup: Vec<(TrackNamespace, TracksReader)>,
}

/// The proof that a broadcast was registered, naming its namespace.
pub struct Registration {
    namespace: TrackNamespace,
}

impl View for Registration {
    type V = Seq<Seq<u8>>;

    closed spec fn view(&self) -> Seq<Seq<u8>> {
        self.namespace@
    }
}

impl Locals {
    /// Namespaces are distinct, and each is that of the broadcast held under it.
    pub closed spec fn wf(&self) -> bool {
        &&& forall|i: int, j: int|
            0 <= i < j < self.lookup@.len() ==> (#[trigger] self.lookup@[i]).0@ != (
            #[trigger] self.lookup@[j]).0@
        &&& forall|i: int| 0 <= i < self.lookup@.len() ==> (#[trigger] self.lookup@[i]).1.namespace() == self.lookup@[i].0@
    }

    /// The namespaces registered.
    pub closed spec fn namespaces(&self) -> Set<Seq<Seq<u8>>> {
        Set::new(|k: Seq<Seq<u8>>| exists|i: int| 0 <= i < self.lookup@.len() && (#[trigger] self.lookup@[i]).0@ == k)
    }

    /// Where the broadcast registered under `k` is held.
    spec fn index_of(&self, k: Seq<Seq<u8>>) -> int {
        choose|i: int| 0 <= i < self.lookup@.len() && (#[trigger] self.lookup@[i]).0@ == k
    }

    /// The broadcast registered under each namespace.
    pub closed spec fn readers(&self) -> Map<Seq<Seq<u8>>, TracksReader> {
        Map::new(|k: Seq<Seq<u8>>| self.namespaces().contains(k), |k: Seq<Seq<u8>>| self.lookup@[self.index_of(k)].1)
    }

    /// The registry holds a broadcast under exactly the namespaces registered, and each
    /// broadcast is that of the namespace it is held under.
    pub proof fn lemma_readers_cover_namespaces(&self)
        requires
            self.wf(),
        ensures
            self.readers().dom() == self.namespaces(),
            forall|k: Seq<Seq<u8>>| #[trigger] self.readers().contains_key(k) ==> self.readers()[k].namespace() == k,
    {
        assert(self.readers().dom() =~= self.namespaces());
        assert forall|k: Seq<Seq<u8>>| #[trigger] self.readers().contains_key(k) implies self.readers()[k].namespace() == k by {
            let i = choose|i: int| 0 <= i < self.lookup@.len() && (#[trigger] self.lookup@[i]).0@ == k;
            self.lemma_reader_at(i);
        }
    }

    /// The broadcast held at `j` is the one registered under its namespace.
    proof fn lemma_reader_at(&self, j: int)
        requires
            self.wf(),
            0 <= j < self.lookup@.len(),
        ensures
            self.index_of(self.lookup@[j].0@) == j,
            self.readers().contains_key(self.lookup@[j].0@),
            self.readers()[self.lookup@[j].0@] == self.lookup@[j].1,
    {
        let k = self.lookup@[j].0@;
        assert(self.namespaces().contains(k));
        let i = self.index_of(k);
        assert(0 <= i < self.lookup@.len() && self.lookup@[i].0@ == k);
        if i != j {
            if i < j {
                assert(self.lookup@[i].0@ != self.lookup@[j].0@);
            } else {
                assert(self.lookup@[j].0@ != self.lookup@[i].0@);
            }
        }
    }

    /// An empty registry.
    pub fn new() -> (l: Self)
        ensures
            l.wf(),
            l.namespaces() == Set::<Seq<Seq<u8>>>::empty(),
            l.readers() == Map::<Seq<Seq<u8>>, TracksReader>::empty(),
    {
        let l = Locals { lookup: Vec::new() };
        assert(l.namespaces() =~= Set::<Seq<Seq<u8>>>::empty());
        assert(l.readers() =~= Map::<Seq<Seq<u8>>, TracksReader>::empty());
        l
    }

    /// Where this namespace is registered, if it is.
    fn find(&self, namespace: &TrackNamespace) -> (r: Option<usize>)
        ensures
            r matches Some(i) ==> i < self.lookup@.len() && self.lookup@[i as int].0@ == namespace@,
            r is None ==> forall|i: int| 0 <= i < self.lookup@.len() ==> (#[trigger] self.lookup@[i]).0@ != namespace@,
    {
        let mut i: usize = 0;
        while i < self.lookup.len()
            invariant
                i <= self.lookup@.len(),
                forall|j: int| 0 <= j < i ==> (#[trigger] self.lookup@[j]).0@ != namespace@,
            decreases self.lookup.len() - i,
        {
            if self.lookup[i].0.equals(namespace) {
                return Some(i);
            }
            i += 1;
        }
        None
    }

    /// Registers a broadcast under its namespace; a namespace registered already is
    /// refused as a duplicate.
    pub fn register(&mut self, tracks: TracksReader) -> (res: Result<Registration, ServeError>)
        requires
            old(self).wf(),
        ensures
            final(self).wf(),
            res is Err <==> old(self).namespaces().contains(tracks.namespace()),
            res matches Err(e) ==> e == ServeError::Duplicate && final(self).namespaces() == old(self).namespaces()
                && final(self).readers() == old(self).readers(),
            res matches Ok(reg) ==> reg@ == tracks.namespace() && final(self).namespaces() == old(self).namespaces().insert(tracks.namespace())
                && final(self).readers() == old(self).readers().insert(tracks.namespace(), tracks),
    {
        let namespace = tracks.tracks_namespace();
        let ghost k = namespace@;
        match self.find(&namespace) {
            Some(i) => {
                assert(self.namespaces().contains(k));
                Err(ServeError::Duplicate)
            },
            None => {
                assert(!self.namespaces().contains(k));
                let ghost before = self.lookup@;
                let registration = Registration { namespace: namespace.duplicate() };
                self.lookup.push((namespace, tracks));
                assert forall|x: Seq<Seq<u8>>| #[trigger] self.namespaces().contains(x) <==> old(self).namespaces().insert(k).contains(x) by {
                    if old(self).namespaces().contains(x) {
                        let j = choose|j: int| 0 <= j < before.len() && (#[trigger] before[j]).0@ == x;
                        assert(self.lookup@[j].0@ == x);
                    }
                    if x == k {
                        assert(self.lookup@[before.len() as int].0@ == x);
                    }
                    if self.namespaces().contains(x) {
                        let j = choose|j: int| 0 <= j < self.lookup@.len() && (#[trigger] self.lookup@[j]).0@ == x;
                        if j < before.len() {
                            assert(before[j].0@ == x);
                        }
                    }
                }
                assert(self.namespaces() =~= old(self).namespaces().insert(k));
                proof {
                    let n = before.len() as int;
                    assert(self.lookup@[n] == (namespace, tracks));
                    self.lemma_reader_at(n);
                    assert forall|x: Seq<Seq<u8>>| #[trigger] old(self).readers().contains_key(x) implies self.readers()[x]
                        == old(self).readers()[x] by {
                        let j = old(self).index_of(x);
                        old(self).lemma_reader_at(j);
                        assert(self.lookup@[j] == before[j]);
                        self.lemma_reader_at(j);
                    }
                    assert(self.readers() =~= old(self).readers().insert(k, tracks));
                }
                Ok(registration)
            },
        }
    }

    /// Withdraws a registration.
    pub fn deregister(&mut self, registration: Registration)
        requires
            old(self).wf(),
        ensures
            final(self).wf(),
            final(self).namespaces() == old(self).namespaces().remove(registration@),
            final(self).readers() == old(self).readers().remove(registration@),
    {
        let ghost k = registration@;
        match self.find(&registration.namespace) {
            Some(i) => {
                let ghost before = self.lookup@;
                self.lookup.remove(i);
                assert forall|x: Seq<Seq<u8>>| #[trigger] self.namespaces().contains(x) <==> old(self).namespaces().remove(k).contains(x) by {
                    if old(self).namespaces().contains(x) && x != k {
                        let j = choose|j: int| 0 <= j < before.len() && (#[trigger] before[j]).0@ == x;
                        if j < i {
                            assert(self.lookup@[j].0@ == x);
                        } else {
                            assert(self.lookup@[j - 1].0@ == x);
                        }
                    }
                    if self.namespaces().contains(x) {
                        let j = choose|j: int| 0 <= j < self.lookup@.len() && (#[trigger] self.lookup@[j]).0@ == x;
                        if j < i {
                            assert(before[j].0@ == x);
                        } else {
                            assert(before[j + 1].0@ == x);
                        }
                    }
                }
                assert(self.namespaces() =~= old(self).namespaces().remove(k));
                proof {
                    assert forall|x: Seq<Seq<u8>>| #[trigger] self.readers().contains_key(x) implies self.readers()[x]
                        == old(self).readers()[x] by {
                        let j = self.index_of(x);
                        self.lemma_reader_at(j);
                        let j0 = if j < i { j } else { j + 1 };
                        assert(self.lookup@[j] == before[j0]);
                        old(self).lemma_reader_at(j0);
                    }
                    assert(self.readers() =~= old(self).readers().remove(k));
                }
            },
            None => {
                assert(!old(self).namespaces().contains(k));
                assert(self.namespaces() =~= old(self).namespaces().remove(k));
                assert(self.readers() =~= old(self).readers().remove(k));
            },
        }
    }

    /// The broadcast registered under the longest namespace that is a prefix of
    /// `namespace`, field by field; nothing if no registered namespace is such a prefix.
    pub fn route(&self, namespace: &TrackNamespace) -> (r: Option<TracksReader>)
        requires
            self.wf(),
        ensures
            r is Some <==> exists|k: Seq<Seq<u8>>| self.namespaces().contains(k) && is_prefix(k, namespace@),
            r matches Some(t) ==> {
                &&& self.readers().contains_key(t.namespace())
                &&& t == self.readers()[t.namespace()]
                &&& self.namespaces().contains(t.namespace())
                &&& is_prefix(t.namespace(), namespace@)
                &&& forall|k: Seq<Seq<u8>>|
                    self.namespaces().contains(k) && is_prefix(k, namespace@) ==> k.len() <= t.namespace().len()
            },
    {
        let mut best: Option<usize> = None;
        let mut best_len: usize = 0;
        let mut i: usize = 0;
        while i < self.lookup.len()
            invariant
                self.wf(),
                i <= self.lookup@.len(),
                best matches Some(b) ==> b < i && is_prefix(self.lookup@[b as int].0@, namespace@)
                    && best_len == self.lookup@[b as int].0@.len(),
                forall|j: int| 0 <= j < i && is_prefix((#[trigger] self.lookup@[j]).0@, namespace@) ==> best is Some
                    && self.lookup@[j].0@.len() <= best_len,
            decreases self.lookup.len() - i,
        {
            if self.lookup[i].0.is_prefix_of(namespace) {
                let len = self.lookup[i].0.fields.len();
                if best.is_none() || best_len < len {
                    best = Some(i);
                    best_len = len;
                }
            }
            i += 1;
        }
        proof {
            assert forall|k: Seq<Seq<u8>>| self.namespaces().contains(k) && is_prefix(k, namespace@) implies best is Some
                && k.len() <= best_len by {
                let j = choose|j: int| 0 <= j < self.lookup@.len() && (#[trigger] self.lookup@[j]).0@ == k;
                assert(is_prefix(self.lookup@[j].0@, namespace@));
            }
        }
        match best {
            Some(b) => {
                let t = self.lookup[b].1.clone();
                assert(self.namespaces().contains(self.lookup@[b as int].0@));
                proof {
                    self.lemma_reader_at(b as int);
                }
                Some(t)
            },
            None => None,
        }
    }
}

} // verus!
