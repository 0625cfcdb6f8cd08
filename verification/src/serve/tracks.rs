use std::sync::Arc;
use vstd::prelude::*;
use vstd::rwlock::{RwLock, RwLockPredicate};

use crate::coding::TrackNamespace;

use super::error::ServeError;
use super::track::{arc_clone, arc_strong_count, Track, TrackReader, TrackWriter};

verus! {

/// A full track identifier: namespace and track name.
#[derive(Clone, Debug, PartialEq, Eq, Hash)]
pub struct FullTrackName {
    pub namespace: TrackNamespace,
    pub name: String,
}

impl View for FullTrackName {
    type V = (Seq<Seq<u8>>, Seq<char>);

    open spec fn view(&self) -> (Seq<Seq<u8>>, Seq<char>) {
        (self.namespace@, self.name@)
    }
}

/// Static information about a broadcast: the namespace of its tracks.
#[derive(Debug)]
pub struct Tracks {
    pub namespace: TrackNamespace,
}

/// The tracks of a broadcast, each under its full name once.
pub struct TracksState {
    tracks: Vec<(FullTrackName, TrackReader)>,
}

impl TracksState {
    /// Names are distinct, and the reader under a name is the track of that name.
    pub closed spec fn wf(&self) -> bool {
        &&& forall|i: int, j: int|
            0 <= i < j < self.tracks@.len() ==> (#[trigger] self.tracks@[i]).0@ != (
            #[trigger] self.tracks@[j]).0@
        &&& forall|i: int| 0 <= i < self.tracks@.len() ==> (#[trigger] self.tracks@[i]).1@ == self.tracks@[i].0@
    }

    /// The full names of the tracks held.
    pub closed spec fn names(&self) -> Set<(Seq<Seq<u8>>, Seq<char>)> {
        Set::new(|k: (Seq<Seq<u8>>, Seq<char>)| exists|i: int| 0 <= i < self.tracks@.len() && (#[trigger] self.tracks@[i]).0@ == k)
    }

    /// Where the track of full name `k` is held.
    spec fn index_of(&self, k: (Seq<Seq<u8>>, Seq<char>)) -> int {
        choose|i: int| 0 <= i < self.tracks@.len() && (#[trigger] self.tracks@[i]).0@ == k
    }

    /// The reader held under each full name: the very reader stored, sharing its track's
    /// state with the track's writer.
    pub closed spec fn readers(&self) -> Map<(Seq<Seq<u8>>, Seq<char>), TrackReader> {
        Map::new(|k: (Seq<Seq<u8>>, Seq<char>)| self.names().contains(k), |k: (Seq<Seq<u8>>, Seq<char>)| self.tracks@[self.index_of(k)].1)
    }

    /// The reader stored at `j` is the one held under its full name.
    proof fn lemma_reader_at(&self, j: int)
        requires
            self.wf(),
            0 <= j < self.tracks@.len(),
        ensures
            self.readers().contains_key(self.tracks@[j].0@),
            self.readers()[self.tracks@[j].0@] == self.tracks@[j].1,
    {
        let k = self.tracks@[j].0@;
        assert(self.names().contains(k));
        let i = self.index_of(k);
        assert(0 <= i < self.tracks@.len() && self.tracks@[i].0@ == k);
        if i != j {
            if i < j {
                assert(self.tracks@[i].0@ != self.tracks@[j].0@);
            } else {
                assert(self.tracks@[j].0@ != self.tracks@[i].0@);
            }
        }
    }

    /// The full names held are those of the readers held.
    pub proof fn lemma_readers_dom(&self)
        ensures
            self.readers().dom() == self.names(),
    {
        assert(self.readers().dom() =~= self.names());
    }

    /// No tracks.
    pub fn new() -> (s: Self)
        ensures
            s.wf(),
            s.names() == Set::<(Seq<Seq<u8>>, Seq<char>)>::empty(),
            s.readers() == Map::<(Seq<Seq<u8>>, Seq<char>), TrackReader>::empty(),
    {
        let s = TracksState { tracks: Vec::new() };
        assert(s.names() =~= Set::<(Seq<Seq<u8>>, Seq<char>)>::empty());
        assert(s.readers() =~= Map::<(Seq<Seq<u8>>, Seq<char>), TrackReader>::empty());
        s
    }

    /// Where the track of this full name sits, if held.
    fn find(&self, namespace: &TrackNamespace, name: &str) -> (r: Option<usize>)
        ensures
            r matches Some(i) ==> i < self.tracks@.len() && self.tracks@[i as int].0@ == (namespace@, name@),
            r is None ==> forall|i: int| 0 <= i < self.tracks@.len() ==> (#[trigger] self.tracks@[i]).0@ != (namespace@, name@),
    {
        let wanted = name.to_owned();
        let mut i: usize = 0;
        while i < self.tracks.len()
            invariant
                wanted@ == name@,
                i <= self.tracks@.len(),
                forall|j: int| 0 <= j < i ==> (#[trigger] self.tracks@[j]).0@ != (namespace@, name@),
            decreases self.tracks.len() - i,
        {
            let entry = &self.tracks[i];
            let ns_eq = entry.0.namespace.equals(namespace);
            let name_eq = entry.0.name == wanted;
            if ns_eq && name_eq {
                return Some(i);
            }
            i += 1;
        }
        None
    }

    /// The reader of the track of this full name, if held.
    pub fn get(&self, namespace: &TrackNamespace, name: &str) -> (r: Option<TrackReader>)
        requires
            self.wf(),
        ensures
            r is Some <==> self.names().contains((namespace@, name@)),
            r matches Some(t) ==> t@ == (namespace@, name@),
            r matches Some(t) ==> t == self.readers()[(namespace@, name@)],
    {
        match self.find(namespace, name) {
            Some(i) => {
                assert(self.names().contains((namespace@, name@)));
                proof {
                    self.lemma_reader_at(i as int);
                }
                Some(self.tracks[i].1.clone())
            },
            None => {
                assert(!self.names().contains((namespace@, name@)));
                None
            },
        }
    }

    /// Stores the reader under its full name, in place of any track held under it.
    pub fn insert(&mut self, key: FullTrackName, reader: TrackReader)
        requires
            old(self).wf(),
            reader@ == key@,
        ensures
            final(self).wf(),
            final(self).names() == old(self).names().insert(key@),
            final(self).readers() == old(self).readers().insert(key@, reader),
    {
        let ghost r0 = reader;
        let ghost k = key@;
        match self.find(&key.namespace, key.name.as_str()) {
            Some(i) => {
                let ghost before = self.tracks@;
                self.tracks.set(i, (key, reader));
                assert forall|x: (Seq<Seq<u8>>, Seq<char>)| #[trigger] self.names().contains(x) <==> old(self).names().insert(k).contains(x) by {
                    if old(self).names().contains(x) {
                        let j = choose|j: int| 0 <= j < before.len() && (#[trigger] before[j]).0@ == x;
                        assert(self.tracks@[j].0@ == x);
                    }
                    if self.names().contains(x) {
                        let j = choose|j: int| 0 <= j < self.tracks@.len() && (#[trigger] self.tracks@[j]).0@ == x;
                        if j != i {
                            assert(before[j].0@ == x);
                        }
                    }
                }
                assert(self.names() =~= old(self).names().insert(k));
                proof {
                    self.lemma_readers_after_change(&*old(self), k, r0, i as int);
                }
            },
            None => {
                let ghost before = self.tracks@;
                self.tracks.push((key, reader));
                assert forall|x: (Seq<Seq<u8>>, Seq<char>)| #[trigger] self.names().contains(x) <==> old(self).names().insert(k).contains(x) by {
                    if old(self).names().contains(x) {
                        let j = choose|j: int| 0 <= j < before.len() && (#[trigger] before[j]).0@ == x;
                        assert(self.tracks@[j].0@ == x);
                    }
                    if x == k {
                        assert(self.tracks@[before.len() as int].0@ == x);
                    }
                    if self.names().contains(x) {
                        let j = choose|j: int| 0 <= j < self.tracks@.len() && (#[trigger] self.tracks@[j]).0@ == x;
                        if j < before.len() {
                            assert(before[j].0@ == x);
                        }
                    }
                }
                assert(self.names() =~= old(self).names().insert(k));
                proof {
                    self.lemma_readers_after_change(&*old(self), k, r0, before.len() as int);
                }
            },
        }
    }

    /// After the reader at `at` was set to `r` under `k`, every other entry kept or
    /// appended past the old ones, the readers held are the old ones with `k` mapped to
    /// `r`.
    proof fn lemma_readers_after_change(&self, before: &TracksState, k: (Seq<Seq<u8>>, Seq<char>), r: TrackReader, at: int)
        requires
            self.wf(),
            before.wf(),
            0 <= at < self.tracks@.len(),
            self.tracks@[at].0@ == k,
            self.tracks@[at].1 == r,
            at < before.tracks@.len() ==> before.tracks@[at].0@ == k,
            self.names() == before.names().insert(k),
            forall|j: int| 0 <= j < before.tracks@.len() && j != at ==> j < self.tracks@.len() && (#[trigger] before.tracks@[j]) == self.tracks@[j],
        ensures
            self.readers() == before.readers().insert(k, r),
    {
        self.lemma_reader_at(at);
        assert forall|x: (Seq<Seq<u8>>, Seq<char>)| #[trigger] self.readers().contains_key(x) && x != k implies
            before.readers().contains_key(x) && self.readers()[x] == before.readers()[x] by {
            assert(before.names().contains(x));
            let j = choose|j: int| 0 <= j < before.tracks@.len() && (#[trigger] before.tracks@[j]).0@ == x;
            assert(j != at);
            before.lemma_reader_at(j);
            self.lemma_reader_at(j);
        }
        assert(self.readers() =~= before.readers().insert(k, r));
    }

    /// Asks for the track of full name (`namespace`, `name`), with `queue` holding the
    /// requests for tracks not held yet (see `request_outcome`).
    pub fn request(&mut self, queue: &mut TrackQueue, namespace: TrackNamespace, name: &str) -> (r: Option<TrackReader>)
        requires
            old(self).wf(),
            old(queue).closed ==> old(queue).pending@.len() == 0,
        ensures
            final(self).wf(),
            final(queue).closed ==> final(queue).pending@.len() == 0,
            r matches Some(t) ==> t@ == (namespace@, name@),
            request_outcome(*old(self), *old(queue), (namespace@, name@), r, *final(self), *final(queue)),
    {
        if let Some(reader) = self.get(&namespace, name) {
            return Some(reader);
        }
        if queue.closed {
            return None;
        }
        let (writer, reader) = Track::new(namespace.duplicate(), name.to_owned()).produce();
        let ghost before = queue.pending@;
        queue.pending.push(writer);
        assert(queue.pending@.drop_last() =~= before);
        let full_name = FullTrackName { namespace, name: name.to_owned() };
        let held = reader.clone();
        self.insert(full_name, held);
        Some(reader)
    }

    /// Takes out the reader of the track of this full name, if held.
    pub fn remove(&mut self, namespace: &TrackNamespace, name: &str) -> (r: Option<TrackReader>)
        requires
            old(self).wf(),
        ensures
            final(self).wf(),
            final(self).names() == old(self).names().remove((namespace@, name@)),
            r is Some <==> old(self).names().contains((namespace@, name@)),
            r matches Some(t) ==> t@ == (namespace@, name@),
            r matches Some(t) ==> t == old(self).readers()[(namespace@, name@)],
            final(self).readers() == old(self).readers().remove((namespace@, name@)),
    {
        let ghost k = (namespace@, name@);
        match self.find(namespace, name) {
            Some(i) => {
                let ghost before = self.tracks@;
                assert(old(self).names().contains(k));
                let (_, reader) = self.tracks.remove(i);
                assert forall|x: (Seq<Seq<u8>>, Seq<char>)| #[trigger] self.names().contains(x) <==> old(self).names().remove(k).contains(x) by {
                    if old(self).names().contains(x) && x != k {
                        let j = choose|j: int| 0 <= j < before.len() && (#[trigger] before[j]).0@ == x;
                        if j < i {
                            assert(self.tracks@[j].0@ == x);
                        } else {
                            assert(j != i);
                            assert(self.tracks@[j - 1].0@ == x);
                        }
                    }
                    if self.names().contains(x) {
                        let j = choose|j: int| 0 <= j < self.tracks@.len() && (#[trigger] self.tracks@[j]).0@ == x;
                        if j < i {
                            assert(before[j].0@ == x);
                        } else {
                            assert(before[j + 1].0@ == x);
                        }
                    }
                }
                assert(self.names() =~= old(self).names().remove(k));
                proof {
                    old(self).lemma_reader_at(i as int);
                    assert forall|x: (Seq<Seq<u8>>, Seq<char>)| #[trigger] self.readers().contains_key(x) implies
                        old(self).readers().contains_key(x) && self.readers()[x] == old(self).readers()[x] by {
                        let j = choose|j: int| 0 <= j < self.tracks@.len() && (#[trigger] self.tracks@[j]).0@ == x;
                        self.lemma_reader_at(j);
                        if j < i {
                            old(self).lemma_reader_at(j);
                        } else {
                            assert(self.tracks@[j] == before[j + 1]);
                            old(self).lemma_reader_at(j + 1);
                        }
                    }
                    assert(self.readers() =~= old(self).readers().remove(k));
                }
                Some(reader)
            },
            None => {
                assert(!old(self).names().contains(k));
                assert(self.names() =~= old(self).names().remove(k));
                assert(self.readers() =~= old(self).readers().remove(k));
                None
            },
        }
    }
}

/// What asking a broadcast's tracks `s0`, with pending requests `q0`, for the track of
/// full name `k` gives (`r`, leaving `s1` and `q1`): the reader held under `k`, if any,
/// with nothing changed; else nothing once requests are no longer taken; else a new track
/// whose reader is held under `k` and returned, and whose writer joins the requests.
pub open spec fn request_outcome(
    s0: TracksState,
    q0: TrackQueue,
    k: (Seq<Seq<u8>>, Seq<char>),
    r: Option<TrackReader>,
    s1: TracksState,
    q1: TrackQueue,
) -> bool {
    if s0.names().contains(k) {
        r == Some(s0.readers()[k]) && s1 == s0 && q1 == q0
    } else if q0.closed {
        r is None && s1 == s0 && q1 == q0
    } else {
        &&& r matches Some(t)
        &&& t@ == k
        &&& s1.names() == s0.names().insert(k)
        &&& s1.readers() == s0.readers().insert(k, t)
        &&& q1.closed == q0.closed
        &&& q1.pending@.len() == q0.pending@.len() + 1
        &&& q1.pending@.drop_last() == q0.pending@
        &&& q1.pending@.last()@ == k
        &&& q1.pending@.last().shares(&t)
    }
}

/// Asking twice for the same track gives the same reader both times: the second ask
/// finds the track the first one found or created, and a track the first ask created is
/// written by the writer it handed to the requests.
pub proof fn lemma_request_twice(
    s0: TracksState,
    q0: TrackQueue,
    k: (Seq<Seq<u8>>, Seq<char>),
    r1: Option<TrackReader>,
    s1: TracksState,
    q1: TrackQueue,
    r2: Option<TrackReader>,
    s2: TracksState,
    q2: TrackQueue,
)
    requires
        request_outcome(s0, q0, k, r1, s1, q1),
        request_outcome(s1, q1, k, r2, s2, q2),
        r1 is Some,
    ensures
        r2 == r1,
        s2 == s1,
        q2 == q1,
        !s0.names().contains(k) ==> q1.pending@.last().shares(&r2->Some_0),
{
    if !s0.names().contains(k) {
        assert(s1.names().contains(k));
    }
}

/// A track stored under `k` (as `TracksWriter::create` stores the reader of the track it
/// creates) is what a later ask for `k` gives: the reader that shares the writer's track,
/// never another one of the same name.
pub proof fn lemma_request_after_insert(
    s0: TracksState,
    k: (Seq<Seq<u8>>, Seq<char>),
    t: TrackReader,
    s1: TracksState,
    q: TrackQueue,
    r: Option<TrackReader>,
    s2: TracksState,
    q2: TrackQueue,
)
    requires
        s1.names() == s0.names().insert(k),
        s1.readers() == s0.readers().insert(k, t),
        request_outcome(s1, q, k, r, s2, q2),
    ensures
        r == Some(t),
        q2 == q,
{
}

/// The tracks of a broadcast may be stored only when well formed.
pub struct TracksStateInv;

impl RwLockPredicate<TracksState> for TracksStateInv {
    open spec fn inv(self, v: TracksState) -> bool {
        v.wf()
    }
}

/// The requests for tracks not yet held, and whether they are still taken.
pub struct TrackQueue {
    pub pending: Vec<TrackWriter>,
    pub closed: bool,
}

/// Once requests are no longer taken, none is pending.
pub struct TrackQueueInv;

impl RwLockPredicate<TrackQueue> for TrackQueueInv {
    open spec fn inv(self, v: TrackQueue) -> bool {
        v.closed ==> v.pending@.len() == 0
    }
}

impl Tracks {
    pub fn new(namespace: TrackNamespace) -> (t: Self)
        ensures
            t.namespace == namespace,
    {
        Tracks { namespace }
    }

    /// Splits the broadcast into a writer, a receiver of requests for unknown tracks,
    /// and a reader, sharing one set of tracks, empty at first.
    pub fn produce(self) -> (res: (TracksWriter, TracksRequest, TracksReader))
        ensures
            res.0.namespace() == self.namespace@,
            res.1.namespace() == self.namespace@,
            res.2.namespace() == self.namespace@,
    {
        let info = Arc::new(self);
        let state = Arc::new(RwLock::new(TracksState::new(), Ghost(TracksStateInv)));
        let queue = Arc::new(RwLock::new(TrackQueue { pending: Vec::new(), closed: false }, Ghost(TrackQueueInv)));
        let writer = TracksWriter::new(arc_clone(&state), arc_clone(&info));
        let request = TracksRequest::new(arc_clone(&queue), arc_clone(&info));
        let reader = TracksReader::new(state, queue, info);
        (writer, request, reader)
    }
}

/// Publishes new tracks of a broadcast by name.
pub struct TracksWriter {
    state: Arc<RwLock<TracksState, TracksStateInv>>,
    pub info: Arc<Tracks>,
}

impl TracksWriter {
    /// The namespace of the broadcast.
    pub closed spec fn namespace(&self) -> Seq<Seq<u8>> {
        self.info.namespace@
    }

    fn new(state: Arc<RwLock<TracksState, TracksStateInv>>, info: Arc<Tracks>) -> (w: Self)
        ensures
            w.namespace() == info.namespace@,
    {
        TracksWriter { state, info }
    }

    /// Whether a reader of the broadcast is still held anywhere: the set of tracks is
    /// shared by this writer and by the readers alone.
    fn readers_left(&self) -> bool {
        arc_strong_count(&self.state) > 1
    }

    /// Creates a track of this broadcast's namespace with the given name, holding its
    /// reader in place of any track of that name, and returns its writer; nothing once
    /// every reader of the broadcast is gone.
    pub fn create(&mut self, track: &str) -> (r: Option<TrackWriter>)
        ensures
            r matches Some(w) ==> w@ == (old(self).namespace(), track@),
    {
        let (mut state, handle) = self.state.acquire_write();
        if !self.readers_left() {
            handle.release_write(state);
            return None;
        }
        let (writer, reader) = Track::new(self.info.namespace.duplicate(), track.to_owned()).produce();
        let full_name = FullTrackName { namespace: self.info.namespace.duplicate(), name: track.to_owned() };
        state.insert(full_name, reader);
        handle.release_write(state);
        Some(writer)
    }

    /// Takes out the track of this full name, if held; nothing once every reader of the
    /// broadcast is gone.
    pub fn remove(&mut self, namespace: &TrackNamespace, track_name: &str) -> (r: Option<TrackReader>)
        ensures
            r matches Some(t) ==> t@ == (namespace@, track_name@),
    {
        let (mut state, handle) = self.state.acquire_write();
        if !self.readers_left() {
            handle.release_write(state);
            return None;
        }
        let r = state.remove(namespace, track_name);
        handle.release_write(state);
        r
    }
}

/// Receives the requests for tracks that a reader asked for and that are not held yet.
pub struct TracksRequest {
    incoming: Arc<RwLock<TrackQueue, TrackQueueInv>>,
    pub info: Arc<Tracks>,
}

impl TracksRequest {
    /// The namespace of the broadcast.
    pub closed spec fn namespace(&self) -> Seq<Seq<u8>> {
        self.info.namespace@
    }

    fn new(incoming: Arc<RwLock<TrackQueue, TrackQueueInv>>, info: Arc<Tracks>) -> (r: Self)
        ensures
            r.namespace() == info.namespace@,
    {
        TracksRequest { incoming, info }
    }

    /// The oldest pending request, if any.
    pub fn try_next(&mut self) -> (r: Option<TrackWriter>) {
        let (mut queue, handle) = self.incoming.acquire_write();
        let r = if queue.pending.len() > 0 {
            Some(queue.pending.remove(0))
        } else {
            None
        };
        handle.release_write(queue);
        r
    }

    /// Stops taking requests: later requests are refused, and every pending one is closed
    /// as not found.
    pub fn close(self) {
        let (mut queue, handle) = self.incoming.acquire_write();
        queue.closed = true;
        let mut pending = Vec::new();
        std::mem::swap(&mut pending, &mut queue.pending);
        handle.release_write(queue);
        let n = pending.len();
        let mut i: usize = 0;
        while i < n
            invariant
                pending.len() == n - i,
            decreases n - i,
        {
            let track = pending.pop().unwrap();
            let _ = track.close(ServeError::NotFound);
            i += 1;
        }
    }
}

/// Asks for the tracks of a broadcast by full name.
pub struct TracksReader {
    state: Arc<RwLock<TracksState, TracksStateInv>>,
    queue: Arc<RwLock<TrackQueue, TrackQueueInv>>,
    pub info: Arc<Tracks>,
}

impl Clone for TracksReader {
    fn clone(&self) -> (r: Self)
        ensures
            r == *self,
    {
        TracksReader {
            state: arc_clone(&self.state),
            queue: arc_clone(&self.queue),
            info: arc_clone(&self.info),
        }
    }
}

impl TracksReader {
    /// The namespace of the broadcast.
    pub closed spec fn namespace(&self) -> Seq<Seq<u8>> {
        self.info.namespace@
    }

    fn new(
        state: Arc<RwLock<TracksState, TracksStateInv>>,
        queue: Arc<RwLock<TrackQueue, TrackQueueInv>>,
        info: Arc<Tracks>,
    ) -> (r: Self)
        ensures
            r.namespace() == info.namespace@,
    {
        TracksReader { state, queue, info }
    }

    /// A copy of the namespace of the broadcast.
    pub fn tracks_namespace(&self) -> (n: TrackNamespace)
        ensures
            n@ == self.namespace(),
    {
        self.info.namespace.duplicate()
    }

    /// The reader of the track of this full name, if held.
    pub fn get_track_reader(&mut self, namespace: &TrackNamespace, track_name: &str) -> (r: Option<TrackReader>)
        ensures
            r matches Some(t) ==> t@ == (namespace@, track_name@),
    {
        let handle = self.state.acquire_read();
        let r = handle.borrow().get(namespace, track_name);
        handle.release_read();
        r
    }

    /// The reader of the track of this full name: the one held, or else a new track
    /// whose writer is handed to the pending requests; nothing if requests are no longer
    /// taken.
    pub fn subscribe(&mut self, namespace: TrackNamespace, track_name: &str) -> (r: Option<TrackReader>)
        ensures
            r matches Some(t) ==> t@ == (namespace@, track_name@),
    {
        let (mut state, handle) = self.state.acquire_write();
        let (mut queue, qhandle) = self.queue.acquire_write();
        let r = state.request(&mut queue, namespace, track_name);
        qhandle.release_write(queue);
        handle.release_write(state);
        r
    }
}

} // verus!
