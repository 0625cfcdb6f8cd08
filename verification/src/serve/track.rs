use std::sync::Arc;
use vstd::prelude::*;
use vstd::rwlock::{RwLock, RwLockPredicate};

use crate::coding::{Location, TrackNamespace};

use super::error::ServeError;

verus! {

/// `Arc::clone`: claims the clone is the same shared value.
#[verifier::external_body]
pub(crate) fn arc_clone<T>(a: &Arc<T>) -> (r: Arc<T>)
    ensures
        r == *a,
{
    Arc::clone(a)
}

/// `Arc::strong_count`: claims only that the count includes the handle asked about.
/// How many other handles share the value depends on what the rest of the program still
/// holds, so nothing more is said.
#[verifier::external_body]
pub(crate) fn arc_strong_count<T>(a: &Arc<T>) -> (n: usize)
    ensures
        n >= 1,
{
    Arc::strong_count(a)
}

/// Static information about a track.
#[derive(Debug)]
pub struct Track {
    pub namespace: TrackNamespace,
    pub name: String,
}

/// The identity of a track: its namespace and its name, as plain data.
pub open spec fn track_id(t: Track) -> (Seq<Seq<u8>>, Seq<char>) {
    (t.namespace@, t.name@)
}

/// How the objects of a track are delivered, once its writer has chosen: on one stream
/// (with that stream's priority), on subgroup streams, or in datagrams.
#[derive(Clone, Copy, Debug, PartialEq, Eq, Structural)]
pub enum TrackMode {
    Stream(u8),
    Subgroups,
    Datagrams,
}

/// What the writer and the readers of a track share: the delivery mode, once chosen, and
/// whether the track was closed, with which error.
pub struct TrackState {
    pub reader_mode: Option<TrackMode>,
    pub closed: Result<(), ServeError>,
}

impl TrackState {
    /// An open track with no mode chosen.
    pub fn new() -> (s: Self)
        ensures
            s.reader_mode is None,
            s.closed is Ok,
    {
        TrackState { reader_mode: None, closed: Ok(()) }
    }

    /// What a reader is told of the track's mode (see `track_report`).
    pub fn mode_report(&self) -> (r: Result<Option<TrackMode>, ServeError>)
        ensures
            r == track_report(*self),
    {
        match self.reader_mode {
            Some(mode) => Ok(Some(mode)),
            None => match &self.closed {
                Err(e) => Err(e.clone()),
                Ok(()) => Ok(None),
            },
        }
    }

    /// The closing error, if the track was closed.
    pub fn closing(&self) -> (r: Result<(), ServeError>)
        ensures
            r == match self.closed {
                Err(e) => Err::<(), ServeError>(e),
                Ok(_) => Ok::<(), ServeError>(()),
            },
    {
        match &self.closed {
            Err(e) => Err(e.clone()),
            Ok(()) => Ok(()),
        }
    }

    /// Closes the track with `err`; a track closed already keeps its first error, which
    /// is returned.
    pub fn close(&mut self, err: ServeError) -> (res: Result<(), ServeError>)
        ensures
            final(self).reader_mode == old(self).reader_mode,
            old(self).closed is Err ==> res == old(self).closed && final(self).closed == old(self).closed,
            old(self).closed is Ok ==> res is Ok && final(self).closed == Err::<(), ServeError>(err),
    {
        match &self.closed {
            Err(e) => {
                return Err(e.clone());
            },
            Ok(()) => {},
        }
        self.closed = Err(err);
        Ok(())
    }
}

/// What a reader of a track in state `s` is told of its mode: the mode, once chosen;
/// else the closing error, once closed; else nothing yet.
pub open spec fn track_report(s: TrackState) -> Result<Option<TrackMode>, ServeError> {
    match s.reader_mode {
        Some(m) => Ok(Some(m)),
        None => match s.closed {
            Err(e) => Err(e),
            Ok(()) => Ok(None),
        },
    }
}

/// A mode once chosen is what readers are told, whether or not the track was closed
/// since: closing a track in a mode does not hide the mode, and only a track closed
/// before any mode was chosen reports its closing error.
pub proof fn lemma_mode_outlives_close(s: TrackState, m: TrackMode, e: ServeError)
    requires
        s.reader_mode == Some(m),
    ensures
        track_report(s) == Ok::<Option<TrackMode>, ServeError>(Some(m)),
        track_report(TrackState { reader_mode: s.reader_mode, closed: Err(e) }) == Ok::<Option<TrackMode>, ServeError>(
            Some(m),
        ),
        track_report(TrackState { reader_mode: None, closed: Err(e) }) == Err::<Option<TrackMode>, ServeError>(e),
        track_report(TrackState { reader_mode: None, closed: Ok(()) }) == Ok::<Option<TrackMode>, ServeError>(None),
{
}

/// Any track state may be stored: a mode may be chosen and the track closed in either
/// order, and each pair of them can be reached.
pub struct TrackStateInv;

impl RwLockPredicate<TrackState> for TrackStateInv {
    open spec fn inv(self, v: TrackState) -> bool {
        true
    }
}

impl Track {
    pub fn new(namespace: TrackNamespace, name: String) -> (t: Self)
        ensures
            t.namespace == namespace,
            t.name == name,
    {
        Track { namespace, name }
    }

    /// Splits the track into a writer and a reader that share one state, open and with
    /// no mode chosen yet.
    pub fn produce(self) -> (res: (TrackWriter, TrackReader))
        ensures
            res.0@ == track_id(self),
            res.1@ == track_id(self),
            res.0.shares(&res.1),
    {
        let state = Arc::new(
            RwLock::new(TrackState::new(), Ghost(TrackStateInv)),
        );
        let info = Arc::new(self);
        let writer = TrackWriter::new(arc_clone(&state), arc_clone(&info));
        let reader = TrackReader::new(state, info);
        (writer, reader)
    }
}

/// Chooses how the objects of a track are delivered, or closes it.
pub struct TrackWriter {
    state: Arc<RwLock<TrackState, TrackStateInv>>,
    pub info: Arc<Track>,
}

impl View for TrackWriter {
    type V = (Seq<Seq<u8>>, Seq<char>);

    closed spec fn view(&self) -> (Seq<Seq<u8>>, Seq<char>) {
        track_id(*self.info)
    }
}

impl TrackWriter {
    fn new(state: Arc<RwLock<TrackState, TrackStateInv>>, info: Arc<Track>) -> (w: Self)
        ensures
            w.state == state,
            w.info == info,
    {
        TrackWriter { state, info }
    }

    /// The writer and the reader belong to the same track.
    pub closed spec fn shares(&self, r: &TrackReader) -> bool {
        self.state == r.state
    }

    /// A copy of the track's namespace.
    pub fn namespace_copy(&self) -> (n: TrackNamespace)
        ensures
            n@ == self@.0,
    {
        self.info.namespace.duplicate()
    }

    /// A copy of the track's name.
    pub fn name_copy(&self) -> (n: String)
        ensures
            n@ == self@.1,
    {
        self.info.name.clone()
    }

    /// Whether a reader of the track is still held anywhere: the shared state is held by
    /// this writer and by the readers alone.
    fn readers_left(&self) -> bool {
        arc_strong_count(&self.state) > 1
    }

    /// Sets the mode to `mode`, unless no reader is left, which is `Cancel`.
    fn set_mode(&self, mode: TrackMode) -> (res: Result<TrackMode, ServeError>)
        ensures
            res == Ok::<TrackMode, ServeError>(mode) || res == Err::<TrackMode, ServeError>(ServeError::Cancel),
    {
        let (mut state, handle) = self.state.acquire_write();
        if !self.readers_left() {
            handle.release_write(state);
            return Err(ServeError::Cancel);
        }
        state.reader_mode = Some(mode);
        handle.release_write(state);
        Ok(mode)
    }

    /// Delivers the track on one stream with the given priority; `Cancel` once every
    /// reader of the track is gone.
    pub fn stream(&self, priority: u8) -> (res: Result<TrackMode, ServeError>)
        ensures
            res == Ok::<TrackMode, ServeError>(TrackMode::Stream(priority)) || res == Err::<TrackMode, ServeError>(
                ServeError::Cancel,
            ),
    {
        self.set_mode(TrackMode::Stream(priority))
    }

    /// Delivers the track on subgroup streams; `Cancel` once every reader of the track is
    /// gone.
    pub fn subgroups(&self) -> (res: Result<TrackMode, ServeError>)
        ensures
            res == Ok::<TrackMode, ServeError>(TrackMode::Subgroups) || res == Err::<TrackMode, ServeError>(
                ServeError::Cancel,
            ),
    {
        self.set_mode(TrackMode::Subgroups)
    }

    /// Delivers the track in datagrams; `Cancel` once every reader of the track is gone.
    pub fn datagrams(&self) -> (res: Result<TrackMode, ServeError>)
        ensures
            res == Ok::<TrackMode, ServeError>(TrackMode::Datagrams) || res == Err::<TrackMode, ServeError>(
                ServeError::Cancel,
            ),
    {
        self.set_mode(TrackMode::Datagrams)
    }

    /// Closes the track with `err`, which its readers then see; `Cancel` once every reader
    /// of the track is gone. Only the writer closes a track, and closing gives the writer
    /// up, so the track was open until now.
    pub fn close(self, err: ServeError) -> (res: Result<(), ServeError>)
        ensures
            res is Ok || res == Err::<(), ServeError>(ServeError::Cancel),
    {
        let (mut state, handle) = self.state.acquire_write();
        if !self.readers_left() {
            handle.release_write(state);
            return Err(ServeError::Cancel);
        }
        state.closed = Err(err);
        handle.release_write(state);
        Ok(())
    }
}

/// Follows a track: its delivery mode and whether it was closed.
pub struct TrackReader {
    state: Arc<RwLock<TrackState, TrackStateInv>>,
    pub info: Arc<Track>,
}

impl View for TrackReader {
    type V = (Seq<Seq<u8>>, Seq<char>);

    closed spec fn view(&self) -> (Seq<Seq<u8>>, Seq<char>) {
        track_id(*self.info)
    }
}

impl Clone for TrackReader {
    fn clone(&self) -> (r: Self)
        ensures
            r == *self,
    {
        TrackReader { state: arc_clone(&self.state), info: arc_clone(&self.info) }
    }
}

impl TrackReader {
    fn new(state: Arc<RwLock<TrackState, TrackStateInv>>, info: Arc<Track>) -> (r: Self)
        ensures
            r.state == state,
            r.info == info,
    {
        TrackReader { state, info }
    }

    /// The largest group and object of the track: unknown before the first object.
    pub fn latest(&self) -> (r: Option<Location>)
        ensures
            r is None,
    {
        None
    }

    /// The delivery mode if the writer chose one; else the closing error if the track
    /// was closed; else nothing yet.
    pub fn current_mode(&self) -> (r: Result<Option<TrackMode>, ServeError>) {
        let handle = self.state.acquire_read();
        let r = handle.borrow().mode_report();
        handle.release_read();
        r
    }

    /// The closing error, if the track was closed.
    pub fn closed_state(&self) -> (r: Result<(), ServeError>) {
        let handle = self.state.acquire_read();
        let r = handle.borrow().closing();
        handle.release_read();
        r
    }
}

} // verus!
