use std::sync::Arc;
use vstd::prelude::*;
use vstd::rwlock::{RwLock, RwLockPredicate};

use crate::coding::TrackNamespace;
use crate::data::{Datagram, SubgroupHeader};
use crate::serve::track::{arc_clone, arc_strong_count};
use crate::serve::{ServeError, TrackWriter};

verus! {

/// The track a subscription is for.
#[derive(Clone, Debug)]
pub struct SubscribeInfo {
    pub namespace: TrackNamespace,
    pub name: String,
}

/// What the application side and the session side of a subscription share: whether the
/// publisher accepted it, and whether it was closed, with which error.
pub struct SubscribeState {
    pub ok: bool,
    pub closed: Result<(), ServeError>,
}

impl SubscribeState {
    /// Neither accepted nor closed.
    pub fn new() -> (s: Self)
        ensures
            !s.ok,
            s.closed is Ok,
    {
        SubscribeState { ok: false, closed: Ok(()) }
    }

    /// Records that the publisher accepted the subscription; a second acceptance is
    /// refused as a duplicate.
    pub fn accept(&mut self) -> (res: Result<(), ServeError>)
        ensures
            final(self).closed == old(self).closed,
            final(self).ok,
            old(self).ok ==> res == Err::<(), ServeError>(ServeError::Duplicate),
            !old(self).ok ==> res is Ok,
    {
        if self.ok {
            return Err(ServeError::Duplicate);
        }
        self.ok = true;
        Ok(())
    }

    /// Closes the subscription with `err`; one closed already keeps its first error,
    /// which is returned.
    pub fn close(&mut self, err: ServeError) -> (res: Result<(), ServeError>)
        ensures
            final(self).ok == old(self).ok,
            old(self).closed is Err ==> res == old(self).closed && final(self).closed == old(self).closed,
            old(self).closed is Ok ==> res is Ok && final(self).closed == Err::<(), ServeError>(err),
    {
        match &self.closed {
            Err(e) => {
                return Err(e.clone());
            },
            Ok(()) => {},
        }
        self.closed = Err(err);
        Ok(())
    }
}

/// Any subscription state may be stored: a subscription may be accepted or not when it
/// is closed, and each pair of the two can be reached.
pub struct SubscribeStateInv;

impl RwLockPredicate<SubscribeState> for SubscribeStateInv {
    open spec fn inv(self, v: SubscribeState) -> bool {
        true
    }
}

/// How a subscribed track is being written: not yet chosen, or on one stream, on
/// subgroup streams, or in datagrams.
pub enum TrackWriterMode {
    Track(TrackWriter),
    Stream(TrackWriter),
    Subgroups(TrackWriter),
    Datagrams(TrackWriter),
}

/// Which mode a writer is in, as a number: none, chosen by nobody yet, stream,
/// subgroups, datagrams.
pub open spec fn mode_tag(w: Option<TrackWriterMode>) -> int {
    match w {
        None => 0,
        Some(TrackWriterMode::Track(_)) => 1,
        Some(TrackWriterMode::Stream(_)) => 2,
        Some(TrackWriterMode::Subgroups(_)) => 3,
        Some(TrackWriterMode::Datagrams(_)) => 4,
    }
}

impl TrackWriterMode {
    /// Closes the track written with `err`; `Cancel` once every reader of the track is
    /// gone.
    pub fn close(self, err: ServeError) -> (res: Result<(), ServeError>)
        ensures
            res is Ok || res == Err::<(), ServeError>(ServeError::Cancel),
    {
        match self {
            TrackWriterMode::Track(w) => w.close(err),
            TrackWriterMode::Stream(w) => w.close(err),
            TrackWriterMode::Subgroups(w) => w.close(err),
            TrackWriterMode::Datagrams(w) => w.close(err),
        }
    }
}

/// A subgroup of a subscribed track, as announced by its header.
#[derive(Clone, Copy, Debug, PartialEq, Eq, Structural)]
pub struct SubgroupInfo {
    pub group_id: u64,
    pub subgroup_id: Option<u64>,
    pub priority: u8,
}

/// The application side of a subscription.
pub struct Subscribe {
    state: Arc<RwLock<SubscribeState, SubscribeStateInv>>,
    id: u64,
    pub info: SubscribeInfo,
}

/// The session side of a subscription: it receives the publisher's replies and data.
pub struct SubscribeRecv {
    state: Arc<RwLock<SubscribeState, SubscribeStateInv>>,
    writer: Option<TrackWriterMode>,
    /// Whether the publisher accepted the subscription; this side alone records it.
    accepted: bool,
    /// The error the subscription was ended with, once it was.
    ended: Ghost<Option<ServeError>>,
}

impl Subscribe {
    /// The request id of the subscription.
    pub closed spec fn spec_id(&self) -> u64 {
        self.id
    }

    /// The track subscribed to.
    pub closed spec fn spec_info(&self) -> SubscribeInfo {
        self.info
    }

    /// A subscription with request id `id` to the track written by `track`: the
    /// application side, naming the track, and the session side, holding the writer.
    pub fn new(id: u64, track: TrackWriter) -> (res: (Subscribe, SubscribeRecv))
        ensures
            res.0.spec_id() == id,
            res.0.spec_info().namespace@ == track@.0,
            res.0.spec_info().name@ == track@.1,
            res.1.mode() == 1,
            !res.1.is_accepted(),
    {
        let info = SubscribeInfo { namespace: track.namespace_copy(), name: track.name_copy() };
        let state = Arc::new(RwLock::new(SubscribeState::new(), Ghost(SubscribeStateInv)));
        let send = Subscribe { state: arc_clone(&state), id, info };
        let recv = SubscribeRecv {
            state,
            writer: Some(TrackWriterMode::Track(track)),
            accepted: false,
            ended: Ghost(None),
        };
        (send, recv)
    }

    /// The request id of the subscription.
    pub fn id(&self) -> (r: u64)
        ensures
            r == self.spec_id(),
    {
        self.id
    }

    /// The closing error, if the subscription was closed.
    pub fn closed_state(&self) -> (r: Result<(), ServeError>) {
        let handle = self.state.acquire_read();
        let r = match &handle.borrow().closed {
            Err(e) => Err(e.clone()),
            Ok(()) => Ok(()),
        };
        handle.release_read();
        r
    }
}

impl SubscribeRecv {
    /// The mode of the writer held (see `mode_tag`).
    pub closed spec fn mode(&self) -> int {
        mode_tag(self.writer)
    }

    /// Whether the publisher accepted the subscription.
    pub closed spec fn is_accepted(&self) -> bool {
        self.accepted
    }

    /// Whether the application side of the subscription is still held: the shared state
    /// is held by this side and by the application side alone.
    fn application_left(&self) -> bool {
        arc_strong_count(&self.state) > 1
    }

    /// The publisher accepted the subscription, which the application side then sees (if
    /// it is still held); a second acceptance is refused as a duplicate.
    pub fn ok(&mut self) -> (res: Result<(), ServeError>)
        ensures
            final(self).mode() == old(self).mode(),
            final(self).is_accepted(),
            old(self).is_accepted() ==> res == Err::<(), ServeError>(ServeError::Duplicate),
            !old(self).is_accepted() ==> res is Ok,
    {
        if self.accepted {
            return Err(ServeError::Duplicate);
        }
        let (mut state, handle) = self.state.acquire_write();
        if self.application_left() {
            state.ok = true;
        }
        handle.release_write(state);
        self.accepted = true;
        Ok(())
    }

    /// The error the subscription was ended with, once it was ended: the error its track
    /// and its application side were closed with.
    pub closed spec fn ended_with(&self) -> Option<ServeError> {
        self.ended@
    }

    /// The publisher refused or ended the subscription: the track is closed with `err`,
    /// then the subscription, which the application side then sees. Only this side closes
    /// a subscription, and closing gives it up, so it was open until now. Once the
    /// readers of the track, or the application side, are gone, this is `Cancel`.
    pub fn error(self, err: ServeError) -> (res: Result<(), ServeError>)
        ensures
            res is Ok || res == Err::<(), ServeError>(ServeError::Cancel),
    {
        let mut this = self;
        this.end(err)
    }

    /// Ends the subscription with `err` (see `error`): it is ended with `err` afterwards,
    /// and no writer is left.
    pub fn end(&mut self, err: ServeError) -> (res: Result<(), ServeError>)
        ensures
            res is Ok || res == Err::<(), ServeError>(ServeError::Cancel),
            final(self).ended_with() == Some(err),
            final(self).mode() == 0,
            final(self).is_accepted() == old(self).is_accepted(),
    {
        self.ended = Ghost(Some(err));
        if let Some(writer) = self.writer.take() {
            writer.close(err.clone())?;
        }
        let (mut state, handle) = self.state.acquire_write();
        if arc_strong_count(&self.state) <= 1 {
            handle.release_write(state);
            return Err(ServeError::Cancel);
        }
        state.closed = Err(err);
        handle.release_write(state);
        Ok(())
    }

    /// A stream arrived for a track delivered on one stream: allowed only while no mode
    /// is chosen (`Cancel` once every reader of the track is gone).
    pub fn track(&mut self, priority: u8) -> (res: Result<(), ServeError>)
        ensures
            old(self).mode() == 0 ==> res == Err::<(), ServeError>(ServeError::Done) && final(self).mode() == 0,
            old(self).mode() == 1 ==> res is Ok && final(self).mode() == 2 || res == Err::<(), ServeError>(
                ServeError::Cancel,
            ) && final(self).mode() == 0,
            old(self).mode() >= 2 ==> res == Err::<(), ServeError>(ServeError::Mode) && final(self).mode() == 0,
    {
        let writer = match self.writer.take() {
            Some(w) => w,
            None => {
                return Err(ServeError::Done);
            },
        };
        match writer {
            TrackWriterMode::Track(init) => {
                init.stream(priority)?;
                self.writer = Some(TrackWriterMode::Stream(init));
                Ok(())
            },
            _ => Err(ServeError::Mode),
        }
    }

    /// A subgroup stream arrived: allowed while no mode is chosen or in subgroups mode,
    /// which it then is; returns the subgroup the header announces. Choosing the mode is
    /// `Cancel` once every reader of the track is gone.
    pub fn subgroup(&mut self, header: SubgroupHeader) -> (res: Result<SubgroupInfo, ServeError>)
        ensures
            old(self).mode() == 0 ==> res == Err::<SubgroupInfo, ServeError>(ServeError::Done) && final(self).mode() == 0,
            old(self).mode() == 3 ==> res == Ok::<SubgroupInfo, ServeError>(
                SubgroupInfo { group_id: header.group_id, subgroup_id: header.subgroup_id, priority: header.publisher_priority },
            ) && final(self).mode() == 3,
            old(self).mode() == 1 ==> res == Ok::<SubgroupInfo, ServeError>(
                SubgroupInfo { group_id: header.group_id, subgroup_id: header.subgroup_id, priority: header.publisher_priority },
            ) && final(self).mode() == 3 || res == Err::<SubgroupInfo, ServeError>(ServeError::Cancel) && final(self).mode() == 0,
            old(self).mode() == 2 || old(self).mode() == 4 ==> res == Err::<SubgroupInfo, ServeError>(ServeError::Mode)
                && final(self).mode() == 0,
            res is Ok ==> res == Ok::<SubgroupInfo, ServeError>(
                SubgroupInfo { group_id: header.group_id, subgroup_id: header.subgroup_id, priority: header.publisher_priority },
            ),
    {
        let writer = match self.writer.take() {
            Some(w) => w,
            None => {
                return Err(ServeError::Done);
            },
        };
        let subgroups = match writer {
            TrackWriterMode::Track(init) => {
                init.subgroups()?;
                init
            },
            TrackWriterMode::Subgroups(subgroups) => subgroups,
            _ => {
                return Err(ServeError::Mode);
            },
        };
        self.writer = Some(TrackWriterMode::Subgroups(subgroups));
        Ok(SubgroupInfo { group_id: header.group_id, subgroup_id: header.subgroup_id, priority: header.publisher_priority })
    }

    /// A datagram arrived: allowed while no mode is chosen or in datagrams mode (choosing
    /// it is `Cancel` once every reader of the track is gone). The writer is not kept
    /// afterwards, so a later object finds none.
    pub fn datagram(&mut self, datagram: Datagram) -> (res: Result<(), ServeError>)
        ensures
            final(self).mode() == 0,
            old(self).mode() == 0 ==> res == Err::<(), ServeError>(ServeError::Done),
            old(self).mode() == 4 ==> res is Ok,
            old(self).mode() == 1 ==> res is Ok || res == Err::<(), ServeError>(ServeError::Cancel),
            old(self).mode() == 2 || old(self).mode() == 3 ==> res == Err::<(), ServeError>(ServeError::Mode),
    {
        let writer = match self.writer.take() {
            Some(w) => w,
            None => {
                return Err(ServeError::Done);
            },
        };
        match writer {
            TrackWriterMode::Track(init) => {
                init.datagrams()?;
            },
            TrackWriterMode::Datagrams(_) => {},
            _ => {
                return Err(ServeError::Mode);
            },
        }
        Ok(())
    }
}

} // verus!
