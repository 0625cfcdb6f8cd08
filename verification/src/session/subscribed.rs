use vstd::prelude::*;

use crate::coding::location::location_lt;
use crate::coding::{Location, TrackNamespace};
use crate::data::{ObjectStatus, StreamHeaderType, SubgroupHeader, SubgroupObject};
use crate::serve::{ServeError, TrackMode};

verus! {

/// What a served subscription keeps: the largest location sent, once known, and whether
/// it was closed, with which error.
pub struct SubscribedState {
    pub largest_location: Option<Location>,
    pub closed: Result<(), ServeError>,
}

impl SubscribedState {
    /// No location known, not closed.
    pub fn new() -> (s: Self)
        ensures
            s == (SubscribedState { largest_location: None, closed: Ok(()) }),
    {
        SubscribedState { largest_location: None, closed: Ok(()) }
    }

    /// Records that the object at (`group_id`, `object_id`) was sent: the largest location
    /// moves forward to it if it comes after; while no largest location is known, it
    /// stays unknown.
    pub fn update_largest_location(&mut self, group_id: u64, object_id: u64) -> (res: Result<(), ServeError>)
        ensures
            res is Ok,
            final(self).closed == old(self).closed,
            old(self).largest_location is None ==> final(self).largest_location is None,
            old(self).largest_location matches Some(cur) ==> final(self).largest_location == Some(
                if location_lt(cur, Location { group: group_id, object: object_id }) {
                    Location { group: group_id, object: object_id }
                } else {
                    cur
                },
            ),
            old(self).largest_location matches Some(cur) ==> (final(self).largest_location matches Some(l)
                && !location_lt(l, cur)),
    {
        if let Some(current) = self.largest_location {
            let update = Location::new(group_id, object_id);
            if update.is_after(&current) {
                self.largest_location = Some(update);
            }
        }
        Ok(())
    }

    /// The subscriber unsubscribed: the subscription is closed as cancelled, unless it
    /// was closed already, whose error is returned.
    pub fn recv_unsubscribe(&mut self) -> (res: Result<(), ServeError>)
        ensures
            final(self).largest_location == old(self).largest_location,
            old(self).closed is Err ==> res == old(self).closed && final(self).closed == old(self).closed,
            old(self).closed is Ok ==> res is Ok && final(self).closed == Err::<(), ServeError>(ServeError::Cancel),
    {
        match &self.closed {
            Err(e) => {
                return Err(e.clone());
            },
            Ok(()) => {},
        }
        self.closed = Err(ServeError::Cancel);
        Ok(())
    }

    /// Closes the subscription with `err`; one closed already keeps its first error,
    /// which is returned.
    pub fn close(&mut self, err: ServeError) -> (res: Result<(), ServeError>)
        ensures
            final(self).largest_location == old(self).largest_location,
            old(self).closed is Err ==> res == old(self).closed && final(self).closed == old(self).closed,
            old(self).closed is Ok ==> res is Ok && final(self).closed == Err::<(), ServeError>(err),
    {
        match &self.closed {
            Err(e) => {
                return Err(e.clone());
            },
            Ok(()) => {},
        }
        self.closed = Err(err);
        Ok(())
    }

    /// The message owed to the subscriber when the subscription ends: whether it is a
    /// normal end (the subscription had been accepted) or a refusal, and the error it
    /// reports (the closing error, else `Done`).
    pub fn final_report(&self, ok: bool) -> (r: (bool, ServeError))
        ensures
            r.0 == ok,
            r.1 == match self.closed {
                Err(e) => e,
                Ok(()) => ServeError::Done,
            },
    {
        let err = match &self.closed {
            Err(e) => e.clone(),
            Ok(()) => ServeError::Done,
        };
        (ok, err)
    }
}

/// A subscriber's request for one track: its request id and the track's full name.
#[derive(Clone, Debug)]
pub struct TrackRequest {
    pub id: u64,
    pub track_namespace: TrackNamespace,
    pub track_name: String,
}

/// The serving side of a subscription to one of this publisher's tracks: the request,
/// and whether it was accepted. Its state is kept by the publisher side of the session
/// (see `Publisher::start_serving`, `close_subscribed`, `record_sent`, `finish`).
pub struct Subscribed {
    request: TrackRequest,
    ok: bool,
}

impl Subscribed {
    /// Whether the subscription was accepted (SUBSCRIBE_OK sent).
    pub closed spec fn is_ok(&self) -> bool {
        self.ok
    }

    /// The request the subscription was made with.
    pub closed spec fn track_request(&self) -> TrackRequest {
        self.request
    }

    /// The request the subscription was made with.
    pub fn request(&self) -> (r: &TrackRequest)
        ensures
            *r == self.track_request(),
    {
        &self.request
    }

    /// A subscription not yet accepted, and the session side that follows it, with no
    /// location known and not closed.
    pub fn new(request: TrackRequest) -> (r: (Subscribed, SubscribedRecv))
        ensures
            r.0.track_request() == request,
            !r.0.is_ok(),
            r.1.state() == (SubscribedState { largest_location: None, closed: Ok(()) }),
    {
        (Subscribed { request, ok: false }, SubscribedRecv::new())
    }

    /// Whether the subscription was accepted.
    pub fn accepted(&self) -> (r: bool)
        ensures
            r == self.is_ok(),
    {
        self.ok
    }

    /// Counts the subscription as accepted.
    pub fn accept(&mut self)
        ensures
            final(self).is_ok(),
            final(self).track_request() == old(self).track_request(),
    {
        self.ok = true;
    }

    /// The header of a subgroup stream of this subscription: the subgroup id is carried
    /// and the stream ends its group; the request id doubles as the track alias.
    pub fn subgroup_header(&self, group_id: u64, subgroup_id: u64, publisher_priority: u8) -> (h: SubgroupHeader)
        ensures
            h == (SubgroupHeader {
                header_type: StreamHeaderType::SubgroupIdEndOfGroup,
                track_alias: self.track_request().id,
                group_id,
                subgroup_id: Some(subgroup_id),
                publisher_priority,
            }),
    {
        SubgroupHeader {
            header_type: StreamHeaderType::SubgroupIdEndOfGroup,
            track_alias: self.request.id,
            group_id,
            subgroup_id: Some(subgroup_id),
            publisher_priority,
        }
    }
}

/// The header of one object of a subgroup stream: ids go up by one (a zero delta), and
/// the status is sent only for an empty payload.
pub fn subgroup_object(payload_length: usize, status: ObjectStatus) -> (o: SubgroupObject)
    ensures
        o == (SubgroupObject {
            object_id_delta: 0,
            payload_length,
            status: if payload_length == 0 { Some(status) } else { None },
        }),
{
    SubgroupObject {
        object_id_delta: 0,
        payload_length,
        status: if payload_length == 0 { Some(status) } else { None },
    }
}

/// The session side of a served subscription: its state.
pub struct SubscribedRecv {
    state: SubscribedState,
}

impl SubscribedRecv {
    /// The state of the subscription.
    pub closed spec fn state(&self) -> SubscribedState {
        self.state
    }

    /// No location known, not closed.
    pub fn new() -> (r: Self)
        ensures
            r.state() == (SubscribedState { largest_location: None, closed: Ok(()) }),
    {
        SubscribedRecv { state: SubscribedState::new() }
    }

    /// The subscriber unsubscribed (see `SubscribedState::recv_unsubscribe`).
    pub fn recv_unsubscribe(&mut self) -> (res: Result<(), ServeError>)
        ensures
            final(self).state().largest_location == old(self).state().largest_location,
            old(self).state().closed is Err ==> res == old(self).state().closed && final(self).state().closed
                == old(self).state().closed,
            old(self).state().closed is Ok ==> res is Ok && final(self).state().closed == Err::<(), ServeError>(
                ServeError::Cancel,
            ),
    {
        self.state.recv_unsubscribe()
    }

    /// Closes the subscription with `err` (see `SubscribedState::close`).
    pub fn close(&mut self, err: ServeError) -> (res: Result<(), ServeError>)
        ensures
            final(self).state().largest_location == old(self).state().largest_location,
            old(self).state().closed is Err ==> res == old(self).state().closed && final(self).state().closed
                == old(self).state().closed,
            old(self).state().closed is Ok ==> res is Ok && final(self).state().closed == Err::<(), ServeError>(err),
    {
        self.state.close(err)
    }

    /// Serving started from a track whose largest location is `latest`.
    pub fn start(&mut self, latest: Option<Location>)
        ensures
            final(self).state().largest_location == latest,
            final(self).state().closed == old(self).state().closed,
    {
        self.state.largest_location = latest;
    }

    /// Records that the object at (`group_id`, `object_id`) was sent (see
    /// `SubscribedState::update_largest_location`).
    pub fn update_largest_location(&mut self, group_id: u64, object_id: u64) -> (res: Result<(), ServeError>)
        ensures
            res is Ok,
            final(self).state().closed == old(self).state().closed,
            old(self).state().largest_location is None ==> final(self).state().largest_location is None,
            old(self).state().largest_location matches Some(cur) ==> final(self).state().largest_location == Some(
                if location_lt(cur, Location { group: group_id, object: object_id }) {
                    Location { group: group_id, object: object_id }
                } else {
                    cur
                },
            ),
    {
        self.state.update_largest_location(group_id, object_id)
    }

    /// The closing error, or `Done` if the subscription was not closed.
    pub fn closing_error(&self) -> (e: ServeError)
        ensures
            e == match self.state().closed {
                Err(e) => e,
                Ok(()) => ServeError::Done,
            },
    {
        self.state.final_report(true).1
    }
}

/// How a served subscription forwards its track, once the track's mode is known.
#[derive(Clone, Copy, Debug, PartialEq, Eq, Structural)]
pub enum ServePath {
    /// Each subgroup of the track on a stream of its own.
    Subgroups,
    /// Each object of the track in a datagram.
    Datagrams,
}

/// What serving does once the track's mode is known (or the track failed): a track in
/// subgroups is forwarded subgroup by subgroup, one in datagrams datagram by datagram,
/// and the track's error ends the serving. A track on a single stream is no longer
/// served, so it is left out.
pub fn serving_path(mode: Result<TrackMode, ServeError>) -> (r: Result<ServePath, ServeError>)
    requires
        !(mode matches Ok(TrackMode::Stream(_))),
    ensures
        r == match mode {
            Ok(TrackMode::Subgroups) => Ok::<ServePath, ServeError>(ServePath::Subgroups),
            Ok(_) => Ok::<ServePath, ServeError>(ServePath::Datagrams),
            Err(e) => Err::<ServePath, ServeError>(e),
        },
{
    match mode {
        Ok(TrackMode::Subgroups) => Ok(ServePath::Subgroups),
        Ok(_) => Ok(ServePath::Datagrams),
        Err(e) => Err(e),
    }
}

} // verus!
