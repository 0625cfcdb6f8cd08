use std::collections::HashMap;
use vstd::prelude::*;

use crate::coding::{Location, TrackNamespace};
use crate::message::GroupOrder;
use crate::serve::{ServeError, TrackReader, TracksReader};

use super::error::SessionError;
use super::subscribed::{Subscribed, SubscribedRecv, SubscribedState, TrackRequest};
use crate::coding::location::location_lt;
use crate::serve::error::{serve_error_code, serve_error_text};
use crate::coding::ReasonPhrase;
use crate::message::SubscribeDone;

verus! {

/// Accepts a subscription.
#[derive(Debug, PartialEq, Eq)]
pub struct SubscribeOk {
    pub id: u64,
    pub track_alias: u64,
    pub expires: u64,
    pub group_order: GroupOrder,
    pub content_exists: bool,
    pub largest_location: Option<Location>,
}

/// Answers a track status request.
#[derive(Debug, PartialEq, Eq)]
pub struct TrackStatusOk {
    pub id: u64,
    pub track_alias: u64,
    pub expires: u64,
    pub group_order: GroupOrder,
    pub content_exists: bool,
    pub largest_location: Option<Location>,
}

/// How a subscription ended: its request id, the error code and the error it stands for.
#[derive(Debug, PartialEq, Eq)]
pub struct SubscriptionEnd {
    pub id: u64,
    pub code: u64,
    pub reason: ServeError,
}

impl SubscriptionEnd {
    /// The PUBLISH_DONE message that ends an accepted subscription: its request id, the
    /// code as status, no data streams counted, and the error's text as the reason.
    pub fn publish_done(&self) -> (m: SubscribeDone)
        ensures
            m.id == self.id,
            m.status_code == self.code,
            m.stream_count == 0,
            m.reason@ == serve_error_text(self.reason),
    {
        SubscribeDone { id: self.id, status_code: self.code, stream_count: 0, reason: ReasonPhrase(self.reason.to_string()) }
    }

    /// The reason phrase of the SUBSCRIBE_ERROR that refuses a subscription: the error's
    /// text.
    pub fn reason_phrase(&self) -> (r: ReasonPhrase)
        ensures
            r@ == serve_error_text(self.reason),
    {
        ReasonPhrase(self.reason.to_string())
    }
}

/// The control messages the publisher side sends.
#[derive(Debug, PartialEq, Eq)]
pub enum PublisherMessage {
    SubscribeOk(SubscribeOk),
    /// A subscription refused before it was accepted.
    SubscribeError(SubscriptionEnd),
    /// An accepted subscription that ended.
    PublishDone(SubscriptionEnd),
    TrackStatusOk(TrackStatusOk),
    /// A namespace is no longer announced.
    Unannounce { track_namespace: TrackNamespace },
}

/// What a subscriber tells the publisher side of a session.
pub enum PublisherEvent {
    AnnounceOk { id: u64 },
    AnnounceError { id: u64, error_code: u64 },
    /// The subscriber no longer wants an announced namespace.
    AnnounceCancel { track_namespace: TrackNamespace },
    Subscribe(TrackRequest),
    Unsubscribe { id: u64 },
    SubscribeUpdate { id: u64 },
    TrackStatus(TrackRequest),
}

/// The publisher side of a session: the namespaces it announced with the tracks that
/// serve them, the subscriptions in progress by request id, the subscriptions to
/// namespaces it did not announce (for the application), and the control messages
/// waiting to be sent.
pub struct Publisher {
    announces: Vec<(TrackNamespace, TracksReader)>,
    subscribed: HashMap<u64, SubscribedRecv>,
    unknown: Vec<Subscribed>,
    outgoing: Vec<PublisherMessage>,
    /// The track status requests put to a broadcast: request id, full track name, and
    /// whether the broadcast gave (or created) the track.
    asked: Ghost<Seq<(u64, Seq<Seq<u8>>, Seq<char>, bool)>>,
}

/// The message that ends the subscription under `id` with the error `e`: PUBLISH_DONE
/// once it was accepted, else SUBSCRIBE_ERROR, carrying the error and its code.
pub open spec fn end_message(id: u64, accepted: bool, e: ServeError) -> PublisherMessage {
    let end = SubscriptionEnd { id, code: serve_error_code(e), reason: e };
    if accepted {
        PublisherMessage::PublishDone(end)
    } else {
        PublisherMessage::SubscribeError(end)
    }
}

/// The error of a subscription closed already, else `e`.
pub open spec fn closed_or(st: SubscribedState, e: ServeError) -> ServeError {
    match st.closed {
        Err(x) => x,
        Ok(()) => e,
    }
}

/// A subscription just recorded: no location known, not closed.
pub open spec fn fresh_state() -> SubscribedState {
    SubscribedState { largest_location: None, closed: Ok(()) }
}

/// The answer to a track status request under `id` (the largest location is not known
/// before the first object).
pub open spec fn track_status_answer(id: u64) -> PublisherMessage {
    PublisherMessage::TrackStatusOk(
        TrackStatusOk {
            id,
            track_alias: 0,
            expires: 3600,
            group_order: GroupOrder::Ascending,
            content_exists: false,
            largest_location: None,
        },
    )
}

/// What a SUBSCRIBE does to the publisher side `p`, leaving `q` and handing `serve` to
/// the application: a request id in use changes nothing; one for an announced namespace
/// is served from its tracks (or refused as not found, which frees the id again); any
/// other waits for the application.
pub open spec fn subscribe_effect(
    p: Publisher,
    q: Publisher,
    request: TrackRequest,
    serve: Option<(Subscribed, TrackReader)>,
) -> bool {
    &&& q.announced() == p.announced()
    &&& p.subscriptions().contains(request.id) ==> serve is None && q.subscriptions() == p.subscriptions()
        && q.states() == p.states() && q.pending() == p.pending() && q.outgoing() == p.outgoing()
    &&& !p.subscriptions().contains(request.id) && p.announced().contains(request.track_namespace@) ==> q.pending()
        == p.pending() && match serve {
        Some(st) => st.0.track_request() == request && !st.0.is_ok() && st.1@ == (
            request.track_namespace@,
            request.track_name@,
        ) && q.subscriptions() == p.subscriptions().insert(request.id) && q.states() == p.states().insert(
            request.id,
            fresh_state(),
        ) && q.outgoing() == p.outgoing(),
        None => q.subscriptions() == p.subscriptions() && q.states() == p.states() && q.outgoing()
            == p.outgoing().push(end_message(request.id, false, ServeError::NotFound)),
    }
    &&& !p.subscriptions().contains(request.id) && !p.announced().contains(request.track_namespace@) ==> serve is None
        && q.subscriptions() == p.subscriptions().insert(request.id) && q.states() == p.states().insert(
        request.id,
        fresh_state(),
    ) && q.pending() == p.pending().push(request.id) && q.outgoing() == p.outgoing()
}

/// What an UNSUBSCRIBE for `id` does: the subscription is closed as cancelled, unless it
/// was closed already; an unknown id changes nothing.
pub open spec fn unsubscribe_effect(p: Publisher, q: Publisher, id: u64) -> bool {
    &&& q.announced() == p.announced()
    &&& q.subscriptions() == p.subscriptions()
    &&& q.pending() == p.pending()
    &&& q.outgoing() == p.outgoing()
    &&& !p.subscriptions().contains(id) ==> q.states() == p.states()
    &&& p.subscriptions().contains(id) ==> match p.states()[id].closed {
        Err(e) => q.states() == p.states(),
        Ok(()) => q.states() == p.states().insert(
            id,
            SubscribedState { largest_location: p.states()[id].largest_location, closed: Err(ServeError::Cancel) },
        ),
    }
}

/// What a TRACK_STATUS request does: for an announced namespace, the broadcast is asked
/// for the track (see `status_asked`), and the answer is queued exactly when the broadcast
/// gave it; a namespace not announced changes nothing.
pub open spec fn track_status_effect(p: Publisher, q: Publisher, request: TrackRequest) -> bool {
    &&& q.announced() == p.announced()
    &&& q.subscriptions() == p.subscriptions()
    &&& q.states() == p.states()
    &&& q.pending() == p.pending()
    &&& q.outgoing() == p.outgoing() || p.announced().contains(request.track_namespace@) && q.outgoing()
        == p.outgoing().push(track_status_answer(request.id))
    &&& !p.announced().contains(request.track_namespace@) ==> q.status_asked() == p.status_asked() && q.outgoing()
        == p.outgoing()
    &&& p.announced().contains(request.track_namespace@) ==> {
        &&& q.status_asked().len() == p.status_asked().len() + 1
        &&& q.status_asked().drop_last() == p.status_asked()
        &&& q.status_asked().last().0 == request.id
        &&& q.status_asked().last().1 == request.track_namespace@
        &&& q.status_asked().last().2 == request.track_name@
        &&& q.status_asked().last().3 ==> q.outgoing() == p.outgoing().push(track_status_answer(request.id))
        &&& !q.status_asked().last().3 ==> q.outgoing() == p.outgoing()
    }
}

/// What handling `msg` does to the publisher side `p`, leaving `q` and handing `serve`
/// to the application.
pub open spec fn publisher_handled(
    p: Publisher,
    q: Publisher,
    msg: PublisherEvent,
    serve: Option<(Subscribed, TrackReader)>,
) -> bool {
    match msg {
        PublisherEvent::AnnounceCancel { track_namespace } => serve is None && q.announced() == p.announced().remove(
            track_namespace@,
        ) && q.subscriptions() == p.subscriptions() && q.states() == p.states() && q.pending() == p.pending()
            && q.outgoing() == p.outgoing(),
        PublisherEvent::Subscribe(request) => subscribe_effect(p, q, request, serve),
        PublisherEvent::Unsubscribe { id } => serve is None && unsubscribe_effect(p, q, id),
        PublisherEvent::TrackStatus(request) => serve is None && track_status_effect(p, q, request),
        _ => serve is None && q == p,
    }
}

/// A TRACK_STATUS for an announced namespace is always put to that namespace's broadcast,
/// under its request id and full track name; it is answered by one TRACK_STATUS_OK for
/// that request id exactly when the broadcast gave the track, and by nothing otherwise.
pub proof fn lemma_track_status_is_answered(
    p: Publisher,
    q: Publisher,
    request: TrackRequest,
    serve: Option<(Subscribed, TrackReader)>,
)
    requires
        publisher_handled(p, q, PublisherEvent::TrackStatus(request), serve),
        p.announced().contains(request.track_namespace@),
    ensures
        serve is None,
        q.status_asked().len() == p.status_asked().len() + 1,
        q.status_asked().last().0 == request.id,
        q.status_asked().last().1 == request.track_namespace@,
        q.status_asked().last().2 == request.track_name@,
        q.status_asked().last().3 <==> q.outgoing().len() == p.outgoing().len() + 1,
        q.status_asked().last().3 ==> q.outgoing().last() == (PublisherMessage::TrackStatusOk(
            TrackStatusOk {
                id: request.id,
                track_alias: 0,
                expires: 3600,
                group_order: GroupOrder::Ascending,
                content_exists: false,
                largest_location: None,
            },
        )),
{
}

impl Publisher {
    /// Each announced namespace is announced once, and is the namespace of its tracks.
    pub closed spec fn wf(&self) -> bool {
        &&& forall|i: int, j: int|
            0 <= i < j < self.announces@.len() ==> (#[trigger] self.announces@[i]).0@ != (
            #[trigger] self.announces@[j]).0@
        &&& forall|i: int| 0 <= i < self.announces@.len() ==> (#[trigger] self.announces@[i]).0@ == self.announces@[i].1.namespace()
    }

    /// The namespaces announced and not withdrawn.
    pub closed spec fn announced(&self) -> Set<Seq<Seq<u8>>> {
        Set::new(|k: Seq<Seq<u8>>| exists|i: int| 0 <= i < self.announces@.len() && (#[trigger] self.announces@[i]).0@ == k)
    }

    /// The request ids of the subscriptions in progress.
    pub closed spec fn subscriptions(&self) -> Set<u64> {
        self.subscribed@.dom()
    }

    /// The state of each subscription in progress.
    pub closed spec fn states(&self) -> Map<u64, SubscribedState> {
        self.subscribed@.map_values(|r: SubscribedRecv| r.state())
    }

    /// The request ids of the subscriptions waiting for the application, oldest first.
    pub closed spec fn pending(&self) -> Seq<u64> {
        self.unknown@.map_values(|s: Subscribed| s.track_request().id)
    }

    /// The control messages waiting to be sent, oldest first.
    pub closed spec fn outgoing(&self) -> Seq<PublisherMessage> {
        self.outgoing@
    }

    /// The track status requests put to a broadcast's tracks so far, oldest first: the
    /// request id, the full track name asked for, and whether the broadcast gave the
    /// track (asking may create it, and hands it to the broadcast's requests).
    pub closed spec fn status_asked(&self) -> Seq<(u64, Seq<Seq<u8>>, Seq<char>, bool)> {
        self.asked@
    }

    /// Nothing announced, no subscriptions, nothing to send.
    pub fn new() -> (p: Self)
        ensures
            p.wf(),
            p.announced() == Set::<Seq<Seq<u8>>>::empty(),
            p.subscriptions() == Set::<u64>::empty(),
            p.states() == Map::<u64, SubscribedState>::empty(),
            p.pending() == Seq::<u64>::empty(),
            p.outgoing() == Seq::<PublisherMessage>::empty(),
    {
        let p = Publisher {
            announces: Vec::new(),
            subscribed: HashMap::new(),
            unknown: Vec::new(),
            outgoing: Vec::new(),
            asked: Ghost(Seq::empty()),
        };
        assert(p.announced() =~= Set::<Seq<Seq<u8>>>::empty());
        assert(p.subscriptions() =~= Set::<u64>::empty());
        assert(p.states() =~= Map::<u64, SubscribedState>::empty());
        assert(p.pending() =~= Seq::<u64>::empty());
        p
    }

    /// Where this namespace is announced, if it is.
    fn find(&self, namespace: &TrackNamespace) -> (r: Option<usize>)
        ensures
            r matches Some(i) ==> i < self.announces@.len() && self.announces@[i as int].0@ == namespace@,
            r is None ==> !self.announced().contains(namespace@),
    {
        let mut i: usize = 0;
        while i < self.announces.len()
            invariant
                i <= self.announces@.len(),
                forall|j: int| 0 <= j < i ==> (#[trigger] self.announces@[j]).0@ != namespace@,
            decreases self.announces.len() - i,
        {
            if self.announces[i].0.equals(namespace) {
                return Some(i);
            }
            i += 1;
        }
        None
    }

    /// Announces the namespace of `tracks`, served from them; refused as a duplicate if
    /// it is announced already.
    pub fn announce(&mut self, tracks: TracksReader) -> (res: Result<(), SessionError>)
        requires
            old(self).wf(),
        ensures
            final(self).wf(),
            old(self).announced().contains(tracks.namespace()) ==> res == Err::<(), SessionError>(
                SessionError::Serve(ServeError::Duplicate),
            ) && final(self).announced() == old(self).announced(),
            !old(self).announced().contains(tracks.namespace()) ==> res is Ok && final(self).announced()
                == old(self).announced().insert(tracks.namespace()),
            final(self).subscriptions() == old(self).subscriptions(),
            final(self).states() == old(self).states(),
            final(self).pending() == old(self).pending(),
            final(self).outgoing() == old(self).outgoing(),
    {
        let namespace = tracks.tracks_namespace();
        let ghost k = namespace@;
        match self.find(&namespace) {
            Some(_) => Err(SessionError::Serve(ServeError::Duplicate)),
            None => {
                let ghost before = self.announces@;
                self.announces.push((namespace, tracks));
                assert forall|x: Seq<Seq<u8>>| #[trigger] self.announced().contains(x) <==> old(self).announced().insert(k).contains(x) by {
                    if old(self).announced().contains(x) {
                        let j = choose|j: int| 0 <= j < before.len() && (#[trigger] before[j]).0@ == x;
                        assert(self.announces@[j].0@ == x);
                    }
                    if x == k {
                        assert(self.announces@[before.len() as int].0@ == x);
                    }
                    if self.announced().contains(x) {
                        let j = choose|j: int| 0 <= j < self.announces@.len() && (#[trigger] self.announces@[j]).0@ == x;
                        if j < before.len() {
                            assert(before[j].0@ == x);
                        }
                    }
                }
                assert(self.announced() =~= old(self).announced().insert(k));
                assert forall|a: int, b: int| 0 <= a < b < self.announces@.len() implies (#[trigger] self.announces@[a]).0@
                    != (#[trigger] self.announces@[b]).0@ by {
                    if b == before.len() {
                        assert(before[a].0@ != k);
                    }
                }
                assert forall|i: int| 0 <= i < self.announces@.len() implies (#[trigger] self.announces@[i]).0@
                    == self.announces@[i].1.namespace() by {
                    if i < before.len() {
                        assert(self.announces@[i] == before[i]);
                    }
                }
                Ok(())
            },
        }
    }

    /// Forgets an announced namespace, if it is announced.
    fn drop_announce(&mut self, namespace: &TrackNamespace)
        requires
            old(self).wf(),
        ensures
            final(self).wf(),
            final(self).status_asked() == old(self).status_asked(),
            final(self).announced() == old(self).announced().remove(namespace@),
            final(self).subscriptions() == old(self).subscriptions(),
            final(self).states() == old(self).states(),
            final(self).pending() == old(self).pending(),
            final(self).outgoing() == old(self).outgoing(),
    {
        let ghost k = namespace@;
        match self.find(namespace) {
            Some(i) => {
                let ghost before = self.announces@;
                self.announces.remove(i);
                assert forall|x: Seq<Seq<u8>>| #[trigger] self.announced().contains(x) <==> old(self).announced().remove(k).contains(x) by {
                    if old(self).announced().contains(x) && x != k {
                        let j = choose|j: int| 0 <= j < before.len() && (#[trigger] before[j]).0@ == x;
                        if j < i {
                            assert(self.announces@[j].0@ == x);
                        } else {
                            assert(self.announces@[j - 1].0@ == x);
                        }
                    }
                    if self.announced().contains(x) {
                        let j = choose|j: int| 0 <= j < self.announces@.len() && (#[trigger] self.announces@[j]).0@ == x;
                        if j < i {
                            assert(before[j].0@ == x);
                        } else {
                            assert(before[j + 1].0@ == x);
                        }
                    }
                }
                assert(self.announced() =~= old(self).announced().remove(k));
                assert forall|a: int, b: int| 0 <= a < b < self.announces@.len() implies (#[trigger] self.announces@[a]).0@
                    != (#[trigger] self.announces@[b]).0@ by {
                    let a0 = if a < i { a } else { a + 1 };
                    let b0 = if b < i { b } else { b + 1 };
                    assert(self.announces@[a] == before[a0]);
                    assert(self.announces@[b] == before[b0]);
                }
                assert forall|j: int| 0 <= j < self.announces@.len() implies (#[trigger] self.announces@[j]).0@
                    == self.announces@[j].1.namespace() by {
                    let j0 = if j < i { j } else { j + 1 };
                    assert(self.announces@[j] == before[j0]);
                }
            },
            None => {
                assert(self.announced() =~= old(self).announced().remove(k));
            },
        }
    }

    /// Forgets the subscription under `id`, if there is one.
    fn drop_subscribe(&mut self, id: u64)
        requires
            old(self).wf(),
        ensures
            final(self).wf(),
            final(self).status_asked() == old(self).status_asked(),
            final(self).subscriptions() == old(self).subscriptions().remove(id),
            final(self).states() == old(self).states().remove(id),
            final(self).announced() == old(self).announced(),
            final(self).pending() == old(self).pending(),
            final(self).outgoing() == old(self).outgoing(),
    {
        self.subscribed.remove(&id);
        assert(self.subscriptions() =~= old(self).subscriptions().remove(id));
        assert(self.states() =~= old(self).states().remove(id));
    }

    /// Queues a control message. Ending a subscription (SUBSCRIBE_ERROR or PUBLISH_DONE)
    /// forgets it; UNANNOUNCE forgets the namespace.
    pub fn send_message(&mut self, msg: PublisherMessage)
        requires
            old(self).wf(),
        ensures
            final(self).wf(),
            final(self).outgoing() == old(self).outgoing().push(msg),
            final(self).pending() == old(self).pending(),
            final(self).status_asked() == old(self).status_asked(),
            match msg {
                PublisherMessage::SubscribeError(e) => final(self).subscriptions() == old(self).subscriptions().remove(e.id)
                    && final(self).states() == old(self).states().remove(e.id)
                    && final(self).announced() == old(self).announced(),
                PublisherMessage::PublishDone(e) => final(self).subscriptions() == old(self).subscriptions().remove(e.id)
                    && final(self).states() == old(self).states().remove(e.id)
                    && final(self).announced() == old(self).announced(),
                PublisherMessage::Unannounce { track_namespace } => final(self).subscriptions() == old(self).subscriptions()
                    && final(self).states() == old(self).states()
                    && final(self).announced() == old(self).announced().remove(track_namespace@),
                _ => final(self).subscriptions() == old(self).subscriptions() && final(self).states()
                    == old(self).states() && final(self).announced() == old(self).announced(),
            },
    {
        match &msg {
            PublisherMessage::SubscribeError(e) => self.drop_subscribe(e.id),
            PublisherMessage::PublishDone(e) => self.drop_subscribe(e.id),
            PublisherMessage::Unannounce { track_namespace } => self.drop_announce(track_namespace),
            _ => {},
        }
        self.outgoing.push(msg);
    }

    /// Takes the control messages waiting to be sent, oldest first.
    pub fn take_outgoing(&mut self) -> (msgs: Vec<PublisherMessage>)
        ensures
            msgs@ == old(self).outgoing(),
            final(self).outgoing() == Seq::<PublisherMessage>::empty(),
            final(self).wf() == old(self).wf(),
            final(self).announced() == old(self).announced(),
            final(self).subscriptions() == old(self).subscriptions(),
            final(self).states() == old(self).states(),
            final(self).pending() == old(self).pending(),
    {
        let mut msgs = Vec::new();
        std::mem::swap(&mut msgs, &mut self.outgoing);
        assert(self.announces@ == old(self).announces@);
        msgs
    }

    /// The next subscription to a namespace that was not announced, oldest first, for
    /// the application to serve or refuse.
    pub fn subscribed(&mut self) -> (r: Option<Subscribed>)
        requires
            old(self).wf(),
        ensures
            final(self).wf(),
            old(self).pending().len() == 0 ==> r is None && final(self).pending() == old(self).pending(),
            old(self).pending().len() > 0 ==> (r matches Some(s) && s.track_request().id == old(self).pending()[0]
                && final(self).pending() == old(self).pending().drop_first()),
            final(self).announced() == old(self).announced(),
            final(self).subscriptions() == old(self).subscriptions(),
            final(self).states() == old(self).states(),
            final(self).outgoing() == old(self).outgoing(),
    {
        if self.unknown.len() == 0 {
            return None;
        }
        let s = self.unknown.remove(0);
        assert(self.pending() =~= old(self).pending().drop_first());
        Some(s)
    }

    /// Serves `subscribed` from `tracks`: the track of the requested full name is
    /// returned with it to be served; if there is none, the subscription is closed with
    /// `NotFound` (unless closed already), ended (see `finish`) and forgotten.
    pub fn serve_subscribe(&mut self, subscribed: Subscribed, tracks: &mut TracksReader) -> (r: Option<(Subscribed, TrackReader)>)
        requires
            old(self).wf(),
        ensures
            final(self).wf(),
            final(self).announced() == old(self).announced(),
            final(self).pending() == old(self).pending(),
            r matches Some(st) ==> st.0 == subscribed && st.1@ == (
                subscribed.track_request().track_namespace@,
                subscribed.track_request().track_name@,
            ) && final(self).subscriptions() == old(self).subscriptions() && final(self).states() == old(self).states()
                && final(self).outgoing() == old(self).outgoing(),
            r is None ==> {
                let id = subscribed.track_request().id;
                let e = if old(self).subscriptions().contains(id) {
                    closed_or(old(self).states()[id], ServeError::NotFound)
                } else {
                    ServeError::Done
                };
                &&& final(self).subscriptions() == old(self).subscriptions().remove(id)
                &&& final(self).states() == old(self).states().remove(id)
                &&& final(self).outgoing() == old(self).outgoing().push(end_message(id, subscribed.is_ok(), e))
            },
    {
        let namespace = subscribed.request().track_namespace.duplicate();
        match tracks.subscribe(namespace, subscribed.request().track_name.as_str()) {
            Some(track) => Some((subscribed, track)),
            None => {
                let _ = self.close_subscribed(&subscribed, ServeError::NotFound);
                self.finish(subscribed);
                None
            },
        }
    }

    /// Serving starts from a track whose largest location is `latest`: it is recorded,
    /// SUBSCRIBE_OK is queued (the request id doubles as the track alias; groups go
    /// newest first) and the subscription counts as accepted. A subscription no longer
    /// held is `Cancel`.
    pub fn start_serving(&mut self, subscribed: &mut Subscribed, latest: Option<Location>) -> (res: Result<(), ServeError>)
        requires
            old(self).wf(),
        ensures
            final(self).wf(),
            final(self).announced() == old(self).announced(),
            final(self).pending() == old(self).pending(),
            final(self).subscriptions() == old(self).subscriptions(),
            final(subscribed).track_request() == old(subscribed).track_request(),
            ({
                let id = old(subscribed).track_request().id;
                if old(self).subscriptions().contains(id) {
                    &&& res is Ok
                    &&& final(subscribed).is_ok()
                    &&& final(self).states() == old(self).states().insert(
                        id,
                        SubscribedState { largest_location: latest, closed: old(self).states()[id].closed },
                    )
                    &&& final(self).outgoing() == old(self).outgoing().push(
                        PublisherMessage::SubscribeOk(
                            SubscribeOk {
                                id,
                                track_alias: id,
                                expires: 3600,
                                group_order: GroupOrder::Descending,
                                content_exists: latest is Some,
                                largest_location: latest,
                            },
                        ),
                    )
                } else {
                    &&& res == Err::<(), ServeError>(ServeError::Cancel)
                    &&& final(subscribed).is_ok() == old(subscribed).is_ok()
                    &&& final(self).states() == old(self).states()
                    &&& final(self).outgoing() == old(self).outgoing()
                }
            }),
    {
        let id = subscribed.request().id;
        match self.subscribed.remove(&id) {
            Some(mut recv) => {
                recv.start(latest);
                self.subscribed.insert(id, recv);
                assert(self.subscriptions() =~= old(self).subscriptions());
                assert(self.states() =~= old(self).states().insert(
                    id,
                    SubscribedState { largest_location: latest, closed: old(self).states()[id].closed },
                ));
                let msg = SubscribeOk {
                    id,
                    track_alias: id,
                    expires: 3600,
                    group_order: GroupOrder::Descending,
                    content_exists: latest.is_some(),
                    largest_location: latest,
                };
                self.outgoing.push(PublisherMessage::SubscribeOk(msg));
                subscribed.accept();
                Ok(())
            },
            None => Err(ServeError::Cancel),
        }
    }

    /// Closes the subscription with `err`; one closed already keeps its first error,
    /// which is returned, and one no longer held is `Done`.
    pub fn close_subscribed(&mut self, subscribed: &Subscribed, err: ServeError) -> (res: Result<(), ServeError>)
        requires
            old(self).wf(),
        ensures
            final(self).wf(),
            final(self).announced() == old(self).announced(),
            final(self).pending() == old(self).pending(),
            final(self).subscriptions() == old(self).subscriptions(),
            final(self).outgoing() == old(self).outgoing(),
            ({
                let id = subscribed.track_request().id;
                if !old(self).subscriptions().contains(id) {
                    res == Err::<(), ServeError>(ServeError::Done) && final(self).states() == old(self).states()
                } else if old(self).states()[id].closed is Err {
                    res == old(self).states()[id].closed && final(self).states() == old(self).states()
                } else {
                    res is Ok && final(self).states() == old(self).states().insert(
                        id,
                        SubscribedState { largest_location: old(self).states()[id].largest_location, closed: Err(err) },
                    )
                }
            }),
    {
        let id = subscribed.request().id;
        match self.subscribed.remove(&id) {
            Some(mut recv) => {
                let r = recv.close(err);
                self.subscribed.insert(id, recv);
                assert(self.subscriptions() =~= old(self).subscriptions());
                proof {
                    if old(self).states()[id].closed is Err {
                        assert(self.states() =~= old(self).states());
                    } else {
                        assert(self.states() =~= old(self).states().insert(
                            id,
                            SubscribedState { largest_location: old(self).states()[id].largest_location, closed: Err(err) },
                        ));
                    }
                }
                r
            },
            None => Err(ServeError::Done),
        }
    }

    /// Records that the object at (`group_id`, `object_id`) was sent: the largest
    /// location moves forward to it (see `SubscribedState::update_largest_location`).
    /// A subscription no longer held is `Done`.
    pub fn record_sent(&mut self, subscribed: &Subscribed, group_id: u64, object_id: u64) -> (res: Result<(), ServeError>)
        requires
            old(self).wf(),
        ensures
            final(self).wf(),
            final(self).announced() == old(self).announced(),
            final(self).pending() == old(self).pending(),
            final(self).subscriptions() == old(self).subscriptions(),
            final(self).outgoing() == old(self).outgoing(),
            ({
                let id = subscribed.track_request().id;
                let st = old(self).states()[id];
                let at = Location { group: group_id, object: object_id };
                if !old(self).subscriptions().contains(id) {
                    res == Err::<(), ServeError>(ServeError::Done) && final(self).states() == old(self).states()
                } else {
                    res is Ok && final(self).states() == old(self).states().insert(
                        id,
                        SubscribedState {
                            largest_location: match st.largest_location {
                                Some(cur) => Some(if location_lt(cur, at) { at } else { cur }),
                                None => None,
                            },
                            closed: st.closed,
                        },
                    )
                }
            }),
    {
        let id = subscribed.request().id;
        match self.subscribed.remove(&id) {
            Some(mut recv) => {
                let r = recv.update_largest_location(group_id, object_id);
                self.subscribed.insert(id, recv);
                assert(self.subscriptions() =~= old(self).subscriptions());
                assert(self.states() =~= old(self).states().insert(id, self.states()[id]));
                r
            },
            None => Err(ServeError::Done),
        }
    }

    /// Serving ended: PUBLISH_DONE once accepted, else SUBSCRIBE_ERROR, is queued with
    /// the closing error (`Done` if the subscription was not closed or is no longer
    /// held), and the subscription is forgotten.
    pub fn finish(&mut self, subscribed: Subscribed)
        requires
            old(self).wf(),
        ensures
            final(self).wf(),
            final(self).announced() == old(self).announced(),
            final(self).pending() == old(self).pending(),
            ({
                let id = subscribed.track_request().id;
                let e = if old(self).subscriptions().contains(id) {
                    closed_or(old(self).states()[id], ServeError::Done)
                } else {
                    ServeError::Done
                };
                &&& final(self).subscriptions() == old(self).subscriptions().remove(id)
                &&& final(self).states() == old(self).states().remove(id)
                &&& final(self).outgoing() == old(self).outgoing().push(end_message(id, subscribed.is_ok(), e))
            }),
    {
        let id = subscribed.request().id;
        let err = match self.subscribed.get(&id) {
            Some(recv) => recv.closing_error(),
            None => ServeError::Done,
        };
        let end = SubscriptionEnd { id, code: err.code(), reason: err };
        let msg = if subscribed.accepted() {
            PublisherMessage::PublishDone(end)
        } else {
            PublisherMessage::SubscribeError(end)
        };
        self.send_message(msg);
    }

    /// A subscription arrived. One under a request id in use is refused as a duplicate.
    /// Otherwise it is recorded; a subscription to an announced namespace is served from
    /// that namespace's tracks (see `serve_subscribe`), any other waits for the
    /// application (see `subscribed`).
    pub fn recv_subscribe(&mut self, request: TrackRequest) -> (res: Result<Option<(Subscribed, TrackReader)>, SessionError>)
        requires
            old(self).wf(),
        ensures
            final(self).wf(),
            final(self).announced() == old(self).announced(),
            old(self).subscriptions().contains(request.id) ==> res == Err::<Option<(Subscribed, TrackReader)>, SessionError>(
                SessionError::Duplicate,
            ) && final(self).subscriptions() == old(self).subscriptions() && final(self).states() == old(self).states()
                && final(self).pending() == old(self).pending() && final(self).outgoing() == old(self).outgoing(),
            !old(self).subscriptions().contains(request.id) && old(self).announced().contains(request.track_namespace@)
                ==> final(self).pending() == old(self).pending() && match res {
                Ok(Some(st)) => st.0.track_request() == request && !st.0.is_ok() && st.1@ == (
                    request.track_namespace@,
                    request.track_name@,
                ) && final(self).subscriptions() == old(self).subscriptions().insert(request.id) && final(self).states()
                    == old(self).states().insert(request.id, fresh_state()) && final(self).outgoing()
                    == old(self).outgoing(),
                Ok(None) => final(self).subscriptions() == old(self).subscriptions() && final(self).states()
                    == old(self).states() && final(self).outgoing() == old(self).outgoing().push(
                    end_message(request.id, false, ServeError::NotFound),
                ),
                Err(_) => false,
            },
            !old(self).subscriptions().contains(request.id) && !old(self).announced().contains(request.track_namespace@)
                ==> res == Ok::<Option<(Subscribed, TrackReader)>, SessionError>(None)
                && final(self).subscriptions() == old(self).subscriptions().insert(request.id)
                && final(self).states() == old(self).states().insert(request.id, fresh_state())
                && final(self).pending() == old(self).pending().push(request.id)
                && final(self).outgoing() == old(self).outgoing(),
    {
        let id = request.id;
        if self.subscribed.contains_key(&id) {
            return Err(SessionError::Duplicate);
        }
        let ghost req = request;
        let found = self.find(&request.track_namespace);
        let (send, recv) = Subscribed::new(request);
        let ghost fresh = recv;
        self.subscribed.insert(id, recv);
        assert(self.subscribed@ == old(self).subscribed@.insert(id, fresh));
        assert(self.subscriptions() =~= old(self).subscriptions().insert(id));
        assert(self.states() =~= old(self).states().insert(id, fresh_state()));
        match found {
            Some(i) => {
                assert(old(self).announced().contains(req.track_namespace@));
                let mut tracks = self.announces[i].1.clone();
                let r = self.serve_subscribe(send, &mut tracks);
                proof {
                    if r is None {
                        assert(old(self).subscriptions().insert(id).remove(id) =~= old(self).subscriptions());
                        assert(old(self).states().insert(id, fresh_state()).remove(id) =~= old(self).states());
                    }
                }
                Ok(r)
            },
            None => {
                self.unknown.push(send);
                assert(self.pending() =~= old(self).pending().push(id));
                Ok(None)
            },
        }
    }

    /// Answers a track status request from `tracks`: TRACK_STATUS_OK with the track's
    /// largest location, if known; `NotFound` if the track cannot be had.
    pub fn serve_track_status(&mut self, request: &TrackRequest, tracks: &mut TracksReader) -> (res: Result<(), SessionError>)
        requires
            old(self).wf(),
        ensures
            final(self).wf(),
            final(self).announced() == old(self).announced(),
            final(self).subscriptions() == old(self).subscriptions(),
            final(self).states() == old(self).states(),
            final(self).pending() == old(self).pending(),
            final(self).status_asked() == old(self).status_asked().push(
                (request.id, request.track_namespace@, request.track_name@, res is Ok),
            ),
            res is Err ==> res == Err::<(), SessionError>(SessionError::Serve(ServeError::NotFound)) && final(self).outgoing()
                == old(self).outgoing(),
            res is Ok ==> final(self).outgoing() == old(self).outgoing().push(
                PublisherMessage::TrackStatusOk(
                    TrackStatusOk {
                        id: request.id,
                        track_alias: 0,
                        expires: 3600,
                        group_order: GroupOrder::Ascending,
                        content_exists: false,
                        largest_location: None,
                    },
                ),
            ),
    {
        let namespace = request.track_namespace.duplicate();
        let found = tracks.subscribe(namespace, request.track_name.as_str());
        self.asked = Ghost(
            self.asked@.push((request.id, request.track_namespace@, request.track_name@, found is Some)),
        );
        let track = match found {
            Some(track) => track,
            None => return Err(SessionError::Serve(ServeError::NotFound)),
        };
        let latest = track.latest();
        let response = TrackStatusOk {
            id: request.id,
            track_alias: 0,
            expires: 3600,
            group_order: GroupOrder::Ascending,
            content_exists: latest.is_some(),
            largest_location: latest,
        };
        self.send_message(PublisherMessage::TrackStatusOk(response));
        Ok(())
    }

    /// A track status request arrived: answered from the tracks of its namespace (see
    /// `serve_track_status`); one for a namespace never announced is an internal error.
    pub fn recv_track_status(&mut self, request: TrackRequest) -> (res: Result<(), SessionError>)
        requires
            old(self).wf(),
        ensures
            final(self).wf(),
            final(self).announced() == old(self).announced(),
            final(self).subscriptions() == old(self).subscriptions(),
            final(self).states() == old(self).states(),
            final(self).pending() == old(self).pending(),
            !old(self).announced().contains(request.track_namespace@) ==> final(self).status_asked() == old(self).status_asked(),
            old(self).announced().contains(request.track_namespace@) ==> final(self).status_asked() == old(self).status_asked().push(
                (request.id, request.track_namespace@, request.track_name@, res is Ok),
            ),
            !old(self).announced().contains(request.track_namespace@) ==> res == Err::<(), SessionError>(SessionError::Internal)
                && final(self).outgoing() == old(self).outgoing(),
            old(self).announced().contains(request.track_namespace@) ==> (res is Err ==> res == Err::<(), SessionError>(
                SessionError::Serve(ServeError::NotFound),
            ) && final(self).outgoing() == old(self).outgoing()) && (res is Ok ==> final(self).outgoing()
                == old(self).outgoing().push(
                PublisherMessage::TrackStatusOk(
                    TrackStatusOk {
                        id: request.id,
                        track_alias: 0,
                        expires: 3600,
                        group_order: GroupOrder::Ascending,
                        content_exists: false,
                        largest_location: None,
                    },
                ),
            )),
    {
        match self.find(&request.track_namespace) {
            Some(i) => {
                let mut tracks = self.announces[i].1.clone();
                self.serve_track_status(&request, &mut tracks)
            },
            None => Err(SessionError::Internal),
        }
    }

    /// The subscriber unsubscribed: the subscription under `id` is closed as cancelled;
    /// one closed already reports its error; an unknown id is ignored.
    pub fn recv_unsubscribe(&mut self, id: u64) -> (res: Result<(), SessionError>)
        requires
            old(self).wf(),
        ensures
            final(self).wf(),
            final(self).announced() == old(self).announced(),
            final(self).subscriptions() == old(self).subscriptions(),
            final(self).pending() == old(self).pending(),
            final(self).outgoing() == old(self).outgoing(),
            !old(self).subscriptions().contains(id) ==> res is Ok && final(self).states() == old(self).states(),
            old(self).subscriptions().contains(id) ==> match old(self).states()[id].closed {
                Err(e) => res == Err::<(), SessionError>(SessionError::Serve(e)) && final(self).states() == old(self).states(),
                Ok(()) => res is Ok && final(self).states() == old(self).states().insert(
                    id,
                    SubscribedState {
                        largest_location: old(self).states()[id].largest_location,
                        closed: Err(ServeError::Cancel),
                    },
                ),
            },
    {
        match self.subscribed.remove(&id) {
            Some(mut subscribed) => {
                let r = subscribed.recv_unsubscribe();
                self.subscribed.insert(id, subscribed);
                assert(self.subscriptions() =~= old(self).subscriptions());
                proof {
                    if old(self).states()[id].closed is Err {
                        assert(self.states() =~= old(self).states());
                    } else {
                        assert(self.states() =~= old(self).states().insert(
                            id,
                            SubscribedState {
                                largest_location: old(self).states()[id].largest_location,
                                closed: Err(ServeError::Cancel),
                            },
                        ));
                    }
                }
                match r {
                    Ok(()) => Ok(()),
                    Err(e) => Err(SessionError::Serve(e)),
                }
            },
            None => Ok(()),
        }
    }

    /// The subscriber withdrew its interest in a namespace: it is no longer announced.
    pub fn recv_announce_cancel(&mut self, track_namespace: &TrackNamespace) -> (res: Result<(), SessionError>)
        requires
            old(self).wf(),
        ensures
            res is Ok,
            final(self).wf(),
            final(self).announced() == old(self).announced().remove(track_namespace@),
            final(self).subscriptions() == old(self).subscriptions(),
            final(self).states() == old(self).states(),
            final(self).pending() == old(self).pending(),
            final(self).outgoing() == old(self).outgoing(),
    {
        self.drop_announce(track_namespace);
        Ok(())
    }

    /// Updating a subscription is not supported: an internal error, nothing changes.
    pub fn recv_subscribe_update(&mut self, id: u64) -> (res: Result<(), SessionError>)
        ensures
            res == Err::<(), SessionError>(SessionError::Internal),
            *final(self) == *old(self),
    {
        Err(SessionError::Internal)
    }

    /// Handles what a subscriber sent. A failure is reported by nothing but its effect
    /// (a refusal queued, say) and the session goes on; a subscription to serve is
    /// returned with its track.
    pub fn recv_message(&mut self, msg: PublisherEvent) -> (serve: Option<(Subscribed, TrackReader)>)
        requires
            old(self).wf(),
        ensures
            final(self).wf(),
            publisher_handled(*old(self), *final(self), msg, serve),
    {
        match msg {
            PublisherEvent::AnnounceOk { id } => None,
            PublisherEvent::AnnounceError { id, error_code } => None,
            PublisherEvent::AnnounceCancel { track_namespace } => {
                let _ = self.recv_announce_cancel(&track_namespace);
                None
            },
            PublisherEvent::Subscribe(request) => match self.recv_subscribe(request) {
                Ok(r) => r,
                Err(_) => None,
            },
            PublisherEvent::Unsubscribe { id } => {
                let _ = self.recv_unsubscribe(id);
                None
            },
            PublisherEvent::SubscribeUpdate { id } => {
                let _ = self.recv_subscribe_update(id);
                None
            },
            PublisherEvent::TrackStatus(request) => {
                let ghost req = request;
                let r = self.recv_track_status(request);
                proof {
                    if old(self).announced().contains(req.track_namespace@) {
                        let entry = (req.id, req.track_namespace@, req.track_name@, r is Ok);
                        assert(self.status_asked().drop_last() =~= old(self).status_asked());
                        assert(self.status_asked().last() == entry);
                    }
                }
                None
            },
        }
    }
}

} // verus!
