use std::collections::HashMap;
use vstd::prelude::*;

use crate::coding::buf::buf_from_slice;
use crate::coding::TrackNamespace;
use crate::data::datagram::spec_decode_datagram;
use crate::data::{Datagram, SubgroupHeader};
use crate::message::{
    AnnounceCancel, AnnounceOk, Fetch, FetchCancel, GroupOrder, SubscribeNamespace, UnsubscribeNamespace,
};
use crate::serve::{ServeError, TrackWriter};
use crate::serve::error::serve_error_code;

use super::error::SessionError;
use super::subscribe::{SubgroupInfo, Subscribe, SubscribeRecv};

verus! {

/// What a publisher tells the subscriber side of a session.
pub enum SubscriberEvent {
    /// A namespace was announced under a request id.
    PublishNamespace { id: u64, track_namespace: TrackNamespace },
    /// An announced namespace was withdrawn.
    PublishNamespaceDone { track_namespace: TrackNamespace },
    /// A subscription ended, with a status code.
    PublishDone { id: u64, status_code: u64 },
    /// A subscription was accepted.
    SubscribeOk { id: u64 },
    /// A subscription was refused, with an error code.
    SubscribeError { id: u64, error_code: u64 },
    /// A track status request was answered.
    TrackStatusOk,
}

/// Which objects a subscription asks for.
#[derive(Clone, Copy, Debug, PartialEq, Eq, Structural)]
pub enum FilterType {
    /// From the start of the latest group on.
    LatestGroup,
}

/// The control messages the subscriber side sends.
pub enum SubscriberMessage {
    /// Asks the publisher for a track under a request id, which doubles as the track
    /// alias.
    Subscribe {
        id: u64,
        track_alias: u64,
        track_namespace: TrackNamespace,
        track_name: String,
        subscriber_priority: u8,
        group_order: GroupOrder,
        filter_type: FilterType,
    },
    /// Ends the subscription under a request id.
    Unsubscribe { id: u64 },
    AnnounceOk(AnnounceOk),
    AnnounceCancel(AnnounceCancel),
    SubscribeNamespace(SubscribeNamespace),
    UnsubscribeNamespace(UnsubscribeNamespace),
    Fetch(Fetch),
    FetchCancel(FetchCancel),
}

/// The SUBSCRIBE sent for the subscription under `id` to the track `track`: the id is
/// also the track alias; mid priority, the publisher's group order, from the latest
/// group on.
pub open spec fn is_subscribe_for(m: SubscriberMessage, id: u64, track: (Seq<Seq<u8>>, Seq<char>)) -> bool {
    match m {
        SubscriberMessage::Subscribe {
            id: i,
            track_alias,
            track_namespace,
            track_name,
            subscriber_priority,
            group_order,
            filter_type,
        } => i == id && track_alias == id && track_namespace@ == track.0 && track_name@ == track.1
            && subscriber_priority == 127 && group_order == GroupOrder::Publisher && filter_type
            == FilterType::LatestGroup,
        _ => false,
    }
}

/// Request ids go up by 2 and so keep their parity: the side that connected (starting
/// at 0) only ever uses even ids, the side that accepted (starting at 1) odd ones.
pub proof fn lemma_request_id_parity(id: u64)
    ensures
        id.wrapping_add(2) % 2 == id % 2,
{
    if id as int + 2 > u64::MAX as int {
        assert(id.wrapping_add(2) == id as int + 2 - 0x1_0000_0000_0000_0000);
    } else {
        assert(id.wrapping_add(2) == id + 2);
    }
}

/// The request id a session hands out after `k` earlier ones, starting from `first`:
/// each call of `Subscriber::subscribe` moves it on by 2, wrapping.
pub open spec fn request_id_after(first: u64, k: nat) -> u64
    decreases k,
{
    if k == 0 {
        first
    } else {
        request_id_after(first, (k - 1) as nat).wrapping_add(2)
    }
}

/// The request ids of one session, while they do not wrap: the `k`-th is `first + 2k`, so
/// ids drawn at different times differ, and all keep the parity of the first (even on the
/// side that connected, odd on the side that accepted).
pub proof fn lemma_request_ids_distinct(first: u64, k1: nat, k2: nat)
    requires
        k1 < k2,
        first + 2 * k2 <= u64::MAX,
    ensures
        request_id_after(first, k1) == first + 2 * k1,
        request_id_after(first, k2) == first + 2 * k2,
        request_id_after(first, k1) != request_id_after(first, k2),
        request_id_after(first, k1) % 2 == first % 2,
        request_id_after(first, k2) % 2 == first % 2,
{
    lemma_request_id_after_exact(first, k2);
    lemma_request_id_after_exact(first, k1);
}

proof fn lemma_request_id_after_exact(first: u64, k: nat)
    requires
        first + 2 * k <= u64::MAX,
    ensures
        request_id_after(first, k) == first + 2 * k,
    decreases k,
{
    if k > 0 {
        lemma_request_id_after_exact(first, (k - 1) as nat);
    }
}

/// What handling `msg` does to the subscriber side `s`, leaving `t` and answering `res`:
/// a namespace announced twice is refused as a duplicate; any failure to serve is
/// reported and the session goes on.
pub open spec fn subscriber_handled(s: Subscriber, t: Subscriber, msg: SubscriberEvent, res: Result<(), SessionError>) -> bool {
    &&& t.outgoing() == s.outgoing()
    &&& t.spec_next_requestid() == s.spec_next_requestid()
    &&& res matches Err(e) ==> e == SessionError::Duplicate
    &&& match msg {
        SubscriberEvent::PublishNamespace { id, track_namespace } => t.subscriptions() == s.subscriptions()
            && t.announced() == s.announced().insert(track_namespace@) && (res is Err <==> s.announced().contains(
            track_namespace@,
        )),
        SubscriberEvent::PublishNamespaceDone { track_namespace } => res is Ok && t.subscriptions() == s.subscriptions()
            && t.announced() == s.announced().remove(track_namespace@),
        SubscriberEvent::PublishDone { id, status_code } => res is Ok && t.subscriptions() == s.subscriptions().remove(id)
            && t.announced() == s.announced() && (s.subscriptions().contains(id) ==> t.ended() == s.ended().insert(
            id,
            ServeError::Closed(status_code),
        )),
        SubscriberEvent::SubscribeOk { id } => res is Ok && t.subscriptions() == s.subscriptions() && t.announced()
            == s.announced() && (s.subscriptions().contains(id) ==> t.subscription_accepted(id) && t.subscription_mode(id)
            == s.subscription_mode(id)),
        SubscriberEvent::SubscribeError { id, error_code } => res is Ok && t.subscriptions() == s.subscriptions().remove(
            id,
        ) && t.announced() == s.announced() && (s.subscriptions().contains(id) ==> t.ended() == s.ended().insert(
            id,
            ServeError::Closed(error_code),
        )),
        SubscriberEvent::TrackStatusOk => res is Ok && t == s,
    }
}

/// A PUBLISH_DONE (or SUBSCRIBE_ERROR) for a subscription in progress ends it: it is no
/// longer in progress, and it was closed with the publisher's own code, so the error its
/// track and its application side see carries that code.
pub proof fn lemma_end_carries_the_code(s: Subscriber, t: Subscriber, id: u64, code: u64, res: Result<(), SessionError>)
    requires
        s.subscriptions().contains(id),
        subscriber_handled(s, t, SubscriberEvent::PublishDone { id, status_code: code }, res) || subscriber_handled(
            s,
            t,
            SubscriberEvent::SubscribeError { id, error_code: code },
            res,
        ),
    ensures
        res is Ok,
        !t.subscriptions().contains(id),
        t.ended().contains_key(id),
        t.ended()[id] == ServeError::Closed(code),
        serve_error_code(t.ended()[id]) == code,
{
}

/// The subscriber side of a session: the namespaces announced to it, its subscriptions
/// by request id, and the control messages waiting to be sent.
pub struct Subscriber {
    announced: Vec<(TrackNamespace, u64)>,
    subscribes: HashMap<u64, SubscribeRecv>,
    outgoing: Vec<SubscriberMessage>,
    next_requestid: u64,
    /// The error each subscription that the publisher ended was closed with.
    ended: Ghost<Map<u64, ServeError>>,
}

impl Subscriber {
    /// The announced namespaces are distinct.
    pub closed spec fn wf(&self) -> bool {
        forall|i: int, j: int|
            0 <= i < j < self.announced@.len() ==> (#[trigger] self.announced@[i]).0@ != (
            #[trigger] self.announced@[j]).0@
    }

    /// The namespaces announced and not withdrawn.
    pub closed spec fn announced(&self) -> Set<Seq<Seq<u8>>> {
        Set::new(|k: Seq<Seq<u8>>| exists|i: int| 0 <= i < self.announced@.len() && (#[trigger] self.announced@[i]).0@ == k)
    }

    /// The request ids of the subscriptions in progress.
    pub closed spec fn subscriptions(&self) -> Set<u64> {
        self.subscribes@.dom()
    }

    /// The control messages waiting to be sent, oldest first.
    pub closed spec fn outgoing(&self) -> Seq<SubscriberMessage> {
        self.outgoing@
    }

    /// The mode of the track written for the subscription under `id` (see `mode_tag`).
    pub closed spec fn subscription_mode(&self, id: u64) -> int {
        self.subscribes@[id].mode()
    }

    /// The error each subscription ended by the publisher (or by a failure to serve it)
    /// was closed with, by request id: its track and its application side were closed
    /// with it.
    pub closed spec fn ended(&self) -> Map<u64, ServeError> {
        self.ended@
    }

    /// Whether the publisher accepted the subscription under `id`.
    pub closed spec fn subscription_accepted(&self, id: u64) -> bool {
        self.subscribes@[id].is_accepted()
    }

    /// The request id the next subscription will take.
    pub closed spec fn spec_next_requestid(&self) -> u64 {
        self.next_requestid
    }

    /// No announcements, no subscriptions; request ids start at `first_requestid` (0 for
    /// the side that opened the connection, 1 for the other) and go up by 2.
    pub fn new(first_requestid: u64) -> (s: Self)
        ensures
            s.wf(),
            s.announced() == Set::<Seq<Seq<u8>>>::empty(),
            s.subscriptions() == Set::<u64>::empty(),
            s.outgoing() == Seq::<SubscriberMessage>::empty(),
            s.spec_next_requestid() == first_requestid,
    {
        let s = Subscriber { announced: Vec::new(), subscribes: HashMap::new(), outgoing: Vec::new(), next_requestid: first_requestid, ended: Ghost(Map::empty()) };
        assert(s.announced() =~= Set::<Seq<Seq<u8>>>::empty());
        assert(s.subscriptions() =~= Set::<u64>::empty());
        s
    }

    /// Where this namespace is announced, if it is.
    fn find(&self, namespace: &TrackNamespace) -> (r: Option<usize>)
        ensures
            r matches Some(i) ==> i < self.announced@.len() && self.announced@[i as int].0@ == namespace@,
            r is None ==> !self.announced().contains(namespace@),
    {
        let mut i: usize = 0;
        while i < self.announced.len()
            invariant
                i <= self.announced@.len(),
                forall|j: int| 0 <= j < i ==> (#[trigger] self.announced@[j]).0@ != namespace@,
            decreases self.announced.len() - i,
        {
            if self.announced[i].0.equals(namespace) {
                return Some(i);
            }
            i += 1;
        }
        None
    }

    /// Forgets an announced namespace, if it is announced.
    pub fn drop_publish_namespace(&mut self, namespace: &TrackNamespace)
        requires
            old(self).wf(),
        ensures
            final(self).wf(),
            final(self).announced() == old(self).announced().remove(namespace@),
            final(self).subscriptions() == old(self).subscriptions(),
            final(self).outgoing() == old(self).outgoing(),
            final(self).spec_next_requestid() == old(self).spec_next_requestid(),
    {
        let ghost k = namespace@;
        match self.find(namespace) {
            Some(i) => {
                let ghost before = self.announced@;
                self.announced.remove(i);
                assert forall|x: Seq<Seq<u8>>| #[trigger] self.announced().contains(x) <==> old(self).announced().remove(k).contains(x) by {
                    if old(self).announced().contains(x) && x != k {
                        let j = choose|j: int| 0 <= j < before.len() && (#[trigger] before[j]).0@ == x;
                        if j < i {
                            assert(self.announced@[j].0@ == x);
                        } else {
                            assert(self.announced@[j - 1].0@ == x);
                        }
                    }
                    if self.announced().contains(x) {
                        let j = choose|j: int| 0 <= j < self.announced@.len() && (#[trigger] self.announced@[j]).0@ == x;
                        if j < i {
                            assert(before[j].0@ == x);
                        } else {
                            assert(before[j + 1].0@ == x);
                        }
                    }
                }
                assert(self.announced() =~= old(self).announced().remove(k));
            },
            None => {
                assert(self.announced() =~= old(self).announced().remove(k));
            },
        }
    }

    /// Queues a control message; cancelling an announce forgets its namespace.
    pub fn send_message(&mut self, msg: SubscriberMessage)
        requires
            old(self).wf(),
        ensures
            final(self).wf(),
            final(self).outgoing() == old(self).outgoing().push(msg),
            final(self).subscriptions() == old(self).subscriptions(),
            final(self).spec_next_requestid() == old(self).spec_next_requestid(),
            msg matches SubscriberMessage::AnnounceCancel(m) ==> final(self).announced() == old(self).announced().remove(
                m.track_namespace@,
            ),
            !(msg is AnnounceCancel) ==> final(self).announced() == old(self).announced(),
    {
        if let SubscriberMessage::AnnounceCancel(m) = &msg {
            self.drop_publish_namespace(&m.track_namespace);
        }
        self.outgoing.push(msg);
    }

    /// Takes the control messages waiting to be sent, oldest first.
    pub fn take_outgoing(&mut self) -> (msgs: Vec<SubscriberMessage>)
        ensures
            msgs@ == old(self).outgoing(),
            final(self).outgoing() == Seq::<SubscriberMessage>::empty(),
            final(self).wf() == old(self).wf(),
            final(self).announced() == old(self).announced(),
            final(self).subscriptions() == old(self).subscriptions(),
            final(self).spec_next_requestid() == old(self).spec_next_requestid(),
    {
        let mut msgs = Vec::new();
        std::mem::swap(&mut msgs, &mut self.outgoing);
        assert(self.announced@ == old(self).announced@);
        msgs
    }

    /// Starts a subscription to the track written by `track`, under the next request id,
    /// which then goes up by 2 (wrapping): a SUBSCRIBE for it is queued, and the
    /// application side is returned.
    pub fn subscribe(&mut self, track: TrackWriter) -> (s: Subscribe)
        requires
            old(self).wf(),
        ensures
            final(self).wf(),
            s.spec_id() == old(self).spec_next_requestid(),
            final(self).spec_next_requestid() == old(self).spec_next_requestid().wrapping_add(2),
            final(self).subscriptions() == old(self).subscriptions().insert(s.spec_id()),
            final(self).announced() == old(self).announced(),
            final(self).outgoing().len() == old(self).outgoing().len() + 1,
            final(self).outgoing().drop_last() == old(self).outgoing(),
            is_subscribe_for(final(self).outgoing().last(), s.spec_id(), track@),
    {
        let request_id = self.next_requestid;
        self.next_requestid = self.next_requestid.wrapping_add(2);
        let msg = SubscriberMessage::Subscribe {
            id: request_id,
            track_alias: request_id,
            track_namespace: track.namespace_copy(),
            track_name: track.name_copy(),
            subscriber_priority: 127,
            group_order: GroupOrder::Publisher,
            filter_type: FilterType::LatestGroup,
        };
        self.outgoing.push(msg);
        let (send, recv) = Subscribe::new(request_id, track);
        self.subscribes.insert(request_id, recv);
        assert(self.subscriptions() =~= old(self).subscriptions().insert(request_id));
        assert(self.outgoing().drop_last() =~= old(self).outgoing());
        send
    }

    /// The application is done with a subscription: an UNSUBSCRIBE for its request id is
    /// queued. The subscription stays until the publisher ends it.
    pub fn unsubscribe(&mut self, subscribe: Subscribe)
        requires
            old(self).wf(),
        ensures
            final(self).wf(),
            final(self).outgoing() == old(self).outgoing().push(SubscriberMessage::Unsubscribe { id: subscribe.spec_id() }),
            final(self).subscriptions() == old(self).subscriptions(),
            final(self).announced() == old(self).announced(),
            final(self).spec_next_requestid() == old(self).spec_next_requestid(),
    {
        self.outgoing.push(SubscriberMessage::Unsubscribe { id: subscribe.id() });
    }

    /// A namespace was announced: refused as a duplicate if it is announced already.
    pub fn recv_publish_namespace(&mut self, id: u64, track_namespace: TrackNamespace) -> (res: Result<(), SessionError>)
        requires
            old(self).wf(),
        ensures
            final(self).wf(),
            old(self).announced().contains(track_namespace@) ==> res == Err::<(), SessionError>(SessionError::Duplicate)
                && final(self).announced() == old(self).announced(),
            !old(self).announced().contains(track_namespace@) ==> res is Ok && final(self).announced()
                == old(self).announced().insert(track_namespace@),
            final(self).subscriptions() == old(self).subscriptions(),
            final(self).outgoing() == old(self).outgoing(),
            final(self).spec_next_requestid() == old(self).spec_next_requestid(),
    {
        let ghost k = track_namespace@;
        match self.find(&track_namespace) {
            Some(i) => {
                assert(self.announced().contains(k));
                Err(SessionError::Duplicate)
            },
            None => {
                let ghost before = self.announced@;
                self.announced.push((track_namespace, id));
                assert forall|x: Seq<Seq<u8>>| #[trigger] self.announced().contains(x) <==> old(self).announced().insert(k).contains(x) by {
                    if old(self).announced().contains(x) {
                        let j = choose|j: int| 0 <= j < before.len() && (#[trigger] before[j]).0@ == x;
                        assert(self.announced@[j].0@ == x);
                    }
                    if x == k {
                        assert(self.announced@[before.len() as int].0@ == x);
                    }
                    if self.announced().contains(x) {
                        let j = choose|j: int| 0 <= j < self.announced@.len() && (#[trigger] self.announced@[j]).0@ == x;
                        if j < before.len() {
                            assert(before[j].0@ == x);
                        }
                    }
                }
                assert(self.announced() =~= old(self).announced().insert(k));
                assert forall|a: int, b: int| 0 <= a < b < self.announced@.len() implies (#[trigger] self.announced@[a]).0@
                    != (#[trigger] self.announced@[b]).0@ by {
                    if b == before.len() {
                        assert(before[a].0@ != k);
                    }
                }
                Ok(())
            },
        }
    }

    /// An announced namespace was withdrawn; one never announced is ignored.
    pub fn recv_publish_namespace_done(&mut self, track_namespace: &TrackNamespace) -> (res: Result<(), SessionError>)
        requires
            old(self).wf(),
        ensures
            res is Ok,
            final(self).wf(),
            final(self).announced() == old(self).announced().remove(track_namespace@),
            final(self).subscriptions() == old(self).subscriptions(),
            final(self).outgoing() == old(self).outgoing(),
            final(self).spec_next_requestid() == old(self).spec_next_requestid(),
    {
        self.drop_publish_namespace(track_namespace);
        Ok(())
    }

    /// A subscription was accepted; an unknown request id is ignored, and a second
    /// acceptance is refused as a duplicate.
    pub fn recv_subscribe_ok(&mut self, id: u64) -> (res: Result<(), SessionError>)
        requires
            old(self).wf(),
        ensures
            final(self).wf(),
            final(self).subscriptions() == old(self).subscriptions(),
            final(self).announced() == old(self).announced(),
            final(self).outgoing() == old(self).outgoing(),
            final(self).spec_next_requestid() == old(self).spec_next_requestid(),
            !old(self).subscriptions().contains(id) ==> res is Ok,
            res matches Err(e) ==> e == SessionError::Serve(ServeError::Duplicate),
            old(self).subscriptions().contains(id) && !old(self).subscription_accepted(id) ==> res is Ok
                && final(self).subscription_accepted(id),
            old(self).subscriptions().contains(id) && old(self).subscription_accepted(id) ==> res
                == Err::<(), SessionError>(SessionError::Serve(ServeError::Duplicate)),
            old(self).subscriptions().contains(id) ==> final(self).subscription_accepted(id)
                && final(self).subscription_mode(id) == old(self).subscription_mode(id),
    {
        match self.subscribes.remove(&id) {
            Some(mut subscribe) => {
                let r = subscribe.ok();
                self.subscribes.insert(id, subscribe);
                assert(self.subscriptions() =~= old(self).subscriptions());
                match r {
                    Ok(()) => Ok(()),
                    Err(e) => Err(SessionError::Serve(e)),
                }
            },
            None => Ok(()),
        }
    }

    /// Ends the subscription under `id` with `err`, if there is one.
    fn close_subscribe(&mut self, id: u64, err: ServeError) -> (res: Result<(), SessionError>)
        requires
            old(self).wf(),
        ensures
            final(self).wf(),
            final(self).subscriptions() == old(self).subscriptions().remove(id),
            final(self).announced() == old(self).announced(),
            final(self).outgoing() == old(self).outgoing(),
            final(self).spec_next_requestid() == old(self).spec_next_requestid(),
            res is Ok || res == Err::<(), SessionError>(SessionError::Serve(ServeError::Cancel)),
            old(self).subscriptions().contains(id) ==> final(self).ended() == old(self).ended().insert(id, err),
            !old(self).subscriptions().contains(id) ==> final(self).ended() == old(self).ended(),
    {
        let r = self.subscribes.remove(&id);
        assert(self.subscriptions() =~= old(self).subscriptions().remove(id));
        match r {
            Some(mut subscribe) => {
                let res = subscribe.end(err);
                self.ended = Ghost(self.ended@.insert(id, subscribe.ended_with()->Some_0));
                match res {
                    Ok(()) => Ok(()),
                    Err(e) => Err(SessionError::Serve(e)),
                }
            },
            None => Ok(()),
        }
    }

    /// A subscription was refused: it ends, its track closed with the error code (`Cancel`
    /// once the track's readers or the application side are gone).
    pub fn recv_subscribe_error(&mut self, id: u64, error_code: u64) -> (res: Result<(), SessionError>)
        requires
            old(self).wf(),
        ensures
            final(self).wf(),
            final(self).subscriptions() == old(self).subscriptions().remove(id),
            final(self).announced() == old(self).announced(),
            final(self).outgoing() == old(self).outgoing(),
            final(self).spec_next_requestid() == old(self).spec_next_requestid(),
            res is Ok || res == Err::<(), SessionError>(SessionError::Serve(ServeError::Cancel)),
            old(self).subscriptions().contains(id) ==> final(self).ended() == old(self).ended().insert(
                id,
                ServeError::Closed(error_code),
            ),
            !old(self).subscriptions().contains(id) ==> final(self).ended() == old(self).ended(),
    {
        self.close_subscribe(id, ServeError::Closed(error_code))
    }

    /// A subscription ended: its track is closed with the status code (`Cancel` once the
    /// track's readers or the application side are gone).
    pub fn recv_publish_done(&mut self, id: u64, status_code: u64) -> (res: Result<(), SessionError>)
        requires
            old(self).wf(),
        ensures
            final(self).wf(),
            final(self).subscriptions() == old(self).subscriptions().remove(id),
            final(self).announced() == old(self).announced(),
            final(self).outgoing() == old(self).outgoing(),
            final(self).spec_next_requestid() == old(self).spec_next_requestid(),
            res is Ok || res == Err::<(), SessionError>(SessionError::Serve(ServeError::Cancel)),
            old(self).subscriptions().contains(id) ==> final(self).ended() == old(self).ended().insert(
                id,
                ServeError::Closed(status_code),
            ),
            !old(self).subscriptions().contains(id) ==> final(self).ended() == old(self).ended(),
    {
        self.close_subscribe(id, ServeError::Closed(status_code))
    }

    /// A track status request was answered: nothing to do.
    pub fn recv_track_status_ok(&mut self) -> (res: Result<(), SessionError>)
        ensures
            res is Ok,
            *final(self) == *old(self),
    {
        Ok(())
    }

    /// A data stream opened with a subgroup header: it is for the subscription whose
    /// request id is the header's track alias, whose track then takes subgroups. An
    /// unknown subscription is `NotFound`; a failure to serve (`Cancel` once the track's
    /// readers are gone) ends the subscription with that error.
    pub fn recv_stream_header(&mut self, header: SubgroupHeader) -> (res: Result<SubgroupInfo, SessionError>)
        requires
            old(self).wf(),
        ensures
            final(self).wf(),
            final(self).announced() == old(self).announced(),
            final(self).outgoing() == old(self).outgoing(),
            final(self).spec_next_requestid() == old(self).spec_next_requestid(),
            !old(self).subscriptions().contains(header.track_alias) ==> res == Err::<SubgroupInfo, SessionError>(
                SessionError::Serve(ServeError::NotFound),
            ) && final(self).subscriptions() == old(self).subscriptions(),
            res is Ok ==> res == Ok::<SubgroupInfo, SessionError>(
                SubgroupInfo { group_id: header.group_id, subgroup_id: header.subgroup_id, priority: header.publisher_priority },
            ) && final(self).subscriptions() == old(self).subscriptions(),
            res matches Err(e) ==> e is Serve && final(self).subscriptions() == old(self).subscriptions().remove(
                header.track_alias,
            ),
            old(self).subscriptions().contains(header.track_alias) ==> {
                let m = old(self).subscription_mode(header.track_alias);
                &&& m == 0 ==> res == Err::<SubgroupInfo, SessionError>(SessionError::Serve(ServeError::Done))
                &&& m == 3 ==> res is Ok && final(self).subscription_mode(header.track_alias) == 3
                &&& m == 1 ==> res is Ok && final(self).subscription_mode(header.track_alias) == 3 || res
                    == Err::<SubgroupInfo, SessionError>(SessionError::Serve(ServeError::Cancel))
                &&& m == 2 || m == 4 ==> res == Err::<SubgroupInfo, SessionError>(SessionError::Serve(ServeError::Mode))
            },
    {
        let id = header.track_alias;
        match self.subscribes.remove(&id) {
            Some(mut subscribe) => {
                let r = subscribe.subgroup(header);
                match r {
                    Ok(info) => {
                        self.subscribes.insert(id, subscribe);
                        assert(self.subscriptions() =~= old(self).subscriptions());
                        Ok(info)
                    },
                    Err(e) => {
                        assert(self.subscriptions() =~= old(self).subscriptions().remove(id));
                        let _ = subscribe.error(e.clone());
                        Err(SessionError::Serve(e))
                    },
                }
            },
            None => {
                assert(old(self).subscriptions().remove(id) =~= old(self).subscriptions());
                Err(SessionError::Serve(ServeError::NotFound))
            },
        }
    }

    /// Serving a data stream of the subscription under `id` failed with `err`: a failure
    /// to serve ends the subscription with its error; any other failure leaves it.
    pub fn stream_failed(&mut self, id: u64, err: SessionError)
        requires
            old(self).wf(),
        ensures
            final(self).wf(),
            final(self).announced() == old(self).announced(),
            final(self).outgoing() == old(self).outgoing(),
            final(self).spec_next_requestid() == old(self).spec_next_requestid(),
            err is Serve ==> final(self).subscriptions() == old(self).subscriptions().remove(id),
            !(err is Serve) ==> final(self).subscriptions() == old(self).subscriptions(),
    {
        if let SessionError::Serve(e) = err {
            let _ = self.close_subscribe(id, e);
        }
    }

    /// A datagram arrived: it is decoded and handed to the subscription whose request id
    /// is its track alias; one for no subscription is dropped.
    pub fn recv_datagram(&mut self, datagram: &[u8]) -> (res: Result<(), SessionError>)
        requires
            old(self).wf(),
        ensures
            final(self).wf(),
            final(self).announced() == old(self).announced(),
            final(self).outgoing() == old(self).outgoing(),
            final(self).spec_next_requestid() == old(self).spec_next_requestid(),
            final(self).subscriptions() == old(self).subscriptions(),
            match spec_decode_datagram(datagram@) {
                Err(e) => res == Err::<(), SessionError>(SessionError::Decode(e)),
                Ok((d, n)) => (!old(self).subscriptions().contains(d.track_alias) ==> res is Ok) && (res matches Err(e)
                    ==> e is Serve) && (old(self).subscriptions().contains(d.track_alias) ==> {
                    let m = old(self).subscription_mode(d.track_alias);
                    &&& final(self).subscription_mode(d.track_alias) == 0
                    &&& m == 0 ==> res == Err::<(), SessionError>(SessionError::Serve(ServeError::Done))
                    &&& m == 2 || m == 3 ==> res == Err::<(), SessionError>(SessionError::Serve(ServeError::Mode))
                    &&& m == 4 ==> res is Ok
                    &&& m == 1 ==> res is Ok || res == Err::<(), SessionError>(SessionError::Serve(ServeError::Cancel))
                }),
            },
    {
        let mut buf = buf_from_slice(datagram);
        let datagram = match Datagram::decode(&mut buf) {
            Ok(d) => d,
            Err(e) => {
                return Err(SessionError::Decode(e));
            },
        };
        let id = datagram.track_alias;
        match self.subscribes.remove(&id) {
            Some(mut subscribe) => {
                let r = subscribe.datagram(datagram);
                self.subscribes.insert(id, subscribe);
                assert(self.subscriptions() =~= old(self).subscriptions());
                match r {
                    Ok(()) => Ok(()),
                    Err(e) => Err(SessionError::Serve(e)),
                }
            },
            None => Ok(()),
        }
    }

    /// Handles what a publisher sent. A failure to serve is reported and ignored; a
    /// namespace announced twice is refused as a duplicate.
    pub fn recv_message(&mut self, msg: SubscriberEvent) -> (res: Result<(), SessionError>)
        requires
            old(self).wf(),
        ensures
            final(self).wf(),
            subscriber_handled(*old(self), *final(self), msg, res),
    {
        let res = match msg {
            SubscriberEvent::PublishNamespace { id, track_namespace } => {
                let r = self.recv_publish_namespace(id, track_namespace);
                proof {
                    if old(self).announced().contains(track_namespace@) {
                        assert(old(self).announced().insert(track_namespace@) =~= old(self).announced());
                    }
                }
                r
            },
            SubscriberEvent::PublishNamespaceDone { track_namespace } => self.recv_publish_namespace_done(&track_namespace),
            SubscriberEvent::PublishDone { id, status_code } => self.recv_publish_done(id, status_code),
            SubscriberEvent::SubscribeOk { id } => self.recv_subscribe_ok(id),
            SubscriberEvent::SubscribeError { id, error_code } => self.recv_subscribe_error(id, error_code),
            SubscriberEvent::TrackStatusOk => self.recv_track_status_ok(),
        };
        match res {
            Err(SessionError::Serve(_)) => Ok(()),
            other => other,
        }
    }
}

} // verus!
