use vstd::prelude::*;

use crate::serve::TrackReader;

use super::error::SessionError;
use super::publisher::{publisher_handled, Publisher, PublisherEvent};
use super::subscribed::Subscribed;
use super::subscriber::{subscriber_handled, Subscriber, SubscriberEvent};

verus! {

/// A control message received, by the side of the session that handles it.
pub enum ControlMessage {
    /// Sent by a publisher: handled by the subscriber side.
    Publisher(SubscriberEvent),
    /// Sent by a subscriber: handled by the publisher side.
    Subscriber(PublisherEvent),
}

/// Both sides of a session, each present if this endpoint plays that role.
pub struct Session {
    pub publisher: Option<Publisher>,
    pub subscriber: Option<Subscriber>,
}

impl Session {
    /// Both sides are well formed, where present.
    pub open spec fn wf(&self) -> bool {
        &&& self.publisher matches Some(p) ==> p.wf()
        &&& self.subscriber matches Some(s) ==> s.wf()
    }

    /// A session playing both roles; its own request ids start at `first_requestid` (0
    /// for the side that connected, 1 for the side that accepted).
    pub fn new(first_requestid: u64) -> (s: Self)
        ensures
            s.wf(),
            s.publisher matches Some(p) && p.announced() == Set::<Seq<Seq<u8>>>::empty()
                && p.subscriptions() == Set::<u64>::empty(),
            s.subscriber matches Some(sub) && sub.spec_next_requestid() == first_requestid
                && sub.subscriptions() == Set::<u64>::empty(),
    {
        Session { publisher: Some(Publisher::new()), subscriber: Some(Subscriber::new(first_requestid)) }
    }

    /// Hands a control message to the side that handles it; a message for a side this
    /// session lacks is a role violation. A subscription to serve is returned.
    pub fn recv_message(&mut self, msg: ControlMessage) -> (res: Result<Option<(Subscribed, TrackReader)>, SessionError>)
        requires
            old(self).wf(),
        ensures
            final(self).wf(),
            match msg {
                ControlMessage::Publisher(event) => match old(self).subscriber {
                    None => res == Err::<Option<(Subscribed, TrackReader)>, SessionError>(SessionError::RoleViolation)
                        && *final(self) == *old(self),
                    Some(s) => {
                        &&& final(self).publisher == old(self).publisher
                        &&& res is Ok ==> res->Ok_0 is None
                        &&& final(self).subscriber matches Some(t) && subscriber_handled(
                        s,
                        t,
                        event,
                        match res {
                            Ok(_) => Ok::<(), SessionError>(()),
                            Err(e) => Err(e),
                        },
                    )
                    },
                },
                ControlMessage::Subscriber(event) => match old(self).publisher {
                    None => res == Err::<Option<(Subscribed, TrackReader)>, SessionError>(SessionError::RoleViolation)
                        && *final(self) == *old(self),
                    Some(p) => {
                        &&& final(self).subscriber == old(self).subscriber
                        &&& final(self).publisher matches Some(q) && res matches Ok(serve) && publisher_handled(
                            p,
                            q,
                            event,
                            serve,
                        )
                    },
                },
            },
    {
        match msg {
            ControlMessage::Publisher(event) => match &mut self.subscriber {
                Some(subscriber) => {
                    subscriber.recv_message(event)?;
                    Ok(None)
                },
                None => Err(SessionError::RoleViolation),
            },
            ControlMessage::Subscriber(event) => match &mut self.publisher {
                Some(publisher) => Ok(publisher.recv_message(event)),
                None => Err(SessionError::RoleViolation),
            },
        }
    }
}

} // verus!
