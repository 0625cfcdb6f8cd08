use moq_transport::coding::{Location, TrackNamespace};
use moq_transport::data::{Datagram, DatagramType, StreamHeaderType, SubgroupHeader};
use moq_transport::serve::{ServeError, Track};
use moq_transport::session::{SubgroupInfo, Subscribe, SubscribeState, SubscribedState};

fn header() -> SubgroupHeader {
    SubgroupHeader {
        header_type: StreamHeaderType::SubgroupIdEndOfGroup,
        track_alias: 1,
        group_id: 4,
        subgroup_id: Some(0),
        publisher_priority: 9,
    }
}

fn datagram() -> Datagram {
    Datagram {
        datagram_type: DatagramType::NoEndOfGroupNoExtensions,
        track_alias: 1,
        group_id: 1,
        object_id: 1,
        publisher_priority: 0,
        extension_headers: None,
        status: None,
        payload: Some(vec![1]),
    }
}

#[test]
fn subscribe_recv_modes() {
    let (writer, reader) = Track::new(TrackNamespace::from_utf8_path("a"), "b".to_string()).produce();
    let (send, mut recv) = Subscribe::new(6, writer);
    assert_eq!(send.id(), 6);
    assert_eq!(send.info.name, "b");
    assert_eq!(
        recv.subgroup(header()).unwrap(),
        SubgroupInfo { group_id: 4, subgroup_id: Some(0), priority: 9 }
    );
    assert_eq!(reader.current_mode().unwrap(), Some(moq_transport::serve::TrackMode::Subgroups));
    assert!(recv.subgroup(header()).is_ok());
    assert_eq!(recv.datagram(datagram()), Err(ServeError::Mode));
    // The writer was given up by the refused datagram.
    assert_eq!(recv.subgroup(header()), Err(ServeError::Done));
}

#[test]
fn subscribe_recv_datagram_then_done() {
    let (writer, _reader) = Track::new(TrackNamespace::new(), "b".to_string()).produce();
    let (_send, mut recv) = Subscribe::new(0, writer);
    assert_eq!(recv.datagram(datagram()), Ok(()));
    assert_eq!(recv.datagram(datagram()), Err(ServeError::Done));
}

#[test]
fn subscribe_ok_twice_and_error() {
    let (writer, reader) = Track::new(TrackNamespace::new(), "b".to_string()).produce();
    let (send, mut recv) = Subscribe::new(0, writer);
    assert_eq!(recv.ok(), Ok(()));
    assert_eq!(recv.ok(), Err(ServeError::Duplicate));
    assert_eq!(recv.error(ServeError::Closed(3)), Ok(()));
    assert_eq!(send.closed_state(), Err(ServeError::Closed(3)));
    assert_eq!(reader.closed_state(), Err(ServeError::Closed(3)));
}

#[test]
fn subscribe_state_transitions() {
    let mut s = SubscribeState::new();
    assert_eq!(s.accept(), Ok(()));
    assert_eq!(s.accept(), Err(ServeError::Duplicate));
    assert_eq!(s.close(ServeError::Cancel), Ok(()));
    assert_eq!(s.close(ServeError::Done), Err(ServeError::Cancel));
}

#[test]
fn subscribed_state_largest_location() {
    let mut s = SubscribedState::new();
    s.update_largest_location(5, 5).unwrap();
    assert_eq!(s.largest_location, None);
    s.largest_location = Some(Location::new(2, 3));
    s.update_largest_location(2, 1).unwrap();
    assert_eq!(s.largest_location, Some(Location::new(2, 3)));
    s.update_largest_location(2, 4).unwrap();
    assert_eq!(s.largest_location, Some(Location::new(2, 4)));
    s.update_largest_location(3, 0).unwrap();
    assert_eq!(s.largest_location, Some(Location::new(3, 0)));
    assert_eq!(s.final_report(true), (true, ServeError::Done));
    assert_eq!(s.recv_unsubscribe(), Ok(()));
    assert_eq!(s.recv_unsubscribe(), Err(ServeError::Cancel));
    assert_eq!(s.final_report(false), (false, ServeError::Cancel));
}

use bytes::BytesMut;
use moq_transport::coding::{KeyValuePairs, ReasonPhrase};
use moq_transport::data::{ObjectStatus, SubgroupObject, SubgroupObjectExt};
use moq_transport::message::AnnounceCancel;
use moq_transport::message::GroupOrder;
use moq_transport::session::{
    ControlMessage, FilterType, ObjectStart, PublisherEvent, Session, SessionError, SubgroupReceiver, Subscriber, SubscriberEvent,
    SubscriberMessage,
};

#[test]
fn subgroup_receiver_counts_objects() {
    let mut buf = BytesMut::new();
    SubgroupObject { object_id_delta: 2, payload_length: 3, status: None }.encode(&mut buf).unwrap();
    SubgroupObject { object_id_delta: 1, payload_length: 0, status: Some(ObjectStatus::EndOfGroup) }
        .encode(&mut buf)
        .unwrap();

    let mut rx = SubgroupReceiver::new(StreamHeaderType::SubgroupIdEndOfGroup);
    let first = rx.next_object(&mut buf).unwrap();
    assert_eq!(first, ObjectStart { object_id: 2, payload_length: 3, status: None });
    assert_eq!(rx.on_end(), Err(SessionError::WrongSize));
    rx.on_chunk(2);
    assert_eq!(rx.remaining(), 1);
    rx.on_chunk(1);
    assert_eq!(rx.object_count(), 1);
    let second = rx.next_object(&mut buf).unwrap();
    assert_eq!(second, ObjectStart { object_id: 3, payload_length: 0, status: Some(ObjectStatus::EndOfGroup) });
    assert_eq!(rx.object_count(), 2);
    assert_eq!(rx.on_end(), Ok(()));
}

#[test]
fn subgroup_receiver_with_extensions() {
    let mut buf = BytesMut::new();
    let mut kvps = KeyValuePairs::new();
    kvps.set_intvalue(4, 1);
    SubgroupObjectExt { object_id_delta: 5, extension_headers: kvps, payload_length: 1, status: None }
        .encode(&mut buf)
        .unwrap();
    let mut rx = SubgroupReceiver::new(StreamHeaderType::SubgroupIdExt);
    assert_eq!(rx.next_object(&mut buf).unwrap().object_id, 5);
    assert_eq!(rx.remaining(), 1);
}

#[test]
fn subscriber_tracks_announces_and_subscriptions() {
    let mut sub = Subscriber::new(0);
    let ns = TrackNamespace::from_utf8_path("live");
    assert_eq!(sub.recv_message(SubscriberEvent::PublishNamespace { id: 1, track_namespace: ns.clone() }), Ok(()));
    assert_eq!(
        sub.recv_message(SubscriberEvent::PublishNamespace { id: 3, track_namespace: ns.clone() }),
        Err(SessionError::Duplicate)
    );
    assert_eq!(sub.recv_message(SubscriberEvent::PublishNamespaceDone { track_namespace: ns.clone() }), Ok(()));
    assert_eq!(sub.recv_publish_namespace(5, ns.clone()), Ok(()));

    let (writer, reader) = Track::new(ns.clone(), "v".to_string()).produce();
    let handle = sub.subscribe(writer);
    assert_eq!(handle.id(), 0);
    let (writer2, _reader2) = Track::new(ns.clone(), "w".to_string()).produce();
    assert_eq!(sub.subscribe(writer2).id(), 2);

    assert_eq!(sub.recv_message(SubscriberEvent::SubscribeOk { id: 0 }), Ok(()));
    // A second acceptance is a serve error, reported and ignored.
    assert_eq!(sub.recv_message(SubscriberEvent::SubscribeOk { id: 0 }), Ok(()));
    assert_eq!(sub.recv_subscribe_ok(0), Err(SessionError::Serve(ServeError::Duplicate)));
    assert_eq!(sub.recv_message(SubscriberEvent::SubscribeError { id: 0, error_code: 4 }), Ok(()));
    assert_eq!(reader.closed_state(), Err(ServeError::Closed(4)));
    assert_eq!(handle.closed_state(), Err(ServeError::Closed(4)));
    assert_eq!(sub.recv_message(SubscriberEvent::PublishDone { id: 9, status_code: 0 }), Ok(()));
    assert_eq!(sub.recv_message(SubscriberEvent::TrackStatusOk), Ok(()));

    sub.send_message(SubscriberMessage::AnnounceCancel(AnnounceCancel {
        track_namespace: ns.clone(),
        error_code: 1,
        reason_phrase: ReasonPhrase(String::new()),
    }));
    // The cancelled namespace can be announced again.
    assert_eq!(sub.recv_publish_namespace(7, ns), Ok(()));
    let sent = sub.take_outgoing();
    assert_eq!(sent.len(), 3);
    match &sent[0] {
        SubscriberMessage::Subscribe {
            id,
            track_alias,
            track_namespace,
            track_name,
            subscriber_priority,
            group_order,
            filter_type,
        } => {
            assert_eq!((*id, *track_alias), (0, 0));
            assert_eq!(track_namespace, &TrackNamespace::from_utf8_path("live"));
            assert_eq!(track_name, "v");
            assert_eq!(*subscriber_priority, 127);
            assert_eq!(*group_order, GroupOrder::Publisher);
            assert_eq!(*filter_type, FilterType::LatestGroup);
        },
        _ => panic!("the first message is the first SUBSCRIBE"),
    }
    assert!(matches!(&sent[1], SubscriberMessage::Subscribe { id: 2, track_alias: 2, .. }));
    assert!(matches!(&sent[2], SubscriberMessage::AnnounceCancel(_)));
    assert!(sub.take_outgoing().is_empty());

    // Unsubscribing queues an UNSUBSCRIBE for the request id.
    sub.unsubscribe(handle);
    let sent = sub.take_outgoing();
    assert_eq!(sent.len(), 1);
    assert!(matches!(&sent[0], SubscriberMessage::Unsubscribe { id: 0 }));
}

#[test]
fn subscriber_routes_streams_and_datagrams() {
    let mut sub = Subscriber::new(0);
    let ns = TrackNamespace::from_utf8_path("live");
    let (writer, reader) = Track::new(ns.clone(), "v".to_string()).produce();
    let handle = sub.subscribe(writer);
    assert_eq!(handle.id(), 0);

    // A stream for a subscription that does not exist.
    let mut unknown = header();
    unknown.track_alias = 8;
    assert_eq!(sub.recv_stream_header(unknown), Err(SessionError::Serve(ServeError::NotFound)));

    // A subgroup stream for subscription 0 sets the track to subgroups.
    let mut h = header();
    h.track_alias = 0;
    assert_eq!(sub.recv_stream_header(h), Ok(SubgroupInfo { group_id: 4, subgroup_id: Some(0), priority: 9 }));
    assert_eq!(reader.current_mode(), Ok(Some(moq_transport::serve::TrackMode::Subgroups)));

    // A datagram for a subgroup track is a mode error; one for nobody is dropped.
    let mut bytes = BytesMut::new();
    let mut d = datagram();
    d.track_alias = 0;
    d.encode(&mut bytes).unwrap();
    assert_eq!(sub.recv_datagram(&bytes.to_vec()), Err(SessionError::Serve(ServeError::Mode)));
    let mut other = BytesMut::new();
    datagram().encode(&mut other).unwrap();
    assert_eq!(sub.recv_datagram(&other.to_vec()), Ok(()));
    assert!(matches!(sub.recv_datagram(&[0x3f]), Err(SessionError::Decode(_))));

    // A failure to serve a stream ends the subscription; another failure does not.
    sub.stream_failed(0, SessionError::WrongSize);
    assert!(sub.recv_stream_header(h).is_err());
    sub.stream_failed(0, SessionError::Serve(ServeError::Size));
    assert_eq!(sub.recv_stream_header(h), Err(SessionError::Serve(ServeError::NotFound)));
}

#[test]
fn session_routes_control_messages_by_role() {
    let mut session = Session::new(1);
    let ns = TrackNamespace::from_utf8_path("live");
    assert_eq!(
        session.recv_message(ControlMessage::Publisher(SubscriberEvent::PublishNamespace { id: 0, track_namespace: ns.clone() })).err(),
        None
    );
    assert_eq!(
        session.recv_message(ControlMessage::Publisher(SubscriberEvent::PublishNamespace { id: 2, track_namespace: ns })).err(),
        Some(SessionError::Duplicate)
    );
    assert!(session.recv_message(ControlMessage::Subscriber(PublisherEvent::AnnounceOk { id: 0 })).unwrap().is_none());

    session.publisher = None;
    assert_eq!(
        session.recv_message(ControlMessage::Subscriber(PublisherEvent::AnnounceOk { id: 0 })).err(),
        Some(SessionError::RoleViolation)
    );
    session.subscriber = None;
    assert_eq!(
        session.recv_message(ControlMessage::Publisher(SubscriberEvent::TrackStatusOk)).err(),
        Some(SessionError::RoleViolation)
    );
}

#[test]
fn subscriber_request_ids_keep_parity() {
    let ns = TrackNamespace::from_utf8_path("p");
    let mut server = Subscriber::new(1);
    let (w1, _r1) = Track::new(ns.clone(), "a".to_string()).produce();
    let (w2, _r2) = Track::new(ns.clone(), "b".to_string()).produce();
    assert_eq!(server.subscribe(w1).id(), 1);
    assert_eq!(server.subscribe(w2).id(), 3);

    let mut near_end = Subscriber::new(u64::MAX - 1);
    let (w3, _r3) = Track::new(ns.clone(), "c".to_string()).produce();
    let (w4, _r4) = Track::new(ns, "d".to_string()).produce();
    assert_eq!(near_end.subscribe(w3).id(), u64::MAX - 1);
    assert_eq!(near_end.subscribe(w4).id(), 0);
}

#[test]
fn subscriber_stream_for_an_unread_track_is_cancelled() {
    let mut sub = Subscriber::new(0);
    let (writer, reader) = Track::new(TrackNamespace::from_utf8_path("live"), "v".to_string()).produce();
    let _handle = sub.subscribe(writer);
    drop(reader);
    let mut h = header();
    h.track_alias = 0;
    assert_eq!(sub.recv_stream_header(h), Err(SessionError::Serve(ServeError::Cancel)));
    // The failure ended the subscription.
    assert_eq!(sub.recv_stream_header(h), Err(SessionError::Serve(ServeError::NotFound)));
}
