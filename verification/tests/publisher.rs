use moq_transport::serve::TrackMode;
use moq_transport::session::{serving_path, ServePath};
use moq_transport::coding::{Location, TrackNamespace};
use moq_transport::data::{ObjectStatus, StreamHeaderType, SubgroupHeader, SubgroupObject};
use moq_transport::message::GroupOrder;
use moq_transport::serve::{ServeError, Tracks};
use moq_transport::session::{
    subgroup_object, Publisher, PublisherEvent, PublisherMessage, SessionError, SubscribeOk, Subscribed,
    SubscriptionEnd, TrackRequest, TrackStatusOk,
};

fn request(id: u64, namespace: &str, name: &str) -> TrackRequest {
    TrackRequest { id, track_namespace: TrackNamespace::from_utf8_path(namespace), track_name: name.to_string() }
}

#[test]
fn publisher_refuses_duplicate_announce() {
    let mut publisher = Publisher::new();
    let (_w1, _r1, reader1) = Tracks::new(TrackNamespace::from_utf8_path("live")).produce();
    let (_w2, _r2, reader2) = Tracks::new(TrackNamespace::from_utf8_path("live")).produce();
    assert!(publisher.announce(reader1).is_ok());
    assert_eq!(publisher.announce(reader2), Err(SessionError::Serve(ServeError::Duplicate)));
}

#[test]
fn publisher_serves_subscription_to_announced_track() {
    let mut publisher = Publisher::new();
    let (mut writer, _request, reader) = Tracks::new(TrackNamespace::from_utf8_path("live")).produce();
    let _cam = writer.create("cam").unwrap();
    publisher.announce(reader).unwrap();

    let (subscribed, track) = publisher.recv_subscribe(request(4, "live", "cam")).unwrap().unwrap();
    assert_eq!(subscribed.request().id, 4);
    assert_eq!(track.info.name, "cam");
    assert!(publisher.take_outgoing().is_empty());

    // The same request id again is a duplicate.
    assert_eq!(publisher.recv_subscribe(request(4, "live", "cam")).err(), Some(SessionError::Duplicate));
}

#[test]
fn publisher_refuses_missing_track() {
    let mut publisher = Publisher::new();
    let (_writer, requests, reader) = Tracks::new(TrackNamespace::from_utf8_path("live")).produce();
    requests.close();
    publisher.announce(reader).unwrap();

    assert!(publisher.recv_subscribe(request(2, "live", "nope")).unwrap().is_none());
    let sent = publisher.take_outgoing();
    assert_eq!(
        sent,
        vec![PublisherMessage::SubscribeError(SubscriptionEnd { id: 2, code: 4, reason: ServeError::NotFound })]
    );
    // The refused request id is free again.
    assert!(publisher.recv_subscribe(request(2, "live", "nope")).unwrap().is_none());
}

#[test]
fn publisher_queues_unknown_namespaces() {
    let mut publisher = Publisher::new();
    assert!(publisher.recv_message(PublisherEvent::Subscribe(request(1, "other", "x"))).is_none());
    assert!(publisher.recv_message(PublisherEvent::Subscribe(request(3, "other", "y"))).is_none());
    assert_eq!(publisher.subscribed().unwrap().request().track_name, "x");
    assert_eq!(publisher.subscribed().unwrap().request().id, 3);
    assert!(publisher.subscribed().is_none());
}

#[test]
fn publisher_answers_track_status() {
    let mut publisher = Publisher::new();
    let (_writer, _requests, reader) = Tracks::new(TrackNamespace::from_utf8_path("live")).produce();
    publisher.announce(reader).unwrap();

    assert_eq!(publisher.recv_track_status(request(9, "elsewhere", "cam")), Err(SessionError::Internal));
    assert!(publisher.recv_track_status(request(7, "live", "cam")).is_ok());
    assert_eq!(
        publisher.take_outgoing(),
        vec![PublisherMessage::TrackStatusOk(TrackStatusOk {
            id: 7,
            track_alias: 0,
            expires: 3600,
            group_order: GroupOrder::Ascending,
            content_exists: false,
            largest_location: None,
        })]
    );
}

#[test]
fn publisher_cancel_and_unannounce_forget_namespace() {
    let mut publisher = Publisher::new();
    let (_w, _r, reader) = Tracks::new(TrackNamespace::from_utf8_path("live")).produce();
    publisher.announce(reader.clone()).unwrap();
    assert!(publisher
        .recv_message(PublisherEvent::AnnounceCancel { track_namespace: TrackNamespace::from_utf8_path("live") })
        .is_none());
    // No longer announced: a subscription waits for the application.
    assert!(publisher.recv_subscribe(request(5, "live", "cam")).unwrap().is_none());
    assert_eq!(publisher.subscribed().unwrap().request().id, 5);

    publisher.announce(reader).unwrap();
    publisher.send_message(PublisherMessage::Unannounce { track_namespace: TrackNamespace::from_utf8_path("live") });
    assert!(publisher.recv_subscribe(request(6, "live", "cam")).unwrap().is_none());
    assert_eq!(publisher.subscribed().unwrap().request().id, 6);
}

#[test]
fn publisher_ignores_update_and_announce_replies() {
    let mut publisher = Publisher::new();
    assert_eq!(publisher.recv_subscribe_update(1), Err(SessionError::Internal));
    assert!(publisher.recv_message(PublisherEvent::AnnounceOk { id: 1 }).is_none());
    assert!(publisher.recv_message(PublisherEvent::AnnounceError { id: 1, error_code: 2 }).is_none());
    assert!(publisher.recv_message(PublisherEvent::SubscribeUpdate { id: 1 }).is_none());
    assert!(publisher.take_outgoing().is_empty());
}

#[test]
fn subscribed_unsubscribed_before_accept_is_refused_as_cancelled() {
    let mut publisher = Publisher::new();
    assert!(publisher.recv_subscribe(request(8, "x", "y")).unwrap().is_none());
    let subscribed = publisher.subscribed().unwrap();
    assert!(publisher.recv_unsubscribe(8).is_ok());
    assert!(publisher.recv_unsubscribe(99).is_ok());
    // A second unsubscribe reports the first closing error.
    assert_eq!(publisher.recv_unsubscribe(8), Err(SessionError::Serve(ServeError::Cancel)));
    publisher.finish(subscribed);
    assert_eq!(
        publisher.take_outgoing(),
        vec![PublisherMessage::SubscribeError(SubscriptionEnd { id: 8, code: 1, reason: ServeError::Cancel })]
    );
    // Ending the subscription frees its request id.
    assert!(publisher.recv_subscribe(request(8, "x", "y")).is_ok());
}

#[test]
fn subscribed_serving_lifecycle() {
    let mut publisher = Publisher::new();
    assert!(publisher.recv_subscribe(request(12, "a", "b")).unwrap().is_none());
    let mut subscribed = publisher.subscribed().unwrap();
    assert!(!subscribed.accepted());
    assert!(publisher.start_serving(&mut subscribed, Some(Location::new(3, 4))).is_ok());
    assert!(subscribed.accepted());
    assert_eq!(
        publisher.take_outgoing(),
        vec![PublisherMessage::SubscribeOk(SubscribeOk {
            id: 12,
            track_alias: 12,
            expires: 3600,
            group_order: GroupOrder::Descending,
            content_exists: true,
            largest_location: Some(Location::new(3, 4)),
        })]
    );
    assert!(publisher.record_sent(&subscribed, 5, 0).is_ok());
    assert_eq!(
        subscribed.subgroup_header(5, 1, 7),
        SubgroupHeader {
            header_type: StreamHeaderType::SubgroupIdEndOfGroup,
            track_alias: 12,
            group_id: 5,
            subgroup_id: Some(1),
            publisher_priority: 7,
        }
    );
    assert!(publisher.close_subscribed(&subscribed, ServeError::Closed(42)).is_ok());
    assert_eq!(publisher.close_subscribed(&subscribed, ServeError::Done), Err(ServeError::Closed(42)));
    publisher.finish(subscribed);
    assert_eq!(
        publisher.take_outgoing(),
        vec![PublisherMessage::PublishDone(SubscriptionEnd { id: 12, code: 42, reason: ServeError::Closed(42) })]
    );
}

#[test]
fn subscribed_finishes_done_without_error() {
    let mut publisher = Publisher::new();
    assert!(publisher.recv_subscribe(request(2, "a", "b")).unwrap().is_none());
    let mut subscribed = publisher.subscribed().unwrap();
    assert!(publisher.start_serving(&mut subscribed, None).is_ok());
    let _ = publisher.take_outgoing();
    publisher.finish(subscribed);
    assert_eq!(
        publisher.take_outgoing(),
        vec![PublisherMessage::PublishDone(SubscriptionEnd { id: 2, code: 0, reason: ServeError::Done })]
    );
}

#[test]
fn subscription_no_longer_held_is_done_or_cancelled() {
    let mut publisher = Publisher::new();
    assert!(publisher.recv_subscribe(request(4, "a", "b")).unwrap().is_none());
    let mut first = publisher.subscribed().unwrap();
    publisher.finish(Subscribed::new(request(4, "a", "b")).0);
    let _ = publisher.take_outgoing();
    assert_eq!(publisher.start_serving(&mut first, None), Err(ServeError::Cancel));
    assert!(!first.accepted());
    assert_eq!(publisher.record_sent(&first, 1, 1), Err(ServeError::Done));
    assert_eq!(publisher.close_subscribed(&first, ServeError::Closed(3)), Err(ServeError::Done));
    assert!(publisher.take_outgoing().is_empty());
}

#[test]
fn subgroup_object_status_only_when_empty() {
    assert_eq!(
        subgroup_object(0, ObjectStatus::EndOfGroup),
        SubgroupObject { object_id_delta: 0, payload_length: 0, status: Some(ObjectStatus::EndOfGroup) }
    );
    assert_eq!(
        subgroup_object(5, ObjectStatus::EndOfGroup),
        SubgroupObject { object_id_delta: 0, payload_length: 5, status: None }
    );
}

#[test]
fn subscription_end_wire_forms() {
    let end = SubscriptionEnd { id: 12, code: 42, reason: ServeError::Closed(42) };
    let done = end.publish_done();
    assert_eq!(done.id, 12);
    assert_eq!(done.status_code, 42);
    assert_eq!(done.stream_count, 0);
    assert_eq!(done.reason.0, "closed, code=42");
    assert_eq!(end.reason_phrase().0, "closed, code=42");
    let refused = SubscriptionEnd { id: 2, code: 4, reason: ServeError::NotFound };
    assert_eq!(refused.reason_phrase().0, "not found");
}

#[test]
fn serving_follows_the_track_mode() {
    assert_eq!(serving_path(Ok(TrackMode::Subgroups)), Ok(ServePath::Subgroups));
    assert_eq!(serving_path(Ok(TrackMode::Datagrams)), Ok(ServePath::Datagrams));
    assert_eq!(serving_path(Err(ServeError::Done)), Err(ServeError::Done));
}
