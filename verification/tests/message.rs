use bytes::BytesMut;

use moq_transport::coding::{DecodeError, EncodeError, KeyValuePairs, Location, Params, ReasonPhrase, TrackNamespace, Tuple};
use moq_transport::message::{
    Announce, AnnounceCancel, AnnounceOk, Fetch, FetchCancel, FetchError, FetchOk, FetchType,
    GroupOrder, MaxSubscribeId, SubscribeDone, SubscribeNamespace, SubscribeNamespaceError,
    Unannounce, UnsubscribeNamespace,
};

#[test]
fn announce_cancel_encode_decode() {
    let mut buf = BytesMut::new();

    let msg = AnnounceCancel {
        track_namespace: TrackNamespace::from_utf8_path("testpath/video"),
        error_code: 0x2,
        reason_phrase: ReasonPhrase("Timeout".to_string()),
    };
    msg.encode(&mut buf).unwrap();
    let decoded = AnnounceCancel::decode(&mut buf).unwrap();
    assert_eq!(decoded, msg);
}

#[test]
fn announce_ok_encode_decode() {
    let mut buf = BytesMut::new();

    let msg = AnnounceOk { id: 12345 };
    msg.encode(&mut buf).unwrap();
    let decoded = AnnounceOk::decode(&mut buf).unwrap();
    assert_eq!(decoded, msg);
}

fn standalone(params: KeyValuePairs) -> Fetch {
    Fetch {
        id: 12345,
        subscriber_priority: 127,
        group_order: GroupOrder::Publisher,
        fetch_type: FetchType::Standalone,
        track_namespace: Some(TrackNamespace::from_utf8_path("test/path/to/resource")),
        track_name: Some("audiotrack".to_string()),
        start_location: Some(Location::new(34, 53)),
        end_location: Some(Location::new(34, 53)),
        joining_id: None,
        joining_start: None,
        params,
    }
}

fn joining(t: FetchType, params: KeyValuePairs) -> Fetch {
    Fetch {
        id: 12345,
        subscriber_priority: 127,
        group_order: GroupOrder::Publisher,
        fetch_type: t,
        track_namespace: None,
        track_name: None,
        start_location: None,
        end_location: None,
        joining_id: Some(382),
        joining_start: Some(3463),
        params,
    }
}

#[test]
fn fetch_encode_decode() {
    let mut buf = BytesMut::new();

    let mut kvps = KeyValuePairs::new();
    kvps.set_bytesvalue(123, vec![0x00, 0x01, 0x02, 0x03]);

    for msg in [
        standalone(kvps.clone()),
        joining(FetchType::RelativeJoining, kvps.clone()),
        joining(FetchType::AbsoluteJoining, kvps.clone()),
    ] {
        msg.encode(&mut buf).unwrap();
        let decoded = Fetch::decode(&mut buf).unwrap();
        assert_eq!(decoded, msg);
    }
}

#[test]
fn encode_missing_fields() {
    let mut buf = BytesMut::new();

    let mut msg = standalone(Default::default());
    msg.track_namespace = None;
    assert!(matches!(msg.encode(&mut buf).unwrap_err(), EncodeError::MissingField));

    let mut msg = standalone(Default::default());
    msg.track_name = None;
    assert!(matches!(msg.encode(&mut buf).unwrap_err(), EncodeError::MissingField));

    let mut msg = standalone(Default::default());
    msg.start_location = None;
    assert!(matches!(msg.encode(&mut buf).unwrap_err(), EncodeError::MissingField));

    let mut msg = standalone(Default::default());
    msg.end_location = None;
    assert!(matches!(msg.encode(&mut buf).unwrap_err(), EncodeError::MissingField));

    let mut msg = standalone(Default::default());
    msg.fetch_type = FetchType::AbsoluteJoining;
    msg.end_location = None;
    assert!(matches!(msg.encode(&mut buf).unwrap_err(), EncodeError::MissingField));

    let mut msg = standalone(Default::default());
    msg.fetch_type = FetchType::RelativeJoining;
    msg.end_location = None;
    assert!(matches!(msg.encode(&mut buf).unwrap_err(), EncodeError::MissingField));
}

#[test]
fn fetch_exact_bytes_and_bad_types() {
    let mut buf = BytesMut::new();
    let msg = joining(FetchType::AbsoluteJoining, KeyValuePairs::new());
    msg.encode(&mut buf).unwrap();
    assert_eq!(
        buf.to_vec(),
        vec![0x70, 0x39, 0x7f, 0x00, 0x03, 0x41, 0x7e, 0x4d, 0x87, 0x00]
    );

    let data: Vec<u8> = vec![0x01, 0x7f, 0x03];
    let mut bad = BytesMut::from(&data[..]);
    assert_eq!(Fetch::decode(&mut bad).unwrap_err(), DecodeError::InvalidGroupOrder);

    let data: Vec<u8> = vec![0x01, 0x7f, 0x01, 0x04];
    let mut bad = BytesMut::from(&data[..]);
    assert_eq!(Fetch::decode(&mut bad).unwrap_err(), DecodeError::InvalidFetchType);
}

#[test]
fn subscribe_done_encode_decode() {
    let mut buf = BytesMut::new();

    let msg = SubscribeDone {
        id: 12345,
        status_code: 0x02,
        stream_count: 2,
        reason: ReasonPhrase("Track Ended".to_string()),
    };
    msg.encode(&mut buf).unwrap();
    let decoded = SubscribeDone::decode(&mut buf).unwrap();
    assert_eq!(decoded, msg);
}

#[test]
fn simple_messages_roundtrip() {
    let mut buf = BytesMut::new();

    let m = FetchCancel { id: 7 };
    m.encode(&mut buf).unwrap();
    assert_eq!(buf.to_vec(), vec![0x07]);
    assert_eq!(FetchCancel::decode(&mut buf).unwrap(), m);

    let m = MaxSubscribeId { id: 64 };
    m.encode(&mut buf).unwrap();
    assert_eq!(buf.to_vec(), vec![0x40, 0x40]);
    assert_eq!(MaxSubscribeId::decode(&mut buf).unwrap(), m);

    let m = FetchError { id: 1, code: 2, reason: "no".to_string() };
    m.encode(&mut buf).unwrap();
    assert_eq!(buf.to_vec(), vec![0x01, 0x02, 0x02, 0x6e, 0x6f]);
    assert_eq!(FetchError::decode(&mut buf).unwrap(), m);

    let m = SubscribeNamespaceError { namespace_prefix: "a".to_string(), code: 3, reason: String::new() };
    m.encode(&mut buf).unwrap();
    assert_eq!(buf.to_vec(), vec![0x01, 0x61, 0x03, 0x00]);
    assert_eq!(SubscribeNamespaceError::decode(&mut buf).unwrap(), m);

    let m = Unannounce { namespace: Tuple::from_utf8_path("a") };
    m.encode(&mut buf).unwrap();
    assert_eq!(buf.to_vec(), vec![0x01, 0x01, 0x61]);
    assert_eq!(Unannounce::decode(&mut buf).unwrap(), m);

    let m = UnsubscribeNamespace { namespace_prefix: TrackNamespace::from_utf8_path("a") };
    m.encode(&mut buf).unwrap();
    assert_eq!(UnsubscribeNamespace::decode(&mut buf).unwrap(), m);

    let mut params = Params::new();
    params.0.insert(2, vec![0x09]);
    let m = Announce { namespace: Tuple::from_utf8_path("a"), params: params.clone() };
    m.encode(&mut buf).unwrap();
    assert_eq!(buf.to_vec(), vec![0x01, 0x01, 0x61, 0x01, 0x02, 0x01, 0x09]);
    assert_eq!(Announce::decode(&mut buf).unwrap(), m);

    let m = SubscribeNamespace { namespace_prefix: Tuple::from_utf8_path("a"), params: params.clone() };
    m.encode(&mut buf).unwrap();
    assert_eq!(SubscribeNamespace::decode(&mut buf).unwrap(), m);

    let m = FetchOk {
        id: 1,
        group_order: 2,
        end_of_track: 1,
        largest_group_id: 5,
        largest_object_id: 6,
        params,
    };
    m.encode(&mut buf).unwrap();
    assert_eq!(buf.to_vec(), vec![0x01, 0x02, 0x01, 0x05, 0x06, 0x01, 0x02, 0x01, 0x09]);
    assert_eq!(FetchOk::decode(&mut buf).unwrap(), m);
}

#[test]
fn group_order_bytes() {
    let mut buf = BytesMut::new();
    GroupOrder::Descending.encode(&mut buf).unwrap();
    assert_eq!(buf.to_vec(), vec![0x02]);
    assert_eq!(GroupOrder::decode(&mut buf).unwrap(), GroupOrder::Descending);
}
