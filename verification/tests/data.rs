use bytes::BytesMut;

use moq_transport::coding::{EncodeError, KeyValuePairs};
use moq_transport::data::{
    Datagram, DatagramType, ObjectStatus, StreamHeaderType, SubgroupHeader, SubgroupObject,
    SubgroupObjectExt,
};

#[test]
fn encode_decode_datagram_type() {
    let mut buf = BytesMut::new();

    let all = [
        (DatagramType::NoEndOfGroupNoExtensions, 0x00u8),
        (DatagramType::NoEndOfGroupWithExtensions, 0x01),
        (DatagramType::EndOfGroupNoExtensions, 0x02),
        (DatagramType::EndOfGroupWithExtensions, 0x03),
        (DatagramType::StatusNoExtensions, 0x04),
        (DatagramType::StatusWithExtensions, 0x05),
    ];
    for (dt, byte) in all {
        dt.encode(&mut buf).unwrap();
        assert_eq!(buf.to_vec(), vec![byte]);
        let decoded = DatagramType::decode(&mut buf).unwrap();
        assert_eq!(decoded, dt);
    }
}

fn datagram(t: DatagramType, ext: Option<KeyValuePairs>, status: Option<ObjectStatus>, payload: Option<Vec<u8>>) -> Datagram {
    Datagram {
        datagram_type: t,
        track_alias: 12,
        group_id: 10,
        object_id: 1234,
        publisher_priority: 127,
        extension_headers: ext,
        status,
        payload,
    }
}

#[test]
fn encode_decode_datagram() {
    let mut buf = BytesMut::new();

    let mut kvps = KeyValuePairs::new();
    kvps.set_bytesvalue(123, vec![0x00, 0x01, 0x02, 0x03]);
    let payload = Some(b"payload".to_vec());

    let cases = [
        (DatagramType::NoEndOfGroupNoExtensions, None, None, payload.clone(), 13usize),
        (DatagramType::NoEndOfGroupWithExtensions, Some(kvps.clone()), None, payload.clone(), 21),
        (DatagramType::EndOfGroupNoExtensions, None, None, payload.clone(), 13),
        (DatagramType::EndOfGroupWithExtensions, Some(kvps.clone()), None, payload.clone(), 21),
        (DatagramType::StatusNoExtensions, None, Some(ObjectStatus::EndOfTrack), None, 7),
        (DatagramType::StatusWithExtensions, Some(kvps.clone()), Some(ObjectStatus::EndOfTrack), None, 15),
    ];
    for (t, ext, status, payload, len) in cases {
        let msg = datagram(t, ext, status, payload);
        msg.encode(&mut buf).unwrap();
        assert_eq!(len, buf.len());
        let decoded = Datagram::decode(&mut buf).unwrap();
        assert_eq!(decoded, msg);
    }
}

#[test]
fn encode_datagram_missing_fields() {
    let mut buf = BytesMut::new();
    let payload = Some(b"payload".to_vec());

    let cases = [
        datagram(DatagramType::NoEndOfGroupWithExtensions, None, None, payload.clone()),
        datagram(DatagramType::EndOfGroupWithExtensions, None, None, payload.clone()),
        datagram(DatagramType::StatusWithExtensions, None, Some(ObjectStatus::EndOfTrack), None),
        datagram(DatagramType::NoEndOfGroupNoExtensions, None, None, None),
        datagram(DatagramType::StatusNoExtensions, None, None, None),
    ];
    for msg in cases {
        let encoded = msg.encode(&mut buf);
        assert!(matches!(encoded.unwrap_err(), EncodeError::MissingField));
    }
}

#[test]
fn datagram_exact_bytes() {
    let mut buf = BytesMut::new();
    let msg = datagram(DatagramType::StatusNoExtensions, None, Some(ObjectStatus::EndOfGroup), None);
    msg.encode(&mut buf).unwrap();
    assert_eq!(buf.to_vec(), vec![0x04, 0x0c, 0x0a, 0x44, 0xd2, 0x7f, 0x03]);
}

#[test]
fn datagram_decode_errors() {
    let data: Vec<u8> = vec![0x06, 0x00];
    let mut buf = BytesMut::from(&data[..]);
    assert_eq!(
        Datagram::decode(&mut buf).unwrap_err(),
        moq_transport::coding::DecodeError::InvalidDatagramType
    );
    let data: Vec<u8> = vec![0x04, 0x0c, 0x0a, 0x01, 0x7f, 0x02];
    let mut buf = BytesMut::from(&data[..]);
    assert_eq!(
        Datagram::decode(&mut buf).unwrap_err(),
        moq_transport::coding::DecodeError::InvalidObjectStatus
    );
}

#[test]
fn subgroup_header_encode_decode() {
    let mut buf = BytesMut::new();
    let h = SubgroupHeader {
        header_type: StreamHeaderType::SubgroupIdEndOfGroup,
        track_alias: 3,
        group_id: 7,
        subgroup_id: Some(2),
        publisher_priority: 127,
    };
    h.encode(&mut buf).unwrap();
    assert_eq!(buf.to_vec(), vec![0x1c, 0x03, 0x07, 0x02, 0x7f]);
    let t = StreamHeaderType::decode(&mut buf).unwrap();
    assert_eq!(t, StreamHeaderType::SubgroupIdEndOfGroup);
    assert!(t.has_subgroup_id() && !t.has_extension_headers() && t.is_subgroup());
    assert_eq!(SubgroupHeader::decode(t, &mut buf).unwrap(), h);

    let missing = SubgroupHeader { subgroup_id: None, ..h };
    assert_eq!(missing.encode(&mut buf).unwrap_err(), EncodeError::MissingField);

    let without = SubgroupHeader {
        header_type: StreamHeaderType::SubgroupZeroIdExt,
        subgroup_id: None,
        ..h
    };
    let mut buf = BytesMut::new();
    without.encode(&mut buf).unwrap();
    assert_eq!(buf.to_vec(), vec![0x11, 0x03, 0x07, 0x7f]);
    let t = StreamHeaderType::decode(&mut buf).unwrap();
    assert!(t.has_extension_headers() && !t.has_subgroup_id());
    assert_eq!(SubgroupHeader::decode(t, &mut buf).unwrap(), without);
    assert!(!StreamHeaderType::Fetch.is_subgroup());
}

#[test]
fn subgroup_object_encode_decode() {
    let mut buf = BytesMut::new();
    let o = SubgroupObject { object_id_delta: 1, payload_length: 0, status: Some(ObjectStatus::EndOfGroup) };
    o.encode(&mut buf).unwrap();
    assert_eq!(buf.to_vec(), vec![0x01, 0x00, 0x03]);
    assert_eq!(SubgroupObject::decode(&mut buf).unwrap(), o);

    let o = SubgroupObject { object_id_delta: 0, payload_length: 5, status: None };
    o.encode(&mut buf).unwrap();
    assert_eq!(buf.to_vec(), vec![0x00, 0x05]);
    assert_eq!(SubgroupObject::decode(&mut buf).unwrap(), o);

    let o = SubgroupObject { object_id_delta: 0, payload_length: 0, status: None };
    assert_eq!(o.encode(&mut buf).unwrap_err(), EncodeError::MissingField);
}

#[test]
fn subgroup_object_ext_encode_decode() {
    let mut buf = BytesMut::new();
    let mut kvps = KeyValuePairs::new();
    kvps.set_intvalue(2, 9);
    let o = SubgroupObjectExt {
        object_id_delta: 4,
        extension_headers: kvps,
        payload_length: 0,
        status: Some(ObjectStatus::DoesNotExist),
    };
    o.encode(&mut buf).unwrap();
    assert_eq!(buf.to_vec(), vec![0x04, 0x02, 0x02, 0x09, 0x00, 0x01]);
    assert_eq!(SubgroupObjectExt::decode(&mut buf).unwrap(), o);
}
