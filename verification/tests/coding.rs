use bytes::BytesMut;

use moq_transport::coding::{
    decode_u16, decode_u8, encode_u16, encode_u8, DecodeError, EncodeError, KeyValuePair,
    KeyValuePairs, Location, Params, ReasonPhrase, TrackNamespace, Tuple, TupleField, Value,
};
use moq_transport::coding::{decode_string, decode_u64, encode_string, encode_u64};

#[test]
fn encode_decode_u8() {
    let mut buf = BytesMut::new();

    let i: u8 = 8;
    encode_u8(i, &mut buf).unwrap();
    assert_eq!(buf.to_vec(), vec![0x08]);
    let decoded = decode_u8(&mut buf).unwrap();
    assert_eq!(decoded, i);
}

#[test]
fn encode_decode_u16() {
    let mut buf = BytesMut::new();

    let i: u16 = 65534;
    encode_u16(i, &mut buf).unwrap();
    assert_eq!(buf.to_vec(), vec![0xff, 0xfe]);
    let decoded = decode_u16(&mut buf).unwrap();
    assert_eq!(decoded, i);
}

#[test]
fn encode_decode_keyvaluepair() {
    let mut buf = BytesMut::new();

    // Type=1, VarInt value=0 - illegal with odd key/type
    let kvp = KeyValuePair::new(1, Value::IntValue(0));
    let encoded = kvp.encode(&mut buf);
    assert!(matches!(encoded.unwrap_err(), EncodeError::InvalidValue));

    // Type=0, VarInt value=0
    let kvp = KeyValuePair::new(0, Value::IntValue(0));
    kvp.encode(&mut buf).unwrap();
    assert_eq!(buf.to_vec(), vec![0x00, 0x00]);
    let decoded = KeyValuePair::decode(&mut buf).unwrap();
    assert_eq!(decoded, kvp);

    // Type=100, VarInt value=100
    let kvp = KeyValuePair::new(100, Value::IntValue(100));
    kvp.encode(&mut buf).unwrap();
    assert_eq!(buf.to_vec(), vec![0x40, 0x64, 0x40, 0x64]);
    let decoded = KeyValuePair::decode(&mut buf).unwrap();
    assert_eq!(decoded, kvp);

    // Type=0, Bytes value=[1,2,3,4,5] - illegal with even key/type
    let kvp = KeyValuePair::new(0, Value::BytesValue(vec![0x01, 0x02, 0x03, 0x04, 0x05]));
    let decoded = kvp.encode(&mut buf);
    assert!(matches!(decoded.unwrap_err(), EncodeError::InvalidValue));

    // Type=1, Bytes value=[1,2,3,4,5]
    let kvp = KeyValuePair::new(1, Value::BytesValue(vec![0x01, 0x02, 0x03, 0x04, 0x05]));
    kvp.encode(&mut buf).unwrap();
    assert_eq!(buf.to_vec(), vec![0x01, 0x05, 0x01, 0x02, 0x03, 0x04, 0x05]);
    let decoded = KeyValuePair::decode(&mut buf).unwrap();
    assert_eq!(decoded, kvp);
}

#[test]
fn decode_badtype() {
    // A VarInt value of 5, but with an odd key/type
    let data: Vec<u8> = vec![0x01, 0x05];
    let mut buf = BytesMut::from(&data[..]);
    let decoded = KeyValuePair::decode(&mut buf);
    assert!(matches!(decoded.unwrap_err(), DecodeError::More(_)));
}

#[test]
fn encode_decode_keyvaluepairs() {
    let mut buf = BytesMut::new();

    let mut kvps = KeyValuePairs::new();
    kvps.set_bytesvalue(1, vec![0x01, 0x02, 0x03, 0x04, 0x05]);
    kvps.encode(&mut buf).unwrap();
    assert_eq!(
        buf.to_vec(),
        vec![0x07, 0x01, 0x05, 0x01, 0x02, 0x03, 0x04, 0x05]
    );
    let decoded = KeyValuePairs::decode(&mut buf).unwrap();
    assert_eq!(decoded, kvps);

    let mut kvps = KeyValuePairs::new();
    kvps.set_intvalue(0, 0);
    kvps.set_intvalue(100, 100);
    kvps.set_bytesvalue(1, vec![0x01, 0x02, 0x03, 0x04, 0x05]);
    kvps.encode(&mut buf).unwrap();
    let buf_vec = buf.to_vec();
    assert_eq!(14, buf_vec.len());
    assert_eq!(13, buf_vec[0]);
    let decoded = KeyValuePairs::decode(&mut buf).unwrap();
    assert_eq!(decoded, kvps);
}

#[test]
fn keyvaluepairs_duplicate_key_refused() {
    // Total length 4: key 2 = 1, then key 2 = 3 again.
    let data: Vec<u8> = vec![0x04, 0x02, 0x01, 0x02, 0x03];
    let mut buf = BytesMut::from(&data[..]);
    let decoded = KeyValuePairs::decode(&mut buf);
    assert_eq!(decoded.unwrap_err(), DecodeError::DuplicateParameter(2));
}

#[test]
fn keyvaluepair_too_long_refused() {
    // Key 1 announces 0x10000 bytes, beyond u16::MAX.
    let data: Vec<u8> = vec![0x01, 0x80, 0x01, 0x00, 0x00];
    let mut buf = BytesMut::from(&data[..]);
    let decoded = KeyValuePair::decode(&mut buf);
    assert_eq!(decoded.unwrap_err(), DecodeError::KeyValuePairLengthExceeded());
}

#[test]
fn varint_encodings() {
    let mut buf = BytesMut::new();
    encode_u64(100, &mut buf).unwrap();
    assert_eq!(buf.to_vec(), vec![0x40, 0x64]);
    assert_eq!(decode_u64(&mut buf).unwrap(), 100);

    encode_u64(0x3fff_ffff, &mut buf).unwrap();
    assert_eq!(buf.to_vec(), vec![0xbf, 0xff, 0xff, 0xff]);
    assert_eq!(decode_u64(&mut buf).unwrap(), 0x3fff_ffff);

    encode_u64(0x4000_0000, &mut buf).unwrap();
    assert_eq!(buf.to_vec(), vec![0xc0, 0x00, 0x00, 0x00, 0x40, 0x00, 0x00, 0x00]);
    assert_eq!(decode_u64(&mut buf).unwrap(), 0x4000_0000);

    assert_eq!(encode_u64(1u64 << 62, &mut buf).unwrap_err(), EncodeError::BoundsExceeded);
    assert!(buf.is_empty());

    let data: Vec<u8> = vec![0x80, 0x01];
    let mut short = BytesMut::from(&data[..]);
    assert_eq!(decode_u64(&mut short).unwrap_err(), DecodeError::More(2));
}

#[test]
fn track_namespace_encode_decode() {
    let mut buf = BytesMut::new();

    let t = TrackNamespace::from_utf8_path("test/path/to/resource");
    t.encode(&mut buf).unwrap();
    assert_eq!(
        buf.to_vec(),
        vec![
            0x04, 0x04, 0x74, 0x65, 0x73, 0x74, 0x04, 0x70, 0x61, 0x74, 0x68, 0x02, 0x74, 0x6f,
            0x08, 0x72, 0x65, 0x73, 0x6f, 0x75, 0x72, 0x63, 0x65
        ]
    );
    let decoded = TrackNamespace::decode(&mut buf).unwrap();
    assert_eq!(decoded, t);

    // Alternate construction
    let mut t = TrackNamespace::new();
    t.add(TupleField::from_utf8("test"));
    t.encode(&mut buf).unwrap();
    assert_eq!(buf.to_vec(), vec![0x01, 0x04, 0x74, 0x65, 0x73, 0x74]);
    let decoded = TrackNamespace::decode(&mut buf).unwrap();
    assert_eq!(decoded, t);
}

#[test]
fn encode_too_large() {
    let mut buf = BytesMut::new();

    let mut t = TrackNamespace::new();
    for i in 0..TrackNamespace::MAX_FIELDS + 1 {
        t.add(TupleField::from_utf8(&format!("field{}", i)));
    }

    let encoded = t.encode(&mut buf);
    assert!(matches!(encoded.unwrap_err(), EncodeError::FieldBoundsExceeded(_)));
}

#[test]
fn decode_too_large() {
    let mut data: Vec<u8> = vec![0x00; 256];
    data[0] = (TrackNamespace::MAX_FIELDS + 1) as u8;
    let mut buf = BytesMut::from(&data[..]);
    let decoded = TrackNamespace::decode(&mut buf);
    assert!(matches!(decoded.unwrap_err(), DecodeError::FieldBoundsExceeded(_)));
}

#[test]
fn test_is_prefix_of() {
    let ns1 = TrackNamespace::from_utf8_path("moq-test-00");
    let ns2 = TrackNamespace::from_utf8_path("moq-test-00/1/2/3");
    let ns3 = TrackNamespace::from_utf8_path("moq-test-00/1");
    let ns4 = TrackNamespace::from_utf8_path("other");

    assert!(ns1.is_prefix_of(&ns2));
    assert!(ns1.is_prefix_of(&ns3));
    assert!(ns1.is_prefix_of(&ns1));
    assert!(ns3.is_prefix_of(&ns2));

    assert!(!ns2.is_prefix_of(&ns1));
    assert!(!ns4.is_prefix_of(&ns1));
    assert!(!ns4.is_prefix_of(&ns2));
}

#[test]
fn test_get_prefixes() {
    let ns = TrackNamespace::from_utf8_path("moq-test-00/1/2/3");
    let prefixes = ns.get_prefixes();

    assert_eq!(prefixes.len(), 4);
    assert_eq!(prefixes[0].to_utf8_path(), "/moq-test-00/1/2/3");
    assert_eq!(prefixes[1].to_utf8_path(), "/moq-test-00/1/2");
    assert_eq!(prefixes[2].to_utf8_path(), "/moq-test-00/1");
    assert_eq!(prefixes[3].to_utf8_path(), "/moq-test-00");

    let ns_single = TrackNamespace::from_utf8_path("moq-test-00");
    let prefixes_single = ns_single.get_prefixes();
    assert_eq!(prefixes_single.len(), 1);
    assert_eq!(prefixes_single[0].to_utf8_path(), "/moq-test-00");
}

#[test]
fn namespace_equality_and_copy() {
    let a = TrackNamespace::from_utf8_path("a/b");
    let b = a.duplicate();
    assert!(a.equals(&b));
    assert!(!a.equals(&TrackNamespace::from_utf8_path("a/c")));
    assert!(!a.equals(&TrackNamespace::from_utf8_path("a")));
}

#[test]
fn tuple_set_get_and_roundtrip() {
    let mut buf = BytesMut::new();
    let mut t = Tuple::from_utf8_path("x/yz");
    assert_eq!(t.to_utf8_path(), "/x/yz");
    // A field set from a raw path is not a length-prefixed field.
    assert!(matches!(t.get(1).unwrap_err(), DecodeError::More(_)));
    t.set(0, TupleField::from_utf8("w")).unwrap();
    assert_eq!(t.get(0).unwrap(), TupleField::from_utf8("w"));
    t.encode(&mut buf).unwrap();
    assert_eq!(buf.to_vec(), vec![0x02, 0x02, 0x01, 0x77, 0x02, 0x79, 0x7a]);
    let decoded = Tuple::decode(&mut buf).unwrap();
    assert_eq!(decoded, t);
    t.clear();
    assert_eq!(t.to_utf8_path(), "");
}

#[test]
fn tuple_field_set_get() {
    let mut f = TupleField::new();
    f.set(TupleField::from_utf8("ab")).unwrap();
    assert_eq!(f, TupleField { value: vec![0x02, 0x61, 0x62] });
    assert_eq!(f.get().unwrap(), TupleField::from_utf8("ab"));
}

#[test]
fn location_encode_decode_and_order() {
    let mut buf = BytesMut::new();
    let l = Location::new(34, 53);
    l.encode(&mut buf).unwrap();
    assert_eq!(buf.to_vec(), vec![0x22, 0x35]);
    assert_eq!(Location::decode(&mut buf).unwrap(), l);
    assert!(Location::new(2, 0).is_after(&Location::new(1, 9)));
    assert!(Location::new(1, 2).is_after(&Location::new(1, 1)));
    assert!(!Location::new(1, 1).is_after(&Location::new(1, 1)));
}

#[test]
fn string_encode_decode_and_invalid_utf8() {
    let mut buf = BytesMut::new();
    encode_string("héllo", &mut buf).unwrap();
    assert_eq!(buf.to_vec(), vec![0x06, 0x68, 0xc3, 0xa9, 0x6c, 0x6c, 0x6f]);
    assert_eq!(decode_string(&mut buf).unwrap(), "héllo");

    let data: Vec<u8> = vec![0x01, 0xff];
    let mut bad = BytesMut::from(&data[..]);
    assert_eq!(decode_string(&mut bad).unwrap_err(), DecodeError::InvalidString);
}

#[test]
fn reason_phrase_limits() {
    let mut buf = BytesMut::new();
    let long = ReasonPhrase("x".repeat(1025));
    assert_eq!(
        long.encode(&mut buf).unwrap_err(),
        EncodeError::FieldBoundsExceeded("Reason Phrase")
    );
    let ok = ReasonPhrase("x".repeat(1024));
    ok.encode(&mut buf).unwrap();
    assert_eq!(ReasonPhrase::decode(&mut buf).unwrap(), ok);

    // Announced length 1025 (0x4401) is refused before the bytes are read.
    let data: Vec<u8> = vec![0x44, 0x01];
    let mut bad = BytesMut::from(&data[..]);
    assert_eq!(
        ReasonPhrase::decode(&mut bad).unwrap_err(),
        DecodeError::FieldBoundsExceeded("Reason Phrase")
    );
}

#[test]
fn params_encode_decode() {
    let mut buf = BytesMut::new();
    let mut p = Params::new();
    p.0.insert(0, vec![0x03]);
    p.encode(&mut buf).unwrap();
    assert_eq!(buf.to_vec(), vec![0x01, 0x00, 0x01, 0x03]);
    let decoded = Params::decode(&mut buf).unwrap();
    assert_eq!(decoded, p);
    assert!(decoded.has(0));
    assert!(!decoded.has(1));

    let data: Vec<u8> = vec![0x02, 0x05, 0x00, 0x05, 0x00];
    let mut dup = BytesMut::from(&data[..]);
    assert_eq!(Params::decode(&mut dup).unwrap_err(), DecodeError::DuplicateParameter(5));
}

#[test]
fn utf8_path_round_trip_adds_leading_slash() {
    assert_eq!(Tuple::from_utf8_path("caf\u{e9}/x").to_utf8_path(), "/caf\u{e9}/x");
    assert_eq!(Tuple::from_utf8_path("").to_utf8_path(), "/");
    assert_eq!(Tuple::from_utf8_path("a//b/").to_utf8_path(), "/a//b/");
    assert_eq!(TrackNamespace::from_utf8_path("live/room").to_utf8_path(), "/live/room");
}

#[test]
fn refused_encodings_leave_the_buffer_alone() {
    let mut buf = BytesMut::from(&[0xAAu8][..]);
    let mut t = TrackNamespace::new();
    for i in 0..TrackNamespace::MAX_FIELDS + 1 {
        t.add(TupleField::from_utf8(&format!("field{}", i)));
    }
    assert!(matches!(t.encode(&mut buf), Err(EncodeError::FieldBoundsExceeded(_))));
    assert_eq!(buf.to_vec(), vec![0xAA]);

    let odd_int = KeyValuePair::new(1, Value::IntValue(0));
    let even_bytes = KeyValuePair::new(0, Value::BytesValue(vec![1, 2, 3]));
    assert_eq!(odd_int.encode(&mut buf), Err(EncodeError::InvalidValue));
    assert_eq!(even_bytes.encode(&mut buf), Err(EncodeError::InvalidValue));
    assert_eq!(buf.to_vec(), vec![0xAA]);
}

#[test]
fn tuple_field_set_replaces_with_wire_form() {
    let mut f = TupleField::from_utf8("old");
    assert!(f.set(TupleField::from_utf8("ab")).is_ok());
    assert_eq!(f.value, vec![0x02, 0x61, 0x62]);
}
