use bytes::BytesMut;
use moq_transport::coding::{DecodeError, Params};
use moq_transport::session::{select_version, server_versions, SessionError};
use moq_transport::setup::{
    moq_alpn, transport_for_alpn, transport_for_scheme, Client, Role, UrlTransport, Version, Versions, DRAFT_06, DRAFT_14,
};

#[test]
fn client_encode_decode() {
    let mut buf = BytesMut::new();
    let client = Client { versions: Versions(vec![Version(DRAFT_06)]), role: Role::Both, params: Params::default() };

    client.encode(&mut buf).unwrap();
    assert_eq!(
        buf.to_vec(),
        vec![0x40, 0x40, 0x0D, 0x01, 0xC0, 0x00, 0x00, 0x00, 0xFF, 0x00, 0x00, 0x06, 0x01, 0x00, 0x01, 0x03]
    );

    let decoded = Client::decode(&mut buf).unwrap();
    assert_eq!(decoded.versions, client.versions);
    assert_eq!(decoded.role, client.role);
}

#[test]
fn client_decode_takes_role_out_of_params() {
    let mut params = Params::default();
    params.0.insert(7, vec![1, 2]);
    let client = Client { versions: Versions(vec![Version(DRAFT_14), Version(DRAFT_06)]), role: Role::Subscriber, params };
    let mut buf = BytesMut::new();
    client.encode(&mut buf).unwrap();
    let decoded = Client::decode(&mut buf).unwrap();
    assert_eq!(decoded.versions, client.versions);
    assert_eq!(decoded.role, Role::Subscriber);
    assert_eq!(decoded.params, client.params);
    assert!(buf.is_empty());
}

#[test]
fn client_decode_errors() {
    // Wrong type.
    let mut buf = BytesMut::from(&[0x05u8, 0x00][..]);
    assert_eq!(Client::decode(&mut buf).err(), Some(DecodeError::InvalidMessage(5)));

    // No role parameter.
    let mut buf = BytesMut::from(&[0x40u8, 0x40, 0x03, 0x01, 0x05, 0x00][..]);
    assert_eq!(Client::decode(&mut buf).err(), Some(DecodeError::MissingParameter));

    // A role number that stands for no role.
    let mut buf = BytesMut::from(&[0x40u8, 0x40, 0x06, 0x01, 0x05, 0x01, 0x00, 0x01, 0x09][..]);
    assert_eq!(Client::decode(&mut buf).err(), Some(DecodeError::InvalidRole(9)));

    // A path parameter.
    let mut buf = BytesMut::from(&[0x40u8, 0x40, 0x09, 0x01, 0x05, 0x02, 0x00, 0x01, 0x01, 0x01, 0x01, 0x61][..]);
    assert_eq!(Client::decode(&mut buf).err(), Some(DecodeError::InvalidParameter));

    // Cut short.
    let mut buf = BytesMut::from(&[0x40u8, 0x40][..]);
    assert!(matches!(Client::decode(&mut buf).err(), Some(DecodeError::More(_))));
}

#[test]
fn role_numbers() {
    assert_eq!(Role::Publisher.code(), 1);
    assert_eq!(Role::Subscriber.code(), 2);
    assert_eq!(Role::Both.code(), 3);
    assert_eq!(Role::from_code(2), Ok(Role::Subscriber));
    assert_eq!(Role::from_code(0), Err(DecodeError::InvalidRole(0)));
    assert_eq!(Role::decode_from(&[0x01, 0xff]), Ok(Role::Publisher));
}

#[test]
fn versions_encode_decode() {
    let versions = Versions(vec![Version(1), Version(DRAFT_14), Version(0x3fff)]);
    let mut buf = BytesMut::new();
    versions.encode(&mut buf).unwrap();
    assert_eq!(buf.to_vec(), vec![0x03, 0x01, 0xC0, 0x00, 0x00, 0x00, 0xFF, 0x00, 0x00, 0x0E, 0x7F, 0xFF]);
    assert_eq!(Versions::decode(&mut buf).unwrap(), versions);
}

#[test]
fn versions_largest_common() {
    let a = Versions(vec![Version(3), Version(9), Version(5)]);
    let b = Versions(vec![Version(5), Version(3), Version(7)]);
    assert_eq!(a.largest_common(&b), Some(Version(5)));
    assert_eq!(a.largest_common(&Versions(vec![Version(4)])), None);
}

#[test]
fn server_picks_shared_version() {
    assert_eq!(server_versions(), Versions(vec![Version(DRAFT_14)]));
    let client = Versions(vec![Version(DRAFT_06), Version(DRAFT_14)]);
    assert_eq!(select_version(server_versions(), client), Ok(Version(DRAFT_14)));
    let old = Versions(vec![Version(DRAFT_06)]);
    assert_eq!(
        select_version(server_versions(), old.clone()),
        Err(SessionError::Version(old, Versions(vec![Version(DRAFT_14)])))
    );
}

#[test]
fn url_scheme_picks_the_transport() {
    assert_eq!(transport_for_scheme("https"), Some(UrlTransport::WebTransport));
    assert_eq!(transport_for_scheme("moqt"), Some(UrlTransport::RawQuic));
    assert_eq!(transport_for_scheme("http"), None);
    assert_eq!(transport_for_scheme(""), None);
}

#[test]
fn alpn_picks_the_session_kind() {
    assert_eq!(transport_for_alpn("h3"), Some(UrlTransport::WebTransport));
    assert_eq!(transport_for_alpn(moq_alpn()), Some(UrlTransport::RawQuic));
    assert_eq!(moq_alpn(), "moq-00");
    assert_eq!(transport_for_alpn("h2"), None);
}
