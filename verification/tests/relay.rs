use moq_transport::coding::TrackNamespace;
use moq_transport::relay::{serve_subscribe_local, serve_track_status_local, Locals};
use moq_transport::serve::{ServeError, Tracks};

#[test]
fn test_exact_match() {
    let mut locals = Locals::new();
    let namespace = TrackNamespace::from_utf8_path("moq-test-00");
    let (_writer, _request, reader) = Tracks::new(namespace.clone()).produce();

    let _registration = locals.register(reader).unwrap();

    let result = locals.route(&namespace);
    assert!(result.is_some());
}

#[test]
fn test_hierarchical_match() {
    let mut locals = Locals::new();
    let registered_ns = TrackNamespace::from_utf8_path("moq-test-00");
    let (_writer, _request, reader) = Tracks::new(registered_ns.clone()).produce();

    let _registration = locals.register(reader).unwrap();

    let query_ns = TrackNamespace::from_utf8_path("moq-test-00/1/2/3");
    let result = locals.route(&query_ns);
    assert!(
        result.is_some(),
        "Should match hierarchical namespace moq-test-00/1/2/3 to registered moq-test-00"
    );
}

#[test]
fn test_no_match() {
    let mut locals = Locals::new();
    let registered_ns = TrackNamespace::from_utf8_path("moq-test-00");
    let (_writer, _request, reader) = Tracks::new(registered_ns.clone()).produce();

    let _registration = locals.register(reader).unwrap();

    let query_ns = TrackNamespace::from_utf8_path("other-namespace");
    let result = locals.route(&query_ns);
    assert!(result.is_none());
}

#[test]
fn test_longest_match_wins() {
    let mut locals = Locals::new();

    let ns1 = TrackNamespace::from_utf8_path("moq-test-00");
    let (_writer1, _request1, reader1) = Tracks::new(ns1.clone()).produce();
    let _reg1 = locals.register(reader1).unwrap();

    let ns2 = TrackNamespace::from_utf8_path("moq-test-00/1");
    let (_writer2, _request2, reader2) = Tracks::new(ns2.clone()).produce();
    let _reg2 = locals.register(reader2).unwrap();

    let query_ns = TrackNamespace::from_utf8_path("moq-test-00/1/2/3");
    let result = locals.route(&query_ns);
    assert!(result.is_some());

    let tracks_reader = result.unwrap();
    assert_eq!(tracks_reader.info.namespace, ns2);
}

#[test]
fn test_partial_match_fails() {
    let mut locals = Locals::new();
    let registered_ns = TrackNamespace::from_utf8_path("moq-test-00/1/2");
    let (_writer, _request, reader) = Tracks::new(registered_ns.clone()).produce();

    let _registration = locals.register(reader).unwrap();

    let query_ns = TrackNamespace::from_utf8_path("moq-test-00/1");
    let result = locals.route(&query_ns);
    assert!(result.is_none(), "Shorter namespace should not match longer registered namespace");
}

#[test]
fn duplicate_registration_and_deregister() {
    let mut locals = Locals::new();
    let ns = TrackNamespace::from_utf8_path("a/b");
    let (_w1, _r1, reader1) = Tracks::new(ns.clone()).produce();
    let (_w2, _r2, reader2) = Tracks::new(ns.clone()).produce();
    let registration = locals.register(reader1).unwrap();
    assert!(matches!(locals.register(reader2), Err(ServeError::Duplicate)));
    locals.deregister(registration);
    assert!(locals.route(&ns).is_none());
}

#[test]
fn producer_serves_local_tracks() {
    let mut locals = Locals::new();
    let ns = TrackNamespace::from_utf8_path("live");
    let (mut writer, mut request, reader) = Tracks::new(ns.clone()).produce();
    let _reg = locals.register(reader).unwrap();
    let _cam = writer.create("cam").unwrap();

    let deeper = TrackNamespace::from_utf8_path("live/room");
    assert!(serve_track_status_local(&locals, &deeper, "cam").is_none());
    assert_eq!(serve_track_status_local(&locals, &ns, "cam").unwrap().info.name, "cam");

    let track = serve_subscribe_local(&locals, &deeper, "mic").unwrap();
    assert_eq!(track.info.namespace, deeper);
    assert_eq!(request.try_next().unwrap().info.name, "mic");

    let other = TrackNamespace::from_utf8_path("elsewhere");
    assert!(serve_subscribe_local(&locals, &other, "mic").is_none());
}

#[test]
fn route_hands_back_the_registered_broadcast() {
    let mut locals = Locals::new();
    let ns = TrackNamespace::from_utf8_path("live");
    let (mut writer, _request, reader) = Tracks::new(ns.clone()).produce();
    let registration = locals.register(reader).unwrap();
    let _cam = writer.create("cam").unwrap();

    // The routed reader is the registered one: it holds the track written since.
    let mut routed = locals.route(&TrackNamespace::from_utf8_path("live/room")).unwrap();
    assert_eq!(routed.get_track_reader(&ns, "cam").unwrap().info.name, "cam");

    locals.deregister(registration);
    assert!(locals.route(&ns).is_none());
}
