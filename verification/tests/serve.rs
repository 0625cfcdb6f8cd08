use moq_transport::coding::TrackNamespace;
use moq_transport::serve::track::TrackState;
use moq_transport::serve::{ServeError, Track, TrackMode, Tracks};

#[test]
fn serve_error_codes() {
    assert_eq!(ServeError::Done.code(), 0);
    assert_eq!(ServeError::Cancel.code(), 1);
    assert_eq!(ServeError::Closed(42).code(), 42);
    assert_eq!(ServeError::NotFound.code(), 0x4);
    assert_eq!(ServeError::Duplicate.code(), 0x5);
    assert_eq!(ServeError::Mode.code(), 0x3);
    assert_eq!(ServeError::Size.code(), 0x3);
    assert_eq!(ServeError::NotImplemented("x".to_string()).code(), 0x3);
    assert_eq!(ServeError::Internal("x".to_string()).code(), 0x0);
}

#[test]
fn track_mode_and_close() {
    let (writer, reader) = Track::new(TrackNamespace::from_utf8_path("a"), "video".to_string()).produce();
    assert!(reader.latest().is_none());
    assert_eq!(reader.current_mode().unwrap(), None);
    assert_eq!(writer.subgroups().unwrap(), TrackMode::Subgroups);
    assert_eq!(reader.current_mode().unwrap(), Some(TrackMode::Subgroups));
    assert_eq!(reader.closed_state(), Ok(()));
    assert_eq!(writer.close(ServeError::Closed(7)), Ok(()));
    assert_eq!(reader.closed_state(), Err(ServeError::Closed(7)));
}

#[test]
fn track_close_keeps_first_error() {
    let mut state = TrackState::new();
    assert_eq!(state.close(ServeError::Cancel), Ok(()));
    assert_eq!(state.close(ServeError::Done), Err(ServeError::Cancel));

    let (writer, reader) = Track::new(TrackNamespace::from_utf8_path("a"), "t".to_string()).produce();
    writer.close(ServeError::NotFound).unwrap();
    assert_eq!(reader.current_mode(), Err(ServeError::NotFound));
}

#[test]
fn tracks_create_get_remove() {
    let ns = TrackNamespace::from_utf8_path("room");
    let (mut writer, _request, mut reader) = Tracks::new(ns.clone()).produce();
    assert!(reader.get_track_reader(&ns, "cam").is_none());
    let track = writer.create("cam").unwrap();
    assert_eq!(track.info.name, "cam");
    let found = reader.get_track_reader(&ns, "cam").unwrap();
    assert_eq!(found.info.name, "cam");
    assert_eq!(found.info.namespace, ns);
    let removed = writer.remove(&ns, "cam").unwrap();
    assert_eq!(removed.info.name, "cam");
    assert!(reader.get_track_reader(&ns, "cam").is_none());
    assert!(writer.remove(&ns, "cam").is_none());
}

#[test]
fn tracks_subscribe_requests() {
    let ns = TrackNamespace::from_utf8_path("room");
    let (_writer, mut request, mut reader) = Tracks::new(ns.clone()).produce();
    let deeper = TrackNamespace::from_utf8_path("room/sub");
    let first = reader.subscribe(deeper.clone(), "mic").unwrap();
    assert_eq!(first.info.namespace, deeper);
    let again = reader.subscribe(deeper.clone(), "mic").unwrap();
    assert_eq!(again.info.name, "mic");
    let pending = request.try_next().unwrap();
    assert_eq!(pending.info.name, "mic");
    assert!(request.try_next().is_none());
    request.close();
    assert!(reader.subscribe(ns.clone(), "other").is_none());
}

#[test]
fn track_writer_is_cancelled_once_readers_are_gone() {
    let (writer, reader) = Track::new(TrackNamespace::from_utf8_path("a"), "t".to_string()).produce();
    let copy = reader.clone();
    drop(reader);
    // A clone of the reader still follows the track.
    assert_eq!(writer.stream(3), Ok(TrackMode::Stream(3)));
    assert_eq!(copy.current_mode(), Ok(Some(TrackMode::Stream(3))));
    drop(copy);
    assert_eq!(writer.stream(3), Err(ServeError::Cancel));
    assert_eq!(writer.subgroups(), Err(ServeError::Cancel));
    assert_eq!(writer.datagrams(), Err(ServeError::Cancel));
    assert_eq!(writer.close(ServeError::Done), Err(ServeError::Cancel));
}

#[test]
fn tracks_writer_gets_nothing_once_readers_are_gone() {
    let ns = TrackNamespace::from_utf8_path("room");
    let (mut writer, _request, reader) = Tracks::new(ns.clone()).produce();
    let _cam = writer.create("cam").unwrap();
    drop(reader);
    assert!(writer.create("mic").is_none());
    assert!(writer.remove(&ns, "cam").is_none());
}

#[test]
fn serve_error_texts() {
    assert_eq!(ServeError::Done.to_string(), "done");
    assert_eq!(ServeError::Cancel.to_string(), "cancelled");
    assert_eq!(ServeError::Closed(42).to_string(), "closed, code=42");
    assert_eq!(ServeError::Closed(0).to_string(), "closed, code=0");
    assert_eq!(ServeError::Closed(u64::MAX).to_string(), "closed, code=18446744073709551615");
    assert_eq!(ServeError::NotFound.to_string(), "not found");
    assert_eq!(ServeError::Duplicate.to_string(), "duplicate");
    assert_eq!(ServeError::Mode.to_string(), "multiple stream modes");
    assert_eq!(ServeError::Size.to_string(), "wrong size");
    assert_eq!(ServeError::Internal("x".to_string()).to_string(), "internal error: x");
    assert_eq!(ServeError::NotImplemented("y".to_string()).to_string(), "not implemented: y");
}
