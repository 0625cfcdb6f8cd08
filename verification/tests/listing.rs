use moq_transport::coding::TrackNamespace;
use moq_transport::dir::{ListingDelta, ListingError, ListingReader, ListingWrite, ListingWriter};
use moq_transport::serve::{ServeError, Track};

#[test]
fn listing_writer_snapshots_then_deltas() {
    let mut w = ListingWriter::new();
    assert!(w.is_empty());
    // No subgroup yet: a snapshot.
    assert_eq!(w.insert("a".to_string()).unwrap(), ListingWrite::Snapshot(b"a\n".to_vec()));
    // 2 names, 1 object: 2 < 2, so another snapshot.
    assert_eq!(w.insert("b".to_string()).unwrap(), ListingWrite::Snapshot(b"a\nb\n".to_vec()));
    // 3 names, 1 object: snapshot again.
    assert_eq!(w.insert("c".to_string()).unwrap(), ListingWrite::Snapshot(b"a\nb\nc\n".to_vec()));
    // 2 names, 1 object: 2 < 2 fails, snapshot.
    assert_eq!(w.remove("b").unwrap(), ListingWrite::Snapshot(b"a\nc\n".to_vec()));
    // 1 name, 1 object: 1 < 2, a delta.
    assert_eq!(w.remove("a").unwrap(), ListingWrite::Delta(b"-a".to_vec()));
    // 2 names, 2 objects: a delta.
    assert_eq!(w.insert("d".to_string()).unwrap(), ListingWrite::Delta(b"+d".to_vec()));
    assert_eq!(w.len(), 2);
}

#[test]
fn listing_writer_refusals() {
    let mut w = ListingWriter::new();
    w.insert("a".to_string()).unwrap();
    assert_eq!(w.insert("a".to_string()), Err(ServeError::Duplicate));
    assert_eq!(w.remove("zz"), Err(ServeError::NotFound));
    assert_eq!(w.len(), 1);
}

#[test]
fn listing_writer_length_counts_distinct_names() {
    let mut w = ListingWriter::new();
    for (i, name) in ["x", "y", "z"].iter().enumerate() {
        w.insert(name.to_string()).unwrap();
        assert_eq!(w.len(), i + 1);
    }
    assert!(w.insert("y".to_string()).is_err());
    assert_eq!(w.len(), 3);
    w.remove("y").unwrap();
    assert_eq!(w.len(), 2);
    assert!(w.remove("y").is_err());
    assert_eq!(w.len(), 2);
    w.insert("y".to_string()).unwrap();
    assert_eq!(w.len(), 3);
}

fn reader() -> ListingReader {
    let (_w, r) = Track::new(TrackNamespace::from_utf8_path("dir"), "listing".to_string()).produce();
    ListingReader::new(r)
}

#[test]
fn listing_reader_snapshot_and_deltas() {
    let mut r = reader();
    // The first object of a subgroup is a snapshot.
    let first = r.apply_object(b"a\nb", true).unwrap();
    assert_eq!(first, Some(ListingDelta::Add("a".to_string())));
    assert_eq!(r.pop_delta(), Some(ListingDelta::Add("b".to_string())));
    assert_eq!(r.pop_delta(), None);

    // A new snapshot: c added, a removed.
    let next = r.apply_object(b"b\nc\nc", true).unwrap();
    assert_eq!(next, Some(ListingDelta::Add("c".to_string())));
    assert_eq!(r.pop_delta(), Some(ListingDelta::Rem("a".to_string())));
    assert_eq!(r.pop_delta(), None);

    // Deltas are handed out as they are.
    assert_eq!(r.apply_object(b"+x", false).unwrap(), Some(ListingDelta::Add("x".to_string())));
    assert_eq!(r.apply_object(b"-b", false).unwrap(), Some(ListingDelta::Rem("b".to_string())));

    // The same snapshot again changes nothing.
    assert_eq!(r.apply_object(b"b\nc", true).unwrap(), None);
}

#[test]
fn listing_reader_errors() {
    let mut r = reader();
    assert_eq!(r.apply_object(b"", true), Err(ListingError::EmptyPayload));
    assert_eq!(r.apply_object(b"?x", false), Err(ListingError::InvalidDelta));
    let track = r.into_inner();
    assert_eq!(track.info.name, "listing");
}

#[test]
fn listing_reader_follows_writer() {
    let mut w = ListingWriter::new();
    let mut r = reader();
    let snapshot = match w.insert("alpha".to_string()).unwrap() {
        ListingWrite::Snapshot(bytes) => bytes,
        ListingWrite::Delta(_) => panic!("the first write is a snapshot"),
    };
    // The snapshot's trailing newline reads back as one more, empty, name.
    assert_eq!(r.apply_object(&snapshot, true).unwrap(), Some(ListingDelta::Add("alpha".to_string())));
    assert_eq!(r.pop_delta(), Some(ListingDelta::Add(String::new())));
    assert_eq!(r.pop_delta(), None);

    let _ = w.insert("beta".to_string()).unwrap();
    let _ = w.insert("gamma".to_string()).unwrap();
    let _ = w.remove("beta").unwrap();
    let delta = match w.remove("alpha").unwrap() {
        ListingWrite::Delta(bytes) => bytes,
        ListingWrite::Snapshot(bytes) => bytes,
    };
    assert_eq!(delta, b"-alpha".to_vec());
    assert_eq!(r.apply_object(&delta, false).unwrap(), Some(ListingDelta::Rem("alpha".to_string())));
}

#[test]
fn listing_reader_reads_utf8_names() {
    let mut r = reader();
    let payload = "caf\u{e9}\n\u{1f600}\n".as_bytes().to_vec();
    assert_eq!(r.apply_object(&payload, true).unwrap(), Some(ListingDelta::Add("caf\u{e9}".to_string())));
    assert_eq!(r.pop_delta(), Some(ListingDelta::Add("\u{1f600}".to_string())));
    assert_eq!(r.pop_delta(), Some(ListingDelta::Add(String::new())));
}
