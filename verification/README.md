# moq_transport

Media over QUIC Transport (MoQT): wire codecs, track serving, session state machines,
the relay's routing of local broadcasts and the directory listing format, written as a
Verus library with contracts proved by Verus.

- `src/coding`: variable-length integers, byte and text fields, tuples and track
  namespaces, parameters and key-value pairs, locations; each codec with a roundtrip
  lemma.
- `src/data`, `src/message`, `src/setup`: data-stream headers and objects, datagrams,
  control messages and the client setup, with their roundtrip lemmas; the transport a
  URL scheme or a negotiated ALPN selects.
- `src/serve`: tracks and broadcasts shared between writers and readers.
- `src/session`: the publisher and subscriber sides of a session as state machines (the
  publisher side keeps the state of every subscription it serves), the version choice
  and the per-stream object reader.
- `src/relay`: the registry of local broadcasts and longest-prefix routing.
- `src/dir`: the listing writer and reader (snapshots and deltas).
- `app/`: the QUIC endpoint, JSON event logging and the relay's shared registry, which
  do I/O or need outside derives.
- `tests/`: tests of the library.
