# torrent_peer

The peer wire protocol of a BitTorrent client, verified with Verus.

`src/` is the library, every function of it verified:

- `message` — the protocol messages, their frame encoding (`to_bytes`) and
  payload parsing (`parse_message`), with the proof that the encoding is a
  bijection between messages and well-formed payloads.
- `stream` — the reading side of framing: a state machine that takes the
  bytes of each read and reports when a message is complete; the proof that
  frames written one after another are read back as the same messages, and
  that the split of a payload into reads does not matter.
- `sink` — the writing side of framing: the frame in progress and what is
  left of it after each partial write.
- `bitfield` — piece bitfields: lookup, marking, and the interest of one
  peer in another's pieces.
- `handshake` — the handshake, its bytes, its parsing and its validation.
- `peer` — the state of a session with one peer and its decisions: which
  requests may be sent, what each incoming message changes and asks for.
- `connection` — the sessions of a torrent keyed by peer id, and the choice
  of the session that takes a block request.

`app/` is the transport around it (async readers and writers, channels, the
tasks of a peer, TCP connections).  It takes no protocol decision: it
performs the actions the library returns, and only routes messages to the
task of the chosen peer.
`tests/` exercises the library on concrete values.
