use torrent_peer::message::PeerMessage;
use torrent_peer::stream::{MessageStream, ReadOutcome};

/// Feeds `input` to a stream, each read bringing `chunk(asked)` bytes or
/// what is left, collecting the messages, as a reader of a byte buffer would.
fn decode(input: &[u8], chunk: fn(usize) -> usize) -> Vec<PeerMessage> {
    let mut stream = MessageStream::new();
    let mut pos = 0;
    let mut out = Vec::new();
    loop {
        let want = stream.read_len();
        let n = chunk(want).min(want).min(input.len() - pos);
        if n == 0 && want > 0 {
            return out;
        }
        match stream.on_read(&input[pos..pos + n]) {
            ReadOutcome::Message(m) => out.push(m),
            ReadOutcome::Malformed => panic!("malformed frame"),
            ReadOutcome::Again | ReadOutcome::Pending => {}
        }
        pos += n;
    }
}

fn sample() -> Vec<PeerMessage> {
    vec![
        PeerMessage::KeepAlive,
        PeerMessage::Request { block: 1, offset: 5, length: 40 },
        PeerMessage::Bitfield(vec![1, 2, 3, 4, 5, 6, 7]),
        PeerMessage::Interested,
        PeerMessage::Unchoke,
        PeerMessage::Piece { block: 5, offset: 23, data: vec![1u8, 23, 3, 13, 45, 1, 34, 23, 52, 10] },
    ]
}

#[test]
fn test_stream() {
    let mut buf: Vec<u8> = Vec::with_capacity(1024usize);
    let messages = sample();
    messages.iter().for_each(|msg| buf.extend_from_slice(&msg.clone().to_bytes()));
    let read = decode(&buf, |want| want);
    assert_eq!(read.len(), messages.len());
    for (item, msg) in read.into_iter().zip(messages) {
        assert_eq!(item, msg);
    }
}

#[test]
fn payload_read_in_small_pieces_gives_the_same_messages() {
    let mut buf = Vec::new();
    for m in sample() {
        buf.extend_from_slice(&m.to_bytes());
    }
    // the length prefix is read whole, the payload a byte at a time
    let read = decode(&buf, |want| if want == 4 { 4 } else { 1 });
    assert_eq!(read, sample());
}

#[test]
fn outcomes_of_one_frame() {
    let mut stream = MessageStream::new();
    assert_eq!(stream.read_len(), 4);
    assert!(matches!(stream.on_read(&[0, 0, 0, 5]), ReadOutcome::Again));
    assert_eq!(stream.read_len(), 5);
    assert!(matches!(stream.on_read(&[4, 0, 0]), ReadOutcome::Pending));
    assert_eq!(stream.read_len(), 2);
    match stream.on_read(&[1, 2]) {
        ReadOutcome::Message(m) => assert_eq!(m, PeerMessage::Have(0x0102)),
        other => panic!("unexpected {:?}", other),
    }
    assert_eq!(stream.read_len(), 4);
}

#[test]
fn keep_alive_needs_an_empty_read() {
    let mut stream = MessageStream::new();
    assert!(matches!(stream.on_read(&[0, 0, 0, 0]), ReadOutcome::Again));
    assert_eq!(stream.read_len(), 0);
    match stream.on_read(&[]) {
        ReadOutcome::Message(m) => assert_eq!(m, PeerMessage::KeepAlive),
        other => panic!("unexpected {:?}", other),
    }
}

#[test]
fn malformed_payload_is_reported() {
    let mut stream = MessageStream::new();
    assert!(matches!(stream.on_read(&[0, 0, 0, 2]), ReadOutcome::Again));
    assert!(matches!(stream.on_read(&[0, 0]), ReadOutcome::Malformed));
    assert_eq!(stream.read_len(), 4);
}

#[test]
fn short_length_prefix_becomes_the_buffer() {
    // A length prefix that arrives in parts is kept as the frame buffer
    // itself: once its four bytes are in, they are parsed as a payload.
    let mut stream = MessageStream::new();
    assert!(matches!(stream.on_read(&[0, 0]), ReadOutcome::Pending));
    assert_eq!(stream.read_len(), 2);
    assert!(matches!(stream.on_read(&[0, 1]), ReadOutcome::Malformed));
}
