use torrent_peer::message::PeerMessage;
use torrent_peer::sink::MessageSink;
use torrent_peer::stream::{MessageStream, ReadOutcome};

#[test]
fn sink_writes_the_frame_in_parts() {
    let m = PeerMessage::Request { block: 1, offset: 5, length: 40 };
    let mut sink = MessageSink::new();
    assert!(sink.is_ready());
    assert!(sink.unsent().is_empty());
    sink.start_send(&m);
    assert!(!sink.is_ready());
    assert_eq!(sink.unsent().to_vec(), m.to_bytes());
    let mut written = Vec::new();
    written.extend_from_slice(&sink.unsent()[..3]);
    assert!(!sink.on_written(3));
    assert_eq!(sink.unsent().len(), 14);
    written.extend_from_slice(&sink.unsent()[..0]);
    assert!(!sink.on_written(0));
    written.extend_from_slice(sink.unsent());
    let rest = sink.unsent().len();
    assert!(sink.on_written(rest));
    assert!(sink.is_ready());
    assert_eq!(written, m.to_bytes());
}

#[test]
fn what_a_sink_writes_a_stream_reads() {
    let m = PeerMessage::Piece { block: 3, offset: 4, data: vec![7; 20] };
    let mut sink = MessageSink::new();
    sink.start_send(&m);
    let bytes = sink.unsent().to_vec();
    let mut stream = MessageStream::new();
    assert!(matches!(stream.on_read(&bytes[..4]), ReadOutcome::Again));
    match stream.on_read(&bytes[4..]) {
        ReadOutcome::Message(got) => assert_eq!(got, m),
        other => panic!("unexpected {:?}", other),
    }
}
