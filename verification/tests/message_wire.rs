use torrent_peer::message::{parse_message, parse_u32, PeerMessage, SIZE_BYTES};

fn all_messages() -> Vec<PeerMessage> {
    vec![
        PeerMessage::KeepAlive,
        PeerMessage::Choke,
        PeerMessage::Unchoke,
        PeerMessage::Interested,
        PeerMessage::NotInterested,
        PeerMessage::Have(0x0102_0304),
        PeerMessage::Bitfield(vec![0xff, 0x01]),
        PeerMessage::Request { block: 1, offset: 5, length: 40 },
        PeerMessage::Piece { block: 5, offset: 23, data: vec![1, 23, 3, 13, 45, 1, 34, 23, 52, 10] },
        PeerMessage::Cancel { block: 7, offset: 8, length: 9 },
        PeerMessage::Port(6881),
    ]
}

#[test]
fn size_prefix_is_four_bytes() {
    assert_eq!(SIZE_BYTES, 4);
}

#[test]
fn parse_u32_is_big_endian() {
    assert_eq!(parse_u32(&[0x01, 0x02, 0x03, 0x04]), 0x0102_0304);
    assert_eq!(parse_u32(&[0, 0, 0, 13, 99]), 13);
}

#[test]
fn keep_alive_frame_is_a_zero_length() {
    assert_eq!(PeerMessage::KeepAlive.to_bytes(), vec![0, 0, 0, 0]);
}

#[test]
fn request_frame_bytes() {
    let m = PeerMessage::Request { block: 1, offset: 5, length: 40 };
    assert_eq!(
        m.to_bytes(),
        vec![0, 0, 0, 13, 6, 0, 0, 0, 1, 0, 0, 0, 5, 0, 0, 0, 40]
    );
}

#[test]
fn have_and_port_frame_bytes() {
    assert_eq!(PeerMessage::Have(0x0102_0304).to_bytes(), vec![0, 0, 0, 5, 4, 1, 2, 3, 4]);
    assert_eq!(PeerMessage::Port(0x1ae1).to_bytes(), vec![0, 0, 0, 3, 9, 0x1a, 0xe1]);
}

#[test]
fn piece_and_bitfield_frame_bytes() {
    let piece = PeerMessage::Piece { block: 2, offset: 3, data: vec![9, 8] };
    assert_eq!(piece.to_bytes(), vec![0, 0, 0, 11, 7, 0, 0, 0, 2, 0, 0, 0, 3, 9, 8]);
    assert_eq!(PeerMessage::Bitfield(vec![0xa0]).to_bytes(), vec![0, 0, 0, 2, 5, 0xa0]);
    assert_eq!(PeerMessage::Choke.to_bytes(), vec![0, 0, 0, 1, 0]);
}

#[test]
fn payload_roundtrip_for_every_kind() {
    for m in all_messages() {
        assert!(m.is_encodable());
        let frame = m.to_bytes();
        let len = parse_u32(&frame) as usize;
        assert_eq!(len, frame.len() - SIZE_BYTES);
        assert_eq!(parse_message(&frame[SIZE_BYTES..]), Some(m));
    }
}

#[test]
fn malformed_payloads_are_refused() {
    assert_eq!(parse_message(&[0, 0]), None);
    assert_eq!(parse_message(&[4, 1, 2, 3]), None);
    assert_eq!(parse_message(&[6; 12]), None);
    assert_eq!(parse_message(&[7, 0, 0, 0, 1, 0, 0, 0]), None);
    assert_eq!(parse_message(&[10]), None);
    assert_eq!(parse_message(&[9, 1]), None);
}

#[test]
fn empty_payload_is_keep_alive_and_empty_piece_parses() {
    assert_eq!(parse_message(&[]), Some(PeerMessage::KeepAlive));
    assert_eq!(
        parse_message(&[7, 0, 0, 0, 1, 0, 0, 0, 2]),
        Some(PeerMessage::Piece { block: 1, offset: 2, data: vec![] })
    );
    assert_eq!(parse_message(&[5]), Some(PeerMessage::Bitfield(vec![])));
}
