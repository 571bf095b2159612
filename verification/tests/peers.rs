use torrent_peer::bitfield::BitfieldError;
use torrent_peer::handshake::{handshake_body_len, parse_handshake, Handshake, HANDSHAKE_DEFAULT_SIZE};
use torrent_peer::message::PeerMessage;
use torrent_peer::peer::{Action, Peer, PeerError, PeerState};

fn peer_with_bits(bits: Vec<u8>) -> Peer {
    let mut p = Peer::new();
    match p.handle(PeerMessage::Bitfield(bits)) {
        Ok(Action::CompareBitfield) => {}
        other => panic!("unexpected {:?}", other),
    }
    p
}

#[test]
fn fresh_peer() {
    let p = Peer::new();
    assert_eq!(p.queue(), 0);
    assert!(p.bitfield().is_empty());
    assert_eq!(p.state(), (PeerState::Chocked, PeerState::Unchocked));
}

#[test]
fn request_of_missing_block_fails() {
    let mut p = peer_with_bits(vec![0b0100_0000]);
    assert!(matches!(p.request(0, 0, 16), Err(PeerError::BlockNotFound)));
    assert!(matches!(p.request(9, 0, 16), Err(PeerError::BlockNotFound)));
    assert_eq!(p.queue(), 0);
}

#[test]
fn request_returns_the_message_and_counts_it() {
    let mut p = peer_with_bits(vec![0b0100_0000]);
    let m = p.request(1, 16, 32).unwrap();
    assert_eq!(m, PeerMessage::Request { block: 1, offset: 16, length: 32 });
    assert_eq!(p.queue(), 1);
}

#[test]
fn seventh_request_is_refused_as_busy() {
    let mut p = peer_with_bits(vec![0xff]);
    for k in 0..6u32 {
        assert!(p.request(k, 0, 1).is_ok());
    }
    assert_eq!(p.queue(), 6);
    assert!(matches!(p.request(0, 0, 1), Err(PeerError::PeerIsBusy)));
    assert_eq!(p.queue(), 6);
}

#[test]
fn piece_undoes_the_count_of_a_request() {
    let mut p = peer_with_bits(vec![0xff]);
    p.request(3, 0, 2).unwrap();
    match p.handle(PeerMessage::Piece { block: 3, offset: 0, data: vec![1, 2] }) {
        Ok(Action::StorePiece { block, offset, data }) => {
            assert_eq!((block, offset, data), (3, 0, vec![1, 2]));
        }
        other => panic!("unexpected {:?}", other),
    }
    assert_eq!(p.queue(), 0);
    // an unrequested piece does not make the count negative
    assert!(p.handle(PeerMessage::Piece { block: 3, offset: 0, data: vec![] }).is_ok());
    assert_eq!(p.queue(), 0);
}

#[test]
fn keep_alive_is_answered() {
    let mut p = Peer::new();
    match p.handle(PeerMessage::KeepAlive) {
        Ok(Action::Reply(m)) => assert_eq!(m, PeerMessage::KeepAlive),
        other => panic!("unexpected {:?}", other),
    }
}

#[test]
fn choke_and_unchoke_set_the_local_state() {
    let mut p = Peer::new();
    assert!(matches!(p.handle(PeerMessage::Unchoke), Ok(Action::Nothing)));
    assert_eq!(p.state(), (PeerState::Unchocked, PeerState::Unchocked));
    assert!(matches!(p.handle(PeerMessage::Choke), Ok(Action::Nothing)));
    assert_eq!(p.state(), (PeerState::Chocked, PeerState::Unchocked));
}

#[test]
fn requests_are_served_only_when_unchoked() {
    let mut p = Peer::new();
    let req = PeerMessage::Request { block: 2, offset: 4, length: 8 };
    assert!(matches!(p.handle(req.clone()), Ok(Action::Nothing)));
    p.handle(PeerMessage::Unchoke).unwrap();
    match p.handle(req) {
        Ok(Action::FetchPiece { block, offset, length }) => assert_eq!((block, offset, length), (2, 4, 8)),
        other => panic!("unexpected {:?}", other),
    }
}

#[test]
fn have_marks_the_piece() {
    let mut p = peer_with_bits(vec![0, 0]);
    assert!(matches!(p.handle(PeerMessage::Have(9)), Ok(Action::Nothing)));
    assert_eq!(p.bitfield(), &vec![0, 0b0100_0000]);
    assert!(p.request(9, 0, 1).is_ok());
}

#[test]
fn have_beyond_the_bitfield_is_an_error() {
    let mut p = peer_with_bits(vec![0]);
    match p.handle(PeerMessage::Have(8)) {
        Err(PeerError::Bitfield(BitfieldError::IndexOutOfRange)) => {}
        other => panic!("unexpected {:?}", other),
    }
    assert_eq!(p.bitfield(), &vec![0]);
}

#[test]
fn other_messages_change_nothing() {
    let mut p = peer_with_bits(vec![0x80]);
    for m in [
        PeerMessage::Interested,
        PeerMessage::NotInterested,
        PeerMessage::Cancel { block: 0, offset: 0, length: 1 },
    ] {
        assert!(matches!(p.handle(m), Ok(Action::Nothing)));
    }
    assert_eq!(p.queue(), 0);
    assert_eq!(p.bitfield(), &vec![0x80]);
}

#[test]
fn interest_reply_compares_bitfields() {
    let p = peer_with_bits(vec![0b1010_0000]);
    assert_eq!(p.interest_reply(&[0b1000_0000]), PeerMessage::Interested);
    assert_eq!(p.interest_reply(&[0b1010_0000]), PeerMessage::NotInterested);
    assert_eq!(p.interest_reply(&[0xff]), PeerMessage::NotInterested);
    assert_eq!(p.interest_reply(&[0, 0]), PeerMessage::NotInterested);
}

#[test]
fn piece_reply_wraps_the_stored_block() {
    assert_eq!(Peer::piece_reply(1, 2, None), None);
    assert_eq!(
        Peer::piece_reply(1, 2, Some(vec![5, 6])),
        Some(PeerMessage::Piece { block: 1, offset: 2, data: vec![5, 6] })
    );
}

fn make_h1() -> Handshake {
    Handshake {
        protocol: "123456789012345678901234567890123".as_bytes().to_vec(),
        extentions: [b'e'; 8],
        info_hash: [b'i'; 20],
        peer_id: [b'p'; 20],
    }
}

fn make_h1_2() -> Handshake {
    Handshake {
        protocol: "bnakldsfygn askjfysnfgdfklsjdfshj".as_bytes().to_vec(),
        extentions: [b'x'; 8],
        info_hash: [b'i'; 20],
        peer_id: [b'z'; 20],
    }
}

fn make_h2() -> Handshake {
    Handshake { protocol: "12345".as_bytes().to_vec(), extentions: [1; 8], info_hash: [4; 20], peer_id: [2; 20] }
}

#[test]
fn test_connect_handshake_ok() {
    assert!(Peer::check_handshake(&make_h1_2(), &make_h1()).is_ok());
    assert!(Peer::check_handshake(&make_h1(), &make_h1_2()).is_ok());
}

#[test]
fn test_connect_handshake_err() {
    assert!(matches!(Peer::check_handshake(&make_h1(), &make_h2()), Err(PeerError::Handshake)));
    assert!(matches!(Peer::check_handshake(&make_h2(), &make_h1()), Err(PeerError::Handshake)));
}

#[test]
fn handshake_bytes_and_roundtrip() {
    let h = make_h2();
    let bytes = h.to_bytes();
    assert_eq!(bytes.len(), HANDSHAKE_DEFAULT_SIZE + 5);
    assert_eq!(bytes[0], 5);
    assert_eq!(&bytes[1..6], b"12345");
    assert_eq!(handshake_body_len(bytes[0]), bytes.len() - 1);
    assert_eq!(parse_handshake(&bytes[1..], bytes[0]), Some(h));
}

#[test]
fn short_handshake_is_refused() {
    let bytes = make_h1().to_bytes();
    assert_eq!(parse_handshake(&bytes[1..bytes.len() - 1], bytes[0]), None);
}

#[test]
fn peer_error_conversions() {
    let e: PeerError = BitfieldError::SizeMismatch.into();
    assert!(matches!(e, PeerError::Bitfield(BitfieldError::SizeMismatch)));
    let e: PeerError = std::io::Error::new(std::io::ErrorKind::Other, "x").into();
    assert!(matches!(e, PeerError::IoError(_)));
}

#[test]
fn error_texts() {
    assert_eq!(PeerError::Handshake.to_string(), "Handshake error");
    assert_eq!(PeerError::PeerIsBusy.to_string(), "Peer is busy");
    assert_eq!(PeerError::BlockNotFound.to_string(), "Block not found");
    assert_eq!(PeerError::Simple("gone".to_string()).to_string(), "gone");
    assert_eq!(
        PeerError::Bitfield(BitfieldError::IndexOutOfRange).to_string(),
        "Piece index out of bitfield range"
    );
    assert_eq!(BitfieldError::SizeMismatch.to_string(), "Bitfields differ in length");
    let io = std::io::Error::new(std::io::ErrorKind::Other, "broken pipe");
    assert_eq!(PeerError::IoError(io).to_string(), "broken pipe");
}

#[test]
fn piece_frees_a_slot_after_saturation() {
    let mut p = peer_with_bits(vec![0x80]);
    for _ in 0..10 {
        let _ = p.request(0, 0, 1);
    }
    assert_eq!(p.queue(), 6);
    p.handle(PeerMessage::Piece { block: 0, offset: 0, data: vec![] }).unwrap();
    assert!(p.request(0, 0, 1).is_ok());
}

#[test]
fn fresh_peer_answers_no_request_before_unchoke() {
    let mut p = Peer::new();
    for m in [PeerMessage::Interested, PeerMessage::Choke, PeerMessage::Bitfield(vec![0xff]), PeerMessage::Have(3)] {
        p.handle(m).unwrap();
    }
    assert!(matches!(p.handle(PeerMessage::Request { block: 0, offset: 0, length: 1 }), Ok(Action::Nothing)));
    p.handle(PeerMessage::Unchoke).unwrap();
    p.handle(PeerMessage::Have(4)).unwrap();
    assert!(matches!(
        p.handle(PeerMessage::Request { block: 0, offset: 0, length: 1 }),
        Ok(Action::FetchPiece { .. })
    ));
    assert_eq!(p.state().1, PeerState::Unchocked);
}
