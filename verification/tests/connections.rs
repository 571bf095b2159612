use torrent_peer::connection::Connection;
use torrent_peer::message::PeerMessage;
use torrent_peer::peer::{Action, Peer, PeerError};

fn peer_with_bits(bits: Vec<u8>) -> Peer {
    let mut p = Peer::new();
    p.handle(PeerMessage::Bitfield(bits)).unwrap();
    p
}

#[test]
fn new_connection_is_empty() {
    let c = Connection::new([3; 20]);
    assert_eq!(c.len(), 0);
    assert_eq!(c.info_hash(), [3; 20]);
    assert!(c.peer(&[1; 20]).is_none());
}

#[test]
fn add_peer_inserts_and_replaces() {
    let mut c = Connection::new([0; 20]);
    c.add_peer([1; 20], peer_with_bits(vec![0x80]));
    c.add_peer([2; 20], Peer::new());
    assert_eq!(c.len(), 2);
    assert_eq!(c.peer(&[1; 20]).unwrap().bitfield(), &vec![0x80]);
    c.add_peer([1; 20], peer_with_bits(vec![0x40]));
    assert_eq!(c.len(), 2);
    assert_eq!(c.peer(&[1; 20]).unwrap().bitfield(), &vec![0x40]);
    assert_eq!(c.position(&[2; 20]), Some(1));
}

#[test]
fn download_asks_the_first_peer_that_has_the_block() {
    let mut c = Connection::new([0; 20]);
    c.add_peer([1; 20], peer_with_bits(vec![0x00]));
    c.add_peer([2; 20], peer_with_bits(vec![0x80]));
    c.add_peer([3; 20], peer_with_bits(vec![0x80]));
    let (id, m) = c.download(0, 0, 16).unwrap();
    assert_eq!(id, [2; 20]);
    assert_eq!(m, PeerMessage::Request { block: 0, offset: 0, length: 16 });
    assert_eq!(c.peer(&[2; 20]).unwrap().queue(), 1);
    assert_eq!(c.peer(&[3; 20]).unwrap().queue(), 0);
}

#[test]
fn download_moves_on_when_a_peer_is_busy() {
    let mut c = Connection::new([0; 20]);
    c.add_peer([1; 20], peer_with_bits(vec![0x80]));
    c.add_peer([2; 20], peer_with_bits(vec![0x80]));
    for _ in 0..6 {
        assert_eq!(c.download(0, 0, 1).unwrap().0, [1; 20]);
    }
    assert_eq!(c.download(0, 0, 1).unwrap().0, [2; 20]);
}

#[test]
fn download_without_any_holder_fails() {
    let mut c = Connection::new([0; 20]);
    c.add_peer([1; 20], peer_with_bits(vec![0x00]));
    assert!(c.download(0, 0, 1).is_none());
    assert!(c.download(100, 0, 1).is_none());
    assert_eq!(c.peer(&[1; 20]).unwrap().queue(), 0);
}

#[test]
fn handle_routes_to_the_session() {
    let mut c = Connection::new([0; 20]);
    c.add_peer([1; 20], peer_with_bits(vec![0x80]));
    c.download(0, 0, 1).unwrap();
    match c.handle(&[1; 20], PeerMessage::Piece { block: 0, offset: 0, data: vec![1] }) {
        Some(Ok(Action::StorePiece { .. })) => {}
        other => panic!("unexpected {:?}", other),
    }
    assert_eq!(c.peer(&[1; 20]).unwrap().queue(), 0);
    assert!(c.handle(&[9; 20], PeerMessage::KeepAlive).is_none());
}

#[test]
fn request_routes_to_the_session_and_keeps_its_errors() {
    let mut c = Connection::new([0; 20]);
    c.add_peer([1; 20], peer_with_bits(vec![0x80]));
    assert_eq!(c.request(&[1; 20], 0, 0, 4).unwrap().unwrap(), PeerMessage::Request { block: 0, offset: 0, length: 4 });
    assert!(matches!(c.request(&[1; 20], 1, 0, 4), Some(Err(PeerError::BlockNotFound))));
    for _ in 0..5 {
        assert!(c.request(&[1; 20], 0, 0, 4).unwrap().is_ok());
    }
    assert!(matches!(c.request(&[1; 20], 0, 0, 4), Some(Err(PeerError::PeerIsBusy))));
    assert!(c.request(&[2; 20], 0, 0, 4).is_none());
}

#[test]
fn handle_returns_the_sessions_action() {
    let mut c = Connection::new([0; 20]);
    c.add_peer([1; 20], Peer::new());
    match c.handle(&[1; 20], PeerMessage::KeepAlive) {
        Some(Ok(Action::Reply(m))) => assert_eq!(m, PeerMessage::KeepAlive),
        other => panic!("unexpected {:?}", other),
    }
    assert!(matches!(c.handle(&[1; 20], PeerMessage::Bitfield(vec![0])), Some(Ok(Action::CompareBitfield))));
    assert!(matches!(
        c.handle(&[1; 20], PeerMessage::Have(8)),
        Some(Err(PeerError::Bitfield(_)))
    ));
}
