//! The handshake that opens a peer session: the protocol name, prefixed by
//! its length, then 8 reserved extension bytes, the 20-byte info hash and
//! the 20-byte peer id.
use crate::peer::{Peer, PeerError};
use vstd::prelude::*;

verus! {

/// Length of a handshake whose protocol name is empty.
pub const HANDSHAKE_DEFAULT_SIZE: usize = 49;

/// The opening message of a peer session.
#[derive(Debug, Clone, PartialEq, Eq)]
pub struct Handshake {
    pub protocol: Vec<u8>,
    pub extentions: [u8; 8],
    pub info_hash: [u8; 20],
    pub peer_id: [u8; 20],
}

/// The mathematical value of a [`Handshake`].
pub struct HandshakeView {
    pub protocol: Seq<u8>,
    pub extentions: Seq<u8>,
    pub info_hash: Seq<u8>,
    pub peer_id: Seq<u8>,
}

impl View for Handshake {
    type V = HandshakeView;

    open spec fn view(&self) -> HandshakeView {
        HandshakeView {
            protocol: self.protocol@,
            extentions: self.extentions@,
            info_hash: self.info_hash@,
            peer_id: self.peer_id@,
        }
    }
}

/// The view of an optional handshake.
pub open spec fn opt_handshake_view(h: Option<Handshake>) -> Option<HandshakeView> {
    match h {
        Option::Some(h) => Option::Some(h@),
        Option::None => Option::None,
    }
}

/// The bytes that follow the length byte of a handshake.
pub open spec fn spec_handshake_body(h: HandshakeView) -> Seq<u8> {
    h.protocol + h.extentions + h.info_hash + h.peer_id
}

/// The bytes of a handshake: the protocol name's length, then the body.
pub open spec fn spec_handshake_bytes(h: HandshakeView) -> Seq<u8> {
    seq![h.protocol.len() as u8] + spec_handshake_body(h)
}

/// How many body bytes follow a length byte of `protocol_size`.
pub open spec fn spec_body_len(protocol_size: u8) -> nat {
    (HANDSHAKE_DEFAULT_SIZE - 1 + protocol_size) as nat
}

/// The handshake at the start of `body`, read after a length byte of
/// `protocol_size`, when `body` is long enough.
pub open spec fn spec_parse_handshake(body: Seq<u8>, protocol_size: u8) -> Option<HandshakeView> {
    let p = protocol_size as int;
    if body.len() < spec_body_len(protocol_size) {
        Option::None
    } else {
        Option::Some(
            HandshakeView {
                protocol: body.subrange(0, p),
                extentions: body.subrange(p, p + 8),
                info_hash: body.subrange(p + 8, p + 28),
                peer_id: body.subrange(p + 28, p + 48),
            },
        )
    }
}

/// How many bytes to read after a handshake's length byte.
pub fn handshake_body_len(protocol_size: u8) -> (r: usize)
    ensures
        r == spec_body_len(protocol_size),
{
    HANDSHAKE_DEFAULT_SIZE - 1 + protocol_size as usize
}

fn copy_8(src: &[u8], at: usize) -> (r: [u8; 8])
    requires
        at + 8 <= src@.len(),
    ensures
        r@ == src@.subrange(at as int, at + 8),
{
    let mut a = [0u8; 8];
    let n = src.len();
    let mut i: usize = 0;
    while i < 8
        invariant
            n == src@.len(),
            i <= 8,
            at + 8 <= src@.len(),
            a@.len() == 8,
            forall|j: int| 0 <= j < i ==> a@[j] == src@[at + j],
        decreases 8 - i,
    {
        a[i] = src[at + i];
        i = i + 1;
    }
    assert(a@ =~= src@.subrange(at as int, at + 8));
    a
}

fn copy_20(src: &[u8], at: usize) -> (r: [u8; 20])
    requires
        at + 20 <= src@.len(),
    ensures
        r@ == src@.subrange(at as int, at + 20),
{
    let mut a = [0u8; 20];
    let n = src.len();
    let mut i: usize = 0;
    while i < 20
        invariant
            n == src@.len(),
            i <= 20,
            at + 20 <= src@.len(),
            a@.len() == 20,
            forall|j: int| 0 <= j < i ==> a@[j] == src@[at + j],
        decreases 20 - i,
    {
        a[i] = src[at + i];
        i = i + 1;
    }
    assert(a@ =~= src@.subrange(at as int, at + 20));
    a
}

/// Reads the handshake at the start of `body`, the bytes that follow a
/// length byte of `protocol_size`; `None` exactly when `body` is too short.
pub fn parse_handshake(body: &[u8], protocol_size: u8) -> (r: Option<Handshake>)
    ensures
        opt_handshake_view(r) == spec_parse_handshake(body@, protocol_size),
{
    let p = protocol_size as usize;
    if body.len() < handshake_body_len(protocol_size) {
        return None;
    }
    let mut protocol: Vec<u8> = Vec::new();
    crate::message::push_bytes(&mut protocol, vstd::slice::slice_subrange(body, 0, p));
    let extentions = copy_8(body, p);
    let info_hash = copy_20(body, p + 8);
    let peer_id = copy_20(body, p + 28);
    Some(Handshake { protocol, extentions, info_hash, peer_id })
}

/// Whether both handshakes announce the same torrent.
pub open spec fn spec_validate(a: HandshakeView, b: HandshakeView) -> bool {
    a.info_hash == b.info_hash
}

impl Handshake {
    /// The bytes of this handshake.
    pub fn to_bytes(&self) -> (r: Vec<u8>)
        requires
            self.protocol@.len() <= 255,
        ensures
            r@ == spec_handshake_bytes(self@),
    {
        let mut out: Vec<u8> = Vec::new();
        out.push(self.protocol.len() as u8);
        crate::message::push_bytes(&mut out, self.protocol.as_slice());
        crate::message::push_bytes(&mut out, self.extentions.as_slice());
        crate::message::push_bytes(&mut out, self.info_hash.as_slice());
        crate::message::push_bytes(&mut out, self.peer_id.as_slice());
        assert(out@ =~= spec_handshake_bytes(self@));
        out
    }

    /// Whether `other` announces the same torrent as this handshake: the
    /// info hashes agree.  Protocol name, extensions and peer id may differ.
    pub fn validate(&self, other: &Handshake) -> (r: bool)
        ensures
            r == spec_validate(self@, other@),
    {
        let mut i: usize = 0;
        while i < 20
            invariant
                i <= 20,
                self.info_hash@.len() == 20,
                other.info_hash@.len() == 20,
                forall|j: int| 0 <= j < i ==> self.info_hash@[j] == other.info_hash@[j],
            decreases 20 - i,
        {
            if self.info_hash[i] != other.info_hash[i] {
                return false;
            }
            i = i + 1;
        }
        assert(self.info_hash@ =~= other.info_hash@);
        true
    }
}

/// The bytes of a handshake, read back after its length byte, give the
/// handshake.
pub proof fn lemma_handshake_roundtrip(h: HandshakeView)
    requires
        h.protocol.len() <= 255,
        h.extentions.len() == 8,
        h.info_hash.len() == 20,
        h.peer_id.len() == 20,
    ensures
        ({
            let b = spec_handshake_bytes(h);
            &&& b[0] == h.protocol.len()
            &&& spec_parse_handshake(b.subrange(1, b.len() as int), b[0]) == Option::Some(h)
        }),
{
    let b = spec_handshake_bytes(h);
    let body = b.subrange(1, b.len() as int);
    let p = h.protocol.len() as int;
    assert(body =~= spec_handshake_body(h));
    assert(body.subrange(0, p) =~= h.protocol);
    assert(body.subrange(p, p + 8) =~= h.extentions);
    assert(body.subrange(p + 8, p + 28) =~= h.info_hash);
    assert(body.subrange(p + 28, p + 48) =~= h.peer_id);
}

/// The layout of a handshake: the protocol name's length in one byte, the
/// name, the 8 extension bytes, the 20-byte info hash, then the 20-byte peer
/// id, `HANDSHAKE_DEFAULT_SIZE` bytes plus the name's length in all.
pub proof fn lemma_handshake_layout(h: HandshakeView)
    requires
        h.protocol.len() <= 255,
        h.extentions.len() == 8,
        h.info_hash.len() == 20,
        h.peer_id.len() == 20,
    ensures
        ({
            let b = spec_handshake_bytes(h);
            let p = h.protocol.len() as int;
            &&& b.len() == HANDSHAKE_DEFAULT_SIZE + p
            &&& b[0] as int == p
            &&& b.subrange(1, 1 + p) == h.protocol
            &&& b.subrange(1 + p, 9 + p) == h.extentions
            &&& b.subrange(9 + p, 29 + p) == h.info_hash
            &&& b.subrange(29 + p, 49 + p) == h.peer_id
        }),
{
    let b = spec_handshake_bytes(h);
    let p = h.protocol.len() as int;
    assert(b.subrange(1, 1 + p) =~= h.protocol);
    assert(b.subrange(1 + p, 9 + p) =~= h.extentions);
    assert(b.subrange(9 + p, 29 + p) =~= h.info_hash);
    assert(b.subrange(29 + p, 49 + p) =~= h.peer_id);
}

/// Reading a handshake body takes the protocol name from its first
/// `protocol_size` bytes, the extensions from the next 8, the info hash from
/// the 20 after those and the peer id from the 20 after that; it fails
/// exactly when the body is shorter than that.
pub proof fn lemma_parse_handshake_layout(body: Seq<u8>, protocol_size: u8)
    ensures
        ({
            let p = protocol_size as int;
            &&& spec_parse_handshake(body, protocol_size) is None <==> body.len() < p + 48
            &&& spec_parse_handshake(body, protocol_size) matches Option::Some(h) ==> {
                &&& h.protocol == body.subrange(0, p)
                &&& h.extentions == body.subrange(p, p + 8)
                &&& h.info_hash == body.subrange(p + 8, p + 28)
                &&& h.peer_id == body.subrange(p + 28, p + 48)
            }
        }),
{
}

/// A response is accepted exactly when its info hash equals the local one
/// byte for byte, whatever the protocol names, extensions and peer ids.
pub proof fn lemma_validate_law(a: HandshakeView, b: HandshakeView, a2: HandshakeView, b2: HandshakeView)
    requires
        a.info_hash.len() == 20,
        b.info_hash.len() == 20,
        a2.info_hash == a.info_hash,
        b2.info_hash == b.info_hash,
    ensures
        spec_validate(a, b) == (forall|j: int| 0 <= j < 20 ==> a.info_hash[j] == b.info_hash[j]),
        spec_validate(a, b) == spec_validate(a2, b2),
{
    if forall|j: int| 0 <= j < 20 ==> a.info_hash[j] == b.info_hash[j] {
        assert(a.info_hash =~= b.info_hash);
    }
}

/// Validation is an equivalence: every handshake validates itself, and two
/// handshakes validate each other or neither.
pub proof fn lemma_validate_equivalence(a: HandshakeView, b: HandshakeView, c: HandshakeView)
    ensures
        spec_validate(a, a),
        spec_validate(a, b) == spec_validate(b, a),
        spec_validate(a, b) && spec_validate(b, c) ==> spec_validate(a, c),
{
}

impl Peer {
    /// The result of a handshake exchange: the peer's response must announce
    /// the same torrent as the local handshake.
    pub fn check_handshake(mine: &Handshake, response: &Handshake) -> (r: Result<(), PeerError>)
        ensures
            r is Ok <==> spec_validate(mine@, response@),
            r is Err ==> r matches Err(PeerError::Handshake),
    {
        if !mine.validate(response) {
            return Err(PeerError::Handshake);
        }
        Ok(())
    }
}

} // verus!
