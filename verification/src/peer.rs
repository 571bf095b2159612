//! The state of a session with one remote peer and the decisions it takes:
//! which requests may be sent, and what each incoming message changes and
//! asks to be done.  The transport runs the loop: it hands each message to
//! [`Peer::handle`], performs the returned [`Action`], and sends replies.
use crate::bitfield::{
    add_bit, bit_mask, has_bit, has_nonzero, interest, lacks_some, BitfieldError,
};
use crate::message::{MessageView, PeerMessage};
use vstd::prelude::*;

verus! {

/// Makes `std::io::Error` known to the verifier as an opaque type, so that
/// [`PeerError`] can carry one; nothing is claimed of its values.
#[verifier::external_type_specification]
#[verifier::external_body]
pub struct ExIoError(std::io::Error);

/// The errors of a peer session.
#[derive(Debug)]
pub enum PeerError {
    IoError(std::io::Error),
    Simple(String),
    Handshake,
    PeerIsBusy,
    Bitfield(BitfieldError),
    BlockNotFound,
}

impl From<std::io::Error> for PeerError {
    fn from(e: std::io::Error) -> (r: Self)
        ensures
            r == PeerError::IoError(e),
    {
        PeerError::IoError(e)
    }
}

impl vstd::std_specs::convert::FromSpecImpl<std::io::Error> for PeerError {
    open spec fn obeys_from_spec() -> bool {
        true
    }

    open spec fn from_spec(e: std::io::Error) -> PeerError {
        PeerError::IoError(e)
    }
}

impl From<BitfieldError> for PeerError {
    fn from(e: BitfieldError) -> (r: Self)
        ensures
            r == PeerError::Bitfield(e),
    {
        PeerError::Bitfield(e)
    }
}

impl vstd::std_specs::convert::FromSpecImpl<BitfieldError> for PeerError {
    open spec fn obeys_from_spec() -> bool {
        true
    }

    open spec fn from_spec(e: BitfieldError) -> PeerError {
        PeerError::Bitfield(e)
    }
}

impl PeerError {
    /// The text of the error: that of the I/O error, the message of a
    /// `Simple` error, that of the bitfield error, or the fixed text of the
    /// other kinds.
    pub fn to_string(&self) -> (r: String)
        ensures
            self matches PeerError::IoError(e) ==> vstd::string::to_string_from_display_ensures::<
                std::io::Error,
            >(e, r),
            self matches PeerError::Simple(t) ==> r@ == t@,
            self is Handshake ==> r@ == "Handshake error"@,
            self is PeerIsBusy ==> r@ == "Peer is busy"@,
            self matches PeerError::Bitfield(e) ==> (e is IndexOutOfRange
                ==> r@ == "Piece index out of bitfield range"@) && (e is SizeMismatch
                ==> r@ == "Bitfields differ in length"@),
            self is BlockNotFound ==> r@ == "Block not found"@,
    {
        match self {
            PeerError::IoError(e) => e.to_string(),
            PeerError::Simple(t) => t.clone(),
            PeerError::Handshake => "Handshake error".to_owned(),
            PeerError::PeerIsBusy => "Peer is busy".to_owned(),
            PeerError::Bitfield(e) => e.to_string(),
            PeerError::BlockNotFound => "Block not found".to_owned(),
        }
    }
}

/// Whether a side of the session is choked.
#[derive(Debug, Clone, Copy, PartialEq, Eq, Structural)]
pub enum PeerState {
    Chocked,
    Unchocked,
}

/// Most requests that may wait for their piece at once, less one.
pub const MAX_QUEUE: u8 = 5;

/// What the transport is to do after a message was handled.
#[derive(Debug)]
pub enum Action {
    /// Nothing.
    Nothing,
    /// Send this message to the peer.
    Reply(PeerMessage),
    /// The peer announced its bitfield: compare it with the local one by
    /// [`Peer::interest_reply`] and send the reply.
    CompareBitfield,
    /// The peer asks for a block: fetch it from the local store and answer
    /// with [`Peer::piece_reply`].
    FetchPiece { block: u32, offset: u32, length: u32 },
    /// The peer sent a block: store it.
    StorePiece { block: u32, offset: u32, data: Vec<u8> },
}

/// The mathematical value of a [`Peer`].
pub struct PeerView {
    /// Requests sent whose piece has not arrived.
    pub queue: u8,
    /// The pieces the remote peer announced.
    pub bitfield: Seq<u8>,
    /// Whether the local side is choked by the remote one.
    pub me: PeerState,
    /// Whether the remote side is choked.
    pub remote: PeerState,
}

/// A session with one remote peer.
pub struct Peer {
    queue: u8,
    bitfield: Vec<u8>,
    state: (PeerState, PeerState),
}

impl View for Peer {
    type V = PeerView;

    closed spec fn view(&self) -> PeerView {
        PeerView { queue: self.queue, bitfield: self.bitfield@, me: self.state.0, remote: self.state.1 }
    }
}

/// Whether a request for `block` may be sent.
pub open spec fn request_ok(v: PeerView, block: u32) -> bool {
    has_bit(v.bitfield, block as int) && v.queue <= MAX_QUEUE
}

/// The session after a request for `block`.
pub open spec fn after_request(v: PeerView, block: u32) -> PeerView {
    if request_ok(v, block) {
        PeerView { queue: (v.queue + 1) as u8, ..v }
    } else {
        v
    }
}

/// The session after message `m` has been handled.
pub open spec fn after_message(v: PeerView, m: MessageView) -> PeerView {
    match m {
        MessageView::Choke => PeerView { me: PeerState::Chocked, ..v },
        MessageView::Unchoke => PeerView { me: PeerState::Unchocked, ..v },
        MessageView::Have(i) => if (i as int) < 8 * v.bitfield.len() {
            PeerView {
                bitfield: v.bitfield.update(
                    i as int / 8,
                    v.bitfield[i as int / 8] | bit_mask(i as int % 8),
                ),
                ..v
            }
        } else {
            v
        },
        MessageView::Bitfield(b) => PeerView { bitfield: b, ..v },
        MessageView::Piece { .. } => PeerView {
            queue: if v.queue > 0 {
                (v.queue - 1) as u8
            } else {
                0
            },
            ..v
        },
        _ => v,
    }
}


/// What a request for `length` bytes at `offset` of `block` answers in
/// session `v`: `BlockNotFound` when the peer lacks the block, else
/// `PeerIsBusy` when more than five requests wait, else the request message.
pub open spec fn request_outcome(
    v: PeerView,
    block: u32,
    offset: u32,
    length: u32,
    r: Result<PeerMessage, PeerError>,
) -> bool {
    &&& !has_bit(v.bitfield, block as int) ==> (r matches Err(PeerError::BlockNotFound))
    &&& has_bit(v.bitfield, block as int) && v.queue > MAX_QUEUE ==> (r matches Err(
        PeerError::PeerIsBusy,
    ))
    &&& request_ok(v, block) ==> (r matches Ok(m) && m@ == (MessageView::Request {
        block,
        offset,
        length,
    }))
}

/// What handling `msg` in session `v` answers: an error exactly for a `Have`
/// beyond the peer's bitfield; a keep-alive in reply to a keep-alive; a
/// bitfield comparison for a bitfield; a fetch for a request when both sides
/// are unchoked, nothing otherwise; a store for a piece; nothing else.
pub open spec fn handle_outcome(v: PeerView, msg: PeerMessage, r: Result<Action, PeerError>) -> bool {
    &&& (r is Err <==> (msg matches PeerMessage::Have(i) && 8 * v.bitfield.len() <= i))
    &&& r is Err ==> (r matches Err(PeerError::Bitfield(BitfieldError::IndexOutOfRange)))
    &&& msg is KeepAlive ==> (r matches Ok(Action::Reply(m)) && m@ == MessageView::KeepAlive)
    &&& msg is Choke || msg is Unchoke || msg is Interested || msg is NotInterested || msg is Have
        || msg is Cancel ==> (r matches Ok(Action::Nothing) || r is Err)
    &&& msg is Bitfield ==> (r matches Ok(Action::CompareBitfield))
    &&& msg matches PeerMessage::Request { block, offset, length } ==> if v.me
        == PeerState::Unchocked && v.remote == PeerState::Unchocked {
        r == Ok::<Action, PeerError>(Action::FetchPiece { block, offset, length })
    } else {
        (r matches Ok(Action::Nothing))
    }
    &&& msg matches PeerMessage::Piece { block, offset, data } ==> (r matches Ok(
        Action::StorePiece { block: b, offset: o, data: d },
    ) && b == block && o == offset && d@ == data@)
}

/// The reply to a remote bitfield: interest exactly when the remote peer
/// holds a piece that the local one lacks.
pub open spec fn spec_interest_reply(local: Seq<u8>, remote: Seq<u8>) -> MessageView {
    if local.len() == remote.len() && lacks_some(local, remote) {
        MessageView::Interested
    } else {
        MessageView::NotInterested
    }
}


/// No sequence of requests and messages lets more than six requests wait:
/// every step keeps the waiting count at most six.
pub proof fn lemma_queue_bounded(v: PeerView, block: u32, m: MessageView)
    requires
        v.queue <= MAX_QUEUE + 1,
    ensures
        after_request(v, block).queue <= MAX_QUEUE + 1,
        after_message(v, m).queue <= MAX_QUEUE + 1,
{
}

/// The piece that answers a request undoes the request's count: a granted
/// request followed by an incoming piece leaves the session as it was.
pub proof fn lemma_piece_undoes_request(v: PeerView, block: u32, offset: u32, data: Seq<u8>)
    requires
        request_ok(v, block),
    ensures
        after_message(after_request(v, block), MessageView::Piece { block, offset, data }) == v,
{
}

/// A `Have` for a piece within the bitfield marks that piece and no other.
pub proof fn lemma_have_marks_piece(v: PeerView, i: u32)
    requires
        (i as int) < 8 * v.bitfield.len(),
    ensures
        forall|j: int|
            #![trigger has_bit(after_message(v, MessageView::Have(i)).bitfield, j)]
            has_bit(after_message(v, MessageView::Have(i)).bitfield, j) == (j == i as int
                || has_bit(v.bitfield, j)),
{
    let b = v.bitfield;
    let k = i as int / 8;
    let r = (i as int % 8) as u8;
    let nb = after_message(v, MessageView::Have(i)).bitfield;
    assert forall|j: int|
        #![trigger has_bit(nb, j)]
        has_bit(nb, j) == (j == i as int || has_bit(b, j)) by {
        if 0 <= j < 8 * b.len() && j / 8 == k {
            crate::bitfield::lemma_mask_or(b[k], r, (j % 8) as u8);
        }
    }
}

/// Once the peer has announced a bitfield, a request for a block is granted
/// exactly when that bitfield holds the block and at most five requests wait.
pub proof fn lemma_request_after_bitfield(v: PeerView, b: Seq<u8>, block: u32)
    ensures
        request_ok(after_message(v, MessageView::Bitfield(b)), block) == (has_bit(b, block as int)
            && v.queue <= MAX_QUEUE),
{
}

/// Choking and unchoking set the local side's state and change nothing else.
pub proof fn lemma_choke_unchoke(v: PeerView)
    ensures
        after_message(v, MessageView::Choke) == (PeerView { me: PeerState::Chocked, ..v }),
        after_message(v, MessageView::Unchoke) == (PeerView { me: PeerState::Unchocked, ..v }),
        after_message(after_message(v, MessageView::Choke), MessageView::Unchoke)
            == after_message(v, MessageView::Unchoke),
{
}

/// Messages that only ask for a reply or for nothing (keep-alive, interest,
/// cancel, and a request of the peer) leave the session exactly as it was:
/// the peer's bitfield, the waiting count and both choke states.
pub proof fn lemma_passive_messages_keep_session(
    v: PeerView,
    block: u32,
    offset: u32,
    length: u32,
)
    ensures
        after_message(v, MessageView::KeepAlive) == v,
        after_message(v, MessageView::Interested) == v,
        after_message(v, MessageView::NotInterested) == v,
        after_message(v, MessageView::Cancel { block, offset, length }) == v,
        after_message(v, MessageView::Request { block, offset, length }) == v,
{
}

/// The reply to the peer's bitfield is `Interested` exactly when both
/// bitfields have the same length and some piece, anywhere in them, is
/// marked in the peer's bitfield and not in the local one; otherwise it is
/// `NotInterested`.
pub proof fn lemma_interest_reply_law(local: Seq<u8>, remote: Seq<u8>)
    ensures
        spec_interest_reply(local, remote) == MessageView::Interested
            || spec_interest_reply(local, remote) == MessageView::NotInterested,
        (spec_interest_reply(local, remote) == MessageView::Interested) == (local.len()
            == remote.len() && exists|i: int|
            0 <= i < 8 * remote.len() && #[trigger] has_bit(remote, i) && !has_bit(local, i)),
{
    if local.len() == remote.len() && exists|i: int|
        0 <= i < 8 * remote.len() && #[trigger] has_bit(remote, i) && !has_bit(local, i) {
        let i = choose|i: int| 0 <= i < 8 * remote.len() && #[trigger] has_bit(remote, i) && !has_bit(local, i);
        assert(lacks_some(local, remote));
    }
}

/// Each kind of message changes only its own part of the session: a
/// bitfield replaces the peer's bitfield and nothing else; a piece lowers
/// the waiting count by one, never below zero, and nothing else; a `Have`
/// within the bitfield marks that piece, keeps the bitfield's length, and
/// touches neither count nor choke states; choke and unchoke set only the
/// local choke state.
pub proof fn lemma_message_effects(v: PeerView, m: MessageView)
    ensures
        m matches MessageView::Bitfield(b) ==> after_message(v, m) == (PeerView {
            bitfield: b,
            ..v
        }),
        m is Piece ==> after_message(v, m).queue == (if v.queue == 0 {
            0
        } else {
            v.queue - 1
        }) && after_message(v, m).bitfield == v.bitfield && after_message(v, m).me == v.me
            && after_message(v, m).remote == v.remote,
        m matches MessageView::Have(i) ==> after_message(v, m).queue == v.queue && after_message(
            v,
            m,
        ).me == v.me && after_message(v, m).remote == v.remote && after_message(
            v,
            m,
        ).bitfield.len() == v.bitfield.len(),
        m matches MessageView::Have(i) ==> ((i as int) < 8 * v.bitfield.len() ==> has_bit(
            after_message(v, m).bitfield,
            i as int,
        )),
        m matches MessageView::Have(i) ==> ((i as int) >= 8 * v.bitfield.len() ==> after_message(
            v,
            m,
        ) == v),
        m is Choke ==> after_message(v, m).me == PeerState::Chocked,
        m is Unchoke ==> after_message(v, m).me == PeerState::Unchocked,
        m is Choke || m is Unchoke ==> after_message(v, m).queue == v.queue && after_message(
            v,
            m,
        ).bitfield == v.bitfield && after_message(v, m).remote == v.remote,
{
    if let MessageView::Have(i) = m {
        if (i as int) < 8 * v.bitfield.len() {
            lemma_have_marks_piece(v, i);
        }
    }
}

/// From an empty queue, of requests for a block the peer holds the first
/// six are granted and the seventh is refused.
pub proof fn lemma_six_requests_granted(v: PeerView, block: u32)
    requires
        has_bit(v.bitfield, block as int),
        v.queue == 0,
    ensures
        forall|n: nat| n < 6 ==> request_ok(#[trigger] after_requests(v, block, n), block),
        !request_ok(after_requests(v, block, 6), block),
        after_requests(v, block, 6).queue == 6,
{
    assert forall|n: nat| n < 6 implies request_ok(#[trigger] after_requests(v, block, n), block) by {
        lemma_requests_saturate(v, block, n);
    }
    lemma_requests_saturate(v, block, 6);
}

/// The session after `n` requests for `block`, one after the other.
pub open spec fn after_requests(v: PeerView, block: u32, n: nat) -> PeerView
    decreases n,
{
    if n == 0 {
        v
    } else {
        after_request(after_requests(v, block, (n - 1) as nat), block)
    }
}

/// The session after the messages of `ms`, in order.
pub open spec fn after_messages(v: PeerView, ms: Seq<MessageView>) -> PeerView
    decreases ms.len(),
{
    if ms.len() == 0 {
        v
    } else {
        after_messages(after_message(v, ms[0]), ms.drop_first())
    }
}

/// Of successive requests for a block the peer holds, with no piece arriving
/// in between, request `n` (counting from 0) is granted exactly when fewer
/// than six requests wait before it: from an empty queue the first six are
/// granted and every later one is refused as busy.  The waiting count after
/// `n` requests is the smaller of the start count plus `n` and six.
pub proof fn lemma_requests_saturate(v: PeerView, block: u32, n: nat)
    requires
        has_bit(v.bitfield, block as int),
        v.queue <= MAX_QUEUE + 1,
    ensures
        request_ok(after_requests(v, block, n), block) <==> v.queue + n <= MAX_QUEUE,
        after_requests(v, block, n).queue == if v.queue + n <= MAX_QUEUE + 1 {
            v.queue + n
        } else {
            MAX_QUEUE + 1
        },
        after_requests(v, block, n).bitfield == v.bitfield,
        after_requests(v, block, n).me == v.me,
        after_requests(v, block, n).remote == v.remote,
    decreases n,
{
    if n > 0 {
        lemma_requests_saturate(v, block, (n - 1) as nat);
    }
}

/// After any number of requests, a piece that arrives frees a slot: the next
/// request for a block the peer holds is granted.
pub proof fn lemma_piece_frees_slot(v: PeerView, block: u32, n: nat, offset: u32, data: Seq<u8>)
    requires
        has_bit(v.bitfield, block as int),
        v.queue <= MAX_QUEUE + 1,
    ensures
        request_ok(
            after_message(
                after_requests(v, block, n),
                MessageView::Piece { block, offset, data },
            ),
            block,
        ),
{
    lemma_requests_saturate(v, block, n);
}

/// No message changes whether the remote side is choked.
pub proof fn lemma_remote_state_kept(v: PeerView, ms: Seq<MessageView>)
    ensures
        after_messages(v, ms).remote == v.remote,
    decreases ms.len(),
{
    if ms.len() > 0 {
        lemma_remote_state_kept(after_message(v, ms[0]), ms.drop_first());
    }
}

/// A choked local side stays choked until an `Unchoke` arrives: while it
/// is, every request of the peer is answered with nothing.
pub proof fn lemma_choked_until_unchoke(v: PeerView, ms: Seq<MessageView>)
    requires
        v.me == PeerState::Chocked,
        forall|i: int| 0 <= i < ms.len() ==> !(#[trigger] ms[i] is Unchoke),
    ensures
        after_messages(v, ms).me == PeerState::Chocked,
    decreases ms.len(),
{
    if ms.len() > 0 {
        assert(!(ms[0] is Unchoke));
        assert forall|i: int| 0 <= i < ms.drop_first().len() implies !(
        #[trigger] ms.drop_first()[i] is Unchoke) by {
            assert(ms.drop_first()[i] == ms[i + 1]);
        }
        lemma_choked_until_unchoke(after_message(v, ms[0]), ms.drop_first());
    }
}

/// An unchoked local side stays unchoked until a `Choke` arrives: while it
/// is and the remote side is unchoked, every request of the peer is answered
/// from the local store.
pub proof fn lemma_unchoked_until_choke(v: PeerView, ms: Seq<MessageView>)
    requires
        v.me == PeerState::Unchocked,
        forall|i: int| 0 <= i < ms.len() ==> !(#[trigger] ms[i] is Choke),
    ensures
        after_messages(v, ms).me == PeerState::Unchocked,
    decreases ms.len(),
{
    if ms.len() > 0 {
        assert(!(ms[0] is Choke));
        assert forall|i: int| 0 <= i < ms.drop_first().len() implies !(
        #[trigger] ms.drop_first()[i] is Choke) by {
            assert(ms.drop_first()[i] == ms[i + 1]);
        }
        lemma_unchoked_until_choke(after_message(v, ms[0]), ms.drop_first());
    }
}

/// A fresh session answers no request of the peer before an `Unchoke`:
/// whatever other messages came first, the local side is still choked.
pub proof fn lemma_fresh_session_choked(v: PeerView, ms: Seq<MessageView>)
    requires
        v.queue == 0,
        v.bitfield == Seq::<u8>::empty(),
        v.me == PeerState::Chocked,
        v.remote == PeerState::Unchocked,
        forall|i: int| 0 <= i < ms.len() ==> !(#[trigger] ms[i] is Unchoke),
    ensures
        after_messages(v, ms).me == PeerState::Chocked,
        !(after_messages(v, ms).me == PeerState::Unchocked && after_messages(v, ms).remote
            == PeerState::Unchocked),
{
    lemma_choked_until_unchoke(v, ms);
}

impl Peer {
    /// A fresh session: nothing requested, no piece known of the peer, the
    /// local side choked and the remote one not.
    pub fn new() -> (r: Self)
        ensures
            r@.queue == 0,
            r@.bitfield == Seq::<u8>::empty(),
            r@.me == PeerState::Chocked,
            r@.remote == PeerState::Unchocked,
    {
        Peer { queue: 0, bitfield: Vec::new(), state: (PeerState::Chocked, PeerState::Unchocked) }
    }

    /// Requests sent whose piece has not arrived.
    pub fn queue(&self) -> (r: u8)
        ensures
            r == self@.queue,
    {
        self.queue
    }

    /// The pieces the remote peer announced.
    pub fn bitfield(&self) -> (r: &Vec<u8>)
        ensures
            r@ == self@.bitfield,
    {
        &self.bitfield
    }

    /// Whether the local side is choked and whether the remote one is.
    pub fn state(&self) -> (r: (PeerState, PeerState))
        ensures
            r == (self@.me, self@.remote),
    {
        self.state
    }

    /// Asks for `length` bytes at `offset` of piece `block`.  Fails when the
    /// peer does not hold the piece, or when more than five requests wait;
    /// otherwise counts the request and returns the message to send.
    pub fn request(&mut self, block: u32, offset: u32, length: u32) -> (r: Result<
        PeerMessage,
        PeerError,
    >)
        ensures
            final(self)@ == after_request(old(self)@, block),
            request_outcome(old(self)@, block, offset, length, r),
    {
        if !crate::bitfield::have_bit(self.bitfield.as_slice(), block) {
            return Err(PeerError::BlockNotFound);
        }
        if self.queue > MAX_QUEUE {
            Err(PeerError::PeerIsBusy)
        } else {
            self.queue = self.queue + 1;
            Ok(PeerMessage::Request { block, offset, length })
        }
    }

    /// Handles a message from the peer: updates the session and says what is
    /// to be done.  Fails, leaving the session as it was, when a `Have`
    /// names a piece beyond the peer's bitfield.
    pub fn handle(&mut self, msg: PeerMessage) -> (r: Result<Action, PeerError>)
        requires
            !(msg is Port),
        ensures
            r is Ok ==> final(self)@ == after_message(old(self)@, msg@),
            r is Err ==> final(self)@ == old(self)@,
            handle_outcome(old(self)@, msg, r),
            msg is KeepAlive || msg is Interested || msg is NotInterested || msg is Cancel
                || msg is Request ==> final(self)@ == old(self)@,
    {
        match msg {
            PeerMessage::KeepAlive => Ok(Action::Reply(PeerMessage::KeepAlive)),
            PeerMessage::Choke => {
                self.state.0 = PeerState::Chocked;
                Ok(Action::Nothing)
            },
            PeerMessage::Unchoke => {
                self.state.0 = PeerState::Unchocked;
                Ok(Action::Nothing)
            },
            PeerMessage::Interested => Ok(Action::Nothing),
            PeerMessage::NotInterested => Ok(Action::Nothing),
            PeerMessage::Have(bit) => match add_bit(&mut self.bitfield, bit) {
                Ok(()) => Ok(Action::Nothing),
                Err(e) => Err(PeerError::Bitfield(e)),
            },
            PeerMessage::Bitfield(bitfield) => {
                self.bitfield = bitfield;
                Ok(Action::CompareBitfield)
            },
            PeerMessage::Request { block, offset, length } => {
                let (me, remote) = self.state;
                if me == PeerState::Unchocked && remote == PeerState::Unchocked {
                    Ok(Action::FetchPiece { block, offset, length })
                } else {
                    Ok(Action::Nothing)
                }
            },
            PeerMessage::Piece { block, offset, data } => {
                self.queue = if self.queue > 0 {
                    self.queue - 1
                } else {
                    0
                };
                Ok(Action::StorePiece { block, offset, data })
            },
            PeerMessage::Cancel { .. } => Ok(Action::Nothing),
            PeerMessage::Port(_) => Ok(Action::Nothing),
        }
    }

    /// The reply to the peer's bitfield given the local one: `Interested`
    /// when the peer holds a piece the local side lacks, `NotInterested`
    /// otherwise, and also when the two bitfields differ in length.
    pub fn interest_reply(&self, local: &[u8]) -> (r: PeerMessage)
        ensures
            r@ == spec_interest_reply(local@, self@.bitfield),
    {
        match interest(local, self.bitfield.as_slice()) {
            Ok(v) => {
                proof {
                    crate::bitfield::lemma_interest_nonzero(local@, self@.bitfield);
                }
                if has_nonzero(v.as_slice()) {
                    PeerMessage::Interested
                } else {
                    PeerMessage::NotInterested
                }
            },
            Err(_) => PeerMessage::NotInterested,
        }
    }

    /// The answer to a request for `offset` of piece `block`, given what the
    /// local store returned for it: the piece, or nothing when it had none.
    pub fn piece_reply(block: u32, offset: u32, data: Option<Vec<u8>>) -> (r: Option<PeerMessage>)
        ensures
            data is None ==> r is None,
            data matches Some(d) ==> (r matches Some(m) && m@ == (MessageView::Piece {
                block,
                offset,
                data: d@,
            })),
    {
        match data {
            Some(data) => Some(PeerMessage::Piece { block, offset, data }),
            None => None,
        }
    }
}

} // verus!
