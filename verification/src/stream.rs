//! Reading frames: the decisions of a message stream.  The transport owns the
//! reader; for each poll it reads at most [`MessageStream::read_len`] bytes
//! and hands what it read to [`MessageStream::on_read`], which says whether a
//! message is complete.
use crate::message::{
    be_u32_value, encodable, opt_view, parse_message, parse_u32, spec_encode, spec_parse_payload,
    spec_payload, MessageView, PeerMessage, SIZE_BYTES,
};
use vstd::prelude::*;

verus! {

/// The progress of a transfer: idle, or busy with a buffer of which the
/// bytes before the cursor are done.
pub enum State<T> {
    Done,
    Busy(T, usize),
}

/// What a read brought about.
#[derive(Debug)]
pub enum ReadOutcome {
    /// The length prefix is complete: read again right away.
    Again,
    /// Part of a frame was read: wait for more.
    Pending,
    /// A frame is complete and holds this message.
    Message(PeerMessage),
    /// A frame is complete but its payload is not a message.
    Malformed,
}

/// The mathematical value of a [`ReadOutcome`].
pub enum OutcomeView {
    Again,
    Pending,
    Message(MessageView),
    Malformed,
}

pub open spec fn outcome_view(o: ReadOutcome) -> OutcomeView {
    match o {
        ReadOutcome::Again => OutcomeView::Again,
        ReadOutcome::Pending => OutcomeView::Pending,
        ReadOutcome::Message(m) => OutcomeView::Message(m@),
        ReadOutcome::Malformed => OutcomeView::Malformed,
    }
}

/// `n` zero bytes.
pub open spec fn zeros(n: nat) -> Seq<u8> {
    Seq::new(n, |i: int| 0u8)
}

/// A state is consistent when its cursor lies within its buffer.
pub open spec fn stream_wf(s: State<Seq<u8>>) -> bool {
    match s {
        State::Done => true,
        State::Busy(b, c) => c <= b.len(),
    }
}

/// How many bytes the next read may bring: the length prefix when idle,
/// else the rest of the buffer.
pub open spec fn spec_read_len(s: State<Seq<u8>>) -> nat {
    match s {
        State::Done => SIZE_BYTES as nat,
        State::Busy(b, c) => (b.len() - c) as nat,
    }
}

/// The state and outcome after `data` was read in state `s`.
///
/// When idle, a complete length prefix starts a buffer of that many zero
/// bytes; a shorter read keeps the prefix bytes read so far as the buffer,
/// with the cursor after them.  When busy, the bytes are written at the
/// cursor; once the buffer is full its payload is parsed.
pub open spec fn spec_on_read(s: State<Seq<u8>>, data: Seq<u8>) -> (State<Seq<u8>>, OutcomeView) {
    match s {
        State::Done => if data.len() == SIZE_BYTES {
            (State::Busy(zeros(be_u32_value(data) as nat), 0), OutcomeView::Again)
        } else {
            (
                State::Busy(data + zeros((SIZE_BYTES - data.len()) as nat), data.len() as usize),
                OutcomeView::Pending,
            )
        },
        State::Busy(b, c) => {
            let nb = b.subrange(0, c as int) + data + b.subrange(c + data.len(), b.len() as int);
            if c + data.len() == b.len() {
                match spec_parse_payload(nb) {
                    Option::Some(m) => (State::Done, OutcomeView::Message(m)),
                    Option::None => (State::Done, OutcomeView::Malformed),
                }
            } else {
                (State::Busy(nb, (c + data.len()) as usize), OutcomeView::Pending)
            }
        },
    }
}

/// The decisions of a stream of frames.
pub struct MessageStream {
    busy: bool,
    buf: Vec<u8>,
    cursor: usize,
}

impl View for MessageStream {
    type V = State<Seq<u8>>;

    closed spec fn view(&self) -> State<Seq<u8>> {
        if self.busy {
            State::Busy(self.buf@, self.cursor)
        } else {
            State::Done
        }
    }
}

impl MessageStream {
    /// A stream before any frame.
    pub fn new() -> (r: Self)
        ensures
            r@ == State::<Seq<u8>>::Done,
            r.wf(),
    {
        MessageStream { busy: false, buf: Vec::new(), cursor: 0 }
    }

    /// Whether the state is consistent; every state a stream reaches is.
    pub closed spec fn wf(&self) -> bool {
        self.busy ==> self.cursor <= self.buf@.len()
    }

    pub proof fn lemma_wf(&self)
        requires
            self.wf(),
        ensures
            stream_wf(self@),
    {
    }

    /// How many bytes the next read may bring.
    pub fn read_len(&self) -> (r: usize)
        requires
            self.wf(),
        ensures
            r == spec_read_len(self@),
    {
        if self.busy {
            self.buf.len() - self.cursor
        } else {
            SIZE_BYTES
        }
    }

    /// Takes in the bytes of one read, at most [`MessageStream::read_len`]
    /// of them, and says what they brought about.
    pub fn on_read(&mut self, data: &[u8]) -> (r: ReadOutcome)
        requires
            old(self).wf(),
            data@.len() <= spec_read_len(old(self)@),
        ensures
            final(self).wf(),
            (final(self)@, outcome_view(r)) == spec_on_read(old(self)@, data@),
    {
        if !self.busy {
            if data.len() == SIZE_BYTES {
                let size = parse_u32(data) as usize;
                let mut buf: Vec<u8> = Vec::with_capacity(size);
                let mut i: usize = 0;
                while i < size
                    invariant
                        i <= size,
                        buf@ == zeros(i as nat),
                    decreases size - i,
                {
                    buf.push(0);
                    i = i + 1;
                    assert(buf@ =~= zeros(i as nat));
                }
                self.busy = true;
                self.buf = buf;
                self.cursor = 0;
                ReadOutcome::Again
            } else {
                let mut buf: Vec<u8> = Vec::new();
                crate::message::push_bytes(&mut buf, data);
                let mut i: usize = data.len();
                while i < SIZE_BYTES
                    invariant
                        data@.len() <= i <= SIZE_BYTES,
                        buf@ == data@ + zeros((i - data@.len()) as nat),
                    decreases SIZE_BYTES - i,
                {
                    buf.push(0);
                    i = i + 1;
                    assert(buf@ =~= data@ + zeros((i - data@.len()) as nat));
                }
                self.busy = true;
                self.buf = buf;
                self.cursor = data.len();
                ReadOutcome::Pending
            }
        } else {
            let ghost b = self.buf@;
            let c = self.cursor;
            let blen = self.buf.len();
            let mut i: usize = 0;
            while i < data.len()
                invariant
                    self.busy,
                    self.cursor == c,
                    blen == b.len(),
                    c + data@.len() <= b.len(),
                    i <= data@.len(),
                    self.buf@.len() == b.len(),
                    self.buf@ == b.subrange(0, c as int) + data@.subrange(0, i as int) + b.subrange(
                        c + i,
                        b.len() as int,
                    ),
                decreases data@.len() - i,
            {
                self.buf.set(c + i, data[i]);
                i = i + 1;
                assert(self.buf@ =~= b.subrange(0, c as int) + data@.subrange(0, i as int)
                    + b.subrange(c + i, b.len() as int));
            }
            assert(data@.subrange(0, i as int) =~= data@);
            assert(self.buf@ == b.subrange(0, c as int) + data@ + b.subrange(
                c + data@.len(),
                b.len() as int,
            ));
            if c + data.len() == blen {
                self.busy = false;
                match parse_message(self.buf.as_slice()) {
                    Some(m) => ReadOutcome::Message(m),
                    None => ReadOutcome::Malformed,
                }
            } else {
                self.cursor = c + data.len();
                ReadOutcome::Pending
            }
        }
    }
}

/// The message of the frame at the start of `input`, with the number of
/// bytes the frame takes, when the stream reads it with reads that each
/// bring all the bytes asked for.
pub open spec fn read_frame(input: Seq<u8>) -> Option<(MessageView, nat)> {
    if input.len() < SIZE_BYTES {
        Option::None
    } else {
        let (s1, _o1) = spec_on_read(State::Done, input.subrange(0, SIZE_BYTES as int));
        let n = spec_read_len(s1);
        if input.len() < SIZE_BYTES + n {
            Option::None
        } else {
            let (_s2, o2) = spec_on_read(s1, input.subrange(SIZE_BYTES as int, SIZE_BYTES + n));
            match o2 {
                OutcomeView::Message(m) => Option::Some((m, (SIZE_BYTES + n) as nat)),
                _ => Option::None,
            }
        }
    }
}

/// The messages of the frames at the start of `input`, read one after the
/// other as [`read_frame`] reads one.
pub open spec fn read_frames(input: Seq<u8>) -> Seq<MessageView>
    decreases input.len(),
{
    match read_frame(input) {
        Option::Some((m, k)) => if 0 < k <= input.len() {
            seq![m] + read_frames(input.subrange(k as int, input.len() as int))
        } else {
            Seq::empty()
        },
        Option::None => Seq::empty(),
    }
}

/// The frames of `ms`, one after the other.
pub open spec fn encode_all(ms: Seq<MessageView>) -> Seq<u8>
    decreases ms.len(),
{
    if ms.len() == 0 {
        Seq::empty()
    } else {
        spec_encode(ms[0]) + encode_all(ms.drop_first())
    }
}

/// A frame read in two steps, its length prefix and then its payload, gives
/// back the message it was written from, and leaves the stream idle.
pub proof fn lemma_frame_roundtrip(m: MessageView)
    requires
        encodable(m),
    ensures
        ({
            let e = spec_encode(m);
            let n = spec_payload(m).len();
            let (s1, o1) = spec_on_read(State::Done, e.subrange(0, SIZE_BYTES as int));
            let (s2, o2) = spec_on_read(s1, e.subrange(SIZE_BYTES as int, e.len() as int));
            &&& s1 == State::Busy(zeros(n), 0)
            &&& o1 == OutcomeView::Again
            &&& s2 == State::<Seq<u8>>::Done
            &&& o2 == OutcomeView::Message(m)
        }),
{
    let e = spec_encode(m);
    let p = spec_payload(m);
    let n = p.len();
    crate::message::lemma_be_u32_roundtrip(n as u32);
    assert(e.subrange(0, SIZE_BYTES as int) =~= crate::message::be_u32_bytes(n as u32));
    let data = e.subrange(SIZE_BYTES as int, e.len() as int);
    assert(data =~= p);
    let z = zeros(n);
    assert(z.subrange(0, 0) + data + z.subrange(data.len() as int, n as int) =~= p);
    crate::message::lemma_parse_payload_of_payload(m);
}

/// A stream that was just made asks first for the length prefix, and the
/// message framed at the start of its input, whatever follows, is the first
/// message it reads.
pub proof fn lemma_first_frame(m: MessageView, rest: Seq<u8>)
    requires
        encodable(m),
    ensures
        spec_read_len(State::Done) == SIZE_BYTES,
        read_frame(spec_encode(m) + rest) == Option::Some((m, spec_encode(m).len())),
{
    let e = spec_encode(m);
    let input = e + rest;
    lemma_frame_roundtrip(m);
    assert(input.subrange(0, SIZE_BYTES as int) =~= e.subrange(0, SIZE_BYTES as int));
    assert(input.subrange(SIZE_BYTES as int, e.len() as int) =~= e.subrange(
        SIZE_BYTES as int,
        e.len() as int,
    ));
}

/// The frames of a sequence of messages, read back frame by frame, give the
/// messages in order: what a stream reads is what was written to it.
#[verifier::rlimit(40)]
pub proof fn lemma_frames_roundtrip(ms: Seq<MessageView>)
    requires
        forall|i: int| 0 <= i < ms.len() ==> encodable(#[trigger] ms[i]),
    ensures
        read_frames(encode_all(ms)) == ms,
    decreases ms.len(),
{
    if ms.len() == 0 {
        assert(read_frame(Seq::<u8>::empty()) is None);
    } else {
        let m = ms[0];
        assert(encodable(ms[0]));
        let e = spec_encode(m);
        let rest = encode_all(ms.drop_first());
        let input = e + rest;
        lemma_first_frame(m, rest);
        assert(input.subrange(e.len() as int, input.len() as int) =~= rest);
        assert forall|i: int| 0 <= i < ms.drop_first().len() implies encodable(
            #[trigger] ms.drop_first()[i],
        ) by {
            assert(ms.drop_first()[i] == ms[i + 1]);
        }
        lemma_frames_roundtrip(ms.drop_first());
        assert(seq![m] + ms.drop_first() =~= ms);
    }
}

/// How the payload of a frame is split into reads does not matter: reading
/// `u` and then `w` leaves the same state, with the same outcome, as reading
/// `u + w` at once, when `u` does not fill the buffer.
pub proof fn lemma_split_reads(b: Seq<u8>, c: usize, u: Seq<u8>, w: Seq<u8>)
    requires
        c + u.len() + w.len() <= b.len(),
        c + u.len() < b.len(),
        c + u.len() <= usize::MAX,
    ensures
        ({
            let (s1, o1) = spec_on_read(State::Busy(b, c), u);
            &&& o1 == OutcomeView::Pending
            &&& spec_on_read(s1, w) == spec_on_read(State::Busy(b, c), u + w)
        }),
{
    let (s1, o1) = spec_on_read(State::Busy(b, c), u);
    let nb1 = b.subrange(0, c as int) + u + b.subrange(c + u.len(), b.len() as int);
    let c1 = (c + u.len()) as usize;
    assert(s1 == State::Busy(nb1, c1));
    let nb2 = nb1.subrange(0, c1 as int) + w + nb1.subrange(c1 + w.len(), nb1.len() as int);
    let nb = b.subrange(0, c as int) + (u + w) + b.subrange(c + u.len() + w.len(), b.len() as int);
    assert(nb2 =~= nb);
}

} // verus!
