//! Writing frames: the decisions of a message sink.  The transport owns the
//! writer; it writes [`MessageSink::unsent`] and reports how much was taken
//! with [`MessageSink::on_written`].
use crate::message::{encodable, spec_encode, PeerMessage};
use crate::stream::{read_frame, State};
use vstd::prelude::*;

verus! {

/// The bytes of the frame in progress that remain to be written.
pub open spec fn spec_unsent(s: State<Seq<u8>>) -> Seq<u8> {
    match s {
        State::Done => Seq::empty(),
        State::Busy(obj, off) => obj.subrange(off as int, obj.len() as int),
    }
}

/// A state is consistent when its offset lies within its frame.
pub open spec fn sink_wf(s: State<Seq<u8>>) -> bool {
    match s {
        State::Done => true,
        State::Busy(obj, off) => off <= obj.len() <= usize::MAX,
    }
}

/// The state after the writer took `n` of the unsent bytes.
pub open spec fn spec_on_written(s: State<Seq<u8>>, n: nat) -> State<Seq<u8>> {
    match s {
        State::Done => State::Done,
        State::Busy(obj, off) => if n == obj.len() - off {
            State::Done
        } else {
            State::Busy(obj, (off + n) as usize)
        },
    }
}

/// The decisions of a sink of frames.
pub struct MessageSink {
    busy: bool,
    obj: Vec<u8>,
    offset: usize,
}

impl View for MessageSink {
    type V = State<Seq<u8>>;

    closed spec fn view(&self) -> State<Seq<u8>> {
        if self.busy {
            State::Busy(self.obj@, self.offset)
        } else {
            State::Done
        }
    }
}

impl MessageSink {
    /// A sink with nothing to write.
    pub fn new() -> (r: Self)
        ensures
            r@ == State::<Seq<u8>>::Done,
            r.wf(),
    {
        MessageSink { busy: false, obj: Vec::new(), offset: 0 }
    }

    /// Whether the state is consistent; every state a sink reaches is.
    pub closed spec fn wf(&self) -> bool {
        self.busy ==> self.offset <= self.obj@.len()
    }

    pub proof fn lemma_wf(&self)
        requires
            self.wf(),
        ensures
            sink_wf(self@),
    {
        if self.busy {
            assert(self.obj@.len() == self.obj.len());
        }
    }

    /// Whether a new message may be started: no frame is in progress.
    pub fn is_ready(&self) -> (r: bool)
        ensures
            r == (self@ is Done),
    {
        !self.busy
    }

    /// Starts writing the frame of `item`.
    pub fn start_send(&mut self, item: &PeerMessage)
        requires
            old(self)@ is Done,
            encodable(item@),
        ensures
            final(self)@ == State::Busy(spec_encode(item@), 0),
            spec_unsent(final(self)@) == spec_encode(item@),
            final(self).wf(),
    {
        self.obj = item.to_bytes();
        self.offset = 0;
        self.busy = true;
        assert(spec_unsent(self@) =~= spec_encode(item@));
    }

    /// The bytes of the frame in progress that remain to be written.
    pub fn unsent(&self) -> (r: &[u8])
        requires
            self.wf(),
        ensures
            r@ == spec_unsent(self@),
    {
        if self.busy {
            vstd::slice::slice_subrange(self.obj.as_slice(), self.offset, self.obj.len())
        } else {
            vstd::slice::slice_subrange(self.obj.as_slice(), 0, 0)
        }
    }

    /// Takes note that the writer took `n` of the unsent bytes; returns
    /// whether the frame is now written whole.
    pub fn on_written(&mut self, n: usize) -> (r: bool)
        requires
            old(self).wf(),
            n <= spec_unsent(old(self)@).len(),
        ensures
            final(self).wf(),
            final(self)@ == spec_on_written(old(self)@, n as nat),
            r == (final(self)@ is Done),
            spec_unsent(final(self)@) == spec_unsent(old(self)@).subrange(
                n as int,
                spec_unsent(old(self)@).len() as int,
            ),
    {
        if self.busy {
            if n == self.obj.len() - self.offset {
                self.busy = false;
                true
            } else {
                self.offset = self.offset + n;
                assert(spec_unsent(self@) =~= spec_unsent(old(self)@).subrange(
                    n as int,
                    spec_unsent(old(self)@).len() as int,
                ));
                false
            }
        } else {
            true
        }
    }
}

/// The sum of the write sizes `ns`.
pub open spec fn total(ns: Seq<nat>) -> nat
    decreases ns.len(),
{
    if ns.len() == 0 {
        0
    } else {
        ns[0] + total(ns.drop_first())
    }
}

/// The state after writes that take `ns[0]`, `ns[1]`, ... of the unsent bytes.
pub open spec fn after_writes(s: State<Seq<u8>>, ns: Seq<nat>) -> State<Seq<u8>>
    decreases ns.len(),
{
    if ns.len() == 0 {
        s
    } else {
        after_writes(spec_on_written(s, ns[0]), ns.drop_first())
    }
}

/// The bytes that writes taking `ns[0]`, `ns[1]`, ... hand to the writer.
pub open spec fn written_by(s: State<Seq<u8>>, ns: Seq<nat>) -> Seq<u8>
    decreases ns.len(),
{
    if ns.len() == 0 {
        Seq::empty()
    } else {
        spec_unsent(s).subrange(0, ns[0] as int) + written_by(
            spec_on_written(s, ns[0]),
            ns.drop_first(),
        )
    }
}

/// Flushing a frame through writes of any sizes that together take all its
/// unsent bytes completes it: the writer gets exactly those bytes, in order,
/// each once, and the sink is then ready for the next message.
pub proof fn lemma_flush_writes(s: State<Seq<u8>>, ns: Seq<nat>)
    requires
        sink_wf(s),
        total(ns) == spec_unsent(s).len(),
    ensures
        after_writes(s, ns) == State::<Seq<u8>>::Done || (ns.len() == 0 && s is Busy
            && spec_unsent(s).len() == 0),
        written_by(s, ns) == spec_unsent(s),
    decreases ns.len(),
{
    if ns.len() == 0 {
        assert(written_by(s, ns) =~= spec_unsent(s));
    } else {
        let n = ns[0];
        let u = spec_unsent(s);
        let s1 = spec_on_written(s, n);
        match s {
            State::Done => {
                assert(s1 == State::<Seq<u8>>::Done);
            },
            State::Busy(obj, off) => {
                if n == obj.len() - off {
                    assert(s1 == State::<Seq<u8>>::Done);
                } else {
                    assert(s1 == State::Busy(obj, (off + n) as usize));
                }
            },
        }
        assert(n <= u.len());
        assert(spec_unsent(s1) =~= u.subrange(n as int, u.len() as int));
        lemma_flush_writes(s1, ns.drop_first());
        assert(u.subrange(0, n as int) + spec_unsent(s1) =~= u);
        if ns.drop_first().len() == 0 {
            assert(spec_unsent(s1).len() == 0);
            if s1 is Busy {
                assert(false);
            }
        }
    }
}

/// What a sink writes for a message is a frame that a stream reads back as
/// that message.
pub proof fn lemma_sink_stream_roundtrip(m: crate::message::MessageView)
    requires
        encodable(m),
    ensures
        read_frame(spec_unsent(State::Busy(spec_encode(m), 0))) == Option::Some(
            (m, spec_encode(m).len()),
        ),
{
    let e = spec_encode(m);
    assert(spec_unsent(State::Busy(e, 0)) =~= e);
    crate::stream::lemma_frame_roundtrip(m);
    assert(e.subrange(0, 4) =~= e.subrange(0, e.len() as int).subrange(0, 4));
}

/// Writes that together take every unsent byte, in any split, complete the
/// frame, and the bytes they took are the frame's bytes in order.
pub proof fn lemma_split_writes(s: State<Seq<u8>>, n: nat, k: nat)
    requires
        sink_wf(s),
        s is Busy,
        n + k == spec_unsent(s).len(),
        n < spec_unsent(s).len(),
    ensures
        spec_on_written(spec_on_written(s, n), k) == State::<Seq<u8>>::Done,
        spec_unsent(s).subrange(0, n as int) + spec_unsent(spec_on_written(s, n))
            == spec_unsent(s),
{
    if let State::Busy(obj, off) = s {
        let u = obj.subrange(off as int, obj.len() as int);
        let s1 = spec_on_written(s, n);
        assert(s1 == State::Busy(obj, (off + n) as usize));
        assert(spec_unsent(s1) =~= obj.subrange(off + n, obj.len() as int));
        assert(u.subrange(0, n as int) + spec_unsent(s1) =~= u);
    }
}

} // verus!
