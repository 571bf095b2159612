//! The messages of the peer wire protocol and their encoding.
//!
//! On the wire a message is a frame: a 4-byte big-endian length, then a
//! payload of that many bytes.  An empty payload is a keep-alive; otherwise
//! the first payload byte is the message id and the rest its fields, every
//! integer big-endian.
use vstd::prelude::*;

verus! {

/// Number of bytes of the length prefix of a frame.
pub const SIZE_BYTES: usize = 4;

/// A message of the peer wire protocol.
#[derive(Debug, Clone, PartialEq, Eq)]
pub enum PeerMessage {
    KeepAlive,
    Choke,
    Unchoke,
    Interested,
    NotInterested,
    Have(u32),
    Bitfield(Vec<u8>),
    Request { block: u32, offset: u32, length: u32 },
    Piece { block: u32, offset: u32, data: Vec<u8> },
    Cancel { block: u32, offset: u32, length: u32 },
    Port(u16),
}

/// The mathematical value of a [`PeerMessage`]: its byte vectors as sequences.
pub enum MessageView {
    KeepAlive,
    Choke,
    Unchoke,
    Interested,
    NotInterested,
    Have(u32),
    Bitfield(Seq<u8>),
    Request { block: u32, offset: u32, length: u32 },
    Piece { block: u32, offset: u32, data: Seq<u8> },
    Cancel { block: u32, offset: u32, length: u32 },
    Port(u16),
}

impl View for PeerMessage {
    type V = MessageView;

    open spec fn view(&self) -> MessageView {
        match self {
            PeerMessage::KeepAlive => MessageView::KeepAlive,
            PeerMessage::Choke => MessageView::Choke,
            PeerMessage::Unchoke => MessageView::Unchoke,
            PeerMessage::Interested => MessageView::Interested,
            PeerMessage::NotInterested => MessageView::NotInterested,
            PeerMessage::Have(i) => MessageView::Have(*i),
            PeerMessage::Bitfield(b) => MessageView::Bitfield(b@),
            PeerMessage::Request { block, offset, length } => MessageView::Request {
                block: *block,
                offset: *offset,
                length: *length,
            },
            PeerMessage::Piece { block, offset, data } => MessageView::Piece {
                block: *block,
                offset: *offset,
                data: data@,
            },
            PeerMessage::Cancel { block, offset, length } => MessageView::Cancel {
                block: *block,
                offset: *offset,
                length: *length,
            },
            PeerMessage::Port(p) => MessageView::Port(*p),
        }
    }
}

/// The view of an optional message.
pub open spec fn opt_view(m: Option<PeerMessage>) -> Option<MessageView> {
    match m {
        Option::Some(m) => Option::Some(m@),
        Option::None => Option::None,
    }
}

/// The four big-endian bytes of `x`.
pub open spec fn be_u32_bytes(x: u32) -> Seq<u8> {
    seq![(x >> 24u32) as u8, (x >> 16u32) as u8, (x >> 8u32) as u8, x as u8]
}

/// The number whose big-endian bytes are the first four of `s`.
pub open spec fn be_u32_value(s: Seq<u8>) -> u32 {
    ((s[0] as u32) << 24u32) | ((s[1] as u32) << 16u32) | ((s[2] as u32) << 8u32) | (s[3] as u32)
}

/// The two big-endian bytes of `x`.
pub open spec fn be_u16_bytes(x: u16) -> Seq<u8> {
    seq![(x >> 8u16) as u8, x as u8]
}

/// The number whose big-endian bytes are the first two of `s`.
pub open spec fn be_u16_value(s: Seq<u8>) -> u16 {
    ((s[0] as u16) << 8u16) | (s[1] as u16)
}

/// The payload of a message: nothing for a keep-alive, else its id and fields.
pub open spec fn spec_payload(m: MessageView) -> Seq<u8> {
    match m {
        MessageView::KeepAlive => Seq::empty(),
        MessageView::Choke => seq![0u8],
        MessageView::Unchoke => seq![1u8],
        MessageView::Interested => seq![2u8],
        MessageView::NotInterested => seq![3u8],
        MessageView::Have(i) => seq![4u8] + be_u32_bytes(i),
        MessageView::Bitfield(b) => seq![5u8] + b,
        MessageView::Request { block, offset, length } => seq![6u8] + be_u32_bytes(block)
            + be_u32_bytes(offset) + be_u32_bytes(length),
        MessageView::Piece { block, offset, data } => seq![7u8] + be_u32_bytes(block)
            + be_u32_bytes(offset) + data,
        MessageView::Cancel { block, offset, length } => seq![8u8] + be_u32_bytes(block)
            + be_u32_bytes(offset) + be_u32_bytes(length),
        MessageView::Port(p) => seq![9u8] + be_u16_bytes(p),
    }
}

/// A message can be framed when its payload length fits the 32-bit length prefix.
pub open spec fn encodable(m: MessageView) -> bool {
    spec_payload(m).len() <= u32::MAX
}

/// The frame of a message: its payload length, big-endian, then the payload.
pub open spec fn spec_encode(m: MessageView) -> Seq<u8> {
    be_u32_bytes(spec_payload(m).len() as u32) + spec_payload(m)
}

/// The message that a payload holds, if it is well formed.
pub open spec fn spec_parse_payload(s: Seq<u8>) -> Option<MessageView> {
    if s.len() == 0 {
        Option::Some(MessageView::KeepAlive)
    } else if s[0] == 0 && s.len() == 1 {
        Option::Some(MessageView::Choke)
    } else if s[0] == 1 && s.len() == 1 {
        Option::Some(MessageView::Unchoke)
    } else if s[0] == 2 && s.len() == 1 {
        Option::Some(MessageView::Interested)
    } else if s[0] == 3 && s.len() == 1 {
        Option::Some(MessageView::NotInterested)
    } else if s[0] == 4 && s.len() == 5 {
        Option::Some(MessageView::Have(be_u32_value(s.subrange(1, 5))))
    } else if s[0] == 5 {
        Option::Some(MessageView::Bitfield(s.subrange(1, s.len() as int)))
    } else if s[0] == 6 && s.len() == 13 {
        Option::Some(
            MessageView::Request {
                block: be_u32_value(s.subrange(1, 5)),
                offset: be_u32_value(s.subrange(5, 9)),
                length: be_u32_value(s.subrange(9, 13)),
            },
        )
    } else if s[0] == 7 && s.len() >= 9 {
        Option::Some(
            MessageView::Piece {
                block: be_u32_value(s.subrange(1, 5)),
                offset: be_u32_value(s.subrange(5, 9)),
                data: s.subrange(9, s.len() as int),
            },
        )
    } else if s[0] == 8 && s.len() == 13 {
        Option::Some(
            MessageView::Cancel {
                block: be_u32_value(s.subrange(1, 5)),
                offset: be_u32_value(s.subrange(5, 9)),
                length: be_u32_value(s.subrange(9, 13)),
            },
        )
    } else if s[0] == 9 && s.len() == 3 {
        Option::Some(MessageView::Port(be_u16_value(s.subrange(1, 3))))
    } else {
        Option::None
    }
}

/// Reading back the four big-endian bytes of a number gives the number.
pub proof fn lemma_be_u32_roundtrip(x: u32)
    ensures
        be_u32_bytes(x).len() == 4,
        be_u32_value(be_u32_bytes(x)) == x,
{
    let b0 = (x >> 24u32) as u8;
    let b1 = (x >> 16u32) as u8;
    let b2 = (x >> 8u32) as u8;
    let b3 = x as u8;
    assert(((b0 as u32) << 24u32) | ((b1 as u32) << 16u32) | ((b2 as u32) << 8u32) | (b3 as u32)
        == x) by (bit_vector)
        requires
            b0 == (x >> 24u32) as u8,
            b1 == (x >> 16u32) as u8,
            b2 == (x >> 8u32) as u8,
            b3 == x as u8,
    ;
}

/// Writing the number that four bytes denote gives back those bytes.
pub proof fn lemma_be_u32_bytes_of_value(s: Seq<u8>)
    requires
        s.len() == 4,
    ensures
        be_u32_bytes(be_u32_value(s)) == s,
{
    let (b0, b1, b2, b3) = (s[0], s[1], s[2], s[3]);
    let x = be_u32_value(s);
    assert((x >> 24u32) as u8 == b0 && (x >> 16u32) as u8 == b1 && (x >> 8u32) as u8 == b2
        && x as u8 == b3) by (bit_vector)
        requires
            x == ((b0 as u32) << 24u32) | ((b1 as u32) << 16u32) | ((b2 as u32) << 8u32) | (
            b3 as u32),
    ;
    assert(be_u32_bytes(x) =~= s);
}

/// Reading back the two big-endian bytes of a number gives the number.
pub proof fn lemma_be_u16_roundtrip(x: u16)
    ensures
        be_u16_bytes(x).len() == 2,
        be_u16_value(be_u16_bytes(x)) == x,
{
    let b0 = (x >> 8u16) as u8;
    let b1 = x as u8;
    assert(((b0 as u16) << 8u16) | (b1 as u16) == x) by (bit_vector)
        requires
            b0 == (x >> 8u16) as u8,
            b1 == x as u8,
    ;
}

/// Writing the number that two bytes denote gives back those bytes.
pub proof fn lemma_be_u16_bytes_of_value(s: Seq<u8>)
    requires
        s.len() == 2,
    ensures
        be_u16_bytes(be_u16_value(s)) == s,
{
    let (b0, b1) = (s[0], s[1]);
    let x = be_u16_value(s);
    assert((x >> 8u16) as u8 == b0 && x as u8 == b1) by (bit_vector)
        requires
            x == ((b0 as u16) << 8u16) | (b1 as u16),
    ;
    assert(be_u16_bytes(x) =~= s);
}

/// Every message payload parses back to the message it was written from.
pub proof fn lemma_parse_payload_of_payload(m: MessageView)
    ensures
        spec_parse_payload(spec_payload(m)) == Option::Some(m),
{
    let p = spec_payload(m);
    match m {
        MessageView::KeepAlive => {},
        MessageView::Choke => {},
        MessageView::Unchoke => {},
        MessageView::Interested => {},
        MessageView::NotInterested => {},
        MessageView::Have(i) => {
            lemma_be_u32_roundtrip(i);
            assert(p.subrange(1, 5) =~= be_u32_bytes(i));
        },
        MessageView::Bitfield(b) => {
            assert(p.subrange(1, p.len() as int) =~= b);
        },
        MessageView::Request { block, offset, length } => {
            lemma_be_u32_roundtrip(block);
            lemma_be_u32_roundtrip(offset);
            lemma_be_u32_roundtrip(length);
            assert(p.subrange(1, 5) =~= be_u32_bytes(block));
            assert(p.subrange(5, 9) =~= be_u32_bytes(offset));
            assert(p.subrange(9, 13) =~= be_u32_bytes(length));
        },
        MessageView::Piece { block, offset, data } => {
            lemma_be_u32_roundtrip(block);
            lemma_be_u32_roundtrip(offset);
            assert(p.subrange(1, 5) =~= be_u32_bytes(block));
            assert(p.subrange(5, 9) =~= be_u32_bytes(offset));
            assert(p.subrange(9, p.len() as int) =~= data);
        },
        MessageView::Cancel { block, offset, length } => {
            lemma_be_u32_roundtrip(block);
            lemma_be_u32_roundtrip(offset);
            lemma_be_u32_roundtrip(length);
            assert(p.subrange(1, 5) =~= be_u32_bytes(block));
            assert(p.subrange(5, 9) =~= be_u32_bytes(offset));
            assert(p.subrange(9, 13) =~= be_u32_bytes(length));
        },
        MessageView::Port(x) => {
            lemma_be_u16_roundtrip(x);
            assert(p.subrange(1, 3) =~= be_u16_bytes(x));
        },
    }
}

/// A payload that parses is exactly the payload of the message it parses to:
/// every message has one encoding.
pub proof fn lemma_payload_of_parse_payload(s: Seq<u8>)
    requires
        spec_parse_payload(s) is Some,
    ensures
        spec_payload(spec_parse_payload(s).unwrap()) == s,
{
    let m = spec_parse_payload(s).unwrap();
    if s.len() == 0 {
        assert(spec_payload(m) =~= s);
    } else if s.len() == 1 {
        assert(spec_payload(m) =~= s);
    } else if s[0] == 4 && s.len() == 5 {
        lemma_be_u32_bytes_of_value(s.subrange(1, 5));
        assert(spec_payload(m) =~= s);
    } else if s[0] == 5 {
        assert(spec_payload(m) =~= s);
    } else if (s[0] == 6 || s[0] == 8) && s.len() == 13 {
        lemma_be_u32_bytes_of_value(s.subrange(1, 5));
        lemma_be_u32_bytes_of_value(s.subrange(5, 9));
        lemma_be_u32_bytes_of_value(s.subrange(9, 13));
        assert(spec_payload(m) =~= s);
    } else if s[0] == 7 && s.len() >= 9 {
        lemma_be_u32_bytes_of_value(s.subrange(1, 5));
        lemma_be_u32_bytes_of_value(s.subrange(5, 9));
        assert(spec_payload(m) =~= s);
    } else {
        lemma_be_u16_bytes_of_value(s.subrange(1, 3));
        assert(spec_payload(m) =~= s);
    }
}

/// The number that four big-endian bytes denote: the first is the most
/// significant.
pub proof fn lemma_be_u32_value_arith(s: Seq<u8>)
    requires
        s.len() >= 4,
    ensures
        be_u32_value(s) as int == s[0] as int * 0x100_0000 + s[1] as int * 0x1_0000 + s[2] as int
            * 0x100 + s[3] as int,
{
    let (b0, b1, b2, b3) = (s[0], s[1], s[2], s[3]);
    assert((((b0 as u32) << 24u32) | ((b1 as u32) << 16u32) | ((b2 as u32) << 8u32) | (b3 as u32))
        as int == b0 as int * 0x100_0000 + b1 as int * 0x1_0000 + b2 as int * 0x100 + b3 as int)
        by (bit_vector);
}

/// The number that two big-endian bytes denote: the first is the most
/// significant.
pub proof fn lemma_be_u16_value_arith(s: Seq<u8>)
    requires
        s.len() >= 2,
    ensures
        be_u16_value(s) as int == s[0] as int * 0x100 + s[1] as int,
{
    let (b0, b1) = (s[0], s[1]);
    assert((((b0 as u16) << 8u16) | (b1 as u16)) as int == b0 as int * 0x100 + b1 as int)
        by (bit_vector);
}

/// The layout of each message on the wire.  A frame is the payload length
/// in four big-endian bytes, then the payload.  The payload of a keep-alive
/// is empty; of every other message it starts with its id: choke 0, unchoke
/// 1, interested 2, not interested 3, have 4, bitfield 5, request 6, piece 7,
/// cancel 8, port 9.  After the id come the fields in declaration order,
/// every integer in big-endian bytes, a bitfield or a piece's data as is.
pub proof fn lemma_wire_layout(m: MessageView)
    requires
        encodable(m),
    ensures
        be_u32_value(spec_encode(m).subrange(0, 4)) == spec_payload(m).len(),
        spec_encode(m).subrange(4, spec_encode(m).len() as int) == spec_payload(m),
        m is KeepAlive ==> spec_payload(m) == Seq::<u8>::empty(),
        m is Choke ==> spec_payload(m) == seq![0u8],
        m is Unchoke ==> spec_payload(m) == seq![1u8],
        m is Interested ==> spec_payload(m) == seq![2u8],
        m is NotInterested ==> spec_payload(m) == seq![3u8],
        m matches MessageView::Have(i) ==> spec_payload(m).len() == 5 && spec_payload(m)[0] == 4
            && be_u32_value(spec_payload(m).subrange(1, 5)) == i,
        m matches MessageView::Bitfield(b) ==> spec_payload(m) == seq![5u8] + b,
        m matches MessageView::Request { block, offset, length } ==> spec_payload(m).len() == 13
            && spec_payload(m)[0] == 6 && be_u32_value(spec_payload(m).subrange(1, 5)) == block
            && be_u32_value(spec_payload(m).subrange(5, 9)) == offset && be_u32_value(
            spec_payload(m).subrange(9, 13),
        ) == length,
        m matches MessageView::Piece { block, offset, data } ==> spec_payload(m).len() == 9
            + data.len() && spec_payload(m)[0] == 7 && be_u32_value(
            spec_payload(m).subrange(1, 5),
        ) == block && be_u32_value(spec_payload(m).subrange(5, 9)) == offset && spec_payload(
            m,
        ).subrange(9, spec_payload(m).len() as int) == data,
        m matches MessageView::Cancel { block, offset, length } ==> spec_payload(m).len() == 13
            && spec_payload(m)[0] == 8 && be_u32_value(spec_payload(m).subrange(1, 5)) == block
            && be_u32_value(spec_payload(m).subrange(5, 9)) == offset && be_u32_value(
            spec_payload(m).subrange(9, 13),
        ) == length,
        m matches MessageView::Port(port) ==> spec_payload(m).len() == 3 && spec_payload(m)[0]
            == 9 && be_u16_value(spec_payload(m).subrange(1, 3)) == port,
{
    let p = spec_payload(m);
    let e = spec_encode(m);
    lemma_be_u32_roundtrip(p.len() as u32);
    assert(e.subrange(0, 4) =~= be_u32_bytes(p.len() as u32));
    assert(e.subrange(4, e.len() as int) =~= p);
    lemma_parse_payload_of_payload(m);
    match m {
        MessageView::KeepAlive => {
            assert(p =~= Seq::<u8>::empty());
        },
        MessageView::Bitfield(b) => {},
        MessageView::Piece { block, offset, data } => {
            assert(p.subrange(9, p.len() as int) =~= data);
        },
        _ => {},
    }
}

/// Appends the big-endian bytes of `x`.
fn push_u32(out: &mut Vec<u8>, x: u32)
    ensures
        final(out)@ == old(out)@ + be_u32_bytes(x),
{
    out.push((x >> 24u32) as u8);
    out.push((x >> 16u32) as u8);
    out.push((x >> 8u32) as u8);
    out.push(x as u8);
    assert(final(out)@ =~= old(out)@ + be_u32_bytes(x));
}

/// Appends the bytes of `src`.
pub(crate) fn push_bytes(out: &mut Vec<u8>, src: &[u8])
    ensures
        final(out)@ == old(out)@ + src@,
{
    let ghost start = out@;
    let mut i: usize = 0;
    while i < src.len()
        invariant
            i <= src@.len(),
            out@ == start + src@.subrange(0, i as int),
        decreases src@.len() - i,
    {
        out.push(src[i]);
        i = i + 1;
        assert(out@ =~= start + src@.subrange(0, i as int));
    }
    assert(src@.subrange(0, i as int) =~= src@);
}

/// The number whose big-endian bytes are the first four of `bytes`.
pub fn parse_u32(bytes: &[u8]) -> (r: u32)
    requires
        bytes@.len() >= SIZE_BYTES,
    ensures
        r == be_u32_value(bytes@),
{
    ((bytes[0] as u32) << 24u32) | ((bytes[1] as u32) << 16u32) | ((bytes[2] as u32) << 8u32) | (
    bytes[3] as u32)
}

/// The number whose big-endian bytes are the two of `bytes` from `at` on.
fn parse_u16_at(bytes: &[u8], at: usize) -> (r: u16)
    requires
        at + 2 <= bytes@.len(),
    ensures
        r == be_u16_value(bytes@.subrange(at as int, at + 2)),
{
    ((bytes[at] as u16) << 8u16) | (bytes[at + 1] as u16)
}

/// The number whose big-endian bytes are the four of `bytes` from `at` on.
fn parse_u32_at(bytes: &[u8], at: usize) -> (r: u32)
    requires
        at + 4 <= bytes@.len(),
    ensures
        r == be_u32_value(bytes@.subrange(at as int, at + 4)),
{
    ((bytes[at] as u32) << 24u32) | ((bytes[at + 1] as u32) << 16u32) | ((bytes[at + 2] as u32)
        << 8u32) | (bytes[at + 3] as u32)
}

/// Copies `bytes[from..]` into a new vector.
fn tail_of(bytes: &[u8], from: usize) -> (r: Vec<u8>)
    requires
        from <= bytes@.len(),
    ensures
        r@ == bytes@.subrange(from as int, bytes@.len() as int),
{
    let mut out: Vec<u8> = Vec::new();
    push_bytes(&mut out, vstd::slice::slice_subrange(bytes, from, bytes.len()));
    out
}

/// Parses a frame payload, the bytes that follow the length prefix.
/// Returns `None` exactly when the payload is not a well-formed message.
pub fn parse_message(bytes: &[u8]) -> (r: Option<PeerMessage>)
    ensures
        opt_view(r) == spec_parse_payload(bytes@),
{
    let n = bytes.len();
    if n == 0 {
        return Option::Some(PeerMessage::KeepAlive);
    }
    let id = bytes[0];
    if id == 0 && n == 1 {
        Option::Some(PeerMessage::Choke)
    } else if id == 1 && n == 1 {
        Option::Some(PeerMessage::Unchoke)
    } else if id == 2 && n == 1 {
        Option::Some(PeerMessage::Interested)
    } else if id == 3 && n == 1 {
        Option::Some(PeerMessage::NotInterested)
    } else if id == 4 && n == 5 {
        Option::Some(PeerMessage::Have(parse_u32_at(bytes, 1)))
    } else if id == 5 {
        Option::Some(PeerMessage::Bitfield(tail_of(bytes, 1)))
    } else if id == 6 && n == 13 {
        Option::Some(
            PeerMessage::Request {
                block: parse_u32_at(bytes, 1),
                offset: parse_u32_at(bytes, 5),
                length: parse_u32_at(bytes, 9),
            },
        )
    } else if id == 7 && n >= 9 {
        Option::Some(
            PeerMessage::Piece {
                block: parse_u32_at(bytes, 1),
                offset: parse_u32_at(bytes, 5),
                data: tail_of(bytes, 9),
            },
        )
    } else if id == 8 && n == 13 {
        Option::Some(
            PeerMessage::Cancel {
                block: parse_u32_at(bytes, 1),
                offset: parse_u32_at(bytes, 5),
                length: parse_u32_at(bytes, 9),
            },
        )
    } else if id == 9 && n == 3 {
        Option::Some(PeerMessage::Port(parse_u16_at(bytes, 1)))
    } else {
        Option::None
    }
}

impl PeerMessage {
    /// Whether the payload of this message fits a frame.
    pub fn is_encodable(&self) -> (r: bool)
        ensures
            r == encodable(self@),
    {
        match self {
            PeerMessage::Bitfield(b) => b.len() < 0xffff_ffffusize,
            PeerMessage::Piece { data, .. } => data.len() <= 0xffff_fff6usize,
            _ => true,
        }
    }

    /// The frame of this message: its payload length, big-endian, then the payload.
    pub fn to_bytes(&self) -> (r: Vec<u8>)
        requires
            encodable(self@),
        ensures
            r@ == spec_encode(self@),
    {
        let mut out: Vec<u8> = Vec::new();
        match self {
            PeerMessage::KeepAlive => {
                push_u32(&mut out, 0);
            },
            PeerMessage::Choke => {
                push_u32(&mut out, 1);
                out.push(0);
            },
            PeerMessage::Unchoke => {
                push_u32(&mut out, 1);
                out.push(1);
            },
            PeerMessage::Interested => {
                push_u32(&mut out, 1);
                out.push(2);
            },
            PeerMessage::NotInterested => {
                push_u32(&mut out, 1);
                out.push(3);
            },
            PeerMessage::Have(i) => {
                push_u32(&mut out, 5);
                out.push(4);
                push_u32(&mut out, *i);
            },
            PeerMessage::Bitfield(b) => {
                push_u32(&mut out, (b.len() + 1) as u32);
                out.push(5);
                push_bytes(&mut out, b.as_slice());
            },
            PeerMessage::Request { block, offset, length } => {
                push_u32(&mut out, 13);
                out.push(6);
                push_u32(&mut out, *block);
                push_u32(&mut out, *offset);
                push_u32(&mut out, *length);
            },
            PeerMessage::Piece { block, offset, data } => {
                push_u32(&mut out, (data.len() + 9) as u32);
                out.push(7);
                push_u32(&mut out, *block);
                push_u32(&mut out, *offset);
                push_bytes(&mut out, data.as_slice());
            },
            PeerMessage::Cancel { block, offset, length } => {
                push_u32(&mut out, 13);
                out.push(8);
                push_u32(&mut out, *block);
                push_u32(&mut out, *offset);
                push_u32(&mut out, *length);
            },
            PeerMessage::Port(p) => {
                push_u32(&mut out, 3);
                out.push(9);
                out.push((*p >> 8u16) as u8);
                out.push(*p as u8);
            },
        }
        assert(out@ =~= spec_encode(self@));
        out
    }
}

} // verus!
