//! The messages that the two ends of the reconnecting stream exchange over one
//! TCP connection, and their encoding as bytes.
//!
//! A message is one byte that says which it is, followed by
//!
//! * hello: the sender's id and the sequence number of the last data message
//!   that it has received, eight bytes each;
//! * data: the payload's length in four bytes, and the payload;
//! * ack: a sequence number in eight bytes.
//!
//! All numbers are little endian.

use crate::buffer;
use crate::framing;
use crate::framing::Parsed;
use crate::text;
use crate::text::decimal_string;
use bytes::BytesMut;
use vstd::bytes::*;
use vstd::prelude::*;
use vstd::slice::*;
#[allow(unused_imports)]
use vstd::string::*;

verus! {

pub const HELLO_MSG_ID: u8 = 1;

pub const DATA_MSG_ID: u8 = 2;

pub const ACK_MSG_ID: u8 = 3;

/// Why the reconnecting stream refused what the other end sent.
#[derive(Debug, Clone, Copy, PartialEq, Eq, Structural)]
pub enum StreamError {
    /// An acknowledgement of less than what was acknowledged before.
    AckBeforeBase,
    /// An acknowledgement further ahead than this machine can count messages.
    AckTooFar,
    /// An acknowledgement of messages that were never sent.
    AckBeyondSent { seq: u64, base_offset: u64, unacked: usize },
    /// A message that starts with an unassigned byte.
    UnknownMsgId(u8),
}

impl StreamError {
    /// The text of the error.
    pub open spec fn text(self) -> Seq<char> {
        match self {
            StreamError::AckBeforeBase => "acked seq is before a previously acked one"@,
            StreamError::AckTooFar => "seq > base offset"@,
            StreamError::AckBeyondSent { seq, base_offset, unacked } => "seq "@ + text::decimal(
                seq as nat,
            ) + " > sent_unacked (off="@ + text::decimal(base_offset as nat) + " unacked="@ + text::decimal(
                unacked as nat,
            ) + ")"@,
            StreamError::UnknownMsgId(id) => "unknown msg id "@ + text::decimal(id as nat) + "!"@,
        }
    }

    pub fn to_string(&self) -> (s: String)
        ensures
            s@ == self.text(),
    {
        match self {
            StreamError::AckBeforeBase => "acked seq is before a previously acked one".to_string(),
            StreamError::AckTooFar => "seq > base offset".to_string(),
            StreamError::AckBeyondSent { seq, base_offset, unacked } => {
                let mut s = "seq ".to_string();
                s.append(decimal_string(*seq).as_str());
                s.append(" > sent_unacked (off=");
                s.append(decimal_string(*base_offset).as_str());
                s.append(" unacked=");
                s.append(decimal_string(*unacked as u64).as_str());
                s.append(")");
                s
            },
            StreamError::UnknownMsgId(id) => {
                let mut s = "unknown msg id ".to_string();
                s.append(decimal_string(*id as u64).as_str());
                s.append("!");
                s
            },
        }
    }
}

/// What an end of the stream says first on every connection.
#[derive(Debug, Clone, Copy, PartialEq, Eq)]
pub struct HelloMessage {
    pub sender_id: u64,
    pub sender_last_rx: u64,
}

#[derive(Debug, Clone, PartialEq, Eq)]
pub enum StreamCodecMessage {
    Hello(HelloMessage),
    Data(Vec<u8>),
    Ack(u64),
}

/// A message as a mathematical value.
pub enum StreamCodecMessageView {
    Hello(HelloMessage),
    Data(Seq<u8>),
    Ack(u64),
}

impl View for StreamCodecMessage {
    type V = StreamCodecMessageView;

    open spec fn view(&self) -> StreamCodecMessageView {
        match *self {
            StreamCodecMessage::Hello(hm) => StreamCodecMessageView::Hello(hm),
            StreamCodecMessage::Data(d) => StreamCodecMessageView::Data(d@),
            StreamCodecMessage::Ack(seq) => StreamCodecMessageView::Ack(seq),
        }
    }
}

impl StreamCodecMessageView {
    /// A payload's length has to fit its four bytes.
    pub open spec fn fits(self) -> bool {
        self matches StreamCodecMessageView::Data(d) ==> d.len() <= u32::MAX
    }

    /// The bytes that stand for the message.
    pub open spec fn encoded(self) -> Seq<u8> {
        match self {
            StreamCodecMessageView::Hello(hm) => seq![HELLO_MSG_ID] + spec_u64_to_le_bytes(
                hm.sender_id,
            ) + spec_u64_to_le_bytes(hm.sender_last_rx),
            StreamCodecMessageView::Data(d) => seq![DATA_MSG_ID] + spec_u32_to_le_bytes(
                d.len() as u32,
            ) + d,
            StreamCodecMessageView::Ack(seq) => seq![ACK_MSG_ID] + spec_u64_to_le_bytes(seq),
        }
    }

    /// A short name of the message, for logs.
    pub open spec fn text(self) -> Seq<char> {
        match self {
            StreamCodecMessageView::Hello(_) => "Hello"@,
            StreamCodecMessageView::Data(d) => "Data("@ + text::decimal(d.len()) + ")"@,
            StreamCodecMessageView::Ack(seq) => "Ack("@ + text::decimal(seq as nat) + ")"@,
        }
    }
}

/// The message that the first bytes of `data` stand for.
pub open spec fn parse_message(data: Seq<u8>) -> Parsed<StreamCodecMessageView, StreamError> {
    if data.len() < 1 {
        Parsed::Incomplete
    } else if data[0] == HELLO_MSG_ID {
        if data.len() < 17 {
            Parsed::Incomplete
        } else {
            Parsed::Message(
                StreamCodecMessageView::Hello(
                    HelloMessage {
                        sender_id: spec_u64_from_le_bytes(data.subrange(1, 9)),
                        sender_last_rx: spec_u64_from_le_bytes(data.subrange(9, 17)),
                    },
                ),
                17,
            )
        }
    } else if data[0] == ACK_MSG_ID {
        if data.len() < 9 {
            Parsed::Incomplete
        } else {
            Parsed::Message(
                StreamCodecMessageView::Ack(spec_u64_from_le_bytes(data.subrange(1, 9))),
                9,
            )
        }
    } else if data[0] == DATA_MSG_ID {
        let size = spec_u32_from_le_bytes(data.subrange(1, 5)) as int;
        if data.len() < 5 || data.len() < 5 + size {
            Parsed::Incomplete
        } else {
            Parsed::Message(StreamCodecMessageView::Data(data.subrange(5, 5 + size)), 5 + size)
        }
    } else {
        Parsed::Rejected(StreamError::UnknownMsgId(data[0]))
    }
}

impl StreamCodecMessage {
    pub fn to_string(&self) -> (s: String)
        ensures
            s@ == self@.text(),
    {
        match self {
            StreamCodecMessage::Hello(_hm) => "Hello".to_string(),
            StreamCodecMessage::Data(d) => {
                let mut s = "Data(".to_string();
                s.append(decimal_string(d.len() as u64).as_str());
                s.append(")");
                s
            },
            StreamCodecMessage::Ack(seq) => {
                let mut s = "Ack(".to_string();
                s.append(decimal_string(*seq).as_str());
                s.append(")");
                s
            },
        }
    }

    /// Reads one message from the front of `data`. Returns it with the number
    /// of bytes that it takes up, or `None` where `data` ends before it does.
    pub fn parse(data: &[u8]) -> (res: Result<Option<(StreamCodecMessage, usize)>, StreamError>)
        ensures
            match res {
                Err(e) => parse_message(data@) == Parsed::<StreamCodecMessageView, _>::Rejected(e),
                Ok(None) => parse_message(data@) is Incomplete,
                Ok(Some((msg, size))) => parse_message(data@) == Parsed::<_, StreamError>::Message(
                    msg@,
                    size as int,
                ),
            },
    {
        if data.len() < 1 {
            return Ok(None);
        }
        let msg_id: u8 = data[0];
        if msg_id == HELLO_MSG_ID {
            if data.len() < 17 {
                return Ok(None);
            }
            let hm = HelloMessage {
                sender_id: u64_from_le_bytes(slice_subrange(data, 1, 9)),
                sender_last_rx: u64_from_le_bytes(slice_subrange(data, 9, 17)),
            };
            Ok(Some((StreamCodecMessage::Hello(hm), 17)))
        } else if msg_id == ACK_MSG_ID {
            if data.len() < 9 {
                return Ok(None);
            }
            let seq: u64 = u64_from_le_bytes(slice_subrange(data, 1, 9));
            Ok(Some((StreamCodecMessage::Ack(seq), 9)))
        } else if msg_id == DATA_MSG_ID {
            if data.len() < 5 {
                return Ok(None);
            }
            let msg_size: usize = u32_from_le_bytes(slice_subrange(data, 1, 5)) as usize;
            if data.len() - 5 < msg_size {
                return Ok(None);
            }
            let payload = slice_to_vec(slice_subrange(data, 5, 5 + msg_size));
            Ok(Some((StreamCodecMessage::Data(payload), 5 + msg_size)))
        } else {
            Err(StreamError::UnknownMsgId(msg_id))
        }
    }

    /// The bytes of the message.
    pub fn encode(&self) -> (bytes: Vec<u8>)
        requires
            self@.fits(),
        ensures
            bytes@ == self@.encoded(),
    {
        let mut ret: Vec<u8> = Vec::new();
        match self {
            StreamCodecMessage::Hello(hm) => {
                ret.push(HELLO_MSG_ID);
                ret.extend_from_slice(u64_to_le_bytes(hm.sender_id).as_slice());
                ret.extend_from_slice(u64_to_le_bytes(hm.sender_last_rx).as_slice());
            },
            StreamCodecMessage::Data(v) => {
                ret.push(DATA_MSG_ID);
                ret.extend_from_slice(u32_to_le_bytes(v.len() as u32).as_slice());
                ret.extend_from_slice(v.as_slice());
            },
            StreamCodecMessage::Ack(seq) => {
                ret.push(ACK_MSG_ID);
                ret.extend_from_slice(u64_to_le_bytes(*seq).as_slice());
            },
        }
        assert(ret@ =~= self@.encoded());
        ret
    }
}

/// What the bytes of a message say, for logs.
pub open spec fn described(data: Seq<u8>) -> Seq<char> {
    match parse_message(data) {
        Parsed::Rejected(e) => "Error "@ + e.text(),
        Parsed::Incomplete => "Nothing"@,
        Parsed::Message(m, n) => "Some message "@ + m.text() + " len "@ + text::decimal(n as nat),
    }
}

/// Says what the message at the front of `data` is.
pub fn parse(data: &[u8]) -> (s: String)
    ensures
        s@ == described(data@),
{
    match StreamCodecMessage::parse(data) {
        Err(e) => {
            let mut s = "Error ".to_string();
            s.append(e.to_string().as_str());
            s
        },
        Ok(None) => "Nothing".to_string(),
        Ok(Some((m, l))) => {
            let mut s = "Some message ".to_string();
            s.append(m.to_string().as_str());
            s.append(" len ");
            s.append(decimal_string(l as u64).as_str());
            s
        },
    }
}

/// The codec of one connection. Its name says in logs which end it serves.
pub struct StreamCodec {
    pub name: String,
}

impl StreamCodec {
    /// Takes one message off the front of the receive buffer. Where there is
    /// none, the buffer stays as it is.
    pub fn decode(&mut self, buf: &mut BytesMut) -> (res: Result<
        Option<StreamCodecMessage>,
        StreamError,
    >)
        ensures
            *final(self) == *old(self),
            match parse_message(buffer::buffered(*old(buf))) {
                Parsed::Rejected(e) => {
                    &&& res == Err::<Option<StreamCodecMessage>, _>(e)
                    &&& buffer::buffered(*final(buf)) == buffer::buffered(*old(buf))
                },
                Parsed::Incomplete => {
                    &&& res == Ok::<Option<StreamCodecMessage>, StreamError>(None)
                    &&& buffer::buffered(*final(buf)) == buffer::buffered(*old(buf))
                },
                Parsed::Message(m, n) => {
                    &&& res matches Ok(Some(msg)) && msg@ == m
                    &&& buffer::buffered(*final(buf)) == buffer::buffered(*old(buf)).skip(n)
                },
            },
    {
        match StreamCodecMessage::parse(buffer::as_slice(buf)) {
            Err(e) => Err(e),
            Ok(None) => Ok(None),
            Ok(Some((msg, skip))) => {
                let _ = buffer::split_to(buf, skip);
                Ok(Some(msg))
            },
        }
    }

    /// Whether `item` can be appended to the send buffer by
    /// [`StreamCodec::encode`]: its payload's length fits, and the buffer does not
    /// outgrow what it can allocate.
    pub fn can_encode(&self, item: &StreamCodecMessage, dst: &BytesMut) -> (can: bool)
        ensures
            can == (item@.fits() && buffer::buffered(*dst).len() + item@.encoded().len()
                <= isize::MAX / 4),
    {
        proof {
            lemma_auto_spec_u64_to_from_le_bytes();
            lemma_auto_spec_u32_to_from_le_bytes();
        }
        let payload: usize = match item {
            StreamCodecMessage::Hello(_) => 0,
            StreamCodecMessage::Data(d) => d.len(),
            StreamCodecMessage::Ack(_) => 0,
        };
        let header: usize = match item {
            StreamCodecMessage::Hello(_) => 17,
            StreamCodecMessage::Data(_) => 5,
            StreamCodecMessage::Ack(_) => 9,
        };
        let room: usize = isize::MAX as usize / 4;
        let held: usize = buffer::as_slice(dst).len();
        payload as u64 <= u32::MAX as u64 && held <= room && header <= room - held && payload
            <= room - held - header
    }

    /// Appends the bytes of `item` to the send buffer.
    pub fn encode(&mut self, item: StreamCodecMessage, dst: &mut BytesMut) -> (res: Result<
        (),
        StreamError,
    >)
        requires
            item@.fits(),
            buffer::buffered(*old(dst)).len() + item@.encoded().len() <= isize::MAX / 4,
        ensures
            *final(self) == *old(self),
            res is Ok,
            buffer::buffered(*final(dst)) == buffer::buffered(*old(dst)) + item@.encoded(),
    {
        let encoded = item.encode();
        buffer::put_slice(dst, encoded.as_slice());
        Ok(())
    }
}

/// The function that cuts a byte stream into messages.
pub open spec fn message_parser() -> spec_fn(Seq<u8>) -> Parsed<
    StreamCodecMessageView,
    StreamError,
> {
    |data: Seq<u8>| parse_message(data)
}

/// The function that turns a message into bytes.
pub open spec fn message_encoder() -> spec_fn(StreamCodecMessageView) -> Seq<u8> {
    |m: StreamCodecMessageView| m.encoded()
}

/// What is encoded is read back: the bytes of a message, whatever follows
/// them, are that message and nothing more.
pub proof fn law_parse_encoded(m: StreamCodecMessageView, rest: Seq<u8>)
    requires
        m.fits(),
    ensures
        parse_message(m.encoded() + rest) == Parsed::<_, StreamError>::Message(
            m,
            m.encoded().len() as int,
        ),
{
    lemma_auto_spec_u64_to_from_le_bytes();
    lemma_auto_spec_u32_to_from_le_bytes();
    let data = m.encoded() + rest;
    match m {
        StreamCodecMessageView::Hello(hm) => {
            assert(data.subrange(1, 9) =~= spec_u64_to_le_bytes(hm.sender_id));
            assert(data.subrange(9, 17) =~= spec_u64_to_le_bytes(hm.sender_last_rx));
        },
        StreamCodecMessageView::Data(d) => {
            assert(data.subrange(1, 5) =~= spec_u32_to_le_bytes(d.len() as u32));
            assert(data.subrange(5, (5 + d.len()) as int) =~= d);
        },
        StreamCodecMessageView::Ack(seq) => {
            assert(data.subrange(1, 9) =~= spec_u64_to_le_bytes(seq));
        },
    }
}

/// Every message has one encoding only: bytes that are read as a message are
/// the bytes that the message is encoded as.
pub proof fn law_encode_parsed(data: Seq<u8>)
    ensures
        parse_message(data) matches Parsed::Message(m, n) ==> {
            &&& m.fits()
            &&& m.encoded() == data.take(n)
        },
{
    lemma_auto_spec_u64_to_from_le_bytes();
    lemma_auto_spec_u32_to_from_le_bytes();
    if let Parsed::Message(m, n) = parse_message(data) {
        match m {
            StreamCodecMessageView::Hello(hm) => {
                let a = data.subrange(1, 9);
                let b = data.subrange(9, 17);
                assert(spec_u64_to_le_bytes(spec_u64_from_le_bytes(a)) == a);
                assert(spec_u64_to_le_bytes(spec_u64_from_le_bytes(b)) == b);
            },
            StreamCodecMessageView::Data(d) => {
                let a = data.subrange(1, 5);
                assert(spec_u32_to_le_bytes(spec_u32_from_le_bytes(a)) == a);
            },
            StreamCodecMessageView::Ack(seq) => {
                let a = data.subrange(1, 9);
                assert(spec_u64_to_le_bytes(spec_u64_from_le_bytes(a)) == a);
            },
        }
        assert(m.encoded() =~= data.take(n));
    }
}

/// A message that has arrived in part only is waited for.
pub proof fn law_parse_truncated(m: StreamCodecMessageView, k: int)
    requires
        m.fits(),
        0 <= k < m.encoded().len(),
    ensures
        parse_message(m.encoded().take(k)) is Incomplete,
{
    lemma_auto_spec_u64_to_from_le_bytes();
    lemma_auto_spec_u32_to_from_le_bytes();
    let data = m.encoded().take(k);
    if let StreamCodecMessageView::Data(d) = m {
        if k >= 5 {
            assert(data.subrange(1, 5) =~= spec_u32_to_le_bytes(d.len() as u32));
        }
    }
}

/// A message takes up some of the bytes at hand, and more bytes do not change
/// what has been read or refused.
pub proof fn law_messages_well_framed()
    ensures
        framing::well_framed(message_parser()),
{
    let parse = message_parser();
    assert forall|d: Seq<u8>, x: Seq<u8>| !(parse(d) is Incomplete) implies #[trigger] parse(d + x)
        == parse(d) by {
        assert((d + x)[0] == d[0]);
        if d[0] == HELLO_MSG_ID {
            assert((d + x).subrange(1, 9) =~= d.subrange(1, 9));
            assert((d + x).subrange(9, 17) =~= d.subrange(9, 17));
        } else if d[0] == ACK_MSG_ID {
            assert((d + x).subrange(1, 9) =~= d.subrange(1, 9));
        } else if d[0] == DATA_MSG_ID {
            assert((d + x).subrange(1, 5) =~= d.subrange(1, 5));
            let size = spec_u32_from_le_bytes(d.subrange(1, 5)) as int;
            assert((d + x).subrange(5, 5 + size) =~= d.subrange(5, 5 + size));
        }
    }
}

/// The other end reads the messages that were sent, in order and without loss,
/// and then whatever was sent after them.
pub proof fn law_messages_survive(msgs: Seq<StreamCodecMessageView>, tail: Seq<u8>)
    requires
        forall|i: int| 0 <= i < msgs.len() ==> (#[trigger] msgs[i]).fits(),
    ensures
        framing::drain(
            message_parser(),
            framing::encode_all(message_encoder(), msgs) + tail,
        ) == (framing::Drained {
            messages: msgs + framing::drain(message_parser(), tail).messages,
            rest: framing::drain(message_parser(), tail).rest,
            error: framing::drain(message_parser(), tail).error,
        }),
{
    let parse = message_parser();
    let encode = message_encoder();
    law_messages_well_framed();
    assert forall|i: int, rest: Seq<u8>| 0 <= i < msgs.len() implies parse(
        #[trigger] (encode(msgs[i]) + rest),
    ) == Parsed::<StreamCodecMessageView, StreamError>::Message(
        msgs[i],
        encode(msgs[i]).len() as int,
    ) by {
        law_parse_encoded(msgs[i], rest);
    }
    framing::lemma_drain_encoded(parse, encode, msgs, tail);
}

/// What is put into a buffer comes out of it again: messages that are encoded one
/// behind the other are decoded first to last, each call taking off the first
/// and leaving the others, until the buffer is empty.
pub proof fn law_buffer_gives_back(msgs: Seq<StreamCodecMessageView>, last: StreamCodecMessageView)
    requires
        forall|i: int| 0 <= i < msgs.len() ==> (#[trigger] msgs[i]).fits(),
        last.fits(),
    ensures
        ({
            let all = |m: Seq<StreamCodecMessageView>| framing::encode_all(message_encoder(), m);
            &&& all(seq![]) == Seq::<u8>::empty()
            &&& all(msgs.push(last)) == all(msgs) + last.encoded()
            &&& msgs.len() > 0 ==> {
                let n = msgs[0].encoded().len() as int;
                &&& parse_message(all(msgs)) == Parsed::<_, StreamError>::Message(msgs[0], n)
                &&& all(msgs).skip(n) == all(msgs.drop_first())
            }
            &&& framing::drain(message_parser(), all(msgs)) == (framing::Drained::<
                StreamCodecMessageView,
                StreamError,
            > { messages: msgs, rest: seq![], error: None })
        }),
{
    let none = Seq::<u8>::empty();
    let sent = framing::encode_all(message_encoder(), msgs);
    framing::lemma_encode_all_push(message_encoder(), msgs, last);
    if msgs.len() > 0 {
        let rest = framing::encode_all(message_encoder(), msgs.drop_first());
        law_parse_encoded(msgs[0], rest);
        assert(sent.skip(msgs[0].encoded().len() as int) =~= rest);
    }
    law_messages_survive(msgs, none);
    assert(sent + none =~= sent);
    assert(msgs + framing::drain(message_parser(), none).messages =~= msgs);
}

/// How the bytes are cut into reads makes no difference to the messages.
pub proof fn law_messages_chunked(a: Seq<u8>, b: Seq<u8>)
    ensures
        framing::drain(message_parser(), a + b) == framing::drain_then(message_parser(), a, b),
{
    law_messages_well_framed();
    framing::lemma_drain_append(message_parser(), a, b);
}

/// The bytes of a message, position by position.
pub proof fn law_message_layout(m: StreamCodecMessageView)
    requires
        m.fits(),
    ensures
        ({
            let e = m.encoded();
            match m {
                StreamCodecMessageView::Hello(hm) => {
                    &&& e.len() == 17
                    &&& e[0] == 1
                    &&& e.subrange(1, 9) == spec_u64_to_le_bytes(hm.sender_id)
                    &&& e.subrange(9, 17) == spec_u64_to_le_bytes(hm.sender_last_rx)
                },
                StreamCodecMessageView::Data(d) => {
                    &&& e.len() == 5 + d.len()
                    &&& e[0] == 2
                    &&& e.subrange(1, 5) == spec_u32_to_le_bytes(d.len() as u32)
                    &&& e.skip(5) == d
                },
                StreamCodecMessageView::Ack(seq) => {
                    &&& e.len() == 9
                    &&& e[0] == 3
                    &&& e.skip(1) == spec_u64_to_le_bytes(seq)
                },
            }
        }),
{
    lemma_auto_spec_u64_to_from_le_bytes();
    lemma_auto_spec_u32_to_from_le_bytes();
    let e = m.encoded();
    match m {
        StreamCodecMessageView::Hello(hm) => {
            assert(e.subrange(1, 9) =~= spec_u64_to_le_bytes(hm.sender_id));
            assert(e.subrange(9, 17) =~= spec_u64_to_le_bytes(hm.sender_last_rx));
        },
        StreamCodecMessageView::Data(d) => {
            assert(e.subrange(1, 5) =~= spec_u32_to_le_bytes(d.len() as u32));
            assert(e.skip(5) =~= d);
        },
        StreamCodecMessageView::Ack(seq) => {
            assert(e.skip(1) =~= spec_u64_to_le_bytes(seq));
        },
    }
}

/// Every payload of up to 2^32 - 1 bytes can be sent.
pub proof fn law_payload_limit(m: StreamCodecMessageView)
    ensures
        m.fits() <==> (m matches StreamCodecMessageView::Data(d) ==> d.len() <= 0xffff_ffff),
{
}

/// Bytes are refused exactly where the first of them is none of the three that
/// messages begin with, whatever follows it.
pub proof fn law_unknown_message_is_refused(first: u8, rest: Seq<u8>)
    ensures
        ({
            let parsed = parse_message(seq![first] + rest);
            &&& parsed is Rejected <==> !(1 <= first <= 3)
            &&& parsed matches Parsed::Rejected(e) ==> e == StreamError::UnknownMsgId(first)
        }),
        parse_message(seq![]) is Incomplete,
{
    assert((seq![first] + rest)[0] == first);
}

/// What the errors and the messages are called.
pub proof fn law_texts(seq: u64, base_offset: u64, unacked: usize, id: u8, d: Seq<u8>, hm: HelloMessage)
    ensures
        StreamError::AckBeforeBase.text() == "acked seq is before a previously acked one"@,
        StreamError::AckTooFar.text() == "seq > base offset"@,
        (StreamError::AckBeyondSent { seq, base_offset, unacked }).text() == "seq "@
            + text::decimal(seq as nat) + " > sent_unacked (off="@ + text::decimal(
            base_offset as nat,
        ) + " unacked="@ + text::decimal(unacked as nat) + ")"@,
        StreamError::UnknownMsgId(id).text() == "unknown msg id "@ + text::decimal(id as nat)
            + "!"@,
        StreamCodecMessageView::Hello(hm).text() == "Hello"@,
        StreamCodecMessageView::Data(d).text() == "Data("@ + text::decimal(d.len()) + ")"@,
        StreamCodecMessageView::Ack(seq).text() == "Ack("@ + text::decimal(seq as nat) + ")"@,
{
}

/// How bytes are described follows from what is read in them.
pub proof fn law_descriptions(m: StreamCodecMessageView, data: Seq<u8>)
    ensures
        m.fits() ==> described(m.encoded()) == "Some message "@ + m.text() + " len "@
            + text::decimal(m.encoded().len()),
        parse_message(data) is Incomplete ==> described(data) == "Nothing"@,
        parse_message(data) matches Parsed::Rejected(e) ==> described(data) == "Error "@ + e.text(),
{
    if m.fits() {
        law_parse_encoded(m, seq![]);
        assert(m.encoded() + seq![] =~= m.encoded());
    }
}

/// A message is encoded for what it holds.
pub proof fn law_message_contents(m: StreamCodecMessage)
    ensures
        m matches StreamCodecMessage::Hello(hm) ==> m@ == StreamCodecMessageView::Hello(hm),
        m matches StreamCodecMessage::Data(d) ==> m@ == StreamCodecMessageView::Data(d@),
        m matches StreamCodecMessage::Ack(seq) ==> m@ == StreamCodecMessageView::Ack(seq),
{
}

/// What one end encodes the other reads: the same message and no byte more.
pub proof fn law_encoded_message_is_read(
    msg: &StreamCodecMessage,
    bytes: Vec<u8>,
    data: &[u8],
    rest: Seq<u8>,
    res: Result<Option<(StreamCodecMessage, usize)>, StreamError>,
)
    requires
        msg@.fits(),
        call_ensures(StreamCodecMessage::encode, (msg,), bytes),
        data@ == bytes@ + rest,
        call_ensures(StreamCodecMessage::parse, (data,), res),
    ensures
        res matches Ok(Some((read, size))) && read@ == msg@ && size == bytes@.len(),
{
    law_parse_encoded(msg@, rest);
}

} // verus!
