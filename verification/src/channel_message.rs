//! The frames that multiplex many byte streams over one, and their encoding.
//!
//! A frame starts with a header of thirteen bytes: one that says what it is,
//! the length of the whole frame in four, and the id of the stream that it is
//! about in eight. The payload follows: bytes for a data frame, text in UTF-8
//! for an error frame, nothing for the others. All numbers are little endian.

use crate::framing;
use crate::framing::Parsed;
use crate::multiplexer_error::MultiplexerError;
use crate::text;
use crate::text::decimal_string;
use vstd::bytes::*;
use vstd::prelude::*;
use vstd::slice::*;
#[allow(unused_imports)]
use vstd::string::*;
#[allow(unused_imports)]
use vstd::utf8::*;

verus! {

pub const CONNECT_MSG_ID: u8 = 1;

pub const DATA_MSG_ID: u8 = 2;

pub const ERROR_MSG_ID: u8 = 3;

pub const DISCONNECT_MSG_ID: u8 = 4;

pub const PAUSE_MSG_ID: u8 = 5;

pub const RESUME_MSG_ID: u8 = 6;

/// The length of a frame without a payload.
pub const HEADER_SIZE: usize = 13;

#[derive(Debug, PartialEq, Eq, Hash, Clone, Copy, Structural)]
pub struct OngoingStreamId(pub u64);

#[derive(Debug, PartialEq, Eq, Hash, Clone, Copy, Structural)]
pub struct ConnectMsg {
    pub stream_id: OngoingStreamId,
}

#[derive(Debug, PartialEq, Eq, Hash, Clone, Copy, Structural)]
pub struct DisconnectMsg {
    pub stream_id: OngoingStreamId,
}

#[derive(Debug, PartialEq, Eq, Hash, Clone)]
pub struct DataMsg {
    pub stream_id: OngoingStreamId,
    pub to_send: Vec<u8>,
}

#[derive(Debug, PartialEq, Eq, Hash, Clone)]
pub struct ErrorMsg {
    pub stream_id: OngoingStreamId,
    pub message: String,
}

#[derive(Debug, PartialEq, Eq, Hash, Clone, Copy, Structural)]
pub struct PauseMsg {
    pub stream_id: OngoingStreamId,
}

#[derive(Debug, PartialEq, Eq, Hash, Clone, Copy, Structural)]
pub struct ResumeMsg {
    pub stream_id: OngoingStreamId,
}

#[derive(Debug, PartialEq, Eq, Hash, Clone)]
pub enum ChannelMessage {
    /// A new stream.
    Connect(ConnectMsg),
    /// Bytes of a stream.
    Data(DataMsg),
    /// The end of a stream.
    Disconnect(DisconnectMsg),
    /// The failure of a stream.
    Error(ErrorMsg),
    /// Send no more bytes of a stream for now.
    Pause(PauseMsg),
    /// Send bytes of a stream again.
    Resume(ResumeMsg),
}

/// A message as a mathematical value.
pub enum ChannelMessageView {
    Connect(u64),
    Data(u64, Seq<u8>),
    Disconnect(u64),
    Error(u64, Seq<char>),
    Pause(u64),
    Resume(u64),
}

impl View for ChannelMessage {
    type V = ChannelMessageView;

    open spec fn view(&self) -> ChannelMessageView {
        match *self {
            ChannelMessage::Connect(m) => ChannelMessageView::Connect(m.stream_id.0),
            ChannelMessage::Data(m) => ChannelMessageView::Data(m.stream_id.0, m.to_send@),
            ChannelMessage::Disconnect(m) => ChannelMessageView::Disconnect(m.stream_id.0),
            ChannelMessage::Error(m) => ChannelMessageView::Error(m.stream_id.0, m.message@),
            ChannelMessage::Pause(m) => ChannelMessageView::Pause(m.stream_id.0),
            ChannelMessage::Resume(m) => ChannelMessageView::Resume(m.stream_id.0),
        }
    }
}

/// The bytes of a frame.
pub open spec fn frame(id: u8, stream_id: u64, payload: Seq<u8>) -> Seq<u8> {
    seq![id] + spec_u32_to_le_bytes((13 + payload.len()) as u32) + spec_u64_to_le_bytes(stream_id)
        + payload
}

/// The name of a stream in the text of a message.
pub open spec fn id_text(stream_id: u64) -> Seq<char> {
    "OngoingStreamId("@ + text::decimal(stream_id as nat) + ")"@
}

impl ChannelMessageView {
    /// The stream that the message is about.
    pub open spec fn stream_id(self) -> u64 {
        match self {
            ChannelMessageView::Connect(id) => id,
            ChannelMessageView::Data(id, _) => id,
            ChannelMessageView::Disconnect(id) => id,
            ChannelMessageView::Error(id, _) => id,
            ChannelMessageView::Pause(id) => id,
            ChannelMessageView::Resume(id) => id,
        }
    }

    /// The first byte of the message's frame.
    pub open spec fn msg_id(self) -> u8 {
        match self {
            ChannelMessageView::Connect(_) => CONNECT_MSG_ID,
            ChannelMessageView::Data(_, _) => DATA_MSG_ID,
            ChannelMessageView::Disconnect(_) => DISCONNECT_MSG_ID,
            ChannelMessageView::Error(_, _) => ERROR_MSG_ID,
            ChannelMessageView::Pause(_) => PAUSE_MSG_ID,
            ChannelMessageView::Resume(_) => RESUME_MSG_ID,
        }
    }

    /// What follows the header in the message's frame.
    pub open spec fn payload(self) -> Seq<u8> {
        match self {
            ChannelMessageView::Data(_, bytes) => bytes,
            ChannelMessageView::Error(_, message) => encode_utf8(message),
            _ => seq![],
        }
    }

    /// Whether the length of the message's frame fits its four bytes.
    pub open spec fn fits(self) -> bool {
        13 + self.payload().len() <= u32::MAX
    }

    /// The message that is sent for this one: itself, or where it is too long
    /// an error that says so.
    pub open spec fn as_sent(self) -> ChannelMessageView {
        if self.fits() {
            self
        } else {
            ChannelMessageView::Error(
                self.stream_id(),
                if self is Data {
                    "Bad data size"@
                } else {
                    "Bad error data size"@
                },
            )
        }
    }

    /// The bytes that stand for the message.
    pub open spec fn encoded(self) -> Seq<u8> {
        frame(self.as_sent().msg_id(), self.stream_id(), self.as_sent().payload())
    }

    /// What the message says, for logs.
    pub open spec fn text(self) -> Seq<char> {
        match self {
            ChannelMessageView::Connect(id) => "Connect("@ + id_text(id) + ")"@,
            ChannelMessageView::Data(id, bytes) => "Data("@ + id_text(id) + ") n="@ + text::decimal(
                bytes.len(),
            ),
            ChannelMessageView::Disconnect(id) => "Disconnect("@ + id_text(id) + ")"@,
            ChannelMessageView::Error(id, message) => "Error("@ + id_text(id) + ") "@ + message,
            ChannelMessageView::Pause(id) => "Pause("@ + id_text(id) + ")"@,
            ChannelMessageView::Resume(id) => "Resume("@ + id_text(id) + ")"@,
        }
    }
}

/// The message of a frame with the given first byte, stream and payload, or
/// what is wrong with it.
pub open spec fn read_frame(id: u8, stream_id: u64, payload: Seq<u8>) -> Result<
    ChannelMessageView,
    Seq<char>,
> {
    if id == CONNECT_MSG_ID {
        if payload.len() != 0 {
            Err("Expected 8 len"@)
        } else {
            Ok(ChannelMessageView::Connect(stream_id))
        }
    } else if id == DISCONNECT_MSG_ID {
        if payload.len() != 0 {
            Err("Expected 8 len for disconnect"@)
        } else {
            Ok(ChannelMessageView::Disconnect(stream_id))
        }
    } else if id == DATA_MSG_ID {
        Ok(ChannelMessageView::Data(stream_id, payload))
    } else if id == ERROR_MSG_ID {
        if !valid_utf8(payload) {
            Err("unable to decode string"@)
        } else {
            Ok(ChannelMessageView::Error(stream_id, decode_utf8(payload)))
        }
    } else if id == PAUSE_MSG_ID {
        if payload.len() != 0 {
            Err("Expected 13 len for pause"@)
        } else {
            Ok(ChannelMessageView::Pause(stream_id))
        }
    } else if id == RESUME_MSG_ID {
        if payload.len() != 0 {
            Err("Expected 13 len for resume"@)
        } else {
            Ok(ChannelMessageView::Resume(stream_id))
        }
    } else {
        Err("unknown msg id "@ + text::decimal(id as nat) + "!"@)
    }
}

/// The message that the first bytes of `data` stand for.
pub open spec fn parse_message(data: Seq<u8>) -> Parsed<ChannelMessageView, Seq<char>> {
    if data.len() < 13 {
        Parsed::Incomplete
    } else {
        let size = spec_u32_from_le_bytes(data.subrange(1, 5)) as int;
        if size < 13 {
            Parsed::Rejected("Frame too small: minimum is 13 bytes"@)
        } else if size > data.len() {
            Parsed::Incomplete
        } else {
            match read_frame(
                data[0],
                spec_u64_from_le_bytes(data.subrange(5, 13)),
                data.subrange(13, size),
            ) {
                Err(e) => Parsed::Rejected(e),
                Ok(m) => Parsed::Message(m, size),
            }
        }
    }
}

/// The name of a stream followed by what closes the text of a message.
fn named(what: &str, stream_id: OngoingStreamId, rest: &str) -> (s: String)
    ensures
        s@ == what@ + id_text(stream_id.0) + rest@,
{
    let mut s = what.to_string();
    s.append("OngoingStreamId(");
    s.append(decimal_string(stream_id.0).as_str());
    s.append(")");
    s.append(rest);
    assert(s@ =~= what@ + id_text(stream_id.0) + rest@);
    s
}

/// The bytes of a frame whose length fits.
fn encode_frame(id: u8, stream_id: OngoingStreamId, payload: &[u8]) -> (bytes: Vec<u8>)
    requires
        13 + payload@.len() <= u32::MAX,
    ensures
        bytes@ == frame(id, stream_id.0, payload@),
{
    let size: u32 = (HEADER_SIZE + payload.len()) as u32;
    let mut ret: Vec<u8> = Vec::new();
    ret.push(id);
    ret.extend_from_slice(u32_to_le_bytes(size).as_slice());
    ret.extend_from_slice(u64_to_le_bytes(stream_id.0).as_slice());
    ret.extend_from_slice(payload);
    assert(ret@ =~= frame(id, stream_id.0, payload@));
    ret
}

proof fn lemma_size_errors_fit()
    ensures
        encode_utf8("Bad data size"@).len() == 13,
        encode_utf8("Bad error data size"@).len() == 19,
{
    reveal_strlit("Bad data size");
    reveal_strlit("Bad error data size");
    is_ascii_chars_encode_utf8("Bad data size"@);
    is_ascii_chars_encode_utf8("Bad error data size"@);
}

impl ChannelMessage {
    /// What the message says, for logs.
    pub fn to_string(&self) -> (s: String)
        ensures
            s@ == self@.text(),
    {
        match self {
            ChannelMessage::Connect(m) => named("Connect(", m.stream_id, ")"),
            ChannelMessage::Data(m) => {
                let mut s = named("Data(", m.stream_id, ") n=");
                s.append(decimal_string(m.to_send.len() as u64).as_str());
                s
            },
            ChannelMessage::Disconnect(m) => named("Disconnect(", m.stream_id, ")"),
            ChannelMessage::Error(m) => {
                let mut s = named("Error(", m.stream_id, ") ");
                s.append(m.message.as_str());
                s
            },
            ChannelMessage::Pause(m) => named("Pause(", m.stream_id, ")"),
            ChannelMessage::Resume(m) => named("Resume(", m.stream_id, ")"),
        }
    }

    /// Reads one message from the front of `data`. Returns it with the number
    /// of bytes that it takes up, or `None` where `data` ends before it does.
    pub fn parse(data: &[u8]) -> (res: Result<Option<(ChannelMessage, usize)>, MultiplexerError>)
        ensures
            match res {
                Err(e) => parse_message(data@) == Parsed::<ChannelMessageView, _>::Rejected(e@),
                Ok(None) => parse_message(data@) is Incomplete,
                Ok(Some((msg, size))) => parse_message(data@) == Parsed::<_, Seq<char>>::Message(
                    msg@,
                    size as int,
                ),
            },
    {
        if data.len() < HEADER_SIZE {
            return Ok(None);
        }
        let type_part: u8 = data[0];
        let len: usize = u32_from_le_bytes(slice_subrange(data, 1, 5)) as usize;
        if len < HEADER_SIZE {
            return Err(MultiplexerError::from("Frame too small: minimum is 13 bytes"));
        }
        let stream_id = OngoingStreamId(u64_from_le_bytes(slice_subrange(data, 5, 13)));
        if len > data.len() {
            return Ok(None);
        }
        let data_part: &[u8] = slice_subrange(data, HEADER_SIZE, len);
        match type_part {
            CONNECT_MSG_ID => {
                if len != HEADER_SIZE {
                    return Err(MultiplexerError::from("Expected 8 len"));
                }
                Ok(Some((ChannelMessage::Connect(ConnectMsg { stream_id }), len)))
            },
            DISCONNECT_MSG_ID => {
                if len != HEADER_SIZE {
                    return Err(MultiplexerError::from("Expected 8 len for disconnect"));
                }
                Ok(Some((ChannelMessage::Disconnect(DisconnectMsg { stream_id }), len)))
            },
            DATA_MSG_ID => {
                let to_send = slice_to_vec(data_part);
                Ok(Some((ChannelMessage::Data(DataMsg { stream_id, to_send }), len)))
            },
            ERROR_MSG_ID => {
                match std::str::from_utf8(data_part) {
                    Err(_) => Err(MultiplexerError::from("unable to decode string")),
                    Ok(msg) => {
                        let message = msg.to_string();
                        proof {
                            encode_utf8_decode_utf8(message@);
                        }
                        Ok(Some((ChannelMessage::Error(ErrorMsg { stream_id, message }), len)))
                    },
                }
            },
            PAUSE_MSG_ID => {
                if len != HEADER_SIZE {
                    return Err(MultiplexerError::from("Expected 13 len for pause"));
                }
                Ok(Some((ChannelMessage::Pause(PauseMsg { stream_id }), len)))
            },
            RESUME_MSG_ID => {
                if len != HEADER_SIZE {
                    return Err(MultiplexerError::from("Expected 13 len for resume"));
                }
                Ok(Some((ChannelMessage::Resume(ResumeMsg { stream_id }), len)))
            },
            _ => {
                let mut s = "unknown msg id ".to_string();
                s.append(decimal_string(type_part as u64).as_str());
                s.append("!");
                Err(MultiplexerError::from(s.as_str()))
            },
        }
    }

    /// The bytes of the message. Where it is too long for a frame, they are
    /// those of an error that says so.
    pub fn encode(&self) -> (bytes: Vec<u8>)
        ensures
            bytes@ == self@.encoded(),
    {
        proof {
            lemma_size_errors_fit();
        }
        let empty: Vec<u8> = Vec::new();
        let none: &[u8] = empty.as_slice();
        assert(none@ =~= seq![]);
        let max_payload: u64 = u32::MAX as u64 - HEADER_SIZE as u64;
        match self {
            ChannelMessage::Connect(m) => encode_frame(CONNECT_MSG_ID, m.stream_id, none),
            ChannelMessage::Disconnect(m) => encode_frame(DISCONNECT_MSG_ID, m.stream_id, none),
            ChannelMessage::Data(m) => {
                if m.to_send.len() as u64 <= max_payload {
                    encode_frame(DATA_MSG_ID, m.stream_id, m.to_send.as_slice())
                } else {
                    encode_frame(ERROR_MSG_ID, m.stream_id, "Bad data size".as_bytes())
                }
            },
            ChannelMessage::Error(m) => {
                let edata: &[u8] = m.message.as_str().as_bytes();
                if edata.len() as u64 <= max_payload {
                    encode_frame(ERROR_MSG_ID, m.stream_id, edata)
                } else {
                    encode_frame(ERROR_MSG_ID, m.stream_id, "Bad error data size".as_bytes())
                }
            },
            ChannelMessage::Pause(m) => encode_frame(PAUSE_MSG_ID, m.stream_id, none),
            ChannelMessage::Resume(m) => encode_frame(RESUME_MSG_ID, m.stream_id, none),
        }
    }
}

/// Reads messages out of bytes that arrive in pieces.
pub struct ChannelMessageParser {
    buffer: Vec<u8>,
}

impl View for ChannelMessageParser {
    type V = Seq<u8>;

    /// The bytes that have arrived and not been read.
    closed spec fn view(&self) -> Seq<u8> {
        self.buffer@
    }
}

impl ChannelMessageParser {
    pub fn new() -> (parser: ChannelMessageParser)
        ensures
            parser@ == Seq::<u8>::empty(),
    {
        ChannelMessageParser { buffer: Vec::new() }
    }

    /// Takes in the bytes that have arrived.
    pub fn add(&mut self, data: Vec<u8>)
        ensures
            final(self)@ == old(self)@ + data@,
    {
        let mut data = data;
        if self.buffer.is_empty() {
            self.buffer = data;
            assert(self@ =~= old(self)@ + self@);
        } else {
            self.buffer.append(&mut data);
        }
    }

    /// Reads the next message, or returns `None` where it has not arrived in
    /// full. What is not a message stays where it is.
    pub fn next(&mut self) -> (res: Result<Option<ChannelMessage>, MultiplexerError>)
        ensures
            match parse_message(old(self)@) {
                Parsed::Rejected(e) => {
                    &&& res matches Err(err) && err@ == e
                    &&& final(self)@ == old(self)@
                },
                Parsed::Incomplete => {
                    &&& res matches Ok(None)
                    &&& final(self)@ == old(self)@
                },
                Parsed::Message(m, n) => {
                    &&& res matches Ok(Some(msg)) && msg@ == m
                    &&& final(self)@ == old(self)@.skip(n)
                },
            },
    {
        match ChannelMessage::parse(self.buffer.as_slice()) {
            Err(e) => Err(e),
            Ok(None) => Ok(None),
            Ok(Some((msg, to_drop))) => {
                let rest = self.buffer.split_off(to_drop);
                self.buffer = rest;
                Ok(Some(msg))
            },
        }
    }
}

/// The function that cuts a byte stream into messages.
pub open spec fn message_parser() -> spec_fn(Seq<u8>) -> Parsed<ChannelMessageView, Seq<char>> {
    |data: Seq<u8>| parse_message(data)
}

/// The function that turns a message into bytes.
pub open spec fn message_encoder() -> spec_fn(ChannelMessageView) -> Seq<u8> {
    |m: ChannelMessageView| m.encoded()
}

/// A frame is read as what it was made of.
proof fn lemma_parse_frame(id: u8, stream_id: u64, payload: Seq<u8>, rest: Seq<u8>)
    requires
        13 + payload.len() <= u32::MAX,
    ensures
        frame(id, stream_id, payload).len() == 13 + payload.len(),
        parse_message(frame(id, stream_id, payload) + rest) == (match read_frame(
            id,
            stream_id,
            payload,
        ) {
            Err(e) => Parsed::Rejected(e),
            Ok(m) => Parsed::Message(m, (13 + payload.len()) as int),
        }),
{
    lemma_auto_spec_u64_to_from_le_bytes();
    lemma_auto_spec_u32_to_from_le_bytes();
    let data = frame(id, stream_id, payload) + rest;
    assert(data.subrange(1, 5) =~= spec_u32_to_le_bytes((13 + payload.len()) as u32));
    assert(data.subrange(5, 13) =~= spec_u64_to_le_bytes(stream_id));
    assert(data.subrange(13, (13 + payload.len()) as int) =~= payload);
}

/// Whatever is sent fits, so that only a message that does not is replaced.
proof fn lemma_as_sent_fits(m: ChannelMessageView)
    ensures
        m.as_sent().fits(),
        m.as_sent().as_sent() == m.as_sent(),
        m.as_sent().stream_id() == m.stream_id(),
{
    lemma_size_errors_fit();
}

/// What is encoded is read back: the bytes of a message, whatever follows
/// them, are that message and nothing more. A message that is too long is read
/// as the error that says so, on the same stream.
pub proof fn law_parse_encoded(m: ChannelMessageView, rest: Seq<u8>)
    ensures
        parse_message(m.encoded() + rest) == Parsed::<_, Seq<char>>::Message(
            m.as_sent(),
            m.encoded().len() as int,
        ),
        m.fits() ==> m.as_sent() == m,
        !m.fits() ==> m.as_sent() is Error,
        m.as_sent().stream_id() == m.stream_id(),
{
    lemma_as_sent_fits(m);
    lemma_parse_frame(m.as_sent().msg_id(), m.stream_id(), m.as_sent().payload(), rest);
    if let ChannelMessageView::Error(_, message) = m.as_sent() {
        encode_utf8_valid_utf8(message);
        encode_utf8_decode_utf8(message);
    }
}

/// Every message has one encoding only: bytes that are read as a message are
/// the bytes that the message is encoded as.
pub proof fn law_encode_parsed(data: Seq<u8>)
    ensures
        parse_message(data) matches Parsed::Message(m, n) ==> {
            &&& m.fits()
            &&& m.encoded() == data.take(n)
        },
{
    lemma_auto_spec_u64_to_from_le_bytes();
    lemma_auto_spec_u32_to_from_le_bytes();
    if let Parsed::Message(m, n) = parse_message(data) {
        let size_part = data.subrange(1, 5);
        let id_part = data.subrange(5, 13);
        let payload = data.subrange(13, n);
        assert(spec_u32_to_le_bytes(spec_u32_from_le_bytes(size_part)) == size_part);
        assert(spec_u64_to_le_bytes(spec_u64_from_le_bytes(id_part)) == id_part);
        if data[0] == ERROR_MSG_ID {
            decode_utf8_encode_utf8(payload);
        }
        assert(m.payload() =~= payload);
        assert(m.encoded() =~= data.take(n));
    }
}

/// A message that has arrived in part only is waited for.
pub proof fn law_parse_truncated(m: ChannelMessageView, k: int)
    requires
        0 <= k < m.encoded().len(),
    ensures
        parse_message(m.encoded().take(k)) is Incomplete,
{
    lemma_auto_spec_u64_to_from_le_bytes();
    lemma_auto_spec_u32_to_from_le_bytes();
    lemma_as_sent_fits(m);
    let data = m.encoded().take(k);
    let size = (13 + m.as_sent().payload().len()) as u32;
    if k >= 13 {
        assert(data.subrange(1, 5) =~= spec_u32_to_le_bytes(size));
    }
}

/// A message takes up some of the bytes at hand, and more bytes do not change
/// what has been read or refused.
pub proof fn law_messages_well_framed()
    ensures
        framing::well_framed(message_parser()),
{
    let parse = message_parser();
    assert forall|d: Seq<u8>, x: Seq<u8>| !(parse(d) is Incomplete) implies #[trigger] parse(d + x)
        == parse(d) by {
        assert((d + x)[0] == d[0]);
        assert((d + x).subrange(1, 5) =~= d.subrange(1, 5));
        assert((d + x).subrange(5, 13) =~= d.subrange(5, 13));
        let size = spec_u32_from_le_bytes(d.subrange(1, 5)) as int;
        if 13 <= size <= d.len() {
            assert((d + x).subrange(13, size) =~= d.subrange(13, size));
        }
    }
}

/// The other end reads the messages that were sent, in order and without loss,
/// and then whatever was sent after them.
pub proof fn law_messages_survive(msgs: Seq<ChannelMessageView>, tail: Seq<u8>)
    requires
        forall|i: int| 0 <= i < msgs.len() ==> (#[trigger] msgs[i]).fits(),
    ensures
        framing::drain(
            message_parser(),
            framing::encode_all(message_encoder(), msgs) + tail,
        ) == (framing::Drained {
            messages: msgs + framing::drain(message_parser(), tail).messages,
            rest: framing::drain(message_parser(), tail).rest,
            error: framing::drain(message_parser(), tail).error,
        }),
{
    let parse = message_parser();
    let encode = message_encoder();
    law_messages_well_framed();
    assert forall|i: int, rest: Seq<u8>| 0 <= i < msgs.len() implies parse(
        #[trigger] (encode(msgs[i]) + rest),
    ) == Parsed::<ChannelMessageView, Seq<char>>::Message(
        msgs[i],
        encode(msgs[i]).len() as int,
    ) by {
        law_parse_encoded(msgs[i], rest);
    }
    framing::lemma_drain_encoded(parse, encode, msgs, tail);
}

/// How the bytes are cut into pieces makes no difference to the messages.
pub proof fn law_messages_chunked(a: Seq<u8>, b: Seq<u8>)
    ensures
        framing::drain(message_parser(), a + b) == framing::drain_then(message_parser(), a, b),
{
    law_messages_well_framed();
    framing::lemma_drain_append(message_parser(), a, b);
}

/// The bytes of a message, position by position: what it is, the length of the
/// whole, the stream, and the payload.
pub proof fn law_frame_layout(m: ChannelMessageView)
    requires
        m.fits(),
    ensures
        ({
            let e = m.encoded();
            let (id, stream_id, payload) = match m {
                ChannelMessageView::Connect(id) => (1u8, id, Seq::<u8>::empty()),
                ChannelMessageView::Data(id, bytes) => (2u8, id, bytes),
                ChannelMessageView::Error(id, message) => (3u8, id, encode_utf8(message)),
                ChannelMessageView::Disconnect(id) => (4u8, id, Seq::<u8>::empty()),
                ChannelMessageView::Pause(id) => (5u8, id, Seq::<u8>::empty()),
                ChannelMessageView::Resume(id) => (6u8, id, Seq::<u8>::empty()),
            };
            &&& m.stream_id() == stream_id
            &&& e.len() == 13 + payload.len()
            &&& e[0] == id
            &&& e.subrange(1, 5) == spec_u32_to_le_bytes(e.len() as u32)
            &&& e.subrange(5, 13) == spec_u64_to_le_bytes(stream_id)
            &&& e.skip(13) == payload
        }),
{
    lemma_auto_spec_u64_to_from_le_bytes();
    lemma_auto_spec_u32_to_from_le_bytes();
    let e = m.encoded();
    assert(e.subrange(1, 5) =~= spec_u32_to_le_bytes(e.len() as u32));
    assert(e.subrange(5, 13) =~= spec_u64_to_le_bytes(m.stream_id()));
    assert(e.skip(13) =~= m.payload());
}

/// A message is replaced by an error exactly where its frame would be longer than
/// four bytes can tell; only data and errors can be.
pub proof fn law_frame_limit(m: ChannelMessageView)
    ensures
        m matches ChannelMessageView::Data(id, bytes) ==> {
            &&& m.fits() <==> 13 + bytes.len() <= 0xffff_ffff
            &&& !m.fits() ==> m.as_sent() == ChannelMessageView::Error(id, "Bad data size"@)
        },
        m matches ChannelMessageView::Error(id, message) ==> {
            &&& m.fits() <==> 13 + encode_utf8(message).len() <= 0xffff_ffff
            &&& !m.fits() ==> m.as_sent() == ChannelMessageView::Error(id, "Bad error data size"@)
        },
        !(m is Data) && !(m is Error) ==> m.fits(),
        m.fits() ==> m.as_sent() == m,
        m.encoded() == m.as_sent().encoded(),
{
    lemma_as_sent_fits(m);
}

/// A frame of any first byte, stream and payload, as long as its length can be
/// told: data and text of any kind are read, the rest only without a payload, and
/// an unassigned first byte never. Nothing is made of it before it has arrived in
/// full, nor of less than a header.
pub proof fn law_frames_are_read(id: u8, stream_id: u64, payload: Seq<u8>, size: u32, rest: Seq<u8>)
    requires
        13 + payload.len() <= u32::MAX,
    ensures
        ({
            let header = seq![id] + spec_u32_to_le_bytes(size) + spec_u64_to_le_bytes(stream_id);
            let data = header + payload;
            let whole = size == 13 + payload.len();
            let parsed = parse_message(data + rest);
            let bare = 1 == id || 4 <= id <= 6;
            &&& size < 13 ==> parsed == Parsed::<ChannelMessageView, _>::Rejected(
                "Frame too small: minimum is 13 bytes"@,
            )
            &&& size > data.len() ==> parse_message(data) is Incomplete
            &&& whole && id == 2 ==> parsed == Parsed::<_, Seq<char>>::Message(
                ChannelMessageView::Data(stream_id, payload),
                size as int,
            )
            &&& whole && id == 3 && valid_utf8(payload) ==> parsed == Parsed::<
                _,
                Seq<char>,
            >::Message(ChannelMessageView::Error(stream_id, decode_utf8(payload)), size as int)
            &&& whole && id == 3 && !valid_utf8(payload) ==> parsed == Parsed::<
                ChannelMessageView,
                _,
            >::Rejected("unable to decode string"@)
            &&& whole && bare && payload.len() == 0 ==> parsed == Parsed::<_, Seq<char>>::Message(
                if id == 1 {
                    ChannelMessageView::Connect(stream_id)
                } else if id == 4 {
                    ChannelMessageView::Disconnect(stream_id)
                } else if id == 5 {
                    ChannelMessageView::Pause(stream_id)
                } else {
                    ChannelMessageView::Resume(stream_id)
                },
                13,
            )
            &&& whole && bare && payload.len() > 0 ==> parsed == Parsed::<
                ChannelMessageView,
                _,
            >::Rejected(
                if id == 1 {
                    "Expected 8 len"@
                } else if id == 4 {
                    "Expected 8 len for disconnect"@
                } else if id == 5 {
                    "Expected 13 len for pause"@
                } else {
                    "Expected 13 len for resume"@
                },
            )
            &&& whole && !(1 <= id <= 6) ==> parsed == Parsed::<ChannelMessageView, _>::Rejected(
                "unknown msg id "@ + text::decimal(id as nat) + "!"@,
            )
        }),
        rest.len() < 13 ==> parse_message(rest) is Incomplete,
{
    lemma_auto_spec_u64_to_from_le_bytes();
    lemma_auto_spec_u32_to_from_le_bytes();
    let header = seq![id] + spec_u32_to_le_bytes(size) + spec_u64_to_le_bytes(stream_id);
    let data = header + payload;
    let all = data + rest;
    assert(all[0] == id);
    assert(data.subrange(1, 5) =~= spec_u32_to_le_bytes(size));
    assert(all.subrange(1, 5) =~= spec_u32_to_le_bytes(size));
    assert(all.subrange(5, 13) =~= spec_u64_to_le_bytes(stream_id));
    if size == 13 + payload.len() {
        assert(all.subrange(13, size as int) =~= payload);
    }
}

/// What the messages are called.
pub proof fn law_texts(id: u64, bytes: Seq<u8>, message: Seq<char>)
    ensures
        ({
            let name = "OngoingStreamId("@ + text::decimal(id as nat) + ")"@;
            &&& ChannelMessageView::Connect(id).text() == "Connect("@ + name + ")"@
            &&& ChannelMessageView::Data(id, bytes).text() == "Data("@ + name + ") n="@
                + text::decimal(bytes.len())
            &&& ChannelMessageView::Disconnect(id).text() == "Disconnect("@ + name + ")"@
            &&& ChannelMessageView::Error(id, message).text() == "Error("@ + name + ") "@ + message
            &&& ChannelMessageView::Pause(id).text() == "Pause("@ + name + ")"@
            &&& ChannelMessageView::Resume(id).text() == "Resume("@ + name + ")"@
        }),
{
}

/// A message is encoded for what it holds.
pub proof fn law_message_contents(m: ChannelMessage)
    ensures
        match m {
            ChannelMessage::Connect(c) => m@ == ChannelMessageView::Connect(c.stream_id.0),
            ChannelMessage::Data(d) => m@ == ChannelMessageView::Data(d.stream_id.0, d.to_send@),
            ChannelMessage::Disconnect(d) => m@ == ChannelMessageView::Disconnect(d.stream_id.0),
            ChannelMessage::Error(e) => m@ == ChannelMessageView::Error(
                e.stream_id.0,
                e.message@,
            ),
            ChannelMessage::Pause(p) => m@ == ChannelMessageView::Pause(p.stream_id.0),
            ChannelMessage::Resume(r) => m@ == ChannelMessageView::Resume(r.stream_id.0),
        },
{
}

/// What one end encodes the other reads: the same message, or the error that
/// stands for one too long, and no byte more.
pub proof fn law_encoded_message_is_read(
    msg: &ChannelMessage,
    bytes: Vec<u8>,
    data: &[u8],
    rest: Seq<u8>,
    res: Result<Option<(ChannelMessage, usize)>, MultiplexerError>,
)
    requires
        call_ensures(ChannelMessage::encode, (msg,), bytes),
        data@ == bytes@ + rest,
        call_ensures(ChannelMessage::parse, (data,), res),
    ensures
        res matches Ok(Some((read, size))) && read@ == msg@.as_sent() && size == bytes@.len(),
        msg@.fits() ==> msg@.as_sent() == msg@,
{
    law_parse_encoded(msg@, rest);
}

} // verus!
