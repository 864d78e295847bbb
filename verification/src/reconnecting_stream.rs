//! One end of a message stream that outlives its TCP connections.
//!
//! Each end numbers the data messages that it receives, and keeps those that
//! it has sent until the other end acknowledges them. Every connection starts
//! with a hello from either side, which says how much has arrived; what has
//! not is sent again.
//!
//! [`StreamState`] is what is kept from one connection to the next, and
//! [`StreamSession`] decides what to do on one connection. Neither touches a
//! socket or a channel: the caller reports events and carries out the steps.

#[allow(unused_imports)]
use crate::framing::Parsed;
use crate::random;
use crate::stream_codec;
use crate::stream_codec::{HelloMessage, StreamCodecMessage, StreamCodecMessageView, StreamError};
use vstd::prelude::*;
#[allow(unused_imports)]
use vstd::string::*;

verus! {

/// How much may be sent without being acknowledged.
pub struct StreamOptions {
    max_window: usize,
}

impl StreamOptions {
    /// The number of unacknowledged bytes at which no more are taken on.
    pub closed spec fn window(&self) -> nat {
        self.max_window as nat
    }

    pub fn new(max_window: usize) -> (options: StreamOptions)
        ensures
            options.window() == max_window,
    {
        StreamOptions { max_window }
    }

    pub fn default() -> (options: StreamOptions)
        ensures
            options.window() == 30_000_000,
    {
        StreamOptions { max_window: 30_000_000 }
    }
}

pub trait DataProvider {
    fn getdata(&self) -> (s: String)
        default_ensures
            s@ == "(Read more...)"@,
    {
        "(Read more...)".to_string()
    }
}

/// The number of bytes in a sequence of messages.
pub open spec fn total_len(msgs: Seq<Seq<u8>>) -> nat
    decreases msgs.len(),
{
    if msgs.len() == 0 {
        0
    } else {
        total_len(msgs.drop_last()) + msgs.last().len()
    }
}

/// The contents of vectors of bytes.
pub open spec fn contents(msgs: Seq<Vec<u8>>) -> Seq<Seq<u8>> {
    msgs.map_values(|v: Vec<u8>| v@)
}

/// One end of the stream as a mathematical value.
#[verifier::ext_equal]
pub struct StreamStateView {
    /// The number by which the other end knows this one.
    pub id: u64,
    /// The number by which this end knows the other one, once it does.
    pub remote_id: Option<u64>,
    /// The number of unacknowledged bytes at which no more are taken on.
    pub window: nat,
    /// The messages that were sent and not acknowledged, oldest first.
    pub unacked: Seq<Seq<u8>>,
    /// The number of messages that were acknowledged.
    pub base_offset: u64,
    /// The number of messages that were received.
    pub received_seq: u64,
}

impl StreamStateView {
    /// An end that has neither sent nor received anything.
    pub open spec fn fresh(id: u64, window: nat) -> StreamStateView {
        StreamStateView {
            id,
            remote_id: None,
            window,
            unacked: seq![],
            base_offset: 0,
            received_seq: 0,
        }
    }

    /// The same end with one more message to be acknowledged.
    pub open spec fn enqueued(self, data: Seq<u8>) -> StreamStateView {
        StreamStateView { unacked: self.unacked.push(data), ..self }
    }

    /// What makes an acknowledgement of the first `seq` messages unacceptable.
    pub open spec fn ack_error(self, seq: u64) -> Option<StreamError> {
        if seq < self.base_offset {
            Some(StreamError::AckBeforeBase)
        } else if seq - self.base_offset > usize::MAX {
            Some(StreamError::AckTooFar)
        } else if seq - self.base_offset > self.unacked.len() {
            Some(
                StreamError::AckBeyondSent {
                    seq,
                    base_offset: self.base_offset,
                    unacked: self.unacked.len() as usize,
                },
            )
        } else {
            None
        }
    }

    /// The same end once the first `seq` messages are acknowledged.
    pub open spec fn acked(self, seq: u64) -> StreamStateView {
        StreamStateView {
            unacked: self.unacked.skip(seq - self.base_offset),
            base_offset: seq,
            ..self
        }
    }

    /// The same end with one more message received.
    pub open spec fn received_one(self) -> StreamStateView {
        StreamStateView { received_seq: (self.received_seq + 1) as u64, ..self }
    }

    /// The same end once the other one has said who it is.
    pub open spec fn met(self, remote_id: u64) -> StreamStateView {
        StreamStateView { remote_id: Some(remote_id), ..self }
    }

    /// Whether the other end may be the one of this number: the one met before,
    /// where one was.
    pub open spec fn expects(self, sender_id: u64) -> bool {
        self.remote_id is None || self.remote_id == Some(sender_id)
    }

    pub open spec fn hello(self) -> HelloMessage {
        HelloMessage { sender_id: self.id, sender_last_rx: self.received_seq }
    }

    /// Whether the window is used up.
    pub open spec fn is_full(self) -> bool {
        total_len(self.unacked) >= self.window
    }

    /// Whether each unacknowledged message can be sent as one data message.
    pub open spec fn resendable(self) -> bool {
        forall|i: int| 0 <= i < self.unacked.len() ==> (#[trigger] self.unacked[i]).len() <= u32::MAX
    }

    /// The unacknowledged messages as data messages, oldest first.
    pub open spec fn unacked_messages(self) -> Seq<StreamCodecMessageView> {
        self.unacked.map_values(|d: Seq<u8>| StreamCodecMessageView::Data(d))
    }
}

/// One end of the stream.
pub struct StreamState {
    id: u64,
    remote_id: Option<u64>,
    options: StreamOptions,
    sent_unacked: Vec<Vec<u8>>,
    base_offset: u64,
    received_seq: u64,
}

impl View for StreamState {
    type V = StreamStateView;

    closed spec fn view(&self) -> StreamStateView {
        StreamStateView {
            id: self.id,
            remote_id: self.remote_id,
            window: self.options.window(),
            unacked: contents(self.sent_unacked@),
            base_offset: self.base_offset,
            received_seq: self.received_seq,
        }
    }
}

proof fn lemma_total_len_take(msgs: Seq<Seq<u8>>, k: int)
    requires
        0 <= k <= msgs.len(),
    ensures
        total_len(msgs.take(k)) <= total_len(msgs),
        k < msgs.len() ==> total_len(msgs.take(k)) + msgs[k].len() == total_len(msgs.take(k + 1)),
    decreases msgs.len() - k,
{
    if k < msgs.len() {
        assert(msgs.take(k + 1).drop_last() =~= msgs.take(k));
        lemma_total_len_take(msgs, k + 1);
    } else {
        assert(msgs.take(k) =~= msgs);
    }
}

impl StreamState {
    /// A new end of the stream under the given number.
    pub fn with_id(stream_options: StreamOptions, id: u64) -> (state: StreamState)
        ensures
            state@ == StreamStateView::fresh(id, stream_options.window()),
    {
        let state = StreamState {
            id,
            remote_id: None,
            options: stream_options,
            sent_unacked: Vec::new(),
            base_offset: 0,
            received_seq: 0,
        };
        assert(state@.unacked =~= seq![]);
        state
    }

    /// A new end of the stream under a random number.
    pub fn new(stream_options: StreamOptions) -> (state: StreamState)
        ensures
            state@ == StreamStateView::fresh(state@.id, stream_options.window()),
    {
        let id: u64 = random::random_u64();
        StreamState::with_id(stream_options, id)
    }

    /// A new end of the stream with the default window.
    pub fn default() -> (state: StreamState)
        ensures
            state@ == StreamStateView::fresh(state@.id, 30_000_000),
    {
        StreamState::new(StreamOptions::default())
    }

    /// Keeps a message until it is acknowledged.
    pub fn enqueue(&mut self, data: Vec<u8>)
        ensures
            final(self)@ == old(self)@.enqueued(data@),
    {
        self.sent_unacked.push(data);
        assert(self@.unacked =~= old(self)@.unacked.push(data@));
    }

    /// Counts a received message and returns its number.
    pub fn received_one_message(&mut self) -> (seq: u64)
        requires
            old(self)@.received_seq < u64::MAX,
        ensures
            final(self)@ == old(self)@.received_one(),
            seq == final(self)@.received_seq,
    {
        self.received_seq = self.received_seq + 1;
        self.received_seq
    }

    /// Forgets the messages that the other end has received: the first `seq`
    /// of the stream.
    pub fn ack(&mut self, seq: u64) -> (res: Result<(), StreamError>)
        ensures
            match old(self)@.ack_error(seq) {
                Some(e) => res == Err::<(), _>(e) && final(self)@ == old(self)@,
                None => res is Ok && final(self)@ == old(self)@.acked(seq),
            },
    {
        if seq < self.base_offset {
            return Err(StreamError::AckBeforeBase);
        }
        let ahead: u64 = seq - self.base_offset;
        if ahead > usize::MAX as u64 {
            return Err(StreamError::AckTooFar);
        }
        let to_drain: usize = ahead as usize;
        if to_drain > self.sent_unacked.len() {
            return Err(
                StreamError::AckBeyondSent {
                    seq,
                    base_offset: self.base_offset,
                    unacked: self.sent_unacked.len(),
                },
            );
        }
        let rest = self.sent_unacked.split_off(to_drain);
        self.sent_unacked = rest;
        self.base_offset = seq;
        assert(self@.unacked =~= old(self)@.unacked.skip(to_drain as int));
        Ok(())
    }

    pub fn make_hello(&self) -> (hm: HelloMessage)
        ensures
            hm == self@.hello(),
    {
        HelloMessage { sender_id: self.id, sender_last_rx: self.received_seq }
    }

    /// The number of bytes that wait to be acknowledged.
    pub fn unacked_size(&self) -> (size: usize)
        requires
            total_len(self@.unacked) <= usize::MAX,
        ensures
            size == total_len(self@.unacked),
    {
        let mut size: usize = 0;
        let mut i: usize = 0;
        while i < self.sent_unacked.len()
            invariant
                i <= self.sent_unacked@.len(),
                size == total_len(self@.unacked.take(i as int)),
                total_len(self@.unacked) <= usize::MAX,
            decreases self.sent_unacked@.len() - i,
        {
            proof {
                lemma_total_len_take(self@.unacked, i as int);
                lemma_total_len_take(self@.unacked, i + 1);
            }
            size = size + self.sent_unacked[i].len();
            i = i + 1;
        }
        assert(self@.unacked.take(i as int) =~= self@.unacked);
        size
    }

    /// Whether the window is used up, so that no more messages are taken on.
    pub fn is_full(&self) -> (full: bool)
        ensures
            full == self@.is_full(),
    {
        let mut size: usize = 0;
        let mut i: usize = 0;
        while i < self.sent_unacked.len()
            invariant
                i <= self.sent_unacked@.len(),
                size == total_len(self@.unacked.take(i as int)),
            decreases self.sent_unacked@.len() - i,
        {
            proof {
                lemma_total_len_take(self@.unacked, i as int);
                lemma_total_len_take(self@.unacked, i + 1);
            }
            let len: usize = self.sent_unacked[i].len();
            if size >= self.options.max_window || len >= self.options.max_window - size {
                return true;
            }
            size = size + len;
            i = i + 1;
        }
        assert(self@.unacked.take(i as int) =~= self@.unacked);
        size >= self.options.max_window
    }

    /// Whether the other end may be the one of this number.
    fn expects(&self, sender_id: u64) -> (expected: bool)
        ensures
            expected == self@.expects(sender_id),
    {
        match self.remote_id {
            Some(other_id) => other_id == sender_id,
            None => true,
        }
    }

    /// Whether the messages that an acknowledgement of the first `seq` leaves
    /// can each be sent as one data message.
    fn can_resend_from(&self, seq: u64) -> (can: bool)
        ensures
            can == (self@.ack_error(seq) is None ==> self@.acked(seq).resendable()),
    {
        if seq < self.base_offset {
            return true;
        }
        let ahead: u64 = seq - self.base_offset;
        if ahead > self.sent_unacked.len() as u64 {
            return true;
        }
        let ghost left = self@.acked(seq);
        let mut i: usize = ahead as usize;
        while i < self.sent_unacked.len()
            invariant
                ahead <= i <= self.sent_unacked@.len(),
                self@.ack_error(seq) is None,
                left == self@.acked(seq),
                left.unacked == self@.unacked.skip(ahead as int),
                forall|j: int|
                    0 <= j < i - ahead ==> (#[trigger] left.unacked[j]).len() <= u32::MAX,
            decreases self.sent_unacked@.len() - i,
        {
            assert(left.unacked[i - ahead] == self.sent_unacked@[i as int]@);
            if self.sent_unacked[i].len() as u64 > u32::MAX as u64 {
                return false;
            }
            i = i + 1;
        }
        true
    }

    /// The unacknowledged messages, each encoded as a data message.
    fn encode_unacked(&self) -> (frames: Vec<Vec<u8>>)
        requires
            self@.resendable(),
        ensures
            frames@.len() == self@.unacked.len(),
            forall|i: int|
                0 <= i < frames@.len() ==> (#[trigger] frames@[i])@
                    == self@.unacked_messages()[i].encoded(),
    {
        let mut frames: Vec<Vec<u8>> = Vec::new();
        let mut i: usize = 0;
        while i < self.sent_unacked.len()
            invariant
                i <= self.sent_unacked@.len(),
                frames@.len() == i,
                self@.resendable(),
                forall|j: int|
                    0 <= j < i ==> (#[trigger] frames@[j])@
                        == self@.unacked_messages()[j].encoded(),
            decreases self.sent_unacked@.len() - i,
        {
            let data = self.sent_unacked[i].clone();
            assert(data@ =~= self@.unacked[i as int]);
            frames.push(StreamCodecMessage::Data(data).encode());
            i = i + 1;
        }
        frames
    }
}

/// The messages that an end keeps can be counted in a `usize`.
pub proof fn law_unacked_countable(s: StreamState)
    ensures
        s@.unacked.len() <= usize::MAX,
{
    assert(s.sent_unacked@.len() == s.sent_unacked.len());
}

/// Acknowledging some messages and then more of them is acknowledging the more
/// at once; the same acknowledgement again changes nothing. The number of
/// messages sent stays what it is, and none that was acknowledged can be
/// acknowledged short of that again.
pub proof fn law_ack_twice(s: StreamStateView, a: u64, b: u64)
    requires
        s.unacked.len() <= usize::MAX,
        s.base_offset <= a <= b <= s.base_offset + s.unacked.len(),
    ensures
        s.ack_error(a) is None,
        s.ack_error(b) is None,
        s.acked(a).ack_error(b) is None,
        s.acked(a).acked(b) == s.acked(b),
        s.acked(b).ack_error(b) is None,
        s.acked(b).acked(b) == s.acked(b),
        s.acked(b).base_offset + s.acked(b).unacked.len() == s.base_offset + s.unacked.len(),
        forall|c: u64|
            c < b ==> #[trigger] s.acked(b).ack_error(c) == Some(StreamError::AckBeforeBase),
{
    assert(s.acked(a).acked(b) =~= s.acked(b));
    assert(s.acked(b).acked(b) =~= s.acked(b));
}

/// How far a connection has come.
#[derive(Debug, Clone, Copy, PartialEq, Eq, Structural)]
pub enum SessionPhase {
    /// The other end's hello has yet to come.
    AwaitingHello,
    /// Messages go back and forth.
    Established,
    /// The connection is to be given up.
    Ended,
}

/// What happens on a connection.
pub enum SessionEvent {
    /// The stream is to stop.
    Killed,
    /// There will be no more messages to send.
    AppClosed,
    /// A message to send.
    AppData(Vec<u8>),
    /// Nothing more can be read from the connection, or written to it.
    TcpClosed,
    /// A message from the other end.
    TcpMessage(StreamCodecMessage),
}

/// An event as a mathematical value.
pub enum SessionEventView {
    Killed,
    AppClosed,
    AppData(Seq<u8>),
    TcpClosed,
    TcpMessage(StreamCodecMessageView),
}

impl View for SessionEvent {
    type V = SessionEventView;

    open spec fn view(&self) -> SessionEventView {
        match *self {
            SessionEvent::Killed => SessionEventView::Killed,
            SessionEvent::AppClosed => SessionEventView::AppClosed,
            SessionEvent::AppData(d) => SessionEventView::AppData(d@),
            SessionEvent::TcpClosed => SessionEventView::TcpClosed,
            SessionEvent::TcpMessage(m) => SessionEventView::TcpMessage(m@),
        }
    }
}

/// Why a connection is given up.
#[derive(Debug, Clone, Copy, PartialEq, Eq, Structural)]
pub enum SessionEnd {
    Killed,
    AppClosed,
    TcpClosed,
    /// The first message was not a hello, or there was none.
    NotHello,
    /// The hello came from another end than the one met before.
    BadSenderId,
    /// The hello acknowledged what cannot be acknowledged.
    BadLastRx(StreamError),
    /// An acknowledgement that cannot be.
    BadAck(StreamError),
    /// A hello on a connection that has had one.
    SecondHello,
}

impl SessionEnd {
    /// Whether what was written is still flushed, and the connection's tasks
    /// waited for, before the connection is dropped.
    pub open spec fn spec_is_orderly(self) -> bool {
        self is AppClosed || self is TcpClosed || self is SecondHello
    }

    pub fn is_orderly(&self) -> (orderly: bool)
        ensures
            orderly == self.spec_is_orderly(),
    {
        matches!(self, SessionEnd::AppClosed | SessionEnd::TcpClosed | SessionEnd::SecondHello)
    }
}

/// What to do after an event, as a mathematical value.
#[verifier::ext_equal]
pub struct SessionStepView {
    /// A message for the application.
    pub delivered: Option<Seq<u8>>,
    /// Messages for the other end, in order.
    pub sent: Seq<StreamCodecMessageView>,
    /// Why the connection is given up, where it is.
    pub end: Option<SessionEnd>,
}

impl SessionStepView {
    pub open spec fn idle() -> SessionStepView {
        SessionStepView { delivered: None, sent: seq![], end: None }
    }

    pub open spec fn ends(why: SessionEnd) -> SessionStepView {
        SessionStepView { delivered: None, sent: seq![], end: Some(why) }
    }

    pub open spec fn sends(sent: Seq<StreamCodecMessageView>) -> SessionStepView {
        SessionStepView { delivered: None, sent, end: None }
    }
}

/// What to do after an event.
pub struct SessionStep {
    /// A message for the application.
    pub delivered: Option<Vec<u8>>,
    /// Bytes to write to the connection, in order.
    pub writes: Vec<Vec<u8>>,
    /// Why the connection is given up, where it is.
    pub end: Option<SessionEnd>,
}

impl SessionStep {
    /// Whether this is the step `v`, its messages encoded.
    pub open spec fn carries_out(self, v: SessionStepView) -> bool {
        &&& match self.delivered {
            Some(d) => v.delivered == Some(d@),
            None => v.delivered is None,
        }
        &&& self.writes@.len() == v.sent.len()
        &&& forall|i: int|
            0 <= i < v.sent.len() ==> (#[trigger] self.writes@[i])@ == v.sent[i].encoded()
        &&& self.end == v.end
    }

    fn ends(why: SessionEnd) -> (step: SessionStep)
        ensures
            step.carries_out(SessionStepView::ends(why)),
    {
        SessionStep { delivered: None, writes: Vec::new(), end: Some(why) }
    }
}

/// Whether an event can come now. Messages to send are asked for on an
/// established connection only, and only while the window is not used up; a
/// message has to fit the encoding, and a received one the count.
pub open spec fn session_accepts(
    phase: SessionPhase,
    state: StreamStateView,
    event: SessionEventView,
) -> bool {
    &&& !(phase is Ended)
    &&& match event {
        SessionEventView::Killed | SessionEventView::TcpClosed => true,
        SessionEventView::AppClosed => phase is Established && !state.is_full(),
        SessionEventView::AppData(d) => {
            &&& phase is Established
            &&& !state.is_full()
            &&& d.len() <= u32::MAX
        },
        SessionEventView::TcpMessage(m) => match (phase, m) {
            (SessionPhase::AwaitingHello, StreamCodecMessageView::Hello(hm)) => {
                state.expects(hm.sender_id) && state.ack_error(hm.sender_last_rx) is None
                    ==> state.acked(hm.sender_last_rx).resendable()
            },
            (
                SessionPhase::Established,
                StreamCodecMessageView::Data(_),
            ) => state.received_seq < u64::MAX,
            _ => true,
        },
    }
}

/// The hello of the other end: it has to be the end that was met before, and
/// says how much has arrived there. What has not is sent again.
pub open spec fn hello_step(state: StreamStateView, hm: HelloMessage) -> (
    SessionPhase,
    StreamStateView,
    SessionStepView,
) {
    if !state.expects(hm.sender_id) {
        (SessionPhase::Ended, state, SessionStepView::ends(SessionEnd::BadSenderId))
    } else {
        let met = state.met(hm.sender_id);
        match met.ack_error(hm.sender_last_rx) {
            Some(e) => (
                SessionPhase::Ended,
                met,
                SessionStepView::ends(SessionEnd::BadLastRx(e)),
            ),
            None => {
                let acked = met.acked(hm.sender_last_rx);
                (
                    SessionPhase::Established,
                    acked,
                    SessionStepView::sends(acked.unacked_messages()),
                )
            },
        }
    }
}

/// A message on an established connection. Data goes to the application and is
/// acknowledged.
pub open spec fn message_step(state: StreamStateView, m: StreamCodecMessageView) -> (
    SessionPhase,
    StreamStateView,
    SessionStepView,
) {
    match m {
        StreamCodecMessageView::Hello(_) => (
            SessionPhase::Ended,
            state,
            SessionStepView::ends(SessionEnd::SecondHello),
        ),
        StreamCodecMessageView::Ack(seq) => match state.ack_error(seq) {
            Some(e) => (
                SessionPhase::Ended,
                state,
                SessionStepView::ends(SessionEnd::BadAck(e)),
            ),
            None => (SessionPhase::Established, state.acked(seq), SessionStepView::idle()),
        },
        StreamCodecMessageView::Data(d) => {
            let next = state.received_one();
            (
                SessionPhase::Established,
                next,
                SessionStepView {
                    delivered: Some(d),
                    sent: seq![StreamCodecMessageView::Ack(next.received_seq)],
                    end: None,
                },
            )
        },
    }
}

/// What an event does to a connection and to the end that runs it.
pub open spec fn session_step(
    phase: SessionPhase,
    state: StreamStateView,
    event: SessionEventView,
) -> (SessionPhase, StreamStateView, SessionStepView) {
    match event {
        SessionEventView::Killed => (
            SessionPhase::Ended,
            state,
            SessionStepView::ends(SessionEnd::Killed),
        ),
        SessionEventView::AppClosed => (
            SessionPhase::Ended,
            state,
            SessionStepView::ends(SessionEnd::AppClosed),
        ),
        SessionEventView::AppData(d) => (
            phase,
            state.enqueued(d),
            SessionStepView::sends(seq![StreamCodecMessageView::Data(d)]),
        ),
        SessionEventView::TcpClosed => (
            SessionPhase::Ended,
            state,
            SessionStepView::ends(
                if phase is AwaitingHello {
                    SessionEnd::NotHello
                } else {
                    SessionEnd::TcpClosed
                },
            ),
        ),
        SessionEventView::TcpMessage(m) => match phase {
            SessionPhase::AwaitingHello => match m {
                StreamCodecMessageView::Hello(hm) => hello_step(state, hm),
                _ => (
                    SessionPhase::Ended,
                    state,
                    SessionStepView::ends(SessionEnd::NotHello),
                ),
            },
            _ => message_step(state, m),
        },
    }
}

/// Whether an event is not the hello that a connection has to begin with: the
/// connection ends, something else is said, or someone else says hello.
pub open spec fn not_greeted(state: StreamStateView, event: SessionEventView) -> bool {
    match event {
        SessionEventView::TcpClosed => true,
        SessionEventView::TcpMessage(StreamCodecMessageView::Hello(hm)) => !state.expects(
            hm.sender_id,
        ),
        SessionEventView::TcpMessage(_) => true,
        _ => false,
    }
}

/// A connection that does not begin with the other end's hello is given up, and
/// leaves no trace: the end is what it was, nothing more is written, nothing is
/// delivered, and nothing has been taken from the application.
pub proof fn law_not_greeted_changes_nothing(state: StreamStateView, event: SessionEventView)
    requires
        not_greeted(state, event),
    ensures
        session_accepts(SessionPhase::AwaitingHello, state, event),
        ({
            let (phase, next, v) = session_step(SessionPhase::AwaitingHello, state, event);
            &&& phase is Ended
            &&& next == state
            &&& v.delivered is None
            &&& v.sent == Seq::<StreamCodecMessageView>::empty()
            &&& v.end == Some(
                if event matches SessionEventView::TcpMessage(m) && m is Hello {
                    SessionEnd::BadSenderId
                } else {
                    SessionEnd::NotHello
                },
            )
        }),
        forall|d: Seq<u8>|
            !#[trigger] session_accepts(
                SessionPhase::AwaitingHello,
                state,
                SessionEventView::AppData(d),
            ),
        !session_accepts(SessionPhase::AwaitingHello, state, SessionEventView::AppClosed),
{
}

/// The decisions on one connection.
pub struct StreamSession {
    phase: SessionPhase,
}

impl View for StreamSession {
    type V = SessionPhase;

    closed spec fn view(&self) -> SessionPhase {
        self.phase
    }
}

impl StreamSession {
    /// Begins a connection. The returned bytes, the hello of this end, are
    /// what is written first.
    pub fn start(state: &StreamState) -> (res: (StreamSession, Vec<u8>))
        ensures
            res.0@ is AwaitingHello,
            res.1@ == StreamCodecMessageView::Hello(state@.hello()).encoded(),
    {
        let hello = StreamCodecMessage::Hello(state.make_hello()).encode();
        (StreamSession { phase: SessionPhase::AwaitingHello }, hello)
    }

    /// Whether to ask the application for messages to send.
    pub fn wants_app_data(&self, state: &StreamState) -> (wants: bool)
        ensures
            wants == (self@ is Established && !state@.is_full()),
    {
        matches!(self.phase, SessionPhase::Established) && !state.is_full()
    }

    /// Whether `event` can be handled by [`StreamSession::step`].
    pub fn accepts(&self, state: &StreamState, event: &SessionEvent) -> (accepts: bool)
        ensures
            accepts == session_accepts(self@, state@, event@),
    {
        match event {
            SessionEvent::Killed | SessionEvent::TcpClosed => !matches!(
                self.phase,
                SessionPhase::Ended
            ),
            SessionEvent::AppClosed => self.wants_app_data(state),
            SessionEvent::AppData(d) => self.wants_app_data(state) && d.len() as u64
                <= u32::MAX as u64,
            SessionEvent::TcpMessage(m) => match (self.phase, m) {
                (SessionPhase::AwaitingHello, StreamCodecMessage::Hello(hm)) => {
                    !state.expects(hm.sender_id) || state.can_resend_from(hm.sender_last_rx)
                },
                (SessionPhase::Established, StreamCodecMessage::Data(_)) => state.received_seq
                    < u64::MAX,
                (SessionPhase::Ended, _) => false,
                _ => true,
            },
        }
    }

    /// Handles an event: updates the end of the stream and says what to do.
    pub fn step(&mut self, state: &mut StreamState, event: SessionEvent) -> (step: SessionStep)
        requires
            session_accepts(old(self)@, old(state)@, event@),
        ensures
            ({
                let (phase, next, v) = session_step(old(self)@, old(state)@, event@);
                &&& final(self)@ == phase
                &&& final(state)@ == next
                &&& step.carries_out(v)
            }),
    {
        match event {
            SessionEvent::Killed => {
                self.phase = SessionPhase::Ended;
                SessionStep::ends(SessionEnd::Killed)
            },
            SessionEvent::AppClosed => {
                self.phase = SessionPhase::Ended;
                SessionStep::ends(SessionEnd::AppClosed)
            },
            SessionEvent::AppData(data) => {
                let kept = data.clone();
                assert(kept@ =~= data@);
                state.enqueue(kept);
                let mut writes: Vec<Vec<u8>> = Vec::new();
                writes.push(StreamCodecMessage::Data(data).encode());
                SessionStep { delivered: None, writes, end: None }
            },
            SessionEvent::TcpClosed => {
                let why = if matches!(self.phase, SessionPhase::AwaitingHello) {
                    SessionEnd::NotHello
                } else {
                    SessionEnd::TcpClosed
                };
                self.phase = SessionPhase::Ended;
                SessionStep::ends(why)
            },
            SessionEvent::TcpMessage(msg) => match self.phase {
                SessionPhase::AwaitingHello => match msg {
                    StreamCodecMessage::Hello(hm) => self.on_hello(state, hm),
                    _ => {
                        self.phase = SessionPhase::Ended;
                        SessionStep::ends(SessionEnd::NotHello)
                    },
                },
                _ => self.on_message(state, msg),
            },
        }
    }

    fn on_hello(&mut self, state: &mut StreamState, hm: HelloMessage) -> (step: SessionStep)
        requires
            session_accepts(
                SessionPhase::AwaitingHello,
                old(state)@,
                SessionEventView::TcpMessage(StreamCodecMessageView::Hello(hm)),
            ),
        ensures
            ({
                let (phase, next, v) = hello_step(old(state)@, hm);
                &&& final(self)@ == phase
                &&& final(state)@ == next
                &&& step.carries_out(v)
            }),
    {
        if !state.expects(hm.sender_id) {
            self.phase = SessionPhase::Ended;
            return SessionStep::ends(SessionEnd::BadSenderId);
        }
        state.remote_id = Some(hm.sender_id);
        if let Err(e) = state.ack(hm.sender_last_rx) {
            self.phase = SessionPhase::Ended;
            return SessionStep::ends(SessionEnd::BadLastRx(e));
        }
        self.phase = SessionPhase::Established;
        assert(old(state)@.ack_error(hm.sender_last_rx) is None);
        assert(state@.unacked == old(state)@.acked(hm.sender_last_rx).unacked);
        let writes = state.encode_unacked();
        SessionStep { delivered: None, writes, end: None }
    }

    fn on_message(&mut self, state: &mut StreamState, msg: StreamCodecMessage) -> (step:
        SessionStep)
        requires
            old(self)@ is Established,
            msg@ is Data ==> old(state)@.received_seq < u64::MAX,
        ensures
            ({
                let (phase, next, v) = message_step(old(state)@, msg@);
                &&& final(self)@ == phase
                &&& final(state)@ == next
                &&& step.carries_out(v)
            }),
    {
        match msg {
            StreamCodecMessage::Hello(_) => {
                self.phase = SessionPhase::Ended;
                SessionStep::ends(SessionEnd::SecondHello)
            },
            StreamCodecMessage::Ack(seq) => {
                if let Err(e) = state.ack(seq) {
                    self.phase = SessionPhase::Ended;
                    return SessionStep::ends(SessionEnd::BadAck(e));
                }
                SessionStep { delivered: None, writes: Vec::new(), end: None }
            },
            StreamCodecMessage::Data(data) => {
                let seq: u64 = state.received_one_message();
                let mut writes: Vec<Vec<u8>> = Vec::new();
                writes.push(StreamCodecMessage::Ack(seq).encode());
                SessionStep { delivered: Some(data), writes, end: None }
            },
        }
    }
}

/// The size of what is kept is counted in bytes: each message adds its own.
pub proof fn law_size_is_counted_in_bytes(msgs: Seq<Seq<u8>>, m: Seq<u8>)
    ensures
        total_len(seq![]) == 0,
        total_len(msgs.push(m)) == total_len(msgs) + m.len(),
{
    assert(msgs.push(m).drop_last() =~= msgs);
}

/// The window is used up exactly when the unacknowledged bytes reach it, however
/// many messages they are. Until then a connection that is past the hellos takes
/// on every message that fits the encoding, and from then on none.
pub proof fn law_window_is_used_up_exactly(state: StreamStateView, d: Seq<u8>)
    ensures
        state.is_full() <==> total_len(state.unacked) >= state.window,
        session_accepts(SessionPhase::Established, state, SessionEventView::AppData(d)) <==> (
        total_len(state.unacked) < state.window && d.len() <= u32::MAX),
        session_accepts(SessionPhase::Established, state, SessionEventView::AppClosed)
            <==> total_len(state.unacked) < state.window,
{
}

/// A new end has neither sent nor received anything, and knows nobody.
pub proof fn law_new_end(id: u64, window: nat)
    ensures
        ({
            let state = StreamStateView::fresh(id, window);
            &&& state.id == id
            &&& state.window == window
            &&& state.remote_id is None
            &&& state.unacked.len() == 0
            &&& state.base_offset == 0
            &&& state.received_seq == 0
        }),
{
}

/// An end greets with its own number and the number of messages that it has
/// received.
pub proof fn law_hello_tells(state: StreamStateView)
    ensures
        state.hello().sender_id == state.id,
        state.hello().sender_last_rx == state.received_seq,
{
}

/// Once an end has met another it expects that one and no other; until then it
/// expects anyone.
pub proof fn law_expected_end(state: StreamStateView, sender_id: u64)
    ensures
        state.remote_id is None ==> state.expects(sender_id),
        state.remote_id matches Some(other) ==> (state.expects(sender_id) <==> other == sender_id),
{
}

/// Whether two ends are the same but for what they keep and have had
/// acknowledged.
pub open spec fn same_but_unacked(a: StreamStateView, b: StreamStateView) -> bool {
    a == (StreamStateView { unacked: a.unacked, base_offset: a.base_offset, ..b })
}

/// Whatever ends a connection leaves the end of the stream as it was: nothing
/// that waits to be acknowledged is dropped, and nothing is forgotten of what
/// was received or who the other end is. Nothing more is written or delivered.
pub proof fn law_lost_connection_loses_nothing(
    phase: SessionPhase,
    state: StreamStateView,
    event: SessionEventView,
)
    requires
        event is TcpClosed || event is Killed || event is AppClosed,
    ensures
        ({
            let (next_phase, next, v) = session_step(phase, state, event);
            &&& next_phase is Ended
            &&& next == state
            &&& v.delivered is None
            &&& v.sent.len() == 0
            &&& event is Killed ==> v.end == Some(SessionEnd::Killed)
            &&& event is AppClosed ==> v.end == Some(SessionEnd::AppClosed)
            &&& event is TcpClosed && phase is AwaitingHello ==> v.end == Some(SessionEnd::NotHello)
            &&& event is TcpClosed && phase is Established ==> v.end == Some(SessionEnd::TcpClosed)
        }),
{
}

/// Whether the two agree on `kept` being the messages of `all` from number
/// `from` on, where the first of `all` has number `base`.
pub open spec fn is_rest(kept: Seq<Seq<u8>>, all: Seq<Seq<u8>>, base: int, from: int) -> bool {
    &&& kept.len() == base + all.len() - from
    &&& forall|i: int| 0 <= i < kept.len() ==> #[trigger] kept[i] == all[from - base + i]
}

/// After a connection is lost, whatever lost it, the hello of the next one brings
/// every message that the other end lacks to be sent again: all of them, in order,
/// and no other. They are kept as before, and so is everything else.
pub proof fn law_everything_missing_is_sent_again(
    phase: SessionPhase,
    state: StreamStateView,
    lost: SessionEventView,
    hm: HelloMessage,
)
    requires
        lost is TcpClosed || lost is Killed || lost is AppClosed,
        state.unacked.len() <= usize::MAX,
        state.remote_id is None || state.remote_id == Some(hm.sender_id),
        state.base_offset <= hm.sender_last_rx <= state.base_offset + state.unacked.len(),
    ensures
        ({
            let unconnected = session_step(phase, state, lost).1;
            let (greeted, next, v) = session_step(
                SessionPhase::AwaitingHello,
                unconnected,
                SessionEventView::TcpMessage(StreamCodecMessageView::Hello(hm)),
            );
            let rx = hm.sender_last_rx as int;
            &&& greeted is Established
            &&& v.end is None
            &&& v.delivered is None
            &&& v.sent.len() == state.base_offset + state.unacked.len() - rx
            &&& forall|i: int|
                0 <= i < v.sent.len() ==> #[trigger] v.sent[i] == StreamCodecMessageView::Data(
                    state.unacked[rx - state.base_offset + i],
                )
            &&& is_rest(next.unacked, state.unacked, state.base_offset as int, rx)
            &&& next.base_offset == rx
            &&& next.remote_id == Some(hm.sender_id)
            &&& next.received_seq == state.received_seq
            &&& next.id == state.id
            &&& next.window == state.window
        }),
{
}

/// A hello that tells of messages never sent, or of fewer than were acknowledged,
/// ends the connection. The end only remembers who said it.
pub proof fn law_impossible_hello_is_refused(state: StreamStateView, hm: HelloMessage)
    requires
        state.unacked.len() <= usize::MAX,
        state.remote_id is None || state.remote_id == Some(hm.sender_id),
        !(state.base_offset <= hm.sender_last_rx <= state.base_offset + state.unacked.len()),
    ensures
        ({
            let (phase, next, v) = session_step(
                SessionPhase::AwaitingHello,
                state,
                SessionEventView::TcpMessage(StreamCodecMessageView::Hello(hm)),
            );
            &&& phase is Ended
            &&& v.end matches Some(SessionEnd::BadLastRx(_))
            &&& v.sent.len() == 0
            &&& v.delivered is None
            &&& next == (StreamStateView { remote_id: Some(hm.sender_id), ..state })
        }),
{
}

/// What the application sends is kept as the newest message, on a connection or
/// without one, and on a connection it is written at once, as one message.
pub proof fn law_sent_message_is_kept_and_written(state: StreamStateView, d: Seq<u8>)
    ensures
        ({
            let kept = StreamStateView { unacked: state.unacked.push(d), ..state };
            let (phase, next, v) = session_step(
                SessionPhase::Established,
                state,
                SessionEventView::AppData(d),
            );
            &&& state.enqueued(d) == kept
            &&& next == kept
            &&& phase is Established
            &&& v.sent == seq![StreamCodecMessageView::Data(d)]
            &&& v.delivered is None
            &&& v.end is None
        }),
{
}

/// Every data message is given to the application, and acknowledged by its number
/// in the stream.
pub proof fn law_data_is_delivered_and_acknowledged(state: StreamStateView, d: Seq<u8>)
    requires
        state.received_seq < u64::MAX,
    ensures
        ({
            let event = SessionEventView::TcpMessage(StreamCodecMessageView::Data(d));
            let (phase, next, v) = session_step(SessionPhase::Established, state, event);
            let counted = StreamStateView { received_seq: next.received_seq, ..state };
            &&& session_accepts(SessionPhase::Established, state, event)
            &&& phase is Established
            &&& next == counted
            &&& next == state.received_one()
            &&& next.received_seq == state.received_seq + 1
            &&& v.delivered == Some(d)
            &&& v.sent == seq![StreamCodecMessageView::Ack((state.received_seq + 1) as u64)]
            &&& v.end is None
        }),
{
}

/// An acknowledgement of the first `seq` messages drops these and no others. One
/// that cannot be ends the connection and drops nothing.
pub proof fn law_acknowledged_messages_are_dropped(state: StreamStateView, seq: u64)
    requires
        state.unacked.len() <= usize::MAX,
    ensures
        ({
            let (phase, next, v) = session_step(
                SessionPhase::Established,
                state,
                SessionEventView::TcpMessage(StreamCodecMessageView::Ack(seq)),
            );
            &&& v.sent.len() == 0
            &&& v.delivered is None
            &&& if state.base_offset <= seq <= state.base_offset + state.unacked.len() {
                &&& state.ack_error(seq) is None
                &&& phase is Established
                &&& v.end is None
                &&& next.base_offset == seq
                &&& is_rest(next.unacked, state.unacked, state.base_offset as int, seq as int)
                &&& same_but_unacked(next, state)
                &&& state.acked(seq) == next
            } else {
                &&& state.ack_error(seq) is Some
                &&& phase is Ended
                &&& v.end == Some(SessionEnd::BadAck(state.ack_error(seq)->0))
                &&& next == state
            }
            &&& seq < state.base_offset ==> state.ack_error(seq) == Some(StreamError::AckBeforeBase)
            &&& seq > state.base_offset + state.unacked.len() && seq - state.base_offset
                <= usize::MAX ==> state.ack_error(seq) == Some(
                StreamError::AckBeyondSent {
                    seq,
                    base_offset: state.base_offset,
                    unacked: state.unacked.len() as usize,
                },
            )
            &&& seq - state.base_offset > usize::MAX ==> state.ack_error(seq) == Some(
                StreamError::AckTooFar,
            )
        }),
{
}

/// A second hello ends the connection and changes nothing.
pub proof fn law_second_hello_is_refused(state: StreamStateView, hm: HelloMessage)
    ensures
        ({
            let (phase, next, v) = session_step(
                SessionPhase::Established,
                state,
                SessionEventView::TcpMessage(StreamCodecMessageView::Hello(hm)),
            );
            &&& phase is Ended
            &&& next == state
            &&& v.end == Some(SessionEnd::SecondHello)
            &&& v.sent.len() == 0
            &&& v.delivered is None
        }),
{
}

/// Whether some message that the hello of the expected end asks for is too long
/// to be sent again.
pub open spec fn too_long(state: StreamStateView, hm: HelloMessage) -> bool {
    &&& state.remote_id is None || state.remote_id == Some(hm.sender_id)
    &&& state.base_offset <= hm.sender_last_rx <= state.base_offset + state.unacked.len()
    &&& exists|i: int|
        hm.sender_last_rx - state.base_offset <= i < state.unacked.len() && (
        #[trigger] state.unacked[i]).len() > u32::MAX
}

/// Until a connection is given up it can be lost or stopped at any time, and
/// takes whatever the other end says, as long as messages can be counted and
/// those to be sent again fit the encoding. After that it takes nothing.
pub proof fn law_session_takes_what_comes(
    phase: SessionPhase,
    state: StreamStateView,
    event: SessionEventView,
)
    ensures
        phase is Ended ==> !session_accepts(phase, state, event),
        !(phase is Ended) && (event is Killed || event is TcpClosed) ==> session_accepts(
            phase,
            state,
            event,
        ),
        phase is AwaitingHello && (event is AppData || event is AppClosed) ==> !session_accepts(
            phase,
            state,
            event,
        ),
        !(phase is Ended) ==> (event matches SessionEventView::TcpMessage(m) ==> (!session_accepts(
            phase,
            state,
            event,
        ) ==> {
            ||| phase is Established && m is Data && state.received_seq == u64::MAX
            ||| phase is AwaitingHello && m is Hello && too_long(state, m->Hello_0)
        })),
{
    if let SessionEventView::TcpMessage(StreamCodecMessageView::Hello(hm)) = event {
        if phase is AwaitingHello && !session_accepts(phase, state, event) {
            let left = state.acked(hm.sender_last_rx);
            let i = choose|i: int|
                0 <= i < left.unacked.len() && (#[trigger] left.unacked[i]).len() > u32::MAX;
            let k = hm.sender_last_rx - state.base_offset + i;
            assert(left.unacked[i] == state.unacked[k]);
        }
    }
}

/// A step that is carried out gives the application what is delivered, and what
/// is written are the bytes of the messages that are sent, all and in order.
pub proof fn law_steps_are_carried_out(step: SessionStep, v: SessionStepView)
    requires
        step.carries_out(v),
    ensures
        step.end == v.end,
        step.delivered is Some <==> v.delivered is Some,
        step.delivered matches Some(d) ==> v.delivered == Some(d@),
        step.writes@.len() == v.sent.len(),
        forall|i: int|
            0 <= i < v.sent.len() ==> (#[trigger] step.writes@[i])@ == v.sent[i].encoded(),
{
}

/// A connection is waited for where the application or the other end has closed
/// it, or the other end said hello twice, and in no other case.
pub proof fn law_orderly_ends(end: SessionEnd)
    ensures
        end.spec_is_orderly() <==> end == SessionEnd::AppClosed || end == SessionEnd::TcpClosed
            || end == SessionEnd::SecondHello,
{
}

/// Events are handled for what they hold.
pub proof fn law_event_contents(event: SessionEvent)
    ensures
        event is Killed ==> event@ is Killed,
        event is AppClosed ==> event@ is AppClosed,
        event is TcpClosed ==> event@ is TcpClosed,
        event matches SessionEvent::AppData(d) ==> event@ == SessionEventView::AppData(d@),
        event matches SessionEvent::TcpMessage(m) ==> event@ == SessionEventView::TcpMessage(m@),
{
}

/// The contents of vectors are the contents of each, in order.
pub proof fn law_contents(msgs: Seq<Vec<u8>>)
    ensures
        contents(msgs).len() == msgs.len(),
        forall|i: int| 0 <= i < msgs.len() ==> #[trigger] contents(msgs)[i] == msgs[i]@,
{
}

/// What a caller learns of the window: an end is full exactly when the bytes that
/// it keeps reach it, and a connection asks for messages exactly while it is past
/// the hellos and they do not.
pub proof fn law_messages_are_asked_for(
    session: &StreamSession,
    state: &StreamState,
    full: bool,
    wants: bool,
)
    requires
        call_ensures(StreamState::is_full, (state,), full),
        call_ensures(StreamSession::wants_app_data, (session, state), wants),
    ensures
        full <==> total_len(state@.unacked) >= state@.window,
        wants <==> session@ is Established && !full,
{
}

/// What is written first on a connection is read as the hello of the end that
/// wrote it, whatever follows.
pub proof fn law_hello_is_read(
    state: &StreamState,
    started: (StreamSession, Vec<u8>),
    rest: Seq<u8>,
)
    requires
        call_ensures(StreamSession::start, (state,), started),
    ensures
        started.0@ is AwaitingHello,
        stream_codec::parse_message(started.1@ + rest) == Parsed::<_, StreamError>::Message(
            StreamCodecMessageView::Hello(
                HelloMessage { sender_id: state@.id, sender_last_rx: state@.received_seq },
            ),
            17,
        ),
{
    let m = StreamCodecMessageView::Hello(state@.hello());
    stream_codec::law_parse_encoded(m, rest);
    stream_codec::law_message_layout(m);
}

} // verus!
