//! Many streams over one channel: which messages go to which stream, on the
//! side that listens for connections (the client) and on the side that makes
//! them (the server).
//!
//! Nothing here touches a socket, a channel or a task. What the caller keeps
//! for a stream is a value of the type `H`; the caller reports what happens and
//! carries out the actions.

use crate::channel_message;
use crate::channel_message::{
    ChannelMessage, ChannelMessageParser, ChannelMessageView, ConnectMsg, DataMsg,
    DisconnectMsg, OngoingStreamId,
};
use crate::framing;
use crate::framing::Parsed;
use crate::multiplexer_error::MultiplexerError;
use std::collections::HashMap;
use vstd::prelude::*;
#[allow(unused_imports)]
use vstd::std_specs::hash::*;
#[allow(unused_imports)]
use vstd::string::*;

verus! {

broadcast use group_hash_axioms;

pub struct StreamMultiplexerClientOptions {
    pub listen_port: u16,
    pub listen_host: String,
}

pub struct StreamMultiplexerServerOptions {
    pub target_port: u16,
    pub target_address: String,
}

/// The streams that are open, each with what the caller keeps for it.
pub struct OngoingStreamTracker<H> {
    streams: HashMap<u64, H>,
}

impl<H> View for OngoingStreamTracker<H> {
    type V = Map<u64, H>;

    closed spec fn view(&self) -> Map<u64, H> {
        self.streams@
    }
}

impl<H> OngoingStreamTracker<H> {
    pub fn new() -> (tracker: OngoingStreamTracker<H>)
        ensures
            tracker@ == Map::<u64, H>::empty(),
    {
        OngoingStreamTracker { streams: HashMap::new() }
    }

    /// What is kept for a stream, where it is open.
    pub fn get(&self, id: &OngoingStreamId) -> (handle: Option<&H>)
        ensures
            match handle {
                Some(h) => self@.contains_key(id.0) && *h == self@[id.0],
                None => !self@.contains_key(id.0),
            },
    {
        self.streams.get(&id.0)
    }

    /// Forgets a stream. The caller gives up what it kept for it.
    pub fn remove(&mut self, id: &OngoingStreamId) -> (handle: Option<H>)
        ensures
            final(self)@ == old(self)@.remove(id.0),
            match handle {
                Some(h) => old(self)@.contains_key(id.0) && h == old(self)@[id.0],
                None => !old(self)@.contains_key(id.0),
            },
    {
        let handle = self.streams.remove(&id.0);
        assert(self@ =~= old(self)@.remove(id.0));
        handle
    }

    /// Whether a stream of this id may be opened.
    pub fn may_open(&self, id: &OngoingStreamId) -> (res: Result<(), MultiplexerError>)
        ensures
            match res {
                Ok(_) => !self@.contains_key(id.0),
                Err(e) => self@.contains_key(id.0) && e@ == "Already had this connection id"@,
            },
    {
        if self.streams.contains_key(&id.0) {
            Err(MultiplexerError::from("Already had this connection id"))
        } else {
            Ok(())
        }
    }

    /// Takes on a stream, unless one of its id is open; that one then stays.
    pub fn new_stream(&mut self, id: OngoingStreamId, handle: H) -> (res: Result<
        (),
        MultiplexerError,
    >)
        ensures
            match res {
                Ok(_) => {
                    &&& !old(self)@.contains_key(id.0)
                    &&& final(self)@ == old(self)@.insert(id.0, handle)
                },
                Err(e) => {
                    &&& old(self)@.contains_key(id.0)
                    &&& e@ == "Already had this connection id"@
                    &&& final(self)@ == old(self)@
                },
            },
    {
        match self.may_open(&id) {
            Err(e) => Err(e),
            Ok(_) => {
                let _ = self.streams.insert(id.0, handle);
                Ok(())
            },
        }
    }
}

/// What a message from the channel asks for.
pub enum MultiplexerAction<H> {
    /// The stream is over: give up what was kept for it.
    Abort(H),
    /// The stream has failed at the other end, for the given reason: give up
    /// what was kept for it, where it is open.
    Failed { message: String, handle: Option<H> },
    /// Connect to the target and open the stream.
    Open { stream_id: OngoingStreamId, address: String, port: u16 },
    /// The stream cannot be opened. The others go on.
    Refuse(MultiplexerError),
    /// Put the bytes into the stream's queue.
    Deliver(DataMsg),
    /// Read no more from the stream's socket for now.
    PauseRead(OngoingStreamId),
    /// Read from the stream's socket again.
    ResumeRead(OngoingStreamId),
    /// The message is about a stream that is not open.
    Ignore,
}

/// The open streams once the message has been handled, but for one that it
/// opens.
pub open spec fn streams_after<H>(streams: Map<u64, H>, m: ChannelMessageView) -> Map<u64, H> {
    match m {
        ChannelMessageView::Disconnect(id) => streams.remove(id),
        ChannelMessageView::Error(id, _) => streams.remove(id),
        _ => streams,
    }
}

/// Whether `action` is what a message other than a connect asks for.
pub open spec fn stream_action_is<H>(
    action: MultiplexerAction<H>,
    streams: Map<u64, H>,
    m: ChannelMessageView,
) -> bool {
    if let ChannelMessageView::Error(id, reason) = m {
        &&& action matches MultiplexerAction::Failed { message, handle }
        &&& message@ == reason
        &&& handle == (if streams.contains_key(id) {
            Some(streams[id])
        } else {
            None
        })
    } else if !streams.contains_key(m.stream_id()) {
        action is Ignore
    } else {
        match m {
            ChannelMessageView::Connect(_) | ChannelMessageView::Error(_, _) => false,
            ChannelMessageView::Data(id, bytes) => {
                &&& action matches MultiplexerAction::Deliver(sd)
                &&& sd.stream_id.0 == id
                &&& sd.to_send@ == bytes
            },
            ChannelMessageView::Disconnect(id) => action == MultiplexerAction::Abort(streams[id]),
            ChannelMessageView::Pause(id) => action == MultiplexerAction::<H>::PauseRead(
                OngoingStreamId(id),
            ),
            ChannelMessageView::Resume(id) => action == MultiplexerAction::<H>::ResumeRead(
                OngoingStreamId(id),
            ),
        }
    }
}

/// Whether `action` is what the server does about a message.
pub open spec fn server_action_is<H>(
    action: MultiplexerAction<H>,
    options: StreamMultiplexerServerOptions,
    streams: Map<u64, H>,
    m: ChannelMessageView,
) -> bool {
    match m {
        ChannelMessageView::Connect(id) => if streams.contains_key(id) {
            &&& action matches MultiplexerAction::Refuse(e)
            &&& e@ == "Already had this connection id"@
        } else {
            &&& action matches MultiplexerAction::Open { stream_id, address, port }
            &&& stream_id.0 == id
            &&& address@ == options.target_address@
            &&& port == options.target_port
        },
        _ => stream_action_is(action, streams, m),
    }
}

/// Handles a message that is about an open stream, or was.
fn stream_action<H>(tracker: &mut OngoingStreamTracker<H>, msg: ChannelMessage) -> (action:
    MultiplexerAction<H>)
    requires
        !(msg@ is Connect),
    ensures
        stream_action_is(action, old(tracker)@, msg@),
        final(tracker)@ == streams_after(old(tracker)@, msg@),
{
    match msg {
        ChannelMessage::Error(se) => {
            let handle = tracker.remove(&se.stream_id);
            MultiplexerAction::Failed { message: se.message, handle }
        },
        ChannelMessage::Disconnect(sd) => {
            match tracker.remove(&sd.stream_id) {
                Some(handle) => MultiplexerAction::Abort(handle),
                None => MultiplexerAction::Ignore,
            }
        },
        ChannelMessage::Data(sd) => {
            match tracker.get(&sd.stream_id) {
                Some(_) => MultiplexerAction::Deliver(sd),
                None => MultiplexerAction::Ignore,
            }
        },
        ChannelMessage::Pause(p) => {
            match tracker.get(&p.stream_id) {
                Some(_) => MultiplexerAction::PauseRead(p.stream_id),
                None => MultiplexerAction::Ignore,
            }
        },
        ChannelMessage::Resume(r) => {
            match tracker.get(&r.stream_id) {
                Some(_) => MultiplexerAction::ResumeRead(r.stream_id),
                None => MultiplexerAction::Ignore,
            }
        },
        ChannelMessage::Connect(_) => MultiplexerAction::Ignore,
    }
}

/// What happens while a multiplexer runs.
pub enum MultiplexerEvent {
    /// It is to stop.
    Interrupted,
    /// Bytes from the channel, or `None` where there will be no more.
    Channel(Option<Vec<u8>>),
    /// A message of one of the streams, or `None` where there will be no more.
    Stream(Option<ChannelMessage>),
}

/// What a multiplexer does next.
pub enum MultiplexerStep {
    /// Stop, and stop the streams.
    Stop,
    /// Give up.
    Fail(MultiplexerError),
    /// Carry out the actions until there are no more.
    Process,
    /// Send the bytes over the channel.
    Send(Vec<u8>),
}

/// Handles an event. What the channel's end is called differs between the
/// sides.
fn multiplexer_step(
    parser: &mut ChannelMessageParser,
    event: MultiplexerEvent,
    channel_died: &str,
) -> (step: MultiplexerStep)
    ensures
        step_is(step, event, channel_died@),
        final(parser)@ == unread_after(old(parser)@, event),
{
    match event {
        MultiplexerEvent::Interrupted => MultiplexerStep::Stop,
        MultiplexerEvent::Channel(None) => MultiplexerStep::Fail(
            MultiplexerError::from(channel_died),
        ),
        MultiplexerEvent::Channel(Some(data)) => {
            parser.add(data);
            MultiplexerStep::Process
        },
        MultiplexerEvent::Stream(None) => MultiplexerStep::Fail(
            MultiplexerError::from("connection tracker channel died"),
        ),
        MultiplexerEvent::Stream(Some(msg)) => MultiplexerStep::Send(msg.encode()),
    }
}

/// Whether `step` is what is to be done after an event.
pub open spec fn step_is(
    step: MultiplexerStep,
    event: MultiplexerEvent,
    channel_died: Seq<char>,
) -> bool {
    match event {
        MultiplexerEvent::Interrupted => step is Stop,
        MultiplexerEvent::Channel(None) => step matches MultiplexerStep::Fail(e) && e@
            == channel_died,
        MultiplexerEvent::Channel(Some(_)) => step is Process,
        MultiplexerEvent::Stream(None) => step matches MultiplexerStep::Fail(e) && e@
            == "connection tracker channel died"@,
        MultiplexerEvent::Stream(Some(m)) => step matches MultiplexerStep::Send(bytes) && bytes@
            == m@.encoded(),
    }
}

/// The bytes that wait to be read after an event.
pub open spec fn unread_after(unread: Seq<u8>, event: MultiplexerEvent) -> Seq<u8> {
    match event {
        MultiplexerEvent::Channel(Some(data)) => unread + data@,
        _ => unread,
    }
}

/// What a stream says when it is over, for whatever reason.
pub fn end_of_stream(stream_id: OngoingStreamId) -> (msg: ChannelMessage)
    ensures
        msg@ == ChannelMessageView::Disconnect(stream_id.0),
{
    ChannelMessage::Disconnect(DisconnectMsg { stream_id })
}

/// A side of the multiplexer as a mathematical value.
#[verifier::ext_equal]
pub struct MultiplexerView<H> {
    /// The bytes from the channel that wait to be read.
    pub unread: Seq<u8>,
    /// The streams that are open.
    pub streams: Map<u64, H>,
}

/// The side that makes a connection to the target for each stream.
pub struct StreamMultiplexerServer<H> {
    options: StreamMultiplexerServerOptions,
    parser: ChannelMessageParser,
    streams: OngoingStreamTracker<H>,
}

impl<H> View for StreamMultiplexerServer<H> {
    type V = MultiplexerView<H>;

    closed spec fn view(&self) -> MultiplexerView<H> {
        MultiplexerView { unread: self.parser@, streams: self.streams@ }
    }
}

impl<H> StreamMultiplexerServer<H> {
    /// Where the streams are connected to.
    pub closed spec fn spec_options(&self) -> StreamMultiplexerServerOptions {
        self.options
    }

    pub fn new(options: StreamMultiplexerServerOptions) -> (res: Result<
        StreamMultiplexerServer<H>,
        MultiplexerError,
    >)
        ensures
            res matches Ok(server) && {
                &&& server.spec_options() == options
                &&& server@ == (MultiplexerView::<H> { unread: seq![], streams: Map::empty() })
            },
    {
        let server = StreamMultiplexerServer {
            options,
            parser: ChannelMessageParser::new(),
            streams: OngoingStreamTracker::new(),
        };
        assert(server@ =~= (MultiplexerView::<H> { unread: seq![], streams: Map::empty() }));
        Ok(server)
    }

    /// Handles an event and says what to do next.
    pub fn step(&mut self, event: MultiplexerEvent) -> (step: MultiplexerStep)
        ensures
            step_is(step, event, "rx channel died, ending server"@),
            final(self).spec_options() == old(self).spec_options(),
            final(self)@ == (MultiplexerView {
                unread: unread_after(old(self)@.unread, event),
                ..old(self)@
            }),
    {
        multiplexer_step(&mut self.parser, event, "rx channel died, ending server")
    }

    /// Handles the next message that has arrived in full, and says what it asks
    /// for. Returns `None` where there is no such message.
    pub fn next_action(&mut self) -> (res: Result<Option<MultiplexerAction<H>>, MultiplexerError>)
        ensures
            final(self).spec_options() == old(self).spec_options(),
            match channel_message::parse_message(old(self)@.unread) {
                Parsed::Rejected(e) => {
                    &&& res matches Err(err) && err@ == e
                    &&& final(self)@ == old(self)@
                },
                Parsed::Incomplete => {
                    &&& res matches Ok(None)
                    &&& final(self)@ == old(self)@
                },
                Parsed::Message(m, n) => {
                    &&& res matches Ok(Some(action)) && server_action_is(
                        action,
                        old(self).spec_options(),
                        old(self)@.streams,
                        m,
                    )
                    &&& final(self)@ == (MultiplexerView {
                        unread: old(self)@.unread.skip(n),
                        streams: streams_after(old(self)@.streams, m),
                    })
                },
            },
    {
        match self.parser.next() {
            Err(e) => Err(e),
            Ok(None) => Ok(None),
            Ok(Some(ChannelMessage::Connect(sc))) => {
                match self.streams.may_open(&sc.stream_id) {
                    Err(e) => Ok(Some(MultiplexerAction::Refuse(e))),
                    Ok(_) => Ok(
                        Some(
                            MultiplexerAction::Open {
                                stream_id: sc.stream_id,
                                address: self.options.target_address.clone(),
                                port: self.options.target_port,
                            },
                        ),
                    ),
                }
            },
            Ok(Some(msg)) => Ok(Some(stream_action(&mut self.streams, msg))),
        }
    }

    /// Takes on a stream, unless one of its id is open; that one then stays.
    pub fn opened(&mut self, id: OngoingStreamId, handle: H) -> (res: Result<
        (),
        MultiplexerError,
    >)
        ensures
            final(self).spec_options() == old(self).spec_options(),
            match res {
                Ok(_) => {
                    &&& !old(self)@.streams.contains_key(id.0)
                    &&& final(self)@ == (MultiplexerView {
                        streams: old(self)@.streams.insert(id.0, handle),
                        ..old(self)@
                    })
                },
                Err(e) => {
                    &&& old(self)@.streams.contains_key(id.0)
                    &&& e@ == "Already had this connection id"@
                    &&& final(self)@ == old(self)@
                },
            },
    {
        self.streams.new_stream(id, handle)
    }

    /// What is kept for a stream, where it is open.
    pub fn stream(&self, id: &OngoingStreamId) -> (handle: Option<&H>)
        ensures
            match handle {
                Some(h) => self@.streams.contains_key(id.0) && *h == self@.streams[id.0],
                None => !self@.streams.contains_key(id.0),
            },
    {
        self.streams.get(id)
    }

    /// Forgets a stream whose queue takes no more. The caller gives up what it
    /// kept for it.
    pub fn delivery_failed(&mut self, id: &OngoingStreamId) -> (handle: Option<H>)
        ensures
            final(self).spec_options() == old(self).spec_options(),
            final(self)@ == (MultiplexerView {
                streams: old(self)@.streams.remove(id.0),
                ..old(self)@
            }),
            match handle {
                Some(h) => old(self)@.streams.contains_key(id.0) && h == old(self)@.streams[id.0],
                None => !old(self)@.streams.contains_key(id.0),
            },
    {
        self.streams.remove(id)
    }
}

/// The side that listens for connections and makes a stream of each, as a
/// mathematical value.
#[verifier::ext_equal]
pub struct ClientView<H> {
    /// The bytes from the channel that wait to be read.
    pub unread: Seq<u8>,
    /// The streams that are open.
    pub streams: Map<u64, H>,
    /// The id of the next stream.
    pub next_id: u64,
    /// The port that is listened on.
    pub port: u16,
}

/// The side that listens for connections and makes a stream of each.
pub struct StreamMultiplexerClient<H> {
    _options: StreamMultiplexerClientOptions,
    parser: ChannelMessageParser,
    streams: OngoingStreamTracker<H>,
    next_id: u64,
    /// The port that is listened on.
    pub port: u16,
}

impl<H> View for StreamMultiplexerClient<H> {
    type V = ClientView<H>;

    closed spec fn view(&self) -> ClientView<H> {
        ClientView {
            unread: self.parser@,
            streams: self.streams@,
            next_id: self.next_id,
            port: self.port,
        }
    }
}

impl<H> StreamMultiplexerClient<H> {
    /// A client whose connections come in on `port`.
    pub fn new(options: StreamMultiplexerClientOptions, port: u16) -> (client:
        StreamMultiplexerClient<H>)
        ensures
            client@ == (ClientView::<H> {
                unread: seq![],
                streams: Map::empty(),
                next_id: 1,
                port,
            }),
    {
        let client = StreamMultiplexerClient {
            _options: options,
            parser: ChannelMessageParser::new(),
            streams: OngoingStreamTracker::new(),
            next_id: 1,
            port,
        };
        assert(client@.unread =~= seq![]);
        client
    }

    /// Starts to hand out ids, from 1 on.
    pub fn begin(&mut self)
        ensures
            final(self)@ == (ClientView { next_id: 1, ..old(self)@ }),
    {
        self.next_id = 1;
    }

    /// The id of the next stream.
    pub fn next_id(&self) -> (id: u64)
        ensures
            id == self@.next_id,
    {
        self.next_id
    }

    /// A connection has come in: gives its stream an id. The bytes tell the
    /// other side of it and are sent before the stream is opened.
    pub fn accepted(&mut self) -> (res: (OngoingStreamId, Vec<u8>))
        requires
            old(self)@.next_id < u64::MAX,
        ensures
            res.0.0 == old(self)@.next_id,
            res.1@ == ChannelMessageView::Connect(old(self)@.next_id).encoded(),
            final(self)@ == (ClientView {
                next_id: (old(self)@.next_id + 1) as u64,
                ..old(self)@
            }),
    {
        let stream_id = OngoingStreamId(self.next_id);
        self.next_id = self.next_id + 1;
        (stream_id, ChannelMessage::Connect(ConnectMsg { stream_id }).encode())
    }

    /// Handles an event and says what to do next.
    pub fn step(&mut self, event: MultiplexerEvent) -> (step: MultiplexerStep)
        ensures
            step_is(step, event, "rx channel died"@),
            final(self)@ == (ClientView {
                unread: unread_after(old(self)@.unread, event),
                ..old(self)@
            }),
    {
        multiplexer_step(&mut self.parser, event, "rx channel died")
    }

    /// Handles the next message that has arrived in full, and says what it asks
    /// for. Returns `None` where there is no such message. The other side opens
    /// no streams.
    pub fn next_action(&mut self) -> (res: Result<Option<MultiplexerAction<H>>, MultiplexerError>)
        ensures
            match channel_message::parse_message(old(self)@.unread) {
                Parsed::Rejected(e) => {
                    &&& res matches Err(err) && err@ == e
                    &&& final(self)@ == old(self)@
                },
                Parsed::Incomplete => {
                    &&& res matches Ok(None)
                    &&& final(self)@ == old(self)@
                },
                Parsed::Message(m, n) => {
                    &&& if m is Connect {
                        res matches Err(err) && err@
                            == "What's the client doing getting a connection request?!?!"@
                    } else {
                        res matches Ok(Some(action)) && stream_action_is(
                            action,
                            old(self)@.streams,
                            m,
                        )
                    }
                    &&& final(self)@ == (ClientView {
                        unread: old(self)@.unread.skip(n),
                        streams: streams_after(old(self)@.streams, m),
                        ..old(self)@
                    })
                },
            },
    {
        match self.parser.next() {
            Err(e) => Err(e),
            Ok(None) => Ok(None),
            Ok(Some(ChannelMessage::Connect(_))) => Err(
                MultiplexerError::from("What's the client doing getting a connection request?!?!"),
            ),
            Ok(Some(msg)) => Ok(Some(stream_action(&mut self.streams, msg))),
        }
    }

    /// Whether a stream of this id may be opened.
    pub fn may_open(&self, id: &OngoingStreamId) -> (res: Result<(), MultiplexerError>)
        ensures
            match res {
                Ok(_) => !self@.streams.contains_key(id.0),
                Err(e) => self@.streams.contains_key(id.0) && e@
                    == "Already had this connection id"@,
            },
    {
        self.streams.may_open(id)
    }

    /// Takes on a stream, unless one of its id is open; that one then stays.
    pub fn opened(&mut self, id: OngoingStreamId, handle: H) -> (res: Result<
        (),
        MultiplexerError,
    >)
        ensures
            match res {
                Ok(_) => {
                    &&& !old(self)@.streams.contains_key(id.0)
                    &&& final(self)@ == (ClientView {
                        streams: old(self)@.streams.insert(id.0, handle),
                        ..old(self)@
                    })
                },
                Err(e) => {
                    &&& old(self)@.streams.contains_key(id.0)
                    &&& e@ == "Already had this connection id"@
                    &&& final(self)@ == old(self)@
                },
            },
    {
        self.streams.new_stream(id, handle)
    }

    /// What is kept for a stream, where it is open.
    pub fn stream(&self, id: &OngoingStreamId) -> (handle: Option<&H>)
        ensures
            match handle {
                Some(h) => self@.streams.contains_key(id.0) && *h == self@.streams[id.0],
                None => !self@.streams.contains_key(id.0),
            },
    {
        self.streams.get(id)
    }

    /// Forgets a stream whose queue takes no more. The caller gives up what it
    /// kept for it.
    pub fn delivery_failed(&mut self, id: &OngoingStreamId) -> (handle: Option<H>)
        ensures
            final(self)@ == (ClientView {
                streams: old(self)@.streams.remove(id.0),
                ..old(self)@
            }),
            match handle {
                Some(h) => old(self)@.streams.contains_key(id.0) && h == old(self)@.streams[id.0],
                None => !old(self)@.streams.contains_key(id.0),
            },
    {
        self.streams.remove(id)
    }
}

/// Whether every open stream has an id that was handed out.
pub open spec fn ids_handed_out<H>(streams: Map<u64, H>, next_id: u64) -> bool {
    forall|id: u64| #[trigger] streams.contains_key(id) ==> id < next_id
}

/// A client's new stream never meets an open one of the same id: the ids that
/// it hands out grow, and whatever it does to its streams keeps them to ids
/// handed out. So it may always open the stream of the id that it hands out
/// next.
pub proof fn law_client_ids_are_new<H>(
    streams: Map<u64, H>,
    next_id: u64,
    m: ChannelMessageView,
    id: u64,
    handle: H,
)
    requires
        ids_handed_out(streams, next_id),
    ensures
        ids_handed_out(Map::<u64, H>::empty(), 1),
        !streams.contains_key(next_id),
        ids_handed_out(streams_after(streams, m), next_id),
        ids_handed_out(streams.remove(id), next_id),
        next_id < u64::MAX ==> ids_handed_out(streams, (next_id + 1) as u64),
        next_id < u64::MAX ==> ids_handed_out(
            streams.insert(next_id, handle),
            (next_id + 1) as u64,
        ),
{
}

/// The open streams after a message, those that it opens among them. The client
/// is sent no connects.
pub open spec fn open_after(open: Set<u64>, m: ChannelMessageView) -> Set<u64> {
    match m {
        ChannelMessageView::Connect(id) => open.insert(id),
        ChannelMessageView::Disconnect(id) => open.remove(id),
        ChannelMessageView::Error(id, _) => open.remove(id),
        _ => open,
    }
}

/// The open streams after the messages.
pub open spec fn open_after_all(open: Set<u64>, msgs: Seq<ChannelMessageView>) -> Set<u64>
    decreases msgs.len(),
{
    if msgs.len() == 0 {
        open
    } else {
        open_after(open_after_all(open, msgs.drop_last()), msgs.last())
    }
}

/// The bytes that the messages put into the queue of the stream `id`, as long as
/// its queue takes them.
pub open spec fn delivered(open: Set<u64>, msgs: Seq<ChannelMessageView>, id: u64) -> Seq<u8>
    decreases msgs.len(),
{
    if msgs.len() == 0 {
        seq![]
    } else {
        let before = delivered(open, msgs.drop_last(), id);
        match msgs.last() {
            ChannelMessageView::Data(to, bytes) => if to == id && open_after_all(
                open,
                msgs.drop_last(),
            ).contains(id) {
                before + bytes
            } else {
                before
            },
            _ => before,
        }
    }
}

/// The messages about the stream `id`.
pub open spec fn about(msgs: Seq<ChannelMessageView>, id: u64) -> Seq<ChannelMessageView>
    decreases msgs.len(),
{
    if msgs.len() == 0 {
        seq![]
    } else {
        let before = about(msgs.drop_last(), id);
        if msgs.last().stream_id() == id {
            before.push(msgs.last())
        } else {
            before
        }
    }
}

/// The bytes of the data messages.
pub open spec fn data_bytes(msgs: Seq<ChannelMessageView>) -> Seq<u8>
    decreases msgs.len(),
{
    if msgs.len() == 0 {
        seq![]
    } else {
        data_bytes(msgs.drop_last()) + match msgs.last() {
            ChannelMessageView::Data(_, bytes) => bytes,
            _ => seq![],
        }
    }
}

/// The messages about one stream do nothing to the others, and what either
/// side does about a message that opens nothing is what the open streams
/// become: a stream gets bytes exactly where a data message about it comes
/// while it is open.
pub proof fn law_action_and_open_streams<H>(
    action: MultiplexerAction<H>,
    streams: Map<u64, H>,
    m: ChannelMessageView,
)
    requires
        stream_action_is(action, streams, m),
        !(m is Connect),
    ensures
        streams_after(streams, m).dom() == open_after(streams.dom(), m),
        action is Deliver <==> m is Data && streams.contains_key(m.stream_id()),
        action matches MultiplexerAction::Deliver(sd) ==> m == ChannelMessageView::Data(
            sd.stream_id.0,
            sd.to_send@,
        ),
        forall|id: u64|
            id != m.stream_id() ==> {
                &&& #[trigger] streams_after(streams, m).contains_key(id) == streams.contains_key(
                    id,
                )
                &&& streams.contains_key(id) ==> streams_after(streams, m)[id] == streams[id]
            },
{
    assert(streams_after(streams, m).dom() =~= open_after(streams.dom(), m));
}

/// The server opens a stream for every connect, that very stream and at the
/// configured address and port, but for one that is open already, which it leaves
/// as it is.
pub proof fn law_connect_opens_once<H>(
    action: MultiplexerAction<H>,
    options: StreamMultiplexerServerOptions,
    streams: Map<u64, H>,
    id: u64,
    handle: H,
)
    requires
        server_action_is(action, options, streams, ChannelMessageView::Connect(id)),
    ensures
        action is Open <==> !streams.contains_key(id),
        action matches MultiplexerAction::Open { stream_id, address, port } ==> {
            &&& stream_id.0 == id
            &&& address@ == options.target_address@
            &&& port == options.target_port
        },
        !(action is Open) ==> (action matches MultiplexerAction::Refuse(e) && e@
            == "Already had this connection id"@),
        action is Open ==> streams.insert(id, handle).dom() == open_after(
            streams.dom(),
            ChannelMessageView::Connect(id),
        ),
        !(action is Open) ==> streams.dom() == open_after(
            streams.dom(),
            ChannelMessageView::Connect(id),
        ),
        streams_after(streams, ChannelMessageView::Connect(id)) == streams,
{
    assert(streams.insert(id, handle).dom() =~= streams.dom().insert(id));
    if streams.contains_key(id) {
        assert(streams.dom() =~= streams.dom().insert(id));
    }
}

/// The streams do not mix: what a stream gets, and whether it is open, is
/// decided by the messages about it, whatever else is sent between them.
pub proof fn law_streams_are_independent(
    open: Set<u64>,
    msgs: Seq<ChannelMessageView>,
    id: u64,
)
    ensures
        delivered(open, msgs, id) == delivered(open, about(msgs, id), id),
        open_after_all(open, msgs).contains(id) == open_after_all(open, about(msgs, id)).contains(
            id,
        ),
    decreases msgs.len(),
{
    if msgs.len() > 0 {
        law_streams_are_independent(open, msgs.drop_last(), id);
        if msgs.last().stream_id() == id {
            let mine = about(msgs.drop_last(), id).push(msgs.last());
            assert(mine.drop_last() =~= about(msgs.drop_last(), id));
            assert(mine.last() == msgs.last());
        }
    }
}

proof fn lemma_about_is_about(msgs: Seq<ChannelMessageView>, id: u64)
    ensures
        forall|i: int|
            0 <= i < about(msgs, id).len() ==> (#[trigger] about(msgs, id)[i]).stream_id() == id,
    decreases msgs.len(),
{
    if msgs.len() > 0 {
        let before = about(msgs.drop_last(), id);
        lemma_about_is_about(msgs.drop_last(), id);
        assert forall|i: int| 0 <= i < about(msgs, id).len() implies (#[trigger] about(
            msgs,
            id,
        )[i]).stream_id() == id by {
            if i < before.len() {
                assert(about(msgs, id)[i] == before[i]);
            }
        }
    }
}

/// Whether nothing in the messages about a stream ends it, and it is open or
/// they begin by opening it.
pub open spec fn stays_open(open: Set<u64>, mine: Seq<ChannelMessageView>, id: u64) -> bool {
    &&& open.contains(id) || (mine.len() > 0 && mine[0] is Connect)
    &&& forall|i: int|
        0 <= i < mine.len() ==> !(#[trigger] mine[i] is Disconnect) && !(mine[i] is Error)
}

proof fn lemma_open_stream_gets_all(open: Set<u64>, mine: Seq<ChannelMessageView>, id: u64)
    requires
        stays_open(open, mine, id),
        forall|i: int| 0 <= i < mine.len() ==> (#[trigger] mine[i]).stream_id() == id,
    ensures
        delivered(open, mine, id) == data_bytes(mine),
        open_after_all(open, mine).contains(id),
    decreases mine.len(),
{
    if mine.len() > 0 {
        let before = mine.drop_last();
        assert(mine.last() == mine[mine.len() - 1]);
        assert forall|i: int| 0 <= i < before.len() implies (#[trigger] before[i]).stream_id() == id
            && !(before[i] is Disconnect) && !(before[i] is Error) by {
            assert(before[i] == mine[i]);
        }
        if open.contains(id) || before.len() > 0 {
            if before.len() > 0 {
                assert(before[0] == mine[0]);
            }
            lemma_open_stream_gets_all(open, before, id);
        } else {
            assert(mine.last() is Connect);
        }
        assert(delivered(open, mine, id) =~= data_bytes(mine));
    }
}

/// A stream gets what was sent to it, all of it and in order, from when it is
/// opened until it is ended, in whatever pieces it was sent and whatever was
/// sent in between.
pub proof fn law_stream_gets_what_was_sent(open: Set<u64>, msgs: Seq<ChannelMessageView>, id: u64)
    requires
        stays_open(open, about(msgs, id), id),
    ensures
        delivered(open, msgs, id) == data_bytes(about(msgs, id)),
        open_after_all(open, msgs).contains(id),
{
    law_streams_are_independent(open, msgs, id);
    lemma_about_is_about(msgs, id);
    lemma_open_stream_gets_all(open, about(msgs, id), id);
}

/// What the client does that its channel sees.
pub enum ClientMove {
    /// It gives a connection an id, and sends the connect.
    Accept,
    /// It opens the stream of that id.
    Open(u64),
    /// It sends a message of a stream that it has opened, or about one.
    Send(ChannelMessageView),
}

/// What the client has done so far.
pub struct ClientLog {
    /// The id of the next stream.
    pub next_id: u64,
    /// The streams that were opened, whether they are over or not.
    pub opened: Set<u64>,
    /// The messages that were sent, in order.
    pub sent: Seq<ChannelMessageView>,
}

/// Whether the client can make the move. A stream is opened once its connect is
/// sent, and a stream is silent until it is opened; streams send no connects.
pub open spec fn client_can(log: ClientLog, m: ClientMove) -> bool {
    match m {
        ClientMove::Accept => log.next_id < u64::MAX,
        ClientMove::Open(id) => 1 <= id < log.next_id,
        ClientMove::Send(msg) => log.opened.contains(msg.stream_id()) && !(msg is Connect),
    }
}

/// What the client has done once it has made the moves.
pub open spec fn client_log(moves: Seq<ClientMove>) -> ClientLog
    decreases moves.len(),
{
    if moves.len() == 0 {
        ClientLog { next_id: 1, opened: Set::empty(), sent: seq![] }
    } else {
        let log = client_log(moves.drop_last());
        match moves.last() {
            ClientMove::Accept => ClientLog {
                next_id: (log.next_id + 1) as u64,
                sent: log.sent.push(ChannelMessageView::Connect(log.next_id)),
                ..log
            },
            ClientMove::Open(id) => ClientLog { opened: log.opened.insert(id), ..log },
            ClientMove::Send(msg) => ClientLog { sent: log.sent.push(msg), ..log },
        }
    }
}

/// Whether the client can make the moves, one after the other.
pub open spec fn client_run(moves: Seq<ClientMove>) -> bool
    decreases moves.len(),
{
    moves.len() == 0 || {
        &&& client_run(moves.drop_last())
        &&& client_can(client_log(moves.drop_last()), moves.last())
    }
}

/// A message more is about its own stream only.
proof fn lemma_about_push(msgs: Seq<ChannelMessageView>, m: ChannelMessageView, id: u64)
    ensures
        about(msgs.push(m), id) == (if m.stream_id() == id {
            about(msgs, id).push(m)
        } else {
            about(msgs, id)
        }),
{
    assert(msgs.push(m).drop_last() =~= msgs);
}

/// The connect of a stream goes out before anything else about it, and once: of
/// every id that was handed out the first message is the connect, no other is,
/// and of an id that was not there is no message.
pub proof fn law_connect_goes_first(moves: Seq<ClientMove>, id: u64)
    requires
        client_run(moves),
    ensures
        ({
            let log = client_log(moves);
            let mine = about(log.sent, id);
            &&& 1 <= log.next_id
            &&& log.opened.contains(id) ==> 1 <= id < log.next_id
            &&& mine.len() > 0 <==> 1 <= id < log.next_id
            &&& mine.len() > 0 ==> mine[0] == ChannelMessageView::Connect(id)
            &&& forall|i: int| 0 < i < mine.len() ==> !(#[trigger] mine[i] is Connect)
        }),
    decreases moves.len(),
{
    if moves.len() > 0 {
        let before = client_log(moves.drop_last());
        law_connect_goes_first(moves.drop_last(), id);
        match moves.last() {
            ClientMove::Accept => {
                lemma_about_push(before.sent, ChannelMessageView::Connect(before.next_id), id);
            },
            ClientMove::Open(_) => {},
            ClientMove::Send(msg) => {
                lemma_about_push(before.sent, msg, id);
            },
        }
    }
}

/// So the server puts into the queue of each of the client's streams what the
/// client has sent to it, all of it and in order, until the client ends it.
pub proof fn law_server_gets_what_client_sent(moves: Seq<ClientMove>, open: Set<u64>, id: u64)
    requires
        client_run(moves),
        1 <= id < client_log(moves).next_id,
        forall|i: int|
            0 <= i < about(client_log(moves).sent, id).len() ==> !(#[trigger] about(
                client_log(moves).sent,
                id,
            )[i] is Disconnect) && !(about(client_log(moves).sent, id)[i] is Error),
    ensures
        delivered(open, client_log(moves).sent, id) == data_bytes(
            about(client_log(moves).sent, id),
        ),
        open_after_all(open, client_log(moves).sent).contains(id),
{
    law_connect_goes_first(moves, id);
    law_stream_gets_what_was_sent(open, client_log(moves).sent, id);
}

/// From end to end: the messages are encoded, their bytes sent over the channel,
/// and read on the other side; each stream gets what was sent to it.
pub proof fn law_bytes_reach_their_stream(open: Set<u64>, msgs: Seq<ChannelMessageView>, id: u64)
    requires
        stays_open(open, about(msgs, id), id),
        forall|i: int| 0 <= i < msgs.len() ==> (#[trigger] msgs[i]).fits(),
    ensures
        ({
            let sent = framing::encode_all(channel_message::message_encoder(), msgs);
            let read = framing::drain(channel_message::message_parser(), sent);
            &&& read.messages == msgs
            &&& read.error is None
            &&& delivered(open, read.messages, id) == data_bytes(about(msgs, id))
        }),
{
    let sent = framing::encode_all(channel_message::message_encoder(), msgs);
    let none = Seq::<u8>::empty();
    channel_message::law_messages_survive(msgs, none);
    assert(sent + none =~= sent);
    assert(framing::drain(channel_message::message_parser(), none).messages =~= seq![]);
    assert(msgs + seq![] =~= msgs);
    law_stream_gets_what_was_sent(open, msgs, id);
}

/// Every message reaches the stream that it is about: its end gives up what was
/// kept for it, a pause and a resume are passed on, a failure is told of with its
/// reason, and what is about no open stream is ignored.
pub proof fn law_messages_reach_their_stream<H>(
    action: MultiplexerAction<H>,
    streams: Map<u64, H>,
    m: ChannelMessageView,
)
    requires
        stream_action_is(action, streams, m),
    ensures
        ({
            let id = m.stream_id();
            let open = streams.contains_key(id);
            &&& open && m is Disconnect ==> action == MultiplexerAction::Abort(streams[id])
            &&& open && m is Pause ==> action == MultiplexerAction::<H>::PauseRead(
                OngoingStreamId(id),
            )
            &&& open && m is Resume ==> action == MultiplexerAction::<H>::ResumeRead(
                OngoingStreamId(id),
            )
            &&& open && m is Data ==> {
                &&& action matches MultiplexerAction::Deliver(sd)
                &&& m == ChannelMessageView::Data(sd.stream_id.0, sd.to_send@)
            }
            &&& m matches ChannelMessageView::Error(_, reason) ==> {
                &&& action matches MultiplexerAction::Failed { message, handle }
                &&& message@ == reason
                &&& open ==> handle == Some(streams[id])
                &&& !open ==> handle is None
            }
            &&& !open && !(m is Error) ==> action is Ignore
        }),
{
}

/// The server does about an open stream what the client does.
pub proof fn law_sides_act_alike<H>(
    action: MultiplexerAction<H>,
    options: StreamMultiplexerServerOptions,
    streams: Map<u64, H>,
    m: ChannelMessageView,
)
    requires
        !(m is Connect),
    ensures
        server_action_is(action, options, streams, m) <==> stream_action_is(action, streams, m),
{
}

/// A stream is forgotten exactly when the other end has ended it or it has failed
/// there; what is kept for the others stays.
pub proof fn law_streams_are_forgotten<H>(streams: Map<u64, H>, m: ChannelMessageView, id: u64)
    ensures
        streams_after(streams, m).contains_key(id) <==> {
            &&& streams.contains_key(id)
            &&& !(id == m.stream_id() && (m is Disconnect || m is Error))
        },
        streams_after(streams, m).contains_key(id) ==> streams_after(streams, m)[id] == streams[id],
{
}

/// A multiplexer stops exactly when it is interrupted, and fails exactly when one
/// of its channels ends. Bytes from the channel are all kept, in order, to be read
/// now; a stream's message is sent as it is, and changes nothing.
pub proof fn law_multiplexer_steps(
    step: MultiplexerStep,
    event: MultiplexerEvent,
    channel_died: Seq<char>,
    unread: Seq<u8>,
)
    requires
        step_is(step, event, channel_died),
    ensures
        step is Stop <==> event is Interrupted,
        step is Process <==> event matches MultiplexerEvent::Channel(Some(_)),
        step is Send <==> event matches MultiplexerEvent::Stream(Some(_)),
        event == MultiplexerEvent::Channel(None) ==> (step matches MultiplexerStep::Fail(e) && e@
            == channel_died),
        event == MultiplexerEvent::Stream(None) ==> (step matches MultiplexerStep::Fail(e) && e@
            == "connection tracker channel died"@),
        event matches MultiplexerEvent::Stream(Some(m)) ==> (step matches MultiplexerStep::Send(
            bytes,
        ) && bytes@ == m@.encoded()),
        event matches MultiplexerEvent::Channel(Some(data)) ==> unread_after(unread, event)
            == unread + data@,
        !(step is Process) ==> unread_after(unread, event) == unread,
{
}

} // verus!
