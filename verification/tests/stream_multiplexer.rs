//! The two sides of the multiplexer, joined by buffers that stand for the
//! channel, with queues in place of sockets.

use mobiletunnel::channel_message::{
    ChannelMessage, ConnectMsg, DataMsg, DisconnectMsg, ErrorMsg, OngoingStreamId, PauseMsg,
    ResumeMsg,
};
use mobiletunnel::flow_control::{
    delivery_step, DeliveryAction, DeliveryEvent, StreamFlowControl, TrySendOutcome,
    BACKPRESSURE_HIGH_WATER, BACKPRESSURE_LOW_WATER,
};
use mobiletunnel::internal_stream::{
    reader_step, writer_step, ReaderAction, ReaderEvent, WriterAction, WriterEvent, READ_SIZE,
};
use mobiletunnel::stream_multiplexer::{
    end_of_stream, MultiplexerAction, MultiplexerEvent, MultiplexerStep, OngoingStreamTracker,
    StreamMultiplexerClient, StreamMultiplexerClientOptions, StreamMultiplexerServer,
    StreamMultiplexerServerOptions,
};
use std::cell::RefCell;
use std::collections::{BTreeMap, VecDeque};
use std::rc::Rc;

fn sid(id: u64) -> OngoingStreamId {
    OngoingStreamId(id)
}

/// One end of a stream.
struct Stream {
    id: OngoingStreamId,
    flow: StreamFlowControl,
    /// What waits to be written to the socket.
    queue: VecDeque<ChannelMessage>,
    /// Whether the socket takes what is written to it.
    slow: bool,
    /// What was written to the socket.
    written: Vec<u8>,
    /// What can be read from the socket.
    unread: Vec<u8>,
    /// Whether the socket is closed at the other end.
    closed: bool,
    /// Whether the socket gives back what is written to it.
    echo: bool,
    over: bool,
}

type Handle = Rc<RefCell<Stream>>;

fn new_stream(id: OngoingStreamId, echo: bool) -> Handle {
    Rc::new(RefCell::new(Stream {
        id,
        flow: StreamFlowControl::new(),
        queue: VecDeque::new(),
        slow: false,
        written: vec![],
        unread: vec![],
        closed: false,
        echo,
        over: false,
    }))
}

impl Stream {
    /// Runs the two tasks as far as they go, and returns what they send.
    fn run(&mut self) -> Vec<ChannelMessage> {
        let mut sent = vec![];
        if self.over {
            return sent;
        }
        let mut stop = false;
        while !self.slow && !stop {
            let msg = match self.queue.pop_front() {
                None => break,
                Some(msg) => msg,
            };
            let mut event = WriterEvent::Received(Some(msg));
            loop {
                match writer_step(&mut self.flow, self.id, event) {
                    WriterAction::Write(bytes) => {
                        if self.echo {
                            self.unread.extend_from_slice(&bytes);
                        }
                        self.written.extend_from_slice(&bytes);
                        event = WriterEvent::Written;
                    }
                    WriterAction::Send(msg) => {
                        sent.push(msg);
                        event = WriterEvent::ResumeSent { ok: true };
                    }
                    WriterAction::Receive => break,
                    WriterAction::Stop => {
                        stop = true;
                        break;
                    }
                }
            }
        }
        let mut event = ReaderEvent::Started;
        loop {
            match reader_step(&self.flow, self.id, event) {
                ReaderAction::AwaitResume => break,
                ReaderAction::Read => {
                    if self.unread.is_empty() && !self.closed {
                        break;
                    }
                    let n = self.unread.len().min(READ_SIZE);
                    event = ReaderEvent::Read(self.unread.drain(..n).collect());
                }
                ReaderAction::Forward(msg) => {
                    sent.push(msg);
                    event = ReaderEvent::Forwarded { ok: true };
                }
                ReaderAction::Stop => {
                    stop = true;
                    break;
                }
            }
        }
        if stop {
            self.over = true;
            sent.push(end_of_stream(self.id));
        }
        sent
    }
}

struct Harness {
    client: StreamMultiplexerClient<Handle>,
    server: StreamMultiplexerServer<Handle>,
    to_server: VecDeque<Vec<u8>>,
    to_client: VecDeque<Vec<u8>>,
    client_streams: BTreeMap<u64, Handle>,
    server_streams: BTreeMap<u64, Handle>,
}

impl Harness {
    fn new() -> Harness {
        let client_options =
            StreamMultiplexerClientOptions { listen_port: 0, listen_host: "localhost".to_string() };
        let server_options = StreamMultiplexerServerOptions {
            target_port: 22,
            target_address: "localhost".to_string(),
        };
        Harness {
            client: StreamMultiplexerClient::new(client_options, 4000),
            server: StreamMultiplexerServer::new(server_options).unwrap(),
            to_server: VecDeque::new(),
            to_client: VecDeque::new(),
            client_streams: BTreeMap::new(),
            server_streams: BTreeMap::new(),
        }
    }

    /// A connection to the client.
    fn connect(&mut self) -> Handle {
        let (id, bytes) = self.client.accepted();
        self.to_server.push_back(bytes);
        self.client.may_open(&id).unwrap();
        let handle = new_stream(id, false);
        self.client.opened(id, handle.clone()).unwrap();
        self.client_streams.insert(id.0, handle.clone());
        handle
    }

    fn deliver(handle: &Handle, sd: DataMsg, out: &mut VecDeque<Vec<u8>>) -> bool {
        let mut stream = handle.borrow_mut();
        let id = sd.stream_id;
        let mut event = if stream.over {
            DeliveryEvent::QueueClosed
        } else {
            stream.queue.push_back(ChannelMessage::Data(sd));
            DeliveryEvent::Queued
        };
        loop {
            match delivery_step(&mut stream.flow, id, event).unwrap() {
                DeliveryAction::Done => return true,
                DeliveryAction::Remove => return false,
                DeliveryAction::TrySend(bytes) => {
                    out.push_back(bytes);
                    event = DeliveryEvent::PauseTried(TrySendOutcome::Sent);
                }
            }
        }
    }

    fn run_server(&mut self) -> bool {
        let mut any = false;
        while let Some(data) = self.to_server.pop_front() {
            any = true;
            match self.server.step(MultiplexerEvent::Channel(Some(data))) {
                MultiplexerStep::Process => {}
                _ => panic!("unexpected step"),
            }
            while let Some(action) = self.server.next_action().unwrap() {
                match action {
                    MultiplexerAction::Open { stream_id, address, port } => {
                        assert_eq!((address.as_str(), port), ("localhost", 22));
                        let handle = new_stream(stream_id, true);
                        self.server.opened(stream_id, handle.clone()).unwrap();
                        self.server_streams.insert(stream_id.0, handle);
                    }
                    MultiplexerAction::Abort(handle) => handle.borrow_mut().over = true,
                    MultiplexerAction::Failed { .. } => panic!("no stream fails here"),
                    MultiplexerAction::Deliver(sd) => {
                        let id = sd.stream_id;
                        let handle = self.server.stream(&id).unwrap().clone();
                        if !Self::deliver(&handle, sd, &mut self.to_client) {
                            assert!(self.server.delivery_failed(&id).is_some());
                        }
                    }
                    MultiplexerAction::PauseRead(id) => {
                        self.server.stream(&id).unwrap().borrow_mut().flow.pause_read()
                    }
                    MultiplexerAction::ResumeRead(id) => {
                        self.server.stream(&id).unwrap().borrow_mut().flow.resume_read()
                    }
                    MultiplexerAction::Refuse(_) | MultiplexerAction::Ignore => {}
                }
            }
        }
        let handles: Vec<Handle> = self.server_streams.values().cloned().collect();
        for handle in handles {
            for msg in handle.borrow_mut().run() {
                any = true;
                match self.server.step(MultiplexerEvent::Stream(Some(msg))) {
                    MultiplexerStep::Send(bytes) => self.to_client.push_back(bytes),
                    _ => panic!("unexpected step"),
                }
            }
        }
        any
    }

    fn run_client(&mut self) -> bool {
        let mut any = false;
        while let Some(data) = self.to_client.pop_front() {
            any = true;
            match self.client.step(MultiplexerEvent::Channel(Some(data))) {
                MultiplexerStep::Process => {}
                _ => panic!("unexpected step"),
            }
            while let Some(action) = self.client.next_action().unwrap() {
                match action {
                    MultiplexerAction::Open { .. } | MultiplexerAction::Refuse(_) => {
                        panic!("the client opens no streams")
                    }
                    MultiplexerAction::Abort(handle) => handle.borrow_mut().over = true,
                    MultiplexerAction::Failed { .. } => panic!("no stream fails here"),
                    MultiplexerAction::Deliver(sd) => {
                        let id = sd.stream_id;
                        let handle = self.client.stream(&id).unwrap().clone();
                        if !Self::deliver(&handle, sd, &mut self.to_server) {
                            assert!(self.client.delivery_failed(&id).is_some());
                        }
                    }
                    MultiplexerAction::PauseRead(id) => {
                        self.client.stream(&id).unwrap().borrow_mut().flow.pause_read()
                    }
                    MultiplexerAction::ResumeRead(id) => {
                        self.client.stream(&id).unwrap().borrow_mut().flow.resume_read()
                    }
                    MultiplexerAction::Ignore => {}
                }
            }
        }
        let handles: Vec<Handle> = self.client_streams.values().cloned().collect();
        for handle in handles {
            for msg in handle.borrow_mut().run() {
                any = true;
                match self.client.step(MultiplexerEvent::Stream(Some(msg))) {
                    MultiplexerStep::Send(bytes) => self.to_server.push_back(bytes),
                    _ => panic!("unexpected step"),
                }
            }
        }
        any
    }

    fn settle(&mut self) {
        loop {
            let a = self.run_client();
            let b = self.run_server();
            if !a && !b {
                return;
            }
        }
    }
}

fn write_all(c: &Handle, bytes: &[u8]) {
    c.borrow_mut().unread.extend_from_slice(bytes);
}

fn read_all(c: &Handle) -> Vec<u8> {
    std::mem::take(&mut c.borrow_mut().written)
}

#[test]
fn stream_multiplexer_basic_test() {
    let mut harness = Harness::new();
    let c = harness.connect();
    write_all(&c, b"hello");
    harness.settle();
    assert!(b"hello".to_vec() == read_all(&c));
}

#[test]
fn large_data_test() {
    let mut harness = Harness::new();
    let c = harness.connect();
    let payload: Vec<u8> = (0..65536).map(|i| (i % 251) as u8).collect();
    write_all(&c, &payload);
    harness.settle();
    assert_eq!(read_all(&c), payload);
}

#[test]
fn many_test() {
    let mut harness = Harness::new();
    let connections: Vec<Handle> = (0..20).map(|_| harness.connect()).collect();
    for c in &connections {
        write_all(c, b"hello");
    }
    harness.settle();
    for c in &connections {
        assert!(b"hello".to_vec() == read_all(c));
    }
}

#[test]
fn backpressure_no_stall_test() {
    let mut harness = Harness::new();
    let c1 = harness.connect();
    harness.settle();
    // The first connection is never read from, and the target floods it.
    c1.borrow_mut().slow = true;
    let target = harness.server_streams[&1].clone();
    target.borrow_mut().unread = vec![0u8; 8 * 1024 * 1024];
    harness.settle();
    assert!(c1.borrow().flow.pending() >= BACKPRESSURE_HIGH_WATER);
    assert!(target.borrow().flow.is_read_paused() || target.borrow().unread.is_empty());

    let c2 = harness.connect();
    write_all(&c2, b"hello");
    harness.settle();
    assert_eq!(read_all(&c2), b"hello");

    // Once it is read from, all of it arrives.
    c1.borrow_mut().slow = false;
    harness.settle();
    assert_eq!(read_all(&c1), vec![0u8; 8 * 1024 * 1024]);
    assert_eq!(c1.borrow().flow.pending(), 0);
    assert!(!target.borrow().flow.is_read_paused());
}

#[test]
fn test_stream_disconnect_and_new_stream() {
    let mut harness = Harness::new();
    let c1 = harness.connect();
    write_all(&c1, b"first");
    harness.settle();
    assert_eq!(read_all(&c1), b"first");
    c1.borrow_mut().closed = true;
    harness.settle();
    assert!(harness.server.stream(&sid(1)).is_none());

    let c2 = harness.connect();
    write_all(&c2, b"second");
    harness.settle();
    assert_eq!(read_all(&c2), b"second");
}

#[test]
fn test_many_sequential_connections() {
    let mut harness = Harness::new();
    for i in 0u32..50 {
        let msg = format!("msg{:03}", i);
        let c = harness.connect();
        write_all(&c, msg.as_bytes());
        harness.settle();
        assert_eq!(read_all(&c), msg.as_bytes());
        c.borrow_mut().closed = true;
        harness.settle();
    }
}

#[test]
fn test_concurrent_large_and_small() {
    let mut harness = Harness::new();
    let large = harness.connect();
    let small = harness.connect();
    let payload: Vec<u8> = (0..65536).map(|i| (i % 251) as u8).collect();
    write_all(&large, &payload);
    write_all(&small, b"hi");
    harness.settle();
    assert_eq!(read_all(&large), payload);
    assert_eq!(read_all(&small), b"hi");
}

#[test]
fn test_connection_close_midstream() {
    let mut harness = Harness::new();
    let c1 = harness.connect();
    write_all(&c1, &vec![0u8; 1024]);
    c1.borrow_mut().closed = true;
    harness.settle();

    let c2 = harness.connect();
    write_all(&c2, b"ok");
    harness.settle();
    assert_eq!(read_all(&c2), b"ok");
}

fn server() -> StreamMultiplexerServer<&'static str> {
    let options = StreamMultiplexerServerOptions {
        target_port: 80,
        target_address: "example.com".to_string(),
    };
    StreamMultiplexerServer::new(options).unwrap()
}

fn client() -> StreamMultiplexerClient<&'static str> {
    let options =
        StreamMultiplexerClientOptions { listen_port: 1, listen_host: "localhost".to_string() };
    StreamMultiplexerClient::new(options, 1234)
}

fn feed(server: &mut StreamMultiplexerServer<&'static str>, msg: ChannelMessage) {
    let step = server.step(MultiplexerEvent::Channel(Some(msg.encode())));
    assert!(matches!(step, MultiplexerStep::Process));
}

fn connect_msg(id: u64) -> ChannelMessage {
    ChannelMessage::Connect(ConnectMsg { stream_id: sid(id) })
}

fn data_msg(id: u64, bytes: &[u8]) -> ChannelMessage {
    ChannelMessage::Data(DataMsg { stream_id: sid(id), to_send: bytes.to_vec() })
}

#[test]
fn server_opens_streams_once() {
    let mut server = server();
    feed(&mut server, connect_msg(3));
    match server.next_action().unwrap().unwrap() {
        MultiplexerAction::Open { stream_id, address, port } => {
            assert_eq!(stream_id, sid(3));
            assert_eq!(address, "example.com");
            assert_eq!(port, 80);
        }
        _ => panic!("the stream was to be opened"),
    }
    server.opened(sid(3), "three").unwrap();
    feed(&mut server, connect_msg(3));
    match server.next_action().unwrap().unwrap() {
        MultiplexerAction::Refuse(e) => {
            assert_eq!(e.description(), "Already had this connection id")
        }
        _ => panic!("the stream was to be refused"),
    }
    assert_eq!(server.stream(&sid(3)), Some(&"three"));
    assert!(server.next_action().unwrap().is_none());
}

#[test]
fn server_routes_messages() {
    let mut server = server();
    server.opened(sid(1), "one").unwrap();
    server.opened(sid(2), "two").unwrap();
    feed(&mut server, data_msg(1, b"abc"));
    feed(&mut server, data_msg(9, b"abc"));
    feed(&mut server, ChannelMessage::Pause(PauseMsg { stream_id: sid(2) }));
    feed(&mut server, ChannelMessage::Resume(ResumeMsg { stream_id: sid(2) }));
    feed(&mut server, ChannelMessage::Pause(PauseMsg { stream_id: sid(9) }));
    feed(&mut server, ChannelMessage::Resume(ResumeMsg { stream_id: sid(9) }));
    let error = ErrorMsg { stream_id: sid(1), message: "gone".to_string() };
    feed(&mut server, ChannelMessage::Error(error));
    feed(&mut server, ChannelMessage::Disconnect(DisconnectMsg { stream_id: sid(1) }));
    feed(&mut server, ChannelMessage::Disconnect(DisconnectMsg { stream_id: sid(2) }));
    match server.next_action().unwrap().unwrap() {
        MultiplexerAction::Deliver(sd) => {
            assert_eq!(sd, DataMsg { stream_id: sid(1), to_send: b"abc".to_vec() })
        }
        _ => panic!("the data was to be delivered"),
    }
    assert!(matches!(server.next_action().unwrap(), Some(MultiplexerAction::Ignore)));
    assert!(matches!(
        server.next_action().unwrap(),
        Some(MultiplexerAction::PauseRead(OngoingStreamId(2)))
    ));
    assert!(matches!(
        server.next_action().unwrap(),
        Some(MultiplexerAction::ResumeRead(OngoingStreamId(2)))
    ));
    assert!(matches!(server.next_action().unwrap(), Some(MultiplexerAction::Ignore)));
    assert!(matches!(server.next_action().unwrap(), Some(MultiplexerAction::Ignore)));
    match server.next_action().unwrap() {
        Some(MultiplexerAction::Failed { message, handle }) => {
            assert_eq!(message, "gone");
            assert_eq!(handle, Some("one"));
        }
        _ => panic!("the stream has failed"),
    }
    assert!(matches!(server.next_action().unwrap(), Some(MultiplexerAction::Ignore)));
    assert!(matches!(server.next_action().unwrap(), Some(MultiplexerAction::Abort("two"))));
    assert!(server.next_action().unwrap().is_none());
}

#[test]
fn failures_of_closed_streams_are_told_of() {
    let mut server = server();
    let error = ErrorMsg { stream_id: sid(9), message: "late".to_string() };
    feed(&mut server, ChannelMessage::Error(error));
    assert!(matches!(
        server.next_action().unwrap(),
        Some(MultiplexerAction::Failed { message, handle: None }) if message == "late"
    ));
}

#[test]
fn failed_deliveries_close_the_stream() {
    let mut server = server();
    server.opened(sid(1), "one").unwrap();
    assert_eq!(server.delivery_failed(&sid(1)), Some("one"));
    assert_eq!(server.delivery_failed(&sid(1)), None);
    let mut client = client();
    client.opened(sid(1), "one").unwrap();
    assert_eq!(client.delivery_failed(&sid(1)), Some("one"));
    assert_eq!(client.stream(&sid(1)), None);
}

#[test]
fn multiplexers_fail_when_their_channels_die() {
    let text = |step: MultiplexerStep| match step {
        MultiplexerStep::Fail(e) => e.description().to_string(),
        _ => panic!("it was to fail"),
    };
    let mut server = server();
    let mut client = client();
    assert_eq!(
        text(server.step(MultiplexerEvent::Channel(None))),
        "rx channel died, ending server"
    );
    assert_eq!(text(client.step(MultiplexerEvent::Channel(None))), "rx channel died");
    let tracker = "connection tracker channel died";
    assert_eq!(text(server.step(MultiplexerEvent::Stream(None))), tracker);
    assert_eq!(text(client.step(MultiplexerEvent::Stream(None))), tracker);
    assert!(matches!(server.step(MultiplexerEvent::Interrupted), MultiplexerStep::Stop));
    assert!(matches!(client.step(MultiplexerEvent::Interrupted), MultiplexerStep::Stop));
}

#[test]
fn stream_messages_are_sent_encoded() {
    let msg = data_msg(4, b"xyz");
    match server().step(MultiplexerEvent::Stream(Some(msg.clone()))) {
        MultiplexerStep::Send(bytes) => assert_eq!(bytes, msg.encode()),
        _ => panic!("it was to be sent"),
    }
}

#[test]
fn client_hands_out_growing_ids() {
    let mut client = client();
    assert_eq!(client.port, 1234);
    for id in 1..5 {
        assert_eq!(client.next_id(), id);
        let (stream_id, bytes) = client.accepted();
        assert_eq!(stream_id, sid(id));
        assert_eq!(bytes, connect_msg(id).encode());
        assert!(client.may_open(&stream_id).is_ok());
        client.opened(stream_id, "open").unwrap();
        assert_eq!(
            client.may_open(&stream_id).unwrap_err().description(),
            "Already had this connection id"
        );
    }
    client.begin();
    assert_eq!(client.next_id(), 1);
}

#[test]
fn open_streams_are_not_replaced() {
    let mut server = server();
    server.opened(sid(1), "one").unwrap();
    assert!(server.opened(sid(1), "other").is_err());
    assert_eq!(server.stream(&sid(1)), Some(&"one"));
    let mut client = client();
    client.opened(sid(1), "one").unwrap();
    assert!(client.opened(sid(1), "other").is_err());
    assert_eq!(client.stream(&sid(1)), Some(&"one"));
}

#[test]
fn connects_go_first() {
    // All that the client sends, read back: each stream begins with its connect.
    let mut harness = Harness::new();
    let connections: Vec<Handle> = (0..5).map(|_| harness.connect()).collect();
    for c in connections.iter().rev() {
        write_all(c, b"data");
        c.borrow_mut().closed = true;
    }
    harness.run_client();
    let mut seen: BTreeMap<u64, Vec<ChannelMessage>> = BTreeMap::new();
    for bytes in &harness.to_server {
        let (msg, _) = ChannelMessage::parse(bytes).unwrap().unwrap();
        let id = match &msg {
            ChannelMessage::Connect(m) => m.stream_id.0,
            ChannelMessage::Data(m) => m.stream_id.0,
            ChannelMessage::Disconnect(m) => m.stream_id.0,
            _ => panic!("nothing else was sent"),
        };
        seen.entry(id).or_default().push(msg);
    }
    for id in 1..6 {
        assert_eq!(
            seen[&id],
            vec![connect_msg(id), data_msg(id, b"data"), end_of_stream(sid(id))]
        );
    }
    assert_eq!(seen.len(), 5);
}

#[test]
fn client_refuses_connects() {
    let mut client = client();
    client.step(MultiplexerEvent::Channel(Some(connect_msg(1).encode())));
    let e = match client.next_action() {
        Err(e) => e,
        Ok(_) => panic!("the connect was to be refused"),
    };
    assert_eq!(e.description(), "What's the client doing getting a connection request?!?!");
}

#[test]
fn multiplexers_pass_on_refusals() {
    let mut server = server();
    let mut bad = connect_msg(1).encode();
    bad[0] = 77;
    server.step(MultiplexerEvent::Channel(Some(bad)));
    match server.next_action() {
        Err(e) => assert_eq!(e.description(), "unknown msg id 77!"),
        Ok(_) => panic!("the frame was to be refused"),
    }
}

#[test]
fn tracker_keeps_streams() {
    let mut tracker: OngoingStreamTracker<u8> = OngoingStreamTracker::new();
    assert!(tracker.may_open(&sid(1)).is_ok());
    tracker.new_stream(sid(1), 10).unwrap();
    tracker.new_stream(sid(2), 20).unwrap();
    let refused = tracker.new_stream(sid(1), 30).unwrap_err();
    assert_eq!(refused.description(), "Already had this connection id");
    assert_eq!(tracker.get(&sid(1)), Some(&10));
    assert!(tracker.may_open(&sid(1)).is_err());
    assert_eq!(tracker.get(&sid(2)), Some(&20));
    assert_eq!(tracker.remove(&sid(1)), Some(10));
    assert_eq!(tracker.remove(&sid(1)), None);
    assert_eq!(tracker.get(&sid(2)), Some(&20));
}

#[test]
fn streams_end_with_a_disconnect() {
    assert_eq!(
        end_of_stream(sid(8)),
        ChannelMessage::Disconnect(DisconnectMsg { stream_id: sid(8) })
    );
}

#[test]
fn flow_pauses_at_the_high_water_mark_and_resumes_at_the_low() {
    let mut flow = StreamFlowControl::new();
    let pause = Some(ChannelMessage::Pause(PauseMsg { stream_id: sid(6) }));
    let resume = Some(ChannelMessage::Resume(ResumeMsg { stream_id: sid(6) }));
    for _ in 1..BACKPRESSURE_HIGH_WATER {
        assert_eq!(flow.data_queued(sid(6)), None);
    }
    assert_eq!(flow.pending(), 63);
    assert_eq!(flow.data_queued(sid(6)), pause);
    assert!(flow.pause_tried(TrySendOutcome::Sent).is_ok());
    assert_eq!(flow.data_queued(sid(6)), None);
    while flow.pending() > BACKPRESSURE_LOW_WATER {
        assert_eq!(flow.message_written(sid(6)), None);
    }
    assert_eq!(flow.message_written(sid(6)), resume);
    assert_eq!(flow.pending(), 15);
    assert_eq!(flow.message_written(sid(6)), None);
}

#[test]
fn flow_tries_again_where_there_was_no_room() {
    let mut flow = StreamFlowControl::new();
    for _ in 1..BACKPRESSURE_HIGH_WATER {
        flow.data_queued(sid(6));
    }
    assert!(flow.data_queued(sid(6)).is_some());
    assert!(flow.pause_tried(TrySendOutcome::Full).is_ok());
    assert!(flow.data_queued(sid(6)).is_some());
    let closed = flow.pause_tried(TrySendOutcome::Closed).unwrap_err();
    assert_eq!(closed.description(), "channel closed");
}

#[test]
fn deliveries() {
    let mut flow = StreamFlowControl::new();
    let mut deliver = |event| delivery_step(&mut flow, sid(6), event);
    assert!(matches!(deliver(DeliveryEvent::QueueClosed), Ok(DeliveryAction::Remove)));
    for _ in 1..BACKPRESSURE_HIGH_WATER {
        assert!(matches!(deliver(DeliveryEvent::Queued), Ok(DeliveryAction::Done)));
    }
    match deliver(DeliveryEvent::Queued) {
        Ok(DeliveryAction::TrySend(bytes)) => {
            assert_eq!(bytes, ChannelMessage::Pause(PauseMsg { stream_id: sid(6) }).encode())
        }
        _ => panic!("the other end was to be told"),
    }
    let tried = DeliveryEvent::PauseTried(TrySendOutcome::Full);
    assert!(matches!(deliver(tried), Ok(DeliveryAction::Done)));
    assert!(matches!(deliver(DeliveryEvent::Queued), Ok(DeliveryAction::TrySend(_))));
    let tried = DeliveryEvent::PauseTried(TrySendOutcome::Sent);
    assert!(matches!(deliver(tried), Ok(DeliveryAction::Done)));
    assert!(matches!(deliver(DeliveryEvent::Queued), Ok(DeliveryAction::Done)));
    match deliver(DeliveryEvent::PauseTried(TrySendOutcome::Closed)) {
        Err(e) => assert_eq!(e.description(), "channel closed"),
        Ok(_) => panic!("the channel was closed"),
    }
    assert_eq!(flow.pending(), 66);
}

#[test]
fn flow_signals_alternate() {
    let mut flow = StreamFlowControl::new();
    let mut signals = vec![];
    // Bursts of messages, each followed by writes, with a pause refused now and
    // then.
    for round in 0..200usize {
        for k in 0..(round * 37) % 120 {
            if flow.data_queued(sid(1)).is_some() {
                if (round + k) % 3 == 0 {
                    flow.pause_tried(TrySendOutcome::Full).unwrap();
                } else {
                    flow.pause_tried(TrySendOutcome::Sent).unwrap();
                    signals.push("pause");
                }
            }
        }
        for _ in 0..(round * 53) % 130 {
            if flow.pending() > 0 && flow.message_written(sid(1)).is_some() {
                signals.push("resume");
            }
        }
    }
    assert!(signals.len() > 10);
    for (i, signal) in signals.iter().enumerate() {
        assert_eq!(*signal, if i % 2 == 0 { "pause" } else { "resume" });
    }
}

#[test]
fn writer_stops_on_anything_but_data() {
    let mut flow = StreamFlowControl::new();
    let mut stops = |event| matches!(writer_step(&mut flow, sid(1), event), WriterAction::Stop);
    assert!(stops(WriterEvent::Cancelled));
    assert!(stops(WriterEvent::WriteFailed));
    assert!(stops(WriterEvent::Received(None)));
    assert!(stops(WriterEvent::Received(Some(connect_msg(1)))));
    assert!(stops(WriterEvent::Received(Some(end_of_stream(sid(1))))));
    assert!(stops(WriterEvent::ResumeSent { ok: false }));
    assert!(!stops(WriterEvent::ResumeSent { ok: true }));
    assert!(!stops(WriterEvent::Started));
    assert!(!stops(WriterEvent::Received(Some(data_msg(1, b"")))));
}

#[test]
fn reader_waits_while_paused() {
    let mut flow = StreamFlowControl::new();
    assert!(matches!(reader_step(&flow, sid(1), ReaderEvent::Started), ReaderAction::Read));
    flow.pause_read();
    assert!(matches!(
        reader_step(&flow, sid(1), ReaderEvent::Forwarded { ok: true }),
        ReaderAction::AwaitResume
    ));
    assert!(matches!(
        reader_step(&flow, sid(1), ReaderEvent::Resumed),
        ReaderAction::AwaitResume
    ));
    flow.resume_read();
    assert!(matches!(reader_step(&flow, sid(1), ReaderEvent::Resumed), ReaderAction::Read));
    let interrupted = ReaderEvent::ReadFailed { interrupted: true };
    assert!(matches!(reader_step(&flow, sid(1), interrupted), ReaderAction::Read));
}

#[test]
fn reader_stops_at_the_end() {
    let flow = StreamFlowControl::new();
    let stops = |event| matches!(reader_step(&flow, sid(1), event), ReaderAction::Stop);
    assert!(stops(ReaderEvent::Cancelled));
    assert!(stops(ReaderEvent::Read(vec![])));
    assert!(stops(ReaderEvent::ReadFailed { interrupted: false }));
    assert!(stops(ReaderEvent::Forwarded { ok: false }));
    match reader_step(&flow, sid(1), ReaderEvent::Read(b"abc".to_vec())) {
        ReaderAction::Forward(msg) => assert_eq!(msg, data_msg(1, b"abc")),
        _ => panic!("the bytes were to be forwarded"),
    }
}
