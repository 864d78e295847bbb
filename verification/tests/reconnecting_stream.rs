//! Two ends of the reconnecting stream, joined by buffers that stand for a TCP
//! connection. A connection that is cut loses what is on its way.

use bytes::BytesMut;
use mobiletunnel::reconnecting_stream::{
    DataProvider, SessionEnd, SessionEvent, StreamOptions, StreamSession, StreamState,
};
use mobiletunnel::stream_codec::{HelloMessage, StreamCodec, StreamCodecMessage, StreamError};
use mobiletunnel::stream_runner::{
    next_client_action, next_listener_action, next_runner_action, unconnected_step, ClientAction,
    ClientEvent, ListenerAction, ListenerEvent, RunnerAction, RunnerEvent, UnconnectedEvent,
};
use std::collections::VecDeque;

/// How many messages the application may have waiting to be taken on.
const APP_QUEUE: usize = 1;

struct End {
    state: StreamState,
    session: Option<StreamSession>,
    codec: StreamCodec,
    queue: VecDeque<Vec<u8>>,
    received: Vec<u8>,
    inbox: BytesMut,
    outbox: BytesMut,
    ended: Option<SessionEnd>,
}

impl End {
    fn new(name: &str, max_window: Option<usize>) -> End {
        let state = match max_window {
            Some(w) => StreamState::new(StreamOptions::new(w)),
            None => StreamState::default(),
        };
        End {
            state,
            session: None,
            codec: StreamCodec { name: name.to_string() },
            queue: VecDeque::new(),
            received: vec![],
            inbox: BytesMut::new(),
            outbox: BytesMut::new(),
            ended: None,
        }
    }

    fn connect(&mut self) {
        let (session, hello) = StreamSession::start(&self.state);
        self.session = Some(session);
        self.outbox.extend_from_slice(&hello);
    }

    fn disconnect(&mut self) {
        if self.session.is_some() {
            self.event(SessionEvent::TcpClosed);
        }
        self.session = None;
        self.inbox.clear();
        self.outbox.clear();
    }

    fn event(&mut self, event: SessionEvent) {
        let mut session = self.session.take().unwrap();
        assert!(session.accepts(&self.state, &event));
        let step = session.step(&mut self.state, event);
        if let Some(data) = step.delivered {
            self.received.extend(data);
        }
        for bytes in step.writes {
            self.outbox.extend_from_slice(&bytes);
        }
        match step.end {
            Some(end) => self.ended = Some(end),
            None => self.session = Some(session),
        }
    }

    /// Takes on what the application has waiting, as far as the window allows.
    fn take_app_data(&mut self) {
        loop {
            let wants = match &self.session {
                Some(session) => session.wants_app_data(&self.state),
                None => !self.state.is_full(),
            };
            if !wants {
                return;
            }
            match self.queue.pop_front() {
                None => return,
                Some(data) => {
                    if self.session.is_some() {
                        self.event(SessionEvent::AppData(data));
                    } else {
                        assert!(unconnected_step(&mut self.state, UnconnectedEvent::AppData(data)));
                    }
                }
            }
        }
    }

    /// Reads what has arrived. Returns whether there was anything.
    fn read(&mut self) -> bool {
        let mut any = false;
        while self.session.is_some() {
            match self.codec.decode(&mut self.inbox).unwrap() {
                None => break,
                Some(msg) => {
                    any = true;
                    self.event(SessionEvent::TcpMessage(msg));
                }
            }
        }
        any
    }

    /// Hands over a message, if there is room for it.
    fn try_send(&mut self, data: &[u8]) -> bool {
        self.take_app_data();
        if self.queue.len() >= APP_QUEUE {
            return false;
        }
        self.queue.push_back(data.to_vec());
        self.take_app_data();
        true
    }
}

struct Harness {
    client: End,
    server: End,
}

impl Harness {
    fn new() -> Harness {
        Self::with_window(None)
    }

    fn with_window(max_window: Option<usize>) -> Harness {
        let mut harness = Harness {
            client: End::new("client", max_window),
            server: End::new("server", max_window),
        };
        harness.send_connect();
        harness
    }

    fn send_connect(&mut self) {
        self.client.connect();
        self.server.connect();
    }

    fn send_disconnect(&mut self) {
        self.client.disconnect();
        self.server.disconnect();
    }

    fn disconnect_and_reconnect(&mut self) {
        self.send_disconnect();
        self.send_connect();
    }

    /// Carries over what is on its way until nothing is.
    fn settle(&mut self) {
        loop {
            self.client.take_app_data();
            self.server.take_app_data();
            let to_server = self.client.outbox.split();
            self.server.inbox.extend_from_slice(&to_server);
            let to_client = self.server.outbox.split();
            self.client.inbox.extend_from_slice(&to_client);
            let a = self.client.read();
            let b = self.server.read();
            if !a && !b {
                return;
            }
        }
    }

    /// Hands over a message, waiting for room where there is none.
    fn client_send(&mut self, data: &[u8]) {
        while !self.client.try_send(data) {
            self.settle();
        }
    }

    fn server_send(&mut self, data: &[u8]) {
        while !self.server.try_send(data) {
            self.settle();
        }
    }

    fn client_recv(&mut self, n: usize) -> Option<Vec<u8>> {
        self.settle();
        if self.client.received.len() < n {
            return None;
        }
        Some(std::mem::take(&mut self.client.received))
    }

    fn server_recv(&mut self, n: usize) -> Option<Vec<u8>> {
        self.settle();
        if self.server.received.len() < n {
            return None;
        }
        Some(std::mem::take(&mut self.server.received))
    }

    fn assert_server_recv(&mut self, expected: &[u8]) {
        assert_eq!(self.server_recv(expected.len()).unwrap(), expected);
    }

    fn assert_client_recv(&mut self, expected: &[u8]) {
        assert_eq!(self.client_recv(expected.len()).unwrap(), expected);
    }
}

#[test]
fn reconnecting_stream_basic_test() {
    for _ in 0..10 {
        let mut harness = Harness::new();
        harness.client_send(b"FC");
        harness.server_send(b"FS");
        harness.assert_client_recv(b"FS");
        harness.assert_server_recv(b"FC");
    }
}

#[test]
fn test_with_disconnect() {
    let mut harness = Harness::new();
    harness.client_send(b"FC");
    harness.server_send(b"FS");
    harness.send_disconnect();
    harness.send_connect();
    harness.client_send(b"FC");
    harness.server_send(b"FS");
    harness.assert_client_recv(b"FSFS");
    harness.assert_server_recv(b"FCFC");
}

#[test]
fn test_backpressure_blocks_sender() {
    let mut harness = Harness::with_window(Some(50));
    harness.client_send(b"ok");
    harness.assert_server_recv(b"ok");

    harness.send_disconnect();

    let mut taken = 0;
    for _ in 0..17 {
        if !harness.client.try_send(&[b'X'; 10]) {
            break;
        }
        taken += 1;
    }
    // Five fill the window, and one waits for room.
    assert_eq!(taken, 6);
    assert!(harness.client.state.is_full());
    assert_eq!(harness.client.state.unacked_size(), 50);

    harness.send_connect();
    harness.client_send(b"after");
    assert!(harness.server_recv(5).is_some());
    harness.client_send(b"end");
    assert!(harness.server_recv(3).is_some());
}

#[test]
fn test_backpressure_resolves_after_ack() {
    let mut harness = Harness::with_window(Some(100));
    for i in 0u8..5 {
        let data = vec![b'A' + i; 90];
        harness.client_send(&data);
        harness.assert_server_recv(&data);
    }
}

#[test]
fn test_backpressure_during_disconnect() {
    let mut harness = Harness::with_window(Some(200));
    harness.client_send(&vec![b'A'; 80]);
    harness.assert_server_recv(&vec![b'A'; 80]);

    harness.send_disconnect();
    harness.client_send(&vec![b'B'; 80]);

    harness.send_connect();
    harness.assert_server_recv(&vec![b'B'; 80]);
}

#[test]
fn test_window_full_then_disconnect_reconnect() {
    let mut harness = Harness::with_window(Some(100));
    harness.client_send(&vec![b'X'; 90]);

    harness.disconnect_and_reconnect();

    harness.assert_server_recv(&vec![b'X'; 90]);
    harness.client_send(&vec![b'Y'; 50]);
    harness.assert_server_recv(&vec![b'Y'; 50]);
}

#[test]
fn test_window_exactly_at_limit() {
    let mut harness = Harness::with_window(Some(10));
    harness.client_send(&vec![b'A'; 10]);
    harness.assert_server_recv(&vec![b'A'; 10]);
    harness.client_send(&vec![b'B'; 10]);
    harness.assert_server_recv(&vec![b'B'; 10]);
}

#[test]
fn test_data_sent_during_disconnect_arrives() {
    let mut harness = Harness::new();
    harness.client_send(b"A");
    harness.assert_server_recv(b"A");

    harness.send_disconnect();
    harness.client_send(b"B");

    harness.send_connect();
    harness.assert_server_recv(b"B");
}

#[test]
fn test_bidirectional_during_reconnect() {
    let mut harness = Harness::new();
    harness.client_send(b"C1");
    harness.server_send(b"S1");

    harness.send_disconnect();
    harness.client_send(b"C2");
    harness.server_send(b"S2");

    harness.send_connect();
    harness.assert_server_recv(b"C1C2");
    harness.assert_client_recv(b"S1S2");
}

#[test]
fn test_rapid_disconnect_reconnect() {
    let mut harness = Harness::new();
    harness.client_send(b"START");

    for _ in 0..5 {
        harness.send_disconnect();
        harness.send_connect();
    }

    harness.client_send(b"END");
    harness.assert_server_recv(b"STARTEND");
}

#[test]
fn test_large_message_across_reconnect() {
    let mut harness = Harness::new();
    let payload: Vec<u8> = (0..10000).map(|i| (i % 251) as u8).collect();
    harness.client_send(&payload);

    harness.send_disconnect();
    harness.send_connect();

    assert_eq!(harness.server_recv(10000).unwrap(), payload);
}

#[test]
fn test_multiple_messages_ordering() {
    let mut harness = Harness::new();
    for i in 0u8..5 {
        harness.client_send(&[b'1' + i]);
    }
    harness.assert_server_recv(b"12345");
}

#[test]
fn test_both_directions_interleaved() {
    let mut harness = Harness::new();
    harness.client_send(b"A");
    harness.server_send(b"X");
    harness.client_send(b"B");
    harness.server_send(b"Y");
    harness.assert_server_recv(b"AB");
    harness.assert_client_recv(b"XY");
}

#[test]
fn test_high_throughput_bidirectional() {
    let mut harness = Harness::with_window(Some(10000));
    let msg = vec![b'D'; 100];
    for _ in 0..100 {
        harness.client_send(&msg);
        harness.server_send(&msg);
    }

    let server_data = harness.server_recv(10000).unwrap();
    let client_data = harness.client_recv(10000).unwrap();
    assert_eq!(server_data, vec![b'D'; 10000]);
    assert_eq!(client_data, vec![b'D'; 10000]);
}

#[test]
fn test_many_small_messages() {
    let mut harness = Harness::new();
    for i in 0u16..500 {
        harness.client_send(&[(i % 256) as u8]);
    }
    let data = harness.server_recv(500).unwrap();
    let expected: Vec<u8> = (0u16..500).map(|i| (i % 256) as u8).collect();
    assert_eq!(data, expected);
}

#[test]
fn test_disconnect_with_pending_acks() {
    let mut harness = Harness::new();
    for i in 0u8..5 {
        harness.client_send(&vec![b'A' + i; 20]);
    }

    harness.send_disconnect();
    harness.send_connect();

    assert_eq!(harness.server_recv(100).unwrap().len(), 100);
}

#[test]
fn test_alternating_directions_with_disconnect() {
    let mut harness = Harness::new();
    harness.client_send(b"A");
    harness.assert_server_recv(b"A");
    harness.server_send(b"B");
    harness.assert_client_recv(b"B");

    harness.send_disconnect();
    harness.client_send(b"C");
    harness.server_send(b"D");

    harness.send_connect();
    harness.assert_server_recv(b"C");
    harness.assert_client_recv(b"D");
}

#[test]
fn test_empty_reconnect() {
    let mut harness = Harness::new();
    harness.disconnect_and_reconnect();
    harness.client_send(b"hello");
    harness.assert_server_recv(b"hello");
}

#[test]
fn delivered_messages_are_not_delivered_again() {
    // The acknowledgements are lost with the connection; the hello makes up for
    // them.
    let mut harness = Harness::new();
    harness.settle();
    harness.client_send(b"once");
    let on_its_way = harness.client.outbox.split();
    harness.server.inbox.extend_from_slice(&on_its_way);
    assert!(harness.server.read());
    assert_eq!(harness.server.received, b"once");
    assert_eq!(harness.client.state.unacked_size(), 4);
    harness.disconnect_and_reconnect();
    harness.settle();
    assert_eq!(harness.server.received, b"once");
    assert_eq!(harness.client.state.unacked_size(), 0);
}

#[test]
fn options_and_window() {
    let state = StreamState::with_id(StreamOptions::new(3), 9);
    assert!(!state.is_full());
    assert_eq!(state.unacked_size(), 0);
    let zero = StreamState::with_id(StreamOptions::new(0), 9);
    assert!(zero.is_full());
    let mut default = StreamState::with_id(StreamOptions::default(), 9);
    default.enqueue(vec![0; 29_999_999]);
    assert!(!default.is_full());
    default.enqueue(vec![0; 1]);
    assert!(default.is_full());
    assert_eq!(default.unacked_size(), 30_000_000);
}

#[test]
fn one_message_may_go_beyond_the_window() {
    let mut state = StreamState::with_id(StreamOptions::new(10), 1);
    state.enqueue(vec![0; 9]);
    assert!(!state.is_full());
    state.enqueue(vec![0; 100]);
    assert!(state.is_full());
    assert_eq!(state.unacked_size(), 109);
}

#[test]
fn acknowledgements() {
    let mut state = StreamState::with_id(StreamOptions::new(100), 1);
    state.enqueue(vec![1]);
    state.enqueue(vec![2, 2]);
    state.enqueue(vec![3, 3, 3]);
    assert_eq!(state.ack(2), Ok(()));
    assert_eq!(state.unacked_size(), 3);
    assert_eq!(state.ack(2), Ok(()));
    assert_eq!(state.ack(1), Err(StreamError::AckBeforeBase));
    assert_eq!(
        state.ack(4),
        Err(StreamError::AckBeyondSent { seq: 4, base_offset: 2, unacked: 1 })
    );
    assert_eq!(state.unacked_size(), 3);
    assert_eq!(state.ack(3), Ok(()));
    assert_eq!(state.unacked_size(), 0);
}

#[test]
fn acknowledging_twice_is_acknowledging_the_later() {
    let build = || {
        let mut state = StreamState::with_id(StreamOptions::new(100), 1);
        for n in 1..6 {
            state.enqueue(vec![0; n]);
        }
        state
    };
    let mut twice = build();
    let mut once = build();
    assert_eq!(twice.ack(2), Ok(()));
    assert_eq!(twice.ack(2), Ok(()));
    assert_eq!(twice.ack(4), Ok(()));
    assert_eq!(once.ack(4), Ok(()));
    assert_eq!(twice.unacked_size(), once.unacked_size());
    assert_eq!(twice.ack(3), Err(StreamError::AckBeforeBase));
    assert_eq!(twice.ack(6), once.ack(6));
    assert_eq!(twice.ack(5), Ok(()));
}

#[test]
fn a_strangers_hello_changes_nothing() {
    let (mut state, _) = established(1, 2);
    state.enqueue(vec![7; 3]);
    let (mut session, _) = StreamSession::start(&state);
    let hm = HelloMessage { sender_id: 3, sender_last_rx: 1 };
    let event = SessionEvent::TcpMessage(StreamCodecMessage::Hello(hm));
    assert!(session.accepts(&state, &event));
    let step = session.step(&mut state, event);
    assert_eq!(step.end, Some(SessionEnd::BadSenderId));
    assert!(step.delivered.is_none() && step.writes.is_empty());
    assert_eq!(state.unacked_size(), 3);
    // The end that was met before is still the one that is expected.
    let (mut session, _) = StreamSession::start(&state);
    let hm = HelloMessage { sender_id: 2, sender_last_rx: 0 };
    let event = SessionEvent::TcpMessage(StreamCodecMessage::Hello(hm));
    assert_eq!(session.step(&mut state, event).end, None);
}

#[test]
fn received_messages_are_counted() {
    let mut state = StreamState::with_id(StreamOptions::new(100), 77);
    assert_eq!(state.make_hello(), HelloMessage { sender_id: 77, sender_last_rx: 0 });
    assert_eq!(state.received_one_message(), 1);
    assert_eq!(state.received_one_message(), 2);
    assert_eq!(state.make_hello(), HelloMessage { sender_id: 77, sender_last_rx: 2 });
}

#[test]
fn new_ends_have_random_ids() {
    let ids: Vec<u64> = (0..8).map(|_| StreamState::default().make_hello().sender_id).collect();
    assert!(ids.iter().any(|id| *id != ids[0]));
}

fn established(id: u64, remote: u64) -> (StreamState, StreamSession) {
    let mut state = StreamState::with_id(StreamOptions::new(100), id);
    let (mut session, hello) = StreamSession::start(&state);
    assert_eq!(
        hello,
        StreamCodecMessage::Hello(HelloMessage { sender_id: id, sender_last_rx: 0 }).encode()
    );
    let hello = HelloMessage { sender_id: remote, sender_last_rx: 0 };
    let step = session
        .step(&mut state, SessionEvent::TcpMessage(StreamCodecMessage::Hello(hello)));
    assert_eq!(step.end, None);
    (state, session)
}

#[test]
fn hello_resends_what_is_missing() {
    let mut state = StreamState::with_id(StreamOptions::new(100), 1);
    for i in 0u8..4 {
        state.enqueue(vec![i]);
    }
    let (mut session, _) = StreamSession::start(&state);
    assert!(!session.wants_app_data(&state));
    let hello = HelloMessage { sender_id: 2, sender_last_rx: 3 };
    let step = session.step(&mut state, SessionEvent::TcpMessage(StreamCodecMessage::Hello(hello)));
    assert_eq!(step.writes, vec![StreamCodecMessage::Data(vec![3]).encode()]);
    assert!(step.delivered.is_none());
    assert!(step.end.is_none());
    assert!(session.wants_app_data(&state));
}

#[test]
fn data_is_delivered_and_acknowledged() {
    let (mut state, mut session) = established(1, 2);
    let step = session
        .step(&mut state, SessionEvent::TcpMessage(StreamCodecMessage::Data(b"abc".to_vec())));
    assert_eq!(step.delivered, Some(b"abc".to_vec()));
    assert_eq!(step.writes, vec![StreamCodecMessage::Ack(1).encode()]);
    assert_eq!(step.end, None);
    let step = session.step(&mut state, SessionEvent::AppData(b"xyz".to_vec()));
    assert_eq!(step.delivered, None);
    assert_eq!(step.writes, vec![StreamCodecMessage::Data(b"xyz".to_vec()).encode()]);
    assert_eq!(state.unacked_size(), 3);
    let step = session.step(&mut state, SessionEvent::TcpMessage(StreamCodecMessage::Ack(1)));
    assert!(step.delivered.is_none() && step.writes.is_empty() && step.end.is_none());
    assert_eq!(state.unacked_size(), 0);
}

#[test]
fn sessions_end() {
    let ends = |event: SessionEvent| {
        let (mut state, mut session) = established(1, 2);
        let end = session.step(&mut state, event).end.unwrap();
        assert!(!session.accepts(&state, &SessionEvent::Killed));
        end
    };
    assert_eq!(ends(SessionEvent::Killed), SessionEnd::Killed);
    assert_eq!(ends(SessionEvent::AppClosed), SessionEnd::AppClosed);
    assert_eq!(ends(SessionEvent::TcpClosed), SessionEnd::TcpClosed);
    let hello = HelloMessage { sender_id: 2, sender_last_rx: 0 };
    assert_eq!(
        ends(SessionEvent::TcpMessage(StreamCodecMessage::Hello(hello))),
        SessionEnd::SecondHello
    );
    assert_eq!(
        ends(SessionEvent::TcpMessage(StreamCodecMessage::Ack(5))),
        SessionEnd::BadAck(StreamError::AckBeyondSent { seq: 5, base_offset: 0, unacked: 0 })
    );
    assert!(SessionEnd::AppClosed.is_orderly());
    assert!(SessionEnd::TcpClosed.is_orderly());
    assert!(SessionEnd::SecondHello.is_orderly());
    assert!(!SessionEnd::Killed.is_orderly());
    assert!(!SessionEnd::NotHello.is_orderly());
    assert!(!SessionEnd::BadSenderId.is_orderly());
    assert!(!SessionEnd::BadAck(StreamError::AckBeforeBase).is_orderly());
}

#[test]
fn bad_first_messages() {
    let first = |state: &mut StreamState, event: SessionEvent| {
        let (mut session, _) = StreamSession::start(state);
        session.step(state, event).end
    };
    let mut state = StreamState::with_id(StreamOptions::new(100), 1);
    assert_eq!(first(&mut state, SessionEvent::TcpClosed), Some(SessionEnd::NotHello));
    assert_eq!(
        first(&mut state, SessionEvent::TcpMessage(StreamCodecMessage::Ack(0))),
        Some(SessionEnd::NotHello)
    );
    assert_eq!(first(&mut state, SessionEvent::Killed), Some(SessionEnd::Killed));
    let hello = |sender_id, sender_last_rx| {
        let hm = HelloMessage { sender_id, sender_last_rx };
        SessionEvent::TcpMessage(StreamCodecMessage::Hello(hm))
    };
    assert_eq!(
        first(&mut state, hello(2, 1)),
        Some(SessionEnd::BadLastRx(StreamError::AckBeyondSent {
            seq: 1,
            base_offset: 0,
            unacked: 0
        }))
    );
    // The other end is known from then on.
    assert_eq!(first(&mut state, hello(3, 0)), Some(SessionEnd::BadSenderId));
    assert_eq!(first(&mut state, hello(2, 0)), None);
}

#[test]
fn a_full_window_takes_no_more() {
    let (mut state, mut session) = established(1, 2);
    assert!(session.wants_app_data(&state));
    session.step(&mut state, SessionEvent::AppData(vec![0; 100]));
    assert!(!session.wants_app_data(&state));
    assert!(!session.accepts(&state, &SessionEvent::AppData(vec![1])));
    session.step(&mut state, SessionEvent::TcpMessage(StreamCodecMessage::Ack(1)));
    assert!(session.accepts(&state, &SessionEvent::AppData(vec![1])));
}

#[test]
fn unconnected_ends_keep_messages() {
    let mut state = StreamState::with_id(StreamOptions::new(100), 1);
    assert!(unconnected_step(&mut state, UnconnectedEvent::AppData(vec![1, 2])));
    assert_eq!(state.unacked_size(), 2);
    assert!(!unconnected_step(&mut state, UnconnectedEvent::AppClosed));
    assert!(!unconnected_step(&mut state, UnconnectedEvent::SleepDone));
    assert!(!unconnected_step(&mut state, UnconnectedEvent::Cancelled));
    assert_eq!(state.unacked_size(), 2);
}

#[test]
fn client_loop() {
    assert_eq!(
        next_client_action(ClientEvent::Checked { cancelled: false }),
        ClientAction::Connect
    );
    assert_eq!(next_client_action(ClientEvent::Checked { cancelled: true }), ClientAction::Return);
    assert_eq!(next_client_action(ClientEvent::Connected), ClientAction::RunStream);
    let wait = ClientAction::WaitUnconnected { seconds: 1 };
    assert_eq!(next_client_action(ClientEvent::ConnectFailed), wait);
    assert_eq!(next_client_action(ClientEvent::StreamEnded), wait);
    assert_eq!(next_client_action(ClientEvent::WaitEnded), ClientAction::CheckCancelled);
}

#[test]
fn listener_loop() {
    assert_eq!(next_listener_action(ListenerEvent::Cancelled), ListenerAction::Stop);
    assert_eq!(next_listener_action(ListenerEvent::AcceptFailed), ListenerAction::Stop);
    assert_eq!(next_listener_action(ListenerEvent::Accepted), ListenerAction::HandOn);
    assert_eq!(next_listener_action(ListenerEvent::HandedOn), ListenerAction::Accept);
}

#[test]
fn runner_takes_the_newest_socket() {
    let received = |first, queued| next_runner_action(RunnerEvent::Received { first, queued });
    assert!(matches!(received(Some(1), vec![]), RunnerAction::RunStream(1)));
    assert!(matches!(received(Some(1), vec![2, 3]), RunnerAction::RunStream(3)));
    assert!(matches!(received(None, vec![]), RunnerAction::Stop));
    assert!(matches!(
        next_runner_action::<u8>(RunnerEvent::Checked { cancelled: true }),
        RunnerAction::Stop
    ));
    assert!(matches!(
        next_runner_action::<u8>(RunnerEvent::Checked { cancelled: false }),
        RunnerAction::AwaitSocket
    ));
    assert!(matches!(next_runner_action::<u8>(RunnerEvent::Cancelled), RunnerAction::Stop));
    assert!(matches!(
        next_runner_action::<u8>(RunnerEvent::StreamEnded),
        RunnerAction::CheckCancelled
    ));
}

struct Teaser;

impl DataProvider for Teaser {}

#[test]
fn data_provider_default() {
    assert_eq!(Teaser.getdata(), "(Read more...)");
}
