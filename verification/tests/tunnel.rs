//! The multiplexer over the reconnecting stream, with a connection that is cut
//! again and again.

use bytes::BytesMut;
use mobiletunnel::channel_message::{ChannelMessage, ConnectMsg, DataMsg, OngoingStreamId};
use mobiletunnel::reconnecting_stream::{
    SessionEvent, StreamOptions, StreamSession, StreamState,
};
use mobiletunnel::stream_codec::StreamCodec;
use mobiletunnel::stream_multiplexer::{
    MultiplexerAction, MultiplexerEvent, StreamMultiplexerServer, StreamMultiplexerServerOptions,
};
use mobiletunnel::stream_runner::{unconnected_step, UnconnectedEvent};
use std::collections::BTreeMap;

/// Reads up to `limit` bytes of what has been written, and returns what the
/// application is given.
fn read_some(
    state: &mut StreamState,
    session: &mut StreamSession,
    wire: &[u8],
    limit: usize,
    replies: &mut Vec<u8>,
) -> Vec<Vec<u8>> {
    let mut codec = StreamCodec { name: "test".to_string() };
    let mut buf = BytesMut::from(&wire[..limit.min(wire.len())]);
    let mut given = vec![];
    while let Some(msg) = codec.decode(&mut buf).unwrap() {
        let event = SessionEvent::TcpMessage(msg);
        assert!(session.accepts(state, &event));
        let step = session.step(state, event);
        assert!(step.end.is_none());
        given.extend(step.delivered);
        for bytes in step.writes {
            replies.extend(bytes);
        }
    }
    given
}

#[test]
fn streams_cross_a_tunnel_that_breaks() {
    let sent: Vec<ChannelMessage> = (0..60u64)
        .map(|i| {
            let stream_id = OngoingStreamId(i % 3);
            if i < 3 {
                ChannelMessage::Connect(ConnectMsg { stream_id })
            } else {
                ChannelMessage::Data(DataMsg { stream_id, to_send: vec![i as u8; 20] })
            }
        })
        .collect();
    let mut left = StreamState::with_id(StreamOptions::new(1_000_000), 1);
    let mut right = StreamState::with_id(StreamOptions::new(1_000_000), 2);
    for msg in &sent {
        assert!(unconnected_step(&mut left, UnconnectedEvent::AppData(msg.encode())));
    }

    let options = StreamMultiplexerServerOptions {
        target_port: 22,
        target_address: "localhost".to_string(),
    };
    let mut server: StreamMultiplexerServer<()> = StreamMultiplexerServer::new(options).unwrap();
    let mut arrived: BTreeMap<u64, Vec<u8>> = BTreeMap::new();
    let mut connections = 0;
    while left.unacked_size() > 0 {
        // One connection, of which the right end reads but a part, and the left
        // end not every reply.
        connections += 1;
        let (mut left_session, left_hello) = StreamSession::start(&left);
        let (mut right_session, right_hello) = StreamSession::start(&right);
        let mut to_right = left_hello;
        read_some(&mut left, &mut left_session, &right_hello, 100, &mut to_right);
        let mut to_left = vec![];
        for data in read_some(&mut right, &mut right_session, &to_right, 200, &mut to_left) {
            server.step(MultiplexerEvent::Channel(Some(data)));
            while let Some(action) = server.next_action().unwrap() {
                match action {
                    MultiplexerAction::Open { stream_id, .. } => {
                        server.opened(stream_id, ()).unwrap();
                        arrived.insert(stream_id.0, vec![]);
                    }
                    MultiplexerAction::Deliver(sd) => {
                        arrived.get_mut(&sd.stream_id.0).unwrap().extend(sd.to_send)
                    }
                    _ => panic!("nothing else was sent"),
                }
            }
        }
        // Two acknowledgements at most.
        let mut ignored = vec![];
        let given = read_some(&mut left, &mut left_session, &to_left, 20, &mut ignored);
        assert!(given.is_empty() && ignored.is_empty());
        left_session.step(&mut left, SessionEvent::TcpClosed);
        right_session.step(&mut right, SessionEvent::TcpClosed);
    }
    assert!(connections > 5);
    for id in 0..3u64 {
        let expected: Vec<u8> =
            (3..60u64).filter(|i| i % 3 == id).flat_map(|i| vec![i as u8; 20]).collect();
        assert_eq!(arrived[&id], expected);
    }
}
