use mobiletunnel::channel_message::{
    ChannelMessage, ChannelMessageParser, ConnectMsg, DataMsg, DisconnectMsg, ErrorMsg,
    OngoingStreamId, PauseMsg, ResumeMsg, CONNECT_MSG_ID,
};
use mobiletunnel::multiplexer_error::MultiplexerError;

fn sid(id: u64) -> OngoingStreamId {
    OngoingStreamId(id)
}

#[test]
fn test_roundtrip_connect() {
    let msg = ChannelMessage::Connect(ConnectMsg { stream_id: sid(42) });
    let encoded = msg.encode();
    let parsed = ChannelMessage::parse(&encoded).unwrap().unwrap();
    assert_eq!(parsed.1, encoded.len());
    assert_eq!(parsed.0, msg);
}

#[test]
fn test_roundtrip_disconnect() {
    let msg = ChannelMessage::Disconnect(DisconnectMsg { stream_id: sid(99) });
    let encoded = msg.encode();
    let parsed = ChannelMessage::parse(&encoded).unwrap().unwrap();
    assert_eq!(parsed.1, encoded.len());
    assert_eq!(parsed.0, msg);
}

#[test]
fn test_roundtrip_data() {
    let msg = ChannelMessage::Data(DataMsg {
        stream_id: sid(7),
        to_send: b"hello world".to_vec(),
    });
    let encoded = msg.encode();
    let parsed = ChannelMessage::parse(&encoded).unwrap().unwrap();
    assert_eq!(parsed.1, encoded.len());
    assert_eq!(parsed.0, msg);
}

#[test]
fn test_roundtrip_error() {
    let msg = ChannelMessage::Error(ErrorMsg {
        stream_id: sid(3),
        message: "something broke".to_string(),
    });
    let encoded = msg.encode();
    let parsed = ChannelMessage::parse(&encoded).unwrap().unwrap();
    assert_eq!(parsed.1, encoded.len());
    assert_eq!(parsed.0, msg);
}

#[test]
fn test_parse_multiple_frames() {
    let msg1 = ChannelMessage::Connect(ConnectMsg { stream_id: sid(1) });
    let msg2 = ChannelMessage::Data(DataMsg {
        stream_id: sid(2),
        to_send: b"payload".to_vec(),
    });
    let mut buf = msg1.encode();
    buf.extend(msg2.encode());

    let (parsed1, consumed1) = ChannelMessage::parse(&buf).unwrap().unwrap();
    assert_eq!(parsed1, msg1);

    let (parsed2, consumed2) = ChannelMessage::parse(&buf[consumed1..]).unwrap().unwrap();
    assert_eq!(parsed2, msg2);
    assert_eq!(consumed1 + consumed2, buf.len());
}

#[test]
fn test_parse_incomplete_data_frame() {
    let msg = ChannelMessage::Data(DataMsg {
        stream_id: sid(5),
        to_send: b"some data here".to_vec(),
    });
    let encoded = msg.encode();
    let truncated = &encoded[..encoded.len() - 1];
    assert!(ChannelMessage::parse(truncated).unwrap().is_none());
}

#[test]
fn test_parse_incomplete_header() {
    assert!(ChannelMessage::parse(&[1, 0, 0]).unwrap().is_none());
    assert!(ChannelMessage::parse(&[]).unwrap().is_none());
}

#[test]
fn test_parse_invalid_small_len() {
    let mut buf = vec![CONNECT_MSG_ID];
    buf.extend_from_slice(&5u32.to_le_bytes());
    buf.extend_from_slice(&0u64.to_le_bytes());
    assert!(ChannelMessage::parse(&buf).is_err());
}

#[test]
fn test_parse_len_10_is_invalid() {
    let mut buf = vec![CONNECT_MSG_ID];
    buf.extend_from_slice(&10u32.to_le_bytes());
    buf.extend_from_slice(&0u64.to_le_bytes());
    assert!(ChannelMessage::parse(&buf).is_err());
}

#[test]
fn test_roundtrip_pause() {
    let msg = ChannelMessage::Pause(PauseMsg { stream_id: sid(11) });
    let encoded = msg.encode();
    let parsed = ChannelMessage::parse(&encoded).unwrap().unwrap();
    assert_eq!(parsed.1, encoded.len());
    assert_eq!(parsed.0, msg);
}

#[test]
fn test_roundtrip_resume() {
    let msg = ChannelMessage::Resume(ResumeMsg { stream_id: sid(22) });
    let encoded = msg.encode();
    let parsed = ChannelMessage::parse(&encoded).unwrap().unwrap();
    assert_eq!(parsed.1, encoded.len());
    assert_eq!(parsed.0, msg);
}

#[test]
fn test_channel_message_parser_streaming() {
    let msg1 = ChannelMessage::Data(DataMsg {
        stream_id: sid(1),
        to_send: b"first".to_vec(),
    });
    let msg2 = ChannelMessage::Data(DataMsg {
        stream_id: sid(2),
        to_send: b"second".to_vec(),
    });
    let mut combined = msg1.encode();
    combined.extend(msg2.encode());

    let mut parser = ChannelMessageParser::new();
    for byte in combined {
        parser.add(vec![byte]);
    }
    let parsed1 = parser.next().unwrap().unwrap();
    assert_eq!(parsed1, msg1);
    let parsed2 = parser.next().unwrap().unwrap();
    assert_eq!(parsed2, msg2);
    assert!(parser.next().unwrap().is_none());
}

fn frame(id: u8, len: u32, payload: &[u8]) -> Vec<u8> {
    let mut buf = vec![id];
    buf.extend_from_slice(&len.to_le_bytes());
    buf.extend_from_slice(&5u64.to_le_bytes());
    buf.extend_from_slice(payload);
    buf
}

fn refusal(bytes: &[u8]) -> String {
    ChannelMessage::parse(bytes).unwrap_err().description().to_string()
}

#[test]
fn channel_encodings() {
    assert_eq!(
        ChannelMessage::Connect(ConnectMsg { stream_id: sid(5) }).encode(),
        frame(1, 13, b"")
    );
    assert_eq!(
        ChannelMessage::Data(DataMsg { stream_id: sid(5), to_send: vec![7, 8] }).encode(),
        frame(2, 15, &[7, 8])
    );
    assert_eq!(
        ChannelMessage::Error(ErrorMsg { stream_id: sid(5), message: "é".to_string() }).encode(),
        frame(3, 15, &[0xc3, 0xa9])
    );
    assert_eq!(
        ChannelMessage::Disconnect(DisconnectMsg { stream_id: sid(5) }).encode(),
        frame(4, 13, b"")
    );
    assert_eq!(ChannelMessage::Pause(PauseMsg { stream_id: sid(5) }).encode(), frame(5, 13, b""));
    assert_eq!(ChannelMessage::Resume(ResumeMsg { stream_id: sid(5) }).encode(), frame(6, 13, b""));
}

#[test]
fn channel_refusals() {
    assert_eq!(refusal(&frame(1, 12, b"")), "Frame too small: minimum is 13 bytes");
    assert_eq!(refusal(&frame(1, 14, b"x")), "Expected 8 len");
    assert_eq!(refusal(&frame(4, 14, b"x")), "Expected 8 len for disconnect");
    assert_eq!(refusal(&frame(3, 14, &[0xff])), "unable to decode string");
    assert_eq!(refusal(&frame(5, 14, b"x")), "Expected 13 len for pause");
    assert_eq!(refusal(&frame(6, 14, b"x")), "Expected 13 len for resume");
    assert_eq!(refusal(&frame(9, 13, b"")), "unknown msg id 9!");
    // An unknown frame is refused only once it is there in full.
    assert!(ChannelMessage::parse(&frame(9, 14, b"")).unwrap().is_none());
}

#[test]
fn refused_bytes_stay_where_they_are() {
    let mut parser = ChannelMessageParser::new();
    parser.add(frame(9, 13, b""));
    assert!(parser.next().is_err());
    assert!(parser.next().is_err());
}

#[test]
fn channel_truncated_frames_are_waited_for() {
    let msg = ChannelMessage::Error(ErrorMsg { stream_id: sid(5), message: "broken".to_string() });
    let bytes = msg.encode();
    for k in 0..bytes.len() {
        assert!(ChannelMessage::parse(&bytes[..k]).unwrap().is_none());
    }
    let mut longer = bytes.clone();
    longer.extend_from_slice(b"whatever follows");
    let (parsed, size) = ChannelMessage::parse(&longer).unwrap().unwrap();
    assert_eq!(parsed, msg);
    assert_eq!(size, bytes.len());
    assert_eq!(parsed.encode(), bytes);
}

#[test]
fn channel_descriptions() {
    assert_eq!(
        ChannelMessage::Connect(ConnectMsg { stream_id: sid(5) }).to_string(),
        "Connect(OngoingStreamId(5))"
    );
    assert_eq!(
        ChannelMessage::Data(DataMsg { stream_id: sid(10), to_send: vec![0; 3] }).to_string(),
        "Data(OngoingStreamId(10)) n=3"
    );
    assert_eq!(
        ChannelMessage::Disconnect(DisconnectMsg { stream_id: sid(0) }).to_string(),
        "Disconnect(OngoingStreamId(0))"
    );
    assert_eq!(
        ChannelMessage::Error(ErrorMsg { stream_id: sid(1), message: "oops".to_string() })
            .to_string(),
        "Error(OngoingStreamId(1)) oops"
    );
    assert_eq!(
        ChannelMessage::Pause(PauseMsg { stream_id: sid(2) }).to_string(),
        "Pause(OngoingStreamId(2))"
    );
    assert_eq!(
        ChannelMessage::Resume(ResumeMsg { stream_id: sid(3) }).to_string(),
        "Resume(OngoingStreamId(3))"
    );
}

#[test]
fn multiplexer_error_texts() {
    let e = MultiplexerError::from("it broke");
    assert_eq!(e.description(), "it broke");
    assert_eq!(e.to_string(), "Error: it broke");
    assert_eq!(MultiplexerError::send_error("closed").to_string(), "Error: senderror: closed");
    assert_eq!(MultiplexerError::join_error("panic").description(), "join error: panic");
}
