use bytes::BytesMut;
use mobiletunnel::stream_codec::{
    parse, HelloMessage, StreamCodec, StreamCodecMessage, StreamError,
};

fn hello() -> StreamCodecMessage {
    StreamCodecMessage::Hello(HelloMessage { sender_id: 0x0102, sender_last_rx: 3 })
}

#[test]
fn codec_encodings() {
    assert_eq!(
        hello().encode(),
        vec![1, 2, 1, 0, 0, 0, 0, 0, 0, 3, 0, 0, 0, 0, 0, 0, 0]
    );
    assert_eq!(
        StreamCodecMessage::Data(b"hi".to_vec()).encode(),
        vec![2, 2, 0, 0, 0, b'h', b'i']
    );
    assert_eq!(StreamCodecMessage::Data(vec![]).encode(), vec![2, 0, 0, 0, 0]);
    assert_eq!(
        StreamCodecMessage::Ack(258).encode(),
        vec![3, 2, 1, 0, 0, 0, 0, 0, 0]
    );
}

#[test]
fn codec_roundtrip_with_trailing_bytes() {
    for msg in [hello(), StreamCodecMessage::Data(b"payload".to_vec()), StreamCodecMessage::Ack(7)] {
        let mut bytes = msg.encode();
        let len = bytes.len();
        bytes.extend_from_slice(&[9, 9, 9]);
        let (parsed, size) = StreamCodecMessage::parse(&bytes).unwrap().unwrap();
        assert_eq!(parsed, msg);
        assert_eq!(size, len);
        assert_eq!(parsed.encode(), bytes[..size].to_vec());
    }
}

#[test]
fn codec_truncated_messages_are_waited_for() {
    for msg in [hello(), StreamCodecMessage::Data(b"payload".to_vec()), StreamCodecMessage::Ack(7)] {
        let bytes = msg.encode();
        for k in 0..bytes.len() {
            assert_eq!(StreamCodecMessage::parse(&bytes[..k]), Ok(None));
        }
    }
}

#[test]
fn codec_unknown_message() {
    assert_eq!(StreamCodecMessage::parse(&[9, 1]), Err(StreamError::UnknownMsgId(9)));
    let mut codec = StreamCodec { name: "test".to_string() };
    let mut buf = BytesMut::from(&[0u8, 1, 2][..]);
    assert_eq!(codec.decode(&mut buf), Err(StreamError::UnknownMsgId(0)));
    assert_eq!(&buf[..], &[0, 1, 2]);
}

#[test]
fn codec_streams_through_buffers() {
    let mut codec = StreamCodec { name: "test".to_string() };
    let mut buf = BytesMut::new();
    let msgs = vec![
        hello(),
        StreamCodecMessage::Data(b"first".to_vec()),
        StreamCodecMessage::Ack(1),
        StreamCodecMessage::Data(vec![]),
    ];
    for msg in &msgs {
        assert!(codec.can_encode(msg, &buf));
        assert!(codec.encode(msg.clone(), &mut buf).is_ok());
    }
    assert_eq!(buf.len(), 17 + 10 + 9 + 5);
    // The same bytes, one at a time.
    let mut slow = BytesMut::new();
    let mut seen = vec![];
    for byte in buf.iter() {
        slow.extend_from_slice(&[*byte]);
        while let Some(msg) = codec.decode(&mut slow).unwrap() {
            seen.push(msg);
        }
    }
    assert_eq!(seen, msgs);
    let mut at_once = vec![];
    while let Some(msg) = codec.decode(&mut buf).unwrap() {
        at_once.push(msg);
    }
    assert_eq!(at_once, msgs);
    assert!(buf.is_empty());
}

#[test]
fn codec_descriptions() {
    assert_eq!(hello().to_string(), "Hello");
    assert_eq!(StreamCodecMessage::Data(vec![0; 12]).to_string(), "Data(12)");
    assert_eq!(StreamCodecMessage::Ack(u64::MAX).to_string(), "Ack(18446744073709551615)");
    assert_eq!(parse(&[]), "Nothing");
    assert_eq!(parse(&[7]), "Error unknown msg id 7!");
    assert_eq!(parse(&hello().encode()), "Some message Hello len 17");
    assert_eq!(
        parse(&StreamCodecMessage::Data(b"abc".to_vec()).encode()),
        "Some message Data(3) len 8"
    );
}

#[test]
fn stream_error_texts() {
    assert_eq!(
        StreamError::AckBeforeBase.to_string(),
        "acked seq is before a previously acked one"
    );
    assert_eq!(StreamError::AckTooFar.to_string(), "seq > base offset");
    assert_eq!(
        StreamError::AckBeyondSent { seq: 10, base_offset: 2, unacked: 3 }.to_string(),
        "seq 10 > sent_unacked (off=2 unacked=3)"
    );
    assert_eq!(StreamError::UnknownMsgId(200).to_string(), "unknown msg id 200!");
}
