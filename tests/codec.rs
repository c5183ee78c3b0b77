use bytes::BytesMut;
use erdos::codec::{CodecError, MessageCodec};
use erdos::message::{InterProcessMessage, MessageMetadata, StreamId};

fn s1_metadata() -> MessageMetadata {
    MessageMetadata { stream_id: StreamId(7), target: "op".to_string() }
}

fn s1_metadata_bytes() -> Vec<u8> {
    vec![7, 0, 0, 0, 0, 0, 0, 0, 2, 0, 0, 0, 0, 0, 0, 0, b'o', b'p']
}

fn s1_frame() -> Vec<u8> {
    let mut expected = vec![0, 0, 0, 18, 0, 0, 0, 2];
    expected.extend_from_slice(&s1_metadata_bytes());
    expected.extend_from_slice(&[0xDE, 0xAD]);
    expected
}

#[test]
fn codec_happy_path() {
    let mut codec = MessageCodec::new();
    let mut buf = BytesMut::new();
    let msg = InterProcessMessage::Deserialized { metadata: s1_metadata(), data: vec![0xDE, 0xAD] };
    codec.encode(msg, &mut buf).unwrap();
    assert_eq!(&buf[..], &s1_frame()[..]);
    match codec.decode(&mut buf) {
        Ok(Some(InterProcessMessage::Serialized { metadata, bytes })) => {
            assert_eq!(metadata, s1_metadata());
            assert_eq!(&bytes[..], &[0xDE, 0xAD]);
        }
        other => panic!("unexpected {:?}", other),
    }
    assert!(buf.is_empty());
}

#[test]
fn codec_dribble() {
    let frame = s1_frame();
    let mut codec = MessageCodec::new();
    let mut buf = BytesMut::new();
    for (i, b) in frame.iter().enumerate() {
        buf.extend_from_slice(&[*b]);
        let r = codec.decode(&mut buf).unwrap();
        if i + 1 < frame.len() {
            assert!(r.is_none(), "byte {}", i);
        } else {
            match r {
                Some(InterProcessMessage::Serialized { metadata, bytes }) => {
                    assert_eq!(metadata, s1_metadata());
                    assert_eq!(&bytes[..], &[0xDE, 0xAD]);
                }
                other => panic!("unexpected {:?}", other),
            }
        }
    }
}

#[test]
fn codec_two_frames_in_one_buffer() {
    let mut codec = MessageCodec::new();
    let mut buf = BytesMut::new();
    let second = MessageMetadata { stream_id: StreamId(9), target: String::new() };
    codec
        .encode(InterProcessMessage::Deserialized { metadata: s1_metadata(), data: vec![1] }, &mut buf)
        .unwrap();
    codec
        .encode(InterProcessMessage::Deserialized { metadata: second.clone(), data: vec![] }, &mut buf)
        .unwrap();
    buf.extend_from_slice(&[0, 0]);
    match codec.decode(&mut buf).unwrap() {
        Some(InterProcessMessage::Serialized { metadata, bytes }) => {
            assert_eq!(metadata, s1_metadata());
            assert_eq!(&bytes[..], &[1]);
        }
        other => panic!("unexpected {:?}", other),
    }
    match codec.decode(&mut buf).unwrap() {
        Some(InterProcessMessage::Serialized { metadata, bytes }) => {
            assert_eq!(metadata, second);
            assert!(bytes.is_empty());
        }
        other => panic!("unexpected {:?}", other),
    }
    assert!(codec.decode(&mut buf).unwrap().is_none());
    assert_eq!(&buf[..], &[0, 0]);
}

#[test]
fn codec_refuses_serialized_input() {
    let mut codec = MessageCodec::new();
    let mut buf = BytesMut::new();
    let msg = InterProcessMessage::Serialized { metadata: s1_metadata(), bytes: BytesMut::new() };
    assert_eq!(codec.encode(msg, &mut buf), Err(CodecError::EncoderMisuse));
    assert!(buf.is_empty());
}

#[test]
fn codec_invalid_metadata_poisons() {
    let mut codec = MessageCodec::default();
    let mut buf = BytesMut::new();
    buf.extend_from_slice(&[0, 0, 0, 3, 0, 0, 0, 0, 1, 2, 3]);
    assert_eq!(codec.decode(&mut buf).unwrap_err(), CodecError::InvalidMetadata);
    buf.extend_from_slice(&s1_frame());
    assert_eq!(codec.decode(&mut buf).unwrap_err(), CodecError::InvalidMetadata);
}

#[test]
fn codec_split_feeding_matches_whole_buffer() {
    let mut whole = Vec::new();
    let mut enc = MessageCodec::new();
    let mut tmp = BytesMut::new();
    for k in 0..3u64 {
        let m = MessageMetadata { stream_id: StreamId(k), target: "x".repeat(k as usize) };
        enc.encode(InterProcessMessage::Deserialized { metadata: m, data: vec![k as u8; k as usize] }, &mut tmp)
            .unwrap();
    }
    whole.extend_from_slice(&tmp[..]);
    let drain = |codec: &mut MessageCodec, buf: &mut BytesMut, out: &mut Vec<(u64, Vec<u8>)>| {
        while let Some(InterProcessMessage::Serialized { metadata, bytes }) = codec.decode(buf).unwrap() {
            out.push((metadata.stream_id.0, bytes.to_vec()));
        }
    };
    let mut all = Vec::new();
    let mut c1 = MessageCodec::new();
    let mut b1 = BytesMut::from(&whole[..]);
    drain(&mut c1, &mut b1, &mut all);
    for chunk in [1usize, 3, 5, 13] {
        let mut parts = Vec::new();
        let mut c2 = MessageCodec::new();
        let mut b2 = BytesMut::new();
        for piece in whole.chunks(chunk) {
            b2.extend_from_slice(piece);
            drain(&mut c2, &mut b2, &mut parts);
        }
        assert_eq!(parts, all);
    }
    assert_eq!(all.len(), 3);
}
