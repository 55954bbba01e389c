use reverse_tcp::codec::{
    decode_frame, encode_frame, length_prefix, prefix_value, FrameDecoder, StreamEnd,
};

#[test]
fn prefix_is_big_endian() {
    assert_eq!(length_prefix(5), [0, 0, 0, 5]);
    assert_eq!(length_prefix(0x0102_0304), [1, 2, 3, 4]);
    assert_eq!(length_prefix(u32::MAX), [0xff, 0xff, 0xff, 0xff]);
    assert_eq!(prefix_value(1, 2, 3, 4), 0x0102_0304);
    assert_eq!(prefix_value(0, 0, 1, 0), 256);
}

#[test]
fn encode_hello() {
    let frame = encode_frame(b"hello").unwrap();
    assert_eq!(frame, vec![0, 0, 0, 5, b'h', b'e', b'l', b'l', b'o']);
}

#[test]
fn encode_empty_payload() {
    assert_eq!(encode_frame(b"").unwrap(), vec![0, 0, 0, 0]);
}

#[test]
fn encode_300_bytes() {
    let payload = vec![7u8; 300];
    let frame = encode_frame(&payload).unwrap();
    assert_eq!(&frame[..4], &[0, 0, 1, 44]);
    assert_eq!(&frame[4..], &payload[..]);
}

#[test]
fn round_trip() {
    for payload in [&b""[..], b"a", b"hello world", &[0u8, 255, 1, 254][..]] {
        let frame = encode_frame(payload).unwrap();
        let (decoded, next) = decode_frame(&frame, 0).unwrap();
        assert_eq!(decoded, payload.to_vec());
        assert_eq!(next, frame.len());
    }
}

#[test]
fn decode_concatenation_stops_at_boundaries() {
    let mut stream = encode_frame(b"abc").unwrap();
    stream.extend(encode_frame(b"").unwrap());
    stream.extend(encode_frame(b"xy").unwrap());
    let (a, p1) = decode_frame(&stream, 0).unwrap();
    assert_eq!((a.as_slice(), p1), (&b"abc"[..], 7));
    let (b, p2) = decode_frame(&stream, p1).unwrap();
    assert_eq!((b.as_slice(), p2), (&b""[..], 11));
    let (c, p3) = decode_frame(&stream, p2).unwrap();
    assert_eq!((c.as_slice(), p3), (&b"xy"[..], 17));
    assert!(decode_frame(&stream, p3).is_none());
}

#[test]
fn decode_incomplete_is_none() {
    assert!(decode_frame(&[0, 0], 0).is_none());
    assert!(decode_frame(&[0, 0, 0, 10, 1, 2, 3], 0).is_none());
}

#[test]
fn decoder_across_split_reads() {
    let mut stream = encode_frame(b"first").unwrap();
    stream.extend(encode_frame(b"second").unwrap());
    let mut d = FrameDecoder::new();
    assert!(d.receive(&stream[..2]).is_empty());
    assert_eq!(d.end_of_stream(), StreamEnd::TruncatedPrefix);
    assert!(d.receive(&stream[2..7]).is_empty());
    assert_eq!(d.end_of_stream(), StreamEnd::TruncatedPayload);
    let frames = d.receive(&stream[7..]);
    assert_eq!(frames, vec![b"first".to_vec(), b"second".to_vec()]);
    assert_eq!(d.end_of_stream(), StreamEnd::Clean);
}

#[test]
fn clean_end_is_not_a_warning() {
    let d = FrameDecoder::new();
    assert_eq!(d.end_of_stream(), StreamEnd::Clean);
    assert!(!StreamEnd::Clean.is_truncated());
    assert!(StreamEnd::TruncatedPrefix.is_truncated());
    assert!(StreamEnd::TruncatedPayload.is_truncated());
}

#[test]
fn partial_prefix_is_truncated() {
    let mut d = FrameDecoder::new();
    assert!(d.receive(&[0, 0, 0]).is_empty());
    let end = d.end_of_stream();
    assert_eq!(end, StreamEnd::TruncatedPrefix);
    assert!(end.is_truncated());
}
