use aa_proxy_rs::error::FramingError;
use aa_proxy_rs::error::RelayError;
use aa_proxy_rs::frame::decode_frame;
use aa_proxy_rs::frame::decode_stream;
use aa_proxy_rs::frame::encode;
use aa_proxy_rs::frame::encode_stream;
use aa_proxy_rs::frame::Frame;

fn frame(channel: u8, flags: u8, payload: &[u8]) -> Frame {
    Frame { channel, flags, payload: payload.to_vec() }
}

#[test]
fn encode_writes_header_and_payload() {
    let bytes = encode(&frame(5, 0x0b, &[0xaa, 0xbb, 0xcc]));
    assert_eq!(bytes, vec![5, 0x0b, 0, 3, 0xaa, 0xbb, 0xcc]);
}

#[test]
fn encode_derives_length_from_payload() {
    let payload = vec![7u8; 300];
    let bytes = encode(&Frame { channel: 1, flags: 3, payload: payload.clone() });
    assert_eq!(&bytes[..4], &[1, 3, 1, 44]);
    assert_eq!(bytes.len(), 304);
}

#[test]
fn decode_then_encode_reproduces_stream() {
    let stream: Vec<u8> = vec![3, 1, 0, 2, 9, 8, 7, 2, 0, 0, 3, 3, 0, 1, 4];
    let frames = decode_stream(&stream, 1024).unwrap();
    assert_eq!(frames.len(), 3);
    assert_eq!(frames[0].channel, 3);
    assert_eq!(frames[0].payload, vec![9, 8]);
    assert_eq!(frames[1].payload, Vec::<u8>::new());
    assert_eq!(frames[2].flags, 3);
    assert_eq!(encode_stream(&frames), stream);
}

#[test]
fn encode_then_decode_gives_frames_back() {
    let frames = vec![frame(0, 3, &[1, 2, 3]), frame(9, 8, &[]), frame(255, 2, &[0xff; 20])];
    let bytes = encode_stream(&frames);
    let back = decode_stream(&bytes, 64).unwrap();
    assert_eq!(back.len(), 3);
    for (a, b) in frames.iter().zip(back.iter()) {
        assert_eq!(a.channel, b.channel);
        assert_eq!(a.flags, b.flags);
        assert_eq!(a.payload, b.payload);
    }
}

#[test]
fn short_payload_before_closure_is_transport_closed() {
    let stream: Vec<u8> = vec![4, 3, 0, 10, 1, 2, 3, 4];
    assert_eq!(decode_stream(&stream, 1024).unwrap_err(), RelayError::TransportClosed);
    assert!(matches!(decode_frame(&stream, 1024), Ok(None)));
}

#[test]
fn truncated_header_is_transport_closed() {
    let stream: Vec<u8> = vec![3, 1, 0, 1, 5, 6, 1];
    assert_eq!(decode_stream(&stream, 1024).unwrap_err(), RelayError::TransportClosed);
}

#[test]
fn oversized_length_is_framing_error() {
    let stream: Vec<u8> = vec![6, 3, 0x10, 0x00];
    assert_eq!(
        decode_stream(&stream, 0x0fff).unwrap_err(),
        RelayError::Framing(FramingError::PayloadTooLarge { channel: 6, length: 0x1000 })
    );
    assert!(decode_frame(&stream, 0x0fff).is_err());
}

#[test]
fn decode_frame_reports_size() {
    let stream: Vec<u8> = vec![2, 3, 0, 2, 7, 7, 9];
    let (f, n) = decode_frame(&stream, 16).unwrap().unwrap();
    assert_eq!(n, 6);
    assert_eq!(f.payload, vec![7, 7]);
    assert!(decode_stream(&[], 16).unwrap().is_empty());
}
