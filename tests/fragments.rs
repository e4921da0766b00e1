use aa_proxy_rs::error::FramingError;
use aa_proxy_rs::error::RelayError;
use aa_proxy_rs::frame::Frame;
use aa_proxy_rs::reassembly::fragment;
use aa_proxy_rs::reassembly::Message;
use aa_proxy_rs::reassembly::Reassembler;

fn frame(channel: u8, flags: u8, payload: &[u8]) -> Frame {
    Frame { channel, flags, payload: payload.to_vec() }
}

#[test]
fn interleaved_channels_reassemble_independently() {
    let mut r = Reassembler::new(1 << 16);
    assert!(r.push(frame(3, 1, b"hel")).unwrap().is_none());
    assert!(r.push(frame(7, 1 | 8, b"wor")).unwrap().is_none());
    let m3 = r.push(frame(3, 2, b"lo")).unwrap().unwrap();
    let m7 = r.push(frame(7, 2 | 8, b"ld")).unwrap().unwrap();
    assert_eq!(m3.channel, 3);
    assert_eq!(m3.payload, b"hello".to_vec());
    assert!(!m3.encrypted);
    assert_eq!(m7.channel, 7);
    assert_eq!(m7.payload, b"world".to_vec());
    assert!(m7.encrypted);
}

#[test]
fn push_frames_returns_messages_in_order() {
    let mut r = Reassembler::new(64);
    let out = r
        .push_frames(vec![frame(1, 1, &[1]), frame(2, 3, &[9]), frame(1, 0, &[2]), frame(1, 2, &[3])])
        .unwrap();
    assert_eq!(out.len(), 2);
    assert_eq!(out[0].channel, 2);
    assert_eq!(out[1].payload, vec![1, 2, 3]);
}

#[test]
fn second_message_on_open_channel_is_framing_error() {
    let mut r = Reassembler::new(64);
    r.push(frame(4, 1, &[1])).unwrap();
    assert_eq!(
        r.push(frame(4, 1, &[2])).unwrap_err(),
        RelayError::Framing(FramingError::OverlappingMessage { channel: 4 })
    );
}

#[test]
fn continuation_without_start_is_framing_error() {
    let mut r = Reassembler::new(64);
    assert_eq!(
        r.push(frame(5, 2, &[2])).unwrap_err(),
        RelayError::Framing(FramingError::OrphanFragment { channel: 5 })
    );
}

#[test]
fn message_over_limit_is_framing_error() {
    let mut r = Reassembler::new(4);
    r.push(frame(6, 1, &[1, 2, 3])).unwrap();
    assert_eq!(
        r.push(frame(6, 2, &[4, 5])).unwrap_err(),
        RelayError::Framing(FramingError::MessageTooLarge { channel: 6 })
    );
    assert_eq!(r.max_message(), 4);
}

#[test]
fn fragment_then_reassemble_gives_message_back() {
    let payload: Vec<u8> = (0..250u32).map(|i| (i % 256) as u8).collect();
    for size in [1usize, 7, 100, 249, 250, 1000] {
        let msg = Message { channel: 9, encrypted: true, payload: payload.clone() };
        let frames = fragment(&msg, size);
        assert_eq!(frames.len(), (250 + size - 1) / size);
        assert_eq!(frames[0].flags & 1, 1);
        assert_eq!(frames[frames.len() - 1].flags & 2, 2);
        let mut r = Reassembler::new(1 << 12);
        let out = r.push_frames(frames).unwrap();
        assert_eq!(out.len(), 1);
        assert_eq!(out[0].payload, payload);
        assert!(out[0].encrypted);
    }
}

#[test]
fn empty_message_is_one_frame() {
    let msg = Message { channel: 2, encrypted: false, payload: vec![] };
    let frames = fragment(&msg, 16);
    assert_eq!(frames.len(), 1);
    assert_eq!(frames[0].flags, 3);
    assert!(frames[0].payload.is_empty());
}
