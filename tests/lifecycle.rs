use aa_proxy_rs::frame::Frame;
use aa_proxy_rs::relay::relay_frame;
use aa_proxy_rs::relay::take_frame;
use aa_proxy_rs::error::FramingError;
use aa_proxy_rs::error::Leg;
use aa_proxy_rs::error::RelayError;
use aa_proxy_rs::hexdump::HexdumpLevel;
use aa_proxy_rs::relay::forward_plaintext;
use aa_proxy_rs::reassembly::Message;
use aa_proxy_rs::reassembly::Reassembler;
use aa_proxy_rs::rewrite::RuleSet;
use aa_proxy_rs::session::route_record;
use aa_proxy_rs::session::Action;
use aa_proxy_rs::session::Direction;
use aa_proxy_rs::session::Event;
use aa_proxy_rs::session::Phase;
use aa_proxy_rs::session::RecordRoute;
use aa_proxy_rs::session::Session;
use aa_proxy_rs::session::Termination;
use aa_proxy_rs::session::TlsPhase;
use aa_proxy_rs::usb_id::HexError;
use aa_proxy_rs::usb_id::UsbId;
use aa_proxy_rs::usb_id::UsbIdError;

#[test]
fn idle_session_times_out() {
    let mut s = Session::new(10_000, 0, 1_000);
    assert_eq!(s.handle(Event::Forwarded { direction: Direction::PhoneToHeadUnit, bytes: 10, now: 5_000 }), Action::Nothing);
    assert_eq!(s.handle(Event::Tick { now: 11_000 }), Action::Nothing);
    assert_eq!(s.handle(Event::Tick { now: 11_001 }), Action::Terminate(Termination::IdleTimeout));
    assert_eq!(s.phase, Phase::Terminated(Termination::IdleTimeout));
    assert!(!s.endpoints_open);
    assert_eq!(s.phone_leg, TlsPhase::Closed);
    assert_eq!(s.head_unit_leg, TlsPhase::Closed);
    assert_eq!(s.handle(Event::Shutdown), Action::Nothing);
}

#[test]
fn tls_failure_on_phone_leg_tears_down_both() {
    let mut s = Session::new(10_000, 0, 0);
    for leg in [Leg::Phone, Leg::HeadUnit] {
        s.handle(Event::HandshakeStarted(leg));
        s.handle(Event::HandshakeDone(leg));
    }
    assert_eq!(s.head_unit_leg, TlsPhase::Established);
    let a = s.handle(Event::Failed(RelayError::Tls(Leg::Phone)));
    assert_eq!(a, Action::Terminate(Termination::Failed(RelayError::Tls(Leg::Phone))));
    assert_eq!(s.phone_leg, TlsPhase::Closed);
    assert_eq!(s.head_unit_leg, TlsPhase::Closed);
    assert!(!s.endpoints_open);
}

#[test]
fn stats_are_reported_even_without_traffic() {
    let mut s = Session::new(60_000, 1_000, 0);
    assert_eq!(s.handle(Event::Tick { now: 500 }), Action::Nothing);
    let a = s.handle(Event::Tick { now: 1_000 });
    match a {
        Action::Report(st) => {
            assert_eq!(st.phone_to_head_unit_bytes, 0);
            assert_eq!(st.head_unit_to_phone_frames, 0);
        }
        _ => panic!("expected a report"),
    }
    s.handle(Event::Forwarded { direction: Direction::HeadUnitToPhone, bytes: 40, now: 1_200 });
    s.handle(Event::Forwarded { direction: Direction::HeadUnitToPhone, bytes: 2, now: 1_300 });
    match s.handle(Event::Tick { now: 2_000 }) {
        Action::Report(st) => {
            assert_eq!(st.head_unit_to_phone_bytes, 42);
            assert_eq!(st.head_unit_to_phone_frames, 2);
        }
        _ => panic!("expected a report"),
    }
}

#[test]
fn framing_error_and_shutdown_terminate() {
    let mut s = Session::new(1, 0, 0);
    let e = RelayError::Framing(FramingError::OrphanFragment { channel: 1 });
    assert_eq!(s.handle(Event::Failed(e)), Action::Terminate(Termination::Failed(e)));
    let mut t = Session::new(1, 0, 0);
    assert_eq!(t.handle(Event::Shutdown), Action::Terminate(Termination::Shutdown));
}

#[test]
fn records_route_by_leg_phase() {
    assert_eq!(route_record(TlsPhase::Idle), RecordRoute::Handshake);
    assert_eq!(route_record(TlsPhase::Handshaking), RecordRoute::Handshake);
    assert_eq!(route_record(TlsPhase::Established), RecordRoute::Application);
    assert_eq!(route_record(TlsPhase::Closed), RecordRoute::Rejected);
}

#[test]
fn forwarded_message_is_rewritten_and_refragmented() {
    let rules = RuleSet {
        force_dpi: None,
        allow_video_in_motion: false,
        disable_media_sink: false,
        disable_tts_sink: false,
        remove_tap_restriction: true,
        developer_mode: false,
    };
    let msg = Message { channel: 3, encrypted: true, payload: vec![0x80, 0x02, 0x04, 0x01, 0x01] };
    let frames = forward_plaintext(rules, &msg, 2);
    assert_eq!(frames.len(), 3);
    let mut r = Reassembler::new(100);
    let out = r.push_frames(frames).unwrap();
    assert_eq!(out[0].payload, vec![0x80, 0x02, 0x04, 0x01, 0x00]);
}

#[test]
fn hexdump_levels_nest() {
    assert!(!HexdumpLevel::Disabled.records(HexdumpLevel::DecryptedInput));
    assert!(HexdumpLevel::RawInput.records(HexdumpLevel::DecryptedInput));
    assert!(!HexdumpLevel::RawInput.records(HexdumpLevel::RawOutput));
    assert!(HexdumpLevel::All.records(HexdumpLevel::RawOutput));
    assert!(!HexdumpLevel::All.records(HexdumpLevel::Disabled));
    assert_eq!(HexdumpLevel::default(), HexdumpLevel::Disabled);
}

#[test]
fn usb_id_parses_hex_pair() {
    assert_eq!(UsbId::parse("18d1:4ee1"), Ok(UsbId { vid: 0x18d1, pid: 0x4ee1 }));
    assert_eq!(UsbId::parse("0000:0000"), Ok(UsbId { vid: 0, pid: 0 }));
    assert_eq!(UsbId::parse("+FfFf:1"), Ok(UsbId { vid: 0xffff, pid: 1 }));
}

#[test]
fn usb_id_errors() {
    assert_eq!(UsbId::parse("18d1"), Err(UsbIdError::Format));
    assert_eq!(UsbId::parse("1:2:3"), Err(UsbIdError::Format));
    assert_eq!(UsbId::parse(":1"), Err(UsbIdError::Vid(HexError::Empty)));
    assert_eq!(UsbId::parse("1:+"), Err(UsbIdError::Pid(HexError::InvalidDigit)));
    assert_eq!(UsbId::parse("1g:1"), Err(UsbIdError::Vid(HexError::InvalidDigit)));
    assert_eq!(UsbId::parse("1:10000"), Err(UsbIdError::Pid(HexError::PosOverflow)));
}

#[test]
fn take_frame_leaves_the_rest() {
    let mut pending: Vec<u8> = vec![1, 3, 0, 1, 9, 2, 3, 0];
    let f = take_frame(&mut pending, 64).unwrap().unwrap();
    assert_eq!(f.payload, vec![9]);
    assert_eq!(pending, vec![2, 3, 0]);
    assert!(take_frame(&mut pending, 64).unwrap().is_none());
    assert_eq!(pending, vec![2, 3, 0]);
}

#[test]
fn relay_frame_rewrites_plaintext_and_passes_encrypted() {
    let rules = RuleSet {
        force_dpi: None,
        allow_video_in_motion: true,
        disable_media_sink: false,
        disable_tts_sink: false,
        remove_tap_restriction: false,
        developer_mode: false,
    };
    let mut r = Reassembler::new(100);
    let plain = Frame { channel: 1, flags: 3, payload: vec![0x80, 0x04, 0x01, 0x01, 0x01] };
    let out = relay_frame(&mut r, plain, Some(rules), 64).unwrap().unwrap();
    assert_eq!(out, vec![1, 3, 0, 5, 0x80, 0x04, 0x01, 0x01, 0x00]);
    let enc = Frame { channel: 1, flags: 11, payload: vec![0x80, 0x04, 0x01, 0x01, 0x01] };
    let out = relay_frame(&mut r, enc, Some(rules), 64).unwrap().unwrap();
    assert_eq!(out, vec![1, 11, 0, 5, 0x80, 0x04, 0x01, 0x01, 0x01]);
    let first = Frame { channel: 2, flags: 1, payload: vec![0x80] };
    assert!(relay_frame(&mut r, first, Some(rules), 64).unwrap().is_none());
    let plain = Frame { channel: 1, flags: 3, payload: vec![0x80, 0x04, 0x01, 0x01, 0x01] };
    let out = relay_frame(&mut r, plain, None, 64).unwrap().unwrap();
    assert_eq!(out, vec![1, 3, 0, 5, 0x80, 0x04, 0x01, 0x01, 0x01]);
}
