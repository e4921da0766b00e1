use aa_proxy_rs::rewrite::apply;
use aa_proxy_rs::rewrite::decode_control;
use aa_proxy_rs::rewrite::encode_control;
use aa_proxy_rs::rewrite::rewrite_payload;
use aa_proxy_rs::rewrite::RuleSet;

fn no_rules() -> RuleSet {
    RuleSet {
        force_dpi: None,
        allow_video_in_motion: false,
        disable_media_sink: false,
        disable_tts_sink: false,
        remove_tap_restriction: false,
        developer_mode: false,
    }
}

fn all_rules() -> RuleSet {
    RuleSet {
        force_dpi: Some(160),
        allow_video_in_motion: true,
        disable_media_sink: true,
        disable_tts_sink: true,
        remove_tap_restriction: true,
        developer_mode: true,
    }
}

#[test]
fn tap_restriction_is_cleared() {
    let rules = RuleSet { remove_tap_restriction: true, ..no_rules() };
    let input: Vec<u8> = vec![0x80, 0x02, 0x01, 0x02, 0x04, 0x38, 0x04, 0x01, 0x01, 0x07, 0x01, 0x06];
    let out = rewrite_payload(rules, &input);
    assert_eq!(out, vec![0x80, 0x02, 0x01, 0x02, 0x04, 0x38, 0x04, 0x01, 0x00, 0x07, 0x01, 0x06]);
}

#[test]
fn density_is_forced() {
    let rules = RuleSet { force_dpi: Some(0x01a0), ..no_rules() };
    let input: Vec<u8> = vec![0x80, 0x01, 0x03, 0x01, 0x78, 0x05, 0x00];
    let out = rewrite_payload(rules, &input);
    assert_eq!(out, vec![0x80, 0x01, 0x03, 0x02, 0x01, 0xa0, 0x05, 0x00]);
}

#[test]
fn sinks_are_removed() {
    let rules = RuleSet { disable_media_sink: true, disable_tts_sink: true, ..no_rules() };
    let input: Vec<u8> = vec![0x80, 0x03, 0x01, 0x01, 0x09, 0x02, 0x00, 0x03, 0x01, 0x04];
    assert_eq!(rewrite_payload(rules, &input), vec![0x80, 0x03, 0x03, 0x01, 0x04]);
}

#[test]
fn video_in_motion_and_developer_mode() {
    let video: Vec<u8> = vec![0x80, 0x04, 0x01, 0x01, 0x01];
    assert_eq!(rewrite_payload(all_rules(), &video), vec![0x80, 0x04, 0x01, 0x01, 0x00]);
    let discovery: Vec<u8> = vec![0x00, 0x06, 0x02, 0x00, 0x01, 0x01, 0x00];
    assert_eq!(
        rewrite_payload(all_rules(), &discovery),
        vec![0x00, 0x06, 0x02, 0x00, 0x01, 0x01, 0x01]
    );
}

#[test]
fn message_without_targeted_field_is_unchanged() {
    let input: Vec<u8> = vec![0x80, 0x01, 0x01, 0x02, 0x04, 0x38, 0x02, 0x01, 0x09];
    assert_eq!(rewrite_payload(all_rules(), &input), input);
    let other_kind: Vec<u8> = vec![0x12, 0x34, 0x03, 0x01, 0x05];
    assert_eq!(rewrite_payload(all_rules(), &other_kind), other_kind);
}

#[test]
fn undecodable_payload_passes_through() {
    let input: Vec<u8> = vec![0x80, 0x02, 0x04, 0x05, 0x00];
    assert!(decode_control(&input).is_none());
    assert_eq!(rewrite_payload(all_rules(), &input), input);
    assert_eq!(rewrite_payload(all_rules(), &[0x80]), vec![0x80]);
}

#[test]
fn rewriting_twice_equals_once() {
    let input: Vec<u8> =
        vec![0x80, 0x01, 0x03, 0x01, 0x78, 0x01, 0x01, 0x05];
    let once = rewrite_payload(all_rules(), &input);
    let twice = rewrite_payload(all_rules(), &once);
    assert_eq!(once, twice);
    assert_eq!(once, vec![0x80, 0x01, 0x03, 0x02, 0x00, 0xa0, 0x01, 0x01, 0x05]);
}

#[test]
fn decode_apply_encode() {
    let input: Vec<u8> = vec![0x80, 0x02, 0x04, 0x01, 0x01];
    let m = decode_control(&input).unwrap();
    assert_eq!(m.kind, 0x8002);
    assert_eq!(m.fields.len(), 1);
    let r = apply(RuleSet { remove_tap_restriction: true, ..no_rules() }, &m);
    assert_eq!(encode_control(&r), vec![0x80, 0x02, 0x04, 0x01, 0x00]);
    assert_eq!(encode_control(&m), input);
}
