use vstd::prelude::*;

use crate::error::RelayError;
use crate::frame::decode_frame;
use crate::frame::encode;
use crate::frame::encode_stream;
use crate::frame::frame_bytes;
use crate::frame::frames_view;
use crate::frame::peek_frame;
use crate::frame::stream_bytes;
use crate::frame::Frame;
use crate::frame::MAX_FRAME_PAYLOAD;
use crate::reassembly::concat;
use crate::reassembly::fragment;
use crate::reassembly::frames_of;
use crate::reassembly::is_encrypted;
use crate::reassembly::payloads;
use crate::reassembly::reassemble_step;
use crate::reassembly::Message;
use crate::reassembly::MessageView;
use crate::reassembly::Reassembler;
use crate::rewrite::rewrite_bytes;
use crate::rewrite::rewrite_payload;
use crate::rewrite::RuleSet;

verus! {

/// Passes a reassembled plaintext message through the rewrite stage and cuts
/// the result into frames for the other side, on the same channel and with the
/// same encrypted bit.
pub fn forward_plaintext(rules: RuleSet, msg: &Message, max_fragment: usize) -> (r: Vec<Frame>)
    requires
        0 < max_fragment <= MAX_FRAME_PAYLOAD,
    ensures
        r@.len() >= 1,
        frames_view(r@) == frames_of(msg.channel, msg.encrypted, payloads(frames_view(r@))),
        concat(payloads(frames_view(r@))) == rewrite_bytes(rules, msg.payload@),
        forall|i: int| 0 <= i < r@.len() - 1 ==> #[trigger] r@[i].payload@.len() == max_fragment,
        r@.last().payload@.len() <= max_fragment,
{
    let payload = rewrite_payload(rules, msg.payload.as_slice());
    let out = Message { channel: msg.channel, encrypted: msg.encrypted, payload };
    fragment(&out, max_fragment)
}

/// Takes the frame at the front of the bytes received so far, if it is
/// complete, and leaves the rest for later.
pub fn take_frame(pending: &mut Vec<u8>, max_payload: usize) -> (r: Result<Option<Frame>, RelayError>)
    ensures
        match (r, peek_frame(old(pending)@, max_payload as nat)) {
            (Ok(None), Ok(None)) => final(pending)@ == old(pending)@,
            (Ok(Some(f)), Ok(Some((g, n)))) => f@ == g && final(pending)@ == old(pending)@.subrange(
                n as int,
                old(pending)@.len() as int,
            ),
            (Err(e), Err(d)) => e == d && final(pending)@ == old(pending)@,
            _ => false,
        },
{
    match decode_frame(pending.as_slice(), max_payload) {
        Err(e) => Err(e),
        Ok(None) => Ok(None),
        Ok(Some((f, n))) => {
            let rest = pending.split_off(n);
            *pending = rest;
            Ok(Some(f))
        },
    }
}

/// The bytes written for a message after the rewrite stage: its frames, for
/// some cut of the rewritten payload into pieces of at most `max_fragment` bytes.
pub open spec fn forwarded_bytes(
    rules: RuleSet,
    m: MessageView,
    max_fragment: nat,
    out: Seq<u8>,
) -> bool {
    exists|chunks: Seq<Seq<u8>>|
        chunks.len() >= 1 && concat(chunks) == rewrite_bytes(rules, m.payload) && (forall|i: int|
            0 <= i < chunks.len() ==> (#[trigger] chunks[i]).len() <= max_fragment) && out
            == stream_bytes(frames_of(m.channel, m.encrypted, chunks))
}

/// What one received frame makes the relay write to the other side. Without
/// rules, and for encrypted frames, the frame passes as it is; otherwise it
/// goes to the reassembler, and a completed message is rewritten and framed
/// again.
pub fn relay_frame(
    reassembler: &mut Reassembler,
    frame: Frame,
    rules: Option<RuleSet>,
    max_fragment: usize,
) -> (r: Result<Option<Vec<u8>>, RelayError>)
    requires
        old(reassembler).wf(),
        frame.payload@.len() <= MAX_FRAME_PAYLOAD,
        0 < max_fragment <= MAX_FRAME_PAYLOAD,
    ensures
        final(reassembler).wf(),
        final(reassembler).limit() == old(reassembler).limit(),
        rules is None || is_encrypted(frame.flags) ==> *final(reassembler) == *old(reassembler)
            && r is Ok && r->Ok_0 is Some && r->Ok_0->Some_0@ == frame_bytes(frame@),
        rules is Some && !is_encrypted(frame.flags) ==> {
            let (open, step) = reassemble_step(old(reassembler)@, frame@, old(reassembler).limit());
            &&& final(reassembler)@ == open
            &&& match (r, step) {
                (Ok(None), Ok(None)) => true,
                (Ok(Some(bytes)), Ok(Some(m))) => forwarded_bytes(rules->Some_0, m, max_fragment as nat, bytes@),
                (Err(e), Err(d)) => e == d,
                _ => false,
            }
        },
{
    let encrypted = (frame.flags / 8) % 2 == 1;
    if rules.is_none() || encrypted {
        return Ok(Some(encode(&frame)));
    }
    let rs = rules.unwrap();
    match reassembler.push(frame) {
        Err(e) => Err(e),
        Ok(None) => Ok(None),
        Ok(Some(msg)) => {
            let frames = forward_plaintext(rs, &msg, max_fragment);
            let bytes = encode_stream(&frames);
            let ghost chunks = payloads(frames_view(frames@));
            proof {
                assert forall|i: int| 0 <= i < chunks.len() implies (#[trigger] chunks[i]).len()
                    <= max_fragment by {
                    assert(chunks[i] == frames@[i].payload@);
                    if i < frames@.len() - 1 {
                        assert(frames@[i].payload@.len() == max_fragment);
                    } else {
                        assert(frames@[i] == frames@.last());
                    }
                }
            }
            Ok(Some(bytes))
        },
    }
}

} // verus!
