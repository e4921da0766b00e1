use vstd::prelude::*;
use vstd::slice::slice_subrange;
use vstd::slice::slice_to_vec;

use crate::error::FramingError;
use crate::error::RelayError;

verus! {

/// Set on the first frame of a message.
pub const FLAG_FIRST: u8 = 0x01;

/// Set on the last frame of a message.
pub const FLAG_LAST: u8 = 0x02;

/// Set on frames whose payload is a TLS record.
pub const FLAG_ENCRYPTED: u8 = 0x08;

/// Channel id, flags and a big-endian 16-bit payload length.
pub const HEADER_LEN: usize = 4;

/// The largest payload the 16-bit length field can describe.
pub const MAX_FRAME_PAYLOAD: usize = 0xFFFF;

/// One unit of transport: a fragment of a message on one channel.
#[derive(Clone, Debug)]
pub struct Frame {
    pub channel: u8,
    pub flags: u8,
    pub payload: Vec<u8>,
}

pub struct FrameView {
    pub channel: u8,
    pub flags: u8,
    pub payload: Seq<u8>,
}

impl View for Frame {
    type V = FrameView;

    open spec fn view(&self) -> FrameView {
        FrameView { channel: self.channel, flags: self.flags, payload: self.payload@ }
    }
}

pub open spec fn frames_view(fs: Seq<Frame>) -> Seq<FrameView> {
    fs.map_values(|f: Frame| f@)
}

pub open spec fn header_bytes(channel: u8, flags: u8, len: nat) -> Seq<u8> {
    seq![channel, flags, (len / 256) as u8, (len % 256) as u8]
}

/// The wire form of one frame; the length field is taken from the payload itself.
pub open spec fn frame_bytes(f: FrameView) -> Seq<u8> {
    header_bytes(f.channel, f.flags, f.payload.len()) + f.payload
}

/// The wire form of a sequence of frames, one after the other.
pub open spec fn stream_bytes(fs: Seq<FrameView>) -> Seq<u8>
    decreases fs.len(),
{
    if fs.len() == 0 {
        seq![]
    } else {
        frame_bytes(fs[0]) + stream_bytes(fs.drop_first())
    }
}

/// The payload length that the header at the start of `b` declares.
pub open spec fn declared_len(b: Seq<u8>) -> nat
    recommends
        b.len() >= 4,
{
    b[2] as nat * 256 + b[3] as nat
}

/// What the front of a buffer holds: a whole frame and its size on the wire,
/// nothing yet (`None`), or a header that breaks the payload limit.
pub open spec fn peek_frame(b: Seq<u8>, max_payload: nat) -> Result<
    Option<(FrameView, nat)>,
    RelayError,
> {
    if b.len() < 4 {
        Ok(None)
    } else if declared_len(b) > max_payload {
        Err(
            RelayError::Framing(
                FramingError::PayloadTooLarge { channel: b[0], length: declared_len(b) as u16 },
            ),
        )
    } else if b.len() < 4 + declared_len(b) {
        Ok(None)
    } else {
        Ok(
            Some(
                (
                    FrameView {
                        channel: b[0],
                        flags: b[1],
                        payload: b.subrange(4, 4 + declared_len(b) as int),
                    },
                    4 + declared_len(b),
                ),
            ),
        )
    }
}

/// A whole stream up to its closure, cut into frames.
pub open spec fn parse_stream(b: Seq<u8>, max_payload: nat) -> Result<Seq<FrameView>, RelayError>
    decreases b.len(),
{
    if b.len() == 0 {
        Ok(seq![])
    } else {
        match peek_frame(b, max_payload) {
            Err(e) => Err(e),
            Ok(None) => Err(RelayError::TransportClosed),
            Ok(Some((f, n))) => if 0 < n <= b.len() {
                match parse_stream(b.subrange(n as int, b.len() as int), max_payload) {
                    Ok(rest) => Ok(seq![f] + rest),
                    Err(e) => Err(e),
                }
            } else {
                Err(RelayError::TransportClosed)
            },
        }
    }
}

pub open spec fn prepend_frames(
    fs: Seq<FrameView>,
    r: Result<Seq<FrameView>, RelayError>,
) -> Result<Seq<FrameView>, RelayError> {
    match r {
        Ok(rest) => Ok(fs + rest),
        Err(e) => Err(e),
    }
}

/// Serialises one frame, deriving the length field from the payload.
pub fn encode(f: &Frame) -> (r: Vec<u8>)
    requires
        f.payload@.len() <= MAX_FRAME_PAYLOAD,
    ensures
        r@ == frame_bytes(f@),
{
    let len = f.payload.len();
    let mut out: Vec<u8> = Vec::with_capacity(HEADER_LEN + len);
    out.push(f.channel);
    out.push(f.flags);
    out.push((len / 256) as u8);
    out.push((len % 256) as u8);
    let ghost head = out@;
    assert(head =~= header_bytes(f.channel, f.flags, len as nat));
    let mut i: usize = 0;
    while i < len
        invariant
            i <= len,
            len == f.payload@.len(),
            out@ == head + f.payload@.subrange(0, i as int),
        decreases len - i,
    {
        out.push(f.payload[i]);
        i = i + 1;
        assert(out@ =~= head + f.payload@.subrange(0, i as int));
    }
    assert(f.payload@.subrange(0, len as int) =~= f.payload@);
    out
}

proof fn lemma_stream_bytes_push(fs: Seq<FrameView>, f: FrameView)
    ensures
        stream_bytes(fs.push(f)) == stream_bytes(fs) + frame_bytes(f),
    decreases fs.len(),
{
    if fs.len() == 0 {
        assert(fs.push(f).drop_first() =~= seq![]);
        assert(fs.push(f)[0] == f);
        assert(stream_bytes(fs.push(f).drop_first()) == Seq::<u8>::empty());
        assert(stream_bytes(fs) == Seq::<u8>::empty());
        assert(stream_bytes(fs.push(f)) =~= stream_bytes(fs) + frame_bytes(f));
    } else {
        assert(fs.push(f).drop_first() =~= fs.drop_first().push(f));
        assert(fs.push(f)[0] == fs[0]);
        lemma_stream_bytes_push(fs.drop_first(), f);
        assert(stream_bytes(fs.push(f)) =~= stream_bytes(fs) + frame_bytes(f));
    }
}

/// Serialises frames back to back.
pub fn encode_stream(frames: &Vec<Frame>) -> (r: Vec<u8>)
    requires
        forall|i: int| 0 <= i < frames@.len() ==> #[trigger] frames@[i].payload@.len() <= MAX_FRAME_PAYLOAD,
    ensures
        r@ == stream_bytes(frames_view(frames@)),
{
    let mut out: Vec<u8> = Vec::new();
    let mut i: usize = 0;
    while i < frames.len()
        invariant
            i <= frames@.len(),
            forall|k: int| 0 <= k < frames@.len() ==> #[trigger] frames@[k].payload@.len() <= MAX_FRAME_PAYLOAD,
            out@ == stream_bytes(frames_view(frames@.subrange(0, i as int))),
        decreases frames@.len() - i,
    {
        let mut bytes = encode(&frames[i]);
        proof {
            assert(frames_view(frames@.subrange(0, i + 1)) =~= frames_view(
                frames@.subrange(0, i as int),
            ).push(frames@[i as int]@));
            lemma_stream_bytes_push(frames_view(frames@.subrange(0, i as int)), frames@[i as int]@);
        }
        out.append(&mut bytes);
        i = i + 1;
    }
    assert(frames@.subrange(0, frames@.len() as int) =~= frames@);
    out
}

fn decode_at(buf: &[u8], start: usize, max_payload: usize) -> (r: Result<Option<(Frame, usize)>, RelayError>)
    requires
        start <= buf@.len(),
    ensures
        match (r, peek_frame(buf@.subrange(start as int, buf@.len() as int), max_payload as nat)) {
            (Ok(None), Ok(None)) => true,
            (Ok(Some((f, n))), Ok(Some((g, m)))) => f@ == g && n == m,
            (Err(e), Err(d)) => e == d,
            _ => false,
        },
{
    let ghost b = buf@.subrange(start as int, buf@.len() as int);
    let avail = buf.len() - start;
    if avail < HEADER_LEN {
        return Ok(None);
    }
    let declared: usize = (buf[start + 2] as usize) * 256 + buf[start + 3] as usize;
    assert(declared == declared_len(b));
    if declared > max_payload {
        return Err(
            RelayError::Framing(
                FramingError::PayloadTooLarge { channel: buf[start], length: declared as u16 },
            ),
        );
    }
    if avail < HEADER_LEN + declared {
        return Ok(None);
    }
    let body = slice_subrange(buf, start + HEADER_LEN, start + HEADER_LEN + declared);
    let payload = slice_to_vec(body);
    assert(payload@ =~= b.subrange(4, 4 + declared_len(b) as int));
    Ok(Some((Frame { channel: buf[start], flags: buf[start + 1], payload }, HEADER_LEN + declared)))
}

/// Reads the frame at the front of `buf`. `Ok(None)` means that more bytes
/// are needed; the size of a frame is returned beside it.
pub fn decode_frame(buf: &[u8], max_payload: usize) -> (r: Result<Option<(Frame, usize)>, RelayError>)
    ensures
        match (r, peek_frame(buf@, max_payload as nat)) {
            (Ok(None), Ok(None)) => true,
            (Ok(Some((f, n))), Ok(Some((g, m)))) => f@ == g && n == m,
            (Err(e), Err(d)) => e == d,
            _ => false,
        },
{
    assert(buf@.subrange(0, buf@.len() as int) =~= buf@);
    decode_at(buf, 0, max_payload)
}

/// Cuts a whole stream, read up to its closure, into frames. A stream that
/// ends inside a frame is a closed transport, not a framing error.
pub fn decode_stream(buf: &[u8], max_payload: usize) -> (r: Result<Vec<Frame>, RelayError>)
    ensures
        match (r, parse_stream(buf@, max_payload as nat)) {
            (Ok(fs), Ok(gs)) => frames_view(fs@) == gs,
            (Err(e), Err(d)) => e == d,
            _ => false,
        },
{
    let mut frames: Vec<Frame> = Vec::new();
    let mut pos: usize = 0;
    assert(buf@.subrange(0, buf@.len() as int) =~= buf@);
    assert(frames_view(frames@) =~= seq![]);
    while pos < buf.len()
        invariant
            pos <= buf@.len(),
            parse_stream(buf@, max_payload as nat) == prepend_frames(
                frames_view(frames@),
                parse_stream(buf@.subrange(pos as int, buf@.len() as int), max_payload as nat),
            ),
        decreases buf@.len() - pos,
    {
        let ghost rest = buf@.subrange(pos as int, buf@.len() as int);
        match decode_at(buf, pos, max_payload) {
            Err(e) => {
                return Err(e);
            },
            Ok(None) => {
                return Err(RelayError::TransportClosed);
            },
            Ok(Some((f, n))) => {
                proof {
                    assert(rest.subrange(n as int, rest.len() as int) =~= buf@.subrange(
                        pos + n,
                        buf@.len() as int,
                    ));
                    assert(frames_view(frames@.push(f)) =~= frames_view(frames@).push(f@));
                    assert(frames_view(frames@).push(f@) + parse_stream(
                        buf@.subrange(pos + n, buf@.len() as int),
                        max_payload as nat,
                    )->Ok_0 =~= frames_view(frames@) + (seq![f@] + parse_stream(
                        buf@.subrange(pos + n, buf@.len() as int),
                        max_payload as nat,
                    )->Ok_0));
                }
                frames.push(f);
                pos = pos + n;
            },
        }
    }
    assert(frames_view(frames@) + seq![] =~= frames_view(frames@));
    Ok(frames)
}

proof fn lemma_length_field(len: nat)
    requires
        len <= 0xFFFF,
    ensures
        ((len / 256) as u8) as nat == len / 256,
        ((len % 256) as u8) as nat == len % 256,
        ((len / 256) as u8) as nat * 256 + ((len % 256) as u8) as nat == len,
{
    assert(len / 256 < 256) by (nonlinear_arith)
        requires
            len <= 0xFFFF,
    ;
    assert(len == (len / 256) * 256 + len % 256) by (nonlinear_arith);
}

proof fn lemma_split_length(hi: u8, lo: u8)
    ensures
        (hi as nat * 256 + lo as nat) / 256 == hi as nat,
        (hi as nat * 256 + lo as nat) % 256 == lo as nat,
{
    let n = hi as nat * 256 + lo as nat;
    assert(n / 256 == hi as nat && n % 256 == lo as nat) by (nonlinear_arith)
        requires
            n == hi as nat * 256 + lo as nat,
            lo < 256,
    ;
}

/// Decoding a closed stream into frames and encoding those frames again
/// reproduces the stream byte for byte.
#[verifier::spinoff_prover]
#[verifier::rlimit(40)]
pub proof fn lemma_decode_then_encode(b: Seq<u8>, max_payload: nat)
    requires
        parse_stream(b, max_payload) is Ok,
    ensures
        stream_bytes(parse_stream(b, max_payload)->Ok_0) == b,
    decreases b.len(),
{
    if b.len() > 0 {
        let len = declared_len(b);
        let n = 4 + len;
        let rest = b.subrange(n as int, b.len() as int);
        let f = FrameView { channel: b[0], flags: b[1], payload: b.subrange(4, n as int) };
        assert(b.len() >= 4 && len <= max_payload && b.len() >= n);
        assert(peek_frame(b, max_payload) == Ok::<Option<(FrameView, nat)>, RelayError>(
            Some((f, n)),
        ));
        let fs = parse_stream(b, max_payload)->Ok_0;
        let tail = parse_stream(rest, max_payload)->Ok_0;
        assert(parse_stream(rest, max_payload) is Ok);
        assert(fs == seq![f] + tail);
        lemma_decode_then_encode(rest, max_payload);
        assert(stream_bytes(tail) == rest);
        lemma_split_length(b[2], b[3]);
        assert(f.payload.len() == len);
        assert(header_bytes(b[0], b[1], len) =~= b.subrange(0, 4));
        assert(frame_bytes(f) =~= b.subrange(0, n as int));
        assert(fs.drop_first() =~= tail);
        assert(fs[0] == f);
        assert(stream_bytes(fs) == frame_bytes(f) + stream_bytes(tail));
        assert(b =~= b.subrange(0, n as int) + rest);
    }
}

/// Encoding frames whose payloads respect the limit and decoding the bytes
/// again gives back the same frames.
#[verifier::spinoff_prover]
#[verifier::rlimit(40)]
pub proof fn lemma_encode_then_decode(fs: Seq<FrameView>, max_payload: nat)
    requires
        forall|i: int|
            0 <= i < fs.len() ==> #[trigger] fs[i].payload.len() <= max_payload
                && fs[i].payload.len() <= MAX_FRAME_PAYLOAD,
    ensures
        parse_stream(stream_bytes(fs), max_payload) == Ok::<Seq<FrameView>, RelayError>(fs),
    decreases fs.len(),
{
    if fs.len() > 0 {
        let f = fs[0];
        let tail = fs.drop_first();
        assert forall|i: int| 0 <= i < tail.len() implies #[trigger] tail[i].payload.len()
            <= max_payload && tail[i].payload.len() <= MAX_FRAME_PAYLOAD by {
            assert(tail[i] == fs[i + 1]);
        }
        lemma_encode_then_decode(tail, max_payload);
        let b = stream_bytes(fs);
        let len = f.payload.len();
        assert(fs[0].payload.len() <= max_payload);
        lemma_length_field(len);
        assert(b == frame_bytes(f) + stream_bytes(tail));
        assert(b[2] == (len / 256) as u8 && b[3] == (len % 256) as u8);
        assert(declared_len(b) == len);
        assert(b.subrange(4, 4 + len as int) =~= f.payload);
        assert(b.subrange(4 + len as int, b.len() as int) =~= stream_bytes(tail));
        assert(b[0] == f.channel && b[1] == f.flags);
        assert(peek_frame(b, max_payload) == Ok::<Option<(FrameView, nat)>, RelayError>(
            Some((f, 4 + len)),
        ));
        assert(seq![f] + tail =~= fs);
    } else {
        assert(stream_bytes(fs) == Seq::<u8>::empty());
        assert(fs =~= seq![]);
    }
}

} // verus!
