use vstd::prelude::*;

use crate::error::FramingError;
use crate::error::RelayError;
use crate::frame::frames_view;
use crate::frame::Frame;
use crate::frame::FrameView;
use vstd::slice::slice_subrange;
use vstd::slice::slice_to_vec;

use crate::frame::MAX_FRAME_PAYLOAD;

verus! {

/// Number of distinct channel ids.
pub const CHANNELS: usize = 256;

/// A fully reassembled message of one channel.
#[derive(Clone, Debug)]
pub struct Message {
    pub channel: u8,
    pub encrypted: bool,
    pub payload: Vec<u8>,
}

pub struct MessageView {
    pub channel: u8,
    pub encrypted: bool,
    pub payload: Seq<u8>,
}

impl View for Message {
    type V = MessageView;

    open spec fn view(&self) -> MessageView {
        MessageView { channel: self.channel, encrypted: self.encrypted, payload: self.payload@ }
    }
}

pub open spec fn is_first(flags: u8) -> bool {
    flags % 2 == 1
}

pub open spec fn is_last(flags: u8) -> bool {
    (flags / 2) % 2 == 1
}

pub open spec fn is_encrypted(flags: u8) -> bool {
    (flags / 8) % 2 == 1
}

/// The flags of a fragment: first (1), last (2) and encrypted (8) bits.
pub open spec fn fragment_flags(first: bool, last: bool, encrypted: bool) -> u8 {
    ((if first { 1int } else { 0 }) + (if last { 2int } else { 0 }) + (if encrypted { 8int } else { 0 })) as u8
}

/// The frames that carry `chunks`, in order, as one message of `channel`.
pub open spec fn frames_of(channel: u8, encrypted: bool, chunks: Seq<Seq<u8>>) -> Seq<FrameView> {
    Seq::new(
        chunks.len(),
        |i: int|
            FrameView {
                channel,
                flags: fragment_flags(i == 0, i == chunks.len() - 1, encrypted),
                payload: chunks[i],
            },
    )
}

/// The chunks joined back together.
pub open spec fn concat(chunks: Seq<Seq<u8>>) -> Seq<u8>
    decreases chunks.len(),
{
    if chunks.len() == 0 {
        seq![]
    } else {
        concat(chunks.drop_last()) + chunks.last()
    }
}

pub open spec fn payloads(fs: Seq<FrameView>) -> Seq<Seq<u8>> {
    fs.map_values(|f: FrameView| f.payload)
}

/// Per channel: the message still being collected, as its encrypted bit and
/// the bytes so far.
pub type OpenMessages = Seq<Option<(bool, Seq<u8>)>>;

/// What one frame does to the open messages, and what it completes.
pub open spec fn reassemble_step(open: OpenMessages, f: FrameView, max_message: nat) -> (
    OpenMessages,
    Result<Option<MessageView>, RelayError>,
) {
    let c = f.channel as int;
    if is_first(f.flags) {
        if open[c] is Some {
            (open, Err(RelayError::Framing(FramingError::OverlappingMessage { channel: f.channel })))
        } else if f.payload.len() > max_message {
            (open, Err(RelayError::Framing(FramingError::MessageTooLarge { channel: f.channel })))
        } else if is_last(f.flags) {
            (
                open,
                Ok(
                    Some(
                        MessageView {
                            channel: f.channel,
                            encrypted: is_encrypted(f.flags),
                            payload: f.payload,
                        },
                    ),
                ),
            )
        } else {
            (open.update(c, Some((is_encrypted(f.flags), f.payload))), Ok(None))
        }
    } else {
        match open[c] {
            None => (
                open,
                Err(RelayError::Framing(FramingError::OrphanFragment { channel: f.channel })),
            ),
            Some((enc, data)) => if data.len() + f.payload.len() > max_message {
                (open, Err(RelayError::Framing(FramingError::MessageTooLarge { channel: f.channel })))
            } else if is_last(f.flags) {
                (
                    open.update(c, None),
                    Ok(
                        Some(
                            MessageView { channel: f.channel, encrypted: enc, payload: data + f.payload },
                        ),
                    ),
                )
            } else {
                (open.update(c, Some((enc, data + f.payload))), Ok(None))
            },
        }
    }
}

/// Feeds frames one by one, collecting completed messages, up to the first error.
pub open spec fn reassemble_run(open: OpenMessages, fs: Seq<FrameView>, max_message: nat) -> (
    OpenMessages,
    Result<Seq<MessageView>, RelayError>,
)
    decreases fs.len(),
{
    if fs.len() == 0 {
        (open, Ok(seq![]))
    } else {
        let (s1, r1) = reassemble_run(open, fs.drop_last(), max_message);
        match r1 {
            Err(e) => (s1, Err(e)),
            Ok(ms) => {
                let (s2, r2) = reassemble_step(s1, fs.last(), max_message);
                match r2 {
                    Err(e) => (s2, Err(e)),
                    Ok(None) => (s2, Ok(ms)),
                    Ok(Some(m)) => (s2, Ok(ms.push(m))),
                }
            },
        }
    }
}

struct Partial {
    encrypted: bool,
    data: Vec<u8>,
}

/// Collects fragments per channel until each message is complete.
pub struct Reassembler {
    slots: Vec<Option<Partial>>,
    max_message: usize,
}

spec fn partial_view(p: Option<Partial>) -> Option<(bool, Seq<u8>)> {
    match p {
        None => None,
        Some(q) => Some((q.encrypted, q.data@)),
    }
}

pub open spec fn step_result_view(r: Result<Option<Message>, RelayError>) -> Result<
    Option<MessageView>,
    RelayError,
> {
    match r {
        Ok(None) => Ok(None),
        Ok(Some(m)) => Ok(Some(m@)),
        Err(e) => Err(e),
    }
}

impl View for Reassembler {
    type V = OpenMessages;

    closed spec fn view(&self) -> OpenMessages {
        self.slots@.map_values(|p: Option<Partial>| partial_view(p))
    }
}

impl Reassembler {
    pub closed spec fn wf(&self) -> bool {
        self.slots@.len() == CHANNELS
    }

    /// The largest message this reassembler accepts.
    pub closed spec fn limit(&self) -> nat {
        self.max_message as nat
    }

    pub fn max_message(&self) -> (r: usize)
        ensures
            r == self.limit(),
    {
        self.max_message
    }

    /// A reassembler with no open message, accepting messages of up to
    /// `max_message` bytes.
    pub fn new(max_message: usize) -> (r: Reassembler)
        ensures
            r.wf(),
            r.limit() == max_message,
            r@ == Seq::new(CHANNELS as nat, |i: int| None::<(bool, Seq<u8>)>),
    {
        let mut slots: Vec<Option<Partial>> = Vec::new();
        let mut i: usize = 0;
        while i < CHANNELS
            invariant
                i <= CHANNELS,
                slots@.len() == i,
                forall|k: int| 0 <= k < i ==> #[trigger] slots@[k] is None,
            decreases CHANNELS - i,
        {
            slots.push(None);
            i = i + 1;
        }
        let r = Reassembler { slots, max_message };
        assert(r@ =~= Seq::new(CHANNELS as nat, |i: int| None::<(bool, Seq<u8>)>));
        r
    }

    /// Takes one frame; returns the message it completes, if any.
    pub fn push(&mut self, f: Frame) -> (r: Result<Option<Message>, RelayError>)
        requires
            old(self).wf(),
        ensures
            final(self).wf(),
            final(self).limit() == old(self).limit(),
            (final(self)@, step_result_view(r)) == reassemble_step(
                old(self)@,
                f@,
                old(self).limit(),
            ),
    {
        let ghost before = self@;
        let c = f.channel as usize;
        let first = f.flags % 2 == 1;
        let last = (f.flags / 2) % 2 == 1;
        let enc = (f.flags / 8) % 2 == 1;
        assert(partial_view(self.slots@[c as int]) == before[c as int]);
        let (open_enc, open_data) = match &self.slots[c] {
            Some(p) => {
                if first {
                    return Err(
                        RelayError::Framing(FramingError::OverlappingMessage { channel: f.channel }),
                    );
                }
                if p.data.len() > self.max_message || f.payload.len() > self.max_message
                    - p.data.len() {
                    return Err(
                        RelayError::Framing(FramingError::MessageTooLarge { channel: f.channel }),
                    );
                }
                (p.encrypted, slice_to_vec(p.data.as_slice()))
            },
            None => {
                if !first {
                    return Err(
                        RelayError::Framing(FramingError::OrphanFragment { channel: f.channel }),
                    );
                }
                if f.payload.len() > self.max_message {
                    return Err(
                        RelayError::Framing(FramingError::MessageTooLarge { channel: f.channel }),
                    );
                }
                (enc, Vec::new())
            },
        };
        let mut data = open_data;
        let mut tail = f.payload;
        data.append(&mut tail);
        if last {
            self.slots[c] = None;
            assert(self@ =~= before.update(c as int, None));
            if first {
                assert(self@ =~= before);
            }
            Ok(Some(Message { channel: f.channel, encrypted: open_enc, payload: data }))
        } else {
            let ghost pv = (open_enc, data@);
            self.slots[c] = Some(Partial { encrypted: open_enc, data });
            assert(self@ =~= before.update(c as int, Some(pv)));
            Ok(None)
        }
    }
}

pub open spec fn messages_view(ms: Seq<Message>) -> Seq<MessageView> {
    ms.map_values(|m: Message| m@)
}

pub open spec fn run_result_view(r: Result<Vec<Message>, RelayError>) -> Result<
    Seq<MessageView>,
    RelayError,
> {
    match r {
        Ok(ms) => Ok(messages_view(ms@)),
        Err(e) => Err(e),
    }
}

impl Reassembler {
    /// Takes frames in arrival order and returns the messages they complete,
    /// in order; stops at the first framing error.
    pub fn push_frames(&mut self, frames: Vec<Frame>) -> (r: Result<Vec<Message>, RelayError>)
        requires
            old(self).wf(),
        ensures
            final(self).wf(),
            final(self).limit() == old(self).limit(),
            (final(self)@, run_result_view(r)) == reassemble_run(
                old(self)@,
                frames_view(frames@),
                old(self).limit(),
            ),
    {
        let ghost all = frames_view(frames@);
        let ghost start = self@;
        let total = frames.len();
        let mut rest = frames;
        let mut done: Vec<Message> = Vec::new();
        let mut i: usize = 0;
        assert(all.subrange(0, 0) =~= seq![]);
        assert(messages_view(done@) =~= seq![]);
        assert(all.subrange(0, all.len() as int) =~= all);
        while rest.len() > 0
            invariant
                self.wf(),
                self.limit() == old(self).limit(),
                i + rest@.len() == all.len(),
                all.len() == total,
                all == frames_view(frames@),
                start == old(self)@,
                frames_view(rest@) == all.subrange(i as int, all.len() as int),
                (self@, Ok::<Seq<MessageView>, RelayError>(messages_view(done@))) == reassemble_run(
                    start,
                    all.subrange(0, i as int),
                    self.limit(),
                ),
            decreases rest@.len(),
        {
            let ghost r0 = rest@;
            let f = rest.remove(0);
            proof {
                assert(frames_view(r0)[0] == all.subrange(i as int, all.len() as int)[0]);
                assert(f@ == all[i as int]);
                assert(all.subrange(0, i + 1).drop_last() =~= all.subrange(0, i as int));
                assert(all.subrange(0, i + 1).last() == all[i as int]);
                assert(frames_view(rest@) =~= frames_view(r0).drop_first());
            }
            let ghost s_before = self@;
            let ghost f_view = f@;
            let ghost ms_before = messages_view(done@);
            let res = self.push(f);
            proof {
                let pre = all.subrange(0, i + 1);
                assert(reassemble_run(start, pre.drop_last(), self.limit()) == (s_before, Ok::<Seq<MessageView>, RelayError>(ms_before)));
                let (s2, r2) = reassemble_step(s_before, f_view, self.limit());
                assert(s2 == self@);
                assert(r2 == step_result_view(res));
                assert(pre.len() > 0);
                assert(reassemble_run(start, pre, self.limit()) == match r2 {
                    Err(e) => (s2, Err(e)),
                    Ok(None) => (s2, Ok(ms_before)),
                    Ok(Some(m)) => (s2, Ok(ms_before.push(m))),
                });
            }
            match res {
                Err(e) => {
                    proof {
                        lemma_run_error_sticks(start, all, i + 1, self.limit());
                        assert(reassemble_run(start, all.subrange(0, i + 1), self.limit()).0 == self@);
                        assert(reassemble_run(start, all.subrange(0, i + 1), self.limit()).1 == Err::<Seq<MessageView>, RelayError>(e));
                    }
                    return Err(e);
                },
                Ok(None) => {
                    assert(reassemble_run(start, all.subrange(0, i + 1), self.limit()) == (self@, Ok::<Seq<MessageView>, RelayError>(ms_before)));
                },
                Ok(Some(m)) => {
                    let ghost mv = m@;
                    done.push(m);
                    assert(messages_view(done@) =~= ms_before.push(mv));
                    assert(reassemble_run(start, all.subrange(0, i + 1), self.limit()) == (self@, Ok::<Seq<MessageView>, RelayError>(ms_before.push(mv))));
                },
            }
            i = i + 1;
        }
        assert(all.subrange(0, i as int) =~= all);
        Ok(done)
    }
}

proof fn lemma_run_error_sticks(open: OpenMessages, fs: Seq<FrameView>, j: int, max_message: nat)
    requires
        0 <= j <= fs.len(),
        reassemble_run(open, fs.subrange(0, j), max_message).1 is Err,
    ensures
        reassemble_run(open, fs, max_message) == reassemble_run(open, fs.subrange(0, j), max_message),
    decreases fs.len(),
{
    if j == fs.len() {
        assert(fs.subrange(0, j) =~= fs);
    } else {
        assert(fs.drop_last().subrange(0, j) =~= fs.subrange(0, j));
        lemma_run_error_sticks(open, fs.drop_last(), j, max_message);
    }
}

/// Cuts a message into frames of at most `max_fragment` payload bytes: every
/// fragment but the last is full, and an empty message is one empty frame.
pub fn fragment(msg: &Message, max_fragment: usize) -> (r: Vec<Frame>)
    requires
        0 < max_fragment <= MAX_FRAME_PAYLOAD,
    ensures
        r@.len() >= 1,
        frames_view(r@) == frames_of(msg.channel, msg.encrypted, payloads(frames_view(r@))),
        concat(payloads(frames_view(r@))) == msg.payload@,
        forall|i: int| 0 <= i < r@.len() - 1 ==> #[trigger] r@[i].payload@.len() == max_fragment,
        r@.last().payload@.len() <= max_fragment,
        msg.payload@.len() > 0 ==> r@.last().payload@.len() > 0,
{
    let len = msg.payload.len();
    let ch = msg.channel;
    let enc = msg.encrypted;
    let mut out: Vec<Frame> = Vec::new();
    let mut pos: usize = 0;
    let mut finished = false;
    assert(payloads(frames_view(out@)) =~= seq![]);
    assert(msg.payload@.subrange(0, 0) =~= seq![]);
    while !finished
        invariant
            pos <= len,
            len == msg.payload@.len(),
            0 < max_fragment <= MAX_FRAME_PAYLOAD,
            concat(payloads(frames_view(out@))) == msg.payload@.subrange(0, pos as int),
            forall|i: int|
                0 <= i < out@.len() ==> (#[trigger] out@[i])@ == (FrameView {
                    channel: ch,
                    flags: fragment_flags(i == 0, finished && i == out@.len() - 1, enc),
                    payload: out@[i].payload@,
                }),
            forall|i: int|
                0 <= i < out@.len() && !(finished && i == out@.len() - 1)
                    ==> #[trigger] out@[i].payload@.len() == max_fragment,
            finished ==> pos == len && out@.len() >= 1 && out@.last().payload@.len() <= max_fragment
                && (len > 0 ==> out@.last().payload@.len() > 0),
            !finished ==> out@.len() == 0 || pos > 0,
            !finished ==> pos < len || (pos == 0 && out@.len() == 0),
        decreases len - pos + (if finished { 0int } else { 1int }),
    {
        let end: usize = if len - pos > max_fragment { pos + max_fragment } else { len };
        let last = end == len;
        let first = out.len() == 0;
        let flags: u8 = (if first { 1u8 } else { 0u8 }) + (if last { 2u8 } else { 0u8 }) + (if enc { 8u8 } else { 0u8 });
        let chunk = slice_to_vec(slice_subrange(msg.payload.as_slice(), pos, end));
        let ghost prev = out@;
        proof {
            lemma_flags(first, last, enc);
            assert(flags == fragment_flags(first, last, enc));
            assert(payloads(frames_view(prev.push(Frame { channel: ch, flags, payload: chunk }))).drop_last()
                =~= payloads(frames_view(prev)));
            assert(msg.payload@.subrange(0, end as int) =~= msg.payload@.subrange(0, pos as int) + chunk@);
        }
        out.push(Frame { channel: ch, flags, payload: chunk });
        pos = end;
        if last {
            finished = true;
        }
    }
    assert(msg.payload@.subrange(0, len as int) =~= msg.payload@);
    assert(frames_view(out@) =~= frames_of(ch, enc, payloads(frames_view(out@))));
    out
}

proof fn lemma_flags(first: bool, last: bool, encrypted: bool)
    ensures
        is_first(fragment_flags(first, last, encrypted)) == first,
        is_last(fragment_flags(first, last, encrypted)) == last,
        is_encrypted(fragment_flags(first, last, encrypted)) == encrypted,
        fragment_flags(first, last, encrypted) == (if first { 1u8 } else { 0u8 }) + (if last { 2u8 } else { 0u8 }) + (if encrypted { 8u8 } else { 0u8 }),
{
}

proof fn lemma_concat_prefix_len(chunks: Seq<Seq<u8>>, i: int)
    requires
        0 <= i <= chunks.len(),
    ensures
        concat(chunks.subrange(0, i)).len() <= concat(chunks).len(),
    decreases chunks.len(),
{
    if i == chunks.len() {
        assert(chunks.subrange(0, i) =~= chunks);
    } else {
        assert(chunks.drop_last().subrange(0, i) =~= chunks.subrange(0, i));
        lemma_concat_prefix_len(chunks.drop_last(), i);
    }
}

proof fn lemma_open_prefix(
    open: OpenMessages,
    channel: u8,
    encrypted: bool,
    chunks: Seq<Seq<u8>>,
    max_message: nat,
    i: int,
)
    requires
        open.len() == CHANNELS,
        open[channel as int] is None,
        1 <= i < chunks.len(),
        concat(chunks).len() <= max_message,
    ensures
        reassemble_run(open, frames_of(channel, encrypted, chunks).subrange(0, i), max_message) == (
            open.update(channel as int, Some((encrypted, concat(chunks.subrange(0, i))))),
            Ok::<Seq<MessageView>, RelayError>(seq![]),
        ),
    decreases i,
{
    let fs = frames_of(channel, encrypted, chunks);
    let pre = fs.subrange(0, i);
    assert(pre.drop_last() =~= fs.subrange(0, i - 1));
    assert(pre.last() == fs[i - 1]);
    lemma_flags(i - 1 == 0, false, encrypted);
    lemma_concat_prefix_len(chunks, i);
    assert(chunks.subrange(0, i).drop_last() =~= chunks.subrange(0, i - 1));
    assert(fs[i - 1] == FrameView {
        channel,
        flags: fragment_flags(i - 1 == 0, false, encrypted),
        payload: chunks[i - 1],
    });
    assert(concat(chunks.subrange(0, i)) == concat(chunks.subrange(0, i - 1)) + chunks[i - 1]);
    if i == 1 {
        assert(fs.subrange(0, 0) =~= seq![]);
        assert(chunks.subrange(0, 0) =~= seq![]);
        assert(concat(chunks.subrange(0, 0)) =~= seq![]);
        assert(concat(chunks.subrange(0, 1)) =~= chunks[0]);
        assert(reassemble_run(open, fs.subrange(0, 0), max_message) == (
            open,
            Ok::<Seq<MessageView>, RelayError>(seq![]),
        ));
    } else {
        lemma_open_prefix(open, channel, encrypted, chunks, max_message, i - 1);
        let mid = open.update(channel as int, Some((encrypted, concat(chunks.subrange(0, i - 1)))));
        assert(mid[channel as int] == Some((encrypted, concat(chunks.subrange(0, i - 1)))));
        assert(mid.update(channel as int, Some((encrypted, concat(chunks.subrange(0, i)))))
            =~= open.update(channel as int, Some((encrypted, concat(chunks.subrange(0, i))))));
    }
}

/// However a message is cut into fragments on a channel with no open message,
/// feeding those fragments to the reassembler yields exactly that message once,
/// and leaves the channel closed again.
pub proof fn lemma_reassemble_fragments(
    open: OpenMessages,
    channel: u8,
    encrypted: bool,
    chunks: Seq<Seq<u8>>,
    max_message: nat,
)
    requires
        open.len() == CHANNELS,
        open[channel as int] is None,
        chunks.len() >= 1,
        concat(chunks).len() <= max_message,
    ensures
        reassemble_run(open, frames_of(channel, encrypted, chunks), max_message) == (
            open,
            Ok::<Seq<MessageView>, RelayError>(
                seq![MessageView { channel, encrypted, payload: concat(chunks) }],
            ),
        ),
{
    let fs = frames_of(channel, encrypted, chunks);
    let n = chunks.len() as int;
    assert(fs.drop_last() =~= fs.subrange(0, n - 1));
    assert(fs.last() == fs[n - 1]);
    lemma_flags(n == 1, true, encrypted);
    assert(chunks.drop_last() =~= chunks.subrange(0, n - 1));
    assert(concat(chunks) == concat(chunks.subrange(0, n - 1)) + chunks[n - 1]);
    if n == 1 {
        assert(fs.subrange(0, 0) =~= seq![]);
        assert(chunks.subrange(0, 0) =~= seq![]);
        assert(concat(chunks.subrange(0, 0)) =~= seq![]);
        assert(concat(chunks) =~= chunks[0]);
        assert(reassemble_run(open, fs.subrange(0, 0), max_message) == (
            open,
            Ok::<Seq<MessageView>, RelayError>(seq![]),
        ));
    } else {
        lemma_open_prefix(open, channel, encrypted, chunks, max_message, n - 1);
        let mid = open.update(channel as int, Some((encrypted, concat(chunks.subrange(0, n - 1)))));
        assert(mid.update(channel as int, None) =~= open);
        assert(mid[channel as int] == Some((encrypted, concat(chunks.subrange(0, n - 1)))));
    }
    assert(seq![].push(MessageView { channel, encrypted, payload: concat(chunks) }) =~= seq![
        MessageView { channel, encrypted, payload: concat(chunks) },
    ]);
}

} // verus!
