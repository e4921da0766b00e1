use vstd::prelude::*;
use vstd::slice::slice_subrange;
use vstd::slice::slice_to_vec;

verus! {

/// Service discovery response: the capabilities a peer announces.
pub const KIND_SERVICE_DISCOVERY: u16 = 0x0006;

/// Display capability declaration.
pub const KIND_DISPLAY_CAPABILITY: u16 = 0x8001;

/// Input capability declaration.
pub const KIND_INPUT_CAPABILITY: u16 = 0x8002;

/// Sink capability declaration (media and speech outputs).
pub const KIND_SINK_CAPABILITY: u16 = 0x8003;

/// Driving status update, which gates video while the car moves.
pub const KIND_DRIVING_STATUS: u16 = 0x8004;

/// Developer/debug capability bit of a service discovery response.
pub const TAG_DEVELOPER: u8 = 0x01;

/// Reported pixel density (big-endian u16) of a display capability.
pub const TAG_DENSITY: u8 = 0x03;

/// Tap restriction flag (one byte, 0 or 1) of an input capability.
pub const TAG_TAP_RESTRICTED: u8 = 0x04;

/// Media sink entry of a sink capability.
pub const TAG_MEDIA_SINK: u8 = 0x01;

/// Text-to-speech sink entry of a sink capability.
pub const TAG_TTS_SINK: u8 = 0x02;

/// Video restriction (one byte, 0 = permitted) of a driving status update.
pub const TAG_VIDEO_RESTRICTED: u8 = 0x01;

/// The rewrite rules of one session; fixed for its whole lifetime.
#[derive(Clone, Copy, Debug, PartialEq, Eq)]
pub struct RuleSet {
    pub force_dpi: Option<u16>,
    pub allow_video_in_motion: bool,
    pub disable_media_sink: bool,
    pub disable_tts_sink: bool,
    pub remove_tap_restriction: bool,
    pub developer_mode: bool,
}

/// One tagged field of a control message.
#[derive(Clone, Debug)]
pub struct Field {
    pub tag: u8,
    pub value: Vec<u8>,
}

pub struct FieldView {
    pub tag: u8,
    pub value: Seq<u8>,
}

impl View for Field {
    type V = FieldView;

    open spec fn view(&self) -> FieldView {
        FieldView { tag: self.tag, value: self.value@ }
    }
}

/// A decoded control message: a kind and its fields in wire order.
#[derive(Clone, Debug)]
pub struct ControlMessage {
    pub kind: u16,
    pub fields: Vec<Field>,
}

pub struct ControlView {
    pub kind: u16,
    pub fields: Seq<FieldView>,
}

pub open spec fn fields_view(fs: Seq<Field>) -> Seq<FieldView> {
    fs.map_values(|f: Field| f@)
}

impl View for ControlMessage {
    type V = ControlView;

    open spec fn view(&self) -> ControlView {
        ControlView { kind: self.kind, fields: fields_view(self.fields@) }
    }
}

/// Fields on the wire: a tag, a one-byte length and the value, repeated.
pub open spec fn parse_fields(b: Seq<u8>) -> Option<Seq<FieldView>>
    decreases b.len(),
{
    if b.len() == 0 {
        Some(seq![])
    } else if b.len() < 2 || b.len() < 2 + b[1] as nat {
        None
    } else {
        let n = 2 + b[1] as nat;
        match parse_fields(b.subrange(n as int, b.len() as int)) {
            Some(rest) => Some(seq![FieldView { tag: b[0], value: b.subrange(2, n as int) }] + rest),
            None => None,
        }
    }
}

/// A control message on the wire: a big-endian kind, then its fields.
pub open spec fn parse_control(b: Seq<u8>) -> Option<ControlView> {
    if b.len() < 2 {
        None
    } else {
        match parse_fields(b.subrange(2, b.len() as int)) {
            Some(fs) => Some(ControlView { kind: (b[0] as nat * 256 + b[1] as nat) as u16, fields: fs }),
            None => None,
        }
    }
}

pub open spec fn field_bytes(f: FieldView) -> Seq<u8> {
    seq![f.tag, f.value.len() as u8] + f.value
}

pub open spec fn fields_bytes(fs: Seq<FieldView>) -> Seq<u8>
    decreases fs.len(),
{
    if fs.len() == 0 {
        seq![]
    } else {
        fields_bytes(fs.drop_last()) + field_bytes(fs.last())
    }
}

pub open spec fn control_bytes(m: ControlView) -> Seq<u8> {
    seq![(m.kind / 256) as u8, (m.kind % 256) as u8] + fields_bytes(m.fields)
}

/// Every value fits the one-byte length.
pub open spec fn encodable(fs: Seq<FieldView>) -> bool {
    forall|i: int| 0 <= i < fs.len() ==> #[trigger] fs[i].value.len() <= 255
}

pub open spec fn be16(v: u16) -> Seq<u8> {
    seq![(v / 256) as u8, (v % 256) as u8]
}

/// Whether some rule of some rule set looks at this field of this kind.
pub open spec fn is_targeted(kind: u16, tag: u8) -> bool {
    (kind == KIND_DISPLAY_CAPABILITY && tag == TAG_DENSITY)
        || (kind == KIND_INPUT_CAPABILITY && tag == TAG_TAP_RESTRICTED)
        || (kind == KIND_DRIVING_STATUS && tag == TAG_VIDEO_RESTRICTED)
        || (kind == KIND_SINK_CAPABILITY && (tag == TAG_MEDIA_SINK || tag == TAG_TTS_SINK))
        || (kind == KIND_SERVICE_DISCOVERY && tag == TAG_DEVELOPER)
}

/// What the rules make of one field of a message of `kind`: the field kept,
/// with its value possibly replaced, or removed (`None`).
pub open spec fn rewrite_field(rules: RuleSet, kind: u16, f: FieldView) -> Option<FieldView> {
    if kind == KIND_DISPLAY_CAPABILITY && f.tag == TAG_DENSITY && rules.force_dpi is Some {
        Some(FieldView { tag: f.tag, value: be16(rules.force_dpi->Some_0) })
    } else if kind == KIND_INPUT_CAPABILITY && f.tag == TAG_TAP_RESTRICTED
        && rules.remove_tap_restriction {
        Some(FieldView { tag: f.tag, value: seq![0u8] })
    } else if kind == KIND_DRIVING_STATUS && f.tag == TAG_VIDEO_RESTRICTED
        && rules.allow_video_in_motion {
        Some(FieldView { tag: f.tag, value: seq![0u8] })
    } else if kind == KIND_SINK_CAPABILITY && f.tag == TAG_MEDIA_SINK && rules.disable_media_sink {
        None
    } else if kind == KIND_SINK_CAPABILITY && f.tag == TAG_TTS_SINK && rules.disable_tts_sink {
        None
    } else if kind == KIND_SERVICE_DISCOVERY && f.tag == TAG_DEVELOPER && rules.developer_mode {
        Some(FieldView { tag: f.tag, value: seq![1u8] })
    } else {
        Some(f)
    }
}

pub open spec fn rewrite_fields(rules: RuleSet, kind: u16, fs: Seq<FieldView>) -> Seq<FieldView>
    decreases fs.len(),
{
    if fs.len() == 0 {
        seq![]
    } else {
        let rest = rewrite_fields(rules, kind, fs.drop_last());
        match rewrite_field(rules, kind, fs.last()) {
            Some(g) => rest.push(g),
            None => rest,
        }
    }
}

/// The message after the rules: same kind, fields rewritten in place.
pub open spec fn apply_spec(rules: RuleSet, m: ControlView) -> ControlView {
    ControlView { kind: m.kind, fields: rewrite_fields(rules, m.kind, m.fields) }
}

/// What the rewrite stage makes of a message payload: a control message is
/// rewritten and encoded again; anything that does not decode as one passes
/// byte for byte.
pub open spec fn rewrite_bytes(rules: RuleSet, p: Seq<u8>) -> Seq<u8> {
    match parse_control(p) {
        Some(m) => control_bytes(apply_spec(rules, m)),
        None => p,
    }
}

pub open spec fn prepend_fields(fs: Seq<FieldView>, r: Option<Seq<FieldView>>) -> Option<
    Seq<FieldView>,
> {
    match r {
        Some(rest) => Some(fs + rest),
        None => None,
    }
}

proof fn lemma_parsed_encodable(b: Seq<u8>)
    requires
        parse_fields(b) is Some,
    ensures
        encodable(parse_fields(b)->Some_0),
    decreases b.len(),
{
    if b.len() > 0 {
        let n = 2 + b[1] as nat;
        lemma_parsed_encodable(b.subrange(n as int, b.len() as int));
    }
}

/// Decodes a control message; `None` when the bytes are not one.
pub fn decode_control(b: &[u8]) -> (r: Option<ControlMessage>)
    ensures
        match (r, parse_control(b@)) {
            (Some(m), Some(v)) => m@ == v,
            (None, None) => true,
            _ => false,
        },
{
    if b.len() < 2 {
        return None;
    }
    let kind: u16 = (b[0] as u16) * 256 + b[1] as u16;
    let ghost body = b@.subrange(2, b@.len() as int);
    let mut fields: Vec<Field> = Vec::new();
    let mut pos: usize = 2;
    assert(b@.subrange(2, b@.len() as int) =~= body);
    assert(fields_view(fields@) =~= seq![]);
    while pos < b.len()
        invariant
            2 <= pos <= b@.len(),
            body == b@.subrange(2, b@.len() as int),
            parse_fields(body) == prepend_fields(
                fields_view(fields@),
                parse_fields(b@.subrange(pos as int, b@.len() as int)),
            ),
        decreases b@.len() - pos,
    {
        let ghost rest = b@.subrange(pos as int, b@.len() as int);
        if b.len() - pos < 2 {
            return None;
        }
        let n = b[pos + 1] as usize;
        if b.len() - pos - 2 < n {
            return None;
        }
        let value = slice_to_vec(slice_subrange(b, pos + 2, pos + 2 + n));
        let f = Field { tag: b[pos], value };
        proof {
            assert(value@ =~= rest.subrange(2, 2 + n as int));
            assert(rest.subrange(2 + n as int, rest.len() as int) =~= b@.subrange(
                pos + 2 + n,
                b@.len() as int,
            ));
            assert(fields_view(fields@.push(f)) =~= fields_view(fields@).push(f@));
            let tail = parse_fields(b@.subrange(pos + 2 + n, b@.len() as int));
            if tail is Some {
                assert(fields_view(fields@).push(f@) + tail->Some_0 =~= fields_view(fields@) + (
                seq![f@] + tail->Some_0));
            }
        }
        fields.push(f);
        pos = pos + 2 + n;
    }
    assert(fields_view(fields@) + seq![] =~= fields_view(fields@));
    Some(ControlMessage { kind, fields })
}

proof fn lemma_fields_bytes_push(fs: Seq<FieldView>, f: FieldView)
    ensures
        fields_bytes(fs.push(f)) == fields_bytes(fs) + field_bytes(f),
{
    assert(fs.push(f).drop_last() =~= fs);
}

/// Encodes a control message; every value must fit its one-byte length.
pub fn encode_control(m: &ControlMessage) -> (r: Vec<u8>)
    requires
        encodable(m@.fields),
    ensures
        r@ == control_bytes(m@),
{
    let mut out: Vec<u8> = Vec::new();
    out.push((m.kind / 256) as u8);
    out.push((m.kind % 256) as u8);
    let ghost head = out@;
    let mut i: usize = 0;
    assert(fields_view(m.fields@).subrange(0, 0) =~= seq![]);
    assert(out@ =~= head + fields_bytes(fields_view(m.fields@).subrange(0, 0)));
    while i < m.fields.len()
        invariant
            i <= m.fields@.len(),
            encodable(m@.fields),
            head == seq![(m.kind / 256) as u8, (m.kind % 256) as u8],
            out@ == head + fields_bytes(fields_view(m.fields@).subrange(0, i as int)),
        decreases m.fields@.len() - i,
    {
        let f = &m.fields[i];
        assert(fields_view(m.fields@)[i as int] == f@);
        assert(m@.fields[i as int].value.len() <= 255);
        assert(f.value@.len() <= 255);
        out.push(f.tag);
        out.push(f.value.len() as u8);
        let mut v = slice_to_vec(f.value.as_slice());
        out.append(&mut v);
        proof {
            assert(fields_view(m.fields@).subrange(0, i + 1) =~= fields_view(m.fields@).subrange(
                0,
                i as int,
            ).push(f@));
            lemma_fields_bytes_push(fields_view(m.fields@).subrange(0, i as int), f@);
        }
        i = i + 1;
    }
    assert(fields_view(m.fields@).subrange(0, i as int) =~= fields_view(m.fields@));
    out
}

fn rewrite_one(rules: RuleSet, kind: u16, f: &Field) -> (r: Option<Field>)
    ensures
        match (r, rewrite_field(rules, kind, f@)) {
            (Some(g), Some(h)) => g@ == h,
            (None, None) => true,
            _ => false,
        },
{
    if kind == KIND_DISPLAY_CAPABILITY && f.tag == TAG_DENSITY && rules.force_dpi.is_some() {
        let v = rules.force_dpi.unwrap();
        let value = vec![(v / 256) as u8, (v % 256) as u8];
        assert(value@ =~= be16(v));
        Some(Field { tag: f.tag, value })
    } else if kind == KIND_INPUT_CAPABILITY && f.tag == TAG_TAP_RESTRICTED
        && rules.remove_tap_restriction {
        let value = vec![0u8];
        assert(value@ =~= seq![0u8]);
        Some(Field { tag: f.tag, value })
    } else if kind == KIND_DRIVING_STATUS && f.tag == TAG_VIDEO_RESTRICTED
        && rules.allow_video_in_motion {
        let value = vec![0u8];
        assert(value@ =~= seq![0u8]);
        Some(Field { tag: f.tag, value })
    } else if kind == KIND_SINK_CAPABILITY && f.tag == TAG_MEDIA_SINK && rules.disable_media_sink {
        None
    } else if kind == KIND_SINK_CAPABILITY && f.tag == TAG_TTS_SINK && rules.disable_tts_sink {
        None
    } else if kind == KIND_SERVICE_DISCOVERY && f.tag == TAG_DEVELOPER && rules.developer_mode {
        let value = vec![1u8];
        assert(value@ =~= seq![1u8]);
        Some(Field { tag: f.tag, value })
    } else {
        Some(Field { tag: f.tag, value: slice_to_vec(f.value.as_slice()) })
    }
}

/// Applies the rule set to a decoded control message.
pub fn apply(rules: RuleSet, m: &ControlMessage) -> (r: ControlMessage)
    ensures
        r@ == apply_spec(rules, m@),
{
    let mut out: Vec<Field> = Vec::new();
    let mut i: usize = 0;
    let ghost fs = fields_view(m.fields@);
    assert(fs.subrange(0, 0) =~= seq![]);
    assert(fields_view(out@) =~= seq![]);
    while i < m.fields.len()
        invariant
            i <= m.fields@.len(),
            fs == fields_view(m.fields@),
            fields_view(out@) == rewrite_fields(rules, m.kind, fs.subrange(0, i as int)),
        decreases m.fields@.len() - i,
    {
        let r = rewrite_one(rules, m.kind, &m.fields[i]);
        proof {
            assert(fs.subrange(0, i + 1).drop_last() =~= fs.subrange(0, i as int));
            assert(fs.subrange(0, i + 1).last() == m.fields@[i as int]@);
        }
        match r {
            Some(g) => {
                let ghost gv = g@;
                out.push(g);
                assert(fields_view(out@) =~= fields_view(out@.drop_last()).push(gv));
            },
            None => {},
        }
        i = i + 1;
    }
    assert(fs.subrange(0, i as int) =~= fs);
    ControlMessage { kind: m.kind, fields: out }
}

proof fn lemma_rewrite_encodable(rules: RuleSet, kind: u16, fs: Seq<FieldView>)
    requires
        encodable(fs),
    ensures
        encodable(rewrite_fields(rules, kind, fs)),
    decreases fs.len(),
{
    if fs.len() > 0 {
        lemma_rewrite_encodable(rules, kind, fs.drop_last());
        assert(fs.last() == fs[fs.len() - 1]);
    }
}

/// The rewrite stage on one message payload.
pub fn rewrite_payload(rules: RuleSet, p: &[u8]) -> (r: Vec<u8>)
    ensures
        r@ == rewrite_bytes(rules, p@),
{
    match decode_control(p) {
        Some(m) => {
            proof {
                lemma_parsed_encodable(p@.subrange(2, p@.len() as int));
                lemma_rewrite_encodable(rules, m.kind, m@.fields);
            }
            let out = apply(rules, &m);
            encode_control(&out)
        },
        None => slice_to_vec(p),
    }
}

proof fn lemma_fields_bytes_cons(f: FieldView, fs: Seq<FieldView>)
    ensures
        fields_bytes(seq![f] + fs) == field_bytes(f) + fields_bytes(fs),
    decreases fs.len(),
{
    if fs.len() == 0 {
        assert(seq![f] + fs =~= seq![f]);
        assert(seq![f].drop_last() =~= seq![]);
        assert(fields_bytes(seq![f]) =~= fields_bytes(seq![]) + field_bytes(f));
    } else {
        lemma_fields_bytes_cons(f, fs.drop_last());
        assert((seq![f] + fs).drop_last() =~= seq![f] + fs.drop_last());
        assert((seq![f] + fs).last() == fs.last());
        assert(fields_bytes(seq![f] + fs) =~= field_bytes(f) + fields_bytes(fs));
    }
}

proof fn lemma_parse_fields_bytes(b: Seq<u8>)
    requires
        parse_fields(b) is Some,
    ensures
        fields_bytes(parse_fields(b)->Some_0) == b,
    decreases b.len(),
{
    if b.len() > 0 {
        let n = 2 + b[1] as nat;
        let rest = b.subrange(n as int, b.len() as int);
        let f = FieldView { tag: b[0], value: b.subrange(2, n as int) };
        lemma_parse_fields_bytes(rest);
        lemma_fields_bytes_cons(f, parse_fields(rest)->Some_0);
        assert(field_bytes(f) =~= b.subrange(0, n as int));
        assert(b =~= b.subrange(0, n as int) + rest);
    } else {
        assert(fields_bytes(seq![]) =~= b);
    }
}

proof fn lemma_fields_bytes_parse(fs: Seq<FieldView>)
    requires
        encodable(fs),
    ensures
        parse_fields(fields_bytes(fs)) == Some(fs),
    decreases fs.len(),
{
    if fs.len() > 0 {
        let f = fs[0];
        let tail = fs.drop_first();
        assert(encodable(tail)) by {
            assert forall|i: int| 0 <= i < tail.len() implies #[trigger] tail[i].value.len()
                <= 255 by {
                assert(tail[i] == fs[i + 1]);
            }
        }
        lemma_fields_bytes_parse(tail);
        assert(seq![f] + tail =~= fs);
        lemma_fields_bytes_cons(f, tail);
        let b = fields_bytes(fs);
        assert(fs[0].value.len() <= 255);
        let n = 2 + f.value.len();
        assert(b[1] as nat == f.value.len());
        assert(b.subrange(2, n as int) =~= f.value);
        assert(b.subrange(n as int, b.len() as int) =~= fields_bytes(tail));
    } else {
        assert(fs =~= seq![]);
    }
}

proof fn lemma_control_round_trip(p: Seq<u8>)
    requires
        parse_control(p) is Some,
    ensures
        control_bytes(parse_control(p)->Some_0) == p,
        encodable(parse_control(p)->Some_0.fields),
{
    let body = p.subrange(2, p.len() as int);
    lemma_parse_fields_bytes(body);
    lemma_parsed_encodable(body);
    let kind = (p[0] as nat * 256 + p[1] as nat) as u16;
    assert(kind / 256 == p[0] as u16 && kind % 256 == p[1] as u16) by (nonlinear_arith)
        requires
            kind == (p[0] as nat * 256 + p[1] as nat) as u16,
            p[0] < 256,
            p[1] < 256,
    ;
    assert(p =~= seq![p[0], p[1]] + body);
}

proof fn lemma_control_bytes_parse(m: ControlView)
    requires
        encodable(m.fields),
    ensures
        parse_control(control_bytes(m)) == Some(m),
{
    let b = control_bytes(m);
    lemma_fields_bytes_parse(m.fields);
    assert(b.subrange(2, b.len() as int) =~= fields_bytes(m.fields));
    let k = m.kind;
    assert(((k / 256) as u8) as nat * 256 + ((k % 256) as u8) as nat == k as nat) by (nonlinear_arith)
        requires
            k < 65536,
    ;
}

proof fn lemma_untargeted_fields(rules: RuleSet, kind: u16, fs: Seq<FieldView>)
    requires
        forall|i: int| 0 <= i < fs.len() ==> !is_targeted(kind, #[trigger] fs[i].tag),
    ensures
        rewrite_fields(rules, kind, fs) == fs,
    decreases fs.len(),
{
    if fs.len() > 0 {
        lemma_untargeted_fields(rules, kind, fs.drop_last());
        assert(fs.last() == fs[fs.len() - 1]);
        assert(fs.drop_last().push(fs.last()) =~= fs);
    } else {
        assert(fs =~= seq![]);
    }
}

/// A control message none of whose fields any rule looks at comes out of
/// every rule set unchanged, and so do its bytes.
pub proof fn lemma_untargeted_unchanged(rules: RuleSet, p: Seq<u8>)
    requires
        parse_control(p) is Some,
        forall|i: int|
            0 <= i < parse_control(p)->Some_0.fields.len() ==> !is_targeted(
                parse_control(p)->Some_0.kind,
                #[trigger] parse_control(p)->Some_0.fields[i].tag,
            ),
    ensures
        apply_spec(rules, parse_control(p)->Some_0) == parse_control(p)->Some_0,
        rewrite_bytes(rules, p) == p,
{
    let m = parse_control(p)->Some_0;
    lemma_untargeted_fields(rules, m.kind, m.fields);
    lemma_control_round_trip(p);
}

proof fn lemma_rewrite_field_stable(rules: RuleSet, kind: u16, f: FieldView)
    ensures
        rewrite_field(rules, kind, f) matches Some(g) ==> rewrite_field(rules, kind, g) == Some(g),
{
}

proof fn lemma_rewrite_fields_idempotent(rules: RuleSet, kind: u16, fs: Seq<FieldView>)
    ensures
        rewrite_fields(rules, kind, rewrite_fields(rules, kind, fs)) == rewrite_fields(rules, kind, fs),
    decreases fs.len(),
{
    if fs.len() > 0 {
        lemma_rewrite_fields_idempotent(rules, kind, fs.drop_last());
        lemma_rewrite_field_stable(rules, kind, fs.last());
        let rest = rewrite_fields(rules, kind, fs.drop_last());
        match rewrite_field(rules, kind, fs.last()) {
            Some(g) => {
                assert(rest.push(g).drop_last() =~= rest);
                assert(rest.push(g).last() == g);
            },
            None => {},
        }
    }
}

/// Applying the rule set to a message it already rewrote changes nothing,
/// for decoded messages and for payload bytes alike.
pub proof fn lemma_rewrite_idempotent(rules: RuleSet, m: ControlView, p: Seq<u8>)
    ensures
        apply_spec(rules, apply_spec(rules, m)) == apply_spec(rules, m),
        rewrite_bytes(rules, rewrite_bytes(rules, p)) == rewrite_bytes(rules, p),
{
    lemma_rewrite_fields_idempotent(rules, m.kind, m.fields);
    if parse_control(p) is Some {
        let pm = parse_control(p)->Some_0;
        lemma_control_round_trip(p);
        lemma_rewrite_encodable(rules, pm.kind, pm.fields);
        lemma_control_bytes_parse(apply_spec(rules, pm));
        lemma_rewrite_fields_idempotent(rules, pm.kind, pm.fields);
    }
}

} // verus!
