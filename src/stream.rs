//! The stream controller: bytes in, completion chunks out, with exactly one
//! terminal chunk however the transport ends.
use vstd::prelude::*;
use vstd::utf8::valid_utf8;
use crate::event::{
    Payload, lemma_event_indices, PayloadView, Usage, decode_payload, line_payload, payload_meaning, payload_of_line,
    utf8_text,
};
use crate::tool_calls::{FragmentView, ToolCall, ToolCallAccumulator, finished_calls, merge_deltas};
use crate::usage::UsageTracker;

verus! {

pub const NEWLINE: u8 = 10;

/// The unit handed to the consumer.
#[derive(Debug, PartialEq)]
pub struct CompletionChunk {
    pub content: String,
    pub finished: bool,
    pub tool_calls: Option<Vec<ToolCall>>,
    pub usage: Option<Usage>,
}

pub struct ChunkView {
    pub content: Seq<char>,
    pub finished: bool,
    pub tool_calls: Option<Seq<ToolCall>>,
    pub usage: Option<Usage>,
}

impl View for CompletionChunk {
    type V = ChunkView;

    open spec fn view(&self) -> ChunkView {
        ChunkView {
            content: self.content@,
            finished: self.finished,
            tool_calls: match self.tool_calls {
                Some(v) => Some(v@),
                None => None,
            },
            usage: self.usage,
        }
    }
}

pub open spec fn chunk_views(cs: Seq<CompletionChunk>) -> Seq<ChunkView> {
    Seq::new(cs.len(), |i: int| cs[i]@)
}

/// Where a response stands: still streaming, finished (the terminal chunk
/// went out, or the consumer left), or failed on a transport error.
#[derive(Debug, Clone, Copy, PartialEq, Eq, Structural)]
pub enum Phase {
    Streaming,
    Done,
    Failed,
}

/// Everything of a response's state but the unframed bytes.
pub struct CoreView {
    pub frags: Seq<FragmentView>,
    pub usage: Option<Usage>,
    pub phase: Phase,
}

pub struct DecoderView {
    pub buf: Seq<u8>,
    pub core: CoreView,
}

/// The terminal chunk: no text, the finished tool calls (none at all where no
/// fragment was ever seen), and the latest usage.
pub open spec fn terminal_chunk(frags: Seq<FragmentView>, usage: Option<Usage>) -> ChunkView {
    ChunkView {
        content: Seq::empty(),
        finished: true,
        tool_calls: if frags.len() == 0 {
            None
        } else {
            Some(finished_calls(frags))
        },
        usage,
    }
}

pub open spec fn text_chunk(text: String) -> ChunkView {
    ChunkView { content: text@, finished: false, tool_calls: None, usage: None }
}

pub open spec fn text_chunks(texts: Seq<String>) -> Seq<ChunkView> {
    Seq::new(texts.len(), |i: int| text_chunk(texts[i]))
}

/// One line of the stream applied to the state.
pub open spec fn apply_line(c: CoreView, line: Seq<u8>) -> (CoreView, Seq<ChunkView>) {
    if c.phase != Phase::Streaming {
        (c, seq![])
    } else {
        match payload_of_line(line) {
            None => (c, seq![]),
            Some(p) => match payload_meaning(p) {
                PayloadView::Sentinel => (
                    CoreView { phase: Phase::Done, ..c },
                    seq![terminal_chunk(c.frags, c.usage)],
                ),
                PayloadView::Skip => (c, seq![]),
                PayloadView::Event(e) => (
                    CoreView {
                        frags: merge_deltas(c.frags, e.tool_calls),
                        usage: if e.usage is Some {
                            e.usage
                        } else {
                            c.usage
                        },
                        phase: Phase::Streaming,
                    },
                    text_chunks(e.contents),
                ),
            },
        }
    }
}

pub open spec fn apply_lines(c: CoreView, lines: Seq<Seq<u8>>) -> (CoreView, Seq<ChunkView>)
    decreases lines.len(),
{
    if lines.len() == 0 {
        (c, seq![])
    } else {
        let (c1, o1) = apply_lines(c, lines.drop_last());
        let (c2, o2) = apply_line(c1, lines.last());
        (c2, o1 + o2)
    }
}

/// Framing, one byte at a time: the complete lines so far and the partial
/// line after them.
pub open spec fn frame_byte(st: (Seq<Seq<u8>>, Seq<u8>), b: u8) -> (Seq<Seq<u8>>, Seq<u8>) {
    if b == NEWLINE {
        (st.0.push(st.1), seq![])
    } else {
        (st.0, st.1.push(b))
    }
}

pub open spec fn frame_from(st: (Seq<Seq<u8>>, Seq<u8>), bytes: Seq<u8>) -> (
    Seq<Seq<u8>>,
    Seq<u8>,
)
    decreases bytes.len(),
{
    if bytes.len() == 0 {
        st
    } else {
        frame_byte(frame_from(st, bytes.drop_last()), bytes.last())
    }
}

pub open spec fn initial_decoder() -> DecoderView {
    DecoderView {
        buf: seq![],
        core: CoreView { frags: seq![], usage: None, phase: Phase::Streaming },
    }
}

/// One transport fragment. A fragment that is not UTF-8 is dropped; the
/// others are framed after the pending partial line and their complete lines
/// applied in order.
pub open spec fn push_fragment(d: DecoderView, frag: Seq<u8>) -> (DecoderView, Seq<ChunkView>) {
    if d.core.phase != Phase::Streaming || !valid_utf8(frag) {
        (d, seq![])
    } else {
        let (lines, partial) = frame_from((seq![], d.buf), frag);
        let (c, out) = apply_lines(d.core, lines);
        (
            DecoderView {
                buf: if c.phase == Phase::Streaming {
                    partial
                } else {
                    seq![]
                },
                core: c,
            },
            out,
        )
    }
}

pub open spec fn push_fragments(d: DecoderView, frags: Seq<Seq<u8>>) -> (
    DecoderView,
    Seq<ChunkView>,
)
    decreases frags.len(),
{
    if frags.len() == 0 {
        (d, seq![])
    } else {
        let (d1, o1) = push_fragments(d, frags.drop_last());
        let (d2, o2) = push_fragment(d1, frags.last());
        (d2, o1 + o2)
    }
}

/// The end of the transport: the terminal chunk where none went out yet.
pub open spec fn end_of_stream(d: DecoderView) -> (DecoderView, Seq<ChunkView>) {
    if d.core.phase == Phase::Streaming {
        (
            DecoderView { buf: seq![], core: CoreView { phase: Phase::Done, ..d.core } },
            seq![terminal_chunk(d.core.frags, d.core.usage)],
        )
    } else {
        (d, seq![])
    }
}

/// All chunks of a response whose transport delivers `frags` and then closes.
pub open spec fn decode_all(frags: Seq<Seq<u8>>) -> Seq<ChunkView> {
    let (d, out) = push_fragments(initial_decoder(), frags);
    out + end_of_stream(d).1
}

/// The bytes of the fragments, one after the other.
pub open spec fn joined(frags: Seq<Seq<u8>>) -> Seq<u8>
    decreases frags.len(),
{
    if frags.len() == 0 {
        seq![]
    } else {
        joined(frags.drop_last()) + frags.last()
    }
}

pub open spec fn has_newline(s: Seq<u8>) -> bool {
    exists|i: int| 0 <= i < s.len() && s[i] == NEWLINE
}

/// The chunks hold exactly one terminal chunk, and it is the last.
pub open spec fn terminal_once(out: Seq<ChunkView>) -> bool {
    &&& out.len() > 0
    &&& out.last().finished
    &&& forall|i: int| 0 <= i < out.len() - 1 ==> !(#[trigger] out[i]).finished
}

pub open spec fn no_terminal(out: Seq<ChunkView>) -> bool {
    forall|i: int| 0 <= i < out.len() ==> !(#[trigger] out[i]).finished
}

/// What the chunks so far say of the phase that produced them.
pub open spec fn phase_matches(phase: Phase, out: Seq<ChunkView>) -> bool {
    &&& phase != Phase::Failed
    &&& phase == Phase::Streaming ==> no_terminal(out)
    &&& phase == Phase::Done ==> terminal_once(out)
}

// ---------------------------------------------------------------------------
// Framing lemmas.

proof fn lemma_frame_concat(st: (Seq<Seq<u8>>, Seq<u8>), a: Seq<u8>, b: Seq<u8>)
    ensures
        frame_from(st, a + b) == frame_from(frame_from(st, a), b),
    decreases b.len(),
{
    if b.len() == 0 {
        assert(a + b =~= a);
    } else {
        lemma_frame_concat(st, a, b.drop_last());
        assert((a + b).drop_last() =~= a + b.drop_last());
        assert((a + b).last() == b.last());
    }
}

proof fn lemma_frame_plain(st: (Seq<Seq<u8>>, Seq<u8>), s: Seq<u8>)
    requires
        !has_newline(s),
    ensures
        frame_from(st, s) == (st.0, st.1 + s),
    decreases s.len(),
{
    if s.len() == 0 {
        assert(st.1 + s =~= st.1);
    } else {
        assert(!has_newline(s.drop_last())) by {
            if has_newline(s.drop_last()) {
                let i = choose|i: int| 0 <= i < s.drop_last().len() && s.drop_last()[i] == NEWLINE;
                assert(s[i] == NEWLINE);
            }
        }
        lemma_frame_plain(st, s.drop_last());
        assert(s.last() != NEWLINE) by {
            assert(s[s.len() - 1] == s.last());
        }
        assert((st.1 + s.drop_last()).push(s.last()) =~= st.1 + s);
    }
}

proof fn lemma_frame_prefix(st: (Seq<Seq<u8>>, Seq<u8>), s: Seq<u8>)
    ensures
        frame_from(st, s).0 == st.0 + frame_from((seq![], st.1), s).0,
        frame_from(st, s).1 == frame_from((seq![], st.1), s).1,
    decreases s.len(),
{
    if s.len() == 0 {
        assert(st.0 + Seq::<Seq<u8>>::empty() =~= st.0);
    } else {
        lemma_frame_prefix(st, s.drop_last());
        let inner = frame_from((seq![], st.1), s.drop_last());
        assert((st.0 + inner.0).push(inner.1) =~= st.0 + inner.0.push(inner.1));
    }
}

proof fn lemma_frame_partial(st: (Seq<Seq<u8>>, Seq<u8>), s: Seq<u8>)
    requires
        !has_newline(st.1),
    ensures
        !has_newline(frame_from(st, s).1),
    decreases s.len(),
{
    if s.len() > 0 {
        lemma_frame_partial(st, s.drop_last());
        let p = frame_from(st, s.drop_last()).1;
        if s.last() != NEWLINE {
            assert(!has_newline(p.push(s.last()))) by {
                if has_newline(p.push(s.last())) {
                    let i = choose|i: int| 0 <= i < p.push(s.last()).len() && p.push(s.last())[i] == NEWLINE;
                    assert(i < p.len());
                    assert(p[i] == NEWLINE);
                }
            }
        }
    }
}

// ---------------------------------------------------------------------------
// Line-application lemmas.

proof fn lemma_apply_concat(c: CoreView, l1: Seq<Seq<u8>>, l2: Seq<Seq<u8>>)
    ensures
        ({
            let (c1, o1) = apply_lines(c, l1);
            let (c2, o2) = apply_lines(c1, l2);
            apply_lines(c, l1 + l2) == (c2, o1 + o2)
        }),
    decreases l2.len(),
{
    if l2.len() == 0 {
        assert(l1 + l2 =~= l1);
        let o1 = apply_lines(c, l1).1;
        assert(o1 + Seq::<ChunkView>::empty() =~= o1);
    } else {
        lemma_apply_concat(c, l1, l2.drop_last());
        assert((l1 + l2).drop_last() =~= l1 + l2.drop_last());
        assert((l1 + l2).last() == l2.last());
        let (c1, o1) = apply_lines(c, l1);
        let (cm, om) = apply_lines(c1, l2.drop_last());
        let (c2, o2) = apply_line(cm, l2.last());
        assert(o1 + om + o2 =~= o1 + (om + o2));
    }
}

proof fn lemma_apply_stopped(c: CoreView, lines: Seq<Seq<u8>>)
    requires
        c.phase != Phase::Streaming,
    ensures
        apply_lines(c, lines) == (c, Seq::<ChunkView>::empty()),
    decreases lines.len(),
{
    if lines.len() > 0 {
        lemma_apply_stopped(c, lines.drop_last());
        assert(Seq::<ChunkView>::empty() + Seq::<ChunkView>::empty() =~= Seq::<ChunkView>::empty());
    }
}

proof fn lemma_apply_phase(c: CoreView, lines: Seq<Seq<u8>>, before: Seq<ChunkView>)
    requires
        phase_matches(c.phase, before),
    ensures
        phase_matches(apply_lines(c, lines).0.phase, before + apply_lines(c, lines).1),
    decreases lines.len(),
{
    if lines.len() == 0 {
        assert(before + Seq::<ChunkView>::empty() =~= before);
    } else {
        lemma_apply_phase(c, lines.drop_last(), before);
        let (c1, o1) = apply_lines(c, lines.drop_last());
        let (c2, o2) = apply_line(c1, lines.last());
        let acc = before + o1;
        assert(before + (o1 + o2) =~= acc + o2);
        if c1.phase == Phase::Streaming {
            let all = acc + o2;
            if c2.phase == Phase::Done {
                assert(o2.len() == 1 && o2[0].finished);
                assert forall|i: int| 0 <= i < all.len() - 1 implies !(#[trigger] all[i]).finished by {
                    assert(all[i] == acc[i]);
                }
                assert(all.last() == o2[0]);
            } else {
                assert forall|i: int| 0 <= i < all.len() implies !(#[trigger] all[i]).finished by {
                    if i >= acc.len() {
                        assert(all[i] == o2[i - acc.len()]);
                    }
                }
            }
        } else {
            assert(o2 =~= Seq::<ChunkView>::empty());
            assert(acc + o2 =~= acc);
        }
    }
}

proof fn lemma_push_two(d: DecoderView, a: Seq<u8>, b: Seq<u8>)
    requires
        valid_utf8(a),
        valid_utf8(b),
    ensures
        ({
            let (d1, o1) = push_fragment(d, a);
            let (d2, o2) = push_fragment(d1, b);
            push_fragment(d, a + b) == (d2, o1 + o2)
        }),
{
    vstd::utf8::valid_utf8_concat(a, b);
    let (d1, o1) = push_fragment(d, a);
    let (d2, o2) = push_fragment(d1, b);
    if d.core.phase != Phase::Streaming {
        assert(o1 + o2 =~= Seq::<ChunkView>::empty());
    } else {
        let (la, pa) = frame_from((seq![], d.buf), a);
        let (lb, pb) = frame_from((seq![], pa), b);
        lemma_frame_concat((seq![], d.buf), a, b);
        lemma_frame_prefix((la, pa), b);
        lemma_apply_concat(d.core, la, lb);
        let c1 = apply_lines(d.core, la).0;
        if c1.phase != Phase::Streaming {
            lemma_apply_stopped(c1, lb);
            assert(o1 + o2 =~= o1);
        }
    }
}

proof fn lemma_push_joined(d: DecoderView, frags: Seq<Seq<u8>>)
    requires
        forall|i: int| 0 <= i < frags.len() ==> valid_utf8(#[trigger] frags[i]),
    ensures
        push_fragments(d, frags) == push_fragment(d, joined(frags)),
        valid_utf8(joined(frags)),
    decreases frags.len(),
{
    if frags.len() == 0 {
        let (lines, partial) = frame_from((seq![], d.buf), seq![]);
        assert(lines == Seq::<Seq<u8>>::empty());
        assert(valid_utf8(Seq::<u8>::empty()));
    } else {
        let rest = frags.drop_last();
        assert forall|i: int| 0 <= i < rest.len() implies valid_utf8(#[trigger] rest[i]) by {
            assert(rest[i] == frags[i]);
        }
        lemma_push_joined(d, rest);
        assert(valid_utf8(frags.last())) by {
            assert(frags[frags.len() - 1] == frags.last());
        }
        lemma_push_two(d, joined(rest), frags.last());
        vstd::utf8::valid_utf8_concat(joined(rest), frags.last());
    }
}

/// Decoding is blind to how the transport cut the bytes: fragments that are
/// each valid UTF-8 give the same chunks as their bytes delivered at once.
pub proof fn lemma_split_invariance(frags: Seq<Seq<u8>>)
    requires
        forall|i: int| 0 <= i < frags.len() ==> valid_utf8(#[trigger] frags[i]),
    ensures
        decode_all(frags) == decode_all(seq![joined(frags)]),
{
    lemma_push_joined(initial_decoder(), frags);
    let one = seq![joined(frags)];
    assert(one.drop_last() =~= Seq::<Seq<u8>>::empty());
    assert(one.last() == joined(frags));
    assert(push_fragments(initial_decoder(), one.drop_last()) == (
        initial_decoder(),
        Seq::<ChunkView>::empty(),
    ));
    let (d1, o1) = push_fragment(initial_decoder(), joined(frags));
    assert(Seq::<ChunkView>::empty() + o1 =~= o1);
    assert(push_fragments(initial_decoder(), one) == (d1, o1));
}

proof fn lemma_push_phase(d: DecoderView, frag: Seq<u8>, before: Seq<ChunkView>)
    requires
        phase_matches(d.core.phase, before),
    ensures
        phase_matches(push_fragment(d, frag).0.core.phase, before + push_fragment(d, frag).1),
{
    if d.core.phase != Phase::Streaming || !valid_utf8(frag) {
        assert(before + Seq::<ChunkView>::empty() =~= before);
    } else {
        let (lines, partial) = frame_from((seq![], d.buf), frag);
        lemma_apply_phase(d.core, lines, before);
    }
}

proof fn lemma_push_all_phase(frags: Seq<Seq<u8>>)
    ensures
        phase_matches(
            push_fragments(initial_decoder(), frags).0.core.phase,
            push_fragments(initial_decoder(), frags).1,
        ),
    decreases frags.len(),
{
    if frags.len() == 0 {
        assert(no_terminal(Seq::<ChunkView>::empty()));
    } else {
        lemma_push_all_phase(frags.drop_last());
        let (d1, o1) = push_fragments(initial_decoder(), frags.drop_last());
        lemma_push_phase(d1, frags.last(), o1);
    }
}

/// Whatever the transport delivers before it closes, exactly one chunk is
/// terminal, and it is the last one.
pub proof fn lemma_single_terminal_chunk(frags: Seq<Seq<u8>>)
    ensures
        terminal_once(decode_all(frags)),
{
    lemma_push_all_phase(frags);
    let (d, out) = push_fragments(initial_decoder(), frags);
    let all = out + end_of_stream(d).1;
    if d.core.phase == Phase::Streaming {
        assert forall|i: int| 0 <= i < all.len() - 1 implies !(#[trigger] all[i]).finished by {
            assert(all[i] == out[i]);
        }
    } else {
        assert(all =~= out);
    }
}

/// A transport that closes before the completion marker still ends the
/// response with the terminal chunk, which carries the tool calls and the
/// usage gathered until then.
pub proof fn lemma_end_without_sentinel(frags: Seq<Seq<u8>>)
    requires
        push_fragments(initial_decoder(), frags).0.core.phase == Phase::Streaming,
    ensures
        ({
            let core = push_fragments(initial_decoder(), frags).0.core;
            let out = decode_all(frags);
            &&& out.last() == terminal_chunk(core.frags, core.usage)
            &&& out.len() == push_fragments(initial_decoder(), frags).1.len() + 1
        }),
{
}

/// A `data: ` line whose payload is not an event leaves no trace: the lines
/// around it give the same state and chunks as without it.
pub proof fn lemma_malformed_line_ignored(
    c: CoreView,
    before: Seq<Seq<u8>>,
    bad: Seq<u8>,
    after: Seq<Seq<u8>>,
)
    requires
        payload_of_line(bad) is Some,
        payload_meaning(payload_of_line(bad)->0) == PayloadView::Skip,
    ensures
        apply_lines(c, before + seq![bad] + after) == apply_lines(c, before + after),
{
    lemma_apply_concat(c, before + seq![bad], after);
    lemma_apply_concat(c, before, after);
    let with_bad = before + seq![bad];
    assert(with_bad.drop_last() =~= before);
    assert(with_bad.last() == bad);
    let (c1, o1) = apply_lines(c, before);
    assert(o1 + Seq::<ChunkView>::empty() =~= o1);
}

/// Usage reports replace each other: after two events that carry one each,
/// the state and the terminal chunk hold the second report, not a sum.
pub proof fn lemma_usage_last_wins(c: CoreView, first: Seq<u8>, second: Seq<u8>)
    requires
        c.phase == Phase::Streaming,
        payload_of_line(first) is Some,
        payload_of_line(second) is Some,
        payload_meaning(payload_of_line(first)->0) is Event,
        payload_meaning(payload_of_line(second)->0) is Event,
        payload_meaning(payload_of_line(first)->0)->Event_0.usage is Some,
        payload_meaning(payload_of_line(second)->0)->Event_0.usage is Some,
    ensures
        ({
            let after = apply_lines(c, seq![first, second]).0;
            let u = payload_meaning(payload_of_line(second)->0)->Event_0.usage;
            &&& after.usage == u
            &&& end_of_stream(DecoderView { buf: seq![], core: after }).1 == seq![
                terminal_chunk(after.frags, u),
            ]
        }),
{
    let lines = seq![first, second];
    assert(lines.drop_last() =~= seq![first]);
    assert(seq![first].drop_last() =~= Seq::<Seq<u8>>::empty());
    assert(apply_lines(c, Seq::<Seq<u8>>::empty()).0 == c);
    let c1 = apply_line(c, first).0;
    assert(apply_lines(c, seq![first]).0 == c1);
    assert(c1.phase == Phase::Streaming);
    let c2 = apply_line(c1, second).0;
    assert(apply_lines(c, lines).0 == c2);
}

// ---------------------------------------------------------------------------
// The executable controller.

/// What a transport error does: a response that was still streaming fails,
/// and the failure is reported once.
pub open spec fn transport_error(d: DecoderView) -> (DecoderView, bool) {
    if d.core.phase == Phase::Streaming {
        (DecoderView { buf: seq![], core: CoreView { phase: Phase::Failed, ..d.core } }, true)
    } else {
        (d, false)
    }
}

/// What the consumer's leaving does: the response stops without a terminal
/// chunk, as nobody is left to read it.
pub open spec fn consumer_gone(d: DecoderView) -> DecoderView {
    if d.core.phase == Phase::Streaming {
        DecoderView { buf: seq![], core: CoreView { phase: Phase::Done, ..d.core } }
    } else {
        d
    }
}

/// The state of one streaming response.
#[derive(Debug)]
pub struct StreamDecoder {
    buffer: Vec<u8>,
    tool_calls: ToolCallAccumulator,
    usage: UsageTracker,
    phase: Phase,
}

impl View for StreamDecoder {
    type V = DecoderView;

    closed spec fn view(&self) -> DecoderView {
        DecoderView {
            buf: self.buffer@,
            core: CoreView { frags: self.tool_calls@, usage: self.usage.latest, phase: self.phase },
        }
    }
}

impl StreamDecoder {
    /// The pending bytes hold no complete line, and a response that stopped
    /// keeps none.
    pub closed spec fn wf(&self) -> bool {
        &&& !has_newline(self.buffer@)
        &&& self.phase != Phase::Streaming ==> self.buffer@.len() == 0
    }

    pub fn new() -> (r: Self)
        ensures
            r@ == initial_decoder(),
            r.wf(),
    {
        StreamDecoder {
            buffer: Vec::new(),
            tool_calls: ToolCallAccumulator::new(),
            usage: UsageTracker::new(),
            phase: Phase::Streaming,
        }
    }

    pub fn phase(&self) -> (r: Phase)
        ensures
            r == self@.core.phase,
    {
        self.phase
    }

    /// The latest usage report, kept whatever ended the response.
    pub fn usage(&self) -> (r: Option<Usage>)
        ensures
            r == self@.core.usage,
    {
        self.usage.current()
    }

    fn terminal(&self) -> (r: CompletionChunk)
        ensures
            r@ == terminal_chunk(self@.core.frags, self@.core.usage),
    {
        let tool_calls = if self.tool_calls.is_empty() {
            None
        } else {
            Some(self.tool_calls.finalize())
        };
        CompletionChunk {
            content: String::new(),
            finished: true,
            tool_calls,
            usage: self.usage.current(),
        }
    }

    fn apply_line(&mut self, line: &[u8]) -> (r: Vec<CompletionChunk>)
        requires
            old(self).phase == Phase::Streaming,
        ensures
            (final(self)@.core, chunk_views(r@)) == apply_line(old(self)@.core, line@),
            final(self).buffer == old(self).buffer,
    {
        let mut out: Vec<CompletionChunk> = Vec::new();
        assert(chunk_views(out@) =~= Seq::<ChunkView>::empty());
        let payload = match line_payload(line) {
            Some(p) => p,
            None => return out,
        };
        match decode_payload(payload.as_str()) {
            Payload::Sentinel => {
                let c = self.terminal();
                self.phase = Phase::Done;
                out.push(c);
                assert(chunk_views(out@) =~= seq![c@]);
            },
            Payload::Skip => {},
            Payload::Event(e) => {
                proof {
                    lemma_event_indices(payload@);
                }
                let ghost texts = e.contents@;
                let mut i: usize = 0;
                while i < e.contents.len()
                    invariant
                        0 <= i <= texts.len(),
                        texts == e.contents@,
                        out@.len() == i,
                        chunk_views(out@) =~= text_chunks(texts.subrange(0, i as int)),
                    decreases texts.len() - i,
                {
                    let text = e.contents[i].clone();
                    let chunk = CompletionChunk {
                        content: text,
                        finished: false,
                        tool_calls: None,
                        usage: None,
                    };
                    assert(chunk@ == text_chunk(texts[i as int]));
                    let ghost before = out@;
                    out.push(chunk);
                    assert forall|t: int| 0 <= t <= i implies #[trigger] chunk_views(out@)[t]
                        == text_chunks(texts.subrange(0, i + 1))[t] by {
                        if t < i {
                            assert(out@[t] == before[t]);
                            assert(chunk_views(before)[t] == text_chunks(
                                texts.subrange(0, i as int),
                            )[t]);
                        }
                    }
                    assert(chunk_views(out@) =~= text_chunks(texts.subrange(0, i + 1)));
                    i = i + 1;
                }
                assert(texts.subrange(0, texts.len() as int) =~= texts);
                self.tool_calls.merge_all(e.tool_calls);
                match e.usage {
                    Some(u) => self.usage.observe(u),
                    None => {},
                }
            },
        }
        out
    }

    /// Takes one transport fragment and returns the chunks that its complete
    /// lines produce, in order.
    #[verifier::rlimit(50)]
    pub fn push(&mut self, fragment: &[u8]) -> (r: Vec<CompletionChunk>)
        requires
            old(self).wf(),
        ensures
            final(self).wf(),
            (final(self)@, chunk_views(r@)) == push_fragment(old(self)@, fragment@),
    {
        let mut out: Vec<CompletionChunk> = Vec::new();
        assert(chunk_views(out@) =~= Seq::<ChunkView>::empty());
        if self.phase != Phase::Streaming {
            return out;
        }
        if utf8_text(fragment).is_none() {
            return out;
        }
        let ghost start = self@;
        let ghost full = frame_from((seq![], start.buf), fragment@);
        let mut k: usize = 0;
        while k < fragment.len()
            invariant
                0 <= k <= fragment@.len(),
                self.buffer@ == start.buf + fragment@.subrange(0, k as int),
                self.phase == Phase::Streaming,
                self.tool_calls@ == start.core.frags,
                self.usage.latest == start.core.usage,
            decreases fragment@.len() - k,
        {
            self.buffer.push(fragment[k]);
            assert(self.buffer@ =~= start.buf + fragment@.subrange(0, k + 1));
            k = k + 1;
        }
        proof {
            assert(fragment@.subrange(0, fragment@.len() as int) =~= fragment@);
            lemma_frame_concat((seq![], seq![]), start.buf, fragment@);
            lemma_frame_plain((seq![], seq![]), start.buf);
            assert(Seq::<u8>::empty() + start.buf =~= start.buf);
            assert(Seq::<Seq<u8>>::empty() + frame_from((seq![], seq![]), self.buffer@).0
                =~= frame_from((seq![], seq![]), self.buffer@).0);
        }
        let ghost mut processed: Seq<Seq<u8>> = seq![];
        loop
            invariant_except_break
                self.phase == Phase::Streaming,
                (processed + frame_from((seq![], seq![]), self.buffer@).0, frame_from(
                    (seq![], seq![]),
                    self.buffer@,
                ).1) == full,
            invariant
                (self@.core, chunk_views(out@)) == apply_lines(start.core, processed),
                start.core.phase == Phase::Streaming,
                valid_utf8(fragment@),
                full == frame_from((seq![], start.buf), fragment@),
            ensures
                self.wf(),
                (self@, chunk_views(out@)) == push_fragment(start, fragment@),
            decreases self.buffer@.len(),
        {
            let n = self.buffer.len();
            let mut j: usize = 0;
            while j < n && self.buffer[j] != NEWLINE
                invariant
                    n == self.buffer@.len(),
                    0 <= j <= n,
                    forall|t: int| 0 <= t < j ==> self.buffer@[t] != NEWLINE,
                decreases n - j,
            {
                j = j + 1;
            }
            if j == n {
                proof {
                    assert(!has_newline(self.buffer@));
                    lemma_frame_plain((seq![], seq![]), self.buffer@);
                    assert(Seq::<u8>::empty() + self.buffer@ =~= self.buffer@);
                    assert(processed + Seq::<Seq<u8>>::empty() =~= processed);
                }
                break;
            }
            let ghost whole = self.buffer@;
            let rest = self.buffer.split_off(j + 1);
            self.buffer.truncate(j);
            let mut line = rest;
            core::mem::swap(&mut self.buffer, &mut line);
            proof {
                let head = whole.subrange(0, j as int);
                assert(line@ =~= head);
                assert(whole =~= head + seq![NEWLINE] + self.buffer@);
                assert(!has_newline(head));
                lemma_frame_concat((seq![], seq![]), head + seq![NEWLINE], self.buffer@);
                lemma_frame_concat((seq![], seq![]), head, seq![NEWLINE]);
                lemma_frame_plain((seq![], seq![]), head);
                assert(Seq::<u8>::empty() + head =~= head);
                assert(seq![NEWLINE].drop_last() =~= Seq::<u8>::empty());
                let st0: (Seq<Seq<u8>>, Seq<u8>) = (seq![], head);
                assert(frame_from(st0, Seq::<u8>::empty()) == st0);
                assert(frame_from(st0, seq![NEWLINE]) == frame_byte(st0, NEWLINE));
                assert(Seq::<Seq<u8>>::empty().push(head) =~= seq![head]);
                assert(frame_from(st0, seq![NEWLINE]) == (seq![head], Seq::<u8>::empty()));
                assert(frame_from((seq![], seq![]), whole) == frame_from(
                    (seq![head], seq![]),
                    self.buffer@,
                ));
                lemma_frame_prefix((seq![head], seq![]), self.buffer@);
                assert(processed + (seq![head] + frame_from((seq![], seq![]), self.buffer@).0)
                    =~= processed.push(head) + frame_from((seq![], seq![]), self.buffer@).0);
            }
            let mut chunks = self.apply_line(line.as_slice());
            proof {
                let p2 = processed.push(line@);
                assert(p2.drop_last() =~= processed);
                assert(chunk_views(out@) + chunk_views(chunks@) =~= chunk_views(out@ + chunks@));
                processed = p2;
            }
            out.append(&mut chunks);
            if self.phase != Phase::Streaming {
                proof {
                    let more = frame_from((seq![], seq![]), self.buffer@).0;
                    lemma_apply_concat(start.core, processed, more);
                    lemma_apply_stopped(self@.core, more);
                    assert(chunk_views(out@) + Seq::<ChunkView>::empty() =~= chunk_views(out@));
                }
                self.buffer.clear();
                break;
            }
        }
        out
    }

    /// The transport closed: the terminal chunk, where none went out yet.
    pub fn finish(&mut self) -> (r: Option<CompletionChunk>)
        requires
            old(self).wf(),
        ensures
            final(self).wf(),
            final(self)@ == end_of_stream(old(self)@).0,
            match r {
                Some(c) => end_of_stream(old(self)@).1 == seq![c@],
                None => end_of_stream(old(self)@).1.len() == 0,
            },
    {
        if self.phase != Phase::Streaming {
            return None;
        }
        let c = self.terminal();
        self.phase = Phase::Done;
        self.buffer.clear();
        Some(c)
    }

    /// The transport failed: `true` where the failure is to be reported.
    pub fn fail(&mut self) -> (r: bool)
        requires
            old(self).wf(),
        ensures
            final(self).wf(),
            (final(self)@, r) == transport_error(old(self)@),
    {
        if self.phase != Phase::Streaming {
            return false;
        }
        self.phase = Phase::Failed;
        self.buffer.clear();
        true
    }

    /// The consumer stopped listening.
    pub fn stop(&mut self)
        requires
            old(self).wf(),
        ensures
            final(self).wf(),
            final(self)@ == consumer_gone(old(self)@),
    {
        if self.phase == Phase::Streaming {
            self.phase = Phase::Done;
            self.buffer.clear();
        }
    }
}

/// Decodes a whole response: the fragments in order, then the end of the
/// transport.
pub fn decode_stream(fragments: &Vec<Vec<u8>>) -> (r: Vec<CompletionChunk>)
    ensures
        chunk_views(r@) == decode_all(fragments@.map_values(|f: Vec<u8>| f@)),
{
    let ghost frags = fragments@.map_values(|f: Vec<u8>| f@);
    let mut d = StreamDecoder::new();
    let mut out: Vec<CompletionChunk> = Vec::new();
    let mut i: usize = 0;
    assert(chunk_views(out@) =~= Seq::<ChunkView>::empty());
    while i < fragments.len()
        invariant
            0 <= i <= fragments@.len(),
            frags == fragments@.map_values(|f: Vec<u8>| f@),
            d.wf(),
            (d@, chunk_views(out@)) == push_fragments(initial_decoder(), frags.subrange(0, i as int)),
        decreases fragments@.len() - i,
    {
        let mut chunks = d.push(fragments[i].as_slice());
        proof {
            assert(frags.subrange(0, i + 1).drop_last() =~= frags.subrange(0, i as int));
            assert(frags.subrange(0, i + 1).last() == fragments@[i as int]@);
            assert(chunk_views(out@) + chunk_views(chunks@) =~= chunk_views(out@ + chunks@));
        }
        out.append(&mut chunks);
        i = i + 1;
    }
    assert(frags.subrange(0, fragments@.len() as int) =~= frags);
    let ghost before = out@;
    match d.finish() {
        Some(c) => {
            out.push(c);
            assert(chunk_views(out@) =~= chunk_views(before) + seq![c@]);
        },
        None => {
            assert(chunk_views(out@) =~= chunk_views(before) + Seq::<ChunkView>::empty());
        },
    }
    out
}

} // verus!
