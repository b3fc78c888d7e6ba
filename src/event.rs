//! Decoding of one event line: the `data: ` framing, the completion marker,
//! and the delta payload that an event carries.
use vstd::prelude::*;
use vstd::utf8::{decode_utf8, valid_utf8};
use crate::json::{Json, field, get_field, integer_of, parse_json, parse_u64, parsed_json};

verus! {

/// Token counts that the server reports; each report holds running totals.
#[derive(Debug, Clone, Copy, PartialEq, Eq, Structural)]
pub struct Usage {
    pub prompt_tokens: u32,
    pub completion_tokens: u32,
    pub total_tokens: u32,
}

/// A piece of one tool call, addressed by its position in the response.
#[derive(Debug)]
pub struct ToolCallDelta {
    pub index: usize,
    pub id: Option<String>,
    pub name: Option<String>,
    pub arguments: Option<String>,
}

/// The content of one event: the text of each choice that carries text, the
/// tool-call pieces of all choices in order, and the usage report if any.
#[derive(Debug)]
pub struct DeltaEvent {
    pub contents: Vec<String>,
    pub tool_calls: Vec<ToolCallDelta>,
    pub usage: Option<Usage>,
}

pub struct DeltaView {
    pub contents: Seq<String>,
    pub tool_calls: Seq<ToolCallDelta>,
    pub usage: Option<Usage>,
}

impl View for DeltaEvent {
    type V = DeltaView;

    open spec fn view(&self) -> DeltaView {
        DeltaView { contents: self.contents@, tool_calls: self.tool_calls@, usage: self.usage }
    }
}

/// What a line of the stream carries once it has been decoded.
#[derive(Debug)]
pub enum Payload {
    Sentinel,
    Event(DeltaEvent),
    Skip,
}

// ---------------------------------------------------------------------------
// The expected shape of an event, over `Json`. `None` means that the document
// does not have that shape; an absent or `null` optional member is `Some(None)`.

pub open spec fn opt_string(j: Json, key: Seq<char>) -> Option<Option<String>> {
    match field(j, key) {
        None => Some(None),
        Some(Json::Str(s)) => Some(Some(s)),
        Some(_) => None,
    }
}

pub open spec fn count_of(j: Json, key: Seq<char>) -> Option<u32> {
    match field(j, key) {
        Some(Json::Number(t)) => match integer_of(t@) {
            Some(n) => if n <= u32::MAX {
                Some(n as u32)
            } else {
                None
            },
            None => None,
        },
        _ => None,
    }
}

pub open spec fn usage_of(j: Json) -> Option<Option<Usage>> {
    match field(j, "usage"@) {
        None => Some(None),
        Some(u) => match (
            count_of(u, "prompt_tokens"@),
            count_of(u, "completion_tokens"@),
            count_of(u, "total_tokens"@),
        ) {
            (Some(p), Some(c), Some(t)) => Some(
                Some(Usage { prompt_tokens: p, completion_tokens: c, total_tokens: t }),
            ),
            _ => None,
        },
    }
}

pub open spec fn index_of(j: Json) -> Option<Option<usize>> {
    match field(j, "index"@) {
        None => Some(None),
        Some(Json::Number(t)) => match integer_of(t@) {
            Some(n) => if n < usize::MAX {
                Some(Some(n as usize))
            } else {
                None
            },
            None => None,
        },
        Some(_) => None,
    }
}

/// The `name` and `arguments` of a tool call's `function` member.
pub open spec fn function_of(j: Json) -> Option<(Option<String>, Option<String>)> {
    match field(j, "function"@) {
        None => Some((None, None)),
        Some(f) => if f is Object {
            match (opt_string(f, "name"@), opt_string(f, "arguments"@)) {
                (Some(n), Some(a)) => Some((n, a)),
                _ => None,
            }
        } else {
            None
        },
    }
}

/// One element of `tool_calls`; an element without `index` carries nothing.
pub open spec fn tool_delta_of(j: Json) -> Option<Seq<ToolCallDelta>> {
    if j is Object {
        match (index_of(j), opt_string(j, "id"@), function_of(j)) {
            (Some(idx), Some(id), Some(fun)) => Some(
                match idx {
                    Some(i) => seq![
                        ToolCallDelta { index: i, id: id, name: fun.0, arguments: fun.1 },
                    ],
                    None => seq![],
                },
            ),
            _ => None,
        }
    } else {
        None
    }
}

pub open spec fn tool_deltas_of(items: Seq<Json>) -> Option<Seq<ToolCallDelta>>
    decreases items.len(),
{
    if items.len() == 0 {
        Some(seq![])
    } else {
        match (tool_deltas_of(items.drop_last()), tool_delta_of(items.last())) {
            (Some(a), Some(b)) => Some(a + b),
            _ => None,
        }
    }
}

/// One element of `choices`: the text it carries and its tool-call pieces.
/// A choice without `delta` carries nothing.
pub open spec fn choice_of(c: Json) -> Option<(Seq<String>, Seq<ToolCallDelta>)> {
    if c is Object {
        match field(c, "delta"@) {
            None => Some((seq![], seq![])),
            Some(d) => if d is Object {
                match opt_string(d, "content"@) {
                    None => None,
                    Some(content) => {
                        let texts = match content {
                            Some(s) => seq![s],
                            None => seq![],
                        };
                        match field(d, "tool_calls"@) {
                            None => Some((texts, seq![])),
                            Some(Json::Array(a)) => match tool_deltas_of(a@) {
                                Some(ds) => Some((texts, ds)),
                                None => None,
                            },
                            Some(_) => None,
                        }
                    },
                }
            } else {
                None
            },
        }
    } else {
        None
    }
}

pub open spec fn choices_of(cs: Seq<Json>) -> Option<(Seq<String>, Seq<ToolCallDelta>)>
    decreases cs.len(),
{
    if cs.len() == 0 {
        Some((seq![], seq![]))
    } else {
        match (choices_of(cs.drop_last()), choice_of(cs.last())) {
            (Some(a), Some(b)) => Some((a.0 + b.0, a.1 + b.1)),
            _ => None,
        }
    }
}

/// The event that a JSON document describes, if it has the shape of one.
pub open spec fn event_of(j: Json) -> Option<DeltaView> {
    if j is Object {
        match (field(j, "choices"@), usage_of(j)) {
            (Some(Json::Array(cs)), Some(usage)) => match choices_of(cs@) {
                Some(parts) => Some(DeltaView { contents: parts.0, tool_calls: parts.1, usage }),
                None => None,
            },
            _ => None,
        }
    } else {
        None
    }
}

// ---------------------------------------------------------------------------
// Reading that shape out of a `Json`.

fn read_opt_string(j: &Json, key: &str) -> (r: Option<Option<String>>)
    ensures
        r == opt_string(*j, key@),
{
    match get_field(j, key) {
        None => Some(None),
        Some(Json::Str(s)) => Some(Some(s.clone())),
        Some(_) => None,
    }
}

pub(crate) fn read_count(j: &Json, key: &str) -> (r: Option<u32>)
    ensures
        r == count_of(*j, key@),
{
    match get_field(j, key) {
        Some(Json::Number(t)) => match parse_u64(t.as_str()) {
            Some(v) => if v <= u32::MAX as u64 {
                Some(v as u32)
            } else {
                None
            },
            None => None,
        },
        _ => None,
    }
}

fn read_usage(j: &Json) -> (r: Option<Option<Usage>>)
    ensures
        r == usage_of(*j),
{
    match get_field(j, "usage") {
        None => Some(None),
        Some(u) => {
            let p = read_count(u, "prompt_tokens");
            let c = read_count(u, "completion_tokens");
            let t = read_count(u, "total_tokens");
            match (p, c, t) {
                (Some(p), Some(c), Some(t)) => Some(
                    Some(Usage { prompt_tokens: p, completion_tokens: c, total_tokens: t }),
                ),
                _ => None,
            }
        },
    }
}

fn read_index(j: &Json) -> (r: Option<Option<usize>>)
    ensures
        r == index_of(*j),
{
    match get_field(j, "index") {
        None => Some(None),
        Some(Json::Number(t)) => match parse_u64(t.as_str()) {
            Some(v) => if v < usize::MAX as u64 {
                Some(Some(v as usize))
            } else {
                None
            },
            None => None,
        },
        Some(_) => None,
    }
}

fn read_function(j: &Json) -> (r: Option<(Option<String>, Option<String>)>)
    ensures
        r == function_of(*j),
{
    match get_field(j, "function") {
        None => Some((None, None)),
        Some(f) => {
            if let Json::Object(_) = f {
                match (read_opt_string(f, "name"), read_opt_string(f, "arguments")) {
                    (Some(n), Some(a)) => Some((n, a)),
                    _ => None,
                }
            } else {
                None
            }
        },
    }
}

fn read_tool_delta(j: &Json) -> (r: Option<Option<ToolCallDelta>>)
    ensures
        match tool_delta_of(*j) {
            None => r is None,
            Some(s) => r is Some && match r->0 {
                Some(d) => s == seq![d],
                None => s.len() == 0,
            },
        },
{
    if let Json::Object(_) = j {
        match (read_index(j), read_opt_string(j, "id"), read_function(j)) {
            (Some(idx), Some(id), Some(fun)) => match idx {
                Some(i) => Some(
                    Some(ToolCallDelta { index: i, id: id, name: fun.0, arguments: fun.1 }),
                ),
                None => Some(None),
            },
            _ => None,
        }
    } else {
        None
    }
}

fn read_tool_deltas(items: &Vec<Json>) -> (r: Option<Vec<ToolCallDelta>>)
    ensures
        match tool_deltas_of(items@) {
            None => r is None,
            Some(s) => r is Some && r->0@ == s,
        },
{
    let mut acc: Vec<ToolCallDelta> = Vec::new();
    let mut ok = true;
    let mut i: usize = 0;
    while i < items.len()
        invariant
            0 <= i <= items@.len(),
            ok ==> tool_deltas_of(items@.subrange(0, i as int)) == Some(acc@),
            !ok ==> tool_deltas_of(items@.subrange(0, i as int)) is None,
        decreases items@.len() - i,
    {
        let ghost prefix = items@.subrange(0, i + 1);
        assert(prefix.drop_last() =~= items@.subrange(0, i as int));
        assert(prefix.last() == items@[i as int]);
        if ok {
            match read_tool_delta(&items[i]) {
                None => {
                    ok = false;
                },
                Some(Some(d)) => {
                    let ghost before = acc@;
                    acc.push(d);
                    assert(acc@ =~= before + seq![d]);
                },
                Some(None) => {
                    assert(acc@ =~= acc@ + Seq::<ToolCallDelta>::empty());
                },
            }
        }
        i = i + 1;
    }
    assert(items@.subrange(0, items@.len() as int) =~= items@);
    if ok {
        Some(acc)
    } else {
        None
    }
}

fn read_choice(c: &Json) -> (r: Option<(Option<String>, Vec<ToolCallDelta>)>)
    ensures
        match choice_of(*c) {
            None => r is None,
            Some(parts) => match r {
                Some((text, ds)) => parts.1 == ds@ && match text {
                    Some(s) => parts.0 == seq![s],
                    None => parts.0.len() == 0,
                },
                None => false,
            },
        },
{
    if let Json::Object(_) = c {
        match get_field(c, "delta") {
            None => Some((None, Vec::new())),
            Some(d) => {
                if let Json::Object(_) = d {
                    match read_opt_string(d, "content") {
                        None => None,
                        Some(content) => match get_field(d, "tool_calls") {
                            None => Some((content, Vec::new())),
                            Some(Json::Array(a)) => match read_tool_deltas(a) {
                                Some(ds) => Some((content, ds)),
                                None => None,
                            },
                            Some(_) => None,
                        },
                    }
                } else {
                    None
                }
            },
        }
    } else {
        None
    }
}

/// Reads the event that a JSON document describes; `None` where the document
/// does not have the shape of one.
pub fn decode_event(j: &Json) -> (r: Option<DeltaEvent>)
    ensures
        match event_of(*j) {
            None => r is None,
            Some(e) => r is Some && r->0@ == e,
        },
{
    if let Json::Object(_) = j {
        let usage = match read_usage(j) {
            Some(u) => u,
            None => return None,
        };
        let cs = match get_field(j, "choices") {
            Some(Json::Array(cs)) => cs,
            _ => return None,
        };
        let mut contents: Vec<String> = Vec::new();
        let mut tools: Vec<ToolCallDelta> = Vec::new();
        let mut i: usize = 0;
        while i < cs.len()
            invariant
                0 <= i <= cs@.len(),
                choices_of(cs@.subrange(0, i as int)) == Some((contents@, tools@)),
                *j is Object,
                field(*j, "choices"@) == Some(Json::Array(*cs)),
                usage_of(*j) == Some(usage),
            decreases cs@.len() - i,
        {
            let ghost prefix = cs@.subrange(0, i + 1);
            assert(prefix.drop_last() =~= cs@.subrange(0, i as int));
            assert(prefix.last() == cs@[i as int]);
            match read_choice(&cs[i]) {
                None => {
                    proof {
                        lemma_choices_fail(cs@, i as int + 1);
                    }
                    return None;
                },
                Some((content, mut ds)) => {
                    let ghost before = contents@;
                    match content {
                        Some(s) => {
                            contents.push(s);
                            assert(contents@ =~= before + seq![s]);
                        },
                        None => {
                            assert(contents@ =~= before + Seq::<String>::empty());
                        },
                    }
                    tools.append(&mut ds);
                },
            }
            i = i + 1;
        }
        assert(cs@.subrange(0, cs@.len() as int) =~= cs@);
        Some(DeltaEvent { contents, tool_calls: tools, usage })
    } else {
        None
    }
}

proof fn lemma_choices_fail(cs: Seq<Json>, k: int)
    requires
        0 <= k <= cs.len(),
        choices_of(cs.subrange(0, k)) is None,
    ensures
        choices_of(cs) is None,
    decreases cs.len() - k,
{
    if k < cs.len() {
        assert(cs.subrange(0, k + 1).drop_last() =~= cs.subrange(0, k));
        lemma_choices_fail(cs, k + 1);
    } else {
        assert(cs.subrange(0, k) =~= cs);
    }
}

// ---------------------------------------------------------------------------
// Lines and payloads.

/// The characters that `char::is_whitespace` accepts: Unicode's White_Space.
pub open spec fn is_white_space(c: char) -> bool {
    ('\u{9}' <= c && c <= '\u{d}') || c == ' ' || c == '\u{85}' || c == '\u{a0}' || c
        == '\u{1680}' || ('\u{2000}' <= c && c <= '\u{200a}') || c == '\u{2028}' || c
        == '\u{2029}' || c == '\u{202f}' || c == '\u{205f}' || c == '\u{3000}'
}

pub open spec fn trim_start_ws(s: Seq<char>) -> Seq<char>
    decreases s.len(),
{
    if s.len() > 0 && is_white_space(s[0]) {
        trim_start_ws(s.drop_first())
    } else {
        s
    }
}

pub open spec fn trim_end_ws(s: Seq<char>) -> Seq<char>
    decreases s.len(),
{
    if s.len() > 0 && is_white_space(s.last()) {
        trim_end_ws(s.drop_last())
    } else {
        s
    }
}

/// A text without its leading and trailing white space.
pub open spec fn trimmed(s: Seq<char>) -> Seq<char> {
    trim_end_ws(trim_start_ws(s))
}

pub open spec fn has_prefix(t: Seq<char>, p: Seq<char>) -> bool {
    p.len() <= t.len() && t.subrange(0, p.len() as int) == p
}

/// The payload of a line: its text, trimmed, after the `data: ` prefix. A
/// line that is not UTF-8 or lacks the prefix has none.
pub open spec fn payload_of_line(line: Seq<u8>) -> Option<Seq<char>> {
    if valid_utf8(line) {
        let t = trimmed(decode_utf8(line));
        if has_prefix(t, "data: "@) {
            Some(t.subrange("data: "@.len() as int, t.len() as int))
        } else {
            None
        }
    } else {
        None
    }
}

pub enum PayloadView {
    Sentinel,
    Event(DeltaView),
    Skip,
}

impl View for Payload {
    type V = PayloadView;

    open spec fn view(&self) -> PayloadView {
        match self {
            Payload::Sentinel => PayloadView::Sentinel,
            Payload::Event(e) => PayloadView::Event(e@),
            Payload::Skip => PayloadView::Skip,
        }
    }
}

/// What a payload means: the completion marker, an event, or nothing usable.
pub open spec fn payload_meaning(p: Seq<char>) -> PayloadView {
    if p == "[DONE]"@ {
        PayloadView::Sentinel
    } else {
        match parsed_json(p) {
            Some(j) => match event_of(j) {
                Some(e) => PayloadView::Event(e),
                None => PayloadView::Skip,
            },
            None => PayloadView::Skip,
        }
    }
}

/// Relies on `std::str::from_utf8`: it accepts exactly the valid UTF-8 byte
/// strings, and its text is what they encode.
#[verifier::external_body]
pub(crate) fn utf8_text(bytes: &[u8]) -> (r: Option<&str>)
    ensures
        r is Some <==> valid_utf8(bytes@),
        r is Some ==> r->0@ == decode_utf8(bytes@),
{
    std::str::from_utf8(bytes).ok()
}

/// Relies on `str::trim`: leading and trailing White_Space characters removed.
#[verifier::external_body]
fn trim_text<'a>(s: &'a str) -> (r: &'a str)
    ensures
        r@ == trimmed(s@),
{
    s.trim()
}

fn starts_with_text(t: &str, p: &str) -> (r: bool)
    ensures
        r == has_prefix(t@, p@),
{
    let n = t.unicode_len();
    let m = p.unicode_len();
    if m > n {
        return false;
    }
    let mut i: usize = 0;
    while i < m
        invariant
            n == t@.len(),
            m == p@.len(),
            m <= n,
            0 <= i <= m,
            forall|k: int| 0 <= k < i ==> t@[k] == p@[k],
        decreases m - i,
    {
        if t.get_char(i) != p.get_char(i) {
            assert(t@.subrange(0, m as int)[i as int] != p@[i as int]);
            return false;
        }
        i = i + 1;
    }
    assert(t@.subrange(0, m as int) =~= p@);
    true
}

fn same_text(a: &str, b: &str) -> (r: bool)
    ensures
        r == (a@ == b@),
{
    proof {
        assert(a@.subrange(0, a@.len() as int) =~= a@);
    }
    let r = starts_with_text(a, b) && a.unicode_len() == b.unicode_len();
    proof {
        if r {
            assert(a@ =~= a@.subrange(0, b@.len() as int));
        }
    }
    r
}

/// The payload of one line of the stream, if it has one.
pub fn line_payload(line: &[u8]) -> (r: Option<String>)
    ensures
        match payload_of_line(line@) {
            None => r is None,
            Some(p) => r is Some && r->0@ == p,
        },
{
    match utf8_text(line) {
        None => None,
        Some(text) => {
            let t = trim_text(text);
            let prefix = "data: ";
            if starts_with_text(t, prefix) {
                let n = t.unicode_len();
                let rest = t.substring_char(prefix.unicode_len(), n);
                Some(rest.to_owned())
            } else {
                None
            }
        },
    }
}

/// Decodes the payload of a `data: ` line. A payload that is not a JSON
/// document of the event's shape is skipped.
pub fn decode_payload(payload: &str) -> (r: Payload)
    ensures
        r@ == payload_meaning(payload@),
{
    if same_text(payload, "[DONE]") {
        return Payload::Sentinel;
    }
    match parse_json(payload) {
        None => Payload::Skip,
        Some(j) => match decode_event(&j) {
            Some(e) => Payload::Event(e),
            None => Payload::Skip,
        },
    }
}

pub open spec fn indices_in_range(ds: Seq<ToolCallDelta>) -> bool {
    forall|i: int| 0 <= i < ds.len() ==> #[trigger] ds[i].index < usize::MAX
}

proof fn lemma_tool_deltas_in_range(items: Seq<Json>)
    requires
        tool_deltas_of(items) is Some,
    ensures
        indices_in_range(tool_deltas_of(items)->0),
    decreases items.len(),
{
    if items.len() > 0 {
        lemma_tool_deltas_in_range(items.drop_last());
    }
}

proof fn lemma_choices_in_range(cs: Seq<Json>)
    requires
        choices_of(cs) is Some,
    ensures
        ({
            let (texts, ds) = choices_of(cs)->0;
            indices_in_range(ds)
        }),
    decreases cs.len(),
{
    if cs.len() > 0 {
        lemma_choices_in_range(cs.drop_last());
        let c = cs.last();
        if let Some(d) = field(c, "delta"@) {
            if let Some(Json::Array(a)) = field(d, "tool_calls"@) {
                if tool_deltas_of(a@) is Some {
                    lemma_tool_deltas_in_range(a@);
                }
            }
        }
    }
}

/// Every tool-call position that an event carries leaves room for one more.
pub proof fn lemma_event_indices(p: Seq<char>)
    requires
        payload_meaning(p) is Event,
    ensures
        indices_in_range(payload_meaning(p)->Event_0.tool_calls),
{
    let j = parsed_json(p)->0;
    if let Some(Json::Array(cs)) = field(j, "choices"@) {
        lemma_choices_in_range(cs@);
    }
}

} // verus!
