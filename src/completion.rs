//! The answer of a non-streaming request: one JSON document.
use vstd::prelude::*;
use crate::event::{Usage, count_of, opt_string, read_count};
use crate::json::{Json, field, get_field, parse_json, parsed_json};

verus! {

/// The text and token counts of a completed request.
#[derive(Debug, PartialEq)]
pub struct CompletionResponse {
    pub content: String,
    pub usage: Usage,
    pub model: String,
}

pub open spec fn string_member_is_text(j: Json, key: Seq<char>) -> bool {
    field(j, key) is Some && field(j, key)->0 is Str
}

/// A tool call of a message: an object with a text `id` and a `function`
/// object with a text `name` and `arguments`.
pub open spec fn tool_call_fits(t: Json) -> bool {
    &&& t is Object
    &&& string_member_is_text(t, "id"@)
    &&& field(t, "function"@) is Some
    &&& field(t, "function"@)->0 is Object
    &&& string_member_is_text(field(t, "function"@)->0, "name"@)
    &&& string_member_is_text(field(t, "function"@)->0, "arguments"@)
}

pub open spec fn all_tool_calls_fit(ts: Seq<Json>) -> bool {
    forall|i: int| 0 <= i < ts.len() ==> tool_call_fits(#[trigger] ts[i])
}

/// A message: an object with an optional text `content` and optional
/// `tool_calls` that fit.
pub open spec fn message_fits(m: Json) -> bool {
    &&& m is Object
    &&& opt_string(m, "content"@) is Some
    &&& match field(m, "tool_calls"@) {
        None => true,
        Some(Json::Array(ts)) => all_tool_calls_fit(ts@),
        Some(_) => false,
    }
}

/// A choice: an object with a `message` that fits.
pub open spec fn choice_fits(c: Json) -> bool {
    &&& c is Object
    &&& field(c, "message"@) is Some
    &&& message_fits(field(c, "message"@)->0)
}

pub open spec fn response_usage(j: Json) -> Option<Usage> {
    match field(j, "usage"@) {
        Some(u) => match (
            count_of(u, "prompt_tokens"@),
            count_of(u, "completion_tokens"@),
            count_of(u, "total_tokens"@),
        ) {
            (Some(p), Some(c), Some(t)) => Some(
                Usage { prompt_tokens: p, completion_tokens: c, total_tokens: t },
            ),
            _ => None,
        },
        None => None,
    }
}

/// The text and usage that a response document gives: the content of the
/// first choice (empty where it has none) and the required usage report.
pub open spec fn completion_of(j: Json) -> Option<(Seq<char>, Usage)> {
    if j is Object {
        match (field(j, "choices"@), response_usage(j)) {
            (Some(Json::Array(cs)), Some(u)) => if forall|i: int|
                0 <= i < cs@.len() ==> choice_fits(#[trigger] cs@[i]) {
                let content = if cs@.len() == 0 {
                    Seq::empty()
                } else {
                    match opt_string(field(cs@[0], "message"@)->0, "content"@)->0 {
                        Some(s) => s@,
                        None => Seq::empty(),
                    }
                };
                Some((content, u))
            } else {
                None
            },
            _ => None,
        }
    } else {
        None
    }
}

fn is_text_member(j: &Json, key: &str) -> (r: bool)
    ensures
        r == string_member_is_text(*j, key@),
{
    match get_field(j, key) {
        Some(Json::Str(_)) => true,
        _ => false,
    }
}

fn tool_call_ok(t: &Json) -> (r: bool)
    ensures
        r == tool_call_fits(*t),
{
    if let Json::Object(_) = t {
        if !is_text_member(t, "id") {
            return false;
        }
        match get_field(t, "function") {
            Some(f) => {
                if let Json::Object(_) = f {
                    is_text_member(f, "name") && is_text_member(f, "arguments")
                } else {
                    false
                }
            },
            None => false,
        }
    } else {
        false
    }
}

fn tool_calls_ok(ts: &Vec<Json>) -> (r: bool)
    ensures
        r == all_tool_calls_fit(ts@),
{
    let mut i: usize = 0;
    while i < ts.len()
        invariant
            0 <= i <= ts@.len(),
            forall|k: int| 0 <= k < i ==> tool_call_fits(#[trigger] ts@[k]),
        decreases ts@.len() - i,
    {
        if !tool_call_ok(&ts[i]) {
            assert(!tool_call_fits(ts@[i as int]));
            return false;
        }
        i = i + 1;
    }
    true
}

fn message_ok(m: &Json) -> (r: bool)
    ensures
        r == message_fits(*m),
{
    if let Json::Object(_) = m {
        let content_ok = match get_field(m, "content") {
            None => true,
            Some(Json::Str(_)) => true,
            Some(_) => false,
        };
        content_ok && match get_field(m, "tool_calls") {
            None => true,
            Some(Json::Array(ts)) => tool_calls_ok(ts),
            Some(_) => false,
        }
    } else {
        false
    }
}

fn choice_ok(c: &Json) -> (r: bool)
    ensures
        r == choice_fits(*c),
{
    if let Json::Object(_) = c {
        match get_field(c, "message") {
            Some(m) => message_ok(m),
            None => false,
        }
    } else {
        false
    }
}

/// Reads a response document: the first choice's content and the usage
/// report, or `None` where the document does not have a response's shape.
pub fn decode_completion(j: &Json, model: &String) -> (r: Option<CompletionResponse>)
    ensures
        match completion_of(*j) {
            None => r is None,
            Some((content, usage)) => r is Some && r->0.content@ == content && r->0.usage
                == usage && r->0.model == *model,
        },
{
    if let Json::Object(_) = j {
        let usage = match get_field(j, "usage") {
            Some(u) => match (
                read_count(u, "prompt_tokens"),
                read_count(u, "completion_tokens"),
                read_count(u, "total_tokens"),
            ) {
                (Some(p), Some(c), Some(t)) => Usage {
                    prompt_tokens: p,
                    completion_tokens: c,
                    total_tokens: t,
                },
                _ => return None,
            },
            None => return None,
        };
        let cs = match get_field(j, "choices") {
            Some(Json::Array(cs)) => cs,
            _ => return None,
        };
        let mut i: usize = 0;
        while i < cs.len()
            invariant
                0 <= i <= cs@.len(),
                forall|k: int| 0 <= k < i ==> choice_fits(#[trigger] cs@[k]),
                *j is Object,
                field(*j, "choices"@) == Some(Json::Array(*cs)),
                response_usage(*j) == Some(usage),
            decreases cs@.len() - i,
        {
            if !choice_ok(&cs[i]) {
                assert(!choice_fits(cs@[i as int]));
                return None;
            }
            i = i + 1;
        }
        let content = if cs.len() == 0 {
            String::new()
        } else {
            match get_field(&cs[0], "message") {
                Some(m) => match get_field(m, "content") {
                    Some(Json::Str(s)) => s.clone(),
                    _ => String::new(),
                },
                None => String::new(),
            }
        };
        Some(CompletionResponse { content, usage, model: model.clone() })
    } else {
        None
    }
}

/// Reads the text of a response: `None` where it is not a JSON document of a
/// response's shape.
pub fn parse_completion(body: &str, model: &String) -> (r: Option<CompletionResponse>)
    ensures
        match parsed_json(body@) {
            None => r is None,
            Some(j) => match completion_of(j) {
                None => r is None,
                Some((content, usage)) => r is Some && r->0.content@ == content && r->0.usage
                    == usage && r->0.model == *model,
            },
        },
{
    match parse_json(body) {
        Some(j) => decode_completion(&j, model),
        None => None,
    }
}

} // verus!
