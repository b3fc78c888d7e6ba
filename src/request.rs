//! Request bodies for the chat-completion endpoint.
use vstd::prelude::*;
use crate::json::{Json, field, integer_of, lemma_member_push, member};

verus! {

#[derive(Debug, Clone, Copy, PartialEq, Eq, Structural)]
pub enum MessageRole {
    System,
    User,
    Assistant,
}

#[derive(Debug)]
pub struct Message {
    pub role: MessageRole,
    pub content: String,
}

impl Message {
    pub fn new(role: MessageRole, content: String) -> (r: Self)
        ensures
            r.role == role,
            r.content == content,
    {
        Message { role, content }
    }
}

/// A tool that the model may call, with the JSON schema of its input.
#[derive(Debug)]
pub struct Tool {
    pub name: String,
    pub description: String,
    pub input_schema: Json,
}

/// How the router picks among the providers that serve a model.
#[derive(Debug, Clone)]
pub struct ProviderPreferences {
    pub order: Option<Vec<String>>,
    pub allow_fallbacks: Option<bool>,
    pub require_parameters: Option<bool>,
}

/// What of a provider's configuration goes into a request body.
#[derive(Debug, Clone)]
pub struct RequestSettings {
    pub model: String,
    pub max_tokens: Option<u32>,
    pub provider_preferences: Option<ProviderPreferences>,
}

pub open spec fn role_name(r: MessageRole) -> Seq<char> {
    match r {
        MessageRole::System => "system"@,
        MessageRole::User => "user"@,
        MessageRole::Assistant => "assistant"@,
    }
}

pub open spec fn is_text(j: Json, t: Seq<char>) -> bool {
    j is Str && j->Str_0@ == t
}

pub open spec fn field_is_text(j: Json, key: Seq<char>, t: Seq<char>) -> bool {
    field(j, key) is Some && is_text(field(j, key)->0, t)
}

pub open spec fn field_is_count(j: Json, key: Seq<char>, n: nat) -> bool {
    field(j, key) is Some && field(j, key)->0 is Number && integer_of(
        field(j, key)->0->Number_0@,
    ) == Some(n)
}

/// An object whose member names are exactly `keys`, in that order.
pub open spec fn has_keys(j: Json, keys: Seq<Seq<char>>) -> bool {
    &&& j is Object
    &&& j->Object_0@.len() == keys.len()
    &&& forall|i: int| 0 <= i < keys.len() ==> (#[trigger] j->Object_0@[i]).0@ == keys[i]
}

/// A JSON array of texts, element for element.
pub open spec fn is_text_array(j: Json, texts: Seq<String>) -> bool {
    &&& j is Array
    &&& j->Array_0@.len() == texts.len()
    &&& forall|i: int| 0 <= i < texts.len() ==> is_text(#[trigger] j->Array_0@[i], texts[i]@)
}

/// Relies on `u32`'s `to_string`: the decimal digits of the value.
#[verifier::external_body]
fn decimal_text(n: u32) -> (r: String)
    ensures
        integer_of(r@) == Some(n as nat),
{
    n.to_string()
}

fn push_member(m: &mut Vec<(String, Json)>, key: &str, value: Json)
    ensures
        final(m)@.len() == old(m)@.len() + 1,
        final(m)@.last().0@ == key@,
        final(m)@.last().1 == value,
        final(m)@.drop_last() == old(m)@,
        forall|k: Seq<char>|
            #[trigger] member(final(m)@, k) == (if (member(old(m)@, k) is Some) {
                member(old(m)@, k)
            } else if key@ == k {
                Some(value)
            } else {
                None
            }),
{
    let name = String::from_str(key);
    let ghost before = m@;
    proof {
        assert forall|k: Seq<char>| #[trigger]
            member(before.push((name, value)), k) == (if (member(before, k) is Some) {
                member(before, k)
            } else if name@ == k {
                Some(value)
            } else {
                None
            }) by {
            lemma_member_push(before, name, value, k);
        }
    }
    m.push((name, value));
    assert(m@.drop_last() =~= before);
}

fn text(s: &String) -> (r: Json)
    ensures
        is_text(r, s@),
{
    Json::Str(s.clone())
}

/// `j` is the JSON object of the preferences `p`: one member for each set
/// preference, none for an unset one.
pub open spec fn describes_preferences(j: Json, p: ProviderPreferences) -> bool {
    &&& j is Object
    &&& j->Object_0@.len() == (if p.order is Some {
        1int
    } else {
        0
    }) + (if p.allow_fallbacks is Some {
        1int
    } else {
        0
    }) + (if p.require_parameters is Some {
        1int
    } else {
        0
    })
    &&& match p.order {
        Some(o) => field(j, "order"@) is Some && is_text_array(field(j, "order"@)->0, o@),
        None => field(j, "order"@) is None,
    }
    &&& match p.allow_fallbacks {
        Some(b) => field(j, "allow_fallbacks"@) == Some(Json::Bool(b)),
        None => field(j, "allow_fallbacks"@) is None,
    }
    &&& match p.require_parameters {
        Some(b) => field(j, "require_parameters"@) == Some(Json::Bool(b)),
        None => field(j, "require_parameters"@) is None,
    }
}

/// `j` is the JSON object of a message: its role's name and its text.
pub open spec fn describes_message(j: Json, m: Message) -> bool {
    &&& has_keys(j, seq!["role"@, "content"@])
    &&& field_is_text(j, "role"@, role_name(m.role))
    &&& field_is_text(j, "content"@, m.content@)
}

/// `j` is the JSON object of a tool: a function with the tool's name,
/// description and input schema as parameters.
pub open spec fn describes_tool(j: Json, t: Tool) -> bool {
    &&& has_keys(j, seq!["type"@, "function"@])
    &&& field_is_text(j, "type"@, "function"@)
    &&& field(j, "function"@) is Some
    &&& {
        let f = field(j, "function"@)->0;
        &&& has_keys(f, seq!["name"@, "description"@, "parameters"@])
        &&& field_is_text(f, "name"@, t.name@)
        &&& field_is_text(f, "description"@, t.description@)
        &&& member(f->Object_0@, "parameters"@) == Some(t.input_schema)
    }
}

fn message_json(m: &Message) -> (r: Json)
    ensures
        describes_message(r, *m),
{
    let role = match m.role {
        MessageRole::System => "system",
        MessageRole::User => "user",
        MessageRole::Assistant => "assistant",
    };
    let mut o: Vec<(String, Json)> = Vec::new();
    proof {
        reveal_strlit("role");
        reveal_strlit("content");
        assert("role"@ != "content"@) by {
            assert("role"@.len() != "content"@.len());
        }
    }
    push_member(&mut o, "role", Json::Str(String::from_str(role)));
    push_member(&mut o, "content", text(&m.content));
    assert(o@.drop_last().drop_last() =~= Seq::<(String, Json)>::empty());
    assert(o@[0] == o@.drop_last().last());
    Json::Object(o)
}

/// The messages as the endpoint expects them, in order.
pub fn convert_messages(messages: &Vec<Message>) -> (r: Vec<Json>)
    ensures
        r@.len() == messages@.len(),
        forall|i: int| 0 <= i < r@.len() ==> describes_message(#[trigger] r@[i], messages@[i]),
{
    let mut out: Vec<Json> = Vec::new();
    let mut i: usize = 0;
    while i < messages.len()
        invariant
            0 <= i <= messages@.len(),
            out@.len() == i,
            forall|t: int| 0 <= t < i ==> describes_message(#[trigger] out@[t], messages@[t]),
        decreases messages@.len() - i,
    {
        out.push(message_json(&messages[i]));
        i = i + 1;
    }
    out
}

fn tool_json(t: Tool) -> (r: Json)
    ensures
        describes_tool(r, t),
{
    let Tool { name, description, input_schema } = t;
    proof {
        reveal_strlit("type");
        reveal_strlit("function");
        reveal_strlit("name");
        reveal_strlit("description");
        reveal_strlit("parameters");
        assert("type"@ != "function"@) by {
            assert("type"@.len() != "function"@.len());
        }
        assert("name"@ != "description"@) by {
            assert("name"@.len() != "description"@.len());
        }
        assert("name"@ != "parameters"@) by {
            assert("name"@.len() != "parameters"@.len());
        }
        assert("description"@ != "parameters"@) by {
            assert("description"@[0] != "parameters"@[0]);
        }
    }
    let mut f: Vec<(String, Json)> = Vec::new();
    push_member(&mut f, "name", Json::Str(name));
    push_member(&mut f, "description", Json::Str(description));
    push_member(&mut f, "parameters", input_schema);
    assert(f@.drop_last().drop_last().drop_last() =~= Seq::<(String, Json)>::empty());
    assert(f@[0] == f@.drop_last().drop_last().last());
    assert(f@[1] == f@.drop_last().last());
    let mut o: Vec<(String, Json)> = Vec::new();
    push_member(&mut o, "type", Json::Str(String::from_str("function")));
    push_member(&mut o, "function", Json::Object(f));
    assert(o@.drop_last().drop_last() =~= Seq::<(String, Json)>::empty());
    assert(o@[0] == o@.drop_last().last());
    Json::Object(o)
}

/// The tools as the endpoint expects them, in order.
pub fn convert_tools(tools: Vec<Tool>) -> (r: Vec<Json>)
    ensures
        r@.len() == tools@.len(),
        forall|i: int| 0 <= i < r@.len() ==> describes_tool(#[trigger] r@[i], tools@[i]),
{
    let ghost ts = tools@;
    let mut rest = tools;
    let mut out: Vec<Json> = Vec::new();
    let n = rest.len();
    let mut i: usize = 0;
    while i < n
        invariant
            n == ts.len(),
            0 <= i <= n,
            rest@ == ts.subrange(i as int, n as int),
            out@.len() == i,
            forall|t: int| 0 <= t < i ==> describes_tool(#[trigger] out@[t], ts[t]),
        decreases n - i,
    {
        assert(rest@[0] == ts[i as int]);
        let t = rest.remove(0);
        out.push(tool_json(t));
        assert(rest@ =~= ts.subrange(i + 1, n as int));
        i = i + 1;
    }
    out
}

impl ProviderPreferences {
    /// The preferences as a JSON object; unset preferences are left out.
    pub fn to_json(&self) -> (r: Json)
        ensures
            describes_preferences(r, *self),
    {
        let mut m: Vec<(String, Json)> = Vec::new();
        proof {
            reveal_strlit("order");
            reveal_strlit("allow_fallbacks");
            reveal_strlit("require_parameters");
            assert("order"@.len() == 5);
            assert("allow_fallbacks"@.len() == 15);
            assert("require_parameters"@.len() == 18);
        }
        if let Some(order) = &self.order {
            let mut items: Vec<Json> = Vec::new();
            let mut i: usize = 0;
            while i < order.len()
                invariant
                    0 <= i <= order@.len(),
                    items@.len() == i,
                    forall|t: int| 0 <= t < i ==> is_text(#[trigger] items@[t], order@[t]@),
                decreases order@.len() - i,
            {
                items.push(text(&order[i]));
                i = i + 1;
            }
            push_member(&mut m, "order", Json::Array(items));
            assert(member(m@, "order"@) == Some(Json::Array(items)));
        }
        assert(member(m@, "allow_fallbacks"@) is None);
        assert(member(m@, "require_parameters"@) is None);
        if let Some(b) = self.allow_fallbacks {
            push_member(&mut m, "allow_fallbacks", Json::Bool(b));
        }
        assert(member(m@, "require_parameters"@) is None);
        if let Some(b) = self.require_parameters {
            push_member(&mut m, "require_parameters", Json::Bool(b));
        }
        Json::Object(m)
    }
}

/// `j` is the request body for `settings`: the model, the messages, the
/// stream flag, the token limit of the call or else of the settings, the
/// tools where there are any, the routing preferences where they are set,
/// and a request for usage reports when streaming.
pub open spec fn describes_request(
    j: Json,
    settings: RequestSettings,
    messages: Seq<Message>,
    tools: Option<Seq<Tool>>,
    stream: bool,
    max_tokens: Option<u32>,
) -> bool {
    &&& j is Object
    &&& field_is_text(j, "model"@, settings.model@)
    &&& field(j, "messages"@) is Some
    &&& {
        let ms = field(j, "messages"@)->0;
        &&& ms is Array
        &&& ms->Array_0@.len() == messages.len()
        &&& forall|i: int|
            0 <= i < messages.len() ==> describes_message(#[trigger] ms->Array_0@[i], messages[i])
    }
    &&& field(j, "stream"@) == Some(Json::Bool(stream))
    &&& match (if max_tokens is Some {
        max_tokens
    } else {
        settings.max_tokens
    }) {
        Some(n) => field_is_count(j, "max_tokens"@, n as nat),
        None => field(j, "max_tokens"@) is None,
    }
    &&& match tools {
        Some(ts) if ts.len() > 0 => field(j, "tools"@) is Some && {
            let a = field(j, "tools"@)->0;
            &&& a is Array
            &&& a->Array_0@.len() == ts.len()
            &&& forall|i: int| 0 <= i < ts.len() ==> describes_tool(#[trigger] a->Array_0@[i], ts[i])
        },
        _ => field(j, "tools"@) is None,
    }
    &&& match settings.provider_preferences {
        Some(p) => field(j, "provider"@) is Some && describes_preferences(field(j, "provider"@)->0, p),
        None => field(j, "provider"@) is None,
    }
    &&& if stream {
        field(j, "stream_options"@) is Some && field(
            field(j, "stream_options"@)->0,
            "include_usage"@,
        ) == Some(Json::Bool(true))
    } else {
        field(j, "stream_options"@) is None
    }
}

impl RequestSettings {
    /// The JSON body of a chat-completion request.
    pub fn create_request_body(
        &self,
        messages: &Vec<Message>,
        tools: Option<Vec<Tool>>,
        stream: bool,
        max_tokens: Option<u32>,
    ) -> (r: Json)
        ensures
            describes_request(
                r,
                *self,
                messages@,
                match tools {
                    Some(ts) => Some(ts@),
                    None => None,
                },
                stream,
                max_tokens,
            ),
    {
        proof {
            reveal_strlit("model");
            reveal_strlit("messages");
            reveal_strlit("stream");
            reveal_strlit("max_tokens");
            reveal_strlit("tools");
            reveal_strlit("provider");
            reveal_strlit("stream_options");
            reveal_strlit("include_usage");
            assert("model"@ != "messages"@) by {
                assert("model"@.len() != "messages"@.len());
            }
            assert("model"@ != "stream"@) by {
                assert("model"@.len() != "stream"@.len());
            }
            assert("model"@ != "max_tokens"@) by {
                assert("model"@.len() != "max_tokens"@.len());
            }
            assert("model"@ != "provider"@) by {
                assert("model"@.len() != "provider"@.len());
            }
            assert("model"@ != "stream_options"@) by {
                assert("model"@.len() != "stream_options"@.len());
            }
            assert("messages"@ != "stream"@) by {
                assert("messages"@.len() != "stream"@.len());
            }
            assert("messages"@ != "max_tokens"@) by {
                assert("messages"@.len() != "max_tokens"@.len());
            }
            assert("messages"@ != "tools"@) by {
                assert("messages"@.len() != "tools"@.len());
            }
            assert("messages"@ != "stream_options"@) by {
                assert("messages"@.len() != "stream_options"@.len());
            }
            assert("stream"@ != "max_tokens"@) by {
                assert("stream"@.len() != "max_tokens"@.len());
            }
            assert("stream"@ != "tools"@) by {
                assert("stream"@.len() != "tools"@.len());
            }
            assert("stream"@ != "provider"@) by {
                assert("stream"@.len() != "provider"@.len());
            }
            assert("stream"@ != "stream_options"@) by {
                assert("stream"@.len() != "stream_options"@.len());
            }
            assert("max_tokens"@ != "tools"@) by {
                assert("max_tokens"@.len() != "tools"@.len());
            }
            assert("max_tokens"@ != "provider"@) by {
                assert("max_tokens"@.len() != "provider"@.len());
            }
            assert("max_tokens"@ != "stream_options"@) by {
                assert("max_tokens"@.len() != "stream_options"@.len());
            }
            assert("tools"@ != "provider"@) by {
                assert("tools"@.len() != "provider"@.len());
            }
            assert("tools"@ != "stream_options"@) by {
                assert("tools"@.len() != "stream_options"@.len());
            }
            assert("provider"@ != "stream_options"@) by {
                assert("provider"@.len() != "stream_options"@.len());
            }
            assert("model"@ != "tools"@) by {
                assert("model"@[0] != "tools"@[0]);
            }
            assert("messages"@ != "provider"@) by {
                assert("messages"@[0] != "provider"@[0]);
            }
        }
        let mut o: Vec<(String, Json)> = Vec::new();
        assert(member(o@, "tools"@) is None && member(o@, "provider"@) is None && member(
            o@,
            "stream_options"@,
        ) is None && member(o@, "max_tokens"@) is None);
        push_member(&mut o, "model", text(&self.model));
        assert(member(o@, "tools"@) is None && member(o@, "provider"@) is None && member(
            o@,
            "stream_options"@,
        ) is None && member(o@, "max_tokens"@) is None);
        push_member(&mut o, "messages", Json::Array(convert_messages(messages)));
        assert(member(o@, "tools"@) is None && member(o@, "provider"@) is None && member(
            o@,
            "stream_options"@,
        ) is None && member(o@, "max_tokens"@) is None);
        push_member(&mut o, "stream", Json::Bool(stream));
        assert(member(o@, "tools"@) is None && member(o@, "provider"@) is None && member(
            o@,
            "stream_options"@,
        ) is None && member(o@, "max_tokens"@) is None);
        let limit = match max_tokens {
            Some(n) => Some(n),
            None => self.max_tokens,
        };
        if let Some(n) = limit {
            push_member(&mut o, "max_tokens", Json::Number(decimal_text(n)));
        }
        assert(member(o@, "tools"@) is None);
        assert(member(o@, "provider"@) is None);
        assert(member(o@, "stream_options"@) is None);
        if let Some(ts) = tools {
            if ts.len() > 0 {
                push_member(&mut o, "tools", Json::Array(convert_tools(ts)));
            }
        }
        assert(member(o@, "provider"@) is None);
        assert(member(o@, "stream_options"@) is None);
        if let Some(p) = &self.provider_preferences {
            push_member(&mut o, "provider", p.to_json());
        }
        assert(member(o@, "stream_options"@) is None);
        if stream {
            let mut opts: Vec<(String, Json)> = Vec::new();
            push_member(&mut opts, "include_usage", Json::Bool(true));
            push_member(&mut o, "stream_options", Json::Object(opts));
        }
        Json::Object(o)
    }
}

} // verus!
