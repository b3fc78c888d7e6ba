//! A JSON value held as plain data, filled from `serde_json`'s parser.
use vstd::prelude::*;

verus! {

/// A JSON document. Numbers keep the text that `serde_json` prints for them;
/// object members keep the order in which the parser hands them out.
#[derive(Debug, PartialEq)]
pub enum Json {
    Null,
    Bool(bool),
    Number(String),
    Str(String),
    Array(Vec<Json>),
    Object(Vec<(String, Json)>),
}

#[verifier::external_type_specification]
#[verifier::external_body]
pub struct ExValue(serde_json::Value);

/// What `serde_json::from_str` makes of a text: the document it holds, or
/// nothing where the text is not one JSON document.
pub uninterp spec fn parsed_json(text: Seq<char>) -> Option<Json>;

/// Moves a `serde_json::Value` into a `Json`, variant for variant: the
/// conversion half of `parse_json`, which alone calls it. It promises nothing
/// by itself; what the two give together is `parse_json`'s contract.
#[verifier::external_body]
fn json_from_value(v: serde_json::Value) -> Json {
    match v {
        serde_json::Value::Null => Json::Null,
        serde_json::Value::Bool(b) => Json::Bool(b),
        serde_json::Value::Number(n) => Json::Number(n.to_string()),
        serde_json::Value::String(s) => Json::Str(s),
        serde_json::Value::Array(a) => Json::Array(a.into_iter().map(json_from_value).collect()),
        serde_json::Value::Object(o) => Json::Object(
            o.into_iter().map(|(k, v)| (k, json_from_value(v))).collect(),
        ),
    }
}

/// Relies on `serde_json::from_str::<serde_json::Value>`: the outcome depends
/// on the text alone.
#[verifier::external_body]
pub(crate) fn parse_json(text: &str) -> (r: Option<Json>)
    ensures
        r == parsed_json(text@),
{
    serde_json::from_str::<serde_json::Value>(text).ok().map(json_from_value)
}

/// The value of the first member of `members` named `key`.
pub open spec fn member(members: Seq<(String, Json)>, key: Seq<char>) -> Option<Json>
    decreases members.len(),
{
    if members.len() == 0 {
        None
    } else if members[0].0@ == key {
        Some(members[0].1)
    } else {
        member(members.drop_first(), key)
    }
}

/// The member `key` of an object, where a JSON `null` counts as absent; an
/// absent member of anything but an object as well.
pub open spec fn field(j: Json, key: Seq<char>) -> Option<Json> {
    match j {
        Json::Object(m) => match member(m@, key) {
            Some(Json::Null) => None,
            other => other,
        },
        _ => None,
    }
}

/// A member appended to an object is found where no earlier member has its
/// name.
pub proof fn lemma_member_push(m: Seq<(String, Json)>, k: String, v: Json, key: Seq<char>)
    ensures
        member(m.push((k, v)), key) == (if (member(m, key) is Some) {
            member(m, key)
        } else if k@ == key {
            Some(v)
        } else {
            None
        }),
    decreases m.len(),
{
    let mp = m.push((k, v));
    if m.len() > 0 {
        assert(mp.drop_first() =~= m.drop_first().push((k, v)));
        assert(mp[0] == m[0]);
        lemma_member_push(m.drop_first(), k, v, key);
        if m[0].0@ == key {
            assert(member(mp, key) == Some(m[0].1));
            assert(member(m, key) == Some(m[0].1));
        } else {
            assert(member(mp, key) == member(mp.drop_first(), key));
            assert(member(m, key) == member(m.drop_first(), key));
        }
    } else {
        assert(mp.drop_first() =~= Seq::<(String, Json)>::empty());
        assert(mp[0] == (k, v));
        assert(member(m, key) is None);
        if k@ == key {
            assert(member(mp, key) == Some(v));
        } else {
            assert(member(mp, key) == member(Seq::<(String, Json)>::empty(), key));
        }
    }
}

/// Looks up the member `key` of an object, skipping a `null` value.
pub fn get_field<'a>(j: &'a Json, key: &str) -> (r: Option<&'a Json>)
    ensures
        r is Some ==> field(*j, key@) == Some(*r->0),
        r is None ==> field(*j, key@) is None,
{
    match j {
        Json::Object(m) => {
            let k = String::from_str(key);
            let mut i: usize = 0;
            assert(m@.subrange(0, m@.len() as int) =~= m@);
            while i < m.len()
                invariant
                    0 <= i <= m@.len(),
                    k@ == key@,
                    *j == Json::Object(*m),
                    member(m@, key@) == member(m@.subrange(i as int, m@.len() as int), key@),
                decreases m@.len() - i,
            {
                let ghost rest = m@.subrange(i as int, m@.len() as int);
                assert(rest.drop_first() =~= m@.subrange(i + 1, m@.len() as int));
                if m[i].0 == k {
                    assert(rest[0] == m@[i as int]);
                    let v = &m[i].1;
                    assert(member(rest, key@) == Some(*v));
                    if let Json::Null = v {
                        return None;
                    }
                    return Some(v);
                }
                i = i + 1;
            }
            None
        },
        _ => None,
    }
}

pub open spec fn is_digit(c: char) -> bool {
    '0' <= c && c <= '9'
}

pub open spec fn all_digits(s: Seq<char>) -> bool {
    forall|i: int| 0 <= i < s.len() ==> is_digit(#[trigger] s[i])
}

/// The number that a string of decimal digits writes.
pub open spec fn decimal_value(s: Seq<char>) -> nat
    decreases s.len(),
{
    if s.len() == 0 {
        0
    } else {
        decimal_value(s.drop_last()) * 10 + (s.last() as nat - '0' as nat) as nat
    }
}

/// The non-negative integer that a number's text writes, where it writes one.
pub open spec fn integer_of(text: Seq<char>) -> Option<nat> {
    if text.len() > 0 && all_digits(text) {
        Some(decimal_value(text))
    } else {
        None
    }
}

proof fn lemma_decimal_prefix_grows(s: Seq<char>, i: int)
    requires
        0 <= i <= s.len(),
        all_digits(s),
    ensures
        decimal_value(s.subrange(0, i)) <= decimal_value(s),
    decreases s.len() - i,
{
    if i < s.len() {
        lemma_decimal_prefix_grows(s, i + 1);
        assert(s.subrange(0, i + 1).drop_last() =~= s.subrange(0, i));
        assert(is_digit(s[i]));
    } else {
        assert(s.subrange(0, i) =~= s);
    }
}

/// Reads a number's text as a `u64`: `None` where it is not a plain string of
/// decimal digits or writes a value above `u64::MAX`.
pub fn parse_u64(text: &str) -> (r: Option<u64>)
    ensures
        match r {
            Some(v) => integer_of(text@) == Some(v as nat),
            None => match integer_of(text@) {
                Some(n) => n > u64::MAX,
                None => true,
            },
        },
{
    let n = text.unicode_len();
    if n == 0 {
        return None;
    }
    let mut v: u64 = 0;
    let mut i: usize = 0;
    while i < n
        invariant
            n == text@.len(),
            0 <= i <= n,
            all_digits(text@.subrange(0, i as int)),
            v as nat == decimal_value(text@.subrange(0, i as int)),
        decreases n - i,
    {
        let c = text.get_char(i);
        if c < '0' || c > '9' {
            assert(!all_digits(text@));
            return None;
        }
        let d = (c as u32 - '0' as u32) as u64;
        assert(text@.subrange(0, i + 1).drop_last() =~= text@.subrange(0, i as int));
        if v > (u64::MAX - d) / 10 {
            proof {
                if all_digits(text@) {
                    lemma_decimal_prefix_grows(text@, i + 1);
                }
            }
            return None;
        }
        v = v * 10 + d;
        i = i + 1;
    }
    assert(text@.subrange(0, n as int) =~= text@);
    Some(v)
}

} // verus!
