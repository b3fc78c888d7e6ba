//! Reassembly of tool calls whose pieces arrive spread over many events.
use vstd::prelude::*;
use crate::event::ToolCallDelta;
use crate::json::{Json, parse_json, parsed_json};

verus! {

/// A tool invocation that the model asked for.
#[derive(Debug, PartialEq)]
pub struct ToolCall {
    pub id: String,
    pub tool: String,
    pub args: Json,
}

/// The pieces of one tool call gathered so far.
#[derive(Debug)]
pub struct OpenRouterStreamingToolCall {
    pub id: Option<String>,
    pub name: Option<String>,
    pub arguments: String,
}

pub struct FragmentView {
    pub id: Option<String>,
    pub name: Option<String>,
    pub arguments: Seq<char>,
}

impl View for OpenRouterStreamingToolCall {
    type V = FragmentView;

    open spec fn view(&self) -> FragmentView {
        FragmentView { id: self.id, name: self.name, arguments: self.arguments@ }
    }
}

pub open spec fn empty_fragment() -> FragmentView {
    FragmentView { id: None, name: None, arguments: Seq::empty() }
}

/// The arguments of a finished call: the JSON document that their text
/// holds, or `null` where it holds none.
pub open spec fn args_value(text: Seq<char>) -> Json {
    match parsed_json(text) {
        Some(j) => j,
        None => Json::Null,
    }
}

/// The call that a fragment stands for, once it has both an id and a name.
pub open spec fn tool_call_of(f: FragmentView) -> Option<ToolCall> {
    match (f.id, f.name) {
        (Some(id), Some(name)) => Some(ToolCall { id, tool: name, args: args_value(f.arguments) }),
        _ => None,
    }
}

impl OpenRouterStreamingToolCall {
    pub fn empty() -> (r: Self)
        ensures
            r@ == empty_fragment(),
    {
        OpenRouterStreamingToolCall { id: None, name: None, arguments: String::new() }
    }

    /// The finished call, or `None` where the id or the name never came.
    pub fn to_tool_call(&self) -> (r: Option<ToolCall>)
        ensures
            r == tool_call_of(self@),
    {
        match (&self.id, &self.name) {
            (Some(id), Some(name)) => {
                let args = match parse_json(self.arguments.as_str()) {
                    Some(j) => j,
                    None => Json::Null,
                };
                Some(ToolCall { id: id.clone(), tool: name.clone(), args })
            },
            _ => None,
        }
    }
}

/// The fragments after one delta: the collection is grown with empty
/// fragments up to the delta's position, a given id or name replaces the old
/// one, and given argument text is appended.
pub open spec fn merge_delta(frags: Seq<FragmentView>, d: ToolCallDelta) -> Seq<FragmentView> {
    let grown = if d.index < frags.len() {
        frags
    } else {
        frags + Seq::new((d.index + 1 - frags.len()) as nat, |i: int| empty_fragment())
    };
    let f = grown[d.index as int];
    grown.update(
        d.index as int,
        FragmentView {
            id: if d.id is Some {
                d.id
            } else {
                f.id
            },
            name: if d.name is Some {
                d.name
            } else {
                f.name
            },
            arguments: match d.arguments {
                Some(a) => f.arguments + a@,
                None => f.arguments,
            },
        },
    )
}

pub open spec fn merge_deltas(frags: Seq<FragmentView>, ds: Seq<ToolCallDelta>) -> Seq<
    FragmentView,
>
    decreases ds.len(),
{
    if ds.len() == 0 {
        frags
    } else {
        merge_delta(merge_deltas(frags, ds.drop_last()), ds.last())
    }
}

/// The finished calls of a fragment collection, in position order.
pub open spec fn finished_calls(frags: Seq<FragmentView>) -> Seq<ToolCall>
    decreases frags.len(),
{
    if frags.len() == 0 {
        seq![]
    } else {
        let before = finished_calls(frags.drop_last());
        match tool_call_of(frags.last()) {
            Some(c) => before.push(c),
            None => before,
        }
    }
}

/// The tool-call fragments of one response, indexed by position.
#[derive(Debug)]
pub struct ToolCallAccumulator {
    fragments: Vec<OpenRouterStreamingToolCall>,
}

impl View for ToolCallAccumulator {
    type V = Seq<FragmentView>;

    closed spec fn view(&self) -> Seq<FragmentView> {
        Seq::new(self.fragments@.len(), |i: int| self.fragments@[i]@)
    }
}

impl ToolCallAccumulator {
    pub fn new() -> (r: Self)
        ensures
            r@ == Seq::<FragmentView>::empty(),
    {
        let r = ToolCallAccumulator { fragments: Vec::new() };
        assert(r@ =~= Seq::<FragmentView>::empty());
        r
    }

    pub fn len(&self) -> (r: usize)
        ensures
            r == self@.len(),
    {
        self.fragments.len()
    }

    pub fn is_empty(&self) -> (r: bool)
        ensures
            r == (self@.len() == 0),
    {
        self.fragments.len() == 0
    }

    /// Merges one delta into the fragment at its position.
    pub fn merge(&mut self, delta: ToolCallDelta)
        requires
            delta.index < usize::MAX,
        ensures
            final(self)@ == merge_delta(old(self)@, delta),
    {
        let index = delta.index;
        let ghost start = self@;
        while self.fragments.len() <= index
            invariant
                index < usize::MAX,
                start.len() <= self@.len(),
                start.len() <= index ==> self@.len() <= index + 1,
                start.len() > index ==> self@ == start,
                start.len() <= index ==> self@ =~= start + Seq::new(
                    (self@.len() - start.len()) as nat,
                    |i: int| empty_fragment(),
                ),
            decreases index + 1 - self.fragments@.len(),
        {
            let ghost before = self@;
            self.fragments.push(OpenRouterStreamingToolCall::empty());
            assert(self@ =~= before.push(empty_fragment()));
        }
        let ghost grown = self@;
        assert(grown == (if index < start.len() {
            start
        } else {
            start + Seq::new((index + 1 - start.len()) as nat, |i: int| empty_fragment())
        }));
        let mut f = OpenRouterStreamingToolCall::empty();
        self.fragments.set_and_swap(index, &mut f);
        assert(f@ == grown[index as int]);
        if delta.id.is_some() {
            f.id = delta.id;
        }
        if delta.name.is_some() {
            f.name = delta.name;
        }
        match delta.arguments {
            Some(a) => f.arguments.append(a.as_str()),
            None => {},
        }
        let ghost updated = f@;
        self.fragments.set(index, f);
        assert(self@ =~= grown.update(index as int, updated));
    }

    /// Merges the deltas in order.
    pub fn merge_all(&mut self, deltas: Vec<ToolCallDelta>)
        requires
            forall|i: int| 0 <= i < deltas@.len() ==> #[trigger] deltas@[i].index < usize::MAX,
        ensures
            final(self)@ == merge_deltas(old(self)@, deltas@),
    {
        let ghost ds = deltas@;
        let ghost start = self@;
        let mut rest = deltas;
        let n = rest.len();
        let mut i: usize = 0;
        while i < n
            invariant
                n == ds.len(),
                0 <= i <= n,
                rest@ == ds.subrange(i as int, n as int),
                self@ == merge_deltas(start, ds.subrange(0, i as int)),
                forall|k: int| 0 <= k < ds.len() ==> #[trigger] ds[k].index < usize::MAX,
            decreases n - i,
        {
            assert(ds.subrange(0, i + 1).drop_last() =~= ds.subrange(0, i as int));
            assert(rest@[0] == ds[i as int]);
            let d = rest.remove(0);
            self.merge(d);
            assert(rest@ =~= ds.subrange(i + 1, n as int));
            i = i + 1;
        }
        assert(ds.subrange(0, n as int) =~= ds);
    }

    /// The finished tool calls, in position order; fragments that lack an id
    /// or a name are left out.
    pub fn finalize(&self) -> (r: Vec<ToolCall>)
        ensures
            r@ == finished_calls(self@),
    {
        let mut out: Vec<ToolCall> = Vec::new();
        let mut i: usize = 0;
        while i < self.fragments.len()
            invariant
                0 <= i <= self@.len(),
                out@ == finished_calls(self@.subrange(0, i as int)),
            decreases self@.len() - i,
        {
            let ghost prefix = self@.subrange(0, i + 1);
            assert(prefix.drop_last() =~= self@.subrange(0, i as int));
            match self.fragments[i].to_tool_call() {
                Some(c) => out.push(c),
                None => {},
            }
            i = i + 1;
        }
        assert(self@.subrange(0, self@.len() as int) =~= self@);
        out
    }
}

/// Pieces for position 1 that arrive before those for position 0 still give
/// both calls, in position order, each with its own id, name and arguments.
pub proof fn lemma_out_of_order_merge(second: ToolCallDelta, first: ToolCallDelta)
    requires
        second.index == 1,
        first.index == 0,
        second.id is Some && second.name is Some,
        first.id is Some && first.name is Some,
    ensures
        ({
            let calls = finished_calls(merge_delta(merge_delta(seq![], second), first));
            &&& calls.len() == 2
            &&& calls[0] == ToolCall {
                id: first.id->0,
                tool: first.name->0,
                args: args_value(
                    match first.arguments {
                        Some(a) => a@,
                        None => Seq::empty(),
                    },
                ),
            }
            &&& calls[1] == ToolCall {
                id: second.id->0,
                tool: second.name->0,
                args: args_value(
                    match second.arguments {
                        Some(a) => a@,
                        None => Seq::empty(),
                    },
                ),
            }
        }),
{
    let f1 = merge_delta(seq![], second);
    let f2 = merge_delta(f1, first);
    assert(f1.len() == 2);
    assert(f2.len() == 2);
    assert(f2.drop_last().drop_last() =~= Seq::<FragmentView>::empty());
    assert(Seq::<char>::empty() + first.arguments->0@ =~= first.arguments->0@);
    assert(Seq::<char>::empty() + second.arguments->0@ =~= second.arguments->0@);
    let calls0 = finished_calls(f2.drop_last().drop_last());
    let calls1 = finished_calls(f2.drop_last());
    assert(f2.drop_last().last() == f2[0]);
    assert(calls1 == calls0.push(tool_call_of(f2[0])->0));
    assert(f2.last() == f2[1]);
}

} // verus!
