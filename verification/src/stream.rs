use vstd::prelude::*;
use std::collections::HashMap;
use crate::json::{Json, JsonView, at_in, get_in, str_in, u64_in, array_in, items_view, lemma_items_view};
use crate::tools::{Tool, ToolView};
use crate::events::{DisplayEvent, DisplayEventView};

verus! {

/// The first choice of a streamed chunk.
pub open spec fn chunk_choice(c: JsonView) -> Option<JsonView> {
    at_in(c.get("choices"@), 0)
}

/// The delta of the first choice.
pub open spec fn chunk_delta(c: JsonView) -> Option<JsonView> {
    get_in(chunk_choice(c), "delta"@)
}

pub open spec fn chunk_finish_reason(c: JsonView) -> Option<Seq<char>> {
    str_in(get_in(chunk_choice(c), "finish_reason"@))
}

pub open spec fn chunk_reasoning(c: JsonView) -> Option<Seq<char>> {
    str_in(get_in(chunk_delta(c), "reasoning"@))
}

pub open spec fn chunk_content(c: JsonView) -> Option<Seq<char>> {
    str_in(get_in(chunk_delta(c), "content"@))
}

pub open spec fn chunk_tool_calls(c: JsonView) -> Option<Seq<JsonView>> {
    array_in(get_in(chunk_delta(c), "tool_calls"@))
}

/// What one chunk shows: its reasoning text, then its content text, each if present.
pub open spec fn chunk_events(c: JsonView) -> Seq<DisplayEventView> {
    let r: Seq<DisplayEventView> = match chunk_reasoning(c) {
        Some(t) => seq![DisplayEventView::Reasoning(t)],
        None => Seq::empty(),
    };
    match chunk_content(c) {
        Some(t) => r.push(DisplayEventView::Content(t)),
        None => r,
    }
}

/// One tool-call fragment applied to the tool calls gathered so far, keyed by
/// their index: the first fragment of an index brings the call id, the name
/// and the start of the arguments; each later one appends to the arguments.
/// A fragment without what it needs yields the message that reports it.
pub open spec fn tool_call_step(m: Map<u64, ToolView>, call: JsonView) -> Result<
    Map<u64, ToolView>,
    Seq<char>,
> {
    let index = u64_in(call.get("index"@));
    let arguments = str_in(get_in(call.get("function"@), "arguments"@));
    if index is None {
        Err("[Tool Accumilation]: Tool index not found!"@)
    } else if arguments is None {
        Err("[Tool Accumilation]: Arguments not found!"@)
    } else if m.contains_key(index->0) {
        let t = m[index->0];
        Ok(m.insert(index->0, ToolView { arguments: t.arguments + arguments->0, ..t }))
    } else {
        let id = str_in(call.get("id"@));
        let name = str_in(get_in(call.get("function"@), "name"@));
        if id is None {
            Err("[Tool Accumilation]: Tool id not found!"@)
        } else if name is None {
            Err("[Tool Accumilation]: Tool name not found!"@)
        } else {
            Ok(m.insert(index->0, ToolView { id: id->0, name: name->0, arguments: arguments->0 }))
        }
    }
}

/// The fragments of one chunk applied in order; the first malformed one
/// stops the rest of that chunk and is reported.
pub open spec fn accumulate_tool_calls(m: Map<u64, ToolView>, calls: Seq<JsonView>) -> (
    Map<u64, ToolView>,
    Option<Seq<char>>,
)
    decreases calls.len(),
{
    if calls.len() == 0 {
        (m, None)
    } else {
        match tool_call_step(m, calls[0]) {
            Err(msg) => (m, Some(msg)),
            Ok(m2) => accumulate_tool_calls(m2, calls.drop_first()),
        }
    }
}

/// The tool calls of a map listed by strictly increasing index, each with
/// the tool recorded under it, and every index of the map listed.
pub open spec fn in_index_order(ts: Seq<(u64, ToolView)>, m: Map<u64, ToolView>) -> bool {
    &&& forall|i: int, j: int| 0 <= i < j < ts.len() ==> ts[i].0 < ts[j].0
    &&& forall|i: int| 0 <= i < ts.len() ==> m.contains_key(#[trigger] ts[i].0) && m[ts[i].0] == ts[i].1
    &&& forall|k: u64| m.contains_key(k) ==> exists|i: int| 0 <= i < ts.len() && #[trigger] ts[i].0 == k
}

pub open spec fn strictly_increasing(s: Seq<u64>) -> bool {
    forall|i: int, j: int| 0 <= i < j < s.len() ==> s[i] < s[j]
}

/// The distinct numbers of `v`, in increasing order.
pub fn sort_indices(v: &Vec<u64>) -> (r: Vec<u64>)
    requires
        v@.no_duplicates(),
    ensures
        strictly_increasing(r@),
        r@.len() == v@.len(),
        forall|k: u64| r@.contains(k) <==> v@.contains(k),
{
    let mut out: Vec<u64> = Vec::new();
    let mut i: usize = 0;
    while i < v.len()
        invariant
            i <= v.len(),
            v@.no_duplicates(),
            strictly_increasing(out@),
            out@.len() == i,
            forall|k: u64| out@.contains(k) <==> v@.take(i as int).contains(k),
        decreases v.len() - i,
    {
        let x = v[i];
        let mut p: usize = 0;
        while p < out.len() && out[p] < x
            invariant
                p <= out.len(),
                forall|q: int| 0 <= q < p ==> out@[q] < x,
            decreases out.len() - p,
        {
            p = p + 1;
        }
        assert(!v@.take(i as int).contains(x)) by {
            if v@.take(i as int).contains(x) {
                let q = choose|q: int| 0 <= q < i && v@.take(i as int)[q] == x;
                assert(v@[q] == v@[i as int]);
            }
        }
        assert(!out@.contains(x));
        assert(forall|q: int| p <= q < out@.len() ==> out@[q] > x) by {
            assert forall|q: int| p <= q < out@.len() implies out@[q] > x by {
                if p < out@.len() {
                    assert(out@[p as int] >= x);
                    assert(out@[p as int] != x) by {
                        assert(out@.contains(out@[p as int]));
                    }
                    if q > p {
                        assert(out@[p as int] < out@[q]);
                    }
                }
            }
        }
        let ghost before = out@;
        out.insert(p, x);
        assert(out@ =~= before.take(p as int).push(x) + before.skip(p as int));
        assert(strictly_increasing(out@)) by {
            assert forall|a: int, b: int| 0 <= a < b < out@.len() implies out@[a] < out@[b] by {
                if b < p {
                    assert(out@[a] == before[a] && out@[b] == before[b]);
                } else if b == p {
                    assert(out@[a] == before[a]);
                } else if a < p {
                    assert(out@[a] == before[a] && out@[b] == before[b - 1]);
                    assert(before[b - 1] > x);
                } else if a == p {
                    assert(out@[b] == before[b - 1]);
                } else {
                    assert(out@[a] == before[a - 1] && out@[b] == before[b - 1]);
                }
            }
        }
        assert(v@.take(i + 1) =~= v@.take(i as int).push(x));
        assert forall|k: u64| out@.contains(k) <==> v@.take(i + 1).contains(k) by {
            if out@.contains(k) {
                let q = choose|q: int| 0 <= q < out@.len() && out@[q] == k;
                if q < p {
                    assert(before[q] == k);
                    assert(before.contains(k));
                } else if q > p {
                    assert(before[q - 1] == k);
                    assert(before.contains(k));
                }
                assert(v@.take(i as int).push(x).contains(k) || k == x);
                if k == x {
                    assert(v@.take(i + 1)[i as int] == x);
                } else {
                    let r = choose|r: int| 0 <= r < i && v@.take(i as int)[r] == k;
                    assert(v@.take(i + 1)[r] == k);
                }
            }
            let ghost next = v@.take(i + 1);
            if next.contains(k) {
                let r = choose|r: int| 0 <= r < next.len() && next[r] == k;
                if r == i {
                    assert(out@[p as int] == k);
                } else {
                    assert(v@.take(i as int)[r] == k);
                    assert(before.contains(k));
                    let q = choose|q: int| 0 <= q < before.len() && before[q] == k;
                    if q < p {
                        assert(out@[q] == k);
                    } else {
                        assert(out@[q + 1] == k);
                    }
                }
            }
        }
        i = i + 1;
    }
    assert(v@.take(v.len() as int) =~= v@);
    out
}

/// What one streamed response has brought so far.
pub struct StreamState {
    content: Vec<String>,
    tools: HashMap<u64, Tool>,
    order: Vec<u64>,
    finish_reason: Option<String>,
}

pub struct StreamStateView {
    pub content: Seq<Seq<char>>,
    pub tools: Map<u64, ToolView>,
    pub finish_reason: Option<Seq<char>>,
}

pub open spec fn tools_view(m: Map<u64, Tool>) -> Map<u64, ToolView> {
    m.map_values(|t: Tool| t@)
}

pub open spec fn opt_string_view(o: Option<String>) -> Option<Seq<char>> {
    match o {
        Some(s) => Some(s@),
        None => None,
    }
}

pub open spec fn events_view(events: Seq<DisplayEvent>) -> Seq<DisplayEventView> {
    events.map_values(|e: DisplayEvent| e@)
}

impl View for StreamState {
    type V = StreamStateView;

    closed spec fn view(&self) -> StreamStateView {
        StreamStateView {
            content: self.content@.map_values(|s: String| s@),
            tools: tools_view(self.tools@),
            finish_reason: opt_string_view(self.finish_reason),
        }
    }
}

/// What the interface is to show for one chunk, and the message for a
/// malformed tool-call fragment, if the chunk had one.
pub struct ChunkOutput {
    pub events: Vec<DisplayEvent>,
    pub diagnostic: Option<String>,
}

impl StreamState {
    /// Every tool index is listed once in `order`, and `order` lists only tool indices.
    pub closed spec fn wf(&self) -> bool {
        &&& self.order@.no_duplicates()
        &&& forall|k: u64| self.tools@.contains_key(k) <==> self.order@.contains(k)
    }

    pub fn new() -> (r: StreamState)
        ensures
            r.wf(),
            r@.content == Seq::<Seq<char>>::empty(),
            r@.tools == Map::<u64, ToolView>::empty(),
            r@.finish_reason is None,
    {
        let r = StreamState {
            content: Vec::new(),
            tools: HashMap::new(),
            order: Vec::new(),
            finish_reason: None,
        };
        assert(r@.content =~= Seq::<Seq<char>>::empty());
        assert(r@.tools =~= Map::<u64, ToolView>::empty());
        r
    }

    /// Applies one tool-call fragment.
    fn apply_tool_call(&mut self, call: &Json) -> (r: Option<String>)
        requires
            old(self).wf(),
        ensures
            final(self).wf(),
            final(self)@.content == old(self)@.content,
            final(self)@.finish_reason == old(self)@.finish_reason,
            match tool_call_step(old(self)@.tools, call@) {
                Ok(m) => r is None && final(self)@.tools == m,
                Err(msg) => r is Some && r->0@ == msg && final(self)@.tools == old(self)@.tools,
            },
    {
        let index = match call.get("index") {
            Some(v) => v.as_u64(),
            None => None,
        };
        let function = call.get("function");
        let arguments = match function {
            Some(f) => match f.get("arguments") {
                Some(a) => a.as_str(),
                None => None,
            },
            None => None,
        };
        let index = match index {
            Some(i) => i,
            None => {
                return Some(String::from_str("[Tool Accumilation]: Tool index not found!"));
            },
        };
        let arguments = match arguments {
            Some(a) => a,
            None => {
                return Some(String::from_str("[Tool Accumilation]: Arguments not found!"));
            },
        };
        let ghost old_tools = self.tools@;
        match self.tools.get(&index) {
            Some(t) => {
                let mut joined = t.arguments.clone();
                joined.append(arguments.as_str());
                let updated = Tool { id: t.id.clone(), name: t.name.clone(), arguments: joined };
                self.tools.insert(index, updated);
                assert(forall|k: u64| self.tools@.contains_key(k) <==> old_tools.contains_key(k));
                assert(tools_view(self.tools@) =~= tools_view(old_tools).insert(
                    index,
                    ToolView {
                        arguments: old_tools[index].arguments@ + arguments@,
                        ..old_tools[index]@
                    },
                ));
                None
            },
            None => {
                let id = match call.get("id") {
                    Some(v) => v.as_str(),
                    None => None,
                };
                let name = match function {
                    Some(f) => match f.get("name") {
                        Some(n) => n.as_str(),
                        None => None,
                    },
                    None => None,
                };
                let id = match id {
                    Some(i) => i,
                    None => {
                        return Some(String::from_str("[Tool Accumilation]: Tool id not found!"));
                    },
                };
                let name = match name {
                    Some(n) => n,
                    None => {
                        return Some(String::from_str("[Tool Accumilation]: Tool name not found!"));
                    },
                };
                let t = Tool::new(id.clone(), name.clone(), arguments.clone());
                self.tools.insert(index, t);
                let ghost old_order = self.order@;
                self.order.push(index);
                assert(forall|k: u64| self.order@.contains(k) <==> (old_order.contains(k) || k == index)) by {
                    assert forall|k: u64| old_order.contains(k) implies self.order@.contains(k) by {
                        let j = choose|j: int| 0 <= j < old_order.len() && old_order[j] == k;
                        assert(self.order@[j] == k);
                    }
                    assert(self.order@[old_order.len() as int] == index);
                }
                assert(!old_order.contains(index));
                assert(self.order@.no_duplicates()) by {
                    assert forall|a: int, b: int|
                        0 <= a < self.order@.len() && 0 <= b < self.order@.len() && a != b
                            implies self.order@[a] != self.order@[b] by {
                        if a < old_order.len() && b < old_order.len() {
                        } else if a < old_order.len() {
                            assert(old_order.contains(old_order[a]));
                        } else {
                            assert(old_order.contains(old_order[b]));
                        }
                    }
                }
                assert(forall|k: u64| self.tools@.contains_key(k) <==> (old_tools.contains_key(k) || k == index));
                assert forall|k: u64| self.tools@.contains_key(k) <==> self.order@.contains(k) by {
                    assert(old_tools.contains_key(k) <==> old_order.contains(k));
                }
                assert(tools_view(self.tools@) =~= tools_view(old_tools).insert(
                    index,
                    ToolView { id: id@, name: name@, arguments: arguments@ },
                ));
                None
            },
        }
    }

    /// Applies one streamed chunk: records its finish reason and its content,
    /// gathers its tool-call fragments, and returns what is to be shown.
    pub fn apply_chunk(&mut self, chunk: &Json) -> (out: ChunkOutput)
        requires
            old(self).wf(),
        ensures
            final(self).wf(),
            final(self)@.finish_reason == match chunk_finish_reason(chunk@) {
                Some(r) => Some(r),
                None => old(self)@.finish_reason,
            },
            final(self)@.content == match chunk_content(chunk@) {
                Some(t) => old(self)@.content.push(t),
                None => old(self)@.content,
            },
            events_view(out.events@) == chunk_events(chunk@),
            ({
                let (m, diag) = match chunk_tool_calls(chunk@) {
                    Some(calls) => accumulate_tool_calls(old(self)@.tools, calls),
                    None => (old(self)@.tools, None),
                };
                final(self)@.tools == m && opt_string_view(out.diagnostic) == diag
            }),
    {
        let choice = match chunk.get("choices") {
            Some(c) => c.at(0),
            None => None,
        };
        let delta = match choice {
            Some(c) => c.get("delta"),
            None => None,
        };
        let reason = match choice {
            Some(c) => match c.get("finish_reason") {
                Some(r) => r.as_str(),
                None => None,
            },
            None => None,
        };
        if let Some(r) = reason {
            self.finish_reason = Some(r.clone());
        }
        let mut events: Vec<DisplayEvent> = Vec::new();
        let reasoning = match delta {
            Some(d) => match d.get("reasoning") {
                Some(r) => r.as_str(),
                None => None,
            },
            None => None,
        };
        if let Some(r) = reasoning {
            events.push(DisplayEvent::Reasoning(r.clone()));
        }
        let content = match delta {
            Some(d) => match d.get("content") {
                Some(c) => c.as_str(),
                None => None,
            },
            None => None,
        };
        if let Some(c) = content {
            let ghost before = self.content@;
            self.content.push(c.clone());
            assert(self.content@.map_values(|s: String| s@) =~= before.map_values(
                |s: String| s@,
            ).push(c@));
            events.push(DisplayEvent::Content(c.clone()));
        }
        assert(events_view(events@) =~= chunk_events(chunk@));
        let tool_calls = match delta {
            Some(d) => match d.get("tool_calls") {
                Some(t) => t.as_array(),
                None => None,
            },
            None => None,
        };
        let mut diagnostic: Option<String> = None;
        if let Some(calls) = tool_calls {
            proof {
                lemma_items_view(calls@);
            }
            let ghost start = self@;
            let mut i: usize = 0;
            assert(items_view(calls@).skip(0) =~= items_view(calls@));
            while i < calls.len()
                invariant_except_break
                    diagnostic is None,
                    accumulate_tool_calls(start.tools, items_view(calls@)) == accumulate_tool_calls(
                        self@.tools,
                        items_view(calls@).skip(i as int),
                    ),
                invariant
                    i <= calls.len(),
                    items_view(calls@).len() == calls@.len(),
                    forall|j: int| 0 <= j < calls@.len() ==> #[trigger] items_view(calls@)[j] == calls@[j]@,
                    self@.content == start.content,
                    self@.finish_reason == start.finish_reason,
                    self.wf(),
                ensures
                    accumulate_tool_calls(start.tools, items_view(calls@)) == (
                        self@.tools,
                        opt_string_view(diagnostic),
                    ),
                decreases calls.len() - i,
            {
                let ghost rest = items_view(calls@).skip(i as int);
                let ghost before = self@.tools;
                assert(rest[0] == calls@[i as int]@);
                assert(rest.drop_first() =~= items_view(calls@).skip(i + 1));
                match self.apply_tool_call(&calls[i]) {
                    Some(msg) => {
                        diagnostic = Some(msg);
                        assert(accumulate_tool_calls(before, rest) == (self@.tools, opt_string_view(diagnostic)));
                        break;
                    },
                    None => {},
                }
                i = i + 1;
            }
            assert(accumulate_tool_calls(start.tools, items_view(calls@)) == (self@.tools, opt_string_view(diagnostic)));
        }
        ChunkOutput { events, diagnostic }
    }

    /// Ends the stream on a transport error: the finish reason becomes
    /// `stream_error`, and the error text is to be shown.
    pub fn apply_stream_error(&mut self, message: String) -> (e: DisplayEvent)
        requires
            old(self).wf(),
        ensures
            final(self).wf(),
            final(self)@.finish_reason == Some("stream_error"@),
            final(self)@.content == old(self)@.content,
            final(self)@.tools == old(self)@.tools,
            e@ == DisplayEventView::Error(message@),
    {
        self.finish_reason = Some(String::from_str("stream_error"));
        DisplayEvent::Error(message)
    }

    /// The finish reason reported so far, if any.
    pub fn finish_reason(&self) -> (r: Option<String>)
        ensures
            opt_string_view(r) == self@.finish_reason,
    {
        match &self.finish_reason {
            Some(s) => Some(s.clone()),
            None => None,
        }
    }

    /// The content text gathered so far, joined.
    pub fn content_text(&self) -> (r: String)
        ensures
            r@ == concat_all(self@.content),
    {
        let mut out = String::new();
        let mut i: usize = 0;
        while i < self.content.len()
            invariant
                i <= self.content.len(),
                out@ == concat_all(self@.content.take(i as int)),
                self@.content == self.content@.map_values(|s: String| s@),
            decreases self.content.len() - i,
        {
            out.append(self.content[i].as_str());
            assert(self@.content.take(i + 1).drop_last() =~= self@.content.take(i as int));
            i = i + 1;
        }
        assert(self@.content.take(self.content.len() as int) =~= self@.content);
        out
    }

    /// Whether any tool call was gathered.
    pub fn has_tool_calls(&self) -> (r: bool)
        requires
            self.wf(),
        ensures
            r == exists|k: u64| self@.tools.contains_key(k),
    {
        if self.order.len() > 0 {
            assert(self.order@.contains(self.order@[0]));
            assert(self@.tools.contains_key(self.order@[0]));
            true
        } else {
            assert forall|k: u64| !self@.tools.contains_key(k) by {
                if self@.tools.contains_key(k) {
                    assert(self.order@.contains(k));
                }
            }
            false
        }
    }

    /// Whether any content text was streamed (even an empty one).
    pub fn has_content(&self) -> (r: bool)
        ensures
            r == (self@.content.len() > 0),
    {
        self.content.len() > 0
    }

    /// The gathered tool calls, by increasing index.
    pub fn tools_in_order(&self) -> (r: Vec<(u64, Tool)>)
        requires
            self.wf(),
        ensures
            in_index_order(indexed_tools_view(r@), self@.tools),
    {
        let keys = sort_indices(&self.order);
        let mut out: Vec<(u64, Tool)> = Vec::new();
        let mut i: usize = 0;
        while i < keys.len()
            invariant
                i <= keys.len(),
                self.wf(),
                strictly_increasing(keys@),
                forall|k: u64| keys@.contains(k) <==> self.order@.contains(k),
                out@.len() == i,
                forall|j: int| 0 <= j < i ==> (#[trigger] out@[j]).0 == keys@[j],
                forall|j: int|
                    0 <= j < i ==> self@.tools.contains_key(#[trigger] out@[j].0) && self@.tools[out@[j].0]
                        == out@[j].1@,
            decreases keys.len() - i,
        {
            let k = keys[i];
            assert(keys@.contains(k));
            let t = self.tools.get(&k);
            match t {
                Some(t) => {
                    out.push((k, t.clone()));
                },
                None => {
                    assert(false);
                },
            }
            i = i + 1;
        }
        let ghost v = indexed_tools_view(out@);
        assert forall|a: int, b: int| 0 <= a < b < v.len() implies v[a].0 < v[b].0 by {
            assert(out@[a].0 == keys@[a] && out@[b].0 == keys@[b]);
        }
        assert forall|a: int| 0 <= a < v.len() implies self@.tools.contains_key(#[trigger] v[a].0)
            && self@.tools[v[a].0] == v[a].1 by {
            assert(v[a] == (out@[a].0, out@[a].1@));
        }
        assert forall|k: u64| self@.tools.contains_key(k) implies exists|a: int|
            0 <= a < v.len() && #[trigger] v[a].0 == k by {
            assert(self.order@.contains(k));
            assert(keys@.contains(k));
            let a = choose|a: int| 0 <= a < keys@.len() && keys@[a] == k;
            assert(v[a].0 == out@[a].0);
        }
        out
    }
}

/// The texts joined end to end.
pub open spec fn concat_all(parts: Seq<Seq<char>>) -> Seq<char>
    decreases parts.len(),
{
    if parts.len() == 0 {
        Seq::empty()
    } else {
        concat_all(parts.drop_last()) + parts.last()
    }
}

pub open spec fn indexed_tools_view(ts: Seq<(u64, Tool)>) -> Seq<(u64, ToolView)> {
    ts.map_values(|p: (u64, Tool)| (p.0, p.1@))
}

} // verus!
