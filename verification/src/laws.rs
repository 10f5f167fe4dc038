use vstd::prelude::*;
use crate::json::{JsonView, get_in, str_in, u64_in};
use crate::tools::ToolView;
use crate::events::DisplayEventView;
use crate::stream::{tool_call_step, accumulate_tool_calls, in_index_order, concat_all};
use crate::agent::{AgentView, continues_conversation, stop_message};
use crate::interface::{
    BlockType, BlockView, InterfaceView, TickView, RunActionView, Key, KeyOutcomeView, apply_event, key_step,
    click_step, tick_step, start_queued_step, finish_step, layout_step, height_sum, area_of,
    sat_add, continues, lemma_height_sum_monotone,
};

verus! {

/// The arguments texts of the fragments for index `k`, in order.
pub open spec fn fragments_for(calls: Seq<JsonView>, k: u64) -> Seq<Seq<char>>
    decreases calls.len(),
{
    if calls.len() == 0 {
        Seq::empty()
    } else {
        let rest = fragments_for(calls.drop_first(), k);
        if u64_in(calls[0].get("index"@)) == Some(k) {
            seq![str_in(get_in(calls[0].get("function"@), "arguments"@))->0] + rest
        } else {
            rest
        }
    }
}

proof fn lemma_concat_all_prepend(a: Seq<char>, rest: Seq<Seq<char>>)
    ensures
        concat_all(seq![a] + rest) == a + concat_all(rest),
    decreases rest.len(),
{
    if rest.len() == 0 {
        assert(seq![a] + rest =~= seq![a]);
        assert(seq![a].drop_last() =~= Seq::<Seq<char>>::empty());
        assert(concat_all(seq![a]) == concat_all(Seq::<Seq<char>>::empty()) + a);
        assert(Seq::<char>::empty() + a =~= a);
        assert(a + Seq::<char>::empty() =~= a);
    } else {
        let r = rest.drop_last();
        lemma_concat_all_prepend(a, r);
        assert((seq![a] + rest).drop_last() =~= seq![a] + r);
        assert((seq![a] + rest).last() == rest.last());
        assert(a + concat_all(r) + rest.last() =~= a + (concat_all(r) + rest.last()));
    }
}

/// Tool-call fragments gather by index: when every fragment of a chunk is
/// well formed and none is stopped, the arguments recorded for an index are
/// what it had before followed by the arguments of that index's fragments,
/// in stream order; its id and name stay those of its first fragment.
pub proof fn law_fragments_append_in_order(m: Map<u64, ToolView>, calls: Seq<JsonView>, k: u64)
    requires
        m.contains_key(k),
        accumulate_tool_calls(m, calls).1 is None,
    ensures
        accumulate_tool_calls(m, calls).0.contains_key(k),
        accumulate_tool_calls(m, calls).0[k].arguments == m[k].arguments + concat_all(
            fragments_for(calls, k),
        ),
        accumulate_tool_calls(m, calls).0[k].id == m[k].id,
        accumulate_tool_calls(m, calls).0[k].name == m[k].name,
    decreases calls.len(),
{
    if calls.len() == 0 {
        assert(m[k].arguments + Seq::<char>::empty() =~= m[k].arguments);
    } else {
        let m2 = tool_call_step(m, calls[0])->Ok_0;
        law_fragments_append_in_order(m2, calls.drop_first(), k);
        let rest = fragments_for(calls.drop_first(), k);
        if u64_in(calls[0].get("index"@)) == Some(k) {
            let a = str_in(get_in(calls[0].get("function"@), "arguments"@))->0;
            lemma_concat_all_prepend(a, rest);
            assert(m[k].arguments + a + concat_all(rest) =~= m[k].arguments + (a + concat_all(rest)));
        }
    }
}

/// A tool call not seen before opens with its first fragment: after a chunk
/// whose fragments are all well formed, an index is recorded exactly when
/// the chunk has fragments for it, and its arguments are their arguments
/// joined in stream order.
pub proof fn law_new_call_gathers_its_fragments(m: Map<u64, ToolView>, calls: Seq<JsonView>, k: u64)
    requires
        !m.contains_key(k),
        accumulate_tool_calls(m, calls).1 is None,
    ensures
        accumulate_tool_calls(m, calls).0.contains_key(k) <==> fragments_for(calls, k).len() > 0,
        accumulate_tool_calls(m, calls).0.contains_key(k) ==> accumulate_tool_calls(m, calls).0[k].arguments
            == concat_all(fragments_for(calls, k)),
    decreases calls.len(),
{
    if calls.len() > 0 {
        let m2 = tool_call_step(m, calls[0])->Ok_0;
        let rest = fragments_for(calls.drop_first(), k);
        if u64_in(calls[0].get("index"@)) == Some(k) {
            let a = str_in(get_in(calls[0].get("function"@), "arguments"@))->0;
            law_fragments_append_in_order(m2, calls.drop_first(), k);
            lemma_concat_all_prepend(a, rest);
        } else {
            law_new_call_gathers_its_fragments(m2, calls.drop_first(), k);
        }
    }
}

/// The order in which tool calls are run is fully determined by the
/// gathered calls: two lists that both list them by increasing index are equal.
pub proof fn law_tool_order_is_unique(
    a: Seq<(u64, ToolView)>,
    b: Seq<(u64, ToolView)>,
    m: Map<u64, ToolView>,
)
    requires
        in_index_order(a, m),
        in_index_order(b, m),
    ensures
        a == b,
    decreases a.len() + b.len(),
{
    if a.len() == 0 || b.len() == 0 {
        if a.len() > 0 {
            assert(m.contains_key(a[0].0));
        }
        if b.len() > 0 {
            assert(m.contains_key(b[0].0));
        }
        assert(a =~= b);
    } else {
        // The smallest index comes first in both lists.
        assert(m.contains_key(a[0].0));
        assert(m.contains_key(b[0].0));
        let ia = choose|i: int| 0 <= i < b.len() && #[trigger] b[i].0 == a[0].0;
        let ib = choose|i: int| 0 <= i < a.len() && #[trigger] a[i].0 == b[0].0;
        if ia > 0 {
            assert(b[0].0 < b[ia].0);
        }
        if ib > 0 {
            assert(a[0].0 < a[ib].0);
        }
        assert(a[0].0 == b[0].0);
        let k = a[0].0;
        let m2 = m.remove(k);
        let a2 = a.drop_first();
        let b2 = b.drop_first();
        assert(in_index_order(a2, m2)) by {
            assert forall|i: int| 0 <= i < a2.len() implies m2.contains_key(#[trigger] a2[i].0)
                && m2[a2[i].0] == a2[i].1 by {
                assert(a[0].0 < a[i + 1].0);
            }
            assert forall|j: u64| m2.contains_key(j) implies exists|i: int|
                0 <= i < a2.len() && #[trigger] a2[i].0 == j by {
                let i = choose|i: int| 0 <= i < a.len() && #[trigger] a[i].0 == j;
                assert(i != 0);
                assert(a2[i - 1].0 == j);
            }
        }
        assert(in_index_order(b2, m2)) by {
            assert forall|i: int| 0 <= i < b2.len() implies m2.contains_key(#[trigger] b2[i].0)
                && m2[b2[i].0] == b2[i].1 by {
                assert(b[0].0 < b[i + 1].0);
            }
            assert forall|j: u64| m2.contains_key(j) implies exists|i: int|
                0 <= i < b2.len() && #[trigger] b2[i].0 == j by {
                let i = choose|i: int| 0 <= i < b.len() && #[trigger] b[i].0 == j;
                assert(i != 0);
                assert(b2[i - 1].0 == j);
            }
        }
        law_tool_order_is_unique(a2, b2, m2);
        assert(a[0].1 == m[k] && b[0].1 == m[k]);
        assert(a =~= seq![a[0]] + a2);
        assert(b =~= seq![b[0]] + b2);
    }
}

/// A stream that breaks off ends the turn with an error naming the cause.
pub proof fn law_stream_error_ends_turn()
    ensures
        "stream_error"@ != "tool_calls"@,
        stop_message("stream_error"@) == Some("Stream finished with reason: stream_error"@),
{
    reveal_strlit("stream_error");
    reveal_strlit("tool_calls");
    reveal_strlit("length");
    reveal_strlit("content_filter");
    reveal_strlit("stop");
    reveal_strlit("Stream finished with reason: ");
    reveal_strlit("Stream finished with reason: stream_error");
    assert("stream_error"@[0] != "tool_calls"@[0]);
    assert("stream_error"@.len() != "length"@.len());
    assert("stream_error"@.len() != "content_filter"@.len());
    assert("stream_error"@.len() != "stop"@.len());
    assert("Stream finished with reason: "@ + "stream_error"@ =~= "Stream finished with reason: stream_error"@);
}

/// The same kind of event with another text.
pub open spec fn with_text(e: DisplayEventView, t: Seq<char>) -> DisplayEventView {
    match e {
        DisplayEventView::Content(_) => DisplayEventView::Content(t),
        DisplayEventView::Reasoning(_) => DisplayEventView::Reasoning(t),
        DisplayEventView::Error(_) => DisplayEventView::Error(t),
        DisplayEventView::ToolCall(c) => DisplayEventView::ToolCall(c),
    }
}

/// Text streamed in two pieces shows as if it had come in one: the second
/// piece of content, reasoning or error text extends the block the first opened.
pub proof fn law_split_text_shows_joined(history: Seq<BlockView>, e: DisplayEventView, a: Seq<char>, b: Seq<char>)
    requires
        !(e is ToolCall),
    ensures
        apply_event(apply_event(history, with_text(e, a)), with_text(e, b)) == apply_event(
            history,
            with_text(e, a + b),
        ),
{
    let h2 = apply_event(apply_event(history, with_text(e, a)), with_text(e, b));
    let h3 = apply_event(history, with_text(e, a + b));
    if history.len() > 0 && continues(with_text(e, a), history.last().block_type) {
        assert(history.last().content + a + b =~= history.last().content + (a + b));
    }
    assert(h2 =~= h3);
}

/// Backspace takes back the character just typed.
pub proof fn law_backspace_undoes_typing(input: Seq<char>, c: char, control: bool, control2: bool)
    requires
        !(c == 'c' && control),
    ensures
        key_step(key_step(input, Key::Char(c), control).0, Key::Backspace, control2).0 == input,
{
    assert(input.push(c).drop_last() =~= input);
}

/// Enter hands over exactly what was typed and leaves the prompt empty.
pub proof fn law_enter_submits_input(input: Seq<char>, control: bool)
    ensures
        key_step(input, Key::Enter, control) == (
            Seq::<char>::empty(),
            KeyOutcomeView::Prompt(input),
        ),
{
}

/// Clicking twice on the same cell leaves the history as it was.
pub proof fn law_click_twice_restores(history: Seq<BlockView>, column: u16, row: u16, ox: u16, oy: u16)
    ensures
        click_step(click_step(history, column, row, ox, oy), column, row, ox, oy) == history,
{
    let once = click_step(history, column, row, ox, oy);
    let twice = click_step(once, column, row, ox, oy);
    assert forall|i: int| 0 <= i < history.len() implies #[trigger] twice[i] == history[i] by {
        assert(once[i].area == history[i].area);
    }
    assert(twice =~= history);
}

/// Prompts typed while the agent runs wait in line and are started in the
/// order they were typed.
pub proof fn law_prompts_start_in_order(s: InterfaceView, a: Seq<char>, b: Seq<char>, e1: Option<Seq<char>>, e2: Option<Seq<char>>)
    requires
        s.busy,
        s.queue.len() == 0,
    ensures
        ({
            let (s1, act1) = tick_step(s, TickView::Prompt(a));
            let (s2, act2) = tick_step(s1, TickView::Prompt(b));
            let (s3, first) = start_queued_step(finish_step(s2, e1));
            let (s4, second) = start_queued_step(finish_step(s3, e2));
            &&& act1 == RunActionView::Wait
            &&& act2 == RunActionView::Wait
            &&& first == Some(a)
            &&& second == Some(b)
            &&& s4.queue.len() == 0
        }),
{
    let (s1, _) = tick_step(s, TickView::Prompt(a));
    let (s2, _) = tick_step(s1, TickView::Prompt(b));
    assert(s2.queue =~= seq![a, b]);
    let (s3, _) = start_queued_step(finish_step(s2, e1));
    assert(s3.queue =~= seq![b]);
}

/// Blocks are laid out one under the other without gaps: each block starts
/// where the one before it ends.
pub proof fn law_blocks_stack(history: Seq<BlockView>, heights: Seq<u16>, width: u16, i: int)
    requires
        0 <= i,
        i + 1 < history.len(),
        i + 1 < heights.len(),
        height_sum(heights, i + 2) <= u16::MAX,
    ensures
        ({
            let laid = layout_step(history, heights, width);
            laid[i + 1].area.y == laid[i].area.y + laid[i].area.height
        }),
{
    lemma_height_sum_monotone(heights, i, i + 2);
    lemma_height_sum_monotone(heights, i + 1, i + 2);
    lemma_height_sum_monotone(heights, 0, i);
    let laid = layout_step(history, heights, width);
    let top = height_sum(heights, i) as u16;
    assert(top == height_sum(heights, i));
    assert(sat_add(top, heights[i]) == top + heights[i]);
    assert(height_sum(heights, i + 1) == height_sum(heights, i) + heights[i]);
    assert(height_sum(heights, i + 2) == height_sum(heights, i + 1) + heights[i + 1]);
    assert(laid[i].area == area_of(0, height_sum(heights, i) as u16, width, heights[i]));
    assert(laid[i + 1].area == area_of(0, height_sum(heights, i + 1) as u16, width, heights[i + 1]));
}

/// The prompts that a run of rounds brought, in order.
pub open spec fn prompt_texts(ts: Seq<TickView>) -> Seq<Seq<char>>
    decreases ts.len(),
{
    if ts.len() == 0 {
        Seq::empty()
    } else {
        let r = prompt_texts(ts.drop_last());
        match ts.last() {
            TickView::Prompt(p) => r.push(p),
            _ => r,
        }
    }
}

/// The interface after a run of rounds.
pub open spec fn run_ticks(s: InterfaceView, ts: Seq<TickView>) -> InterfaceView
    decreases ts.len(),
{
    if ts.len() == 0 {
        s
    } else {
        tick_step(run_ticks(s, ts.drop_last()), ts.last()).0
    }
}

/// While the agent runs, every prompt typed joins the end of the line, in
/// the order typed, and nothing else changes.
pub proof fn law_prompts_wait_in_order(s: InterfaceView, ts: Seq<TickView>)
    requires
        s.busy,
        forall|i: int| 0 <= i < ts.len() ==> (#[trigger] ts[i] is Prompt) || ts[i] is Idle,
    ensures
        run_ticks(s, ts) == (InterfaceView { queue: s.queue + prompt_texts(ts), ..s }),
    decreases ts.len(),
{
    if ts.len() == 0 {
        assert(s.queue + Seq::<Seq<char>>::empty() =~= s.queue);
    } else {
        let init = ts.drop_last();
        assert forall|i: int| 0 <= i < init.len() implies (#[trigger] init[i] is Prompt) || init[i] is Idle by {
            assert(init[i] == ts[i]);
        }
        law_prompts_wait_in_order(s, init);
        assert(ts.last() == ts[ts.len() - 1]);
        match ts.last() {
            TickView::Prompt(p) => {
                assert(s.queue + prompt_texts(init).push(p) =~= (s.queue + prompt_texts(init)).push(p));
            },
            _ => {},
        }
    }
}

/// Once the agent is idle, the oldest waiting prompt is the next one the
/// agent runs on, whether it is taken from the line directly or by the next
/// round; its block joins the history just then.
pub proof fn law_oldest_prompt_runs_next(s: InterfaceView, t: TickView)
    requires
        !s.busy,
        s.queue.len() > 0,
    ensures
        start_queued_step(s).1 == Some(s.queue[0]),
        start_queued_step(s).0.history == s.history.push(crate::interface::user_block(s.queue[0])),
        start_queued_step(s).0.queue == s.queue.drop_first(),
        tick_step(s, t).1 == RunActionView::StartAgent(s.queue[0]),
        tick_step(s, t).0.history == s.history.push(crate::interface::user_block(s.queue[0])),
        tick_step(s, t).0.queue == (s.queue + prompt_texts(seq![t])).drop_first(),
{
    let one = seq![t];
    assert(one.drop_last() =~= Seq::<TickView>::empty());
    assert(prompt_texts(one.drop_last()) == prompt_texts(Seq::<TickView>::empty()));
    assert(prompt_texts(Seq::<TickView>::empty()) == Seq::<Seq<char>>::empty());
    assert(one.last() == t);
    match t {
        TickView::Prompt(p) => {
            assert(s.queue + prompt_texts(one) =~= s.queue.push(p));
        },
        _ => {
            assert(s.queue + prompt_texts(one) =~= s.queue);
        },
    }
}

/// A change to the interface that a round makes without the agent: an
/// event shown, a key pressed, a click, or a new layout.
pub enum LocalStep {
    Event(DisplayEventView),
    KeyPress(Key, bool),
    Click(u16, u16, u16, u16),
    Layout(Seq<u16>, u16),
}

pub open spec fn local_step(s: InterfaceView, step: LocalStep) -> InterfaceView {
    match step {
        LocalStep::Event(e) => InterfaceView { history: apply_event(s.history, e), ..s },
        LocalStep::KeyPress(k, c) => InterfaceView { input: key_step(s.input, k, c).0, ..s },
        LocalStep::Click(c, r, ox, oy) => InterfaceView { history: click_step(s.history, c, r, ox, oy), ..s },
        LocalStep::Layout(hs, w) => InterfaceView { history: layout_step(s.history, hs, w), ..s },
    }
}

pub open spec fn local_steps(s: InterfaceView, steps: Seq<LocalStep>) -> InterfaceView
    decreases steps.len(),
{
    if steps.len() == 0 {
        s
    } else {
        local_step(local_steps(s, steps.drop_last()), steps.last())
    }
}

/// Two block types of the same kind (a reasoning block, folded or not, is one kind).
pub open spec fn same_kind(a: BlockType, b: BlockType) -> bool {
    match (a, b) {
        (BlockType::User, BlockType::User) => true,
        (BlockType::Reasoning { .. }, BlockType::Reasoning { .. }) => true,
        (BlockType::Content, BlockType::Content) => true,
        (BlockType::ToolCall, BlockType::ToolCall) => true,
        (BlockType::Error, BlockType::Error) => true,
        _ => false,
    }
}

/// The events among the steps.
pub open spec fn event_count(steps: Seq<LocalStep>) -> int
    decreases steps.len(),
{
    if steps.len() == 0 {
        0
    } else {
        event_count(steps.drop_last()) + if steps.last() is Event { 1int } else { 0int }
    }
}

proof fn lemma_local_step_keeps_blocks(s: InterfaceView, step: LocalStep)
    ensures
        local_step(s, step).queue == s.queue,
        local_step(s, step).busy == s.busy,
        s.history.len() <= local_step(s, step).history.len() <= s.history.len() + if step is Event { 1int } else { 0int },
        forall|i: int| 0 <= i < s.history.len() ==> same_kind(
            #[trigger] local_step(s, step).history[i].block_type,
            s.history[i].block_type,
        ),
{
    let n = local_step(s, step);
    assert forall|i: int| 0 <= i < s.history.len() implies same_kind(
        #[trigger] n.history[i].block_type,
        s.history[i].block_type,
    ) by {
        match step {
            LocalStep::Event(e) => {
                if s.history.len() > 0 && continues(e, s.history.last().block_type) {
                    assert(n.history[i].block_type == s.history[i].block_type);
                } else {
                    assert(n.history[i] == s.history[i]);
                }
            },
            LocalStep::KeyPress(_, _) => {},
            LocalStep::Click(c, r, ox, oy) => {},
            LocalStep::Layout(hs, w) => {},
        }
    }
}

/// The rounds of the interface keep the line of waiting prompts and whether
/// the agent runs; they never remove a block nor change its kind (a click
/// only folds or unfolds reasoning), and add at most one block per event shown.
pub proof fn law_rounds_keep_blocks(s: InterfaceView, steps: Seq<LocalStep>)
    ensures
        local_steps(s, steps).queue == s.queue,
        local_steps(s, steps).busy == s.busy,
        s.history.len() <= local_steps(s, steps).history.len() <= s.history.len() + event_count(steps),
        forall|i: int| 0 <= i < s.history.len() ==> same_kind(
            #[trigger] local_steps(s, steps).history[i].block_type,
            s.history[i].block_type,
        ),
    decreases steps.len(),
{
    if steps.len() > 0 {
        let mid = local_steps(s, steps.drop_last());
        law_rounds_keep_blocks(s, steps.drop_last());
        lemma_local_step_keeps_blocks(mid, steps.last());
        assert forall|i: int| 0 <= i < s.history.len() implies same_kind(
            #[trigger] local_steps(s, steps).history[i].block_type,
            s.history[i].block_type,
        ) by {
            assert(same_kind(mid.history[i].block_type, s.history[i].block_type));
            assert(same_kind(local_step(mid, steps.last()).history[i].block_type, mid.history[i].block_type));
        }
    }
}

/// Two neighbouring block types that are not both content, nor both reasoning.
pub open spec fn different_streams(a: BlockType, b: BlockType) -> bool {
    !(a is Content && b is Content) && !(a is Reasoning && b is Reasoning)
}

/// No two neighbouring blocks are both content, or both reasoning.
pub open spec fn streams_apart(h: Seq<BlockView>) -> bool {
    forall|i: int, j: int|
        0 <= i && j == i + 1 && j < h.len() ==> different_streams(
            #[trigger] h[i].block_type,
            #[trigger] h[j].block_type,
        )
}

proof fn lemma_push_apart(h: Seq<BlockView>, b: BlockView)
    requires
        streams_apart(h),
        !(b.block_type is Content && h.len() > 0 && h.last().block_type is Content),
        !(b.block_type is Reasoning && h.len() > 0 && h.last().block_type is Reasoning),
    ensures
        streams_apart(h.push(b)),
{
    let n = h.push(b);
    assert forall|i: int, j: int| 0 <= i && j == i + 1 && j < n.len() implies different_streams(
        #[trigger] n[i].block_type,
        #[trigger] n[j].block_type,
    ) by {
        assert(n[i] == h[i]);
        if j < h.len() {
            assert(n[j] == h[j]);
            assert(different_streams(h[i].block_type, h[j].block_type));
        } else {
            assert(n[j] == b);
            assert(h.last() == h[i]);
        }
    }
}

proof fn lemma_same_kinds_apart(h: Seq<BlockView>, n: Seq<BlockView>)
    requires
        streams_apart(h),
        n.len() == h.len(),
        forall|i: int| 0 <= i < h.len() ==> same_kind(#[trigger] n[i].block_type, h[i].block_type),
    ensures
        streams_apart(n),
{
    assert forall|i: int, j: int| 0 <= i && j == i + 1 && j < n.len() implies different_streams(
        #[trigger] n[i].block_type,
        #[trigger] n[j].block_type,
    ) by {
        assert(same_kind(n[i].block_type, h[i].block_type));
        assert(same_kind(n[j].block_type, h[j].block_type));
        assert(different_streams(h[i].block_type, h[j].block_type));
    }
}

proof fn lemma_event_keeps_apart(s: InterfaceView, step: LocalStep)
    requires
        streams_apart(s.history),
    ensures
        streams_apart(local_step(s, step).history),
{
    let h = s.history;
    lemma_local_step_keeps_blocks(s, step);
    match step {
        LocalStep::Event(e) => {
            if h.len() > 0 && continues(e, h.last().block_type) {
                lemma_same_kinds_apart(h, local_step(s, step).history);
            } else {
                lemma_push_apart(
                    h,
                    BlockView {
                        block_type: crate::interface::event_block_type(e),
                        content: crate::interface::event_text(e),
                        area: crate::interface::zero_area(),
                    },
                );
            }
        },
        _ => {
            lemma_same_kinds_apart(h, local_step(s, step).history);
        },
    }
}

proof fn lemma_tick_keeps_apart(s: InterfaceView, t: TickView)
    requires
        streams_apart(s.history),
    ensures
        streams_apart(tick_step(s, t).0.history),
{
    let h = s.history;
    let q = match t {
        TickView::Prompt(p) => s.queue.push(p),
        _ => s.queue,
    };
    if !s.busy && s.queue.len() > 0 {
        lemma_push_apart(h, crate::interface::user_block(q[0]));
    } else if !s.busy {
        match t {
            TickView::Prompt(p) => lemma_push_apart(h, crate::interface::user_block(p)),
            _ => {},
        }
    }
}

/// Streamed text never ends up in two neighbouring blocks of the same kind:
/// the empty history has none, and every step of the interface keeps it so.
pub proof fn law_streams_stay_apart(s: InterfaceView, step: LocalStep, t: TickView, error: Option<Seq<char>>)
    requires
        streams_apart(s.history),
    ensures
        streams_apart(Seq::<BlockView>::empty()),
        streams_apart(local_step(s, step).history),
        streams_apart(tick_step(s, t).0.history),
        streams_apart(start_queued_step(s).0.history),
        streams_apart(finish_step(s, error).history),
{
    lemma_event_keeps_apart(s, step);
    lemma_tick_keeps_apart(s, t);
    if s.queue.len() > 0 {
        lemma_push_apart(s.history, crate::interface::user_block(s.queue[0]));
    }
    match error {
        Some(e) => lemma_push_apart(s.history, crate::interface::error_block(e)),
        None => {},
    }
}

/// Over a whole turn, and over any number of turns, the conversation only
/// grows: when each step continues the one before (as starting a turn,
/// ending a round and recording a tool's answer each do), the last state
/// keeps the first one's model, tool descriptions and tool names, and its
/// messages begin with the first one's, untouched.
pub proof fn law_conversation_only_grows(states: Seq<AgentView>)
    requires
        states.len() > 0,
        forall|i: int| 0 <= i < states.len() - 1 ==> continues_conversation(#[trigger] states[i], states[i + 1]),
    ensures
        continues_conversation(states[0], states.last()),
    decreases states.len(),
{
    if states.len() == 1 {
        assert(states[0].messages.take(states[0].messages.len() as int) =~= states[0].messages);
    } else {
        let init = states.drop_last();
        assert forall|i: int| 0 <= i < init.len() - 1 implies continues_conversation(#[trigger] init[i], init[i + 1]) by {
            assert(init[i] == states[i] && init[i + 1] == states[i + 1]);
            assert(continues_conversation(states[i], states[i + 1]));
        }
        law_conversation_only_grows(init);
        let a = states[0];
        let b = init.last();
        let c = states.last();
        assert(b == states[states.len() - 2]);
        assert(continues_conversation(states[states.len() - 2], states[states.len() - 1]));
        assert(c.messages.take(a.messages.len() as int) =~= b.messages.take(a.messages.len() as int)) by {
            assert forall|k: int| 0 <= k < a.messages.len() implies c.messages[k] == b.messages[k] by {
                assert(c.messages.take(b.messages.len() as int)[k] == b.messages[k]);
            }
        }
    }
}

/// Escape or Control-C while the agent runs stops waiting for it: the
/// interface is idle again, with its line of prompts and its history as they
/// were, so that a prompt in the next round (none waiting) starts the agent on it.
pub proof fn law_stopping_leaves_interface_idle(s: InterfaceView, t: TickView, p: Seq<char>)
    requires
        s.busy,
        t is End || t is Kill,
    ensures
        tick_step(s, t).1 == RunActionView::StopAgent,
        !tick_step(s, t).0.busy,
        tick_step(s, t).0.queue == s.queue,
        tick_step(s, t).0.history == s.history,
        tick_step(s, t).0.input == s.input,
        s.queue.len() == 0 ==> tick_step(tick_step(s, t).0, TickView::Prompt(p)).1
            == RunActionView::StartAgent(p),
{
}

/// A click at screen cell (`column`, `row`) with the history scrolled by
/// (`offset_x`, `offset_y`) lands on the content cell (`column + offset_x`,
/// `row + offset_y`): exactly the reasoning blocks whose area holds that cell
/// flip between folded and unfolded; every other block, and every block's
/// text and area, stay as they were.
pub proof fn law_click_lands_on_scrolled_cell(
    h: Seq<BlockView>,
    column: u16,
    row: u16,
    offset_x: u16,
    offset_y: u16,
)
    requires
        column + offset_x <= u16::MAX,
        row + offset_y <= u16::MAX,
    ensures
        click_step(h, column, row, offset_x, offset_y).len() == h.len(),
        forall|i: int|
            0 <= i < h.len() ==> {
                let a = h[i].area;
                let cx = column + offset_x;
                let cy = row + offset_y;
                let hit = a.x <= cx && cx < sat_add(a.x, a.width) && a.y <= cy && cy < sat_add(a.y, a.height);
                let n = #[trigger] click_step(h, column, row, offset_x, offset_y)[i];
                &&& n.content == h[i].content
                &&& n.area == a
                &&& n.block_type == match h[i].block_type {
                    BlockType::Reasoning { expanded } => if hit {
                        BlockType::Reasoning { expanded: !expanded }
                    } else {
                        h[i].block_type
                    },
                    _ => h[i].block_type,
                }
            },
{
}

/// An event extends the last block only when that block is of the event's
/// own kind (content after content, reasoning after reasoning, error after
/// error); otherwise, and always for a tool call, it opens a new block of its
/// kind with its text, reasoning opening folded, and every earlier block stays.
pub proof fn law_event_extends_only_its_own_kind(h: Seq<BlockView>, b: BlockView, e: DisplayEventView)
    ensures
        ({
            let n = apply_event(h.push(b), e);
            let zero = crate::interface::zero_area();
            match e {
                DisplayEventView::Content(t) => if b.block_type is Content {
                    n == h.push(BlockView { content: b.content + t, ..b })
                } else {
                    n == h.push(b).push(BlockView { block_type: BlockType::Content, content: t, area: zero })
                },
                DisplayEventView::Reasoning(t) => if b.block_type is Reasoning {
                    n == h.push(BlockView { content: b.content + t, ..b })
                } else {
                    n == h.push(b).push(
                        BlockView { block_type: BlockType::Reasoning { expanded: false }, content: t, area: zero },
                    )
                },
                DisplayEventView::Error(t) => if b.block_type is Error {
                    n == h.push(BlockView { content: b.content + t, ..b })
                } else {
                    n == h.push(b).push(BlockView { block_type: BlockType::Error, content: t, area: zero })
                },
                DisplayEventView::ToolCall(c) => n == h.push(b).push(
                    BlockView {
                        block_type: BlockType::ToolCall,
                        content: "Tool:"@ + c.name + " "@ + c.arguments,
                        area: zero,
                    },
                ),
            }
        }),
        ({
            let n = apply_event(Seq::empty(), e);
            n.len() == 1 && !(n[0].block_type is User)
        }),
{
    let hb = h.push(b);
    assert(hb.last() == b);
    assert(hb.len() - 1 == h.len());
    match e {
        DisplayEventView::Content(t) => {
            if b.block_type is Content {
                assert(apply_event(hb, e) =~= h.push(BlockView { content: b.content + t, ..b }));
            }
        },
        DisplayEventView::Reasoning(t) => {
            if b.block_type is Reasoning {
                assert(apply_event(hb, e) =~= h.push(BlockView { content: b.content + t, ..b }));
            }
        },
        DisplayEventView::Error(t) => {
            if b.block_type is Error {
                assert(apply_event(hb, e) =~= h.push(BlockView { content: b.content + t, ..b }));
            }
        },
        _ => {},
    }
}

/// The delta of a chunk's first choice, read straight from its JSON.
pub open spec fn first_delta(c: JsonView) -> Option<JsonView> {
    match c {
        JsonView::Object(_) => match c.get("choices"@) {
            Some(JsonView::Array(cs)) => if cs.len() > 0 {
                cs[0].get("delta"@)
            } else {
                None
            },
            _ => None,
        },
        _ => None,
    }
}

/// Every chunk whose delta carries a content string shows exactly that text,
/// last, and records it; a reasoning string is shown first; nothing else is
/// shown.
pub proof fn law_chunk_shows_its_text(c: JsonView)
    ensures
        ({
            let shown = crate::stream::chunk_events(c);
            let content = match first_delta(c) {
                Some(d) => match d.get("content"@) {
                    Some(JsonView::Str(t)) => Some(t),
                    _ => None,
                },
                None => None,
            };
            let reasoning = match first_delta(c) {
                Some(d) => match d.get("reasoning"@) {
                    Some(JsonView::Str(t)) => Some(t),
                    _ => None,
                },
                None => None,
            };
            &&& shown.len() == (if content is Some { 1int } else { 0int }) + (if reasoning is Some { 1int } else { 0int })
            &&& content matches Some(t) ==> shown.last() == DisplayEventView::Content(t)
                && crate::stream::chunk_content(c) == Some(t)
            &&& reasoning matches Some(r) ==> shown[0] == DisplayEventView::Reasoning(r)
        }),
{
}

/// A string member of a tool's arguments is taken as it is, the empty string
/// included; a member that is missing or not a string gives nothing.
pub proof fn law_string_members_taken_as_given(
    fields: Seq<(Seq<char>, JsonView)>,
    k: Seq<char>,
    v: JsonView,
    rest: Seq<(Seq<char>, JsonView)>,
)
    ensures
        crate::tools::string_arg(seq![(k, v)] + rest, k) == match v {
            JsonView::Str(s) => Some(s),
            _ => None,
        },
        crate::json::lookup(fields, k) matches Some(JsonView::Str(s)) ==> crate::tools::string_arg(fields, k) == Some(s),
        !(crate::json::lookup(fields, k) matches Some(JsonView::Str(_))) ==> crate::tools::string_arg(fields, k) is None,
{
    assert((seq![(k, v)] + rest)[0] == (k, v));
}

/// While idle with no prompt waiting, a prompt starts the agent on it and
/// shows it as the user's block; Control-C quits, and any other round
/// changes nothing.
pub proof fn law_idle_rounds(s: InterfaceView, t: TickView)
    requires
        !s.busy,
        s.queue.len() == 0,
    ensures
        match t {
            TickView::Prompt(p) => {
                &&& tick_step(s, t).1 == RunActionView::StartAgent(p)
                &&& tick_step(s, t).0.busy
                &&& tick_step(s, t).0.queue == s.queue
                &&& tick_step(s, t).0.history.len() == s.history.len() + 1
                &&& tick_step(s, t).0.history.last().block_type == BlockType::User
                &&& tick_step(s, t).0.history.last().content == p
                &&& tick_step(s, t).0.history.drop_last() == s.history
            },
            TickView::Kill => tick_step(s, t) == (s, RunActionView::Terminate),
            _ => tick_step(s, t) == (s, RunActionView::Wait),
        },
{
    match t {
        TickView::Prompt(p) => {
            assert(tick_step(s, t).0.history.drop_last() =~= s.history);
        },
        _ => {},
    }
}

} // verus!
