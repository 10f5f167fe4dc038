use vstd::prelude::*;
use std::collections::VecDeque;
use crate::events::{DisplayEvent, DisplayEventView};
use crate::tools::ToolView;

verus! {

/// How many lines one turn of the mouse wheel scrolls the history.
pub const SCROLL_SPEED: u8 = 2;

/// A rectangle of terminal cells. Its width and height never reach past the
/// last coordinate.
#[derive(Clone, Copy, Debug, PartialEq, Eq, Structural)]
pub struct Area {
    pub x: u16,
    pub y: u16,
    pub width: u16,
    pub height: u16,
}

pub open spec fn sat_add(a: u16, b: u16) -> u16 {
    if a + b > u16::MAX {
        u16::MAX
    } else {
        (a + b) as u16
    }
}

/// The rectangle at (`x`, `y`) of the given size, cut short at the last coordinate.
pub open spec fn area_of(x: u16, y: u16, width: u16, height: u16) -> Area {
    Area { x, y, width: (sat_add(x, width) - x) as u16, height: (sat_add(y, height) - y) as u16 }
}

/// Whether the cell (`px`, `py`) lies inside the rectangle.
pub open spec fn area_contains(a: Area, px: u16, py: u16) -> bool {
    px >= a.x && px < sat_add(a.x, a.width) && py >= a.y && py < sat_add(a.y, a.height)
}

fn saturating_add_u16(a: u16, b: u16) -> (r: u16)
    ensures
        r == sat_add(a, b),
{
    if a > u16::MAX - b {
        u16::MAX
    } else {
        a + b
    }
}

impl Area {
    /// The empty rectangle at the origin.
    pub fn zero() -> (r: Area)
        ensures
            r == (Area { x: 0, y: 0, width: 0, height: 0 }),
    {
        Area { x: 0, y: 0, width: 0, height: 0 }
    }

    pub fn new(x: u16, y: u16, width: u16, height: u16) -> (r: Area)
        ensures
            r == area_of(x, y, width, height),
    {
        Area {
            x,
            y,
            width: saturating_add_u16(x, width) - x,
            height: saturating_add_u16(y, height) - y,
        }
    }

    pub fn contains(&self, px: u16, py: u16) -> (r: bool)
        ensures
            r == area_contains(*self, px, py),
    {
        px >= self.x && px < saturating_add_u16(self.x, self.width) && py >= self.y && py
            < saturating_add_u16(self.y, self.height)
    }
}

/// What a block of the history holds.
#[derive(Clone, Copy, Debug, PartialEq, Eq, Structural)]
pub enum BlockType {
    User,
    Reasoning { expanded: bool },
    Content,
    ToolCall,
    Error,
}

/// One block of the history: its kind, its text, and where it was last drawn.
#[derive(Debug)]
pub struct DisplayBlock {
    pub block_type: BlockType,
    pub content: String,
    pub area: Area,
}

pub struct BlockView {
    pub block_type: BlockType,
    pub content: Seq<char>,
    pub area: Area,
}

impl View for DisplayBlock {
    type V = BlockView;

    open spec fn view(&self) -> BlockView {
        BlockView { block_type: self.block_type, content: self.content@, area: self.area }
    }
}

pub open spec fn blocks_view(blocks: Seq<DisplayBlock>) -> Seq<BlockView> {
    blocks.map_values(|b: DisplayBlock| b@)
}

pub open spec fn zero_area() -> Area {
    Area { x: 0, y: 0, width: 0, height: 0 }
}

impl DisplayBlock {
    pub fn new(block_type: BlockType, content: String) -> (r: DisplayBlock)
        ensures
            r@ == (BlockView { block_type, content: content@, area: zero_area() }),
    {
        DisplayBlock { block_type, content, area: Area::zero() }
    }
}

/// Whether an event continues the block before it: content after content,
/// reasoning after reasoning, error after error.
pub open spec fn continues(e: DisplayEventView, t: BlockType) -> bool {
    match e {
        DisplayEventView::Content(_) => t is Content,
        DisplayEventView::Reasoning(_) => t is Reasoning,
        DisplayEventView::Error(_) => t is Error,
        DisplayEventView::ToolCall(_) => false,
    }
}

/// The text an event adds to the history.
pub open spec fn event_text(e: DisplayEventView) -> Seq<char> {
    match e {
        DisplayEventView::Content(s) => s,
        DisplayEventView::Reasoning(s) => s,
        DisplayEventView::Error(s) => s,
        DisplayEventView::ToolCall(t) => "Tool:"@ + t.name + " "@ + t.arguments,
    }
}

/// The kind of block an event opens; reasoning opens folded.
pub open spec fn event_block_type(e: DisplayEventView) -> BlockType {
    match e {
        DisplayEventView::Content(_) => BlockType::Content,
        DisplayEventView::Reasoning(_) => BlockType::Reasoning { expanded: false },
        DisplayEventView::Error(_) => BlockType::Error,
        DisplayEventView::ToolCall(_) => BlockType::ToolCall,
    }
}

/// The history after an event: a continuing event extends the last block,
/// any other opens a new one.
pub open spec fn apply_event(history: Seq<BlockView>, e: DisplayEventView) -> Seq<BlockView> {
    if history.len() > 0 && continues(e, history.last().block_type) {
        history.update(
            history.len() - 1,
            BlockView { content: history.last().content + event_text(e), ..history.last() },
        )
    } else {
        history.push(
            BlockView { block_type: event_block_type(e), content: event_text(e), area: zero_area() },
        )
    }
}

/// A key as the interface reads it.
pub enum Key {
    Char(char),
    Esc,
    Backspace,
    Enter,
    Up,
    Down,
    Other,
}

/// What a key press asks of the interface.
pub enum KeyOutcome {
    Nothing,
    ScrollUp,
    ScrollDown,
    Kill,
    End,
    Prompt(String),
}

pub enum KeyOutcomeView {
    Nothing,
    ScrollUp,
    ScrollDown,
    Kill,
    End,
    Prompt(Seq<char>),
}

impl View for KeyOutcome {
    type V = KeyOutcomeView;

    open spec fn view(&self) -> KeyOutcomeView {
        match self {
            KeyOutcome::Nothing => KeyOutcomeView::Nothing,
            KeyOutcome::ScrollUp => KeyOutcomeView::ScrollUp,
            KeyOutcome::ScrollDown => KeyOutcomeView::ScrollDown,
            KeyOutcome::Kill => KeyOutcomeView::Kill,
            KeyOutcome::End => KeyOutcomeView::End,
            KeyOutcome::Prompt(s) => KeyOutcomeView::Prompt(s@),
        }
    }
}

/// The prompt line and what the key asks, after a key press. `control`
/// says whether Control, and no other modifier, was held.
pub open spec fn key_step(input: Seq<char>, key: Key, control: bool) -> (Seq<char>, KeyOutcomeView) {
    match key {
        Key::Char(c) => if c == 'c' && control {
            (input, KeyOutcomeView::Kill)
        } else {
            (input.push(c), KeyOutcomeView::Nothing)
        },
        Key::Esc => (input, KeyOutcomeView::End),
        Key::Backspace => (
            if input.len() > 0 {
                input.drop_last()
            } else {
                input
            },
            KeyOutcomeView::Nothing,
        ),
        Key::Enter => (Seq::empty(), KeyOutcomeView::Prompt(input)),
        Key::Up => (input, KeyOutcomeView::ScrollUp),
        Key::Down => (input, KeyOutcomeView::ScrollDown),
        Key::Other => (input, KeyOutcomeView::Nothing),
    }
}

/// What one round of the interface brought.
pub enum Tick {
    Prompt(String),
    Idle,
    End,
    Kill,
}

pub enum TickView {
    Prompt(Seq<char>),
    Idle,
    End,
    Kill,
}

impl View for Tick {
    type V = TickView;

    open spec fn view(&self) -> TickView {
        match self {
            Tick::Prompt(s) => TickView::Prompt(s@),
            Tick::Idle => TickView::Idle,
            Tick::End => TickView::End,
            Tick::Kill => TickView::Kill,
        }
    }
}

/// What the interface is to do next.
pub enum RunAction {
    /// Keep going as before.
    Wait,
    /// Run the agent on this prompt.
    StartAgent(String),
    /// Stop waiting for the agent.
    StopAgent,
    /// Restore the terminal and quit.
    Terminate,
}

pub enum RunActionView {
    Wait,
    StartAgent(Seq<char>),
    StopAgent,
    Terminate,
}

impl View for RunAction {
    type V = RunActionView;

    open spec fn view(&self) -> RunActionView {
        match self {
            RunAction::Wait => RunActionView::Wait,
            RunAction::StartAgent(s) => RunActionView::StartAgent(s@),
            RunAction::StopAgent => RunActionView::StopAgent,
            RunAction::Terminate => RunActionView::Terminate,
        }
    }
}

/// The state of the interface: the prompt being typed, the history shown,
/// the prompts waiting for the agent, and whether the agent is running.
pub struct InterfaceState {
    input: String,
    history: Vec<DisplayBlock>,
    prompt_queue: VecDeque<String>,
    busy: bool,
}

pub struct InterfaceView {
    pub input: Seq<char>,
    pub history: Seq<BlockView>,
    pub queue: Seq<Seq<char>>,
    pub busy: bool,
}

impl View for InterfaceState {
    type V = InterfaceView;

    closed spec fn view(&self) -> InterfaceView {
        InterfaceView {
            input: self.input@,
            history: blocks_view(self.history@),
            queue: self.prompt_queue@.map_values(|s: String| s@),
            busy: self.busy,
        }
    }
}

pub open spec fn user_block(prompt: Seq<char>) -> BlockView {
    BlockView { block_type: BlockType::User, content: prompt, area: zero_area() }
}

pub open spec fn error_block(message: Seq<char>) -> BlockView {
    BlockView { block_type: BlockType::Error, content: message, area: zero_area() }
}

/// One round of the interface: while idle with prompts waiting, the oldest
/// of them (a new prompt joining the line last) starts the agent, whatever
/// the round brought; while idle with none waiting, a prompt starts the
/// agent and Control-C quits; while the agent runs, prompts wait in line,
/// and Escape or Control-C stop waiting for it.
pub open spec fn tick_step(s: InterfaceView, t: TickView) -> (InterfaceView, RunActionView) {
    if !s.busy && s.queue.len() > 0 {
        let q = match t {
            TickView::Prompt(p) => s.queue.push(p),
            _ => s.queue,
        };
        (
            InterfaceView {
                queue: q.drop_first(),
                history: s.history.push(user_block(q[0])),
                busy: true,
                ..s
            },
            RunActionView::StartAgent(q[0]),
        )
    } else if !s.busy {
        match t {
            TickView::Prompt(p) => (
                InterfaceView { history: s.history.push(user_block(p)), busy: true, ..s },
                RunActionView::StartAgent(p),
            ),
            TickView::Kill => (s, RunActionView::Terminate),
            _ => (s, RunActionView::Wait),
        }
    } else {
        match t {
            TickView::Prompt(p) => (InterfaceView { queue: s.queue.push(p), ..s }, RunActionView::Wait),
            TickView::Idle => (s, RunActionView::Wait),
            _ => (InterfaceView { busy: false, ..s }, RunActionView::StopAgent),
        }
    }
}

/// Takes the oldest waiting prompt, if any, and starts the agent on it.
pub open spec fn start_queued_step(s: InterfaceView) -> (InterfaceView, Option<Seq<char>>) {
    if s.queue.len() == 0 {
        (s, None)
    } else {
        (
            InterfaceView {
                queue: s.queue.drop_first(),
                history: s.history.push(user_block(s.queue[0])),
                busy: true,
                ..s
            },
            Some(s.queue[0]),
        )
    }
}

/// The agent has finished, with the text of its error if it failed.
pub open spec fn finish_step(s: InterfaceView, error: Option<Seq<char>>) -> InterfaceView {
    InterfaceView {
        busy: false,
        history: match error {
            Some(e) => s.history.push(error_block(e)),
            None => s.history,
        },
        ..s
    }
}

/// A click at the screen cell (`column`, `row`), with the history scrolled
/// by (`offset_x`, `offset_y`), unfolds or folds the reasoning blocks drawn there.
pub open spec fn click_step(history: Seq<BlockView>, column: u16, row: u16, offset_x: u16, offset_y: u16) -> Seq<BlockView> {
    history.map_values(
        |b: BlockView|
            if area_contains(b.area, sat_add(column, offset_x), sat_add(row, offset_y)) {
                match b.block_type {
                    BlockType::Reasoning { expanded } => BlockView {
                        block_type: BlockType::Reasoning { expanded: !expanded },
                        ..b
                    },
                    _ => b,
                }
            } else {
                b
            },
    )
}

/// How a block is drawn.
pub enum BlockStyle {
    /// What the user typed, on a dark background.
    UserPrompt,
    Plain,
    /// Reasoning, dimmed and in italics.
    Thinking,
    /// Errors, in red.
    Failure,
}

/// The text a block shows: the user's prompt behind a marker, folded
/// reasoning as a label, anything else as it is.
pub open spec fn block_text(b: BlockView) -> Seq<char> {
    match b.block_type {
        BlockType::User => "\u{276f} "@ + b.content,
        BlockType::Reasoning { expanded } => if expanded {
            b.content
        } else if b.content.len() > 0 {
            "Thinking >"@
        } else {
            "Thinking"@
        },
        _ => b.content,
    }
}

pub open spec fn block_style(t: BlockType) -> BlockStyle {
    match t {
        BlockType::User => BlockStyle::UserPrompt,
        BlockType::Reasoning { .. } => BlockStyle::Thinking,
        BlockType::Error => BlockStyle::Failure,
        _ => BlockStyle::Plain,
    }
}

/// The sum of the first `n` heights.
pub open spec fn height_sum(heights: Seq<u16>, n: int) -> int
    decreases n,
{
    if n <= 0 {
        0
    } else {
        height_sum(heights, n - 1) + heights[n - 1]
    }
}

/// The history laid out top to bottom: block `i`, when it has a height, is
/// drawn at the left edge, below the blocks before it, across the full width.
pub open spec fn layout_step(history: Seq<BlockView>, heights: Seq<u16>, width: u16) -> Seq<BlockView> {
    Seq::new(
        history.len(),
        |i: int|
            if i < heights.len() {
                BlockView {
                    area: area_of(0, height_sum(heights, i) as u16, width, heights[i]),
                    ..history[i]
                }
            } else {
                history[i]
            },
    )
}

/// Appends a character to a string.
#[verifier::external_body]
fn push_char(s: &mut String, c: char)
    ensures
        final(s)@ == old(s)@.push(c),
{
    s.push(c)
}

/// Removes the last character of a string, if there is one, and returns it.
#[verifier::external_body]
fn pop_char(s: &mut String) -> (r: Option<char>)
    ensures
        if old(s)@.len() > 0 {
            r == Some(old(s)@.last()) && final(s)@ == old(s)@.drop_last()
        } else {
            r is None && final(s)@ == old(s)@
        },
{
    s.pop()
}

/// The text a block shows.
pub fn display_text(block: &DisplayBlock) -> (r: String)
    ensures
        r@ == block_text(block@),
{
    match block.block_type {
        BlockType::User => {
            let mut t = String::from_str("\u{276f} ");
            t.append(block.content.as_str());
            t
        },
        BlockType::Reasoning { expanded } => if expanded {
            block.content.clone()
        } else if !block.content.as_str().is_empty() {
            String::from_str("Thinking >")
        } else {
            String::from_str("Thinking")
        },
        _ => block.content.clone(),
    }
}

/// How a block is drawn.
pub fn display_style(block: &DisplayBlock) -> (r: BlockStyle)
    ensures
        r == block_style(block.block_type),
{
    match block.block_type {
        BlockType::User => BlockStyle::UserPrompt,
        BlockType::Reasoning { .. } => BlockStyle::Thinking,
        BlockType::Error => BlockStyle::Failure,
        _ => BlockStyle::Plain,
    }
}

impl InterfaceState {
    /// An idle interface with nothing typed, shown or waiting.
    pub fn new() -> (r: InterfaceState)
        ensures
            r@.input == Seq::<char>::empty(),
            r@.history == Seq::<BlockView>::empty(),
            r@.queue == Seq::<Seq<char>>::empty(),
            !r@.busy,
    {
        let r = InterfaceState {
            input: String::new(),
            history: Vec::new(),
            prompt_queue: VecDeque::new(),
            busy: false,
        };
        assert(r@.history =~= Seq::<BlockView>::empty());
        assert(r@.queue =~= Seq::<Seq<char>>::empty());
        r
    }

    /// The prompt being typed.
    pub fn input(&self) -> (r: &String)
        ensures
            r@ == self@.input,
    {
        &self.input
    }

    /// The history shown.
    pub fn history(&self) -> (r: &Vec<DisplayBlock>)
        ensures
            blocks_view(r@) == self@.history,
    {
        &self.history
    }

    /// Whether the agent is running.
    pub fn is_busy(&self) -> (r: bool)
        ensures
            r == self@.busy,
    {
        self.busy
    }

    /// The prompt line: a marker, then what is being typed.
    pub fn prompt_line(&self) -> (r: String)
        ensures
            r@ == "\u{276f} "@ + self@.input,
    {
        let mut t = String::from_str("\u{276f} ");
        t.append(self.input.as_str());
        t
    }

    fn push_block(&mut self, b: DisplayBlock)
        ensures
            final(self)@ == (InterfaceView { history: old(self)@.history.push(b@), ..old(self)@ }),
    {
        let ghost before = self.history@;
        self.history.push(b);
        assert(blocks_view(self.history@) =~= blocks_view(before).push(b@));
    }

    /// Shows an event from the agent.
    pub fn handle_event(&mut self, event: &DisplayEvent)
        ensures
            final(self)@ == (InterfaceView { history: apply_event(old(self)@.history, event@), ..old(self)@ }),
    {
        let n = self.history.len();
        if n > 0 {
            let kind = self.history[n - 1].block_type;
            let text = match (event, kind) {
                (DisplayEvent::Content(t), BlockType::Content) => Some(t),
                (DisplayEvent::Reasoning(t), BlockType::Reasoning { .. }) => Some(t),
                (DisplayEvent::Error(t), BlockType::Error) => Some(t),
                _ => None,
            };
            if let Some(t) = text {
                let ghost before = self.history@;
                let mut last = self.history.pop().unwrap();
                last.content.append(t.as_str());
                self.history.push(last);
                assert(blocks_view(self.history@) =~= apply_event(blocks_view(before), event@));
                return;
            }
        }
        let block = match event {
            DisplayEvent::Content(t) => DisplayBlock::new(BlockType::Content, t.clone()),
            DisplayEvent::Error(t) => DisplayBlock::new(BlockType::Error, t.clone()),
            DisplayEvent::Reasoning(t) => DisplayBlock::new(
                BlockType::Reasoning { expanded: false },
                t.clone(),
            ),
            DisplayEvent::ToolCall(tool) => {
                let mut t = String::from_str("Tool:");
                t.append(tool.name.as_str());
                t.append(" ");
                t.append(tool.arguments.as_str());
                DisplayBlock::new(BlockType::ToolCall, t)
            },
        };
        self.push_block(block);
    }

    /// Handles a key press. `control` says whether Control, and no other
    /// modifier, was held.
    pub fn handle_key(&mut self, key: Key, control: bool) -> (r: KeyOutcome)
        ensures
            (final(self)@.input, r@) == key_step(old(self)@.input, key, control),
            final(self)@.history == old(self)@.history,
            final(self)@.queue == old(self)@.queue,
            final(self)@.busy == old(self)@.busy,
    {
        match key {
            Key::Char(c) => {
                if c == 'c' && control {
                    KeyOutcome::Kill
                } else {
                    push_char(&mut self.input, c);
                    KeyOutcome::Nothing
                }
            },
            Key::Esc => KeyOutcome::End,
            Key::Backspace => {
                let _ = pop_char(&mut self.input);
                KeyOutcome::Nothing
            },
            Key::Enter => {
                let mut taken = String::new();
                std::mem::swap(&mut taken, &mut self.input);
                KeyOutcome::Prompt(taken)
            },
            Key::Up => KeyOutcome::ScrollUp,
            Key::Down => KeyOutcome::ScrollDown,
            Key::Other => KeyOutcome::Nothing,
        }
    }

    /// A left click at the screen cell (`column`, `row`), the history being
    /// scrolled by (`offset_x`, `offset_y`).
    pub fn click(&mut self, column: u16, row: u16, offset_x: u16, offset_y: u16)
        ensures
            final(self)@ == (InterfaceView {
                history: click_step(old(self)@.history, column, row, offset_x, offset_y),
                ..old(self)@
            }),
    {
        let x = saturating_add_u16(column, offset_x);
        proof {
            let h = self.history@;
            assert forall|j: int| 0 <= j < h.len() implies (#[trigger] h[j])@ == blocks_view(h)[j] by {}
        }
        let y = saturating_add_u16(row, offset_y);
        let ghost start = blocks_view(self.history@);
        let ghost target = click_step(start, column, row, offset_x, offset_y);
        let ghost s0 = self@;
        let mut i: usize = 0;
        while i < self.history.len()
            invariant
                i <= self.history.len(),
                self.history@.len() == start.len(),
                target.len() == start.len(),
                target == click_step(start, column, row, offset_x, offset_y),
                x == sat_add(column, offset_x),
                y == sat_add(row, offset_y),
                self@.input == s0.input,
                self@.queue == s0.queue,
                self@.busy == s0.busy,
                forall|j: int| 0 <= j < i ==> (#[trigger] self.history@[j])@ == target[j],
                forall|j: int| i <= j < self.history@.len() ==> (#[trigger] self.history@[j])@ == start[j],
            decreases self.history.len() - i,
        {
            let ghost before = self.history@;
            assert(before[i as int]@ == start[i as int]);
            assert(target[i as int] == (if area_contains(start[i as int].area, x, y) {
                match start[i as int].block_type {
                    BlockType::Reasoning { expanded } => BlockView {
                        block_type: BlockType::Reasoning { expanded: !expanded },
                        ..start[i as int]
                    },
                    _ => start[i as int],
                }
            } else {
                start[i as int]
            }));
            if self.history[i].area.contains(x, y) {
                match self.history[i].block_type {
                    BlockType::Reasoning { expanded } => {
                        self.history[i].block_type = BlockType::Reasoning { expanded: !expanded };
                        assert(forall|j: int| 0 <= j < self.history@.len() && j != i ==> self.history@[j] == before[j]);
                    },
                    _ => {},
                }
            }
            assert(self.history@[i as int]@ == target[i as int]);
            i = i + 1;
        }
        assert(blocks_view(self.history@) =~= target);
    }

    /// Records the screen rectangles of the blocks, given the height of each
    /// block when drawn across `width` cells.
    pub fn layout(&mut self, heights: &Vec<u16>, width: u16)
        requires
            height_sum(heights@, if heights@.len() < old(self)@.history.len() { heights@.len() as int } else { old(self)@.history.len() as int }) <= u16::MAX,
        ensures
            final(self)@ == (InterfaceView {
                history: layout_step(old(self)@.history, heights@, width),
                ..old(self)@
            }),
    {
        let ghost start = blocks_view(self.history@);
        let ghost target = layout_step(start, heights@, width);
        proof {
            let h = self.history@;
            assert forall|j: int| 0 <= j < h.len() implies (#[trigger] h[j])@ == blocks_view(h)[j] by {}
        }
        let ghost limit: int = if heights@.len() < start.len() { heights@.len() as int } else { start.len() as int };
        let ghost s0 = self@;
        let mut top: u16 = 0;
        let mut i: usize = 0;
        while i < self.history.len() && i < heights.len()
            invariant
                self@.input == s0.input,
                self@.queue == s0.queue,
                self@.busy == s0.busy,
                i <= self.history.len(),
                i <= limit,
                limit <= heights@.len(),
                limit <= self.history@.len(),
                limit == if heights@.len() < start.len() { heights@.len() as int } else { start.len() as int },
                self.history@.len() == start.len(),
                target.len() == start.len(),
                target == layout_step(start, heights@, width),
                height_sum(heights@, limit) <= u16::MAX,
                top == height_sum(heights@, i as int),
                forall|j: int| 0 <= j < i ==> (#[trigger] self.history@[j])@ == target[j],
                forall|j: int| i <= j < self.history@.len() ==> (#[trigger] self.history@[j])@ == start[j],
            decreases self.history.len() - i,
        {
            proof {
                lemma_height_sum_monotone(heights@, i + 1, limit);
            }
            let h = heights[i];
            let ghost before = self.history@;
            self.history[i].area = Area::new(0, top, width, h);
            assert(forall|j: int| 0 <= j < self.history@.len() && j != i ==> self.history@[j] == before[j]);
            top = top + h;
            i = i + 1;
        }
        assert(blocks_view(self.history@) =~= target);
    }

    /// Starts the agent on the oldest waiting prompt, if there is one.
    pub fn start_queued(&mut self) -> (r: Option<String>)
        ensures
            (final(self)@, opt_text(r)) == start_queued_step(old(self)@),
    {
        let ghost before = self.prompt_queue@;
        match self.prompt_queue.pop_front() {
            Some(p) => {
                assert(self.prompt_queue@.map_values(|s: String| s@) =~= before.map_values(
                    |s: String| s@,
                ).drop_first());
                self.push_block(DisplayBlock::new(BlockType::User, p.clone()));
                self.busy = true;
                Some(p)
            },
            None => None,
        }
    }

    /// One round of the interface.
    pub fn on_tick(&mut self, tick: Tick) -> (r: RunAction)
        ensures
            (final(self)@, r@) == tick_step(old(self)@, tick@),
    {
        if !self.busy && self.prompt_queue.len() > 0 {
            if let Tick::Prompt(p) = tick {
                self.enqueue(p);
            }
            let ghost before = self.prompt_queue@;
            proof {
                assert(before.map_values(|s: String| s@)[0] == before[0]@);
            }
            let p = self.prompt_queue.pop_front().unwrap();
            assert(self.prompt_queue@.map_values(|s: String| s@) =~= before.map_values(
                |s: String| s@,
            ).drop_first());
            self.push_block(DisplayBlock::new(BlockType::User, p.clone()));
            self.busy = true;
            return RunAction::StartAgent(p);
        }
        if !self.busy {
            match tick {
                Tick::Prompt(p) => {
                    self.push_block(DisplayBlock::new(BlockType::User, p.clone()));
                    self.busy = true;
                    RunAction::StartAgent(p)
                },
                Tick::Kill => RunAction::Terminate,
                _ => RunAction::Wait,
            }
        } else {
            match tick {
                Tick::Prompt(p) => {
                    self.enqueue(p);
                    RunAction::Wait
                },
                Tick::Idle => RunAction::Wait,
                _ => {
                    self.busy = false;
                    RunAction::StopAgent
                },
            }
        }
    }

    fn enqueue(&mut self, p: String)
        ensures
            final(self)@ == (InterfaceView { queue: old(self)@.queue.push(p@), ..old(self)@ }),
    {
        let ghost before = self.prompt_queue@;
        let ghost pv = p@;
        self.prompt_queue.push_back(p);
        assert(self.prompt_queue@.map_values(|s: String| s@) =~= before.map_values(
            |s: String| s@,
        ).push(pv));
    }

    /// The agent has finished; `error` is the text of its error if it failed.
    pub fn on_agent_finished(&mut self, error: Option<String>)
        ensures
            final(self)@ == finish_step(old(self)@, opt_text(error)),
    {
        self.busy = false;
        if let Some(e) = error {
            self.push_block(DisplayBlock::new(BlockType::Error, e));
        }
    }
}

pub open spec fn opt_text(o: Option<String>) -> Option<Seq<char>> {
    match o {
        Some(s) => Some(s@),
        None => None,
    }
}

/// Sums of more heights are no smaller.
pub proof fn lemma_height_sum_monotone(heights: Seq<u16>, a: int, b: int)
    requires
        0 <= a <= b,
    ensures
        height_sum(heights, a) <= height_sum(heights, b),
    decreases b - a,
{
    if a < b {
        lemma_height_sum_monotone(heights, a, b - 1);
    }
}

/// The number of terminal lines that the text, read as Markdown, takes when
/// drawn wrapped (without trimming) across `width` cells inside a block with
/// one cell of padding on every side.
pub uninterp spec fn rendered_height(text: Seq<char>, width: u16) -> usize;

/// Calls `Paragraph::line_count` of ratatui on the Markdown rendering of the
/// text by `tui_markdown::from_str`, wrapped without trimming, inside a block
/// padded by one cell on every side. The contract only names the result
/// (`rendered_height`), which is a function of the text and the width; the
/// style the block is drawn in plays no part in the count.
#[verifier::external_body]
fn rendered_line_count(text: &str, width: u16) -> (r: usize)
    ensures
        r == rendered_height(text@, width),
{
    ratatui::widgets::Paragraph::new(tui_markdown::from_str(text))
        .wrap(ratatui::widgets::Wrap { trim: false })
        .block(ratatui::widgets::Block::default().padding(ratatui::widgets::Padding::uniform(1)))
        .line_count(width)
}

/// The height each block is drawn with: its line count, cut to 16 bits.
pub open spec fn block_heights(history: Seq<BlockView>, width: u16) -> Seq<u16> {
    history.map_values(|b: BlockView| rendered_height(block_text(b), width) as u16)
}

/// The total number of lines of all blocks.
pub open spec fn total_lines(history: Seq<BlockView>, width: u16) -> int
    decreases history.len(),
{
    if history.len() == 0 {
        0
    } else {
        total_lines(history.drop_last(), width) + rendered_height(block_text(history.last()), width)
    }
}

/// What to draw for one block.
pub struct RenderedBlock {
    pub text: String,
    pub style: BlockStyle,
    pub area: Area,
}

/// What to draw for the history: the width it is drawn across, the height of
/// the scrollable content, and each block.
pub struct RenderPlan {
    pub width: u16,
    pub content_height: u16,
    pub blocks: Vec<RenderedBlock>,
}

impl InterfaceState {
    /// Lays out the history for a drawing area `area_width` cells wide (at
    /// least one cell is used) and says what to draw. `None` when the blocks
    /// do not fit in 65535 lines, or their line counts overflow; the history
    /// is then unchanged.
    pub fn plan_render(&mut self, area_width: u16) -> (r: Option<RenderPlan>)
        ensures
            ({
                let w = if area_width < 1 { 1u16 } else { area_width };
                let hs = block_heights(old(self)@.history, w);
                let fits = height_sum(hs, hs.len() as int) <= u16::MAX && total_lines(
                    old(self)@.history,
                    w,
                ) <= usize::MAX;
                match r {
                    None => !fits && final(self)@ == old(self)@,
                    Some(plan) => {
                        &&& fits
                        &&& plan.width == w
                        &&& plan.content_height == (total_lines(old(self)@.history, w) as usize) as u16
                        &&& final(self)@ == (InterfaceView {
                            history: layout_step(old(self)@.history, hs, w),
                            ..old(self)@
                        })
                        &&& plan.blocks@.len() == final(self)@.history.len()
                        &&& forall|i: int|
                            0 <= i < plan.blocks@.len() ==> {
                                &&& (#[trigger] plan.blocks@[i]).text@ == block_text(final(self)@.history[i])
                                &&& plan.blocks@[i].style == block_style(final(self)@.history[i].block_type)
                                &&& plan.blocks@[i].area == final(self)@.history[i].area
                            }
                    },
                }
            }),
    {
        let w: u16 = if area_width < 1 { 1 } else { area_width };
        let ghost start = blocks_view(self.history@);
        let ghost hs = block_heights(start, w);
        let mut heights: Vec<u16> = Vec::new();
        let mut total: usize = 0;
        let mut stacked: u32 = 0;
        let mut overflow = false;
        let mut i: usize = 0;
        while i < self.history.len()
            invariant
                i <= self.history.len(),
                start == blocks_view(self.history@),
                hs == block_heights(start, w),
                heights@ == hs.take(i as int),
                !overflow ==> total == total_lines(start.take(i as int), w),
                !overflow ==> stacked == height_sum(hs, i as int),
                !overflow ==> stacked <= u16::MAX,
                overflow ==> !(height_sum(hs, hs.len() as int) <= u16::MAX && total_lines(start, w) <= usize::MAX),
            decreases self.history.len() - i,
        {
            let text = display_text(&self.history[i]);
            let lines = rendered_line_count(text.as_str(), w);
            assert(start[i as int] == self.history@[i as int]@);
            let h = #[verifier::truncate] (lines as u16);
            assert(hs[i as int] == h);
            proof {
                assert(start.take(i + 1).drop_last() =~= start.take(i as int));
                assert(hs.take(i + 1) =~= hs.take(i as int).push(h));
            }
            heights.push(h);
            if !overflow {
                if total > usize::MAX - lines || stacked + (h as u32) > 65535 {
                    proof {
                        if total > usize::MAX - lines {
                            lemma_total_lines_monotone(start, w, i + 1);
                        } else {
                            lemma_height_sum_monotone(hs, i + 1, hs.len() as int);
                        }
                    }
                    overflow = true;
                } else {
                    total = total + lines;
                    stacked = stacked + h as u32;
                }
            }
            i = i + 1;
        }
        if overflow {
            return None;
        }
        proof {
            assert(start.take(start.len() as int) =~= start);
            assert(hs.take(hs.len() as int) =~= hs);
            assert(heights@ =~= hs);
        }
        self.layout(&heights, w);
        let mut blocks: Vec<RenderedBlock> = Vec::new();
        let mut j: usize = 0;
        while j < self.history.len()
            invariant
                j <= self.history.len(),
                blocks@.len() == j,
                forall|k: int|
                    0 <= k < j ==> {
                        &&& (#[trigger] blocks@[k]).text@ == block_text(self.history@[k]@)
                        &&& blocks@[k].style == block_style(self.history@[k].block_type)
                        &&& blocks@[k].area == self.history@[k].area
                    },
            decreases self.history.len() - j,
        {
            let b = &self.history[j];
            blocks.push(RenderedBlock { text: display_text(b), style: display_style(b), area: b.area });
            j = j + 1;
        }
        Some(RenderPlan { width: w, content_height: #[verifier::truncate] (total as u16), blocks })
    }
}

/// Totals over more blocks are no smaller.
proof fn lemma_total_lines_monotone(history: Seq<BlockView>, width: u16, n: int)
    requires
        0 <= n <= history.len(),
    ensures
        total_lines(history.take(n), width) <= total_lines(history, width),
    decreases history.len() - n,
{
    if n < history.len() {
        lemma_total_lines_monotone(history, width, n + 1);
        assert(history.take(n + 1).drop_last() =~= history.take(n));
    } else {
        assert(history.take(n) =~= history);
    }
}

} // verus!
