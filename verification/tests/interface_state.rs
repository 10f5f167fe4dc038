use coding_agent::events::DisplayEvent;
use coding_agent::interface::{
    display_text, Area, BlockStyle, BlockType, DisplayBlock, InterfaceState, Key, KeyOutcome,
    RunAction, Tick,
};
use coding_agent::tools::Tool;

fn texts(st: &InterfaceState) -> Vec<(BlockType, String)> {
    st.history().iter().map(|b| (b.block_type, b.content.clone())).collect()
}

#[test]
fn streamed_text_merges_into_one_block() {
    let mut st = InterfaceState::new();
    st.handle_event(&DisplayEvent::Reasoning("a".to_string()));
    st.handle_event(&DisplayEvent::Reasoning("b".to_string()));
    st.handle_event(&DisplayEvent::Content("Hel".to_string()));
    st.handle_event(&DisplayEvent::Content("lo".to_string()));
    st.handle_event(&DisplayEvent::ToolCall(Tool::new("i".to_string(), "Bash".to_string(), "{}".to_string())));
    st.handle_event(&DisplayEvent::ToolCall(Tool::new("j".to_string(), "Read".to_string(), "{}".to_string())));
    st.handle_event(&DisplayEvent::Error("e1".to_string()));
    st.handle_event(&DisplayEvent::Error("e2".to_string()));
    assert_eq!(
        texts(&st),
        vec![
            (BlockType::Reasoning { expanded: false }, "ab".to_string()),
            (BlockType::Content, "Hello".to_string()),
            (BlockType::ToolCall, "Tool:Bash {}".to_string()),
            (BlockType::ToolCall, "Tool:Read {}".to_string()),
            (BlockType::Error, "e1e2".to_string()),
        ]
    );
}

#[test]
fn typing_editing_and_submitting() {
    let mut st = InterfaceState::new();
    assert!(matches!(st.handle_key(Key::Char('h'), false), KeyOutcome::Nothing));
    assert!(matches!(st.handle_key(Key::Char('i'), false), KeyOutcome::Nothing));
    assert!(matches!(st.handle_key(Key::Char('x'), false), KeyOutcome::Nothing));
    assert!(matches!(st.handle_key(Key::Backspace, false), KeyOutcome::Nothing));
    assert_eq!(st.input(), "hi");
    assert_eq!(st.prompt_line(), "\u{276f} hi");
    assert!(matches!(st.handle_key(Key::Char('a'), true), KeyOutcome::Nothing));
    assert_eq!(st.input(), "hia");
    assert!(matches!(st.handle_key(Key::Char('c'), true), KeyOutcome::Kill));
    assert!(matches!(st.handle_key(Key::Esc, false), KeyOutcome::End));
    assert!(matches!(st.handle_key(Key::Up, false), KeyOutcome::ScrollUp));
    assert!(matches!(st.handle_key(Key::Down, false), KeyOutcome::ScrollDown));
    assert!(matches!(st.handle_key(Key::Other, false), KeyOutcome::Nothing));
    match st.handle_key(Key::Enter, false) {
        KeyOutcome::Prompt(p) => assert_eq!(p, "hia"),
        _ => panic!("expected a prompt"),
    }
    assert_eq!(st.input(), "");
    assert!(matches!(st.handle_key(Key::Backspace, false), KeyOutcome::Nothing));
    assert_eq!(st.input(), "");
}

#[test]
fn prompts_wait_while_busy() {
    let mut st = InterfaceState::new();
    assert!(st.start_queued().is_none());
    assert!(matches!(st.on_tick(Tick::Idle), RunAction::Wait));
    assert!(matches!(st.on_tick(Tick::End), RunAction::Wait));
    match st.on_tick(Tick::Prompt("one".to_string())) {
        RunAction::StartAgent(p) => assert_eq!(p, "one"),
        _ => panic!("expected start"),
    }
    assert!(st.is_busy());
    assert!(matches!(st.on_tick(Tick::Prompt("two".to_string())), RunAction::Wait));
    assert!(matches!(st.on_tick(Tick::Prompt("three".to_string())), RunAction::Wait));
    st.on_agent_finished(Some("failed".to_string()));
    assert!(!st.is_busy());
    assert_eq!(st.start_queued(), Some("two".to_string()));
    assert!(matches!(st.on_tick(Tick::End), RunAction::StopAgent));
    assert_eq!(st.start_queued(), Some("three".to_string()));
    assert!(matches!(st.on_tick(Tick::Kill), RunAction::StopAgent));
    assert!(st.start_queued().is_none());
    assert!(matches!(st.on_tick(Tick::Kill), RunAction::Terminate));
    assert_eq!(
        texts(&st),
        vec![
            (BlockType::User, "one".to_string()),
            (BlockType::Error, "failed".to_string()),
            (BlockType::User, "two".to_string()),
            (BlockType::User, "three".to_string()),
        ]
    );
}

#[test]
fn area_follows_ratatui() {
    let a = Area::new(65530, 1, 10, 2);
    assert_eq!(a, Area { x: 65530, y: 1, width: 5, height: 2 });
    assert!(a.contains(65530, 1));
    assert!(a.contains(65534, 2));
    assert!(!a.contains(65535, 2));
    assert!(!a.contains(65530, 3));
}

#[test]
fn layout_stacks_blocks() {
    let mut st = InterfaceState::new();
    st.handle_event(&DisplayEvent::Content("a".to_string()));
    st.handle_event(&DisplayEvent::Error("b".to_string()));
    st.handle_event(&DisplayEvent::Reasoning("c".to_string()));
    st.layout(&vec![3, 4], 20);
    let areas: Vec<Area> = st.history().iter().map(|b| b.area).collect();
    assert_eq!(
        areas,
        vec![
            Area { x: 0, y: 0, width: 20, height: 3 },
            Area { x: 0, y: 3, width: 20, height: 4 },
            Area { x: 0, y: 0, width: 0, height: 0 },
        ]
    );
}

#[test]
fn clicks_fold_and_unfold_reasoning() {
    let mut st = InterfaceState::new();
    st.handle_event(&DisplayEvent::Reasoning("why".to_string()));
    st.handle_event(&DisplayEvent::Content("so".to_string()));
    st.layout(&vec![3, 3], 10);
    st.click(1, 1, 0, 0);
    assert_eq!(st.history()[0].block_type, BlockType::Reasoning { expanded: true });
    assert_eq!(display_text(&st.history()[0]), "why");
    st.click(1, 0, 0, 4);
    assert_eq!(st.history()[1].block_type, BlockType::Content);
    st.click(1, 0, 0, 2);
    assert_eq!(st.history()[0].block_type, BlockType::Reasoning { expanded: false });
    assert_eq!(display_text(&st.history()[0]), "Thinking >");
}

#[test]
fn block_texts() {
    let b = DisplayBlock::new(BlockType::User, "go".to_string());
    assert_eq!(display_text(&b), "\u{276f} go");
    let b = DisplayBlock::new(BlockType::Reasoning { expanded: false }, String::new());
    assert_eq!(display_text(&b), "Thinking");
    let b = DisplayBlock::new(BlockType::ToolCall, "t".to_string());
    assert_eq!(display_text(&b), "t");
}

#[test]
fn render_plan_lays_out_the_history() {
    let mut st = InterfaceState::new();
    st.handle_event(&DisplayEvent::Content("hello".to_string()));
    st.handle_event(&DisplayEvent::Error("bad".to_string()));
    let plan = st.plan_render(0).expect("fits");
    assert_eq!(plan.width, 1);
    let plan = st.plan_render(40).expect("fits");
    assert_eq!(plan.width, 40);
    assert_eq!(plan.blocks.len(), 2);
    assert_eq!(plan.blocks[0].text, "hello");
    assert!(matches!(plan.blocks[0].style, BlockStyle::Plain));
    assert!(matches!(plan.blocks[1].style, BlockStyle::Failure));
    // One line of text with one cell of padding above and below.
    assert_eq!(plan.blocks[0].area, Area { x: 0, y: 0, width: 40, height: 3 });
    assert_eq!(plan.blocks[1].area, Area { x: 0, y: 3, width: 40, height: 3 });
    assert_eq!(plan.content_height, 6);
    assert_eq!(st.history()[1].area, plan.blocks[1].area);
}

#[test]
fn idle_rounds_start_waiting_prompts_first() {
    let mut st = InterfaceState::new();
    assert!(matches!(st.on_tick(Tick::Prompt("one".to_string())), RunAction::StartAgent(_)));
    assert!(matches!(st.on_tick(Tick::Prompt("two".to_string())), RunAction::Wait));
    st.on_agent_finished(None);
    // Control-C does not quit while a prompt waits: the prompt runs.
    match st.on_tick(Tick::Kill) {
        RunAction::StartAgent(p) => assert_eq!(p, "two"),
        _ => panic!("expected the waiting prompt to start"),
    }
    assert!(matches!(st.on_tick(Tick::Prompt("three".to_string())), RunAction::Wait));
    st.on_agent_finished(None);
    match st.on_tick(Tick::Prompt("four".to_string())) {
        RunAction::StartAgent(p) => assert_eq!(p, "three"),
        _ => panic!("expected the oldest prompt to start"),
    }
    st.on_agent_finished(None);
    assert_eq!(st.start_queued(), Some("four".to_string()));
}
