use vstd::prelude::*;
use crate::tools::{Tool, ToolView};

verus! {

/// What the agent reports to the interface while it works.
#[derive(Debug)]
pub enum DisplayEvent {
    Reasoning(String),
    Content(String),
    ToolCall(Tool),
    Error(String),
}

pub enum DisplayEventView {
    Reasoning(Seq<char>),
    Content(Seq<char>),
    ToolCall(ToolView),
    Error(Seq<char>),
}

impl View for DisplayEvent {
    type V = DisplayEventView;

    open spec fn view(&self) -> DisplayEventView {
        match self {
            DisplayEvent::Reasoning(s) => DisplayEventView::Reasoning(s@),
            DisplayEvent::Content(s) => DisplayEventView::Content(s@),
            DisplayEvent::ToolCall(t) => DisplayEventView::ToolCall(t@),
            DisplayEvent::Error(s) => DisplayEventView::Error(s@),
        }
    }
}

impl Clone for DisplayEvent {
    fn clone(&self) -> (r: DisplayEvent)
        ensures
            r@ == self@,
    {
        match self {
            DisplayEvent::Reasoning(s) => DisplayEvent::Reasoning(s.clone()),
            DisplayEvent::Content(s) => DisplayEvent::Content(s.clone()),
            DisplayEvent::ToolCall(t) => DisplayEvent::ToolCall(t.clone()),
            DisplayEvent::Error(s) => DisplayEvent::Error(s.clone()),
        }
    }
}

} // verus!
