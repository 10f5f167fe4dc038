use vstd::prelude::*;
use crate::json::{
    Json, JsonNumber, JsonNumberView, JsonView, clone_items, items_view, fields_view,
    lemma_fields_view_eq, lemma_items_view_push, member, member_of, opt_json_view, parse_json,
    parsed_json,
};
use crate::events::{DisplayEvent, DisplayEventView};
use crate::tools::{Tool, ToolView};
use crate::stream::{StreamState, concat_all, in_index_order, indexed_tools_view};

verus! {

/// The largest number of tokens that one response may hold.
pub const MAX_COMPLETION_TOKENS: u64 = 16384;

/// The conversation with the model: the model's name, every message so far,
/// the JSON descriptions of the tools offered, and the names of the tools
/// that can be run.
pub struct Agent {
    model: String,
    messages: Vec<Json>,
    specs: Vec<Json>,
    tool_names: Vec<String>,
}

pub struct AgentView {
    pub model: Seq<char>,
    pub messages: Seq<JsonView>,
    pub specs: Seq<JsonView>,
    pub tool_names: Seq<Seq<char>>,
}

impl View for Agent {
    type V = AgentView;

    closed spec fn view(&self) -> AgentView {
        AgentView {
            model: self.model@,
            messages: items_view(self.messages@),
            specs: items_view(self.specs@),
            tool_names: self.tool_names@.map_values(|s: String| s@),
        }
    }
}

/// `new` continues the conversation `old`: the same model, tool
/// descriptions and tool names, and `old`'s messages, untouched, first.
pub open spec fn continues_conversation(old: AgentView, new: AgentView) -> bool {
    &&& new.model == old.model
    &&& new.specs == old.specs
    &&& new.tool_names == old.tool_names
    &&& old.messages.len() <= new.messages.len()
    &&& new.messages.take(old.messages.len() as int) == old.messages
}

/// The message that carries what the user typed.
pub open spec fn user_message(input: Seq<char>) -> JsonView {
    JsonView::Object(
        seq![member("role", JsonView::Str("user"@)), member("content", JsonView::Str(input))],
    )
}

/// The body of a streamed completion request for the conversation so far.
pub open spec fn request_json(a: AgentView) -> JsonView {
    JsonView::Object(
        seq![
            member("messages", JsonView::Array(a.messages)),
            member("model", JsonView::Str(a.model)),
            member("tools", JsonView::Array(a.specs)),
            member("stream", JsonView::Bool(true)),
            member(
                "max_completion_tokens",
                JsonView::Number(JsonNumberView::PosInt(MAX_COMPLETION_TOKENS)),
            ),
        ],
    )
}

/// How a tool call is written back into the conversation.
pub open spec fn tool_call_json(t: ToolView) -> JsonView {
    JsonView::Object(
        seq![
            member("id", JsonView::Str(t.id)),
            member("type", JsonView::Str("function"@)),
            member(
                "function",
                JsonView::Object(
                    seq![
                        member("name", JsonView::Str(t.name)),
                        member("arguments", JsonView::Str(t.arguments)),
                    ],
                ),
            ),
        ],
    )
}

/// The assistant's turn: its joined content (null when no content was
/// streamed) and the tool calls it made, in order.
pub open spec fn assistant_message(content: Seq<Seq<char>>, calls: Seq<(u64, ToolView)>) -> JsonView {
    JsonView::Object(
        seq![
            member("role", JsonView::Str("assistant"@)),
            member(
                "content",
                if content.len() == 0 {
                    JsonView::Null
                } else {
                    JsonView::Str(concat_all(content))
                },
            ),
            member(
                "tool_calls",
                JsonView::Array(calls.map_values(|c: (u64, ToolView)| tool_call_json(c.1))),
            ),
        ],
    )
}

/// The answer of a tool, given back to the model under the call's id.
pub open spec fn tool_message(call_id: Seq<char>, result: Seq<char>) -> JsonView {
    JsonView::Object(
        seq![
            member("role", JsonView::Str("tool"@)),
            member("tool_call_id", JsonView::Str(call_id)),
            member("content", JsonView::Str(result)),
        ],
    )
}

/// What is shown when a response ends for a reason other than tool calls:
/// nothing for a normal stop, an explanation otherwise.
pub open spec fn stop_message(reason: Seq<char>) -> Option<Seq<char>> {
    if reason == "length"@ {
        Some(
            "Response truncated: max tokens reached. Consider increasing max_completion_tokens."@,
        )
    } else if reason == "content_filter"@ {
        Some("Content was omitted because it was flagged by the moderation/safety filters."@)
    } else if reason == "stop"@ {
        None
    } else {
        Some("Stream finished with reason: "@ + reason)
    }
}

/// How a response ends the round.
pub enum RoundOutcome {
    /// The turn is over.
    Stop,
    /// The turn is over; this message is to be shown as an error.
    Failed(String),
    /// These tool calls, by increasing index, are to be run.
    CallTools(Vec<(u64, Tool)>),
}

/// The plan for a tool call, given whether the tool can be run and its
/// parsed arguments: a tool that cannot be run is skipped, arguments that
/// are not a JSON object are skipped, and otherwise the tool runs on the
/// object's members.
pub open spec fn plan_matches(r: ToolPlan, known: bool, parsed: Option<JsonView>) -> bool {
    if !known {
        r is Skip && r->Skip_0@ == "[Tool Execution]: Tool not found!"@
    } else {
        match parsed {
            Some(JsonView::Object(fields)) => r is Invoke && fields_view(r->Invoke_0@) == fields,
            _ => r is Skip && r->Skip_0@ == "[Tool Execution]: Arguments parse failed!"@,
        }
    }
}

/// What to do with one tool call.
pub enum ToolPlan {
    /// Skip it; the message says why.
    Skip(String),
    /// Run the tool with these arguments.
    Invoke(Vec<(String, Json)>),
}

impl Agent {
    /// An agent that continues the given conversation.
    pub fn with_history(model: String, messages: Vec<Json>, specs: Vec<Json>, tool_names: Vec<
        String,
    >) -> (r: Agent)
        ensures
            r@.model == model@,
            r@.messages == items_view(messages@),
            r@.specs == items_view(specs@),
            r@.tool_names == tool_names@.map_values(|s: String| s@),
    {
        Agent { model, messages, specs, tool_names }
    }

    /// The conversation so far.
    pub fn messages(&self) -> (r: &Vec<Json>)
        ensures
            items_view(r@) == self@.messages,
    {
        &self.messages
    }

    /// Starts a turn: what the user typed, if anything, joins the conversation.
    pub fn start_turn(&mut self, user_input: Option<String>)
        ensures
            continues_conversation(old(self)@, final(self)@),
            final(self)@.model == old(self)@.model,
            final(self)@.specs == old(self)@.specs,
            final(self)@.tool_names == old(self)@.tool_names,
            final(self)@.messages == match user_input {
                Some(s) => old(self)@.messages.push(user_message(s@)),
                None => old(self)@.messages,
            },
    {
        proof {
            lemma_push_continues(self@.messages, JsonView::Null);
        }
        if let Some(input) = user_input {
            let ghost input_view = input@;
            let fields = vec![
                member_of("role", Json::string("user")),
                member_of("content", Json::text(input)),
            ];
            proof {
                lemma_fields_view_eq(
                    fields@,
                    seq![member("role", JsonView::Str("user"@)), member("content", JsonView::Str(input_view))],
                );
            }
            let m = Json::object(fields);
            proof {
                lemma_items_view_push(self.messages@, m);
                lemma_push_continues(items_view(self.messages@), m@);
            }
            self.messages.push(m);
        }
    }

    /// The request body for the next response.
    pub fn request_body(&self) -> (r: Json)
        ensures
            r@ == request_json(self@),
    {
        let fields = vec![
            member_of("messages", Json::array(clone_items(&self.messages))),
            member_of("model", Json::text(self.model.clone())),
            member_of("tools", Json::array(clone_items(&self.specs))),
            member_of("stream", Json::Bool(true)),
            member_of(
                "max_completion_tokens",
                Json::Number(JsonNumber::PosInt(MAX_COMPLETION_TOKENS)),
            ),
        ];
        proof {
            lemma_fields_view_eq(
                fields@,
                seq![
                    member("messages", JsonView::Array(self@.messages)),
                    member("model", JsonView::Str(self@.model)),
                    member("tools", JsonView::Array(self@.specs)),
                    member("stream", JsonView::Bool(true)),
                    member(
                        "max_completion_tokens",
                        JsonView::Number(JsonNumberView::PosInt(MAX_COMPLETION_TOKENS)),
                    ),
                ],
            );
        }
        Json::object(fields)
    }

    /// Ends a round once its response has been streamed. A finish reason
    /// other than `tool_calls` ends the turn (with a message to show unless it
    /// is a normal stop); so does a response without tool calls. Otherwise the
    /// assistant's turn, with its tool calls by increasing index, joins the
    /// conversation, and those calls are to be run.
    pub fn finish_round(&mut self, stream: &StreamState) -> (out: RoundOutcome)
        requires
            stream.wf(),
        ensures
            continues_conversation(old(self)@, final(self)@),
            final(self)@.model == old(self)@.model,
            final(self)@.specs == old(self)@.specs,
            final(self)@.tool_names == old(self)@.tool_names,
            ({
                let v = stream@;
                if v.finish_reason is Some && v.finish_reason->0 != "tool_calls"@ {
                    &&& final(self)@.messages == old(self)@.messages
                    &&& match stop_message(v.finish_reason->0) {
                        None => out is Stop,
                        Some(m) => out is Failed && out->Failed_0@ == m,
                    }
                } else if !(exists|k: u64| v.tools.contains_key(k)) {
                    &&& final(self)@.messages == old(self)@.messages
                    &&& out is Stop
                } else {
                    &&& out is CallTools
                    &&& in_index_order(indexed_tools_view(out->CallTools_0@), v.tools)
                    &&& final(self)@.messages == old(self)@.messages.push(
                        assistant_message(v.content, indexed_tools_view(out->CallTools_0@)),
                    )
                }
            }),
    {
        proof {
            lemma_push_continues(self@.messages, JsonView::Null);
        }
        if let Some(reason) = stream.finish_reason() {
            if !(reason == String::from_str("tool_calls")) {
                if reason == String::from_str("length") {
                    return RoundOutcome::Failed(
                        String::from_str(
                            "Response truncated: max tokens reached. Consider increasing max_completion_tokens.",
                        ),
                    );
                } else if reason == String::from_str("content_filter") {
                    return RoundOutcome::Failed(
                        String::from_str(
                            "Content was omitted because it was flagged by the moderation/safety filters.",
                        ),
                    );
                } else if reason == String::from_str("stop") {
                    return RoundOutcome::Stop;
                } else {
                    let mut m = String::from_str("Stream finished with reason: ");
                    m.append(reason.as_str());
                    return RoundOutcome::Failed(m);
                }
            }
        }
        if !stream.has_tool_calls() {
            return RoundOutcome::Stop;
        }
        let tools = stream.tools_in_order();
        let ghost calls_view = indexed_tools_view(tools@);
        let mut calls: Vec<Json> = Vec::new();
        let mut i: usize = 0;
        while i < tools.len()
            invariant
                i <= tools.len(),
                calls_view == indexed_tools_view(tools@),
                items_view(calls@) == calls_view.take(i as int).map_values(
                    |c: (u64, ToolView)| tool_call_json(c.1),
                ),
            decreases tools.len() - i,
        {
            let c = tool_call_value(&tools[i].1);
            proof {
                lemma_items_view_push(calls@, c);
                assert(calls_view[i as int] == (tools@[i as int].0, tools@[i as int].1@));
                assert(calls_view.take(i + 1).map_values(|c: (u64, ToolView)| tool_call_json(c.1))
                    =~= calls_view.take(i as int).map_values(
                    |c: (u64, ToolView)| tool_call_json(c.1),
                ).push(tool_call_json(tools@[i as int].1@)));
            }
            calls.push(c);
            i = i + 1;
        }
        assert(calls_view.take(tools.len() as int) =~= calls_view);
        let content = if stream.has_content() {
            Json::text(stream.content_text())
        } else {
            Json::Null
        };
        let fields = vec![
            member_of("role", Json::string("assistant")),
            member_of("content", content),
            member_of("tool_calls", Json::array(calls)),
        ];
        proof {
            lemma_fields_view_eq(
                fields@,
                seq![
                    member("role", JsonView::Str("assistant"@)),
                    member(
                        "content",
                        if stream@.content.len() == 0 {
                            JsonView::Null
                        } else {
                            JsonView::Str(concat_all(stream@.content))
                        },
                    ),
                    member(
                        "tool_calls",
                        JsonView::Array(
                            calls_view.map_values(|c: (u64, ToolView)| tool_call_json(c.1)),
                        ),
                    ),
                ],
            );
        }
        let m = Json::object(fields);
        proof {
            lemma_items_view_push(self.messages@, m);
            lemma_push_continues(items_view(self.messages@), m@);
        }
        self.messages.push(m);
        RoundOutcome::CallTools(tools)
    }

    /// Whether a tool of this name can be run.
    pub fn has_tool(&self, name: &String) -> (r: bool)
        ensures
            r == self@.tool_names.contains(name@),
    {
        let mut i: usize = 0;
        while i < self.tool_names.len()
            invariant
                i <= self.tool_names.len(),
                self@.tool_names == self.tool_names@.map_values(|s: String| s@),
                forall|j: int| 0 <= j < i ==> self@.tool_names[j] != name@,
            decreases self.tool_names.len() - i,
        {
            if self.tool_names[i] == *name {
                assert(self@.tool_names[i as int] == name@);
                return true;
            }
            i = i + 1;
        }
        false
    }

    /// Decides what to do with one tool call, given its arguments as parsed
    /// from their JSON text (`None` when the text is not JSON): skip a tool
    /// that cannot be run, skip arguments that are not a JSON object, and run
    /// the tool otherwise.
    pub fn plan_parsed_call(&self, tool: &Tool, parsed_arguments: Option<Json>) -> (r: ToolPlan)
        ensures
            plan_matches(r, self@.tool_names.contains(tool.name@), opt_json_view(parsed_arguments)),
    {
        if !self.has_tool(&tool.name) {
            return ToolPlan::Skip(String::from_str("[Tool Execution]: Tool not found!"));
        }
        match parsed_arguments {
            Some(Json::Object(fields)) => ToolPlan::Invoke(fields),
            _ => ToolPlan::Skip(String::from_str("[Tool Execution]: Arguments parse failed!")),
        }
    }

    /// Takes up one tool call: the call is to be shown, then the tool is run
    /// on its arguments parsed from their JSON text, or skipped (see
    /// `plan_parsed_call`).
    pub fn plan_tool_call(&self, tool: &Tool) -> (r: (DisplayEvent, ToolPlan))
        ensures
            r.0@ == DisplayEventView::ToolCall(tool@),
            plan_matches(r.1, self@.tool_names.contains(tool.name@), parsed_json(tool.arguments@)),
    {
        let shown = DisplayEvent::ToolCall(tool.clone());
        if !self.has_tool(&tool.name) {
            return (shown, ToolPlan::Skip(String::from_str("[Tool Execution]: Tool not found!")));
        }
        let parsed = parse_json(tool.arguments.as_str());
        (shown, self.plan_parsed_call(tool, parsed))
    }

    /// Records what a tool answered: a result joins the conversation under
    /// the call's id; an error is dropped, and the message that reports it
    /// is returned.
    pub fn record_tool_result(&mut self, tool: &Tool, result: Result<String, String>) -> (r: Option<
        String,
    >)
        ensures
            continues_conversation(old(self)@, final(self)@),
            final(self)@.model == old(self)@.model,
            final(self)@.specs == old(self)@.specs,
            final(self)@.tool_names == old(self)@.tool_names,
            match result {
                Ok(text) => r is None && final(self)@.messages == old(self)@.messages.push(
                    tool_message(tool.id@, text@),
                ),
                Err(_) => r is Some && r->0@ == "[Tool Execution]: Tool calling returned an error!"@
                    && final(self)@.messages == old(self)@.messages,
            },
    {
        proof {
            lemma_push_continues(self@.messages, JsonView::Null);
        }
        match result {
            Ok(text) => {
                let ghost text_view = text@;
                let fields = vec![
                    member_of("role", Json::string("tool")),
                    member_of("tool_call_id", Json::text(tool.id.clone())),
                    member_of("content", Json::text(text)),
                ];
                proof {
                    lemma_fields_view_eq(
                        fields@,
                        seq![
                            member("role", JsonView::Str("tool"@)),
                            member("tool_call_id", JsonView::Str(tool.id@)),
                            member("content", JsonView::Str(text_view)),
                        ],
                    );
                }
                let m = Json::object(fields);
                proof {
                    lemma_items_view_push(self.messages@, m);
                    lemma_push_continues(items_view(self.messages@), m@);
                }
                self.messages.push(m);
                None
            },
            Err(_) => Some(String::from_str("[Tool Execution]: Tool calling returned an error!")),
        }
    }
}

proof fn lemma_push_continues(messages: Seq<JsonView>, m: JsonView)
    ensures
        messages.push(m).take(messages.len() as int) == messages,
        messages.take(messages.len() as int) == messages,
{
    assert(messages.push(m).take(messages.len() as int) =~= messages);
    assert(messages.take(messages.len() as int) =~= messages);
}

/// How a tool call is written back into the conversation.
pub fn tool_call_value(t: &Tool) -> (r: Json)
    ensures
        r@ == tool_call_json(t@),
{
    let inner = vec![
        member_of("name", Json::text(t.name.clone())),
        member_of("arguments", Json::text(t.arguments.clone())),
    ];
    proof {
        lemma_fields_view_eq(
            inner@,
            seq![member("name", JsonView::Str(t.name@)), member("arguments", JsonView::Str(t.arguments@))],
        );
    }
    let fields = vec![
        member_of("id", Json::text(t.id.clone())),
        member_of("type", Json::string("function")),
        member_of("function", Json::object(inner)),
    ];
    proof {
        lemma_fields_view_eq(
            fields@,
            seq![
                member("id", JsonView::Str(t.id@)),
                member("type", JsonView::Str("function"@)),
                member(
                    "function",
                    JsonView::Object(
                        seq![
                            member("name", JsonView::Str(t.name@)),
                            member("arguments", JsonView::Str(t.arguments@)),
                        ],
                    ),
                ),
            ],
        );
    }
    Json::object(fields)
}

} // verus!
