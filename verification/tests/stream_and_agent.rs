use coding_agent::agent::{Agent, RoundOutcome, ToolPlan};
use coding_agent::events::DisplayEvent;
use coding_agent::json::{Json, JsonNumber};
use coding_agent::stream::{sort_indices, StreamState};
use coding_agent::tools::Tool;

fn s(t: &str) -> Json {
    Json::Str(t.to_string())
}

fn obj(fields: Vec<(&str, Json)>) -> Json {
    Json::Object(fields.into_iter().map(|(k, v)| (k.to_string(), v)).collect())
}

fn chunk(delta: Json, finish: Option<&str>) -> Json {
    let mut choice = vec![("delta", delta)];
    if let Some(f) = finish {
        choice.push(("finish_reason", s(f)));
    } else {
        choice.push(("finish_reason", Json::Null));
    }
    obj(vec![("choices", Json::Array(vec![obj(choice)]))])
}

fn call(index: Option<u64>, id: Option<&str>, name: Option<&str>, args: Option<&str>) -> Json {
    let mut f = vec![];
    if let Some(n) = name {
        f.push(("name", s(n)));
    }
    if let Some(a) = args {
        f.push(("arguments", s(a)));
    }
    let mut c = vec![("function", obj(f))];
    if let Some(i) = index {
        c.push(("index", Json::Number(JsonNumber::PosInt(i))));
    }
    if let Some(i) = id {
        c.push(("id", s(i)));
    }
    obj(c)
}

fn agent() -> Agent {
    Agent::with_history(
        "m".to_string(),
        vec![],
        vec![],
        vec!["Read".to_string(), "Bash".to_string()],
    )
}

#[test]
fn chunk_shows_reasoning_then_content() {
    let mut st = StreamState::new();
    let out = st.apply_chunk(&chunk(
        obj(vec![("content", s("hi")), ("reasoning", s("think"))]),
        None,
    ));
    assert_eq!(out.events.len(), 2);
    assert!(matches!(&out.events[0], DisplayEvent::Reasoning(t) if t == "think"));
    assert!(matches!(&out.events[1], DisplayEvent::Content(t) if t == "hi"));
    assert!(out.diagnostic.is_none());
    assert!(st.has_content());
    assert_eq!(st.content_text(), "hi");
    assert_eq!(st.finish_reason(), None);
}

#[test]
fn finish_reason_is_kept_until_replaced() {
    let mut st = StreamState::new();
    st.apply_chunk(&chunk(obj(vec![]), Some("length")));
    st.apply_chunk(&chunk(obj(vec![("content", s("x"))]), None));
    assert_eq!(st.finish_reason(), Some("length".to_string()));
}

#[test]
fn tool_fragments_gather_by_index() {
    let mut st = StreamState::new();
    st.apply_chunk(&chunk(
        obj(vec![("tool_calls", Json::Array(vec![
            call(Some(1), Some("b"), Some("Bash"), Some("{\"com")),
            call(Some(0), Some("a"), Some("Read"), Some("{}")),
        ]))]),
        None,
    ));
    st.apply_chunk(&chunk(
        obj(vec![("tool_calls", Json::Array(vec![call(Some(1), None, None, Some("mand\":\"ls\"}"))]))]),
        Some("tool_calls"),
    ));
    let tools = st.tools_in_order();
    assert_eq!(tools.len(), 2);
    assert_eq!(tools[0].0, 0);
    assert_eq!(tools[0].1.id, "a");
    assert_eq!(tools[1].0, 1);
    assert_eq!(tools[1].1.name, "Bash");
    assert_eq!(tools[1].1.arguments, "{\"command\":\"ls\"}");
}

#[test]
fn malformed_fragment_stops_the_chunk() {
    let mut st = StreamState::new();
    let out = st.apply_chunk(&chunk(
        obj(vec![("tool_calls", Json::Array(vec![
            call(None, Some("a"), Some("Read"), Some("{}")),
            call(Some(0), Some("a"), Some("Read"), Some("{}")),
        ]))]),
        None,
    ));
    assert_eq!(out.diagnostic, Some("[Tool Accumilation]: Tool index not found!".to_string()));
    assert!(!st.has_tool_calls());
    let out = st.apply_chunk(&chunk(
        obj(vec![("tool_calls", Json::Array(vec![call(Some(0), Some("a"), Some("Read"), None)]))]),
        None,
    ));
    assert_eq!(out.diagnostic, Some("[Tool Accumilation]: Arguments not found!".to_string()));
    let out = st.apply_chunk(&chunk(
        obj(vec![("tool_calls", Json::Array(vec![call(Some(0), None, Some("Read"), Some("{}"))]))]),
        None,
    ));
    assert_eq!(out.diagnostic, Some("[Tool Accumilation]: Tool id not found!".to_string()));
    let out = st.apply_chunk(&chunk(
        obj(vec![("tool_calls", Json::Array(vec![call(Some(0), Some("a"), None, Some("{}"))]))]),
        None,
    ));
    assert_eq!(out.diagnostic, Some("[Tool Accumilation]: Tool name not found!".to_string()));
    assert!(!st.has_tool_calls());
}

#[test]
fn sort_indices_orders() {
    assert_eq!(sort_indices(&vec![5, 1, 3, 0]), vec![0, 1, 3, 5]);
    assert_eq!(sort_indices(&vec![]), Vec::<u64>::new());
}

#[test]
fn stop_reasons_end_the_turn() {
    let cases = vec![
        ("stop", None),
        ("length", Some("Response truncated: max tokens reached. Consider increasing max_completion_tokens.")),
        ("content_filter", Some("Content was omitted because it was flagged by the moderation/safety filters.")),
        ("other", Some("Stream finished with reason: other")),
    ];
    for (reason, expected) in cases {
        let mut a = agent();
        let mut st = StreamState::new();
        st.apply_chunk(&chunk(obj(vec![("tool_calls", Json::Array(vec![call(Some(0), Some("a"), Some("Read"), Some("{}"))]))]), Some(reason)));
        match (a.finish_round(&st), expected) {
            (RoundOutcome::Stop, None) => {}
            (RoundOutcome::Failed(m), Some(e)) => assert_eq!(m, e),
            _ => panic!("unexpected outcome for {}", reason),
        }
        assert!(a.messages().is_empty());
    }
}

#[test]
fn stream_error_is_shown_and_ends_the_turn() {
    let mut a = agent();
    let mut st = StreamState::new();
    let e = st.apply_stream_error("boom".to_string());
    assert!(matches!(e, DisplayEvent::Error(t) if t == "boom"));
    match a.finish_round(&st) {
        RoundOutcome::Failed(m) => assert_eq!(m, "Stream finished with reason: stream_error"),
        _ => panic!("expected a failure"),
    }
}

#[test]
fn no_tool_calls_stops() {
    let mut a = agent();
    let mut st = StreamState::new();
    st.apply_chunk(&chunk(obj(vec![("content", s("done"))]), None));
    assert!(matches!(a.finish_round(&st), RoundOutcome::Stop));
    assert!(a.messages().is_empty());
}

#[test]
fn tool_round_writes_assistant_message() {
    let mut a = agent();
    a.start_turn(Some("hello".to_string()));
    let mut st = StreamState::new();
    st.apply_chunk(&chunk(obj(vec![("content", s("Let me "))]), None));
    st.apply_chunk(&chunk(obj(vec![("content", s("look."))]), None));
    st.apply_chunk(&chunk(
        obj(vec![("tool_calls", Json::Array(vec![
            call(Some(2), Some("c2"), Some("Bash"), Some("{}")),
            call(Some(0), Some("c0"), Some("Read"), Some("{\"file_path\":\"a\"}")),
        ]))]),
        Some("tool_calls"),
    ));
    let tools = match a.finish_round(&st) {
        RoundOutcome::CallTools(t) => t,
        _ => panic!("expected tool calls"),
    };
    assert_eq!(tools.iter().map(|t| t.0).collect::<Vec<_>>(), vec![0, 2]);
    let msgs = a.messages();
    assert_eq!(msgs.len(), 2);
    assert_eq!(msgs[0], obj(vec![("role", s("user")), ("content", s("hello"))]));
    let expected = obj(vec![
        ("role", s("assistant")),
        ("content", s("Let me look.")),
        ("tool_calls", Json::Array(vec![
            obj(vec![("id", s("c0")), ("type", s("function")), ("function", obj(vec![("name", s("Read")), ("arguments", s("{\"file_path\":\"a\"}"))]))]),
            obj(vec![("id", s("c2")), ("type", s("function")), ("function", obj(vec![("name", s("Bash")), ("arguments", s("{}"))]))]),
        ])),
    ]);
    assert_eq!(msgs[1], expected);
}

#[test]
fn assistant_content_is_null_without_content() {
    let mut a = agent();
    let mut st = StreamState::new();
    st.apply_chunk(&chunk(obj(vec![("tool_calls", Json::Array(vec![call(Some(0), Some("c"), Some("Read"), Some("{}"))]))]), None));
    assert!(matches!(a.finish_round(&st), RoundOutcome::CallTools(_)));
    assert_eq!(a.messages()[0].get("content"), Some(&Json::Null));
}

#[test]
fn request_body_carries_the_conversation() {
    let mut a = Agent::with_history("model-x".to_string(), vec![], vec![s("spec")], vec![]);
    a.start_turn(Some("q".to_string()));
    a.start_turn(None);
    let body = a.request_body();
    assert_eq!(body, obj(vec![
        ("messages", Json::Array(vec![obj(vec![("role", s("user")), ("content", s("q"))])])),
        ("model", s("model-x")),
        ("tools", Json::Array(vec![s("spec")])),
        ("stream", Json::Bool(true)),
        ("max_completion_tokens", Json::Number(JsonNumber::PosInt(16384))),
    ]));
}

#[test]
fn tool_plans() {
    let a = agent();
    let read = Tool::new("i".to_string(), "Read".to_string(), "{}".to_string());
    let write = Tool::new("i".to_string(), "Write".to_string(), "{}".to_string());
    assert!(matches!(a.plan_parsed_call(&write, Some(obj(vec![]))), ToolPlan::Skip(m) if m == "[Tool Execution]: Tool not found!"));
    assert!(matches!(a.plan_parsed_call(&read, None), ToolPlan::Skip(m) if m == "[Tool Execution]: Arguments parse failed!"));
    assert!(matches!(a.plan_parsed_call(&read, Some(s("x"))), ToolPlan::Skip(m) if m == "[Tool Execution]: Arguments parse failed!"));
    match a.plan_parsed_call(&read, Some(obj(vec![("file_path", s("f"))]))) {
        ToolPlan::Invoke(args) => assert_eq!(args, vec![("file_path".to_string(), s("f"))]),
        _ => panic!("expected invoke"),
    }
    assert!(a.has_tool(&"Bash".to_string()));
    assert!(!a.has_tool(&"bash".to_string()));
}

#[test]
fn tool_results_join_the_conversation() {
    let mut a = agent();
    let t = Tool::new("id7".to_string(), "Read".to_string(), "{}".to_string());
    assert_eq!(a.record_tool_result(&t, Err("nope".to_string())), Some("[Tool Execution]: Tool calling returned an error!".to_string()));
    assert!(a.messages().is_empty());
    assert_eq!(a.record_tool_result(&t, Ok("text".to_string())), None);
    assert_eq!(a.messages()[0], obj(vec![("role", s("tool")), ("tool_call_id", s("id7")), ("content", s("text"))]));
}

#[test]
fn tool_calls_are_shown_then_parsed() {
    let a = agent();
    let t = Tool::new("i".to_string(), "Read".to_string(), "{\"file_path\": \"f.txt\", \"n\": -2}".to_string());
    let (shown, plan) = a.plan_tool_call(&t);
    assert!(matches!(shown, DisplayEvent::ToolCall(x) if x.id == "i" && x.arguments == t.arguments));
    match plan {
        ToolPlan::Invoke(args) => {
            assert_eq!(args.len(), 2);
            assert!(args.contains(&("file_path".to_string(), s("f.txt"))));
            assert!(args.contains(&("n".to_string(), Json::Number(JsonNumber::NegInt(-2)))));
        }
        _ => panic!("expected invoke"),
    }
    let bad = Tool::new("i".to_string(), "Read".to_string(), "{\"file_path\"".to_string());
    assert!(matches!(a.plan_tool_call(&bad).1, ToolPlan::Skip(m) if m == "[Tool Execution]: Arguments parse failed!"));
    let list = Tool::new("i".to_string(), "Read".to_string(), "[1]".to_string());
    assert!(matches!(a.plan_tool_call(&list).1, ToolPlan::Skip(m) if m == "[Tool Execution]: Arguments parse failed!"));
    let unknown = Tool::new("i".to_string(), "Nope".to_string(), "{}".to_string());
    assert!(matches!(a.plan_tool_call(&unknown).1, ToolPlan::Skip(m) if m == "[Tool Execution]: Tool not found!"));
}

#[test]
fn tool_arguments_keep_every_json_value() {
    let a = agent();
    let t = Tool::new(
        "i".to_string(),
        "Bash".to_string(),
        "{\"a\": [1, -1, 1.5, null, true, \"x\", {}]}".to_string(),
    );
    match a.plan_tool_call(&t).1 {
        ToolPlan::Invoke(args) => assert_eq!(
            args,
            vec![(
                "a".to_string(),
                Json::Array(vec![
                    Json::Number(JsonNumber::PosInt(1)),
                    Json::Number(JsonNumber::NegInt(-1)),
                    Json::Number(JsonNumber::Float("1.5".to_string())),
                    Json::Null,
                    Json::Bool(true),
                    s("x"),
                    obj(vec![]),
                ])
            )]
        ),
        _ => panic!("expected invoke"),
    }
}
