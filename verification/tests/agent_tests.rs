use zero_claw::agent::{
    absorb_reply_event, openai_payload, sse_data, tool_call_event, AgentEvent, AgentRun,
    LineBuffer, OpenAiTurn, StreamDelta, ToolCallDelta, MAX_ROUNDS,
};
use zero_claw::chat::{tool_message, ChatMessage, ToolCall};

fn delta(index: Option<u64>, id: Option<&str>, name: Option<&str>, args: Option<&str>) -> ToolCallDelta {
    ToolCallDelta {
        index,
        id: id.map(|s| s.to_string()),
        name: name.map(|s| s.to_string()),
        arguments: args.map(|s| s.to_string()),
    }
}

#[test]
fn line_buffer_frames_lines() {
    let mut b = LineBuffer::new();
    b.push_bytes(b"data: {\"a\":1}\r\ndata: [DO");
    assert_eq!(b.next_line(), Some("data: {\"a\":1}".to_string()));
    assert_eq!(b.next_line(), None);
    b.push_str("NE]\n\n");
    assert_eq!(b.next_line(), Some("data: [DONE]".to_string()));
    assert_eq!(b.next_line(), Some("".to_string()));
    assert_eq!(b.next_line(), None);
}

#[test]
fn line_buffer_decodes_invalid_bytes_lossily() {
    let mut b = LineBuffer::new();
    b.push_bytes(&[0x61, 0xff, 0x62, b'\n']);
    assert_eq!(b.next_line(), Some("a\u{fffd}b".to_string()));
}

#[test]
fn sse_payloads() {
    assert_eq!(sse_data("data: hello"), Some("hello".to_string()));
    assert_eq!(sse_data("event: ping"), None);
    assert_eq!(openai_payload("data: [DONE]"), None);
    assert_eq!(openai_payload("data: {}"), Some("{}".to_string()));
}

#[test]
fn openai_turn_assembles_tool_calls_by_index() {
    let mut turn = OpenAiTurn::new();
    let c = turn.apply(&StreamDelta { content: Some("Let me ".to_string()), tool_calls: None });
    assert_eq!(c, Some("Let me ".to_string()));
    turn.apply(&StreamDelta { content: Some("check.".to_string()), tool_calls: None });
    turn.apply(&StreamDelta {
        content: None,
        tool_calls: Some(vec![
            delta(Some(1), Some("call_b"), Some("fs__list"), Some("{\"p")),
            delta(Some(0), Some("call_a"), Some("fs__read"), Some("")),
        ]),
    });
    let none = turn.apply(&StreamDelta {
        content: None,
        tool_calls: Some(vec![
            delta(Some(1), None, Some(""), Some("\":1}")),
            delta(Some(0), Some("ignored"), None, Some("{}")),
        ]),
    });
    assert_eq!(none, None);

    let mut run = AgentRun::new();
    assert!(run.begin_round());
    let mut messages: Vec<ChatMessage> = Vec::new();
    let calls = run.finish_openai_turn(turn, &mut messages);
    assert_eq!(calls.len(), 2);
    assert_eq!(calls[0].id, "call_a");
    assert_eq!(calls[0].name, "fs__read");
    assert_eq!(calls[0].arguments, "{}");
    assert_eq!(calls[1].id, "call_b");
    assert_eq!(calls[1].name, "fs__list");
    assert_eq!(calls[1].arguments, "{\"p\":1}");
    assert_eq!(messages.len(), 1);
    assert_eq!(messages[0].role, "assistant");
    assert_eq!(messages[0].content, Some("Let me check.".to_string()));
    assert_eq!(messages[0].tool_calls.as_ref().unwrap().len(), 2);
    match run.done_event() {
        AgentEvent::Done { content } => assert_eq!(content, "Let me check."),
        other => panic!("unexpected {:?}", other),
    }
}

#[test]
fn missing_index_counts_as_zero() {
    let mut turn = OpenAiTurn::new();
    turn.apply(&StreamDelta { content: None, tool_calls: Some(vec![delta(None, Some("x"), Some("t__a"), Some("{"))]) });
    turn.apply(&StreamDelta { content: None, tool_calls: Some(vec![delta(Some(0), None, None, Some("}"))]) });
    let mut run = AgentRun::new();
    let mut messages = Vec::new();
    let calls = run.finish_openai_turn(turn, &mut messages);
    assert_eq!(calls.len(), 1);
    assert_eq!(calls[0].arguments, "{}");
    assert_eq!(messages[0].content, None);
}

#[test]
fn final_turn_without_tools() {
    let mut run = AgentRun::new();
    let mut turn = OpenAiTurn::new();
    turn.apply(&StreamDelta { content: Some("Hello".to_string()), tool_calls: None });
    let mut messages = Vec::new();
    let calls = run.finish_openai_turn(turn, &mut messages);
    assert!(calls.is_empty());
    assert_eq!(messages.len(), 1);
    assert_eq!(messages[0].content, Some("Hello".to_string()));
    assert!(messages[0].tool_calls.is_none());

    let empty = OpenAiTurn::new();
    let calls = run.finish_openai_turn(empty, &mut messages);
    assert!(calls.is_empty());
    assert_eq!(messages.len(), 1);
}

#[test]
fn at_most_twenty_rounds() {
    let mut run = AgentRun::new();
    let mut n = 0;
    while run.begin_round() {
        n += 1;
    }
    assert_eq!(n, 20);
    assert_eq!(MAX_ROUNDS, 20);
    assert!(!run.begin_round());
}

#[test]
fn tool_events_and_messages() {
    let call = ToolCall { id: "c1".to_string(), name: "fs__read".to_string(), arguments: "{}".to_string() };
    match tool_call_event(&call) {
        AgentEvent::ToolCall { name, args } => {
            assert_eq!(name, "fs__read");
            assert_eq!(args, "{}");
        }
        other => panic!("unexpected {:?}", other),
    }
    let m = tool_message("c1", "file text");
    assert_eq!(m.role, "tool");
    assert_eq!(m.tool_call_id, Some("c1".to_string()));
    assert_eq!(m.content, Some("file text".to_string()));
}

#[test]
fn channel_reply_collection() {
    let mut r = String::new();
    absorb_reply_event(&mut r, &AgentEvent::Content { text: "Hi ".to_string() });
    absorb_reply_event(&mut r, &AgentEvent::ToolCall { name: "x".to_string(), args: "{}".to_string() });
    absorb_reply_event(&mut r, &AgentEvent::Content { text: "there".to_string() });
    absorb_reply_event(&mut r, &AgentEvent::Done { content: "ignored".to_string() });
    assert_eq!(r, "Hi there");
    let mut e = String::new();
    absorb_reply_event(&mut e, &AgentEvent::Done { content: "final".to_string() });
    assert_eq!(e, "final");
}

#[test]
fn two_round_run_appends_and_ends_with_all_text() {
    let mut messages = vec![tool_message("old", "kept")];
    let mut run = AgentRun::new();
    let mut events: Vec<AgentEvent> = Vec::new();

    assert!(run.begin_round());
    let mut turn = OpenAiTurn::new();
    if let Some(t) = turn.apply(&StreamDelta { content: Some("Looking. ".to_string()), tool_calls: None }) {
        events.push(AgentEvent::Content { text: t });
    }
    turn.apply(&StreamDelta {
        content: None,
        tool_calls: Some(vec![delta(Some(0), Some("c1"), Some("fs__read"), Some("{}"))]),
    });
    let calls = run.finish_openai_turn(turn, &mut messages);
    assert_eq!(calls.len(), 1);
    for call in &calls {
        events.push(tool_call_event(call));
        events.push(AgentEvent::ToolResult { name: call.name.clone(), result: "r".to_string() });
        messages.push(tool_message(&call.id, "r"));
    }

    assert!(run.begin_round());
    let mut turn = OpenAiTurn::new();
    if let Some(t) = turn.apply(&StreamDelta { content: Some("Done.".to_string()), tool_calls: None }) {
        events.push(AgentEvent::Content { text: t });
    }
    let calls = run.finish_openai_turn(turn, &mut messages);
    assert!(calls.is_empty());
    events.push(run.done_event());

    assert_eq!(messages.len(), 4);
    assert_eq!(messages[0].content, Some("kept".to_string()));
    assert_eq!(messages[0].tool_call_id, Some("old".to_string()));
    assert!(!events.iter().any(|e| matches!(e, AgentEvent::Start { .. })));
    let finals = events
        .iter()
        .filter(|e| matches!(e, AgentEvent::Done { .. } | AgentEvent::Error { .. }))
        .count();
    assert_eq!(finals, 1);
    let streamed: String = events
        .iter()
        .filter_map(|e| match e {
            AgentEvent::Content { text } => Some(text.as_str()),
            _ => None,
        })
        .collect();
    match events.last() {
        Some(AgentEvent::Done { content }) => assert_eq!(content, &streamed),
        _ => panic!("the run must end with Done"),
    }
}
