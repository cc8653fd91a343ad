use zero_claw::agent::AgentRun;
use zero_claw::anthropic::{
    to_anthropic_messages, tool_results_message, AnthropicTurn, ApiContent, StreamEvent,
};
use zero_claw::chat::{text_message, tool_message, ChatMessage, ContentBlock, ToolCall};

#[test]
fn conversion_to_messages_api() {
    let mut msgs = vec![
        text_message("system", "be nice"),
        text_message("user", "read a.txt"),
        ChatMessage {
            role: "assistant".to_string(),
            content: Some("Sure.".to_string()),
            tool_calls: Some(vec![
                ToolCall { id: "t1".to_string(), name: "fs__read".to_string(), arguments: "{\"path\":\"a.txt\"}".to_string() },
                ToolCall { id: "t2".to_string(), name: "fs__stat".to_string(), arguments: "not json".to_string() },
            ]),
            tool_call_id: None,
            anthropic_content: None,
        },
        tool_message("t1", "contents"),
    ];
    msgs.push(ChatMessage {
        role: "assistant".to_string(),
        content: Some("".to_string()),
        tool_calls: None,
        tool_call_id: None,
        anthropic_content: Some(vec![ContentBlock::Text { text: "stored".to_string() }]),
    });
    let out = to_anthropic_messages(&msgs);
    assert_eq!(out.len(), 4);
    assert_eq!(out[0].role, "user");
    match &out[0].content {
        ApiContent::Text(t) => assert_eq!(t, "read a.txt"),
        other => panic!("unexpected {:?}", other),
    }
    assert_eq!(out[1].role, "assistant");
    match &out[1].content {
        ApiContent::Blocks(b) => {
            assert_eq!(b.len(), 3);
            match &b[0] {
                ContentBlock::Text { text } => assert_eq!(text, "Sure."),
                other => panic!("unexpected {:?}", other),
            }
            match &b[1] {
                ContentBlock::ToolUse { id, name, input } => {
                    assert_eq!(id, "t1");
                    assert_eq!(name, "fs__read");
                    assert_eq!(input, "{\"path\":\"a.txt\"}");
                }
                other => panic!("unexpected {:?}", other),
            }
            match &b[2] {
                ContentBlock::ToolUse { input, .. } => assert_eq!(input, "{}"),
                other => panic!("unexpected {:?}", other),
            }
        }
        other => panic!("unexpected {:?}", other),
    }
    assert_eq!(out[2].role, "user");
    match &out[2].content {
        ApiContent::Blocks(b) => match &b[0] {
            ContentBlock::ToolResult { tool_use_id, content } => {
                assert_eq!(tool_use_id, "t1");
                assert_eq!(content, "contents");
            }
            other => panic!("unexpected {:?}", other),
        },
        other => panic!("unexpected {:?}", other),
    }
    assert_eq!(out[3].role, "assistant");
    match &out[3].content {
        ApiContent::Blocks(b) => assert_eq!(b.len(), 1),
        other => panic!("unexpected {:?}", other),
    }
}

#[test]
fn anthropic_turn_with_tool_use() {
    let mut turn = AnthropicTurn::new();
    assert_eq!(turn.apply(StreamEvent::TextDelta { text: "Looking".to_string() }), Some("Looking".to_string()));
    turn.apply(StreamEvent::BlockStop);
    turn.apply(StreamEvent::ToolUseStart { id: "tu1".to_string(), name: "fs__read".to_string() });
    turn.apply(StreamEvent::InputJsonDelta { partial_json: "{\"path\":".to_string() });
    turn.apply(StreamEvent::InputJsonDelta { partial_json: "\"a\"}".to_string() });
    turn.apply(StreamEvent::BlockStop);
    turn.apply(StreamEvent::StopReason { reason: "tool_use".to_string() });
    turn.apply(StreamEvent::Ignored);
    let mut run = AgentRun::new();
    let mut messages = Vec::new();
    let (uses, more) = run.finish_anthropic_turn(turn, &mut messages);
    assert!(more);
    assert_eq!(uses.len(), 1);
    assert_eq!(uses[0].id, "tu1");
    assert_eq!(uses[0].arguments, "{\"path\":\"a\"}");
    assert_eq!(messages.len(), 1);
    assert_eq!(messages[0].content, Some("".to_string()));
    let blocks = messages[0].anthropic_content.as_ref().unwrap();
    assert_eq!(blocks.len(), 2);
    match run.done_event() {
        zero_claw::agent::AgentEvent::Done { content } => assert_eq!(content, "Looking"),
        other => panic!("unexpected {:?}", other),
    }

    let results = tool_results_message(&uses, &vec!["hello".to_string()]);
    assert_eq!(results.role, "user");
    match &results.anthropic_content.as_ref().unwrap()[0] {
        ContentBlock::ToolResult { tool_use_id, content } => {
            assert_eq!(tool_use_id, "tu1");
            assert_eq!(content, "hello");
        }
        other => panic!("unexpected {:?}", other),
    }
}

#[test]
fn anthropic_final_turn() {
    let mut turn = AnthropicTurn::new();
    turn.apply(StreamEvent::TextDelta { text: "Done.".to_string() });
    turn.apply(StreamEvent::StopReason { reason: "end_turn".to_string() });
    let mut run = AgentRun::new();
    let mut messages = Vec::new();
    let (uses, more) = run.finish_anthropic_turn(turn, &mut messages);
    assert!(uses.is_empty());
    assert!(!more);
    assert_eq!(messages[0].content, Some("Done.".to_string()));
    assert_eq!(messages[0].anthropic_content.as_ref().unwrap().len(), 1);
}

#[test]
fn tool_use_with_other_stop_reason_ends_run() {
    let mut turn = AnthropicTurn::new();
    turn.apply(StreamEvent::ToolUseStart { id: "a".to_string(), name: "x__y".to_string() });
    turn.apply(StreamEvent::BlockStop);
    turn.apply(StreamEvent::StopReason { reason: "max_tokens".to_string() });
    let mut run = AgentRun::new();
    let mut messages = Vec::new();
    let (uses, more) = run.finish_anthropic_turn(turn, &mut messages);
    assert_eq!(uses.len(), 1);
    assert!(!more);
    match &messages[0].anthropic_content.as_ref().unwrap()[0] {
        ContentBlock::ToolUse { input, .. } => assert_eq!(input, "{}"),
        other => panic!("unexpected {:?}", other),
    }
}
