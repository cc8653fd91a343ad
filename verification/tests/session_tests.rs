use zero_claw::agent::AgentEvent;
use zero_claw::chat::{text_message, ChatMessage, ToolCall};
use zero_claw::cli::{
    classify_input, is_agent_busy, new_conversation_id, stdin_message, CliAction, CliInput,
    CliSession,
};
use zero_claw::server::{chat_title, conversation_id_or_new, final_assistant_message};
use zero_claw::store::{history_message, Message};

#[test]
fn terminal_input() {
    assert!(matches!(classify_input(stdin_message("  \n")), CliInput::Skip));
    assert!(matches!(classify_input(stdin_message("/exit\n")), CliInput::Quit));
    assert!(matches!(classify_input(stdin_message(" /quit")), CliInput::Quit));
    match classify_input(stdin_message(" hi \n")) {
        CliInput::Prompt(p) => assert_eq!(p, "hi"),
        other => panic!("unexpected {:?}", other),
    }
    assert!(new_conversation_id().starts_with("cli-"));
    assert_eq!(new_conversation_id().len(), 40);
}

#[test]
fn terminal_session_events() {
    let mut s = CliSession::new();
    assert!(!is_agent_busy(&s));
    s.begin_turn();
    assert!(is_agent_busy(&s));
    match s.on_event(&AgentEvent::Content { text: "Hel".to_string() }) {
        CliAction::Print(t) => assert_eq!(t, "Hel"),
        other => panic!("unexpected {:?}", other),
    }
    s.on_event(&AgentEvent::Content { text: "lo".to_string() });
    match s.on_event(&AgentEvent::ToolCall { name: "loop_create".to_string(), args: "{}".to_string() }) {
        CliAction::LoopTool { name, args } => {
            assert_eq!(name, "loop_create");
            assert_eq!(args, "{}");
        }
        other => panic!("unexpected {:?}", other),
    }
    match s.on_event(&AgentEvent::ToolCall { name: "fs__read".to_string(), args: "{}".to_string() }) {
        CliAction::ToolNotice(n) => assert_eq!(n, "fs__read"),
        other => panic!("unexpected {:?}", other),
    }
    let long = "r".repeat(250);
    match s.on_event(&AgentEvent::ToolResult { name: "fs__read".to_string(), result: long }) {
        CliAction::ToolPreview { name, preview } => {
            assert_eq!(name, "fs__read");
            assert_eq!(preview.len(), 200);
        }
        other => panic!("unexpected {:?}", other),
    }
    assert!(matches!(
        s.on_event(&AgentEvent::ToolResult { name: "loop_list".to_string(), result: "x".to_string() }),
        CliAction::Nothing
    ));
    assert!(matches!(s.on_event(&AgentEvent::Done { content: "Hello".to_string() }), CliAction::FinishLine(None)));
    match s.on_event(&AgentEvent::Error { error: "boom".to_string() }) {
        CliAction::ShowError(e) => assert_eq!(e, "boom"),
        other => panic!("unexpected {:?}", other),
    }
    assert_eq!(s.end_turn(), Some("Hello".to_string()));
    assert!(!is_agent_busy(&s));

    s.begin_turn();
    match s.on_event(&AgentEvent::Done { content: "late".to_string() }) {
        CliAction::FinishLine(Some(c)) => assert_eq!(c, "late"),
        other => panic!("unexpected {:?}", other),
    }
    assert_eq!(s.end_turn(), None);
}

#[test]
fn http_chat_decisions() {
    let long = "é".repeat(60);
    assert_eq!(chat_title(&long).chars().count(), 50);
    assert_eq!(chat_title("short"), "short");
    assert_eq!(conversation_id_or_new(Some("abc".to_string())), "abc");
    let fresh = conversation_id_or_new(None);
    assert_eq!(fresh.len(), 36);
    for (i, c) in fresh.chars().enumerate() {
        if i == 8 || i == 13 || i == 18 || i == 23 {
            assert_eq!(c, '-');
        } else {
            assert!(c.is_ascii_hexdigit() && !c.is_ascii_uppercase());
        }
    }

    let mut msgs: Vec<ChatMessage> = vec![text_message("user", "q")];
    assert!(final_assistant_message(&msgs).is_none());
    msgs.push(ChatMessage {
        role: "assistant".to_string(),
        content: None,
        tool_calls: Some(vec![ToolCall { id: "1".to_string(), name: "a__b".to_string(), arguments: "{}".to_string() }]),
        tool_call_id: None,
        anthropic_content: None,
    });
    let (content, calls) = final_assistant_message(&msgs).expect("assistant last");
    assert_eq!(content, "");
    assert_eq!(calls.unwrap()[0].name, "a__b");
    assert!(final_assistant_message(&vec![]).is_none());
}

#[test]
fn stored_history_replay() {
    let m = Message {
        id: 1,
        conversation_id: "c".to_string(),
        role: "user".to_string(),
        content: "hi".to_string(),
        tool_calls: None,
        created_at: "now".to_string(),
    };
    let c = history_message(&m, None);
    assert_eq!(c.role, "user");
    assert_eq!(c.content, Some("hi".to_string()));
    assert!(c.tool_calls.is_none());
}

#[test]
fn terminal_turn_is_busy_until_it_ends_and_stores_streamed_reply() {
    let mut s = CliSession::new();
    assert!(!is_agent_busy(&s));
    s.begin_turn();
    assert!(is_agent_busy(&s));
    let events = vec![
        AgentEvent::Content { text: "Sched".to_string() },
        AgentEvent::ToolCall { name: "loop_create".to_string(), args: "{\"schedule\":\"5m\"}".to_string() },
        AgentEvent::ToolResult { name: "loop_create".to_string(), result: "ok".to_string() },
        AgentEvent::Content { text: "uled.".to_string() },
        AgentEvent::Done { content: "Scheduled.".to_string() },
    ];
    let mut loop_calls = Vec::new();
    for e in &events {
        if let CliAction::LoopTool { name, args } = s.on_event(e) {
            loop_calls.push((name, args));
        }
        assert!(is_agent_busy(&s));
    }
    assert_eq!(loop_calls, vec![("loop_create".to_string(), "{\"schedule\":\"5m\"}".to_string())]);
    assert_eq!(s.end_turn(), Some("Scheduled.".to_string()));
    assert!(!is_agent_busy(&s));

    s.begin_turn();
    s.on_event(&AgentEvent::Error { error: "down".to_string() });
    assert_eq!(s.end_turn(), None);
}
