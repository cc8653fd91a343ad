use zero_claw::mcp::{
    listed_tool, next_request_id, split_tool_name, tool_reply_text, unknown_server_error,
    ToolCallReply,
};

#[test]
fn tool_names() {
    let t = listed_tool("fs", Some("read_file"), Some("Read a file"), "{}".to_string());
    assert_eq!(t.name, "fs__read_file");
    assert_eq!(t.description, "Read a file");
    let u = listed_tool("fs", None, None, "null".to_string());
    assert_eq!(u.name, "fs__");
    assert_eq!(u.description, "");
    assert_eq!(split_tool_name("fs__read_file"), Ok(("fs".to_string(), "read_file".to_string())));
    assert_eq!(split_tool_name("a__b__c"), Ok(("a".to_string(), "b__c".to_string())));
    assert_eq!(split_tool_name("plain"), Err("invalid tool name: plain".to_string()));
    assert_eq!(unknown_server_error("git"), "unknown server: git");
}

#[test]
fn qualified_names_route_back() {
    let t = listed_tool("github", Some("create_issue"), None, "{}".to_string());
    assert_eq!(split_tool_name(&t.name), Ok(("github".to_string(), "create_issue".to_string())));
    let odd = listed_tool("my_", Some("x"), None, "{}".to_string());
    assert_eq!(split_tool_name(&odd.name), Ok(("my".to_string(), "_x".to_string())));
}

#[test]
fn tool_reply_texts() {
    let r = ToolCallReply {
        content_texts: Some(vec![Some("one".to_string()), None, Some("two".to_string())]),
        error_message: Some("ignored".to_string()),
        raw: "{}".to_string(),
    };
    assert_eq!(tool_reply_text(&r), "one\ntwo");
    let e = ToolCallReply { content_texts: None, error_message: Some("boom".to_string()), raw: "{}".to_string() };
    assert_eq!(tool_reply_text(&e), "Error: boom");
    let raw = ToolCallReply { content_texts: None, error_message: None, raw: "{\"x\":1}".to_string() };
    assert_eq!(tool_reply_text(&raw), "{\"x\":1}");
    let empty = ToolCallReply { content_texts: Some(vec![]), error_message: None, raw: String::new() };
    assert_eq!(tool_reply_text(&empty), "");
}

#[test]
fn request_ids() {
    let mut next = 1u64;
    assert_eq!(next_request_id(&mut next), 1);
    assert_eq!(next_request_id(&mut next), 2);
    assert_eq!(next, 3);
}
