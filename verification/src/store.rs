//! Rows of the conversation store, and how a stored history is replayed to the agent.
use crate::chat::{calls_view, ChatMessage, MessageView, ToolCall};
use vstd::prelude::*;

verus! {

/// A stored conversation.
#[derive(Clone, Debug)]
pub struct Conversation {
    pub id: String,
    pub title: String,
    pub created_at: String,
}

/// A stored message; `tool_calls` holds JSON text.
#[derive(Clone, Debug)]
pub struct Message {
    pub id: i64,
    pub conversation_id: String,
    pub role: String,
    pub content: String,
    pub tool_calls: Option<String>,
    pub created_at: String,
}

/// A stored message as the agent sees it: its role and content, and its tool calls when
/// the stored JSON text parsed (`parsed_calls`).
pub fn history_message(m: &Message, parsed_calls: Option<Vec<ToolCall>>) -> (r: ChatMessage)
    ensures
        r@ == (MessageView {
            role: m.role@,
            content: Some(m.content@),
            tool_calls: match parsed_calls {
                Some(v) => Some(calls_view(v@)),
                None => None,
            },
            tool_call_id: None,
            anthropic_content: None,
        }),
{
    ChatMessage {
        role: m.role.clone(),
        content: Some(m.content.clone()),
        tool_calls: parsed_calls,
        tool_call_id: None,
        anthropic_content: None,
    }
}

} // verus!
