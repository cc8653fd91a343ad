//! Decisions of the HTTP chat endpoint: conversation ids and titles, and which message of a
//! finished run is stored.
use crate::chat::{calls_view, copy_calls, ChatMessage, ToolCall};
use crate::ids::{hyphenated_uuid, new_uuid};
use crate::text::{first_chars, str_eq, take_chars};
use vstd::prelude::*;

verus! {

/// Longest conversation title, in characters.
pub const TITLE_CHARS: usize = 50;

/// Title of a conversation started by a message: its first 50 characters.
pub fn chat_title(message: &str) -> (r: String)
    ensures
        r@ == take_chars(message@, 50),
{
    first_chars(message, TITLE_CHARS)
}

/// The requested conversation id, or a fresh UUID when none is given.
pub fn conversation_id_or_new(requested: Option<String>) -> (r: String)
    ensures
        requested matches Some(id) ==> r == id,
        requested is None ==> hyphenated_uuid(r@),
{
    match requested {
        Some(id) => id,
        None => new_uuid(),
    }
}

/// What is stored of a finished run: the last message when it is the assistant's, with its
/// content (empty when absent) and its tool calls.
pub fn final_assistant_message(messages: &Vec<ChatMessage>) -> (r: Option<(String, Option<Vec<ToolCall>>)>)
    ensures
        messages@.len() == 0 ==> r is None,
        messages@.len() > 0 ==> {
            let last = messages@.last()@;
            if last.role == "assistant"@ {
                &&& r matches Some((content, calls))
                &&& content@ == crate::anthropic::or_empty(last.content)
                &&& match calls {
                    Some(v) => last.tool_calls == Some(calls_view(v@)),
                    None => last.tool_calls is None,
                }
            } else {
                r is None
            }
        },
{
    if messages.len() == 0 {
        return None;
    }
    let last = &messages[messages.len() - 1];
    if !str_eq(last.role.as_str(), "assistant") {
        return None;
    }
    let content = match &last.content {
        Some(c) => c.clone(),
        None => String::new(),
    };
    let calls = match &last.tool_calls {
        Some(v) => Some(copy_calls(v)),
        None => None,
    };
    Some((content, calls))
}

} // verus!
