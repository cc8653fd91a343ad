//! The conversation as the agents keep it: messages in the OpenAI chat format, with the
//! Anthropic content blocks stored beside them where that protocol produced them.
use vstd::prelude::*;

verus! {

/// A call of a tool that the model asked for.
#[derive(Debug)]
pub struct ToolCall {
    pub id: String,
    pub name: String,
    /// The arguments as JSON text.
    pub arguments: String,
}

/// Abstract value of a tool call: id, name, arguments.
pub struct ToolCallView {
    pub id: Seq<char>,
    pub name: Seq<char>,
    pub arguments: Seq<char>,
}

impl View for ToolCall {
    type V = ToolCallView;

    open spec fn view(&self) -> ToolCallView {
        ToolCallView { id: self.id@, name: self.name@, arguments: self.arguments@ }
    }
}

impl ToolCall {
    /// A field-by-field copy.
    pub fn duplicate(&self) -> (r: ToolCall)
        ensures
            r@ == self@,
    {
        ToolCall { id: self.id.clone(), name: self.name.clone(), arguments: self.arguments.clone() }
    }
}

/// A content block of the Anthropic Messages protocol.
#[derive(Debug)]
pub enum ContentBlock {
    Text { text: String },
    /// `input` holds the tool input as JSON text.
    ToolUse { id: String, name: String, input: String },
    ToolResult { tool_use_id: String, content: String },
}

/// Abstract value of a content block.
pub enum BlockView {
    Text(Seq<char>),
    ToolUse(Seq<char>, Seq<char>, Seq<char>),
    ToolResult(Seq<char>, Seq<char>),
}

impl View for ContentBlock {
    type V = BlockView;

    open spec fn view(&self) -> BlockView {
        match self {
            ContentBlock::Text { text } => BlockView::Text(text@),
            ContentBlock::ToolUse { id, name, input } => BlockView::ToolUse(id@, name@, input@),
            ContentBlock::ToolResult { tool_use_id, content } => BlockView::ToolResult(
                tool_use_id@,
                content@,
            ),
        }
    }
}

impl ContentBlock {
    /// A field-by-field copy.
    pub fn duplicate(&self) -> (r: ContentBlock)
        ensures
            r@ == self@,
    {
        match self {
            ContentBlock::Text { text } => ContentBlock::Text { text: text.clone() },
            ContentBlock::ToolUse { id, name, input } => ContentBlock::ToolUse {
                id: id.clone(),
                name: name.clone(),
                input: input.clone(),
            },
            ContentBlock::ToolResult { tool_use_id, content } => ContentBlock::ToolResult {
                tool_use_id: tool_use_id.clone(),
                content: content.clone(),
            },
        }
    }
}

/// A message of the conversation. Absent fields are `None`.
#[derive(Debug)]
pub struct ChatMessage {
    pub role: String,
    pub content: Option<String>,
    pub tool_calls: Option<Vec<ToolCall>>,
    pub tool_call_id: Option<String>,
    /// Anthropic content blocks that stand for this message in that protocol.
    pub anthropic_content: Option<Vec<ContentBlock>>,
}

/// Abstract value of a message.
pub struct MessageView {
    pub role: Seq<char>,
    pub content: Option<Seq<char>>,
    pub tool_calls: Option<Seq<ToolCallView>>,
    pub tool_call_id: Option<Seq<char>>,
    pub anthropic_content: Option<Seq<BlockView>>,
}

/// Abstract value of an optional string.
pub open spec fn opt_view(o: Option<String>) -> Option<Seq<char>> {
    match o {
        Some(s) => Some(s@),
        None => None,
    }
}

/// Abstract value of a list of tool calls.
pub open spec fn calls_view(v: Seq<ToolCall>) -> Seq<ToolCallView> {
    v.map_values(|c: ToolCall| c@)
}

/// Abstract value of a list of content blocks.
pub open spec fn blocks_view(v: Seq<ContentBlock>) -> Seq<BlockView> {
    v.map_values(|b: ContentBlock| b@)
}

impl View for ChatMessage {
    type V = MessageView;

    open spec fn view(&self) -> MessageView {
        MessageView {
            role: self.role@,
            content: opt_view(self.content),
            tool_calls: match self.tool_calls {
                Some(v) => Some(calls_view(v@)),
                None => None,
            },
            tool_call_id: opt_view(self.tool_call_id),
            anthropic_content: match self.anthropic_content {
                Some(v) => Some(blocks_view(v@)),
                None => None,
            },
        }
    }
}

/// Copy of a list of tool calls.
pub fn copy_calls(v: &Vec<ToolCall>) -> (r: Vec<ToolCall>)
    ensures
        calls_view(r@) == calls_view(v@),
{
    let mut r: Vec<ToolCall> = Vec::new();
    let mut i: usize = 0;
    while i < v.len()
        invariant
            i <= v.len(),
            calls_view(r@) == calls_view(v@.take(i as int)),
        decreases v.len() - i,
    {
        let c = v[i].duplicate();
        proof {
            assert(calls_view(r@.push(c)) =~= calls_view(r@).push(c@));
            assert(calls_view(v@.take(i + 1)) =~= calls_view(v@.take(i as int)).push(v@[i as int]@));
        }
        r.push(c);
        i = i + 1;
    }
    proof {
        assert(v@.take(v.len() as int) =~= v@);
    }
    r
}

/// Copy of a list of content blocks.
pub fn copy_blocks(v: &Vec<ContentBlock>) -> (r: Vec<ContentBlock>)
    ensures
        blocks_view(r@) == blocks_view(v@),
{
    let mut r: Vec<ContentBlock> = Vec::new();
    let mut i: usize = 0;
    while i < v.len()
        invariant
            i <= v.len(),
            blocks_view(r@) == blocks_view(v@.take(i as int)),
        decreases v.len() - i,
    {
        let c = v[i].duplicate();
        proof {
            assert(blocks_view(r@.push(c)) =~= blocks_view(r@).push(c@));
            assert(blocks_view(v@.take(i + 1)) =~= blocks_view(v@.take(i as int)).push(
                v@[i as int]@,
            ));
        }
        r.push(c);
        i = i + 1;
    }
    proof {
        assert(v@.take(v.len() as int) =~= v@);
    }
    r
}

/// A plain text message (`{"role": role, "content": content}`), as the history is replayed
/// from the store.
pub fn text_message(role: &str, content: &str) -> (m: ChatMessage)
    ensures
        m@ == (MessageView {
            role: role@,
            content: Some(content@),
            tool_calls: None,
            tool_call_id: None,
            anthropic_content: None,
        }),
{
    ChatMessage {
        role: role.to_string(),
        content: Some(content.to_string()),
        tool_calls: None,
        tool_call_id: None,
        anthropic_content: None,
    }
}

/// The message that carries a tool's result back to an OpenAI-style model
/// (`{"role": "tool", "tool_call_id": id, "content": result}`).
pub fn tool_message(call_id: &str, result: &str) -> (m: ChatMessage)
    ensures
        m@ == (MessageView {
            role: "tool"@,
            content: Some(result@),
            tool_calls: None,
            tool_call_id: Some(call_id@),
            anthropic_content: None,
        }),
{
    ChatMessage {
        role: "tool".to_string(),
        content: Some(result.to_string()),
        tool_calls: None,
        tool_call_id: Some(call_id.to_string()),
        anthropic_content: None,
    }
}

} // verus!
