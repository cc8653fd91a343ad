//! The Anthropic Messages protocol: how the conversation is presented to it, and how its
//! streamed events make up one turn of the agent.
use crate::chat::{
    blocks_view, calls_view, copy_blocks, BlockView, ChatMessage, ContentBlock, MessageView,
    ToolCall, ToolCallView,
};
use crate::json::{is_json, json_parses};
use crate::agent::AgentRun;
use crate::text::str_eq;
use vstd::prelude::*;

verus! {

/// Content of a message sent to the Messages API: plain text or content blocks.
#[derive(Debug)]
pub enum ApiContent {
    Text(String),
    Blocks(Vec<ContentBlock>),
}

/// A message as the Messages API takes it.
#[derive(Debug)]
pub struct ApiMessage {
    pub role: String,
    pub content: ApiContent,
}

/// Abstract value of API message content.
pub enum ApiContentView {
    Text(Seq<char>),
    Blocks(Seq<BlockView>),
}

/// Abstract value of an API message.
pub struct ApiMessageView {
    pub role: Seq<char>,
    pub content: ApiContentView,
}

impl View for ApiMessage {
    type V = ApiMessageView;

    open spec fn view(&self) -> ApiMessageView {
        ApiMessageView {
            role: self.role@,
            content: match self.content {
                ApiContent::Text(t) => ApiContentView::Text(t@),
                ApiContent::Blocks(b) => ApiContentView::Blocks(blocks_view(b@)),
            },
        }
    }
}

/// The tool input that a tool call's arguments stand for: the arguments when they are JSON,
/// else the empty object.
pub open spec fn tool_input(arguments: Seq<char>) -> Seq<char> {
    if json_parses(arguments) {
        arguments
    } else {
        "{}"@
    }
}

/// `tool_use` blocks for OpenAI-style tool calls.
pub open spec fn tool_use_blocks(calls: Seq<ToolCallView>) -> Seq<BlockView> {
    calls.map_values(|c: ToolCallView| BlockView::ToolUse(c.id, c.name, tool_input(c.arguments)))
}

/// A leading text block for non-empty text.
pub open spec fn text_block_if_any(content: Option<Seq<char>>) -> Seq<BlockView> {
    match content {
        Some(t) => if t.len() > 0 {
            seq![BlockView::Text(t)]
        } else {
            Seq::empty()
        },
        None => Seq::empty(),
    }
}

/// A string field, empty when absent.
pub open spec fn or_empty(o: Option<Seq<char>>) -> Seq<char> {
    match o {
        Some(s) => s,
        None => Seq::empty(),
    }
}

/// How one message is presented to the Messages API, `None` for a system message (the
/// system prompt is a separate parameter). Stored content blocks are used as they are; a
/// tool result becomes a user message with a `tool_result` block; an assistant message with
/// tool calls becomes text and `tool_use` blocks; anything else is plain text.
pub open spec fn api_message(m: MessageView) -> Option<ApiMessageView> {
    match m.anthropic_content {
        Some(blocks) => Some(ApiMessageView { role: m.role, content: ApiContentView::Blocks(blocks) }),
        None => if m.role == "system"@ {
            None
        } else if m.role == "tool"@ {
            Some(
                ApiMessageView {
                    role: "user"@,
                    content: ApiContentView::Blocks(
                        seq![BlockView::ToolResult(or_empty(m.tool_call_id), or_empty(m.content))],
                    ),
                },
            )
        } else if m.role == "assistant"@ && m.tool_calls is Some {
            Some(
                ApiMessageView {
                    role: "assistant"@,
                    content: ApiContentView::Blocks(
                        text_block_if_any(m.content) + tool_use_blocks(m.tool_calls->0),
                    ),
                },
            )
        } else {
            Some(ApiMessageView { role: m.role, content: ApiContentView::Text(or_empty(m.content)) })
        },
    }
}

/// The conversation as the Messages API takes it.
pub open spec fn api_messages(ms: Seq<MessageView>) -> Seq<ApiMessageView>
    decreases ms.len(),
{
    if ms.len() == 0 {
        Seq::empty()
    } else {
        api_messages(ms.drop_last()) + match api_message(ms.last()) {
            Some(a) => seq![a],
            None => Seq::empty(),
        }
    }
}

/// Abstract value of a list of messages.
pub open spec fn messages_view(ms: Seq<ChatMessage>) -> Seq<MessageView> {
    ms.map_values(|m: ChatMessage| m@)
}

/// Abstract value of a list of API messages.
pub open spec fn api_view(ms: Seq<ApiMessage>) -> Seq<ApiMessageView> {
    ms.map_values(|m: ApiMessage| m@)
}

/// A `tool_use` block for one tool call.
fn tool_use_block(c: &ToolCall) -> (b: ContentBlock)
    ensures
        b@ == BlockView::ToolUse(c.id@, c.name@, tool_input(c.arguments@)),
{
    let input = if is_json(c.arguments.as_str()) {
        c.arguments.clone()
    } else {
        "{}".to_string()
    };
    ContentBlock::ToolUse { id: c.id.clone(), name: c.name.clone(), input }
}

/// Optional string content, empty when absent.
fn content_or_empty(o: &Option<String>) -> (r: String)
    ensures
        r@ == or_empty(crate::chat::opt_view(*o)),
{
    match o {
        Some(s) => s.clone(),
        None => String::new(),
    }
}

/// How one message is presented to the Messages API.
fn to_api_message(m: &ChatMessage) -> (r: Option<ApiMessage>)
    ensures
        match api_message(m@) {
            Some(a) => r matches Some(x) && x@ == a,
            None => r is None,
        },
{
    if let Some(blocks) = &m.anthropic_content {
        return Some(ApiMessage { role: m.role.clone(), content: ApiContent::Blocks(copy_blocks(blocks)) });
    }
    let role = m.role.as_str();
    if str_eq(role, "system") {
        return None;
    }
    if str_eq(role, "tool") {
        let mut blocks: Vec<ContentBlock> = Vec::new();
        blocks.push(
            ContentBlock::ToolResult {
                tool_use_id: content_or_empty(&m.tool_call_id),
                content: content_or_empty(&m.content),
            },
        );
        proof {
            assert(blocks_view(blocks@) =~= seq![
                BlockView::ToolResult(or_empty(m@.tool_call_id), or_empty(m@.content)),
            ]);
        }
        return Some(ApiMessage { role: "user".to_string(), content: ApiContent::Blocks(blocks) });
    }
    if str_eq(role, "assistant") {
        if let Some(calls) = &m.tool_calls {
            let mut blocks: Vec<ContentBlock> = Vec::new();
            if let Some(c) = &m.content {
                if c.as_str().unicode_len() > 0 {
                    blocks.push(ContentBlock::Text { text: c.clone() });
                }
            }
            let ghost prefix = blocks_view(blocks@);
            proof {
                assert(prefix =~= text_block_if_any(m@.content));
            }
            let mut i: usize = 0;
            while i < calls.len()
                invariant
                    i <= calls.len(),
                    prefix == text_block_if_any(m@.content),
                    blocks_view(blocks@) == prefix + tool_use_blocks(calls_view(calls@.take(i as int))),
                decreases calls.len() - i,
            {
                let b = tool_use_block(&calls[i]);
                proof {
                    assert(calls_view(calls@.take(i + 1)) =~= calls_view(calls@.take(i as int)).push(
                        calls@[i as int]@,
                    ));
                    assert(tool_use_blocks(calls_view(calls@.take(i + 1))) =~= tool_use_blocks(
                        calls_view(calls@.take(i as int)),
                    ).push(b@));
                    assert(blocks_view(blocks@.push(b)) =~= blocks_view(blocks@).push(b@));
                }
                blocks.push(b);
                i = i + 1;
            }
            proof {
                assert(calls@.take(calls.len() as int) =~= calls@);
            }
            return Some(ApiMessage { role: "assistant".to_string(), content: ApiContent::Blocks(blocks) });
        }
    }
    Some(ApiMessage { role: m.role.clone(), content: ApiContent::Text(content_or_empty(&m.content)) })
}

/// Converts the conversation to the Messages API format: stored content blocks are used as
/// they are, system messages are left out, OpenAI-style tool messages and tool calls become
/// `tool_result` and `tool_use` blocks.
pub fn to_anthropic_messages(messages: &Vec<ChatMessage>) -> (r: Vec<ApiMessage>)
    ensures
        api_view(r@) == api_messages(messages_view(messages@)),
{
    let mut r: Vec<ApiMessage> = Vec::new();
    let mut i: usize = 0;
    while i < messages.len()
        invariant
            i <= messages.len(),
            api_view(r@) == api_messages(messages_view(messages@.take(i as int))),
        decreases messages.len() - i,
    {
        let ghost before = r@;
        let converted = to_api_message(&messages[i]);
        proof {
            assert(messages_view(messages@.take(i + 1)).drop_last() =~= messages_view(
                messages@.take(i as int),
            ));
            assert(messages_view(messages@.take(i + 1)).last() == messages@[i as int]@);
        }
        match converted {
            Some(a) => {
                proof {
                    assert(api_view(r@.push(a)) =~= api_view(r@).push(a@));
                }
                r.push(a);
            },
            None => {
                proof {
                    assert(api_view(r@) =~= api_view(before) + Seq::<ApiMessageView>::empty());
                }
            },
        }
        i = i + 1;
    }
    proof {
        assert(messages@.take(messages.len() as int) =~= messages@);
    }
    r
}


/// An event of the Messages API stream, as far as a turn depends on it.
#[derive(Debug)]
pub enum StreamEvent {
    /// `content_block_start` of a `tool_use` block (missing id or name read as empty).
    ToolUseStart { id: String, name: String },
    /// `content_block_delta` of type `text_delta` with its text.
    TextDelta { text: String },
    /// `content_block_delta` of type `input_json_delta` with its partial JSON.
    InputJsonDelta { partial_json: String },
    /// `content_block_stop`.
    BlockStop,
    /// `message_delta` with a stop reason.
    StopReason { reason: String },
    /// Anything else.
    Ignored,
}

/// One streamed turn of the Messages API being assembled.
pub struct AnthropicTurn {
    content: String,
    tool_uses: Vec<ToolCall>,
    current_id: String,
    current_name: String,
    current_input: String,
    stop_reason: String,
}

/// Abstract state of a turn: text so far, finished tool uses, the tool use being streamed
/// (id, name, input) and the stop reason.
pub struct TurnView {
    pub content: Seq<char>,
    pub tool_uses: Seq<ToolCallView>,
    pub current_id: Seq<char>,
    pub current_name: Seq<char>,
    pub current_input: Seq<char>,
    pub stop_reason: Seq<char>,
}

/// Abstract value of a stream event.
pub enum EventView {
    ToolUseStart(Seq<char>, Seq<char>),
    TextDelta(Seq<char>),
    InputJsonDelta(Seq<char>),
    BlockStop,
    StopReason(Seq<char>),
    Ignored,
}

impl View for StreamEvent {
    type V = EventView;

    open spec fn view(&self) -> EventView {
        match self {
            StreamEvent::ToolUseStart { id, name } => EventView::ToolUseStart(id@, name@),
            StreamEvent::TextDelta { text } => EventView::TextDelta(text@),
            StreamEvent::InputJsonDelta { partial_json } => EventView::InputJsonDelta(partial_json@),
            StreamEvent::BlockStop => EventView::BlockStop,
            StreamEvent::StopReason { reason } => EventView::StopReason(reason@),
            StreamEvent::Ignored => EventView::Ignored,
        }
    }
}

/// How a turn takes in one stream event: a `tool_use` start opens a tool use, text is
/// appended, partial JSON is appended to the open tool use's input, a block stop closes the
/// open tool use (if one is open, i.e. its id is not empty), a stop reason is kept.
pub open spec fn turn_step(t: TurnView, e: EventView) -> TurnView {
    match e {
        EventView::ToolUseStart(id, name) => TurnView {
            current_id: id,
            current_name: name,
            current_input: Seq::empty(),
            ..t
        },
        EventView::TextDelta(text) => TurnView { content: t.content + text, ..t },
        EventView::InputJsonDelta(p) => TurnView { current_input: t.current_input + p, ..t },
        EventView::BlockStop => if t.current_id.len() > 0 {
            TurnView {
                tool_uses: t.tool_uses.push(
                    ToolCallView { id: t.current_id, name: t.current_name, arguments: t.current_input },
                ),
                current_id: Seq::empty(),
                current_name: Seq::empty(),
                current_input: Seq::empty(),
                ..t
            }
        } else {
            t
        },
        EventView::StopReason(r) => TurnView { stop_reason: r, ..t },
        EventView::Ignored => t,
    }
}

impl AnthropicTurn {
    /// Abstract state.
    pub closed spec fn state(&self) -> TurnView {
        TurnView {
            content: self.content@,
            tool_uses: calls_view(self.tool_uses@),
            current_id: self.current_id@,
            current_name: self.current_name@,
            current_input: self.current_input@,
            stop_reason: self.stop_reason@,
        }
    }

    /// A turn that has received nothing.
    pub fn new() -> (r: AnthropicTurn)
        ensures
            r.state() == (TurnView {
                content: Seq::empty(),
                tool_uses: Seq::empty(),
                current_id: Seq::empty(),
                current_name: Seq::empty(),
                current_input: Seq::empty(),
                stop_reason: Seq::empty(),
            }),
    {
        let r = AnthropicTurn {
            content: String::new(),
            tool_uses: Vec::new(),
            current_id: String::new(),
            current_name: String::new(),
            current_input: String::new(),
            stop_reason: String::new(),
        };
        proof {
            assert(calls_view(r.tool_uses@) =~= Seq::<ToolCallView>::empty());
        }
        r
    }

    /// Takes in one stream event; returns the text to report as content, if any.
    pub fn apply(&mut self, e: StreamEvent) -> (r: Option<String>)
        ensures
            final(self).state() == turn_step(old(self).state(), e@),
            match e@ {
                EventView::TextDelta(text) => r matches Some(t) && t@ == text,
                _ => r is None,
            },
    {
        match e {
            StreamEvent::ToolUseStart { id, name } => {
                self.current_id = id;
                self.current_name = name;
                self.current_input = String::new();
                None
            },
            StreamEvent::TextDelta { text } => {
                self.content.append(text.as_str());
                Some(text)
            },
            StreamEvent::InputJsonDelta { partial_json } => {
                self.current_input.append(partial_json.as_str());
                None
            },
            StreamEvent::BlockStop => {
                if self.current_id.as_str().unicode_len() > 0 {
                    let mut id = String::new();
                    let mut name = String::new();
                    let mut input = String::new();
                    std::mem::swap(&mut id, &mut self.current_id);
                    std::mem::swap(&mut name, &mut self.current_name);
                    std::mem::swap(&mut input, &mut self.current_input);
                    let c = ToolCall { id, name, arguments: input };
                    proof {
                        assert(calls_view(self.tool_uses@.push(c)) =~= calls_view(self.tool_uses@).push(
                            c@,
                        ));
                    }
                    self.tool_uses.push(c);
                }
                None
            },
            StreamEvent::StopReason { reason } => {
                self.stop_reason = reason;
                None
            },
            StreamEvent::Ignored => None,
        }
    }
}

/// Content blocks of the assistant message of a turn with tool uses: its text, if any, then
/// one `tool_use` block per tool use.
pub open spec fn turn_blocks(content: Seq<char>, uses: Seq<ToolCallView>) -> Seq<BlockView> {
    text_block_if_any(Some(content)) + tool_use_blocks(uses)
}

/// The message that hands the results of a turn's tool uses back to the model.
pub open spec fn results_message(uses: Seq<ToolCallView>, results: Seq<Seq<char>>) -> MessageView {
    MessageView {
        role: "user"@,
        content: Some(Seq::empty()),
        tool_calls: None,
        tool_call_id: None,
        anthropic_content: Some(
            Seq::new(uses.len(), |i: int| BlockView::ToolResult(uses[i].id, results[i])),
        ),
    }
}

/// The messages a finished turn of the Messages API adds to the conversation: without tool
/// uses, its text as an assistant message with one text block (nothing when it said
/// nothing); with tool uses, one assistant message whose blocks are its text, if any, and
/// the tool uses.
pub open spec fn anthropic_turn_messages(content: Seq<char>, uses: Seq<ToolCallView>) -> Seq<MessageView> {
    if uses.len() == 0 {
        if content.len() > 0 {
            seq![
                MessageView {
                    role: "assistant"@,
                    content: Some(content),
                    tool_calls: None,
                    tool_call_id: None,
                    anthropic_content: Some(seq![BlockView::Text(content)]),
                },
            ]
        } else {
            Seq::empty()
        }
    } else {
        seq![
            MessageView {
                role: "assistant"@,
                content: Some(Seq::empty()),
                tool_calls: None,
                tool_call_id: None,
                anthropic_content: Some(turn_blocks(content, uses)),
            },
        ]
    }
}

impl AgentRun {
    /// Closes a turn of the Messages API: its text joins the run's text and the conversation
    /// gets the assistant message (with its content blocks). Returns the tool uses to run and
    /// whether the model stopped to use them (stop reason `tool_use`); with no tool uses the
    /// run is over.
    pub fn finish_anthropic_turn(&mut self, turn: AnthropicTurn, messages: &mut Vec<ChatMessage>) -> (r: (
        Vec<ToolCall>,
        bool,
    ))
        ensures
            final(self).rounds() == old(self).rounds(),
            final(self).full_content() == old(self).full_content() + turn.state().content,
            calls_view(r.0@) == turn.state().tool_uses,
            r.1 == (turn.state().tool_uses.len() > 0 && turn.state().stop_reason == "tool_use"@),
            final(messages)@.map_values(|m: ChatMessage| m@) == old(messages)@.map_values(
                |m: ChatMessage| m@,
            ) + anthropic_turn_messages(turn.state().content, turn.state().tool_uses),
    {
        self.append_content(turn.content.as_str());
        let has_text = turn.content.as_str().unicode_len() > 0;
        let ghost before = messages@;
        if turn.tool_uses.len() == 0 {
            if has_text {
                let mut blocks: Vec<ContentBlock> = Vec::new();
                blocks.push(ContentBlock::Text { text: turn.content.clone() });
                proof {
                    assert(blocks_view(blocks@) =~= seq![BlockView::Text(turn.content@)]);
                }
                let m = ChatMessage {
                    role: "assistant".to_string(),
                    content: Some(turn.content),
                    tool_calls: None,
                    tool_call_id: None,
                    anthropic_content: Some(blocks),
                };
                messages.push(m);
                proof {
                    assert(messages@.map_values(|m: ChatMessage| m@) =~= before.map_values(
                        |m: ChatMessage| m@,
                    ) + seq![m@]);
                }
            } else {
                proof {
                    assert(messages@.map_values(|m: ChatMessage| m@) =~= before.map_values(
                        |m: ChatMessage| m@,
                    ) + Seq::<MessageView>::empty());
                }
            }
            return (Vec::new(), false);
        }
        let mut blocks: Vec<ContentBlock> = Vec::new();
        if has_text {
            blocks.push(ContentBlock::Text { text: turn.content.clone() });
        }
        let ghost prefix = blocks_view(blocks@);
        proof {
            assert(prefix =~= text_block_if_any(Some(turn.content@)));
        }
        let mut i: usize = 0;
        while i < turn.tool_uses.len()
            invariant
                i <= turn.tool_uses.len(),
                prefix == text_block_if_any(Some(turn.content@)),
                blocks_view(blocks@) == prefix + tool_use_blocks(
                    calls_view(turn.tool_uses@.take(i as int)),
                ),
            decreases turn.tool_uses.len() - i,
        {
            let b = tool_use_block(&turn.tool_uses[i]);
            proof {
                assert(calls_view(turn.tool_uses@.take(i + 1)) =~= calls_view(
                    turn.tool_uses@.take(i as int),
                ).push(turn.tool_uses@[i as int]@));
                assert(tool_use_blocks(calls_view(turn.tool_uses@.take(i + 1))) =~= tool_use_blocks(
                    calls_view(turn.tool_uses@.take(i as int)),
                ).push(b@));
                assert(blocks_view(blocks@.push(b)) =~= blocks_view(blocks@).push(b@));
            }
            blocks.push(b);
            i = i + 1;
        }
        proof {
            assert(turn.tool_uses@.take(turn.tool_uses.len() as int) =~= turn.tool_uses@);
        }
        let m = ChatMessage {
            role: "assistant".to_string(),
            content: Some(String::new()),
            tool_calls: None,
            tool_call_id: None,
            anthropic_content: Some(blocks),
        };
        messages.push(m);
        proof {
            assert(messages@.map_values(|m: ChatMessage| m@) =~= before.map_values(
                |m: ChatMessage| m@,
            ).push(m@));
        }
        let more = str_eq(turn.stop_reason.as_str(), "tool_use");
        (turn.tool_uses, more)
    }
}

/// The message that hands tool results back to the Messages API: a user message with one
/// `tool_result` block per tool use, in order.
pub fn tool_results_message(uses: &Vec<ToolCall>, results: &Vec<String>) -> (m: ChatMessage)
    requires
        uses.len() == results.len(),
    ensures
        m@ == results_message(calls_view(uses@), results@.map_values(|r: String| r@)),
{
    let mut blocks: Vec<ContentBlock> = Vec::new();
    let mut i: usize = 0;
    while i < uses.len()
        invariant
            i <= uses.len() == results.len(),
            blocks_view(blocks@) == Seq::new(
                i as nat,
                |k: int| BlockView::ToolResult(uses@[k].id@, results@[k]@),
            ),
        decreases uses.len() - i,
    {
        let b = ContentBlock::ToolResult {
            tool_use_id: uses[i].id.clone(),
            content: results[i].clone(),
        };
        proof {
            assert(b@ == BlockView::ToolResult(uses@[i as int].id@, results@[i as int]@));
            assert(blocks_view(blocks@.push(b)) =~= blocks_view(blocks@).push(b@));
            assert(blocks_view(blocks@.push(b)) =~= Seq::new(
                (i + 1) as nat,
                |k: int| BlockView::ToolResult(uses@[k].id@, results@[k]@),
            ));
        }
        blocks.push(b);
        i = i + 1;
    }
    let m = ChatMessage {
        role: "user".to_string(),
        content: Some(String::new()),
        tool_calls: None,
        tool_call_id: None,
        anthropic_content: Some(blocks),
    };
    proof {
        assert(blocks_view(blocks@) =~= results_message(
            calls_view(uses@),
            results@.map_values(|r: String| r@),
        ).anthropic_content->0);
    }
    m
}

/// A turn after taking in a sequence of stream events.
pub open spec fn turn_steps(t: TurnView, es: Seq<EventView>) -> TurnView
    decreases es.len(),
{
    if es.len() == 0 {
        t
    } else {
        turn_step(turn_steps(t, es.drop_last()), es.last())
    }
}

/// Closing an open `tool_use` block appends that tool use to the ones already finished, and
/// no other event touches them.
pub proof fn lemma_block_stop_appends(t: TurnView, e: EventView)
    ensures
        e is BlockStop && t.current_id.len() > 0 ==> turn_step(t, e).tool_uses == t.tool_uses.push(
            ToolCallView { id: t.current_id, name: t.current_name, arguments: t.current_input },
        ),
        !(e is BlockStop && t.current_id.len() > 0) ==> turn_step(t, e).tool_uses == t.tool_uses,
{
}

/// Over any stream, a turn's finished tool uses only grow at the end: every tool use
/// finished earlier stays, in its place, and each closed block adds exactly one.
pub proof fn lemma_tool_uses_kept(t: TurnView, es: Seq<EventView>)
    ensures
        turn_steps(t, es).tool_uses.len() >= t.tool_uses.len(),
        turn_steps(t, es).tool_uses.take(t.tool_uses.len() as int) == t.tool_uses,
    decreases es.len(),
{
    if es.len() > 0 {
        let mid = turn_steps(t, es.drop_last());
        lemma_tool_uses_kept(t, es.drop_last());
        lemma_block_stop_appends(mid, es.last());
        let after = turn_steps(t, es);
        if es.last() is BlockStop && mid.current_id.len() > 0 {
            assert(after.tool_uses.take(t.tool_uses.len() as int) =~= mid.tool_uses.take(
                t.tool_uses.len() as int,
            ));
        }
    }
}

/// A message with stored content blocks goes to the Messages API with its own role and those
/// blocks unchanged; any converted message keeps the role of the message it comes from,
/// except an OpenAI-style tool result, which the user hands back.
pub proof fn lemma_api_message_role(m: MessageView)
    ensures
        m.anthropic_content matches Some(b) ==> api_message(m) == Some(
            ApiMessageView { role: m.role, content: ApiContentView::Blocks(b) },
        ),
        api_message(m) matches Some(a) ==> a.role == m.role || (m.anthropic_content is None
            && m.role == "tool"@ && a.role == "user"@),
{
}

/// Converting a conversation that ends with a message carrying content blocks gives the
/// conversion of the earlier messages followed by that message, with its role and blocks.
pub proof fn lemma_api_messages_push_blocks(ms: Seq<MessageView>, m: MessageView)
    requires
        m.anthropic_content is Some,
    ensures
        api_messages(ms.push(m)) == api_messages(ms).push(
            ApiMessageView { role: m.role, content: ApiContentView::Blocks(m.anthropic_content->0) },
        ),
{
    assert(ms.push(m).drop_last() =~= ms);
    assert(ms.push(m).last() == m);
    assert(api_messages(ms) + seq![
        ApiMessageView { role: m.role, content: ApiContentView::Blocks(m.anthropic_content->0) },
    ] =~= api_messages(ms).push(
        ApiMessageView { role: m.role, content: ApiContentView::Blocks(m.anthropic_content->0) },
    ));
}

} // verus!
