//! Decisions of the interactive terminal session.
use crate::agent::AgentEvent;
use crate::run::{content_text, AgentEventView};
use crate::ids::{hyphenated_uuid, new_uuid};
use crate::text::{concat, first_chars, starts_with, str_eq, take_chars, trim, trimmed};
use vstd::prelude::*;

verus! {

/// What a line of input asks for.
#[derive(Debug)]
pub enum CliInput {
    /// Nothing was typed.
    Skip,
    /// `/exit` or `/quit`.
    Quit,
    /// A message for the agent.
    Prompt(String),
}

/// What the terminal shows for an agent event.
#[derive(Debug)]
pub enum CliAction {
    /// Streamed text, printed as it comes.
    Print(String),
    /// A built-in `loop_*` tool the session handles itself.
    LoopTool { name: String, args: String },
    /// A notice that an MCP tool is being called.
    ToolNotice(String),
    /// The first 200 characters of an MCP tool's result.
    ToolPreview { name: String, preview: String },
    /// End of the reply: the final content to print when nothing was streamed, then a newline.
    FinishLine(Option<String>),
    /// An error to report.
    ShowError(String),
    /// Nothing to show.
    Nothing,
}

/// The message of a line read from the terminal: the line trimmed.
pub fn stdin_message(line: &str) -> (r: String)
    ensures
        r@ == trimmed(line@),
{
    trim(line)
}

/// What a message asks for: nothing when empty, the end of the session for `/exit` and
/// `/quit`, else a prompt for the agent.
pub fn classify_input(message: String) -> (r: CliInput)
    ensures
        message@.len() == 0 ==> r is Skip,
        message@.len() > 0 && (message@ == "/exit"@ || message@ == "/quit"@) ==> r is Quit,
        message@.len() > 0 && message@ != "/exit"@ && message@ != "/quit"@ ==> (r matches CliInput::Prompt(
            p,
        ) && p == message),
{
    if message.as_str().unicode_len() == 0 {
        CliInput::Skip
    } else if str_eq(message.as_str(), "/exit") || str_eq(message.as_str(), "/quit") {
        CliInput::Quit
    } else {
        CliInput::Prompt(message)
    }
}

/// Id of a new terminal conversation: `cli-` and a fresh UUID.
pub fn new_conversation_id() -> (r: String)
    ensures
        exists|u: Seq<char>| hyphenated_uuid(u) && r@ == "cli-"@ + u,
{
    let u = new_uuid();
    concat("cli-", u.as_str())
}

/// The reply after an agent event: streamed text is appended, other events keep it.
pub open spec fn cli_response_after(response: Seq<char>, e: AgentEvent) -> Seq<char> {
    match e {
        AgentEvent::Content { text } => response + text@,
        _ => response,
    }
}

/// What the terminal shows for an event, given the reply streamed before it: streamed text
/// is printed; a `loop_*` tool call is handled by the session itself and its result is not
/// shown; another tool call is announced and its result previewed (200 characters); the
/// end prints the final content only when nothing was streamed; an error is shown.
pub open spec fn cli_action_for(e: AgentEvent, response: Seq<char>, r: CliAction) -> bool {
    match e {
        AgentEvent::Content { text } => r matches CliAction::Print(t) && t@ == text@,
        AgentEvent::ToolCall { name, args } => if "loop_"@.is_prefix_of(name@) {
            r matches CliAction::LoopTool { name: n, args: a } && n@ == name@ && a@ == args@
        } else {
            r matches CliAction::ToolNotice(n) && n@ == name@
        },
        AgentEvent::ToolResult { name, result } => if "loop_"@.is_prefix_of(name@) {
            r is Nothing
        } else {
            r matches CliAction::ToolPreview { name: n, preview: p } && n@ == name@ && p@
                == take_chars(result@, 200)
        },
        AgentEvent::Done { content } => if response.len() == 0 && content@.len() > 0 {
            r matches CliAction::FinishLine(Some(c)) && c@ == content@
        } else {
            r matches CliAction::FinishLine(None)
        },
        AgentEvent::Error { error } => r matches CliAction::ShowError(x) && x@ == error@,
        AgentEvent::Start { .. } => r is Nothing,
    }
}

/// The terminal session: whether the agent is running, and the reply streamed so far.
pub struct CliSession {
    busy: bool,
    response: String,
}

impl CliSession {
    /// Whether the agent is running.
    pub closed spec fn busy(&self) -> bool {
        self.busy
    }

    /// The reply streamed so far in the current turn.
    pub closed spec fn response(&self) -> Seq<char> {
        self.response@
    }

    /// A session with no agent running.
    pub fn new() -> (r: CliSession)
        ensures
            !r.busy(),
            r.response() == Seq::<char>::empty(),
    {
        CliSession { busy: false, response: String::new() }
    }

    /// The agent starts on a prompt.
    pub fn begin_turn(&mut self)
        ensures
            cli_turn_begun(*final(self)),
    {
        self.busy = true;
        self.response = String::new();
    }

    /// What to show for an agent event; streamed text is also kept as the reply.
    pub fn on_event(&mut self, e: &AgentEvent) -> (r: CliAction)
        ensures
            cli_event_step(*old(self), *e, *final(self)),
            cli_action_for(*e, old(self).response(), r),
    {
        match e {
            AgentEvent::Content { text } => {
                self.response.append(text.as_str());
                CliAction::Print(text.clone())
            },
            AgentEvent::ToolCall { name, args } => {
                if starts_with(name.as_str(), "loop_") {
                    CliAction::LoopTool { name: name.clone(), args: args.clone() }
                } else {
                    CliAction::ToolNotice(name.clone())
                }
            },
            AgentEvent::ToolResult { name, result } => {
                if starts_with(name.as_str(), "loop_") {
                    CliAction::Nothing
                } else {
                    CliAction::ToolPreview {
                        name: name.clone(),
                        preview: first_chars(result.as_str(), 200),
                    }
                }
            },
            AgentEvent::Done { content } => {
                if self.response.as_str().unicode_len() == 0 && content.as_str().unicode_len() > 0 {
                    CliAction::FinishLine(Some(content.clone()))
                } else {
                    CliAction::FinishLine(None)
                }
            },
            AgentEvent::Error { error } => CliAction::ShowError(error.clone()),
            AgentEvent::Start { .. } => CliAction::Nothing,
        }
    }

    /// The agent has finished: the session is idle again; returns the reply to store, if
    /// any text was streamed.
    pub fn end_turn(&mut self) -> (r: Option<String>)
        ensures
            cli_turn_ended(*old(self), *final(self), r),
    {
        self.busy = false;
        let mut out = String::new();
        std::mem::swap(&mut out, &mut self.response);
        if out.as_str().unicode_len() > 0 {
            Some(out)
        } else {
            None
        }
    }
}

/// A turn has begun: the agent is running and nothing has been streamed yet.
pub open spec fn cli_turn_begun(s: CliSession) -> bool {
    s.busy() && s.response() == Seq::<char>::empty()
}

/// How the session takes in one agent event: still running as before, with the reply
/// extended by streamed text.
pub open spec fn cli_event_step(before: CliSession, e: AgentEvent, after: CliSession) -> bool {
    after.busy() == before.busy() && after.response() == cli_response_after(before.response(), e)
}

/// How a turn ends: the session is idle with no reply kept, and the streamed reply is
/// handed out to be stored when it is not empty.
pub open spec fn cli_turn_ended(before: CliSession, after: CliSession, reply: Option<String>) -> bool {
    &&& !after.busy()
    &&& after.response() == Seq::<char>::empty()
    &&& before.response().len() > 0 ==> (reply matches Some(s) && s@ == before.response())
    &&& before.response().len() == 0 ==> reply is None
}

/// The reply of a turn is the streamed text, and the session is running all along: after
/// `k` events it holds the text of their `Content` events.
proof fn lemma_cli_prefix(states: Seq<CliSession>, evs: Seq<AgentEvent>, k: int)
    requires
        states.len() == evs.len() + 1,
        cli_turn_begun(states[0]),
        forall|i: int| 0 <= i < evs.len() ==> cli_event_step(states[i], evs[i], #[trigger] states[i + 1]),
        0 <= k <= evs.len(),
    ensures
        states[k].busy(),
        states[k].response() == content_text(evs.take(k).map_values(|e: AgentEvent| e@)),
    decreases k,
{
    if k == 0 {
        assert(evs.take(0).map_values(|e: AgentEvent| e@) =~= Seq::<AgentEventView>::empty());
    } else {
        lemma_cli_prefix(states, evs, k - 1);
        let prev = evs.take(k - 1).map_values(|e: AgentEvent| e@);
        let cur = evs.take(k).map_values(|e: AgentEvent| e@);
        assert(cur.drop_last() =~= prev);
        assert(cur.last() == evs[k - 1]@);
        let j = k - 1;
        assert(cli_event_step(states[j], evs[j], states[j + 1]));
        match evs[k - 1] {
            AgentEvent::Content { text } => {},
            _ => {
                assert(content_text(prev) + Seq::<char>::empty() =~= content_text(prev));
            },
        }
    }
}

/// A terminal turn, step by step: from `begin_turn` through every agent event until
/// `end_turn`, the agent counts as busy (so loop jobs skip their runs), and only then idle
/// again; every `loop_*` tool call is handed to the session's own tool handler with its
/// arguments; the reply stored is the concatenation of the streamed texts, and none is
/// stored when nothing was streamed.
pub proof fn lemma_cli_turn(
    states: Seq<CliSession>,
    evs: Seq<AgentEvent>,
    actions: Seq<CliAction>,
    ended: CliSession,
    reply: Option<String>,
)
    requires
        states.len() == evs.len() + 1,
        actions.len() == evs.len(),
        cli_turn_begun(states[0]),
        forall|i: int| 0 <= i < evs.len() ==> cli_event_step(states[i], evs[i], #[trigger] states[i + 1]),
        forall|i: int| 0 <= i < evs.len() ==> cli_action_for(evs[i], states[i].response(), #[trigger] actions[i]),
        cli_turn_ended(states.last(), ended, reply),
    ensures
        forall|i: int| 0 <= i < states.len() ==> (#[trigger] states[i]).busy(),
        !ended.busy(),
        content_text(evs.map_values(|e: AgentEvent| e@)).len() > 0 ==> (reply matches Some(s) && s@
            == content_text(evs.map_values(|e: AgentEvent| e@))),
        content_text(evs.map_values(|e: AgentEvent| e@)).len() == 0 ==> reply is None,
        forall|i: int|
            0 <= i < evs.len() ==> (#[trigger] evs[i] matches AgentEvent::ToolCall { name, args } && "loop_"@.is_prefix_of(name@))
                ==> (actions[i] matches CliAction::LoopTool { name: n, args: a } && (evs[i] matches AgentEvent::ToolCall { name, args } && n@ == name@ && a@ == args@)),
{
    assert forall|i: int| 0 <= i < states.len() implies (#[trigger] states[i]).busy() by {
        lemma_cli_prefix(states, evs, i);
    }
    lemma_cli_prefix(states, evs, evs.len() as int);
    assert(evs.take(evs.len() as int) =~= evs);
    assert forall|i: int|
        0 <= i < evs.len() && (#[trigger] evs[i] matches AgentEvent::ToolCall { name, args } && "loop_"@.is_prefix_of(name@))
        implies (actions[i] matches CliAction::LoopTool { name: n, args: a } && (evs[i] matches AgentEvent::ToolCall { name, args } && n@ == name@ && a@ == args@)) by {
        assert(cli_action_for(evs[i], states[i].response(), actions[i]));
    }
}

/// Whether the agent is running in the terminal session (loop jobs skip their run then).
pub fn is_agent_busy(session: &CliSession) -> (b: bool)
    ensures
        b == session.busy(),
{
    session.busy
}

} // verus!
