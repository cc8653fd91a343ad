//! A whole agent run, as the steps of `agent` and `anthropic` compose it: each round makes
//! one model request (at most `MAX_ROUNDS`), streams the turn, closes it with
//! `finish_openai_turn` or `finish_anthropic_turn`, and runs the tool calls it asked for.
//! What the model and the tools answer is an input of the run; the laws below hold
//! whatever those answers are.
use crate::agent::{openai_turn_messages, AgentEvent, MAX_ROUNDS};
use crate::anthropic::{anthropic_turn_messages, results_message};
use crate::chat::{MessageView, ToolCallView};
use vstd::prelude::*;

verus! {

/// Abstract value of an agent event.
pub enum AgentEventView {
    Start(Seq<char>),
    Content(Seq<char>),
    ToolCall(Seq<char>, Seq<char>),
    ToolResult(Seq<char>, Seq<char>),
    Done(Seq<char>),
    Error(Seq<char>),
}

impl View for AgentEvent {
    type V = AgentEventView;

    open spec fn view(&self) -> AgentEventView {
        match self {
            AgentEvent::Start { conversation_id } => AgentEventView::Start(conversation_id@),
            AgentEvent::Content { text } => AgentEventView::Content(text@),
            AgentEvent::ToolCall { name, args } => AgentEventView::ToolCall(name@, args@),
            AgentEvent::ToolResult { name, result } => AgentEventView::ToolResult(name@, result@),
            AgentEvent::Done { content } => AgentEventView::Done(content@),
            AgentEvent::Error { error } => AgentEventView::Error(error@),
        }
    }
}

/// Whether an event ends a run.
pub open spec fn is_final(e: AgentEventView) -> bool {
    e is Done || e is Error
}

/// Events that neither start nor end a run.
pub open spec fn quiet(evs: Seq<AgentEventView>) -> bool {
    forall|k: int| 0 <= k < evs.len() ==> !(#[trigger] evs[k] is Start) && !is_final(evs[k])
}

/// The events of a run as it must look: no `Start`, and exactly one `Done` or `Error`,
/// which is the last event.
pub open spec fn well_ended(evs: Seq<AgentEventView>) -> bool {
    &&& evs.len() > 0
    &&& is_final(evs.last())
    &&& quiet(evs.drop_last())
}

/// The text of the `Content` events, in order.
pub open spec fn content_text(evs: Seq<AgentEventView>) -> Seq<char>
    decreases evs.len(),
{
    if evs.len() == 0 {
        Seq::empty()
    } else {
        content_text(evs.drop_last()) + match evs.last() {
            AgentEventView::Content(t) => t,
            _ => Seq::empty(),
        }
    }
}

/// The `Content` events of a turn that streamed these texts.
pub open spec fn content_events(texts: Seq<Seq<char>>) -> Seq<AgentEventView> {
    texts.map_values(|t: Seq<char>| AgentEventView::Content(t))
}

/// The events of running a turn's tool calls: for each, `ToolCall` then `ToolResult`.
pub open spec fn tool_events(calls: Seq<ToolCallView>, results: Seq<Seq<char>>) -> Seq<AgentEventView>
    decreases calls.len(),
{
    if calls.len() == 0 {
        Seq::empty()
    } else {
        tool_events(calls.drop_last(), results.drop_last()) + seq![
            AgentEventView::ToolCall(calls.last().name, calls.last().arguments),
            AgentEventView::ToolResult(calls.last().name, results.last()),
        ]
    }
}

/// The tool messages that hand each result back to an OpenAI-compatible model.
pub open spec fn openai_tool_messages(calls: Seq<ToolCallView>, results: Seq<Seq<char>>) -> Seq<
    MessageView,
> {
    Seq::new(
        calls.len(),
        |k: int|
            MessageView {
                role: "tool"@,
                content: Some(results[k]),
                tool_call_id: Some(calls[k].id),
                tool_calls: None,
                anthropic_content: None,
            },
    )
}

/// The events a run sends and the conversation it leaves.
pub struct RunTrace {
    pub events: Seq<AgentEventView>,
    pub messages: Seq<MessageView>,
}

/// What one round of an OpenAI-compatible model brought.
pub enum OpenAiRound {
    /// The request could not be sent or was answered with an error status.
    Refused { error: Seq<char> },
    /// The model streamed these texts and asked for these tool calls (in index order), and
    /// the tools gave these results, one per call.
    Answered { texts: Seq<Seq<char>>, calls: Seq<ToolCallView>, results: Seq<Seq<char>> },
}

/// A run of an OpenAI-compatible model from round `round` on, with the conversation and the
/// text streamed so far; `world(i)` is what round `i` brings.
pub open spec fn openai_run(
    world: spec_fn(nat) -> OpenAiRound,
    round: nat,
    messages: Seq<MessageView>,
    full: Seq<char>,
) -> RunTrace
    decreases MAX_ROUNDS - round,
{
    if round >= MAX_ROUNDS {
        RunTrace { events: seq![AgentEventView::Done(full)], messages }
    } else {
        match world(round) {
            OpenAiRound::Refused { error } => RunTrace {
                events: seq![AgentEventView::Error(error)],
                messages,
            },
            OpenAiRound::Answered { texts, calls, results } => {
                let content = texts.flatten();
                let after_turn = messages + openai_turn_messages(content, calls);
                if calls.len() == 0 {
                    RunTrace {
                        events: content_events(texts).push(AgentEventView::Done(full + content)),
                        messages: after_turn,
                    }
                } else {
                    let rest = openai_run(
                        world,
                        round + 1,
                        after_turn + openai_tool_messages(calls, results),
                        full + content,
                    );
                    RunTrace {
                        events: content_events(texts) + tool_events(calls, results) + rest.events,
                        messages: rest.messages,
                    }
                }
            },
        }
    }
}

/// What one round of the Messages API brought.
pub enum AnthropicRound {
    /// The request could not be sent or was answered with an error status.
    Refused { error: Seq<char> },
    /// The model streamed these texts, asked for these tool uses and stopped for them (stop
    /// reason `tool_use`) or not, and the tools gave these results, one per use.
    Answered {
        texts: Seq<Seq<char>>,
        uses: Seq<ToolCallView>,
        stopped_for_tools: bool,
        results: Seq<Seq<char>>,
    },
}

/// A run of the Messages API from round `round` on, with the conversation and the text
/// streamed so far; `world(i)` is what round `i` brings.
pub open spec fn anthropic_run(
    world: spec_fn(nat) -> AnthropicRound,
    round: nat,
    messages: Seq<MessageView>,
    full: Seq<char>,
) -> RunTrace
    decreases MAX_ROUNDS - round,
{
    if round >= MAX_ROUNDS {
        RunTrace { events: seq![AgentEventView::Done(full)], messages }
    } else {
        match world(round) {
            AnthropicRound::Refused { error } => RunTrace {
                events: seq![AgentEventView::Error(error)],
                messages,
            },
            AnthropicRound::Answered { texts, uses, stopped_for_tools, results } => {
                let content = texts.flatten();
                let after_turn = messages + anthropic_turn_messages(content, uses);
                if uses.len() == 0 {
                    RunTrace {
                        events: content_events(texts).push(AgentEventView::Done(full + content)),
                        messages: after_turn,
                    }
                } else {
                    let after_tools = after_turn.push(results_message(uses, results));
                    let streamed = content_events(texts) + tool_events(uses, results);
                    if !stopped_for_tools {
                        RunTrace {
                            events: streamed.push(AgentEventView::Done(full + content)),
                            messages: after_tools,
                        }
                    } else {
                        let rest = anthropic_run(world, round + 1, after_tools, full + content);
                        RunTrace { events: streamed + rest.events, messages: rest.messages }
                    }
                }
            },
        }
    }
}

proof fn lemma_content_text_concat(a: Seq<AgentEventView>, b: Seq<AgentEventView>)
    ensures
        content_text(a + b) == content_text(a) + content_text(b),
    decreases b.len(),
{
    if b.len() == 0 {
        assert(a + b =~= a);
    } else {
        assert((a + b).drop_last() =~= a + b.drop_last());
        lemma_content_text_concat(a, b.drop_last());
    }
}

proof fn lemma_content_events(texts: Seq<Seq<char>>)
    ensures
        quiet(content_events(texts)),
        content_text(content_events(texts)) == texts.flatten(),
    decreases texts.len(),
{
    if texts.len() > 0 {
        let rest = texts.drop_last();
        lemma_content_events(rest);
        assert(content_events(texts).drop_last() =~= content_events(rest));
        assert(texts =~= rest.push(texts.last()));
        rest.lemma_flatten_push(texts.last());
    }
}

proof fn lemma_tool_events(calls: Seq<ToolCallView>, results: Seq<Seq<char>>)
    ensures
        quiet(tool_events(calls, results)),
        content_text(tool_events(calls, results)) == Seq::<char>::empty(),
    decreases calls.len(),
{
    if calls.len() > 0 {
        let head = tool_events(calls.drop_last(), results.drop_last());
        let tail = seq![
            AgentEventView::ToolCall(calls.last().name, calls.last().arguments),
            AgentEventView::ToolResult(calls.last().name, results.last()),
        ];
        lemma_tool_events(calls.drop_last(), results.drop_last());
        lemma_content_text_concat(head, tail);
        let t1 = tail.drop_last();
        assert(t1.drop_last() =~= Seq::<AgentEventView>::empty());
        assert(content_text(t1) =~= Seq::<char>::empty()) by {
            assert(content_text(t1) == content_text(t1.drop_last()) + Seq::<char>::empty());
        }
        assert(content_text(tail) =~= Seq::<char>::empty()) by {
            assert(content_text(tail) == content_text(t1) + Seq::<char>::empty());
        }
        assert forall|k: int| 0 <= k < (head + tail).len() implies !(#[trigger] (head + tail)[k] is Start)
            && !is_final((head + tail)[k]) by {
            if k >= head.len() {
                assert((head + tail)[k] == tail[k - head.len()]);
            } else {
                assert((head + tail)[k] == head[k]);
            }
        }
    }
}

/// Quiet events followed by a well-ended run form a well-ended run.
proof fn lemma_quiet_then_ended(a: Seq<AgentEventView>, b: Seq<AgentEventView>)
    requires
        quiet(a),
        well_ended(b),
    ensures
        well_ended(a + b),
        quiet(a + b.drop_last()),
{
    assert((a + b).drop_last() =~= a + b.drop_last());
    assert((a + b).last() == b.last());
    assert forall|k: int| 0 <= k < (a + b.drop_last()).len() implies !(#[trigger] (a
        + b.drop_last())[k] is Start) && !is_final((a + b.drop_last())[k]) by {
        if k >= a.len() {
            assert((a + b.drop_last())[k] == b.drop_last()[k - a.len()]);
        } else {
            assert((a + b.drop_last())[k] == a[k]);
        }
    }
}

proof fn lemma_quiet_concat(a: Seq<AgentEventView>, b: Seq<AgentEventView>)
    requires
        quiet(a),
        quiet(b),
    ensures
        quiet(a + b),
{
    assert forall|k: int| 0 <= k < (a + b).len() implies !(#[trigger] (a + b)[k] is Start)
        && !is_final((a + b)[k]) by {
        if k >= a.len() {
            assert((a + b)[k] == b[k - a.len()]);
        } else {
            assert((a + b)[k] == a[k]);
        }
    }
}

/// A run's events end with `full` streamed before them: the final `Done` carries `full` and
/// every text streamed in between.
proof fn lemma_ended_push_done(streamed: Seq<AgentEventView>, full: Seq<char>, content: Seq<char>)
    requires
        quiet(streamed),
        content_text(streamed) == content,
    ensures
        well_ended(streamed.push(AgentEventView::Done(full + content))),
        content_text(streamed.push(AgentEventView::Done(full + content))) == content,
{
    let evs = streamed.push(AgentEventView::Done(full + content));
    assert(evs.drop_last() =~= streamed);
    assert(content + Seq::<char>::empty() =~= content);
}

proof fn lemma_openai_run_from(
    world: spec_fn(nat) -> OpenAiRound,
    round: nat,
    messages: Seq<MessageView>,
    full: Seq<char>,
)
    ensures
        well_ended(openai_run(world, round, messages, full).events),
        openai_run(world, round, messages, full).events.last() matches AgentEventView::Done(c)
            ==> c == full + content_text(openai_run(world, round, messages, full).events),
        openai_run(world, round, messages, full).messages.len() >= messages.len(),
        openai_run(world, round, messages, full).messages.take(messages.len() as int)
            == messages,
    decreases MAX_ROUNDS - round,
{
    let t = openai_run(world, round, messages, full);
    if round >= MAX_ROUNDS {
        assert(t.events.drop_last() =~= Seq::<AgentEventView>::empty());
        assert(content_text(t.events) =~= Seq::<char>::empty()) by {
            assert(content_text(t.events) == content_text(t.events.drop_last()) + Seq::<char>::empty());
        }
        assert(full + Seq::<char>::empty() =~= full);
        assert(messages.take(messages.len() as int) =~= messages);
    } else {
        match world(round) {
            OpenAiRound::Refused { error } => {
                assert(t.events.drop_last() =~= Seq::<AgentEventView>::empty());
                assert(messages.take(messages.len() as int) =~= messages);
            },
            OpenAiRound::Answered { texts, calls, results } => {
                let content = texts.flatten();
                let after_turn = messages + openai_turn_messages(content, calls);
                lemma_content_events(texts);
                if calls.len() == 0 {
                    lemma_ended_push_done(content_events(texts), full, content);
                    assert(t.events == content_events(texts).push(AgentEventView::Done(full + content)));
                    assert(after_turn.take(messages.len() as int) =~= messages);
                } else {
                    let next = after_turn + openai_tool_messages(calls, results);
                    let rest = openai_run(world, round + 1, next, full + content);
                    lemma_openai_run_from(world, round + 1, next, full + content);
                    lemma_tool_events(calls, results);
                    let before = content_events(texts) + tool_events(calls, results);
                    lemma_quiet_concat(content_events(texts), tool_events(calls, results));
                    lemma_quiet_then_ended(before, rest.events);
                    lemma_content_text_concat(content_events(texts), tool_events(calls, results));
                    lemma_content_text_concat(before, rest.events);
                    assert(content + Seq::<char>::empty() =~= content);
                    assert((before + rest.events).last() == rest.events.last());
                    assert(full + content + content_text(rest.events) =~= full + (content
                        + content_text(rest.events)));
                    assert(next.take(messages.len() as int) =~= messages);
                    assert(rest.messages.take(messages.len() as int) =~= rest.messages.take(
                        next.len() as int,
                    ).take(messages.len() as int));
                }
            },
        }
    }
}

/// A whole run of an OpenAI-compatible model, whatever the model and the tools answer:
/// it sends no `Start` event and exactly one `Done` or `Error`, which is its last event;
/// a `Done` carries every streamed text, in order; the conversation is only appended to,
/// and is left as it was when the first request fails.
pub proof fn lemma_openai_run(world: spec_fn(nat) -> OpenAiRound, messages: Seq<MessageView>)
    ensures
        well_ended(openai_run(world, 0, messages, Seq::empty()).events),
        openai_run(world, 0, messages, Seq::empty()).events.last() matches AgentEventView::Done(c)
            ==> c == content_text(openai_run(world, 0, messages, Seq::empty()).events),
        openai_run(world, 0, messages, Seq::empty()).messages.len() >= messages.len(),
        openai_run(world, 0, messages, Seq::empty()).messages.take(messages.len() as int)
            == messages,
        world(0) is Refused ==> openai_run(world, 0, messages, Seq::empty()).messages == messages,
{
    lemma_openai_run_from(world, 0, messages, Seq::empty());
    let t = openai_run(world, 0, messages, Seq::empty());
    assert(Seq::<char>::empty() + content_text(t.events) =~= content_text(t.events));
}

proof fn lemma_anthropic_run_from(
    world: spec_fn(nat) -> AnthropicRound,
    round: nat,
    messages: Seq<MessageView>,
    full: Seq<char>,
)
    ensures
        well_ended(anthropic_run(world, round, messages, full).events),
        anthropic_run(world, round, messages, full).events.last() matches AgentEventView::Done(c)
            ==> c == full + content_text(anthropic_run(world, round, messages, full).events),
        anthropic_run(world, round, messages, full).messages.len() >= messages.len(),
        anthropic_run(world, round, messages, full).messages.take(messages.len() as int)
            == messages,
    decreases MAX_ROUNDS - round,
{
    let t = anthropic_run(world, round, messages, full);
    if round >= MAX_ROUNDS {
        assert(t.events.drop_last() =~= Seq::<AgentEventView>::empty());
        assert(content_text(t.events) =~= Seq::<char>::empty()) by {
            assert(content_text(t.events) == content_text(t.events.drop_last()) + Seq::<char>::empty());
        }
        assert(full + Seq::<char>::empty() =~= full);
        assert(messages.take(messages.len() as int) =~= messages);
    } else {
        match world(round) {
            AnthropicRound::Refused { error } => {
                assert(t.events.drop_last() =~= Seq::<AgentEventView>::empty());
                assert(messages.take(messages.len() as int) =~= messages);
            },
            AnthropicRound::Answered { texts, uses, stopped_for_tools, results } => {
                let content = texts.flatten();
                let after_turn = messages + anthropic_turn_messages(content, uses);
                lemma_content_events(texts);
                if uses.len() == 0 {
                    lemma_ended_push_done(content_events(texts), full, content);
                    assert(t.events == content_events(texts).push(AgentEventView::Done(full + content)));
                    assert(after_turn.take(messages.len() as int) =~= messages);
                } else {
                    let after_tools = after_turn.push(results_message(uses, results));
                    let streamed = content_events(texts) + tool_events(uses, results);
                    lemma_tool_events(uses, results);
                    lemma_quiet_concat(content_events(texts), tool_events(uses, results));
                    lemma_content_text_concat(content_events(texts), tool_events(uses, results));
                    assert(content + Seq::<char>::empty() =~= content);
                    assert(after_tools.take(messages.len() as int) =~= messages);
                    if !stopped_for_tools {
                        lemma_ended_push_done(streamed, full, content);
                        assert(t.events == streamed.push(AgentEventView::Done(full + content)));
                    } else {
                        let rest = anthropic_run(world, round + 1, after_tools, full + content);
                        lemma_anthropic_run_from(world, round + 1, after_tools, full + content);
                        lemma_quiet_then_ended(streamed, rest.events);
                        lemma_content_text_concat(streamed, rest.events);
                        assert((streamed + rest.events).last() == rest.events.last());
                        assert(full + content + content_text(rest.events) =~= full + (content
                            + content_text(rest.events)));
                        assert(rest.messages.take(messages.len() as int) =~= rest.messages.take(
                            after_tools.len() as int,
                        ).take(messages.len() as int));
                    }
                }
            },
        }
    }
}

/// A whole run of the Messages API, whatever the model and the tools answer: it sends no
/// `Start` event and exactly one `Done` or `Error`, which is its last event; a `Done`
/// carries every streamed text, in order; the conversation is only appended to, and is left
/// as it was when the first request fails.
pub proof fn lemma_anthropic_run(world: spec_fn(nat) -> AnthropicRound, messages: Seq<MessageView>)
    ensures
        well_ended(anthropic_run(world, 0, messages, Seq::empty()).events),
        anthropic_run(world, 0, messages, Seq::empty()).events.last() matches AgentEventView::Done(
            c,
        ) ==> c == content_text(anthropic_run(world, 0, messages, Seq::empty()).events),
        anthropic_run(world, 0, messages, Seq::empty()).messages.len() >= messages.len(),
        anthropic_run(world, 0, messages, Seq::empty()).messages.take(messages.len() as int)
            == messages,
        world(0) is Refused ==> anthropic_run(world, 0, messages, Seq::empty()).messages
            == messages,
{
    lemma_anthropic_run_from(world, 0, messages, Seq::empty());
    let t = anthropic_run(world, 0, messages, Seq::empty());
    assert(Seq::<char>::empty() + content_text(t.events) =~= content_text(t.events));
}

} // verus!
