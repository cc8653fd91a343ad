//! The agent loop: framing of the server-sent event stream, accumulation of one streamed
//! turn of an OpenAI-compatible model, and the bookkeeping of the whole run.
use crate::chat::{calls_view, ChatMessage, MessageView, ToolCall, ToolCallView};
use crate::text::{append_range, chars_of, find, find_in, str_eq, string_of, strip_prefix, trim, trimmed};
use vstd::prelude::*;
use vstd::utf8::{decode_utf8, valid_utf8};

verus! {

/// What the agent reports while it runs.
#[derive(Debug)]
pub enum AgentEvent {
    Start { conversation_id: String },
    Content { text: String },
    ToolCall { name: String, args: String },
    ToolResult { name: String, result: String },
    Done { content: String },
    Error { error: String },
}

/// Most model requests one run makes.
pub const MAX_ROUNDS: u32 = 20;

/// What `String::from_utf8_lossy` makes of a byte sequence.
pub uninterp spec fn utf8_lossy(bytes: Seq<u8>) -> Seq<char>;

/// `String::from_utf8_lossy(bytes).into_owned()`. Claims that the result is a function of
/// the bytes, named `utf8_lossy`, and, as std documents, that valid UTF-8 is decoded
/// unchanged; how invalid sequences are replaced is left unsaid.
#[verifier::external_body]
fn lossy_string(bytes: &[u8]) -> (r: String)
    ensures
        r@ == utf8_lossy(bytes@),
        valid_utf8(bytes@) ==> r@ == decode_utf8(bytes@),
{
    String::from_utf8_lossy(bytes).into_owned()
}

/// Text received from a stream and not yet cut into lines.
pub struct LineBuffer {
    buf: Vec<char>,
}

impl View for LineBuffer {
    type V = Seq<char>;

    closed spec fn view(&self) -> Seq<char> {
        self.buf@
    }
}

impl LineBuffer {
    /// An empty buffer.
    pub fn new() -> (r: LineBuffer)
        ensures
            r@ == Seq::<char>::empty(),
    {
        LineBuffer { buf: Vec::new() }
    }

    /// Appends text.
    pub fn push_str(&mut self, text: &str)
        ensures
            final(self)@ == old(self)@ + text@,
    {
        let v = chars_of(text);
        let n = v.len();
        append_range(&mut self.buf, &v, 0, n);
        proof {
            assert(v@.subrange(0, n as int) =~= v@);
        }
    }

    /// Appends a received chunk of bytes, decoded as `String::from_utf8_lossy` does.
    pub fn push_bytes(&mut self, chunk: &[u8])
        ensures
            final(self)@ == old(self)@ + utf8_lossy(chunk@),
    {
        let s = lossy_string(chunk);
        self.push_str(s.as_str());
    }

    /// Takes the next complete line, trimmed, and drops it and its newline from the buffer.
    pub fn next_line(&mut self) -> (r: Option<String>)
        ensures
            match find(old(self)@, seq!['\n']) {
                Some(p) => r matches Some(line) && line@ == trimmed(old(self)@.take(p))
                    && final(self)@ == old(self)@.skip(p + 1),
                None => r is None && final(self)@ == old(self)@,
            },
    {
        let mut nl: Vec<char> = Vec::new();
        nl.push('\n');
        proof {
            assert(nl@ =~= seq!['\n']);
            crate::text::lemma_find_from_match(self.buf@, nl@, 0);
        }
        match find_in(&self.buf, &nl, 0) {
            None => None,
            Some(p) => {
                let mut head: Vec<char> = Vec::new();
                append_range(&mut head, &self.buf, 0, p);
                let mut rest: Vec<char> = Vec::new();
                let n = self.buf.len();
                append_range(&mut rest, &self.buf, p + 1, n);
                proof {
                    assert(head@ =~= self.buf@.take(p as int));
                    assert(rest@ =~= self.buf@.skip(p + 1));
                }
                let line = trim(string_of(&head).as_str());
                self.buf = rest;
                Some(line)
            },
        }
    }
}

/// The payload of a server-sent `data:` line.
pub fn sse_data(line: &str) -> (r: Option<String>)
    ensures
        r is Some <==> "data: "@.is_prefix_of(line@),
        r matches Some(d) ==> d@ == line@.skip(6),
{
    proof {
        reveal_strlit("data: ");
    }
    strip_prefix(line, "data: ")
}

/// The payload of a line of an OpenAI-compatible stream, leaving out the `[DONE]` marker.
pub fn openai_payload(line: &str) -> (r: Option<String>)
    ensures
        r is Some <==> "data: "@.is_prefix_of(line@) && line@.skip(6) != "[DONE]"@,
        r matches Some(d) ==> d@ == line@.skip(6),
{
    match sse_data(line) {
        Some(d) => if str_eq(d.as_str(), "[DONE]") {
            None
        } else {
            Some(d)
        },
        None => None,
    }
}

/// One element of `delta.tool_calls` in a streamed chunk; absent or non-string fields are
/// `None`.
#[derive(Debug)]
pub struct ToolCallDelta {
    pub index: Option<u64>,
    pub id: Option<String>,
    pub name: Option<String>,
    pub arguments: Option<String>,
}

/// The `choices[0].delta` of a streamed chunk; `tool_calls` is `None` when it is not an
/// array.
#[derive(Debug)]
pub struct StreamDelta {
    pub content: Option<String>,
    pub tool_calls: Option<Vec<ToolCallDelta>>,
}

/// Abstract value of a tool call delta.
pub struct DeltaView {
    pub index: Option<u64>,
    pub id: Option<Seq<char>>,
    pub name: Option<Seq<char>>,
    pub arguments: Option<Seq<char>>,
}

impl View for ToolCallDelta {
    type V = DeltaView;

    open spec fn view(&self) -> DeltaView {
        DeltaView {
            index: self.index,
            id: crate::chat::opt_view(self.id),
            name: crate::chat::opt_view(self.name),
            arguments: crate::chat::opt_view(self.arguments),
        }
    }
}

/// A tool call being assembled from deltas, keyed by its index in the stream.
#[derive(Debug)]
pub struct PendingCall {
    pub index: u64,
    pub id: String,
    pub name: String,
    pub arguments: String,
}

/// Abstract value of a pending tool call.
pub struct PendingView {
    pub index: u64,
    pub id: Seq<char>,
    pub name: Seq<char>,
    pub arguments: Seq<char>,
}

impl View for PendingCall {
    type V = PendingView;

    open spec fn view(&self) -> PendingView {
        PendingView { index: self.index, id: self.id@, name: self.name@, arguments: self.arguments@ }
    }
}

/// Abstract value of a list of pending calls.
pub open spec fn pending_view(v: Seq<PendingCall>) -> Seq<PendingView> {
    v.map_values(|c: PendingCall| c@)
}

/// Pending calls are ordered by strictly increasing index.
pub open spec fn strictly_sorted(calls: Seq<PendingView>) -> bool {
    forall|i: int, j: int| 0 <= i < j < calls.len() ==> calls[i].index < calls[j].index
}

/// Index a delta is filed under (`index.as_u64().unwrap_or(0)`).
pub open spec fn delta_index(d: DeltaView) -> u64 {
    match d.index {
        Some(i) => i,
        None => 0,
    }
}

/// A pending call after a delta: a non-empty name replaces the name, argument text is
/// appended.
pub open spec fn merge_delta(c: PendingView, d: DeltaView) -> PendingView {
    PendingView {
        index: c.index,
        id: c.id,
        name: match d.name {
            Some(n) => if n.len() > 0 {
                n
            } else {
                c.name
            },
            None => c.name,
        },
        arguments: match d.arguments {
            Some(a) => c.arguments + a,
            None => c.arguments,
        },
    }
}

/// The call that the first delta for an index opens: its id and name, or empty ones.
pub open spec fn opened_call(d: DeltaView) -> PendingView {
    merge_delta(
        PendingView {
            index: delta_index(d),
            id: match d.id {
                Some(i) => i,
                None => Seq::empty(),
            },
            name: match d.name {
                Some(n) => n,
                None => Seq::empty(),
            },
            arguments: Seq::empty(),
        },
        d,
    )
}

/// Files a delta into the index-ordered pending calls: merged into the call with its index,
/// or opening a new call at its place in the order.
pub open spec fn upsert_delta(calls: Seq<PendingView>, d: DeltaView) -> Seq<PendingView>
    decreases calls.len(),
{
    if calls.len() == 0 {
        seq![opened_call(d)]
    } else if calls[0].index == delta_index(d) {
        seq![merge_delta(calls[0], d)] + calls.drop_first()
    } else if calls[0].index > delta_index(d) {
        seq![opened_call(d)] + calls
    } else {
        seq![calls[0]] + upsert_delta(calls.drop_first(), d)
    }
}

/// Files the deltas of one chunk, in order.
pub open spec fn upsert_deltas(calls: Seq<PendingView>, ds: Seq<DeltaView>) -> Seq<PendingView>
    decreases ds.len(),
{
    if ds.len() == 0 {
        calls
    } else {
        upsert_delta(upsert_deltas(calls, ds.drop_last()), ds.last())
    }
}

/// Skipping calls with smaller indices commutes with filing a delta.
proof fn lemma_upsert_skip(calls: Seq<PendingView>, d: DeltaView, i: int)
    requires
        0 <= i <= calls.len(),
        forall|k: int| 0 <= k < i ==> #[trigger] calls[k].index < delta_index(d),
    ensures
        upsert_delta(calls, d) == calls.take(i) + upsert_delta(calls.skip(i), d),
    decreases i,
{
    if i == 0 {
        assert(calls.take(0) + upsert_delta(calls.skip(0), d) =~= upsert_delta(calls, d)) by {
            assert(calls.skip(0) =~= calls);
        }
    } else {
        let rest = calls.drop_first();
        assert forall|k: int| 0 <= k < i - 1 implies #[trigger] rest[k].index < delta_index(d) by {
            assert(rest[k] == calls[k + 1]);
        }
        lemma_upsert_skip(rest, d, i - 1);
        assert(rest.skip(i - 1) =~= calls.skip(i));
        assert(calls.take(i) =~= seq![calls[0]] + rest.take(i - 1));
        assert(calls[0].index < delta_index(d));
    }
}

/// The pending call filed under index `k`.
pub open spec fn call_at(calls: Seq<PendingView>, k: u64) -> Option<PendingView>
    decreases calls.len(),
{
    if calls.len() == 0 {
        None
    } else if calls[0].index == k {
        Some(calls[0])
    } else {
        call_at(calls.drop_first(), k)
    }
}

/// Every index in the list is larger than `b`.
pub open spec fn all_above(calls: Seq<PendingView>, b: u64) -> bool {
    forall|i: int| 0 <= i < calls.len() ==> #[trigger] calls[i].index > b
}

/// Filing a delta never introduces an index below both the old ones and the delta's.
proof fn lemma_upsert_above(calls: Seq<PendingView>, d: DeltaView, b: u64)
    requires
        all_above(calls, b),
        delta_index(d) > b,
    ensures
        all_above(upsert_delta(calls, d), b),
    decreases calls.len(),
{
    if calls.len() > 0 && calls[0].index < delta_index(d) {
        let rest = calls.drop_first();
        assert(all_above(rest, b)) by {
            assert forall|i: int| 0 <= i < rest.len() implies #[trigger] rest[i].index > b by {
                assert(rest[i] == calls[i + 1]);
            }
        }
        lemma_upsert_above(rest, d, b);
        let up = upsert_delta(calls, d);
        assert forall|i: int| 0 <= i < up.len() implies #[trigger] up[i].index > b by {
            if i > 0 {
                assert(up[i] == upsert_delta(rest, d)[i - 1]);
            }
        }
    } else if calls.len() > 0 && calls[0].index > delta_index(d) {
        let up = upsert_delta(calls, d);
        assert forall|i: int| 0 <= i < up.len() implies #[trigger] up[i].index > b by {
            if i > 0 {
                assert(up[i] == calls[i - 1]);
            }
        }
    } else if calls.len() > 0 {
        let up = upsert_delta(calls, d);
        assert forall|i: int| 0 <= i < up.len() implies #[trigger] up[i].index > b by {
            if i > 0 {
                assert(up[i] == calls[i]);
            }
        }
    }
}

/// Filing a delta behaves as an entry of a map keyed by index: the calls stay ordered by
/// distinct index, the call under the delta's index is merged with the delta (or opened by
/// it), and every other call is unchanged.
pub proof fn lemma_upsert_delta(calls: Seq<PendingView>, d: DeltaView)
    requires
        strictly_sorted(calls),
    ensures
        strictly_sorted(upsert_delta(calls, d)),
        call_at(upsert_delta(calls, d), delta_index(d)) == Some(
            match call_at(calls, delta_index(d)) {
                Some(c) => merge_delta(c, d),
                None => opened_call(d),
            },
        ),
        forall|k: u64|
            k != delta_index(d) ==> #[trigger] call_at(upsert_delta(calls, d), k) == call_at(
                calls,
                k,
            ),
    decreases calls.len(),
{
    let idx = delta_index(d);
    let up = upsert_delta(calls, d);
    if calls.len() == 0 {
        assert(up.drop_first() =~= Seq::<PendingView>::empty());
        assert forall|k: u64| k != idx implies #[trigger] call_at(up, k) == call_at(calls, k) by {
            assert(call_at(up.drop_first(), k) is None);
        }
    } else {
        let rest = calls.drop_first();
        assert(strictly_sorted(rest)) by {
            assert forall|i: int, j: int| 0 <= i < j < rest.len() implies rest[i].index
                < rest[j].index by {
                assert(rest[i] == calls[i + 1] && rest[j] == calls[j + 1]);
            }
        }
        if calls[0].index == idx {
            assert(up.drop_first() =~= rest);
            assert forall|i: int, j: int| 0 <= i < j < up.len() implies up[i].index
                < up[j].index by {
                assert(up[j] == calls[j]);
                if i > 0 {
                    assert(up[i] == calls[i]);
                }
            }
            assert forall|k: u64| k != idx implies #[trigger] call_at(up, k) == call_at(calls, k) by {
            }
        } else if calls[0].index > idx {
            assert(up.drop_first() =~= calls);
            assert forall|i: int, j: int| 0 <= i < j < up.len() implies up[i].index
                < up[j].index by {
                assert(up[j] == calls[j - 1]);
                if i > 0 {
                    assert(up[i] == calls[i - 1]);
                } else {
                    assert(calls[0].index <= calls[j - 1].index);
                }
            }
            assert(call_at(calls, idx) is None) by {
                lemma_call_at_above(calls, idx);
            }
            assert forall|k: u64| k != idx implies #[trigger] call_at(up, k) == call_at(calls, k) by {
            }
        } else {
            lemma_upsert_delta(rest, d);
            let up_rest = upsert_delta(rest, d);
            assert(up.drop_first() =~= up_rest);
            assert(all_above(rest, calls[0].index)) by {
                assert forall|i: int| 0 <= i < rest.len() implies #[trigger] rest[i].index
                    > calls[0].index by {
                    assert(rest[i] == calls[i + 1]);
                }
            }
            lemma_upsert_above(rest, d, calls[0].index);
            assert forall|i: int, j: int| 0 <= i < j < up.len() implies up[i].index
                < up[j].index by {
                assert(up[j] == up_rest[j - 1]);
                if i > 0 {
                    assert(up[i] == up_rest[i - 1]);
                }
            }
            assert forall|k: u64| k != idx implies #[trigger] call_at(up, k) == call_at(calls, k) by {
                if k != calls[0].index {
                    assert(call_at(up_rest, k) == call_at(rest, k));
                }
            }
        }
    }
}

/// No call is filed under an index below the first one.
proof fn lemma_call_at_above(calls: Seq<PendingView>, k: u64)
    requires
        strictly_sorted(calls),
        calls.len() > 0,
        calls[0].index > k,
    ensures
        call_at(calls, k) is None,
    decreases calls.len(),
{
    let rest = calls.drop_first();
    if rest.len() == 0 {
        assert(call_at(rest, k) is None);
    } else {
        assert(rest[0] == calls[1]);
        assert(calls[0].index < calls[1].index);
        assert(strictly_sorted(rest)) by {
            assert forall|i: int, j: int| 0 <= i < j < rest.len() implies rest[i].index
                < rest[j].index by {
                assert(rest[i] == calls[i + 1] && rest[j] == calls[j + 1]);
            }
        }
        lemma_call_at_above(rest, k);
    }
}

/// One streamed turn of an OpenAI-compatible model being assembled.
/// The pending calls are a `Vec` kept strictly sorted by index rather than a map from index:
/// the turn hands its calls out in index order, and a `HashMap`'s walk order is unspecified,
/// so a map would still need a sort that nothing here could state.
pub struct OpenAiTurn {
    content: String,
    calls: Vec<PendingCall>,
}

impl OpenAiTurn {
    /// The text streamed so far.
    pub closed spec fn content(&self) -> Seq<char> {
        self.content@
    }

    /// The tool calls assembled so far, by increasing index.
    pub closed spec fn calls(&self) -> Seq<PendingView> {
        pending_view(self.calls@)
    }

    /// A turn that has received nothing.
    pub fn new() -> (r: OpenAiTurn)
        ensures
            r.content() == Seq::<char>::empty(),
            r.calls() == Seq::<PendingView>::empty(),
    {
        proof {
            assert(pending_view(Seq::<PendingCall>::empty()) =~= Seq::<PendingView>::empty());
        }
        OpenAiTurn { content: String::new(), calls: Vec::new() }
    }

    /// Files one tool call delta.
    fn apply_call_delta(&mut self, d: &ToolCallDelta)
        ensures
            final(self).content == old(self).content,
            pending_view(final(self).calls@) == upsert_delta(pending_view(old(self).calls@), d@),
    {
        let idx: u64 = match d.index {
            Some(i) => i,
            None => 0,
        };
        let ghost cv = pending_view(self.calls@);
        let mut i: usize = 0;
        while i < self.calls.len() && self.calls[i].index < idx
            invariant
                i <= self.calls.len(),
                cv == pending_view(self.calls@),
                idx == delta_index(d@),
                forall|k: int| 0 <= k < i ==> #[trigger] cv[k].index < idx,
            decreases self.calls.len() - i,
        {
            i = i + 1;
        }
        proof {
            lemma_upsert_skip(cv, d@, i as int);
        }
        let mut calls: Vec<PendingCall> = Vec::new();
        std::mem::swap(&mut calls, &mut self.calls);
        if i < calls.len() && calls[i].index == idx {
            let old_call = calls.remove(i);
            let name = match &d.name {
                Some(n) => if n.as_str().unicode_len() > 0 {
                    n.clone()
                } else {
                    old_call.name
                },
                None => old_call.name,
            };
            let mut arguments = old_call.arguments;
            if let Some(a) = &d.arguments {
                arguments.append(a.as_str());
            }
            let merged = PendingCall { index: old_call.index, id: old_call.id, name, arguments };
            proof {
                assert(merged@ == merge_delta(cv[i as int], d@));
            }
            calls.insert(i, merged);
            proof {
                assert(cv.skip(i as int).drop_first() =~= cv.skip(i + 1));
                assert(pending_view(calls@) =~= cv.take(i as int) + (seq![merge_delta(cv[i as int], d@)]
                    + cv.skip(i as int).drop_first()));
            }
        } else {
            let mut opened = PendingCall {
                index: idx,
                id: match &d.id {
                    Some(s) => s.clone(),
                    None => String::new(),
                },
                name: match &d.name {
                    Some(s) => s.clone(),
                    None => String::new(),
                },
                arguments: String::new(),
            };
            if let Some(a) = &d.arguments {
                opened.arguments.append(a.as_str());
            }
            proof {
                assert(Seq::<char>::empty() + d@.arguments->0 =~= d@.arguments->0);
                assert(opened@ == opened_call(d@));
            }
            calls.insert(i, opened);
            proof {
                if i < cv.len() {
                    assert(cv.skip(i as int)[0] == cv[i as int]);
                }
                assert(pending_view(calls@) =~= cv.take(i as int) + (seq![opened_call(d@)] + cv.skip(
                    i as int,
                )));
            }
        }
        self.calls = calls;
    }

    /// Takes in one streamed delta: appends its text (returned, to be reported as content)
    /// and files its tool call deltas.
    pub fn apply(&mut self, delta: &StreamDelta) -> (r: Option<String>)
        ensures
            r == delta.content,
            final(self).content() == old(self).content() + crate::anthropic::or_empty(
                crate::chat::opt_view(delta.content),
            ),
            final(self).calls() == match delta.tool_calls {
                Some(ds) => upsert_deltas(old(self).calls(), ds@.map_values(|d: ToolCallDelta| d@)),
                None => old(self).calls(),
            },
    {
        let r = match &delta.content {
            Some(c) => {
                self.content.append(c.as_str());
                Some(c.clone())
            },
            None => {
                proof {
                    assert(self.content@ + Seq::<char>::empty() =~= self.content@);
                }
                None
            },
        };
        if let Some(ds) = &delta.tool_calls {
            let ghost start = pending_view(self.calls@);
            let ghost dv = ds@.map_values(|d: ToolCallDelta| d@);
            let ghost text = self.content@;
            let mut i: usize = 0;
            proof {
                assert(dv.take(0) =~= Seq::<DeltaView>::empty());
            }
            while i < ds.len()
                invariant
                    i <= ds.len(),
                    dv == ds@.map_values(|d: ToolCallDelta| d@),
                    self.content@ == text,
                    pending_view(self.calls@) == upsert_deltas(start, dv.take(i as int)),
                decreases ds.len() - i,
            {
                proof {
                    assert(dv.take(i + 1).drop_last() =~= dv.take(i as int));
                    assert(dv.take(i + 1).last() == ds@[i as int]@);
                }
                self.apply_call_delta(&ds[i]);
                i = i + 1;
            }
            proof {
                assert(dv.take(ds.len() as int) =~= dv);
            }
        }
        r
    }
}

/// The tool calls of a finished turn, in index order.
pub open spec fn finished_calls(calls: Seq<PendingView>) -> Seq<ToolCallView> {
    calls.map_values(|c: PendingView| ToolCallView { id: c.id, name: c.name, arguments: c.arguments })
}

/// The messages a finished turn of an OpenAI-compatible model adds to the conversation:
/// without tool calls, its text as an assistant message (nothing when it said nothing);
/// with tool calls, one assistant message carrying them and its text, if any.
pub open spec fn openai_turn_messages(content: Seq<char>, calls: Seq<ToolCallView>) -> Seq<MessageView> {
    if calls.len() == 0 {
        if content.len() > 0 {
            seq![
                MessageView {
                    role: "assistant"@,
                    content: Some(content),
                    tool_calls: None,
                    tool_call_id: None,
                    anthropic_content: None,
                },
            ]
        } else {
            Seq::empty()
        }
    } else {
        seq![
            MessageView {
                role: "assistant"@,
                content: if content.len() > 0 {
                    Some(content)
                } else {
                    None
                },
                tool_calls: Some(calls),
                tool_call_id: None,
                anthropic_content: None,
            },
        ]
    }
}

/// Bookkeeping of one agent run: how many model requests were made and the text streamed
/// over all turns.
pub struct AgentRun {
    rounds: u32,
    full_content: String,
}

impl AgentRun {
    #[verifier::type_invariant]
    spec fn inv(self) -> bool {
        self.rounds <= MAX_ROUNDS
    }

    /// Model requests made so far.
    pub closed spec fn rounds(&self) -> nat {
        self.rounds as nat
    }

    /// Text streamed over all turns so far.
    pub closed spec fn full_content(&self) -> Seq<char> {
        self.full_content@
    }

    /// A run that has made no request.
    pub fn new() -> (r: AgentRun)
        ensures
            r.rounds() == 0,
            r.full_content() == Seq::<char>::empty(),
    {
        AgentRun { rounds: 0, full_content: String::new() }
    }

    /// Whether another model request may be made (at most `MAX_ROUNDS` per run); counts it.
    pub fn begin_round(&mut self) -> (go: bool)
        ensures
            go == (old(self).rounds() < MAX_ROUNDS),
            final(self).rounds() == if go {
                old(self).rounds() + 1
            } else {
                old(self).rounds()
            },
            final(self).rounds() <= MAX_ROUNDS,
            final(self).full_content() == old(self).full_content(),
    {
        proof {
            use_type_invariant(&*self);
        }
        if self.rounds < MAX_ROUNDS {
            self.rounds = self.rounds + 1;
            true
        } else {
            false
        }
    }

    /// Closes a turn of an OpenAI-compatible model: its text joins the run's text and the
    /// conversation gets the assistant message. Returns the tool calls to run, in index
    /// order; none means the run is over.
    pub fn finish_openai_turn(&mut self, turn: OpenAiTurn, messages: &mut Vec<ChatMessage>) -> (r:
        Vec<ToolCall>)
        ensures
            final(self).rounds() == old(self).rounds(),
            final(self).full_content() == old(self).full_content() + turn.content(),
            calls_view(r@) == finished_calls(turn.calls()),
            final(messages)@.map_values(|m: ChatMessage| m@) == old(messages)@.map_values(
                |m: ChatMessage| m@,
            ) + openai_turn_messages(turn.content(), finished_calls(turn.calls())),
    {
        self.append_content(turn.content.as_str());
        let has_text = turn.content.as_str().unicode_len() > 0;
        let ghost before = messages@;
        if turn.calls.len() == 0 {
            if has_text {
                let m = ChatMessage {
                    role: "assistant".to_string(),
                    content: Some(turn.content),
                    tool_calls: None,
                    tool_call_id: None,
                    anthropic_content: None,
                };
                messages.push(m);
                proof {
                    assert(messages@.map_values(|m: ChatMessage| m@) =~= before.map_values(
                        |m: ChatMessage| m@,
                    ) + seq![m@]);
                }
            } else {
                proof {
                    assert(messages@.map_values(|m: ChatMessage| m@) =~= before.map_values(
                        |m: ChatMessage| m@,
                    ) + Seq::<MessageView>::empty());
                }
            }
            return Vec::new();
        }
        let mut calls: Vec<ToolCall> = Vec::new();
        let mut kept: Vec<ToolCall> = Vec::new();
        let mut i: usize = 0;
        while i < turn.calls.len()
            invariant
                i <= turn.calls.len(),
                calls_view(calls@) == finished_calls(pending_view(turn.calls@.take(i as int))),
                calls_view(kept@) == calls_view(calls@),
            decreases turn.calls.len() - i,
        {
            let p = &turn.calls[i];
            let c = ToolCall { id: p.id.clone(), name: p.name.clone(), arguments: p.arguments.clone() };
            let c2 = ToolCall { id: p.id.clone(), name: p.name.clone(), arguments: p.arguments.clone() };
            proof {
                assert(pending_view(turn.calls@.take(i + 1)) =~= pending_view(turn.calls@.take(i as int)).push(
                    turn.calls@[i as int]@,
                ));
                assert(finished_calls(pending_view(turn.calls@.take(i + 1))) =~= finished_calls(
                    pending_view(turn.calls@.take(i as int)),
                ).push(c@));
                assert(calls_view(calls@.push(c)) =~= calls_view(calls@).push(c@));
                assert(calls_view(kept@.push(c2)) =~= calls_view(kept@).push(c2@));
            }
            calls.push(c);
            kept.push(c2);
            i = i + 1;
        }
        proof {
            assert(turn.calls@.take(turn.calls.len() as int) =~= turn.calls@);
        }
        let m = ChatMessage {
            role: "assistant".to_string(),
            content: if has_text {
                Some(turn.content)
            } else {
                None
            },
            tool_calls: Some(kept),
            tool_call_id: None,
            anthropic_content: None,
        };
        messages.push(m);
        proof {
            assert(messages@.map_values(|m: ChatMessage| m@) =~= before.map_values(
                |m: ChatMessage| m@,
            ).push(m@));
        }
        calls
    }

    /// Appends a turn's text to the run's text.
    pub(crate) fn append_content(&mut self, text: &str)
        ensures
            final(self).rounds() == old(self).rounds(),
            final(self).full_content() == old(self).full_content() + text@,
    {
        proof {
            use_type_invariant(&*self);
        }
        let mut s = String::new();
        std::mem::swap(&mut s, &mut self.full_content);
        s.append(text);
        self.full_content = s;
    }

    /// The event that ends a run: everything the model said over all turns.
    pub fn done_event(&self) -> (e: AgentEvent)
        ensures
            e matches AgentEvent::Done { content } && content@ == self.full_content(),
    {
        AgentEvent::Done { content: self.full_content.clone() }
    }
}

/// The event that reports a tool call.
pub fn tool_call_event(call: &ToolCall) -> (e: AgentEvent)
    ensures
        e matches AgentEvent::ToolCall { name, args } && name@ == call.name@ && args@
            == call.arguments@,
{
    AgentEvent::ToolCall { name: call.name.clone(), args: call.arguments.clone() }
}


/// How a channel builds its reply from the agent's events: streamed text is appended, and
/// when nothing was streamed the final content stands in; other events change nothing.
pub open spec fn reply_after(response: Seq<char>, e: AgentEvent) -> Seq<char> {
    match e {
        AgentEvent::Content { text } => response + text@,
        AgentEvent::Done { content } => if response.len() == 0 {
            content@
        } else {
            response
        },
        _ => response,
    }
}

/// Takes one agent event into a channel's reply.
pub fn absorb_reply_event(response: &mut String, e: &AgentEvent)
    ensures
        final(response)@ == reply_after(old(response)@, *e),
{
    match e {
        AgentEvent::Content { text } => response.append(text.as_str()),
        AgentEvent::Done { content } => {
            if response.as_str().unicode_len() == 0 {
                *response = content.clone();
            }
        },
        _ => {},
    }
}

/// The reply a channel has built after taking in a sequence of agent events.
pub open spec fn reply_from(response: Seq<char>, evs: Seq<AgentEvent>) -> Seq<char>
    decreases evs.len(),
{
    if evs.len() == 0 {
        response
    } else {
        reply_after(reply_from(response, evs.drop_last()), evs.last())
    }
}

/// Before the final event, a channel's reply is exactly the streamed text: tool calls, tool
/// results, errors and starts add nothing to it.
pub proof fn lemma_reply_is_streamed_text(evs: Seq<AgentEvent>)
    requires
        forall|k: int| 0 <= k < evs.len() ==> !(#[trigger] evs[k] is Done),
    ensures
        reply_from(Seq::empty(), evs) == crate::run::content_text(evs.map_values(|e: AgentEvent| e@)),
    decreases evs.len(),
{
    if evs.len() > 0 {
        let v = evs.drop_last();
        assert forall|k: int| 0 <= k < v.len() implies !(#[trigger] v[k] is Done) by {
            assert(v[k] == evs[k]);
        }
        lemma_reply_is_streamed_text(v);
        let views = evs.map_values(|e: AgentEvent| e@);
        assert(views.drop_last() =~= v.map_values(|e: AgentEvent| e@));
        assert(views.last() == evs.last()@);
        assert(!(evs[evs.len() - 1] is Done));
        let r = reply_from(Seq::empty(), v);
        match evs.last() {
            AgentEvent::Content { text } => {},
            _ => {
                assert(r + Seq::<char>::empty() =~= r);
            },
        }
    }
}

/// The reply a channel sends for a whole run is the text the agent streamed, in order; the
/// final content stands in only when nothing was streamed.
pub proof fn lemma_reply_of_run(evs: Seq<AgentEvent>, content: String)
    requires
        forall|k: int| 0 <= k < evs.len() ==> !(#[trigger] evs[k] is Done),
    ensures
        ({
            let streamed = crate::run::content_text(evs.map_values(|e: AgentEvent| e@));
            let reply = reply_from(Seq::empty(), evs.push(AgentEvent::Done { content }));
            &&& streamed.len() > 0 ==> reply == streamed
            &&& streamed.len() == 0 ==> reply == content@
        }),
{
    lemma_reply_is_streamed_text(evs);
    assert(evs.push(AgentEvent::Done { content }).drop_last() =~= evs);
}

} // verus!
