//! Tools offered by MCP servers: how their names are qualified and split, and how a
//! `tools/call` reply becomes the text handed back to the model.
use crate::text::{
    append_range, chars_of, concat, find, find_in, join_lines, lemma_find_from_match, string_of,
};
use vstd::prelude::*;

verus! {

/// A tool the agent can call: its name, a description, and the JSON schema of its
/// parameters as JSON text.
#[derive(Debug)]
pub struct ToolSpec {
    pub name: String,
    pub description: String,
    pub parameters: String,
}

impl ToolSpec {
    /// A field-by-field copy.
    pub fn duplicate(&self) -> (r: ToolSpec)
        ensures
            r == *self,
    {
        ToolSpec {
            name: self.name.clone(),
            description: self.description.clone(),
            parameters: self.parameters.clone(),
        }
    }
}


/// Name under which a server's tool is offered: `<server>__<tool>`.
pub open spec fn qualified_name(server: Seq<char>, tool: Seq<char>) -> Seq<char> {
    server + "__"@ + tool
}

/// The tool spec for one entry of a server's `tools/list` reply (missing name and
/// description read as empty).
pub fn listed_tool(server: &str, name: Option<&str>, description: Option<&str>, schema: String) -> (r:
    ToolSpec)
    ensures
        r.name@ == qualified_name(
            server@,
            match name {
                Some(n) => n@,
                None => Seq::empty(),
            },
        ),
        r.description@ == match description {
            Some(d) => d@,
            None => Seq::<char>::empty(),
        },
        r.parameters == schema,
{
    let mut n = concat(server, "__");
    if let Some(t) = name {
        n.append(t);
    } else {
        proof {
            assert(n@ + Seq::<char>::empty() =~= n@);
        }
    }
    let d = match description {
        Some(d) => d.to_string(),
        None => String::new(),
    };
    ToolSpec { name: n, description: d, parameters: schema }
}

/// Where a qualified tool name splits into server and tool: at its first `__`.
pub open spec fn split_point(full: Seq<char>) -> Option<int> {
    find(full, "__"@)
}

/// Splits a qualified tool name at its first `__` into server and tool name; a name
/// without `__` is refused with `invalid tool name: <name>`.
pub fn split_tool_name(full: &str) -> (r: Result<(String, String), String>)
    ensures
        match split_point(full@) {
            Some(i) => r matches Ok((server, tool)) && server@ == full@.take(i) && tool@
                == full@.skip(i + 2),
            None => r matches Err(e) && e@ == "invalid tool name: "@ + full@,
        },
{
    let v = chars_of(full);
    let mut sep: Vec<char> = Vec::new();
    sep.push('_');
    sep.push('_');
    proof {
        reveal_strlit("__");
        assert(sep@ =~= "__"@);
        lemma_find_from_match(v@, sep@, 0);
    }
    match find_in(&v, &sep, 0) {
        Some(i) => {
            let mut server: Vec<char> = Vec::new();
            append_range(&mut server, &v, 0, i);
            let mut tool: Vec<char> = Vec::new();
            let n = v.len();
            append_range(&mut tool, &v, i + 2, n);
            proof {
                assert(server@ =~= v@.take(i as int));
                assert(tool@ =~= v@.skip(i + 2));
            }
            Ok((string_of(&server), string_of(&tool)))
        },
        None => Err(concat("invalid tool name: ", full)),
    }
}

/// Splitting undoes qualifying: a tool offered as `<server>__<tool>` is routed back to that
/// server and tool, for every server name that holds no `__` and does not end with `_`.
pub proof fn lemma_split_qualified(server: Seq<char>, tool: Seq<char>)
    requires
        find(server, "__"@) is None,
        server.len() == 0 || server.last() != '_',
    ensures
        split_point(qualified_name(server, tool)) == Some(server.len() as int),
        qualified_name(server, tool).take(server.len() as int) == server,
        qualified_name(server, tool).skip(server.len() as int + 2) == tool,
{
    reveal_strlit("__");
    let full = qualified_name(server, tool);
    let n = server.len() as int;
    let pat = "__"@;
    assert(pat.len() == 2 && pat[0] == '_' && pat[1] == '_');
    assert(full.subrange(n, n + 2) =~= pat);
    crate::text::lemma_find_from_match(server, pat, 0);
    assert forall|i: int| 0 <= i < n implies #[trigger] full.subrange(i, i + 2) != pat by {
        if i + 2 <= n {
            assert(full.subrange(i, i + 2) =~= server.subrange(i, i + 2));
        } else {
            assert(i == n - 1);
            assert(full.subrange(i, i + 2)[0] == server.last());
        }
    }
    lemma_find_scan(full, pat, 0, n);
    assert(full.take(n) =~= server);
    assert(full.skip(n + 2) =~= tool);
}

/// A search that passes no match before `stop` and matches at `stop` finds `stop`.
proof fn lemma_find_scan(s: Seq<char>, pat: Seq<char>, from: int, stop: int)
    requires
        0 <= from <= stop,
        stop + pat.len() <= s.len(),
        s.subrange(stop, stop + pat.len()) == pat,
        forall|i: int| from <= i < stop ==> #[trigger] s.subrange(i, i + pat.len()) != pat,
    ensures
        crate::text::find_from(s, pat, from) == Some(stop),
    decreases stop - from,
{
    if from < stop {
        lemma_find_scan(s, pat, from + 1, stop);
    }
}

/// Error for a tool of a server that is not connected.
pub fn unknown_server_error(server: &str) -> (r: String)
    ensures
        r@ == "unknown server: "@ + server@,
{
    concat("unknown server: ", server)
}

/// Reply of a `tools/call` request, as far as it is read: the `text` of each element of
/// `result.content` when that is an array, the error message, and the whole reply as JSON
/// text.
#[derive(Debug)]
pub struct ToolCallReply {
    pub content_texts: Option<Vec<Option<String>>>,
    pub error_message: Option<String>,
    pub raw: String,
}

/// The texts that are present, in order.
pub open spec fn present_texts(items: Seq<Option<String>>) -> Seq<Seq<char>>
    decreases items.len(),
{
    if items.len() == 0 {
        Seq::empty()
    } else {
        present_texts(items.drop_last()) + match items.last() {
            Some(t) => seq![t@],
            None => Seq::empty(),
        }
    }
}

/// What a tool call gives back to the model: the content texts joined by newlines, else
/// the error message prefixed with `Error: `, else the raw reply.
pub open spec fn reply_text(r: ToolCallReply) -> Seq<char> {
    match r.content_texts {
        Some(items) => join_lines(present_texts(items@)),
        None => match r.error_message {
            Some(e) => "Error: "@ + e@,
            None => r.raw@,
        },
    }
}

/// What a tool call gives back to the model.
pub fn tool_reply_text(r: &ToolCallReply) -> (t: String)
    ensures
        t@ == reply_text(*r),
{
    match &r.content_texts {
        Some(items) => {
            let mut out = String::new();
            let mut any = false;
            let mut i: usize = 0;
            while i < items.len()
                invariant
                    i <= items.len(),
                    any == (present_texts(items@.take(i as int)).len() > 0),
                    out@ == join_lines(present_texts(items@.take(i as int))),
                decreases items.len() - i,
            {
                let ghost before = present_texts(items@.take(i as int));
                proof {
                    assert(items@.take(i + 1).drop_last() =~= items@.take(i as int));
                    assert(items@.take(i + 1).last() == items@[i as int]);
                }
                if let Some(t) = &items[i] {
                    let ghost now = before.push(t@);
                    proof {
                        assert(present_texts(items@.take(i + 1)) =~= now);
                        assert(now.drop_last() =~= before);
                    }
                    if any {
                        out.append("\n");
                        out.append(t.as_str());
                    } else {
                        proof {
                            assert(before.len() == 0);
                            assert(now =~= seq![t@]);
                            assert(Seq::<char>::empty() + t@ =~= t@);
                        }
                        out.append(t.as_str());
                    }
                    any = true;
                } else {
                    proof {
                        assert(present_texts(items@.take(i + 1)) =~= before);
                    }
                }
                i = i + 1;
            }
            proof {
                assert(items@.take(items.len() as int) =~= items@);
            }
            out
        },
        None => match &r.error_message {
            Some(e) => concat("Error: ", e.as_str()),
            None => r.raw.clone(),
        },
    }
}

/// Hands out the id of the next request to a server and advances the counter.
pub fn next_request_id(next: &mut u64) -> (id: u64)
    ensures
        id == *old(next),
        *final(next) == crate::loop_sched::wrap_add(*old(next), 1),
{
    let id = *next;
    *next = id.wrapping_add(1);
    id
}

} // verus!
