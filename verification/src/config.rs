//! Runtime configuration and the `${VAR}` interpolation of the configuration text.
use crate::text::{append_range, chars_of, find, find_in, lemma_find_from_match, lemma_find_from_shift, string_of};
use crate::telegram::TelegramConfig;
use crate::wechat::WechatConfig;
use std::collections::HashMap;
use vstd::prelude::*;

verus! {

/// Where the model is served and how it is called.
#[derive(Clone, Debug)]
pub struct LlmConfig {
    pub base_url: String,
    pub api_key: String,
    pub model: String,
}

/// How to start an MCP server.
#[derive(Clone, Debug)]
pub struct McpServer {
    pub command: String,
    pub args: Vec<String>,
}

/// The whole configuration.
#[derive(Clone, Debug)]
pub struct Config {
    pub llm: LlmConfig,
    pub mcp_servers: HashMap<String, McpServer>,
    pub port: u16,
    pub telegram: Option<TelegramConfig>,
    pub wechat: Option<WechatConfig>,
}

/// The port served when the configuration names none.
pub fn default_port() -> (p: u16)
    ensures
        p == 3007,
{
    3007
}

/// The first placeholder of a text: where its `${` starts, where its `}` stands, if the text
/// has a `${` followed (at or after it) by a `}`.
pub open spec fn placeholder(text: Seq<char>) -> Option<(int, int)> {
    match find(text, "${"@) {
        None => None,
        Some(s) => match find(text.skip(s), "}"@) {
            None => None,
            Some(e) => Some((s, s + e)),
        },
    }
}

/// A placeholder spans `${`, its name, and `}`: filling it replaces exactly the `${NAME}`
/// whose name `next_placeholder` reports, and keeps the text around it.
pub proof fn lemma_placeholder_shape(text: Seq<char>)
    ensures
        placeholder(text) matches Some((s, e)) ==> {
            &&& 0 <= s && s + 2 <= e < text.len()
            &&& text =~= text.take(s) + "${"@ + text.subrange(s + 2, e) + "}"@ + text.skip(e + 1)
        },
{
    reveal_strlit("${");
    reveal_strlit("}");
    let open = "${"@;
    let close = "}"@;
    lemma_find_from_match(text, open, 0);
    match find(text, open) {
        None => {},
        Some(s) => {
            lemma_find_from_match(text.skip(s), close, 0);
            match find(text.skip(s), close) {
                None => {},
                Some(k) => {
                    let e = s + k;
                    assert(text.subrange(s, s + 2) == open);
                    assert(text.skip(s).subrange(k, k + 1) == close);
                    assert(text[s] == '$' && text[s + 1] == '{') by {
                        assert(text.subrange(s, s + 2)[0] == text[s]);
                        assert(text.subrange(s, s + 2)[1] == text[s + 1]);
                    }
                    assert(text[e] == '}') by {
                        assert(text.skip(s).subrange(k, k + 1)[0] == text.skip(s)[k]);
                    }
                    assert(k >= 2) by {
                        if k == 0 {
                            assert(text.skip(s)[0] == text[s]);
                        } else if k == 1 {
                            assert(text.skip(s)[1] == text[s + 1]);
                        }
                    }
                    assert(text =~= text.take(s) + open + text.subrange(s + 2, e) + close + text.skip(
                        e + 1,
                    ));
                },
            }
        },
    }
}

/// Finds the first placeholder, in character positions.
fn locate_placeholder(v: &Vec<char>) -> (r: Option<(usize, usize)>)
    ensures
        r is None <==> placeholder(v@) is None,
        r matches Some((s, e)) ==> placeholder(v@) == Some((s as int, e as int)) && s + 2 <= e
            < v@.len(),
{
    let mut open: Vec<char> = Vec::new();
    open.push('$');
    open.push('{');
    let mut close: Vec<char> = Vec::new();
    close.push('}');
    proof {
        reveal_strlit("${");
        reveal_strlit("}");
        assert(open@ =~= "${"@);
        assert(close@ =~= "}"@);
        lemma_find_from_match(v@, open@, 0);
    }
    match find_in(v, &open, 0) {
        None => None,
        Some(s) => {
            proof {
                lemma_find_from_shift(v@, close@, s as int, 0);
                lemma_find_from_match(v@, close@, s as int);
                lemma_find_from_match(v@.skip(s as int), close@, 0);
            }
            match find_in(v, &close, s) {
                None => None,
                Some(e) => {
                    proof {
                        assert(v@[s as int] == '$' && v@[s + 1] == '{') by {
                            assert(v@.subrange(s as int, s + 2) == open@);
                            assert(v@.subrange(s as int, s + 2)[0] == v@[s as int]);
                            assert(v@.subrange(s as int, s + 2)[1] == v@[s + 1]);
                        }
                        assert(v@[e as int] == '}') by {
                            assert(v@.subrange(e as int, e + 1)[0] == v@[e as int]);
                        }
                    }
                    Some((s, e))
                },
            }
        },
    }
}

/// The name of the first `${NAME}` placeholder of a configuration text, if it has one.
pub fn next_placeholder(text: &str) -> (r: Option<String>)
    ensures
        match placeholder(text@) {
            Some((s, e)) => r matches Some(n) && n@ == text@.subrange(s + 2, e),
            None => r is None,
        },
{
    let v = chars_of(text);
    match locate_placeholder(&v) {
        None => None,
        Some((s, e)) => {
            let mut name: Vec<char> = Vec::new();
            append_range(&mut name, &v, s + 2, e);
            proof {
                assert(name@ =~= v@.subrange(s + 2, e as int));
            }
            Some(string_of(&name))
        },
    }
}

/// Replaces the first placeholder (from its `${` through its `}`) by `value`; a text
/// without one is returned unchanged.
pub fn fill_placeholder(text: &str, value: &str) -> (r: String)
    ensures
        match placeholder(text@) {
            Some((s, e)) => r@ == text@.take(s) + value@ + text@.skip(e + 1),
            None => r@ == text@,
        },
{
    let v = chars_of(text);
    match locate_placeholder(&v) {
        None => string_of(&v),
        Some((s, e)) => {
            let val = chars_of(value);
            let mut out: Vec<char> = Vec::new();
            append_range(&mut out, &v, 0, s);
            let vl = val.len();
            append_range(&mut out, &val, 0, vl);
            let n = v.len();
            append_range(&mut out, &v, e + 1, n);
            proof {
                assert(out@ =~= v@.take(s as int) + val@ + v@.skip(e + 1));
            }
            string_of(&out)
        },
    }
}

} // verus!
