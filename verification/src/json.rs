//! What the library learns from `serde_json` about JSON text.
use vstd::prelude::*;

verus! {

/// What `serde_json` makes of a text when asked for the string under `key`: `None` when the
/// text is not JSON; else the string stored under `key` in the object it holds, `None`
/// inside when it is not an object, lacks the key, or the value is not a string.
pub uninterp spec fn json_read(text: Seq<char>, key: Seq<char>) -> Option<Option<Seq<char>>>;

/// Whether the text is JSON.
pub open spec fn json_parses(text: Seq<char>) -> bool {
    json_read(text, Seq::empty()) is Some
}

/// The string stored under `key` in the JSON object that `text` holds.
pub open spec fn json_field_text(text: Seq<char>, key: Seq<char>) -> Option<Seq<char>> {
    match json_read(text, key) {
        Some(Some(s)) => Some(s),
        _ => None,
    }
}

/// Parses `text` with `serde_json::from_str::<serde_json::Value>`; on success reads
/// `value.get(key).and_then(Value::as_str)`.
/// Claims only that the result is a function of the text and the key, named `json_read`;
/// JSON syntax is left to `serde_json`.
#[verifier::external_body]
fn read_json(text: &str, key: &str) -> (r: Option<Option<String>>)
    ensures
        match r {
            None => json_read(text@, key@) is None,
            Some(None) => json_read(text@, key@) == Some(None::<Seq<char>>),
            Some(Some(s)) => json_read(text@, key@) == Some(Some(s@)),
        },
{
    match serde_json::from_str::<serde_json::Value>(text) {
        Ok(v) => Some(v.get(key).and_then(|x| x.as_str()).map(|x| x.to_string())),
        Err(_) => None,
    }
}

/// Whether the text is JSON (`serde_json::from_str::<Value>(text).is_ok()`).
pub fn is_json(text: &str) -> (b: bool)
    ensures
        b == json_parses(text@),
{
    proof {
        assert(""@ =~= Seq::<char>::empty()) by {
            reveal_strlit("");
        }
    }
    read_json(text, "").is_some()
}

/// The string under `key` in the JSON object that `text` holds.
pub fn string_field(text: &str, key: &str) -> (r: Option<String>)
    ensures
        match r {
            Some(s) => json_field_text(text@, key@) == Some(s@),
            None => json_field_text(text@, key@) is None,
        },
{
    match read_json(text, key) {
        Some(Some(s)) => Some(s),
        _ => None,
    }
}

} // verus!
