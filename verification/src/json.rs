//! Reading response JSON through `serde_json`, addressed by JSON Pointer
//! (RFC 6901) paths such as `/choices/0/delta/content`.
//!
//! A pointer step `0` reads element 0 of an array but also a key `"0"` of an
//! object, whereas indexing by position (`value["choices"][0]`) reads arrays
//! only.  `indexed_str` checks that each value a positional step reads is
//! an array, so the two agree.
use vstd::prelude::*;

verus! {

/// The string that `pointer` addresses in the JSON document `text`, if
/// `text` parses and the addressed value is a JSON string.
pub uninterp spec fn json_pointer_str(text: Seq<char>, pointer: Seq<char>) -> Option<Seq<char>>;

/// The length of the array that `pointer` addresses in the JSON document
/// `text`, if `text` parses and the addressed value is a JSON array.
pub uninterp spec fn json_pointer_array_len(text: Seq<char>, pointer: Seq<char>) -> Option<nat>;

/// The message of the error `serde_json` reports for `text`, if it does not
/// parse as JSON.
pub uninterp spec fn json_error(text: Seq<char>) -> Option<Seq<char>>;

/// `serde_json::from_str::<Value>` then `Value::pointer` and the string
/// inside.  Claimed: the result is the named function of the two texts.
#[verifier::external_body]
pub(crate) fn json_str_at(text: &str, pointer: &str) -> (r: Option<String>)
    ensures
        match r {
            Some(s) => json_pointer_str(text@, pointer@) == Some(s@),
            None => json_pointer_str(text@, pointer@) is None,
        },
{
    let value: serde_json::Value = match serde_json::from_str(text) {
        Ok(v) => v,
        Err(_) => return None,
    };
    match value.pointer(pointer) {
        Some(serde_json::Value::String(s)) => Some(s.clone()),
        _ => None,
    }
}

/// `serde_json::from_str::<Value>` then `Value::pointer` and the length of
/// the array there.  Claimed: the result is the named function of the two
/// texts.
#[verifier::external_body]
pub(crate) fn json_array_len_at(text: &str, pointer: &str) -> (r: Option<usize>)
    ensures
        match r {
            Some(n) => json_pointer_array_len(text@, pointer@) == Some(n as nat),
            None => json_pointer_array_len(text@, pointer@) is None,
        },
{
    let value: serde_json::Value = match serde_json::from_str(text) {
        Ok(v) => v,
        Err(_) => return None,
    };
    match value.pointer(pointer) {
        Some(serde_json::Value::Array(items)) => Some(items.len()),
        _ => None,
    }
}

/// `serde_json::from_str::<Value>`, keeping only the error's message.
/// Claimed: the result is the named function of the text.
#[verifier::external_body]
pub(crate) fn json_parse_error(text: &str) -> (r: Option<String>)
    ensures
        match r {
            Some(m) => json_error(text@) == Some(m@),
            None => json_error(text@) is None,
        },
{
    match serde_json::from_str::<serde_json::Value>(text) {
        Ok(_) => None,
        Err(e) => Some(e.to_string()),
    }
}

/// The string at `pointer` when each of `arrays` addresses an array (the
/// values that positional steps of `pointer` read), else nothing.
pub open spec fn indexed_str(text: Seq<char>, arrays: Seq<&str>, pointer: Seq<char>) -> Option<Seq<char>> {
    if forall|k: int| 0 <= k < arrays.len() ==> (#[trigger] json_pointer_array_len(text, arrays[k]@)) is Some {
        json_pointer_str(text, pointer)
    } else {
        None
    }
}

/// The string that a chain of key and position lookups reaches in `text`:
/// `pointer` spells the chain, `arrays` the values read by position.
pub fn indexed_str_at(text: &str, arrays: &Vec<&str>, pointer: &str) -> (r: Option<String>)
    ensures
        crate::engine::openai::opt_string_view(r) == indexed_str(text@, arrays@, pointer@),
{
    let mut k: usize = 0;
    while k < arrays.len()
        invariant
            k <= arrays.len(),
            forall|j: int| 0 <= j < k ==> (#[trigger] json_pointer_array_len(text@, arrays@[j]@)) is Some,
        decreases arrays.len() - k,
    {
        if json_array_len_at(text, arrays[k]).is_none() {
            assert(json_pointer_array_len(text@, arrays@[k as int]@) is None);
            return None;
        }
        k += 1;
    }
    json_str_at(text, pointer)
}

} // verus!
