//! Strings inside JSON texts.
use crate::text::content;
use vstd::prelude::*;

verus! {

/// What `serde_json` finds in a text: the string that a JSON pointer leads to, if a string stands
/// there, or the message of the error where the text is no JSON.
pub uninterp spec fn json_string_at(text: Seq<char>, pointer: Seq<char>) -> Result<
    Option<Seq<char>>,
    Seq<char>,
>;

/// `serde_json::from_str` reads `text` as a `Value`, `Value::pointer` follows `pointer` and
/// `Value::as_str` reads the string there. The result depends on `text` and `pointer` alone;
/// which texts are JSON, and what the error says, is left to `serde_json`.
#[verifier::external_body]
pub(crate) fn json_string(text: &str, pointer: &str) -> (r: Result<Option<String>, String>)
    ensures
        match r {
            Ok(found) => json_string_at(text@, pointer@) == Ok::<Option<Seq<char>>, Seq<char>>(
                content(found),
            ),
            Err(message) => json_string_at(text@, pointer@) == Err::<Option<Seq<char>>, Seq<char>>(
                message@,
            ),
        },
{
    let value: serde_json::Value = serde_json::from_str(text).map_err(|e| e.to_string())?;
    Ok(value.pointer(pointer).and_then(|v| v.as_str()).map(|s| s.to_string()))
}

/// What `serde_json` finds in an element of a list in a text: the string that a JSON pointer
/// leads to from there, if a string stands there, or the message of the error where the text is
/// no JSON.
pub uninterp spec fn json_string_in_element_of(
    text: Seq<char>,
    list: Seq<char>,
    at: usize,
    pointer: Seq<char>,
) -> Result<Option<Seq<char>>, Seq<char>>;

/// `serde_json::from_str` reads `text` as a `Value`, `Value::get` takes the member `list` and the
/// element `at` of the array there, `Value::pointer` follows `pointer` from it and
/// `Value::as_str` reads the string there. The result depends on `text`, `list`, `at` and
/// `pointer` alone; which texts are JSON, and what the error says, is left to `serde_json`.
#[verifier::external_body]
pub(crate) fn json_string_in_element(text: &str, list: &str, at: usize, pointer: &str) -> (r:
    Result<Option<String>, String>)
    ensures
        match r {
            Ok(found) => json_string_in_element_of(text@, list@, at, pointer@) == Ok::<
                Option<Seq<char>>,
                Seq<char>,
            >(content(found)),
            Err(message) => json_string_in_element_of(text@, list@, at, pointer@) == Err::<
                Option<Seq<char>>,
                Seq<char>,
            >(message@),
        },
{
    let value: serde_json::Value = serde_json::from_str(text).map_err(|e| e.to_string())?;
    let element = value.get(list).and_then(|v| v.get(at));
    let found = element.and_then(|v| v.pointer(pointer)).and_then(|v| v.as_str());
    Ok(found.map(|s| s.to_string()))
}

} // verus!
