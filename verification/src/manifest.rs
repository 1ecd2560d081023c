//! The manifest of a package directory: a JSON object whose optional `main`
//! field names the file to use when the directory itself is imported.
use crate::fs::text_view;
use vstd::prelude::*;

verus! {

/// The key of the manifest field that names the entry point of a package.
pub open spec fn main_key() -> Seq<char> {
    "main"@
}

/// What a JSON text holds under a key as a string: the value, when the text
/// is a JSON object that has the key with a string value, and nothing when
/// the text is not JSON, is not an object, lacks the key, or holds something
/// else than a string there.
pub uninterp spec fn json_string_field(text: Seq<char>, key: Seq<char>) -> Option<Seq<char>>;

/// Parses `text` with `serde_json::from_str` into a `serde_json::Value` and
/// reads the string under `key` with `Value::get` and `Value::as_str`.
///
/// The contract claims that the answer is a function of the text and the key;
/// what it is for a given text is left to `serde_json`.
#[verifier::external_body]
fn read_string_field(text: &str, key: &str) -> (value: Option<String>)
    ensures
        text_view(value) == json_string_field(text@, key@),
{
    let document: serde_json::Value = serde_json::from_str(text).ok()?;
    Some(document.get(key)?.as_str()?.to_string())
}

/// The entry point that a manifest names, if it names one.
pub fn manifest_main(text: &str) -> (entry: Option<String>)
    ensures
        text_view(entry) == json_string_field(text@, main_key()),
{
    read_string_field(text, "main")
}

} // verus!
