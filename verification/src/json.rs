//! JSON: string literals, and the fields of an object.

use vstd::prelude::*;

use crate::text::opt_text;

verus! {

/// A text between quotation marks.
pub open spec fn quoted(s: Seq<char>) -> Seq<char> {
    seq!['"'] + s + seq!['"']
}

/// A text that stands for itself between quotation marks: without quotation marks, backslashes and
/// control characters.
pub open spec fn plain(s: Seq<char>) -> bool {
    forall|i: int| 0 <= i < s.len() ==> (#[trigger] s[i]) >= ' ' && s[i] != '"' && s[i] != '\\'
}

/// The text that a JSON string literal stands for, if it is one.
pub uninterp spec fn json_string(literal: Seq<char>) -> Option<Seq<char>>;

/// The JSON string literal of a text.
pub uninterp spec fn json_literal(text: Seq<char>) -> Seq<char>;

/// The text under a key of a JSON object. Nothing for another value, or a text that is not JSON.
pub uninterp spec fn json_text(object: Seq<char>, key: Seq<char>) -> Option<Seq<char>>;

/// The whole number that is not negative under a key of a JSON object. Nothing for another value,
/// or a text that is not JSON.
pub uninterp spec fn json_number(object: Seq<char>, key: Seq<char>) -> Option<u64>;

/// `from_str` of `serde_json` for a string: the text that a string literal stands for. A plain text
/// between quotation marks stands for itself.
#[verifier::external_body]
pub(crate) fn parse_string(literal: &str) -> (r: Option<String>)
    ensures
        opt_text(r) == json_string(literal@),
        forall|s: Seq<char>| plain(s) && literal@ == #[trigger] quoted(s) ==> opt_text(r) == Some(s),
{
    serde_json::from_str::<String>(literal).ok()
}

/// `to_string` of a `serde_json` value that is a string: its literal. A plain text stands for itself
/// between quotation marks, and any text can be read back.
#[verifier::external_body]
pub(crate) fn string_literal(text: &str) -> (r: String)
    ensures
        r@ == json_literal(text@),
        plain(text@) ==> r@ == quoted(text@),
        json_string(r@) == Some(text@),
{
    serde_json::Value::from(text).to_string()
}

/// `from_str` of `serde_json`, and `as_str` of what the value holds under the key.
#[verifier::external_body]
pub(crate) fn text_field(object: &str, key: &str) -> (r: Option<String>)
    ensures
        opt_text(r) == json_text(object@, key@),
{
    let v = serde_json::from_str::<serde_json::Value>(object).ok()?;
    v[key].as_str().map(str::to_string)
}

/// `from_str` of `serde_json`, and `as_u64` of what the value holds under the key.
#[verifier::external_body]
pub(crate) fn number_field(object: &str, key: &str) -> (r: Option<u64>)
    ensures
        r == json_number(object@, key@),
{
    serde_json::from_str::<serde_json::Value>(object).ok()?[key].as_u64()
}

} // verus!
