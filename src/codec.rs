use vstd::prelude::*;

use crate::json::{Json, Member};
use crate::tree::{well_formed, JsonTree};

verus! {

/// A hexadecimal digit, lower case.
pub open spec fn hex_digit(n: int) -> char {
    seq!['0', '1', '2', '3', '4', '5', '6', '7', '8', '9', 'a', 'b', 'c', 'd', 'e', 'f'][n]
}

/// How one character is written inside a JSON string literal: quote and
/// backslash behind a backslash, the usual short escapes for backspace, tab,
/// line feed, form feed and carriage return, any other control character as
/// `\u00XX`, everything else as itself.
pub open spec fn escape_char(c: char) -> Seq<char> {
    if c == '"' {
        seq!['\\', '"']
    } else if c == '\\' {
        seq!['\\', '\\']
    } else if c == '\u{8}' {
        seq!['\\', 'b']
    } else if c == '\t' {
        seq!['\\', 't']
    } else if c == '\n' {
        seq!['\\', 'n']
    } else if c == '\u{c}' {
        seq!['\\', 'f']
    } else if c == '\r' {
        seq!['\\', 'r']
    } else if (c as u32) < 0x20 {
        seq!['\\', 'u', '0', '0', hex_digit((c as u32) as int / 16), hex_digit((c as u32) as int % 16)]
    } else {
        seq![c]
    }
}

/// The escaped characters of a text.
pub open spec fn escaped(s: Seq<char>) -> Seq<char>
    decreases s.len(),
{
    if s.len() == 0 {
        seq![]
    } else {
        escaped(s.drop_last()) + escape_char(s.last())
    }
}

/// The JSON string literal for a text.
pub open spec fn json_quoted(s: Seq<char>) -> Seq<char> {
    seq!['"'] + escaped(s) + seq!['"']
}

/// Relies on `serde_json::to_string` on a `str`, which cannot fail: it
/// writes the text between double quotes, escaping each character as its
/// table `ESCAPE` and `write_char_escape` say.
#[verifier::external_body]
pub(crate) fn quote(s: &str) -> (r: String)
    ensures
        r@ == json_quoted(s@),
{
    serde_json::to_string(s).unwrap_or_default()
}

#[verifier::external_type_specification]
#[verifier::external_body]
pub struct ExValue(serde_json::Value);

/// The document serde_json reads from a text, if the text is one JSON
/// document.
pub uninterp spec fn json_parsed(s: Seq<char>) -> Option<JsonTree>;

/// Moves a serde_json tree into a `Json` node for node: objects keep the
/// order in which serde_json's map yields their entries, and a number
/// becomes the text serde_json writes for it.
#[verifier::external_body]
fn json_from_value(v: serde_json::Value) -> Json {
    match v {
        serde_json::Value::Null => Json::Null,
        serde_json::Value::Bool(b) => Json::Bool(b),
        serde_json::Value::Number(n) => Json::Number(n.to_string()),
        serde_json::Value::String(s) => Json::Str(s),
        serde_json::Value::Array(a) => Json::Array(a.into_iter().map(json_from_value).collect()),
        serde_json::Value::Object(m) => Json::Object(
            m.into_iter().map(|(key, value)| Member { key, value: json_from_value(value) }).collect(),
        ),
    }
}

/// Relies on `serde_json::from_str` into a `serde_json::Value`: it fails on
/// a text that is not one JSON document (or nests deeper than its recursion
/// limit), and what it yields depends on the text alone. Its objects are
/// `BTreeMap`s keyed by `String` (the `preserve_order` feature is off), so
/// each key comes once and keys come in `String` order, the byte order of
/// UTF-8, which is code point order. Numbers are then written by itoa or
/// zmij (`Number`'s `Display`): digits, a sign, a point and an exponent,
/// never a line break.
#[verifier::external_body]
pub(crate) fn parse_json(text: &str) -> (r: Option<Json>)
    ensures
        r matches Some(j) ==> json_parsed(text@) == Some(j@) && well_formed(j@),
        r is None ==> json_parsed(text@) is None,
{
    serde_json::from_str::<serde_json::Value>(text).ok().map(json_from_value)
}

} // verus!
