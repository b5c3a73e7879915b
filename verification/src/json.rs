//! JSON arrays of strings, as used for the path lists of `files` items.
use vstd::prelude::*;

use crate::dedup::hex_digit;
use crate::text::{join_with, string_views};

verus! {

/// How `serde_json` writes the character `c` inside a JSON string: `"` and
/// `\` and the control characters are escaped (`\b \f \n \r \t`, the other
/// control characters as `\u00XX` with lowercase hex), every other
/// character is written as is.
pub open spec fn json_escape_char(c: char) -> Seq<char> {
    if c == '"' {
        seq!['\\', '"']
    } else if c == '\\' {
        seq!['\\', '\\']
    } else if c == '\u{8}' {
        seq!['\\', 'b']
    } else if c == '\u{c}' {
        seq!['\\', 'f']
    } else if c == '\n' {
        seq!['\\', 'n']
    } else if c == '\r' {
        seq!['\\', 'r']
    } else if c == '\t' {
        seq!['\\', 't']
    } else if (c as u32) < 0x20 {
        seq!['\\', 'u', '0', '0', hex_digit((c as int) / 16), hex_digit((c as int) % 16)]
    } else {
        seq![c]
    }
}

/// The characters of `s`, each written as in a JSON string.
pub open spec fn json_escape(s: Seq<char>) -> Seq<char>
    decreases s.len(),
{
    if s.len() == 0 {
        Seq::empty()
    } else {
        json_escape(s.drop_last()) + json_escape_char(s.last())
    }
}

/// `s` as a JSON string literal.
pub open spec fn json_string(s: Seq<char>) -> Seq<char> {
    seq!['"'] + json_escape(s) + seq!['"']
}

/// The JSON text that `serde_json` writes for an array of strings: `[`, the
/// strings as JSON literals separated by `,`, then `]`, with no spaces.
pub open spec fn json_of_strings(items: Seq<Seq<char>>) -> Seq<char> {
    seq!['['] + join_with(items.map_values(|s: Seq<char>| json_string(s)), seq![',']) + seq![']']
}

/// What `serde_json` reads from `text` as an array of strings: the strings,
/// or the message of the error it reports.
pub uninterp spec fn strings_of_json(text: Seq<char>) -> Result<Seq<Seq<char>>, Seq<char>>;

/// Calls `serde_json::to_string` on `items`. Trusted: the result is the
/// compact JSON array `json_of_strings` of the items. Serialising a `Vec<String>` cannot fail:
/// `serde_json` reports an error only where a `Serialize` impl does or a map
/// has non-string keys, and it writes into a `Vec<u8>`, which takes every
/// write; the error arm, which gives an empty string, is never taken.
#[verifier::external_body]
pub(crate) fn to_json(items: &Vec<String>) -> (text: String)
    ensures
        text@ == json_of_strings(string_views(items@)),
{
    serde_json::to_string(items).unwrap_or_default()
}

/// Calls `serde_json::from_str::<Vec<String>>` on `text`, turning an error
/// into its message (`to_string`). Trusted: the result is
/// `strings_of_json` of the text.
#[verifier::external_body]
pub(crate) fn from_json(text: &str) -> (r: Result<Vec<String>, String>)
    ensures
        match r {
            Ok(items) => strings_of_json(text@) == Ok::<Seq<Seq<char>>, Seq<char>>(string_views(items@)),
            Err(message) => strings_of_json(text@) == Err::<Seq<Seq<char>>, Seq<char>>(message@),
        },
{
    serde_json::from_str::<Vec<String>>(text).map_err(|e| e.to_string())
}

} // verus!
