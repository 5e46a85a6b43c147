//! Tag lists: their JSON form in the database and their comma-joined form
//! in the search index.
use vstd::prelude::*;

use crate::text::{join_with, joined_with};

verus! {

#[verifier::external_type_specification]
#[verifier::external_body]
pub struct ExJsonError(serde_json::Error);

/// A hexadecimal digit, `0`..`9` then `a`..`f`.
pub open spec fn hex_digit(n: int) -> char {
    if n < 10 {
        (('0' as int) + n) as char
    } else {
        (('a' as int) + n - 10) as char
    }
}

/// How `serde_json` writes one character inside a JSON string: `"` and `\`
/// behind a backslash, the control characters below `0x20` as `\b`, `\t`,
/// `\n`, `\f`, `\r` or `\u00` and two small hex digits, every other
/// character as it is.
pub open spec fn json_escape_char(c: char) -> Seq<char> {
    let u = c as u32;
    if c == '"' {
        seq!['\\', '"']
    } else if c == '\\' {
        seq!['\\', '\\']
    } else if u == 0x08 {
        seq!['\\', 'b']
    } else if u == 0x09 {
        seq!['\\', 't']
    } else if u == 0x0A {
        seq!['\\', 'n']
    } else if u == 0x0C {
        seq!['\\', 'f']
    } else if u == 0x0D {
        seq!['\\', 'r']
    } else if u < 0x20 {
        seq!['\\', 'u', '0', '0', hex_digit((u / 16) as int), hex_digit((u % 16) as int)]
    } else {
        seq![c]
    }
}

/// The characters of a string, each as `json_escape_char` writes it.
pub open spec fn json_escaped(s: Seq<char>) -> Seq<char>
    decreases s.len(),
{
    if s.len() == 0 {
        Seq::empty()
    } else {
        json_escaped(s.drop_last()) + json_escape_char(s.last())
    }
}

/// A JSON string literal.
pub open spec fn json_string(s: Seq<char>) -> Seq<char> {
    seq!['"'] + json_escaped(s) + seq!['"']
}

/// String literals separated by `,`.
pub open spec fn json_items(ts: Seq<Seq<char>>) -> Seq<char>
    decreases ts.len(),
{
    if ts.len() == 0 {
        Seq::empty()
    } else if ts.len() == 1 {
        json_string(ts[0])
    } else {
        json_items(ts.drop_last()) + seq![','] + json_string(ts.last())
    }
}

/// The compact JSON array of a list of strings, as `serde_json::to_string`
/// writes it: `[`, the string literals separated by `,`, `]`.
pub open spec fn json_string_list(tags: Seq<Seq<char>>) -> Seq<char> {
    seq!['['] + json_items(tags) + seq![']']
}

/// What `serde_json::from_str::<Vec<String>>` reads from a text, when it
/// reads a list of strings.
pub uninterp spec fn json_parse_string_list(s: Seq<char>) -> Option<Seq<Seq<char>>>;

/// `serde_json::to_string` on a list of strings. Its source (the compact
/// formatter and the `ESCAPE` table of `ser.rs`) writes `json_string_list`,
/// and strings and sequences serialise without error into an in-memory
/// buffer, so the call succeeds. `from_str` reads those escapes back, so
/// parsing the output gives the list again.
#[verifier::external_body]
fn json_of_strings(tags: &Vec<String>) -> (r: Result<String, serde_json::Error>)
    ensures
        r is Ok,
        r matches Ok(s) ==> s@ == json_string_list(tags.deep_view()),
        r matches Ok(s) ==> json_parse_string_list(s@) == Some(tags.deep_view()),
{
    serde_json::to_string(tags)
}

/// `serde_json::from_str::<Vec<String>>`: the list when the text is a JSON
/// array of strings, nothing otherwise.
#[verifier::external_body]
fn strings_of_json(s: &str) -> (r: Option<Vec<String>>)
    ensures
        match r {
            Some(v) => json_parse_string_list(s@) == Some(v.deep_view()),
            None => json_parse_string_list(s@) is None,
        },
{
    serde_json::from_str::<Vec<String>>(s).ok()
}

/// Encoding a tag list as JSON failed.
pub struct TagsEncodingError;

/// The JSON form of a tag list; reading it back gives the list again.
pub fn tags_to_json(tags: &Vec<String>) -> (r: Result<String, TagsEncodingError>)
    ensures
        r is Ok,
        r matches Ok(s) ==> s@ == json_string_list(tags.deep_view()),
        r matches Ok(s) ==> json_parse_string_list(s@) == Some(tags.deep_view()),
{
    match json_of_strings(tags) {
        Ok(s) => Ok(s),
        Err(_) => Err(TagsEncodingError),
    }
}

/// The tags read from their JSON form; a text that is no JSON list of
/// strings gives no tags.
pub fn tags_from_json(s: &str) -> (r: Vec<String>)
    ensures
        r.deep_view() == match json_parse_string_list(s@) {
            Some(t) => t,
            None => Seq::<Seq<char>>::empty(),
        },
{
    match strings_of_json(s) {
        Some(v) => v,
        None => {
            let v: Vec<String> = Vec::new();
            assert(v.deep_view() =~= Seq::<Seq<char>>::empty());
            v
        },
    }
}

/// `tags.join(", ")`, the form the search index holds.
pub fn join_tags(tags: &Vec<String>) -> (r: String)
    ensures
        r@ == joined_with(tags.deep_view(), seq![',', ' ']),
{
    join_with(tags, &[',', ' '])
}

} // verus!
