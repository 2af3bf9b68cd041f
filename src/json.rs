//! The JSON form of a domain list: how the scheduler records the list it
//! applied and how it hands the list to the helper.
use vstd::prelude::*;
use crate::schedule::views;

verus! {

/// The error type of `serde_json`, carried as an opaque value.
#[verifier::external_type_specification]
#[verifier::external_body]
pub struct ExJsonError(serde_json::Error);

/// A lower-case hexadecimal digit.
pub open spec fn hex_digit(d: nat) -> char {
    if d < 10 {
        (('0' as nat) + d) as char
    } else {
        (('a' as nat) + (d - 10)) as char
    }
}

/// How a JSON string writes one character: `"` and `\` behind a backslash,
/// backspace, tab, line feed, form feed and carriage return as `\b`, `\t`,
/// `\n`, `\f`, `\r`, other control characters below 0x20 as `\u00XX` in
/// lower-case hexadecimal, and every other character as itself.
pub open spec fn json_escape(c: char) -> Seq<char> {
    let u = c as u32;
    if c == '"' {
        seq!['\\', '"']
    } else if c == '\\' {
        seq!['\\', '\\']
    } else if u == 0x08 {
        seq!['\\', 'b']
    } else if u == 0x09 {
        seq!['\\', 't']
    } else if u == 0x0a {
        seq!['\\', 'n']
    } else if u == 0x0c {
        seq!['\\', 'f']
    } else if u == 0x0d {
        seq!['\\', 'r']
    } else if u < 0x20 {
        seq!['\\', 'u', '0', '0', hex_digit((u / 16) as nat), hex_digit((u % 16) as nat)]
    } else {
        seq![c]
    }
}

/// The characters of `s`, each escaped.
pub open spec fn json_escaped(s: Seq<char>) -> Seq<char>
    decreases s.len(),
{
    if s.len() == 0 {
        Seq::empty()
    } else {
        json_escaped(s.drop_last()) + json_escape(s.last())
    }
}

/// A JSON string literal.
pub open spec fn json_string(s: Seq<char>) -> Seq<char> {
    seq!['"'] + json_escaped(s) + seq!['"']
}

/// The string literals of a list, with commas between them.
pub open spec fn json_items(v: Seq<Seq<char>>) -> Seq<char>
    decreases v.len(),
{
    if v.len() == 0 {
        Seq::empty()
    } else if v.len() == 1 {
        json_string(v[0])
    } else {
        json_items(v.drop_last()) + seq![','] + json_string(v.last())
    }
}

/// The compact JSON array text of a list of strings.
pub open spec fn json_of(v: Seq<Seq<char>>) -> Seq<char> {
    seq!['['] + json_items(v) + seq![']']
}

/// The empty list is written `[]`.
pub proof fn lemma_json_of_empty()
    ensures
        json_of(Seq::empty()) == "[]"@,
{
    reveal_strlit("[]");
    assert(json_of(Seq::empty()) =~= "[]"@);
}

/// The list of strings that `serde_json::from_str` reads from a text, or
/// `None` where the text is not a JSON array of strings.
pub uninterp spec fn json_list_of(s: Seq<char>) -> Option<Seq<Seq<char>>>;

/// Relies on `serde_json::to_string`: for a list of strings, the compact
/// array text (`[`, the escaped string literals joined by `,`, `]`). It fails
/// only where a `Serialize` impl fails or a map has non-string keys, neither
/// of which a list of strings has.
#[verifier::external_body]
pub(crate) fn encode_list(v: &Vec<String>) -> (r: Result<String, serde_json::Error>)
    ensures
        r is Ok,
        r matches Ok(s) ==> s@ == json_of(views(v@)),
{
    serde_json::to_string(v)
}

/// Relies on `serde_json::from_str`: reads a JSON array of strings, and
/// fails on any other text; both depend on the text alone.
#[verifier::external_body]
pub(crate) fn decode_list(s: &str) -> (r: Result<Vec<String>, serde_json::Error>)
    ensures
        r is Ok <==> json_list_of(s@) is Some,
        r matches Ok(v) ==> views(v@) == json_list_of(s@)->0,
{
    serde_json::from_str::<Vec<String>>(s)
}

} // verus!
