//! What the library takes from outside, and what it believes of it.
//!
//! Nothing in this module is proved. Each item makes one call into the `regex` crate, the
//! `serde_json` crate or the standard library, and states what that call gives back. Where the
//! result takes too long to spell out, it has a name, and the contracts of the library speak of
//! that name.

use regex::Regex;
use serde_json::Value;
use vstd::prelude::*;

verus! {

// ── Regular expressions ──

/// The compiled form of a regular expression, `regex::Regex`.
#[verifier::external_type_specification]
#[verifier::external_body]
pub struct ExRegex(Regex);

/// The pattern that a regular expression was compiled from, as `Regex::as_str` gives it.
pub uninterp spec fn regex_source(re: Regex) -> Seq<char>;

/// The message with which `Regex::new` refuses a pattern, or `None` where it accepts it. The
/// size limit of the crate is counted in the memory layout of the target, so the width of its
/// pointers is a parameter.
pub uninterp spec fn regex_refusal(pattern: Seq<char>, pointer_bits: nat) -> Option<Seq<char>>;

/// Whether `Regex::is_match` finds the pattern anywhere in the text.
pub uninterp spec fn regex_matches(pattern: Seq<char>, text: Seq<char>) -> bool;

/// The byte offset at which the first match that `Regex::find` finds in the text ends.
pub uninterp spec fn regex_match_end(pattern: Seq<char>, text: Seq<char>) -> Option<usize>;

/// The groups of the first match that `Regex::captures` finds in the text; group 0 is the match.
pub uninterp spec fn regex_groups(pattern: Seq<char>, text: Seq<char>) -> Option<
    Seq<Option<Seq<char>>>,
>;

/// The message with which a pattern is refused on this target, or `None` where it is accepted.
pub open spec fn refusal(pattern: Seq<char>) -> Option<Seq<char>> {
    regex_refusal(pattern, usize::BITS as nat)
}

/// Calls `regex::Regex::new`. It either accepts the pattern and gives a regular expression with
/// that source, or refuses it with the message that the error prints.
#[verifier::external_body]
pub(crate) fn compile_regex(pattern: &str) -> (compiled: Result<Regex, String>)
    ensures
        match compiled {
            Ok(re) => regex_refusal(pattern@, usize::BITS as nat) is None && regex_source(re)
                == pattern@,
            Err(message) => regex_refusal(pattern@, usize::BITS as nat) == Some(message@),
        },
{
    match Regex::new(pattern) {
        Ok(re) => Ok(re),
        Err(e) => Err(e.to_string()),
    }
}

/// Calls `regex::Regex::is_match`: whether the regular expression matches anywhere in the text.
#[verifier::external_body]
pub(crate) fn is_match(re: &Regex, text: &str) -> (hit: bool)
    ensures
        hit == regex_matches(regex_source(*re), text@),
{
    re.is_match(text)
}

/// Calls `regex::Regex::find` and takes the end of the match, a byte offset into the text that
/// the crate promises to be a character boundary.
#[verifier::external_body]
pub(crate) fn match_end(re: &Regex, text: &str) -> (end: Option<usize>)
    ensures
        end == regex_match_end(regex_source(*re), text@),
        end matches Some(n) ==> n <= vstd::utf8::encode_utf8(text@).len()
            && vstd::utf8::is_char_boundary(vstd::utf8::encode_utf8(text@), n as int),
{
    re.find(text).map(|m| m.end())
}

/// The groups of a match as texts.
pub open spec fn group_texts(groups: Seq<Option<String>>) -> Seq<Option<Seq<char>>> {
    groups.map_values(
        |g: Option<String>|
            match g {
                Some(s) => Some(s@),
                None => None,
            },
    )
}

/// Calls `regex::Regex::captures` and takes the text of each group of the first match.
#[verifier::external_body]
pub(crate) fn captures(re: &Regex, text: &str) -> (groups: Option<Vec<Option<String>>>)
    ensures
        match groups {
            Some(list) => regex_groups(regex_source(*re), text@) == Some(group_texts(list@)),
            None => regex_groups(regex_source(*re), text@) is None,
        },
{
    re.captures(text).map(|c| c.iter().map(|g| g.map(|m| m.as_str().to_string())).collect())
}

// ── The standard library ──

/// The upper-case form of a text, as `str::to_uppercase` gives it.
pub uninterp spec fn upper_case(text: Seq<char>) -> Seq<char>;

/// Calls `str::to_uppercase`.
#[verifier::external_body]
pub(crate) fn to_uppercase(text: &str) -> (upper: String)
    ensures
        upper@ == upper_case(text@),
{
    text.to_uppercase()
}

/// A text in quotation marks with its escapes, as the `Debug` form of `str` prints it.
pub uninterp spec fn quoted_text(text: Seq<char>) -> Seq<char>;

/// Prints the `Debug` form of a `str`.
#[verifier::external_body]
pub(crate) fn quote(text: &str) -> (quoted: String)
    ensures
        quoted@ == quoted_text(text@),
{
    format!("{:?}", text)
}

// ── JSON ──

/// The compact text of the member of a JSON text at a JSON pointer, as `Value::pointer` finds it
/// and `Value` prints it. `None` if the text is no JSON, `Some(None)` if there is no such member.
pub uninterp spec fn json_member(text: Seq<char>, pointer: Seq<char>) -> Option<Option<Seq<char>>>;

/// The message with which `serde_json::from_str` refuses a text that is no JSON.
pub uninterp spec fn json_fault(text: Seq<char>) -> Option<Seq<char>>;

/// A JSON text with the member `key` of its member `outer` set to what a source gives, the member
/// of another JSON text at a pointer, or to `null` where it gives nothing, as
/// `serde_json::to_string_pretty` prints it.
pub uninterp spec fn json_with_member(
    text: Seq<char>,
    outer: Seq<char>,
    key: Seq<char>,
    source: Option<(Seq<char>, Seq<char>)>,
) -> Seq<char>;

/// The JSON text of a string, as `serde_json::Value` prints it.
pub uninterp spec fn json_of_string(text: Seq<char>) -> Seq<char>;

/// The JSON text of a list of strings, as `serde_json::Value` prints it.
pub uninterp spec fn json_of_strings(list: Seq<Seq<char>>) -> Seq<char>;

/// The string at a pointer of a JSON text, as `Value::as_str` reads it.
pub uninterp spec fn json_string(text: Seq<char>, pointer: Seq<char>) -> Option<Seq<char>>;

/// The unsigned integer at a pointer of a JSON text, as `Value::as_u64` reads it.
pub uninterp spec fn json_number(text: Seq<char>, pointer: Seq<char>) -> Option<u64>;

/// The truth value at a pointer of a JSON text, as `Value::as_bool` reads it.
pub uninterp spec fn json_truth(text: Seq<char>, pointer: Seq<char>) -> Option<bool>;

/// The compact texts of the elements of the array at a pointer of a JSON text, as
/// `Value::as_array` lists them.
pub uninterp spec fn json_elements(text: Seq<char>, pointer: Seq<char>) -> Option<Seq<Seq<char>>>;

/// The text of an optional string.
pub open spec fn optional_text(text: Option<String>) -> Option<Seq<char>> {
    match text {
        Some(s) => Some(s@),
        None => None,
    }
}

/// The text of an optional string slice.
pub open spec fn optional_slice(text: Option<&str>) -> Option<Seq<char>> {
    match text {
        Some(s) => Some(s@),
        None => None,
    }
}

/// Calls `serde_json::from_str` and prints the whole value, which is what the empty pointer finds.
/// It refuses a text that is no JSON with the message of the crate.
#[verifier::external_body]
pub(crate) fn json_text(text: &str) -> (printed: Result<String, String>)
    ensures
        match printed {
            Ok(t) => json_fault(text@) is None && json_member(text@, ""@) == Some(Some(t@)),
            Err(message) => json_fault(text@) == Some(message@) && json_member(text@, ""@) is None,
        },
{
    match serde_json::from_str::<Value>(text) {
        Ok(value) => Ok(value.to_string()),
        Err(e) => Err(e.to_string()),
    }
}

/// Calls `serde_json::from_str` and `serde_json::Value::pointer`, and prints the member. Of a text
/// that is no JSON it gives nothing. The printed member need not be JSON that the crate reads.
#[verifier::external_body]
pub(crate) fn json_at(text: &str, pointer: &str) -> (member: Option<Option<String>>)
    ensures
        match member {
            Some(m) => json_fault(text@) is None && json_member(text@, pointer@) == Some(
                optional_text(m),
            ),
            None => json_fault(text@) is Some && json_member(text@, pointer@) is None,
        },
{
    match serde_json::from_str::<Value>(text) {
        Ok(value) => Some(value.pointer(pointer).map(|v| v.to_string())),
        Err(_) => None,
    }
}

/// Calls `serde_json::from_str`, `serde_json::Value::pointer` and `serde_json::Value::as_str`.
#[verifier::external_body]
pub(crate) fn json_str(text: &str, pointer: &str) -> (string: Option<String>)
    ensures
        optional_text(string) == json_string(text@, pointer@),
{
    match serde_json::from_str::<Value>(text) {
        Ok(value) => value.pointer(pointer).and_then(|v| v.as_str()).map(|s| s.to_string()),
        Err(_) => None,
    }
}

/// Calls `serde_json::from_str`, `serde_json::Value::pointer` and `serde_json::Value::as_u64`.
#[verifier::external_body]
pub(crate) fn json_u64(text: &str, pointer: &str) -> (number: Option<u64>)
    ensures
        number == json_number(text@, pointer@),
{
    match serde_json::from_str::<Value>(text) {
        Ok(value) => value.pointer(pointer).and_then(|v| v.as_u64()),
        Err(_) => None,
    }
}

/// Calls `serde_json::from_str`, `serde_json::Value::pointer` and `serde_json::Value::as_bool`.
#[verifier::external_body]
pub(crate) fn json_bool(text: &str, pointer: &str) -> (truth: Option<bool>)
    ensures
        truth == json_truth(text@, pointer@),
{
    match serde_json::from_str::<Value>(text) {
        Ok(value) => value.pointer(pointer).and_then(|v| v.as_bool()),
        Err(_) => None,
    }
}

/// Calls `serde_json::from_str`, `serde_json::Value::pointer` and `serde_json::Value::as_array`,
/// and prints each element.
#[verifier::external_body]
pub(crate) fn json_array(text: &str, pointer: &str) -> (elements: Option<Vec<String>>)
    ensures
        match elements {
            Some(list) => json_elements(text@, pointer@) == Some(crate::text::texts(list@)),
            None => json_elements(text@, pointer@) is None,
        },
{
    match serde_json::from_str::<Value>(text) {
        Ok(value) => value.pointer(pointer).and_then(|v| v.as_array()).map(
            |a| a.iter().map(|v| v.to_string()).collect(),
        ),
        Err(_) => None,
    }
}

/// Whether the compact text of a JSON value is that of an object, or of `null`. Only such a value
/// takes a new member.
pub open spec fn takes_members(compact: Seq<char>) -> bool {
    compact == "null"@ || crate::text::begins_with(compact, "{"@)
}

/// Whether the member `outer` of a JSON text can be given members: the text is an object or
/// `null`, and so is its member, if it has one.
pub open spec fn takes_inner_members(text: Seq<char>, outer: Seq<char>) -> bool {
    &&& json_member(text, ""@) matches Some(Some(whole)) && takes_members(whole)
    &&& match json_member(text, "/"@ + outer) {
        Some(Some(inner)) => takes_members(inner),
        _ => true,
    }
}

/// Whether a key stands for itself in a JSON pointer, and is none that the crate keeps for its own
/// ends: those begin with `$`.
pub open spec fn is_plain_key(key: Seq<char>) -> bool {
    !key.contains('/') && !key.contains('~') && !key.contains('$')
}

/// Whether the crate reads what it prints of a JSON text. It does not where a value is nested too
/// deeply, where a fraction is printed that is out of range, or where an object holds a key that
/// the crate keeps for its own ends.
pub open spec fn prints_readably(text: Seq<char>) -> bool {
    json_member(text, ""@) matches Some(Some(whole)) && json_fault(whole) is None
}

/// Whether each of some JSON texts stands for a string.
pub open spec fn are_strings(list: Seq<Seq<char>>) -> bool {
    forall|i: int| 0 <= i < list.len() ==> json_string(#[trigger] list[i], ""@) is Some
}

/// Whether a source gives a string, an array of strings, `null`, or nothing.
pub open spec fn is_textual(source: Option<(Seq<char>, Seq<char>)>) -> bool {
    match source {
        Some((body, pointer)) => match json_member(body, pointer) {
            Some(Some(m)) => m == "null"@ || json_string(body, pointer) is Some || (json_elements(
                body,
                pointer,
            ) matches Some(list) && are_strings(list)),
            _ => true,
        },
        None => true,
    }
}

/// Whether a pointer is neither a place nor below it.
pub open spec fn is_apart(pointer: Seq<char>, place: Seq<char>) -> bool {
    pointer != place && !crate::text::begins_with(pointer, place + "/"@)
}

/// The strings of a list of JSON texts; what is no string is left out.
pub open spec fn strings_of(list: Seq<Seq<char>>) -> Seq<Seq<char>>
    decreases list.len(),
{
    if list.len() == 0 {
        Seq::empty()
    } else {
        match json_string(list.last(), ""@) {
            Some(s) => strings_of(list.drop_last()).push(s),
            None => strings_of(list.drop_last()),
        }
    }
}

/// The strings of the array at a pointer of a JSON text.
pub open spec fn strings_at(text: Seq<char>, pointer: Seq<char>) -> Seq<Seq<char>> {
    match json_elements(text, pointer) {
        Some(list) => strings_of(list),
        None => Seq::empty(),
    }
}

/// Whether two JSON texts have the same at a pointer, as far as that is a string, an unsigned
/// integer, a truth value, or the strings of an array.
pub open spec fn reads_alike(a: Seq<char>, b: Seq<char>, pointer: Seq<char>) -> bool {
    &&& json_string(a, pointer) == json_string(b, pointer)
    &&& json_number(a, pointer) == json_number(b, pointer)
    &&& json_truth(a, pointer) == json_truth(b, pointer)
    &&& strings_at(a, pointer) == strings_at(b, pointer)
}

/// Whether a JSON text holds after a change what it held before, but for a place.
pub open spec fn stays_elsewhere(before: Seq<char>, after: Seq<char>, place: Seq<char>) -> bool {
    forall|pointer: Seq<char>|
        is_apart(pointer, place) ==> #[trigger] reads_alike(after, before, pointer)
}

/// The string that a source gives.
pub open spec fn given_string(source: Option<(Seq<char>, Seq<char>)>) -> Option<Seq<char>> {
    match source {
        Some((body, pointer)) => json_string(body, pointer),
        None => None,
    }
}

/// The strings of the array that a source gives.
pub open spec fn given_strings(source: Option<(Seq<char>, Seq<char>)>) -> Seq<Seq<char>> {
    match source {
        Some((body, pointer)) => strings_at(body, pointer),
        None => Seq::empty(),
    }
}

/// Whether a JSON text is another one with the member at a place taken from a source: it reads
/// there as the source does, and elsewhere as before.
pub open spec fn is_set_to(
    before: Seq<char>,
    after: Seq<char>,
    place: Seq<char>,
    source: Option<(Seq<char>, Seq<char>)>,
) -> bool {
    &&& json_string(after, place) == given_string(source)
    &&& strings_at(after, place) == given_strings(source)
    &&& stays_elsewhere(before, after, place)
}

/// The texts of a source.
pub open spec fn source_texts(source: Option<(&str, &str)>) -> Option<(Seq<char>, Seq<char>)> {
    match source {
        Some((body, pointer)) => Some((body@, pointer@)),
        None => None,
    }
}

/// Calls `serde_json::from_str` for the text and for the body of the source, sets the member by
/// indexing to a clone of what `serde_json::Value::pointer` finds in the body, or to the default
/// value of the crate, `null`, and calls `serde_json::to_string_pretty`. It refuses a text that is
/// no JSON with the message of the crate. Indexing by a key panics on a value that is no object
/// and not `null`, so such texts are left out.
///
/// Where the crate reads what it printed, the member is what was set and the rest is as before; the
/// text and its member `outer` are objects then, and take members again. It does read it where it reads what it prints of the text, and the source is textual. Of
/// fractions, which may be printed and read back with another last digit, and of the order and
/// the white space in the print, nothing more is said than the name.
#[verifier::external_body]
pub(crate) fn json_set(text: &str, outer: &str, key: &str, source: Option<(&str, &str)>) -> (edited:
    Result<String, String>)
    requires
        json_fault(text@) is None ==> takes_inner_members(text@, outer@),
        is_plain_key(outer@),
        is_plain_key(key@),
    ensures
        match edited {
            Ok(t) => {
                &&& json_fault(text@) is None
                &&& t@ == json_with_member(text@, outer@, key@, source_texts(source))
                &&& json_fault(t@) is None ==> is_set_to(
                    text@,
                    t@,
                    "/"@ + outer@ + "/"@ + key@,
                    source_texts(source),
                )
                &&& json_fault(t@) is None ==> takes_inner_members(t@, outer@)
                &&& prints_readably(text@) && is_textual(source_texts(source)) ==> json_fault(
                    t@,
                ) is None
            },
            Err(message) => json_fault(text@) == Some(message@),
        },
{
    let mut whole = serde_json::from_str::<Value>(text).map_err(|e| e.to_string())?;
    let found = source.and_then(
        |(body, pointer)|
            serde_json::from_str::<Value>(body).ok().and_then(|b| b.pointer(pointer).cloned()),
    );
    whole[outer][key] = found.unwrap_or_default();
    serde_json::to_string_pretty(&whole).map_err(|e| e.to_string())
}

/// Calls `serde_json::Value::from` for a string and prints the value. What it prints is JSON, and
/// reads as the string.
#[verifier::external_body]
pub(crate) fn json_from_str(text: &str) -> (json: String)
    ensures
        json@ == json_of_string(text@),
        json_fault(json@) is None,
        json_string(json@, ""@) == Some(text@),
{
    Value::from(text).to_string()
}

/// Whether some JSON texts stand for some strings, one for one.
pub open spec fn stand_for_strings(list: Seq<Seq<char>>, strings: Seq<Seq<char>>) -> bool {
    &&& list.len() == strings.len()
    &&& forall|i: int|
        0 <= i < list.len() ==> json_string(#[trigger] list[i], ""@) == Some(strings[i])
}

/// Whether a JSON text is an array of some strings.
pub open spec fn reads_as_strings(text: Seq<char>, strings: Seq<Seq<char>>) -> bool {
    json_elements(text, ""@) matches Some(list) && stand_for_strings(list, strings)
}

/// Calls `serde_json::Value::from` for a list of strings and prints the value. What it prints is
/// JSON, and reads as an array of those strings.
#[verifier::external_body]
pub(crate) fn json_from_list(list: Vec<String>) -> (json: String)
    ensures
        json@ == json_of_strings(crate::text::texts(list@)),
        json_fault(json@) is None,
        reads_as_strings(json@, crate::text::texts(list@)),
{
    Value::from(list).to_string()
}

} // verus!
