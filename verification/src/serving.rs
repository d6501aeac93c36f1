//! Tool-call parsing: turning a model's raw text output into
//! `(name, arguments_json)` pairs.
//!
//! The trained form is `<tool_call>…</tool_call>` around a JSON or an XML
//! (Hermes) body. A text without any such envelope may still hold a call: a bare
//! or fenced JSON object of the tool-call shape, the same object with quotes
//! that were not escaped, or a function name on a line of its own followed by a
//! JSON object.

use crate::json::{
    entries_map, member, pairs, parse_json, parsed, rendered, string_in, Json, JsonTree,
};
use crate::text::{
    char_is_ascii_alnum, char_is_ascii_white, chars_of, copy, find, find_from, find_from_is_least,
    is_ascii_alnum, is_ascii_white, occurs_at, position, stands_at, substr, trim, trim_bounds,
    trim_str, trimmed, views,
};
use vstd::prelude::*;

verus! {

pub const TOOL_OPEN: &'static str = "<tool_call>";

pub const TOOL_CLOSE: &'static str = "</tool_call>";

// ---------------------------------------------------------------------------
// Mathematical model
// ---------------------------------------------------------------------------

/// The name of a tool and the text of its arguments.
pub type Call = (Seq<char>, Seq<char>);

/// The contents of a list of calls.
pub open spec fn calls(v: Seq<(String, String)>) -> Seq<Call> {
    Seq::new(v.len(), |i: int| (v[i].0@, v[i].1@))
}

pub open spec fn call(c: Option<(String, String)>) -> Option<Call> {
    match c {
        Some(c) => Some((c.0@, c.1@)),
        None => None,
    }
}

/// A call where there is one.
pub open spec fn at_most_one(c: Option<Call>) -> Seq<Call> {
    match c {
        Some(c) => seq![c],
        None => Seq::empty(),
    }
}

/// The arguments of a JSON object of the tool-call shape: `arguments`, else its
/// alias `parameters`.
pub open spec fn arguments_of(t: JsonTree) -> Option<JsonTree> {
    match member(t, "arguments"@) {
        Some(a) => Some(a),
        None => member(t, "parameters"@),
    }
}

/// The call that a JSON value stands for: it needs a non-empty string `name`.
/// With `strict` the arguments must be there and be an object; otherwise they
/// default to `{}`.
pub open spec fn call_in_tree(t: JsonTree, strict: bool) -> Option<Call> {
    match string_in(member(t, "name"@)) {
        Some(name) => if name.len() == 0 {
            None
        } else {
            match arguments_of(t) {
                Some(a) => if strict && !(a is Object) {
                    None
                } else {
                    Some((name, rendered(a)))
                },
                None => if strict {
                    None
                } else {
                    Some((name, "{}"@))
                },
            }
        },
        None => None,
    }
}

/// The call that a JSON text stands for.
pub open spec fn call_in_json(text: Seq<char>, strict: bool) -> Option<Call> {
    match parsed(text) {
        Some(t) => call_in_tree(t, strict),
        None => None,
    }
}

/// The value of an XML parameter: JSON where it reads as JSON, else a string.
pub open spec fn parameter_value(text: Seq<char>) -> JsonTree {
    match parsed(text) {
        Some(t) => t,
        None => JsonTree::Str(text),
    }
}

/// The `<parameter=KEY>VALUE</parameter>` entries of `s` from `at` on, up to the
/// first that is not complete.
pub open spec fn parameters(s: Seq<char>, at: int) -> Seq<(Seq<char>, JsonTree)>
    decreases s.len() - at,
    when 0 <= at
    via parameters_decreases
{
    match find_from(s, "<parameter="@, at) {
        Some(open) => {
            let key = open + "<parameter="@.len();
            match find_from(s, ">"@, key) {
                Some(key_end) => {
                    let value = key_end + 1;
                    match find_from(s, "</parameter>"@, value) {
                        Some(close) => seq![
                            (
                                trim(s.subrange(key, key_end)),
                                parameter_value(trim(s.subrange(value, close))),
                            ),
                        ] + parameters(s, close + "</parameter>"@.len()),
                        None => Seq::empty(),
                    }
                },
                None => Seq::empty(),
            }
        },
        None => Seq::empty(),
    }
}

#[via_fn]
proof fn parameters_decreases(s: Seq<char>, at: int) {
    reveal_strlit(">");
    find_from_is_least(s, "<parameter="@, at);
    if let Some(open) = find_from(s, "<parameter="@, at) {
        let key = open + "<parameter="@.len();
        find_from_is_least(s, ">"@, key);
        if let Some(key_end) = find_from(s, ">"@, key) {
            find_from_is_least(s, "</parameter>"@, key_end + 1);
        }
    }
}

/// The call of the XML form `<function=NAME> <parameter=KEY>VALUE</parameter> …`.
pub open spec fn call_in_xml(s: Seq<char>) -> Option<Call> {
    match find(s, "<function="@) {
        Some(open) => {
            let name = open + "<function="@.len();
            match find_from(s, ">"@, name) {
                Some(name_end) => {
                    let n = trim(s.subrange(name, name_end));
                    if n.len() == 0 {
                        None
                    } else {
                        Some(
                            (
                                n,
                                rendered(
                                    JsonTree::Object(entries_map(parameters(s, name_end + 1))),
                                ),
                            ),
                        )
                    }
                },
                None => None,
            }
        },
        None => None,
    }
}

/// The call that the text inside an envelope stands for: its JSON form, else its
/// XML form.
pub open spec fn call_in_body(body: Seq<char>) -> Option<Call> {
    match call_in_json(body, false) {
        Some(c) => Some(c),
        None => call_in_xml(body),
    }
}

/// The calls of the `<tool_call>…</tool_call>` envelopes of `s` from `at` on. An
/// envelope that is never closed reaches to the end.
pub open spec fn enveloped_calls(s: Seq<char>, at: int) -> Seq<Call>
    decreases s.len() - at,
    when 0 <= at
    via enveloped_calls_decreases
{
    match find_from(s, TOOL_OPEN@, at) {
        Some(open) => {
            let body = open + TOOL_OPEN@.len();
            match find_from(s, TOOL_CLOSE@, body) {
                Some(close) => at_most_one(call_in_body(trim(s.subrange(body, close))))
                    + enveloped_calls(s, close + TOOL_CLOSE@.len()),
                None => at_most_one(call_in_body(trim(s.subrange(body, s.len() as int)))),
            }
        },
        None => Seq::empty(),
    }
}

#[via_fn]
proof fn enveloped_calls_decreases(s: Seq<char>, at: int) {
    reveal_strlit("<tool_call>");
    find_from_is_least(s, TOOL_OPEN@, at);
    if let Some(open) = find_from(s, TOOL_OPEN@, at) {
        find_from_is_least(s, TOOL_CLOSE@, open + TOOL_OPEN@.len());
    }
}

/// Position of the `}` that closes the object whose scan stands at `j`, `depth`
/// braces being open; braces inside a JSON string do not count.
pub open spec fn object_end(s: Seq<char>, j: int, depth: int, in_str: bool, esc: bool) -> Option<int>
    decreases s.len() - j,
{
    if j < 0 || j >= s.len() {
        None
    } else if in_str {
        object_end(s, j + 1, depth, esc || s[j] != '"', !esc && s[j] == '\\')
    } else if s[j] == '"' {
        object_end(s, j + 1, depth, true, false)
    } else if s[j] == '{' {
        object_end(s, j + 1, depth + 1, false, false)
    } else if s[j] == '}' {
        if depth == 1 {
            Some(j)
        } else {
            object_end(s, j + 1, depth - 1, false, false)
        }
    } else {
        object_end(s, j + 1, depth, false, false)
    }
}

pub proof fn object_end_bounds(s: Seq<char>, j: int, depth: int, in_str: bool, esc: bool)
    ensures
        match object_end(s, j, depth, in_str, esc) {
            Some(e) => j <= e < s.len() && s[e] == '}',
            None => true,
        },
    decreases s.len() - j,
{
    if j < 0 || j >= s.len() {
    } else if in_str {
        object_end_bounds(s, j + 1, depth, esc || s[j] != '"', !esc && s[j] == '\\');
    } else if s[j] == '"' {
        object_end_bounds(s, j + 1, depth, true, false);
    } else if s[j] == '{' {
        object_end_bounds(s, j + 1, depth + 1, false, false);
    } else if s[j] == '}' && depth != 1 {
        object_end_bounds(s, j + 1, depth - 1, false, false);
    } else if s[j] != '}' {
        object_end_bounds(s, j + 1, depth, false, false);
    }
}

/// The outermost balanced `{…}` parts of `s` from `i` on. A brace that is never
/// closed ends the list.
pub open spec fn objects_from(s: Seq<char>, i: int) -> Seq<Seq<char>>
    decreases s.len() - i,
    when 0 <= i
    via objects_from_decreases
{
    if i >= s.len() {
        Seq::empty()
    } else if s[i] == '{' {
        match object_end(s, i, 0, false, false) {
            Some(e) => seq![s.subrange(i, e + 1)] + objects_from(s, e + 1),
            None => Seq::empty(),
        }
    } else {
        objects_from(s, i + 1)
    }
}

#[via_fn]
proof fn objects_from_decreases(s: Seq<char>, i: int) {
    object_end_bounds(s, i, 0, false, false);
}

/// The calls that a list of JSON objects stands for, in order.
pub open spec fn strict_calls(objects: Seq<Seq<char>>) -> Seq<Call>
    decreases objects.len(),
{
    if objects.len() == 0 {
        Seq::empty()
    } else {
        strict_calls(objects.drop_last()) + at_most_one(call_in_json(objects.last(), true))
    }
}

/// The first position at or after `i` that holds no white space.
pub open spec fn skip_white(s: Seq<char>, i: int) -> int
    decreases s.len() - i,
{
    if 0 <= i < s.len() && is_ascii_white(s[i]) {
        skip_white(s, i + 1)
    } else {
        i
    }
}

/// The first `{` at or after `i` whose first key is `name`.
pub open spec fn name_brace(s: Seq<char>, i: int) -> Option<int>
    decreases s.len() - i,
{
    if i < 0 || i >= s.len() {
        None
    } else if s[i] == '{' && occurs_at(s, "\"name\""@, skip_white(s, i + 1)) {
        Some(i)
    } else {
        name_brace(s, i + 1)
    }
}

/// The quote at `i`, inside a string, closes it: what follows is `:`, `}`, `]`,
/// the end, or a `,` and the next key's quote.
pub open spec fn closes_string(s: Seq<char>, i: int) -> bool {
    let j = skip_white(s, i + 1);
    if j >= s.len() {
        true
    } else if s[j] == ',' {
        let k = skip_white(s, j + 1);
        k < s.len() && s[k] == '"'
    } else {
        s[j] == ':' || s[j] == '}' || s[j] == ']'
    }
}

/// What stands for the character at `i` in the repaired text: inside a string a
/// quote that does not close it is escaped, a newline, tab or carriage return
/// becomes its escape, and other control characters go.
pub open spec fn repaired_char(s: Seq<char>, i: int, in_str: bool, esc: bool) -> Seq<char> {
    if !in_str || esc || s[i] == '\\' {
        seq![s[i]]
    } else if s[i] == '"' {
        if closes_string(s, i) {
            seq!['"']
        } else {
            seq!['\\', '"']
        }
    } else if s[i] == '\n' {
        seq!['\\', 'n']
    } else if s[i] == '\t' {
        seq!['\\', 't']
    } else if s[i] == '\r' {
        seq!['\\', 'r']
    } else if (s[i] as u32) < 0x20 {
        Seq::empty()
    } else {
        seq![s[i]]
    }
}

/// The repaired text of the object that opens at or before `i`, `done` being
/// what was repaired so far, and the position behind its closing brace; `None`
/// if it never balances.
pub open spec fn repaired_from(
    s: Seq<char>,
    i: int,
    depth: int,
    in_str: bool,
    esc: bool,
    done: Seq<char>,
) -> Option<(Seq<char>, int)>
    decreases s.len() - i,
{
    if i < 0 || i >= s.len() {
        None
    } else {
        let out = done + repaired_char(s, i, in_str, esc);
        if in_str {
            let closed = !esc && s[i] == '"' && closes_string(s, i);
            repaired_from(s, i + 1, depth, !closed, !esc && s[i] == '\\', out)
        } else if s[i] == '"' {
            repaired_from(s, i + 1, depth, true, false, out)
        } else if s[i] == '{' {
            repaired_from(s, i + 1, depth + 1, false, false, out)
        } else if s[i] == '}' {
            if depth == 1 {
                Some((out, i + 1))
            } else {
                repaired_from(s, i + 1, depth - 1, false, false, out)
            }
        } else {
            repaired_from(s, i + 1, depth, false, false, out)
        }
    }
}

pub open spec fn repaired(s: Seq<char>, start: int) -> Option<(Seq<char>, int)> {
    repaired_from(s, start, 0, false, false, Seq::empty())
}

pub proof fn repaired_from_bounds(
    s: Seq<char>,
    i: int,
    depth: int,
    in_str: bool,
    esc: bool,
    done: Seq<char>,
)
    ensures
        match repaired_from(s, i, depth, in_str, esc, done) {
            Some((_, e)) => i < e <= s.len(),
            None => true,
        },
    decreases s.len() - i,
{
    if i < 0 || i >= s.len() {
    } else {
        let out = done + repaired_char(s, i, in_str, esc);
        if in_str {
            let closed = !esc && s[i] == '"' && closes_string(s, i);
            repaired_from_bounds(s, i + 1, depth, !closed, !esc && s[i] == '\\', out);
        } else if s[i] == '"' {
            repaired_from_bounds(s, i + 1, depth, true, false, out);
        } else if s[i] == '{' {
            repaired_from_bounds(s, i + 1, depth + 1, false, false, out);
        } else if s[i] == '}' {
            if depth != 1 {
                repaired_from_bounds(s, i + 1, depth - 1, false, false, out);
            }
        } else {
            repaired_from_bounds(s, i + 1, depth, false, false, out);
        }
    }
}

pub proof fn name_brace_bounds(s: Seq<char>, i: int)
    ensures
        match name_brace(s, i) {
            Some(p) => i <= p < s.len() && s[p] == '{',
            None => true,
        },
    decreases s.len() - i,
{
    if i < 0 || i >= s.len() {
    } else if s[i] == '{' && occurs_at(s, "\"name\""@, skip_white(s, i + 1)) {
    } else {
        name_brace_bounds(s, i + 1);
    }
}

/// The calls of the objects that open with a `name` key, each repaired first,
/// from `i` on, up to the first that never balances.
pub open spec fn repaired_calls(s: Seq<char>, i: int) -> Seq<Call>
    decreases s.len() - i,
    when 0 <= i
    via repaired_calls_decreases
{
    match name_brace(s, i) {
        Some(start) => match repaired(s, start) {
            Some((text, end)) => at_most_one(call_in_json(text, true)) + repaired_calls(s, end),
            None => Seq::empty(),
        },
        None => Seq::empty(),
    }
}

#[via_fn]
proof fn repaired_calls_decreases(s: Seq<char>, i: int) {
    name_brace_bounds(s, i);
    if let Some(start) = name_brace(s, i) {
        repaired_from_bounds(s, start, 0, false, false, Seq::empty());
    }
}

pub open spec fn is_name_char(c: char) -> bool {
    is_ascii_alnum(c) || c == '_' || c == '.' || c == '-'
}

pub open spec fn is_bare_name(s: Seq<char>) -> bool {
    s.len() > 0 && forall|i: int| 0 <= i < s.len() ==> is_name_char(#[trigger] s[i])
}

/// A bare name on the first line and one JSON object on the rest.
pub open spec fn call_in_lines(t: Seq<char>) -> Option<Call> {
    match find(t, "\n"@) {
        Some(nl) => {
            let name = trim(t.subrange(0, nl));
            let args = trim(t.subrange(nl + 1, t.len() as int));
            match parsed(args) {
                Some(v) => if is_bare_name(name) && v is Object {
                    Some((name, args))
                } else {
                    None
                },
                None => None,
            }
        },
        None => None,
    }
}

/// The first fenced block of `s`, from `at` on, that holds a name and an object.
pub open spec fn call_in_fences(s: Seq<char>, at: int) -> Option<Call>
    decreases s.len() - at,
    when 0 <= at
    via call_in_fences_decreases
{
    match find_from(s, "```"@, at) {
        Some(open) => match find_from(s, "\n"@, open + 3) {
            Some(nl) => match find_from(s, "```"@, nl + 1) {
                Some(close) => match call_in_lines(trim(s.subrange(nl + 1, close))) {
                    Some(c) => Some(c),
                    None => call_in_fences(s, close + 3),
                },
                None => call_in_lines(trim(s.subrange(nl + 1, s.len() as int))),
            },
            None => None,
        },
        None => None,
    }
}

#[via_fn]
proof fn call_in_fences_decreases(s: Seq<char>, at: int) {
    reveal_strlit("```");
    reveal_strlit("\n");
    find_from_is_least(s, "```"@, at);
    if let Some(open) = find_from(s, "```"@, at) {
        find_from_is_least(s, "\n"@, open + 3);
        if let Some(nl) = find_from(s, "\n"@, open + 3) {
            find_from_is_least(s, "```"@, nl + 1);
        }
    }
}

/// A name and an object as the whole text, else inside a fenced block.
pub open spec fn bare_call(s: Seq<char>) -> Option<Call> {
    match call_in_lines(trim(s)) {
        Some(c) => Some(c),
        None => call_in_fences(s, 0),
    }
}

/// The calls of a text without envelopes: well-formed objects; where there are
/// none, repaired ones; where there are none either, a bare name and an object.
pub open spec fn loose_calls(s: Seq<char>) -> Seq<Call> {
    let strict = strict_calls(objects_from(s, 0));
    if strict.len() > 0 {
        strict
    } else {
        let mended = repaired_calls(s, 0);
        if mended.len() > 0 {
            mended
        } else {
            at_most_one(bare_call(s))
        }
    }
}

/// The calls of a text. Without an envelope the loose forms are tried; with one
/// they never are.
pub open spec fn tool_calls(s: Seq<char>) -> Seq<Call> {
    if find(s, TOOL_OPEN@) is Some {
        enveloped_calls(s, 0)
    } else {
        loose_calls(s)
    }
}

// ---------------------------------------------------------------------------
// Bodies
// ---------------------------------------------------------------------------

/// The call that a JSON value stands for. With `strict` its arguments must be an
/// object, so that ordinary JSON content is not taken for a call.
pub fn tool_call_from_value(v: &Json, strict: bool) -> (r: Option<(String, String)>)
    ensures
        call(r) == call_in_tree(v@, strict),
{
    let name = match v.get_str("name") {
        Some(name) => name.clone(),
        None => {
            return None;
        },
    };
    if name.as_str().is_empty() {
        return None;
    }
    let args = match v.get("arguments") {
        Some(a) => Some(a),
        None => v.get("parameters"),
    };
    match args {
        Some(a) => {
            if strict && !a.is_object() {
                return None;
            }
            Some((name, a.to_text()))
        },
        None => {
            if strict {
                return None;
            }
            Some((name, copy("{}")))
        },
    }
}

fn call_from_json(text: &str, strict: bool) -> (r: Option<(String, String)>)
    ensures
        call(r) == call_in_json(text@, strict),
{
    match parse_json(text) {
        Some(v) => tool_call_from_value(&v, strict),
        None => None,
    }
}

fn xml_parameters(v: &Vec<char>, start: usize) -> (r: Vec<(String, Json)>)
    requires
        start <= v.len(),
    ensures
        pairs(r@) == parameters(v@, start as int),
{
    proof {
        reveal_strlit("<parameter=");
        reveal_strlit(">");
        reveal_strlit("</parameter>");
    }
    let mut args: Vec<(String, Json)> = Vec::new();
    let mut at: usize = start;
    loop
        invariant
            start <= at <= v.len(),
            "<parameter="@.len() == 11,
            ">"@.len() == 1,
            "</parameter>"@.len() == 12,
            parameters(v@, start as int) == pairs(args@) + parameters(v@, at as int),
        ensures
            pairs(args@) == parameters(v@, start as int),
        decreases v.len() - at,
    {
        let open = match position(v, "<parameter=", at) {
            Some(open) => open,
            None => {
                assert(pairs(args@) + Seq::empty() =~= pairs(args@));
                break;
            },
        };
        let key: usize = open + 11;
        let key_end = match position(v, ">", key) {
            Some(key_end) => key_end,
            None => {
                assert(pairs(args@) + Seq::empty() =~= pairs(args@));
                break;
            },
        };
        let value: usize = key_end + 1;
        let close = match position(v, "</parameter>", value) {
            Some(close) => close,
            None => {
                assert(pairs(args@) + Seq::empty() =~= pairs(args@));
                break;
            },
        };
        let k = trimmed(v, key, key_end);
        let text = trimmed(v, value, close);
        let val = match parse_json(text.as_str()) {
            Some(j) => j,
            None => Json::Str(text),
        };
        let ghost before = args@;
        args.push((k, val));
        at = close + 12;
        proof {
            assert(args@.drop_last() =~= before);
            let entry = (k@, val@);
            assert(pairs(args@) == pairs(before).push(entry));
            assert(pairs(before) + (seq![entry] + parameters(v@, at as int)) =~= pairs(before).push(
                entry,
            ) + parameters(v@, at as int));
        }
    }
    args
}

/// XML form: `<function=NAME> <parameter=KEY>VALUE</parameter> … </function>`.
fn parse_xml_function(body: &str) -> (r: Option<(String, String)>)
    ensures
        call(r) == call_in_xml(body@),
{
    proof {
        reveal_strlit("<function=");
        reveal_strlit(">");
    }
    let v = chars_of(body);
    let open = match position(&v, "<function=", 0) {
        Some(open) => open,
        None => {
            return None;
        },
    };
    let start: usize = open + 10;
    let end = match position(&v, ">", start) {
        Some(end) => end,
        None => {
            return None;
        },
    };
    let name = trimmed(&v, start, end);
    if name.as_str().is_empty() {
        return None;
    }
    let args = Json::Object(xml_parameters(&v, end + 1));
    Some((name, args.to_text()))
}

/// Parses the text inside `<tool_call>…</tool_call>` into
/// `(name, arguments_json)`, in either of its two forms:
///   - JSON: `{"name":"f","arguments":{…}}` (`"parameters"` is an alias)
///   - XML: `<function=f><parameter=k>v</parameter>…</function>`
pub fn parse_tool_call_body(body: &str) -> (r: Option<(String, String)>)
    ensures
        call(r) == call_in_body(body@),
{
    match call_from_json(body, false) {
        Some(c) => Some(c),
        None => parse_xml_function(body),
    }
}

/// Just the tool name of a JSON body.
pub fn tool_name(body: &str) -> (r: Option<String>)
    ensures
        match parsed(trim(body@)) {
            Some(t) => match string_in(member(t, "name"@)) {
                Some(n) => r matches Some(s) && s@ == n,
                None => r is None,
            },
            None => r is None,
        },
{
    let t = trim_str(body);
    match parse_json(t.as_str()) {
        Some(v) => tool_name_in(&v),
        None => None,
    }
}

/// The string member `name` of a JSON value.
pub fn tool_name_in(v: &Json) -> (r: Option<String>)
    ensures
        match string_in(member(v@, "name"@)) {
            Some(n) => r matches Some(s) && s@ == n,
            None => r is None,
        },
{
    match v.get_str("name") {
        Some(s) => Some(s.clone()),
        None => None,
    }
}

// ---------------------------------------------------------------------------
// Loose forms
// ---------------------------------------------------------------------------

fn close_of_object(v: &Vec<char>, start: usize) -> (r: Option<usize>)
    requires
        start < v.len(),
        v@[start as int] == '{',
    ensures
        match r {
            Some(e) => object_end(v@, start as int, 0, false, false) == Some(e as int) && start <= e
                < v.len(),
            None => object_end(v@, start as int, 0, false, false) is None,
        },
{
    let mut depth: usize = 0;
    let mut in_str: bool = false;
    let mut esc: bool = false;
    let mut j: usize = start;
    while j < v.len()
        invariant
            start <= j <= v.len(),
            start < v.len(),
            v@[start as int] == '{',
            depth <= j - start,
            j > start ==> depth >= 1,
            !in_str ==> !esc,
            j == start ==> !in_str,
            object_end(v@, start as int, 0, false, false) == object_end(
                v@,
                j as int,
                depth as int,
                in_str,
                esc,
            ),
        decreases v.len() - j,
    {
        let c = v[j];
        if in_str {
            if esc {
                esc = false;
            } else if c == '\\' {
                esc = true;
            } else if c == '"' {
                in_str = false;
            }
        } else if c == '"' {
            in_str = true;
        } else if c == '{' {
            depth = depth + 1;
        } else if c == '}' {
            if depth == 1 {
                return Some(j);
            }
            depth = depth - 1;
        }
        j = j + 1;
    }
    None
}

/// Every outermost balanced `{…}` part of a text.
fn balanced_json_objects(v: &Vec<char>) -> (r: Vec<String>)
    ensures
        views(r@) == objects_from(v@, 0),
{
    let mut out: Vec<String> = Vec::new();
    let mut i: usize = 0;
    while i < v.len()
        invariant
            i <= v.len(),
            objects_from(v@, 0) == views(out@) + objects_from(v@, i as int),
        decreases v.len() - i,
    {
        if v[i] == '{' {
            match close_of_object(v, i) {
                Some(e) => {
                    let ghost before = out@;
                    let ghost at = i as int;
                    let part = substr(v, i, e + 1);
                    out.push(part);
                    i = e + 1;
                    proof {
                        assert(views(out@) =~= views(before).push(part@));
                        assert(views(before) + (seq![part@] + objects_from(v@, i as int))
                            =~= views(before).push(part@) + objects_from(v@, i as int));
                    }
                },
                None => {
                    assert(views(out@) + Seq::empty() =~= views(out@));
                    return out;
                },
            }
        } else {
            i = i + 1;
        }
    }
    assert(objects_from(v@, i as int) =~= Seq::empty());
    assert(views(out@) + Seq::empty() =~= views(out@));
    out
}

fn after_white(v: &Vec<char>, i: usize) -> (r: usize)
    requires
        i <= v.len(),
    ensures
        r == skip_white(v@, i as int),
        i <= r <= v.len(),
{
    let mut j: usize = i;
    while j < v.len() && char_is_ascii_white(v[j])
        invariant
            i <= j <= v.len(),
            skip_white(v@, i as int) == skip_white(v@, j as int),
        decreases v.len() - j,
    {
        j = j + 1;
    }
    j
}

/// Position of a `{` whose first key is `name`, at or after `at`.
fn find_name_brace(v: &Vec<char>, at: usize) -> (r: Option<usize>)
    requires
        at <= v.len(),
    ensures
        match r {
            Some(p) => name_brace(v@, at as int) == Some(p as int) && at <= p < v.len(),
            None => name_brace(v@, at as int) is None,
        },
{
    let key = chars_of("\"name\"");
    let mut i: usize = at;
    while i < v.len()
        invariant
            at <= i <= v.len(),
            key@ == "\"name\""@,
            name_brace(v@, at as int) == name_brace(v@, i as int),
        decreases v.len() - i,
    {
        if v[i] == '{' {
            let j = after_white(v, i + 1);
            if stands_at(v, &key, j) {
                return Some(i);
            }
        }
        i = i + 1;
    }
    None
}

fn quote_closes(v: &Vec<char>, i: usize) -> (r: bool)
    requires
        i < v.len(),
    ensures
        r == closes_string(v@, i as int),
{
    let j = after_white(v, i + 1);
    if j >= v.len() {
        return true;
    }
    if v[j] == ',' {
        let k = after_white(v, j + 1);
        return k < v.len() && v[k] == '"';
    }
    v[j] == ':' || v[j] == '}' || v[j] == ']'
}

/// Scans a possibly malformed JSON object from its `{` at `start`, escaping the
/// quotes and control characters that stand raw inside its strings, and gives
/// the repaired text and the position behind the closing `}`.
pub fn repair_tool_object(v: &Vec<char>, start: usize) -> (r: Option<(String, usize)>)
    requires
        start < v.len(),
        v@[start as int] == '{',
    ensures
        match r {
            Some((text, end)) => repaired(v@, start as int) == Some((text@, end as int)) && start
                < end <= v.len(),
            None => repaired(v@, start as int) is None,
        },
{
    let mut out: String = String::new();
    let mut depth: usize = 0;
    let mut in_str: bool = false;
    let mut esc: bool = false;
    let mut i: usize = start;
    while i < v.len()
        invariant
            start <= i <= v.len(),
            start < v.len(),
            v@[start as int] == '{',
            depth <= i - start,
            i > start ==> depth >= 1,
            !in_str ==> !esc,
            i == start ==> !in_str,
            repaired(v@, start as int) == repaired_from(
                v@,
                i as int,
                depth as int,
                in_str,
                esc,
                out@,
            ),
        decreases v.len() - i,
    {
        let c = v[i];
        let ghost done = out@;
        let ghost piece = repaired_char(v@, i as int, in_str, esc);
        if in_str {
            if esc {
                out.push(c);
                esc = false;
                assert(out@ =~= done + piece);
            } else if c == '\\' {
                out.push(c);
                esc = true;
                assert(out@ =~= done + piece);
            } else if c == '"' {
                if quote_closes(v, i) {
                    out.push('"');
                    in_str = false;
                } else {
                    out.push('\\');
                    out.push('"');
                }
                assert(out@ =~= done + piece);
            } else if c == '\n' {
                out.push('\\');
                out.push('n');
                assert(out@ =~= done + piece);
            } else if c == '\t' {
                out.push('\\');
                out.push('t');
                assert(out@ =~= done + piece);
            } else if c == '\r' {
                out.push('\\');
                out.push('r');
                assert(out@ =~= done + piece);
            } else if (c as u32) < 0x20 {
                assert(out@ =~= done + piece);
            } else {
                out.push(c);
                assert(out@ =~= done + piece);
            }
        } else {
            out.push(c);
            assert(out@ =~= done + piece);
            if c == '"' {
                in_str = true;
            } else if c == '{' {
                depth = depth + 1;
            } else if c == '}' {
                if depth == 1 {
                    return Some((out, i + 1));
                }
                depth = depth - 1;
            }
        }
        i = i + 1;
    }
    None
}

/// `<bare name>\n<json-object>`, already trimmed.
fn glm_name_json(t: &str) -> (r: Option<(String, String)>)
    ensures
        call(r) == call_in_lines(t@),
{
    proof {
        reveal_strlit("\n");
    }
    let v = chars_of(t);
    let nl = match position(&v, "\n", 0) {
        Some(nl) => nl,
        None => {
            return None;
        },
    };
    let (a, b) = trim_bounds(&v, 0, nl);
    let args = trimmed(&v, nl + 1, v.len());
    let ghost name = trim(t@.subrange(0, nl as int));
    assert(name == v@.subrange(a as int, b as int));
    if a == b {
        return None;
    }
    let mut i: usize = a;
    while i < b
        invariant
            a <= i <= b <= v.len(),
            name == v@.subrange(a as int, b as int),
            v@ == t@,
            find(v@, "\n"@) == Some(nl as int),
            name == trim(v@.subrange(0, nl as int)),
            forall|k: int| 0 <= k < i - a ==> is_name_char(#[trigger] name[k]),
        decreases b - i,
    {
        let c = v[i];
        assert(name[i - a] == c);
        if !(char_is_ascii_alnum(c) || c == '_' || c == '.' || c == '-') {
            assert(!is_bare_name(name));
            return None;
        }
        i = i + 1;
    }
    match parse_json(args.as_str()) {
        Some(j) => {
            if j.is_object() {
                Some((substr(&v, a, b), args))
            } else {
                None
            }
        },
        None => None,
    }
}

/// A `<name>\n<json-object>` block: the whole output, or inside a fence.
fn parse_glm_tool_call(text: &str) -> (r: Option<(String, String)>)
    ensures
        call(r) == bare_call(text@),
{
    proof {
        reveal_strlit("\n");
        reveal_strlit("```");
    }
    let t = trim_str(text);
    match glm_name_json(t.as_str()) {
        Some(c) => {
            return Some(c);
        },
        None => {},
    }
    let v = chars_of(text);
    let mut at: usize = 0;
    loop
        invariant
            at <= v.len(),
            v@ == text@,
            "\n"@.len() == 1,
            "```"@.len() == 3,
            bare_call(text@) == call_in_fences(v@, at as int),
        decreases v.len() - at,
    {
        let open = match position(&v, "```", at) {
            Some(open) => open,
            None => {
                return None;
            },
        };
        let nl = match position(&v, "\n", open + 3) {
            Some(nl) => nl,
            None => {
                return None;
            },
        };
        match position(&v, "```", nl + 1) {
            Some(close) => {
                let inner = trimmed(&v, nl + 1, close);
                match glm_name_json(inner.as_str()) {
                    Some(c) => {
                        return Some(c);
                    },
                    None => {},
                }
                at = close + 3;
            },
            None => {
                let inner = trimmed(&v, nl + 1, v.len());
                return glm_name_json(inner.as_str());
            },
        }
    }
}

fn strict_object_calls(objects: &Vec<String>) -> (r: Vec<(String, String)>)
    ensures
        calls(r@) == strict_calls(views(objects@)),
{
    let mut out: Vec<(String, String)> = Vec::new();
    let mut i: usize = 0;
    while i < objects.len()
        invariant
            i <= objects.len(),
            calls(out@) == strict_calls(views(objects@).subrange(0, i as int)),
        decreases objects.len() - i,
    {
        let ghost before = out@;
        let ghost part = views(objects@).subrange(0, i + 1);
        assert(part.drop_last() =~= views(objects@).subrange(0, i as int));
        assert(part.last() == objects@[i as int]@);
        match call_from_json(objects[i].as_str(), true) {
            Some(c) => {
                out.push(c);
                assert(calls(out@) =~= calls(before) + seq![(c.0@, c.1@)]);
            },
            None => {
                assert(calls(out@) =~= calls(before) + Seq::empty());
            },
        }
        i = i + 1;
    }
    assert(views(objects@).subrange(0, i as int) =~= views(objects@));
    out
}

fn repaired_object_calls(v: &Vec<char>) -> (r: Vec<(String, String)>)
    ensures
        calls(r@) == repaired_calls(v@, 0),
{
    let mut out: Vec<(String, String)> = Vec::new();
    let mut i: usize = 0;
    assert(calls(out@) + repaired_calls(v@, 0) =~= repaired_calls(v@, 0));
    loop
        invariant
            i <= v.len(),
            repaired_calls(v@, 0) == calls(out@) + repaired_calls(v@, i as int),
        decreases v.len() - i,
    {
        let start = match find_name_brace(v, i) {
            Some(start) => start,
            None => {
                assert(calls(out@) + Seq::empty() =~= calls(out@));
                return out;
            },
        };
        proof {
            name_brace_bounds(v@, i as int);
        }
        match repair_tool_object(v, start) {
            Some((text, end)) => {
                let ghost before = out@;
                let ghost one = at_most_one(call_in_json(text@, true));
                match call_from_json(text.as_str(), true) {
                    Some(c) => {
                        out.push(c);
                        assert(calls(out@) =~= calls(before) + one);
                    },
                    None => {
                        assert(calls(out@) =~= calls(before) + one);
                    },
                }
                i = end;
                assert(calls(before) + (one + repaired_calls(v@, i as int)) =~= (calls(before)
                    + one) + repaired_calls(v@, i as int));
            },
            None => {
                assert(calls(out@) + Seq::empty() =~= calls(out@));
                return out;
            },
        }
    }
}

/// Tool-call-shaped JSON anywhere in a text without envelopes.
fn parse_loose_tool_calls(text: &str) -> (r: Vec<(String, String)>)
    ensures
        calls(r@) == loose_calls(text@),
{
    let v = chars_of(text);
    let strict = strict_object_calls(&balanced_json_objects(&v));
    if strict.len() > 0 {
        return strict;
    }
    let mut out = repaired_object_calls(&v);
    if out.len() > 0 {
        return out;
    }
    match parse_glm_tool_call(text) {
        Some(c) => {
            out.push(c);
            assert(calls(out@) =~= seq![(c.0@, c.1@)]);
        },
        None => {
            assert(calls(out@) =~= Seq::empty());
        },
    }
    out
}

// ---------------------------------------------------------------------------
// Whole texts
// ---------------------------------------------------------------------------

/// Parses the tool calls of a model's raw output into `(name, arguments_json)`
/// pairs. The loose forms are recovered only where the text holds no
/// `<tool_call>` envelope at all, so a JSON example beside a call is never taken
/// for one.
pub fn parse_tool_calls(text: &str) -> (r: Vec<(String, String)>)
    ensures
        calls(r@) == tool_calls(text@),
{
    proof {
        reveal_strlit("<tool_call>");
        reveal_strlit("</tool_call>");
    }
    let v = chars_of(text);
    if position(&v, TOOL_OPEN, 0).is_none() {
        return parse_loose_tool_calls(text);
    }
    let mut out: Vec<(String, String)> = Vec::new();
    let mut at: usize = 0;
    assert(calls(out@) + enveloped_calls(v@, 0) =~= enveloped_calls(v@, 0));
    loop
        invariant
            at <= v.len(),
            v@ == text@,
            TOOL_OPEN@.len() == 11,
            TOOL_CLOSE@.len() == 12,
            find(v@, TOOL_OPEN@) is Some,
            enveloped_calls(v@, 0) == calls(out@) + enveloped_calls(v@, at as int),
        decreases v.len() - at,
    {
        let open = match position(&v, TOOL_OPEN, at) {
            Some(open) => open,
            None => {
                assert(calls(out@) + Seq::empty() =~= calls(out@));
                return out;
            },
        };
        let start: usize = open + 11;
        let close = position(&v, TOOL_CLOSE, start);
        let end: usize = match close {
            Some(c) => c,
            None => v.len(),
        };
        let body = trimmed(&v, start, end);
        let ghost before = out@;
        let ghost one = at_most_one(call_in_body(body@));
        match parse_tool_call_body(body.as_str()) {
            Some(c) => {
                out.push(c);
                assert(calls(out@) =~= calls(before) + one);
            },
            None => {
                assert(calls(out@) =~= calls(before) + one);
            },
        }
        match close {
            Some(c) => {
                at = c + 12;
                assert(calls(before) + (one + enveloped_calls(v@, at as int)) =~= (calls(before)
                    + one) + enveloped_calls(v@, at as int));
            },
            None => {
                return out;
            },
        }
    }
}

// ---------------------------------------------------------------------------
// Laws
// ---------------------------------------------------------------------------

/// Every call has a name.
pub open spec fn all_named(c: Seq<Call>) -> bool {
    forall|i: int| 0 <= i < c.len() ==> (#[trigger] c[i]).0.len() > 0
}

/// Whatever the text, no call without a name comes out of it.
pub proof fn every_call_is_named(s: Seq<char>)
    ensures
        all_named(tool_calls(s)),
{
    enveloped_calls_are_named(s, 0);
    strict_calls_are_named(objects_from(s, 0));
    repaired_calls_are_named(s, 0);
    bare_call_is_named(s, 0);
}

proof fn enveloped_calls_are_named(s: Seq<char>, at: int)
    requires
        0 <= at,
    ensures
        all_named(enveloped_calls(s, at)),
    decreases s.len() - at,
{
    if let Some(open) = find_from(s, TOOL_OPEN@, at) {
        reveal_strlit("<tool_call>");
        find_from_is_least(s, TOOL_OPEN@, at);
        let body = open + TOOL_OPEN@.len();
        if let Some(close) = find_from(s, TOOL_CLOSE@, body) {
            find_from_is_least(s, TOOL_CLOSE@, body);
            enveloped_calls_are_named(s, close + TOOL_CLOSE@.len());
        }
    }
}

proof fn strict_calls_are_named(objects: Seq<Seq<char>>)
    ensures
        all_named(strict_calls(objects)),
    decreases objects.len(),
{
    if objects.len() > 0 {
        strict_calls_are_named(objects.drop_last());
    }
}

proof fn repaired_calls_are_named(s: Seq<char>, i: int)
    requires
        0 <= i,
    ensures
        all_named(repaired_calls(s, i)),
    decreases s.len() - i,
{
    name_brace_bounds(s, i);
    if let Some(start) = name_brace(s, i) {
        repaired_from_bounds(s, start, 0, false, false, Seq::empty());
        if let Some((_, end)) = repaired(s, start) {
            repaired_calls_are_named(s, end);
        }
    }
}

proof fn bare_call_is_named(s: Seq<char>, at: int)
    requires
        0 <= at,
    ensures
        call_in_fences(s, at) matches Some(c) ==> c.0.len() > 0,
        bare_call(s) matches Some(c) ==> at == 0 ==> c.0.len() > 0,
    decreases s.len() - at,
{
    reveal_strlit("```");
    reveal_strlit("\n");
    find_from_is_least(s, "```"@, at);
    if let Some(open) = find_from(s, "```"@, at) {
        find_from_is_least(s, "\n"@, open + 3);
        if let Some(nl) = find_from(s, "\n"@, open + 3) {
            find_from_is_least(s, "```"@, nl + 1);
            if let Some(close) = find_from(s, "```"@, nl + 1) {
                bare_call_is_named(s, close + 3);
            }
        }
    }
}

/// The loose forms count only in a text without envelopes: a text with one gives
/// the calls of its envelopes and nothing else.
pub proof fn envelopes_suppress_loose_forms(s: Seq<char>)
    ensures
        find(s, TOOL_OPEN@) is Some ==> tool_calls(s) == enveloped_calls(s, 0),
        find(s, TOOL_OPEN@) is None ==> tool_calls(s) == loose_calls(s),
{
}

/// A balanced part starts with `{` and ends with `}`.
pub proof fn objects_are_braced(s: Seq<char>, i: int, k: int)
    requires
        0 <= i,
        0 <= k < objects_from(s, i).len(),
    ensures
        objects_from(s, i)[k].len() >= 2,
        objects_from(s, i)[k][0] == '{',
        objects_from(s, i)[k].last() == '}',
    decreases s.len() - i,
{
    if s[i] == '{' {
        object_end_bounds(s, i, 0, false, false);
        if let Some(e) = object_end(s, i, 0, false, false) {
            if k > 0 {
                objects_are_braced(s, e + 1, k - 1);
            }
        }
    } else {
        objects_are_braced(s, i + 1, k);
    }
}

/// No raw quote, newline, tab or other control character of a string survives a
/// repair: what stands for such a character inside a string is empty or an
/// escape.
pub proof fn repair_escapes(s: Seq<char>, i: int)
    requires
        0 <= i < s.len(),
        (s[i] as u32) < 0x20 || (s[i] == '"' && !closes_string(s, i)),
    ensures
        repaired_char(s, i, true, false).len() == 0 || repaired_char(s, i, true, false)[0] == '\\',
{
}

/// A closed envelope around a body.
pub open spec fn block(body: Seq<char>) -> Seq<char> {
    TOOL_OPEN@ + body + TOOL_CLOSE@
}

/// A text of closed envelopes, one behind the other.
pub open spec fn blocks_text(bodies: Seq<Seq<char>>) -> Seq<char>
    decreases bodies.len(),
{
    if bodies.len() == 0 {
        Seq::empty()
    } else {
        block(bodies[0]) + blocks_text(bodies.drop_first())
    }
}

/// The calls of bodies, in order.
pub open spec fn block_calls(bodies: Seq<Seq<char>>) -> Seq<Call>
    decreases bodies.len(),
{
    if bodies.len() == 0 {
        Seq::empty()
    } else {
        at_most_one(call_in_body(trim(bodies[0]))) + block_calls(bodies.drop_first())
    }
}

/// No body closes its envelope early.
pub open spec fn all_closed(bodies: Seq<Seq<char>>) -> bool {
    forall|i: int| 0 <= i < bodies.len() ==> find(#[trigger] bodies[i], TOOL_CLOSE@) is None
}

/// A text of closed envelopes gives the calls of their bodies, in the order of the
/// text; where every body holds a call, one for each envelope.
pub proof fn closed_blocks_give_their_calls(bodies: Seq<Seq<char>>)
    requires
        all_closed(bodies),
    ensures
        tool_calls(blocks_text(bodies)) == block_calls(bodies),
        (forall|i: int|
            0 <= i < bodies.len() ==> call_in_body(trim(#[trigger] bodies[i])) is Some) ==> {
            &&& block_calls(bodies).len() == bodies.len()
            &&& forall|i: int|
                0 <= i < bodies.len() ==> Some(#[trigger] block_calls(bodies)[i]) == call_in_body(
                    trim(bodies[i]),
                )
        },
{
    let s = blocks_text(bodies);
    blocks_are_read(Seq::empty(), bodies);
    assert(Seq::<char>::empty() + s =~= s);
    if bodies.len() == 0 {
        nothing_holds_no_call();
    } else {
        reveal_strlit("<tool_call>");
        assert(s.subrange(0, 11) =~= TOOL_OPEN@);
        assert(occurs_at(s, TOOL_OPEN@, 0));
    }
    if forall|i: int| 0 <= i < bodies.len() ==> call_in_body(trim(#[trigger] bodies[i])) is Some {
        every_block_counts(bodies);
    }
}

/// The calls of two texts of closed envelopes put together are the calls of the
/// first, and then those of the second.
pub proof fn calls_of_blocks_add_up(a: Seq<Seq<char>>, b: Seq<Seq<char>>)
    requires
        all_closed(a),
        all_closed(b),
    ensures
        tool_calls(blocks_text(a) + blocks_text(b)) == tool_calls(blocks_text(a)) + tool_calls(
            blocks_text(b),
        ),
{
    let both = a + b;
    assert forall|i: int| 0 <= i < both.len() implies find(
        #[trigger] both[i],
        TOOL_CLOSE@,
    ) is None by {
        if i < a.len() {
            assert(both[i] == a[i]);
        } else {
            assert(both[i] == b[i - a.len()]);
        }
    }
    closed_blocks_give_their_calls(a);
    closed_blocks_give_their_calls(b);
    closed_blocks_give_their_calls(both);
    blocks_join(a, b);
}

proof fn blocks_join(a: Seq<Seq<char>>, b: Seq<Seq<char>>)
    ensures
        blocks_text(a + b) == blocks_text(a) + blocks_text(b),
        block_calls(a + b) == block_calls(a) + block_calls(b),
    decreases a.len(),
{
    if a.len() == 0 {
        assert(a + b =~= b);
        assert(blocks_text(a) + blocks_text(b) =~= blocks_text(b));
        assert(block_calls(a) + block_calls(b) =~= block_calls(b));
    } else {
        blocks_join(a.drop_first(), b);
        assert((a + b).drop_first() =~= a.drop_first() + b);
        assert(blocks_text(a + b) =~= blocks_text(a) + blocks_text(b));
        assert(block_calls(a + b) =~= block_calls(a) + block_calls(b));
    }
}

proof fn every_block_counts(bodies: Seq<Seq<char>>)
    requires
        forall|i: int| 0 <= i < bodies.len() ==> call_in_body(trim(#[trigger] bodies[i])) is Some,
    ensures
        block_calls(bodies).len() == bodies.len(),
        forall|i: int|
            0 <= i < bodies.len() ==> Some(#[trigger] block_calls(bodies)[i]) == call_in_body(
                trim(bodies[i]),
            ),
    decreases bodies.len(),
{
    if bodies.len() > 0 {
        let rest = bodies.drop_first();
        assert forall|i: int| 0 <= i < rest.len() implies call_in_body(
            trim(#[trigger] rest[i]),
        ) is Some by {
            assert(rest[i] == bodies[i + 1]);
        }
        every_block_counts(rest);
        assert forall|i: int| 0 <= i < bodies.len() implies Some(
            #[trigger] block_calls(bodies)[i],
        ) == call_in_body(trim(bodies[i])) by {
            if i > 0 {
                assert(block_calls(bodies)[i] == block_calls(rest)[i - 1]);
                assert(rest[i - 1] == bodies[i]);
            }
        }
    }
}

/// The empty text holds no call.
proof fn nothing_holds_no_call()
    ensures
        tool_calls(Seq::empty()) == Seq::<Call>::empty(),
{
    reveal_strlit("<tool_call>");
    reveal_strlit("\n");
    reveal_strlit("```");
    let e = Seq::<char>::empty();
    assert(objects_from(e, 0) =~= Seq::empty());
    assert(trim(e) =~= e);
    assert(call_in_lines(e) is None);
    assert(call_in_fences(e, 0) is None);
}

/// Closed envelopes behind `head` are read one after the other.
proof fn blocks_are_read(head: Seq<char>, bodies: Seq<Seq<char>>)
    requires
        all_closed(bodies),
    ensures
        enveloped_calls(head + blocks_text(bodies), head.len() as int) == block_calls(bodies),
    decreases bodies.len(),
{
    reveal_strlit("<tool_call>");
    reveal_strlit("</tool_call>");
    let s = head + blocks_text(bodies);
    let h = head.len() as int;
    if bodies.len() > 0 {
        let body = bodies[0];
        let rest = bodies.drop_first();
        let o = TOOL_OPEN@;
        let c = TOOL_CLOSE@;
        let upto = head + block(body);
        assert(s =~= upto + blocks_text(rest));
        assert(s.subrange(h, h + 11) =~= o);
        assert(find_from(s, o, h) == Some(h));
        let first = h + 11;
        let end = first + body.len() as int;
        assert(s.subrange(first, end) =~= body);
        assert(s.subrange(end, end + 12) =~= c);
        assert(occurs_at(s, c, end));
        find_from_is_least(body, c, 0);
        assert forall|j: int| first <= j < end implies !occurs_at(s, c, j) by {
            if occurs_at(s, c, j) {
                if j + 12 <= end {
                    assert(s.subrange(j, j + 12) =~= body.subrange(j - first, j - first + 12));
                    assert(occurs_at(body, c, j - first));
                } else {
                    let k = end - j;
                    assert(s[end] == '<') by {
                        assert(s.subrange(end, end + 12)[0] == c[0]);
                    }
                    assert(s.subrange(j, j + 12)[k] == '<');
                    assert(c[k] != '<');
                }
            }
        }
        find_from_is_least(s, c, first);
        assert(find_from(s, c, first) == Some(end));
        assert forall|i: int| 0 <= i < rest.len() implies find(#[trigger] rest[i], c) is None by {
            assert(rest[i] == bodies[i + 1]);
        }
        blocks_are_read(upto, rest);
        assert(upto.len() == end + 12);
    } else {
        assert(find_from(s, TOOL_OPEN@, h) is None);
    }
}

/// A repair ends behind a closing brace, and repairing what was repaired changes
/// nothing.
pub proof fn repairing_again_changes_nothing(s: Seq<char>, start: int)
    requires
        repaired(s, start) is Some,
    ensures
        ({
            let (text, end) = repaired(s, start)->Some_0;
            &&& start < end <= s.len()
            &&& s[end - 1] == '}'
            &&& repaired(text, 0) == Some((text, text.len() as int))
        }),
{
    repaired_from_bounds(s, start, 0, false, false, Seq::empty());
    repair_is_kept(s, start, 0, false, false, Seq::empty());
}

/// The text repaired so far is the first part of the repaired text.
proof fn repair_begins(s: Seq<char>, i: int, depth: int, in_str: bool, esc: bool, done: Seq<char>)
    requires
        repaired_from(s, i, depth, in_str, esc, done) is Some,
    ensures
        ({
            let (text, end) = repaired_from(s, i, depth, in_str, esc, done)->Some_0;
            &&& done.len() + repaired_char(s, i, in_str, esc).len() <= text.len()
            &&& text.subrange(
                0,
                (done + repaired_char(s, i, in_str, esc)).len() as int,
            ) == done + repaired_char(s, i, in_str, esc)
            &&& s[end - 1] == '}'
        }),
    decreases s.len() - i,
{
    let out = done + repaired_char(s, i, in_str, esc);
    let (text, end) = repaired_from(s, i, depth, in_str, esc, done)->Some_0;
    if in_str {
        let closed = !esc && s[i] == '"' && closes_string(s, i);
        repair_begins(s, i + 1, depth, !closed, !esc && s[i] == '\\', out);
    } else if s[i] == '"' {
        repair_begins(s, i + 1, depth, true, false, out);
    } else if s[i] == '{' {
        repair_begins(s, i + 1, depth + 1, false, false, out);
    } else if s[i] == '}' {
        if depth != 1 {
            repair_begins(s, i + 1, depth - 1, false, false, out);
        }
    } else {
        repair_begins(s, i + 1, depth, false, false, out);
    }
    if in_str || s[i] != '}' || depth != 1 {
        let next_in = if in_str {
            esc || s[i] != '"' || !closes_string(s, i)
        } else {
            s[i] == '"'
        };
        let w = out + repaired_char(s, i + 1, next_in, in_str && !esc && s[i] == '\\');
        assert forall|k: int| 0 <= k < out.len() implies text[k] == out[k] by {
            assert(text.subrange(0, w.len() as int)[k] == w[k]);
        }
    }
    assert(text.subrange(0, out.len() as int) =~= out);
}

/// Outside a string white space is kept.
proof fn white_is_kept(s: Seq<char>, i: int, depth: int, done: Seq<char>)
    requires
        repaired_from(s, i, depth, false, false, done) is Some,
    ensures
        ({
            let j = skip_white(s, i);
            &&& i <= j < s.len()
            &&& !is_ascii_white(s[j])
            &&& forall|k: int| i <= k < j ==> is_ascii_white(#[trigger] s[k])
            &&& repaired_from(s, j, depth, false, false, done + s.subrange(i, j)) == repaired_from(
                s,
                i,
                depth,
                false,
                false,
                done,
            )
        }),
    decreases s.len() - i,
{
    if is_ascii_white(s[i]) {
        let out = done + seq![s[i]];
        white_is_kept(s, i + 1, depth, out);
        let j = skip_white(s, i + 1);
        assert(out + s.subrange(i + 1, j) =~= done + s.subrange(i, j));
    } else {
        assert(done + s.subrange(i, i) =~= done);
    }
}

/// Behind a string the repaired text goes on as the text does: what comes next,
/// white space aside, is the same.
proof fn next_is_kept(s: Seq<char>, i: int, depth: int, done: Seq<char>)
    requires
        repaired_from(s, i, depth, false, false, done) is Some,
    ensures
        ({
            let (text, _) = repaired_from(s, i, depth, false, false, done)->Some_0;
            let j = skip_white(s, i);
            let k = skip_white(text, done.len() as int);
            &&& i <= j < s.len()
            &&& k == done.len() + (j - i)
            &&& k < text.len()
            &&& text[k] == s[j]
        }),
{
    let (text, _) = repaired_from(s, i, depth, false, false, done)->Some_0;
    white_is_kept(s, i, depth, done);
    let j = skip_white(s, i);
    let upto = done + s.subrange(i, j);
    repair_begins(s, j, depth, false, false, upto);
    let w = upto + seq![s[j]];
    assert(text.subrange(0, w.len() as int) == w);
    let b = done.len() + (j - i);
    assert forall|k: int| 0 <= k < w.len() implies text[k] == w[k] by {
        assert(text.subrange(0, w.len() as int)[k] == w[k]);
    }
    assert forall|k: int| done.len() <= k < b implies is_ascii_white(#[trigger] text[k]) by {
        assert(text[k] == w[k]);
        assert(w[k] == s[i + (k - done.len())]);
    }
    assert(text[b] == w[b]);
    skipping_stops_or_ends(text, done.len() as int, b);
}

/// A quote that closes a string still closes it in the repaired text.
proof fn closing_is_kept(s: Seq<char>, i: int, depth: int, done: Seq<char>)
    requires
        0 <= i < s.len(),
        closes_string(s, i),
        repaired_from(s, i + 1, depth, false, false, done.push('"')) is Some,
    ensures
        closes_string(
            repaired_from(s, i + 1, depth, false, false, done.push('"'))->Some_0.0,
            done.len() as int,
        ),
{
    let out = done.push('"');
    let (text, _) = repaired_from(s, i + 1, depth, false, false, out)->Some_0;
    next_is_kept(s, i + 1, depth, out);
    let j = skip_white(s, i + 1);
    if s[j] == ',' {
        white_is_kept(s, i + 1, depth, out);
        let upto = (out + s.subrange(i + 1, j)) + seq![','];
        next_is_kept(s, j + 1, depth, upto);
    }
}

/// Repairing the repaired text goes through the same states.
proof fn repair_is_kept(s: Seq<char>, i: int, depth: int, in_str: bool, esc: bool, done: Seq<char>)
    requires
        repaired_from(s, i, depth, in_str, esc, done) is Some,
    ensures
        ({
            let (text, end) = repaired_from(s, i, depth, in_str, esc, done)->Some_0;
            &&& s[end - 1] == '}'
            &&& repaired_from(text, done.len() as int, depth, in_str, esc, done) == Some(
                (text, text.len() as int),
            )
        }),
    decreases s.len() - i,
{
    let piece = repaired_char(s, i, in_str, esc);
    let out = done + piece;
    let n = done.len() as int;
    let (text, end) = repaired_from(s, i, depth, in_str, esc, done)->Some_0;
    repair_begins(s, i, depth, in_str, esc, done);
    assert forall|k: int| 0 <= k < out.len() implies text[k] == out[k] by {
        assert(text.subrange(0, out.len() as int)[k] == out[k]);
    }
    if piece.len() > 0 {
        assert(text[n] == piece[0]) by {
            assert(text[n] == out[n]);
        }
    }
    if in_str {
        let closed = !esc && s[i] == '"' && closes_string(s, i);
        repair_is_kept(s, i + 1, depth, !closed, !esc && s[i] == '\\', out);
        if closed {
            assert(out =~= done.push('"'));
            closing_is_kept(s, i, depth, done);
        } else if piece.len() == 2 {
            let half = done + seq!['\\'];
            assert(text[n + 1] == piece[1]) by {
                assert(text[n + 1] == out[n + 1]);
            }
            assert(half + seq![piece[1]] =~= out);
            assert(repaired_char(text, n, true, false) == seq!['\\']);
            assert(repaired_char(text, n + 1, true, true) == seq![piece[1]]);
            assert(repaired_from(text, n + 1, depth, true, true, half) == repaired_from(
                text,
                n + 2,
                depth,
                true,
                false,
                out,
            ));
        } else if piece.len() == 0 {
            assert(out =~= done);
        }
    } else if s[i] == '"' {
        repair_is_kept(s, i + 1, depth, true, false, out);
    } else if s[i] == '{' {
        repair_is_kept(s, i + 1, depth + 1, false, false, out);
    } else if s[i] == '}' {
        if depth != 1 {
            repair_is_kept(s, i + 1, depth - 1, false, false, out);
        }
    } else {
        repair_is_kept(s, i + 1, depth, false, false, out);
    }
}

/// The calls of two lists of objects put together are those of the first, followed
/// by those of the second.
pub proof fn object_calls_add_up(a: Seq<Seq<char>>, b: Seq<Seq<char>>)
    ensures
        strict_calls(a + b) == strict_calls(a) + strict_calls(b),
    decreases b.len(),
{
    if b.len() == 0 {
        assert(a + b =~= a);
        assert(strict_calls(a) + strict_calls(b) =~= strict_calls(a));
    } else {
        object_calls_add_up(a, b.drop_last());
        assert((a + b).drop_last() =~= a + b.drop_last());
        assert(strict_calls(a + b) =~= strict_calls(a) + strict_calls(b));
    }
}

/// Every object of the tool-call shape is a call. In a text without an envelope
/// whose outermost objects each have a name and an object of arguments, there are
/// as many calls as objects, and each is the name and the arguments of its object,
/// in the order of the text.
pub proof fn every_object_is_a_call(s: Seq<char>, names: Seq<Seq<char>>, args: Seq<JsonTree>)
    requires
        find(s, TOOL_OPEN@) is None,
        objects_from(s, 0).len() > 0,
        names.len() == objects_from(s, 0).len(),
        args.len() == objects_from(s, 0).len(),
        forall|k: int|
            0 <= k < names.len() ==> {
                &&& parsed(#[trigger] objects_from(s, 0)[k]) is Some
                &&& member(parsed(objects_from(s, 0)[k])->0, "name"@) == Some(
                    JsonTree::Str(names[k]),
                )
                &&& names[k].len() > 0
                &&& member(parsed(objects_from(s, 0)[k])->0, "arguments"@) == Some(args[k])
                &&& args[k] is Object
            },
    ensures
        tool_calls(s).len() == objects_from(s, 0).len(),
        forall|k: int|
            0 <= k < names.len() ==> (#[trigger] tool_calls(s)[k]).0 == names[k]
                && tool_calls(s)[k].1 == rendered(args[k]),
{
    let o = objects_from(s, 0);
    assert(o.subrange(0, o.len() as int) =~= o);
    first_objects_are_calls(o, names, args, o.len() as int);
}

proof fn first_objects_are_calls(
    o: Seq<Seq<char>>,
    names: Seq<Seq<char>>,
    args: Seq<JsonTree>,
    n: int,
)
    requires
        0 <= n <= o.len(),
        names.len() == o.len(),
        args.len() == o.len(),
        forall|k: int|
            0 <= k < names.len() ==> {
                &&& parsed(#[trigger] o[k]) is Some
                &&& member(parsed(o[k])->0, "name"@) == Some(JsonTree::Str(names[k]))
                &&& names[k].len() > 0
                &&& member(parsed(o[k])->0, "arguments"@) == Some(args[k])
                &&& args[k] is Object
            },
    ensures
        strict_calls(o.subrange(0, n)).len() == n,
        forall|k: int|
            0 <= k < n ==> #[trigger] strict_calls(o.subrange(0, n))[k] == (
                names[k],
                rendered(args[k]),
            ),
    decreases n,
{
    if n > 0 {
        first_objects_are_calls(o, names, args, n - 1);
        assert(o.subrange(0, n).drop_last() =~= o.subrange(0, n - 1));
        assert(o.subrange(0, n).last() == o[n - 1]);
        assert(call_in_json(o[n - 1], true) == Some((names[n - 1], rendered(args[n - 1]))));
    }
}

/// An object that is no JSON, or has no name, or no object of arguments, is no
/// call.
pub proof fn other_objects_are_no_calls(o: Seq<char>)
    requires
        match parsed(o) {
            Some(t) => {
                ||| !(member(t, "name"@) matches Some(JsonTree::Str(n)) && n.len() > 0)
                ||| {
                    &&& !(member(t, "arguments"@) matches Some(JsonTree::Object(_)))
                    &&& member(t, "arguments"@) is Some || !(member(
                        t,
                        "parameters"@,
                    ) matches Some(JsonTree::Object(_)))
                }
            },
            None => true,
        },
    ensures
        strict_calls(seq![o]).len() == 0,
{
    let none = Seq::<Seq<char>>::empty();
    assert(seq![o].drop_last() =~= none);
    assert(seq![o].last() == o);
    assert(strict_calls(none) =~= Seq::empty());
    assert(call_in_json(o, true) is None);
    assert(strict_calls(seq![o]) =~= Seq::empty());
}

/// The call of a JSON value has the value's name, and as its arguments the text of
/// `arguments`, else of `parameters`, else of an empty object; what has no name is
/// no call, and a strict call has an object of arguments.
pub proof fn a_call_is_what_its_value_says(t: JsonTree, strict: bool)
    ensures
        !(member(t, "name"@) is Some) ==> call_in_tree(t, strict) is None,
        forall|n: Seq<char>|
            member(t, "name"@) == Some(JsonTree::Str(n)) && n.len() > 0 ==> match (
                member(t, "arguments"@),
                member(t, "parameters"@),
            ) {
                (Some(a), _) => if strict && !(a is Object) {
                    #[trigger] call_in_tree(t, strict) is None
                } else {
                    call_in_tree(t, strict) == Some((n, rendered(a)))
                },
                (None, Some(a)) => if strict && !(a is Object) {
                    call_in_tree(t, strict) is None
                } else {
                    call_in_tree(t, strict) == Some((n, rendered(a)))
                },
                (None, None) => if strict {
                    call_in_tree(t, strict) is None
                } else {
                    call_in_tree(t, strict) == Some((n, "{}"@))
                },
            },
        call_in_tree(t, strict) matches Some(c) ==> member(t, "name"@) == Some(
            JsonTree::Str(c.0),
        ) && c.0.len() > 0,
{
}

/// A character or an escape of a JSON string.
pub enum Unit {
    Plain(char),
    Escaped(char),
}

/// A part of a JSON object: a character by itself, a string, or an object.
pub enum Piece {
    Mark(char),
    Text(Seq<Unit>),
    Object(Seq<Piece>),
}

pub open spec fn units_text(u: Seq<Unit>) -> Seq<char>
    decreases u.len(),
{
    if u.len() == 0 {
        Seq::empty()
    } else {
        units_text(u.drop_last()) + (match u.last() {
            Unit::Plain(c) => seq![c],
            Unit::Escaped(c) => seq!['\\', c],
        })
    }
}

pub open spec fn piece_text(p: Piece) -> Seq<char>
    decreases p,
{
    match p {
        Piece::Mark(c) => seq![c],
        Piece::Text(u) => seq!['"'] + units_text(u) + seq!['"'],
        Piece::Object(inner) => seq!['{'] + pieces_text(inner) + seq!['}'],
    }
}

/// What pieces are written as, one behind the other.
pub open spec fn pieces_text(p: Seq<Piece>) -> Seq<char>
    decreases p,
{
    if p.len() == 0 {
        Seq::empty()
    } else {
        pieces_text(p.drop_last()) + piece_text(p.last())
    }
}

/// Neither a quote nor a backslash stands by itself in a string.
pub open spec fn sound_units(u: Seq<Unit>) -> bool {
    forall|i: int|
        0 <= i < u.len() ==> match #[trigger] u[i] {
            Unit::Plain(c) => c != '"' && c != '\\',
            Unit::Escaped(_) => true,
        }
}

pub open spec fn sound_piece(p: Piece) -> bool
    decreases p,
{
    match p {
        Piece::Mark(c) => c != '"' && c != '{' && c != '}',
        Piece::Text(u) => sound_units(u),
        Piece::Object(inner) => sound_pieces(inner),
    }
}

/// No brace and no quote stands by itself outside the strings.
pub open spec fn sound_pieces(p: Seq<Piece>) -> bool
    decreases p,
{
    p.len() > 0 ==> sound_pieces(p.drop_last()) && sound_piece(p.last())
}

proof fn scanning_passes_units(s: Seq<char>, j: int, depth: int, u: Seq<Unit>)
    requires
        0 <= j,
        j + units_text(u).len() <= s.len(),
        s.subrange(j, j + units_text(u).len()) == units_text(u),
        sound_units(u),
    ensures
        object_end(s, j, depth, true, false) == object_end(
            s,
            j + units_text(u).len(),
            depth,
            true,
            false,
        ),
    decreases u.len(),
{
    if u.len() > 0 {
        let head = units_text(u.drop_last());
        let all = units_text(u);
        let at = j + head.len();
        assert(s.subrange(j, at) =~= head) by {
            assert(forall|k: int| 0 <= k < head.len() ==> s[j + k] == #[trigger] all[k]) by {
                assert forall|k: int| 0 <= k < head.len() implies s[j + k] == #[trigger] all[k] by {
                    assert(s.subrange(j, j + all.len())[k] == all[k]);
                }
            }
            assert(forall|k: int| 0 <= k < head.len() ==> #[trigger] all[k] == head[k]);
        }
        assert forall|k: int| 0 <= k < u.drop_last().len() implies match (
        #[trigger] u.drop_last()[k]) {
            Unit::Plain(c) => c != '"' && c != '\\',
            Unit::Escaped(_) => true,
        } by {
            assert(u.drop_last()[k] == u[k]);
        }
        scanning_passes_units(s, j, depth, u.drop_last());
        assert(u.last() == u[u.len() - 1]);
        assert(s[at] == s.subrange(j, j + all.len())[head.len() as int]);
        match u.last() {
            Unit::Plain(c) => {
                assert(s[at] == c);
            },
            Unit::Escaped(c) => {
                assert(s[at] == '\\');
                assert(s[at + 1] == s.subrange(j, j + all.len())[head.len() as int + 1]);
                assert(object_end(s, at, depth, true, false) == object_end(
                    s,
                    at + 1,
                    depth,
                    true,
                    true,
                ));
                assert(object_end(s, at + 1, depth, true, true) == object_end(
                    s,
                    at + 2,
                    depth,
                    true,
                    false,
                ));
            },
        }
    }
}

proof fn scanning_passes_piece(s: Seq<char>, j: int, depth: int, p: Piece)
    requires
        0 <= j,
        depth >= 1,
        j + piece_text(p).len() <= s.len(),
        s.subrange(j, j + piece_text(p).len()) == piece_text(p),
        sound_piece(p),
    ensures
        object_end(s, j, depth, false, false) == object_end(
            s,
            j + piece_text(p).len(),
            depth,
            false,
            false,
        ),
    decreases p,
{
    let t = piece_text(p);
    assert(forall|k: int| 0 <= k < t.len() ==> s[j + k] == #[trigger] t[k]) by {
        assert forall|k: int| 0 <= k < t.len() implies s[j + k] == #[trigger] t[k] by {
            assert(s.subrange(j, j + t.len())[k] == t[k]);
        }
    }
    match p {
        Piece::Mark(c) => {
            assert(s[j] == t[0]);
        },
        Piece::Text(u) => {
            let n = units_text(u).len() as int;
            assert(s[j] == t[0]);
            assert(s.subrange(j + 1, j + 1 + n) =~= units_text(u)) by {
                assert forall|k: int| 0 <= k < n implies s[j + 1 + k] == #[trigger] units_text(
                    u,
                )[k] by {
                    assert(t[k + 1] == units_text(u)[k]);
                }
            }
            scanning_passes_units(s, j + 1, depth, u);
            assert(s[j + 1 + n] == t[1 + n]);
            assert(t[1 + n] == '"');
        },
        Piece::Object(inner) => {
            let n = pieces_text(inner).len() as int;
            assert(s[j] == t[0]);
            assert(s.subrange(j + 1, j + 1 + n) =~= pieces_text(inner)) by {
                assert forall|k: int| 0 <= k < n implies s[j + 1 + k] == #[trigger] pieces_text(
                    inner,
                )[k] by {
                    assert(t[k + 1] == pieces_text(inner)[k]);
                }
            }
            scanning_passes_pieces(s, j + 1, depth + 1, inner);
            assert(s[j + 1 + n] == t[1 + n]);
            assert(t[1 + n] == '}');
        },
    }
}

proof fn scanning_passes_pieces(s: Seq<char>, j: int, depth: int, p: Seq<Piece>)
    requires
        0 <= j,
        depth >= 1,
        j + pieces_text(p).len() <= s.len(),
        s.subrange(j, j + pieces_text(p).len()) == pieces_text(p),
        sound_pieces(p),
    ensures
        object_end(s, j, depth, false, false) == object_end(
            s,
            j + pieces_text(p).len(),
            depth,
            false,
            false,
        ),
    decreases p,
{
    if p.len() > 0 {
        let head = pieces_text(p.drop_last());
        let last = piece_text(p.last());
        let all = pieces_text(p);
        assert(forall|k: int| 0 <= k < all.len() ==> s[j + k] == #[trigger] all[k]) by {
            assert forall|k: int| 0 <= k < all.len() implies s[j + k] == #[trigger] all[k] by {
                assert(s.subrange(j, j + all.len())[k] == all[k]);
            }
        }
        assert(s.subrange(j, j + head.len()) =~= head) by {
            assert forall|k: int| 0 <= k < head.len() implies s[j + k] == #[trigger] head[k] by {
                assert(all[k] == head[k]);
            }
        }
        let at = j + head.len();
        assert(s.subrange(at, at + last.len()) =~= last) by {
            assert forall|k: int| 0 <= k < last.len() implies s[at + k] == #[trigger] last[k] by {
                assert(all[head.len() + k] == last[k]);
            }
        }
        scanning_passes_pieces(s, j, depth, p.drop_last());
        scanning_passes_piece(s, at, depth, p.last());
    }
}

proof fn object_end_in_rest(s: Seq<char>, at: int, j: int, depth: int, in_str: bool, esc: bool)
    requires
        0 <= at <= s.len(),
        0 <= j,
    ensures
        object_end(s, at + j, depth, in_str, esc) == (match object_end(
            s.subrange(at, s.len() as int),
            j,
            depth,
            in_str,
            esc,
        ) {
            Some(e) => Some(at + e),
            None => None,
        }),
    decreases s.len() - at - j,
{
    let r = s.subrange(at, s.len() as int);
    if j < r.len() {
        assert(r[j] == s[at + j]);
        if in_str {
            object_end_in_rest(s, at, j + 1, depth, esc || s[at + j] != '"', !esc && s[at + j] == '\\');
        } else if s[at + j] == '"' {
            object_end_in_rest(s, at, j + 1, depth, true, false);
        } else if s[at + j] == '{' {
            object_end_in_rest(s, at, j + 1, depth + 1, false, false);
        } else if s[at + j] == '}' {
            if depth != 1 {
                object_end_in_rest(s, at, j + 1, depth - 1, false, false);
            }
        } else {
            object_end_in_rest(s, at, j + 1, depth, false, false);
        }
    }
}

proof fn objects_in_rest(s: Seq<char>, at: int, i: int)
    requires
        0 <= at <= s.len(),
        0 <= i,
    ensures
        objects_from(s, at + i) == objects_from(s.subrange(at, s.len() as int), i),
    decreases s.len() - at - i,
{
    let r = s.subrange(at, s.len() as int);
    if i < r.len() {
        assert(r[i] == s[at + i]);
        if r[i] == '{' {
            object_end_in_rest(s, at, i, 0, false, false);
            object_end_bounds(r, i, 0, false, false);
            if let Some(e) = object_end(r, i, 0, false, false) {
                objects_in_rest(s, at, e + 1);
                assert(r.subrange(i, e + 1) =~= s.subrange(at + i, at + e + 1));
            }
        } else {
            objects_in_rest(s, at, i + 1);
        }
    }
}

/// Every object is found whole, with all that is nested in it, whatever stands in
/// its strings: behind a text without braces, an object comes first, and then what
/// follows it is searched.
pub proof fn objects_are_found_whole(gap: Seq<char>, inner: Seq<Piece>, rest: Seq<char>)
    requires
        forall|i: int| 0 <= i < gap.len() ==> (#[trigger] gap[i]) != '{',
        sound_pieces(inner),
    ensures
        objects_from(gap + piece_text(Piece::Object(inner)) + rest, 0) == seq![
            piece_text(Piece::Object(inner)),
        ] + objects_from(rest, 0),
        objects_from(gap, 0).len() == 0,
{
    let o = piece_text(Piece::Object(inner));
    let s = gap + o + rest;
    let g = gap.len() as int;
    let n = pieces_text(inner).len() as int;
    assert(o.len() == n + 2);
    gaps_hold_no_object(s, 0, g);
    gaps_hold_no_object(gap, 0, g);
    assert(o[0] == '{');
    assert(s[g] == '{') by {
        assert(s[g] == o[0]);
    }
    assert(s.subrange(g + 1, g + 1 + n) =~= pieces_text(inner)) by {
        assert forall|k: int| 0 <= k < n implies s[g + 1 + k] == #[trigger] pieces_text(
            inner,
        )[k] by {
            assert(s[g + 1 + k] == o[1 + k]);
            assert(o[1 + k] == pieces_text(inner)[k]);
        }
    }
    scanning_passes_pieces(s, g + 1, 1, inner);
    assert(s[g + 1 + n] == '}') by {
        assert(s[g + 1 + n] == o[1 + n]);
        assert(o[1 + n] == '}');
    }
    let e = g + 1 + n;
    assert(object_end(s, g, 0, false, false) == Some(e));
    assert(s.subrange(g, e + 1) =~= o);
    objects_in_rest(s, e + 1, 0);
    assert(s.subrange(e + 1, s.len() as int) =~= rest);
}

proof fn gaps_hold_no_object(s: Seq<char>, i: int, g: int)
    requires
        0 <= i <= g <= s.len(),
        forall|k: int| i <= k < g ==> (#[trigger] s[k]) != '{',
    ensures
        objects_from(s, i) == objects_from(s, g),
    decreases g - i,
{
    if i < g {
        gaps_hold_no_object(s, i + 1, g);
    }
}

proof fn find_behind(head: Seq<char>, s: Seq<char>, p: Seq<char>, at: int)
    requires
        0 <= at,
    ensures
        find_from(head + s, p, head.len() + at) == (match find_from(s, p, at) {
            Some(i) => Some(head.len() + i),
            None => None,
        }),
    decreases s.len() + 1 - at,
{
    let w = head + s;
    let h = head.len() as int;
    if at + p.len() <= s.len() {
        assert(w.subrange(h + at, h + at + p.len()) =~= s.subrange(at, at + p.len()));
        if !occurs_at(s, p, at) {
            find_behind(head, s, p, at + 1);
        }
    }
}

/// Reading on behind a part of a text is reading the rest.
proof fn envelopes_in_rest(head: Seq<char>, s: Seq<char>, at: int)
    requires
        0 <= at,
    ensures
        enveloped_calls(head + s, head.len() + at) == enveloped_calls(s, at),
    decreases s.len() - at,
{
    reveal_strlit("<tool_call>");
    reveal_strlit("</tool_call>");
    let w = head + s;
    let h = head.len() as int;
    find_behind(head, s, TOOL_OPEN@, at);
    find_from_is_least(s, TOOL_OPEN@, at);
    if let Some(open) = find_from(s, TOOL_OPEN@, at) {
        let body = open + TOOL_OPEN@.len();
        find_behind(head, s, TOOL_CLOSE@, body);
        find_from_is_least(s, TOOL_CLOSE@, body);
        match find_from(s, TOOL_CLOSE@, body) {
            Some(close) => {
                assert(w.subrange(h + body, h + close) =~= s.subrange(body, close));
                envelopes_in_rest(head, s, close + TOOL_CLOSE@.len());
            },
            None => {
                assert(w.subrange(h + body, w.len() as int) =~= s.subrange(body, s.len() as int));
            },
        }
    }
}

/// The first place of a mark that begins with a character which does not occur in
/// it again, behind a text that does not hold the mark.
proof fn mark_is_found(gap: Seq<char>, mark: Seq<char>, rest: Seq<char>)
    requires
        mark.len() > 0,
        forall|k: int| 0 < k < mark.len() ==> (#[trigger] mark[k]) != mark[0],
        find(gap, mark) is None,
    ensures
        find(gap + mark + rest, mark) == Some(gap.len() as int),
{
    let s = gap + mark + rest;
    let g = gap.len() as int;
    let n = mark.len() as int;
    find_from_is_least(gap, mark, 0);
    find_from_is_least(s, mark, 0);
    assert(s.subrange(g, g + n) =~= mark);
    assert(occurs_at(s, mark, g));
    assert forall|j: int| 0 <= j < g implies !occurs_at(s, mark, j) by {
        if occurs_at(s, mark, j) {
            if j + n <= g {
                assert(s.subrange(j, j + n) =~= gap.subrange(j, j + n));
                assert(occurs_at(gap, mark, j));
            } else {
                let k = g - j;
                assert(s[g] == mark[0]);
                assert(s.subrange(j, j + n)[k] == mark[k]);
            }
        }
    }
}

/// Whatever stands before and behind it, a closed envelope gives the call of its
/// body where it stands, and then come the calls of what follows.
pub proof fn an_envelope_gives_its_call(gap: Seq<char>, body: Seq<char>, rest: Seq<char>)
    requires
        find(gap, TOOL_OPEN@) is None,
        find(body, TOOL_CLOSE@) is None,
    ensures
        tool_calls(gap + "<tool_call>"@ + body + "</tool_call>"@ + rest) == at_most_one(
            call_in_body(trim(body)),
        ) + (if find(rest, TOOL_OPEN@) is Some {
            tool_calls(rest)
        } else {
            Seq::empty()
        }),
{
    reveal_strlit("<tool_call>");
    reveal_strlit("</tool_call>");
    let o = TOOL_OPEN@;
    let c = TOOL_CLOSE@;
    let after = body + c + rest;
    let s = gap + o + after;
    assert(gap + o + body + c + rest =~= s);
    mark_is_found(gap, o, after);
    mark_is_found(body, c, rest);
    let head = gap + o;
    assert(s =~= head + after);
    find_behind(head, after, c, 0);
    let first = head.len() as int;
    let close = first + body.len() as int;
    assert(s.subrange(first, close) =~= body);
    let upto = head + body + c;
    assert(s =~= upto + rest);
    envelopes_in_rest(upto, rest, 0);
    if find(rest, o) is None {
        assert(enveloped_calls(rest, 0) =~= Seq::empty());
    }
}

/// An envelope that is never closed reaches to the end of the text.
pub proof fn an_open_envelope_reaches_to_the_end(gap: Seq<char>, body: Seq<char>)
    requires
        find(gap, TOOL_OPEN@) is None,
        find(body, TOOL_CLOSE@) is None,
    ensures
        tool_calls(gap + "<tool_call>"@ + body) == at_most_one(call_in_body(trim(body))),
{
    reveal_strlit("<tool_call>");
    reveal_strlit("</tool_call>");
    let o = TOOL_OPEN@;
    let s = gap + o + body;
    mark_is_found(gap, o, body);
    let head = gap + o;
    assert(s =~= head + body);
    find_behind(head, body, TOOL_CLOSE@, 0);
    assert(s.subrange(head.len() as int, s.len() as int) =~= body);
}

/// A body that is a JSON object with a name is a call of that name, with the text of
/// its arguments.
pub proof fn a_json_body_is_a_call(body: Seq<char>, t: JsonTree, name: Seq<char>)
    requires
        parsed(body) == Some(t),
        member(t, "name"@) == Some(JsonTree::Str(name)),
        name.len() > 0,
    ensures
        call_in_body(body) matches Some(c) && c.0 == name && match (
            member(t, "arguments"@),
            member(t, "parameters"@),
        ) {
            (Some(a), _) => c.1 == rendered(a),
            (None, Some(a)) => c.1 == rendered(a),
            (None, None) => c.1 == "{}"@,
        },
{
}

/// A body that is no JSON calls the function that it names, with the parameters
/// that follow the name.
pub proof fn an_xml_body_is_a_call(gap: Seq<char>, name: Seq<char>, rest: Seq<char>)
    requires
        parsed(gap + "<function="@ + name + ">"@ + rest) is None,
        find(gap, "<function="@) is None,
        find(name, ">"@) is None,
    ensures
        trim(name).len() == 0 ==> call_in_body(gap + "<function="@ + name + ">"@ + rest) is None,
        trim(name).len() > 0 ==> call_in_body(gap + "<function="@ + name + ">"@ + rest) == Some(
            (trim(name), rendered(JsonTree::Object(entries_map(parameters(rest, 0))))),
        ),
{
    reveal_strlit("<function=");
    reveal_strlit(">");
    let f = "<function="@;
    let g = ">"@;
    let after = name + g + rest;
    let s = gap + f + after;
    assert(gap + f + name + g + rest =~= s);
    mark_is_found(gap, f, after);
    mark_is_found(name, g, rest);
    let head = gap + f;
    assert(s =~= head + after);
    find_behind(head, after, g, 0);
    let at = head.len() as int;
    assert(s.subrange(at, at + name.len()) =~= name);
    let upto = head + name + g;
    assert(s =~= upto + rest);
    parameters_in_rest(upto, rest, 0);
}

proof fn parameters_in_rest(head: Seq<char>, s: Seq<char>, at: int)
    requires
        0 <= at,
    ensures
        parameters(head + s, head.len() + at) == parameters(s, at),
    decreases s.len() - at,
{
    reveal_strlit("<parameter=");
    reveal_strlit(">");
    reveal_strlit("</parameter>");
    let w = head + s;
    let h = head.len() as int;
    find_behind(head, s, "<parameter="@, at);
    find_from_is_least(s, "<parameter="@, at);
    if let Some(open) = find_from(s, "<parameter="@, at) {
        let key = open + "<parameter="@.len();
        find_behind(head, s, ">"@, key);
        find_from_is_least(s, ">"@, key);
        if let Some(key_end) = find_from(s, ">"@, key) {
            let value = key_end + 1;
            find_behind(head, s, "</parameter>"@, value);
            find_from_is_least(s, "</parameter>"@, value);
            if let Some(close) = find_from(s, "</parameter>"@, value) {
                assert(w.subrange(h + key, h + key_end) =~= s.subrange(key, key_end));
                assert(w.subrange(h + value, h + close) =~= s.subrange(value, close));
                parameters_in_rest(head, s, close + "</parameter>"@.len());
            }
        }
    }
}

/// A parameter has the key and the value that it is written with, the value read as
/// JSON where it is JSON and kept as a string where it is not; then come the
/// parameters behind it.
pub proof fn a_parameter_is_read(
    gap: Seq<char>,
    key: Seq<char>,
    value: Seq<char>,
    rest: Seq<char>,
)
    requires
        find(gap, "<parameter="@) is None,
        find(key, ">"@) is None,
        find(value, "</parameter>"@) is None,
    ensures
        ({
            let all = parameters(
                gap + "<parameter="@ + key + ">"@ + value + "</parameter>"@ + rest,
                0,
            );
            &&& all.len() == 1 + parameters(rest, 0).len()
            &&& all[0].0 == trim(key)
            &&& parsed(trim(value)) matches Some(t) ==> all[0].1 == t
            &&& parsed(trim(value)) is None ==> all[0].1 == JsonTree::Str(trim(value))
            &&& all.subrange(1, all.len() as int) == parameters(rest, 0)
        }),
        parameters(gap, 0).len() == 0,
{
    reveal_strlit("<parameter=");
    reveal_strlit(">");
    reveal_strlit("</parameter>");
    let p = "<parameter="@;
    let g = ">"@;
    let c = "</parameter>"@;
    let after = key + g + (value + c + rest);
    let s = gap + p + after;
    assert(gap + p + key + g + value + c + rest =~= s);
    mark_is_found(gap, p, after);
    mark_is_found(key, g, value + c + rest);
    mark_is_found(value, c, rest);
    let head = gap + p;
    assert(s =~= head + after);
    find_behind(head, after, g, 0);
    let k = head.len() as int;
    assert(s.subrange(k, k + key.len()) =~= key);
    let head2 = head + key + g;
    assert(s =~= head2 + (value + c + rest));
    find_behind(head2, value + c + rest, c, 0);
    let v = head2.len() as int;
    assert(s.subrange(v, v + value.len()) =~= value);
    let upto = head2 + value + c;
    assert(s =~= upto + rest);
    parameters_in_rest(upto, rest, 0);
    let all = parameters(s, 0);
    assert(all.subrange(1, all.len() as int) =~= parameters(rest, 0));
}

proof fn skipping_stops_or_ends(t: Seq<char>, a: int, b: int)
    requires
        0 <= a <= b <= t.len(),
        forall|k: int| a <= k < b ==> is_ascii_white(#[trigger] t[k]),
        b < t.len() ==> !is_ascii_white(t[b]),
    ensures
        skip_white(t, a) == b,
    decreases b - a,
{
    if a < b {
        skipping_stops_or_ends(t, a + 1, b);
    }
}

/// A quote inside a string closes it where, white space aside, the text ends or a
/// `:`, `}` or `]` follows, or a `,` and then another quote; anywhere else it is
/// part of the string. `j` is the place behind the white space that follows the
/// quote, `k` the one behind that which follows a comma there.
pub proof fn a_quote_closes_before_a_delimiter(s: Seq<char>, i: int, j: int, k: int)
    requires
        0 <= i < j <= s.len(),
        forall|m: int|
            i < m < j ==> #[trigger] s[m] == ' ' || s[m] == '\t' || s[m] == '\n' || s[m]
                == '\u{c}' || s[m] == '\r',
        j < s.len() ==> s[j] != ' ' && s[j] != '\t' && s[j] != '\n' && s[j] != '\u{c}' && s[j]
            != '\r',
        j < s.len() ==> j < k <= s.len(),
        forall|m: int|
            j < m < k ==> #[trigger] s[m] == ' ' || s[m] == '\t' || s[m] == '\n' || s[m]
                == '\u{c}' || s[m] == '\r',
        j < k < s.len() ==> s[k] != ' ' && s[k] != '\t' && s[k] != '\n' && s[k] != '\u{c}' && s[k]
            != '\r',
    ensures
        j == s.len() ==> closes_string(s, i),
        j < s.len() && (s[j] == ':' || s[j] == '}' || s[j] == ']') ==> closes_string(s, i),
        j < s.len() && s[j] == ',' ==> (closes_string(s, i) <==> k < s.len() && s[k] == '"'),
        j < s.len() && s[j] != ':' && s[j] != '}' && s[j] != ']' && s[j] != ',' ==> !closes_string(
            s,
            i,
        ),
{
    skipping_stops_or_ends(s, i + 1, j);
    if j < s.len() {
        skipping_stops_or_ends(s, j + 1, k);
    }
}

/// What a repair makes of a character: outside a string, behind a backslash, and
/// for an ordinary character nothing else than it is; inside a string the escape of
/// a line end, a tab or a carriage return, the escape of a quote that does not
/// close it, and nothing of any other control character.
pub proof fn a_repair_escapes_what_it_must(s: Seq<char>, i: int)
    requires
        0 <= i < s.len(),
    ensures
        repaired_char(s, i, false, false) == seq![s[i]],
        repaired_char(s, i, true, true) == seq![s[i]],
        s[i] == '\n' ==> repaired_char(s, i, true, false) == seq!['\\', 'n'],
        s[i] == '\t' ==> repaired_char(s, i, true, false) == seq!['\\', 't'],
        s[i] == '\r' ==> repaired_char(s, i, true, false) == seq!['\\', 'r'],
        s[i] == '"' && !closes_string(s, i) ==> repaired_char(s, i, true, false) == seq!['\\', '"'],
        s[i] == '"' && closes_string(s, i) ==> repaired_char(s, i, true, false) == seq!['"'],
        (s[i] as u32) < 0x20 && s[i] != '\n' && s[i] != '\t' && s[i] != '\r' ==> repaired_char(
            s,
            i,
            true,
            false,
        ).len() == 0,
        (s[i] as u32) >= 0x20 && s[i] != '"' ==> repaired_char(s, i, true, false) == seq![s[i]],
{
}

/// No control character stands by itself in a string.
pub open spec fn printable(u: Seq<Unit>) -> bool {
    forall|i: int|
        0 <= i < u.len() ==> match #[trigger] u[i] {
            Unit::Plain(c) => (c as u32) >= 0x20,
            Unit::Escaped(_) => true,
        }
}

/// A string is followed by a `:`, a `]`, the end of its object, or a `,` and the
/// next string, and every character of it may stand in one.
pub open spec fn compact_piece(p: Piece) -> bool
    decreases p,
{
    match p {
        Piece::Mark(_) => true,
        Piece::Text(u) => printable(u),
        Piece::Object(inner) => compact_pieces(inner, inner.len() as int) && forall|i: int|
            0 <= i < inner.len() && (#[trigger] inner[i]) is Text ==> delimited(inner, i),
    }
}

pub open spec fn compact_pieces(p: Seq<Piece>, n: int) -> bool
    decreases p, n,
{
    0 < n <= p.len() ==> compact_pieces(p, n - 1) && compact_piece(p[n - 1])
}

pub open spec fn delimited(p: Seq<Piece>, i: int) -> bool {
    ||| i + 1 == p.len()
    ||| p[i + 1] == Piece::Mark(':')
    ||| p[i + 1] == Piece::Mark(']')
    ||| p[i + 1] == Piece::Mark(',') && i + 2 < p.len() && p[i + 2] is Text
}

proof fn mending_passes_units(s: Seq<char>, j: int, depth: int, u: Seq<Unit>, done: Seq<char>)
    requires
        0 <= j,
        j + units_text(u).len() <= s.len(),
        s.subrange(j, j + units_text(u).len()) == units_text(u),
        sound_units(u),
        printable(u),
    ensures
        repaired_from(s, j, depth, true, false, done) == repaired_from(
            s,
            j + units_text(u).len(),
            depth,
            true,
            false,
            done + units_text(u),
        ),
    decreases u.len(),
{
    if u.len() == 0 {
        assert(done + units_text(u) =~= done);
    } else {
        let head = units_text(u.drop_last());
        let all = units_text(u);
        let at = j + head.len();
        assert forall|k: int| 0 <= k < all.len() implies s[j + k] == #[trigger] all[k] by {
            assert(s.subrange(j, j + all.len())[k] == all[k]);
        }
        assert(s.subrange(j, at) =~= head) by {
            assert forall|k: int| 0 <= k < head.len() implies s[j + k] == #[trigger] head[k] by {
                assert(all[k] == head[k]);
            }
        }
        assert forall|k: int| 0 <= k < u.drop_last().len() implies (match (
        #[trigger] u.drop_last()[k]) {
            Unit::Plain(c) => c != '"' && c != '\\' && (c as u32) >= 0x20,
            Unit::Escaped(_) => true,
        }) by {
            assert(u.drop_last()[k] == u[k]);
        }
        mending_passes_units(s, j, depth, u.drop_last(), done);
        assert(u.last() == u[u.len() - 1]);
        let so_far = done + head;
        assert(s[at] == all[head.len() as int]);
        match u.last() {
            Unit::Plain(c) => {
                assert(s[at] == c);
                assert(so_far + seq![c] =~= done + all);
            },
            Unit::Escaped(c) => {
                assert(s[at] == '\\');
                assert(s[at + 1] == all[head.len() as int + 1]);
                assert((so_far + seq!['\\']) + seq![c] =~= done + all);
                assert(repaired_from(s, at, depth, true, false, so_far) == repaired_from(
                    s,
                    at + 1,
                    depth,
                    true,
                    true,
                    so_far + seq!['\\'],
                ));
                assert(repaired_from(s, at + 1, depth, true, true, so_far + seq!['\\'])
                    == repaired_from(s, at + 2, depth, true, false, done + all));
            },
        }
    }
}

proof fn mending_passes_piece(s: Seq<char>, j: int, depth: int, p: Piece, done: Seq<char>)
    requires
        0 <= j,
        depth >= 1,
        j + piece_text(p).len() <= s.len(),
        s.subrange(j, j + piece_text(p).len()) == piece_text(p),
        sound_piece(p),
        compact_piece(p),
        p is Text ==> closes_string(s, j + piece_text(p).len() - 1),
    ensures
        repaired_from(s, j, depth, false, false, done) == repaired_from(
            s,
            j + piece_text(p).len(),
            depth,
            false,
            false,
            done + piece_text(p),
        ),
    decreases p, 0int,
{
    let t = piece_text(p);
    assert forall|k: int| 0 <= k < t.len() implies s[j + k] == #[trigger] t[k] by {
        assert(s.subrange(j, j + t.len())[k] == t[k]);
    }
    match p {
        Piece::Mark(c) => {
            assert(s[j] == t[0]);
        },
        Piece::Text(u) => {
            let n = units_text(u).len() as int;
            assert(s[j] == t[0]);
            assert(s.subrange(j + 1, j + 1 + n) =~= units_text(u)) by {
                assert forall|k: int| 0 <= k < n implies s[j + 1 + k] == #[trigger] units_text(
                    u,
                )[k] by {
                    assert(t[k + 1] == units_text(u)[k]);
                }
            }
            let open = done + seq!['"'];
            mending_passes_units(s, j + 1, depth, u, open);
            assert(s[j + 1 + n] == t[1 + n]);
            assert(t[1 + n] == '"');
            assert(open + units_text(u) + seq!['"'] =~= done + t);
        },
        Piece::Object(inner) => {
            let n = pieces_text(inner).len() as int;
            assert(s[j] == t[0]);
            assert(s.subrange(j + 1, j + 1 + n) =~= pieces_text(inner)) by {
                assert forall|k: int| 0 <= k < n implies s[j + 1 + k] == #[trigger] pieces_text(
                    inner,
                )[k] by {
                    assert(t[k + 1] == pieces_text(inner)[k]);
                }
            }
            assert(s[j + 1 + n] == t[1 + n]);
            assert(t[1 + n] == '}');
            let open = done + seq!['{'];
            assert(inner.subrange(0, inner.len() as int) =~= inner);
            assert(decreases_to!(p => inner));
            mending_passes_pieces(s, j + 1, depth + 1, inner, inner.len() as int, open);
            assert(open + pieces_text(inner) + seq!['}'] =~= done + t);
        },
    }
}

/// The first pieces of a list are written first.
proof fn pieces_begin(p: Seq<Piece>, n: int)
    requires
        0 <= n <= p.len(),
    ensures
        pieces_text(p.subrange(0, n)).len() <= pieces_text(p).len(),
        pieces_text(p).subrange(0, pieces_text(p.subrange(0, n)).len() as int) == pieces_text(
            p.subrange(0, n),
        ),
        n < p.len() ==> pieces_text(p.subrange(0, n + 1)) == pieces_text(p.subrange(0, n))
            + piece_text(p[n]),
    decreases p.len() - n,
{
    let a = pieces_text(p.subrange(0, n));
    if n == p.len() {
        assert(p.subrange(0, n) =~= p);
        assert(pieces_text(p).subrange(0, a.len() as int) =~= a);
    } else {
        pieces_begin(p, n + 1);
        let next = p.subrange(0, n + 1);
        assert(next.drop_last() =~= p.subrange(0, n));
        assert(next.last() == p[n]);
        let b = pieces_text(next);
        let all = pieces_text(p);
        assert(all.subrange(0, a.len() as int) =~= a) by {
            assert forall|k: int| 0 <= k < a.len() implies all[k] == a[k] by {
                assert(all.subrange(0, b.len() as int)[k] == b[k]);
                assert(b[k] == a[k]);
            }
        }
    }
}

proof fn compact_up_to(p: Seq<Piece>, n: int, i: int)
    requires
        compact_pieces(p, n),
        0 <= i < n <= p.len(),
    ensures
        compact_piece(p[i]),
    decreases n,
{
    if i < n - 1 {
        compact_up_to(p, n - 1, i);
    }
}

proof fn sound_at(p: Seq<Piece>, i: int)
    requires
        sound_pieces(p),
        0 <= i < p.len(),
    ensures
        sound_piece(p[i]),
    decreases p.len(),
{
    if i < p.len() - 1 {
        assert(p.drop_last()[i] == p[i]);
        sound_at(p.drop_last(), i);
    }
}

/// Where piece `i` stands: at the end of those before it.
proof fn piece_stands(s: Seq<char>, j: int, p: Seq<Piece>, i: int)
    requires
        0 <= j,
        j + pieces_text(p).len() <= s.len(),
        s.subrange(j, j + pieces_text(p).len()) == pieces_text(p),
        0 <= i < p.len(),
    ensures
        ({
            let at = j + pieces_text(p.subrange(0, i)).len();
            let n = piece_text(p[i]).len();
            &&& at + n <= j + pieces_text(p).len()
            &&& s.subrange(at, at + n) == piece_text(p[i])
            &&& at + n == j + pieces_text(p.subrange(0, i + 1)).len()
        }),
{
    pieces_begin(p, i);
    pieces_begin(p, i + 1);
    let all = pieces_text(p);
    let a = pieces_text(p.subrange(0, i));
    let b = pieces_text(p.subrange(0, i + 1));
    let t = piece_text(p[i]);
    let at = j + a.len();
    assert(s.subrange(at, at + t.len()) =~= t) by {
        assert forall|k: int| 0 <= k < t.len() implies s[at + k] == #[trigger] t[k] by {
            assert(s.subrange(j, j + all.len())[a.len() + k] == all[a.len() + k]);
            assert(all.subrange(0, b.len() as int)[a.len() + k] == b[a.len() + k]);
            assert(b[a.len() + k] == t[k]);
        }
    }
}

proof fn mending_passes_pieces(
    s: Seq<char>,
    j: int,
    depth: int,
    p: Seq<Piece>,
    n: int,
    done: Seq<char>,
)
    requires
        0 <= j,
        depth >= 1,
        0 <= n <= p.len(),
        j + pieces_text(p).len() < s.len(),
        s.subrange(j, j + pieces_text(p).len()) == pieces_text(p),
        s[j + pieces_text(p).len()] == '}',
        sound_pieces(p),
        compact_pieces(p, p.len() as int),
        forall|i: int| 0 <= i < p.len() && (#[trigger] p[i]) is Text ==> delimited(p, i),
    ensures
        repaired_from(s, j, depth, false, false, done) == repaired_from(
            s,
            j + pieces_text(p.subrange(0, n)).len(),
            depth,
            false,
            false,
            done + pieces_text(p.subrange(0, n)),
        ),
    decreases p, n + 1,
{
    if n == 0 {
        assert(p.subrange(0, n) =~= Seq::empty());
        assert(done + pieces_text(p.subrange(0, n)) =~= done);
    } else {
        let i = n - 1;
        mending_passes_pieces(s, j, depth, p, i, done);
        pieces_begin(p, i);
        piece_stands(s, j, p, i);
        compact_up_to(p, p.len() as int, i);
        sound_at(p, i);
        let a = pieces_text(p.subrange(0, i));
        let t = piece_text(p[i]);
        let at = j + a.len();
        if p[i] is Text {
            string_is_closed(s, j, p, i);
        }
        assert(decreases_to!(p => p[i]));
        mending_passes_piece(s, at, depth, p[i], done + a);
        assert(done + a + t =~= done + pieces_text(p.subrange(0, n)));
    }
}

/// A delimited string is closed by its quote.
proof fn string_is_closed(s: Seq<char>, j: int, p: Seq<Piece>, i: int)
    requires
        0 <= j,
        j + pieces_text(p).len() < s.len(),
        s.subrange(j, j + pieces_text(p).len()) == pieces_text(p),
        s[j + pieces_text(p).len()] == '}',
        0 <= i < p.len(),
        p[i] is Text,
        delimited(p, i),
    ensures
        closes_string(s, j + pieces_text(p.subrange(0, i)).len() + piece_text(p[i]).len() - 1),
{
    piece_stands(s, j, p, i);
    let end = j + pieces_text(p.subrange(0, i + 1)).len();
    let q = end - 1;
    if i + 1 == p.len() {
        assert(p.subrange(0, i + 1) =~= p);
        assert(s[end] == '}');
        skipping_stops_or_ends(s, end, end);
    } else {
        piece_stands(s, j, p, i + 1);
        let t = piece_text(p[i + 1]);
        assert(s[end] == s.subrange(end, end + t.len())[0]);
        skipping_stops_or_ends(s, end, end);
        if p[i + 1] == Piece::Mark(',') {
            piece_stands(s, j, p, i + 2);
            let u = piece_text(p[i + 2]);
            assert(s[end + 1] == s.subrange(end + 1, end + 1 + u.len())[0]);
            assert(u[0] == '"');
            skipping_stops_or_ends(s, end + 1, end + 1);
        }
    }
}

/// An object that needs no repair is left as it is, to its last brace.
pub proof fn a_sound_object_needs_no_repair(gap: Seq<char>, inner: Seq<Piece>, rest: Seq<char>)
    requires
        sound_pieces(inner),
        compact_piece(Piece::Object(inner)),
    ensures
        ({
            let o = piece_text(Piece::Object(inner));
            repaired(gap + o + rest, gap.len() as int) == Some((o, (gap + o).len() as int))
        }),
{
    let o = piece_text(Piece::Object(inner));
    let s = gap + o + rest;
    let g = gap.len() as int;
    let n = pieces_text(inner).len() as int;
    assert(o.len() == n + 2);
    assert forall|k: int| 0 <= k < o.len() implies s[g + k] == #[trigger] o[k] by {}
    assert(o[0] == '{');
    assert(s[g] == o[0]);
    assert(s.subrange(g + 1, g + 1 + n) =~= pieces_text(inner)) by {
        assert forall|k: int| 0 <= k < n implies s[g + 1 + k] == #[trigger] pieces_text(
            inner,
        )[k] by {
            assert(o[1 + k] == pieces_text(inner)[k]);
        }
    }
    assert(o[1 + n] == '}');
    assert(s[g + 1 + n] == o[1 + n]);
    let open = Seq::<char>::empty() + seq!['{'];
    mending_passes_pieces(s, g + 1, 1, inner, inner.len() as int, open);
    assert(inner.subrange(0, inner.len() as int) =~= inner);
    assert(open + pieces_text(inner) + seq!['}'] =~= o);
}

/// The first brace whose first key is `name` is found, white space aside; a brace
/// before it with another key is passed over.
pub proof fn the_name_brace_is_found(gap: Seq<char>, white: Seq<char>, rest: Seq<char>)
    requires
        forall|i: int| 0 <= i < gap.len() ==> (#[trigger] gap[i]) != '{',
        forall|i: int| 0 <= i < white.len() ==> is_ascii_white(#[trigger] white[i]),
    ensures
        name_brace(gap + seq!['{'] + white + "\"name\""@ + rest, 0) == Some(gap.len() as int),
        name_brace(gap, 0) is None,
{
    reveal_strlit("\"name\"");
    let key = "\"name\""@;
    let s = gap + seq!['{'] + white + key + rest;
    let g = gap.len() as int;
    let k = g + 1 + white.len() as int;
    assert(s[g] == '{');
    assert(s[k] == '"');
    assert forall|m: int| g + 1 <= m < k implies is_ascii_white(#[trigger] s[m]) by {
        assert(s[m] == white[m - g - 1]);
    }
    skipping_stops_or_ends(s, g + 1, k);
    assert(s.subrange(k, k + key.len()) =~= key);
    braces_are_looked_for(s, 0, g);
    braces_are_looked_for(gap, 0, g);
}

proof fn braces_are_looked_for(s: Seq<char>, i: int, g: int)
    requires
        0 <= i <= g <= s.len(),
        forall|k: int| i <= k < g ==> (#[trigger] s[k]) != '{',
    ensures
        name_brace(s, i) == name_brace(s, g),
    decreases g - i,
{
    if i < g {
        braces_are_looked_for(s, i + 1, g);
    }
}

/// A malformed object that a repair makes a call of is a call, and then the text
/// behind it is searched for more.
pub proof fn a_mended_object_is_a_call(s: Seq<char>, i: int, t: JsonTree, n: Seq<char>, a: JsonTree)
    requires
        0 <= i,
        name_brace(s, i) is Some,
        repaired(s, name_brace(s, i)->0) is Some,
        ({
            let (text, _) = repaired(s, name_brace(s, i)->0)->Some_0;
            parsed(text) == Some(t)
        }),
        member(t, "name"@) == Some(JsonTree::Str(n)),
        n.len() > 0,
        member(t, "arguments"@) == Some(a),
        a is Object,
    ensures
        ({
            let (_, end) = repaired(s, name_brace(s, i)->0)->Some_0;
            repaired_calls(s, i) == seq![(n, rendered(a))] + repaired_calls(s, end)
        }),
{
    name_brace_bounds(s, i);
    let start = name_brace(s, i)->0;
    repaired_from_bounds(s, start, 0, false, false, Seq::empty());
    let (text, _) = repaired(s, start)->Some_0;
    assert(call_in_json(text, true) == Some((n, rendered(a))));
}

/// A line with a bare name and an object behind it are a call of that name with
/// that object, whatever white space stands round them.
pub proof fn a_name_and_an_object_are_a_call(
    before: Seq<char>,
    name: Seq<char>,
    white: Seq<char>,
    args: Seq<char>,
    behind: Seq<char>,
)
    requires
        is_bare_name(name),
        forall|i: int| 0 <= i < before.len() ==> crate::text::is_white(#[trigger] before[i]),
        forall|i: int| 0 <= i < white.len() ==> crate::text::is_white(#[trigger] white[i]),
        forall|i: int| 0 <= i < behind.len() ==> crate::text::is_white(#[trigger] behind[i]),
        args.len() > 0,
        !crate::text::is_white(args[0]),
        !crate::text::is_white(args.last()),
        parsed(args) matches Some(JsonTree::Object(_)),
    ensures
        bare_call(before + name + "\n"@ + white + args + behind) == Some((name, args)),
{
    reveal_strlit("\n");
    let nl = "\n"@;
    let s = before + name + nl + white + args + behind;
    let t = name + nl + white + args;
    assert forall|i: int| 0 <= i < name.len() implies !crate::text::is_white(
        #[trigger] name[i],
    ) && name[i] != '\n' by {
        assert(is_name_char(name[i]));
    }
    assert(name[0] == t[0]);
    assert(t.last() == args.last());
    assert(s =~= before + t + behind);
    crate::text::trimming_takes_white_space_only(before, t, behind);
    find_from_is_least(name, nl, 0);
    if let Some(i) = find(name, nl) {
        assert(name.subrange(i, i + 1)[0] == '\n');
        assert(name[i] == '\n');
    }
    assert(t =~= name + nl + (white + args));
    mark_is_found(name, nl, white + args);
    let empty = Seq::<char>::empty();
    let first = t.subrange(0, name.len() as int);
    assert(first =~= empty + name + empty);
    crate::text::trimming_takes_white_space_only(empty, name, empty);
    let last = t.subrange(name.len() as int + 1, t.len() as int);
    assert(last =~= white + args + empty);
    crate::text::trimming_takes_white_space_only(white, args, empty);
}

/// In a text without envelopes sound objects come first; the repaired ones count
/// only where there are none, and a bare name only where there are none of either.
pub proof fn the_loose_forms_have_an_order(s: Seq<char>)
    requires
        find(s, TOOL_OPEN@) is None,
    ensures
        strict_calls(objects_from(s, 0)).len() > 0 ==> tool_calls(s) == strict_calls(
            objects_from(s, 0),
        ),
        strict_calls(objects_from(s, 0)).len() == 0 && repaired_calls(s, 0).len() > 0
            ==> tool_calls(s) == repaired_calls(s, 0),
        strict_calls(objects_from(s, 0)).len() == 0 && repaired_calls(s, 0).len() == 0 ==> match bare_call(
            s,
        ) {
            Some(c) => tool_calls(s) == seq![c],
            None => tool_calls(s).len() == 0,
        },
{
}

/// A mark of one repeated character is found behind a text without that character.
proof fn ticks_are_found(s: Seq<char>, at: int, g: int)
    requires
        0 <= at <= g,
        g + 3 <= s.len(),
        forall|k: int| at <= k < g ==> (#[trigger] s[k]) != '`',
        s[g] == '`' && s[g + 1] == '`' && s[g + 2] == '`',
    ensures
        find_from(s, "```"@, at) == Some(g),
{
    reveal_strlit("```");
    let p = "```"@;
    find_from_is_least(s, p, at);
    assert(s.subrange(g, g + 3) =~= p);
    assert(occurs_at(s, p, g));
    assert forall|j: int| at <= j < g implies !occurs_at(s, p, j) by {
        if occurs_at(s, p, j) {
            assert(s.subrange(j, j + 3)[0] == '`');
            assert(s[j] == '`');
        }
    }
}

/// A fenced block with a bare name and an object in it is a call: the first line
/// names the language and does not count. Where there is none in it the blocks behind
/// it are looked at.
pub proof fn a_fenced_name_is_a_call(
    gap: Seq<char>,
    language: Seq<char>,
    body: Seq<char>,
    rest: Seq<char>,
)
    requires
        forall|i: int| 0 <= i < gap.len() ==> (#[trigger] gap[i]) != '`',
        forall|i: int| 0 <= i < language.len() ==> (#[trigger] language[i]) != '\n',
        forall|i: int| 0 <= i < body.len() ==> (#[trigger] body[i]) != '`',
    ensures
        call_in_lines(trim(body)) is Some ==> call_in_fences(
            gap + "```"@ + language + "\n"@ + body + "```"@ + rest,
            0,
        ) == call_in_lines(trim(body)),
        call_in_lines(trim(body)) is None ==> call_in_fences(
            gap + "```"@ + language + "\n"@ + body + "```"@ + rest,
            0,
        ) == call_in_fences(rest, 0),
        call_in_fences(gap + "```"@ + language + "\n"@ + body, 0) == call_in_lines(trim(body)),
        call_in_fences(gap, 0) is None,
{
    reveal_strlit("```");
    reveal_strlit("\n");
    let t = "```"@;
    let nl = "\n"@;
    let g = gap.len() as int;
    let e = g + 3 + language.len() as int;
    let open = gap + t + language + nl + body;
    let s = open + t + rest;
    find_from_is_least(gap, t, 0);
    if let Some(i) = find(gap, t) {
        assert(gap.subrange(i, i + 3)[0] == '`');
        assert(gap[i] == '`');
    }
    fence_line_ends(open, g, e);
    fence_line_ends(s, g, e);
    let c = e + 1 + body.len() as int;
    assert forall|k: int| e + 1 <= k < c implies (#[trigger] s[k]) != '`' by {
        assert(s[k] == body[k - e - 1]);
    }
    ticks_are_found(s, e + 1, c);
    assert(s.subrange(e + 1, c) =~= body);
    assert(open.subrange(e + 1, open.len() as int) =~= body);
    let upto = open + t;
    assert(s =~= upto + rest);
    fences_in_rest(upto, rest, 0);
    find_from_is_least(open, t, e + 1);
    if let Some(i) = find_from(open, t, e + 1) {
        assert(open.subrange(i, i + 3)[0] == '`');
        assert(open[i] == body[i - e - 1]);
    }
}

proof fn fence_line_ends(s: Seq<char>, g: int, e: int)
    requires
        0 <= g,
        g + 3 <= e < s.len(),
        forall|k: int| 0 <= k < g ==> (#[trigger] s[k]) != '`',
        s[g] == '`' && s[g + 1] == '`' && s[g + 2] == '`',
        forall|k: int| g + 3 <= k < e ==> (#[trigger] s[k]) != '\n',
        s[e] == '\n',
    ensures
        find_from(s, "```"@, 0) == Some(g),
        find_from(s, "\n"@, g + 3) == Some(e),
{
    reveal_strlit("\n");
    ticks_are_found(s, 0, g);
    let nl = "\n"@;
    find_from_is_least(s, nl, g + 3);
    assert(s.subrange(e, e + 1) =~= nl);
    assert(occurs_at(s, nl, e));
    assert forall|j: int| g + 3 <= j < e implies !occurs_at(s, nl, j) by {
        if occurs_at(s, nl, j) {
            assert(s.subrange(j, j + 1)[0] == '\n');
            assert(s[j] == '\n');
        }
    }
}

proof fn fences_in_rest(head: Seq<char>, s: Seq<char>, at: int)
    requires
        0 <= at,
    ensures
        call_in_fences(head + s, head.len() + at) == call_in_fences(s, at),
    decreases s.len() - at,
{
    reveal_strlit("```");
    reveal_strlit("\n");
    let w = head + s;
    let h = head.len() as int;
    find_behind(head, s, "```"@, at);
    find_from_is_least(s, "```"@, at);
    if let Some(open) = find_from(s, "```"@, at) {
        find_behind(head, s, "\n"@, open + 3);
        find_from_is_least(s, "\n"@, open + 3);
        if let Some(nl) = find_from(s, "\n"@, open + 3) {
            find_behind(head, s, "```"@, nl + 1);
            find_from_is_least(s, "```"@, nl + 1);
            match find_from(s, "```"@, nl + 1) {
                Some(close) => {
                    assert(w.subrange(h + nl + 1, h + close) =~= s.subrange(nl + 1, close));
                    fences_in_rest(head, s, close + 3);
                },
                None => {
                    assert(w.subrange(h + nl + 1, w.len() as int) =~= s.subrange(
                        nl + 1,
                        s.len() as int,
                    ));
                },
            }
        }
    }
}

/// A bare name is made of letters and digits of ASCII, underscores, dots and dashes,
/// and has at least one.
pub proof fn a_bare_name_is_a_word(name: Seq<char>, i: int)
    ensures
        name.len() == 0 ==> !is_bare_name(name),
        name.len() > 0 && (forall|k: int|
            0 <= k < name.len() ==> ('a' <= #[trigger] name[k] <= 'z' || 'A' <= name[k] <= 'Z' || '0'
                <= name[k] <= '9' || name[k] == '_' || name[k] == '.' || name[k] == '-'))
            ==> is_bare_name(name),
        is_bare_name(name) && 0 <= i < name.len() ==> ('a' <= name[i] <= 'z' || 'A' <= name[i]
            <= 'Z' || '0' <= name[i] <= '9' || name[i] == '_' || name[i] == '.' || name[i] == '-'),
{
    if is_bare_name(name) && 0 <= i < name.len() {
        assert(is_name_char(name[i]));
    }
}

/// Lines that are no name and object are no call: what is no object behind the name,
/// and a name with anything else in it.
pub proof fn other_lines_are_no_calls(t: Seq<char>)
    ensures
        find(t, "\n"@) is None ==> call_in_lines(t) is None,
        find(t, "\n"@) matches Some(nl) ==> {
            let name = trim(t.subrange(0, nl));
            let args = trim(t.subrange(nl + 1, t.len() as int));
            &&& !is_bare_name(name) ==> call_in_lines(t) is None
            &&& !(parsed(args) matches Some(JsonTree::Object(_))) ==> call_in_lines(t) is None
            &&& is_bare_name(name) && (parsed(args) matches Some(JsonTree::Object(_)))
                ==> call_in_lines(t) == Some((name, args))
        },
{
}

/// The brace that is found has `name` as its first key, white space aside, and no
/// brace before it has; where none is found none has.
pub proof fn the_first_name_brace_is_found(s: Seq<char>, i: int)
    requires
        0 <= i,
    ensures
        match name_brace(s, i) {
            Some(p) => {
                &&& i <= p < s.len()
                &&& s[p] == '{'
                &&& occurs_at(s, "\"name\""@, skip_white(s, p + 1))
                &&& forall|k: int|
                    i <= k < p ==> !(#[trigger] s[k] == '{' && occurs_at(
                        s,
                        "\"name\""@,
                        skip_white(s, k + 1),
                    ))
            },
            None => forall|k: int|
                i <= k < s.len() ==> !(#[trigger] s[k] == '{' && occurs_at(
                    s,
                    "\"name\""@,
                    skip_white(s, k + 1),
                )),
        },
    decreases s.len() - i,
{
    if i < s.len() && !(s[i] == '{' && occurs_at(s, "\"name\""@, skip_white(s, i + 1))) {
        the_first_name_brace_is_found(s, i + 1);
    }
}

/// A malformed object that no repair makes a call of is passed over, and one that
/// never balances ends the search.
pub proof fn what_cannot_be_mended_is_passed_over(s: Seq<char>, i: int)
    requires
        0 <= i,
    ensures
        name_brace(s, i) is None ==> repaired_calls(s, i).len() == 0,
        name_brace(s, i) matches Some(start) ==> {
            &&& repaired(s, start) is None ==> repaired_calls(s, i).len() == 0
            &&& repaired(s, start) matches Some((text, end)) ==> (parsed(text) is None
                ==> repaired_calls(s, i) == repaired_calls(s, end))
        },
{
    name_brace_bounds(s, i);
    if let Some(start) = name_brace(s, i) {
        repaired_from_bounds(s, start, 0, false, false, Seq::empty());
        if let Some((text, end)) = repaired(s, start) {
            if parsed(text) is None {
                assert(call_in_json(text, true) is None);
                assert(Seq::<Call>::empty() + repaired_calls(s, end) =~= repaired_calls(s, end));
            }
        }
    }
}

} // verus!
