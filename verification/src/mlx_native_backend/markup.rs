//! Text that carries tool calls: finding them in what a model writes, and writing
//! them into what a model reads.

use crate::chat::{blocks, Block, ContentBlock, Message, Role, ToolDef};
use crate::json::{
    entries_map, is_reserved, json_str, member, pairs, pairs_index, parsed, readable, rendered, string_in,
    trees, trees_index, Json, JsonTree,
};
use crate::serving::{
    call_in_body, call_in_json, enveloped_calls, tool_calls, Call, TOOL_CLOSE, TOOL_OPEN,
};
use crate::text::{
    alphanumeric, char_from, char_position, chars_of, copy, find, find_from, find_from_is_least,
    from, is_alphanumeric, is_white, last_position, occurs_at, position, rfind, starts_with,
    stands_at, substr, trim, trim_end, trim_start,
};
use vstd::prelude::*;
use vstd::utf8::encode_utf8;

verus! {

// ---------------------------------------------------------------------------
// Finding calls
// ---------------------------------------------------------------------------

/// The first `{`, from `at` on, whose first key is `name`.
pub open spec fn named_brace(s: Seq<char>, at: int) -> Option<int>
    decreases s.len() - at,
{
    if at < 0 || at >= s.len() {
        None
    } else if s[at] == '{' && starts_with(trim_start(from(s, at + 1)), "\"name\""@) {
        Some(at)
    } else {
        named_brace(s, at + 1)
    }
}

/// The text before `i` ends in a code fence that holds nothing yet but the name of
/// a language.
pub open spec fn open_fence(s: Seq<char>, i: int) -> Option<int> {
    let head = s.subrange(0, i);
    match rfind(head, "```"@) {
        Some(f) => if forall|k: int|
            f + 3 <= k < i ==> alphanumeric(#[trigger] s[k]) || is_white(s[k]) {
            Some(f)
        } else {
            None
        },
        None => None,
    }
}

/// Where the markup of a tool call begins: at an envelope, else, where tools are
/// offered, at a loose call or the fence round it.
pub open spec fn markup_start(s: Seq<char>, tools: bool) -> Option<int> {
    match find(s, TOOL_OPEN@) {
        Some(p) => Some(p),
        None => if tools {
            match named_brace(s, 0) {
                Some(b) => match open_fence(s, b) {
                    Some(f) => Some(f),
                    None => Some(b),
                },
                None => None,
            }
        } else {
            None
        },
    }
}

/// The position in bytes of a position in characters.
pub open spec fn byte_position(s: Seq<char>, i: Option<int>) -> Option<int> {
    match i {
        Some(i) => Some(encode_utf8(s.subrange(0, i)).len() as int),
        None => None,
    }
}

proof fn trim_start_is_a_tail(s: Seq<char>, n: int)
    requires
        0 <= n <= s.len(),
        forall|k: int| 0 <= k < n ==> is_white(#[trigger] s[k]),
        n < s.len() ==> !is_white(s[n]),
    ensures
        trim_start(s) == from(s, n),
    decreases n,
{
    if n == 0 {
        assert(from(s, 0) =~= s);
    } else {
        let t = s.subrange(1, s.len() as int);
        assert forall|k: int| 0 <= k < n - 1 implies is_white(#[trigger] t[k]) by {
            assert(t[k] == s[k + 1]);
        }
        trim_start_is_a_tail(t, n - 1);
        assert(from(t, n - 1) =~= from(s, n));
    }
}

/// The position of what follows the white space from `at` on.
fn skip_spaces(v: &Vec<char>, at: usize) -> (r: usize)
    requires
        at <= v.len(),
    ensures
        at <= r <= v.len(),
        trim_start(from(v@, at as int)) == from(v@, r as int),
{
    let mut i: usize = at;
    while i < v.len() && crate::text::char_is_white(v[i])
        invariant
            at <= i <= v.len(),
            forall|k: int| at <= k < i ==> is_white(#[trigger] v@[k]),
        decreases v.len() - i,
    {
        i = i + 1;
    }
    proof {
        let s = from(v@, at as int);
        trim_start_is_a_tail(s, i - at);
        assert(from(s, i - at) =~= from(v@, i as int));
    }
    i
}

fn named_brace_in(v: &Vec<char>) -> (r: Option<usize>)
    ensures
        match r {
            Some(i) => named_brace(v@, 0) == Some(i as int) && i < v.len(),
            None => named_brace(v@, 0) is None,
        },
{
    let key = chars_of("\"name\"");
    let mut i: usize = 0;
    while i < v.len()
        invariant
            i <= v.len(),
            key@ == "\"name\""@,
            named_brace(v@, 0) == named_brace(v@, i as int),
        decreases v.len() - i,
    {
        if v[i] == '{' {
            let j = skip_spaces(v, i + 1);
            proof {
                let rest = from(v@, j as int);
                if j + key@.len() <= v@.len() {
                    assert(rest.subrange(0, key@.len() as int) =~= v@.subrange(
                        j as int,
                        j + key@.len(),
                    ));
                }
            }
            if stands_at(v, &key, j) {
                return Some(i);
            }
        }
        i = i + 1;
    }
    None
}

/// Byte offset of the `{` that opens JSON in the shape of a tool call: its first
/// key is `name`. A `{` in prose or in a code example is not taken for one.
pub fn find_loose_tool_json(text: &str) -> (r: Option<usize>)
    ensures
        match r {
            Some(i) => byte_position(text@, named_brace(text@, 0)) == Some(i as int),
            None => named_brace(text@, 0) is None,
        },
{
    let v = chars_of(text);
    match named_brace_in(&v) {
        Some(i) => Some(substr(&v, 0, i).as_str().as_bytes().len()),
        None => None,
    }
}

fn open_fence_in(v: &Vec<char>, i: usize) -> (r: Option<usize>)
    requires
        i <= v.len(),
    ensures
        match r {
            Some(f) => open_fence(v@, i as int) == Some(f as int) && f <= i,
            None => open_fence(v@, i as int) is None,
        },
{
    proof {
        reveal_strlit("```");
    }
    let head = crate::text::slice(v, 0, i);
    match last_position(&head, "```") {
        Some(f) => {
            let mut k: usize = f + 3;
            while k < i
                invariant
                    f + 3 <= k <= i,
                    i <= v.len(),
                    rfind(v@.subrange(0, i as int), "```"@) == Some(f as int),
                    forall|m: int|
                        f + 3 <= m < k ==> alphanumeric(#[trigger] v@[m]) || is_white(v@[m]),
                decreases i - k,
            {
                if !(is_alphanumeric(v[k]) || crate::text::char_is_white(v[k])) {
                    assert(!(alphanumeric(v@[k as int]) || is_white(v@[k as int])));
                    return None;
                }
                k = k + 1;
            }
            Some(f)
        },
        None => None,
    }
}

/// Where the markup of a tool call begins, counted in characters.
pub fn markup_at(v: &Vec<char>, tools: bool) -> (r: Option<usize>)
    ensures
        match r {
            Some(i) => markup_start(v@, tools) == Some(i as int) && i <= v.len(),
            None => markup_start(v@, tools) is None,
        },
{
    match position(v, TOOL_OPEN, 0) {
        Some(p) => Some(p),
        None => {
            if !tools {
                return None;
            }
            match named_brace_in(v) {
                Some(b) => match open_fence_in(v, b) {
                    Some(f) => Some(f),
                    None => Some(b),
                },
                None => None,
            }
        },
    }
}

/// Byte offset where the markup of a tool call begins, so that it is kept out of
/// the text that is streamed.
pub fn tool_markup_at(text: &str, tools: bool) -> (r: Option<usize>)
    ensures
        match r {
            Some(i) => byte_position(text@, markup_start(text@, tools)) == Some(i as int),
            None => markup_start(text@, tools) is None,
        },
{
    let v = chars_of(text);
    match markup_at(&v, tools) {
        Some(i) => Some(substr(&v, 0, i).as_str().as_bytes().len()),
        None => None,
    }
}

/// The value of the first `"name"` key, once it is complete: what stands between
/// the two quotes behind the colon behind the key.
pub open spec fn name_value(s: Seq<char>) -> Option<Seq<char>> {
    match find(s, "\"name\""@) {
        Some(k) => match char_from(s, ':', k + 6) {
            Some(colon) => match char_from(s, '"', colon + 1) {
                Some(q) => match char_from(s, '"', q + 1) {
                    Some(end) => Some(s.subrange(q + 1, end)),
                    None => None,
                },
                None => None,
            },
            None => None,
        },
        None => None,
    }
}

/// The tool's name in a partial envelope, once it is complete. A name carries no
/// JSON escapes, so that it ends at the next quote.
pub fn extract_tool_name(json: &str) -> (r: Option<String>)
    ensures
        match r {
            Some(n) => name_value(json@) == Some(n@),
            None => name_value(json@) is None,
        },
{
    proof {
        reveal_strlit("\"name\"");
    }
    let v = chars_of(json);
    let k = match position(&v, "\"name\"", 0) {
        Some(k) => k,
        None => {
            return None;
        },
    };
    let colon = match char_position(&v, ':', k + 6) {
        Some(i) => i,
        None => {
            return None;
        },
    };
    let q = match char_position(&v, '"', colon + 1) {
        Some(i) => i,
        None => {
            return None;
        },
    };
    match char_position(&v, '"', q + 1) {
        Some(end) => Some(substr(&v, q + 1, end)),
        None => None,
    }
}

// ---------------------------------------------------------------------------
// Writing calls
// ---------------------------------------------------------------------------

/// A call as a JSON object.
pub open spec fn call_tree(name: Seq<char>, input: JsonTree) -> JsonTree {
    JsonTree::Object(
        entries_map(seq![("name"@, JsonTree::Str(name)), ("arguments"@, input)]),
    )
}

/// A call as an envelope.
pub open spec fn call_markup(name: Seq<char>, input: JsonTree) -> Seq<char> {
    "<tool_call>\n"@ + rendered(call_tree(name, input)) + "\n</tool_call>"@
}

/// Writing a call and reading it back: the input is kept exactly, and the text of
/// the call does not itself close the envelope.
pub open spec fn survives(name: Seq<char>, input: JsonTree) -> bool {
    &&& name.len() > 0
    &&& readable(input, 126)
    &&& find(rendered(call_tree(name, input)), TOOL_CLOSE@) is None
}

fn call_json(name: &str, input: &Json) -> (r: Json)
    ensures
        r@ == call_tree(name@, input@),
{
    let mut v: Vec<(String, Json)> = Vec::new();
    v.push((copy("name"), json_str(name)));
    v.push((copy("arguments"), input.copy()));
    proof {
        pairs_index(v@);
        assert(pairs(v@) =~= seq![("name"@, JsonTree::Str(name@)), ("arguments"@, input@)]);
    }
    Json::Object(v)
}

proof fn call_tree_members(name: Seq<char>, input: JsonTree)
    ensures
        member(call_tree(name, input), "name"@) == Some(JsonTree::Str(name)),
        member(call_tree(name, input), "arguments"@) == Some(input),
        readable(input, 126) ==> readable(call_tree(name, input), 127),
{
    reveal_strlit("name");
    reveal_strlit("arguments");
    assert("name"@.len() != "arguments"@.len());
    let e = seq![("name"@, JsonTree::Str(name)), ("arguments"@, input)];
    assert(e.drop_last().drop_last() =~= Seq::empty());
    assert(entries_map(e.drop_last().drop_last()) == Map::<Seq<char>, JsonTree>::empty());
    assert(entries_map(e.drop_last()) == Map::<Seq<char>, JsonTree>::empty().insert(
        "name"@,
        JsonTree::Str(name),
    ));
    let m = Map::<Seq<char>, JsonTree>::empty().insert("name"@, JsonTree::Str(name)).insert(
        "arguments"@,
        input,
    );
    assert(entries_map(e) == m);
    if readable(input, 126) {
        assert(readable(JsonTree::Str(name), 126));
        reveal_strlit("$serde_json::private::RawValue");
        assert forall|k: Seq<char>| #[trigger] m.contains_key(k) implies !is_reserved(k)
            && readable(m[k], 126) by {
            assert(k == "name"@ || k == "arguments"@);
        }
        assert(readable(JsonTree::Object(m), 127));
    }
}

/// A text that starts and ends with something else than white space is its own
/// trimmed form, also with line ends around it.
proof fn trimmed_between_lines(r: Seq<char>)
    requires
        r.len() > 0,
        !is_white(r[0]),
        !is_white(r.last()),
    ensures
        trim(seq!['\n'] + r + seq!['\n']) == r,
{
    let s = seq!['\n'] + r + seq!['\n'];
    assert(is_white('\n'));
    let a = r + seq!['\n'];
    assert(s.subrange(1, s.len() as int) =~= a);
    assert(a[0] == r[0]);
    assert(trim_start(s) == trim_start(a));
    assert(trim_start(a) == a);
    assert(a.subrange(0, a.len() - 1) =~= r);
    assert(a[a.len() - 1] == '\n');
    assert(trim_end(a) == trim_end(r));
    assert(trim_end(r) == r);
}

/// Where an envelope stands in a text, it is found: after `gap`, which holds no
/// other and ends a line, unless it is empty.
proof fn envelope_is_found(
    head: Seq<char>,
    gap: Seq<char>,
    r: Seq<char>,
    tail: Seq<char>,
    name: Seq<char>,
    input: JsonTree,
)
    requires
        find(gap, TOOL_OPEN@) is None,
        gap.len() > 0 ==> gap.last() == '\n',
        r.len() >= 2,
        r[0] == '{',
        r.last() == '}',
        find(r, TOOL_CLOSE@) is None,
        parsed(r) == Some(call_tree(name, input)),
        name.len() > 0,
    ensures
        ({
            let upto = head + gap + ("<tool_call>\n"@ + r + "\n</tool_call>"@);
            let s = upto + tail;
            &&& find_from(s, TOOL_OPEN@, head.len() as int) is Some
            &&& enveloped_calls(s, head.len() as int) == seq![(name, rendered(input))]
                + enveloped_calls(s, upto.len() as int)
        }),
{
    reveal_strlit("<tool_call>\n");
    reveal_strlit("\n</tool_call>");
    reveal_strlit("<tool_call>");
    reveal_strlit("</tool_call>");
    let upto = head + gap + ("<tool_call>\n"@ + r + "\n</tool_call>"@);
    let s = upto + tail;
    let o = TOOL_OPEN@;
    let c = TOOL_CLOSE@;
    assert(o.len() == 11 && c.len() == 12);
    let h = head.len() as int;
    let g = h + gap.len() as int;
    assert(s.subrange(g, g + 11) =~= o);
    assert(occurs_at(s, o, g));
    find_from_is_least(gap, o, 0);
    assert forall|j: int| h <= j < g implies !occurs_at(s, o, j) by {
        if occurs_at(s, o, j) {
            if j + 11 <= g {
                assert(s.subrange(j, j + 11) =~= gap.subrange(j - h, j - h + 11));
                assert(occurs_at(gap, o, j - h));
            } else {
                let k = g - 1 - j;
                assert(s[g - 1] == '\n');
                assert(s.subrange(j, j + 11)[k] == '\n');
                assert(o[k] != '\n');
            }
        }
    }
    find_from_is_least(s, o, h);
    assert(find_from(s, o, h) == Some(g));
    let first = g + 11;
    let end = g + 13 + r.len() as int;
    assert(s.subrange(end, end + 12) =~= c);
    assert(occurs_at(s, c, end));
    find_from_is_least(r, c, 0);
    assert forall|j: int| first <= j < end implies !occurs_at(s, c, j) by {
        if occurs_at(s, c, j) {
            assert(s.subrange(j, j + 12)[0] == '<');
            assert(s[j] == '<');
            if j + 12 <= end - 1 {
                assert(s.subrange(j, j + 12) =~= r.subrange(j - first - 1, j - first + 11));
                assert(occurs_at(r, c, j - first - 1));
            } else {
                let k = end - 1 - j;
                assert(s[end - 1] == '\n');
                assert(s.subrange(j, j + 12)[k] == '\n');
                assert(c[k] != '\n');
            }
        }
    }
    find_from_is_least(s, c, first);
    assert(find_from(s, c, first) == Some(end));
    let body = s.subrange(first, end);
    assert(body =~= seq!['\n'] + r + seq!['\n']);
    assert(!is_white('{') && !is_white('}'));
    trimmed_between_lines(r);
    call_tree_members(name, input);
    assert(call_in_json(r, false) == Some((name, rendered(input))));
    assert(call_in_body(trim(body)) == Some((name, rendered(input))));
    assert(end + 12 == upto.len());
}

/// A line end behind a text without envelopes adds none.
proof fn line_end_adds_no_envelope(run: Seq<char>)
    requires
        find(run, TOOL_OPEN@) is None,
    ensures
        find(run + "\n"@, TOOL_OPEN@) is None,
{
    reveal_strlit("\n");
    reveal_strlit("<tool_call>");
    let o = TOOL_OPEN@;
    let s = run + "\n"@;
    find_from_is_least(run, o, 0);
    find_from_is_least(s, o, 0);
    if let Some(j) = find(s, o) {
        if j + 11 <= run.len() {
            assert(s.subrange(j, j + 11) =~= run.subrange(j, j + 11));
            assert(occurs_at(run, o, j));
        } else {
            let k = run.len() as int - j;
            assert(s.subrange(j, j + 11)[k] == '\n');
            assert(o[k] != '\n');
        }
    }
}

/// Whatever follows, the calls in the first part of a text are read the same.
pub open spec fn reads_as(head: Seq<char>, c: Seq<Call>) -> bool {
    forall|x: Seq<char>| #[trigger]
        enveloped_calls(head + x, 0) == c + enveloped_calls(head + x, head.len() as int)
}

proof fn reads_one_more(
    head: Seq<char>,
    c: Seq<Call>,
    gap: Seq<char>,
    r: Seq<char>,
    name: Seq<char>,
    input: JsonTree,
)
    requires
        reads_as(head, c),
        find(gap, TOOL_OPEN@) is None,
        gap.len() > 0 ==> gap.last() == '\n',
        r.len() >= 2,
        r[0] == '{',
        r.last() == '}',
        find(r, TOOL_CLOSE@) is None,
        parsed(r) == Some(call_tree(name, input)),
        name.len() > 0,
    ensures
        reads_as(
            head + gap + ("<tool_call>\n"@ + r + "\n</tool_call>"@),
            c.push((name, rendered(input))),
        ),
{
    let markup = "<tool_call>\n"@ + r + "\n</tool_call>"@;
    let upto = head + gap + markup;
    let one = c.push((name, rendered(input)));
    assert forall|x: Seq<char>| #[trigger]
        enveloped_calls(upto + x, 0) == one + enveloped_calls(upto + x, upto.len() as int) by {
        let rest = gap + markup + x;
        assert(upto + x =~= head + rest);
        assert(enveloped_calls(head + rest, 0) == c + enveloped_calls(
            head + rest,
            head.len() as int,
        ));
        envelope_is_found(head, gap, r, x, name, input);
        let after = enveloped_calls(upto + x, upto.len() as int);
        assert(c + (seq![(name, rendered(input))] + after) =~= one + after);
    }
}

/// A call as an envelope. Where the call survives, reading the envelope gives it
/// back: its name, and the text of its input.
pub fn tool_call_markup(name: &str, input: &Json) -> (r: String)
    ensures
        r@ == call_markup(name@, input@),
        survives(name@, input@) ==> ({
            let body = rendered(call_tree(name@, input@));
            &&& body.len() >= 2
            &&& body[0] == '{'
            &&& body.last() == '}'
            &&& parsed(body) == Some(call_tree(name@, input@))
        }),
        survives(name@, input@) ==> tool_calls(r@) == seq![(name@, rendered(input@))],
{
    let body = call_json(name, input).to_text();
    proof {
        if survives(name@, input@) {
            call_tree_members(name@, input@);
            let empty = Seq::<char>::empty();
            find_from_is_least(empty, TOOL_OPEN@, 0);
            reveal_strlit("<tool_call>");
            envelope_is_found(empty, empty, body@, empty, name@, input@);
            let markup = call_markup(name@, input@);
            assert(empty + empty + markup + empty =~= markup);
            assert(empty + empty + markup =~= markup);
            nothing_follows(markup);
        }
    }
    let mut out = copy("<tool_call>\n");
    out.append(body.as_str());
    out.append("\n</tool_call>");
    out
}

/// At the end of a text no envelope begins.
proof fn nothing_follows(s: Seq<char>)
    ensures
        enveloped_calls(s, s.len() as int) =~= Seq::<Call>::empty(),
{
    reveal_strlit("<tool_call>");
    assert(find_from(s, TOOL_OPEN@, s.len() as int) is None);
}

/// What a model reads of a message: its texts and results as they are, its calls
/// as envelopes on lines of their own.
pub open spec fn history_text(b: Seq<Block>) -> Seq<char>
    decreases b.len(),
{
    if b.len() == 0 {
        Seq::empty()
    } else {
        let rest = history_text(b.drop_last());
        match b.last() {
            Block::Text(t) => rest + t,
            Block::ToolResult(_, c) => rest + c,
            Block::ToolUse(_, name, input) => if rest.len() > 0 {
                rest + "\n"@ + call_markup(name, input)
            } else {
                call_markup(name, input)
            },
        }
    }
}

/// The calls of a message, in order.
pub open spec fn message_calls(b: Seq<Block>) -> Seq<Call>
    decreases b.len(),
{
    if b.len() == 0 {
        Seq::empty()
    } else {
        let rest = message_calls(b.drop_last());
        match b.last() {
            Block::ToolUse(_, name, input) => rest.push((name, rendered(input))),
            _ => rest,
        }
    }
}

/// The text of a message behind its last call.
pub open spec fn last_run(b: Seq<Block>) -> Seq<char>
    decreases b.len(),
{
    if b.len() == 0 {
        Seq::empty()
    } else {
        match b.last() {
            Block::Text(t) => last_run(b.drop_last()) + t,
            Block::ToolResult(_, c) => last_run(b.drop_last()) + c,
            Block::ToolUse(_, _, _) => Seq::empty(),
        }
    }
}

/// Writing a message and reading it back: every call survives, and no text opens
/// an envelope.
pub open spec fn faithful(b: Seq<Block>) -> bool
    decreases b.len(),
{
    b.len() > 0 ==> faithful(b.drop_last()) && match b.last() {
        Block::ToolUse(_, name, input) => survives(name, input),
        _ => find(last_run(b), TOOL_OPEN@) is None,
    }
}

/// The part of a message's text up to the end of its last call reads as its
/// calls.
pub open spec fn so_far(b: Seq<Block>, head: Seq<char>) -> bool {
    &&& history_text(b) == head + last_run(b)
    &&& reads_as(head, message_calls(b))
    &&& message_calls(b).len() > 0 ==> find(history_text(b), TOOL_OPEN@) is Some
    &&& message_calls(b).len() == 0 ==> head.len() == 0
    &&& find(last_run(b), TOOL_OPEN@) is None
}

/// One more block keeps the text readable.
proof fn one_more_block(b: Seq<Block>, head: Seq<char>) -> (next: Seq<char>)
    requires
        b.len() > 0,
        faithful(b),
        so_far(b.drop_last(), head),
        b.last() matches Block::ToolUse(_, name, input) ==> {
            let r = rendered(call_tree(name, input));
            &&& r.len() >= 2
            &&& r[0] == '{'
            &&& r.last() == '}'
            &&& parsed(r) == Some(call_tree(name, input))
        },
    ensures
        so_far(b, next),
{
    let rest = b.drop_last();
    let before = history_text(rest);
    match b.last() {
        Block::Text(t) => {
            assert(before + t =~= head + (last_run(rest) + t));
            if message_calls(rest).len() > 0 {
                opening_stays(before, t);
            }
            head
        },
        Block::ToolResult(_, t) => {
            assert(before + t =~= head + (last_run(rest) + t));
            if message_calls(rest).len() > 0 {
                opening_stays(before, t);
            }
            head
        },
        Block::ToolUse(_, name, input) => {
            let r = rendered(call_tree(name, input));
            let markup = call_markup(name, input);
            let run = last_run(rest);
            let gap = if before.len() > 0 {
                run + "\n"@
            } else {
                Seq::empty()
            };
            reveal_strlit("\n");
            reveal_strlit("<tool_call>");
            if before.len() > 0 {
                line_end_adds_no_envelope(run);
            } else {
                find_from_is_least(gap, TOOL_OPEN@, 0);
            }
            reads_one_more(head, message_calls(rest), gap, r, name, input);
            let next = head + gap + markup;
            assert(history_text(b) =~= next);
            assert(next + Seq::<char>::empty() =~= next);
            envelope_is_found(head, gap, r, Seq::empty(), name, input);
            found_from_is_found(next, head.len() as int);
            find_from_is_least(Seq::empty(), TOOL_OPEN@, 0);
            next
        },
    }
}

/// A text that goes on still opens its envelope.
proof fn opening_stays(s: Seq<char>, t: Seq<char>)
    requires
        find(s, TOOL_OPEN@) is Some,
    ensures
        find(s + t, TOOL_OPEN@) is Some,
{
    let o = TOOL_OPEN@;
    find_from_is_least(s, o, 0);
    find_from_is_least(s + t, o, 0);
    let i = find(s, o)->Some_0;
    assert((s + t).subrange(i, i + o.len()) =~= s.subrange(i, i + o.len()));
    assert(occurs_at(s + t, o, i));
}

/// What is found from a position on is found.
proof fn found_from_is_found(s: Seq<char>, at: int)
    requires
        0 <= at,
        find_from(s, TOOL_OPEN@, at) is Some,
    ensures
        find(s, TOOL_OPEN@) is Some,
{
    find_from_is_least(s, TOOL_OPEN@, at);
    find_from_is_least(s, TOOL_OPEN@, 0);
}

/// What a model reads of a message. A faithful message with calls reads back as
/// its calls.
pub fn message_text(msg: &Message) -> (r: String)
    ensures
        r@ == history_text(blocks(msg.content@)),
        faithful(blocks(msg.content@)) && message_calls(blocks(msg.content@)).len() > 0
            ==> tool_calls(r@) == message_calls(blocks(msg.content@)),
{
    let mut out = String::new();
    let mut i: usize = 0;
    let ghost all = blocks(msg.content@);
    let ghost mut head: Seq<char> = Seq::empty();
    proof {
        reveal_strlit("<tool_call>");
        let none = all.subrange(0, 0);
        find_from_is_least(Seq::empty(), TOOL_OPEN@, 0);
        assert(history_text(none) =~= head + last_run(none));
        assert forall|x: Seq<char>| #[trigger]
            enveloped_calls(head + x, 0) == message_calls(none) + enveloped_calls(
                head + x,
                head.len() as int,
            ) by {
            assert(message_calls(none) + enveloped_calls(head + x, 0) =~= enveloped_calls(
                head + x,
                0,
            ));
        }
    }
    while i < msg.content.len()
        invariant
            i <= msg.content.len(),
            all == blocks(msg.content@),
            out@ == history_text(all.subrange(0, i as int)),
            faithful(all.subrange(0, i as int)) ==> so_far(all.subrange(0, i as int), head),
        decreases msg.content.len() - i,
    {
        let ghost part = all.subrange(0, i + 1);
        assert(part.drop_last() =~= all.subrange(0, i as int));
        assert(part.last() == msg.content@[i as int]@);
        match &msg.content[i] {
            ContentBlock::Text { text } => {
                out.append(text.as_str());
            },
            ContentBlock::ToolResult { tool_use_id: _, content } => {
                out.append(content.as_str());
            },
            ContentBlock::ToolUse { id: _, name, input } => {
                let markup = tool_call_markup(name.as_str(), input);
                if out.as_str().is_empty() {
                    out = markup;
                } else {
                    out.append("\n");
                    out.append(markup.as_str());
                    assert(out@ =~= history_text(part));
                }
            },
        }
        proof {
            if faithful(part) {
                head = one_more_block(part, head);
            }
        }
        i = i + 1;
    }
    assert(all.subrange(0, i as int) =~= all);
    proof {
        if faithful(all) && message_calls(all).len() > 0 {
            let run = last_run(all);
            assert(enveloped_calls(head + run, 0) == message_calls(all) + enveloped_calls(
                head + run,
                head.len() as int,
            ));
            no_envelope_behind(head, run);
            assert(message_calls(all) + Seq::<Call>::empty() =~= message_calls(all));
        }
    }
    out
}

/// A text without envelopes holds no calls of envelopes, wherever it stands.
proof fn no_envelope_behind(head: Seq<char>, run: Seq<char>)
    requires
        find(run, TOOL_OPEN@) is None,
    ensures
        enveloped_calls(head + run, head.len() as int) =~= Seq::<Call>::empty(),
{
    let s = head + run;
    let h = head.len() as int;
    find_from_is_least(s, TOOL_OPEN@, h);
    find_from_is_least(run, TOOL_OPEN@, 0);
    if let Some(j) = find_from(s, TOOL_OPEN@, h) {
        assert(s.subrange(j, j + TOOL_OPEN@.len()) =~= run.subrange(
            j - h,
            j - h + TOOL_OPEN@.len(),
        ));
        assert(occurs_at(run, TOOL_OPEN@, j - h));
    }
}

pub open spec fn role_name(role: Role) -> Seq<char> {
    match role {
        Role::System => "system"@,
        Role::User => "user"@,
        Role::Assistant => "assistant"@,
        Role::Tool => "tool"@,
    }
}

/// The name that a chat template has for a role.
pub fn role_str(role: &Role) -> (r: &'static str)
    ensures
        r@ == role_name(*role),
{
    match role {
        Role::System => "system",
        Role::User => "user",
        Role::Assistant => "assistant",
        Role::Tool => "tool",
    }
}

/// A message as a chat template takes it.
pub struct Conversation {
    pub role: &'static str,
    pub content: String,
    pub tool_calls: Option<Json>,
}

/// A call as the harmony template takes it: the input stays an object.
pub open spec fn harmony_call(name: Seq<char>, input: JsonTree) -> JsonTree {
    JsonTree::Object(
        entries_map(
            seq![
                ("type"@, JsonTree::Str("function"@)),
                ("function"@, call_tree(name, input)),
            ],
        ),
    )
}

pub open spec fn harmony_calls(b: Seq<Block>) -> Seq<JsonTree>
    decreases b.len(),
{
    if b.len() == 0 {
        Seq::empty()
    } else {
        let rest = harmony_calls(b.drop_last());
        match b.last() {
            Block::ToolUse(_, name, input) => rest.push(harmony_call(name, input)),
            _ => rest,
        }
    }
}

/// The texts and results of a message, joined.
pub open spec fn harmony_text(b: Seq<Block>) -> Seq<char>
    decreases b.len(),
{
    if b.len() == 0 {
        Seq::empty()
    } else {
        let rest = harmony_text(b.drop_last());
        match b.last() {
            Block::Text(t) => rest + t,
            Block::ToolResult(_, c) => rest + c,
            Block::ToolUse(_, _, _) => rest,
        }
    }
}

fn harmony_call_json(name: &str, input: &Json) -> (r: Json)
    ensures
        r@ == harmony_call(name@, input@),
{
    let call = call_json(name, input);
    let mut v: Vec<(String, Json)> = Vec::new();
    v.push((copy("type"), json_str("function")));
    v.push((copy("function"), call));
    proof {
        pairs_index(v@);
        assert(pairs(v@) =~= seq![
            ("type"@, JsonTree::Str("function"@)),
            ("function"@, call_tree(name@, input@)),
        ]);
    }
    Json::Object(v)
}

/// A message for the harmony template: the calls stand apart from the text, and
/// are left out where there are none.
pub fn harmony_conversation(msg: &Message) -> (r: Conversation)
    ensures
        r.role@ == role_name(msg.role),
        r.content@ == harmony_text(blocks(msg.content@)),
        ({
            let c = harmony_calls(blocks(msg.content@));
            match r.tool_calls {
                Some(j) => c.len() > 0 && j@ == JsonTree::Array(c),
                None => c.len() == 0,
            }
        }),
{
    let mut text = String::new();
    let mut calls: Vec<Json> = Vec::new();
    let mut i: usize = 0;
    let ghost all = blocks(msg.content@);
    assert(trees(calls@) =~= Seq::empty());
    while i < msg.content.len()
        invariant
            i <= msg.content.len(),
            all == blocks(msg.content@),
            text@ == harmony_text(all.subrange(0, i as int)),
            trees(calls@) == harmony_calls(all.subrange(0, i as int)),
        decreases msg.content.len() - i,
    {
        let ghost part = all.subrange(0, i + 1);
        assert(part.drop_last() =~= all.subrange(0, i as int));
        assert(part.last() == msg.content@[i as int]@);
        match &msg.content[i] {
            ContentBlock::Text { text: t } => {
                text.append(t.as_str());
            },
            ContentBlock::ToolResult { tool_use_id: _, content } => {
                text.append(content.as_str());
            },
            ContentBlock::ToolUse { id: _, name, input } => {
                let ghost before = calls@;
                let c = harmony_call_json(name.as_str(), input);
                calls.push(c);
                proof {
                    trees_index(before);
                    trees_index(calls@);
                    assert(trees(calls@) =~= trees(before).push(c@));
                }
            },
        }
        i = i + 1;
    }
    assert(all.subrange(0, i as int) =~= all);
    proof {
        trees_index(calls@);
    }
    Conversation {
        role: role_str(&msg.role),
        content: text,
        tool_calls: if calls.len() > 0 {
            Some(Json::Array(calls))
        } else {
            None
        },
    }
}

/// A template that renders calls itself shows its channel markers.
pub open spec fn is_harmony(template: Seq<char>) -> bool {
    crate::text::contains(template, "<|channel|>"@)
}

/// A message for a template: with its calls apart for a harmony template, with
/// its calls in its text for any other.
pub fn conversation(template: &str, msg: &Message) -> (r: Conversation)
    ensures
        r.role@ == role_name(msg.role),
        is_harmony(template@) ==> {
            let c = harmony_calls(blocks(msg.content@));
            &&& r.content@ == harmony_text(blocks(msg.content@))
            &&& match r.tool_calls {
                Some(j) => c.len() > 0 && j@ == JsonTree::Array(c),
                None => c.len() == 0,
            }
        },
        !is_harmony(template@) ==> r.content@ == history_text(blocks(msg.content@))
            && r.tool_calls is None,
{
    if crate::text::has(template, "<|channel|>") {
        harmony_conversation(msg)
    } else {
        Conversation { role: role_str(&msg.role), content: message_text(msg), tool_calls: None }
    }
}

/// A tool as a chat template takes it.
pub open spec fn tool_tree(name: Seq<char>, description: Seq<char>, schema: JsonTree) -> JsonTree {
    JsonTree::Object(
        entries_map(
            seq![
                ("type"@, JsonTree::Str("function"@)),
                (
                    "function"@,
                    JsonTree::Object(
                        entries_map(
                            seq![
                                ("name"@, JsonTree::Str(name)),
                                ("description"@, JsonTree::Str(description)),
                                ("parameters"@, schema),
                            ],
                        ),
                    ),
                ),
            ],
        ),
    )
}

fn tool_json(t: &ToolDef) -> (r: Json)
    ensures
        r@ == tool_tree(t.name@, t.description@, t.input_schema@),
{
    let mut f: Vec<(String, Json)> = Vec::new();
    f.push((copy("name"), json_str(t.name.as_str())));
    f.push((copy("description"), json_str(t.description.as_str())));
    f.push((copy("parameters"), t.input_schema.copy()));
    let ghost fields = seq![
        ("name"@, JsonTree::Str(t.name@)),
        ("description"@, JsonTree::Str(t.description@)),
        ("parameters"@, t.input_schema@),
    ];
    proof {
        pairs_index(f@);
        assert(pairs(f@) =~= fields);
    }
    let mut v: Vec<(String, Json)> = Vec::new();
    v.push((copy("type"), json_str("function")));
    v.push((copy("function"), Json::Object(f)));
    proof {
        pairs_index(v@);
        assert(pairs(v@) =~= seq![
            ("type"@, JsonTree::Str("function"@)),
            ("function"@, JsonTree::Object(entries_map(fields))),
        ]);
    }
    Json::Object(v)
}

/// The tools for a chat template: a list, empty where there are none, for a
/// template may ask for its length.
pub fn tools_json(tools: &Vec<ToolDef>) -> (r: Json)
    ensures
        r@ == JsonTree::Array(
            Seq::new(
                tools@.len(),
                |i: int| tool_tree(tools@[i].name@, tools@[i].description@, tools@[i].input_schema@),
            ),
        ),
{
    let mut out: Vec<Json> = Vec::new();
    let mut i: usize = 0;
    while i < tools.len()
        invariant
            i <= tools.len(),
            out@.len() == i,
            forall|k: int|
                0 <= k < i ==> (#[trigger] out@[k])@ == tool_tree(
                    tools@[k].name@,
                    tools@[k].description@,
                    tools@[k].input_schema@,
                ),
        decreases tools.len() - i,
    {
        out.push(tool_json(&tools[i]));
        i = i + 1;
    }
    proof {
        trees_index(out@);
        assert(trees(out@) =~= Seq::new(
            tools@.len(),
            |i: int| tool_tree(tools@[i].name@, tools@[i].description@, tools@[i].input_schema@),
        ));
    }
    Json::Array(out)
}

/// The `bos_token` of a tokenizer's configuration: a string, or the `content` of
/// an object.
pub open spec fn bos_token_in(t: JsonTree) -> Option<Seq<char>> {
    match member(t, "bos_token"@) {
        Some(b) => match b {
            JsonTree::Str(s) => Some(s),
            JsonTree::Object(_) => string_in(member(b, "content"@)),
            _ => None,
        },
        None => None,
    }
}

/// The token that starts a text, read in the text of a tokenizer's configuration.
pub fn read_bos_token(text: &str) -> (r: Option<String>)
    ensures
        ({
            let token = match parsed(text@) {
                Some(t) => bos_token_in(t),
                None => None,
            };
            match r {
                Some(s) => token == Some(s@),
                None => token is None,
            }
        }),
{
    match crate::json::parse_json(text) {
        Some(v) => match v.get("bos_token") {
            Some(b) => match b.as_str() {
                Some(s) => Some(s.clone()),
                None => if b.is_object() {
                    match b.get_str("content") {
                        Some(s) => Some(s.clone()),
                        None => None,
                    }
                } else {
                    None
                },
            },
            None => None,
        },
        None => None,
    }
}

// ---------------------------------------------------------------------------
// Laws
// ---------------------------------------------------------------------------

/// An envelope is found whether or not tools are offered, and always at the same
/// place.
pub proof fn envelopes_are_always_markup(s: Seq<char>)
    requires
        find(s, TOOL_OPEN@) is Some,
    ensures
        markup_start(s, true) == find(s, TOOL_OPEN@),
        markup_start(s, false) == find(s, TOOL_OPEN@),
{
}

/// A loose call starts with a brace, and the first key behind it is `name`.
pub proof fn loose_calls_are_named(s: Seq<char>, at: int)
    requires
        0 <= at,
    ensures
        match named_brace(s, at) {
            Some(i) => at <= i < s.len() && s[i] == '{' && starts_with(
                trim_start(from(s, i + 1)),
                "\"name\""@,
            ),
            None => true,
        },
    decreases s.len() - at,
{
    if at < s.len() {
        loose_calls_are_named(s, at + 1);
    }
}

/// Markup begins inside the text: at an envelope, at the brace of a loose call or
/// at the fence round it. Without tools only an envelope is markup.
pub proof fn markup_begins_where_it_stands(s: Seq<char>, tools: bool)
    ensures
        markup_start(s, tools) matches Some(p) ==> {
            &&& 0 <= p < s.len()
            &&& occurs_at(s, "<tool_call>"@, p) || (tools && (s[p] == '{' || occurs_at(
                s,
                "```"@,
                p,
            )))
        },
        occurs_at(s, "<tool_call>"@, 0) ==> markup_start(s, tools) == Some(0int),
        markup_start(s, tools) is None ==> forall|j: int| !occurs_at(s, "<tool_call>"@, j),
        !tools && markup_start(s, tools) is Some ==> markup_start(s, tools) == find(
            s,
            "<tool_call>"@,
        ),
{
    reveal_strlit("<tool_call>");
    reveal_strlit("```");
    let o = TOOL_OPEN@;
    find_from_is_least(s, o, 0);
    named_brace_is_first(s, 0);
    if let Some(b) = named_brace(s, 0) {
        let head = s.subrange(0, b);
        crate::text::rfind_is_last(head, "```"@);
        if let Some(f) = rfind(head, "```"@) {
            assert(s.subrange(f, f + 3) =~= head.subrange(f, f + 3));
        }
    }
}

proof fn named_brace_is_first(s: Seq<char>, at: int)
    requires
        0 <= at,
    ensures
        match named_brace(s, at) {
            Some(b) => {
                &&& at <= b < s.len()
                &&& s[b] == '{'
                &&& starts_with(trim_start(from(s, b + 1)), "\"name\""@)
                &&& forall|k: int|
                    at <= k < b ==> !(#[trigger] s[k] == '{' && starts_with(
                        trim_start(from(s, k + 1)),
                        "\"name\""@,
                    ))
            },
            None => forall|k: int|
                at <= k < s.len() ==> !(#[trigger] s[k] == '{' && starts_with(
                    trim_start(from(s, k + 1)),
                    "\"name\""@,
                )),
        },
    decreases s.len() - at,
{
    if at < s.len() && !(s[at] == '{' && starts_with(trim_start(from(s, at + 1)), "\"name\""@)) {
        named_brace_is_first(s, at + 1);
    }
}

/// With tools, a loose call is markup from its brace on, or from the fence that
/// opens right before it; a brace with another first key is not.
pub proof fn a_loose_call_is_markup(s: Seq<char>)
    requires
        find(s, "<tool_call>"@) is None,
    ensures
        named_brace(s, 0) is None ==> markup_start(s, true) is None,
        named_brace(s, 0) matches Some(b) ==> {
            &&& markup_start(s, true) is Some
            &&& rfind(s.subrange(0, b), "```"@) is None ==> markup_start(s, true) == Some(b)
            &&& rfind(s.subrange(0, b), "```"@) matches Some(f) ==> {
                &&& (forall|k: int|
                    f + 3 <= k < b ==> alphanumeric(#[trigger] s[k]) || is_white(s[k]))
                    ==> markup_start(s, true) == Some(f)
                &&& (exists|k: int|
                    f + 3 <= k < b && !alphanumeric(#[trigger] s[k]) && !is_white(s[k]))
                    ==> markup_start(s, true) == Some(b)
            }
        },
        forall|b: int|
            0 <= b < s.len() && #[trigger] s[b] == '{' && starts_with(
                trim_start(from(s, b + 1)),
                "\"name\""@,
            ) ==> (named_brace(s, 0) matches Some(first) && first <= b),
{
    named_brace_is_first(s, 0);
}

/// The text of a message for a harmony template is that of its parts in order: texts
/// and results, but not calls.
pub proof fn harmony_text_adds_up(a: Seq<Block>, b: Seq<Block>, x: Block)
    ensures
        harmony_text(a + b) == harmony_text(a) + harmony_text(b),
        x is Text ==> harmony_text(seq![x]) == x->Text_0,
        x is ToolUse ==> harmony_text(seq![x]).len() == 0,
    decreases b.len(),
{
    let none = Seq::<Block>::empty();
    assert(seq![x].drop_last() =~= none);
    assert(seq![x].last() == x);
    assert(harmony_text(none) =~= Seq::empty());
    if x is Text {
        assert(harmony_text(seq![x]) =~= x->Text_0);
    }
    if x is ToolUse {
        assert(harmony_text(seq![x]) =~= Seq::empty());
    }
    if b.len() == 0 {
        assert(a + b =~= a);
        assert(harmony_text(a) + harmony_text(b) =~= harmony_text(a));
    } else {
        harmony_text_adds_up(a, b.drop_last(), x);
        assert((a + b).drop_last() =~= a + b.drop_last());
        assert((a + b).last() == b.last());
        assert(harmony_text(a + b) =~= harmony_text(a) + harmony_text(b));
    }
}


/// The calls of a message for a harmony template are its calls in order.
pub proof fn harmony_calls_add_up(a: Seq<Block>, b: Seq<Block>, x: Block)
    ensures
        harmony_calls(a + b) == harmony_calls(a) + harmony_calls(b),
        !(x is ToolUse) ==> harmony_calls(seq![x]).len() == 0,
    decreases b.len(),
{
    let none = Seq::<Block>::empty();
    assert(seq![x].drop_last() =~= none);
    assert(seq![x].last() == x);
    assert(harmony_calls(none) =~= Seq::empty());
    if !(x is ToolUse) {
        assert(harmony_calls(seq![x]) =~= Seq::empty());
    }
    if b.len() == 0 {
        assert(a + b =~= a);
        assert(harmony_calls(a) + harmony_calls(b) =~= harmony_calls(a));
    } else {
        harmony_calls_add_up(a, b.drop_last(), x);
        assert((a + b).drop_last() =~= a + b.drop_last());
        assert((a + b).last() == b.last());
        assert(harmony_calls(a + b) =~= harmony_calls(a) + harmony_calls(b));
    }
}


/// A call for a harmony template is a function with its name and its input, which
/// stays a value; a tool for a template is one with its name, its description and
/// its schema.
pub proof fn functions_are_written_whole(
    id: Seq<char>,
    name: Seq<char>,
    description: Seq<char>,
    input: JsonTree,
)
    ensures
        harmony_calls(seq![Block::ToolUse(id, name, input)]) == seq![harmony_call(name, input)],
        member(harmony_call(name, input), "type"@) == Some(JsonTree::Str("function"@)),
        crate::json::field_of(member(harmony_call(name, input), "function"@), "name"@) == Some(
            JsonTree::Str(name),
        ),
        crate::json::field_of(member(harmony_call(name, input), "function"@), "arguments"@)
            == Some(input),
        member(tool_tree(name, description, input), "type"@) == Some(JsonTree::Str("function"@)),
        crate::json::field_of(
            member(tool_tree(name, description, input), "function"@),
            "name"@,
        ) == Some(JsonTree::Str(name)),
        crate::json::field_of(
            member(tool_tree(name, description, input), "function"@),
            "description"@,
        ) == Some(JsonTree::Str(description)),
        crate::json::field_of(
            member(tool_tree(name, description, input), "function"@),
            "parameters"@,
        ) == Some(input),
{
    function_keys_differ();
    let b = seq![Block::ToolUse(id, name, input)];
    let none = Seq::<Block>::empty();
    assert(b.drop_last() =~= none);
    assert(harmony_calls(none) =~= Seq::empty());
    assert(harmony_calls(b) =~= seq![harmony_call(name, input)]);
    call_tree_members(name, input);
    let e = seq![
        ("type"@, JsonTree::Str("function"@)),
        ("function"@, call_tree(name, input)),
    ];
    crate::json::an_entry_is_a_member(e, 0);
    crate::json::an_entry_is_a_member(e, 1);
    let f = seq![
        ("name"@, JsonTree::Str(name)),
        ("description"@, JsonTree::Str(description)),
        ("parameters"@, input),
    ];
    crate::json::an_entry_is_a_member(f, 0);
    crate::json::an_entry_is_a_member(f, 1);
    crate::json::an_entry_is_a_member(f, 2);
    let g = seq![
        ("type"@, JsonTree::Str("function"@)),
        ("function"@, JsonTree::Object(entries_map(f))),
    ];
    crate::json::an_entry_is_a_member(g, 0);
    crate::json::an_entry_is_a_member(g, 1);
}

/// Keys that stand in one object differ.
proof fn function_keys_differ()
    ensures
        "type"@ != "function"@,
        "name"@ != "description"@,
        "name"@ != "parameters"@,
        "description"@ != "parameters"@,
{
    reveal_strlit("type");
    reveal_strlit("function");
    reveal_strlit("name");
    reveal_strlit("description");
    reveal_strlit("parameters");
    assert("type"@.len() != "function"@.len());
    assert("name"@.len() != "description"@.len());
    assert("name"@.len() != "parameters"@.len());
    assert("description"@.len() != "parameters"@.len());
}

/// A message reads as its texts and results as they are, and each of its calls as an
/// envelope, on a line of its own where something stands before it.
pub proof fn a_message_reads_as_its_parts(b: Seq<Block>, x: Block)
    ensures
        history_text(Seq::empty()).len() == 0,
        x matches Block::Text(t) ==> history_text(b.push(x)) == history_text(b) + t,
        x matches Block::ToolResult(_, c) ==> history_text(b.push(x)) == history_text(b) + c,
        x matches Block::ToolUse(_, name, input) ==> {
            &&& history_text(b).len() > 0 ==> history_text(b.push(x)) == history_text(b) + "\n"@
                + call_markup(name, input)
            &&& history_text(b).len() == 0 ==> history_text(b.push(x)) == call_markup(name, input)
        },
{
    assert(b.push(x).drop_last() =~= b);
}

/// The name of a call that is being written is read as soon as its closing quote is
/// there.
pub proof fn a_name_is_read_once_it_is_closed(
    gap: Seq<char>,
    colon: Seq<char>,
    space: Seq<char>,
    name: Seq<char>,
    rest: Seq<char>,
)
    requires
        find(gap, "\"name\""@) is None,
        !gap.contains('"'),
        !colon.contains(':'),
        !space.contains('"'),
        !name.contains('"'),
    ensures
        name_value(
            gap + "\"name\""@ + colon + seq![':'] + space + seq!['"'] + name + seq!['"'] + rest,
        ) == Some(name),
        name_value(gap + "\"name\""@ + colon + seq![':'] + space + seq!['"'] + name) is None,
{
    reveal_strlit("\"name\"");
    let k = "\"name\""@;
    let g = gap.len() as int;
    let c = g + 6 + colon.len() as int;
    let q = c + 1 + space.len() as int;
    let e = q + 1 + name.len() as int;
    let t = gap + k + colon + seq![':'] + space + seq!['"'] + name;
    let s = t + seq!['"'] + rest;
    assert(s.subrange(0, g) =~= gap && t.subrange(0, g) =~= gap);
    assert(s.subrange(g, g + 6) =~= k && t.subrange(g, g + 6) =~= k);
    name_key_is_found(s, gap, g);
    name_key_is_found(t, gap, g);
    assert forall|j: int| g + 6 <= j < c implies s[j] != ':' && t[j] != ':' by {
        assert(s[j] == colon[j - g - 6]);
        assert(t[j] == colon[j - g - 6]);
    }
    assert forall|j: int| c + 1 <= j < q implies s[j] != '"' && t[j] != '"' by {
        assert(s[j] == space[j - c - 1]);
        assert(t[j] == space[j - c - 1]);
    }
    assert forall|j: int| q + 1 <= j < e implies s[j] != '"' && t[j] != '"' by {
        assert(s[j] == name[j - q - 1]);
        assert(t[j] == name[j - q - 1]);
    }
    crate::text::char_from_is_least(s, ':', g + 6);
    crate::text::char_from_is_least(t, ':', g + 6);
    crate::text::char_from_is_least(s, '"', c + 1);
    crate::text::char_from_is_least(t, '"', c + 1);
    crate::text::char_from_is_least(s, '"', q + 1);
    crate::text::char_from_is_least(t, '"', q + 1);
    assert(s[c] == ':' && t[c] == ':');
    assert(s[q] == '"' && t[q] == '"');
    assert(s[e] == '"');
    assert(s.subrange(q + 1, e) =~= name);
}

proof fn name_key_is_found(s: Seq<char>, gap: Seq<char>, g: int)
    requires
        g == gap.len(),
        g + 6 <= s.len(),
        s.subrange(0, g) == gap,
        s.subrange(g, g + 6) == "\"name\""@,
        !gap.contains('"'),
    ensures
        find(s, "\"name\""@) == Some(g),
{
    reveal_strlit("\"name\"");
    let k = "\"name\""@;
    find_from_is_least(s, k, 0);
    assert(occurs_at(s, k, g));
    assert forall|j: int| 0 <= j < g implies !occurs_at(s, k, j) by {
        if occurs_at(s, k, j) {
            assert(s.subrange(j, j + 6)[0] == '"');
            assert(s.subrange(0, g)[j] == '"');
            assert(gap[j] == '"');
        }
    }
}

/// A start token is named as a string, or as an object with its content.
pub proof fn a_start_token_is_named(t: JsonTree, s: Seq<char>)
    ensures
        member(t, "bos_token"@) == Some(JsonTree::Str(s)) ==> bos_token_in(t) == Some(s),
        member(t, "bos_token"@) is None ==> bos_token_in(t) is None,
        member(t, "bos_token"@) matches Some(b) ==> (b is Object ==> bos_token_in(t) == string_in(
            member(b, "content"@),
        )),
{
}

/// A call is written as an object with its name and its arguments, in an envelope on
/// lines of its own.
pub proof fn a_call_is_written_whole(name: Seq<char>, input: JsonTree)
    ensures
        member(call_tree(name, input), "name"@) == Some(JsonTree::Str(name)),
        member(call_tree(name, input), "arguments"@) == Some(input),
        call_markup(name, input) == "<tool_call>\n"@ + rendered(call_tree(name, input))
            + "\n</tool_call>"@,
{
    call_tree_members(name, input);
}

/// A role goes by its own name, and a template with channels is a harmony template.
pub proof fn roles_go_by_their_names(a: Seq<char>, b: Seq<char>)
    ensures
        role_name(Role::System) == "system"@,
        role_name(Role::User) == "user"@,
        role_name(Role::Assistant) == "assistant"@,
        role_name(Role::Tool) == "tool"@,
        is_harmony(a + "<|channel|>"@ + b),
{
    let p = "<|channel|>"@;
    let s = a + p + b;
    let n = a.len() as int;
    find_from_is_least(s, p, 0);
    assert(s.subrange(n, n + p.len()) =~= p);
    assert(occurs_at(s, p, n));
}

/// The calls of a message are those of its parts, in order.
pub proof fn calls_of_a_message_add_up(a: Seq<Block>, b: Seq<Block>)
    ensures
        message_calls(a + b) == message_calls(a) + message_calls(b),
    decreases b.len(),
{
    if b.len() == 0 {
        assert(a + b =~= a);
        assert(message_calls(a) + message_calls(b) =~= message_calls(a));
    } else {
        assert((a + b).drop_last() =~= a + b.drop_last());
        calls_of_a_message_add_up(a, b.drop_last());
        assert(message_calls(a + b) =~= message_calls(a) + message_calls(b));
    }
}

/// A part of a message that asks for a tool is one call, with the name and the
/// arguments that it gives; any other part is none.
pub proof fn a_part_is_a_call_where_it_asks_for_a_tool(x: Block)
    ensures
        x matches Block::ToolUse(_, name, input) ==> message_calls(seq![x]) =~= seq![
            (name, rendered(input)),
        ],
        !(x is ToolUse) ==> message_calls(seq![x]) =~= Seq::<Call>::empty(),
{
    assert(seq![x].drop_last() =~= Seq::<Block>::empty());
    assert(message_calls(Seq::<Block>::empty()) =~= Seq::<Call>::empty());
}

} // verus!
