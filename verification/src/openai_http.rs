//! OpenAI-compatible HTTP backend: the request that is posted to
//! `/v1/chat/completions` and the server-sent events that come back.

use crate::chat::{
    blocks, events, joined_text, message_text, message_tool_calls, tool_call_views, tool_uses,
    Block, ChatEvent, ContentBlock, Event, Message, Role, StopReason, ToolCall, ToolCallView,
    ToolDef,
};
use crate::json::{
    an_entry_is_a_member, array_in, entries_map, field, field_of, integer_in, item, item_of,
    items_in, json_str,
    json_u64, maybe, member, number_of, pairs, parse_json, parsed, string_in, text_in,
    the_last_entry_counts, trees, trees_index, without_an_entry_no_member,
    u64_in, Json, JsonTree,
};
use crate::text::{
    chars_of, copy, ends_with, find, find_in_rest, from, has_prefix, has_suffix, position, same,
    starts_with, substr, trim, trim_str,
};
use vstd::prelude::*;
use vstd::utf8::{decode_utf8, valid_utf8};

verus! {

// ---------------------------------------------------------------------------
// Endpoints
// ---------------------------------------------------------------------------

/// Where the server answers and what it is asked for.
pub struct OpenAiHttpBackend {
    /// Base URL, including `/v1` if needed.
    pub endpoint: String,
    pub model: String,
    /// Bearer token for authenticated remotes.
    pub api_key: Option<String>,
}

/// `s` without any number of `/v1` at its end.
pub open spec fn without_v1(s: Seq<char>) -> Seq<char>
    decreases s.len(),
{
    if s.len() >= 3 && ends_with(s, "/v1"@) {
        without_v1(s.subrange(0, s.len() - 3))
    } else {
        s
    }
}

impl OpenAiHttpBackend {
    pub fn new(endpoint: &str, model: &str) -> (r: Self)
        ensures
            r.endpoint@ == endpoint@,
            r.model@ == model@,
            r.api_key is None,
    {
        OpenAiHttpBackend { endpoint: copy(endpoint), model: copy(model), api_key: None }
    }

    /// The endpoint with a bearer token; an empty key is none.
    pub fn with_api_key(self, key: &str) -> (r: Self)
        ensures
            r.endpoint@ == self.endpoint@,
            r.model@ == self.model@,
            key@.len() == 0 ==> r.api_key is None,
            key@.len() > 0 ==> (r.api_key matches Some(k) && k@ == key@),
    {
        OpenAiHttpBackend {
            endpoint: self.endpoint,
            model: self.model,
            api_key: if key.is_empty() {
                None
            } else {
                Some(copy(key))
            },
        }
    }

    /// The URL that tells whether the server is up.
    pub fn models_url(&self) -> (r: String)
        ensures
            r@ == self.endpoint@ + "/models"@,
    {
        copy(self.endpoint.as_str()).concat("/models")
    }

    /// The URL of `path` below the base, which leaves out `/v1`.
    pub fn probe_url(&self, path: &str) -> (r: String)
        ensures
            r@ == without_v1(self.endpoint@) + path@,
    {
        proof {
            reveal_strlit("/v1");
        }
        let mut base = copy(self.endpoint.as_str());
        while has_suffix(base.as_str(), "/v1")
            invariant
                "/v1"@.len() == 3,
                without_v1(self.endpoint@) == without_v1(base@),
            decreases base@.len(),
        {
            let v = chars_of(base.as_str());
            base = substr(&v, 0, v.len() - 3);
        }
        base.concat(path)
    }

    /// The URL that a chat is posted to.
    pub fn chat_url(&self) -> (r: String)
        ensures
            r@ == self.endpoint@ + "/chat/completions"@,
    {
        copy(self.endpoint.as_str()).concat("/chat/completions")
    }
}

// ---------------------------------------------------------------------------
// Requests
// ---------------------------------------------------------------------------

pub open spec fn object(entries: Seq<(Seq<char>, JsonTree)>) -> JsonTree {
    JsonTree::Object(entries_map(entries))
}

pub open spec fn role_name(role: Role) -> Seq<char> {
    match role {
        Role::System => "system"@,
        Role::User => "user"@,
        Role::Assistant => "assistant"@,
        Role::Tool => "tool"@,
    }
}

/// The last tool result of a message: id and content.
pub open spec fn last_result(b: Seq<Block>) -> Option<(Seq<char>, Seq<char>)>
    decreases b.len(),
{
    if b.len() == 0 {
        None
    } else {
        match b.last() {
            Block::ToolResult(id, content) => Some((id, content)),
            _ => last_result(b.drop_last()),
        }
    }
}

pub open spec fn oai_tool_call(c: ToolCallView) -> JsonTree {
    object(
        seq![
            ("id"@, JsonTree::Str(c.id)),
            ("type"@, JsonTree::Str("function"@)),
            (
                "function"@,
                object(
                    seq![
                        ("name"@, JsonTree::Str(c.name)),
                        ("arguments"@, JsonTree::Str(c.arguments)),
                    ],
                ),
            ),
        ],
    )
}

pub open spec fn oai_tool_calls(c: Seq<ToolCallView>) -> Seq<JsonTree> {
    Seq::new(c.len(), |i: int| oai_tool_call(c[i]))
}

/// A message in the form of the API. A tool result stands alone; otherwise the
/// text comes with the calls that were made, and is null where there are calls
/// and no text.
pub open spec fn oai_message(role: Role, b: Seq<Block>) -> JsonTree {
    match last_result(b) {
        Some((id, content)) => object(
            seq![
                ("role"@, JsonTree::Str("tool"@)),
                ("tool_call_id"@, JsonTree::Str(id)),
                ("content"@, JsonTree::Str(content)),
            ],
        ),
        None => {
            let text = joined_text(b);
            let calls = tool_uses(b);
            let head = seq![
                ("role"@, JsonTree::Str(role_name(role))),
                (
                    "content"@,
                    if text.len() == 0 && calls.len() > 0 {
                        JsonTree::Null
                    } else {
                        JsonTree::Str(text)
                    },
                ),
            ];
            if calls.len() > 0 {
                object(head.push(("tool_calls"@, JsonTree::Array(oai_tool_calls(calls)))))
            } else {
                object(head)
            }
        },
    }
}

pub open spec fn oai_messages(m: Seq<Message>) -> Seq<JsonTree> {
    Seq::new(m.len(), |i: int| oai_message(m[i].role, blocks(m[i].content@)))
}

pub open spec fn oai_tool(def: ToolDef) -> JsonTree {
    object(
        seq![
            ("type"@, JsonTree::Str("function"@)),
            (
                "function"@,
                object(
                    seq![
                        ("name"@, JsonTree::Str(def.name@)),
                        ("description"@, JsonTree::Str(def.description@)),
                        ("parameters"@, def.input_schema@),
                    ],
                ),
            ),
        ],
    )
}

pub open spec fn oai_tools(t: Seq<ToolDef>) -> Seq<JsonTree> {
    Seq::new(t.len(), |i: int| oai_tool(t[i]))
}

/// An entry, where there is a value for it.
pub open spec fn entry(key: Seq<char>, value: Option<JsonTree>) -> Seq<(Seq<char>, JsonTree)> {
    match value {
        Some(v) => seq![(key, v)],
        None => Seq::empty(),
    }
}

/// The body of a chat request.
pub open spec fn chat_body_tree(
    model: Seq<char>,
    messages: Seq<Message>,
    tools: Seq<ToolDef>,
    temperature: Option<JsonTree>,
    top_p: Option<JsonTree>,
    max_tokens: Option<u32>,
) -> JsonTree {
    object(
        seq![
            ("model"@, JsonTree::Str(model)),
            ("messages"@, JsonTree::Array(oai_messages(messages))),
            ("stream"@, JsonTree::Bool(true)),
        ] + entry("temperature"@, temperature) + entry("top_p"@, top_p) + entry(
            "max_tokens"@,
            match max_tokens {
                Some(n) => Some(JsonTree::Number(number_of(n as u64))),
                None => None,
            },
        ) + entry(
            "tools"@,
            if tools.len() > 0 {
                Some(JsonTree::Array(oai_tools(tools)))
            } else {
                None
            },
        ),
    )
}

fn pair(key: &str, value: Json) -> (r: (String, Json))
    ensures
        r.0@ == key@,
        r.1@ == value@,
{
    (copy(key), value)
}

/// Two entries as an object.
fn object2(a: (String, Json), b: (String, Json)) -> (r: Json)
    ensures
        r@ == object(seq![(a.0@, a.1@), (b.0@, b.1@)]),
{
    let mut v: Vec<(String, Json)> = Vec::new();
    v.push(a);
    v.push(b);
    proof {
        crate::json::pairs_index(v@);
        assert(pairs(v@) =~= seq![(a.0@, a.1@), (b.0@, b.1@)]);
    }
    Json::Object(v)
}

/// Three entries as an object.
fn object3(a: (String, Json), b: (String, Json), c: (String, Json)) -> (r: Json)
    ensures
        r@ == object(seq![(a.0@, a.1@), (b.0@, b.1@), (c.0@, c.1@)]),
{
    let mut v: Vec<(String, Json)> = Vec::new();
    v.push(a);
    v.push(b);
    v.push(c);
    proof {
        crate::json::pairs_index(v@);
        assert(pairs(v@) =~= seq![(a.0@, a.1@), (b.0@, b.1@), (c.0@, c.1@)]);
    }
    Json::Object(v)
}

fn tool_calls_json(calls: &Vec<ToolCall>) -> (r: Json)
    ensures
        r@ == JsonTree::Array(oai_tool_calls(tool_call_views(calls@))),
{
    let mut out: Vec<Json> = Vec::new();
    let mut i: usize = 0;
    while i < calls.len()
        invariant
            i <= calls.len(),
            out@.len() == i,
            forall|k: int| 0 <= k < i ==> (#[trigger] out@[k])@ == oai_tool_call(calls@[k]@),
        decreases calls.len() - i,
    {
        let c = &calls[i];
        let function = object2(
            pair("name", json_str(c.name.as_str())),
            pair("arguments", json_str(c.arguments.as_str())),
        );
        out.push(
            object3(
                pair("id", json_str(c.id.as_str())),
                pair("type", json_str("function")),
                pair("function", function),
            ),
        );
        i = i + 1;
    }
    proof {
        trees_index(out@);
        assert(trees(out@) =~= oai_tool_calls(tool_call_views(calls@)));
    }
    Json::Array(out)
}

fn last_tool_result(content: &Vec<ContentBlock>) -> (r: Option<(String, String)>)
    ensures
        match r {
            Some((id, text)) => last_result(blocks(content@)) == Some((id@, text@)),
            None => last_result(blocks(content@)) is None,
        },
{
    let mut i: usize = content.len();
    assert(blocks(content@).subrange(0, i as int) =~= blocks(content@));
    while i > 0
        invariant
            i <= content.len(),
            last_result(blocks(content@)) == last_result(blocks(content@).subrange(0, i as int)),
        decreases i,
    {
        let ghost part = blocks(content@).subrange(0, i as int);
        assert(part.drop_last() =~= blocks(content@).subrange(0, i - 1));
        i = i - 1;
        assert(part.last() == content@[i as int]@);
        match &content[i] {
            ContentBlock::ToolResult { tool_use_id, content } => {
                return Some((tool_use_id.clone(), content.clone()));
            },
            _ => {},
        }
    }
    None
}

fn role_text(role: Role) -> (r: &'static str)
    ensures
        r@ == role_name(role),
{
    match role {
        Role::System => "system",
        Role::User => "user",
        Role::Assistant => "assistant",
        Role::Tool => "tool",
    }
}

fn message_to_oai(m: &Message) -> (r: Json)
    ensures
        r@ == oai_message(m.role, blocks(m.content@)),
{
    match last_tool_result(&m.content) {
        Some((id, content)) => {
            return object3(
                pair("role", json_str("tool")),
                pair("tool_call_id", Json::Str(id)),
                pair("content", Json::Str(content)),
            );
        },
        None => {},
    }
    let text = message_text(&m.content);
    let calls = message_tool_calls(&m.content);
    assert(tool_call_views(calls@).len() == calls@.len());
    let role = pair("role", json_str(role_text(m.role)));
    if calls.len() == 0 {
        return object2(role, pair("content", Json::Str(text)));
    }
    let content = if text.as_str().is_empty() {
        Json::Null
    } else {
        Json::Str(text)
    };
    let ghost head = seq![(role.0@, role.1@), ("content"@, content@)];
    let tc = pair("tool_calls", tool_calls_json(&calls));
    assert(head.push((tc.0@, tc.1@)) =~= seq![
        (role.0@, role.1@),
        ("content"@, content@),
        (tc.0@, tc.1@),
    ]);
    object3(role, pair("content", content), tc)
}

/// Puts a conversation into the form of the API.
pub fn messages_to_oai(messages: &Vec<Message>) -> (r: Vec<Json>)
    ensures
        trees(r@) == oai_messages(messages@),
{
    let mut out: Vec<Json> = Vec::new();
    let mut i: usize = 0;
    while i < messages.len()
        invariant
            i <= messages.len(),
            out@.len() == i,
            forall|k: int|
                0 <= k < i ==> (#[trigger] out@[k])@ == oai_message(
                    messages@[k].role,
                    blocks(messages@[k].content@),
                ),
        decreases messages.len() - i,
    {
        out.push(message_to_oai(&messages[i]));
        i = i + 1;
    }
    proof {
        trees_index(out@);
        assert(trees(out@) =~= oai_messages(messages@));
    }
    out
}

fn tools_to_oai(tools: &Vec<ToolDef>) -> (r: Json)
    ensures
        r@ == JsonTree::Array(oai_tools(tools@)),
{
    let mut out: Vec<Json> = Vec::new();
    let mut i: usize = 0;
    while i < tools.len()
        invariant
            i <= tools.len(),
            out@.len() == i,
            forall|k: int| 0 <= k < i ==> (#[trigger] out@[k])@ == oai_tool(tools@[k]),
        decreases tools.len() - i,
    {
        let t = &tools[i];
        let function = object3(
            pair("name", json_str(t.name.as_str())),
            pair("description", json_str(t.description.as_str())),
            pair("parameters", t.input_schema.copy()),
        );
        out.push(object2(pair("type", json_str("function")), pair("function", function)));
        i = i + 1;
    }
    proof {
        trees_index(out@);
        assert(trees(out@) =~= oai_tools(tools@));
    }
    Json::Array(out)
}

pub open spec fn maybe_tree(j: Option<Json>) -> Option<JsonTree> {
    match j {
        Some(j) => Some(j@),
        None => None,
    }
}

fn push_entry(out: &mut Vec<(String, Json)>, key: &str, value: Option<Json>)
    ensures
        pairs(final(out)@) == pairs(old(out)@) + entry(key@, maybe_tree(value)),
{
    match value {
        Some(j) => {
            out.push((copy(key), j));
            assert(out@.drop_last() =~= old(out)@);
            assert(pairs(out@) =~= pairs(old(out)@) + entry(key@, maybe_tree(value)));
        },
        None => {
            assert(pairs(out@) =~= pairs(old(out)@) + entry(key@, maybe_tree(value)));
        },
    }
}

/// The body of a chat request. `temperature` and `top_p` are JSON numbers.
pub fn chat_body(
    model: &str,
    messages: &Vec<Message>,
    tools: &Vec<ToolDef>,
    temperature: Option<Json>,
    top_p: Option<Json>,
    max_tokens: Option<u32>,
) -> (r: Json)
    ensures
        r@ == chat_body_tree(
            model@,
            messages@,
            tools@,
            maybe_tree(temperature),
            maybe_tree(top_p),
            max_tokens,
        ),
{
    let mut out: Vec<(String, Json)> = Vec::new();
    out.push(pair("model", json_str(model)));
    out.push(pair("messages", Json::Array(messages_to_oai(messages))));
    out.push(pair("stream", Json::Bool(true)));
    proof {
        crate::json::pairs_index(out@);
        assert(pairs(out@) =~= seq![
            ("model"@, JsonTree::Str(model@)),
            ("messages"@, JsonTree::Array(oai_messages(messages@))),
            ("stream"@, JsonTree::Bool(true)),
        ]);
    }
    push_entry(&mut out, "temperature", temperature);
    push_entry(&mut out, "top_p", top_p);
    let max = match max_tokens {
        Some(n) => Some(json_u64(n as u64)),
        None => None,
    };
    push_entry(&mut out, "max_tokens", max);
    let offered = if tools.len() > 0 {
        Some(tools_to_oai(tools))
    } else {
        None
    };
    push_entry(&mut out, "tools", offered);
    Json::Object(out)
}

// ---------------------------------------------------------------------------
// Server-sent events
// ---------------------------------------------------------------------------

/// A tool call whose arguments are still arriving.
pub struct OaiToolInFlight {
    pub id: String,
    pub name: String,
    pub args: String,
}

pub struct Slot {
    pub id: Seq<char>,
    pub name: Seq<char>,
    pub args: Seq<char>,
}

impl View for OaiToolInFlight {
    type V = Slot;

    open spec fn view(&self) -> Slot {
        Slot { id: self.id@, name: self.name@, args: self.args@ }
    }
}

pub open spec fn slots(v: Seq<OaiToolInFlight>) -> Seq<Slot> {
    Seq::new(v.len(), |i: int| v[i]@)
}

pub open spec fn empty_slot() -> Slot {
    Slot { id: Seq::empty(), name: Seq::empty(), args: Seq::empty() }
}

/// `s`, grown with empty slots so that it holds index `idx`.
pub open spec fn with_slot(s: Seq<Slot>, idx: int) -> Seq<Slot> {
    if idx < s.len() {
        s
    } else {
        Seq::new((idx + 1) as nat, |i: int| if i < s.len() {
            s[i]
        } else {
            empty_slot()
        })
    }
}

/// A string that is there and not empty.
pub open spec fn filled(s: Option<Seq<char>>) -> bool {
    s matches Some(t) && t.len() > 0
}

/// A slot and the events of a delta that was applied to it. The id and the name
/// are taken once; each argument fragment is appended.
pub open spec fn delta_applied(
    s: Slot,
    id: Option<Seq<char>>,
    name: Option<Seq<char>>,
    frag: Option<Seq<char>>,
) -> (Slot, Seq<Event>) {
    let s1 = if filled(id) && s.id.len() == 0 {
        Slot { id: id->0, ..s }
    } else {
        s
    };
    let starts = filled(name) && s1.name.len() == 0;
    let s2 = if starts {
        Slot { name: name->0, ..s1 }
    } else {
        s1
    };
    let e2 = if starts {
        seq![Event::ToolUseStart(s2.id, s2.name)]
    } else {
        Seq::empty()
    };
    if filled(frag) {
        (Slot { args: s2.args + frag->0, ..s2 }, e2.push(Event::ToolUseDelta(s2.id, frag->0)))
    } else {
        (s2, e2)
    }
}

/// The slots and the events after one tool-call delta.
pub open spec fn tool_delta(s: Seq<Slot>, tc: JsonTree) -> (Seq<Slot>, Seq<Event>) {
    let idx = (match integer_in(field_of(Some(tc), "index"@)) {
        Some(n) => n as usize,
        None => 0,
    }) as int;
    let function = field_of(Some(tc), "function"@);
    let grown = with_slot(s, idx);
    let after = delta_applied(
        grown[idx],
        string_in(field_of(Some(tc), "id"@)),
        string_in(field_of(function, "name"@)),
        string_in(field_of(function, "arguments"@)),
    );
    (grown.update(idx, after.0), after.1)
}

/// The slots and the events after a list of tool-call deltas.
pub open spec fn tool_deltas(s: Seq<Slot>, tcs: Seq<JsonTree>) -> (Seq<Slot>, Seq<Event>)
    decreases tcs.len(),
{
    if tcs.len() == 0 {
        (s, Seq::empty())
    } else {
        let before = tool_deltas(s, tcs.drop_last());
        let last = tool_delta(before.0, tcs.last());
        (last.0, before.1 + last.1)
    }
}

/// The end of every slot.
pub open spec fn ends(s: Seq<Slot>) -> Seq<Event> {
    Seq::new(s.len(), |i: int| Event::ToolUseEnd(s[i].id))
}

pub open spec fn sse_stop_reason(reason: Seq<char>) -> StopReason {
    if reason == "tool_calls"@ {
        StopReason::ToolUse
    } else if reason == "length"@ {
        StopReason::MaxTokens
    } else {
        StopReason::EndTurn
    }
}

/// A token count of the usage report; zero where it is missing.
pub open spec fn usage(t: JsonTree, key: Seq<char>) -> u32 {
    match integer_in(field_of(field_of(Some(t), "usage"@), key)) {
        Some(n) => n as u32,
        None => 0,
    }
}

/// The slots and the events after one chunk: its text, its tool-call deltas, and
/// where it names a reason to finish, the end of every open call and of the turn.
pub open spec fn chunk_result(t: JsonTree, s: Seq<Slot>) -> (Seq<Slot>, Seq<Event>) {
    let choice = item_of(field_of(Some(t), "choices"@), 0);
    let delta = field_of(choice, "delta"@);
    let content = string_in(field_of(delta, "content"@));
    let text = if filled(content) {
        seq![Event::TextDelta(content->0)]
    } else {
        Seq::empty()
    };
    let called = match items_in(field_of(delta, "tool_calls"@)) {
        Some(tcs) => tool_deltas(s, tcs),
        None => (s, Seq::empty()),
    };
    match string_in(field_of(choice, "finish_reason"@)) {
        Some(reason) => (
            Seq::empty(),
            (text + called.1 + ends(called.0)).push(
                Event::Done(
                    usage(t, "prompt_tokens"@),
                    usage(t, "completion_tokens"@),
                    sse_stop_reason(reason),
                ),
            ),
        ),
        None => (called.0, text + called.1),
    }
}

/// What a line says; `None` for a line that is no data line, or whose data is
/// not JSON. The end marker says nothing.
pub open spec fn line_result(line: Seq<char>, s: Seq<Slot>) -> Option<(Seq<Slot>, Seq<Event>)> {
    let prefix = "data: "@;
    if !starts_with(line, prefix) {
        None
    } else {
        let data = from(line, prefix.len() as int);
        if trim(data) == "[DONE]"@ {
            Some((s, Seq::empty()))
        } else {
            match parsed(data) {
                Some(t) => Some(chunk_result(t, s)),
                None => None,
            }
        }
    }
}

fn filled_text<'a>(j: Option<&'a Json>) -> (r: Option<&'a String>)
    ensures
        match r {
            Some(s) => string_in(maybe(j)) == Some(s@) && s@.len() > 0,
            None => !filled(string_in(maybe(j))),
        },
{
    match text_in(j) {
        Some(s) => if s.as_str().is_empty() {
            None
        } else {
            Some(s)
        },
        None => None,
    }
}

fn apply_tool_delta(tools: &mut Vec<OaiToolInFlight>, tc: &Json, out: &mut Vec<ChatEvent>)
    ensures
        slots(final(tools)@) == tool_delta(slots(old(tools)@), tc@).0,
        events(final(out)@) == events(old(out)@) + tool_delta(slots(old(tools)@), tc@).1,
{
    let idx: usize = match u64_in(field(Some(tc), "index")) {
        Some(n) => n as usize,
        None => 0,
    };
    let ghost s0 = slots(tools@);
    while tools.len() <= idx
        invariant
            slots(tools@).len() >= s0.len(),
            slots(tools@).len() > s0.len() ==> tools@.len() <= idx + 1,
            forall|i: int| 0 <= i < s0.len() ==> #[trigger] slots(tools@)[i] == s0[i],
            forall|i: int| s0.len() <= i < tools@.len() ==> #[trigger] slots(tools@)[i]
                == empty_slot(),
        decreases idx + 1 - tools.len(),
    {
        let ghost before = tools@;
        tools.push(
            OaiToolInFlight { id: String::new(), name: String::new(), args: String::new() },
        );
        assert(slots(tools@) =~= slots(before).push(empty_slot()));
    }
    assert(slots(tools@) =~= with_slot(s0, idx as int));
    let ghost grown = tools@;
    let ghost e0 = events(out@);
    let function = field(Some(tc), "function");
    let mut slot = OaiToolInFlight {
        id: tools[idx].id.clone(),
        name: tools[idx].name.clone(),
        args: tools[idx].args.clone(),
    };
    match filled_text(field(Some(tc), "id")) {
        Some(id) => {
            if slot.id.as_str().is_empty() {
                slot.id = id.clone();
            }
        },
        None => {},
    }
    let ghost mut said: Seq<Event> = Seq::empty();
    match filled_text(field(function, "name")) {
        Some(name) => {
            if slot.name.as_str().is_empty() {
                slot.name = name.clone();
                out.push(
                    ChatEvent::ToolUseStart { id: slot.id.clone(), name: slot.name.clone() },
                );
                proof {
                    said = seq![Event::ToolUseStart(slot.id@, slot.name@)];
                }
            }
        },
        None => {},
    }
    assert(events(out@) =~= e0 + said);
    match filled_text(field(function, "arguments")) {
        Some(frag) => {
            slot.args.append(frag.as_str());
            let ghost before = out@;
            out.push(
                ChatEvent::ToolUseDelta {
                    id: slot.id.clone(),
                    input_json_delta: frag.clone(),
                },
            );
            assert(events(out@) =~= events(before).push(Event::ToolUseDelta(slot.id@, frag@)));
            proof {
                said = said.push(Event::ToolUseDelta(slot.id@, frag@));
            }
            assert(events(out@) =~= e0 + said);
        },
        None => {},
    }
    let ghost s = slot@;
    tools.set(idx, slot);
    assert(slots(tools@) =~= slots(grown).update(idx as int, s));
}

fn apply_tool_deltas(tools: &mut Vec<OaiToolInFlight>, tcs: &Vec<Json>, out: &mut Vec<ChatEvent>)
    ensures
        slots(final(tools)@) == tool_deltas(slots(old(tools)@), trees(tcs@)).0,
        events(final(out)@) == events(old(out)@) + tool_deltas(
            slots(old(tools)@),
            trees(tcs@),
        ).1,
{
    proof {
        trees_index(tcs@);
    }
    let ghost all = trees(tcs@);
    let mut i: usize = 0;
    assert(events(out@) =~= events(old(out)@) + Seq::empty());
    while i < tcs.len()
        invariant
            i <= tcs.len(),
            all.len() == tcs@.len(),
            forall|k: int| 0 <= k < tcs@.len() ==> #[trigger] all[k] == tcs@[k]@,
            slots(tools@) == tool_deltas(slots(old(tools)@), all.subrange(0, i as int)).0,
            events(out@) == events(old(out)@) + tool_deltas(
                slots(old(tools)@),
                all.subrange(0, i as int),
            ).1,
        decreases tcs.len() - i,
    {
        let ghost part = all.subrange(0, i + 1);
        assert(part.drop_last() =~= all.subrange(0, i as int));
        assert(part.last() == tcs@[i as int]@);
        let ghost before = tool_deltas(slots(old(tools)@), all.subrange(0, i as int));
        apply_tool_delta(tools, &tcs[i], out);
        assert(events(out@) =~= events(old(out)@) + (before.1 + tool_delta(
            before.0,
            part.last(),
        ).1));
        i = i + 1;
    }
    assert(all.subrange(0, i as int) =~= all);
}

/// Closes every open call.
fn drain_slots(tools: &mut Vec<OaiToolInFlight>, out: &mut Vec<ChatEvent>)
    ensures
        final(tools)@.len() == 0,
        events(final(out)@) == events(old(out)@) + ends(slots(old(tools)@)),
{
    let mut i: usize = 0;
    assert(events(out@) =~= events(old(out)@) + ends(slots(old(tools)@)).subrange(0, 0));
    while i < tools.len()
        invariant
            i <= tools.len(),
            *tools == *old(tools),
            events(out@) == events(old(out)@) + ends(slots(tools@)).subrange(0, i as int),
        decreases tools.len() - i,
    {
        let ghost before = out@;
        out.push(ChatEvent::ToolUseEnd { id: tools[i].id.clone() });
        i = i + 1;
        assert(events(out@) =~= events(before).push(ends(slots(tools@))[i - 1]));
        assert(events(out@) =~= events(old(out)@) + ends(slots(tools@)).subrange(0, i as int));
    }
    assert(ends(slots(tools@)).subrange(0, i as int) =~= ends(slots(tools@)));
    tools.clear();
}

fn usage_tokens(v: &Json, key: &str) -> (r: u32)
    ensures
        r == usage(v@, key@),
{
    match u64_in(field(field(Some(v), "usage"), key)) {
        Some(n) => n as u32,
        None => 0,
    }
}

/// What a chunk says, given the tool calls that are in flight.
pub fn chunk_events(v: &Json, tools_in_flight: &mut Vec<OaiToolInFlight>) -> (r: Vec<ChatEvent>)
    ensures
        slots(final(tools_in_flight)@) == chunk_result(v@, slots(old(tools_in_flight)@)).0,
        events(r@) == chunk_result(v@, slots(old(tools_in_flight)@)).1,
{
    let ghost s0 = slots(tools_in_flight@);
    let choice = item(field(Some(v), "choices"), 0);
    let delta = field(choice, "delta");
    let mut out: Vec<ChatEvent> = Vec::new();
    let ghost mut said: Seq<Event> = Seq::empty();
    match filled_text(field(delta, "content")) {
        Some(text) => {
            out.push(ChatEvent::TextDelta { text: text.clone() });
            proof {
                said = seq![Event::TextDelta(text@)];
            }
        },
        None => {},
    }
    assert(events(out@) =~= said);
    match array_in(field(delta, "tool_calls")) {
        Some(tcs) => {
            apply_tool_deltas(tools_in_flight, tcs, &mut out);
        },
        None => {
            assert(events(out@) =~= said + Seq::empty());
        },
    }
    match text_in(field(choice, "finish_reason")) {
        Some(reason) => {
            drain_slots(tools_in_flight, &mut out);
            let stop_reason = if same(reason.as_str(), "tool_calls") {
                StopReason::ToolUse
            } else if same(reason.as_str(), "length") {
                StopReason::MaxTokens
            } else {
                StopReason::EndTurn
            };
            let ghost before = out@;
            out.push(
                ChatEvent::Done {
                    input_tokens: usage_tokens(v, "prompt_tokens"),
                    output_tokens: usage_tokens(v, "completion_tokens"),
                    stop_reason,
                },
            );
            assert(events(out@) =~= events(before).push(out@[out@.len() - 1]@));
            assert(slots(tools_in_flight@) =~= Seq::empty());
        },
        None => {},
    }
    out
}

/// Parses one `data: {…}` line into events. `None` where the line is no data
/// line or its data is not JSON; no events for `data: [DONE]`.
pub fn parse_sse_data_line(line: &str, tools_in_flight: &mut Vec<OaiToolInFlight>) -> (r: Option<
    Vec<ChatEvent>,
>)
    ensures
        match line_result(line@, slots(old(tools_in_flight)@)) {
            Some((s, e)) => slots(final(tools_in_flight)@) == s && (r matches Some(v) && events(v@)
                == e),
            None => r is None && final(tools_in_flight)@ == old(tools_in_flight)@,
        },
{
    proof {
        reveal_strlit("data: ");
    }
    if !has_prefix(line, "data: ") {
        return None;
    }
    let v = chars_of(line);
    let data = substr(&v, 6, v.len());
    let t = trim_str(data.as_str());
    if same(t.as_str(), "[DONE]") {
        let out: Vec<ChatEvent> = Vec::new();
        assert(events(out@) =~= Seq::empty());
        return Some(out);
    }
    match parse_json(data.as_str()) {
        Some(j) => Some(chunk_events(&j, tools_in_flight)),
        None => None,
    }
}

// ---------------------------------------------------------------------------
// Streams
// ---------------------------------------------------------------------------

/// What `String::from_utf8_lossy` makes of a list of bytes.
pub uninterp spec fn utf8_lossy(bytes: Seq<u8>) -> Seq<char>;

/// `String::from_utf8_lossy`, under the name `utf8_lossy`: bytes that are UTF-8
/// become the text they encode.
#[verifier::external_body]
fn lossy_text(bytes: &[u8]) -> (r: String)
    ensures
        r@ == utf8_lossy(bytes@),
        valid_utf8(bytes@) ==> r@ == decode_utf8(bytes@),
{
    String::from_utf8_lossy(bytes).into_owned()
}

/// `s` without the carriage returns at its end.
pub open spec fn without_cr(s: Seq<char>) -> Seq<char>
    decreases s.len(),
{
    if s.len() > 0 && s.last() == '\r' {
        without_cr(s.drop_last())
    } else {
        s
    }
}

/// The slots and the events after a line of the stream.
pub open spec fn line_applied(line: Seq<char>, s: Seq<Slot>) -> (Seq<Slot>, Seq<Event>) {
    match line_result(without_cr(line), s) {
        Some(r) => r,
        None => (s, Seq::empty()),
    }
}

/// What is left of the buffer, the slots and the events once every complete line
/// was read.
pub open spec fn lines_applied(buf: Seq<char>, s: Seq<Slot>) -> (Seq<char>, Seq<Slot>, Seq<Event>)
    decreases buf.len(),
    via lines_applied_decreases
{
    match find(buf, "\n"@) {
        Some(nl) => {
            let one = line_applied(buf.subrange(0, nl), s);
            let rest = lines_applied(from(buf, nl + 1), one.0);
            (rest.0, rest.1, one.1 + rest.2)
        },
        None => (buf, s, Seq::empty()),
    }
}

#[via_fn]
proof fn lines_applied_decreases(buf: Seq<char>, s: Seq<Slot>) {
    reveal_strlit("\n");
    crate::text::find_from_is_least(buf, "\n"@, 0);
}

pub open spec fn has_done(e: Seq<Event>) -> bool {
    exists|i: int| 0 <= i < e.len() && (#[trigger] e[i]) is Done
}

/// A response that is being read.
pub struct SseStream {
    /// What has arrived of a line that is not complete yet.
    pub buf: String,
    pub tools_in_flight: Vec<OaiToolInFlight>,
    /// The end of the turn was announced.
    pub done_sent: bool,
}

fn is_done(e: &ChatEvent) -> (r: bool)
    ensures
        r == (e@ is Done),
{
    match e {
        ChatEvent::Done { .. } => true,
        _ => false,
    }
}

fn any_done(v: &Vec<ChatEvent>) -> (r: bool)
    ensures
        r == has_done(events(v@)),
{
    let mut i: usize = 0;
    while i < v.len()
        invariant
            i <= v.len(),
            forall|k: int| 0 <= k < i ==> !(#[trigger] events(v@)[k] is Done),
        decreases v.len() - i,
    {
        if is_done(&v[i]) {
            assert(events(v@)[i as int] is Done);
            return true;
        }
        i = i + 1;
    }
    false
}

fn trim_cr(v: &Vec<char>, a: usize, b: usize) -> (r: String)
    requires
        a <= b <= v.len(),
    ensures
        r@ == without_cr(v@.subrange(a as int, b as int)),
{
    let mut e: usize = b;
    while e > a && v[e - 1] == '\r'
        invariant
            a <= e <= b <= v.len(),
            without_cr(v@.subrange(a as int, b as int)) == without_cr(
                v@.subrange(a as int, e as int),
            ),
        decreases e,
    {
        assert(v@.subrange(a as int, e as int).drop_last() =~= v@.subrange(a as int, e - 1));
        e = e - 1;
    }
    substr(v, a, e)
}

impl SseStream {
    pub fn new() -> (r: Self)
        ensures
            r.buf@.len() == 0,
            r.tools_in_flight@.len() == 0,
            !r.done_sent,
    {
        SseStream { buf: String::new(), tools_in_flight: Vec::new(), done_sent: false }
    }

    /// A chunk of bytes arrived: reads every line that is complete now.
    pub fn on_chunk(&mut self, chunk: &[u8]) -> (r: Vec<ChatEvent>)
        ensures
            ({
                let after = lines_applied(
                    old(self).buf@ + utf8_lossy(chunk@),
                    slots(old(self).tools_in_flight@),
                );
                &&& final(self).buf@ == after.0
                &&& slots(final(self).tools_in_flight@) == after.1
                &&& events(r@) == after.2
                &&& final(self).done_sent == (old(self).done_sent || has_done(after.2))
            }),
            valid_utf8(chunk@) ==> utf8_lossy(chunk@) == decode_utf8(chunk@),
    {
        let text = lossy_text(chunk);
        self.on_text(text.as_str())
    }

    /// A piece of text arrived: reads every line that is complete now.
    pub fn on_text(&mut self, text: &str) -> (r: Vec<ChatEvent>)
        ensures
            ({
                let after = lines_applied(
                    old(self).buf@ + text@,
                    slots(old(self).tools_in_flight@),
                );
                &&& final(self).buf@ == after.0
                &&& slots(final(self).tools_in_flight@) == after.1
                &&& events(r@) == after.2
                &&& final(self).done_sent == (old(self).done_sent || has_done(after.2))
            }),
    {
        proof {
            reveal_strlit("\n");
        }
        self.buf.append(text);
        let v = chars_of(self.buf.as_str());
        let ghost whole = lines_applied(v@, slots(self.tools_in_flight@));
        let mut out: Vec<ChatEvent> = Vec::new();
        let mut at: usize = 0;
        assert(from(v@, 0) =~= v@);
        assert(events(out@) + whole.2 =~= whole.2);
        loop
            invariant
                at <= v.len(),
                "\n"@.len() == 1,
                v@ == old(self).buf@ + text@,
                self.done_sent == old(self).done_sent,
                whole == lines_applied(
                    old(self).buf@ + text@,
                    slots(old(self).tools_in_flight@),
                ),
                ({
                    let rest = lines_applied(from(v@, at as int), slots(self.tools_in_flight@));
                    &&& whole.0 == rest.0
                    &&& whole.1 == rest.1
                    &&& whole.2 == events(out@) + rest.2
                }),
            ensures
                at <= v.len(),
                whole == lines_applied(
                    old(self).buf@ + text@,
                    slots(old(self).tools_in_flight@),
                ),
                self.done_sent == old(self).done_sent,
                whole.0 == from(v@, at as int),
                whole.1 == slots(self.tools_in_flight@),
                whole.2 == events(out@),
            decreases v.len() - at,
        {
            let ghost rest = from(v@, at as int);
            proof {
                find_in_rest(v@, "\n"@, at as int);
            }
            let nl = match position(&v, "\n", at) {
                Some(nl) => nl,
                None => {
                    assert(events(out@) + Seq::empty() =~= events(out@));
                    break;
                },
            };
            assert(rest.subrange(0, nl - at) =~= v@.subrange(at as int, nl as int));
            assert(from(rest, nl - at + 1) =~= from(v@, nl + 1));
            let line = trim_cr(&v, at, nl);
            let ghost s0 = slots(self.tools_in_flight@);
            let ghost one = line_applied(rest.subrange(0, nl - at), s0);
            let ghost before = events(out@);
            match parse_sse_data_line(line.as_str(), &mut self.tools_in_flight) {
                Some(mut events_of_line) => {
                    let ghost said = events_of_line@;
                    let ghost had = out@;
                    out.append(&mut events_of_line);
                    assert(events(out@) =~= events(had) + events(said));
                },
                None => {
                    assert(events(out@) =~= before + Seq::empty());
                },
            }
            at = nl + 1;
            proof {
                let tail = lines_applied(from(v@, at as int), one.0);
                assert(before + (one.1 + tail.2) =~= (before + one.1) + tail.2);
            }
        }
        self.buf = substr(&v, at, v.len());
        if any_done(&out) {
            self.done_sent = true;
        }
        out
    }

    /// The client went away: the end is announced where it was not yet.
    pub fn on_cancel(&self) -> (r: Option<ChatEvent>)
        ensures
            self.done_sent ==> r is None,
            !self.done_sent ==> (r matches Some(e) && e@ == Event::Done(
                0,
                0,
                StopReason::Cancelled,
            )),
    {
        if self.done_sent {
            None
        } else {
            Some(
                ChatEvent::Done {
                    input_tokens: 0,
                    output_tokens: 0,
                    stop_reason: StopReason::Cancelled,
                },
            )
        }
    }

    /// The response ended: where the end was not announced yet, open calls are
    /// closed and it is.
    pub fn on_end(&mut self) -> (r: Vec<ChatEvent>)
        ensures
            old(self).done_sent ==> r@.len() == 0 && *final(self) == *old(self),
            !old(self).done_sent ==> {
                &&& events(r@) == ends(slots(old(self).tools_in_flight@)).push(
                    Event::Done(0, 0, StopReason::EndTurn),
                )
                &&& final(self).tools_in_flight@.len() == 0
                &&& final(self).done_sent
            },
    {
        let mut out: Vec<ChatEvent> = Vec::new();
        if self.done_sent {
            return out;
        }
        assert(events(out@) + ends(slots(self.tools_in_flight@)) =~= ends(
            slots(self.tools_in_flight@),
        ));
        drain_slots(&mut self.tools_in_flight, &mut out);
        let ghost before = out@;
        out.push(
            ChatEvent::Done { input_tokens: 0, output_tokens: 0, stop_reason: StopReason::EndTurn },
        );
        assert(events(out@) =~= events(before).push(out@[out@.len() - 1]@));
        self.done_sent = true;
        out
    }
}

// ---------------------------------------------------------------------------
// Laws
// ---------------------------------------------------------------------------

proof fn first_newline_stays(a: Seq<char>, b: Seq<char>)
    ensures
        find(a, "\n"@) matches Some(nl) ==> {
            &&& find(a + b, "\n"@) == Some(nl)
            &&& 0 <= nl < a.len()
        },
{
    reveal_strlit("\n");
    crate::text::find_from_is_least(a, "\n"@, 0);
    crate::text::find_from_is_least(a + b, "\n"@, 0);
    if let Some(nl) = find(a, "\n"@) {
        let p = "\n"@;
        assert((a + b).subrange(nl, nl + 1) =~= a.subrange(nl, nl + 1));
        assert(crate::text::occurs_at(a + b, p, nl));
        assert forall|j: int| 0 <= j < nl implies !crate::text::occurs_at(a + b, p, j) by {
            assert((a + b).subrange(j, j + 1) =~= a.subrange(j, j + 1));
            assert(!crate::text::occurs_at(a, p, j));
        }
    }
}

/// How a response is cut into pieces makes no difference: reading `a` and then
/// `b` leaves the same buffer and the same open calls, and says the same, as
/// reading both at once.
pub proof fn pieces_do_not_matter(a: Seq<char>, b: Seq<char>, s: Seq<Slot>)
    ensures
        ({
            let first = lines_applied(a, s);
            let second = lines_applied(first.0 + b, first.1);
            lines_applied(a + b, s) == (second.0, second.1, first.2 + second.2)
        }),
    decreases a.len(),
{
    let first = lines_applied(a, s);
    let second = lines_applied(first.0 + b, first.1);
    first_newline_stays(a, b);
    match find(a, "\n"@) {
        Some(nl) => {
            let one = line_applied(a.subrange(0, nl), s);
            let tail = from(a, nl + 1);
            assert((a + b).subrange(0, nl) =~= a.subrange(0, nl));
            assert(from(a + b, nl + 1) =~= tail + b);
            pieces_do_not_matter(tail, b, one.0);
            let rest = lines_applied(tail, one.0);
            assert(one.1 + (rest.2 + second.2) =~= (one.1 + rest.2) + second.2);
        },
        None => {
            assert(Seq::<Event>::empty() + second.2 =~= second.2);
        },
    }
}

/// A chunk that names a reason to finish leaves no call open, closes each that
/// was, and announces the end as its last event.
pub proof fn finishing_closes_every_call(t: JsonTree, s: Seq<Slot>)
    requires
        string_in(field_of(item_of(field_of(Some(t), "choices"@), 0), "finish_reason"@)) is Some,
    ensures
        chunk_result(t, s).0.len() == 0,
        chunk_result(t, s).1.len() > 0,
        chunk_result(t, s).1.last() is Done,
{
}

/// A delta changes the slot at its own index and no other; slots that it makes room
/// for are empty.
pub proof fn a_delta_changes_its_own_slot(s: Seq<Slot>, tc: JsonTree, n: u64)
    requires
        integer_in(field_of(Some(tc), "index"@)) == Some(n),
        n <= usize::MAX,
    ensures
        tool_delta(s, tc).0.len() > n,
        tool_delta(s, tc).0.len() == (if s.len() > n {
            s.len() as int
        } else {
            n + 1
        }),
        forall|j: int|
            0 <= j < s.len() && j != n ==> #[trigger] tool_delta(s, tc).0[j] == s[j],
        forall|j: int|
            s.len() <= j < tool_delta(s, tc).0.len() && j != n ==> (#[trigger] tool_delta(
                s,
                tc,
            ).0[j]).id.len() == 0 && tool_delta(s, tc).0[j].name.len() == 0 && tool_delta(
                s,
                tc,
            ).0[j].args.len() == 0,
{
}

/// A delta that brings an id and a name to a slot without either begins a call: its
/// events start with that id and that name, which the slot then has.
pub proof fn a_named_delta_begins_a_call(
    s: Seq<Slot>,
    tc: JsonTree,
    n: u64,
    id: Seq<char>,
    name: Seq<char>,
)
    requires
        integer_in(field_of(Some(tc), "index"@)) == Some(n),
        n <= usize::MAX,
        n >= s.len() || (s[n as int].id.len() == 0 && s[n as int].name.len() == 0),
        string_in(field_of(Some(tc), "id"@)) == Some(id),
        string_in(field_of(field_of(Some(tc), "function"@), "name"@)) == Some(name),
        id.len() > 0,
        name.len() > 0,
    ensures
        tool_delta(s, tc).1.len() > 0,
        tool_delta(s, tc).1[0] == Event::ToolUseStart(id, name),
        tool_delta(s, tc).0[n as int].id == id,
        tool_delta(s, tc).0[n as int].name == name,
{
}

/// A call begins once: a slot that has its name keeps it, with its id, and no event
/// of a later delta starts it again.
pub proof fn a_call_begins_once(s: Seq<Slot>, tc: JsonTree, n: u64)
    requires
        integer_in(field_of(Some(tc), "index"@)) == Some(n),
        n <= usize::MAX,
        n < s.len(),
        s[n as int].name.len() > 0,
    ensures
        tool_delta(s, tc).0[n as int].name == s[n as int].name,
        s[n as int].id.len() > 0 ==> tool_delta(s, tc).0[n as int].id == s[n as int].id,
        forall|k: int|
            0 <= k < tool_delta(s, tc).1.len() ==> !((#[trigger] tool_delta(s, tc).1[k]) is ToolUseStart),
{
}

/// The arguments of a call are its fragments, one behind the other, each told as it
/// comes under the id of its call; a delta without a fragment leaves them as they
/// are.
pub proof fn arguments_are_told_as_they_come(s: Seq<Slot>, tc: JsonTree, n: u64)
    requires
        integer_in(field_of(Some(tc), "index"@)) == Some(n),
        n <= usize::MAX,
    ensures
        ({
            let before = if n < s.len() {
                s[n as int].args
            } else {
                Seq::empty()
            };
            let after = tool_delta(s, tc).0[n as int];
            let said = tool_delta(s, tc).1;
            match string_in(field_of(field_of(Some(tc), "function"@), "arguments"@)) {
                Some(frag) => {
                    &&& after.args == before + frag
                    &&& frag.len() > 0 ==> said.len() > 0 && said.last() == Event::ToolUseDelta(
                        after.id,
                        frag,
                    )
                    &&& frag.len() == 0 ==> forall|k: int|
                        0 <= k < said.len() ==> !((#[trigger] said[k]) is ToolUseDelta)
                },
                None => {
                    &&& after.args == before
                    &&& forall|k: int|
                        0 <= k < said.len() ==> !((#[trigger] said[k]) is ToolUseDelta)
                },
            }
        }),
        tool_delta(s, tc).1.len() <= 2,
{
    let before = if n < s.len() {
        s[n as int].args
    } else {
        Seq::empty()
    };
    assert(before + Seq::<char>::empty() =~= before);
    let frag = string_in(field_of(field_of(Some(tc), "function"@), "arguments"@));
    if let Some(f) = frag {
        if f.len() == 0 {
            assert(f =~= Seq::empty());
        }
    }
}

/// Deltas of different calls do not meet: in whatever order they come, the slots
/// are the same, and each says the same.
pub proof fn parallel_calls_do_not_meet(s: Seq<Slot>, a: JsonTree, b: JsonTree, m: u64, n: u64)
    requires
        integer_in(field_of(Some(a), "index"@)) == Some(m),
        integer_in(field_of(Some(b), "index"@)) == Some(n),
        m <= usize::MAX,
        n <= usize::MAX,
        m != n,
    ensures
        tool_delta(tool_delta(s, a).0, b).0 == tool_delta(tool_delta(s, b).0, a).0,
        tool_delta(tool_delta(s, a).0, b).1 == tool_delta(s, b).1,
        tool_delta(tool_delta(s, b).0, a).1 == tool_delta(s, a).1,
{
    assert(tool_delta(tool_delta(s, a).0, b).0 =~= tool_delta(tool_delta(s, b).0, a).0);
}

/// Deltas are applied one after the other: a list of them does what its first part
/// does and then what the rest does, and says it in that order.
pub proof fn deltas_add_up(s: Seq<Slot>, a: Seq<JsonTree>, b: Seq<JsonTree>, tc: JsonTree)
    ensures
        ({
            let first = tool_deltas(s, a);
            let second = tool_deltas(first.0, b);
            tool_deltas(s, a + b) == (second.0, first.1 + second.1)
        }),
        tool_deltas(s, seq![tc]) == tool_delta(s, tc),
        tool_deltas(s, Seq::empty()) == (s, Seq::<Event>::empty()),
    decreases b.len(),
{
    assert(seq![tc].drop_last() =~= Seq::empty());
    assert(seq![tc].last() == tc);
    let one = tool_delta(s, tc);
    assert(tool_deltas(s, Seq::<JsonTree>::empty()) == (s, Seq::<Event>::empty()));
    assert(Seq::<Event>::empty() + one.1 =~= one.1);
    let first = tool_deltas(s, a);
    if b.len() == 0 {
        assert(a + b =~= a);
        assert(first.1 + tool_deltas(first.0, b).1 =~= first.1);
    } else {
        deltas_add_up(s, a, b.drop_last(), tc);
        assert((a + b).drop_last() =~= a + b.drop_last());
        let mid = tool_deltas(first.0, b.drop_last());
        let last = tool_delta(mid.0, b.last());
        assert((first.1 + mid.1) + last.1 =~= first.1 + (mid.1 + last.1));
    }
}

/// A chunk says its text first, then what its deltas say, and, where it names a
/// reason to finish, ends every call in the order of their slots and then the turn:
/// for tools, for its length or because it is done, with the tokens of its report.
pub proof fn a_chunk_says_what_it_holds(t: JsonTree, s: Seq<Slot>)
    ensures
        ({
            let choice = item_of(field_of(Some(t), "choices"@), 0);
            let delta = field_of(choice, "delta"@);
            let content = string_in(field_of(delta, "content"@));
            let called = match items_in(field_of(delta, "tool_calls"@)) {
                Some(tcs) => tool_deltas(s, tcs),
                None => (s, Seq::<Event>::empty()),
            };
            let r = chunk_result(t, s);
            let lead: int = if content matches Some(c) && c.len() > 0 {
                1
            } else {
                0
            };
            &&& lead == 1 ==> r.1.len() > 0 && r.1[0] == Event::TextDelta(content->0)
            &&& r.1.len() >= lead + called.1.len()
            &&& r.1.subrange(lead, lead + called.1.len()) == called.1
            &&& match string_in(field_of(choice, "finish_reason"@)) {
                None => r.0 == called.0 && r.1.len() == lead + called.1.len(),
                Some(reason) => {
                    &&& r.0.len() == 0
                    &&& r.1.len() == lead + called.1.len() + called.0.len() + 1
                    &&& forall|k: int|
                        0 <= k < called.0.len() ==> r.1[lead + called.1.len() + k]
                            == Event::ToolUseEnd((#[trigger] called.0[k]).id)
                    &&& r.1.last() matches Event::Done(_, _, stop) && {
                        &&& reason == "tool_calls"@ ==> stop is ToolUse
                        &&& reason == "length"@ ==> stop is MaxTokens
                        &&& reason != "tool_calls"@ && reason != "length"@ ==> stop is EndTurn
                    }
                },
            }
        }),
{
    reveal_strlit("tool_calls");
    reveal_strlit("length");
    assert("tool_calls"@.len() != "length"@.len());
    let choice = item_of(field_of(Some(t), "choices"@), 0);
    let delta = field_of(choice, "delta"@);
    let content = string_in(field_of(delta, "content"@));
    let called = match items_in(field_of(delta, "tool_calls"@)) {
        Some(tcs) => tool_deltas(s, tcs),
        None => (s, Seq::<Event>::empty()),
    };
    let r = chunk_result(t, s);
    let lead: int = if content matches Some(c) && c.len() > 0 {
        1
    } else {
        0
    };
    assert(r.1.subrange(lead, lead + called.1.len()) =~= called.1);
}

/// The report of a chunk is told: the tokens that were read and those that were
/// written, each as such, and none where there is no report.
pub proof fn the_report_is_told(t: JsonTree, s: Seq<Slot>)
    requires
        string_in(field_of(item_of(field_of(Some(t), "choices"@), 0), "finish_reason"@)) is Some,
    ensures
        chunk_result(t, s).1.last() matches Event::Done(read, written, _) && {
            &&& integer_in(
                field_of(field_of(Some(t), "usage"@), "prompt_tokens"@),
            ) matches Some(n) ==> (n <= u32::MAX ==> read == n)
            &&& integer_in(
                field_of(field_of(Some(t), "usage"@), "completion_tokens"@),
            ) matches Some(n) ==> (n <= u32::MAX ==> written == n)
            &&& field_of(Some(t), "usage"@) is None ==> read == 0 && written == 0
        },
{
}

/// A data line says what its chunk says; a line of another kind, and one that is no
/// JSON, say nothing and change nothing, and neither does the end marker.
pub proof fn only_data_lines_count(line: Seq<char>, s: Seq<Slot>, t: JsonTree)
    ensures
        !starts_with(line, "data: "@) ==> line_result(line, s) is None,
        trim(line) == "[DONE]"@ ==> line_result("data: "@ + line, s) == Some(
            (s, Seq::<Event>::empty()),
        ),
        trim(line) != "[DONE]"@ && parsed(line) == Some(t) ==> line_result("data: "@ + line, s)
            == Some(chunk_result(t, s)),
        trim(line) != "[DONE]"@ && parsed(line) is None ==> line_result("data: "@ + line, s) is None,
{
    reveal_strlit("data: ");
    let p = "data: "@;
    let w = p + line;
    assert(w.subrange(0, p.len() as int) =~= p);
    assert(from(w, p.len() as int) =~= line);
}

/// A stream is read line by line: a line, with or without a carriage return at its
/// end, says what it says, and then what follows is read with what it left.
pub proof fn a_stream_is_read_by_lines(line: Seq<char>, rest: Seq<char>, s: Seq<Slot>)
    requires
        find(line, "\n"@) is None,
        line.len() > 0 ==> line.last() != '\r',
    ensures
        ({
            let one = match line_result(line, s) {
                Some(r) => r,
                None => (s, Seq::<Event>::empty()),
            };
            let after = lines_applied(rest, one.0);
            &&& lines_applied(line + "\n"@ + rest, s) == (after.0, after.1, one.1 + after.2)
            &&& lines_applied(line + "\r\n"@ + rest, s) == (after.0, after.1, one.1 + after.2)
            &&& lines_applied(line, s) == (line, s, Seq::<Event>::empty())
        }),
{
    reveal_strlit("\n");
    reveal_strlit("\r\n");
    let nl = "\n"@;
    let n = line.len() as int;
    let a = line + nl + rest;
    let b = line + "\r\n"@ + rest;
    crate::text::find_from_is_least(line, nl, 0);
    assert forall|j: int| 0 <= j < n implies line[j] != '\n' by {
        if line[j] == '\n' {
            assert(line.subrange(j, j + 1) =~= nl);
            assert(crate::text::occurs_at(line, nl, j));
        }
    }
    newline_is_at(a, n);
    newline_is_at(b, n + 1);
    assert(a.subrange(0, n) =~= line);
    assert(from(a, n + 1) =~= rest);
    assert(b.subrange(0, n + 1) =~= line.push('\r'));
    assert(line.push('\r').drop_last() =~= line);
    assert(without_cr(line) == line);
    assert(from(b, n + 2) =~= rest);
}

proof fn newline_is_at(s: Seq<char>, n: int)
    requires
        0 <= n < s.len(),
        s[n] == '\n',
        forall|j: int| 0 <= j < n ==> s[j] != '\n',
    ensures
        find(s, "\n"@) == Some(n),
{
    reveal_strlit("\n");
    let nl = "\n"@;
    crate::text::find_from_is_least(s, nl, 0);
    assert(s.subrange(n, n + 1) =~= nl);
    assert(crate::text::occurs_at(s, nl, n));
    assert forall|j: int| 0 <= j < n implies !crate::text::occurs_at(s, nl, j) by {
        if crate::text::occurs_at(s, nl, j) {
            assert(s.subrange(j, j + 1)[0] == '\n');
        }
    }
}

/// Keys that stand in one object differ.
proof fn keys_differ()
    ensures
        "id"@ != "type"@,
        "id"@ != "function"@,
        "type"@ != "function"@,
        "name"@ != "arguments"@,
        "name"@ != "description"@,
        "name"@ != "parameters"@,
        "description"@ != "parameters"@,
        "role"@ != "tool_call_id"@,
        "role"@ != "content"@,
        "tool_call_id"@ != "content"@,
        "role"@ != "tool_calls"@,
        "content"@ != "tool_calls"@,
        "model"@ != "messages"@,
        "model"@ != "stream"@,
        "model"@ != "temperature"@,
        "model"@ != "top_p"@,
        "model"@ != "max_tokens"@,
        "model"@ != "tools"@,
        "messages"@ != "stream"@,
        "messages"@ != "temperature"@,
        "messages"@ != "top_p"@,
        "messages"@ != "max_tokens"@,
        "messages"@ != "tools"@,
        "stream"@ != "temperature"@,
        "stream"@ != "top_p"@,
        "stream"@ != "max_tokens"@,
        "stream"@ != "tools"@,
        "temperature"@ != "top_p"@,
        "temperature"@ != "max_tokens"@,
        "temperature"@ != "tools"@,
        "top_p"@ != "max_tokens"@,
        "top_p"@ != "tools"@,
        "max_tokens"@ != "tools"@,
{
    reveal_strlit("id");
    reveal_strlit("type");
    reveal_strlit("function");
    reveal_strlit("name");
    reveal_strlit("arguments");
    reveal_strlit("description");
    reveal_strlit("parameters");
    reveal_strlit("role");
    reveal_strlit("tool_call_id");
    reveal_strlit("content");
    reveal_strlit("tool_calls");
    reveal_strlit("model");
    reveal_strlit("messages");
    reveal_strlit("stream");
    reveal_strlit("temperature");
    reveal_strlit("top_p");
    reveal_strlit("max_tokens");
    reveal_strlit("tools");
    assert("id"@.len() != "type"@.len());
    assert("id"@.len() != "function"@.len());
    assert("type"@.len() != "function"@.len());
    assert("name"@.len() != "arguments"@.len());
    assert("name"@.len() != "description"@.len());
    assert("name"@.len() != "parameters"@.len());
    assert("description"@.len() != "parameters"@.len());
    assert("role"@.len() != "tool_call_id"@.len());
    assert("role"@.len() != "content"@.len());
    assert("tool_call_id"@.len() != "content"@.len());
    assert("role"@.len() != "tool_calls"@.len());
    assert("content"@.len() != "tool_calls"@.len());
    assert("model"@.len() != "messages"@.len());
    assert("model"@.len() != "stream"@.len());
    assert("model"@.len() != "temperature"@.len());
    assert("model"@[0] != "top_p"@[0]);
    assert("model"@.len() != "max_tokens"@.len());
    assert("model"@[0] != "tools"@[0]);
    assert("messages"@.len() != "stream"@.len());
    assert("messages"@.len() != "temperature"@.len());
    assert("messages"@.len() != "top_p"@.len());
    assert("messages"@.len() != "max_tokens"@.len());
    assert("messages"@.len() != "tools"@.len());
    assert("stream"@.len() != "temperature"@.len());
    assert("stream"@.len() != "top_p"@.len());
    assert("stream"@.len() != "max_tokens"@.len());
    assert("stream"@.len() != "tools"@.len());
    assert("temperature"@.len() != "top_p"@.len());
    assert("temperature"@.len() != "max_tokens"@.len());
    assert("temperature"@.len() != "tools"@.len());
    assert("top_p"@.len() != "max_tokens"@.len());
    assert("top_p"@[2] != "tools"@[2]);
    assert("max_tokens"@.len() != "tools"@.len());
}

/// A call in a request has its id, and a function with its name and its arguments.
pub proof fn a_call_is_written_whole(c: ToolCallView)
    ensures
        member(oai_tool_call(c), "id"@) == Some(JsonTree::Str(c.id)),
        member(oai_tool_call(c), "type"@) == Some(JsonTree::Str("function"@)),
        field_of(member(oai_tool_call(c), "function"@), "name"@) == Some(JsonTree::Str(c.name)),
        field_of(member(oai_tool_call(c), "function"@), "arguments"@) == Some(
            JsonTree::Str(c.arguments),
        ),
{
    keys_differ();
    let f = seq![("name"@, JsonTree::Str(c.name)), ("arguments"@, JsonTree::Str(c.arguments))];
    let e = seq![
        ("id"@, JsonTree::Str(c.id)),
        ("type"@, JsonTree::Str("function"@)),
        ("function"@, object(f)),
    ];
    an_entry_is_a_member(f, 0);
    an_entry_is_a_member(f, 1);
    an_entry_is_a_member(e, 0);
    an_entry_is_a_member(e, 1);
    an_entry_is_a_member(e, 2);
}

/// A tool in a request is a function with its name, its description and the schema
/// of its input.
pub proof fn a_tool_is_written_whole(def: ToolDef)
    ensures
        member(oai_tool(def), "type"@) == Some(JsonTree::Str("function"@)),
        field_of(member(oai_tool(def), "function"@), "name"@) == Some(JsonTree::Str(def.name@)),
        field_of(member(oai_tool(def), "function"@), "description"@) == Some(
            JsonTree::Str(def.description@),
        ),
        field_of(member(oai_tool(def), "function"@), "parameters"@) == Some(def.input_schema@),
{
    keys_differ();
    let f = seq![
        ("name"@, JsonTree::Str(def.name@)),
        ("description"@, JsonTree::Str(def.description@)),
        ("parameters"@, def.input_schema@),
    ];
    let e = seq![("type"@, JsonTree::Str("function"@)), ("function"@, object(f))];
    an_entry_is_a_member(f, 0);
    an_entry_is_a_member(f, 1);
    an_entry_is_a_member(f, 2);
    an_entry_is_a_member(e, 0);
    an_entry_is_a_member(e, 1);
}

/// Of several results in a message the last one is told.
pub proof fn the_last_result_is_told(a: Seq<Block>, b: Seq<Block>, id: Seq<char>, content: Seq<char>)
    requires
        forall|i: int| 0 <= i < b.len() ==> !((#[trigger] b[i]) is ToolResult),
    ensures
        last_result(a.push(Block::ToolResult(id, content)) + b) == Some((id, content)),
        last_result(b) is None,
    decreases b.len(),
{
    let s = a.push(Block::ToolResult(id, content)) + b;
    if b.len() == 0 {
        assert(s =~= a.push(Block::ToolResult(id, content)));
    } else {
        let r = b.drop_last();
        assert(b[b.len() - 1] == b.last());
        assert forall|i: int| 0 <= i < r.len() implies !((#[trigger] r[i]) is ToolResult) by {
            assert(r[i] == b[i]);
        }
        the_last_result_is_told(a, r, id, content);
        assert(s.drop_last() =~= a.push(Block::ToolResult(id, content)) + r);
        assert(s.last() == b.last());
    }
}

/// A message in a request has its role, its text and its calls: the text is null
/// only where there is none and there are calls, and the calls are there only where
/// there are any, each in its place. A result stands alone, under the id of the call
/// that it answers.
pub proof fn a_message_is_written_whole(role: Role, b: Seq<Block>)
    ensures
        last_result(b) matches Some((id, content)) ==> {
            &&& member(oai_message(role, b), "role"@) == Some(JsonTree::Str("tool"@))
            &&& member(oai_message(role, b), "tool_call_id"@) == Some(JsonTree::Str(id))
            &&& member(oai_message(role, b), "content"@) == Some(JsonTree::Str(content))
        },
        last_result(b) is None ==> {
            let m = oai_message(role, b);
            &&& member(m, "role"@) == Some(
                JsonTree::Str(
                    match role {
                        Role::System => "system"@,
                        Role::User => "user"@,
                        Role::Assistant => "assistant"@,
                        Role::Tool => "tool"@,
                    },
                ),
            )
            &&& tool_uses(b).len() > 0 && joined_text(b).len() == 0 ==> member(m, "content"@)
                == Some(JsonTree::Null)
            &&& tool_uses(b).len() == 0 || joined_text(b).len() > 0 ==> member(m, "content"@)
                == Some(JsonTree::Str(joined_text(b)))
            &&& tool_uses(b).len() == 0 ==> member(m, "tool_calls"@) is None
            &&& tool_uses(b).len() > 0 ==> {
                &&& items_in(member(m, "tool_calls"@)) is Some
                &&& items_in(member(m, "tool_calls"@))->0.len() == tool_uses(b).len()
                &&& forall|k: int|
                    0 <= k < tool_uses(b).len() ==> (#[trigger] items_in(
                        member(m, "tool_calls"@),
                    )->0[k]) == oai_tool_call(tool_uses(b)[k])
            }
        },
{
    keys_differ();
    match last_result(b) {
        Some((id, content)) => {
            let e = seq![
                ("role"@, JsonTree::Str("tool"@)),
                ("tool_call_id"@, JsonTree::Str(id)),
                ("content"@, JsonTree::Str(content)),
            ];
            an_entry_is_a_member(e, 0);
            an_entry_is_a_member(e, 1);
            an_entry_is_a_member(e, 2);
        },
        None => {
            let text = joined_text(b);
            let calls = tool_uses(b);
            let said = if text.len() == 0 && calls.len() > 0 {
                JsonTree::Null
            } else {
                JsonTree::Str(text)
            };
            let head = seq![("role"@, JsonTree::Str(role_name(role))), ("content"@, said)];
            if calls.len() > 0 {
                let e = head.push(("tool_calls"@, JsonTree::Array(oai_tool_calls(calls))));
                an_entry_is_a_member(e, 0);
                an_entry_is_a_member(e, 1);
                an_entry_is_a_member(e, 2);
            } else {
                an_entry_is_a_member(head, 0);
                an_entry_is_a_member(head, 1);
                without_an_entry_no_member(head, "tool_calls"@);
            }
        },
    }
}

/// A request asks its model for a stream, with every message in its place, and with
/// each setting and the tools where they are given and not where they are not.
pub proof fn a_request_is_written_whole(
    model: Seq<char>,
    messages: Seq<Message>,
    tools: Seq<ToolDef>,
    temperature: Option<JsonTree>,
    top_p: Option<JsonTree>,
    max_tokens: Option<u32>,
)
    ensures
        ({
            let body = chat_body_tree(model, messages, tools, temperature, top_p, max_tokens);
            &&& member(body, "model"@) == Some(JsonTree::Str(model))
            &&& member(body, "stream"@) == Some(JsonTree::Bool(true))
            &&& items_in(member(body, "messages"@)) is Some
            &&& items_in(member(body, "messages"@))->0.len() == messages.len()
            &&& forall|i: int|
                0 <= i < messages.len() ==> (#[trigger] items_in(member(body, "messages"@))->0[i])
                    == oai_message(messages[i].role, blocks(messages[i].content@))
            &&& member(body, "temperature"@) == temperature
            &&& member(body, "top_p"@) == top_p
            &&& max_tokens is None ==> member(body, "max_tokens"@) is None
            &&& max_tokens matches Some(n) ==> member(body, "max_tokens"@) == Some(
                JsonTree::Number(number_of(n as u64)),
            )
            &&& tools.len() == 0 ==> member(body, "tools"@) is None
            &&& tools.len() > 0 ==> {
                &&& items_in(member(body, "tools"@)) is Some
                &&& items_in(member(body, "tools"@))->0.len() == tools.len()
                &&& forall|i: int|
                    0 <= i < tools.len() ==> (#[trigger] items_in(member(body, "tools"@))->0[i])
                        == oai_tool(tools[i])
            }
        }),
{
    keys_differ();
    let max = match max_tokens {
        Some(n) => Some(JsonTree::Number(number_of(n as u64))),
        None => None,
    };
    let offered = if tools.len() > 0 {
        Some(JsonTree::Array(oai_tools(tools)))
    } else {
        None
    };
    let e0 = seq![
        ("model"@, JsonTree::Str(model)),
        ("messages"@, JsonTree::Array(oai_messages(messages))),
        ("stream"@, JsonTree::Bool(true)),
    ];
    an_entry_is_a_member(e0, 0);
    an_entry_is_a_member(e0, 1);
    an_entry_is_a_member(e0, 2);
    without_an_entry_no_member(e0, "temperature"@);
    without_an_entry_no_member(e0, "top_p"@);
    without_an_entry_no_member(e0, "max_tokens"@);
    without_an_entry_no_member(e0, "tools"@);
    let e1 = e0 + entry("temperature"@, temperature);
    an_entry_is_added(e0, "temperature"@, temperature);
    let e2 = e1 + entry("top_p"@, top_p);
    an_entry_is_added(e1, "top_p"@, top_p);
    let e3 = e2 + entry("max_tokens"@, max);
    an_entry_is_added(e2, "max_tokens"@, max);
    an_entry_is_added(e3, "tools"@, offered);
}

proof fn an_entry_is_added(s: Seq<(Seq<char>, JsonTree)>, key: Seq<char>, value: Option<JsonTree>)
    ensures
        value is Some ==> member(object(s + entry(key, value)), key) == value,
        value is None ==> object(s + entry(key, value)) == object(s),
        forall|other: Seq<char>|
            other != key ==> #[trigger] member(object(s + entry(key, value)), other) == member(
                object(s),
                other,
            ),
{
    match value {
        Some(t) => {
            assert(s + entry(key, value) =~= s.push((key, t)));
            the_last_entry_counts(s, key, t);
        },
        None => {
            assert(s + entry(key, value) =~= s);
        },
    }
}

/// The base of a probe is the endpoint without `/v1` at its end, however often it
/// stands there.
pub proof fn the_version_is_left_out(base: Seq<char>)
    ensures
        without_v1(base + "/v1"@) == without_v1(base),
        !ends_with(base, "/v1"@) ==> without_v1(base) == base,
{
    reveal_strlit("/v1");
    let s = base + "/v1"@;
    assert(s.subrange(s.len() - 3, s.len() as int) =~= "/v1"@);
    assert(s.subrange(0, s.len() - 3) =~= base);
}

/// An id is taken by the slot that has none, and kept by one that has; a name begins
/// the call of the slot, under the id that it has by then.
pub proof fn an_id_is_taken_once(s: Seq<Slot>, tc: JsonTree, n: u64)
    requires
        integer_in(field_of(Some(tc), "index"@)) == Some(n),
        n <= usize::MAX,
    ensures
        ({
            let before = if n < s.len() {
                s[n as int].id
            } else {
                Seq::empty()
            };
            let unnamed = n >= s.len() || s[n as int].name.len() == 0;
            let after = tool_delta(s, tc).0[n as int];
            let said = tool_delta(s, tc).1;
            let id = string_in(field_of(Some(tc), "id"@));
            let name = string_in(field_of(field_of(Some(tc), "function"@), "name"@));
            &&& before.len() > 0 ==> after.id == before
            &&& before.len() == 0 ==> (id matches Some(i) ==> after.id == i)
            &&& before.len() == 0 && id is None ==> after.id.len() == 0
            &&& unnamed ==> (name matches Some(m) ==> (m.len() > 0 ==> after.name == m && said.len()
                > 0 && said[0] == Event::ToolUseStart(after.id, m)))
            &&& unnamed && name is None ==> after.name.len() == 0
        }),
{
    if let Some(i) = string_in(field_of(Some(tc), "id"@)) {
        if i.len() == 0 {
            assert(i =~= Seq::empty());
            if n < s.len() && s[n as int].id.len() == 0 {
                assert(s[n as int].id =~= Seq::empty());
            }
        }
    }
}

/// A delta without an index belongs to the first slot.
pub proof fn without_an_index_it_is_the_first(s: Seq<Slot>, tc: JsonTree, other: JsonTree)
    requires
        integer_in(field_of(Some(tc), "index"@)) is None,
        integer_in(field_of(Some(other), "index"@)) == Some(0u64),
        field_of(Some(tc), "id"@) == field_of(Some(other), "id"@),
        field_of(Some(tc), "function"@) == field_of(Some(other), "function"@),
    ensures
        tool_delta(s, tc) == tool_delta(s, other),
{
}

/// The end of a turn was announced where some event announces it.
pub proof fn an_end_is_an_end(a: Seq<Event>, e: Event)
    ensures
        has_done(a.push(e)) <==> has_done(a) || e is Done,
        !has_done(Seq::empty()),
{
    let s = a.push(e);
    assert(s[a.len() as int] == e);
    if has_done(a) {
        let i = choose|i: int| 0 <= i < a.len() && (#[trigger] a[i]) is Done;
        assert(s[i] is Done);
    }
    if has_done(s) && !(e is Done) {
        let i = choose|i: int| 0 <= i < s.len() && (#[trigger] s[i]) is Done;
        assert(a[i] is Done);
    }
}

/// A turn that was cut at its length, or that calls tools, ends for that reason; any
/// other is over.
pub proof fn a_turn_ends_for_its_reason(reason: Seq<char>)
    ensures
        sse_stop_reason("length"@) is MaxTokens,
        sse_stop_reason("tool_calls"@) is ToolUse,
        reason != "length"@ && reason != "tool_calls"@ ==> sse_stop_reason(reason) is EndTurn,
{
    reveal_strlit("length");
    reveal_strlit("tool_calls");
    assert("length"@.len() != "tool_calls"@.len());
}

/// At the end of a turn every call that was begun ends, in order and under its id.
pub proof fn every_call_ends(s: Seq<Slot>, i: int)
    requires
        0 <= i < s.len(),
    ensures
        ends(s).len() == s.len(),
        ends(s)[i] == Event::ToolUseEnd(s[i].id),
{
}

} // verus!
