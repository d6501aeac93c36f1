//! Conversations and the events that a backend streams back.

use crate::json::{tree_of, Json, JsonTree};
use vstd::prelude::*;

verus! {

#[derive(Clone, Copy, Debug, PartialEq, Eq, Structural)]
pub enum Role {
    System,
    User,
    Assistant,
    Tool,
}

/// One part of a message.
pub enum ContentBlock {
    Text { text: String },
    ToolUse { id: String, name: String, input: Json },
    ToolResult { tool_use_id: String, content: String },
}

pub struct Message {
    pub role: Role,
    pub content: Vec<ContentBlock>,
}

/// A tool that the model may call.
pub struct ToolDef {
    pub name: String,
    pub description: String,
    pub input_schema: Json,
}

#[derive(Clone, Copy, Debug, PartialEq, Eq, Structural)]
pub enum StopReason {
    EndTurn,
    MaxTokens,
    ToolUse,
    Cancelled,
}

/// What a backend streams.
#[derive(Debug, PartialEq, Eq)]
pub enum ChatEvent {
    TextDelta { text: String },
    ToolUseStart { id: String, name: String },
    ToolUseDelta { id: String, input_json_delta: String },
    ToolUseEnd { id: String },
    Done { input_tokens: u32, output_tokens: u32, stop_reason: StopReason },
}

/// An event as plain values.
pub enum Event {
    TextDelta(Seq<char>),
    ToolUseStart(Seq<char>, Seq<char>),
    ToolUseDelta(Seq<char>, Seq<char>),
    ToolUseEnd(Seq<char>),
    Done(u32, u32, StopReason),
}

impl View for ChatEvent {
    type V = Event;

    open spec fn view(&self) -> Event {
        match *self {
            ChatEvent::TextDelta { text } => Event::TextDelta(text@),
            ChatEvent::ToolUseStart { id, name } => Event::ToolUseStart(id@, name@),
            ChatEvent::ToolUseDelta { id, input_json_delta } => Event::ToolUseDelta(
                id@,
                input_json_delta@,
            ),
            ChatEvent::ToolUseEnd { id } => Event::ToolUseEnd(id@),
            ChatEvent::Done { input_tokens, output_tokens, stop_reason } => Event::Done(
                input_tokens,
                output_tokens,
                stop_reason,
            ),
        }
    }
}

/// What a list of events says.
pub open spec fn events(v: Seq<ChatEvent>) -> Seq<Event> {
    Seq::new(v.len(), |i: int| v[i]@)
}

/// A part of a message as plain values.
pub enum Block {
    Text(Seq<char>),
    ToolUse(Seq<char>, Seq<char>, JsonTree),
    ToolResult(Seq<char>, Seq<char>),
}

impl View for ContentBlock {
    type V = Block;

    open spec fn view(&self) -> Block {
        match *self {
            ContentBlock::Text { text } => Block::Text(text@),
            ContentBlock::ToolUse { id, name, input } => Block::ToolUse(id@, name@, tree_of(input)),
            ContentBlock::ToolResult { tool_use_id, content } => Block::ToolResult(
                tool_use_id@,
                content@,
            ),
        }
    }
}

pub open spec fn blocks(v: Seq<ContentBlock>) -> Seq<Block> {
    Seq::new(v.len(), |i: int| v[i]@)
}

/// The text blocks of a message, joined.
pub open spec fn joined_text(b: Seq<Block>) -> Seq<char>
    decreases b.len(),
{
    if b.len() == 0 {
        Seq::empty()
    } else {
        let rest = joined_text(b.drop_last());
        match b.last() {
            Block::Text(t) => rest + t,
            _ => rest,
        }
    }
}

/// A tool call that a model made: its id, the tool's name and the text of its
/// arguments.
pub struct ToolCall {
    pub id: String,
    pub name: String,
    pub arguments: String,
}

pub struct ToolCallView {
    pub id: Seq<char>,
    pub name: Seq<char>,
    pub arguments: Seq<char>,
}

impl View for ToolCall {
    type V = ToolCallView;

    open spec fn view(&self) -> ToolCallView {
        ToolCallView { id: self.id@, name: self.name@, arguments: self.arguments@ }
    }
}

pub open spec fn tool_call_views(v: Seq<ToolCall>) -> Seq<ToolCallView> {
    Seq::new(v.len(), |i: int| v[i]@)
}

/// The tool-use blocks of a message as calls, the arguments in compact JSON.
pub open spec fn tool_uses(b: Seq<Block>) -> Seq<ToolCallView>
    decreases b.len(),
{
    if b.len() == 0 {
        Seq::empty()
    } else {
        let rest = tool_uses(b.drop_last());
        match b.last() {
            Block::ToolUse(id, name, input) => rest.push(
                ToolCallView { id, name, arguments: crate::json::rendered(input) },
            ),
            _ => rest,
        }
    }
}

/// The text blocks of a message, joined.
pub fn message_text(content: &Vec<ContentBlock>) -> (r: String)
    ensures
        r@ == joined_text(blocks(content@)),
{
    let mut out = String::new();
    let mut i: usize = 0;
    while i < content.len()
        invariant
            i <= content.len(),
            out@ == joined_text(blocks(content@).subrange(0, i as int)),
        decreases content.len() - i,
    {
        let ghost part = blocks(content@).subrange(0, i + 1);
        assert(part.drop_last() =~= blocks(content@).subrange(0, i as int));
        assert(part.last() == content@[i as int]@);
        match &content[i] {
            ContentBlock::Text { text } => {
                out.append(text.as_str());
            },
            _ => {},
        }
        i = i + 1;
    }
    assert(blocks(content@).subrange(0, i as int) =~= blocks(content@));
    out
}

/// The tool-use blocks of a message as calls, so that the model sees its own
/// prior calls.
pub fn message_tool_calls(content: &Vec<ContentBlock>) -> (r: Vec<ToolCall>)
    ensures
        tool_call_views(r@) == tool_uses(blocks(content@)),
{
    let mut out: Vec<ToolCall> = Vec::new();
    let mut i: usize = 0;
    assert(tool_call_views(out@) =~= Seq::empty());
    while i < content.len()
        invariant
            i <= content.len(),
            tool_call_views(out@) == tool_uses(blocks(content@).subrange(0, i as int)),
        decreases content.len() - i,
    {
        let ghost part = blocks(content@).subrange(0, i + 1);
        assert(part.drop_last() =~= blocks(content@).subrange(0, i as int));
        assert(part.last() == content@[i as int]@);
        let ghost before = out@;
        match &content[i] {
            ContentBlock::ToolUse { id, name, input } => {
                out.push(
                    ToolCall { id: id.clone(), name: name.clone(), arguments: input.to_text() },
                );
                assert(tool_call_views(out@) =~= tool_call_views(before).push(
                    out@[out@.len() - 1]@,
                ));
            },
            _ => {},
        }
        i = i + 1;
    }
    assert(blocks(content@).subrange(0, i as int) =~= blocks(content@));
    out
}

/// The text and the calls of two parts of a message put together are those of the
/// first and then those of the second.
pub proof fn blocks_add_up(a: Seq<Block>, b: Seq<Block>)
    ensures
        joined_text(a + b) == joined_text(a) + joined_text(b),
        tool_uses(a + b) == tool_uses(a) + tool_uses(b),
    decreases b.len(),
{
    if b.len() == 0 {
        assert(a + b =~= a);
        assert(joined_text(a) + joined_text(b) =~= joined_text(a));
        assert(tool_uses(a) + tool_uses(b) =~= tool_uses(a));
    } else {
        blocks_add_up(a, b.drop_last());
        assert((a + b).drop_last() =~= a + b.drop_last());
        assert(joined_text(a + b) =~= joined_text(a) + joined_text(b));
        assert(tool_uses(a + b) =~= tool_uses(a) + tool_uses(b));
    }
}

/// A block of text is its text and no call; a call is a call with its id, its name
/// and the text of its input, and no text; a result is neither.
pub proof fn a_block_is_what_it_is(b: Block)
    ensures
        b matches Block::Text(t) ==> joined_text(seq![b]) == t && tool_uses(seq![b]).len() == 0,
        b matches Block::ToolUse(id, name, input) ==> {
            &&& joined_text(seq![b]).len() == 0
            &&& tool_uses(seq![b]).len() == 1
            &&& tool_uses(seq![b])[0].id == id
            &&& tool_uses(seq![b])[0].name == name
            &&& tool_uses(seq![b])[0].arguments == crate::json::rendered(input)
        },
        b is ToolResult ==> joined_text(seq![b]).len() == 0 && tool_uses(seq![b]).len() == 0,
{
    let none = Seq::<Block>::empty();
    assert(seq![b].drop_last() =~= none);
    assert(seq![b].last() == b);
    assert(joined_text(none) =~= Seq::empty());
    assert(tool_uses(none) =~= Seq::empty());
    if let Block::Text(t) = b {
        assert(joined_text(seq![b]) =~= t);
    }
}

} // verus!
