//! The in-process engine's backend: model specs, the memory budget of its
//! concurrency, the requests it is handed and the events it streams.

use crate::chat::{
    blocks, events, joined_text, message_text, message_tool_calls, tool_call_views, tool_uses,
    Block, ChatEvent, ContentBlock, Event, Message, Role, StopReason, ToolCall, ToolCallView,
    ToolDef,
};
use crate::json::Json;
use crate::mistralrs_admission::{AdmitError, RequestCost};
use crate::text::{chars_of, contains, copy, has, has_prefix, same, starts_with, substr};
use vstd::prelude::*;
use vstd::utf8::encode_utf8;

verus! {

/// Cap on generated tokens when the request does not specify one.
pub const DEFAULT_MAX_TOKENS: usize = 4096;

/// Smallest context to retry down to before giving up.
pub const N_CTX_FLOOR: u32 = 8192;

/// How much smaller each retry is.
pub const N_CTX_STEP: u32 = 4096;

/// Context window when none is set.
pub const DEFAULT_N_CTX: u32 = 32768;

// ---------------------------------------------------------------------------
// Options
// ---------------------------------------------------------------------------

/// Knobs of the engine.
#[derive(Clone, Copy, Debug)]
pub struct MistralrsOptions {
    /// Context window.
    pub n_ctx: u32,
    /// Sequences that the engine batches concurrently.
    pub max_num_seqs: usize,
}

impl MistralrsOptions {
    /// The options with the context window that was set, if any: one sequence at
    /// a time until the caller budgets more.
    pub fn with_n_ctx(n_ctx: Option<u32>) -> (r: Self)
        ensures
            r.n_ctx == (match n_ctx {
                Some(n) => n,
                None => DEFAULT_N_CTX,
            }),
            r.max_num_seqs == 1,
    {
        MistralrsOptions { n_ctx: n_ctx.unwrap_or(DEFAULT_N_CTX), max_num_seqs: 1 }
    }
}

impl Default for MistralrsOptions {
    fn default() -> (r: Self)
        ensures
            r.n_ctx == DEFAULT_N_CTX,
            r.max_num_seqs == 1,
    {
        Self::with_n_ctx(None)
    }
}

/// A load failure that a smaller context can mend.
pub open spec fn context_too_big(message: Seq<char>) -> bool {
    contains(message, "does not fit"@) || contains(message, "exceeds total capacity"@)
}

/// The context to retry with after the engine failed to load: one step smaller,
/// not below the floor, where the context was too big; `None` where the failure
/// stands.
pub fn reduced_context(message: &str, n_ctx: u32) -> (r: Option<u32>)
    ensures
        r is Some <==> context_too_big(message@) && n_ctx > N_CTX_FLOOR,
        r matches Some(n) ==> n == (if n_ctx >= N_CTX_FLOOR + N_CTX_STEP {
            n_ctx - N_CTX_STEP
        } else {
            N_CTX_FLOOR as int
        }),
{
    let too_big = has(message, "does not fit") || has(message, "exceeds total capacity");
    if too_big && n_ctx > N_CTX_FLOOR {
        if n_ctx >= N_CTX_FLOOR + N_CTX_STEP {
            Some(n_ctx - N_CTX_STEP)
        } else {
            Some(N_CTX_FLOOR)
        }
    } else {
        None
    }
}

// ---------------------------------------------------------------------------
// Specs
// ---------------------------------------------------------------------------

/// The model id that a spec stands for.
pub open spec fn normalized_spec(spec: Seq<char>) -> Seq<char> {
    let mlx = "mlx-community:"@;
    let hf = "hf:"@;
    if starts_with(spec, mlx) {
        "mlx-community/"@ + spec.subrange(mlx.len() as int, spec.len() as int)
    } else if starts_with(spec, hf) {
        spec.subrange(hf.len() as int, spec.len() as int)
    } else {
        spec
    }
}

/// Translates a model spec into a repository id or local path:
///
/// - `mlx-community:<repo>` → `mlx-community/<repo>`
/// - `hf:<user>/<repo>` → `<user>/<repo>`
/// - anything else → as it is
pub fn normalize_spec(spec: &str) -> (r: String)
    ensures
        r@ == normalized_spec(spec@),
{
    proof {
        reveal_strlit("mlx-community:");
        reveal_strlit("hf:");
    }
    let v = chars_of(spec);
    if has_prefix(spec, "mlx-community:") {
        let rest = substr(&v, 14, v.len());
        return copy("mlx-community/").concat(rest.as_str());
    }
    if has_prefix(spec, "hf:") {
        return substr(&v, 3, v.len());
    }
    copy(spec)
}

// ---------------------------------------------------------------------------
// Concurrency budget
// ---------------------------------------------------------------------------

/// Prefill activation peak per token. With chunked prefill the peak is bounded
/// by the chunk size, so that each concurrent prefill costs a constant
/// `chunk * this`.
pub const PREFILL_PEAK_BYTES_PER_TOKEN: u64 = 465 * 1024;

/// Ceiling on budgeted concurrency: past a handful of concurrent prefills extra
/// slots only add latency.
pub const DEFAULT_SEQS_CEILING: usize = 8;

/// Transient memory of one concurrent prefill.
pub fn per_seq_prefill_peak(chunk_tokens: usize) -> (r: u64)
    requires
        chunk_tokens * PREFILL_PEAK_BYTES_PER_TOKEN <= u64::MAX,
    ensures
        r == chunk_tokens * PREFILL_PEAK_BYTES_PER_TOKEN,
{
    chunk_tokens as u64 * PREFILL_PEAK_BYTES_PER_TOKEN
}

/// Inputs to the concurrency budget, in bytes.
#[derive(Clone, Copy, Debug)]
pub struct ConcurrencyBudget {
    /// RAM free before the weights load.
    pub available_ram: Option<u64>,
    /// Model weights that become resident on load.
    pub weights: Option<u64>,
    /// Paged KV pool.
    pub kv_pool: Option<u64>,
    /// Transient cost of one concurrent prefill.
    pub per_seq_peak: u64,
    pub ceiling: usize,
}

/// Five times the headroom, four fifths of the available RAM being committed:
/// `5 · (0.8·available − weights − kv_pool)`.
pub open spec fn five_headrooms(available: u64, weights: u64, kv_pool: u64) -> int {
    4 * available - 5 * weights - 5 * kv_pool
}

/// `floor((0.8·available − weights − kv_pool) / per_seq_peak)`, clamped to
/// `[1, ceiling]`; one where a term is unknown or nothing fits.
pub open spec fn budgeted_seqs(b: ConcurrencyBudget) -> int {
    match (b.available_ram, b.weights, b.kv_pool) {
        (Some(available), Some(weights), Some(kv_pool)) => {
            let h = five_headrooms(available, weights, kv_pool);
            if b.per_seq_peak == 0 || b.ceiling == 0 || h <= 0 {
                1
            } else {
                let slots = h / (5 * b.per_seq_peak);
                if slots < 1 {
                    1
                } else if slots > b.ceiling {
                    b.ceiling as int
                } else {
                    slots
                }
            }
        },
        _ => 1,
    }
}

/// How many concurrent prefills fit in the RAM left after the resident model.
/// One request must always run; two or more only where there is headroom for a
/// second prefill.
pub fn budgeted_max_num_seqs(b: &ConcurrencyBudget) -> (r: usize)
    ensures
        r == budgeted_seqs(*b),
{
    let (available, weights, kv_pool) = match (b.available_ram, b.weights, b.kv_pool) {
        (Some(a), Some(w), Some(k)) => (a, w, k),
        _ => {
            return 1;
        },
    };
    if b.per_seq_peak == 0 || b.ceiling == 0 {
        return 1;
    }
    let committed: u128 = 4 * (available as u128);
    let resident: u128 = 5 * (weights as u128) + 5 * (kv_pool as u128);
    if committed <= resident {
        return 1;
    }
    let slots: u128 = (committed - resident) / (5 * (b.per_seq_peak as u128));
    if slots < 1 {
        1
    } else if slots > b.ceiling as u128 {
        b.ceiling
    } else {
        slots as usize
    }
}

// ---------------------------------------------------------------------------
// Requests
// ---------------------------------------------------------------------------

/// The bytes of all messages' text.
pub open spec fn text_bytes(m: Seq<Message>) -> int
    decreases m.len(),
{
    if m.len() == 0 {
        0
    } else {
        text_bytes(m.drop_last()) + encode_utf8(joined_text(blocks(m.last().content@))).len()
    }
}

pub open spec fn token_cap(max_tokens: Option<u32>) -> usize {
    match max_tokens {
        Some(n) => n as usize,
        None => DEFAULT_MAX_TOKENS,
    }
}

proof fn text_bytes_grows(m: Seq<Message>, i: int)
    requires
        0 <= i <= m.len(),
    ensures
        0 <= text_bytes(m.subrange(0, i)) <= text_bytes(m),
    decreases m.len() - i, i,
{
    if i == m.len() {
        assert(m.subrange(0, i) =~= m);
        if i > 0 {
            assert(m.subrange(0, i - 1) =~= m.drop_last());
            text_bytes_positive(m);
        }
    } else {
        let next = m.subrange(0, i + 1);
        assert(next.drop_last() =~= m.subrange(0, i));
        text_bytes_grows(m, i + 1);
        text_bytes_positive(m.subrange(0, i));
    }
}

proof fn text_bytes_positive(m: Seq<Message>)
    ensures
        text_bytes(m) >= 0,
    decreases m.len(),
{
    if m.len() > 0 {
        text_bytes_positive(m.drop_last());
    }
}

/// Cost estimate for admission order: about four bytes per token over the
/// messages' text, and the generation budget.
pub fn estimate_cost(messages: &Vec<Message>, max_tokens: Option<u32>) -> (r: RequestCost)
    requires
        text_bytes(messages@) <= usize::MAX,
    ensures
        r.prompt_tokens == text_bytes(messages@) / 4,
        r.max_tokens == token_cap(max_tokens),
{
    let mut bytes: usize = 0;
    let mut i: usize = 0;
    while i < messages.len()
        invariant
            i <= messages.len(),
            bytes == text_bytes(messages@.subrange(0, i as int)),
            text_bytes(messages@) <= usize::MAX,
        decreases messages.len() - i,
    {
        let ghost part = messages@.subrange(0, i + 1);
        assert(part.drop_last() =~= messages@.subrange(0, i as int));
        proof {
            text_bytes_grows(messages@, i + 1);
        }
        let text = message_text(&messages[i].content);
        bytes = bytes + text.as_str().as_bytes().len();
        i = i + 1;
    }
    assert(messages@.subrange(0, i as int) =~= messages@);
    RequestCost {
        prompt_tokens: bytes / 4,
        max_tokens: match max_tokens {
            Some(n) => n as usize,
            None => DEFAULT_MAX_TOKENS,
        },
    }
}

/// A message in the form that the engine takes.
pub enum EngineMessage {
    /// Role and text.
    Text(Role, String),
    /// The assistant's text, with the tool calls it made.
    WithToolCalls(String, Vec<ToolCall>),
    /// Content and tool-use id of a tool's result.
    ToolResult(String, String),
}

pub enum EngineMessageView {
    Text(Role, Seq<char>),
    WithToolCalls(Seq<char>, Seq<ToolCallView>),
    ToolResult(Seq<char>, Seq<char>),
}

impl View for EngineMessage {
    type V = EngineMessageView;

    open spec fn view(&self) -> EngineMessageView {
        match *self {
            EngineMessage::Text(role, text) => EngineMessageView::Text(role, text@),
            EngineMessage::WithToolCalls(text, calls) => EngineMessageView::WithToolCalls(
                text@,
                tool_call_views(calls@),
            ),
            EngineMessage::ToolResult(content, id) => EngineMessageView::ToolResult(content@, id@),
        }
    }
}

pub open spec fn engine_views(v: Seq<EngineMessage>) -> Seq<EngineMessageView> {
    Seq::new(v.len(), |i: int| v[i]@)
}

/// The tool results of a message, in order.
pub open spec fn results_in(b: Seq<Block>) -> Seq<EngineMessageView>
    decreases b.len(),
{
    if b.len() == 0 {
        Seq::empty()
    } else {
        let rest = results_in(b.drop_last());
        match b.last() {
            Block::ToolResult(id, content) => rest.push(
                EngineMessageView::ToolResult(content, id),
            ),
            _ => rest,
        }
    }
}

/// What one message becomes: a tool message one entry for each result, any other
/// message one entry, the assistant's with the calls it made.
pub open spec fn engine_entries(role: Role, b: Seq<Block>) -> Seq<EngineMessageView> {
    match role {
        Role::Tool => results_in(b),
        Role::Assistant => if tool_uses(b).len() == 0 {
            seq![EngineMessageView::Text(role, joined_text(b))]
        } else {
            seq![EngineMessageView::WithToolCalls(joined_text(b), tool_uses(b))]
        },
        _ => seq![EngineMessageView::Text(role, joined_text(b))],
    }
}

pub open spec fn engine_messages(m: Seq<Message>) -> Seq<EngineMessageView>
    decreases m.len(),
{
    if m.len() == 0 {
        Seq::empty()
    } else {
        engine_messages(m.drop_last()) + engine_entries(m.last().role, blocks(m.last().content@))
    }
}

/// A tool in the form that the engine takes: the schema where it is an object.
pub struct EngineTool {
    pub name: String,
    pub description: String,
    pub parameters: Option<Json>,
}

pub open spec fn is_engine_tool(t: EngineTool, def: ToolDef) -> bool {
    &&& t.name@ == def.name@
    &&& t.description@ == def.description@
    &&& match t.parameters {
        Some(p) => def.input_schema@ is Object && p@ == def.input_schema@,
        None => !(def.input_schema@ is Object),
    }
}

/// A request in the form that the engine takes. The tools, if any, are offered
/// for the engine to choose from.
pub struct EngineRequest {
    pub messages: Vec<EngineMessage>,
    pub tools: Vec<EngineTool>,
    pub tool_choice_auto: bool,
    pub max_len: usize,
    pub top_k: Option<usize>,
}

fn tool_results(content: &Vec<ContentBlock>, out: &mut Vec<EngineMessage>)
    ensures
        engine_views(final(out)@) == engine_views(old(out)@) + results_in(blocks(content@)),
{
    let mut i: usize = 0;
    assert(results_in(blocks(content@).subrange(0, 0)) =~= Seq::empty());
    assert(engine_views(out@) + Seq::empty() =~= engine_views(out@));
    while i < content.len()
        invariant
            i <= content.len(),
            engine_views(out@) == engine_views(old(out)@) + results_in(
                blocks(content@).subrange(0, i as int),
            ),
        decreases content.len() - i,
    {
        let ghost part = blocks(content@).subrange(0, i + 1);
        assert(part.drop_last() =~= blocks(content@).subrange(0, i as int));
        assert(part.last() == content@[i as int]@);
        let ghost before = out@;
        match &content[i] {
            ContentBlock::ToolResult { tool_use_id, content } => {
                out.push(EngineMessage::ToolResult(content.clone(), tool_use_id.clone()));
                assert(engine_views(out@) =~= engine_views(before).push(out@[out@.len() - 1]@));
                assert(engine_views(out@) =~= engine_views(old(out)@) + results_in(part));
            },
            _ => {},
        }
        i = i + 1;
    }
    assert(blocks(content@).subrange(0, i as int) =~= blocks(content@));
}

fn engine_tools(tools: &Vec<ToolDef>) -> (r: Vec<EngineTool>)
    ensures
        r@.len() == tools@.len(),
        forall|i: int| 0 <= i < tools@.len() ==> is_engine_tool(#[trigger] r@[i], tools@[i]),
{
    let mut out: Vec<EngineTool> = Vec::new();
    let mut i: usize = 0;
    while i < tools.len()
        invariant
            i <= tools.len(),
            out@.len() == i,
            forall|k: int| 0 <= k < i ==> is_engine_tool(#[trigger] out@[k], tools@[k]),
        decreases tools.len() - i,
    {
        let def = &tools[i];
        let parameters = if def.input_schema.is_object() {
            Some(def.input_schema.copy())
        } else {
            None
        };
        out.push(
            EngineTool {
                name: def.name.clone(),
                description: def.description.clone(),
                parameters,
            },
        );
        i = i + 1;
    }
    out
}

/// Puts a conversation into the engine's form.
pub fn build_request(
    messages: &Vec<Message>,
    tools: &Vec<ToolDef>,
    max_tokens: Option<u32>,
    top_k: Option<u32>,
) -> (r: EngineRequest)
    ensures
        engine_views(r.messages@) == engine_messages(messages@),
        r.tools@.len() == tools@.len(),
        forall|i: int| 0 <= i < tools@.len() ==> is_engine_tool(#[trigger] r.tools@[i], tools@[i]),
        r.tool_choice_auto == (tools@.len() > 0),
        r.max_len == token_cap(max_tokens),
        r.top_k == (match top_k {
            Some(k) => Some(k as usize),
            None => None,
        }),
{
    let mut out: Vec<EngineMessage> = Vec::new();
    let mut i: usize = 0;
    assert(engine_views(out@) =~= Seq::empty());
    while i < messages.len()
        invariant
            i <= messages.len(),
            engine_views(out@) == engine_messages(messages@.subrange(0, i as int)),
        decreases messages.len() - i,
    {
        let msg = &messages[i];
        let ghost part = messages@.subrange(0, i + 1);
        assert(part.drop_last() =~= messages@.subrange(0, i as int));
        assert(part.last() == *msg);
        let ghost before = out@;
        match msg.role {
            Role::Tool => {
                tool_results(&msg.content, &mut out);
            },
            Role::Assistant => {
                let calls = message_tool_calls(&msg.content);
                let text = message_text(&msg.content);
                assert(tool_call_views(calls@).len() == calls@.len());
                if calls.len() == 0 {
                    out.push(EngineMessage::Text(msg.role, text));
                } else {
                    out.push(EngineMessage::WithToolCalls(text, calls));
                }
                assert(engine_views(out@) =~= engine_views(before) + seq![out@[out@.len() - 1]@]);
            },
            _ => {
                out.push(EngineMessage::Text(msg.role, message_text(&msg.content)));
                assert(engine_views(out@) =~= engine_views(before) + seq![out@[out@.len() - 1]@]);
            },
        }
        i = i + 1;
    }
    assert(messages@.subrange(0, i as int) =~= messages@);
    EngineRequest {
        messages: out,
        tools: engine_tools(tools),
        tool_choice_auto: tools.len() > 0,
        max_len: match max_tokens {
            Some(n) => n as usize,
            None => DEFAULT_MAX_TOKENS,
        },
        top_k: match top_k {
            Some(k) => Some(k as usize),
            None => None,
        },
    }
}

// ---------------------------------------------------------------------------
// Streams
// ---------------------------------------------------------------------------

/// The first choice of a chunk that the engine streams.
pub struct ChunkChoice {
    pub reasoning: Option<String>,
    pub content: Option<String>,
    pub tool_calls: Vec<ToolCall>,
    pub finish_reason: Option<String>,
}

pub open spec fn stop_reason_of(reason: Seq<char>) -> StopReason {
    if reason == "length"@ {
        StopReason::MaxTokens
    } else if reason == "tool_calls"@ {
        StopReason::ToolUse
    } else {
        StopReason::EndTurn
    }
}

/// A text event, where there is text.
pub open spec fn text_event(t: Option<String>) -> Seq<Event> {
    match t {
        Some(s) => if s@.len() > 0 {
            seq![Event::TextDelta(s@)]
        } else {
            Seq::empty()
        },
        None => Seq::empty(),
    }
}

/// A tool call that arrives whole: start, arguments, end.
pub open spec fn call_events(c: ToolCallView) -> Seq<Event> {
    seq![
        Event::ToolUseStart(c.id, c.name),
        Event::ToolUseDelta(c.id, c.arguments),
        Event::ToolUseEnd(c.id),
    ]
}

pub open spec fn all_call_events(c: Seq<ToolCallView>) -> Seq<Event>
    decreases c.len(),
{
    if c.len() == 0 {
        Seq::empty()
    } else {
        all_call_events(c.drop_last()) + call_events(c.last())
    }
}

/// A chunk counts as one output token where it has content.
pub open spec fn chunk_tokens(c: ChunkChoice) -> int {
    text_event(c.content).len() as int
}

/// What a chunk says: reasoning as text, content, tool calls, and at last the
/// end where it names a reason.
pub open spec fn chunk_events(c: ChunkChoice, output_tokens: u32) -> Seq<Event> {
    let said = text_event(c.reasoning) + text_event(c.content) + all_call_events(
        tool_call_views(c.tool_calls@),
    );
    match c.finish_reason {
        Some(reason) => said.push(
            Event::Done(0, (output_tokens + chunk_tokens(c)) as u32, stop_reason_of(reason@)),
        ),
        None => said,
    }
}

/// How a turn starts, once it is cancelled or the scheduler has answered.
pub enum TurnStart {
    /// The client went away while it waited.
    Cancelled(ChatEvent),
    /// The queue is full: the request is shed with this message.
    Shed(&'static str),
    /// The request holds a slot and may be handed to the engine.
    Run,
}

/// Decides how a turn starts. Cancellation comes first.
pub fn start_turn(cancelled: bool, refused: Option<AdmitError>) -> (r: TurnStart)
    ensures
        cancelled ==> (r matches TurnStart::Cancelled(e) && e@ == Event::Done(
            0,
            0,
            StopReason::Cancelled,
        )),
        !cancelled && refused is Some ==> (r matches TurnStart::Shed(m) && m@
            == "overloaded: admission queue full"@),
        !cancelled && refused is None ==> r is Run,
{
    if cancelled {
        return TurnStart::Cancelled(
            ChatEvent::Done { input_tokens: 0, output_tokens: 0, stop_reason: StopReason::Cancelled },
        );
    }
    match refused {
        Some(e) => TurnStart::Shed(e.message()),
        None => TurnStart::Run,
    }
}

/// A running turn.
pub struct Turn {
    pub output_tokens: u32,
    pub done: bool,
}

fn push_text(out: &mut Vec<ChatEvent>, t: &Option<String>) -> (n: u32)
    ensures
        events(final(out)@) == events(old(out)@) + text_event(*t),
        n == text_event(*t).len(),
{
    match t {
        Some(s) => {
            if !s.as_str().is_empty() {
                out.push(ChatEvent::TextDelta { text: s.clone() });
                assert(events(out@) =~= events(old(out)@) + text_event(*t));
                return 1;
            }
        },
        None => {},
    }
    assert(events(out@) =~= events(old(out)@) + text_event(*t));
    0
}

fn push_calls(out: &mut Vec<ChatEvent>, calls: &Vec<ToolCall>)
    ensures
        events(final(out)@) == events(old(out)@) + all_call_events(tool_call_views(calls@)),
{
    let mut i: usize = 0;
    assert(events(out@) =~= events(old(out)@) + all_call_events(
        tool_call_views(calls@).subrange(0, 0),
    ));
    while i < calls.len()
        invariant
            i <= calls.len(),
            events(out@) == events(old(out)@) + all_call_events(
                tool_call_views(calls@).subrange(0, i as int),
            ),
        decreases calls.len() - i,
    {
        let c = &calls[i];
        let ghost part = tool_call_views(calls@).subrange(0, i + 1);
        assert(part.drop_last() =~= tool_call_views(calls@).subrange(0, i as int));
        assert(part.last() == c@);
        let ghost before = out@;
        out.push(ChatEvent::ToolUseStart { id: c.id.clone(), name: c.name.clone() });
        out.push(
            ChatEvent::ToolUseDelta { id: c.id.clone(), input_json_delta: c.arguments.clone() },
        );
        out.push(ChatEvent::ToolUseEnd { id: c.id.clone() });
        assert(events(out@) =~= events(before) + call_events(c@));
        assert(events(out@) =~= events(old(out)@) + all_call_events(part));
        i = i + 1;
    }
    assert(tool_call_views(calls@).subrange(0, i as int) =~= tool_call_views(calls@));
}

impl Turn {
    pub fn new() -> (r: Turn)
        ensures
            r.output_tokens == 0,
            !r.done,
    {
        Turn { output_tokens: 0, done: false }
    }

    /// The client went away.
    pub fn on_cancel(&mut self) -> (r: ChatEvent)
        ensures
            r@ == Event::Done(0, old(self).output_tokens, StopReason::Cancelled),
            final(self).done,
            final(self).output_tokens == old(self).output_tokens,
    {
        self.done = true;
        ChatEvent::Done {
            input_tokens: 0,
            output_tokens: self.output_tokens,
            stop_reason: StopReason::Cancelled,
        }
    }

    /// A chunk arrived, with its first choice if it has one. A reason to finish
    /// ends the turn.
    pub fn on_chunk(&mut self, choice: &Option<ChunkChoice>) -> (r: Vec<ChatEvent>)
        requires
            *choice matches Some(c) ==> old(self).output_tokens + chunk_tokens(c) <= u32::MAX,
        ensures
            match *choice {
                Some(c) => {
                    &&& events(r@) == chunk_events(c, old(self).output_tokens)
                    &&& final(self).output_tokens == old(self).output_tokens + chunk_tokens(c)
                    &&& final(self).done == (old(self).done || c.finish_reason is Some)
                },
                None => r@.len() == 0 && *final(self) == *old(self),
            },
    {
        let mut out: Vec<ChatEvent> = Vec::new();
        match choice {
            Some(c) => {
                let _ = push_text(&mut out, &c.reasoning);
                let n: u32 = push_text(&mut out, &c.content);
                self.output_tokens = self.output_tokens + n;
                push_calls(&mut out, &c.tool_calls);
                let ghost said = text_event(c.reasoning) + text_event(c.content) + all_call_events(
                    tool_call_views(c.tool_calls@),
                );
                assert(events(out@) =~= said);
                match &c.finish_reason {
                    Some(reason) => {
                        let stop_reason = if same(reason.as_str(), "length") {
                            StopReason::MaxTokens
                        } else if same(reason.as_str(), "tool_calls") {
                            StopReason::ToolUse
                        } else {
                            StopReason::EndTurn
                        };
                        out.push(
                            ChatEvent::Done {
                                input_tokens: 0,
                                output_tokens: self.output_tokens,
                                stop_reason,
                            },
                        );
                        assert(events(out@) =~= said.push(out@[out@.len() - 1]@));
                        self.done = true;
                    },
                    None => {},
                }
            },
            None => {},
        }
        out
    }

    /// The engine's stream ended: the end is announced where no chunk did.
    pub fn on_end(&self) -> (r: Option<ChatEvent>)
        ensures
            self.done ==> r is None,
            !self.done ==> (r matches Some(e) && e@ == Event::Done(
                0,
                self.output_tokens,
                StopReason::EndTurn,
            )),
    {
        if self.done {
            None
        } else {
            Some(
                ChatEvent::Done {
                    input_tokens: 0,
                    output_tokens: self.output_tokens,
                    stop_reason: StopReason::EndTurn,
                },
            )
        }
    }
}

// ---------------------------------------------------------------------------
// Laws
// ---------------------------------------------------------------------------

/// One slot is always granted, and never more than the ceiling where it allows
/// one at all.
pub proof fn budget_is_clamped(b: ConcurrencyBudget)
    ensures
        budgeted_seqs(b) >= 1,
        b.ceiling >= 1 ==> budgeted_seqs(b) <= b.ceiling,
{
}

/// Two or more slots are granted only where four fifths of the available RAM
/// hold the model, the KV pool and all those prefills.
pub proof fn budgeted_prefills_fit(b: ConcurrencyBudget)
    requires
        budgeted_seqs(b) >= 2,
    ensures
        b.available_ram is Some,
        b.weights is Some,
        b.kv_pool is Some,
        5 * (b.weights->0 + b.kv_pool->0 + budgeted_seqs(b) * b.per_seq_peak)
            <= 4 * b.available_ram->0,
{
    let h = five_headrooms(b.available_ram->0, b.weights->0, b.kv_pool->0);
    let d = 5 * b.per_seq_peak;
    let n = budgeted_seqs(b);
    assert(n <= h / d);
    assert(n * d <= h) by (nonlinear_arith)
        requires
            n <= h / d,
            d > 0,
            h > 0,
    ;
    assert(n * d == 5 * (n * b.per_seq_peak)) by (nonlinear_arith)
        requires
            d == 5 * b.per_seq_peak,
    ;
}

/// More available RAM never lowers the budget.
pub proof fn budget_grows_with_memory(b: ConcurrencyBudget, more: u64)
    requires
        b.available_ram is Some,
        more >= b.available_ram->0,
    ensures
        budgeted_seqs((ConcurrencyBudget { available_ram: Some(more), ..b })) >= budgeted_seqs(b),
{
    if b.weights is Some && b.kv_pool is Some && b.per_seq_peak > 0 {
        let h = five_headrooms(b.available_ram->0, b.weights->0, b.kv_pool->0);
        let g = five_headrooms(more, b.weights->0, b.kv_pool->0);
        vstd::arithmetic::div_mod::lemma_div_is_ordered(h, g, 5 * b.per_seq_peak as int);
    }
}

/// Whatever its chunks say, a turn announces its end once: a chunk that ends it
/// does so with its last event, and then the end of the stream adds nothing.
pub proof fn a_chunk_ends_a_turn_last(c: ChunkChoice, output_tokens: u32, i: int)
    requires
        0 <= i < chunk_events(c, output_tokens).len(),
        chunk_events(c, output_tokens)[i] is Done,
    ensures
        c.finish_reason is Some,
        i == chunk_events(c, output_tokens).len() - 1,
{
    no_done_in_calls(tool_call_views(c.tool_calls@));
    let said = text_event(c.reasoning) + text_event(c.content) + all_call_events(
        tool_call_views(c.tool_calls@),
    );
    assert(forall|k: int| 0 <= k < said.len() ==> !((#[trigger] said[k]) is Done));
}

proof fn no_done_in_calls(c: Seq<ToolCallView>)
    ensures
        forall|k: int| 0 <= k < all_call_events(c).len() ==> !((#[trigger] all_call_events(c)[k]) is Done),
    decreases c.len(),
{
    if c.len() > 0 {
        no_done_in_calls(c.drop_last());
    }
}

/// The budget is the most that fits: as many prefills as four fifths of the
/// available RAM hold beside the model and the KV pool are granted, up to the
/// ceiling; where a term is not known, one.
pub proof fn the_budget_is_the_most_that_fits(b: ConcurrencyBudget, n: int)
    ensures
        b.available_ram is None || b.weights is None || b.kv_pool is None ==> budgeted_seqs(b) == 1,
        b.available_ram is Some && b.weights is Some && b.kv_pool is Some && b.per_seq_peak > 0 && 1
            <= n <= b.ceiling && 5 * (b.weights->0 + b.kv_pool->0 + n * b.per_seq_peak) <= 4
            * b.available_ram->0 ==> budgeted_seqs(b) >= n,
{
    if b.available_ram is Some && b.weights is Some && b.kv_pool is Some && b.per_seq_peak > 0 && 1
        <= n <= b.ceiling && 5 * (b.weights->0 + b.kv_pool->0 + n * b.per_seq_peak) <= 4
        * b.available_ram->0 {
        let h = five_headrooms(b.available_ram->0, b.weights->0, b.kv_pool->0);
        let peak = b.per_seq_peak as int;
        let d = 5 * peak;
        assert(n * d == 5 * (n * peak)) by (nonlinear_arith)
            requires
                d == 5 * peak,
        ;
        assert(n * d <= h);
        assert(h / d >= n) by (nonlinear_arith)
            requires
                n * d <= h,
                d > 0,
        ;
        assert(n * d > 0) by (nonlinear_arith)
            requires
                n >= 1,
                d > 0,
        ;
    }
}

/// A spec names the repository behind its prefix; one without a known prefix is
/// itself.
pub proof fn a_spec_names_its_repository(repo: Seq<char>, other: Seq<char>)
    ensures
        normalized_spec("mlx-community:"@ + repo) == "mlx-community/"@ + repo,
        normalized_spec("hf:"@ + repo) == repo,
        !starts_with(other, "mlx-community:"@) && !starts_with(other, "hf:"@) ==> normalized_spec(
            other,
        ) == other,
{
    reveal_strlit("mlx-community:");
    reveal_strlit("hf:");
    let a = "mlx-community:"@ + repo;
    let b = "hf:"@ + repo;
    assert(a.subrange(0, 14) =~= "mlx-community:"@);
    assert(a.subrange(14, a.len() as int) =~= repo);
    assert(b.subrange(0, 3) =~= "hf:"@);
    assert(b.subrange(3, b.len() as int) =~= repo);
    assert(b[0] == 'h');
    if starts_with(b, "mlx-community:"@) {
        assert(b.subrange(0, 14)[0] == 'm');
    }
}

/// The text of two parts of a conversation put together has the bytes of both.
pub proof fn bytes_add_up(a: Seq<Message>, b: Seq<Message>, m: Message)
    ensures
        text_bytes(a + b) == text_bytes(a) + text_bytes(b),
        text_bytes(seq![m]) == encode_utf8(joined_text(blocks(m.content@))).len(),
    decreases b.len(),
{
    let none = Seq::<Message>::empty();
    assert(seq![m].drop_last() =~= none);
    assert(seq![m].last() == m);
    assert(text_bytes(none) == 0);
    if b.len() == 0 {
        assert(a + b =~= a);
    } else {
        bytes_add_up(a, b.drop_last(), m);
        assert((a + b).drop_last() =~= a + b.drop_last());
        assert((a + b).last() == b.last());
    }
}

/// What is asked for is the limit; without a limit it is the default.
pub proof fn the_limit_is_what_was_asked_for(n: u32)
    ensures
        token_cap(Some(n)) == n,
        token_cap(None) == 4096,
{
}

/// The conversation that an engine is handed is that of its first part and then
/// that of the rest; the results of a message likewise.
pub proof fn conversations_add_up(a: Seq<Message>, b: Seq<Message>, x: Seq<Block>, y: Seq<Block>)
    ensures
        engine_messages(a + b) == engine_messages(a) + engine_messages(b),
        results_in(x + y) == results_in(x) + results_in(y),
    decreases b.len() + y.len(),
{
    if b.len() == 0 {
        assert(a + b =~= a);
        assert(engine_messages(a) + engine_messages(b) =~= engine_messages(a));
    } else {
        conversations_add_up(a, b.drop_last(), x, y);
        assert((a + b).drop_last() =~= a + b.drop_last());
        assert((a + b).last() == b.last());
        assert(engine_messages(a + b) =~= engine_messages(a) + engine_messages(b));
    }
    if y.len() == 0 {
        assert(x + y =~= x);
        assert(results_in(x) + results_in(y) =~= results_in(x));
    } else {
        conversations_add_up(a, b, x, y.drop_last());
        assert((x + y).drop_last() =~= x + y.drop_last());
        assert((x + y).last() == y.last());
        assert(results_in(x + y) =~= results_in(x) + results_in(y));
    }
}

/// A message becomes what it is: a tool's message its results, each with its content
/// and the id of its call, and any other a text under its role, the assistant's with
/// the calls that it made.
pub proof fn a_message_is_handed_on(m: Message, b: Block)
    ensures
        ({
            let all = blocks(m.content@);
            let e = engine_messages(seq![m]);
            &&& m.role is Tool ==> e == results_in(all)
            &&& m.role is System || m.role is User ==> e == seq![
                EngineMessageView::Text(m.role, joined_text(all)),
            ]
            &&& m.role is Assistant && tool_uses(all).len() == 0 ==> e == seq![
                EngineMessageView::Text(m.role, joined_text(all)),
            ]
            &&& m.role is Assistant && tool_uses(all).len() > 0 ==> e == seq![
                EngineMessageView::WithToolCalls(joined_text(all), tool_uses(all)),
            ]
        }),
        b matches Block::ToolResult(id, content) ==> results_in(seq![b]) == seq![
            EngineMessageView::ToolResult(content, id),
        ],
        !(b is ToolResult) ==> results_in(seq![b]).len() == 0,
{
    let none = Seq::<Message>::empty();
    assert(seq![m].drop_last() =~= none);
    assert(seq![m].last() == m);
    assert(engine_messages(none) =~= Seq::empty());
    let e = engine_entries(m.role, blocks(m.content@));
    assert(Seq::<EngineMessageView>::empty() + e =~= e);
    let nothing = Seq::<Block>::empty();
    assert(seq![b].drop_last() =~= nothing);
    assert(seq![b].last() == b);
    assert(results_in(nothing) =~= Seq::empty());
    if let Block::ToolResult(id, content) = b {
        assert(results_in(seq![b]) =~= seq![EngineMessageView::ToolResult(content, id)]);
    }
}

/// A chunk says its reasoning, then its content, then each of its calls from start to
/// end under the id of the call, and at last why it ends, with the tokens so far and
/// one more where it has content.
pub proof fn a_chunk_tells_what_it_holds(c: ChunkChoice, output_tokens: u32, k: int)
    requires
        output_tokens < u32::MAX,
        0 <= k < c.tool_calls@.len(),
    ensures
        ({
            let e = chunk_events(c, output_tokens);
            let thought = c.reasoning matches Some(r) && r@.len() > 0;
            let said = c.content matches Some(t) && t@.len() > 0;
            let lead: int = (if thought {
                1int
            } else {
                0
            }) + (if said {
                1int
            } else {
                0
            });
            let call = c.tool_calls@[k];
            &&& thought ==> e[0] == Event::TextDelta(c.reasoning->0@)
            &&& said ==> e[lead - 1] == Event::TextDelta(c.content->0@)
            &&& e[lead + 3 * k] == Event::ToolUseStart(call.id@, call.name@)
            &&& e[lead + 3 * k + 1] == Event::ToolUseDelta(call.id@, call.arguments@)
            &&& e[lead + 3 * k + 2] == Event::ToolUseEnd(call.id@)
            &&& c.finish_reason is None ==> e.len() == lead + 3 * c.tool_calls@.len()
            &&& c.finish_reason matches Some(reason) ==> {
                &&& e.len() == lead + 3 * c.tool_calls@.len() + 1
                &&& e.last() matches Event::Done(read, written, stop) && {
                    &&& read == 0
                    &&& written == output_tokens + (if said {
                        1int
                    } else {
                        0
                    })
                    &&& reason@ == "length"@ ==> stop is MaxTokens
                    &&& reason@ == "tool_calls"@ ==> stop is ToolUse
                    &&& reason@ != "length"@ && reason@ != "tool_calls"@ ==> stop is EndTurn
                }
            }
        }),
{
    reveal_strlit("length");
    reveal_strlit("tool_calls");
    assert("length"@.len() != "tool_calls"@.len());
    calls_in_threes(tool_call_views(c.tool_calls@), k);
}

proof fn calls_in_threes(c: Seq<ToolCallView>, k: int)
    ensures
        all_call_events(c).len() == 3 * c.len(),
        0 <= k < c.len() ==> {
            &&& all_call_events(c)[3 * k] == Event::ToolUseStart(c[k].id, c[k].name)
            &&& all_call_events(c)[3 * k + 1] == Event::ToolUseDelta(c[k].id, c[k].arguments)
            &&& all_call_events(c)[3 * k + 2] == Event::ToolUseEnd(c[k].id)
        },
    decreases c.len(),
{
    if c.len() > 0 {
        calls_in_threes(c.drop_last(), k);
    }
}

/// A failure to load is mended by a smaller context where it says that the context
/// does not fit.
pub proof fn a_context_too_big_is_told(a: Seq<char>, b: Seq<char>)
    ensures
        context_too_big(a + "does not fit"@ + b),
        context_too_big(a + "exceeds total capacity"@ + b),
        !contains(a, "does not fit"@) && !contains(a, "exceeds total capacity"@)
            ==> !context_too_big(a),
{
    let n = a.len() as int;
    let p = "does not fit"@;
    let q = "exceeds total capacity"@;
    let s = a + p + b;
    let t = a + q + b;
    crate::text::find_from_is_least(s, p, 0);
    crate::text::find_from_is_least(t, q, 0);
    assert(s.subrange(n, n + p.len()) =~= p);
    assert(t.subrange(n, n + q.len()) =~= q);
    assert(crate::text::occurs_at(s, p, n));
    assert(crate::text::occurs_at(t, q, n));
}

/// A tool is handed on with its name and its description, and with its schema where
/// that is an object.
pub proof fn a_tool_is_handed_on(t: EngineTool, def: ToolDef)
    requires
        is_engine_tool(t, def),
    ensures
        t.name@ == def.name@,
        t.description@ == def.description@,
        def.input_schema@ is Object ==> (t.parameters matches Some(p) && p@ == def.input_schema@),
        !(def.input_schema@ is Object) ==> t.parameters is None,
{
}

/// A turn that was cut at its length, or that calls tools, ends for that reason; any
/// other is over.
pub proof fn a_turn_ends_for_its_reason(reason: Seq<char>)
    ensures
        stop_reason_of("length"@) is MaxTokens,
        stop_reason_of("tool_calls"@) is ToolUse,
        reason != "length"@ && reason != "tool_calls"@ ==> stop_reason_of(reason) is EndTurn,
{
    reveal_strlit("length");
    reveal_strlit("tool_calls");
    assert("length"@.len() != "tool_calls"@.len());
}

} // verus!
