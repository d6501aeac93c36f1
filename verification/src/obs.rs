//! Gateway observability: the events of a log and the metrics of a gateway.

use crate::chat::{ChatEvent, Event, StopReason};
use crate::json::{
    an_entry_is_a_member, entries_map, json_str, json_u64, member, number_of, pairs, pairs_index,
    trees, trees_index, Json, JsonTree,
};
use crate::paths::{join_path, path_join};
use crate::text::copy;
use std::collections::VecDeque;
use vstd::prelude::*;

verus! {

/// Finished requests that are remembered.
pub const RECENT_CAP: usize = 30;

// ---------------------------------------------------------------------------
// Requests
// ---------------------------------------------------------------------------

/// What is known of a request when it arrives.
pub struct ReqMeta {
    pub endpoint: &'static str,
    pub model: String,
    pub n_messages: usize,
    pub n_tools: usize,
    pub est_prompt_tokens: u32,
}

/// A request that is being answered.
#[derive(Clone, Copy)]
pub struct Active {
    pub id: u64,
    pub endpoint: &'static str,
    /// When it started, in milliseconds of the observer's clock.
    pub started_ms: u64,
    pub est_prompt_tokens: u32,
    pub first_token_ms: Option<u64>,
    pub output_tokens: u32,
}

/// A request that was answered.
pub struct Summary {
    pub id: u64,
    pub endpoint: &'static str,
    pub est_prompt_tokens: u32,
    pub ttft_ms: Option<u64>,
    pub output_tokens: u32,
    pub duration_ms: u64,
    pub stop_reason: &'static str,
    pub had_tool_use: bool,
}

/// The position of the first request with an id.
pub open spec fn position_of(active: Seq<Active>, id: u64) -> Option<int>
    decreases active.len(),
{
    if active.len() == 0 {
        None
    } else {
        match position_of(active.drop_last(), id) {
            Some(i) => Some(i),
            None => if active.last().id == id {
                Some(active.len() - 1)
            } else {
                None
            },
        }
    }
}

proof fn position_of_first(active: Seq<Active>, id: u64)
    ensures
        match position_of(active, id) {
            Some(i) => {
                &&& 0 <= i < active.len()
                &&& active[i].id == id
                &&& forall|j: int| 0 <= j < i ==> (#[trigger] active[j]).id != id
            },
            None => forall|j: int| 0 <= j < active.len() ==> (#[trigger] active[j]).id != id,
        },
    decreases active.len(),
{
    if active.len() > 0 {
        let init = active.drop_last();
        position_of_first(init, id);
        match position_of(active, id) {
            Some(i) => {
                assert forall|j: int| 0 <= j < i implies (#[trigger] active[j]).id != id by {
                    assert(init[j] == active[j]);
                }
            },
            None => {
                assert forall|j: int| 0 <= j < active.len() implies (#[trigger] active[j]).id
                    != id by {
                    if j < init.len() {
                        assert(init[j] == active[j]);
                    }
                }
            },
        }
    }
}

/// The last `cap` of a list that one more was added to.
pub open spec fn remembered(recent: Seq<Summary>, s: Summary, cap: int) -> Seq<Summary> {
    if recent.len() == cap {
        recent.subrange(1, recent.len() as int).push(s)
    } else {
        recent.push(s)
    }
}

// ---------------------------------------------------------------------------
// Observer
// ---------------------------------------------------------------------------

/// The metrics of a gateway.
pub struct Observer {
    pub backend_label: String,
    pub next_id: u64,
    pub total_requests: u64,
    pub total_output_tokens: u64,
    pub active: Vec<Active>,
    pub recent: VecDeque<Summary>,
}

impl Observer {
    pub fn new() -> (r: Self)
        ensures
            r.backend_label@ == "unknown"@,
            r.next_id == 1,
            r.total_requests == 0,
            r.total_output_tokens == 0,
            r.active@.len() == 0,
            r.recent@.len() == 0,
    {
        Observer {
            backend_label: copy("unknown"),
            next_id: 1,
            total_requests: 0,
            total_output_tokens: 0,
            active: Vec::new(),
            recent: VecDeque::new(),
        }
    }

    /// No more requests are remembered than the cap allows.
    pub open spec fn wf(&self) -> bool {
        self.recent@.len() <= RECENT_CAP
    }

    /// The metrics but the label are the same.
    pub open spec fn same_metrics(&self, o: Observer) -> bool {
        &&& self.next_id == o.next_id
        &&& self.total_requests == o.total_requests
        &&& self.total_output_tokens == o.total_output_tokens
        &&& self.active@ == o.active@
        &&& self.recent@ == o.recent@
    }

    pub fn set_backend_label(&mut self, label: &str)
        ensures
            final(self).backend_label@ == label@,
            final(self).same_metrics(*old(self)),
    {
        self.backend_label = copy(label);
    }

    /// A request arrived at `now_ms`; gives the id it is known by.
    pub fn request_start(&mut self, meta: &ReqMeta, now_ms: u64) -> (id: u64)
        requires
            old(self).next_id < u64::MAX,
            old(self).total_requests < u64::MAX,
        ensures
            id == old(self).next_id,
            final(self).next_id == old(self).next_id + 1,
            final(self).total_requests == old(self).total_requests + 1,
            final(self).total_output_tokens == old(self).total_output_tokens,
            final(self).recent@ == old(self).recent@,
            final(self).backend_label@ == old(self).backend_label@,
            final(self).active@ == old(self).active@.push(
                (Active {
                    id,
                    endpoint: meta.endpoint,
                    started_ms: now_ms,
                    est_prompt_tokens: meta.est_prompt_tokens,
                    first_token_ms: None,
                    output_tokens: 0,
                }),
            ),
    {
        let id = self.next_id;
        self.next_id = self.next_id + 1;
        self.total_requests = self.total_requests + 1;
        self.active.push(
            Active {
                id,
                endpoint: meta.endpoint,
                started_ms: now_ms,
                est_prompt_tokens: meta.est_prompt_tokens,
                first_token_ms: None,
                output_tokens: 0,
            },
        );
        id
    }

    fn find(&self, id: u64) -> (r: Option<usize>)
        ensures
            match r {
                Some(i) => position_of(self.active@, id) == Some(i as int) && i < self.active@.len(),
                None => position_of(self.active@, id) is None,
            },
    {
        proof {
            position_of_first(self.active@, id);
        }
        let mut i: usize = 0;
        while i < self.active.len()
            invariant
                i <= self.active.len(),
                forall|j: int| 0 <= j < i ==> (#[trigger] self.active@[j]).id != id,
            decreases self.active.len() - i,
        {
            if self.active[i].id == id {
                proof {
                    position_of_first(self.active@, id);
                    let p = position_of(self.active@, id);
                    assert(self.active@[i as int].id == id);
                    assert(p is Some);
                    assert(p->0 == i);
                }
                return Some(i);
            }
            i = i + 1;
        }
        None
    }

    /// The first token of a request came after `ttft_ms`.
    pub fn first_token(&mut self, id: u64, ttft_ms: u64)
        ensures
            final(self).active@ == (match position_of(old(self).active@, id) {
                Some(i) => old(self).active@.update(
                    i,
                    (Active { first_token_ms: Some(ttft_ms), ..old(self).active@[i] }),
                ),
                None => old(self).active@,
            }),
            final(self).next_id == old(self).next_id,
            final(self).total_requests == old(self).total_requests,
            final(self).total_output_tokens == old(self).total_output_tokens,
            final(self).recent@ == old(self).recent@,
            final(self).backend_label@ == old(self).backend_label@,
    {
        match self.find(id) {
            Some(i) => {
                let mut a = self.active[i];
                a.first_token_ms = Some(ttft_ms);
                self.active.set(i, a);
            },
            None => {},
        }
    }

    /// A request said one token more.
    pub fn bump_token(&mut self, id: u64)
        requires
            position_of(old(self).active@, id) matches Some(i) ==> old(
                self,
            ).active@[i].output_tokens < u32::MAX,
        ensures
            final(self).active@ == (match position_of(old(self).active@, id) {
                Some(i) => old(self).active@.update(
                    i,
                    (Active {
                        output_tokens: (old(self).active@[i].output_tokens + 1) as u32,
                        ..old(self).active@[i]
                    }),
                ),
                None => old(self).active@,
            }),
            final(self).next_id == old(self).next_id,
            final(self).total_requests == old(self).total_requests,
            final(self).total_output_tokens == old(self).total_output_tokens,
            final(self).recent@ == old(self).recent@,
            final(self).backend_label@ == old(self).backend_label@,
    {
        match self.find(id) {
            Some(i) => {
                let mut a = self.active[i];
                a.output_tokens = a.output_tokens + 1;
                self.active.set(i, a);
            },
            None => {},
        }
    }

    /// A request ended: it leaves the active ones and is remembered, the oldest
    /// being forgotten where there are too many. Gives the time of its first
    /// token.
    pub fn request_finish(
        &mut self,
        id: u64,
        duration_ms: u64,
        output_tokens: u32,
        stop_reason: &'static str,
        had_tool_use: bool,
    ) -> (ttft_ms: Option<u64>)
        requires
            old(self).wf(),
            old(self).total_output_tokens + output_tokens <= u64::MAX,
        ensures
            final(self).wf(),
            ttft_ms == (match position_of(old(self).active@, id) {
                Some(i) => old(self).active@[i].first_token_ms,
                None => None,
            }),
            final(self).active@ == (match position_of(old(self).active@, id) {
                Some(i) => old(self).active@.remove(i),
                None => old(self).active@,
            }),
            final(self).total_output_tokens == old(self).total_output_tokens + output_tokens,
            final(self).recent@ == remembered(
                old(self).recent@,
                summary_of(
                    old(self).active@,
                    id,
                    duration_ms,
                    output_tokens,
                    stop_reason,
                    had_tool_use,
                ),
                RECENT_CAP as int,
            ),
            final(self).next_id == old(self).next_id,
            final(self).total_requests == old(self).total_requests,
            final(self).backend_label@ == old(self).backend_label@,
    {
        let mut ttft: Option<u64> = None;
        let mut est_prompt: u32 = 0;
        let mut endpoint: &'static str = "";
        match self.find(id) {
            Some(i) => {
                let a = self.active.remove(i);
                ttft = a.first_token_ms;
                est_prompt = a.est_prompt_tokens;
                endpoint = a.endpoint;
            },
            None => {},
        }
        self.total_output_tokens = self.total_output_tokens + output_tokens as u64;
        let summary = Summary {
            id,
            endpoint,
            est_prompt_tokens: est_prompt,
            ttft_ms: ttft,
            output_tokens,
            duration_ms,
            stop_reason,
            had_tool_use,
        };
        if self.recent.len() == RECENT_CAP {
            let _ = self.recent.pop_front();
            assert(self.recent@ =~= old(self).recent@.subrange(1, old(self).recent@.len() as int));
        }
        self.recent.push_back(summary);
        ttft
    }
}

/// What is remembered of a request.
pub open spec fn summary_of(
    active: Seq<Active>,
    id: u64,
    duration_ms: u64,
    output_tokens: u32,
    stop_reason: &'static str,
    had_tool_use: bool,
) -> Summary {
    match position_of(active, id) {
        Some(i) => Summary {
            id,
            endpoint: active[i].endpoint,
            est_prompt_tokens: active[i].est_prompt_tokens,
            ttft_ms: active[i].first_token_ms,
            output_tokens,
            duration_ms,
            stop_reason,
            had_tool_use,
        },
        None => Summary {
            id,
            endpoint: "",
            est_prompt_tokens: 0,
            ttft_ms: None,
            output_tokens,
            duration_ms,
            stop_reason,
            had_tool_use,
        },
    }
}

// ---------------------------------------------------------------------------
// Metering
// ---------------------------------------------------------------------------

pub open spec fn stop_name(s: StopReason) -> &'static str {
    match s {
        StopReason::EndTurn => "end_turn",
        StopReason::MaxTokens => "max_tokens",
        StopReason::ToolUse => "tool_use",
        StopReason::Cancelled => "cancelled",
    }
}

/// What is measured of a stream as it passes.
#[derive(Clone, Copy)]
pub struct Meter {
    pub id: u64,
    pub ttft_seen: bool,
    pub out_tokens: u32,
    pub had_tool: bool,
    pub stop: &'static str,
}

/// The meter after an event: text counts as a token, a tool call is noted, and
/// the end names its reason and, where it knows it, the number of tokens.
pub open spec fn metered(m: Meter, e: Event) -> Meter {
    match e {
        Event::TextDelta(_) => Meter {
            ttft_seen: true,
            out_tokens: (m.out_tokens + 1) as u32,
            ..m
        },
        Event::ToolUseStart(_, _) => Meter { ttft_seen: true, had_tool: true, ..m },
        Event::Done(_, out, reason) => Meter {
            out_tokens: if out > 0 {
                out
            } else {
                m.out_tokens
            },
            stop: stop_name(reason),
            ..m
        },
        _ => m,
    }
}

/// The active requests after an event of request `id`: the time of its first
/// token is noted, and each text counts.
pub open spec fn active_metered(active: Seq<Active>, m: Meter, e: Event, elapsed_ms: u64) -> Seq<
    Active,
> {
    let first = !m.ttft_seen && (e is TextDelta || e is ToolUseStart);
    match position_of(active, m.id) {
        Some(i) => active.update(
            i,
            Active {
                first_token_ms: if first {
                    Some(elapsed_ms)
                } else {
                    active[i].first_token_ms
                },
                output_tokens: if e is TextDelta {
                    (active[i].output_tokens + 1) as u32
                } else {
                    active[i].output_tokens
                },
                ..active[i]
            },
        ),
        None => active,
    }
}

proof fn position_after_update(active: Seq<Active>, id: u64, i: int, a: Active)
    requires
        position_of(active, id) == Some(i),
        a.id == id,
    ensures
        position_of(active.update(i, a), id) == Some(i),
{
    position_of_first(active, id);
    let w = active.update(i, a);
    position_of_first(w, id);
    match position_of(w, id) {
        Some(j) => {
            if j < i {
                assert(w[j] == active[j]);
            }
            if i < j {
                assert(w[i].id == id);
            }
        },
        None => {
            assert(w[i].id == id);
        },
    }
}

impl Meter {
    /// A request starts to be measured.
    pub fn new(id: u64) -> (r: Self)
        ensures
            r.id == id,
            !r.ttft_seen,
            r.out_tokens == 0,
            !r.had_tool,
            r.stop == "incomplete",
    {
        Meter { id, ttft_seen: false, out_tokens: 0, had_tool: false, stop: "incomplete" }
    }

    /// An event passes, `elapsed_ms` after the start.
    pub fn on_event(&mut self, obs: &mut Observer, ev: &ChatEvent, elapsed_ms: u64)
        requires
            ev@ is TextDelta ==> old(self).out_tokens < u32::MAX,
            ev@ is TextDelta ==> (position_of(old(obs).active@, old(self).id) matches Some(i) ==> old(
                obs,
            ).active@[i].output_tokens < u32::MAX),
        ensures
            *final(self) == metered(*old(self), ev@),
            final(obs).active@ == active_metered(old(obs).active@, *old(self), ev@, elapsed_ms),
            final(obs).next_id == old(obs).next_id,
            final(obs).total_requests == old(obs).total_requests,
            final(obs).total_output_tokens == old(obs).total_output_tokens,
            final(obs).recent@ == old(obs).recent@,
            final(obs).backend_label@ == old(obs).backend_label@,
    {
        let ghost a0 = obs.active@;
        proof {
            position_of_first(a0, self.id);
            if let Some(i) = position_of(a0, self.id) {
                position_after_update(
                    a0,
                    self.id,
                    i,
                    Active { first_token_ms: Some(elapsed_ms), ..a0[i] },
                );
                assert(a0.update(i, a0[i]) =~= a0);
            }
        }
        match ev {
            ChatEvent::TextDelta { .. } => {
                if !self.ttft_seen {
                    self.ttft_seen = true;
                    obs.first_token(self.id, elapsed_ms);
                }
                self.out_tokens = self.out_tokens + 1;
                obs.bump_token(self.id);
                assert(obs.active@ =~= active_metered(a0, *old(self), ev@, elapsed_ms));
            },
            ChatEvent::ToolUseStart { .. } => {
                self.had_tool = true;
                if !self.ttft_seen {
                    self.ttft_seen = true;
                    obs.first_token(self.id, elapsed_ms);
                }
                assert(obs.active@ =~= active_metered(a0, *old(self), ev@, elapsed_ms));
            },
            ChatEvent::Done { output_tokens, stop_reason, .. } => {
                if *output_tokens > 0 {
                    self.out_tokens = *output_tokens;
                }
                self.stop = match stop_reason {
                    StopReason::EndTurn => "end_turn",
                    StopReason::MaxTokens => "max_tokens",
                    StopReason::ToolUse => "tool_use",
                    StopReason::Cancelled => "cancelled",
                };
                assert(obs.active@ =~= active_metered(a0, *old(self), ev@, elapsed_ms));
            },
            _ => {
                assert(obs.active@ =~= active_metered(a0, *old(self), ev@, elapsed_ms));
            },
        }
    }
}

// ---------------------------------------------------------------------------
// Log events
// ---------------------------------------------------------------------------

/// Where the log is written: the file that is named, none where the name is empty,
/// and without a name a file below the home directory.
pub open spec fn log_file(named: Option<Seq<char>>, home: Option<Seq<char>>) -> Option<Seq<char>> {
    match named {
        Some(v) => if v.len() == 0 {
            None
        } else {
            Some(v)
        },
        None => match home {
            Some(h) => Some(path_join(path_join(h, ".rozum"@), "gateway.jsonl"@)),
            None => None,
        },
    }
}

/// Where the log is written, if anywhere.
pub fn log_path(named: Option<&str>, home: Option<&str>) -> (r: Option<String>)
    ensures
        ({
            let place = log_file(
                match named {
                    Some(v) => Some(v@),
                    None => None,
                },
                match home {
                    Some(h) => Some(h@),
                    None => None,
                },
            );
            match r {
                Some(p) => place == Some(p@),
                None => place is None,
            }
        }),
{
    match named {
        Some(v) => if v.is_empty() {
            None
        } else {
            Some(copy(v))
        },
        None => match home {
            Some(h) => Some(join_path(join_path(h, ".rozum").as_str(), "gateway.jsonl")),
            None => None,
        },
    }
}

/// The log's event of a request that starts.
pub open spec fn start_event_tree(id: u64, meta: ReqMeta) -> JsonTree {
    JsonTree::Object(
        entries_map(
            seq![
                ("event"@, JsonTree::Str("request_start"@)),
                ("id"@, JsonTree::Number(number_of(id))),
                ("endpoint"@, JsonTree::Str(meta.endpoint@)),
                ("model"@, JsonTree::Str(meta.model@)),
                ("messages"@, JsonTree::Number(number_of(meta.n_messages as u64))),
                ("tools"@, JsonTree::Number(number_of(meta.n_tools as u64))),
                ("est_prompt_tokens"@, JsonTree::Number(number_of(meta.est_prompt_tokens as u64))),
            ],
        ),
    )
}

/// The log's event of a request that starts.
pub fn start_event(id: u64, meta: &ReqMeta) -> (r: Json)
    ensures
        r@ == start_event_tree(id, *meta),
{
    let mut v: Vec<(String, Json)> = Vec::new();
    v.push((copy("event"), json_str("request_start")));
    v.push((copy("id"), json_u64(id)));
    v.push((copy("endpoint"), json_str(meta.endpoint)));
    v.push((copy("model"), json_str(meta.model.as_str())));
    v.push((copy("messages"), json_u64(meta.n_messages as u64)));
    v.push((copy("tools"), json_u64(meta.n_tools as u64)));
    v.push((copy("est_prompt_tokens"), json_u64(meta.est_prompt_tokens as u64)));
    proof {
        pairs_index(v@);
        assert(pairs(v@) =~= seq![
            ("event"@, JsonTree::Str("request_start"@)),
            ("id"@, JsonTree::Number(number_of(id))),
            ("endpoint"@, JsonTree::Str(meta.endpoint@)),
            ("model"@, JsonTree::Str(meta.model@)),
            ("messages"@, JsonTree::Number(number_of(meta.n_messages as u64))),
            ("tools"@, JsonTree::Number(number_of(meta.n_tools as u64))),
            ("est_prompt_tokens"@, JsonTree::Number(number_of(meta.est_prompt_tokens as u64))),
        ]);
    }
    Json::Object(v)
}

pub open spec fn number_tree(n: u64) -> JsonTree {
    JsonTree::Number(number_of(n))
}

pub open spec fn maybe_number(n: Option<u64>) -> JsonTree {
    match n {
        Some(n) => JsonTree::Number(number_of(n)),
        None => JsonTree::Null,
    }
}

fn maybe_json(n: Option<u64>) -> (r: Json)
    ensures
        r@ == maybe_number(n),
{
    match n {
        Some(n) => json_u64(n),
        None => Json::Null,
    }
}

/// Milliseconds since a request started.
pub open spec fn elapsed(started_ms: u64, now_ms: u64) -> u64 {
    if now_ms > started_ms {
        (now_ms - started_ms) as u64
    } else {
        0
    }
}

/// A request that is being answered, as the page of statistics shows it.
pub open spec fn active_tree(a: Active, now_ms: u64) -> JsonTree {
    JsonTree::Object(
        entries_map(
            seq![
                ("id"@, number_tree(a.id)),
                ("endpoint"@, JsonTree::Str(a.endpoint@)),
                ("elapsed_ms"@, number_tree(elapsed(a.started_ms, now_ms))),
                ("est_prompt_tokens"@, number_tree(a.est_prompt_tokens as u64)),
                ("first_token_ms"@, maybe_number(a.first_token_ms)),
                ("output_tokens"@, number_tree(a.output_tokens as u64)),
            ],
        ),
    )
}

/// A request that was answered, as the page of statistics shows it. `rate` is its
/// tokens per second, a JSON number.
pub open spec fn summary_tree(s: Summary, rate: JsonTree) -> JsonTree {
    JsonTree::Object(
        entries_map(
            seq![
                ("id"@, number_tree(s.id)),
                ("endpoint"@, JsonTree::Str(s.endpoint@)),
                ("est_prompt_tokens"@, number_tree(s.est_prompt_tokens as u64)),
                ("ttft_ms"@, maybe_number(s.ttft_ms)),
                ("output_tokens"@, number_tree(s.output_tokens as u64)),
                ("duration_ms"@, number_tree(s.duration_ms)),
                ("tokens_per_sec"@, rate),
                ("stop_reason"@, JsonTree::Str(s.stop_reason@)),
                ("had_tool_use"@, JsonTree::Bool(s.had_tool_use)),
            ],
        ),
    )
}

/// The page of statistics: the requests that are being answered, and those that
/// were, the latest first.
pub open spec fn snapshot_tree(
    o: Observer,
    now_ms: u64,
    uptime_s: u64,
    rates: Seq<JsonTree>,
) -> JsonTree {
    let n = o.recent@.len() as int;
    JsonTree::Object(
        entries_map(
            seq![
                ("backend"@, JsonTree::Str(o.backend_label@)),
                ("uptime_s"@, number_tree(uptime_s)),
                ("total_requests"@, number_tree(o.total_requests)),
                ("total_output_tokens"@, number_tree(o.total_output_tokens)),
                (
                    "active_requests"@,
                    JsonTree::Array(
                        Seq::new(o.active@.len(), |i: int| active_tree(o.active@[i], now_ms)),
                    ),
                ),
                (
                    "recent"@,
                    JsonTree::Array(
                        Seq::new(
                            o.recent@.len(),
                            |i: int| summary_tree(o.recent@[n - 1 - i], rates[n - 1 - i]),
                        ),
                    ),
                ),
            ],
        ),
    )
}

fn active_json(a: &Active, now_ms: u64) -> (r: Json)
    ensures
        r@ == active_tree(*a, now_ms),
{
    let elapsed: u64 = if now_ms > a.started_ms {
        now_ms - a.started_ms
    } else {
        0
    };
    let mut v: Vec<(String, Json)> = Vec::new();
    v.push((copy("id"), json_u64(a.id)));
    v.push((copy("endpoint"), json_str(a.endpoint)));
    v.push((copy("elapsed_ms"), json_u64(elapsed)));
    v.push((copy("est_prompt_tokens"), json_u64(a.est_prompt_tokens as u64)));
    v.push((copy("first_token_ms"), maybe_json(a.first_token_ms)));
    v.push((copy("output_tokens"), json_u64(a.output_tokens as u64)));
    proof {
        pairs_index(v@);
        assert(pairs(v@) =~= seq![
            ("id"@, number_tree(a.id)),
            ("endpoint"@, JsonTree::Str(a.endpoint@)),
            ("elapsed_ms"@, number_tree(elapsed)),
            ("est_prompt_tokens"@, number_tree(a.est_prompt_tokens as u64)),
            ("first_token_ms"@, maybe_number(a.first_token_ms)),
            ("output_tokens"@, number_tree(a.output_tokens as u64)),
        ]);
    }
    Json::Object(v)
}

fn summary_json(s: &Summary, rate: &Json) -> (r: Json)
    ensures
        r@ == summary_tree(*s, rate@),
{
    let mut v: Vec<(String, Json)> = Vec::new();
    v.push((copy("id"), json_u64(s.id)));
    v.push((copy("endpoint"), json_str(s.endpoint)));
    v.push((copy("est_prompt_tokens"), json_u64(s.est_prompt_tokens as u64)));
    v.push((copy("ttft_ms"), maybe_json(s.ttft_ms)));
    v.push((copy("output_tokens"), json_u64(s.output_tokens as u64)));
    v.push((copy("duration_ms"), json_u64(s.duration_ms)));
    v.push((copy("tokens_per_sec"), rate.copy()));
    v.push((copy("stop_reason"), json_str(s.stop_reason)));
    v.push((copy("had_tool_use"), Json::Bool(s.had_tool_use)));
    proof {
        pairs_index(v@);
        assert(pairs(v@) =~= seq![
            ("id"@, number_tree(s.id)),
            ("endpoint"@, JsonTree::Str(s.endpoint@)),
            ("est_prompt_tokens"@, number_tree(s.est_prompt_tokens as u64)),
            ("ttft_ms"@, maybe_number(s.ttft_ms)),
            ("output_tokens"@, number_tree(s.output_tokens as u64)),
            ("duration_ms"@, number_tree(s.duration_ms)),
            ("tokens_per_sec"@, rate@),
            ("stop_reason"@, JsonTree::Str(s.stop_reason@)),
            ("had_tool_use"@, JsonTree::Bool(s.had_tool_use)),
        ]);
    }
    Json::Object(v)
}

impl Observer {
    /// The page of statistics. `rates` are the tokens per second of the requests
    /// that were answered, the latest last.
    pub fn snapshot(&self, now_ms: u64, uptime_s: u64, rates: &Vec<Json>) -> (r: Json)
        requires
            rates@.len() == self.recent@.len(),
        ensures
            r@ == snapshot_tree(*self, now_ms, uptime_s, trees(rates@)),
    {
        let mut active: Vec<Json> = Vec::new();
        let mut i: usize = 0;
        while i < self.active.len()
            invariant
                i <= self.active.len(),
                active@.len() == i,
                forall|k: int|
                    0 <= k < i ==> (#[trigger] active@[k])@ == active_tree(self.active@[k], now_ms),
            decreases self.active.len() - i,
        {
            active.push(active_json(&self.active[i], now_ms));
            i = i + 1;
        }
        let ghost actives = Seq::new(
            self.active@.len(),
            |i: int| active_tree(self.active@[i], now_ms),
        );
        proof {
            trees_index(active@);
            assert(trees(active@) =~= actives);
        }
        let mut recent: Vec<Json> = Vec::new();
        let n = self.recent.len();
        let mut k: usize = 0;
        proof {
            trees_index(rates@);
        }
        while k < n
            invariant
                k <= n,
                n == self.recent@.len(),
                rates@.len() == n,
                recent@.len() == k,
                trees(rates@).len() == rates@.len(),
                forall|j: int| 0 <= j < n ==> #[trigger] trees(rates@)[j] == rates@[j]@,
                forall|j: int|
                    0 <= j < k ==> (#[trigger] recent@[j])@ == summary_tree(
                        self.recent@[n - 1 - j],
                        trees(rates@)[n - 1 - j],
                    ),
            decreases n - k,
        {
            let at: usize = n - 1 - k;
            recent.push(summary_json(&self.recent[at], &rates[at]));
            k = k + 1;
        }
        let ghost summaries = Seq::new(
            self.recent@.len(),
            |i: int| summary_tree(self.recent@[n - 1 - i], trees(rates@)[n - 1 - i]),
        );
        proof {
            trees_index(recent@);
            assert(trees(recent@) =~= summaries);
        }
        let mut v: Vec<(String, Json)> = Vec::new();
        v.push((copy("backend"), json_str(self.backend_label.as_str())));
        v.push((copy("uptime_s"), json_u64(uptime_s)));
        v.push((copy("total_requests"), json_u64(self.total_requests)));
        v.push((copy("total_output_tokens"), json_u64(self.total_output_tokens)));
        v.push((copy("active_requests"), Json::Array(active)));
        v.push((copy("recent"), Json::Array(recent)));
        proof {
            pairs_index(v@);
            assert(pairs(v@) =~= seq![
                ("backend"@, JsonTree::Str(self.backend_label@)),
                ("uptime_s"@, number_tree(uptime_s)),
                ("total_requests"@, number_tree(self.total_requests)),
                ("total_output_tokens"@, number_tree(self.total_output_tokens)),
                ("active_requests"@, JsonTree::Array(actives)),
                ("recent"@, JsonTree::Array(summaries)),
            ]);
        }
        Json::Object(v)
    }
}

/// The log's event of a request that ended. `tokens_per_sec` is a JSON number.
pub open spec fn done_event_tree(
    id: u64,
    ttft_ms: Option<u64>,
    output_tokens: u32,
    duration_ms: u64,
    tokens_per_sec: JsonTree,
    stop_reason: Seq<char>,
    had_tool_use: bool,
) -> JsonTree {
    JsonTree::Object(
        entries_map(
            seq![
                ("event"@, JsonTree::Str("request_done"@)),
                ("id"@, JsonTree::Number(number_of(id))),
                (
                    "ttft_ms"@,
                    match ttft_ms {
                        Some(n) => JsonTree::Number(number_of(n)),
                        None => JsonTree::Null,
                    },
                ),
                ("output_tokens"@, JsonTree::Number(number_of(output_tokens as u64))),
                ("duration_ms"@, JsonTree::Number(number_of(duration_ms))),
                ("tokens_per_sec"@, tokens_per_sec),
                ("stop_reason"@, JsonTree::Str(stop_reason)),
                ("had_tool_use"@, JsonTree::Bool(had_tool_use)),
            ],
        ),
    )
}

/// The log's event of a request that ended. `tokens_per_sec` is a JSON number.
pub fn done_event(
    id: u64,
    ttft_ms: Option<u64>,
    output_tokens: u32,
    duration_ms: u64,
    tokens_per_sec: Json,
    stop_reason: &str,
    had_tool_use: bool,
) -> (r: Json)
    ensures
        r@ == done_event_tree(
            id,
            ttft_ms,
            output_tokens,
            duration_ms,
            tokens_per_sec@,
            stop_reason@,
            had_tool_use,
        ),
{
    let ttft = match ttft_ms {
        Some(n) => json_u64(n),
        None => Json::Null,
    };
    let mut v: Vec<(String, Json)> = Vec::new();
    v.push((copy("event"), json_str("request_done")));
    v.push((copy("id"), json_u64(id)));
    v.push((copy("ttft_ms"), ttft));
    v.push((copy("output_tokens"), json_u64(output_tokens as u64)));
    v.push((copy("duration_ms"), json_u64(duration_ms)));
    v.push((copy("tokens_per_sec"), tokens_per_sec));
    v.push((copy("stop_reason"), json_str(stop_reason)));
    v.push((copy("had_tool_use"), Json::Bool(had_tool_use)));
    proof {
        pairs_index(v@);
        assert(pairs(v@) =~= seq![
            ("event"@, JsonTree::Str("request_done"@)),
            ("id"@, JsonTree::Number(number_of(id))),
            (
                "ttft_ms"@,
                match ttft_ms {
                    Some(n) => JsonTree::Number(number_of(n)),
                    None => JsonTree::Null,
                },
            ),
            ("output_tokens"@, JsonTree::Number(number_of(output_tokens as u64))),
            ("duration_ms"@, JsonTree::Number(number_of(duration_ms))),
            ("tokens_per_sec"@, tokens_per_sec@),
            ("stop_reason"@, JsonTree::Str(stop_reason@)),
            ("had_tool_use"@, JsonTree::Bool(had_tool_use)),
        ]);
    }
    Json::Object(v)
}

/// An event with its time, where it is an object.
pub open spec fn stamped(event: JsonTree, ts: Seq<char>) -> JsonTree {
    match event {
        JsonTree::Object(m) => JsonTree::Object(m.insert("ts"@, JsonTree::Str(ts))),
        _ => event,
    }
}

/// Adds its time to an event.
pub fn stamp_event(event: Json, ts: &str) -> (r: Json)
    ensures
        r@ == stamped(event@, ts@),
{
    match event {
        Json::Object(mut v) => {
            let ghost before = v@;
            v.push((copy("ts"), json_str(ts)));
            assert(v@.drop_last() =~= before);
            assert(pairs(v@).drop_last() =~= pairs(before));
            Json::Object(v)
        },
        other => other,
    }
}

// ---------------------------------------------------------------------------
// Laws
// ---------------------------------------------------------------------------

/// What is remembered never grows beyond its cap, and the newest request is
/// always remembered.
pub proof fn memory_is_bounded(recent: Seq<Summary>, s: Summary, cap: int)
    requires
        recent.len() <= cap,
        cap >= 1,
    ensures
        remembered(recent, s, cap).len() <= cap,
        remembered(recent, s, cap).last() == s,
{
}

/// A request that starts and ends leaves the active requests as they were.
pub proof fn finishing_undoes_starting(active: Seq<Active>, a: Active)
    requires
        position_of(active, a.id) is None,
    ensures
        position_of(active.push(a), a.id) == Some(active.len() as int),
        active.push(a).remove(active.len() as int) == active,
{
    assert(active.push(a).drop_last() =~= active);
    assert(active.push(a).remove(active.len() as int) =~= active);
}

/// The first request with an id is found, and none where no request has it.
pub proof fn a_request_is_found_by_its_id(active: Seq<Active>, id: u64, k: int)
    ensures
        0 <= k < active.len() && active[k].id == id && (forall|j: int|
            0 <= j < k ==> (#[trigger] active[j]).id != id) ==> position_of(active, id) == Some(k),
        (forall|j: int| 0 <= j < active.len() ==> (#[trigger] active[j]).id != id) ==> position_of(
            active,
            id,
        ) is None,
{
    position_of_first(active, id);
}

/// The oldest request is forgotten for the newest, and only where there are too many.
pub proof fn the_oldest_is_forgotten(recent: Seq<Summary>, s: Summary, cap: int, i: int)
    requires
        1 <= cap,
        recent.len() <= cap,
    ensures
        recent.len() < cap ==> remembered(recent, s, cap) == recent.push(s),
        recent.len() == cap && 0 <= i < cap - 1 ==> remembered(recent, s, cap)[i] == recent[i + 1],
        recent.len() == cap ==> remembered(recent, s, cap).len() == cap,
{
}

/// What is remembered of a request is what it was: where it came in, how long its
/// prompt was, when its first token came, and how it ended.
pub proof fn a_request_is_remembered_as_it_was(
    active: Seq<Active>,
    a: Active,
    duration_ms: u64,
    output_tokens: u32,
    stop_reason: &'static str,
    had_tool_use: bool,
)
    requires
        position_of(active, a.id) is None,
    ensures
        ({
            let s = summary_of(
                active.push(a),
                a.id,
                duration_ms,
                output_tokens,
                stop_reason,
                had_tool_use,
            );
            &&& s.id == a.id
            &&& s.endpoint == a.endpoint
            &&& s.est_prompt_tokens == a.est_prompt_tokens
            &&& s.ttft_ms == a.first_token_ms
            &&& s.output_tokens == output_tokens
            &&& s.duration_ms == duration_ms
            &&& s.stop_reason == stop_reason
            &&& s.had_tool_use == had_tool_use
        }),
{
    finishing_undoes_starting(active, a);
}

/// Each text is one token, a call is noted, and the end brings its reason and, where
/// it knows it, the number of tokens.
pub proof fn a_meter_counts(m: Meter, e: Event)
    requires
        m.out_tokens < u32::MAX,
    ensures
        e is TextDelta ==> metered(m, e).out_tokens == m.out_tokens + 1 && metered(m, e).ttft_seen
            && metered(m, e).had_tool == m.had_tool && metered(m, e).stop == m.stop,
        e is ToolUseStart ==> metered(m, e).had_tool && metered(m, e).ttft_seen && metered(
            m,
            e,
        ).out_tokens == m.out_tokens,
        e is ToolUseDelta || e is ToolUseEnd ==> metered(m, e) == m,
        e matches Event::Done(_, out, reason) ==> {
            &&& out > 0 ==> metered(m, e).out_tokens == out
            &&& out == 0 ==> metered(m, e).out_tokens == m.out_tokens
            &&& reason is EndTurn ==> metered(m, e).stop == "end_turn"
            &&& reason is MaxTokens ==> metered(m, e).stop == "max_tokens"
            &&& reason is ToolUse ==> metered(m, e).stop == "tool_use"
            &&& reason is Cancelled ==> metered(m, e).stop == "cancelled"
            &&& metered(m, e).had_tool == m.had_tool
        },
        metered(m, e).id == m.id,
{
}

/// The time of the first token of a request is noted once, and each text counts for
/// that request and no other.
pub proof fn a_request_is_metered_alone(
    active: Seq<Active>,
    m: Meter,
    e: Event,
    elapsed_ms: u64,
    i: int,
    j: int,
)
    requires
        position_of(active, m.id) == Some(i),
        0 <= i < active.len(),
        active[i].output_tokens < u32::MAX,
        0 <= j < active.len(),
    ensures
        active_metered(active, m, e, elapsed_ms).len() == active.len(),
        j != i ==> active_metered(active, m, e, elapsed_ms)[j] == active[j],
        e is TextDelta ==> active_metered(active, m, e, elapsed_ms)[i].output_tokens
            == active[i].output_tokens + 1,
        !(e is TextDelta) ==> active_metered(active, m, e, elapsed_ms)[i].output_tokens
            == active[i].output_tokens,
        m.ttft_seen ==> active_metered(active, m, e, elapsed_ms)[i].first_token_ms
            == active[i].first_token_ms,
        !m.ttft_seen && (e is TextDelta || e is ToolUseStart) ==> active_metered(
            active,
            m,
            e,
            elapsed_ms,
        )[i].first_token_ms == Some(elapsed_ms),
        active_metered(active, m, e, elapsed_ms)[i].id == active[i].id,
{
}

/// The time that a request has taken is what has passed since it started.
pub proof fn time_passes(started: u64, passed: u64)
    requires
        started + passed <= u64::MAX,
    ensures
        elapsed(started, (started + passed) as u64) == passed,
        elapsed((started + passed) as u64, started) == 0,
{
}

/// Keys that stand in one object differ.
proof fn event_keys_differ()
    ensures
        "event"@ != "id"@,
        "event"@ != "endpoint"@,
        "event"@ != "model"@,
        "event"@ != "messages"@,
        "event"@ != "tools"@,
        "event"@ != "est_prompt_tokens"@,
        "id"@ != "endpoint"@,
        "id"@ != "model"@,
        "id"@ != "messages"@,
        "id"@ != "tools"@,
        "id"@ != "est_prompt_tokens"@,
        "endpoint"@ != "model"@,
        "endpoint"@ != "messages"@,
        "endpoint"@ != "tools"@,
        "endpoint"@ != "est_prompt_tokens"@,
        "model"@ != "messages"@,
        "model"@ != "tools"@,
        "model"@ != "est_prompt_tokens"@,
        "messages"@ != "tools"@,
        "messages"@ != "est_prompt_tokens"@,
        "tools"@ != "est_prompt_tokens"@,
        "event"@ != "ttft_ms"@,
        "event"@ != "output_tokens"@,
        "event"@ != "duration_ms"@,
        "event"@ != "tokens_per_sec"@,
        "event"@ != "stop_reason"@,
        "event"@ != "had_tool_use"@,
        "id"@ != "ttft_ms"@,
        "id"@ != "output_tokens"@,
        "id"@ != "duration_ms"@,
        "id"@ != "tokens_per_sec"@,
        "id"@ != "stop_reason"@,
        "id"@ != "had_tool_use"@,
        "ttft_ms"@ != "output_tokens"@,
        "ttft_ms"@ != "duration_ms"@,
        "ttft_ms"@ != "tokens_per_sec"@,
        "ttft_ms"@ != "stop_reason"@,
        "ttft_ms"@ != "had_tool_use"@,
        "output_tokens"@ != "duration_ms"@,
        "output_tokens"@ != "tokens_per_sec"@,
        "output_tokens"@ != "stop_reason"@,
        "output_tokens"@ != "had_tool_use"@,
        "duration_ms"@ != "tokens_per_sec"@,
        "duration_ms"@ != "stop_reason"@,
        "duration_ms"@ != "had_tool_use"@,
        "tokens_per_sec"@ != "stop_reason"@,
        "tokens_per_sec"@ != "had_tool_use"@,
        "stop_reason"@ != "had_tool_use"@,
        "id"@ != "elapsed_ms"@,
        "id"@ != "first_token_ms"@,
        "endpoint"@ != "elapsed_ms"@,
        "endpoint"@ != "first_token_ms"@,
        "endpoint"@ != "output_tokens"@,
        "elapsed_ms"@ != "est_prompt_tokens"@,
        "elapsed_ms"@ != "first_token_ms"@,
        "elapsed_ms"@ != "output_tokens"@,
        "est_prompt_tokens"@ != "first_token_ms"@,
        "est_prompt_tokens"@ != "output_tokens"@,
        "first_token_ms"@ != "output_tokens"@,
        "endpoint"@ != "ttft_ms"@,
        "endpoint"@ != "duration_ms"@,
        "endpoint"@ != "tokens_per_sec"@,
        "endpoint"@ != "stop_reason"@,
        "endpoint"@ != "had_tool_use"@,
        "est_prompt_tokens"@ != "ttft_ms"@,
        "est_prompt_tokens"@ != "duration_ms"@,
        "est_prompt_tokens"@ != "tokens_per_sec"@,
        "est_prompt_tokens"@ != "stop_reason"@,
        "est_prompt_tokens"@ != "had_tool_use"@,
        "backend"@ != "uptime_s"@,
        "backend"@ != "total_requests"@,
        "backend"@ != "total_output_tokens"@,
        "backend"@ != "active_requests"@,
        "backend"@ != "recent"@,
        "uptime_s"@ != "total_requests"@,
        "uptime_s"@ != "total_output_tokens"@,
        "uptime_s"@ != "active_requests"@,
        "uptime_s"@ != "recent"@,
        "total_requests"@ != "total_output_tokens"@,
        "total_requests"@ != "active_requests"@,
        "total_requests"@ != "recent"@,
        "total_output_tokens"@ != "active_requests"@,
        "total_output_tokens"@ != "recent"@,
        "active_requests"@ != "recent"@,
{
    reveal_strlit("event");
    reveal_strlit("id");
    reveal_strlit("endpoint");
    reveal_strlit("model");
    reveal_strlit("messages");
    reveal_strlit("tools");
    reveal_strlit("est_prompt_tokens");
    reveal_strlit("ttft_ms");
    reveal_strlit("output_tokens");
    reveal_strlit("duration_ms");
    reveal_strlit("tokens_per_sec");
    reveal_strlit("stop_reason");
    reveal_strlit("had_tool_use");
    reveal_strlit("elapsed_ms");
    reveal_strlit("first_token_ms");
    reveal_strlit("backend");
    reveal_strlit("uptime_s");
    reveal_strlit("total_requests");
    reveal_strlit("total_output_tokens");
    reveal_strlit("active_requests");
    reveal_strlit("recent");
    assert("event"@.len() != "id"@.len());
    assert("event"@.len() != "endpoint"@.len());
    assert("event"@[0] != "model"@[0]);
    assert("event"@.len() != "messages"@.len());
    assert("event"@[0] != "tools"@[0]);
    assert("event"@.len() != "est_prompt_tokens"@.len());
    assert("id"@.len() != "endpoint"@.len());
    assert("id"@.len() != "model"@.len());
    assert("id"@.len() != "messages"@.len());
    assert("id"@.len() != "tools"@.len());
    assert("id"@.len() != "est_prompt_tokens"@.len());
    assert("endpoint"@.len() != "model"@.len());
    assert("endpoint"@[0] != "messages"@[0]);
    assert("endpoint"@.len() != "tools"@.len());
    assert("endpoint"@.len() != "est_prompt_tokens"@.len());
    assert("model"@.len() != "messages"@.len());
    assert("model"@[0] != "tools"@[0]);
    assert("model"@.len() != "est_prompt_tokens"@.len());
    assert("messages"@.len() != "tools"@.len());
    assert("messages"@.len() != "est_prompt_tokens"@.len());
    assert("tools"@.len() != "est_prompt_tokens"@.len());
    assert("event"@.len() != "ttft_ms"@.len());
    assert("event"@.len() != "output_tokens"@.len());
    assert("event"@.len() != "duration_ms"@.len());
    assert("event"@.len() != "tokens_per_sec"@.len());
    assert("event"@.len() != "stop_reason"@.len());
    assert("event"@.len() != "had_tool_use"@.len());
    assert("id"@.len() != "ttft_ms"@.len());
    assert("id"@.len() != "output_tokens"@.len());
    assert("id"@.len() != "duration_ms"@.len());
    assert("id"@.len() != "tokens_per_sec"@.len());
    assert("id"@.len() != "stop_reason"@.len());
    assert("id"@.len() != "had_tool_use"@.len());
    assert("ttft_ms"@.len() != "output_tokens"@.len());
    assert("ttft_ms"@.len() != "duration_ms"@.len());
    assert("ttft_ms"@.len() != "tokens_per_sec"@.len());
    assert("ttft_ms"@.len() != "stop_reason"@.len());
    assert("ttft_ms"@.len() != "had_tool_use"@.len());
    assert("output_tokens"@.len() != "duration_ms"@.len());
    assert("output_tokens"@.len() != "tokens_per_sec"@.len());
    assert("output_tokens"@.len() != "stop_reason"@.len());
    assert("output_tokens"@.len() != "had_tool_use"@.len());
    assert("duration_ms"@.len() != "tokens_per_sec"@.len());
    assert("duration_ms"@[0] != "stop_reason"@[0]);
    assert("duration_ms"@.len() != "had_tool_use"@.len());
    assert("tokens_per_sec"@.len() != "stop_reason"@.len());
    assert("tokens_per_sec"@.len() != "had_tool_use"@.len());
    assert("stop_reason"@.len() != "had_tool_use"@.len());
    assert("id"@.len() != "elapsed_ms"@.len());
    assert("id"@.len() != "first_token_ms"@.len());
    assert("endpoint"@.len() != "elapsed_ms"@.len());
    assert("endpoint"@.len() != "first_token_ms"@.len());
    assert("endpoint"@.len() != "output_tokens"@.len());
    assert("elapsed_ms"@.len() != "est_prompt_tokens"@.len());
    assert("elapsed_ms"@.len() != "first_token_ms"@.len());
    assert("elapsed_ms"@.len() != "output_tokens"@.len());
    assert("est_prompt_tokens"@.len() != "first_token_ms"@.len());
    assert("est_prompt_tokens"@.len() != "output_tokens"@.len());
    assert("first_token_ms"@.len() != "output_tokens"@.len());
    assert("endpoint"@.len() != "ttft_ms"@.len());
    assert("endpoint"@.len() != "duration_ms"@.len());
    assert("endpoint"@.len() != "tokens_per_sec"@.len());
    assert("endpoint"@.len() != "stop_reason"@.len());
    assert("endpoint"@.len() != "had_tool_use"@.len());
    assert("est_prompt_tokens"@.len() != "ttft_ms"@.len());
    assert("est_prompt_tokens"@.len() != "duration_ms"@.len());
    assert("est_prompt_tokens"@.len() != "tokens_per_sec"@.len());
    assert("est_prompt_tokens"@.len() != "stop_reason"@.len());
    assert("est_prompt_tokens"@.len() != "had_tool_use"@.len());
    assert("backend"@.len() != "uptime_s"@.len());
    assert("backend"@.len() != "total_requests"@.len());
    assert("backend"@.len() != "total_output_tokens"@.len());
    assert("backend"@.len() != "active_requests"@.len());
    assert("backend"@.len() != "recent"@.len());
    assert("uptime_s"@.len() != "total_requests"@.len());
    assert("uptime_s"@.len() != "total_output_tokens"@.len());
    assert("uptime_s"@.len() != "active_requests"@.len());
    assert("uptime_s"@.len() != "recent"@.len());
    assert("total_requests"@.len() != "total_output_tokens"@.len());
    assert("total_requests"@.len() != "active_requests"@.len());
    assert("total_requests"@.len() != "recent"@.len());
    assert("total_output_tokens"@.len() != "active_requests"@.len());
    assert("total_output_tokens"@.len() != "recent"@.len());
    assert("active_requests"@.len() != "recent"@.len());
}

/// The log's events of a request say what it is and how it ended.
pub proof fn events_are_logged_whole(
    id: u64,
    meta: ReqMeta,
    ttft_ms: Option<u64>,
    output_tokens: u32,
    duration_ms: u64,
    rate: JsonTree,
    stop_reason: Seq<char>,
    had_tool_use: bool,
)
    ensures
        ({
            let t = start_event_tree(id, meta);
            &&& member(t, "event"@) == Some(JsonTree::Str("request_start"@))
            &&& member(t, "id"@) == Some(JsonTree::Number(number_of(id)))
            &&& member(t, "endpoint"@) == Some(JsonTree::Str(meta.endpoint@))
            &&& member(t, "model"@) == Some(JsonTree::Str(meta.model@))
            &&& member(t, "messages"@) == Some(
                JsonTree::Number(number_of(meta.n_messages as u64)),
            )
            &&& member(t, "tools"@) == Some(JsonTree::Number(number_of(meta.n_tools as u64)))
            &&& member(t, "est_prompt_tokens"@) == Some(
                JsonTree::Number(number_of(meta.est_prompt_tokens as u64)),
            )
        }),
        ({
            let t = done_event_tree(
                id,
                ttft_ms,
                output_tokens,
                duration_ms,
                rate,
                stop_reason,
                had_tool_use,
            );
            &&& member(t, "event"@) == Some(JsonTree::Str("request_done"@))
            &&& member(t, "id"@) == Some(JsonTree::Number(number_of(id)))
            &&& ttft_ms is None ==> member(t, "ttft_ms"@) == Some(JsonTree::Null)
            &&& ttft_ms matches Some(n) ==> member(t, "ttft_ms"@) == Some(
                JsonTree::Number(number_of(n)),
            )
            &&& member(t, "output_tokens"@) == Some(
                JsonTree::Number(number_of(output_tokens as u64)),
            )
            &&& member(t, "duration_ms"@) == Some(JsonTree::Number(number_of(duration_ms)))
            &&& member(t, "tokens_per_sec"@) == Some(rate)
            &&& member(t, "stop_reason"@) == Some(JsonTree::Str(stop_reason))
            &&& member(t, "had_tool_use"@) == Some(JsonTree::Bool(had_tool_use))
        }),
{
    event_keys_differ();
    let s = seq![
        ("event"@, JsonTree::Str("request_start"@)),
        ("id"@, JsonTree::Number(number_of(id))),
        ("endpoint"@, JsonTree::Str(meta.endpoint@)),
        ("model"@, JsonTree::Str(meta.model@)),
        ("messages"@, JsonTree::Number(number_of(meta.n_messages as u64))),
        ("tools"@, JsonTree::Number(number_of(meta.n_tools as u64))),
        ("est_prompt_tokens"@, JsonTree::Number(number_of(meta.est_prompt_tokens as u64))),
    ];
    an_entry_is_a_member(s, 0);
    an_entry_is_a_member(s, 1);
    an_entry_is_a_member(s, 2);
    an_entry_is_a_member(s, 3);
    an_entry_is_a_member(s, 4);
    an_entry_is_a_member(s, 5);
    an_entry_is_a_member(s, 6);
    let d = seq![
        ("event"@, JsonTree::Str("request_done"@)),
        ("id"@, JsonTree::Number(number_of(id))),
        (
            "ttft_ms"@,
            match ttft_ms {
                Some(n) => JsonTree::Number(number_of(n)),
                None => JsonTree::Null,
            },
        ),
        ("output_tokens"@, JsonTree::Number(number_of(output_tokens as u64))),
        ("duration_ms"@, JsonTree::Number(number_of(duration_ms))),
        ("tokens_per_sec"@, rate),
        ("stop_reason"@, JsonTree::Str(stop_reason)),
        ("had_tool_use"@, JsonTree::Bool(had_tool_use)),
    ];
    an_entry_is_a_member(d, 0);
    an_entry_is_a_member(d, 1);
    an_entry_is_a_member(d, 2);
    an_entry_is_a_member(d, 3);
    an_entry_is_a_member(d, 4);
    an_entry_is_a_member(d, 5);
    an_entry_is_a_member(d, 6);
    an_entry_is_a_member(d, 7);
}

/// The page of statistics shows the totals, every active request in order, and the
/// finished ones, the latest first, each with its rate.
pub proof fn the_page_shows_everything(
    o: Observer,
    now_ms: u64,
    uptime_s: u64,
    rates: Seq<JsonTree>,
    i: int,
)
    ensures
        ({
            let t = snapshot_tree(o, now_ms, uptime_s, rates);
            &&& member(t, "backend"@) == Some(JsonTree::Str(o.backend_label@))
            &&& member(t, "uptime_s"@) == Some(JsonTree::Number(number_of(uptime_s)))
            &&& member(t, "total_requests"@) == Some(
                JsonTree::Number(number_of(o.total_requests)),
            )
            &&& member(t, "total_output_tokens"@) == Some(
                JsonTree::Number(number_of(o.total_output_tokens)),
            )
            &&& member(t, "active_requests"@) matches Some(JsonTree::Array(a)) && a.len()
                == o.active@.len() && (0 <= i < o.active@.len() ==> a[i] == active_tree(
                o.active@[i],
                now_ms,
            ))
            &&& member(t, "recent"@) matches Some(JsonTree::Array(r)) && r.len()
                == o.recent@.len() && (0 <= i < o.recent@.len() ==> r[o.recent@.len() - 1 - i]
                == summary_tree(o.recent@[i], rates[i]))
        }),
{
    event_keys_differ();
    let n = o.recent@.len() as int;
    let e = seq![
        ("backend"@, JsonTree::Str(o.backend_label@)),
        ("uptime_s"@, number_tree(uptime_s)),
        ("total_requests"@, number_tree(o.total_requests)),
        ("total_output_tokens"@, number_tree(o.total_output_tokens)),
        (
            "active_requests"@,
            JsonTree::Array(Seq::new(o.active@.len(), |i: int| active_tree(o.active@[i], now_ms))),
        ),
        (
            "recent"@,
            JsonTree::Array(
                Seq::new(
                    o.recent@.len(),
                    |i: int| summary_tree(o.recent@[n - 1 - i], rates[n - 1 - i]),
                ),
            ),
        ),
    ];
    an_entry_is_a_member(e, 0);
    an_entry_is_a_member(e, 1);
    an_entry_is_a_member(e, 2);
    an_entry_is_a_member(e, 3);
    an_entry_is_a_member(e, 4);
    an_entry_is_a_member(e, 5);
}

/// A request is shown with what is known of it.
pub proof fn requests_are_shown_whole(a: Active, s: Summary, now_ms: u64, rate: JsonTree)
    ensures
        ({
            let t = active_tree(a, now_ms);
            &&& member(t, "id"@) == Some(JsonTree::Number(number_of(a.id)))
            &&& member(t, "endpoint"@) == Some(JsonTree::Str(a.endpoint@))
            &&& member(t, "elapsed_ms"@) == Some(
                JsonTree::Number(number_of(elapsed(a.started_ms, now_ms))),
            )
            &&& member(t, "est_prompt_tokens"@) == Some(
                JsonTree::Number(number_of(a.est_prompt_tokens as u64)),
            )
            &&& member(t, "first_token_ms"@) == Some(maybe_number(a.first_token_ms))
            &&& member(t, "output_tokens"@) == Some(
                JsonTree::Number(number_of(a.output_tokens as u64)),
            )
        }),
        ({
            let t = summary_tree(s, rate);
            &&& member(t, "id"@) == Some(JsonTree::Number(number_of(s.id)))
            &&& member(t, "endpoint"@) == Some(JsonTree::Str(s.endpoint@))
            &&& member(t, "est_prompt_tokens"@) == Some(
                JsonTree::Number(number_of(s.est_prompt_tokens as u64)),
            )
            &&& member(t, "ttft_ms"@) == Some(maybe_number(s.ttft_ms))
            &&& member(t, "output_tokens"@) == Some(
                JsonTree::Number(number_of(s.output_tokens as u64)),
            )
            &&& member(t, "duration_ms"@) == Some(JsonTree::Number(number_of(s.duration_ms)))
            &&& member(t, "tokens_per_sec"@) == Some(rate)
            &&& member(t, "stop_reason"@) == Some(JsonTree::Str(s.stop_reason@))
            &&& member(t, "had_tool_use"@) == Some(JsonTree::Bool(s.had_tool_use))
        }),
        maybe_number(None) == JsonTree::Null,
        maybe_number(Some(now_ms)) == JsonTree::Number(number_of(now_ms)),
{
    event_keys_differ();
    let e = seq![
        ("id"@, number_tree(a.id)),
        ("endpoint"@, JsonTree::Str(a.endpoint@)),
        ("elapsed_ms"@, number_tree(elapsed(a.started_ms, now_ms))),
        ("est_prompt_tokens"@, number_tree(a.est_prompt_tokens as u64)),
        ("first_token_ms"@, maybe_number(a.first_token_ms)),
        ("output_tokens"@, number_tree(a.output_tokens as u64)),
    ];
    an_entry_is_a_member(e, 0);
    an_entry_is_a_member(e, 1);
    an_entry_is_a_member(e, 2);
    an_entry_is_a_member(e, 3);
    an_entry_is_a_member(e, 4);
    an_entry_is_a_member(e, 5);
    let f = seq![
        ("id"@, number_tree(s.id)),
        ("endpoint"@, JsonTree::Str(s.endpoint@)),
        ("est_prompt_tokens"@, number_tree(s.est_prompt_tokens as u64)),
        ("ttft_ms"@, maybe_number(s.ttft_ms)),
        ("output_tokens"@, number_tree(s.output_tokens as u64)),
        ("duration_ms"@, number_tree(s.duration_ms)),
        ("tokens_per_sec"@, rate),
        ("stop_reason"@, JsonTree::Str(s.stop_reason@)),
        ("had_tool_use"@, JsonTree::Bool(s.had_tool_use)),
    ];
    an_entry_is_a_member(f, 0);
    an_entry_is_a_member(f, 1);
    an_entry_is_a_member(f, 2);
    an_entry_is_a_member(f, 3);
    an_entry_is_a_member(f, 4);
    an_entry_is_a_member(f, 5);
    an_entry_is_a_member(f, 6);
    an_entry_is_a_member(f, 7);
    an_entry_is_a_member(f, 8);
}

/// An event is stamped with its time, and keeps the rest of what it says.
pub proof fn an_event_is_stamped(event: JsonTree, ts: Seq<char>, key: Seq<char>)
    ensures
        event is Object ==> member(stamped(event, ts), "ts"@) == Some(JsonTree::Str(ts)),
        event is Object && key != "ts"@ ==> member(stamped(event, ts), key) == member(event, key),
        !(event is Object) ==> stamped(event, ts) == event,
{
}

/// The log goes where it was told to, nowhere where it was told so with an empty
/// name, and else below the home directory.
pub proof fn the_log_goes_where_it_was_told(named: Seq<char>, home: Option<Seq<char>>, h: Seq<char>)
    ensures
        named.len() > 0 ==> log_file(Some(named), home) == Some(named),
        log_file(Some(Seq::empty()), home) is None,
        log_file(None, Some(h)) == Some(path_join(path_join(h, ".rozum"@), "gateway.jsonl"@)),
        log_file(None, None) is None,
{
}

/// Every reason to stop goes by its own name.
pub proof fn reasons_go_by_their_names()
    ensures
        stop_name(StopReason::EndTurn)@ == "end_turn"@,
        stop_name(StopReason::MaxTokens)@ == "max_tokens"@,
        stop_name(StopReason::ToolUse)@ == "tool_use"@,
        stop_name(StopReason::Cancelled)@ == "cancelled"@,
{
}

} // verus!
