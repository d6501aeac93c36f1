//! Launch-local reverse proxy: retry policy, poison handling, header rules and
//! the decisions of the replay loop.
//!
//! The proxy forwards a request to the shared daemon and may replay it as long
//! as no byte of a response has reached the client. A daemon that dies while it
//! handles a request counts against the request's fingerprint; a fingerprint
//! that keeps crashing the daemon is refused, softly, until it decays.

use crate::json::{field_of, integer_in, parse_json, parsed, Json};
use crate::mistralrs_admission::{AdmissionConfig, RequestCost};
use crate::text::{
    ascii_lower, chars_of, copy, dec, dec_text, hex, hex_text, number_upto, parse_upto, same,
    to_ascii_lower, trim, trim_str,
};
use std::collections::HashMap;
use vstd::arithmetic::power2::{lemma2_to64, lemma_pow2_strictly_increases, lemma_pow2_unfold, pow2};
use vstd::prelude::*;

verus! {

/// Largest request body that is buffered before it is forwarded.
pub const MAX_BODY_BYTES: usize = 64 * 1024 * 1024;

/// How long a shared poison confirmation stays advisory, in seconds.
pub const DEFAULT_POISON_TTL_SECS: u64 = 3600;

// ---------------------------------------------------------------------------
// Retry policy
// ---------------------------------------------------------------------------

/// Capped exponential backoff with jitter, and a cap on the sends per request.
#[derive(Clone, Copy, Debug)]
pub struct RetryPolicy {
    /// Total sends per request (1 = no retry).
    pub max_attempts: u32,
    /// First backoff step; doubles each attempt up to the cap.
    pub base_ms: u64,
    /// Backoff ceiling.
    pub cap_ms: u64,
    /// How long to wait for the daemon to become healthy again.
    pub health_wait_ms: u128,
}

/// The attempts that were asked for, six by default and never none.
pub open spec fn attempts_setting(n: Option<u64>) -> u32 {
    match n {
        Some(n) => if n as u32 == 0 {
            1
        } else {
            n as u32
        },
        None => 6,
    }
}

/// The backoff step for an attempt, the first being 1: the base doubled for each
/// earlier attempt, sixteen times at most, up to the cap.
pub open spec fn backoff_step(p: RetryPolicy, attempt: u32) -> int {
    let shift = if attempt <= 1 {
        0
    } else if attempt >= 17 {
        16
    } else {
        attempt - 1
    };
    let step = p.base_ms * pow2(shift as nat);
    if step <= p.cap_ms {
        step
    } else {
        p.cap_ms as int
    }
}

/// `ms` milliseconds scaled by a factor in `[0.5, 1.5)` that the sub-second
/// nanoseconds of the clock decide, in nanoseconds.
pub open spec fn jittered_ns(ms: int, nanos: u32) -> int {
    ms * 1000 * (500 + (nanos % 1000) as int)
}

/// Scales `ms` milliseconds by the clock's jitter, in nanoseconds.
pub fn jitter(ms: u64, nanos: u32) -> (r: u128)
    ensures
        r == jittered_ns(ms as int, nanos),
{
    let factor: u128 = 500 + (nanos % 1000) as u128;
    let us: u128 = ms as u128 * 1000;
    assert(us * factor <= 0x3e8_0000_0000_0000_0000 * 1499) by (nonlinear_arith)
        requires
            us <= 0x3e8_0000_0000_0000_0000,
            factor <= 1499,
    ;
    us * factor
}

fn doubled(times: u32) -> (r: u64)
    requires
        times <= 16,
    ensures
        r == pow2(times as nat),
        r <= 65536,
{
    proof {
        lemma2_to64();
    }
    let mut r: u64 = 1;
    let mut i: u32 = 0;
    while i < times
        invariant
            i <= times <= 16,
            r == pow2(i as nat),
            pow2(16) == 65536,
            r <= 65536,
        decreases times - i,
    {
        proof {
            lemma_pow2_unfold((i + 1) as nat);
            if i + 1 < 16 {
                lemma_pow2_strictly_increases((i + 1) as nat, 16);
            }
        }
        r = r * 2;
        i = i + 1;
    }
    r
}

impl RetryPolicy {
    /// The policy with what was set: attempts (default 6, at least 1), first
    /// backoff (default 150 ms), health wait (default 60 s).
    pub fn from_settings(
        max_attempts: Option<u64>,
        backoff_ms: Option<u64>,
        health_wait_secs: Option<u64>,
    ) -> (r: Self)
        ensures
            r.max_attempts == attempts_setting(max_attempts),
            r.base_ms == (match backoff_ms {
                Some(n) => n,
                None => 150,
            }),
            r.cap_ms == 5000,
            r.health_wait_ms == 1000 * (match health_wait_secs {
                Some(n) => n,
                None => 60,
            }),
    {
        let attempts: u32 = match max_attempts {
            Some(n) => n as u32,
            None => 6,
        };
        RetryPolicy {
            max_attempts: if attempts == 0 {
                1
            } else {
                attempts
            },
            base_ms: backoff_ms.unwrap_or(150),
            cap_ms: 5000,
            health_wait_ms: 1000 * (health_wait_secs.unwrap_or(60) as u128),
        }
    }

    fn step(&self, attempt: u32) -> (r: u64)
        ensures
            r == backoff_step(*self, attempt),
    {
        let shift: u32 = if attempt <= 1 {
            0
        } else if attempt >= 17 {
            16
        } else {
            attempt - 1
        };
        let factor = doubled(shift);
        let base: u64 = self.base_ms;
        assert(base * factor <= 0xffff_ffff_ffff_ffff * 65536) by (nonlinear_arith)
            requires
                base <= 0xffff_ffff_ffff_ffff,
                factor <= 65536,
        ;
        let step: u128 = base as u128 * factor as u128;
        if step <= self.cap_ms as u128 {
            step as u64
        } else {
            self.cap_ms
        }
    }

    /// How long to back off after an attempt, the first being 1, in nanoseconds:
    /// exponential and capped, with jitter of half either way.
    pub fn backoff(&self, attempt: u32, nanos: u32) -> (r: u128)
        ensures
            r == jittered_ns(backoff_step(*self, attempt), nanos),
    {
        jitter(self.step(attempt), nanos)
    }
}

// ---------------------------------------------------------------------------
// State
// ---------------------------------------------------------------------------

/// What was set from outside; nothing where it was not.
pub struct ProxySettings {
    pub max_attempts: Option<u64>,
    pub backoff_ms: Option<u64>,
    pub health_wait_secs: Option<u64>,
    pub admit_limit: Option<usize>,
    pub fastlane_tokens: Option<usize>,
    pub poison_max: Option<u32>,
    pub poison_ttl_secs: Option<u64>,
}

/// Crash-attributed attempts before a fingerprint is refused: three by default,
/// at least one.
pub open spec fn poison_max_setting(n: Option<u32>) -> u32 {
    match n {
        Some(n) => if n >= 1 {
            n
        } else {
            1
        },
        None => 3,
    }
}

/// How many of the client's requests are forwarded at once: four by default, at
/// least one.
pub open spec fn proxy_limit_setting(n: Option<usize>) -> usize {
    match n {
        Some(n) => if n >= 1 {
            n
        } else {
            1
        },
        None => 4,
    }
}

/// The local scheduler's configuration. The queue is unbounded: a proxy never
/// sheds its own client.
pub fn proxy_admit_config(admit_limit: Option<usize>, fastlane_tokens: Option<usize>) -> (r:
    AdmissionConfig)
    ensures
        r.limit == proxy_limit_setting(admit_limit),
        r.fastlane_tokens == (match fastlane_tokens {
            Some(n) => n,
            None => 1024,
        }),
        r.queue_max == 0,
{
    AdmissionConfig {
        limit: match admit_limit {
            Some(n) => if n >= 1 {
                n
            } else {
                1
            },
            None => 4,
        },
        fastlane_tokens: fastlane_tokens.unwrap_or(1024),
        queue_max: 0,
    }
}

/// The proxy of one launch.
pub struct ProxyState {
    pub daemon_port: u16,
    pub retry: RetryPolicy,
    /// Crash-attributed attempts by fingerprint.
    pub poison: HashMap<u64, u32>,
    pub poison_max: u32,
    pub poison_ttl_secs: u64,
}

impl ProxyState {
    pub open spec fn port(&self) -> u16 {
        self.daemon_port
    }

    /// Crash-attributed attempts by fingerprint.
    pub open spec fn counts(&self) -> Map<u64, u32> {
        self.poison@
    }

    /// Crash-attributed attempts of a fingerprint.
    pub open spec fn count(&self, fp: u64) -> u32 {
        if self.counts().contains_key(fp) {
            self.counts()[fp]
        } else {
            0
        }
    }

    /// Everything but the crash counts.
    pub open spec fn same_but_counts(&self, other: ProxyState) -> bool {
        &&& self.port() == other.port()
        &&& self.retry == other.retry
        &&& self.poison_max == other.poison_max
        &&& self.poison_ttl_secs == other.poison_ttl_secs
    }

    pub fn new(daemon_port: u16, settings: &ProxySettings) -> (r: Self)
        ensures
            r.port() == daemon_port,
            r.retry.max_attempts == attempts_setting(settings.max_attempts),
            r.retry.base_ms == (match settings.backoff_ms {
                Some(n) => n,
                None => 150,
            }),
            r.retry.cap_ms == 5000,
            r.retry.health_wait_ms == 1000 * (match settings.health_wait_secs {
                Some(n) => n,
                None => 60,
            }),
            r.counts() == Map::<u64, u32>::empty(),
            r.poison_max == poison_max_setting(settings.poison_max),
            r.poison_ttl_secs == (match settings.poison_ttl_secs {
                Some(n) => n,
                None => DEFAULT_POISON_TTL_SECS,
            }),
    {
        broadcast use vstd::std_specs::hash::group_hash_axioms;

        ProxyState {
            daemon_port,
            retry: RetryPolicy::from_settings(
                settings.max_attempts,
                settings.backoff_ms,
                settings.health_wait_secs,
            ),
            poison: HashMap::new(),
            poison_max: match settings.poison_max {
                Some(n) => if n >= 1 {
                    n
                } else {
                    1
                },
                None => 3,
            },
            poison_ttl_secs: settings.poison_ttl_secs.unwrap_or(DEFAULT_POISON_TTL_SECS),
        }
    }

    pub fn daemon_port(&self) -> (r: u16)
        ensures
            r == self.port(),
    {
        self.daemon_port
    }

    /// Crash-attributed attempts recorded for `fp` so far.
    pub fn poison_count(&self, fp: u64) -> (r: u32)
        ensures
            r == self.count(fp),
    {
        broadcast use vstd::std_specs::hash::group_hash_axioms;

        match self.poison.get(&fp) {
            Some(c) => *c,
            None => 0,
        }
    }

    /// Records one more crash-attributed attempt for `fp` and returns the total.
    pub fn bump_poison(&mut self, fp: u64) -> (r: u32)
        requires
            old(self).count(fp) < u32::MAX,
        ensures
            r == old(self).count(fp) + 1,
            final(self).counts() == old(self).counts().insert(fp, r),
            final(self).same_but_counts(*old(self)),
    {
        broadcast use vstd::std_specs::hash::group_hash_axioms;

        let c: u32 = self.poison_count(fp) + 1;
        let _ = self.poison.insert(fp, c);
        c
    }

    /// Forgets `fp` after a clean success.
    pub fn clear_poison(&mut self, fp: u64)
        ensures
            final(self).counts() == old(self).counts().remove(fp),
            final(self).same_but_counts(*old(self)),
    {
        broadcast use vstd::std_specs::hash::group_hash_axioms;

        let _ = self.poison.remove(&fp);
    }
}

/// Cost of a request for the local order, from the size of its body alone: about
/// four bytes per token.
pub fn estimate_cost(body: &[u8]) -> (r: RequestCost)
    ensures
        r.prompt_tokens == body@.len() / 4,
        r.max_tokens == 0,
{
    RequestCost { prompt_tokens: body.len() / 4, max_tokens: 0 }
}

// ---------------------------------------------------------------------------
// Answers of the proxy itself
// ---------------------------------------------------------------------------

/// What stands for a character inside a JSON string.
pub open spec fn json_escape(c: char) -> Seq<char> {
    if c == '"' {
        seq!['\\', '"']
    } else if c == '\\' {
        seq!['\\', '\\']
    } else if c == '\n' {
        seq!['\\', 'n']
    } else if c == '\r' {
        seq!['\\', 'r']
    } else if c == '\t' {
        seq!['\\', 't']
    } else if (c as u32) < 0x20 {
        seq!['\\', 'u'] + hex_text((c as u32) as nat, 4)
    } else {
        seq![c]
    }
}

pub open spec fn json_escaped(s: Seq<char>) -> Seq<char>
    decreases s.len(),
{
    if s.len() == 0 {
        Seq::empty()
    } else {
        json_escaped(s.drop_last()) + json_escape(s.last())
    }
}

/// `s` as a JSON string literal.
pub open spec fn json_literal(s: Seq<char>) -> Seq<char> {
    (seq!['"'] + json_escaped(s)).push('"')
}

/// Minimal JSON string escaping for the error envelope.
pub fn json_string(s: &str) -> (r: String)
    ensures
        r@ == json_literal(s@),
{
    let v = chars_of(s);
    let mut out = String::new();
    out.push('"');
    assert(out@ =~= seq!['"'] + json_escaped(s@.subrange(0, 0)));
    let mut i: usize = 0;
    while i < v.len()
        invariant
            i <= v.len(),
            v@ == s@,
            out@ == seq!['"'] + json_escaped(s@.subrange(0, i as int)),
        decreases v.len() - i,
    {
        let c = v[i];
        let ghost before = out@;
        let ghost part = s@.subrange(0, i + 1);
        assert(part.drop_last() =~= s@.subrange(0, i as int));
        if c == '"' {
            out.push('\\');
            out.push('"');
            assert(out@ =~= before + json_escape(c));
        } else if c == '\\' {
            out.push('\\');
            out.push('\\');
            assert(out@ =~= before + json_escape(c));
        } else if c == '\n' {
            out.push('\\');
            out.push('n');
            assert(out@ =~= before + json_escape(c));
        } else if c == '\r' {
            out.push('\\');
            out.push('r');
            assert(out@ =~= before + json_escape(c));
        } else if c == '\t' {
            out.push('\\');
            out.push('t');
            assert(out@ =~= before + json_escape(c));
        } else if (c as u32) < 0x20 {
            out.push('\\');
            out.push('u');
            let h = hex((c as u32) as u64, 4);
            out.append(h.as_str());
            assert(out@ =~= before + json_escape(c));
        } else {
            out.push(c);
            assert(out@ =~= before + json_escape(c));
        }
        i = i + 1;
        assert(out@ =~= seq!['"'] + json_escaped(part));
    }
    assert(s@.subrange(0, i as int) =~= s@);
    out.push('"');
    out
}

/// The error envelope.
pub open spec fn envelope(kind: Seq<char>, message: Seq<char>) -> Seq<char> {
    "{\"error\":{\"type\":\""@ + kind + "\",\"message\":"@ + json_literal(message) + "}}"@
}

fn error_envelope(kind: &str, message: &str) -> (r: String)
    ensures
        r@ == envelope(kind@, message@),
{
    let mut out = copy("{\"error\":{\"type\":\"");
    out.append(kind);
    out.append("\",\"message\":");
    out.append(json_string(message).as_str());
    out.append("}}");
    out
}

/// Body of the soft refusal (HTTP 422) of a fingerprint.
pub open spec fn poisoned_body(fp: u64, reason: Seq<char>) -> Seq<char> {
    envelope(
        "poison_refused"@,
        "request "@ + hex_text(fp as nat, 16) + " "@ + reason
            + "; refused for now — retry later (advisory, expires)"@,
    )
}

/// Soft, retryable refusal of a request that crashed the model: the body of an
/// HTTP 422.
pub fn poisoned(fp: u64, reason: &str) -> (r: String)
    ensures
        r@ == poisoned_body(fp, reason@),
{
    let mut msg = copy("request ");
    msg.append(hex(fp, 16).as_str());
    msg.append(" ");
    msg.append(reason);
    msg.append("; refused for now — retry later (advisory, expires)");
    error_envelope("poison_refused", msg.as_str())
}

/// The body of an HTTP 502.
pub fn bad_gateway(msg: &str) -> (r: String)
    ensures
        r@ == envelope("upstream_error"@, msg@),
{
    error_envelope("upstream_error", msg)
}

/// Where a request is forwarded to.
pub fn daemon_url(port: u16, path_and_query: &str) -> (r: String)
    ensures
        r@ == "http://127.0.0.1:"@ + dec_text(port as nat) + path_and_query@,
{
    let mut out = copy("http://127.0.0.1:");
    out.append(dec(port as u64).as_str());
    out.append(path_and_query);
    out
}

// ---------------------------------------------------------------------------
// Headers
// ---------------------------------------------------------------------------

/// Header names are compared without regard to case.
pub open spec fn hop_by_hop(name: Seq<char>) -> bool {
    let n = ascii_lower(name);
    n == "connection"@ || n == "proxy-authenticate"@ || n == "proxy-authorization"@ || n == "te"@
        || n == "trailer"@ || n == "upgrade"@ || n == "keep-alive"@
}

/// A request header that goes upstream: neither hop-by-hop nor the host nor
/// framing, which the client library sets anew.
pub open spec fn goes_upstream(name: Seq<char>) -> bool {
    !hop_by_hop(name) && ascii_lower(name) != "host"@ && ascii_lower(name) != "content-length"@
        && ascii_lower(name) != "transfer-encoding"@
}

/// A response header that comes back: neither hop-by-hop nor framing.
pub open spec fn comes_back(name: Seq<char>) -> bool {
    !hop_by_hop(name) && ascii_lower(name) != "content-length"@ && ascii_lower(name)
        != "transfer-encoding"@
}

fn lower_is_hop_by_hop(n: &str) -> (r: bool)
    ensures
        r == (n@ == "connection"@ || n@ == "proxy-authenticate"@ || n@ == "proxy-authorization"@
            || n@ == "te"@ || n@ == "trailer"@ || n@ == "upgrade"@ || n@ == "keep-alive"@),
{
    same(n, "connection") || same(n, "proxy-authenticate") || same(n, "proxy-authorization")
        || same(n, "te") || same(n, "trailer") || same(n, "upgrade") || same(n, "keep-alive")
}

pub fn is_hop_by_hop(name: &str) -> (r: bool)
    ensures
        r == hop_by_hop(name@),
{
    lower_is_hop_by_hop(to_ascii_lower(name).as_str())
}

/// A header: its name and the bytes of its value.
pub struct Header {
    pub name: String,
    pub value: Vec<u8>,
}

pub open spec fn header_views(v: Seq<Header>) -> Seq<(Seq<char>, Seq<u8>)> {
    Seq::new(v.len(), |i: int| (v[i].name@, v[i].value@))
}

/// The headers that `keep` holds of, in order.
pub open spec fn kept(v: Seq<(Seq<char>, Seq<u8>)>, keep: spec_fn(Seq<char>) -> bool) -> Seq<
    (Seq<char>, Seq<u8>),
>
    decreases v.len(),
{
    if v.len() == 0 {
        Seq::empty()
    } else {
        let rest = kept(v.drop_last(), keep);
        if keep(v.last().0) {
            rest.push(v.last())
        } else {
            rest
        }
    }
}

fn copy_header(h: &Header) -> (r: Header)
    ensures
        r.name@ == h.name@,
        r.value@ == h.value@,
{
    let mut value: Vec<u8> = Vec::new();
    let mut i: usize = 0;
    while i < h.value.len()
        invariant
            i <= h.value.len(),
            value@ == h.value@.subrange(0, i as int),
        decreases h.value.len() - i,
    {
        value.push(h.value[i]);
        i = i + 1;
        assert(h.value@.subrange(0, i as int) =~= h.value@.subrange(0, i - 1).push(
            h.value@[i - 1],
        ));
    }
    assert(h.value@.subrange(0, i as int) =~= h.value@);
    Header { name: h.name.clone(), value }
}

/// Headers to send upstream, in the order in which they came.
pub fn forward_request_headers(incoming: &Vec<Header>) -> (r: Vec<Header>)
    ensures
        header_views(r@) == kept(header_views(incoming@), |n: Seq<char>| goes_upstream(n)),
{
    let mut out: Vec<Header> = Vec::new();
    let mut i: usize = 0;
    let ghost all = header_views(incoming@);
    let ghost keep = |n: Seq<char>| goes_upstream(n);
    assert(header_views(out@) =~= Seq::empty());
    while i < incoming.len()
        invariant
            i <= incoming.len(),
            all == header_views(incoming@),
            keep == (|n: Seq<char>| goes_upstream(n)),
            header_views(out@) == kept(all.subrange(0, i as int), keep),
        decreases incoming.len() - i,
    {
        let h = &incoming[i];
        let ghost part = all.subrange(0, i + 1);
        let ghost before = out@;
        assert(part.drop_last() =~= all.subrange(0, i as int));
        assert(part.last() == (h.name@, h.value@));
        let n = to_ascii_lower(h.name.as_str());
        if !lower_is_hop_by_hop(n.as_str()) && !same(n.as_str(), "host") && !same(
            n.as_str(),
            "content-length",
        ) && !same(n.as_str(), "transfer-encoding") {
            out.push(copy_header(h));
            assert(header_views(out@) =~= header_views(before).push(part.last()));
        }
        i = i + 1;
    }
    assert(all.subrange(0, i as int) =~= all);
    out
}

/// Response headers to hand back, in the order in which they came.
pub fn copy_response_headers(upstream: &Vec<Header>) -> (r: Vec<Header>)
    ensures
        header_views(r@) == kept(header_views(upstream@), |n: Seq<char>| comes_back(n)),
{
    let mut out: Vec<Header> = Vec::new();
    let mut i: usize = 0;
    let ghost all = header_views(upstream@);
    let ghost keep = |n: Seq<char>| comes_back(n);
    assert(header_views(out@) =~= Seq::empty());
    while i < upstream.len()
        invariant
            i <= upstream.len(),
            all == header_views(upstream@),
            keep == (|n: Seq<char>| comes_back(n)),
            header_views(out@) == kept(all.subrange(0, i as int), keep),
        decreases upstream.len() - i,
    {
        let h = &upstream[i];
        let ghost part = all.subrange(0, i + 1);
        let ghost before = out@;
        assert(part.drop_last() =~= all.subrange(0, i as int));
        assert(part.last() == (h.name@, h.value@));
        let n = to_ascii_lower(h.name.as_str());
        if !lower_is_hop_by_hop(n.as_str()) && !same(n.as_str(), "content-length") && !same(
            n.as_str(),
            "transfer-encoding",
        ) {
            out.push(copy_header(h));
            assert(header_views(out@) =~= header_views(before).push(part.last()));
        }
        i = i + 1;
    }
    assert(all.subrange(0, i as int) =~= all);
    out
}

/// Seconds of a `Retry-After` header, at most 30; `None` where it is not a plain
/// integer.
pub fn retry_after(value: &str) -> (r: Option<u64>)
    ensures
        match r {
            Some(secs) => number_upto(trim(value@), u64::MAX as int) matches Some(n) && secs == (
            if n <= 30 {
                n
            } else {
                30
            }),
            None => number_upto(trim(value@), u64::MAX as int) is None,
        },
{
    match parse_upto(trim_str(value).as_str(), u64::MAX) {
        Some(n) => Some(if n <= 30 {
            n
        } else {
            30
        }),
        None => None,
    }
}

// ---------------------------------------------------------------------------
// Waiting at the edge
// ---------------------------------------------------------------------------

/// The free slots that the daemon advertises; `None` where its answer is of no
/// use.
pub fn free_slots(text: &str) -> (r: Option<usize>)
    ensures
        r == (match parsed(text@) {
            Some(t) => match integer_in(field_of(Some(t), "free"@)) {
                Some(n) => Some(n as usize),
                None => None,
            },
            None => None,
        }),
{
    match parse_json(text) {
        Some(v) => free_slots_in(&v),
        None => None,
    }
}

/// The free slots in the daemon's answer.
pub fn free_slots_in(v: &Json) -> (r: Option<usize>)
    ensures
        r == (match integer_in(field_of(Some(v@), "free"@)) {
            Some(n) => Some(n as usize),
            None => None,
        }),
{
    match v.get_u64("free") {
        Some(n) => Some(n as usize),
        None => None,
    }
}

/// Whether to hold a request back once more: only where the daemon says that it
/// has no room, and only until the wait has run out.
pub fn keep_waiting(free: Option<usize>, wait_is_over: bool) -> (r: bool)
    ensures
        r == (free == Some(0usize) && !wait_is_over),
{
    match free {
        Some(n) => n == 0 && !wait_is_over,
        None => false,
    }
}

// ---------------------------------------------------------------------------
// Replay
// ---------------------------------------------------------------------------

/// How a send ended.
pub enum Outcome {
    /// A response arrived, with its status and its `Retry-After` if any.
    Response { status: u16, retry_after: Option<String> },
    /// The send failed; `is_connect` where the daemon was not listening at all.
    Failed { is_connect: bool, error: String },
}

/// What the proxy does next.
pub enum Action {
    /// Hold the request for so many nanoseconds, wait for room, send it again.
    Hold { wait_ns: u128 },
    /// Back off for so many nanoseconds, wait for health, send it again.
    AwaitHealth { wait_ns: u128 },
    /// Stream the response through; after a clean success forget the fingerprint
    /// everywhere.
    Deliver { clean: bool },
    /// Answer 422 with this body; `confirm` records the fingerprint
    /// machine-wide.
    Refuse { confirm: bool, body: String },
    /// Answer 502 with this body.
    GiveUp { body: String },
}

pub enum ActionView {
    Hold(int),
    AwaitHealth(int),
    Deliver(bool),
    Refuse(bool, Seq<char>),
    GiveUp(Seq<char>),
}

impl View for Action {
    type V = ActionView;

    open spec fn view(&self) -> ActionView {
        match *self {
            Action::Hold { wait_ns } => ActionView::Hold(wait_ns as int),
            Action::AwaitHealth { wait_ns } => ActionView::AwaitHealth(wait_ns as int),
            Action::Deliver { clean } => ActionView::Deliver(clean),
            Action::Refuse { confirm, body } => ActionView::Refuse(confirm, body@),
            Action::GiveUp { body } => ActionView::GiveUp(body@),
        }
    }
}

/// A request that is being forwarded.
pub struct Forwarding {
    pub fp: u64,
    pub attempt: u32,
    /// Crash-attributed attempts of this request.
    pub crashes: u32,
}

impl Outcome {
    /// The daemon was reached, and died over the request.
    pub open spec fn is_crash(&self) -> bool {
        *self matches Outcome::Failed { is_connect, .. } && !is_connect
    }
}

pub open spec fn success(status: u16) -> bool {
    200 <= status <= 299
}

/// Nanoseconds that a refused send is held: what the daemon asks for, else the
/// backoff.
pub open spec fn hold_ns(
    p: RetryPolicy,
    attempt: u32,
    retry_after: Option<Seq<char>>,
    nanos: u32,
) -> int {
    let asked = match retry_after {
        Some(v) => number_upto(trim(v), u64::MAX as int),
        None => None,
    };
    match asked {
        Some(secs) => (if secs <= 30 {
            secs
        } else {
            30
        }) * 1_000_000_000,
        None => jittered_ns(backoff_step(p, attempt), nanos),
    }
}

pub open spec fn unreachable_body(port: u16, attempt: u32, error: Seq<char>) -> Seq<char> {
    envelope(
        "upstream_error"@,
        "shared gateway on :"@ + dec_text(port as nat) + " unreachable after "@ + dec_text(
            attempt as nat,
        ) + " attempts: "@ + error,
    )
}

pub open spec fn maybe_text(s: Option<String>) -> Option<Seq<char>> {
    match s {
        Some(s) => Some(s@),
        None => None,
    }
}

/// What is done after a send, given the crashes counted so far for the
/// fingerprint. A response is delivered, except that a daemon without room is
/// asked again while attempts are left. A daemon that died over the request
/// counts against it, and the limit of crashes refuses it; otherwise it is
/// replayed while attempts are left.
pub open spec fn decided(
    p: RetryPolicy,
    port: u16,
    f: Forwarding,
    crashes_before: u32,
    poison_max: u32,
    in_use: int,
    outcome: Outcome,
    nanos: u32,
) -> ActionView {
    match outcome {
        Outcome::Response { status, retry_after } => if status == 429 && f.attempt
            < p.max_attempts {
            ActionView::Hold(hold_ns(p, f.attempt, maybe_text(retry_after), nanos))
        } else {
            ActionView::Deliver(success(status))
        },
        Outcome::Failed { is_connect, error } => if !is_connect && crashes_before + 1
            >= poison_max {
            ActionView::Refuse(in_use <= 1, poisoned_body(f.fp, "keeps crashing the model"@))
        } else if f.attempt >= p.max_attempts {
            ActionView::GiveUp(unreachable_body(port, f.attempt, error@))
        } else {
            ActionView::AwaitHealth(jittered_ns(backoff_step(p, f.attempt), nanos))
        },
    }
}

/// Refuses a request before it is forwarded: where it is known machine-wide to
/// crash the model, or has used up its crashes here. Gives the body of the 422.
pub fn refused_at_the_gate(state: &ProxyState, fp: u64, poisoned_machine_wide: bool) -> (r: Option<
    String,
>)
    ensures
        match r {
            Some(body) => if poisoned_machine_wide {
                body@ == poisoned_body(
                    fp,
                    "previously crashed the shared model (machine-wide)"@,
                )
            } else {
                state.count(fp) >= state.poison_max && body@ == poisoned_body(
                    fp,
                    "keeps crashing the model"@,
                )
            },
            None => !poisoned_machine_wide && state.count(fp) < state.poison_max,
        },
{
    if poisoned_machine_wide {
        return Some(poisoned(fp, "previously crashed the shared model (machine-wide)"));
    }
    if state.poison_count(fp) >= state.poison_max {
        return Some(poisoned(fp, "keeps crashing the model"));
    }
    None
}

impl Forwarding {
    pub fn new(fp: u64) -> (r: Self)
        ensures
            r.fp == fp,
            r.attempt == 0,
            r.crashes == 0,
    {
        Forwarding { fp, attempt: 0, crashes: 0 }
    }

    /// The next send begins. `true` where it must run alone: once this request
    /// has crashed the daemon, nothing may compete for memory with it.
    pub fn begin_attempt(&mut self) -> (exclusive: bool)
        requires
            old(self).attempt < u32::MAX,
        ensures
            exclusive == (old(self).crashes > 0),
            final(self).attempt == old(self).attempt + 1,
            final(self).fp == old(self).fp,
            final(self).crashes == old(self).crashes,
    {
        self.attempt = self.attempt + 1;
        self.crashes > 0
    }

    /// A send ended: counts a crash, forgets the fingerprint after a clean
    /// success, and says what to do next.
    pub fn on_outcome(
        &mut self,
        state: &mut ProxyState,
        outcome: &Outcome,
        in_use: usize,
        nanos: u32,
    ) -> (r: Action)
        requires
            outcome.is_crash() ==> old(self).crashes < u32::MAX,
            outcome.is_crash() ==> old(state).count(old(self).fp) < u32::MAX,
        ensures
            r@ == decided(
                old(state).retry,
                old(state).port(),
                *old(self),
                old(state).count(old(self).fp),
                old(state).poison_max,
                in_use as int,
                *outcome,
                nanos,
            ),
            final(self).fp == old(self).fp,
            final(self).attempt == old(self).attempt,
            final(self).crashes == old(self).crashes + (match *outcome {
                Outcome::Failed { is_connect, .. } => if is_connect {
                    0int
                } else {
                    1
                },
                Outcome::Response { .. } => 0,
            }),
            final(state).same_but_counts(*old(state)),
            final(state).counts() == (match *outcome {
                Outcome::Failed { is_connect, .. } => if is_connect {
                    old(state).counts()
                } else {
                    old(state).counts().insert(
                        old(self).fp,
                        (old(state).count(old(self).fp) + 1) as u32,
                    )
                },
                Outcome::Response { status, .. } => if r@ is Deliver && success(status) {
                    old(state).counts().remove(old(self).fp)
                } else {
                    old(state).counts()
                },
            }),
    {
        let policy = state.retry;
        match outcome {
            Outcome::Response { status, retry_after: header } => {
                if *status == 429 && self.attempt < policy.max_attempts {
                    let asked: Option<u64> = match header {
                        Some(v) => retry_after(v.as_str()),
                        None => None,
                    };
                    let wait_ns: u128 = match asked {
                        Some(secs) => secs as u128 * 1_000_000_000,
                        None => policy.backoff(self.attempt, nanos),
                    };
                    return Action::Hold { wait_ns };
                }
                let clean = 200 <= *status && *status <= 299;
                if clean {
                    state.clear_poison(self.fp);
                }
                Action::Deliver { clean }
            },
            Outcome::Failed { is_connect, error } => {
                if !*is_connect {
                    self.crashes = self.crashes + 1;
                    let total = state.bump_poison(self.fp);
                    if total >= state.poison_max {
                        return Action::Refuse {
                            confirm: in_use <= 1,
                            body: poisoned(self.fp, "keeps crashing the model"),
                        };
                    }
                }
                if self.attempt >= policy.max_attempts {
                    let mut msg = copy("shared gateway on :");
                    msg.append(dec(state.daemon_port() as u64).as_str());
                    msg.append(" unreachable after ");
                    msg.append(dec(self.attempt as u64).as_str());
                    msg.append(" attempts: ");
                    msg.append(error.as_str());
                    return Action::GiveUp { body: bad_gateway(msg.as_str()) };
                }
                Action::AwaitHealth { wait_ns: policy.backoff(self.attempt, nanos) }
            },
        }
    }
}

// ---------------------------------------------------------------------------
// Laws
// ---------------------------------------------------------------------------

/// The backoff steps never shrink and never pass the cap.
pub proof fn backoff_grows_and_caps(p: RetryPolicy, earlier: u32, later: u32)
    requires
        earlier <= later,
    ensures
        0 <= backoff_step(p, earlier) <= backoff_step(p, later) <= p.cap_ms,
{
    let a: nat = if earlier <= 1 {
        0
    } else if earlier >= 17 {
        16
    } else {
        (earlier - 1) as nat
    };
    let b: nat = if later <= 1 {
        0
    } else if later >= 17 {
        16
    } else {
        (later - 1) as nat
    };
    if a < b {
        lemma_pow2_strictly_increases(a, b);
    }
    let base = p.base_ms as int;
    let x = pow2(a) as int;
    let y = pow2(b) as int;
    assert(0 <= base * x <= base * y) by (nonlinear_arith)
        requires
            0 <= base,
            0 <= x <= y,
    ;
}

/// Jitter keeps a step within half of it below and above, the upper end left
/// out.
pub proof fn jitter_is_bounded(ms: int, nanos: u32)
    requires
        ms >= 0,
    ensures
        500_000 * ms <= jittered_ns(ms, nanos),
        ms > 0 ==> jittered_ns(ms, nanos) < 1_500_000 * ms,
{
    let f = 500 + (nanos % 1000) as int;
    assert(500 <= f < 1500);
    assert(ms * 1000 * f >= ms * 1000 * 500) by (nonlinear_arith)
        requires
            ms >= 0,
            f >= 500,
    ;
    if ms > 0 {
        assert(ms * 1000 * f < ms * 1000 * 1500) by (nonlinear_arith)
            requires
                ms > 0,
                f < 1500,
        ;
    }
}

/// A request is sent again only while attempts are left: once the last one was
/// made, every outcome ends it.
pub proof fn the_last_attempt_is_final(
    p: RetryPolicy,
    port: u16,
    f: Forwarding,
    crashes_before: u32,
    poison_max: u32,
    in_use: int,
    outcome: Outcome,
    nanos: u32,
)
    requires
        f.attempt >= p.max_attempts,
    ensures
        ({
            let a = decided(p, port, f, crashes_before, poison_max, in_use, outcome, nanos);
            !(a is Hold) && !(a is AwaitHealth)
        }),
{
}

/// A response other than one for want of room is never replayed.
pub proof fn a_response_is_committed(
    p: RetryPolicy,
    port: u16,
    f: Forwarding,
    crashes_before: u32,
    poison_max: u32,
    in_use: int,
    status: u16,
    retry_after: Option<String>,
    nanos: u32,
)
    requires
        status != 429,
    ensures
        decided(
            p,
            port,
            f,
            crashes_before,
            poison_max,
            in_use,
            (Outcome::Response { status, retry_after }),
            nanos,
        ) == ActionView::Deliver(success(status)),
{
}

/// A daemon that is not listening never counts against a request.
pub proof fn a_failover_is_not_a_crash(
    p: RetryPolicy,
    port: u16,
    f: Forwarding,
    crashes_before: u32,
    poison_max: u32,
    in_use: int,
    error: String,
    nanos: u32,
)
    ensures
        !(decided(
            p,
            port,
            f,
            crashes_before,
            poison_max,
            in_use,
            (Outcome::Failed { is_connect: true, error }),
            nanos,
        ) is Refuse),
{
}

/// The crash that reaches the limit refuses the request, and only a request that
/// ran alone is confirmed machine-wide.
pub proof fn crashes_escalate_to_refusal(
    p: RetryPolicy,
    port: u16,
    f: Forwarding,
    crashes_before: u32,
    poison_max: u32,
    in_use: int,
    error: String,
    nanos: u32,
)
    ensures
        ({
            let a = decided(
                p,
                port,
                f,
                crashes_before,
                poison_max,
                in_use,
                (Outcome::Failed { is_connect: false, error }),
                nanos,
            );
            &&& (a is Refuse <==> crashes_before + 1 >= poison_max)
            &&& (a is Refuse ==> a->Refuse_0 == (in_use <= 1))
        }),
{
}

/// While attempts are left a send that could not connect is always replayed, after
/// a wait: the daemon is being restarted. On the last attempt it is given up.
pub proof fn a_failover_is_replayed(
    p: RetryPolicy,
    port: u16,
    f: Forwarding,
    crashes_before: u32,
    poison_max: u32,
    in_use: int,
    error: String,
    nanos: u32,
)
    ensures
        ({
            let a = decided(
                p,
                port,
                f,
                crashes_before,
                poison_max,
                in_use,
                (Outcome::Failed { is_connect: true, error }),
                nanos,
            );
            &&& f.attempt < p.max_attempts ==> a is AwaitHealth
            &&& f.attempt >= p.max_attempts ==> a is GiveUp
        }),
{
}

/// A daemon that died over a request is waited for and sent the request again,
/// while attempts are left and the request has not crashed it too often.
pub proof fn a_crash_is_replayed_below_the_limit(
    p: RetryPolicy,
    port: u16,
    f: Forwarding,
    crashes_before: u32,
    poison_max: u32,
    in_use: int,
    error: String,
    nanos: u32,
)
    ensures
        ({
            let a = decided(
                p,
                port,
                f,
                crashes_before,
                poison_max,
                in_use,
                (Outcome::Failed { is_connect: false, error }),
                nanos,
            );
            &&& crashes_before + 1 < poison_max && f.attempt < p.max_attempts ==> a is AwaitHealth
            &&& crashes_before + 1 < poison_max && f.attempt >= p.max_attempts ==> a is GiveUp
            &&& crashes_before + 1 >= poison_max ==> a is Refuse
        }),
{
}

/// A request is given up only after a failure, and only once its attempts are used
/// up; it is refused only after a crash; a response is never turned into either.
pub proof fn giving_up_takes_every_attempt(
    p: RetryPolicy,
    port: u16,
    f: Forwarding,
    crashes_before: u32,
    poison_max: u32,
    in_use: int,
    outcome: Outcome,
    nanos: u32,
)
    ensures
        ({
            let a = decided(p, port, f, crashes_before, poison_max, in_use, outcome, nanos);
            &&& a is GiveUp ==> f.attempt >= p.max_attempts && outcome is Failed
            &&& a is Refuse ==> (outcome matches Outcome::Failed { is_connect, .. } && !is_connect)
            &&& a is Hold ==> outcome is Response && f.attempt < p.max_attempts
            &&& a is Deliver <==> outcome is Response && !(a is Hold)
        }),
{
}

proof fn jitter_is_within_half(ms: int, nanos: u32)
    requires
        ms >= 0,
    ensures
        500_000 * ms <= jittered_ns(ms, nanos) <= 1_500_000 * ms,
{
    let f = 500 + (nanos % 1000) as int;
    assert(500_000 * ms <= ms * 1000 * f <= 1_500_000 * ms) by (nonlinear_arith)
        requires
            ms >= 0,
            500 <= f <= 1500,
    ;
}

/// A daemon without room is asked again while attempts are left, after the time it
/// asks for, half a minute at most, or else after the backoff; at last its answer
/// is delivered. Any other response is delivered at once, as clean where it is a
/// success.
pub proof fn a_busy_daemon_is_asked_again(
    p: RetryPolicy,
    port: u16,
    f: Forwarding,
    crashes_before: u32,
    poison_max: u32,
    in_use: int,
    status: u16,
    retry_after: Option<String>,
    nanos: u32,
)
    ensures
        ({
            let a = decided(
                p,
                port,
                f,
                crashes_before,
                poison_max,
                in_use,
                (Outcome::Response { status, retry_after }),
                nanos,
            );
            let asked = match retry_after {
                Some(v) => number_upto(trim(v@), u64::MAX as int),
                None => None,
            };
            &&& status == 429 && f.attempt < p.max_attempts ==> {
                &&& a is Hold
                &&& asked matches Some(secs) ==> {
                    &&& secs <= 30 ==> a == ActionView::Hold(secs * 1_000_000_000)
                    &&& secs > 30 ==> a == ActionView::Hold(30_000_000_000)
                }
                &&& asked is None ==> 500_000 * backoff_step(p, f.attempt) <= a->Hold_0 <= 1_500_000
                    * p.cap_ms
            }
            &&& status == 429 && f.attempt >= p.max_attempts ==> a == ActionView::Deliver(false)
            &&& status != 429 ==> a == ActionView::Deliver(200 <= status && status <= 299)
        }),
{
    backoff_grows_and_caps(p, f.attempt, f.attempt);
    jitter_is_within_half(backoff_step(p, f.attempt), nanos);
}

/// The wait before a replay is the backoff of the attempt, within half of it either
/// way.
pub proof fn a_replay_waits_for_its_backoff(
    p: RetryPolicy,
    port: u16,
    f: Forwarding,
    crashes_before: u32,
    poison_max: u32,
    in_use: int,
    outcome: Outcome,
    nanos: u32,
)
    ensures
        decided(p, port, f, crashes_before, poison_max, in_use, outcome, nanos) matches ActionView::AwaitHealth(
            ns,
        ) ==> {
            &&& 500_000 * backoff_step(p, f.attempt) <= ns <= 1_500_000 * backoff_step(p, f.attempt)
            &&& ns <= 1_500_000 * p.cap_ms
        },
{
    backoff_grows_and_caps(p, f.attempt, f.attempt);
    jitter_is_within_half(backoff_step(p, f.attempt), nanos);
}

/// The backoff starts at the base and doubles from one attempt to the next, up to
/// the cap; from the seventeenth attempt on it stays as it is.
pub proof fn the_backoff_doubles(p: RetryPolicy, attempt: u32)
    requires
        1 <= attempt < u32::MAX,
    ensures
        backoff_step(p, 0) == backoff_step(p, 1),
        p.base_ms <= p.cap_ms ==> backoff_step(p, 1) == p.base_ms,
        p.base_ms > p.cap_ms ==> backoff_step(p, 1) == p.cap_ms,
        attempt < 17 && 2 * backoff_step(p, attempt) <= p.cap_ms ==> backoff_step(
            p,
            (attempt + 1) as u32,
        ) == 2 * backoff_step(p, attempt),
        attempt < 17 && 2 * backoff_step(p, attempt) > p.cap_ms ==> backoff_step(
            p,
            (attempt + 1) as u32,
        ) == p.cap_ms,
        attempt >= 17 ==> backoff_step(p, (attempt + 1) as u32) == backoff_step(p, attempt),
{
    lemma2_to64();
    assert(p.base_ms * pow2(0) == p.base_ms) by (nonlinear_arith)
        requires
            pow2(0) == 1,
    ;
    if attempt < 17 {
        let a = (attempt - 1) as nat;
        lemma_pow2_unfold((a + 1) as nat);
        let base = p.base_ms as int;
        let x = pow2(a) as int;
        assert(base * (2 * x) == 2 * (base * x)) by (nonlinear_arith);
    }
}

/// Jitter is decided by the clock alone: the same clock scales two waits alike, and
/// the middle of its range leaves a wait as it is.
pub proof fn jitter_scales(ms: int, nanos: u32)
    ensures
        nanos % 1000 == 500 ==> jittered_ns(ms, nanos) == 1_000_000 * ms,
        nanos % 1000 == 0 ==> jittered_ns(ms, nanos) == 500_000 * ms,
        jittered_ns(2 * ms, nanos) == 2 * jittered_ns(ms, nanos),
        jittered_ns(ms, nanos) == 500_000 * ms + 1_000 * ms * (nanos % 1000),
{
    let f = 500 + (nanos % 1000) as int;
    assert(ms * 1000 * f == 500_000 * ms + 1_000 * ms * (f - 500)) by (nonlinear_arith);
    assert(2 * ms * 1000 * f == 2 * (ms * 1000 * f)) by (nonlinear_arith);
    assert(f == 1000 ==> ms * 1000 * f == 1_000_000 * ms) by (nonlinear_arith);
    assert(f == 500 ==> ms * 1000 * f == 500_000 * ms) by (nonlinear_arith);
}

/// What was set is used, none is never used, and what was not set has its default.
pub proof fn settings_are_used(attempts: u64, poison: u32, limit: usize)
    ensures
        attempts_setting(None) == 6,
        attempts_setting(Some(attempts)) >= 1,
        1 <= attempts <= u32::MAX ==> attempts_setting(Some(attempts)) == attempts,
        poison_max_setting(None) == 3,
        poison_max_setting(Some(poison)) >= 1,
        poison >= 1 ==> poison_max_setting(Some(poison)) == poison,
        proxy_limit_setting(None) == 4,
        proxy_limit_setting(Some(limit)) >= 1,
        limit >= 1 ==> proxy_limit_setting(Some(limit)) == limit,
{
}

/// A header goes upstream unless it belongs to the connection or frames the body;
/// it comes back unless it does either. The case of its name makes no difference.
pub proof fn headers_are_passed_on(name: Seq<char>, other: Seq<char>)
    ensures
        ascii_lower(name) == ascii_lower(other) ==> goes_upstream(name) == goes_upstream(other)
            && comes_back(name) == comes_back(other),
        ({
            let n = ascii_lower(name);
            let connection = n == "connection"@ || n == "keep-alive"@ || n
                == "proxy-authenticate"@ || n == "proxy-authorization"@ || n == "te"@ || n
                == "trailer"@ || n == "upgrade"@;
            let framing = n == "content-length"@ || n == "transfer-encoding"@;
            &&& goes_upstream(name) <==> !connection && !framing && n != "host"@
            &&& comes_back(name) <==> !connection && !framing
        }),
{
}

/// Headers are kept or dropped one by one, by their names, in their order: those of
/// two lists put together are those of the first and then those of the second, and
/// of a single one it is itself or nothing.
pub proof fn headers_are_kept_in_order(
    a: Seq<(Seq<char>, Seq<u8>)>,
    b: Seq<(Seq<char>, Seq<u8>)>,
    h: (Seq<char>, Seq<u8>),
    keep: spec_fn(Seq<char>) -> bool,
)
    ensures
        kept(a + b, keep) == kept(a, keep) + kept(b, keep),
        keep(h.0) ==> kept(seq![h], keep) == seq![h],
        !keep(h.0) ==> kept(seq![h], keep).len() == 0,
    decreases b.len(),
{
    let none = Seq::<(Seq<char>, Seq<u8>)>::empty();
    assert(seq![h].drop_last() =~= none);
    assert(seq![h].last() == h);
    assert(kept(none, keep) =~= none);
    assert(none.push(h) =~= seq![h]);
    if b.len() == 0 {
        assert(a + b =~= a);
        assert(kept(a, keep) + kept(b, keep) =~= kept(a, keep));
    } else {
        headers_are_kept_in_order(a, b.drop_last(), h, keep);
        assert((a + b).drop_last() =~= a + b.drop_last());
        assert(kept(a + b, keep) =~= kept(a, keep) + kept(b, keep));
    }
}

/// A character as a JSON string holds it: ordinary ones as they are, quotes and
/// backslashes behind a backslash, and never a control character or a quote by
/// itself.
pub proof fn json_text_is_escaped(c: char)
    ensures
        (c as u32) >= 0x20 && c != '"' && c != '\\' ==> json_escape(c) == seq![c],
        c == '"' || c == '\\' ==> json_escape(c) == seq!['\\', c],
        c == '\n' ==> json_escape(c) == seq!['\\', 'n'],
        c == '\r' ==> json_escape(c) == seq!['\\', 'r'],
        c == '\t' ==> json_escape(c) == seq!['\\', 't'],
        (c as u32) < 0x20 ==> json_escape(c).len() >= 2 && json_escape(c)[0] == '\\',
        (c as u32) < 0x20 && c != '\n' && c != '\r' && c != '\t' ==> json_escape(c).subrange(0, 2)
            == seq!['\\', 'u'],
{
    if (c as u32) < 0x20 && c != '\n' && c != '\r' && c != '\t' {
        assert(json_escape(c).subrange(0, 2) =~= seq!['\\', 'u']);
    }
}

/// Escaping goes character by character.
pub proof fn escaping_adds_up(a: Seq<char>, b: Seq<char>)
    ensures
        json_escaped(a + b) == json_escaped(a) + json_escaped(b),
        a.len() == 1 ==> json_escaped(a) == json_escape(a[0]),
    decreases b.len(),
{
    if a.len() == 1 {
        assert(a.drop_last() =~= Seq::empty());
        assert(json_escaped(a.drop_last()) =~= Seq::empty());
        assert(json_escaped(a) =~= json_escape(a[0]));
    }
    if b.len() == 0 {
        assert(a + b =~= a);
        assert(json_escaped(a) + json_escaped(b) =~= json_escaped(a));
    } else {
        escaping_adds_up(a, b.drop_last());
        assert((a + b).drop_last() =~= a + b.drop_last());
        assert(json_escaped(a + b) =~= json_escaped(a) + json_escaped(b));
    }
}

/// The number of crashes of a fingerprint is what was counted for it; one that was
/// never counted has none. Counting one leaves the others as they are.
pub proof fn crashes_are_counted_apart(counts: Map<u64, u32>, s: ProxyState, fp: u64, other: u64)
    requires
        s.counts() == counts.insert(fp, 1),
        other != fp,
    ensures
        s.count(fp) == 1,
        counts.contains_key(other) ==> s.count(other) == counts[other],
        !counts.contains_key(other) ==> s.count(other) == 0,
{
}

/// A request that is given up is told where the daemon was looked for, how often, and
/// what went wrong; one that is refused is told by its fingerprint.
pub proof fn an_end_is_explained(
    p: RetryPolicy,
    port: u16,
    f: Forwarding,
    crashes_before: u32,
    poison_max: u32,
    in_use: int,
    outcome: Outcome,
    nanos: u32,
)
    ensures
        ({
            let a = decided(p, port, f, crashes_before, poison_max, in_use, outcome, nanos);
            &&& a matches ActionView::GiveUp(body) ==> (outcome matches Outcome::Failed {
                error,
                ..
            } && body == "{\"error\":{\"type\":\""@ + "upstream_error"@ + "\",\"message\":"@
                + json_literal(
                "shared gateway on :"@ + dec_text(port as nat) + " unreachable after "@ + dec_text(
                    f.attempt as nat,
                ) + " attempts: "@ + error@,
            ) + "}}"@)
            &&& a matches ActionView::Refuse(confirm, body) ==> {
                &&& confirm == (in_use <= 1)
                &&& body == "{\"error\":{\"type\":\""@ + "poison_refused"@
                    + "\",\"message\":"@ + json_literal(
                    "request "@ + hex_text(f.fp as nat, 16) + " "@ + "keeps crashing the model"@
                        + "; refused for now — retry later (advisory, expires)"@,
                ) + "}}"@
            }
        }),
{
}

/// A text as a JSON string stands between quotes, escaped.
pub proof fn json_text_is_quoted(s: Seq<char>)
    ensures
        json_literal(s) == "\""@ + json_escaped(s) + "\""@,
        json_escaped(Seq::empty()).len() == 0,
{
    reveal_strlit("\"");
    assert("\""@ =~= seq!['"']);
    assert(json_literal(s) =~= "\""@ + json_escaped(s) + "\""@);
}

} // verus!
