//! One request: which way it is decoded, what it may use, and what it builds on.

use crate::mlx_native_backend::config::{Arch, DEFAULT_MAX_TOKENS};
use crate::mlx_native_backend::prefix::{
    best, extends, id_lists, keep_prefix, part, pushed_front, take_prefix, the_best_is_the_longest,
    PrefixStore, Reuse,
};
use crate::models::tenths_text;
use crate::rounding::{gib_tenths, gib_tenths_of, three_quarters, three_quarters_of};
use crate::text::{copy, dec, dec_text};
use vstd::prelude::*;

verus! {

// ---------------------------------------------------------------------------
// Numbers of single precision, as their bits
// ---------------------------------------------------------------------------

/// The bits of 1.0.
pub const ONE: u32 = 0x3f80_0000;

/// The bits of infinity.
pub const INFINITY: u32 = 0x7f80_0000;

/// The bits of -0.0: a number is negative from here on.
pub const SIGN: u32 = 0x8000_0000;

/// The number without its sign.
pub open spec fn magnitude(bits: u32) -> int {
    if bits >= SIGN {
        bits - SIGN
    } else {
        bits as int
    }
}

pub open spec fn is_nan(bits: u32) -> bool {
    magnitude(bits) > INFINITY
}

/// Where a number stands in the order of all numbers; the two zeros stand at one
/// place.
pub open spec fn place(bits: u32) -> int {
    if bits >= SIGN {
        -magnitude(bits)
    } else {
        magnitude(bits)
    }
}

/// The bits stand for zero.
pub fn is_zero(bits: u32) -> (r: bool)
    ensures
        r == (!is_nan(bits) && place(bits) == 0),
{
    bits == 0 || bits == SIGN
}

/// The bits stand for one.
pub fn is_one(bits: u32) -> (r: bool)
    ensures
        r == (!is_nan(bits) && place(bits) == place(ONE)),
{
    bits == ONE
}

/// The bits stand for one or more.
pub fn at_least_one(bits: u32) -> (r: bool)
    ensures
        r == (!is_nan(bits) && place(bits) >= place(ONE)),
{
    ONE <= bits && bits <= INFINITY
}

/// The larger of two numbers; the other one where one is not a number.
pub open spec fn larger_of(a: u32, b: u32) -> u32 {
    if is_nan(a) {
        b
    } else if is_nan(b) || place(a) >= place(b) {
        a
    } else {
        b
    }
}

fn place_of(bits: u32) -> (r: i64)
    ensures
        r == place(bits),
{
    if bits >= SIGN {
        -((bits - SIGN) as i64)
    } else {
        bits as i64
    }
}

fn not_a_number(bits: u32) -> (r: bool)
    ensures
        r == is_nan(bits),
{
    if bits >= SIGN {
        bits - SIGN > INFINITY
    } else {
        bits > INFINITY
    }
}

/// The larger of two numbers; the other one where one is not a number.
pub fn larger(a: u32, b: u32) -> (r: u32)
    ensures
        r == larger_of(a, b),
{
    if not_a_number(a) {
        b
    } else if not_a_number(b) || place_of(a) >= place_of(b) {
        a
    } else {
        b
    }
}

// ---------------------------------------------------------------------------
// Requests
// ---------------------------------------------------------------------------

/// How a request wants to be sampled. The fractions are given by their bits in
/// single precision.
#[derive(Clone, Copy, Debug, PartialEq, Eq, Structural)]
pub struct Sampling {
    pub max_tokens: Option<u32>,
    pub temperature: Option<u32>,
    pub top_p: Option<u32>,
    pub top_k: Option<u32>,
    pub repeat_penalty: Option<u32>,
    pub seed: Option<u64>,
    /// The answer must follow a schema.
    pub response_schema: bool,
}

/// What is decided on in a request.
#[derive(Clone, Copy, Debug, PartialEq, Eq, Structural)]
pub struct Job {
    /// The request offers tools.
    pub tools: bool,
    pub sampling: Sampling,
}

pub open spec fn bits_or(v: Option<u32>, default: u32) -> u32 {
    match v {
        Some(b) => b,
        None => default,
    }
}

fn or_default(v: Option<u32>, default: u32) -> (r: u32)
    ensures
        r == bits_or(v, default),
{
    match v {
        Some(b) => b,
        None => default,
    }
}

/// A repetition penalty of one is none.
pub open spec fn unpenalised(s: Sampling) -> bool {
    let p = bits_or(s.repeat_penalty, ONE);
    !is_nan(p) && place(p) == place(ONE)
}

/// The number that a sampler takes for the count of candidates: the same bits
/// with a sign.
pub open spec fn signed(k: u32) -> int {
    if k >= SIGN {
        k - 0x1_0000_0000
    } else {
        k as int
    }
}

fn to_signed(k: u32) -> (r: i32)
    ensures
        r == signed(k),
{
    if k >= SIGN {
        (k as i64 - 0x1_0000_0000) as i32
    } else {
        k as i32
    }
}

/// How a row of a batch is sampled: temperature and share by their bits.
#[derive(Clone, Copy, Debug, PartialEq, Eq, Structural)]
pub struct RowSampling {
    pub temperature: u32,
    pub top_k: i32,
    pub top_p: u32,
}

/// A request that the tool schemas constrain.
pub open spec fn constrained_by_tools(job: Job, constrain: bool, arch: Arch) -> bool {
    constrain && job.tools && (arch.dense() || arch.hybrid())
}

/// A request that a response schema constrains.
pub open spec fn constrained_by_schema(job: Job, arch: Arch) -> bool {
    job.sampling.response_schema && (arch.dense() || arch.hybrid())
}

pub open spec fn joins_batch(job: Job, constrain: bool) -> bool {
    &&& !(constrain && job.tools)
    &&& !job.sampling.response_schema
    &&& unpenalised(job.sampling)
    &&& job.sampling.seed is None
}

/// Every choice is the most likely token, and nothing sways it.
pub open spec fn greedy(s: Sampling) -> bool {
    let t = bits_or(s.temperature, 0);
    let p = bits_or(s.top_p, ONE);
    &&& !is_nan(t) && place(t) == 0
    &&& !is_nan(p) && place(p) >= place(ONE)
    &&& bits_or(s.top_k, 0) == 0
    &&& unpenalised(s)
    &&& s.seed is None
}

pub open spec fn speculative(job: Job, constrain: bool, target: Arch, draft: Arch) -> bool {
    &&& target.speculates()
    &&& draft.speculates()
    &&& greedy(job.sampling)
    &&& !constrained_by_tools(job, constrain, target)
    &&& !job.sampling.response_schema
}

fn is_unpenalised(s: &Sampling) -> (r: bool)
    ensures
        r == unpenalised(*s),
{
    is_one(or_default(s.repeat_penalty, ONE))
}

/// Whether the tool schemas constrain a request.
pub fn should_constrain(job: &Job, constrain: bool, arch: Arch) -> (r: bool)
    ensures
        r == constrained_by_tools(*job, constrain, arch),
{
    constrain && job.tools && (arch.is_dense() || arch.is_hybrid())
}

/// Whether a request can be decoded together with others: it needs no history of
/// its own, no seed of its own, and no constraint.
pub fn is_batchable(job: &Job, constrain: bool) -> (r: bool)
    ensures
        r == joins_batch(*job, constrain),
{
    !(constrain && job.tools) && !job.sampling.response_schema && is_unpenalised(&job.sampling)
        && job.sampling.seed.is_none()
}

/// Whether a request always takes the most likely token.
pub fn is_greedy_request(s: &Sampling) -> (r: bool)
    ensures
        r == greedy(*s),
{
    is_zero(or_default(s.temperature, 0)) && at_least_one(or_default(s.top_p, ONE)) && or_default(
        s.top_k,
        0,
    ) == 0 && is_unpenalised(s) && s.seed.is_none()
}

/// Whether a request is decoded speculatively: it is greedy and nothing
/// constrains it.
pub fn spec_job_eligible(job: &Job, constrain: bool, target: Arch, draft: Arch) -> (r: bool)
    ensures
        r == speculative(*job, constrain, target, draft),
{
    target.can_speculate() && draft.can_speculate() && is_greedy_request(&job.sampling)
        && !should_constrain(job, constrain, target) && !job.sampling.response_schema
}

/// How a row of a batch is sampled: greedily and without filters where the request
/// does not say.
pub fn sampling_of(s: &Sampling) -> (r: RowSampling)
    ensures
        r.temperature == bits_or(s.temperature, 0),
        r.top_k == signed(bits_or(s.top_k, 0)),
        r.top_p == bits_or(s.top_p, ONE),
{
    RowSampling {
        temperature: or_default(s.temperature, 0),
        top_k: to_signed(or_default(s.top_k, 0)),
        top_p: or_default(s.top_p, ONE),
    }
}

/// Which way a request is decoded on its own.
#[derive(Clone, Copy, Debug, PartialEq, Eq, Structural)]
pub enum Route {
    /// Under the schemas of the tools.
    ToolConstraint,
    /// Under the schema of the response.
    ResponseConstraint,
    /// Freely.
    Plain,
}

pub open spec fn route_of(job: Job, constrain: bool, arch: Arch) -> Route {
    if constrained_by_tools(job, constrain, arch) {
        Route::ToolConstraint
    } else if constrained_by_schema(job, arch) {
        Route::ResponseConstraint
    } else {
        Route::Plain
    }
}

/// Which way a request is decoded on its own.
pub fn route(job: &Job, constrain: bool, arch: Arch) -> (r: Route)
    ensures
        r == route_of(*job, constrain, arch),
{
    if should_constrain(job, constrain, arch) {
        Route::ToolConstraint
    } else if job.sampling.response_schema && (arch.is_dense() || arch.is_hybrid()) {
        Route::ResponseConstraint
    } else {
        Route::Plain
    }
}

// ---------------------------------------------------------------------------
// Budgets
// ---------------------------------------------------------------------------

/// The tokens that a request gets: what it asks for or a default, and no more
/// than the ceiling, where there is one.
pub open spec fn budget_of(max_tokens: Option<u32>, ceiling: int) -> int {
    let want = match max_tokens {
        Some(m) => m as int,
        None => DEFAULT_MAX_TOKENS as int,
    };
    if ceiling == 0 || want < ceiling {
        want
    } else {
        ceiling
    }
}

/// The tokens that a request gets.
pub fn output_budget(max_tokens: Option<u32>, ceiling: usize) -> (r: usize)
    ensures
        r == budget_of(max_tokens, ceiling as int),
{
    let want: usize = match max_tokens {
        Some(m) => m as usize,
        None => DEFAULT_MAX_TOKENS,
    };
    if ceiling == 0 || want < ceiling {
        want
    } else {
        ceiling
    }
}

/// Bytes of cache that so many positions take; the largest number where they
/// cannot be counted.
pub open spec fn cache_needed(kv: int, positions: int) -> int {
    if kv * positions <= u64::MAX {
        kv * positions
    } else {
        u64::MAX as int
    }
}

/// The cache of a request does not fit in what is available of the memory.
pub open spec fn too_large(
    kv: Option<u64>,
    available: Option<u64>,
    prompt_len: int,
    max_tokens: int,
) -> bool {
    match (kv, available) {
        (Some(k), Some(a)) => cache_needed(k as int, prompt_len + max_tokens) > three_quarters_of(
            a as nat,
        ),
        _ => false,
    }
}

/// What is said of a request that does not fit.
pub open spec fn too_large_text(kv: u64, available: u64, prompt_len: int, max_tokens: int) -> Seq<
    char,
> {
    let needed = cache_needed(kv as int, prompt_len + max_tokens);
    let budget = three_quarters_of(available as nat);
    "mlx: context too large for available memory: "@ + dec_text(prompt_len as nat) + " prompt + "@
        + dec_text(max_tokens as nat) + " gen tokens need ~"@ + tenths_text(
        gib_tenths_of(needed as nat),
    ) + " GB of KV cache but only ~"@ + tenths_text(gib_tenths_of(budget))
        + " GB is free. Lower --n-ctx / max_tokens or shorten the prompt (fits ~"@ + dec_text(
        (budget as int / (if kv == 0 {
            1int
        } else {
            kv as int
        })) as nat,
    ) + " tokens now)."@
}

fn push_tenths(out: &mut String, n: u64)
    ensures
        final(out)@ == old(out)@ + tenths_text(n as nat),
{
    out.append(dec(n / 10).as_str());
    out.append(".");
    out.append(dec(n % 10).as_str());
    assert(out@ =~= old(out)@ + tenths_text(n as nat));
}

/// Whether the cache of a request fits in three quarters of the memory that is
/// available; a request that does not fit is refused before anything runs. Where
/// either number is unknown nothing is refused.
pub fn kv_preflight(
    kv: Option<u64>,
    available: Option<u64>,
    prompt_len: usize,
    max_tokens: usize,
) -> (r: Result<(), String>)
    requires
        prompt_len + max_tokens <= usize::MAX,
    ensures
        r is Err <==> too_large(kv, available, prompt_len as int, max_tokens as int),
        r matches Err(e) ==> e@ == too_large_text(
            kv->Some_0,
            available->Some_0,
            prompt_len as int,
            max_tokens as int,
        ),
{
    let k = match kv {
        Some(k) => k,
        None => {
            return Ok(());
        },
    };
    let a = match available {
        Some(a) => a,
        None => {
            return Ok(());
        },
    };
    let positions = (prompt_len + max_tokens) as u64;
    let needed: u64 = match k.checked_mul(positions) {
        Some(n) => n,
        None => u64::MAX,
    };
    let budget = three_quarters(a);
    if needed <= budget {
        return Ok(());
    }
    let fit: u64 = if k == 0 {
        budget
    } else {
        budget / k
    };
    let mut out = copy("mlx: context too large for available memory: ");
    out.append(dec(prompt_len as u64).as_str());
    out.append(" prompt + ");
    out.append(dec(max_tokens as u64).as_str());
    out.append(" gen tokens need ~");
    push_tenths(&mut out, gib_tenths(needed));
    out.append(" GB of KV cache but only ~");
    push_tenths(&mut out, gib_tenths(budget));
    out.append(" GB is free. Lower --n-ctx / max_tokens or shorten the prompt (fits ~");
    out.append(dec(fit).as_str());
    out.append(" tokens now).");
    Err(out)
}

/// Where the conversation ends in a prompt: where the prompt without its tail
/// ends, which only starts the answer and does not recur. All of the prompt where
/// that is unknown.
pub open spec fn boundary(prompt_len: int, without_tail: Option<usize>) -> int {
    match without_tail {
        Some(n) => if n < prompt_len {
            n as int
        } else {
            prompt_len
        },
        None => prompt_len,
    }
}

/// The temperature that is sampled at. A harmony model is never sampled colder
/// than `floor`: it would fall into loops.
pub open spec fn temperature_of(s: Sampling, arch: Arch, floor: u32) -> u32 {
    let t = bits_or(s.temperature, 0);
    if arch is GptOss {
        larger_of(t, floor)
    } else {
        t
    }
}

/// What the environment says of requests.
#[derive(Clone, Copy, Debug, PartialEq, Eq, Structural)]
pub struct JobSettings {
    /// The most tokens that a request gets; no limit for zero.
    pub ceiling: usize,
    /// Caches are reused.
    pub reuse: bool,
    /// The coldest temperature of a harmony model.
    pub temperature_floor: u32,
    /// Bytes that the cache grows by with each position.
    pub kv_per_pos: Option<u64>,
    /// Memory that is available.
    pub available: Option<u64>,
}

/// All that it takes to decode a request.
pub struct JobPlan<D, H> {
    pub prompt: Vec<u32>,
    /// Where the conversation ends in the prompt.
    pub conv_len: usize,
    pub max_tokens: usize,
    pub temperature: u32,
    pub top_p: u32,
    pub top_k: i32,
    pub repeat_penalty: u32,
    pub seed: Option<u64>,
    /// The output is in the channels of the harmony format.
    pub harmony: bool,
    /// What the prompt builds on.
    pub reuse: Reuse<D, H>,
}

impl<D, H> JobPlan<D, H> {
    pub open spec fn wf(&self) -> bool {
        &&& self.conv_len <= self.prompt@.len()
        &&& self.reuse.reuse_len <= self.prompt@.len()
    }

    /// The tokens that are left to read.
    pub fn suffix(&self) -> (r: Vec<u32>)
        requires
            self.wf(),
        ensures
            r@ == self.prompt@.subrange(
                self.reuse.reuse_len as int,
                self.prompt@.len() as int,
            ),
    {
        part(&self.prompt, self.reuse.reuse_len, self.prompt.len())
    }

    /// The tokens of the tail that only starts the answer.
    pub fn gen_prompt_len(&self) -> (r: usize)
        requires
            self.wf(),
        ensures
            r == self.prompt@.len() - self.conv_len,
    {
        self.prompt.len() - self.conv_len
    }
}

/// Plans a request whose prompt was rendered: refuses it where it does not fit,
/// else finds what it builds on.
pub fn plan_job<D, H>(
    store: &mut PrefixStore<D, H>,
    arch: Arch,
    sampling: &Sampling,
    settings: &JobSettings,
    prompt: Vec<u32>,
    without_tail: Option<usize>,
) -> (r: Result<JobPlan<D, H>, String>)
    requires
        old(store).wf(),
        prompt@.len() + budget_of(sampling.max_tokens, settings.ceiling as int) <= usize::MAX,
    ensures
        final(store).wf(),
        final(store).cap == old(store).cap,
        ({
            let max = budget_of(sampling.max_tokens, settings.ceiling as int);
            let refused = too_large(
                settings.kv_per_pos,
                settings.available,
                prompt@.len() as int,
                max,
            );
            match r {
                Err(e) => {
                    &&& refused
                    &&& e@ == too_large_text(
                        settings.kv_per_pos->Some_0,
                        settings.available->Some_0,
                        prompt@.len() as int,
                        max,
                    )
                    &&& *final(store) == *old(store)
                },
                Ok(p) => {
                    &&& !refused
                    &&& p.wf()
                    &&& p.prompt@ == prompt@
                    &&& p.conv_len == boundary(prompt@.len() as int, without_tail)
                    &&& p.max_tokens == max
                    &&& p.temperature == temperature_of(
                        *sampling,
                        arch,
                        settings.temperature_floor,
                    )
                    &&& p.top_p == bits_or(sampling.top_p, ONE)
                    &&& p.top_k == signed(bits_or(sampling.top_k, 0))
                    &&& p.repeat_penalty == bits_or(sampling.repeat_penalty, ONE)
                    &&& p.seed == sampling.seed
                    &&& p.harmony == (arch is GptOss)
                    &&& planned_reuse(*old(store), *final(store), arch, settings.reuse, prompt@, p.reuse)
                },
            }
        }),
{
    let max_tokens = output_budget(sampling.max_tokens, settings.ceiling);
    match kv_preflight(settings.kv_per_pos, settings.available, prompt.len(), max_tokens) {
        Ok(_) => {},
        Err(e) => {
            return Err(e);
        },
    }
    let conv_len: usize = match without_tail {
        Some(n) => if n < prompt.len() {
            n
        } else {
            prompt.len()
        },
        None => prompt.len(),
    };
    let asked = or_default(sampling.temperature, 0);
    let harmony = match arch {
        Arch::GptOss => true,
        _ => false,
    };
    let temperature = if harmony {
        larger(asked, settings.temperature_floor)
    } else {
        asked
    };
    let reuse = take_prefix(store, arch, settings.reuse, &prompt);
    Ok(
        JobPlan {
            prompt,
            conv_len,
            max_tokens,
            temperature,
            top_p: or_default(sampling.top_p, ONE),
            top_k: to_signed(or_default(sampling.top_k, 0)),
            repeat_penalty: or_default(sampling.repeat_penalty, ONE),
            seed: sampling.seed,
            harmony,
            reuse,
        },
    )
}

/// What a prompt builds on, and what is left in the store: the longest
/// conversation of the model's kind that the prompt goes on with is taken out.
pub open spec fn planned_reuse<D, H>(
    before: PrefixStore<D, H>,
    after: PrefixStore<D, H>,
    arch: Arch,
    enabled: bool,
    prompt: Seq<u32>,
    r: Reuse<D, H>,
) -> bool {
    if !enabled {
        r.reuse_len == 0 && r.dense is None && r.hybrid is None && after == before
    } else if arch.reuses_dense() {
        &&& r.hybrid is None
        &&& after.hybrid_ids@ == before.hybrid_ids@
        &&& after.hybrid@ == before.hybrid@
        &&& match best(id_lists(before.dense_ids@), prompt) {
            Some(i) => {
                &&& r.reuse_len == before.dense_ids@[i]@.len()
                &&& r.dense == Some(before.dense@[i])
                &&& after.dense_ids@ == before.dense_ids@.remove(i)
                &&& after.dense@ == before.dense@.remove(i)
            },
            None => {
                &&& r.reuse_len == 0
                &&& r.dense is None
                &&& after.dense_ids@ == before.dense_ids@
                &&& after.dense@ == before.dense@
            },
        }
    } else {
        &&& r.dense is None
        &&& after.dense_ids@ == before.dense_ids@
        &&& after.dense@ == before.dense@
        &&& match best(id_lists(before.hybrid_ids@), prompt) {
            Some(i) => {
                &&& r.reuse_len == before.hybrid_ids@[i]@.len()
                &&& r.hybrid == Some(before.hybrid@[i])
                &&& after.hybrid_ids@ == before.hybrid_ids@.remove(i)
                &&& after.hybrid@ == before.hybrid@.remove(i)
            },
            None => {
                &&& r.reuse_len == 0
                &&& r.hybrid is None
                &&& after.hybrid_ids@ == before.hybrid_ids@
                &&& after.hybrid@ == before.hybrid@
            },
        }
    }
}

/// The request was decoded: keeps the cache of its conversation, if there is one.
pub fn finish_job<D, H>(
    store: &mut PrefixStore<D, H>,
    arch: Arch,
    settings: &JobSettings,
    plan: &JobPlan<D, H>,
    dense: Option<D>,
    hybrid: Option<H>,
)
    requires
        old(store).wf(),
        plan.wf(),
    ensures
        final(store).wf(),
        final(store).cap == old(store).cap,
        ({
            let conversation = plan.prompt@.subrange(0, plan.conv_len as int);
            let cap = old(store).cap as int;
            if settings.reuse && arch.reuses_dense() && dense is Some {
                &&& id_lists(final(store).dense_ids@) == pushed_front(
                    id_lists(old(store).dense_ids@),
                    conversation,
                    cap,
                )
                &&& final(store).dense@ == pushed_front(old(store).dense@, dense->Some_0, cap)
                &&& final(store).hybrid_ids@ == old(store).hybrid_ids@
                &&& final(store).hybrid@ == old(store).hybrid@
            } else if settings.reuse && hybrid is Some {
                &&& id_lists(final(store).hybrid_ids@) == pushed_front(
                    id_lists(old(store).hybrid_ids@),
                    conversation,
                    cap,
                )
                &&& final(store).hybrid@ == pushed_front(old(store).hybrid@, hybrid->Some_0, cap)
                &&& final(store).dense_ids@ == old(store).dense_ids@
                &&& final(store).dense@ == old(store).dense@
            } else {
                *final(store) == *old(store)
            }
        }),
{
    keep_prefix(store, arch, settings.reuse, &plan.prompt, plan.conv_len, dense, hybrid);
}

// ---------------------------------------------------------------------------
// Laws
// ---------------------------------------------------------------------------

/// A request gets no more than the ceiling, where there is one, and no more than
/// it asks for.
pub proof fn output_is_bounded(max_tokens: Option<u32>, ceiling: int)
    requires
        ceiling >= 0,
    ensures
        ceiling > 0 ==> budget_of(max_tokens, ceiling) <= ceiling,
        max_tokens matches Some(m) ==> budget_of(max_tokens, ceiling) <= m,
        max_tokens matches Some(m) ==> ceiling == 0 ==> budget_of(max_tokens, ceiling) == m,
{
}

/// A schema is always honoured: a request with one is neither put in a batch nor
/// decoded speculatively, and is constrained on every model that can be.
pub proof fn schemas_are_honoured(job: Job, constrain: bool, arch: Arch, draft: Arch)
    requires
        job.sampling.response_schema,
    ensures
        !joins_batch(job, constrain),
        !speculative(job, constrain, arch, draft),
        arch.dense() || arch.hybrid() ==> route_of(job, constrain, arch) != Route::Plain,
{
}

/// A request with tools is constrained wherever constraints are on and the model
/// can be, and is then kept out of batches and of speculation.
pub proof fn tools_are_constrained(job: Job, arch: Arch, draft: Arch)
    requires
        job.tools,
    ensures
        arch.dense() || arch.hybrid() ==> route_of(job, true, arch) == Route::ToolConstraint,
        !joins_batch(job, true),
        arch.dense() || arch.hybrid() ==> !speculative(job, true, arch, draft),
{
}

/// The harmony models, whose calls are not in envelopes, are never constrained.
pub proof fn harmony_is_never_constrained(job: Job, constrain: bool)
    ensures
        route_of(job, constrain, Arch::GptOss) == Route::Plain,
{
}

/// A request that fits leaves a quarter of the memory alone.
pub proof fn what_fits_leaves_room(kv: u64, a: u64, prompt_len: int, max_tokens: int)
    requires
        prompt_len >= 0,
        max_tokens >= 0,
        a < 0x8_0000_0000_0000,
        !too_large(Some(kv), Some(a), prompt_len, max_tokens),
    ensures
        4 * (kv * (prompt_len + max_tokens)) <= 3 * a,
{
    crate::rounding::small_numbers_are_doubles(a as nat);
    crate::rounding::small_numbers_are_doubles((3 * a) as nat);
}

/// The order of the bits is the order of the numbers: without a sign a larger
/// number has larger bits, with a sign smaller ones, and the two zeros are one.
pub proof fn bits_are_ordered(a: u32, b: u32)
    ensures
        a < 0x8000_0000 && b < 0x8000_0000 ==> (place(a) < place(b) <==> a < b),
        a >= 0x8000_0000 && b >= 0x8000_0000 ==> (place(a) < place(b) <==> a > b),
        a >= 0x8000_0000 && b < 0x8000_0000 ==> place(a) <= place(b),
        place(0x8000_0000) == place(0),
        a >= 0x8000_0000 && b < 0x8000_0000 && place(a) == place(b) ==> place(a) == 0,
        is_nan(a) <==> (0x7f80_0000 < a < 0x8000_0000 || 0xff80_0000 < a),
{
}

/// The larger of two numbers is one of them, and neither is above it; where one is
/// not a number it is the other.
pub proof fn the_larger_is_not_below(a: u32, b: u32)
    ensures
        larger_of(a, b) == a || larger_of(a, b) == b,
        !is_nan(a) && !is_nan(b) ==> place(larger_of(a, b)) >= place(a) && place(larger_of(a, b))
            >= place(b),
        is_nan(a) ==> larger_of(a, b) == b,
        is_nan(b) && !is_nan(a) ==> larger_of(a, b) == a,
{
}

/// What a request says is used; where it says nothing it is greedy, without a filter
/// and without a penalty.
pub proof fn a_request_is_greedy_unless_it_says(s: Sampling, t: u32)
    ensures
        s.temperature is None && s.top_p is None && s.top_k is None && s.repeat_penalty is None
            && s.seed is None ==> greedy(s) && unpenalised(s),
        s.temperature == Some(t) && t != 0 && t != 0x8000_0000 ==> !greedy(s),
        s.top_k matches Some(k) ==> (k > 0 ==> !greedy(s)),
        s.seed is Some ==> !greedy(s),
        s.repeat_penalty == Some(t) && t != 0x3f80_0000 ==> !greedy(s) && !unpenalised(s),
        s.top_p == Some(t) && t < 0x3f80_0000 ==> !greedy(s),
        bits_or(Some(t), 7) == t,
        bits_or(None, t) == t,
{
}

/// A request joins a batch unless it needs something of its own: a constraint, a
/// penalty or a seed.
pub proof fn a_plain_request_joins_a_batch(job: Job, constrain: bool)
    ensures
        !job.sampling.response_schema && job.sampling.repeat_penalty is None && job.sampling.seed is None
            && (!constrain || !job.tools) ==> joins_batch(job, constrain),
        job.sampling.seed is Some ==> !joins_batch(job, constrain),
        job.sampling.repeat_penalty matches Some(p) ==> (p != 0x3f80_0000 ==> !joins_batch(
            job,
            constrain,
        )),
{
}

/// A greedy request without a constraint is speculated on where both models can; any
/// other is not.
pub proof fn a_greedy_request_is_speculated_on(job: Job, constrain: bool, target: Arch, draft: Arch)
    ensures
        greedy(job.sampling) && !job.tools && !job.sampling.response_schema && target.speculates()
            && draft.speculates() ==> speculative(job, constrain, target, draft),
        !greedy(job.sampling) || !target.speculates() || !draft.speculates() ==> !speculative(
            job,
            constrain,
            target,
            draft,
        ),
{
}

/// A request goes freely where nothing constrains it; without tools, or with
/// constraints off, the tools constrain nothing.
pub proof fn a_free_request_goes_freely(job: Job, constrain: bool, arch: Arch)
    ensures
        !job.sampling.response_schema && (!job.tools || !constrain) ==> route_of(
            job,
            constrain,
            arch,
        ) is Plain,
        !job.tools || !constrain ==> !(route_of(job, constrain, arch) is ToolConstraint),
        job.sampling.response_schema && (!job.tools || !constrain) && (arch.dense() || arch.hybrid())
            ==> route_of(job, constrain, arch) is ResponseConstraint,
{
}

/// A request gets what it asks for, or the default, unless the ceiling is lower.
pub proof fn a_request_gets_what_it_asks_for(asked: u32, ceiling: int)
    requires
        ceiling >= 0,
    ensures
        ceiling == 0 || asked <= ceiling ==> budget_of(Some(asked), ceiling) == asked,
        0 < ceiling < asked ==> budget_of(Some(asked), ceiling) == ceiling,
        budget_of(None, 0) == DEFAULT_MAX_TOKENS,
        0 < ceiling <= DEFAULT_MAX_TOKENS ==> budget_of(None, ceiling) == ceiling,
{
}

/// The cache of a request takes its bytes for every position, read or written; one
/// that takes more than three quarters of the memory is too large, and where either
/// is unknown none is.
pub proof fn what_does_not_fit_is_too_large(kv: u64, a: u64, prompt_len: int, max_tokens: int)
    requires
        prompt_len >= 0,
        max_tokens >= 0,
        a < 0x8_0000_0000_0000,
    ensures
        4 * (kv * (prompt_len + max_tokens)) > 3 * a ==> too_large(
            Some(kv),
            Some(a),
            prompt_len,
            max_tokens,
        ),
        !too_large(None, Some(a), prompt_len, max_tokens),
        !too_large(Some(kv), None, prompt_len, max_tokens),
        kv * (prompt_len + max_tokens) <= u64::MAX ==> cache_needed(
            kv as int,
            prompt_len + max_tokens,
        ) == kv * (prompt_len + max_tokens),
{
    crate::rounding::small_numbers_are_doubles(a as nat);
    crate::rounding::small_numbers_are_doubles((3 * a) as nat);
}

/// The conversation ends where the prompt without its tail does, and never behind
/// the prompt; all of the prompt is the conversation where that is unknown.
pub proof fn the_conversation_ends_before_its_tail(prompt_len: int, n: usize)
    requires
        prompt_len >= 0,
    ensures
        boundary(prompt_len, None) == prompt_len,
        n <= prompt_len ==> boundary(prompt_len, Some(n)) == n,
        n > prompt_len ==> boundary(prompt_len, Some(n)) == prompt_len,
{
}

/// A request is sampled at the temperature it asks for; a harmony model never below
/// its floor.
pub proof fn the_temperature_is_what_was_asked_for(s: Sampling, arch: Arch, floor: u32, t: u32)
    requires
        s.temperature == Some(t),
    ensures
        !(arch is GptOss) ==> temperature_of(s, arch, floor) == t,
        arch is GptOss && !is_nan(t) && !is_nan(floor) ==> place(temperature_of(s, arch, floor))
            >= place(floor) && place(temperature_of(s, arch, floor)) >= place(t) && (
        temperature_of(s, arch, floor) == t || temperature_of(s, arch, floor) == floor),
{
}

/// A count of candidates keeps its bits.
pub proof fn counts_keep_their_bits(k: u32)
    ensures
        k < 0x8000_0000 ==> signed(k) == k,
        k >= 0x8000_0000 ==> signed(k) == k - 0x1_0000_0000 && signed(k) < 0,
{
}

/// A request that does not fit is told how long it is, what it needs, what is free,
/// and how much would fit.
pub proof fn what_does_not_fit_is_told(kv: u64, available: u64, prompt_len: int, max_tokens: int)
    requires
        prompt_len >= 0,
        max_tokens >= 0,
        kv > 0,
    ensures
        too_large_text(kv, available, prompt_len, max_tokens)
            == "mlx: context too large for available memory: "@ + dec_text(prompt_len as nat)
            + " prompt + "@ + dec_text(max_tokens as nat) + " gen tokens need ~"@ + tenths_text(
            gib_tenths_of(cache_needed(kv as int, prompt_len + max_tokens) as nat),
        ) + " GB of KV cache but only ~"@ + tenths_text(
            gib_tenths_of(three_quarters_of(available as nat)),
        ) + " GB is free. Lower --n-ctx / max_tokens or shorten the prompt (fits ~"@ + dec_text(
            (three_quarters_of(available as nat) as int / kv as int) as nat,
        ) + " tokens now)."@,
{
}

/// What a prompt is built on is the longest conversation of its kind that it goes on
/// with: that one leaves the store, and all others stay as they are.
pub proof fn a_prompt_is_built_on_the_longest<D, H>(
    before: PrefixStore<D, H>,
    after: PrefixStore<D, H>,
    arch: Arch,
    prompt: Seq<u32>,
    r: Reuse<D, H>,
    k: int,
)
    requires
        before.wf(),
        planned_reuse(before, after, arch, true, prompt, r),
    ensures
        arch.reuses_dense() ==> {
            &&& r.hybrid is None && after.hybrid_ids@ == before.hybrid_ids@ && after.hybrid@
                == before.hybrid@
            &&& after.dense@.len() == after.dense_ids@.len()
            &&& r.dense is Some ==> r.reuse_len < prompt.len() && after.dense@.len() + 1
                == before.dense@.len()
            &&& r.dense is None ==> r.reuse_len == 0 && after.dense@ == before.dense@
                && after.dense_ids@ == before.dense_ids@
            &&& 0 <= k < before.dense@.len() && extends(prompt, before.dense_ids@[k]@)
                ==> r.dense is Some && r.reuse_len >= before.dense_ids@[k]@.len()
            &&& r.dense matches Some(d) ==> exists|i: int|
                0 <= i < before.dense@.len() && d == #[trigger] before.dense@[i] && r.reuse_len
                    == before.dense_ids@[i]@.len() && extends(prompt, before.dense_ids@[i]@)
                    && after.dense@ == before.dense@.remove(i)
        },
        !arch.reuses_dense() ==> {
            &&& r.dense is None && after.dense_ids@ == before.dense_ids@ && after.dense@
                == before.dense@
            &&& after.hybrid@.len() == after.hybrid_ids@.len()
            &&& r.hybrid is Some ==> r.reuse_len < prompt.len() && after.hybrid@.len() + 1
                == before.hybrid@.len()
            &&& r.hybrid is None ==> r.reuse_len == 0 && after.hybrid@ == before.hybrid@
                && after.hybrid_ids@ == before.hybrid_ids@
            &&& 0 <= k < before.hybrid@.len() && extends(prompt, before.hybrid_ids@[k]@)
                ==> r.hybrid is Some && r.reuse_len >= before.hybrid_ids@[k]@.len()
            &&& r.hybrid matches Some(d) ==> exists|i: int|
                0 <= i < before.hybrid@.len() && d == #[trigger] before.hybrid@[i] && r.reuse_len
                    == before.hybrid_ids@[i]@.len() && extends(prompt, before.hybrid_ids@[i]@)
                    && after.hybrid@ == before.hybrid@.remove(i)
        },
{
    if arch.reuses_dense() {
        let l = id_lists(before.dense_ids@);
        the_best_is_the_longest(l, prompt);
        if 0 <= k < l.len() {
            assert(l[k] == before.dense_ids@[k]@);
        }
        if let Some(i) = best(l, prompt) {
            assert(l[i] == before.dense_ids@[i]@);
            assert(before.dense@.remove(i).len() + 1 == before.dense@.len());
            assert(r.dense == Some(before.dense@[i]));
        }
    } else {
        let l = id_lists(before.hybrid_ids@);
        the_best_is_the_longest(l, prompt);
        if 0 <= k < l.len() {
            assert(l[k] == before.hybrid_ids@[k]@);
        }
        if let Some(i) = best(l, prompt) {
            assert(l[i] == before.hybrid_ids@[i]@);
            assert(before.hybrid@.remove(i).len() + 1 == before.hybrid@.len());
            assert(r.hybrid == Some(before.hybrid@[i]));
        }
    }
}

/// Calls are constrained only where that is wanted, where there are tools to call, and
/// where the model writes its calls in envelopes; a schema constrains wherever the
/// model can be constrained.
pub proof fn what_can_be_constrained_is(job: Job, arch: Arch)
    ensures
        !constrained_by_tools(job, false, arch),
        !job.tools ==> !constrained_by_tools(job, true, arch),
        arch is GptOss ==> !constrained_by_tools(job, true, arch) && !constrained_by_schema(
            job,
            arch,
        ),
        job.tools && (arch is Qwen2 || arch is Qwen3 || arch is Qwen3Moe || arch is Llama
            || arch is Qwen35 || arch is Qwen35Moe) ==> constrained_by_tools(job, true, arch),
        !job.sampling.response_schema ==> !constrained_by_schema(job, arch),
        job.sampling.response_schema && (arch is Qwen2 || arch is Qwen3 || arch is Qwen3Moe
            || arch is Llama || arch is Qwen35 || arch is Qwen35Moe) ==> constrained_by_schema(
            job,
            arch,
        ),
{
}

} // verus!
