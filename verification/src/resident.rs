//! Adaptive, memory-gated model residency.
//!
//! Decides which models stay loaded: the most useful that fit, always with the
//! requested one; the rest, idle ones only, are evicted. A model too big to
//! co-reside falls back to a swap.

use crate::text::{comes_before, copy, lex_less, lex_less_is_a_strict_order, same, views};
use vstd::prelude::*;

verus! {

// ---------------------------------------------------------------------------
// Usage
// ---------------------------------------------------------------------------

/// Usage of a model, which decides whether it is kept warm.
#[derive(Clone, Copy, Debug)]
pub struct ModelUsage {
    /// Times the model was requested.
    pub count: u64,
    /// Last request, in unix seconds.
    pub last_used: u64,
    /// Resident weight in bytes, the latest seen.
    pub weight_bytes: u64,
}

impl Default for ModelUsage {
    fn default() -> (r: Self)
        ensures
            r == unused(),
    {
        ModelUsage { count: 0, last_used: 0, weight_bytes: 0 }
    }
}

/// The usage of a model that was never requested.
pub open spec fn unused() -> ModelUsage {
    ModelUsage { count: 0, last_used: 0, weight_bytes: 0 }
}

/// One request.
pub struct UsageEvent {
    pub model: String,
    pub weight_bytes: u64,
    pub ts: u64,
}

/// `u` after one more request: counted, the latest time kept, the weight taken
/// over where it is known.
pub open spec fn used_once_more(u: ModelUsage, weight_bytes: u64, ts: u64) -> ModelUsage {
    ModelUsage {
        count: (u.count + 1) as u64,
        last_used: if ts > u.last_used {
            ts
        } else {
            u.last_used
        },
        weight_bytes: if weight_bytes > 0 {
            weight_bytes
        } else {
            u.weight_bytes
        },
    }
}

/// Usage by model.
pub struct UsageStats {
    entries: Vec<(String, ModelUsage)>,
}

pub open spec fn usage_of(m: Map<Seq<char>, ModelUsage>, model: Seq<char>) -> ModelUsage {
    if m.contains_key(model) {
        m[model]
    } else {
        unused()
    }
}

/// Usage after one more event.
pub open spec fn folded(
    m: Map<Seq<char>, ModelUsage>,
    model: Seq<char>,
    weight_bytes: u64,
    ts: u64,
) -> Map<Seq<char>, ModelUsage> {
    m.insert(model, used_once_more(usage_of(m, model), weight_bytes, ts))
}

/// Usage after a list of events.
pub open spec fn replayed(m: Map<Seq<char>, ModelUsage>, e: Seq<UsageEvent>) -> Map<
    Seq<char>,
    ModelUsage,
>
    decreases e.len(),
{
    if e.len() == 0 {
        m
    } else {
        folded(replayed(m, e.drop_last()), e.last().model@, e.last().weight_bytes, e.last().ts)
    }
}

pub open spec fn entries_usage(s: Seq<(String, ModelUsage)>) -> Map<Seq<char>, ModelUsage>
    decreases s.len(),
{
    if s.len() == 0 {
        Map::empty()
    } else {
        entries_usage(s.drop_last()).insert(s.last().0@, s.last().1)
    }
}

pub open spec fn distinct_models(s: Seq<(String, ModelUsage)>) -> bool {
    forall|i: int, j: int| 0 <= i < j < s.len() ==> (#[trigger] s[i]).0@ != (#[trigger] s[j]).0@
}

proof fn entries_usage_lookup(s: Seq<(String, ModelUsage)>, model: Seq<char>, at: int)
    requires
        distinct_models(s),
        -1 <= at < s.len(),
        at >= 0 ==> s[at].0@ == model,
        at < 0 ==> forall|j: int| 0 <= j < s.len() ==> (#[trigger] s[j]).0@ != model,
    ensures
        at >= 0 ==> entries_usage(s).contains_key(model) && entries_usage(s)[model] == s[at].1,
        at < 0 ==> !entries_usage(s).contains_key(model),
    decreases s.len(),
{
    if s.len() > 0 {
        let t = s.drop_last();
        assert(forall|j: int| 0 <= j < t.len() ==> #[trigger] t[j] == s[j]);
        if at < s.len() - 1 {
            entries_usage_lookup(t, model, at);
        }
        if at >= 0 && at < s.len() - 1 {
            assert(s[at].0@ != s[s.len() - 1].0@);
        }
    }
}

proof fn entries_usage_update(s: Seq<(String, ModelUsage)>, at: int, u: (String, ModelUsage))
    requires
        distinct_models(s),
        0 <= at < s.len(),
        u.0@ == s[at].0@,
    ensures
        distinct_models(s.update(at, u)),
        entries_usage(s.update(at, u)) == entries_usage(s).insert(u.0@, u.1),
    decreases s.len(),
{
    let w = s.update(at, u);
    assert forall|i: int, j: int| 0 <= i < j < w.len() implies (#[trigger] w[i]).0@ != (
    #[trigger] w[j]).0@ by {
        assert(s[i].0@ != s[j].0@);
    }
    let last = s.len() - 1;
    if at == last {
        assert(w.drop_last() =~= s.drop_last());
        assert(entries_usage(w) =~= entries_usage(s).insert(u.0@, u.1));
    } else {
        assert(w.drop_last() =~= s.drop_last().update(at, u));
        assert(distinct_models(s.drop_last())) by {
            assert(forall|j: int|
                0 <= j < s.drop_last().len() ==> #[trigger] s.drop_last()[j] == s[j]);
        }
        entries_usage_update(s.drop_last(), at, u);
        assert(s[at].0@ != s[last].0@);
        assert(entries_usage(w) =~= entries_usage(s).insert(u.0@, u.1));
    }
}

impl View for UsageStats {
    type V = Map<Seq<char>, ModelUsage>;

    closed spec fn view(&self) -> Map<Seq<char>, ModelUsage> {
        entries_usage(self.entries@)
    }
}

impl UsageStats {
    /// Each model has one entry.
    pub closed spec fn wf(&self) -> bool {
        distinct_models(self.entries@)
    }

    /// No requests yet.
    pub fn in_memory() -> (r: Self)
        ensures
            r.wf(),
            r@ == Map::<Seq<char>, ModelUsage>::empty(),
    {
        UsageStats { entries: Vec::new() }
    }

    fn find(&self, model: &str) -> (r: Option<usize>)
        requires
            self.wf(),
        ensures
            match r {
                Some(i) => i < self.entries@.len() && self.entries@[i as int].0@ == model@
                    && self@.contains_key(model@) && self@[model@] == self.entries@[i as int].1,
                None => !self@.contains_key(model@),
            },
    {
        let mut i: usize = 0;
        while i < self.entries.len()
            invariant
                i <= self.entries.len(),
                self.wf(),
                forall|j: int| 0 <= j < i ==> (#[trigger] self.entries@[j]).0@ != model@,
            decreases self.entries.len() - i,
        {
            if same(self.entries[i].0.as_str(), model) {
                proof {
                    entries_usage_lookup(self.entries@, model@, i as int);
                }
                return Some(i);
            }
            i = i + 1;
        }
        proof {
            entries_usage_lookup(self.entries@, model@, -1);
        }
        None
    }

    /// The usage of a model; that of a model never requested is empty.
    pub fn usage(&self, model: &str) -> (r: ModelUsage)
        requires
            self.wf(),
        ensures
            r == usage_of(self@, model@),
    {
        match self.find(model) {
            Some(i) => self.entries[i].1,
            None => ModelUsage::default(),
        }
    }

    /// Records a request for `model` at `now`, in unix seconds, and gives back
    /// the event that a log keeps of it.
    pub fn record(&mut self, model: &str, weight_bytes: u64, now: u64) -> (r: UsageEvent)
        requires
            old(self).wf(),
            usage_of(old(self)@, model@).count < u64::MAX,
        ensures
            final(self).wf(),
            final(self)@ == folded(old(self)@, model@, weight_bytes, now),
            r.model@ == model@,
            r.weight_bytes == weight_bytes,
            r.ts == now,
    {
        let u = self.usage(model);
        let next = ModelUsage {
            count: u.count + 1,
            last_used: if now > u.last_used {
                now
            } else {
                u.last_used
            },
            weight_bytes: if weight_bytes > 0 {
                weight_bytes
            } else {
                u.weight_bytes
            },
        };
        let ghost before = self.entries@;
        match self.find(model) {
            Some(i) => {
                let entry = (copy(model), next);
                proof {
                    entries_usage_update(before, i as int, entry);
                }
                self.entries.set(i, entry);
            },
            None => {
                self.entries.push((copy(model), next));
                proof {
                    assert(self.entries@.drop_last() =~= before);
                    assert forall|i: int, j: int| 0 <= i < j < self.entries@.len() implies (
                    #[trigger] self.entries@[i]).0@ != (#[trigger] self.entries@[j]).0@ by {
                        if j == before.len() && before[i].0@ == model@ {
                            entries_usage_lookup(before, model@, i);
                        }
                    }
                }
            },
        }
        UsageEvent { model: copy(model), weight_bytes, ts: now }
    }

    /// Replays a log of requests.
    pub fn replay(&mut self, log: &Vec<UsageEvent>)
        requires
            old(self).wf(),
            forall|i: int, m: Seq<char>|
                #![trigger usage_of(replayed(old(self)@, log@.subrange(0, i)), m)]
                0 <= i < log@.len() ==> usage_of(
                    replayed(old(self)@, log@.subrange(0, i)),
                    m,
                ).count < u64::MAX,
        ensures
            final(self).wf(),
            final(self)@ == replayed(old(self)@, log@),
    {
        let mut i: usize = 0;
        assert(log@.subrange(0, 0) =~= Seq::empty());
        while i < log.len()
            invariant
                i <= log.len(),
                self.wf(),
                self@ == replayed(old(self)@, log@.subrange(0, i as int)),
                forall|i: int, m: Seq<char>|
                    #![trigger usage_of(replayed(old(self)@, log@.subrange(0, i)), m)]
                    0 <= i < log@.len() ==> usage_of(
                        replayed(old(self)@, log@.subrange(0, i)),
                        m,
                    ).count < u64::MAX,
            decreases log.len() - i,
        {
            let ghost part = log@.subrange(0, i + 1);
            assert(part.drop_last() =~= log@.subrange(0, i as int));
            let e = &log[i];
            assert(usage_of(replayed(old(self)@, log@.subrange(0, i as int)), e.model@).count
                < u64::MAX);
            let _ = self.record(e.model.as_str(), e.weight_bytes, e.ts);
            i = i + 1;
        }
        assert(log@.subrange(0, i as int) =~= log@);
    }

    /// The resident weight of a model that was last seen, where it is known.
    pub fn weight(&self, model: &str) -> (r: Option<u64>)
        requires
            self.wf(),
        ensures
            r == (if usage_of(self@, model@).weight_bytes > 0 {
                Some(usage_of(self@, model@).weight_bytes)
            } else {
                None
            }),
    {
        let w = self.usage(model).weight_bytes;
        if w > 0 {
            Some(w)
        } else {
            None
        }
    }
}

// ---------------------------------------------------------------------------
// Planning
// ---------------------------------------------------------------------------

/// A model that is resident.
pub struct ResidentInfo {
    pub model: String,
    pub weight_bytes: u64,
    /// Has work in flight and must not be evicted.
    pub busy: bool,
}

/// What is to be done for a request.
#[derive(Debug, PartialEq, Eq)]
pub struct ResidentPlan {
    /// The requested model must be loaded.
    pub load: bool,
    /// Idle residents to evict, lowest utility first.
    pub evict: Vec<String>,
    /// Even with every idle resident evicted the request does not fit beside the
    /// busy ones: the caller must swap or over-subscribe.
    pub oversubscribed: bool,
}

/// A request for a model.
pub struct ResidentRequest<'a> {
    pub requested: &'a str,
    pub requested_weight: u64,
    pub residents: &'a Vec<ResidentInfo>,
    /// Memory for resident weights, in bytes.
    pub budget_bytes: u64,
}

/// The requested model is resident already.
pub open spec fn is_resident(r: Seq<ResidentInfo>, model: Seq<char>) -> bool {
    exists|i: int| 0 <= i < r.len() && (#[trigger] r[i]).model@ == model
}

/// Weight of the busy residents.
pub open spec fn busy_bytes(r: Seq<ResidentInfo>) -> int
    decreases r.len(),
{
    if r.len() == 0 {
        0
    } else {
        busy_bytes(r.drop_last()) + (if r.last().busy {
            r.last().weight_bytes as int
        } else {
            0
        })
    }
}

/// Weight of all residents.
pub open spec fn resident_bytes(r: Seq<ResidentInfo>) -> int
    decreases r.len(),
{
    if r.len() == 0 {
        0
    } else {
        resident_bytes(r.drop_last()) + r.last().weight_bytes
    }
}

/// Resident `a` is kept before resident `b`: it is more useful; of two equally
/// useful ones its name comes first; of two with one name it is listed first.
pub open spec fn kept_before(r: Seq<ResidentInfo>, utility: Seq<u64>, a: int, b: int) -> bool {
    if utility[a] != utility[b] {
        utility[a] > utility[b]
    } else if r[a].model@ != r[b].model@ {
        lex_less(r[a].model@, r[b].model@)
    } else {
        a < b
    }
}

/// `s` with `x` put before the first that it goes before.
pub open spec fn inserted(r: Seq<ResidentInfo>, utility: Seq<u64>, s: Seq<int>, x: int) -> Seq<int>
    decreases s.len(),
{
    if s.len() == 0 {
        seq![x]
    } else if kept_before(r, utility, x, s[0]) {
        seq![x] + s
    } else {
        seq![s[0]] + inserted(r, utility, s.subrange(1, s.len() as int), x)
    }
}

/// The idle ones among the first `n` residents, those to keep first.
pub open spec fn ranked(r: Seq<ResidentInfo>, utility: Seq<u64>, n: int) -> Seq<int>
    decreases n,
{
    if n <= 0 {
        Seq::empty()
    } else if r[n - 1].busy {
        ranked(r, utility, n - 1)
    } else {
        inserted(r, utility, ranked(r, utility, n - 1), n - 1)
    }
}

/// Those of `order` that do not fit, one after the other being kept where it
/// does.
pub open spec fn left_over(r: Seq<ResidentInfo>, order: Seq<int>, used: int, budget: int) -> Seq<int>
    decreases order.len(),
{
    if order.len() == 0 {
        Seq::empty()
    } else {
        let rest = order.subrange(1, order.len() as int);
        let w = r[order[0]].weight_bytes;
        if used + w <= budget {
            left_over(r, rest, used + w, budget)
        } else {
            seq![order[0]] + left_over(r, rest, used, budget)
        }
    }
}

/// The residents to evict, those to keep first standing first.
pub open spec fn unkept(req: ResidentRequest, utility: Seq<u64>) -> Seq<int> {
    let r = req.residents@;
    let order = ranked(r, utility, r.len() as int);
    let mandatory = busy_bytes(r) + req.requested_weight;
    if mandatory > req.budget_bytes {
        order
    } else {
        left_over(r, order, mandatory, req.budget_bytes as int)
    }
}

/// The names of the residents in `order`, from the last to the first.
pub open spec fn names_backwards(r: Seq<ResidentInfo>, order: Seq<int>) -> Seq<Seq<char>> {
    Seq::new(order.len(), |i: int| r[order[order.len() - 1 - i]].model@)
}

proof fn inserted_holds(r: Seq<ResidentInfo>, utility: Seq<u64>, s: Seq<int>, x: int)
    ensures
        inserted(r, utility, s, x).len() == s.len() + 1,
        forall|k: int|
            0 <= k < inserted(r, utility, s, x).len() ==> #[trigger] inserted(r, utility, s, x)[k]
                == x || s.contains(inserted(r, utility, s, x)[k]),
        inserted(r, utility, s, x).contains(x),
        forall|y: int| s.contains(y) ==> #[trigger] inserted(r, utility, s, x).contains(y),
    decreases s.len(),
{
    let t = inserted(r, utility, s, x);
    if s.len() == 0 {
        assert(t[0] == x);
    } else if kept_before(r, utility, x, s[0]) {
        assert(t[0] == x);
        assert forall|k: int| 0 <= k < t.len() implies #[trigger] t[k] == x || s.contains(
            t[k],
        ) by {
            if k > 0 {
                assert(t[k] == s[k - 1]);
            }
        }
        assert forall|y: int| s.contains(y) implies #[trigger] t.contains(y) by {
            let k = choose|k: int| 0 <= k < s.len() && s[k] == y;
            assert(t[k + 1] == y);
        }
    } else {
        let rest = s.subrange(1, s.len() as int);
        let u = inserted(r, utility, rest, x);
        inserted_holds(r, utility, rest, x);
        assert forall|k: int| 0 <= k < t.len() implies #[trigger] t[k] == x || s.contains(
            t[k],
        ) by {
            if k == 0 {
                assert(t[0] == s[0]);
            } else {
                assert(t[k] == u[k - 1]);
                if u[k - 1] != x {
                    let m = choose|m: int| 0 <= m < rest.len() && rest[m] == u[k - 1];
                    assert(s[m + 1] == t[k]);
                }
            }
        }
        let kx = choose|k: int| 0 <= k < u.len() && u[k] == x;
        assert(t[kx + 1] == x);
        assert forall|y: int| s.contains(y) implies #[trigger] t.contains(y) by {
            let k = choose|k: int| 0 <= k < s.len() && s[k] == y;
            if k == 0 {
                assert(t[0] == y);
            } else {
                assert(rest[k - 1] == y);
                assert(rest.contains(y));
                assert(u.contains(y));
                let m = choose|m: int| 0 <= m < u.len() && u[m] == y;
                assert(t[m + 1] == y);
            }
        }
    }
}

/// Each idle resident stands in the ranking, and nothing else does.
proof fn ranked_holds(r: Seq<ResidentInfo>, utility: Seq<u64>, n: int)
    requires
        0 <= n <= r.len(),
    ensures
        forall|k: int|
            0 <= k < ranked(r, utility, n).len() ==> 0 <= #[trigger] ranked(r, utility, n)[k] < n
                && !r[ranked(r, utility, n)[k]].busy,
        forall|i: int| 0 <= i < n && !(#[trigger] r[i]).busy ==> ranked(r, utility, n).contains(i),
        ranked(r, utility, n).len() <= n,
    decreases n,
{
    if n > 0 {
        ranked_holds(r, utility, n - 1);
        let s = ranked(r, utility, n - 1);
        if !r[n - 1].busy {
            inserted_holds(r, utility, s, n - 1);
            let t = ranked(r, utility, n);
            assert forall|k: int| 0 <= k < t.len() implies 0 <= #[trigger] t[k] < n
                && !r[t[k]].busy by {
                if t[k] != n - 1 {
                    let m = choose|m: int| 0 <= m < s.len() && s[m] == t[k];
                    assert(s[m] == t[k]);
                }
            }
        }
    }
}

/// The indices of a list of positions.
pub open spec fn ints(v: Seq<usize>) -> Seq<int> {
    Seq::new(v.len(), |i: int| v[i] as int)
}

fn goes_before(r: &Vec<ResidentInfo>, utility: &Vec<u64>, a: usize, b: usize) -> (c: bool)
    requires
        a < r.len(),
        b < r.len(),
        utility.len() == r.len(),
    ensures
        c == kept_before(r@, utility@, a as int, b as int),
{
    if utility[a] != utility[b] {
        utility[a] > utility[b]
    } else if !same(r[a].model.as_str(), r[b].model.as_str()) {
        comes_before(r[a].model.as_str(), r[b].model.as_str())
    } else {
        a < b
    }
}

proof fn inserted_after(r: Seq<ResidentInfo>, utility: Seq<u64>, s: Seq<int>, x: int, k: int)
    requires
        0 <= k <= s.len(),
        forall|j: int| 0 <= j < k ==> !kept_before(r, utility, x, #[trigger] s[j]),
        k < s.len() ==> kept_before(r, utility, x, s[k]),
    ensures
        inserted(r, utility, s, x) == s.insert(k, x),
    decreases s.len(),
{
    if s.len() == 0 {
        assert(s.insert(0, x) =~= seq![x]);
    } else if k == 0 {
        assert(seq![x] + s =~= s.insert(0, x));
    } else {
        let rest = s.subrange(1, s.len() as int);
        assert(!kept_before(r, utility, x, s[0]));
        assert forall|j: int| 0 <= j < k - 1 implies !kept_before(r, utility, x, #[trigger] rest[j]) by {
            assert(rest[j] == s[j + 1]);
        }
        if k < s.len() {
            assert(rest[k - 1] == s[k]);
        }
        inserted_after(r, utility, rest, x, k - 1);
        assert(seq![s[0]] + rest.insert(k - 1, x) =~= s.insert(k, x));
    }
}

fn rank(r: &Vec<ResidentInfo>, utility: &Vec<u64>) -> (order: Vec<usize>)
    requires
        utility.len() == r.len(),
    ensures
        ints(order@) == ranked(r@, utility@, r@.len() as int),
        forall|k: int| 0 <= k < order@.len() ==> (#[trigger] order@[k]) < r@.len(),
{
    let mut order: Vec<usize> = Vec::new();
    let mut i: usize = 0;
    assert(ints(order@) =~= Seq::empty());
    while i < r.len()
        invariant
            i <= r.len(),
            utility.len() == r.len(),
            ints(order@) == ranked(r@, utility@, i as int),
            forall|k: int| 0 <= k < order@.len() ==> (#[trigger] order@[k]) < i,
        decreases r.len() - i,
    {
        if !r[i].busy {
            let mut k: usize = 0;
            while k < order.len() && !goes_before(r, utility, i, order[k])
                invariant
                    k <= order.len(),
                    i < r.len(),
                    utility.len() == r.len(),
                    forall|k: int| 0 <= k < order@.len() ==> (#[trigger] order@[k]) < i,
                    forall|j: int|
                        0 <= j < k ==> !kept_before(
                            r@,
                            utility@,
                            i as int,
                            #[trigger] ints(order@)[j],
                        ),
                decreases order.len() - k,
            {
                assert(ints(order@)[k as int] == order@[k as int]);
                k = k + 1;
            }
            proof {
                if k < order@.len() {
                    assert(ints(order@)[k as int] == order@[k as int]);
                }
                inserted_after(r@, utility@, ints(order@), i as int, k as int);
            }
            let ghost before = order@;
            order.insert(k, i);
            assert(ints(order@) =~= ints(before).insert(k as int, i as int));
        }
        i = i + 1;
    }
    order
}

fn busy_weight(r: &Vec<ResidentInfo>) -> (b: u64)
    requires
        busy_bytes(r@) <= u64::MAX,
    ensures
        b == busy_bytes(r@),
{
    let mut sum: u64 = 0;
    let mut i: usize = 0;
    while i < r.len()
        invariant
            i <= r.len(),
            sum == busy_bytes(r@.subrange(0, i as int)),
            busy_bytes(r@) <= u64::MAX,
        decreases r.len() - i,
    {
        let ghost part = r@.subrange(0, i + 1);
        assert(part.drop_last() =~= r@.subrange(0, i as int));
        proof {
            busy_bytes_grow(r@, i + 1);
        }
        if r[i].busy {
            sum = sum + r[i].weight_bytes;
        }
        i = i + 1;
    }
    assert(r@.subrange(0, i as int) =~= r@);
    sum
}

proof fn busy_bytes_grow(r: Seq<ResidentInfo>, i: int)
    requires
        0 <= i <= r.len(),
    ensures
        0 <= busy_bytes(r.subrange(0, i)) <= busy_bytes(r),
    decreases r.len(),
{
    if i == r.len() {
        assert(r.subrange(0, i) =~= r);
        if i > 0 {
            busy_bytes_grow(r.drop_last(), i - 1);
        }
    } else {
        assert(r.drop_last().subrange(0, i) =~= r.subrange(0, i));
        busy_bytes_grow(r.drop_last(), i);
    }
}

fn take_names_backwards(r: &Vec<ResidentInfo>, order: &Vec<usize>) -> (v: Vec<String>)
    requires
        forall|k: int| 0 <= k < order@.len() ==> (#[trigger] order@[k]) < r@.len(),
    ensures
        views(v@) == names_backwards(r@, ints(order@)),
{
    let mut out: Vec<String> = Vec::new();
    let mut i: usize = 0;
    while i < order.len()
        invariant
            i <= order.len(),
            forall|k: int| 0 <= k < order@.len() ==> (#[trigger] order@[k]) < r@.len(),
            out@.len() == i,
            forall|k: int|
                0 <= k < i ==> (#[trigger] out@[k])@ == names_backwards(r@, ints(order@))[k],
        decreases order.len() - i,
    {
        let at = order[order.len() - 1 - i];
        out.push(copy(r[at].model.as_str()));
        i = i + 1;
    }
    assert(views(out@) =~= names_backwards(r@, ints(order@)));
    out
}

fn overflowing(
    r: &Vec<ResidentInfo>,
    order: &Vec<usize>,
    mandatory: u64,
    budget: u64,
) -> (v: Vec<usize>)
    requires
        mandatory <= budget,
        forall|k: int| 0 <= k < order@.len() ==> (#[trigger] order@[k]) < r@.len(),
    ensures
        ints(v@) == left_over(r@, ints(order@), mandatory as int, budget as int),
        forall|k: int| 0 <= k < v@.len() ==> (#[trigger] v@[k]) < r@.len(),
{
    let mut used: u64 = mandatory;
    let mut out: Vec<usize> = Vec::new();
    let mut i: usize = 0;
    let ghost all = ints(order@);
    let ghost goal = left_over(r@, all, mandatory as int, budget as int);
    assert(all.subrange(0, all.len() as int) =~= all);
    assert(ints(out@) + goal =~= goal);
    while i < order.len()
        invariant
            i <= order.len(),
            all == ints(order@),
            used <= budget,
            forall|k: int| 0 <= k < order@.len() ==> (#[trigger] order@[k]) < r@.len(),
            forall|k: int| 0 <= k < out@.len() ==> (#[trigger] out@[k]) < r@.len(),
            goal == left_over(r@, all, mandatory as int, budget as int),
            goal == ints(out@) + left_over(
                r@,
                all.subrange(i as int, all.len() as int),
                used as int,
                budget as int,
            ),
        decreases order.len() - i,
    {
        let at = order[i];
        let ghost rest = all.subrange(i as int, all.len() as int);
        assert(rest.subrange(1, rest.len() as int) =~= all.subrange(i + 1, all.len() as int));
        assert(rest[0] == at);
        let w = r[at].weight_bytes;
        if w <= budget - used {
            used = used + w;
        } else {
            let ghost before = out@;
            out.push(at);
            assert(ints(out@) =~= ints(before).push(at as int));
            proof {
                let tail = left_over(
                    r@,
                    all.subrange(i + 1, all.len() as int),
                    used as int,
                    budget as int,
                );
                assert(ints(before) + (seq![at as int] + tail) =~= ints(out@) + tail);
            }
        }
        i = i + 1;
    }
    assert(ints(out@) + Seq::<int>::empty() =~= ints(out@));
    out
}

/// Plans the resident set for a request: keeps the most useful models that fit,
/// always with the requested one, and evicts the rest, idle ones only.
/// `utility` holds for each resident a key that grows with its usefulness.
pub fn plan_residency(req: &ResidentRequest, utility: &Vec<u64>) -> (plan: ResidentPlan)
    requires
        utility@.len() == req.residents@.len(),
        !is_resident(req.residents@, req.requested@) ==> busy_bytes(req.residents@) <= u64::MAX,
        !is_resident(req.residents@, req.requested@) ==> req.budget_bytes < u64::MAX
            || resident_bytes(req.residents@) + req.requested_weight <= u64::MAX,
    ensures
        plan.load == !is_resident(req.residents@, req.requested@),
        plan.load ==> views(plan.evict@) == names_backwards(
            req.residents@,
            unkept(*req, utility@),
        ),
        !plan.load ==> plan.evict@.len() == 0,
        plan.oversubscribed == (plan.load && busy_bytes(req.residents@) + req.requested_weight
            > req.budget_bytes),
{
    let r = req.residents;
    let mut i: usize = 0;
    while i < r.len()
        invariant
            i <= r.len(),
            r == req.residents,
            forall|k: int| 0 <= k < i ==> (#[trigger] r@[k]).model@ != req.requested@,
        decreases r.len() - i,
    {
        if same(r[i].model.as_str(), req.requested) {
            assert(is_resident(req.residents@, req.requested@));
            return ResidentPlan { load: false, evict: Vec::new(), oversubscribed: false };
        }
        i = i + 1;
    }
    let busy = busy_weight(r);
    let mandatory: u128 = busy as u128 + req.requested_weight as u128;
    let order = rank(r, utility);
    if mandatory > req.budget_bytes as u128 {
        return ResidentPlan {
            load: true,
            evict: take_names_backwards(r, &order),
            oversubscribed: true,
        };
    }
    let rest = overflowing(r, &order, mandatory as u64, req.budget_bytes);
    ResidentPlan { load: true, evict: take_names_backwards(r, &rest), oversubscribed: false }
}

// ---------------------------------------------------------------------------
// Laws
// ---------------------------------------------------------------------------

/// Who is kept before whom is a strict total order on the residents.
pub proof fn keeping_order_is_strict(
    r: Seq<ResidentInfo>,
    utility: Seq<u64>,
    a: int,
    b: int,
    c: int,
)
    ensures
        !kept_before(r, utility, a, a),
        kept_before(r, utility, a, b) ==> !kept_before(r, utility, b, a),
        kept_before(r, utility, a, b) && kept_before(r, utility, b, c) ==> kept_before(
            r,
            utility,
            a,
            c,
        ),
        a != b ==> kept_before(r, utility, a, b) || kept_before(r, utility, b, a),
{
    lex_less_is_a_strict_order(r[a].model@, r[b].model@, r[c].model@);
    lex_less_is_a_strict_order(r[b].model@, r[a].model@, r[c].model@);
}

/// Each goes before every later one.
pub open spec fn in_keeping_order(r: Seq<ResidentInfo>, utility: Seq<u64>, s: Seq<int>) -> bool {
    forall|i: int, j: int|
        0 <= i < j < s.len() ==> kept_before(r, utility, #[trigger] s[i], #[trigger] s[j])
}

proof fn inserted_in_order(r: Seq<ResidentInfo>, utility: Seq<u64>, s: Seq<int>, x: int)
    requires
        in_keeping_order(r, utility, s),
        !s.contains(x),
    ensures
        in_keeping_order(r, utility, inserted(r, utility, s, x)),
    decreases s.len(),
{
    let t = inserted(r, utility, s, x);
    if s.len() == 0 {
    } else if kept_before(r, utility, x, s[0]) {
        assert forall|i: int, j: int| 0 <= i < j < t.len() implies kept_before(
            r,
            utility,
            #[trigger] t[i],
            #[trigger] t[j],
        ) by {
            assert(t[j] == s[j - 1]);
            if i == 0 {
                if j > 1 {
                    assert(kept_before(r, utility, s[0], s[j - 1]));
                    keeping_order_is_strict(r, utility, x, s[0], s[j - 1]);
                }
            } else {
                assert(t[i] == s[i - 1]);
            }
        }
    } else {
        let rest = s.subrange(1, s.len() as int);
        let u = inserted(r, utility, rest, x);
        assert(forall|k: int| 0 <= k < rest.len() ==> #[trigger] rest[k] == s[k + 1]);
        assert(!rest.contains(x)) by {
            if rest.contains(x) {
                let k = choose|k: int| 0 <= k < rest.len() && rest[k] == x;
                assert(s[k + 1] == x);
            }
        }
        inserted_in_order(r, utility, rest, x);
        inserted_holds(r, utility, rest, x);
        assert(s[0] != x) by {
            if s[0] == x {
                assert(s.contains(x));
            }
        }
        keeping_order_is_strict(r, utility, s[0], x, x);
        assert forall|i: int, j: int| 0 <= i < j < t.len() implies kept_before(
            r,
            utility,
            #[trigger] t[i],
            #[trigger] t[j],
        ) by {
            assert(t[j] == u[j - 1]);
            if i == 0 {
                if u[j - 1] != x {
                    let m = choose|m: int| 0 <= m < rest.len() && rest[m] == u[j - 1];
                    assert(s[m + 1] == t[j]);
                }
            } else {
                assert(t[i] == u[i - 1]);
            }
        }
    }
}

/// The ranking stands in the order of keeping.
pub proof fn ranking_is_in_order(r: Seq<ResidentInfo>, utility: Seq<u64>, n: int)
    requires
        0 <= n <= r.len(),
    ensures
        in_keeping_order(r, utility, ranked(r, utility, n)),
    decreases n,
{
    if n > 0 {
        ranking_is_in_order(r, utility, n - 1);
        ranked_holds(r, utility, n - 1);
        let s = ranked(r, utility, n - 1);
        assert(!s.contains(n - 1)) by {
            if s.contains(n - 1) {
                let k = choose|k: int| 0 <= k < s.len() && s[k] == n - 1;
                assert(s[k] < n - 1);
            }
        }
        if !r[n - 1].busy {
            inserted_in_order(r, utility, s, n - 1);
        }
    }
}

/// What does not fit is a part of the order, in that order.
proof fn left_over_is_ordered(
    r: Seq<ResidentInfo>,
    utility: Seq<u64>,
    order: Seq<int>,
    used: int,
    budget: int,
)
    requires
        in_keeping_order(r, utility, order),
    ensures
        in_keeping_order(r, utility, left_over(r, order, used, budget)),
        forall|k: int|
            0 <= k < left_over(r, order, used, budget).len() ==> order.contains(
                #[trigger] left_over(r, order, used, budget)[k],
            ),
    decreases order.len(),
{
    if order.len() > 0 {
        let rest = order.subrange(1, order.len() as int);
        assert(forall|k: int| 0 <= k < rest.len() ==> #[trigger] rest[k] == order[k + 1]);
        let w = r[order[0]].weight_bytes;
        let out = left_over(r, order, used, budget);
        let tail = if used + w <= budget {
            left_over(r, rest, used + w, budget)
        } else {
            left_over(r, rest, used, budget)
        };
        if used + w <= budget {
            left_over_is_ordered(r, utility, rest, used + w, budget);
        } else {
            left_over_is_ordered(r, utility, rest, used, budget);
        }
        assert forall|k: int| 0 <= k < tail.len() implies exists|m: int|
            1 <= m < order.len() && #[trigger] order[m] == #[trigger] tail[k] by {
            let m = choose|m: int| 0 <= m < rest.len() && rest[m] == tail[k];
            assert(order[m + 1] == tail[k]);
        }
        assert forall|k: int| 0 <= k < out.len() implies order.contains(#[trigger] out[k]) by {
            if used + w <= budget {
                assert(out[k] == tail[k]);
            } else if k > 0 {
                assert(out[k] == tail[k - 1]);
            }
        }
        assert forall|i: int, j: int| 0 <= i < j < out.len() implies kept_before(
            r,
            utility,
            #[trigger] out[i],
            #[trigger] out[j],
        ) by {
            if used + w <= budget {
                assert(out[i] == tail[i] && out[j] == tail[j]);
            } else {
                assert(out[j] == tail[j - 1]);
                if i > 0 {
                    assert(out[i] == tail[i - 1]);
                } else {
                    let m = choose|m: int| 1 <= m < order.len() && order[m] == tail[j - 1];
                    assert(kept_before(r, utility, order[0], order[m]));
                }
            }
        }
    }
}

/// No busy resident is ever evicted, and of two that are evicted the less useful
/// one is named first.
pub proof fn evictions_are_idle_and_least_useful_first(
    req: ResidentRequest,
    utility: Seq<u64>,
    i: int,
    j: int,
)
    requires
        0 <= i < j < unkept(req, utility).len(),
    ensures
        ({
            let r = req.residents@;
            let e = unkept(req, utility);
            &&& 0 <= e[i] < r.len() && !r[e[i]].busy
            &&& 0 <= e[j] < r.len() && !r[e[j]].busy
            &&& utility[e[j]] <= utility[e[i]]
            &&& names_backwards(r, e)[e.len() - 1 - j] == r[e[j]].model@
            &&& names_backwards(r, e)[e.len() - 1 - i] == r[e[i]].model@
        }),
{
    let r = req.residents@;
    let e = unkept(req, utility);
    evictions_are_idle(req, utility, i);
    evictions_are_idle(req, utility, j);
    let order = ranked(r, utility, r.len() as int);
    ranking_is_in_order(r, utility, r.len() as int);
    left_over_is_ordered(
        r,
        utility,
        order,
        busy_bytes(r) + req.requested_weight,
        req.budget_bytes as int,
    );
    assert(kept_before(r, utility, e[i], e[j]));
}

/// No busy resident is ever evicted.
pub proof fn evictions_are_idle(req: ResidentRequest, utility: Seq<u64>, i: int)
    requires
        0 <= i < unkept(req, utility).len(),
    ensures
        0 <= unkept(req, utility)[i] < req.residents@.len(),
        !req.residents@[unkept(req, utility)[i]].busy,
{
    let r = req.residents@;
    let e = unkept(req, utility);
    let order = ranked(r, utility, r.len() as int);
    ranked_holds(r, utility, r.len() as int);
    ranking_is_in_order(r, utility, r.len() as int);
    left_over_is_ordered(
        r,
        utility,
        order,
        busy_bytes(r) + req.requested_weight,
        req.budget_bytes as int,
    );
    assert(order.contains(e[i]));
    let k = choose|k: int| 0 <= k < order.len() && order[k] == e[i];
    assert(order[k] == e[i]);
}

/// Weight of the residents in `order`.
pub open spec fn bytes_of(r: Seq<ResidentInfo>, order: Seq<int>) -> int
    decreases order.len(),
{
    if order.len() == 0 {
        0
    } else {
        r[order[0]].weight_bytes + bytes_of(r, order.subrange(1, order.len() as int))
    }
}

proof fn kept_bytes_fit(r: Seq<ResidentInfo>, order: Seq<int>, used: int, budget: int)
    requires
        used <= budget,
    ensures
        used + bytes_of(r, order) - bytes_of(r, left_over(r, order, used, budget)) <= budget,
        used + bytes_of(r, order) <= budget ==> left_over(r, order, used, budget).len() == 0,
        bytes_of(r, order) >= 0,
    decreases order.len(),
{
    if order.len() > 0 {
        let rest = order.subrange(1, order.len() as int);
        let w = r[order[0]].weight_bytes;
        if used + w <= budget {
            kept_bytes_fit(r, rest, used + w, budget);
        } else {
            kept_bytes_fit(r, rest, used, budget);
            let out = left_over(r, order, used, budget);
            let tail = left_over(r, rest, used, budget);
            assert(out.subrange(1, out.len() as int) =~= tail);
        }
    }
}

/// A plan that does not over-subscribe stays within the budget: the requested
/// model, the busy residents and the idle ones that are kept fit together. Where
/// everything fits nothing is evicted.
pub proof fn a_plan_fits_the_budget(req: ResidentRequest, utility: Seq<u64>)
    requires
        busy_bytes(req.residents@) + req.requested_weight <= req.budget_bytes,
    ensures
        ({
            let r = req.residents@;
            let idle = ranked(r, utility, r.len() as int);
            let evicted = unkept(req, utility);
            &&& busy_bytes(r) + req.requested_weight + bytes_of(r, idle) - bytes_of(r, evicted)
                <= req.budget_bytes
            &&& busy_bytes(r) + req.requested_weight + bytes_of(r, idle) <= req.budget_bytes
                ==> evicted.len() == 0
        }),
{
    let r = req.residents@;
    kept_bytes_fit(
        r,
        ranked(r, utility, r.len() as int),
        busy_bytes(r) + req.requested_weight,
        req.budget_bytes as int,
    );
}

/// The usage of a model changes by its own requests only.
pub proof fn requests_count_for_their_model(
    m: Map<Seq<char>, ModelUsage>,
    model: Seq<char>,
    weight_bytes: u64,
    ts: u64,
    other: Seq<char>,
)
    requires
        usage_of(m, model).count < u64::MAX,
    ensures
        usage_of(folded(m, model, weight_bytes, ts), model).count == usage_of(m, model).count + 1,
        other != model ==> usage_of(folded(m, model, weight_bytes, ts), other) == usage_of(
            m,
            other,
        ),
{
}

/// A log replays to what was recorded: replaying it with the event of one more
/// request gives the usage that recording the request gave.
pub proof fn a_log_replays_to_what_was_recorded(
    m: Map<Seq<char>, ModelUsage>,
    log: Seq<UsageEvent>,
    e: UsageEvent,
)
    ensures
        replayed(m, log.push(e)) == folded(
            replayed(m, log),
            e.model@,
            e.weight_bytes,
            e.ts,
        ),
{
    assert(log.push(e).drop_last() =~= log);
}

/// A request is counted, its time is kept where it is the latest, and its weight
/// where it is known.
pub proof fn a_request_leaves_its_trace(u: ModelUsage, weight_bytes: u64, ts: u64)
    requires
        u.count < u64::MAX,
    ensures
        used_once_more(u, weight_bytes, ts).count == u.count + 1,
        used_once_more(u, weight_bytes, ts).last_used >= ts,
        used_once_more(u, weight_bytes, ts).last_used >= u.last_used,
        used_once_more(u, weight_bytes, ts).last_used == ts || used_once_more(
            u,
            weight_bytes,
            ts,
        ).last_used == u.last_used,
        weight_bytes > 0 ==> used_once_more(u, weight_bytes, ts).weight_bytes == weight_bytes,
        weight_bytes == 0 ==> used_once_more(u, weight_bytes, ts).weight_bytes == u.weight_bytes,
{
}

/// A model that was never requested has no requests, no time and no weight.
pub proof fn a_new_model_has_no_usage(m: Map<Seq<char>, ModelUsage>, model: Seq<char>)
    requires
        !m.contains_key(model),
    ensures
        usage_of(m, model).count == 0,
        usage_of(m, model).last_used == 0,
        usage_of(m, model).weight_bytes == 0,
{
}

/// The more useful of two residents is kept before the other; of two equally useful
/// ones the one whose name comes first.
pub proof fn the_more_useful_is_kept_first(
    r: Seq<ResidentInfo>,
    utility: Seq<u64>,
    a: int,
    b: int,
)
    ensures
        utility[a] > utility[b] ==> kept_before(r, utility, a, b) && !kept_before(
            r,
            utility,
            b,
            a,
        ),
        utility[a] == utility[b] && lex_less(r[a].model@, r[b].model@) ==> kept_before(
            r,
            utility,
            a,
            b,
        ),
{
    lex_less_is_a_strict_order(r[a].model@, r[b].model@, r[a].model@);
    lex_less_is_a_strict_order(r[a].model@, r[a].model@, r[a].model@);
}

/// The weight of busy residents, and of all, is that of the first ones and of the
/// rest together.
pub proof fn weights_add_up(a: Seq<ResidentInfo>, b: Seq<ResidentInfo>, x: ResidentInfo)
    ensures
        busy_bytes(a + b) == busy_bytes(a) + busy_bytes(b),
        resident_bytes(a + b) == resident_bytes(a) + resident_bytes(b),
        x.busy ==> busy_bytes(seq![x]) == x.weight_bytes,
        !x.busy ==> busy_bytes(seq![x]) == 0,
        resident_bytes(seq![x]) == x.weight_bytes,
    decreases b.len(),
{
    let none = Seq::<ResidentInfo>::empty();
    assert(seq![x].drop_last() =~= none);
    assert(seq![x].last() == x);
    assert(busy_bytes(none) == 0 && resident_bytes(none) == 0);
    if b.len() == 0 {
        assert(a + b =~= a);
    } else {
        weights_add_up(a, b.drop_last(), x);
        assert((a + b).drop_last() =~= a + b.drop_last());
        assert((a + b).last() == b.last());
    }
}

/// Where not even the busy ones leave room for the requested model, every idle
/// resident is evicted.
pub proof fn a_swap_evicts_every_idle_resident(req: ResidentRequest, utility: Seq<u64>, i: int)
    requires
        busy_bytes(req.residents@) + req.requested_weight > req.budget_bytes,
        0 <= i < req.residents@.len(),
        !req.residents@[i].busy,
    ensures
        unkept(req, utility).contains(i),
{
    ranked_holds(req.residents@, utility, req.residents@.len() as int);
}

/// Where the requested model fits beside the busy ones, an idle resident is evicted
/// only for want of room: one that goes before a kept one and weighs no more is kept.
pub proof fn the_useful_and_light_are_kept(
    req: ResidentRequest,
    utility: Seq<u64>,
    x: int,
    y: int,
)
    requires
        0 <= x < req.residents@.len(),
        0 <= y < req.residents@.len(),
        !req.residents@[x].busy,
        !req.residents@[y].busy,
        utility[x] > utility[y],
        req.residents@[x].weight_bytes <= req.residents@[y].weight_bytes,
        !unkept(req, utility).contains(y),
    ensures
        !unkept(req, utility).contains(x),
{
    let r = req.residents@;
    let n = r.len() as int;
    let order = ranked(r, utility, n);
    ranked_holds(r, utility, n);
    ranking_is_in_order(r, utility, n);
    let i = choose|i: int| 0 <= i < order.len() && order[i] == x;
    let j = choose|j: int| 0 <= j < order.len() && order[j] == y;
    if j < i {
        assert(kept_before(r, utility, order[j], order[i]));
    }
    earlier_and_lighter_stays(
        r,
        utility,
        order,
        busy_bytes(r) + req.requested_weight,
        req.budget_bytes as int,
        i,
        j,
    );
}

proof fn earlier_and_lighter_stays(
    r: Seq<ResidentInfo>,
    utility: Seq<u64>,
    order: Seq<int>,
    used: int,
    budget: int,
    i: int,
    j: int,
)
    requires
        in_keeping_order(r, utility, order),
        0 <= i < j < order.len(),
        r[order[i]].weight_bytes <= r[order[j]].weight_bytes,
        !left_over(r, order, used, budget).contains(order[j]),
    ensures
        !left_over(r, order, used, budget).contains(order[i]),
    decreases order.len(),
{
    let rest = order.subrange(1, order.len() as int);
    let w = r[order[0]].weight_bytes;
    let out = left_over(r, order, used, budget);
    assert(forall|k: int| 0 <= k < rest.len() ==> #[trigger] rest[k] == order[k + 1]);
    let more = if used + w <= budget {
        used + w
    } else {
        used
    };
    let tail = left_over(r, rest, more, budget);
    assert forall|y: int| #[trigger] tail.contains(y) implies out.contains(y) by {
        let k = choose|k: int| 0 <= k < tail.len() && tail[k] == y;
        if used + w <= budget {
            assert(out[k] == y);
        } else {
            assert(out[k + 1] == y);
        }
    }
    if i > 0 {
        earlier_and_lighter_stays(r, utility, rest, more, budget, i - 1, j - 1);
        if out.contains(order[i]) {
            let k = choose|k: int| 0 <= k < out.len() && out[k] == order[i];
            if used + w <= budget {
                assert(tail[k] == order[i]);
            } else if k > 0 {
                assert(tail[k - 1] == order[i]);
            } else {
                assert(kept_before(r, utility, order[0], order[i]));
                keeping_order_is_strict(r, utility, order[0], order[0], order[0]);
            }
        }
    } else {
        if used + w > budget {
            too_heavy_goes(r, rest, used, budget, j - 1);
            assert(tail.contains(order[j]));
        } else {
            left_over_is_ordered(r, utility, rest, used + w, budget);
            if out.contains(order[0]) {
                let k = choose|k: int| 0 <= k < out.len() && out[k] == order[0];
                assert(rest.contains(out[k]));
                let m = choose|m: int| 0 <= m < rest.len() && rest[m] == order[0];
                assert(kept_before(r, utility, order[0], order[m + 1]));
                keeping_order_is_strict(r, utility, order[0], order[0], order[0]);
            }
        }
    }
}

/// What is too heavy for the room at the start is left over.
proof fn too_heavy_goes(r: Seq<ResidentInfo>, order: Seq<int>, used: int, budget: int, j: int)
    requires
        0 <= j < order.len(),
        used + r[order[j]].weight_bytes > budget,
    ensures
        left_over(r, order, used, budget).contains(order[j]),
    decreases order.len(),
{
    let rest = order.subrange(1, order.len() as int);
    let w = r[order[0]].weight_bytes;
    let out = left_over(r, order, used, budget);
    if j == 0 {
        assert(out[0] == order[0]);
    } else {
        assert(rest[j - 1] == order[j]);
        let more = if used + w <= budget {
            used + w
        } else {
            used
        };
        too_heavy_goes(r, rest, more, budget, j - 1);
        let tail = left_over(r, rest, more, budget);
        let k = choose|k: int| 0 <= k < tail.len() && tail[k] == order[j];
        if used + w <= budget {
            assert(out[k] == order[j]);
        } else {
            assert(out[k + 1] == order[j]);
        }
    }
}

/// The most useful idle resident is kept where it fits beside what must stay.
pub proof fn the_most_useful_is_kept(req: ResidentRequest, utility: Seq<u64>, x: int)
    requires
        0 <= x < req.residents@.len(),
        !req.residents@[x].busy,
        forall|y: int|
            0 <= y < req.residents@.len() && y != x && !(#[trigger] req.residents@[y]).busy
                ==> utility[x] > utility[y],
        busy_bytes(req.residents@) + req.requested_weight + req.residents@[x].weight_bytes
            <= req.budget_bytes,
    ensures
        !unkept(req, utility).contains(x),
{
    let r = req.residents@;
    let n = r.len() as int;
    let order = ranked(r, utility, n);
    ranked_holds(r, utility, n);
    ranking_is_in_order(r, utility, n);
    let i = choose|i: int| 0 <= i < order.len() && order[i] == x;
    if i > 0 {
        assert(kept_before(r, utility, order[0], order[i]));
        let y = order[0];
        assert(!r[y].busy);
        if y == x {
            keeping_order_is_strict(r, utility, x, x, x);
        }
    }
    let used = busy_bytes(r) + req.requested_weight;
    let out = unkept(req, utility);
    let rest = order.subrange(1, order.len() as int);
    assert(forall|k: int| 0 <= k < rest.len() ==> #[trigger] rest[k] == order[k + 1]);
    left_over_is_ordered(r, utility, rest, used + r[x].weight_bytes, req.budget_bytes as int);
    if out.contains(x) {
        let k = choose|k: int| 0 <= k < out.len() && out[k] == x;
        assert(rest.contains(out[k]));
        let m = choose|m: int| 0 <= m < rest.len() && rest[m] == x;
        assert(kept_before(r, utility, order[0], order[m + 1]));
        keeping_order_is_strict(r, utility, x, x, x);
    }
}

/// A model is resident wherever it stands in the list, and where it is listed only.
pub proof fn a_listed_model_is_resident(r: Seq<ResidentInfo>, x: ResidentInfo, model: Seq<char>)
    ensures
        is_resident(r.push(x), model) <==> is_resident(r, model) || x.model@ == model,
        !is_resident(Seq::empty(), model),
{
    let s = r.push(x);
    assert(s[r.len() as int] == x);
    if is_resident(r, model) {
        let i = choose|i: int| 0 <= i < r.len() && (#[trigger] r[i]).model@ == model;
        assert(s[i].model@ == model);
    }
    if is_resident(s, model) && x.model@ != model {
        let i = choose|i: int| 0 <= i < s.len() && (#[trigger] s[i]).model@ == model;
        assert(r[i].model@ == model);
    }
}

} // verus!
