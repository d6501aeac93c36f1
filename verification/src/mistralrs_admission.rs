//! Admission scheduling in front of an engine: a limit that can move at run
//! time, a reserved fast lane, shortest-job-first order and backpressure.
//!
//! The scheduler decides who is admitted; handing a slot over to the waiting
//! task is the caller's part. A waiter is known by its sequence number.

use vstd::prelude::*;

verus! {

// ---------------------------------------------------------------------------
// Requests
// ---------------------------------------------------------------------------

/// Estimated cost of a request.
#[derive(Clone, Copy, Debug)]
pub struct RequestCost {
    pub prompt_tokens: usize,
    pub max_tokens: usize,
}

/// The tokens that a request moves through the engine, capped at `usize::MAX`.
pub open spec fn weight_of(c: RequestCost) -> int {
    if c.prompt_tokens + c.max_tokens <= usize::MAX {
        c.prompt_tokens + c.max_tokens
    } else {
        usize::MAX as int
    }
}

impl RequestCost {
    /// The scalar that the scheduler orders by: prompt prefill and generated
    /// tokens together.
    pub fn weight(&self) -> (r: usize)
        ensures
            r == weight_of(*self),
    {
        self.prompt_tokens.saturating_add(self.max_tokens)
    }
}

/// Why an admission was refused outright.
#[derive(Clone, Copy, Debug, PartialEq, Eq, Structural)]
pub enum AdmitError {
    /// The wait queue is full; the caller should shed load (HTTP 429).
    Overloaded,
}

impl AdmitError {
    pub fn message(&self) -> (r: &'static str)
        ensures
            r@ == "overloaded: admission queue full"@,
    {
        match self {
            AdmitError::Overloaded => "overloaded: admission queue full",
        }
    }
}

// ---------------------------------------------------------------------------
// Configuration
// ---------------------------------------------------------------------------

/// Static configuration of the scheduler.
#[derive(Clone, Copy, Debug)]
pub struct AdmissionConfig {
    /// Initial admission limit; also the ceiling that the circuit breaker
    /// recovers to.
    pub limit: usize,
    /// A request whose `weight()` is below this uses the reserved fast-lane
    /// slot; `0` disables the fast lane.
    pub fastlane_tokens: usize,
    /// Requests allowed to wait before new ones are refused; `0` = unbounded.
    pub queue_max: usize,
}

pub open spec fn at_least_one(n: usize) -> usize {
    if n >= 1 {
        n
    } else {
        1
    }
}

impl AdmissionConfig {
    /// Builds the configuration from the engine's capacity and the overrides
    /// that were set: the admission limit (default and ceiling: the capacity),
    /// the fast-lane threshold (default 1024) and the queue bound (default 32).
    pub fn from_engine_capacity(
        engine_capacity: usize,
        admit_limit: Option<usize>,
        fastlane_tokens: Option<usize>,
        queue_max: Option<usize>,
    ) -> (r: Self)
        ensures
            r.limit == (match admit_limit {
                Some(n) => if 1 <= n <= at_least_one(engine_capacity) {
                    n
                } else {
                    at_least_one(engine_capacity)
                },
                None => at_least_one(engine_capacity),
            }),
            r.fastlane_tokens == (match fastlane_tokens {
                Some(n) => n,
                None => 1024,
            }),
            r.queue_max == (match queue_max {
                Some(n) => n,
                None => 32,
            }),
    {
        let cap: usize = if engine_capacity >= 1 {
            engine_capacity
        } else {
            1
        };
        let limit: usize = match admit_limit {
            Some(n) => if n >= 1 && n <= cap {
                n
            } else {
                cap
            },
            None => cap,
        };
        AdmissionConfig {
            limit,
            fastlane_tokens: fastlane_tokens.unwrap_or(1024),
            queue_max: queue_max.unwrap_or(32),
        }
    }
}

// ---------------------------------------------------------------------------
// Order
// ---------------------------------------------------------------------------

/// Ordering key of a waiter: fast lane first, then shortest job, then first come.
#[derive(Clone, Copy, PartialEq, Eq, Structural)]
pub struct Priority {
    pub is_fast: bool,
    pub cost: usize,
    pub seq: u64,
}

/// `a` is admitted before `b`.
pub open spec fn preferred(a: Priority, b: Priority) -> bool {
    if a.is_fast != b.is_fast {
        a.is_fast
    } else if a.cost != b.cost {
        a.cost < b.cost
    } else {
        a.seq < b.seq
    }
}

fn prefer(a: Priority, b: Priority) -> (r: bool)
    ensures
        r == preferred(a, b),
{
    if a.is_fast != b.is_fast {
        a.is_fast
    } else if a.cost != b.cost {
        a.cost < b.cost
    } else {
        a.seq < b.seq
    }
}

// ---------------------------------------------------------------------------
// State
// ---------------------------------------------------------------------------

/// The scheduler's state.
pub struct AdmissionState {
    pub limit: int,
    pub capacity: int,
    pub fastlane_tokens: int,
    pub queue_max: int,
    pub general_in_use: int,
    pub fast_in_use: int,
    pub waiters: Seq<Priority>,
    pub next_seq: int,
}

impl AdmissionState {
    pub open spec fn in_use(self) -> int {
        self.general_in_use + self.fast_in_use
    }

    /// Slots that general requests may occupy: all but one, where the fast lane
    /// is on and there are two or more.
    pub open spec fn general_cap(self) -> int {
        if self.fastlane_tokens > 0 && self.limit >= 2 {
            self.limit - 1
        } else {
            self.limit
        }
    }

    pub open spec fn admits(self, is_fast: bool) -> bool {
        self.in_use() < self.limit && (is_fast || self.general_in_use < self.general_cap())
    }

    /// One more slot is in use.
    pub open spec fn taken(self, is_fast: bool) -> AdmissionState {
        if is_fast {
            AdmissionState { fast_in_use: self.fast_in_use + 1, ..self }
        } else {
            AdmissionState { general_in_use: self.general_in_use + 1, ..self }
        }
    }

    /// One slot fewer is in use.
    pub open spec fn returned(self, is_fast: bool) -> AdmissionState {
        if is_fast {
            AdmissionState {
                fast_in_use: if self.fast_in_use > 0 {
                    self.fast_in_use - 1
                } else {
                    0
                },
                ..self
            }
        } else {
            AdmissionState {
                general_in_use: if self.general_in_use > 0 {
                    self.general_in_use - 1
                } else {
                    0
                },
                ..self
            }
        }
    }

    /// Waiter `i` can be admitted and goes before every other that can.
    pub open spec fn is_best(self, i: int) -> bool {
        &&& 0 <= i < self.waiters.len()
        &&& self.admits(self.waiters[i].is_fast)
        &&& forall|j: int|
            0 <= j < self.waiters.len() && j != i && self.admits((#[trigger] self.waiters[j]).is_fast)
                ==> preferred(self.waiters[i], self.waiters[j])
    }

    /// The waiter to admit next.
    pub open spec fn best(self) -> Option<int> {
        if exists|i: int| self.is_best(i) {
            Some(choose|i: int| self.is_best(i))
        } else {
            None
        }
    }

    /// Waiter `i` leaves the queue and takes a slot.
    pub open spec fn granted(self, i: int) -> AdmissionState {
        AdmissionState { waiters: self.waiters.remove(i), ..self.taken(self.waiters[i].is_fast) }
    }

    /// Admits the best waiter as long as there is one: the state that is left,
    /// and the waiters that were admitted, in order.
    pub open spec fn pumped(self) -> (AdmissionState, Seq<Priority>)
        decreases self.waiters.len(),
    {
        match self.best() {
            Some(i) => if 0 <= i < self.waiters.len() {
                let rest = self.granted(i).pumped();
                (rest.0, seq![self.waiters[i]] + rest.1)
            } else {
                (self, Seq::empty())
            },
            None => (self, Seq::empty()),
        }
    }

    /// The waiters whose task has gone leave the queue.
    pub open spec fn without(self, gone: Seq<u64>) -> AdmissionState {
        AdmissionState { waiters: still_waiting(self.waiters, gone), ..self }
    }

    pub open spec fn limited(self, limit: int) -> AdmissionState {
        AdmissionState { limit, ..self }
    }

    /// A request of this weight uses the fast lane.
    pub open spec fn is_fast_weight(self, weight: int) -> bool {
        self.fastlane_tokens > 0 && weight < self.fastlane_tokens
    }

    pub open spec fn queue_is_full(self) -> bool {
        self.queue_max > 0 && self.waiters.len() >= self.queue_max
    }

    pub open spec fn wf(self) -> bool {
        &&& self.limit >= 1
        &&& self.capacity >= 1
        &&& self.general_in_use >= 0
        &&& self.fast_in_use >= 0
        &&& self.in_use() <= usize::MAX
        &&& in_order(self.waiters, self.next_seq)
    }
}

/// Sequence numbers grow along the queue and stay below `next_seq`.
pub open spec fn in_order(waiters: Seq<Priority>, next_seq: int) -> bool {
    &&& forall|i: int, j: int|
        0 <= i < j < waiters.len() ==> (#[trigger] waiters[i]).seq < (#[trigger] waiters[j]).seq
    &&& forall|i: int| 0 <= i < waiters.len() ==> (#[trigger] waiters[i]).seq < next_seq
}

/// The waiters that are not among `gone`, in order.
pub open spec fn still_waiting(waiters: Seq<Priority>, gone: Seq<u64>) -> Seq<Priority>
    decreases waiters.len(),
{
    if waiters.len() == 0 {
        Seq::empty()
    } else {
        let rest = still_waiting(waiters.drop_last(), gone);
        if gone.contains(waiters.last().seq) {
            rest
        } else {
            rest.push(waiters.last())
        }
    }
}

/// A slot that a request holds. An inert guard holds none.
#[derive(Clone, Copy, Debug, PartialEq, Eq, Structural)]
pub struct AdmitGuard {
    pub is_fast: bool,
    pub armed: bool,
}

impl AdmitGuard {
    /// The guard of a request whose scheduler went away while it waited.
    pub fn inert() -> (r: AdmitGuard)
        ensures
            !r.armed,
            !r.is_fast,
    {
        AdmitGuard { is_fast: false, armed: false }
    }
}

/// What becomes of a request that is not refused.
#[derive(Clone, Copy, Debug, PartialEq, Eq, Structural)]
pub enum Admission {
    /// It holds a slot at once.
    Admitted(AdmitGuard),
    /// It waits under this sequence number.
    Queued(u64),
}

/// A waiter that was admitted, and the slot it holds.
#[derive(Clone, Copy, Debug, PartialEq, Eq, Structural)]
pub struct Grant {
    pub seq: u64,
    pub guard: AdmitGuard,
}

/// What becomes of a request for a slot: it gets one at once where one is free for
/// its class; otherwise it waits, unless the queue is full.
pub open spec fn asked(
    s: AdmissionState,
    cost: RequestCost,
    r: Result<Admission, AdmitError>,
    after: AdmissionState,
) -> bool {
    let fast = s.is_fast_weight(weight_of(cost));
    if s.admits(fast) {
        &&& r == Ok::<Admission, AdmitError>(
            Admission::Admitted((AdmitGuard { is_fast: fast, armed: true })),
        )
        &&& after == s.taken(fast)
    } else if s.queue_is_full() {
        &&& r == Err::<Admission, AdmitError>(AdmitError::Overloaded)
        &&& after == s
    } else {
        &&& r == Ok::<Admission, AdmitError>(Admission::Queued(s.next_seq as u64))
        &&& after == (AdmissionState {
            waiters: s.waiters.push(
                (Priority {
                    is_fast: fast,
                    cost: weight_of(cost) as usize,
                    seq: s.next_seq as u64,
                }),
            ),
            next_seq: s.next_seq + 1,
            ..s
        })
    }
}

/// The grants that admitted waiters receive.
pub open spec fn grants_for(admitted: Seq<Priority>) -> Seq<Grant> {
    Seq::new(
        admitted.len(),
        |i: int|
            Grant {
                seq: admitted[i].seq,
                guard: AdmitGuard { is_fast: admitted[i].is_fast, armed: true },
            },
    )
}

// ---------------------------------------------------------------------------
// Scheduler
// ---------------------------------------------------------------------------

/// The admission gate.
pub struct AdmissionScheduler {
    limit: usize,
    capacity: usize,
    fastlane_tokens: usize,
    queue_max: usize,
    general_in_use: usize,
    fast_in_use: usize,
    waiters: Vec<Priority>,
    next_seq: u64,
}

impl View for AdmissionScheduler {
    type V = AdmissionState;

    closed spec fn view(&self) -> AdmissionState {
        AdmissionState {
            limit: self.limit as int,
            capacity: self.capacity as int,
            fastlane_tokens: self.fastlane_tokens as int,
            queue_max: self.queue_max as int,
            general_in_use: self.general_in_use as int,
            fast_in_use: self.fast_in_use as int,
            waiters: self.waiters@,
            next_seq: self.next_seq as int,
        }
    }
}

proof fn best_is_unique(s: AdmissionState, i: int)
    requires
        in_order(s.waiters, s.next_seq),
        s.is_best(i),
    ensures
        s.best() == Some(i),
{
    let k = choose|k: int| s.is_best(k);
    assert(s.is_best(k));
    if k != i {
        assert(preferred(s.waiters[i], s.waiters[k]));
        assert(preferred(s.waiters[k], s.waiters[i]));
    }
}

proof fn still_waiting_in_order(waiters: Seq<Priority>, gone: Seq<u64>, next_seq: int)
    requires
        in_order(waiters, next_seq),
    ensures
        in_order(still_waiting(waiters, gone), next_seq),
        still_waiting(waiters, gone).len() <= waiters.len(),
    decreases waiters.len(),
{
    if waiters.len() > 0 {
        let last = waiters.last();
        assert forall|i: int| 0 <= i < waiters.drop_last().len() implies (
        #[trigger] waiters.drop_last()[i]).seq < last.seq by {
            assert(waiters.drop_last()[i] == waiters[i]);
        }
        still_waiting_in_order(waiters.drop_last(), gone, last.seq as int);
    }
}

fn has_seq(gone: &Vec<u64>, seq: u64) -> (r: bool)
    ensures
        r == gone@.contains(seq),
{
    let mut i: usize = 0;
    while i < gone.len()
        invariant
            i <= gone.len(),
            forall|k: int| 0 <= k < i ==> gone@[k] != seq,
        decreases gone.len() - i,
    {
        if gone[i] == seq {
            return true;
        }
        i = i + 1;
    }
    false
}

impl AdmissionScheduler {
    pub fn new(cfg: AdmissionConfig) -> (r: Self)
        ensures
            r@.wf(),
            r@ == (AdmissionState {
                limit: at_least_one(cfg.limit) as int,
                capacity: at_least_one(cfg.limit) as int,
                fastlane_tokens: cfg.fastlane_tokens as int,
                queue_max: cfg.queue_max as int,
                general_in_use: 0,
                fast_in_use: 0,
                waiters: Seq::empty(),
                next_seq: 0,
            }),
    {
        let limit: usize = if cfg.limit >= 1 {
            cfg.limit
        } else {
            1
        };
        AdmissionScheduler {
            limit,
            capacity: limit,
            fastlane_tokens: cfg.fastlane_tokens,
            queue_max: cfg.queue_max,
            general_in_use: 0,
            fast_in_use: 0,
            waiters: Vec::new(),
            next_seq: 0,
        }
    }

    fn general_cap(&self) -> (r: usize)
        ensures
            r == self@.general_cap(),
    {
        if self.fastlane_tokens > 0 && self.limit >= 2 {
            self.limit - 1
        } else {
            self.limit
        }
    }

    fn can_admit(&self, is_fast: bool) -> (r: bool)
        requires
            self@.wf(),
        ensures
            r == self@.admits(is_fast),
    {
        if self.general_in_use + self.fast_in_use >= self.limit {
            return false;
        }
        is_fast || self.general_in_use < self.general_cap()
    }

    fn take(&mut self, is_fast: bool)
        requires
            old(self)@.wf(),
            old(self)@.in_use() < old(self)@.limit,
        ensures
            final(self)@ == old(self)@.taken(is_fast),
            final(self)@.wf(),
    {
        if is_fast {
            self.fast_in_use = self.fast_in_use + 1;
        } else {
            self.general_in_use = self.general_in_use + 1;
        }
    }

    fn put_back(&mut self, is_fast: bool)
        requires
            old(self)@.wf(),
        ensures
            final(self)@ == old(self)@.returned(is_fast),
            final(self)@.wf(),
    {
        if is_fast {
            self.fast_in_use = self.fast_in_use.saturating_sub(1);
        } else {
            self.general_in_use = self.general_in_use.saturating_sub(1);
        }
    }

    /// The best waiter that can be admitted: fast lane first, then the shortest
    /// job, then first come.
    fn best_admittable(&self) -> (r: Option<usize>)
        requires
            self@.wf(),
        ensures
            match r {
                Some(i) => self@.best() == Some(i as int) && self@.is_best(i as int),
                None => self@.best() is None && forall|j: int|
                    0 <= j < self@.waiters.len() ==> !self@.admits((#[trigger] self@.waiters[j]).is_fast),
            },
    {
        let mut best: Option<usize> = None;
        let mut i: usize = 0;
        while i < self.waiters.len()
            invariant
                i <= self.waiters.len(),
                self@.wf(),
                match best {
                    Some(b) => {
                        &&& b < i
                        &&& self@.admits(self.waiters@[b as int].is_fast)
                        &&& forall|j: int|
                            0 <= j < i && j != b && self@.admits((#[trigger] self.waiters@[j]).is_fast)
                                ==> preferred(self.waiters@[b as int], self.waiters@[j])
                    },
                    None => forall|j: int|
                        0 <= j < i ==> !self@.admits((#[trigger] self.waiters@[j]).is_fast),
                },
            decreases self.waiters.len() - i,
        {
            let w = self.waiters[i];
            if self.can_admit(w.is_fast) {
                match best {
                    None => {
                        best = Some(i);
                    },
                    Some(b) => {
                        if prefer(w, self.waiters[b]) {
                            best = Some(i);
                        }
                    },
                }
            }
            i = i + 1;
        }
        proof {
            match best {
                Some(b) => {
                    assert(self@.is_best(b as int));
                    best_is_unique(self@, b as int);
                },
                None => {
                    assert forall|k: int| !self@.is_best(k) by {
                        if 0 <= k < self@.waiters.len() {
                            assert(!self@.admits(self@.waiters[k].is_fast));
                        }
                    }
                },
            }
        }
        best
    }

    fn drop_gone(&mut self, gone: &Vec<u64>)
        requires
            old(self)@.wf(),
        ensures
            final(self)@ == old(self)@.without(gone@),
            final(self)@.wf(),
    {
        let mut kept: Vec<Priority> = Vec::new();
        let mut i: usize = 0;
        while i < self.waiters.len()
            invariant
                i <= self.waiters.len(),
                *self == *old(self),
                kept@ == still_waiting(self.waiters@.subrange(0, i as int), gone@),
            decreases self.waiters.len() - i,
        {
            let w = self.waiters[i];
            proof {
                let part = self.waiters@.subrange(0, i + 1);
                assert(part.drop_last() =~= self.waiters@.subrange(0, i as int));
                assert(part.last() == w);
            }
            if !has_seq(gone, w.seq) {
                kept.push(w);
            }
            i = i + 1;
        }
        proof {
            assert(self.waiters@.subrange(0, i as int) =~= self.waiters@);
            still_waiting_in_order(self.waiters@, gone@, self.next_seq as int);
        }
        self.waiters = kept;
    }

    /// Admits as many waiters as fit, after those in `gone` (their task has
    /// ended) left the queue. Each grant is already counted.
    pub fn pump(&mut self, gone: &Vec<u64>) -> (r: Vec<Grant>)
        requires
            old(self)@.wf(),
        ensures
            final(self)@.wf(),
            final(self)@ == old(self)@.without(gone@).pumped().0,
            r@ == grants_for(old(self)@.without(gone@).pumped().1),
    {
        self.drop_gone(gone);
        let ghost start = self@;
        let mut out: Vec<Grant> = Vec::new();
        let ghost mut admitted: Seq<Priority> = Seq::empty();
        assert(Seq::<Priority>::empty() + start.pumped().1 =~= start.pumped().1);
        loop
            invariant
                self@.wf(),
                start == old(self)@.without(gone@),
                out@ == grants_for(admitted),
                start.pumped().0 == self@.pumped().0,
                start.pumped().1 == admitted + self@.pumped().1,
            decreases self@.waiters.len(),
        {
            let ghost now = self@;
            let idx = match self.best_admittable() {
                Some(idx) => idx,
                None => {
                    assert(admitted + Seq::<Priority>::empty() =~= admitted);
                    return out;
                },
            };
            let w = self.waiters.remove(idx);
            assert(self@ == (AdmissionState { waiters: now.waiters.remove(idx as int), ..now }));
            proof {
                let s = now.waiters;
                let r = s.remove(idx as int);
                assert(forall|k: int| 0 <= k < r.len() ==> #[trigger] r[k] == (if k < idx {
                    s[k]
                } else {
                    s[k + 1]
                }));
            }
            self.take(w.is_fast);
            assert(self@ == now.granted(idx as int));
            let ghost before = admitted;
            out.push(Grant { seq: w.seq, guard: AdmitGuard { is_fast: w.is_fast, armed: true } });
            proof {
                admitted = admitted.push(w);
                assert(out@ =~= grants_for(admitted));
                assert(before + (seq![w] + self@.pumped().1) =~= admitted + self@.pumped().1);
            }
        }
    }

    /// Asks for a slot. A request gets one at once where one is free for its
    /// class; otherwise it waits, unless the queue is full.
    pub fn acquire(&mut self, cost: RequestCost) -> (r: Result<Admission, AdmitError>)
        requires
            old(self)@.wf(),
            old(self)@.next_seq < u64::MAX,
        ensures
            final(self)@.wf(),
            asked(old(self)@, cost, r, final(self)@),
    {
        let weight = cost.weight();
        let is_fast = self.fastlane_tokens > 0 && weight < self.fastlane_tokens;
        if self.can_admit(is_fast) {
            self.take(is_fast);
            return Ok(Admission::Admitted(AdmitGuard { is_fast, armed: true }));
        }
        if self.queue_max > 0 && self.waiters.len() >= self.queue_max {
            return Err(AdmitError::Overloaded);
        }
        let seq = self.next_seq;
        self.next_seq = self.next_seq + 1;
        self.waiters.push(Priority { is_fast, cost: weight, seq });
        Ok(Admission::Queued(seq))
    }

    /// Gives a slot back and admits whom it lets in. An inert guard changes
    /// nothing.
    pub fn release(&mut self, guard: AdmitGuard, gone: &Vec<u64>) -> (r: Vec<Grant>)
        requires
            old(self)@.wf(),
        ensures
            final(self)@.wf(),
            guard.armed ==> {
                let p = old(self)@.returned(guard.is_fast).without(gone@).pumped();
                final(self)@ == p.0 && r@ == grants_for(p.1)
            },
            !guard.armed ==> final(self)@ == old(self)@ && r@.len() == 0,
    {
        if !guard.armed {
            return Vec::new();
        }
        self.put_back(guard.is_fast);
        self.pump(gone)
    }

    /// Circuit breaker: lowers the live limit by one, never below one, and
    /// returns it.
    pub fn trip(&mut self) -> (r: usize)
        requires
            old(self)@.wf(),
        ensures
            final(self)@.wf(),
            r == (if old(self)@.limit >= 2 {
                old(self)@.limit - 1
            } else {
                1
            }),
            final(self)@ == old(self)@.limited(r as int),
    {
        if self.limit >= 2 {
            self.limit = self.limit - 1;
        } else {
            self.limit = 1;
        }
        self.limit
    }

    /// Circuit breaker recovery: raises the live limit by one toward the
    /// capacity and admits whom the extra slot lets in. Returns the new limit.
    pub fn recover_step(&mut self, gone: &Vec<u64>) -> (r: (usize, Vec<Grant>))
        requires
            old(self)@.wf(),
            old(self)@.limit < usize::MAX,
        ensures
            final(self)@.wf(),
            r.0 == (if old(self)@.limit + 1 <= old(self)@.capacity {
                old(self)@.limit + 1
            } else {
                old(self)@.capacity
            }),
            ({
                let p = old(self)@.limited(r.0 as int).without(gone@).pumped();
                final(self)@ == p.0 && r.1@ == grants_for(p.1)
            }),
    {
        self.limit = if self.limit + 1 <= self.capacity {
            self.limit + 1
        } else {
            self.capacity
        };
        let limit = self.limit;
        assert(self@ == old(self)@.limited(limit as int));
        (limit, self.pump(gone))
    }

    /// Moves the live limit. Lowering it lets running requests drain; raising it
    /// admits waiters at once.
    pub fn set_limit(&mut self, limit: usize, gone: &Vec<u64>) -> (r: Vec<Grant>)
        requires
            old(self)@.wf(),
        ensures
            final(self)@.wf(),
            ({
                let p = old(self)@.limited(at_least_one(limit) as int).without(gone@).pumped();
                final(self)@ == p.0 && r@ == grants_for(p.1)
            }),
    {
        self.limit = if limit >= 1 {
            limit
        } else {
            1
        };
        assert(self@ == old(self)@.limited(at_least_one(limit) as int));
        self.pump(gone)
    }

    /// `(in_use, waiting, limit)`.
    pub fn stats(&self) -> (r: (usize, usize, usize))
        requires
            self@.wf(),
        ensures
            r.0 == self@.in_use(),
            r.1 == self@.waiters.len(),
            r.2 == self@.limit,
    {
        (self.general_in_use + self.fast_in_use, self.waiters.len(), self.limit)
    }
}

// ---------------------------------------------------------------------------
// Laws
// ---------------------------------------------------------------------------

/// The order of admission is a strict total order on waiters with distinct
/// sequence numbers.
pub proof fn preference_is_a_strict_order(a: Priority, b: Priority, c: Priority)
    ensures
        !preferred(a, a),
        preferred(a, b) ==> !preferred(b, a),
        preferred(a, b) && preferred(b, c) ==> preferred(a, c),
        a.seq != b.seq ==> preferred(a, b) || preferred(b, a),
{
}

/// Taking a slot and giving it back leaves everything as it was.
pub proof fn returning_undoes_taking(s: AdmissionState, is_fast: bool)
    requires
        s.wf(),
    ensures
        s.taken(is_fast).returned(is_fast) == s,
{
}

/// No admission takes the slots in use beyond the limit, and none of a general
/// request takes the slot reserved for the fast lane.
pub proof fn admission_respects_the_limit(s: AdmissionState, is_fast: bool)
    requires
        s.admits(is_fast),
    ensures
        s.taken(is_fast).in_use() <= s.limit,
        !is_fast ==> s.taken(is_fast).general_in_use <= s.general_cap(),
        !is_fast && s.fastlane_tokens > 0 && s.limit >= 2 ==> s.taken(is_fast).general_in_use
            <= s.limit - 1,
{
}

/// While a slot is free a fast request is never refused one.
pub proof fn a_free_slot_admits_the_fast_lane(s: AdmissionState)
    ensures
        s.in_use() < s.limit ==> s.admits(true),
{
}

/// Once pumping ends no waiter that could be admitted is left, no slot was
/// taken beyond the limit, and every waiter is either still queued or admitted,
/// its slot counted.
pub proof fn pumping_is_complete(s: AdmissionState)
    requires
        s.wf(),
        s.limit <= usize::MAX,
    ensures
        s.pumped().0.wf(),
        forall|j: int|
            0 <= j < s.pumped().0.waiters.len() ==> !s.pumped().0.admits(
                (#[trigger] s.pumped().0.waiters[j]).is_fast,
            ),
        s.pumped().0.in_use() == s.in_use() + s.pumped().1.len(),
        s.pumped().1.len() > 0 ==> s.pumped().0.in_use() <= s.limit,
        s.pumped().0.waiters.len() + s.pumped().1.len() == s.waiters.len(),
        s.pumped().0.waiters.to_multiset().add(s.pumped().1.to_multiset())
            == s.waiters.to_multiset(),
        s.pumped().0.limit == s.limit,
    decreases s.waiters.len(),
{
    broadcast use vstd::seq_lib::group_to_multiset_ensures;

    match s.best() {
        Some(i) => {
            assert(s.is_best(i));
            let t = s.granted(i);
            assert(in_order(t.waiters, t.next_seq)) by {
                let r = t.waiters;
                assert(forall|k: int| 0 <= k < r.len() ==> #[trigger] r[k] == (if k < i {
                    s.waiters[k]
                } else {
                    s.waiters[k + 1]
                }));
            }
            pumping_is_complete(t);
            vstd::seq_lib::lemma_multiset_commutative(seq![s.waiters[i]], t.pumped().1);
            let one = seq![s.waiters[i]];
            assert(one =~= Seq::<Priority>::empty().push(s.waiters[i]));
            assert(s.pumped().1.to_multiset() =~= one.to_multiset().add(t.pumped().1.to_multiset()));
            assert(s.waiters.remove(i).to_multiset() =~= s.waiters.to_multiset().remove(
                s.waiters[i],
            ));
            assert(s.waiters.to_multiset().contains(s.waiters[i]));
            assert(t.waiters.to_multiset().add(one.to_multiset()) =~= s.waiters.to_multiset());
            assert(s.pumped().0.waiters.to_multiset().add(s.pumped().1.to_multiset())
                =~= s.waiters.to_multiset());
        },
        None => {
            lemma_no_best(s);
            assert(s.pumped().0.waiters.to_multiset().add(s.pumped().1.to_multiset())
                =~= s.waiters.to_multiset());
        },
    }
}

/// Where no waiter is best, none can be admitted.
proof fn lemma_no_best(s: AdmissionState)
    requires
        s.wf(),
        s.best() is None,
    ensures
        forall|j: int|
            0 <= j < s.waiters.len() ==> !s.admits((#[trigger] s.waiters[j]).is_fast),
{
    assert forall|j: int| 0 <= j < s.waiters.len() implies !s.admits(
        (#[trigger] s.waiters[j]).is_fast,
    ) by {
        if s.admits(s.waiters[j].is_fast) {
            let b = best_up_to(s, s.waiters.len() as int, j);
            assert(s.is_best(b));
        }
    }
}

/// Among the first `n` waiters, one of which can be admitted, one goes before
/// every other that can.
proof fn best_up_to(s: AdmissionState, n: int, some: int) -> (b: int)
    requires
        in_order(s.waiters, s.next_seq),
        0 <= some < n <= s.waiters.len(),
        s.admits(s.waiters[some].is_fast),
    ensures
        0 <= b < n,
        s.admits(s.waiters[b].is_fast),
        forall|j: int|
            0 <= j < n && j != b && s.admits((#[trigger] s.waiters[j]).is_fast) ==> preferred(
                s.waiters[b],
                s.waiters[j],
            ),
    decreases n,
{
    if exists|k: int| 0 <= k < n - 1 && s.admits((#[trigger] s.waiters[k]).is_fast) {
        let k = choose|k: int| 0 <= k < n - 1 && s.admits((#[trigger] s.waiters[k]).is_fast);
        let b = best_up_to(s, n - 1, k);
        if s.admits(s.waiters[n - 1].is_fast) && preferred(s.waiters[n - 1], s.waiters[b]) {
            n - 1
        } else {
            b
        }
    } else {
        assert(some == n - 1);
        some
    }
}

/// A waiter of the fast lane that can be admitted is admitted before any
/// general one, and of two of the same class the cheaper comes first.
pub proof fn the_next_waiter_is_the_best(s: AdmissionState, j: int)
    requires
        s.wf(),
        0 <= j < s.waiters.len(),
        s.admits(s.waiters[j].is_fast),
    ensures
        s.pumped().1.len() > 0,
        s.pumped().1[0] == s.waiters[j] || preferred(s.pumped().1[0], s.waiters[j]),
{
    if s.best() is None {
        lemma_no_best(s);
    }
    let i = s.best()->0;
    assert(s.is_best(i));
}

/// Whoever is admitted was waiting.
proof fn admitted_were_waiting(s: AdmissionState, k: int)
    requires
        0 <= k < s.pumped().1.len(),
    ensures
        s.waiters.contains(s.pumped().1[k]),
    decreases s.waiters.len(),
{
    match s.best() {
        Some(i) => if 0 <= i < s.waiters.len() {
            let t = s.granted(i);
            if k == 0 {
                assert(s.pumped().1[0] == s.waiters[i]);
            } else {
                assert(s.pumped().1[k] == t.pumped().1[k - 1]);
                admitted_were_waiting(t, k - 1);
                let j = choose|j: int| 0 <= j < t.waiters.len() && t.waiters[j] == s.pumped().1[k];
                if j < i {
                    assert(s.waiters[j] == s.pumped().1[k]);
                } else {
                    assert(s.waiters[j + 1] == s.pumped().1[k]);
                }
            }
        },
        None => {},
    }
}

proof fn the_gone_do_not_wait(waiters: Seq<Priority>, gone: Seq<u64>)
    ensures
        forall|k: int|
            0 <= k < still_waiting(waiters, gone).len() ==> !gone.contains(
                (#[trigger] still_waiting(waiters, gone)[k]).seq,
            ),
    decreases waiters.len(),
{
    if waiters.len() > 0 {
        let rest = still_waiting(waiters.drop_last(), gone);
        the_gone_do_not_wait(waiters.drop_last(), gone);
        assert forall|k: int| 0 <= k < still_waiting(waiters, gone).len() implies !gone.contains(
            (#[trigger] still_waiting(waiters, gone)[k]).seq,
        ) by {
            if k < rest.len() {
                assert(still_waiting(waiters, gone)[k] == rest[k]);
            }
        }
    }
}

/// A request that was abandoned while it waited never gets a slot.
pub proof fn the_abandoned_hold_no_slot(s: AdmissionState, gone: Seq<u64>, k: int)
    requires
        0 <= k < s.without(gone).pumped().1.len(),
    ensures
        !gone.contains(s.without(gone).pumped().1[k].seq),
{
    let t = s.without(gone);
    admitted_were_waiting(t, k);
    the_gone_do_not_wait(s.waiters, gone);
}

/// A bounded queue never grows beyond its bound by a request that is queued.
pub proof fn the_queue_stays_bounded(s: AdmissionState, w: Priority)
    requires
        s.queue_max > 0,
        !s.queue_is_full(),
    ensures
        s.waiters.push(w).len() <= s.queue_max,
{
}

/// A slot is free for a request where fewer than the limit are in use, and, for a
/// general request, where one more would still be left for the fast lane: that one
/// is kept back as soon as there are two slots and a fast lane.
pub proof fn a_slot_is_kept_for_the_fast_lane(s: AdmissionState, is_fast: bool)
    requires
        s.fastlane_tokens >= 0,
    ensures
        is_fast ==> (s.admits(is_fast) <==> s.general_in_use + s.fast_in_use < s.limit),
        !is_fast && (s.fastlane_tokens == 0 || s.limit <= 1) ==> (s.admits(is_fast)
            <==> s.general_in_use + s.fast_in_use < s.limit && s.general_in_use < s.limit),
        !is_fast && s.fastlane_tokens >= 1 && s.limit >= 2 ==> (s.admits(is_fast)
            <==> s.general_in_use + s.fast_in_use < s.limit && s.general_in_use + 1 < s.limit),
{
}

/// A slot is counted in the class of the request that takes it, and in no other.
pub proof fn a_slot_is_counted_in_its_class(s: AdmissionState)
    ensures
        s.taken(true).fast_in_use == s.fast_in_use + 1,
        s.taken(true).general_in_use == s.general_in_use,
        s.taken(false).general_in_use == s.general_in_use + 1,
        s.taken(false).fast_in_use == s.fast_in_use,
        s.taken(true).waiters == s.waiters,
        s.taken(false).waiters == s.waiters,
        s.taken(true).in_use() == s.in_use() + 1,
        s.taken(false).in_use() == s.in_use() + 1,
        s.fast_in_use > 0 ==> s.returned(true).in_use() == s.in_use() - 1,
        s.general_in_use > 0 ==> s.returned(false).in_use() == s.in_use() - 1,
{
}

/// A request weighs the tokens it brings and the tokens it may write, added up as
/// far as they can be; it is fast where it weighs less than the threshold.
pub proof fn a_request_weighs_its_tokens(s: AdmissionState, c: RequestCost, more: RequestCost)
    requires
        s.fastlane_tokens <= usize::MAX,
    ensures
        weight_of(c) <= usize::MAX,
        weight_of(c) < usize::MAX ==> weight_of(c) == c.prompt_tokens + c.max_tokens,
        weight_of(c) >= c.prompt_tokens && weight_of(c) >= c.max_tokens,
        c.prompt_tokens <= more.prompt_tokens && c.max_tokens <= more.max_tokens ==> weight_of(c)
            <= weight_of(more),
        s.is_fast_weight(weight_of(c)) <==> c.prompt_tokens + c.max_tokens < s.fastlane_tokens,
{
}

/// A queue is full once as many wait as may; one without a bound never is.
pub proof fn a_queue_is_full_at_its_bound(s: AdmissionState)
    requires
        s.queue_max >= 0,
    ensures
        s.queue_max == 0 ==> !s.queue_is_full(),
        s.queue_max > 0 ==> (s.queue_is_full() <==> s.waiters.len() >= s.queue_max),
{
}

/// Those whose task has gone leave the queue, nobody else does, and the others
/// stay in the order in which they came.
pub proof fn only_the_gone_leave(s: AdmissionState, gone: Seq<u64>, w: Priority)
    requires
        s.wf(),
    ensures
        s.without(gone).waiters.contains(w) <==> s.waiters.contains(w) && !gone.contains(w.seq),
        forall|i: int, j: int|
            0 <= i < j < s.without(gone).waiters.len() ==> (#[trigger] s.without(gone).waiters[i]).seq
                < (#[trigger] s.without(gone).waiters[j]).seq,
        s.without(gone).in_use() == s.in_use(),
{
    still_waiting_in_order(s.waiters, gone, s.next_seq);
    stays_unless_gone(s.waiters, gone, w);
}

proof fn stays_unless_gone(waiters: Seq<Priority>, gone: Seq<u64>, w: Priority)
    ensures
        still_waiting(waiters, gone).contains(w) <==> waiters.contains(w) && !gone.contains(w.seq),
    decreases waiters.len(),
{
    if waiters.len() > 0 {
        let rest = waiters.drop_last();
        let kept = still_waiting(rest, gone);
        stays_unless_gone(rest, gone, w);
        let all = still_waiting(waiters, gone);
        if waiters.contains(w) && !gone.contains(w.seq) {
            let i = choose|i: int| 0 <= i < waiters.len() && waiters[i] == w;
            if i < rest.len() {
                assert(rest[i] == w);
                let k = choose|k: int| 0 <= k < kept.len() && kept[k] == w;
                assert(all[k] == w);
            } else {
                assert(all[all.len() - 1] == w);
            }
        }
        if all.contains(w) {
            let k = choose|k: int| 0 <= k < all.len() && all[k] == w;
            if k < kept.len() {
                assert(kept[k] == w);
                let i = choose|i: int| 0 <= i < rest.len() && rest[i] == w;
                assert(waiters[i] == w);
            } else {
                assert(waiters[waiters.len() - 1] == w);
            }
        }
    }
}

/// A grant goes to the waiter that was admitted, under its number, with a slot of
/// its class that is counted.
pub proof fn grants_go_to_the_admitted(admitted: Seq<Priority>, k: int)
    requires
        0 <= k < admitted.len(),
    ensures
        grants_for(admitted).len() == admitted.len(),
        grants_for(admitted)[k].seq == admitted[k].seq,
        grants_for(admitted)[k].guard.is_fast == admitted[k].is_fast,
        grants_for(admitted)[k].guard.armed,
{
}


/// The shortest job goes first: the first that is admitted weighs no more than any
/// waiter of its class that could have been, came before those that weigh the
/// same, and is of the fast lane where any such waiter is.
pub proof fn the_shortest_job_goes_first(s: AdmissionState, j: int)
    requires
        s.wf(),
        0 <= j < s.waiters.len(),
        s.admits(s.waiters[j].is_fast),
    ensures
        s.pumped().1.len() > 0,
        s.waiters[j].is_fast ==> s.pumped().1[0].is_fast,
        s.pumped().1[0].is_fast == s.waiters[j].is_fast ==> s.pumped().1[0].cost
            <= s.waiters[j].cost,
        s.pumped().1[0].is_fast == s.waiters[j].is_fast && s.pumped().1[0].cost
            == s.waiters[j].cost ==> s.pumped().1[0].seq <= s.waiters[j].seq,
{
    the_next_waiter_is_the_best(s, j);
}

/// Of two that are admitted together the fast one goes before the general one, and
/// in the same class the lighter before the heavier, or else the earlier.
pub proof fn they_are_admitted_in_order(s: AdmissionState, i: int, k: int)
    requires
        s.wf(),
        s.limit <= usize::MAX,
        0 <= i < k < s.pumped().1.len(),
    ensures
        s.pumped().1[i].is_fast || !s.pumped().1[k].is_fast,
        s.pumped().1[i].is_fast == s.pumped().1[k].is_fast ==> s.pumped().1[i].cost
            < s.pumped().1[k].cost || (s.pumped().1[i].cost == s.pumped().1[k].cost
            && s.pumped().1[i].seq < s.pumped().1[k].seq),
    decreases s.waiters.len(),
{
    let b = s.best()->0;
    assert(s.is_best(b));
    let t = s.granted(b);
    granting_keeps_order(s, b);
    if i > 0 {
        assert(s.pumped().1[i] == t.pumped().1[i - 1]);
        assert(s.pumped().1[k] == t.pumped().1[k - 1]);
        they_are_admitted_in_order(t, i - 1, k - 1);
    } else {
        assert(s.pumped().1[k] == t.pumped().1[k - 1]);
        admitted_were_waiting(t, k - 1);
        later_ones_could_go(t, k - 1);
        let w = s.pumped().1[k];
        let m = choose|m: int| 0 <= m < t.waiters.len() && t.waiters[m] == w;
        let at = if m < b {
            m
        } else {
            m + 1
        };
        assert(s.waiters[at] == w);
        assert(preferred(s.waiters[b], s.waiters[at]));
    }
}

/// Nobody is passed over: whoever is left waiting would have gone after everyone
/// who was admitted.
pub proof fn nobody_is_passed_over(s: AdmissionState, i: int, j: int)
    requires
        s.wf(),
        s.limit <= usize::MAX,
        0 <= i < s.pumped().1.len(),
        0 <= j < s.pumped().0.waiters.len(),
    ensures
        s.pumped().1[i].is_fast || !s.pumped().0.waiters[j].is_fast,
        s.pumped().1[i].is_fast == s.pumped().0.waiters[j].is_fast ==> s.pumped().1[i].cost
            < s.pumped().0.waiters[j].cost || (s.pumped().1[i].cost
            == s.pumped().0.waiters[j].cost && s.pumped().1[i].seq
            < s.pumped().0.waiters[j].seq),
    decreases s.waiters.len(),
{
    let b = s.best()->0;
    assert(s.is_best(b));
    let t = s.granted(b);
    granting_keeps_order(s, b);
    assert(s.pumped().0 == t.pumped().0);
    if i > 0 {
        assert(s.pumped().1[i] == t.pumped().1[i - 1]);
        nobody_is_passed_over(t, i - 1, j);
    } else {
        let w = s.pumped().0.waiters[j];
        left_were_waiting(t, j);
        let m = choose|m: int| 0 <= m < t.waiters.len() && t.waiters[m] == w;
        let at = if m < b {
            m
        } else {
            m + 1
        };
        assert(s.waiters[at] == w);
        if s.admits(w.is_fast) {
            assert(preferred(s.waiters[b], s.waiters[at]));
        }
    }
}

proof fn granting_keeps_order(s: AdmissionState, b: int)
    requires
        s.wf(),
        s.limit <= usize::MAX,
        s.is_best(b),
    ensures
        s.granted(b).wf(),
        forall|k: int|
            0 <= k < s.granted(b).waiters.len() ==> #[trigger] s.granted(b).waiters[k] == (if k < b {
                s.waiters[k]
            } else {
                s.waiters[k + 1]
            }),
{
}

/// Whoever is admitted could have been admitted at the start.
proof fn later_ones_could_go(s: AdmissionState, k: int)
    requires
        0 <= k < s.pumped().1.len(),
    ensures
        s.admits(s.pumped().1[k].is_fast),
    decreases s.waiters.len(),
{
    let b = s.best()->0;
    assert(s.is_best(b));
    let t = s.granted(b);
    if k > 0 {
        assert(s.pumped().1[k] == t.pumped().1[k - 1]);
        later_ones_could_go(t, k - 1);
    }
}

/// Whoever is left was waiting.
proof fn left_were_waiting(s: AdmissionState, j: int)
    requires
        0 <= j < s.pumped().0.waiters.len(),
    ensures
        s.waiters.contains(s.pumped().0.waiters[j]),
    decreases s.waiters.len(),
{
    match s.best() {
        Some(i) => if 0 <= i < s.waiters.len() {
            let t = s.granted(i);
            left_were_waiting(t, j);
            let w = s.pumped().0.waiters[j];
            let m = choose|m: int| 0 <= m < t.waiters.len() && t.waiters[m] == w;
            if m < i {
                assert(s.waiters[m] == w);
            } else {
                assert(s.waiters[m + 1] == w);
            }
        } else {
            assert(s.waiters[j] == s.pumped().0.waiters[j]);
        },
        None => {
            assert(s.waiters[j] == s.pumped().0.waiters[j]);
        },
    }
}

/// A request for a slot is answered at once: it holds a slot of its class where one
/// is free, waits under a number of its own with its weight where the queue has room,
/// and is refused, with nothing changed, only where it has none. A proxy's queue,
/// which has no bound, refuses nobody.
pub proof fn a_request_is_answered_at_once(
    s: AdmissionState,
    cost: RequestCost,
    r: Result<Admission, AdmitError>,
    after: AdmissionState,
)
    requires
        s.wf(),
        0 <= s.next_seq < u64::MAX,
        0 <= s.fastlane_tokens <= usize::MAX,
        0 <= s.queue_max,
        asked(s, cost, r, after),
    ensures
        ({
            let fast = cost.prompt_tokens + cost.max_tokens < s.fastlane_tokens;
            &&& s.admits(fast) ==> (r matches Ok(Admission::Admitted(g)) && g.armed && g.is_fast
                == fast && after.in_use() == s.in_use() + 1 && after.waiters == s.waiters)
            &&& !s.admits(fast) && s.queue_max > 0 && s.waiters.len() >= s.queue_max ==> r is Err
                && after == s
            &&& !s.admits(fast) && (s.queue_max == 0 || s.waiters.len() < s.queue_max) ==> {
                &&& r == Ok::<Admission, AdmitError>(Admission::Queued(s.next_seq as u64))
                &&& after.waiters.len() == s.waiters.len() + 1
                &&& after.waiters.drop_last() == s.waiters
                &&& after.waiters.last().is_fast == fast
                &&& after.waiters.last().seq == s.next_seq
                &&& after.waiters.last().cost == weight_of(cost)
                &&& after.in_use() == s.in_use()
                &&& after.next_seq == s.next_seq + 1
            }
        }),
{
    a_request_weighs_its_tokens(s, cost, cost);
    let w = Priority {
        is_fast: s.is_fast_weight(weight_of(cost)),
        cost: weight_of(cost) as usize,
        seq: s.next_seq as u64,
    };
    assert(s.waiters.push(w).drop_last() =~= s.waiters);
}

/// A limit is at least one, and is what was set where that is.
pub proof fn a_limit_is_at_least_one(n: usize)
    ensures
        at_least_one(n) >= 1,
        n >= 1 ==> at_least_one(n) == n,
{
}

/// A slot that nobody holds cannot be given back: the count stays at none.
pub proof fn nothing_is_given_back_twice(s: AdmissionState)
    ensures
        s.fast_in_use == 0 ==> s.returned(true) == s,
        s.general_in_use == 0 ==> s.returned(false) == s,
        s.fast_in_use > 0 ==> s.returned(true).fast_in_use == s.fast_in_use - 1
            && s.returned(true).general_in_use == s.general_in_use,
        s.general_in_use > 0 ==> s.returned(false).general_in_use == s.general_in_use - 1
            && s.returned(false).fast_in_use == s.fast_in_use,
        forall|n: int| (#[trigger] s.limited(n)).limit == n && s.limited(n).waiters == s.waiters
            && s.limited(n).in_use() == s.in_use(),
{
}

} // verus!
