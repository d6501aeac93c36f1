//! Speculative decoding: a draft proposes tokens, a target verifies them in one
//! forward. What comes out is what the target alone would have written.

use crate::mlx_native_backend::config::has_token;
use crate::mlx_native_backend::prefix::part;
use vstd::prelude::*;

verus! {

/// The length of the longest common prefix.
pub open spec fn common_prefix(a: Seq<u32>, b: Seq<u32>) -> int
    decreases a.len(),
{
    if a.len() == 0 || b.len() == 0 || a[0] != b[0] {
        0
    } else {
        1 + common_prefix(a.drop_first(), b.drop_first())
    }
}

proof fn common_prefix_is(a: Seq<u32>, b: Seq<u32>, n: int)
    requires
        0 <= n <= a.len(),
        n <= b.len(),
        forall|i: int| 0 <= i < n ==> #[trigger] a[i] == b[i],
        n == a.len() || n == b.len() || a[n] != b[n],
    ensures
        common_prefix(a, b) == n,
    decreases n,
{
    if n > 0 {
        assert(a[0] == b[0]);
        let x = a.drop_first();
        let y = b.drop_first();
        assert forall|i: int| 0 <= i < n - 1 implies #[trigger] x[i] == y[i] by {
            assert(a[i + 1] == b[i + 1]);
        }
        common_prefix_is(x, y, n - 1);
    }
}

/// What two lists have in common at their start is a start of both, and they
/// differ behind it.
pub proof fn the_common_prefix_is_common(a: Seq<u32>, b: Seq<u32>)
    ensures
        0 <= common_prefix(a, b) <= a.len(),
        common_prefix(a, b) <= b.len(),
        a.subrange(0, common_prefix(a, b)) == b.subrange(0, common_prefix(a, b)),
        common_prefix(a, b) < a.len() && common_prefix(a, b) < b.len() ==> a[common_prefix(a, b)]
            != b[common_prefix(a, b)],
    decreases a.len(),
{
    if !(a.len() == 0 || b.len() == 0 || a[0] != b[0]) {
        let x = a.drop_first();
        let y = b.drop_first();
        the_common_prefix_is_common(x, y);
        let n = common_prefix(x, y);
        assert forall|i: int| 0 <= i < n + 1 implies a[i] == b[i] by {
            if i > 0 {
                assert(x.subrange(0, n)[i - 1] == y.subrange(0, n)[i - 1]);
            }
        }
        assert(a.subrange(0, n + 1) =~= b.subrange(0, n + 1));
    }
}

/// The length of the longest common prefix of two lists of tokens.
pub fn common_prefix_len(a: &Vec<u32>, b: &Vec<u32>) -> (r: usize)
    ensures
        r == common_prefix(a@, b@),
        r <= a@.len(),
        r <= b@.len(),
{
    let mut n: usize = 0;
    while n < a.len() && n < b.len() && a[n] == b[n]
        invariant
            n <= a.len(),
            n <= b.len(),
            forall|i: int| 0 <= i < n ==> #[trigger] a@[i] == b@[i],
        decreases a.len() - n,
    {
        n = n + 1;
    }
    proof {
        common_prefix_is(a@, b@, n as int);
    }
    n
}

// ---------------------------------------------------------------------------
// Target
// ---------------------------------------------------------------------------

/// What verifying a draft gives.
pub struct Verify {
    /// The tokens that the target writes.
    pub emit: Vec<u32>,
    /// Proposed tokens that stand.
    pub accepted: usize,
    /// The turn has ended.
    pub eos: bool,
}

/// How many proposals stand, from `i` on: each is the target's own choice, and
/// none before the last ends the turn.
pub open spec fn accepted_from(
    draft: Seq<u32>,
    choices: Seq<u32>,
    eos: Seq<u32>,
    i: int,
) -> int
    decreases draft.len() - i,
{
    if i < 0 || i >= draft.len() || draft[i] != choices[i] {
        0
    } else if eos.contains(choices[i]) {
        1
    } else {
        1 + accepted_from(draft, choices, eos, i + 1)
    }
}

/// How many proposals stand.
pub open spec fn accepted_of(draft: Seq<u32>, choices: Seq<u32>, eos: Seq<u32>) -> int {
    accepted_from(draft, choices, eos, 0)
}

/// The last proposal that stands ends the turn.
pub open spec fn ends_within(draft: Seq<u32>, choices: Seq<u32>, eos: Seq<u32>) -> bool {
    let n = accepted_of(draft, choices, eos);
    n > 0 && eos.contains(choices[n - 1])
}

/// How many tokens the target writes: the proposals that stand, and one of its own
/// behind them unless they end the turn.
pub open spec fn written_of(draft: Seq<u32>, choices: Seq<u32>, eos: Seq<u32>) -> int {
    let n = accepted_of(draft, choices, eos);
    if ends_within(draft, choices, eos) {
        n
    } else {
        n + 1
    }
}

proof fn accepted_is(draft: Seq<u32>, choices: Seq<u32>, eos: Seq<u32>, i: int, n: int)
    requires
        0 <= i <= n <= draft.len(),
        draft.len() <= choices.len(),
        forall|k: int| i <= k < n ==> #[trigger] draft[k] == choices[k],
        forall|k: int| i <= k < n - 1 ==> !eos.contains(#[trigger] choices[k]),
        (n > i && eos.contains(choices[n - 1])) || n == draft.len() || draft[n] != choices[n],
        n > i && !eos.contains(choices[n - 1]) ==> n == draft.len() || draft[n] != choices[n],
    ensures
        accepted_from(draft, choices, eos, i) == n - i,
    decreases n - i,
{
    if i < n {
        assert(draft[i] == choices[i]);
        if i == n - 1 {
            if !eos.contains(choices[i]) {
                accepted_is(draft, choices, eos, i + 1, n);
            }
        } else {
            assert(!eos.contains(choices[i]));
            accepted_is(draft, choices, eos, i + 1, n);
        }
    }
}

/// What stands of a draft is what the target itself chose, and only its last token
/// may end the turn.
pub proof fn what_stands_was_chosen(draft: Seq<u32>, choices: Seq<u32>, eos: Seq<u32>, i: int)
    requires
        0 <= i <= draft.len(),
        draft.len() <= choices.len(),
    ensures
        0 <= accepted_from(draft, choices, eos, i) <= draft.len() - i,
        forall|k: int|
            i <= k < i + accepted_from(draft, choices, eos, i) ==> #[trigger] draft[k]
                == choices[k],
        forall|k: int|
            i <= k < i + accepted_from(draft, choices, eos, i) - 1 ==> !eos.contains(
                #[trigger] choices[k],
            ),
    decreases draft.len() - i,
{
    if i < draft.len() && draft[i] == choices[i] && !eos.contains(choices[i]) {
        what_stands_was_chosen(draft, choices, eos, i + 1);
    }
}

/// Verifies a draft against the target's choices: `choices[i]` is what the target
/// chooses behind the first `i` proposals. The target's choices are written up to
/// the first that differs from the draft, or one more than the draft.
pub fn verify(draft: &Vec<u32>, choices: &Vec<u32>, eos: &Vec<u32>) -> (r: Verify)
    requires
        choices@.len() == draft@.len() + 1,
    ensures
        r.accepted == accepted_of(draft@, choices@, eos@),
        r.accepted <= draft@.len(),
        r.emit@ == choices@.subrange(0, written_of(draft@, choices@, eos@)),
        r.emit@.len() > 0,
        r.eos == eos@.contains(r.emit@.last()),
{
    let mut emit: Vec<u32> = Vec::new();
    let mut i: usize = 0;
    while i < draft.len()
        invariant
            i <= draft.len(),
            choices@.len() == draft@.len() + 1,
            emit@ == choices@.subrange(0, i as int),
            forall|k: int| 0 <= k < i ==> #[trigger] draft@[k] == choices@[k],
            forall|k: int| 0 <= k < i ==> !eos@.contains(#[trigger] choices@[k]),
        decreases draft.len() - i,
    {
        let t = choices[i];
        let ends = has_token(eos, t);
        emit.push(t);
        assert(emit@ =~= choices@.subrange(0, i + 1));
        if draft[i] != t {
            proof {
                accepted_is(draft@, choices@, eos@, 0, i as int);
            }
            return Verify { emit, accepted: i, eos: ends };
        }
        i = i + 1;
        if ends {
            proof {
                accepted_is(draft@, choices@, eos@, 0, i as int);
            }
            return Verify { emit, accepted: i, eos: true };
        }
    }
    proof {
        accepted_is(draft@, choices@, eos@, 0, i as int);
    }
    let t = choices[i];
    let ends = has_token(eos, t);
    emit.push(t);
    assert(emit@ =~= choices@.subrange(0, i + 1));
    Verify { emit, accepted: i, eos: ends }
}

/// The target's cache: the first `kv_len` tokens of the text are in it.
pub struct Target {
    pub kv_len: usize,
    pub forwards: usize,
}

impl Target {
    pub fn new() -> (r: Self)
        ensures
            r.kv_len == 0,
            r.forwards == 0,
    {
        Target { kv_len: 0, forwards: 0 }
    }

    /// What is read in one forward: what is not in the cache yet, and the draft.
    pub fn feed(&self, ctx: &Vec<u32>, draft: &Vec<u32>) -> (r: Vec<u32>)
        requires
            self.kv_len <= ctx@.len(),
        ensures
            r@ == ctx@.subrange(self.kv_len as int, ctx@.len() as int) + draft@,
    {
        let mut out = part(ctx, self.kv_len, ctx.len());
        let ghost head = out@;
        let mut i: usize = 0;
        assert(out@ =~= head + draft@.subrange(0, 0));
        while i < draft.len()
            invariant
                i <= draft.len(),
                out@ == head + draft@.subrange(0, i as int),
            decreases draft.len() - i,
        {
            out.push(draft[i]);
            i = i + 1;
            assert(out@ =~= head + draft@.subrange(0, i as int));
        }
        assert(draft@.subrange(0, i as int) =~= draft@);
        out
    }

    /// The forward came back with a choice behind each token that was read. What
    /// did not stand is cut from the cache again: `keep` tokens stay in it.
    pub fn verify(
        &mut self,
        ctx: &Vec<u32>,
        draft: &Vec<u32>,
        predictions: &Vec<u32>,
        eos: &Vec<u32>,
    ) -> (r: Verify)
        requires
            old(self).kv_len < ctx@.len(),
            ctx@.len() + draft@.len() <= usize::MAX,
            old(self).forwards < usize::MAX,
            predictions@.len() == ctx@.len() - old(self).kv_len + draft@.len(),
        ensures
            ({
                let d = ctx@.len() - old(self).kv_len;
                let choices = predictions@.subrange(d - 1, predictions@.len() as int);
                &&& r.accepted == accepted_of(draft@, choices, eos@)
                &&& r.accepted <= draft@.len()
                &&& r.emit@ == choices.subrange(0, written_of(draft@, choices, eos@))
                &&& r.emit@.len() > 0
                &&& r.eos == eos@.contains(r.emit@.last())
            }),
            final(self).kv_len == ctx@.len() + r.accepted,
            final(self).forwards == old(self).forwards + 1,
    {
        let d = ctx.len() - self.kv_len;
        let choices = part(predictions, d - 1, predictions.len());
        let v = verify(draft, &choices, eos);
        self.kv_len = ctx.len() + v.accepted;
        self.forwards = self.forwards + 1;
        v
    }
}

// ---------------------------------------------------------------------------
// Draft
// ---------------------------------------------------------------------------

/// What a draft does next.
pub enum DraftStep {
    /// Read these tokens and choose the next.
    Read(Vec<u32>),
    /// Nothing more to propose.
    Done,
}

/// The draft's cache: the tokens that are in it.
pub struct Draft {
    pub fed: Vec<u32>,
    /// Tokens that are read next.
    pub pending: Vec<u32>,
    pub proposed: Vec<u32>,
}

impl Draft {
    pub fn new() -> (r: Self)
        ensures
            r.fed@.len() == 0,
            r.pending@.len() == 0,
            r.proposed@.len() == 0,
    {
        Draft { fed: Vec::new(), pending: Vec::new(), proposed: Vec::new() }
    }

    /// Starts a round: cuts from the cache what the text no longer agrees with, so
    /// that `keep` tokens stay, and sets out to read the rest of the text.
    pub fn begin(&mut self, ctx: &Vec<u32>) -> (keep: usize)
        ensures
            keep == common_prefix(old(self).fed@, ctx@),
            final(self).fed@ == ctx@.subrange(0, keep as int),
            final(self).pending@ == ctx@.subrange(keep as int, ctx@.len() as int),
            final(self).proposed@.len() == 0,
    {
        let keep = common_prefix_len(&self.fed, ctx);
        proof {
            the_common_prefix_is_common(self.fed@, ctx@);
        }
        self.fed.truncate(keep);
        assert(self.fed@ =~= ctx@.subrange(0, keep as int));
        self.pending = part(ctx, keep, ctx.len());
        self.proposed = Vec::new();
        keep
    }

    /// What is read next, while fewer than `k` tokens are proposed and the last of
    /// them does not end the turn. A text that is in the cache already gives
    /// nothing to propose from.
    pub fn next(&self, k: usize, eos: &Vec<u32>) -> (r: DraftStep)
        ensures
            r is Read <==> self.proposed@.len() < k && self.pending@.len() > 0 && !(
            self.proposed@.len() > 0 && eos@.contains(self.proposed@.last())),
            r matches DraftStep::Read(t) ==> t@ == self.pending@,
    {
        if self.proposed.len() >= k || self.pending.len() == 0 {
            return DraftStep::Done;
        }
        if self.proposed.len() > 0 && has_token(eos, self.proposed[self.proposed.len() - 1]) {
            return DraftStep::Done;
        }
        DraftStep::Read(part(&self.pending, 0, self.pending.len()))
    }

    /// The pending tokens were read, and the draft chose `token`.
    pub fn chose(&mut self, token: u32)
        ensures
            final(self).fed@ == old(self).fed@ + old(self).pending@,
            final(self).proposed@ == old(self).proposed@.push(token),
            final(self).pending@ == seq![token],
    {
        let ghost head = self.fed@;
        let ghost tail = self.pending@;
        let mut i: usize = 0;
        assert(self.fed@ =~= head + tail.subrange(0, 0));
        while i < self.pending.len()
            invariant
                i <= self.pending.len(),
                self.pending@ == tail,
                self.proposed@ == old(self).proposed@,
                self.fed@ == head + tail.subrange(0, i as int),
            decreases self.pending.len() - i,
        {
            self.fed.push(self.pending[i]);
            i = i + 1;
            assert(self.fed@ =~= head + tail.subrange(0, i as int));
        }
        assert(tail.subrange(0, i as int) =~= tail);
        self.proposed.push(token);
        let mut next: Vec<u32> = Vec::new();
        next.push(token);
        assert(next@ =~= seq![token]);
        self.pending = next;
    }

    /// The cache of the draft holds the text, and what it proposed but for the
    /// last token.
    pub open spec fn follows(&self, ctx: Seq<u32>) -> bool {
        self.proposed@.len() > 0 ==> self.fed@ + self.pending@ == ctx + self.proposed@
            && self.pending@ == seq![self.proposed@.last()]
    }
}

// ---------------------------------------------------------------------------
// Laws
// ---------------------------------------------------------------------------

/// A model that always takes the most likely token: what it writes behind a text.
pub open spec fn greedy_text(g: spec_fn(Seq<u32>) -> u32, ctx: Seq<u32>, n: int) -> Seq<u32>
    decreases n,
{
    if n <= 0 {
        Seq::empty()
    } else {
        let rest = greedy_text(g, ctx, n - 1);
        rest.push(g(ctx + rest))
    }
}

proof fn greedy_text_len(g: spec_fn(Seq<u32>) -> u32, ctx: Seq<u32>, n: int)
    requires
        n >= 0,
    ensures
        greedy_text(g, ctx, n).len() == n,
    decreases n,
{
    if n > 0 {
        greedy_text_len(g, ctx, n - 1);
    }
}

/// Whatever the draft proposes, the target writes what it would have written
/// alone: each round writes the next tokens of its own greedy text, at least one.
/// `g` is the target's choice behind a text.
pub proof fn speculation_changes_nothing(
    g: spec_fn(Seq<u32>) -> u32,
    ctx: Seq<u32>,
    draft: Seq<u32>,
    choices: Seq<u32>,
    eos: Seq<u32>,
)
    requires
        choices.len() == draft.len() + 1,
        forall|i: int|
            0 <= i <= draft.len() ==> #[trigger] choices[i] == g(ctx + draft.subrange(0, i)),
    ensures
        ({
            let n = written_of(draft, choices, eos);
            &&& 1 <= n <= draft.len() + 1
            &&& choices.subrange(0, n) == greedy_text(g, ctx, n)
        }),
{
    what_stands_was_chosen(draft, choices, eos, 0);
    let n = written_of(draft, choices, eos);
    let a = accepted_of(draft, choices, eos);
    chosen_is_greedy(g, ctx, draft, choices, n, a);
}

proof fn chosen_is_greedy(
    g: spec_fn(Seq<u32>) -> u32,
    ctx: Seq<u32>,
    draft: Seq<u32>,
    choices: Seq<u32>,
    n: int,
    a: int,
)
    requires
        choices.len() == draft.len() + 1,
        0 <= n <= a + 1,
        0 <= a <= draft.len(),
        forall|k: int| 0 <= k < a ==> #[trigger] draft[k] == choices[k],
        forall|i: int|
            0 <= i <= draft.len() ==> #[trigger] choices[i] == g(ctx + draft.subrange(0, i)),
    ensures
        choices.subrange(0, n) == greedy_text(g, ctx, n),
    decreases n,
{
    if n == 0 {
        assert(choices.subrange(0, 0) =~= Seq::empty());
    } else {
        chosen_is_greedy(g, ctx, draft, choices, n - 1, a);
        assert(draft.subrange(0, n - 1) =~= choices.subrange(0, n - 1)) by {
            assert forall|k: int| 0 <= k < n - 1 implies draft[k] == choices[k] by {}
        }
        assert(choices[n - 1] == g(ctx + draft.subrange(0, n - 1)));
        assert(choices.subrange(0, n) =~= choices.subrange(0, n - 1).push(choices[n - 1]));
    }
}

/// Rounds add up: the greedy text behind a text and its next tokens is the rest of
/// the greedy text behind the text.
pub proof fn rounds_add_up(g: spec_fn(Seq<u32>) -> u32, ctx: Seq<u32>, m: int, n: int)
    requires
        m >= 0,
        n >= 0,
    ensures
        greedy_text(g, ctx, m) + greedy_text(g, ctx + greedy_text(g, ctx, m), n) == greedy_text(
            g,
            ctx,
            m + n,
        ),
    decreases n,
{
    let first = greedy_text(g, ctx, m);
    if n == 0 {
        assert(first + Seq::<u32>::empty() =~= first);
    } else {
        rounds_add_up(g, ctx, m, n - 1);
        let rest = greedy_text(g, ctx + first, n - 1);
        assert((ctx + first) + rest =~= ctx + (first + rest));
        assert(first + rest.push(g(ctx + first + rest)) =~= (first + rest).push(
            g(ctx + (first + rest)),
        ));
    }
}

/// A turn is never written past its end: only the last token that a round writes
/// may end the turn.
pub proof fn nothing_is_written_past_the_end(draft: Seq<u32>, choices: Seq<u32>, eos: Seq<u32>)
    requires
        choices.len() == draft.len() + 1,
    ensures
        forall|i: int|
            0 <= i < written_of(draft, choices, eos) - 1 ==> !eos.contains(#[trigger] choices[i]),
{
    what_stands_was_chosen(draft, choices, eos, 0);
}

/// A draft that chose what the target chooses stands as a whole, so that a forward
/// of the target writes one token more than were proposed.
pub proof fn a_perfect_draft_stands(draft: Seq<u32>, choices: Seq<u32>, eos: Seq<u32>)
    requires
        choices.len() == draft.len() + 1,
        forall|i: int| 0 <= i < draft.len() ==> #[trigger] draft[i] == choices[i],
        forall|i: int| 0 <= i < draft.len() ==> !eos.contains(#[trigger] choices[i]),
    ensures
        accepted_of(draft, choices, eos) == draft.len(),
        written_of(draft, choices, eos) == draft.len() + 1,
{
    accepted_is(draft, choices, eos, 0, draft.len() as int);
}

/// Every step of a draft keeps its cache in line with the text.
pub proof fn a_draft_follows_the_text(ctx: Seq<u32>, before: Draft, after: Draft, token: u32)
    requires
        before.proposed@.len() == 0 ==> before.fed@ + before.pending@ == ctx,
        before.follows(ctx),
        after.fed@ == before.fed@ + before.pending@,
        after.proposed@ == before.proposed@.push(token),
        after.pending@ == seq![token],
    ensures
        after.follows(ctx),
{
    if before.proposed@.len() == 0 {
        assert(after.fed@ + after.pending@ =~= ctx + after.proposed@);
    } else {
        assert(after.fed@ + after.pending@ =~= ctx + after.proposed@);
    }
}

/// As much of a draft stands as the target chose: where the first `n` proposals are
/// its own choices and none before the last of them ends the turn, they all stand.
/// Where the `n`th ends the turn nothing behind it is written, and where the next
/// one differs the target's own choice is written in its place.
pub proof fn as_much_stands_as_was_chosen(
    draft: Seq<u32>,
    choices: Seq<u32>,
    eos: Seq<u32>,
    n: int,
)
    requires
        choices.len() == draft.len() + 1,
        0 <= n <= draft.len(),
        forall|i: int| 0 <= i < n ==> #[trigger] draft[i] == choices[i],
        forall|i: int| 0 <= i < n - 1 ==> !eos.contains(#[trigger] choices[i]),
    ensures
        accepted_of(draft, choices, eos) >= n,
        n > 0 && eos.contains(choices[n - 1]) ==> accepted_of(draft, choices, eos) == n
            && written_of(draft, choices, eos) == n && ends_within(draft, choices, eos),
        (n == 0 || !eos.contains(choices[n - 1])) && n < draft.len() && draft[n] != choices[n]
            ==> accepted_of(draft, choices, eos) == n && written_of(draft, choices, eos) == n + 1
            && !ends_within(draft, choices, eos),
{
    stands_at_least(draft, choices, eos, 0, n);
    if n > 0 && eos.contains(choices[n - 1]) {
        accepted_is(draft, choices, eos, 0, n);
    } else if n < draft.len() && draft[n] != choices[n] {
        accepted_is(draft, choices, eos, 0, n);
    }
}

proof fn stands_at_least(draft: Seq<u32>, choices: Seq<u32>, eos: Seq<u32>, i: int, n: int)
    requires
        choices.len() == draft.len() + 1,
        0 <= i <= n <= draft.len(),
        forall|k: int| i <= k < n ==> #[trigger] draft[k] == choices[k],
        forall|k: int| i <= k < n - 1 ==> !eos.contains(#[trigger] choices[k]),
    ensures
        accepted_from(draft, choices, eos, i) >= n - i,
    decreases n - i,
{
    if i < n {
        assert(draft[i] == choices[i]);
        if i < n - 1 {
            assert(!eos.contains(choices[i]));
            stands_at_least(draft, choices, eos, i + 1, n);
        } else if !eos.contains(choices[i]) {
            what_stands_was_chosen(draft, choices, eos, i + 1);
        }
    } else {
        what_stands_was_chosen(draft, choices, eos, i);
    }
}

} // verus!
