//! What every engine does with the tokens it produces.

use vstd::prelude::*;

verus! {

/// Tokens that are looked at for a loop.
pub const REPEAT_WINDOW: usize = 64;

/// The longest phrase whose repetition is a loop.
pub const MAX_PERIOD: usize = 16;

/// The last tokens of a window repeat with a period.
pub open spec fn has_period(tail: Seq<u32>, period: int) -> bool {
    forall|i: int| period <= i < tail.len() ==> #[trigger] tail[i] == tail[i - period]
}

/// The last tokens of `ids` are a short phrase over and over.
pub open spec fn runaway(ids: Seq<u32>) -> bool {
    ids.len() >= REPEAT_WINDOW && exists|p: int|
        1 <= p <= MAX_PERIOD && #[trigger] has_period(
            ids.subrange(ids.len() - REPEAT_WINDOW as int, ids.len() as int),
            p,
        )
}

fn repeats(ids: &Vec<u32>, period: usize) -> (r: bool)
    requires
        ids.len() >= REPEAT_WINDOW,
        1 <= period <= MAX_PERIOD,
    ensures
        r == has_period(
            ids@.subrange(ids@.len() - REPEAT_WINDOW as int, ids@.len() as int),
            period as int,
        ),
{
    let base: usize = ids.len() - REPEAT_WINDOW;
    let ghost tail = ids@.subrange(base as int, ids@.len() as int);
    let mut i: usize = period;
    while i < REPEAT_WINDOW
        invariant
            1 <= period <= i <= REPEAT_WINDOW,
            base + REPEAT_WINDOW == ids.len(),
            tail == ids@.subrange(base as int, ids@.len() as int),
            forall|k: int| period <= k < i ==> #[trigger] tail[k] == tail[k - period],
        decreases REPEAT_WINDOW - i,
    {
        if ids[base + i] != ids[base + i - period] {
            assert(tail[i as int] != tail[i - period]);
            return false;
        }
        assert(tail[i as int] == tail[i - period]);
        i = i + 1;
    }
    true
}

/// Whether a model has run into a loop: the last tokens are a short phrase over
/// and over.
pub fn is_runaway_loop(ids: &Vec<u32>) -> (r: bool)
    ensures
        r == runaway(ids@),
{
    if ids.len() < REPEAT_WINDOW {
        return false;
    }
    let ghost tail = ids@.subrange(ids@.len() - REPEAT_WINDOW as int, ids@.len() as int);
    let mut p: usize = 1;
    while p <= MAX_PERIOD
        invariant
            1 <= p <= MAX_PERIOD + 1,
            ids.len() >= REPEAT_WINDOW,
            tail == ids@.subrange(ids@.len() - REPEAT_WINDOW as int, ids@.len() as int),
            forall|k: int| 1 <= k < p ==> !#[trigger] has_period(tail, k),
        decreases MAX_PERIOD + 1 - p,
    {
        if repeats(ids, p) {
            assert(has_period(tail, p as int));
            return true;
        }
        p = p + 1;
    }
    false
}

/// One token over and over is a loop once it fills the window.
pub proof fn a_single_token_runs_away(ids: Seq<u32>, t: u32)
    requires
        ids.len() >= REPEAT_WINDOW,
        forall|i: int| ids.len() - REPEAT_WINDOW <= i < ids.len() ==> #[trigger] ids[i] == t,
    ensures
        runaway(ids),
{
    let tail = ids.subrange(ids.len() - REPEAT_WINDOW as int, ids.len() as int);
    assert(has_period(tail, 1));
}

/// Only the last tokens matter: what stands before the window neither makes a loop
/// nor hides one.
pub proof fn only_the_window_matters(a: Seq<u32>, b: Seq<u32>, tail: Seq<u32>)
    requires
        tail.len() == REPEAT_WINDOW,
    ensures
        runaway(a + tail) == runaway(b + tail),
{
    let s = a + tail;
    let t = b + tail;
    assert(s.subrange(s.len() - REPEAT_WINDOW as int, s.len() as int) =~= tail);
    assert(t.subrange(t.len() - REPEAT_WINDOW as int, t.len() as int) =~= tail);
}

/// A loop is a phrase of at most sixteen tokens that the last sixty-four tokens
/// repeat: where they do the model has run away, with fewer tokens it has not.
pub proof fn a_loop_is_a_phrase_repeated(ids: Seq<u32>, period: int)
    ensures
        ids.len() < 64 ==> !runaway(ids),
        ids.len() >= 64 && 1 <= period <= 16 && (forall|i: int|
            ids.len() - 64 + period <= i < ids.len() ==> #[trigger] ids[i] == ids[i - period])
            ==> runaway(ids),
{
    if ids.len() >= 64 && 1 <= period <= 16 && (forall|i: int|
        ids.len() - 64 + period <= i < ids.len() ==> #[trigger] ids[i] == ids[i - period]) {
        let n = ids.len() - 64;
        let tail = ids.subrange(ids.len() - REPEAT_WINDOW as int, ids.len() as int);
        assert forall|i: int| period <= i < tail.len() implies #[trigger] tail[i] == tail[i
            - period] by {
            assert(tail[i] == ids[n + i]);
            assert(tail[i - period] == ids[n + i - period]);
        }
        assert(has_period(tail, period));
    }
}

/// Tokens that break every short phrase are no loop: for each length up to sixteen
/// one of the last sixty-four differs from the token so far before it.
pub proof fn varied_tokens_are_no_loop(ids: Seq<u32>, breaks: Seq<int>)
    requires
        breaks.len() == 17,
        ids.len() >= 64,
        forall|p: int|
            1 <= p <= 16 ==> ids.len() - 64 + p <= #[trigger] breaks[p] < ids.len()
                && ids[breaks[p]] != ids[breaks[p] - p],
    ensures
        !runaway(ids),
{
    let n = ids.len() - 64;
    let tail = ids.subrange(ids.len() - REPEAT_WINDOW as int, ids.len() as int);
    assert forall|p: int| 1 <= p <= MAX_PERIOD implies !#[trigger] has_period(tail, p) by {
        let i = breaks[p] - n;
        assert(tail[i] == ids[breaks[p]]);
        assert(tail[i - p] == ids[breaks[p] - p]);
    }
}

} // verus!
