//! The caches of past conversations, for prompts that go on with one of them.

use crate::mlx_native_backend::config::Arch;
use vstd::prelude::*;

verus! {

pub open spec fn id_lists(v: Seq<Vec<u32>>) -> Seq<Seq<u32>> {
    Seq::new(v.len(), |i: int| v[i]@)
}

/// A prompt goes on with a conversation: it starts with it and is longer.
pub open spec fn extends(ids: Seq<u32>, conversation: Seq<u32>) -> bool {
    conversation.len() < ids.len() && ids.subrange(0, conversation.len() as int) == conversation
}

/// The longest conversation that a prompt goes on with; of equal ones the last.
pub open spec fn best(entries: Seq<Seq<u32>>, ids: Seq<u32>) -> Option<int>
    decreases entries.len(),
{
    if entries.len() == 0 {
        None
    } else {
        let last = entries.len() - 1;
        let rest = best(entries.drop_last(), ids);
        if extends(ids, entries[last]) {
            match rest {
                Some(i) => if entries[i].len() <= entries[last].len() {
                    Some(last)
                } else {
                    Some(i)
                },
                None => Some(last),
            }
        } else {
            rest
        }
    }
}

/// What is found is a conversation that the prompt goes on with, and none is
/// longer. Nothing is found only where there is none.
pub proof fn the_best_is_the_longest(entries: Seq<Seq<u32>>, ids: Seq<u32>)
    ensures
        match best(entries, ids) {
            Some(i) => {
                &&& 0 <= i < entries.len()
                &&& extends(ids, entries[i])
                &&& forall|k: int|
                    0 <= k < entries.len() && extends(ids, #[trigger] entries[k])
                        ==> entries[k].len() <= entries[i].len()
            },
            None => forall|k: int|
                0 <= k < entries.len() ==> !extends(ids, #[trigger] entries[k]),
        },
    decreases entries.len(),
{
    if entries.len() > 0 {
        let rest = entries.drop_last();
        the_best_is_the_longest(rest, ids);
        assert forall|k: int| 0 <= k < rest.len() implies #[trigger] entries[k] == rest[k] by {}
    }
}

fn goes_on(ids: &Vec<u32>, conversation: &Vec<u32>) -> (r: bool)
    ensures
        r == extends(ids@, conversation@),
{
    if conversation.len() >= ids.len() {
        return false;
    }
    let mut i: usize = 0;
    while i < conversation.len()
        invariant
            i <= conversation.len(),
            conversation.len() < ids.len(),
            forall|k: int| 0 <= k < i ==> ids@[k] == conversation@[k],
        decreases conversation.len() - i,
    {
        if ids[i] != conversation[i] {
            assert(ids@.subrange(0, conversation@.len() as int)[i as int]
                != conversation@[i as int]);
            return false;
        }
        i = i + 1;
    }
    assert(ids@.subrange(0, conversation@.len() as int) =~= conversation@);
    true
}

/// The caches of the conversations that were used last, the latest first. Models
/// with only attention layers keep theirs apart from the others.
pub struct PrefixStore<D, H> {
    pub dense_ids: Vec<Vec<u32>>,
    pub dense: Vec<D>,
    pub hybrid_ids: Vec<Vec<u32>>,
    pub hybrid: Vec<H>,
    pub cap: usize,
}

/// The list with one more in front, no longer than `cap`.
pub open spec fn pushed_front<T>(s: Seq<T>, x: T, cap: int) -> Seq<T> {
    let all = seq![x] + s;
    if all.len() <= cap {
        all
    } else {
        all.subrange(0, cap)
    }
}

fn best_of(entries: &Vec<Vec<u32>>, ids: &Vec<u32>) -> (r: Option<usize>)
    ensures
        match r {
            Some(i) => best(id_lists(entries@), ids@) == Some(i as int) && i < entries@.len(),
            None => best(id_lists(entries@), ids@) is None,
        },
{
    let ghost all = id_lists(entries@);
    let mut found: Option<usize> = None;
    let mut i: usize = 0;
    while i < entries.len()
        invariant
            i <= entries.len(),
            all == id_lists(entries@),
            match found {
                Some(k) => best(all.subrange(0, i as int), ids@) == Some(k as int) && k < i,
                None => best(all.subrange(0, i as int), ids@) is None,
            },
        decreases entries.len() - i,
    {
        let ghost part = all.subrange(0, i + 1);
        assert(part.drop_last() =~= all.subrange(0, i as int));
        assert(part[i as int] == entries@[i as int]@);
        if goes_on(ids, &entries[i]) {
            found = match found {
                Some(k) => {
                    assert(part[k as int] == entries@[k as int]@);
                    if entries[k].len() <= entries[i].len() {
                        Some(i)
                    } else {
                        Some(k)
                    }
                },
                None => Some(i),
            };
        }
        i = i + 1;
    }
    assert(all.subrange(0, i as int) =~= all);
    found
}

fn put_front<T>(v: &mut Vec<T>, x: T, cap: usize)
    ensures
        final(v)@ == pushed_front(old(v)@, x, cap as int),
{
    v.insert(0, x);
    assert(v@ =~= seq![x] + old(v)@);
    if v.len() > cap {
        v.truncate(cap);
    }
    assert(v@ =~= pushed_front(old(v)@, x, cap as int));
}

impl<D, H> PrefixStore<D, H> {
    pub open spec fn wf(&self) -> bool {
        &&& self.cap >= 1
        &&& self.dense_ids@.len() == self.dense@.len()
        &&& self.hybrid_ids@.len() == self.hybrid@.len()
        &&& self.dense@.len() <= self.cap
        &&& self.hybrid@.len() <= self.cap
    }

    /// A store for `cap` conversations.
    pub fn new(cap: usize) -> (r: Self)
        requires
            cap >= 1,
        ensures
            r.wf(),
            r.cap == cap,
            r.dense@.len() == 0,
            r.hybrid@.len() == 0,
    {
        PrefixStore {
            dense_ids: Vec::new(),
            dense: Vec::new(),
            hybrid_ids: Vec::new(),
            hybrid: Vec::new(),
            cap,
        }
    }

    /// The position of the longest conversation that a prompt goes on with.
    pub fn best_match(entries: &Vec<Vec<u32>>, ids: &Vec<u32>) -> (r: Option<usize>)
        ensures
            match r {
                Some(i) => best(id_lists(entries@), ids@) == Some(i as int) && i < entries@.len(),
                None => best(id_lists(entries@), ids@) is None,
            },
    {
        best_of(entries, ids)
    }

    /// Takes out the conversation that a prompt goes on with: its length and its
    /// cache.
    pub fn take_dense(&mut self, ids: &Vec<u32>) -> (r: Option<(usize, D)>)
        requires
            old(self).wf(),
        ensures
            final(self).wf(),
            final(self).cap == old(self).cap,
            final(self).hybrid_ids@ == old(self).hybrid_ids@,
            final(self).hybrid@ == old(self).hybrid@,
            match best(id_lists(old(self).dense_ids@), ids@) {
                Some(i) => {
                    &&& r is Some
                    &&& r->Some_0.0 == old(self).dense_ids@[i]@.len()
                    &&& r->Some_0.1 == old(self).dense@[i]
                    &&& final(self).dense_ids@ == old(self).dense_ids@.remove(i)
                    &&& final(self).dense@ == old(self).dense@.remove(i)
                },
                None => {
                    &&& r is None
                    &&& final(self).dense_ids@ == old(self).dense_ids@
                    &&& final(self).dense@ == old(self).dense@
                },
            },
            r matches Some((n, _)) ==> n < ids@.len(),
    {
        match best_of(&self.dense_ids, ids) {
            Some(i) => {
                proof {
                    the_best_is_the_longest(id_lists(self.dense_ids@), ids@);
                }
                let e = self.dense_ids.remove(i);
                let c = self.dense.remove(i);
                Some((e.len(), c))
            },
            None => None,
        }
    }

    /// Puts a conversation in front; the one that was used longest ago may fall
    /// out.
    pub fn put_dense(&mut self, ids: Vec<u32>, cache: D)
        requires
            old(self).wf(),
        ensures
            final(self).wf(),
            final(self).cap == old(self).cap,
            final(self).hybrid_ids@ == old(self).hybrid_ids@,
            final(self).hybrid@ == old(self).hybrid@,
            final(self).dense_ids@ == pushed_front(
                old(self).dense_ids@,
                ids,
                old(self).cap as int,
            ),
            final(self).dense@ == pushed_front(old(self).dense@, cache, old(self).cap as int),
    {
        put_front(&mut self.dense_ids, ids, self.cap);
        put_front(&mut self.dense, cache, self.cap);
    }

    /// Takes out the conversation that a prompt goes on with: its length and its
    /// cache.
    pub fn take_hybrid(&mut self, ids: &Vec<u32>) -> (r: Option<(usize, H)>)
        requires
            old(self).wf(),
        ensures
            final(self).wf(),
            final(self).cap == old(self).cap,
            final(self).dense_ids@ == old(self).dense_ids@,
            final(self).dense@ == old(self).dense@,
            match best(id_lists(old(self).hybrid_ids@), ids@) {
                Some(i) => {
                    &&& r is Some
                    &&& r->Some_0.0 == old(self).hybrid_ids@[i]@.len()
                    &&& r->Some_0.1 == old(self).hybrid@[i]
                    &&& final(self).hybrid_ids@ == old(self).hybrid_ids@.remove(i)
                    &&& final(self).hybrid@ == old(self).hybrid@.remove(i)
                },
                None => {
                    &&& r is None
                    &&& final(self).hybrid_ids@ == old(self).hybrid_ids@
                    &&& final(self).hybrid@ == old(self).hybrid@
                },
            },
            r matches Some((n, _)) ==> n < ids@.len(),
    {
        match best_of(&self.hybrid_ids, ids) {
            Some(i) => {
                proof {
                    the_best_is_the_longest(id_lists(self.hybrid_ids@), ids@);
                }
                let e = self.hybrid_ids.remove(i);
                let c = self.hybrid.remove(i);
                Some((e.len(), c))
            },
            None => None,
        }
    }

    /// Puts a conversation in front; the one that was used longest ago may fall
    /// out.
    pub fn put_hybrid(&mut self, ids: Vec<u32>, cache: H)
        requires
            old(self).wf(),
        ensures
            final(self).wf(),
            final(self).cap == old(self).cap,
            final(self).dense_ids@ == old(self).dense_ids@,
            final(self).dense@ == old(self).dense@,
            final(self).hybrid_ids@ == pushed_front(
                old(self).hybrid_ids@,
                ids,
                old(self).cap as int,
            ),
            final(self).hybrid@ == pushed_front(old(self).hybrid@, cache, old(self).cap as int),
    {
        put_front(&mut self.hybrid_ids, ids, self.cap);
        put_front(&mut self.hybrid, cache, self.cap);
    }
}

/// What a prompt can build on.
pub struct Reuse<D, H> {
    /// Tokens that are in the cache already.
    pub reuse_len: usize,
    pub dense: Option<D>,
    pub hybrid: Option<H>,
}

/// Looks for the conversation that a prompt goes on with, where caches are reused,
/// among those of the model's kind.
pub fn take_prefix<D, H>(
    store: &mut PrefixStore<D, H>,
    arch: Arch,
    enabled: bool,
    ids: &Vec<u32>,
) -> (r: Reuse<D, H>)
    requires
        old(store).wf(),
    ensures
        final(store).wf(),
        final(store).cap == old(store).cap,
        r.reuse_len > 0 ==> r.reuse_len < ids@.len(),
        r.reuse_len == 0 || r.dense is Some || r.hybrid is Some,
        !enabled ==> r.reuse_len == 0 && r.dense is None && r.hybrid is None && *final(store)
            == *old(store),
        enabled && arch.reuses_dense() ==> {
            &&& r.hybrid is None
            &&& final(store).hybrid_ids@ == old(store).hybrid_ids@
            &&& final(store).hybrid@ == old(store).hybrid@
            &&& match best(id_lists(old(store).dense_ids@), ids@) {
                Some(i) => {
                    &&& r.reuse_len == old(store).dense_ids@[i]@.len()
                    &&& r.dense == Some(old(store).dense@[i])
                    &&& final(store).dense_ids@ == old(store).dense_ids@.remove(i)
                    &&& final(store).dense@ == old(store).dense@.remove(i)
                },
                None => {
                    &&& r.reuse_len == 0
                    &&& r.dense is None
                    &&& final(store).dense_ids@ == old(store).dense_ids@
                    &&& final(store).dense@ == old(store).dense@
                },
            }
        },
        enabled && !arch.reuses_dense() ==> {
            &&& r.dense is None
            &&& final(store).dense_ids@ == old(store).dense_ids@
            &&& final(store).dense@ == old(store).dense@
            &&& match best(id_lists(old(store).hybrid_ids@), ids@) {
                Some(i) => {
                    &&& r.reuse_len == old(store).hybrid_ids@[i]@.len()
                    &&& r.hybrid == Some(old(store).hybrid@[i])
                    &&& final(store).hybrid_ids@ == old(store).hybrid_ids@.remove(i)
                    &&& final(store).hybrid@ == old(store).hybrid@.remove(i)
                },
                None => {
                    &&& r.reuse_len == 0
                    &&& r.hybrid is None
                    &&& final(store).hybrid_ids@ == old(store).hybrid_ids@
                    &&& final(store).hybrid@ == old(store).hybrid@
                },
            }
        },
{
    if !enabled {
        return Reuse { reuse_len: 0, dense: None, hybrid: None };
    }
    if arch.has_dense_prefix() {
        proof {
            the_best_is_the_longest(id_lists(store.dense_ids@), ids@);
        }
        match store.take_dense(ids) {
            Some((n, c)) => Reuse { reuse_len: n, dense: Some(c), hybrid: None },
            None => Reuse { reuse_len: 0, dense: None, hybrid: None },
        }
    } else {
        proof {
            the_best_is_the_longest(id_lists(store.hybrid_ids@), ids@);
        }
        match store.take_hybrid(ids) {
            Some((n, c)) => Reuse { reuse_len: n, dense: None, hybrid: Some(c) },
            None => Reuse { reuse_len: 0, dense: None, hybrid: None },
        }
    }
}

/// Keeps the cache of a conversation, where caches are reused and there is one to
/// keep: `dense` once anything was cached, `hybrid` once the prompt was read to
/// its end. The conversation is the prompt up to `conv_len`, without the tail
/// that only starts the answer.
pub fn keep_prefix<D, H>(
    store: &mut PrefixStore<D, H>,
    arch: Arch,
    enabled: bool,
    prompt: &Vec<u32>,
    conv_len: usize,
    dense: Option<D>,
    hybrid: Option<H>,
)
    requires
        old(store).wf(),
        conv_len <= prompt@.len(),
    ensures
        final(store).wf(),
        final(store).cap == old(store).cap,
        enabled && arch.reuses_dense() && dense is Some ==> {
            &&& final(store).hybrid_ids@ == old(store).hybrid_ids@
            &&& final(store).hybrid@ == old(store).hybrid@
            &&& id_lists(final(store).dense_ids@) == pushed_front(
                id_lists(old(store).dense_ids@),
                prompt@.subrange(0, conv_len as int),
                old(store).cap as int,
            )
            &&& final(store).dense@ == pushed_front(
                old(store).dense@,
                dense->Some_0,
                old(store).cap as int,
            )
        },
        enabled && !(arch.reuses_dense() && dense is Some) && hybrid is Some ==> {
            &&& final(store).dense_ids@ == old(store).dense_ids@
            &&& final(store).dense@ == old(store).dense@
            &&& id_lists(final(store).hybrid_ids@) == pushed_front(
                id_lists(old(store).hybrid_ids@),
                prompt@.subrange(0, conv_len as int),
                old(store).cap as int,
            )
            &&& final(store).hybrid@ == pushed_front(
                old(store).hybrid@,
                hybrid->Some_0,
                old(store).cap as int,
            )
        },
        !enabled || (!(arch.reuses_dense() && dense is Some) && hybrid is None) ==> *final(store)
            == *old(store),
{
    if !enabled {
        return;
    }
    let ids = head(prompt, conv_len);
    if arch.has_dense_prefix() {
        match dense {
            Some(c) => {
                store.put_dense(ids, c);
                assert(id_lists(store.dense_ids@) =~= pushed_front(
                    id_lists(old(store).dense_ids@),
                    ids@,
                    old(store).cap as int,
                ));
                return;
            },
            None => {},
        }
    }
    match hybrid {
        Some(c) => {
            store.put_hybrid(ids, c);
            assert(id_lists(store.hybrid_ids@) =~= pushed_front(
                id_lists(old(store).hybrid_ids@),
                ids@,
                old(store).cap as int,
            ));
        },
        None => {},
    }
}

/// The first tokens of a list.
pub fn head(v: &Vec<u32>, n: usize) -> (r: Vec<u32>)
    requires
        n <= v.len(),
    ensures
        r@ == v@.subrange(0, n as int),
{
    part(v, 0, n)
}

/// The tokens of a list from `a` to `b`.
pub fn part(v: &Vec<u32>, a: usize, b: usize) -> (r: Vec<u32>)
    requires
        a <= b <= v.len(),
    ensures
        r@ == v@.subrange(a as int, b as int),
{
    let mut out: Vec<u32> = Vec::new();
    let mut i: usize = a;
    while i < b
        invariant
            a <= i <= b <= v.len(),
            out@ == v@.subrange(a as int, i as int),
        decreases b - i,
    {
        out.push(v[i]);
        i = i + 1;
        assert(out@ =~= v@.subrange(a as int, i as int));
    }
    out
}

// ---------------------------------------------------------------------------
// Laws
// ---------------------------------------------------------------------------

/// What was just kept is found again: a prompt that goes on with the conversation
/// builds on at least as many tokens.
pub proof fn a_kept_conversation_is_found(
    entries: Seq<Seq<u32>>,
    conversation: Seq<u32>,
    cap: int,
    ids: Seq<u32>,
)
    requires
        cap >= 1,
        extends(ids, conversation),
    ensures
        best(pushed_front(entries, conversation, cap), ids) matches Some(i) && pushed_front(
            entries,
            conversation,
            cap,
        )[i].len() >= conversation.len(),
{
    let kept = pushed_front(entries, conversation, cap);
    assert(kept[0] == conversation);
    the_best_is_the_longest(kept, ids);
}

/// A prompt never builds on all of itself: there is always something left to read.
pub proof fn something_is_left_to_read(entries: Seq<Seq<u32>>, ids: Seq<u32>)
    ensures
        best(entries, ids) matches Some(i) ==> 0 <= i < entries.len() && entries[i].len()
            < ids.len(),
        best(entries, ids) matches Some(i) ==> ids.subrange(0, entries[i].len() as int)
            == entries[i],
{
    the_best_is_the_longest(entries, ids);
}

/// Taking a conversation out and keeping its continuation leaves the others in
/// their order, behind it.
pub proof fn others_keep_their_order(
    entries: Seq<Seq<u32>>,
    i: int,
    conversation: Seq<u32>,
    cap: int,
)
    requires
        0 <= i < entries.len() <= cap,
    ensures
        pushed_front(entries.remove(i), conversation, cap) == seq![conversation] + entries.remove(
            i,
        ),
{
}

/// A prompt goes on with a conversation where it is the conversation and more: not
/// where it is the same, nor where it differs from it anywhere.
pub proof fn going_on_is_beginning_with(conversation: Seq<u32>, more: Seq<u32>, ids: Seq<u32>, i: int)
    ensures
        more.len() > 0 ==> extends(conversation + more, conversation),
        !extends(conversation, conversation),
        0 <= i < conversation.len() && i < ids.len() && ids[i] != conversation[i] ==> !extends(
            ids,
            conversation,
        ),
        ids.len() <= conversation.len() ==> !extends(ids, conversation),
{
    let all = conversation + more;
    assert(all.subrange(0, conversation.len() as int) =~= conversation);
    if 0 <= i < conversation.len() && i < ids.len() && ids[i] != conversation[i] && extends(
        ids,
        conversation,
    ) {
        assert(ids.subrange(0, conversation.len() as int)[i] == ids[i]);
    }
}

/// The latest conversation stands first, the others follow in their order, and no
/// more are kept than there is room for: the oldest goes.
pub proof fn the_latest_stands_first<T>(s: Seq<T>, x: T, cap: int, i: int)
    requires
        cap >= 1,
    ensures
        pushed_front(s, x, cap)[0] == x,
        s.len() + 1 <= cap ==> pushed_front(s, x, cap).len() == s.len() + 1,
        s.len() + 1 > cap ==> pushed_front(s, x, cap).len() == cap,
        0 <= i < s.len() && i + 1 < cap ==> pushed_front(s, x, cap)[i + 1] == s[i],
{
}

/// Of conversations that are equally long the one that was kept earliest is built on.
pub proof fn of_equal_ones_the_last_is_built_on(entries: Seq<Seq<u32>>, ids: Seq<u32>, k: int)
    requires
        0 <= k < entries.len(),
        extends(ids, entries[k]),
    ensures
        best(entries, ids) matches Some(i) && (entries[i].len() > entries[k].len() || i >= k),
    decreases entries.len(),
{
    let rest = entries.drop_last();
    the_best_is_the_longest(entries, ids);
    the_best_is_the_longest(rest, ids);
    if k < rest.len() {
        assert(rest[k] == entries[k]);
        of_equal_ones_the_last_is_built_on(rest, ids, k);
    }
}

} // verus!
