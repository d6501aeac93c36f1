//! The worker that owns a model: what it loads, and how it takes up requests.

use crate::mlx_native_backend::config::{add_token, with_token, Arch};
use crate::text::copy;
use vstd::prelude::*;

verus! {

/// The tokens that end a turn of a chat, with the tokenizer's own token for it.
pub fn turn_ends(eos: &mut Vec<u32>, end_of_turn: Option<u32>)
    ensures
        final(eos)@ == (match end_of_turn {
            Some(id) => with_token(old(eos)@, id),
            None => old(eos)@,
        }),
{
    match end_of_turn {
        Some(id) => {
            add_token(eos, id);
        },
        None => {},
    }
}

/// The chat template of a model: the one in its tokenizer's configuration, else
/// the one in a file of its own.
pub fn chat_template(configured: Option<String>, file: Option<String>, speculative: bool) -> (r:
    Result<String, String>)
    ensures
        match (configured, file) {
            (Some(t), _) => r == Ok::<String, String>(t),
            (None, Some(t)) => r == Ok::<String, String>(t),
            (None, None) => r matches Err(e) && e@ == (if speculative {
                "mlx: no chat template"@
            } else {
                "mlx: no chat template (tokenizer_config.json / chat_template.jinja)"@
            }),
        },
{
    match configured {
        Some(t) => Ok(t),
        None => match file {
            Some(t) => Ok(t),
            None => if speculative {
                Err(copy("mlx: no chat template"))
            } else {
                Err(copy("mlx: no chat template (tokenizer_config.json / chat_template.jinja)"))
            },
        },
    }
}

/// Two tokenizers know a token under different ids.
pub open spec fn clash(a: Option<u32>, b: Option<u32>) -> bool {
    a is Some && b is Some && a != b
}

/// Two models can decode together only where the well-known tokens have the same
/// ids in both. `known` are the ids of such tokens in the target and the draft.
pub fn same_family(known: &Vec<(Option<u32>, Option<u32>)>) -> (r: Result<(), String>)
    ensures
        r is Err <==> exists|i: int|
            0 <= i < known@.len() && #[trigger] clash(known@[i].0, known@[i].1),
        r matches Err(e) ==> e@
            == "spec-decode: draft and target tokenizers differ (need the same family)"@,
{
    let mut i: usize = 0;
    while i < known.len()
        invariant
            i <= known.len(),
            forall|k: int| 0 <= k < i ==> !#[trigger] clash(known@[k].0, known@[k].1),
        decreases known.len() - i,
    {
        match (known[i].0, known[i].1) {
            (Some(a), Some(b)) => {
                if a != b {
                    assert(clash(known@[i as int].0, known@[i as int].1));
                    return Err(
                        copy(
                            "spec-decode: draft and target tokenizers differ (need the same family)",
                        ),
                    );
                }
            },
            _ => {},
        }
        i = i + 1;
    }
    Ok(())
}

/// What is said of a draft that could not be loaded.
pub fn draft_failure(e: &str) -> (r: String)
    ensures
        r@ == "spec-decode draft: "@ + e@,
{
    copy("spec-decode draft: ").concat(e)
}

// ---------------------------------------------------------------------------
// Waves of requests
// ---------------------------------------------------------------------------

/// Requests are taken one by one where they may not, or cannot, be decoded
/// together.
pub fn runs_serially(cap: usize, arch: Arch) -> (r: bool)
    ensures
        r == (cap <= 1 || !arch.batchable()),
{
    cap <= 1 || !arch.is_batchable()
}

/// What is done while requests gather.
#[derive(Clone, Copy, Debug, PartialEq, Eq, Structural)]
pub enum Gather {
    /// Look for another request.
    Look,
    /// Take the request that was found.
    Take,
    /// Wait a moment, and look again.
    Wait,
    /// Start with what there is.
    Start,
}

/// Whether to look for another request: while there is room.
pub fn gather(pending: usize, cap: usize) -> (r: Gather)
    ensures
        r == (if pending < cap {
            Gather::Look
        } else {
            Gather::Start
        }),
{
    if pending < cap {
        Gather::Look
    } else {
        Gather::Start
    }
}

/// What is done after a look: a request that was found is taken; without one the
/// wait goes on until the window is over.
pub fn gathered(found: bool, past_deadline: bool) -> (r: Gather)
    ensures
        r == (if found {
            Gather::Take
        } else if past_deadline {
            Gather::Start
        } else {
            Gather::Wait
        }),
{
    if found {
        Gather::Take
    } else if past_deadline {
        Gather::Start
    } else {
        Gather::Wait
    }
}

/// The positions at which a list of flags holds `value`.
pub open spec fn positions(flags: Seq<bool>, value: bool) -> Seq<usize>
    decreases flags.len(),
{
    if flags.len() == 0 {
        Seq::empty()
    } else {
        let rest = positions(flags.drop_last(), value);
        if flags.last() == value {
            rest.push((flags.len() - 1) as usize)
        } else {
            rest
        }
    }
}

fn positions_in(flags: &Vec<bool>, value: bool) -> (r: Vec<usize>)
    ensures
        r@ == positions(flags@, value),
{
    let mut out: Vec<usize> = Vec::new();
    let mut i: usize = 0;
    while i < flags.len()
        invariant
            i <= flags.len(),
            out@ == positions(flags@.subrange(0, i as int), value),
        decreases flags.len() - i,
    {
        assert(flags@.subrange(0, i + 1).drop_last() =~= flags@.subrange(0, i as int));
        if flags[i] == value {
            out.push(i);
        }
        i = i + 1;
    }
    assert(flags@.subrange(0, i as int) =~= flags@);
    out
}

/// How a wave of requests is taken up: those decoded together, and those taken one
/// by one, in order. `hybrid` tells which kind of cache the batch has.
pub struct Wave {
    pub batch: Vec<usize>,
    pub serial: Vec<usize>,
    pub hybrid: bool,
}

/// The requests that are decoded together: those that can be, if there are two of
/// them. One alone is taken by itself, so that it can build on its conversation.
pub open spec fn batch_of(batchable: Seq<bool>) -> Seq<usize> {
    let b = positions(batchable, true);
    if b.len() >= 2 {
        b
    } else {
        Seq::empty()
    }
}

/// The requests that are taken one by one.
pub open spec fn serial_of(batchable: Seq<bool>) -> Seq<usize> {
    let b = positions(batchable, true);
    if b.len() >= 2 {
        positions(batchable, false)
    } else {
        positions(batchable, false) + b
    }
}

/// Plans a wave of requests. `batchable` tells of each whether it can be decoded
/// together with others.
pub fn plan_wave(batchable: &Vec<bool>, arch: Arch) -> (r: Wave)
    ensures
        r.batch@ == batch_of(batchable@),
        r.serial@ == serial_of(batchable@),
        r.hybrid == arch.hybrid(),
{
    let batch = positions_in(batchable, true);
    let mut serial = positions_in(batchable, false);
    let hybrid = arch.is_hybrid();
    if batch.len() >= 2 {
        return Wave { batch, serial, hybrid };
    }
    let ghost others = serial@;
    let mut i: usize = 0;
    assert(serial@ =~= others + batch@.subrange(0, 0));
    while i < batch.len()
        invariant
            i <= batch.len(),
            serial@ == others + batch@.subrange(0, i as int),
        decreases batch.len() - i,
    {
        serial.push(batch[i]);
        i = i + 1;
        assert(serial@ =~= others + batch@.subrange(0, i as int));
    }
    assert(batch@.subrange(0, i as int) =~= batch@);
    Wave { batch: Vec::new(), serial, hybrid }
}

// ---------------------------------------------------------------------------
// Laws
// ---------------------------------------------------------------------------

/// No request is lost and none is taken twice: the batch and the rest together are
/// as many as there were, and no request is in both or twice in either.
pub proof fn every_request_is_taken_once(batchable: Seq<bool>)
    requires
        batchable.len() <= usize::MAX,
    ensures
        batch_of(batchable).len() + serial_of(batchable).len() == batchable.len(),
        (batch_of(batchable) + serial_of(batchable)).no_duplicates(),
        forall|i: int|
            0 <= i < (batch_of(batchable) + serial_of(batchable)).len() ==> (#[trigger] (batch_of(
                batchable,
            ) + serial_of(batchable))[i]) < batchable.len(),
{
    positions_hold(batchable, true);
    positions_hold(batchable, false);
    let t = positions(batchable, true);
    let f = positions(batchable, false);
    let all = batch_of(batchable) + serial_of(batchable);
    assert forall|i: int, j: int| 0 <= i < all.len() && 0 <= j < all.len() && i != j implies all[i]
        != all[j] by {
        let n = if t.len() >= 2 {
            t.len()
        } else {
            f.len()
        };
        let a = if t.len() >= 2 {
            t
        } else {
            f
        };
        let b = if t.len() >= 2 {
            f
        } else {
            t
        };
        assert(all =~= a + b);
        if i < n && j >= n {
            assert(batchable[a[i] as int] != batchable[b[j - n] as int]);
        } else if j < n && i >= n {
            assert(batchable[a[j] as int] != batchable[b[i - n] as int]);
        }
    }
}

/// Only requests that can be are decoded together, and never one alone.
pub proof fn batches_are_batches(batchable: Seq<bool>)
    requires
        batchable.len() <= usize::MAX,
    ensures
        batch_of(batchable).len() != 1,
        forall|i: int|
            0 <= i < batch_of(batchable).len() ==> batchable[#[trigger] batch_of(
                batchable,
            )[i] as int],
{
    positions_hold(batchable, true);
}

/// Requests that can be decoded together are, as soon as there are two, all of them
/// and in the order in which they came; the others are taken one by one in theirs.
pub proof fn those_that_can_are_batched(batchable: Seq<bool>, i: int, j: int)
    requires
        0 <= i < j < batchable.len() <= usize::MAX,
    ensures
        batchable[i] && batchable[j] ==> batch_of(batchable).contains(i as usize) && batch_of(
            batchable,
        ).contains(j as usize),
        !batchable[i] ==> serial_of(batchable).contains(i as usize) && !batch_of(
            batchable,
        ).contains(i as usize),
        forall|a: int, b: int|
            0 <= a < b < batch_of(batchable).len() ==> batch_of(batchable)[a] < batch_of(
                batchable,
            )[b],
{
    positions_hold(batchable, true);
    positions_hold(batchable, false);
    let t = positions(batchable, true);
    let f = positions(batchable, false);
    if batchable[i] && batchable[j] {
        assert(t.contains(i as usize) && t.contains(j as usize));
        let a = choose|a: int| 0 <= a < t.len() && t[a] == i as usize;
        let b = choose|b: int| 0 <= b < t.len() && t[b] == j as usize;
        assert(a != b);
    }
    if !batchable[i] {
        assert(f.contains(i as usize));
        let k = choose|k: int| 0 <= k < f.len() && f[k] == i as usize;
        assert(serial_of(batchable)[k] == i as usize);
        if t.contains(i as usize) {
            let m = choose|m: int| 0 <= m < t.len() && t[m] == i as usize;
            assert(batchable[t[m] as int]);
        }
    }
}

proof fn positions_hold(flags: Seq<bool>, value: bool)
    requires
        flags.len() <= usize::MAX,
    ensures
        forall|i: int|
            0 <= i < positions(flags, value).len() ==> (#[trigger] positions(flags, value)[i])
                < flags.len() && flags[positions(flags, value)[i] as int] == value,
        forall|i: int, j: int|
            0 <= i < j < positions(flags, value).len() ==> positions(flags, value)[i] < positions(
                flags,
                value,
            )[j],
        forall|r: int|
            0 <= r < flags.len() && #[trigger] flags[r] == value ==> positions(
                flags,
                value,
            ).contains(r as usize),
        positions(flags, true).len() + positions(flags, false).len() == flags.len(),
    decreases flags.len(),
{
    if flags.len() > 0 {
        let g = flags.drop_last();
        positions_hold(g, value);
        let rest = positions(g, value);
        let all = positions(flags, value);
        assert forall|i: int| 0 <= i < all.len() implies (#[trigger] all[i]) < flags.len()
            && flags[all[i] as int] == value by {
            if i < rest.len() {
                assert(all[i] == rest[i]);
                assert(g[rest[i] as int] == flags[rest[i] as int]);
            }
        }
        assert forall|r: int| 0 <= r < flags.len() && #[trigger] flags[r] == value implies all.contains(
            r as usize,
        ) by {
            if r < g.len() {
                assert(g[r] == value);
                let i = choose|i: int| 0 <= i < rest.len() && rest[i] == r as usize;
                assert(all[i] == r as usize);
            } else {
                assert(all[all.len() - 1] == r as usize);
            }
        }
    }
}

/// Two tokenizers clash where both know a token and disagree on it.
pub proof fn tokenizers_clash_where_they_disagree(a: u32, b: u32, x: Option<u32>)
    ensures
        clash(Some(a), Some(b)) <==> a != b,
        !clash(None, x),
        !clash(x, None),
{
}

} // verus!
