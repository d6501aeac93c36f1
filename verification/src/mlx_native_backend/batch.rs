//! Several requests decoded together: rows of one cache, aligned at its end.

use crate::chat::{events, ChatEvent, StopReason};
use crate::mlx_native_backend::decode::{offered, settled, BatchSeq, Offer};
use crate::text::views;
use vstd::prelude::*;

verus! {

/// The longest cache that can be addressed.
pub const MAX_WIDTH: u32 = 0x7fff_ffff;

// ---------------------------------------------------------------------------
// Rows
// ---------------------------------------------------------------------------

/// The rows of a batch: which request each belongs to, and how many empty
/// positions stand in front of it in a cache of `width` positions.
pub struct Rows {
    pub seq_of: Vec<usize>,
    pub pads: Vec<u32>,
    pub width: u32,
}

/// The positions that each row fills.
pub open spec fn filled_by(pads: Seq<u32>, width: u32) -> Seq<int> {
    Seq::new(pads.len(), |r: int| width - pads[r])
}

/// The items of a list at some positions.
pub open spec fn picked<T>(s: Seq<T>, keep: Seq<usize>) -> Seq<T> {
    Seq::new(keep.len(), |i: int| s[keep[i] as int])
}

/// The positions of the rows that go on.
pub open spec fn going_on(finished: Seq<bool>) -> Seq<usize>
    decreases finished.len(),
{
    if finished.len() == 0 {
        Seq::empty()
    } else {
        let rest = going_on(finished.drop_last());
        if finished.last() {
            rest
        } else {
            rest.push((finished.len() - 1) as usize)
        }
    }
}

/// The largest of some lengths.
pub open spec fn longest(lens: Seq<u32>) -> u32
    decreases lens.len(),
{
    if lens.len() == 0 {
        0
    } else {
        let rest = longest(lens.drop_last());
        if lens.last() > rest {
            lens.last()
        } else {
            rest
        }
    }
}

/// No length is above the largest, which is one of them.
pub proof fn longest_is_the_longest(lens: Seq<u32>)
    ensures
        forall|i: int| 0 <= i < lens.len() ==> #[trigger] lens[i] <= longest(lens),
        lens.len() > 0 && longest(lens) > 0 ==> lens.contains(longest(lens)),
    decreases lens.len(),
{
    if lens.len() > 0 {
        let rest = lens.drop_last();
        longest_is_the_longest(rest);
        assert forall|i: int| 0 <= i < lens.len() implies #[trigger] lens[i] <= longest(lens) by {
            if i < rest.len() {
                assert(lens[i] == rest[i]);
            }
        }
        if longest(lens) > 0 {
            if lens.last() > longest(rest) {
                assert(lens[lens.len() - 1] == longest(lens));
            } else {
                let i = choose|i: int| 0 <= i < rest.len() && rest[i] == longest(rest);
                assert(lens[i] == longest(lens));
            }
        }
    }
}

/// The rows that go on, in order.
pub proof fn going_on_are_in_order(finished: Seq<bool>)
    requires
        finished.len() <= usize::MAX,
    ensures
        forall|i: int|
            0 <= i < going_on(finished).len() ==> (#[trigger] going_on(finished)[i])
                < finished.len() && !finished[going_on(finished)[i] as int],
        forall|i: int, j: int|
            0 <= i < j < going_on(finished).len() ==> going_on(finished)[i] < going_on(
                finished,
            )[j],
        forall|r: int|
            0 <= r < finished.len() && !#[trigger] finished[r] ==> going_on(finished).contains(
                r as usize,
            ),
        going_on(finished).len() <= finished.len(),
    decreases finished.len(),
{
    if finished.len() > 0 {
        let f = finished.drop_last();
        let rest = going_on(f);
        let all = going_on(finished);
        going_on_are_in_order(f);
        assert forall|i: int| 0 <= i < all.len() implies (#[trigger] all[i]) < finished.len()
            && !finished[all[i] as int] by {
            if i < rest.len() {
                assert(all[i] == rest[i]);
                assert(f[rest[i] as int] == finished[rest[i] as int]);
            }
        }
        assert forall|r: int|
            0 <= r < finished.len() && !#[trigger] finished[r] implies all.contains(r as usize) by {
            if r < f.len() {
                assert(!f[r]);
                let i = choose|i: int| 0 <= i < rest.len() && rest[i] == r as usize;
                assert(all[i] == r as usize);
            } else {
                assert(all[all.len() - 1] == r as usize);
            }
        }
    }
}

fn going_on_in(finished: &Vec<bool>) -> (r: Vec<usize>)
    ensures
        r@ == going_on(finished@),
{
    let mut out: Vec<usize> = Vec::new();
    let mut i: usize = 0;
    while i < finished.len()
        invariant
            i <= finished.len(),
            out@ == going_on(finished@.subrange(0, i as int)),
        decreases finished.len() - i,
    {
        assert(finished@.subrange(0, i + 1).drop_last() =~= finished@.subrange(0, i as int));
        if !finished[i] {
            out.push(i);
        }
        i = i + 1;
    }
    assert(finished@.subrange(0, i as int) =~= finished@);
    out
}

/// What a new row takes: `extra` more empty positions in front of every other row,
/// and `pad` in front of the new one.
pub struct Insertion {
    pub extra: u32,
    pub pad: u32,
}

impl Rows {
    pub open spec fn wf(&self) -> bool {
        &&& self.seq_of@.len() == self.pads@.len()
        &&& self.width <= MAX_WIDTH
        &&& forall|r: int| 0 <= r < self.pads@.len() ==> #[trigger] self.pads@[r] <= self.width
        &&& forall|r: int, q: int|
            0 <= r < q < self.seq_of@.len() ==> self.seq_of@[r] != self.seq_of@[q]
    }

    pub open spec fn filled(&self) -> Seq<int> {
        filled_by(self.pads@, self.width)
    }

    /// Aligns prompts at the end of the longest.
    pub fn assemble(lens: &Vec<u32>) -> (r: Self)
        requires
            forall|i: int| 0 <= i < lens@.len() ==> #[trigger] lens@[i] <= MAX_WIDTH,
        ensures
            r.wf(),
            r.width == longest(lens@),
            r.seq_of@ == Seq::new(lens@.len(), |i: int| i as usize),
            r.filled() == Seq::new(lens@.len(), |i: int| lens@[i] as int),
    {
        let mut width: u32 = 0;
        let mut i: usize = 0;
        while i < lens.len()
            invariant
                i <= lens.len(),
                width == longest(lens@.subrange(0, i as int)),
                width <= MAX_WIDTH,
                forall|i: int| 0 <= i < lens@.len() ==> #[trigger] lens@[i] <= MAX_WIDTH,
            decreases lens.len() - i,
        {
            assert(lens@.subrange(0, i + 1).drop_last() =~= lens@.subrange(0, i as int));
            if lens[i] > width {
                width = lens[i];
            }
            i = i + 1;
        }
        assert(lens@.subrange(0, i as int) =~= lens@);
        proof {
            longest_is_the_longest(lens@);
        }
        let mut seq_of: Vec<usize> = Vec::new();
        let mut pads: Vec<u32> = Vec::new();
        let mut k: usize = 0;
        while k < lens.len()
            invariant
                k <= lens.len(),
                seq_of@.len() == k,
                pads@.len() == k,
                forall|j: int| 0 <= j < lens@.len() ==> #[trigger] lens@[j] <= width,
                forall|j: int| 0 <= j < k ==> #[trigger] seq_of@[j] == j,
                forall|j: int| 0 <= j < k ==> #[trigger] pads@[j] == width - lens@[j],
            decreases lens.len() - k,
        {
            seq_of.push(k);
            pads.push(width - lens[k]);
            k = k + 1;
        }
        let r = Rows { seq_of, pads, width };
        assert(r.seq_of@ =~= Seq::new(lens@.len(), |i: int| i as usize));
        assert(r.filled() =~= Seq::new(lens@.len(), |i: int| lens@[i] as int));
        r
    }

    /// Lets go of the rows that are finished: which rows stay.
    pub fn retire(&mut self, finished: &Vec<bool>) -> (keep: Vec<usize>)
        requires
            old(self).wf(),
            finished@.len() == old(self).seq_of@.len(),
        ensures
            final(self).wf(),
            keep@ == going_on(finished@),
            final(self).width == old(self).width,
            final(self).seq_of@ == picked(old(self).seq_of@, keep@),
            final(self).pads@ == picked(old(self).pads@, keep@),
            final(self).filled() == picked(old(self).filled(), keep@),
    {
        let keep = going_on_in(finished);
        proof {
            assert(finished.len() == finished@.len());
            going_on_are_in_order(finished@);
        }
        let mut seq_of: Vec<usize> = Vec::new();
        let mut pads: Vec<u32> = Vec::new();
        let mut i: usize = 0;
        while i < keep.len()
            invariant
                i <= keep.len(),
                seq_of@.len() == i,
                pads@.len() == i,
                *self == *old(self),
                self.wf(),
                forall|j: int| 0 <= j < keep@.len() ==> (#[trigger] keep@[j]) < self.seq_of@.len(),
                forall|j: int|
                    0 <= j < i ==> #[trigger] seq_of@[j] == self.seq_of@[keep@[j] as int],
                forall|j: int| 0 <= j < i ==> #[trigger] pads@[j] == self.pads@[keep@[j] as int],
            decreases keep.len() - i,
        {
            seq_of.push(self.seq_of[keep[i]]);
            pads.push(self.pads[keep[i]]);
            i = i + 1;
        }
        self.seq_of = seq_of;
        self.pads = pads;
        assert(self.seq_of@ =~= picked(old(self).seq_of@, keep@));
        assert(self.pads@ =~= picked(old(self).pads@, keep@));
        assert(self.filled() =~= picked(old(self).filled(), keep@));
        keep
    }

    /// Adds a row for a prompt of `len` tokens. A prompt that is longer than the
    /// cache widens it, in front of every other row.
    pub fn insert(&mut self, seq: usize, len: u32) -> (r: Insertion)
        requires
            old(self).wf(),
            len <= MAX_WIDTH,
            forall|i: int| 0 <= i < old(self).seq_of@.len() ==> #[trigger] old(self).seq_of@[i]
                != seq,
        ensures
            final(self).wf(),
            final(self).width == (if len > old(self).width {
                len
            } else {
                old(self).width
            }),
            r.extra == final(self).width - old(self).width,
            r.pad == final(self).width - len,
            final(self).seq_of@ == old(self).seq_of@.push(seq),
            final(self).pads@ == Seq::new(
                old(self).pads@.len(),
                |i: int| (old(self).pads@[i] + r.extra) as u32,
            ).push(r.pad),
            final(self).filled() == old(self).filled().push(len as int),
    {
        let mut extra: u32 = 0;
        if len > self.width {
            extra = len - self.width;
            let mut i: usize = 0;
            while i < self.pads.len()
                invariant
                    i <= self.pads.len(),
                    self.pads@.len() == old(self).pads@.len(),
                    self.seq_of@ == old(self).seq_of@,
                    self.width == old(self).width,
                    old(self).wf(),
                    len <= MAX_WIDTH,
                    extra == len - old(self).width,
                    forall|j: int|
                        0 <= j < i ==> #[trigger] self.pads@[j] == old(self).pads@[j] + extra,
                    forall|j: int|
                        i <= j < self.pads@.len() ==> #[trigger] self.pads@[j] == old(
                            self,
                        ).pads@[j],
                decreases self.pads.len() - i,
            {
                assert(old(self).pads@[i as int] <= old(self).width);
                let p = self.pads[i] + extra;
                self.pads.set(i, p);
                i = i + 1;
            }
            self.width = len;
        }
        let pad = self.width - len;
        self.seq_of.push(seq);
        self.pads.push(pad);
        assert(self.pads@ =~= Seq::new(
            old(self).pads@.len(),
            |i: int| (old(self).pads@[i] + extra) as u32,
        ).push(pad));
        assert(self.filled() =~= old(self).filled().push(len as int));
        Insertion { extra, pad }
    }

    /// One token of every row was read: every row fills one position more.
    pub fn advance(&mut self)
        requires
            old(self).wf(),
            old(self).width < MAX_WIDTH,
        ensures
            final(self).wf(),
            final(self).seq_of@ == old(self).seq_of@,
            final(self).pads@ == old(self).pads@,
            final(self).width == old(self).width + 1,
            final(self).filled() == Seq::new(
                old(self).filled().len(),
                |i: int| old(self).filled()[i] + 1,
            ),
    {
        self.width = self.width + 1;
        assert(self.filled() =~= Seq::new(
            old(self).filled().len(),
            |i: int| old(self).filled()[i] + 1,
        ));
    }

    /// Whether a row sees a position of the cache: those in front of it are empty.
    pub fn sees(&self, row: usize, position: u32) -> (r: bool)
        requires
            row < self.pads@.len(),
        ensures
            r == (position >= self.pads@[row as int]),
    {
        position >= self.pads[row]
    }
}

// ---------------------------------------------------------------------------
// A run
// ---------------------------------------------------------------------------

/// A run of batched decoding: the streams of all requests that took part, and the
/// rows of those that still do.
pub struct BatchRun {
    pub seqs: Vec<BatchSeq>,
    pub rows: Rows,
    /// The token that each row reads next.
    pub next: Vec<u32>,
    /// Rows that may be decoded together.
    pub cap: usize,
}

pub open spec fn prompt_lens(seqs: Seq<BatchSeq>) -> Seq<u32> {
    Seq::new(seqs.len(), |i: int| seqs[i].prompt_len)
}

impl BatchRun {
    pub open spec fn wf(&self) -> bool {
        &&& self.rows.wf()
        &&& forall|r: int|
            0 <= r < self.rows.seq_of@.len() ==> (#[trigger] self.rows.seq_of@[r])
                < self.seqs@.len()
        &&& forall|i: int| 0 <= i < self.seqs@.len() ==> (#[trigger] self.seqs@[i]).wf()
    }

    /// The stream of a row.
    pub open spec fn stream(&self, row: int) -> BatchSeq {
        self.seqs@[self.rows.seq_of@[row] as int]
    }

    /// Everything but the stream of a row is as before.
    pub open spec fn only_row(&self, o: BatchRun, row: int) -> bool {
        &&& self.rows == o.rows
        &&& self.next == o.next
        &&& self.cap == o.cap
        &&& self.seqs@ == o.seqs@.update(o.rows.seq_of@[row] as int, self.stream(row))
    }

    /// Starts a run with the requests whose prompts were read; nothing where there
    /// are none.
    pub fn start(seqs: Vec<BatchSeq>, cap: usize) -> (r: Option<BatchRun>)
        requires
            forall|i: int|
                0 <= i < seqs@.len() ==> (#[trigger] seqs@[i]).wf() && seqs@[i].prompt_len
                    <= MAX_WIDTH,
        ensures
            r is Some <==> seqs@.len() > 0,
            r matches Some(b) ==> {
                &&& b.wf()
                &&& b.seqs@ == seqs@
                &&& b.cap == cap
                &&& b.next@.len() == 0
                &&& b.rows.width == longest(prompt_lens(seqs@))
                &&& b.rows.seq_of@ == Seq::new(seqs@.len(), |i: int| i as usize)
                &&& b.rows.filled() == Seq::new(
                    seqs@.len(),
                    |i: int| seqs@[i].prompt_len as int,
                )
            },
    {
        if seqs.len() == 0 {
            return None;
        }
        let mut lens: Vec<u32> = Vec::new();
        let mut i: usize = 0;
        while i < seqs.len()
            invariant
                i <= seqs.len(),
                lens@.len() == i,
                forall|i: int|
                    0 <= i < seqs@.len() ==> (#[trigger] seqs@[i]).wf() && seqs@[i].prompt_len
                        <= MAX_WIDTH,
                forall|j: int| 0 <= j < i ==> #[trigger] lens@[j] == seqs@[j].prompt_len,
            decreases seqs.len() - i,
        {
            lens.push(seqs[i].prompt_len);
            i = i + 1;
        }
        assert(lens@ =~= prompt_lens(seqs@));
        let rows = Rows::assemble(&lens);
        assert(rows.filled() =~= Seq::new(seqs@.len(), |i: int| seqs@[i].prompt_len as int));
        Some(BatchRun { seqs, rows, next: Vec::new(), cap })
    }

    /// Offers a row its next token.
    pub fn offer(
        &mut self,
        row: usize,
        tok: u32,
        eos: &Vec<u32>,
        cancelled: bool,
        decoded: Option<&str>,
    ) -> (r: Offer)
        requires
            old(self).wf(),
            row < old(self).rows.seq_of@.len(),
            !eos@.contains(tok) && !cancelled ==> old(self).stream(row as int).output_tokens
                < u32::MAX,
        ensures
            final(self).wf(),
            final(self).only_row(*old(self), row as int),
            offered(
                old(self).stream(row as int),
                final(self).stream(row as int),
                tok,
                eos@,
                cancelled,
                decoded,
                r,
            ),
    {
        let i = self.rows.seq_of[row];
        self.seqs[i].offer(tok, eos, cancelled, decoded)
    }

    /// Settles a row's token: whether the row is finished.
    pub fn settle(&mut self, row: usize, reader_gone: bool) -> (finished: bool)
        requires
            old(self).wf(),
            row < old(self).rows.seq_of@.len(),
        ensures
            final(self).wf(),
            final(self).only_row(*old(self), row as int),
            settled(
                old(self).stream(row as int),
                final(self).stream(row as int),
                reader_gone,
                true,
                finished,
            ),
    {
        let i = self.rows.seq_of[row];
        self.seqs[i].settle(reader_gone, true)
    }

    /// Ends the stream of a row, where it can be ended with these ids.
    pub fn finish(&mut self, row: usize, ids: &Vec<String>) -> (r: Option<Vec<ChatEvent>>)
        requires
            old(self).wf(),
            row < old(self).rows.seq_of@.len(),
        ensures
            final(self).wf(),
            final(self).only_row(*old(self), row as int),
            ({
                let s = old(self).stream(row as int);
                let t = final(self).stream(row as int);
                &&& r is Some <==> ids@.len() >= s.final_calls().len() && s.can_end()
                &&& r matches Some(e) ==> events(e@) == s.final_events(views(ids@))
                &&& r is Some ==> t.same_request(s) && t.same_text(s)
                &&& r is Some ==> t.stop == (if s.final_calls().len() > 0 {
                    StopReason::ToolUse
                } else {
                    s.stop
                })
                &&& r is None ==> t == s
            }),
    {
        let i = self.rows.seq_of[row];
        self.seqs[i].finish(ids)
    }

    /// How many ids it takes to end the stream of a row.
    pub fn count_calls(&self, row: usize) -> (r: usize)
        requires
            self.wf(),
            row < self.rows.seq_of@.len(),
        ensures
            r == self.stream(row as int).final_calls().len(),
    {
        self.seqs[self.rows.seq_of[row]].count_calls()
    }

    /// Lets go of the rows that are finished. The others read their tokens next.
    pub fn retire(&mut self, finished: &Vec<bool>, toks: &Vec<u32>) -> (keep: Vec<usize>)
        requires
            old(self).wf(),
            finished@.len() == old(self).rows.seq_of@.len(),
            toks@.len() == finished@.len(),
        ensures
            final(self).wf(),
            keep@ == going_on(finished@),
            final(self).seqs == old(self).seqs,
            final(self).cap == old(self).cap,
            final(self).next@ == picked(toks@, keep@),
            final(self).rows.width == old(self).rows.width,
            final(self).rows.seq_of@ == picked(old(self).rows.seq_of@, keep@),
            final(self).rows.pads@ == picked(old(self).rows.pads@, keep@),
            final(self).rows.filled() == picked(old(self).rows.filled(), keep@),
    {
        let keep = self.rows.retire(finished);
        proof {
            assert(finished.len() == finished@.len());
            going_on_are_in_order(finished@);
        }
        let mut next: Vec<u32> = Vec::new();
        let mut i: usize = 0;
        while i < keep.len()
            invariant
                i <= keep.len(),
                next@.len() == i,
                forall|j: int| 0 <= j < keep@.len() ==> (#[trigger] keep@[j]) < toks@.len(),
                forall|j: int| 0 <= j < i ==> #[trigger] next@[j] == toks@[keep@[j] as int],
            decreases keep.len() - i,
        {
            next.push(toks[keep[i]]);
            i = i + 1;
        }
        self.next = next;
        assert(self.next@ =~= picked(toks@, keep@));
        keep
    }

    /// Whether another request may join.
    pub fn has_room(&self) -> (r: bool)
        requires
            self.wf(),
        ensures
            r == (self.rows.seq_of@.len() < self.cap),
    {
        self.rows.seq_of.len() < self.cap
    }

    /// A request joins whose prompt was read, and whose first token did not end
    /// it.
    pub fn join(&mut self, seq: BatchSeq, tok: u32) -> (r: Insertion)
        requires
            old(self).wf(),
            seq.wf(),
            seq.prompt_len <= MAX_WIDTH,
            old(self).rows.seq_of@.len() < old(self).cap,
        ensures
            final(self).wf(),
            final(self).cap == old(self).cap,
            final(self).rows.seq_of@.len() <= final(self).cap,
            final(self).seqs@ == old(self).seqs@.push(seq),
            final(self).next@ == old(self).next@.push(tok),
            final(self).rows.seq_of@ == old(self).rows.seq_of@.push(old(self).seqs@.len() as usize),
            final(self).rows.width == (if seq.prompt_len > old(self).rows.width {
                seq.prompt_len
            } else {
                old(self).rows.width
            }),
            r.extra == final(self).rows.width - old(self).rows.width,
            r.pad == final(self).rows.width - seq.prompt_len,
            final(self).rows.filled() == old(self).rows.filled().push(seq.prompt_len as int),
    {
        let len = seq.prompt_len;
        let i = self.seqs.len();
        self.seqs.push(seq);
        self.next.push(tok);
        let r = self.rows.insert(i, len);
        assert forall|k: int| 0 <= k < self.rows.seq_of@.len() implies (
        #[trigger] self.rows.seq_of@[k]) < self.seqs@.len() by {
            if k < old(self).rows.seq_of@.len() {
                assert(self.rows.seq_of@[k] == old(self).rows.seq_of@[k]);
            }
        }
        r
    }

    /// Whether the run is over: no row is left.
    pub fn is_over(&self) -> (r: bool)
        ensures
            r == (self.rows.seq_of@.len() == 0),
    {
        self.rows.seq_of.len() == 0
    }

    /// The forward came back: every row has read its token.
    pub fn advance(&mut self)
        requires
            old(self).wf(),
            old(self).rows.width < MAX_WIDTH,
        ensures
            final(self).wf(),
            final(self).seqs == old(self).seqs,
            final(self).next == old(self).next,
            final(self).cap == old(self).cap,
            final(self).rows.seq_of@ == old(self).rows.seq_of@,
            final(self).rows.pads@ == old(self).rows.pads@,
            final(self).rows.width == old(self).rows.width + 1,
            final(self).rows.filled() == Seq::new(
                old(self).rows.filled().len(),
                |i: int| old(self).rows.filled()[i] + 1,
            ),
    {
        self.rows.advance();
    }
}

// ---------------------------------------------------------------------------
// Counters
// ---------------------------------------------------------------------------

/// Batched decoding so far.
#[derive(Clone, Copy, Debug, PartialEq, Eq, Structural)]
pub struct BatchStats {
    /// Runs.
    pub runs: u64,
    /// Rows of all runs.
    pub rows: u64,
    /// Rows that joined a run.
    pub admits: u64,
    /// The most rows at a time.
    pub max: u64,
}

impl Default for BatchStats {
    fn default() -> (r: Self)
        ensures
            r == (BatchStats { runs: 0, rows: 0, admits: 0, max: 0 }),
    {
        BatchStats { runs: 0, rows: 0, admits: 0, max: 0 }
    }
}

impl BatchStats {
    /// Takes note of `added` rows, and of how many there are now.
    pub fn note_batch_rows(&mut self, added: u64, peak: u64)
        ensures
            final(self).rows == old(self).rows.wrapping_add(added),
            final(self).max == (if peak > old(self).max {
                peak
            } else {
                old(self).max
            }),
            final(self).runs == old(self).runs,
            final(self).admits == old(self).admits,
    {
        self.rows = self.rows.wrapping_add(added);
        if peak > self.max {
            self.max = peak;
        }
    }

    /// A run was started.
    pub fn note_run(&mut self)
        ensures
            final(self).runs == old(self).runs.wrapping_add(1),
            final(self).rows == old(self).rows,
            final(self).admits == old(self).admits,
            final(self).max == old(self).max,
    {
        self.runs = self.runs.wrapping_add(1);
    }

    /// A row joined, and there are `size` now.
    pub fn note_join(&mut self, size: u64)
        ensures
            final(self).admits == old(self).admits.wrapping_add(1),
            final(self).rows == old(self).rows.wrapping_add(1),
            final(self).max == (if size > old(self).max {
                size
            } else {
                old(self).max
            }),
            final(self).runs == old(self).runs,
    {
        self.admits = self.admits.wrapping_add(1);
        self.note_batch_rows(1, size);
    }
}

/// Batched decoding so far; nothing where nothing was decoded together yet.
pub fn batch_stats(s: &BatchStats) -> (r: Option<BatchStats>)
    ensures
        r == (if s.runs == 0 {
            None
        } else {
            Some(*s)
        }),
{
    if s.runs == 0 {
        None
    } else {
        Some(*s)
    }
}

/// The runtime's memory in mebibytes, in use, at its peak and cached; nothing
/// without a runtime.
pub fn mlx_memory_mb(bytes: Option<(u64, u64, u64)>) -> (r: Option<(u64, u64, u64)>)
    ensures
        match bytes {
            Some((a, p, c)) => r == Some(
                ((a / 1_048_576) as u64, (p / 1_048_576) as u64, (c / 1_048_576) as u64),
            ),
            None => r is None,
        },
{
    match bytes {
        Some((a, p, c)) => Some((a / 1_048_576, p / 1_048_576, c / 1_048_576)),
        None => None,
    }
}

// ---------------------------------------------------------------------------
// Laws
// ---------------------------------------------------------------------------

/// A row sees exactly its own tokens, and the one it reads now: as many positions
/// as it fills, and one more.
pub proof fn a_row_sees_its_own_tokens(rows: Rows, r: int, k: int)
    requires
        rows.wf(),
        0 <= r < rows.pads@.len(),
        0 <= k <= rows.width,
    ensures
        k >= rows.pads@[r] <==> rows.width + 1 - k <= rows.filled()[r] + 1,
        rows.filled()[r] + 1 == rows.width + 1 - rows.pads@[r],
{
}

/// A row is decoded as if it were alone: letting other rows go, letting another
/// row join and widening the cache leave what it fills as it is.
pub proof fn rows_do_not_disturb_one_another(before: Seq<int>, keep: Seq<usize>, i: int, len: int)
    requires
        0 <= i < keep.len(),
        forall|j: int| 0 <= j < keep.len() ==> (#[trigger] keep[j]) < before.len(),
    ensures
        picked(before, keep)[i] == before[keep[i] as int],
        picked(before, keep).push(len)[i] == before[keep[i] as int],
{
}

/// A row that goes on reads the token it was offered.
pub proof fn rows_keep_their_tokens(seq_of: Seq<usize>, toks: Seq<u32>, finished: Seq<bool>, r: int)
    requires
        seq_of.len() == finished.len(),
        toks.len() == finished.len(),
        0 <= r < finished.len() <= usize::MAX,
        !finished[r],
    ensures
        exists|i: int|
            0 <= i < going_on(finished).len() && #[trigger] picked(seq_of, going_on(finished))[i]
                == seq_of[r] && picked(toks, going_on(finished))[i] == toks[r],
{
    going_on_are_in_order(finished);
    let keep = going_on(finished);
    let i = choose|i: int| 0 <= i < keep.len() && keep[i] == r as usize;
    assert(picked(seq_of, keep)[i] == seq_of[r]);
}

/// What is done to one row leaves the rows, the tokens that are read next and the
/// streams of all other requests as they are.
pub proof fn only_one_row_changes(after: BatchRun, before: BatchRun, row: int, i: int)
    requires
        before.wf(),
        0 <= row < before.rows.seq_of@.len(),
        after.only_row(before, row),
        0 <= i < before.seqs@.len(),
    ensures
        after.rows == before.rows,
        after.next == before.next,
        after.cap == before.cap,
        after.seqs@.len() == before.seqs@.len(),
        i != before.rows.seq_of@[row] ==> after.seqs@[i] == before.seqs@[i],
{
}

/// The prompts of a batch are as long as they are, and a row fills what stands behind
/// its empty positions.
pub proof fn rows_are_as_long_as_their_prompts(seqs: Seq<BatchSeq>, rows: Rows, i: int)
    requires
        0 <= i < seqs.len(),
    ensures
        prompt_lens(seqs).len() == seqs.len(),
        prompt_lens(seqs)[i] == seqs[i].prompt_len,
        rows.filled().len() == rows.pads@.len(),
        i < rows.pads@.len() ==> rows.filled()[i] + rows.pads@[i] == rows.width,
{
}

} // verus!
