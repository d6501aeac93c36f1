//! The stream of one request: tokens in, events out.

use crate::chat::{events, ChatEvent, Event, StopReason};
use crate::engine::{is_runaway_loop, runaway};
use crate::mlx_native_backend::config::has_token;
use crate::mlx_native_backend::markup::{markup_at, markup_begins_where_it_stands, markup_start};
use crate::serving::{calls, parse_tool_calls, tool_calls};
use crate::text::{
    chars_of, chars_within, from, last_position, prefix_within, rfind, starts_with, substr, views,
};
use vstd::prelude::*;
use vstd::utf8::encode_utf8;

verus! {

/// `s` without the replacement characters at its end: bytes of a character that
/// is not complete yet.
pub open spec fn stable_part(s: Seq<char>) -> Seq<char>
    decreases s.len(),
{
    if s.len() > 0 && s.last() == '\u{FFFD}' {
        stable_part(s.drop_last())
    } else {
        s
    }
}

/// How far a text is shown.
pub struct Shown {
    /// Characters of it that are out now.
    pub upto: int,
    /// The markup of a call was reached: nothing more is shown.
    pub closed: bool,
    /// The reader must still be there.
    pub needs_reader: bool,
}

/// What is shown of `text` when `out` is out already. Markup of a call, and a code
/// fence that may open one, are held back.
pub open spec fn shown(text: Seq<char>, out: Seq<char>, closed: bool, tools: bool) -> Shown {
    let n = out.len() as int;
    if closed {
        Shown { upto: n, closed: true, needs_reader: false }
    } else {
        match markup_start(text, tools) {
            Some(pos) => Shown {
                upto: if starts_with(text, out) && pos > n {
                    pos
                } else {
                    n
                },
                closed: true,
                needs_reader: false,
            },
            None => {
                let cut = match rfind(text, "```"@) {
                    Some(p) => if tools && p >= n {
                        p
                    } else {
                        text.len() as int
                    },
                    None => text.len() as int,
                };
                if starts_with(text, out) && cut > n {
                    Shown { upto: cut, closed: false, needs_reader: true }
                } else {
                    Shown { upto: n, closed: false, needs_reader: false }
                }
            },
        }
    }
}

/// The stream of one request.
pub struct BatchSeq {
    /// The request offers tools.
    pub tools: bool,
    pub out_ids: Vec<u32>,
    /// What the reader has.
    pub emitted: String,
    /// What the model wrote.
    pub full_text: String,
    /// The markup of a call was reached.
    pub tool_seen: bool,
    pub output_tokens: u32,
    pub prompt_len: u32,
    pub max_tokens: usize,
    pub stop: StopReason,
}

/// What comes of a token.
pub enum Offer {
    /// The token ends the stream.
    Finished,
    /// The token was taken. `delta` goes to the reader; where `needs_reader`, a
    /// reader that is gone ends the stream.
    Taken { delta: Option<String>, needs_reader: bool },
}

fn stable_text(text: &str) -> (r: Vec<char>)
    ensures
        r@ == stable_part(text@),
{
    let v = chars_of(text);
    let mut n: usize = v.len();
    assert(v@.subrange(0, n as int) =~= v@);
    while n > 0 && v[n - 1] == '\u{FFFD}'
        invariant
            n <= v.len(),
            stable_part(v@) == stable_part(v@.subrange(0, n as int)),
        decreases n,
    {
        assert(v@.subrange(0, n as int).drop_last() =~= v@.subrange(0, n - 1));
        n = n - 1;
    }
    crate::text::slice(&v, 0, n)
}

fn begins_with(v: &Vec<char>, p: &Vec<char>) -> (r: bool)
    ensures
        r == starts_with(v@, p@),
{
    crate::text::stands_at(v, p, 0)
}

/// The bytes of a text.
pub open spec fn byte_len(s: Seq<char>) -> int {
    encode_utf8(s).len() as int
}

/// What is left of `full` when as many bytes as `out` has are gone.
pub open spec fn rest_after(full: Seq<char>, out: Seq<char>) -> Seq<char> {
    from(full, prefix_within(full, byte_len(out)))
}

/// The bytes of `out` are whole characters of `full`.
pub open spec fn cuts(full: Seq<char>, out: Seq<char>) -> bool {
    byte_len(full.subrange(0, prefix_within(full, byte_len(out)))) == byte_len(out)
}

/// The three events of a call.
pub open spec fn call_events(id: Seq<char>, name: Seq<char>, args: Seq<char>) -> Seq<Event> {
    seq![
        Event::ToolUseStart(id, name),
        Event::ToolUseDelta(id, args),
        Event::ToolUseEnd(id),
    ]
}

/// The events of the first `n` calls, each under its id.
pub open spec fn calls_events(
    c: Seq<(Seq<char>, Seq<char>)>,
    ids: Seq<Seq<char>>,
    n: int,
) -> Seq<Event>
    decreases n,
{
    if n <= 0 {
        Seq::empty()
    } else {
        calls_events(c, ids, n - 1) + call_events(ids[n - 1], c[n - 1].0, c[n - 1].1)
    }
}

/// What a token does to a stream. `decoded` is the text of all the tokens, where
/// it could be had.
pub open spec fn pushed(
    before: BatchSeq,
    after: BatchSeq,
    tok: u32,
    decoded: Option<&str>,
    delta: Option<String>,
    needs_reader: bool,
) -> bool {
    &&& after.wf()
    &&& after.same_request(before)
    &&& after.stop == before.stop
    &&& after.out_ids@ == before.out_ids@.push(tok)
    &&& match decoded {
        Some(text) => {
            let stable = stable_part(text@);
            let s = shown(stable, before.emitted@, before.tool_seen, before.tools);
            &&& after.full_text@ == stable
            &&& after.tool_seen == s.closed
            &&& needs_reader == s.needs_reader
            &&& delta is Some <==> s.upto > before.emitted@.len()
            &&& match delta {
                Some(d) => {
                    &&& after.emitted@ == stable.subrange(0, s.upto)
                    &&& d@ == stable.subrange(before.emitted@.len() as int, s.upto)
                },
                None => after.emitted@ == before.emitted@,
            }
        },
        None => {
            &&& delta is None
            &&& !needs_reader
            &&& after.full_text@ == before.full_text@
            &&& after.tool_seen == before.tool_seen
            &&& after.emitted@ == before.emitted@
        },
    }
}

/// What offering a token does to a stream: a token that ends a turn, and a request
/// that was cancelled, end it; any other token is taken.
pub open spec fn offered(
    before: BatchSeq,
    after: BatchSeq,
    tok: u32,
    eos: Seq<u32>,
    cancelled: bool,
    decoded: Option<&str>,
    r: Offer,
) -> bool {
    match r {
        Offer::Finished => {
            &&& eos.contains(tok) || cancelled
            &&& after.wf()
            &&& after.same_request(before)
            &&& after.same_text(before)
            &&& after.stop == (if eos.contains(tok) {
                StopReason::EndTurn
            } else {
                StopReason::Cancelled
            })
        },
        Offer::Taken { delta, needs_reader } => {
            &&& !eos.contains(tok)
            &&& !cancelled
            &&& pushed(before, after, tok, decoded, delta, needs_reader)
        },
    }
}

/// What settling a token does to a stream: without its reader, at its limit, or,
/// where loops are watched for, in a loop it ends.
pub open spec fn settled(
    before: BatchSeq,
    after: BatchSeq,
    reader_gone: bool,
    watched: bool,
    finished: bool,
) -> bool {
    let full = before.output_tokens >= before.max_tokens;
    let looping = watched && runaway(before.out_ids@);
    &&& after.wf()
    &&& after.same_request(before)
    &&& after.same_text(before)
    &&& finished == (reader_gone || full || looping)
    &&& after.stop == (if reader_gone {
        StopReason::Cancelled
    } else if full {
        StopReason::MaxTokens
    } else if looping {
        StopReason::EndTurn
    } else {
        before.stop
    })
}

impl BatchSeq {
    pub open spec fn wf(&self) -> bool {
        self.output_tokens == self.out_ids@.len()
    }

    /// The request and its limits are as before.
    pub open spec fn same_request(&self, o: BatchSeq) -> bool {
        &&& self.tools == o.tools
        &&& self.prompt_len == o.prompt_len
        &&& self.max_tokens == o.max_tokens
    }

    /// What was written and shown is as before.
    pub open spec fn same_text(&self, o: BatchSeq) -> bool {
        &&& self.out_ids@ == o.out_ids@
        &&& self.output_tokens == o.output_tokens
        &&& self.emitted@ == o.emitted@
        &&& self.full_text@ == o.full_text@
        &&& self.tool_seen == o.tool_seen
    }

    /// The calls that the stream ends with.
    pub open spec fn final_calls(&self) -> Seq<(Seq<char>, Seq<char>)> {
        if self.stop is Cancelled {
            Seq::empty()
        } else {
            tool_calls(self.full_text@)
        }
    }

    /// Text that was held back and turns out not to be a call.
    pub open spec fn held_back(&self) -> Seq<Event> {
        if byte_len(self.full_text@) > byte_len(self.emitted@) {
            seq![Event::TextDelta(rest_after(self.full_text@, self.emitted@))]
        } else {
            Seq::empty()
        }
    }

    /// The stream can be ended: it ends with calls, nothing of its text is left to
    /// be told, or what is left starts at a character.
    pub open spec fn can_end(&self) -> bool {
        ||| self.final_calls().len() > 0
        ||| byte_len(self.full_text@) <= byte_len(self.emitted@)
        ||| cuts(self.full_text@, self.emitted@)
    }

    /// The last events of the stream.
    pub open spec fn final_events(&self, ids: Seq<Seq<char>>) -> Seq<Event> {
        let c = self.final_calls();
        if c.len() > 0 {
            calls_events(c, ids, c.len() as int).push(
                Event::Done(self.prompt_len, self.output_tokens, StopReason::ToolUse),
            )
        } else {
            self.held_back().push(Event::Done(self.prompt_len, self.output_tokens, self.stop))
        }
    }

    pub fn new(tools: bool, prompt_len: u32, max_tokens: usize) -> (r: Self)
        ensures
            r.wf(),
            r.tools == tools,
            r.prompt_len == prompt_len,
            r.max_tokens == max_tokens,
            r.out_ids@.len() == 0,
            r.emitted@.len() == 0,
            r.full_text@.len() == 0,
            !r.tool_seen,
            r.stop is EndTurn,
    {
        BatchSeq {
            tools,
            out_ids: Vec::new(),
            emitted: String::new(),
            full_text: String::new(),
            tool_seen: false,
            output_tokens: 0,
            prompt_len,
            max_tokens,
            stop: StopReason::EndTurn,
        }
    }

    /// Takes a token. `decoded` is the text of all the tokens, where it could be
    /// had: what of it may be shown goes to the reader. What is out is never taken
    /// back, and never sent twice.
    pub fn push(&mut self, tok: u32, decoded: Option<&str>) -> (r: (Option<String>, bool))
        requires
            old(self).wf(),
            old(self).output_tokens < u32::MAX,
        ensures
            pushed(*old(self), *final(self), tok, decoded, r.0, r.1),
            r.0 matches Some(delta) ==> final(self).emitted@ == old(self).emitted@ + delta@,
    {
        self.out_ids.push(tok);
        self.output_tokens = self.output_tokens + 1;
        let text = match decoded {
            Some(t) => t,
            None => {
                return (None, false);
            },
        };
        let stable = stable_text(text);
        self.full_text = crate::text::string_of(&stable);
        if self.tool_seen {
            return (None, false);
        }
        let out = chars_of(self.emitted.as_str());
        let n = out.len();
        let fits = begins_with(&stable, &out);
        let (upto, closed): (usize, bool) = match markup_at(&stable, self.tools) {
            Some(pos) => (pos, true),
            None => {
                let cut = match last_position(&stable, "```") {
                    Some(p) => if self.tools && p >= n {
                        p
                    } else {
                        stable.len()
                    },
                    None => stable.len(),
                };
                (cut, false)
            },
        };
        self.tool_seen = closed;
        if fits && upto > n {
            let delta = substr(&stable, n, upto);
            self.emitted = substr(&stable, 0, upto);
            assert(stable@.subrange(0, upto as int) =~= out@ + delta@) by {
                assert(stable@.subrange(0, n as int) =~= out@);
            }
            (Some(delta), !closed)
        } else {
            (None, false)
        }
    }

    /// Offers the next token of the model.
    pub fn offer(&mut self, tok: u32, eos: &Vec<u32>, cancelled: bool, decoded: Option<&str>) -> (r:
        Offer)
        requires
            old(self).wf(),
            !eos@.contains(tok) && !cancelled ==> old(self).output_tokens < u32::MAX,
        ensures
            offered(*old(self), *final(self), tok, eos@, cancelled, decoded, r),
    {
        if has_token(eos, tok) {
            self.stop = StopReason::EndTurn;
            return Offer::Finished;
        }
        if cancelled {
            self.stop = StopReason::Cancelled;
            return Offer::Finished;
        }
        let (delta, needs_reader) = self.push(tok, decoded);
        Offer::Taken { delta, needs_reader }
    }

    /// The token was taken and its text sent. `reader_gone` tells that the reader
    /// was needed and is gone, `watched` that loops are watched for. Whether the
    /// stream ends.
    pub fn settle(&mut self, reader_gone: bool, watched: bool) -> (finished: bool)
        requires
            old(self).wf(),
        ensures
            settled(*old(self), *final(self), reader_gone, watched, finished),
    {
        if reader_gone {
            self.stop = StopReason::Cancelled;
            return true;
        }
        if self.output_tokens as u64 >= self.max_tokens as u64 {
            self.stop = StopReason::MaxTokens;
            return true;
        }
        if watched && is_runaway_loop(&self.out_ids) {
            self.stop = StopReason::EndTurn;
            return true;
        }
        false
    }

    /// How many calls the stream ends with: so many ids it takes to end it.
    pub fn count_calls(&self) -> (r: usize)
        ensures
            r == self.final_calls().len(),
    {
        if self.stop == StopReason::Cancelled {
            0
        } else {
            parse_tool_calls(self.full_text.as_str()).len()
        }
    }

    /// What was written is no longer than what is out, or what is out is as long as
    /// whole characters of it, so that the rest can be told.
    pub fn can_flush(&self) -> (r: bool)
        ensures
            r == (byte_len(self.full_text@) <= byte_len(self.emitted@) || cuts(
                self.full_text@,
                self.emitted@,
            )),
    {
        let n = self.emitted.as_str().as_bytes().len();
        if self.full_text.as_str().as_bytes().len() <= n {
            return true;
        }
        let v = chars_of(self.full_text.as_str());
        let k = chars_within(&v, n);
        substr(&v, 0, k).as_str().as_bytes().len() == n
    }

    /// Ends the stream: the calls of the text, or what was held back of it, and
    /// then the sum of it.
    pub fn finalize(&mut self, ids: &Vec<String>) -> (r: Vec<ChatEvent>)
        requires
            ids@.len() >= old(self).final_calls().len(),
            old(self).can_end(),
        ensures
            events(r@) == old(self).final_events(views(ids@)),
            final(self).same_request(*old(self)),
            final(self).same_text(*old(self)),
            final(self).stop == (if old(self).final_calls().len() > 0 {
                StopReason::ToolUse
            } else {
                old(self).stop
            }),
    {
        let mut out: Vec<ChatEvent> = Vec::new();
        let found: Vec<(String, String)> = if self.stop == StopReason::Cancelled {
            Vec::new()
        } else {
            parse_tool_calls(self.full_text.as_str())
        };
        let ghost c = self.final_calls();
        assert(calls(found@) =~= c);
        assert(events(out@) =~= Seq::empty());
        if found.len() > 0 {
            let mut i: usize = 0;
            while i < found.len()
                invariant
                    i <= found.len(),
                    found@.len() <= ids@.len(),
                    calls(found@) == c,
                    events(out@) == calls_events(c, views(ids@), i as int),
                decreases found.len() - i,
            {
                let ghost before = out@;
                assert(c[i as int] == (found@[i as int].0@, found@[i as int].1@));
                out.push(
                    ChatEvent::ToolUseStart { id: ids[i].clone(), name: found[i].0.clone() },
                );
                out.push(
                    ChatEvent::ToolUseDelta {
                        id: ids[i].clone(),
                        input_json_delta: found[i].1.clone(),
                    },
                );
                out.push(ChatEvent::ToolUseEnd { id: ids[i].clone() });
                assert(events(out@) =~= events(before) + call_events(
                    views(ids@)[i as int],
                    c[i as int].0,
                    c[i as int].1,
                ));
                i = i + 1;
            }
            self.stop = StopReason::ToolUse;
        } else {
            let n = self.emitted.as_str().as_bytes().len();
            if self.full_text.as_str().as_bytes().len() > n {
                let v = chars_of(self.full_text.as_str());
                let k = chars_within(&v, n);
                out.push(ChatEvent::TextDelta { text: substr(&v, k, v.len()) });
                assert(events(out@) =~= self.held_back());
            }
        }
        let ghost before = out@;
        out.push(
            ChatEvent::Done {
                input_tokens: self.prompt_len,
                output_tokens: self.output_tokens,
                stop_reason: self.stop,
            },
        );
        assert(events(out@) =~= events(before).push(
            Event::Done(self.prompt_len, self.output_tokens, self.stop),
        ));
        out
    }

    /// Ends the stream, where there are ids enough for its calls and the rest of
    /// its text can be told; else leaves it as it is.
    pub fn finish(&mut self, ids: &Vec<String>) -> (r: Option<Vec<ChatEvent>>)
        ensures
            r is Some <==> ids@.len() >= old(self).final_calls().len() && old(self).can_end(),
            r matches Some(e) ==> events(e@) == old(self).final_events(views(ids@)),
            r is Some ==> final(self).same_request(*old(self)) && final(self).same_text(*old(self)),
            r is Some ==> final(self).stop == (if old(self).final_calls().len() > 0 {
                StopReason::ToolUse
            } else {
                old(self).stop
            }),
            r is None ==> *final(self) == *old(self),
    {
        let n = self.count_calls();
        if ids.len() >= n && (n > 0 || self.can_flush()) {
            Some(self.finalize(ids))
        } else {
            None
        }
    }
}

// ---------------------------------------------------------------------------
// Laws
// ---------------------------------------------------------------------------

/// Nothing of the markup of a call is ever shown, nor of a code fence that may
/// open one: what is shown ends before it.
pub proof fn markup_is_not_shown(text: Seq<char>, out: Seq<char>, tools: bool)
    requires
        shown(text, out, false, tools).upto > out.len(),
    ensures
        markup_start(text, tools) matches Some(p) ==> shown(text, out, false, tools).upto <= p,
        markup_start(text, tools) is None && tools ==> (rfind(text, "```"@) matches Some(p) ==> p
            < out.len() || shown(text, out, false, tools).upto <= p),
        starts_with(text, out),
{
}

/// Once the markup of a call was reached nothing more is shown.
pub proof fn markup_ends_the_text(text: Seq<char>, out: Seq<char>, tools: bool)
    ensures
        shown(text, out, true, tools).upto == out.len(),
        shown(text, out, true, tools).closed,
{
}

/// A stream without calls that was not cut short shows all that was written: what
/// is out, and then what was held back.
pub proof fn all_of_the_text_is_shown(s: BatchSeq)
    requires
        starts_with(s.full_text@, s.emitted@),
    ensures
        s.can_end(),
        s.held_back().len() == 0 ==> s.emitted@ == s.full_text@,
        s.held_back().len() > 0 ==> (s.held_back()[0] matches Event::TextDelta(rest) && s.emitted@
            + rest == s.full_text@),
{
    let full = s.full_text@;
    let out = s.emitted@;
    let n = out.len() as int;
    assert(full.subrange(0, n) =~= out);
    crate::text::prefix_within_of(full, n);
    assert(prefix_within(full, byte_len(out)) == n);
    assert(cuts(full, out));
    assert(out + from(full, n) =~= full);
    if byte_len(full) <= byte_len(out) {
        crate::text::whole_prefix(full, n);
    }
}

/// A stream ends with exactly one sum, and it is the last event.
pub proof fn a_stream_ends_once(s: BatchSeq, ids: Seq<Seq<char>>)
    ensures
        s.final_events(ids).last() is Done,
        forall|i: int|
            0 <= i < s.final_events(ids).len() - 1 ==> !((#[trigger] s.final_events(ids)[i]) is Done),
{
    let c = s.final_calls();
    calls_are_not_done(c, ids, c.len() as int);
}

proof fn calls_are_not_done(c: Seq<(Seq<char>, Seq<char>)>, ids: Seq<Seq<char>>, n: int)
    ensures
        forall|i: int|
            0 <= i < calls_events(c, ids, n).len() ==> !((#[trigger] calls_events(c, ids, n)[i]) is Done),
    decreases n,
{
    if n > 0 {
        calls_are_not_done(c, ids, n - 1);
        let rest = calls_events(c, ids, n - 1);
        let e = call_events(ids[n - 1], c[n - 1].0, c[n - 1].1);
        assert forall|i: int| 0 <= i < calls_events(c, ids, n).len() implies !((
        #[trigger] calls_events(c, ids, n)[i]) is Done) by {
            if i < rest.len() {
                assert(calls_events(c, ids, n)[i] == rest[i]);
            } else {
                assert(calls_events(c, ids, n)[i] == e[i - rest.len()]);
            }
        }
    }
}

/// Each call is told in three events, its start, its arguments and its end, and all
/// three carry the id of that call and of no other: the ids of the calls are as
/// different as the ids that were given. The sum comes last.
pub proof fn every_call_has_its_own_id(s: BatchSeq, ids: Seq<Seq<char>>, k: int)
    requires
        ids.len() >= s.final_calls().len(),
        0 <= k < s.final_calls().len(),
    ensures
        s.can_end(),
        s.final_events(ids).len() == 3 * s.final_calls().len() + 1,
        s.final_events(ids)[3 * k] == Event::ToolUseStart(ids[k], s.final_calls()[k].0),
        s.final_events(ids)[3 * k + 1] == Event::ToolUseDelta(ids[k], s.final_calls()[k].1),
        s.final_events(ids)[3 * k + 2] == Event::ToolUseEnd(ids[k]),
        forall|m: int|
            0 <= m < s.final_calls().len() && m != k && ids[m] != ids[k] ==> !(s.final_events(
                ids,
            )[#[trigger] (3 * m)] matches Event::ToolUseStart(id, _) && id == ids[k]),
        s.final_events(ids).last() == Event::Done(
            s.prompt_len,
            s.output_tokens,
            StopReason::ToolUse,
        ),
{
    let c = s.final_calls();
    let n = c.len() as int;
    calls_in_threes(c, ids, n, k);
    assert forall|m: int| 0 <= m < n && m != k && ids[m] != ids[k] implies !(s.final_events(
        ids,
    )[#[trigger] (3 * m)] matches Event::ToolUseStart(id, _) && id == ids[k]) by {
        calls_in_threes(c, ids, n, m);
    }
}

proof fn calls_in_threes(c: Seq<(Seq<char>, Seq<char>)>, ids: Seq<Seq<char>>, n: int, k: int)
    requires
        0 <= n <= c.len(),
    ensures
        calls_events(c, ids, n).len() == 3 * n,
        0 <= k < n ==> {
            &&& calls_events(c, ids, n)[3 * k] == Event::ToolUseStart(ids[k], c[k].0)
            &&& calls_events(c, ids, n)[3 * k + 1] == Event::ToolUseDelta(ids[k], c[k].1)
            &&& calls_events(c, ids, n)[3 * k + 2] == Event::ToolUseEnd(ids[k])
        },
    decreases n,
{
    if n > 0 {
        calls_in_threes(c, ids, n - 1, k);
    }
}

/// A stream ends with the calls of all that was written, unless it was cancelled: a
/// cancelled stream calls nothing.
pub proof fn a_cancelled_stream_calls_nothing(s: BatchSeq)
    ensures
        s.stop is Cancelled ==> s.final_calls().len() == 0,
        !(s.stop is Cancelled) ==> s.final_calls() == tool_calls(s.full_text@),
{
}

/// Without calls, the sum tells the tokens that were read, those that were written
/// and why the stream ended, and nothing but the rest of the text comes before it.
pub proof fn a_stream_without_calls_ends_with_its_sum(s: BatchSeq, ids: Seq<Seq<char>>)
    requires
        s.final_calls().len() == 0,
        starts_with(s.full_text@, s.emitted@),
    ensures
        s.final_events(ids).last() == Event::Done(s.prompt_len, s.output_tokens, s.stop),
        s.emitted@ == s.full_text@ ==> s.final_events(ids).len() == 1,
        s.emitted@ != s.full_text@ ==> {
            &&& s.final_events(ids).len() == 2
            &&& s.final_events(ids)[0] matches Event::TextDelta(rest) && s.emitted@ + rest
                == s.full_text@
        },
{
    all_of_the_text_is_shown(s);
}

/// The stable part of a text is the text but for replacement characters at its end,
/// all of them.
pub proof fn what_is_stable_stays(s: Seq<char>, n: int)
    requires
        0 <= n <= s.len(),
        n > 0 ==> s[n - 1] != '\u{FFFD}',
        forall|i: int| n <= i < s.len() ==> (#[trigger] s[i]) == '\u{FFFD}',
    ensures
        stable_part(s) == s.subrange(0, n),
    decreases s.len(),
{
    if n < s.len() {
        let r = s.drop_last();
        assert(s[s.len() - 1] == '\u{FFFD}');
        assert forall|i: int| n <= i < r.len() implies (#[trigger] r[i]) == '\u{FFFD}' by {
            assert(r[i] == s[i]);
        }
        what_is_stable_stays(r, n);
        assert(r.subrange(0, n) =~= s.subrange(0, n));
    } else {
        assert(s.subrange(0, n) =~= s);
    }
}

/// Text is shown as soon as it is written: where what is out still begins it, and
/// neither markup nor, with tools, a fence stands in what is new, all of it is out.
/// Before markup all of the text up to it is out, and before a fence all up to it.
pub proof fn text_is_shown_at_once(text: Seq<char>, out: Seq<char>, tools: bool)
    requires
        starts_with(text, out),
    ensures
        markup_start(text, tools) is None && (!tools || rfind(text, "```"@) is None) ==> shown(
            text,
            out,
            false,
            tools,
        ).upto == text.len() && !shown(text, out, false, tools).closed,
        markup_start(text, tools) is None && tools ==> (rfind(text, "```"@) matches Some(p) ==> {
            &&& p >= out.len() ==> shown(text, out, false, tools).upto == p
            &&& p < out.len() ==> shown(text, out, false, tools).upto == text.len()
            &&& !shown(text, out, false, tools).closed
        }),
        markup_start(text, tools) matches Some(p) ==> {
            &&& shown(text, out, false, tools).closed
            &&& p >= out.len() ==> shown(text, out, false, tools).upto == p
            &&& p < out.len() ==> shown(text, out, false, tools).upto == out.len()
        },
        shown(text, out, false, tools).needs_reader <==> markup_start(text, tools) is None
            && shown(text, out, false, tools).upto > out.len(),
{
    assert(out.len() <= text.len());
}

/// A text that no longer begins with what is out shows nothing more.
pub proof fn what_is_out_is_not_contradicted(text: Seq<char>, out: Seq<char>, tools: bool)
    requires
        !starts_with(text, out),
    ensures
        shown(text, out, false, tools).upto == out.len(),
        !shown(text, out, false, tools).needs_reader,
{
}

/// A token that ends a turn, or a request that was cancelled, ends the stream for
/// that reason and is not counted; any other is taken, and counted once.
pub proof fn a_token_ends_or_counts(
    before: BatchSeq,
    after: BatchSeq,
    tok: u32,
    eos: Seq<u32>,
    cancelled: bool,
    decoded: Option<&str>,
    r: Offer,
)
    requires
        before.wf(),
        offered(before, after, tok, eos, cancelled, decoded, r),
    ensures
        eos.contains(tok) ==> r is Finished && after.stop is EndTurn,
        !eos.contains(tok) && cancelled ==> r is Finished && after.stop is Cancelled,
        r is Finished ==> after.out_ids@ == before.out_ids@ && after.output_tokens
            == before.output_tokens,
        !eos.contains(tok) && !cancelled ==> r is Taken && after.out_ids@ == before.out_ids@.push(
            tok,
        ) && after.output_tokens == before.output_tokens + 1 && after.stop == before.stop,
        after.prompt_len == before.prompt_len,
        after.max_tokens == before.max_tokens,
        after.tools == before.tools,
{
}

/// What a token adds to the reader's text is what is sent, no more and no less; a
/// token whose text could not be had sends nothing and changes no text.
pub proof fn what_is_sent_is_what_is_out(
    before: BatchSeq,
    after: BatchSeq,
    tok: u32,
    decoded: Option<&str>,
    delta: Option<String>,
    needs_reader: bool,
)
    requires
        before.wf(),
        pushed(before, after, tok, decoded, delta, needs_reader),
    ensures
        delta is None ==> after.emitted@ == before.emitted@,
        delta matches Some(d) ==> d@.len() > 0 && after.emitted@ == before.emitted@ + d@,
        decoded is None ==> after.full_text@ == before.full_text@ && delta is None,
        decoded matches Some(t) ==> after.full_text@ == stable_part(t@),
        before.tool_seen ==> delta is None,
        before.tool_seen && decoded is Some ==> after.tool_seen,
{
    if let Some(text) = decoded {
        let stable = stable_part(text@);
        let s = shown(stable, before.emitted@, before.tool_seen, before.tools);
        if s.upto > before.emitted@.len() {
            let n = before.emitted@.len() as int;
            markup_begins_where_it_stands(stable, before.tools);
            crate::text::rfind_is_last(stable, "```"@);
            assert(stable.subrange(0, n) =~= before.emitted@);
            assert(stable.subrange(0, s.upto) =~= before.emitted@ + stable.subrange(n, s.upto));
        }
    }
}

/// Why a stream ends once its token was taken: its reader is gone, it is as long as
/// it may be, or it runs in a loop, in this order; else it goes on, and its reason
/// stays.
pub proof fn a_stream_ends_for_a_reason(
    before: BatchSeq,
    after: BatchSeq,
    reader_gone: bool,
    watched: bool,
    finished: bool,
)
    requires
        settled(before, after, reader_gone, watched, finished),
    ensures
        reader_gone ==> finished && after.stop is Cancelled,
        !reader_gone && before.output_tokens >= before.max_tokens ==> finished
            && after.stop is MaxTokens,
        !reader_gone && before.output_tokens < before.max_tokens && watched && runaway(
            before.out_ids@,
        ) ==> finished && after.stop is EndTurn,
        !reader_gone && before.output_tokens < before.max_tokens && !(watched && runaway(
            before.out_ids@,
        )) ==> !finished && after.stop == before.stop,
        after.out_ids@ == before.out_ids@,
        after.emitted@ == before.emitted@,
        after.full_text@ == before.full_text@,
        after.output_tokens == before.output_tokens,
{
}

/// A stream whose text was told to its end, in bytes, can be ended and tells nothing
/// more of it.
pub proof fn a_told_text_is_not_told_again(s: BatchSeq, ids: Seq<Seq<char>>)
    requires
        encode_utf8(s.full_text@).len() <= encode_utf8(s.emitted@).len(),
        s.final_calls().len() == 0,
    ensures
        s.can_end(),
        s.final_events(ids) == seq![Event::Done(s.prompt_len, s.output_tokens, s.stop)],
{
    assert(s.final_events(ids) =~= seq![Event::Done(s.prompt_len, s.output_tokens, s.stop)]);
}

} // verus!
