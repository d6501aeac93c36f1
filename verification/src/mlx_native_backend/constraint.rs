//! Which part of what a model writes must follow a schema.

use crate::mlx_native_backend::markup::{
    extract_tool_name, find_loose_tool_json, name_value, named_brace,
};
use crate::serving::TOOL_OPEN;
use crate::text::{
    chars_of, chars_within, find, from, is_white, position, prefix_within, same, substr,
    trim_start, views,
};
use vstd::prelude::*;
use vstd::utf8::encode_utf8;

verus! {

/// The form that the body of a call has.
#[derive(Clone, Copy, Debug, PartialEq, Eq, Structural)]
pub enum Form {
    /// JSON with a name and arguments. Once the name is known, the arguments
    /// follow the schema of that tool.
    Json { tool: Option<usize> },
    /// Tags for the function and its parameters.
    Xml,
}

/// Where the body of a call begins, and its first character: behind an envelope's
/// opening, else at a loose call.
pub open spec fn opening(s: Seq<char>) -> Option<(int, char)> {
    match find(s, TOOL_OPEN@) {
        Some(op) => {
            let after = from(s, op + TOOL_OPEN@.len());
            let body = trim_start(after);
            if body.len() > 0 {
                Some((s.len() - body.len(), body[0]))
            } else {
                None
            }
        },
        None => match named_brace(s, 0) {
            Some(i) => Some((i, '{')),
            None => None,
        },
    }
}

/// Where the body of a call begins, and its form.
pub open spec fn opened(s: Seq<char>) -> Option<(int, Form)> {
    match opening(s) {
        Some((at, c)) => if c == '{' {
            Some((at, Form::Json { tool: None }))
        } else if c == '<' {
            Some((at, Form::Xml))
        } else {
            None
        },
        None => None,
    }
}

/// The position of a name, from `i` on.
pub open spec fn name_position(names: Seq<Seq<char>>, name: Seq<char>, i: int) -> Option<int>
    decreases names.len() - i,
{
    if i < 0 || i >= names.len() {
        None
    } else if names[i] == name {
        Some(i)
    } else {
        name_position(names, name, i + 1)
    }
}

/// The form once the body was read: the tool whose name stands in it.
pub open spec fn resolved(form: Form, names: Seq<Seq<char>>, body: Seq<char>) -> Form {
    match form {
        Form::Json { tool: _ } => match name_value(body) {
            Some(n) => match name_position(names, n, 0) {
                Some(i) => Form::Json { tool: Some(i as usize) },
                None => form,
            },
            None => form,
        },
        Form::Xml => form,
    }
}

/// The bytes before a position.
pub open spec fn bytes_before(s: Seq<char>, i: int) -> int {
    encode_utf8(s.subrange(0, i)).len() as int
}

/// What stands behind so many bytes.
pub open spec fn behind(s: Seq<char>, bytes: int) -> Seq<char> {
    from(s, prefix_within(s, bytes))
}

/// So many bytes are whole characters at the start of a text.
pub open spec fn divides(s: Seq<char>, bytes: int) -> bool {
    bytes_before(s, prefix_within(s, bytes)) == bytes
}

/// Constrains the calls of a request to its tools.
pub struct ToolConstraint {
    pub names: Vec<String>,
    /// The form of the call, once it has begun.
    pub form: Option<Form>,
    /// The call is complete: nothing is constrained any more.
    pub done: bool,
    /// Bytes before the body of the call.
    pub body_start: usize,
}

fn name_index(names: &Vec<String>, name: &str) -> (r: Option<usize>)
    ensures
        match r {
            Some(i) => name_position(views(names@), name@, 0) == Some(i as int) && i
                < names@.len(),
            None => name_position(views(names@), name@, 0) is None,
        },
{
    let ghost all = views(names@);
    let mut i: usize = 0;
    while i < names.len()
        invariant
            i <= names.len(),
            all == views(names@),
            name_position(all, name@, 0) == name_position(all, name@, i as int),
        decreases names.len() - i,
    {
        assert(all[i as int] == names@[i as int]@);
        if same(names[i].as_str(), name) {
            return Some(i);
        }
        i = i + 1;
    }
    None
}

proof fn trim_start_shortens(s: Seq<char>)
    ensures
        trim_start(s).len() <= s.len(),
        trim_start(s) == from(s, s.len() - trim_start(s).len()),
    decreases s.len(),
{
    if s.len() > 0 && is_white(s[0]) {
        let t = s.subrange(1, s.len() as int);
        trim_start_shortens(t);
        assert(from(t, t.len() - trim_start(t).len()) =~= from(s, s.len() - trim_start(s).len()));
    } else {
        assert(from(s, 0) =~= s);
    }
}

fn opened_in(text: &str) -> (r: Option<(usize, Form)>)
    ensures
        match r {
            Some((bytes, form)) => opened(text@) matches Some((at, f)) && bytes_before(text@, at)
                == bytes && f == form,
            None => opened(text@) is None,
        },
{
    let v = chars_of(text);
    proof {
        reveal_strlit("<tool_call>");
    }
    match position(&v, TOOL_OPEN, 0) {
        Some(op) => {
            let mut at: usize = op + 11;
            let ghost after = from(v@, op + 11);
            let ghost start = op + 11;
            assert(from(v@, at as int) =~= after);
            while at < v.len() && crate::text::char_is_white(v[at])
                invariant
                    start <= at <= v.len(),
                    trim_start(after) == trim_start(from(v@, at as int)),
                decreases v.len() - at,
            {
                let ghost rest = from(v@, at as int);
                assert(rest.subrange(1, rest.len() as int) =~= from(v@, at + 1));
                at = at + 1;
            }
            if at == v.len() {
                assert(from(v@, at as int) =~= Seq::empty());
                return None;
            }
            assert(from(v@, at as int)[0] == v@[at as int]);
            let bytes = substr(&v, 0, at).as_str().as_bytes().len();
            let c = v[at];
            if c == '{' {
                Some((bytes, Form::Json { tool: None }))
            } else if c == '<' {
                Some((bytes, Form::Xml))
            } else {
                None
            }
        },
        None => match find_loose_tool_json(text) {
            Some(bytes) => Some((bytes, Form::Json { tool: None })),
            None => None,
        },
    }
}

fn behind_in(text: &str, bytes: usize) -> (r: String)
    ensures
        r@ == behind(text@, bytes as int),
{
    let v = chars_of(text);
    let k = chars_within(&v, bytes);
    substr(&v, k, v.len())
}

impl ToolConstraint {
    pub open spec fn wf(&self) -> bool {
        self.form matches Some(Form::Json { tool: Some(i) }) ==> i < self.names@.len()
    }

    /// A constraint for tools with these names; nothing without tools.
    pub fn from_job(names: Vec<String>) -> (r: Option<Self>)
        ensures
            r is Some <==> names@.len() > 0,
            r matches Some(c) ==> c.wf() && c.names == names && c.form is None && !c.done,
    {
        if names.len() == 0 {
            None
        } else {
            Some(ToolConstraint { names, form: None, done: false, body_start: 0 })
        }
    }

    /// Whether the text still holds what was before the body of a call that is not
    /// complete yet.
    pub fn continues(&self, full_text: &str) -> (r: bool)
        ensures
            r == (!self.done && self.form is Some ==> divides(
                full_text@,
                self.body_start as int,
            )),
    {
        if self.done || self.form.is_none() {
            return true;
        }
        let v = chars_of(full_text);
        let k = chars_within(&v, self.body_start);
        substr(&v, 0, k).as_str().as_bytes().len() == self.body_start
    }

    /// The body of the call that has begun, if one has: what is behind its start.
    /// Its form is known from its first character on, and its tool once its name
    /// is complete. Whether the body is complete already is told by `settle`.
    pub fn json_region(&mut self, full_text: &str) -> (r: Option<String>)
        requires
            old(self).wf(),
            !old(self).done && old(self).form is Some ==> divides(
                full_text@,
                old(self).body_start as int,
            ),
        ensures
            final(self).wf(),
            final(self).names == old(self).names,
            final(self).done == old(self).done,
            old(self).done ==> r is None && *final(self) == *old(self),
            !old(self).done && old(self).form is None ==> match opened(full_text@) {
                Some((at, form)) => {
                    &&& final(self).body_start == bytes_before(full_text@, at)
                    &&& r matches Some(body) && body@ == behind(
                        full_text@,
                        final(self).body_start as int,
                    ) && final(self).form == Some(
                        resolved(form, views(old(self).names@), body@),
                    )
                },
                None => r is None && *final(self) == *old(self),
            },
            !old(self).done ==> (old(self).form matches Some(form) ==> {
                &&& final(self).body_start == old(self).body_start
                &&& r matches Some(body) && body@ == behind(
                    full_text@,
                    old(self).body_start as int,
                ) && final(self).form == Some(resolved(form, views(old(self).names@), body@))
            }),
    {
        if self.done {
            return None;
        }
        let form = match self.form {
            Some(form) => form,
            None => match opened_in(full_text) {
                Some((at, form)) => {
                    self.body_start = at;
                    form
                },
                None => {
                    return None;
                },
            },
        };
        let body = behind_in(full_text, self.body_start);
        let mut now = form;
        match form {
            Form::Json { tool: _ } => match extract_tool_name(body.as_str()) {
                Some(name) => match name_index(&self.names, name.as_str()) {
                    Some(i) => {
                        now = Form::Json { tool: Some(i) };
                    },
                    None => {},
                },
                None => {},
            },
            Form::Xml => {},
        }
        self.form = Some(now);
        Some(body)
    }

    /// The body was held against its form: whether it is constrained further. A
    /// body that is complete ends the constraint.
    pub fn settle(&mut self, complete: bool) -> (constrained: bool)
        requires
            old(self).wf(),
        ensures
            final(self).wf(),
            constrained == !complete,
            final(self).done == (old(self).done || complete),
            final(self).names == old(self).names,
            final(self).form == old(self).form,
            final(self).body_start == old(self).body_start,
    {
        if complete {
            self.done = true;
        }
        !complete
    }
}

/// Constrains a whole response to a schema, until it is complete.
pub struct ResponseConstraint {
    pub done: bool,
}

impl ResponseConstraint {
    /// A constraint for a request with a schema.
    pub fn from_job(response_schema: bool) -> (r: Option<Self>)
        ensures
            r is Some <==> response_schema,
            r matches Some(c) ==> !c.done,
    {
        if response_schema {
            Some(ResponseConstraint { done: false })
        } else {
            None
        }
    }

    /// Whether the response is constrained now. `complete` tells that it follows
    /// the schema to its end.
    pub fn region(&mut self, complete: bool) -> (constrained: bool)
        ensures
            constrained == (!old(self).done && !complete),
            final(self).done == (old(self).done || complete),
    {
        if self.done {
            return false;
        }
        if complete {
            self.done = true;
            return false;
        }
        true
    }
}

// ---------------------------------------------------------------------------
// Candidates
// ---------------------------------------------------------------------------

/// How many of the most likely tokens are tried, in turn: few, more, all.
pub open spec fn width_of(step: int, vocab: int) -> Option<int> {
    if step < 0 || step > 2 {
        None
    } else {
        let k = if step == 0 {
            256
        } else if step == 1 {
            4096
        } else {
            vocab
        };
        Some(
            if k < vocab {
                k
            } else {
                vocab
            },
        )
    }
}

/// How many of the most likely tokens are tried in a step; nothing once all were.
pub fn candidate_width(step: usize, vocab: usize) -> (r: Option<usize>)
    ensures
        match r {
            Some(k) => width_of(step as int, vocab as int) == Some(k as int),
            None => width_of(step as int, vocab as int) is None,
        },
{
    if step > 2 {
        return None;
    }
    let k: usize = if step == 0 {
        256
    } else if step == 1 {
        4096
    } else {
        vocab
    };
    if k < vocab {
        Some(k)
    } else {
        Some(vocab)
    }
}

/// Which tokens may be sampled: those that are allowed, and no other.
pub fn allowed_mask(allowed: &Vec<usize>, vocab: usize) -> (r: Vec<bool>)
    requires
        forall|i: int| 0 <= i < allowed@.len() ==> (#[trigger] allowed@[i]) < vocab,
    ensures
        r@.len() == vocab,
        forall|t: int| 0 <= t < vocab ==> #[trigger] r@[t] == allowed@.contains(t as usize),
{
    let mut mask: Vec<bool> = Vec::new();
    let mut i: usize = 0;
    while i < vocab
        invariant
            i <= vocab,
            mask@.len() == i,
            forall|t: int| 0 <= t < i ==> !#[trigger] mask@[t],
        decreases vocab - i,
    {
        mask.push(false);
        i = i + 1;
    }
    let mut k: usize = 0;
    while k < allowed.len()
        invariant
            k <= allowed.len(),
            mask@.len() == vocab,
            forall|i: int| 0 <= i < allowed@.len() ==> (#[trigger] allowed@[i]) < vocab,
            forall|t: int|
                0 <= t < vocab ==> #[trigger] mask@[t] == allowed@.subrange(
                    0,
                    k as int,
                ).contains(t as usize),
        decreases allowed.len() - k,
    {
        let ghost part = allowed@.subrange(0, k as int);
        let ghost more = allowed@.subrange(0, k + 1);
        let ghost before = mask@;
        let t = allowed[k];
        mask.set(t, true);
        assert(more =~= part.push(t));
        assert forall|u: int| 0 <= u < vocab implies #[trigger] mask@[u] == more.contains(
            u as usize,
        ) by {
            if u == t {
                assert(more[k as int] == u as usize);
            } else if part.contains(u as usize) {
                let i = choose|i: int| 0 <= i < part.len() && part[i] == u as usize;
                assert(more[i] == u as usize);
            } else if more.contains(u as usize) {
                let i = choose|i: int| 0 <= i < more.len() && more[i] == u as usize;
                assert(i < part.len());
                assert(part[i] == u as usize);
            }
        }
        k = k + 1;
    }
    assert(allowed@.subrange(0, k as int) =~= allowed@);
    mask
}

// ---------------------------------------------------------------------------
// Laws
// ---------------------------------------------------------------------------

/// Every token is tried before none is found: the last step takes the whole
/// vocabulary.
pub proof fn all_candidates_are_tried(vocab: int)
    requires
        vocab >= 0,
    ensures
        width_of(2, vocab) == Some(vocab),
        width_of(0, vocab)->Some_0 <= width_of(1, vocab)->Some_0 <= vocab,
        width_of(3, vocab) is None,
{
}

/// Prose is never constrained: where nothing looks like a call, nothing is opened.
pub proof fn prose_is_free(s: Seq<char>)
    requires
        find(s, TOOL_OPEN@) is None,
        named_brace(s, 0) is None,
    ensures
        opened(s) is None,
{
}

/// An envelope comes before a loose call.
pub proof fn envelopes_come_first(s: Seq<char>)
    requires
        find(s, TOOL_OPEN@) is Some,
    ensures
        opened(s) matches Some((at, _)) ==> at >= find(s, TOOL_OPEN@)->Some_0
            + TOOL_OPEN@.len(),
{
    let op = find(s, TOOL_OPEN@)->Some_0;
    crate::text::find_from_is_least(s, TOOL_OPEN@, 0);
    trim_start_shortens(from(s, op + TOOL_OPEN@.len()));
}

/// The body of a call begins at the first character behind its envelope's opening,
/// white space aside, and its form is known from that character: a brace opens an
/// object, an angle bracket a tag, and anything else nothing that is constrained.
pub proof fn a_body_begins_behind_its_opening(
    gap: Seq<char>,
    white: Seq<char>,
    body: Seq<char>,
)
    requires
        find(gap, TOOL_OPEN@) is None,
        forall|i: int| 0 <= i < white.len() ==> is_white(#[trigger] white[i]),
        body.len() > 0,
        !is_white(body[0]),
    ensures
        ({
            let s = gap + "<tool_call>"@ + white + body;
            let at = s.len() - body.len();
            &&& body[0] == '{' ==> opened(s) == Some((at, (Form::Json { tool: None })))
            &&& body[0] == '<' ==> opened(s) == Some((at, Form::Xml))
            &&& body[0] != '{' && body[0] != '<' ==> opened(s) is None
        }),
        opened(gap + "<tool_call>"@ + white) is None,
{
    reveal_strlit("<tool_call>");
    let o = TOOL_OPEN@;
    let s = gap + o + white + body;
    let t = gap + o + white;
    let g = gap.len() as int;
    opening_is_found(gap, white + body);
    assert(gap + o + (white + body) =~= s);
    opening_is_found(gap, white);
    assert(from(s, g + 11) =~= white + body);
    assert(from(t, g + 11) =~= white + Seq::<char>::empty());
    crate::text::leading_white_goes(white, body);
    crate::text::leading_white_goes(white, Seq::empty());
}

proof fn opening_is_found(gap: Seq<char>, rest: Seq<char>)
    requires
        find(gap, TOOL_OPEN@) is None,
    ensures
        find(gap + TOOL_OPEN@ + rest, TOOL_OPEN@) == Some(gap.len() as int),
{
    reveal_strlit("<tool_call>");
    let o = TOOL_OPEN@;
    let s = gap + o + rest;
    let g = gap.len() as int;
    crate::text::find_from_is_least(gap, o, 0);
    crate::text::find_from_is_least(s, o, 0);
    assert(s.subrange(g, g + 11) =~= o);
    assert(crate::text::occurs_at(s, o, g));
    assert forall|j: int| 0 <= j < g implies !crate::text::occurs_at(s, o, j) by {
        if crate::text::occurs_at(s, o, j) {
            if j + 11 <= g {
                assert(s.subrange(j, j + 11) =~= gap.subrange(j, j + 11));
                assert(crate::text::occurs_at(gap, o, j));
            } else {
                let k = g - j;
                assert(s[g] == '<');
                assert(s.subrange(j, j + 11)[k] == '<');
                assert(o[k] != '<');
            }
        }
    }
}

/// A loose call is constrained from its brace on.
pub proof fn a_loose_call_begins_at_its_brace(s: Seq<char>)
    requires
        find(s, TOOL_OPEN@) is None,
    ensures
        named_brace(s, 0) matches Some(b) ==> opened(s) == Some((b, (Form::Json { tool: None }))),
{
}

/// A call is held against the first tool of its name; a name that no tool has leaves
/// the form as it is, and a tag has no tool.
pub proof fn a_call_is_held_against_its_tool(
    form: Form,
    names: Seq<Seq<char>>,
    body: Seq<char>,
    k: int,
)
    requires
        names.len() <= usize::MAX,
    ensures
        form is Xml ==> resolved(form, names, body) == form,
        form is Json && 0 <= k < names.len() && name_value(body) == Some(names[k]) && (forall|j: int|
            0 <= j < k ==> #[trigger] names[j] != names[k]) ==> resolved(form, names, body) == (
        Form::Json { tool: Some(k as usize) }),
        name_value(body) is None ==> resolved(form, names, body) == form,
        name_value(body) matches Some(n) ==> (!names.contains(n) ==> resolved(form, names, body)
            == form),
{
    if let Some(n) = name_value(body) {
        name_position_is_first(names, n, 0);
        if let Some(i) = name_position(names, n, 0) {
            assert(names.contains(n));
        }
    }
}

proof fn name_position_is_first(names: Seq<Seq<char>>, name: Seq<char>, i: int)
    requires
        0 <= i,
    ensures
        match name_position(names, name, i) {
            Some(k) => i <= k < names.len() && names[k] == name && forall|j: int|
                i <= j < k ==> #[trigger] names[j] != name,
            None => forall|j: int| i <= j < names.len() ==> #[trigger] names[j] != name,
        },
    decreases names.len() - i,
{
    if i < names.len() && names[i] != name {
        name_position_is_first(names, name, i + 1);
    }
}

/// The few most likely tokens are tried first, then more, then all; never more than
/// there are.
pub proof fn few_candidates_are_tried_first(vocab: int)
    requires
        vocab >= 0,
    ensures
        vocab > 256 ==> width_of(0, vocab) == Some(256int),
        vocab <= 256 ==> width_of(0, vocab) == Some(vocab),
        vocab > 4096 ==> width_of(1, vocab) == Some(4096int),
        vocab <= 4096 ==> width_of(1, vocab) == Some(vocab),
{
}

/// What stands behind the bytes before a position is the text from there on.
pub proof fn what_is_behind_is_the_rest(s: Seq<char>, i: int)
    requires
        0 <= i <= s.len(),
    ensures
        divides(s, bytes_before(s, i)),
        behind(s, bytes_before(s, i)) == from(s, i),
{
    crate::text::prefix_within_of(s, i);
}

} // verus!
