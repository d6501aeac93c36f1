//! A small model as router and classifier: the prompts it is asked with, and what
//! is made of its replies. A reply that names no label never breaks the caller:
//! the router falls back.

use crate::text::{
    alphanumeric, chars_of, chars_within, copy, dec, dec_text, is_alphanumeric, lowercase,
    occurs_at, prefix_within, same, substr, to_lower, trim, trim_str, views,
};
use vstd::prelude::*;
use vstd::utf8::encode_utf8;

verus! {

/// Tokens that a classification may take.
pub const CLASSIFY_MAX_TOKENS: u32 = 16;

/// Tokens that a summary may take, unless something else was set.
pub const SUMMARY_MAX_TOKENS: u32 = 256;

/// Bytes of a passage that stands in for a summary.
pub const SNIPPET_CAP: usize = 500;

// ---------------------------------------------------------------------------
// Labels
// ---------------------------------------------------------------------------

/// A classification target: the name that the model should answer with, and a
/// line that describes it.
pub struct Label {
    pub name: String,
    pub hint: String,
}

/// A label as plain text.
pub struct LabelView {
    pub name: Seq<char>,
    pub hint: Seq<char>,
}

impl View for Label {
    type V = LabelView;

    open spec fn view(&self) -> LabelView {
        LabelView { name: self.name@, hint: self.hint@ }
    }
}

pub open spec fn label_views(v: Seq<Label>) -> Seq<LabelView> {
    Seq::new(v.len(), |i: int| v[i]@)
}

impl Label {
    pub fn new(name: &str, hint: &str) -> (r: Self)
        ensures
            r.name@ == name@,
            r.hint@ == hint@,
    {
        Label { name: copy(name), hint: copy(hint) }
    }
}

pub open spec fn label(name: Seq<char>, hint: Seq<char>) -> LabelView {
    LabelView { name, hint }
}

/// The standard labels of difficulty, cheapest first.
pub fn difficulty_labels() -> (r: Vec<Label>)
    ensures
        label_views(r@) == seq![
            label("trivial"@, "a greeting, a one-word answer, or a simple lookup"@),
            label("moderate"@, "a normal question needing a short focused answer"@),
            label("hard"@, "long multi-step reasoning, math proofs, or substantial code"@),
        ],
{
    let mut v: Vec<Label> = Vec::new();
    v.push(Label::new("trivial", "a greeting, a one-word answer, or a simple lookup"));
    v.push(Label::new("moderate", "a normal question needing a short focused answer"));
    v.push(Label::new("hard", "long multi-step reasoning, math proofs, or substantial code"));
    assert(label_views(v@) =~= seq![
        label("trivial"@, "a greeting, a one-word answer, or a simple lookup"@),
        label("moderate"@, "a normal question needing a short focused answer"@),
        label("hard"@, "long multi-step reasoning, math proofs, or substantial code"@),
    ]);
    v
}

// ---------------------------------------------------------------------------
// Tokens
// ---------------------------------------------------------------------------

/// The complete tokens of a text, and the token that its end is in the middle
/// of.
pub open spec fn token_state(s: Seq<char>) -> (Seq<Seq<char>>, Seq<char>)
    decreases s.len(),
{
    if s.len() == 0 {
        (Seq::empty(), Seq::empty())
    } else {
        let (done, cur) = token_state(s.drop_last());
        if alphanumeric(s.last()) {
            (done, cur.push(s.last()))
        } else if cur.len() > 0 {
            (done.push(cur), Seq::empty())
        } else {
            (done, cur)
        }
    }
}

/// The longest runs of letters and digits in a text.
pub open spec fn runs(s: Seq<char>) -> Seq<Seq<char>> {
    let (done, cur) = token_state(s);
    if cur.len() > 0 {
        done.push(cur)
    } else {
        done
    }
}

/// The tokens of a text: its runs of letters and digits, in lower case.
pub open spec fn tokens_of(s: Seq<char>) -> Seq<Seq<char>> {
    runs(lowercase(s))
}

fn tokens(s: &str) -> (r: Vec<String>)
    ensures
        views(r@) == tokens_of(s@),
{
    let low = to_lower(s);
    let v = chars_of(low.as_str());
    let mut done: Vec<String> = Vec::new();
    let mut cur = String::new();
    let mut i: usize = 0;
    assert(views(done@) =~= Seq::empty());
    while i < v.len()
        invariant
            i <= v.len(),
            v@ == lowercase(s@),
            token_state(v@.subrange(0, i as int)) == (views(done@), cur@),
        decreases v.len() - i,
    {
        let ghost part = v@.subrange(0, i + 1);
        assert(part.drop_last() =~= v@.subrange(0, i as int));
        let ghost before = done@;
        let c = v[i];
        if is_alphanumeric(c) {
            cur.push(c);
        } else if !cur.as_str().is_empty() {
            done.push(cur);
            assert(views(done@) =~= views(before).push(done@[done@.len() - 1]@));
            cur = String::new();
        } else {
            assert(cur@ =~= Seq::empty());
        }
        i = i + 1;
    }
    assert(v@.subrange(0, i as int) =~= v@);
    if !cur.as_str().is_empty() {
        let ghost before = done@;
        done.push(cur);
        assert(views(done@) =~= views(before).push(done@[done@.len() - 1]@));
    }
    done
}

fn same_tokens(a: &Vec<String>, at: usize, b: &Vec<String>) -> (r: bool)
    requires
        at + b.len() <= a.len(),
    ensures
        r == (views(a@).subrange(at as int, at + b.len()) == views(b@)),
{
    let mut k: usize = 0;
    while k < b.len()
        invariant
            k <= b.len(),
            at + b.len() <= a.len(),
            forall|j: int| 0 <= j < k ==> views(a@)[at + j] == #[trigger] views(b@)[j],
        decreases b.len() - k,
    {
        if !same(a[at + k].as_str(), b[k].as_str()) {
            assert(views(a@).subrange(at as int, at + b.len())[k as int] != views(b@)[k as int]);
            return false;
        }
        assert(views(b@)[k as int] == b@[k as int]@);
        k = k + 1;
    }
    assert(views(a@).subrange(at as int, at + b.len()) =~= views(b@));
    true
}

// ---------------------------------------------------------------------------
// Snapping a reply to a label
// ---------------------------------------------------------------------------

/// A label that a reply names, and whether the whole reply is that name.
#[derive(Clone, Copy, Debug, PartialEq, Eq, Structural)]
pub struct LabelMatch {
    pub index: usize,
    pub exact: bool,
}

/// The reply is the label's name and nothing else.
pub open spec fn is_exact(reply: Seq<Seq<char>>, name: Seq<char>) -> bool {
    tokens_of(name).len() > 0 && reply == tokens_of(name)
}

/// The label's name stands in the reply, word for word.
pub open spec fn is_named(reply: Seq<Seq<char>>, name: Seq<char>) -> bool {
    let t = tokens_of(name);
    t.len() > 0 && exists|k: int|
        0 <= k && k + t.len() <= reply.len() && #[trigger] reply.subrange(k, k + t.len()) == t
}

/// The first label from `i` on that the reply is.
pub open spec fn exact_from(reply: Seq<Seq<char>>, labels: Seq<LabelView>, i: int) -> Option<int>
    decreases labels.len() - i,
{
    if i < 0 || i >= labels.len() {
        None
    } else if is_exact(reply, labels[i].name) {
        Some(i)
    } else {
        exact_from(reply, labels, i + 1)
    }
}

/// Label `i` is the only one that the reply names.
pub open spec fn only_named(reply: Seq<Seq<char>>, labels: Seq<LabelView>, i: int) -> bool {
    &&& 0 <= i < labels.len()
    &&& is_named(reply, labels[i].name)
    &&& forall|j: int|
        0 <= j < labels.len() && j != i ==> !is_named(reply, (#[trigger] labels[j]).name)
}

/// The label that a reply stands for: the one it is, else the only one that it
/// names; none where it names no label, or two.
pub open spec fn snapped(reply: Seq<char>, labels: Seq<LabelView>) -> Option<LabelMatch> {
    let t = tokens_of(reply);
    match exact_from(t, labels, 0) {
        Some(i) => Some(LabelMatch { index: i as usize, exact: true }),
        None => if exists|i: int| only_named(t, labels, i) {
            Some(
                LabelMatch {
                    index: (choose|i: int| only_named(t, labels, i)) as usize,
                    exact: false,
                },
            )
        } else {
            None
        },
    }
}

fn names(reply: &Vec<String>, lt: &Vec<String>, Ghost(name): Ghost<Seq<char>>) -> (r: bool)
    requires
        views(lt@) == tokens_of(name),
    ensures
        r == is_named(views(reply@), name),
{
    assert(views(lt@).len() == lt@.len());
    assert(views(reply@).len() == reply@.len());
    if lt.len() == 0 || lt.len() > reply.len() {
        return false;
    }
    let mut k: usize = 0;
    while k <= reply.len() - lt.len()
        invariant
            lt.len() <= reply.len(),
            lt.len() > 0,
            k <= reply.len() - lt.len() + 1,
            views(lt@) == tokens_of(name),
            views(lt@).len() == lt@.len(),
            views(reply@).len() == reply@.len(),
            forall|j: int|
                0 <= j < k ==> #[trigger] views(reply@).subrange(j, j + lt@.len()) != views(lt@),
        decreases reply.len() - lt.len() + 1 - k,
    {
        if same_tokens(reply, k, lt) {
            assert(views(reply@).subrange(k as int, k + tokens_of(name).len()) == tokens_of(name));
            return true;
        }
        k = k + 1;
    }
    false
}

/// Maps a model's noisy reply to one of the labels. Case, punctuation and the
/// text around the name make no difference; a name inside a longer word does not
/// count.
pub fn snap_to_label(reply: &str, labels: &Vec<Label>) -> (r: Option<LabelMatch>)
    ensures
        r == snapped(reply@, label_views(labels@)),
        r matches Some(m) ==> m.index < labels@.len(),
{
    let rt = tokens(reply);
    let ghost t = tokens_of(reply@);
    let ghost lv = label_views(labels@);
    let mut i: usize = 0;
    while i < labels.len()
        invariant
            i <= labels.len(),
            views(rt@) == t,
            lv == label_views(labels@),
            t == tokens_of(reply@),
            exact_from(t, lv, 0) == exact_from(t, lv, i as int),
        decreases labels.len() - i,
    {
        let lt = tokens(labels[i].name.as_str());
        assert(views(lt@).len() == lt@.len());
        assert(views(rt@).len() == rt@.len());
        assert(lv[i as int].name == labels@[i as int].name@);
        if lt.len() > 0 && lt.len() == rt.len() {
            assert(views(rt@).subrange(0, lt@.len() as int) =~= views(rt@));
            if same_tokens(&rt, 0, &lt) {
                return Some(LabelMatch { index: i, exact: true });
            }
        }
        i = i + 1;
    }
    let mut found: Option<usize> = None;
    let mut j: usize = 0;
    while j < labels.len()
        invariant
            j <= labels.len(),
            views(rt@) == t,
            lv == label_views(labels@),
            t == tokens_of(reply@),
            exact_from(t, lv, 0) is None,
            match found {
                Some(f) => {
                    &&& f < j
                    &&& is_named(t, lv[f as int].name)
                    &&& forall|k: int| 0 <= k < j && k != f ==> !is_named(t, (#[trigger] lv[k]).name)
                },
                None => forall|k: int| 0 <= k < j ==> !is_named(t, (#[trigger] lv[k]).name),
            },
        decreases labels.len() - j,
    {
        let lt = tokens(labels[j].name.as_str());
        assert(lv[j as int].name == labels@[j as int].name@);
        if names(&rt, &lt, Ghost(labels@[j as int].name@)) {
            match found {
                Some(f) => {
                    assert forall|k: int| !only_named(t, lv, k) by {
                        assert(is_named(t, lv[f as int].name));
                        assert(is_named(t, lv[j as int].name));
                    }
                    return None;
                },
                None => {
                    found = Some(j);
                },
            }
        }
        j = j + 1;
    }
    match found {
        Some(f) => {
            proof {
                assert(only_named(t, lv, f as int));
                let c = choose|k: int| only_named(t, lv, k);
                assert(only_named(t, lv, c));
                if c != f {
                    assert(!is_named(t, lv[f as int].name));
                }
            }
            Some(LabelMatch { index: f, exact: false })
        },
        None => {
            assert forall|k: int| !only_named(t, lv, k) by {
                if 0 <= k < lv.len() {
                    assert(!is_named(t, lv[k].name));
                }
            }
            None
        },
    }
}

// ---------------------------------------------------------------------------
// Prompts
// ---------------------------------------------------------------------------

/// A line of a prompt: the label's name, and its hint if it has one.
pub open spec fn label_line(l: LabelView) -> Seq<char> {
    if l.hint.len() > 0 {
        "- "@ + l.name + ": "@ + l.hint + "\n"@
    } else {
        "- "@ + l.name + "\n"@
    }
}

pub open spec fn label_lines(l: Seq<LabelView>) -> Seq<char>
    decreases l.len(),
{
    if l.len() == 0 {
        Seq::empty()
    } else {
        label_lines(l.drop_last()) + label_line(l.last())
    }
}

/// The prompt that asks for one of the labels and nothing else.
pub open spec fn classify_prompt(labels: Seq<LabelView>, query: Seq<char>) -> Seq<char> {
    "You are a fast text classifier. Classify the input below into exactly one of these categories:\n\n"@
        + label_lines(labels) + "\nInput:\n"@ + query
        + "\n\nReply with ONLY the category name, nothing else."@
}

/// The prompt that asks whether a passage helps to answer a query.
pub open spec fn relevance_prompt_text(
    labels: Seq<LabelView>,
    query: Seq<char>,
    passage: Seq<char>,
) -> Seq<char> {
    "You judge whether a passage helps answer a query. Classify the passage into exactly one of these categories:\n\n"@
        + label_lines(labels) + "\nQuery:\n"@ + query + "\n\nPassage:\n"@ + passage
        + "\n\nReply with ONLY the category name, nothing else."@
}

fn push_label_lines(p: &mut String, labels: &Vec<Label>)
    ensures
        final(p)@ == old(p)@ + label_lines(label_views(labels@)),
{
    let ghost lv = label_views(labels@);
    let mut i: usize = 0;
    assert(p@ =~= old(p)@ + label_lines(lv.subrange(0, 0)));
    while i < labels.len()
        invariant
            i <= labels.len(),
            lv == label_views(labels@),
            p@ == old(p)@ + label_lines(lv.subrange(0, i as int)),
        decreases labels.len() - i,
    {
        let ghost part = lv.subrange(0, i + 1);
        assert(part.drop_last() =~= lv.subrange(0, i as int));
        assert(part.last() == labels@[i as int]@);
        let l = &labels[i];
        p.append("- ");
        p.append(l.name.as_str());
        if !l.hint.as_str().is_empty() {
            p.append(": ");
            p.append(l.hint.as_str());
        }
        p.append("\n");
        assert(p@ =~= old(p)@ + label_lines(part));
        i = i + 1;
    }
    assert(lv.subrange(0, i as int) =~= lv);
}

// ---------------------------------------------------------------------------
// Router
// ---------------------------------------------------------------------------

/// What a classification came to. The confidence is coarse: all of it for an
/// exact reply, 60 percent for one that was snapped, none for a fallback.
#[derive(Debug, PartialEq, Eq)]
pub struct Classification {
    pub label: String,
    pub confidence_percent: u8,
    pub fallback_used: bool,
}

/// A classifier over a fixed set of labels.
pub struct ModelRouter {
    pub labels: Vec<Label>,
    pub max_tokens: u32,
}

impl ModelRouter {
    /// There is a label to choose.
    pub open spec fn wf(&self) -> bool {
        self.labels@.len() > 0
    }

    /// A router over some labels; none is refused.
    pub fn new(labels: Vec<Label>) -> (r: Result<Self, String>)
        ensures
            match r {
                Ok(m) => labels@.len() > 0 && m.wf() && m.labels@ == labels@ && m.max_tokens
                    == CLASSIFY_MAX_TOKENS,
                Err(e) => labels@.len() == 0 && e@
                    == "ModelRouter: at least one label is required"@,
            },
    {
        if labels.len() == 0 {
            return Err(copy("ModelRouter: at least one label is required"));
        }
        Ok(ModelRouter { labels, max_tokens: CLASSIFY_MAX_TOKENS })
    }

    /// The labels that the router chooses among.
    pub fn labels(&self) -> (r: &Vec<Label>)
        ensures
            r@ == self.labels@,
    {
        &self.labels
    }

    /// The prompt for a query.
    pub fn prompt(&self, query: &str) -> (r: String)
        ensures
            r@ == classify_prompt(label_views(self.labels@), query@),
    {
        let mut p = copy(
            "You are a fast text classifier. Classify the input below into exactly one of these categories:\n\n",
        );
        push_label_lines(&mut p, &self.labels);
        p.append("\nInput:\n");
        p.append(query);
        p.append("\n\nReply with ONLY the category name, nothing else.");
        p
    }

    /// What a reply comes to; an empty one stands for a call that failed. A reply
    /// that names no label falls back to the first.
    pub fn classify(&self, reply: &str) -> (r: Classification)
        requires
            self.wf(),
        ensures
            match snapped(reply@, label_views(self.labels@)) {
                Some(m) => {
                    &&& m.index < self.labels@.len()
                    &&& r.label@ == self.labels@[m.index as int].name@
                    &&& r.confidence_percent == (if m.exact {
                        100u8
                    } else {
                        60u8
                    })
                    &&& !r.fallback_used
                },
                None => {
                    &&& r.label@ == self.labels@[0].name@
                    &&& r.confidence_percent == 0
                    &&& r.fallback_used
                },
            },
    {
        match snap_to_label(reply, &self.labels) {
            Some(m) => Classification {
                label: self.labels[m.index].name.clone(),
                confidence_percent: if m.exact {
                    100
                } else {
                    60
                },
                fallback_used: false,
            },
            None => Classification {
                label: self.labels[0].name.clone(),
                confidence_percent: 0,
                fallback_used: true,
            },
        }
    }

    /// The difficulty of a query as a fraction: the position of the label that
    /// the reply comes to, over the position of the last. Nothing over one where
    /// there is only one label, or where the router fell back.
    pub fn difficulty(&self, reply: &str) -> (r: (usize, usize))
        requires
            self.wf(),
        ensures
            r.1 == (if self.labels@.len() <= 1 {
                1
            } else {
                self.labels@.len() - 1
            }),
            r.0 == (match snapped(reply@, label_views(self.labels@)) {
                Some(m) => if self.labels@.len() <= 1 {
                    0
                } else {
                    m.index
                },
                None => 0,
            }),
            r.0 <= r.1,
    {
        if self.labels.len() <= 1 {
            return (0, 1);
        }
        match snap_to_label(reply, &self.labels) {
            Some(m) => (m.index, self.labels.len() - 1),
            None => (0, self.labels.len() - 1),
        }
    }
}

// ---------------------------------------------------------------------------
// Retrieval
// ---------------------------------------------------------------------------

/// How relevant a passage is to a query, most useful first.
#[derive(Clone, Copy, Debug, PartialEq, Eq, Structural)]
pub enum Relevance {
    /// Directly answers or strongly pertains to the query.
    Relevant,
    /// On-topic but only partially useful.
    Related,
    /// Off-topic; dropped.
    Irrelevant,
}

pub open spec fn grade_of(r: Relevance) -> u8 {
    match r {
        Relevance::Relevant => 2,
        Relevance::Related => 1,
        Relevance::Irrelevant => 0,
    }
}

pub open spec fn relevance_labels() -> Seq<LabelView> {
    seq![
        label("relevant"@, "directly answers or strongly pertains to the query"@),
        label("related"@, "on-topic but only partially useful"@),
        label("irrelevant"@, "off-topic; does not help answer the query"@),
    ]
}

/// The relevance at a position of the labels.
pub open spec fn relevance_at(i: int) -> Relevance {
    if i == 0 {
        Relevance::Relevant
    } else if i == 1 {
        Relevance::Related
    } else {
        Relevance::Irrelevant
    }
}

impl Relevance {
    /// Higher is kept and ranked first; zero is dropped.
    pub fn grade(self) -> (r: u8)
        ensures
            r == grade_of(self),
    {
        match self {
            Relevance::Relevant => 2,
            Relevance::Related => 1,
            Relevance::Irrelevant => 0,
        }
    }

    /// The labels that a passage is classified into.
    pub fn labels() -> (r: Vec<Label>)
        ensures
            label_views(r@) == relevance_labels(),
    {
        let mut v: Vec<Label> = Vec::new();
        v.push(Label::new("relevant", "directly answers or strongly pertains to the query"));
        v.push(Label::new("related", "on-topic but only partially useful"));
        v.push(Label::new("irrelevant", "off-topic; does not help answer the query"));
        assert(label_views(v@) =~= relevance_labels());
        v
    }

    pub fn from_index(i: usize) -> (r: Relevance)
        ensures
            r == relevance_at(i as int),
    {
        if i == 0 {
            Relevance::Relevant
        } else if i == 1 {
            Relevance::Related
        } else {
            Relevance::Irrelevant
        }
    }
}

/// A passage that was retrieved. Its score is carried along as the bits of a 32-bit
/// float.
pub struct Hit {
    pub id: String,
    pub score: u32,
    pub text: String,
}

impl View for Hit {
    type V = (Seq<char>, u32, Seq<char>);

    open spec fn view(&self) -> (Seq<char>, u32, Seq<char>) {
        (self.id@, self.score, self.text@)
    }
}

pub open spec fn hit_views(v: Seq<Hit>) -> Seq<(Seq<char>, u32, Seq<char>)> {
    Seq::new(v.len(), |i: int| v[i]@)
}

/// The passages that stay, in their new order.
pub open spec fn kept_of(h: Seq<(Seq<char>, u32, Seq<char>)>, judged: Seq<Relevance>) -> Seq<
    (Seq<char>, u32, Seq<char>),
> {
    Seq::new(reranked(judged).len(), |i: int| h[reranked(judged)[i]])
}

/// Reranked passages and a summary of them.
pub struct GroundedAnswer {
    pub hits: Vec<Hit>,
    pub summary: String,
}

/// The positions up to `n` of the passages with a grade, in order.
pub open spec fn graded(v: Seq<Relevance>, grade: u8, n: int) -> Seq<int>
    decreases n,
{
    if n <= 0 {
        Seq::empty()
    } else if grade_of(v[n - 1]) == grade {
        graded(v, grade, n - 1).push(n - 1)
    } else {
        graded(v, grade, n - 1)
    }
}

/// The passages to keep: the relevant ones and then the related ones, each in the
/// order in which they came.
pub open spec fn reranked(v: Seq<Relevance>) -> Seq<int> {
    graded(v, 2, v.len() as int) + graded(v, 1, v.len() as int)
}

pub open spec fn positions(v: Seq<usize>) -> Seq<int> {
    Seq::new(v.len(), |i: int| v[i] as int)
}

fn push_graded(out: &mut Vec<usize>, v: &Vec<Relevance>, grade: u8)
    ensures
        positions(final(out)@) == positions(old(out)@) + graded(v@, grade, v@.len() as int),
{
    let mut i: usize = 0;
    assert(positions(out@) =~= positions(old(out)@) + graded(v@, grade, 0));
    while i < v.len()
        invariant
            i <= v.len(),
            positions(out@) == positions(old(out)@) + graded(v@, grade, i as int),
        decreases v.len() - i,
    {
        let ghost before = out@;
        if v[i].grade() == grade {
            out.push(i);
            assert(positions(out@) =~= positions(before).push(i as int));
            assert(positions(out@) =~= positions(old(out)@) + graded(v@, grade, i + 1));
        }
        i = i + 1;
    }
}

/// The texts of the passages, numbered from one.
pub open spec fn numbered(hits: Seq<Hit>) -> Seq<char>
    decreases hits.len(),
{
    if hits.len() == 0 {
        Seq::empty()
    } else {
        numbered(hits.drop_last()) + ("["@ + dec_text(hits.len()) + "] "@ + hits.last().text@
            + "\n"@)
    }
}

/// The prompt that asks for an answer grounded in the passages alone.
pub open spec fn summary_prompt_text(query: Seq<char>, hits: Seq<Hit>) -> Seq<char> {
    "Using ONLY the passages below, write a concise answer to the query. Do not add facts that are not in the passages; if they do not contain the answer, say so briefly.\n\nQuery:\n"@
        + query + "\n\nPassages:\n"@ + numbered(hits) + "\nAnswer:"@
}

/// A passage cut to a number of bytes, at the end of a character.
pub open spec fn snippet(text: Seq<char>, cap: int) -> Seq<char> {
    if encode_utf8(text).len() <= cap {
        text
    } else {
        text.subrange(0, prefix_within(text, cap)) + "…"@
    }
}

/// A small model that reranks and summarises what was retrieved.
pub struct RagWorker {
    pub labels: Vec<Label>,
    pub summary_max_tokens: u32,
}

impl RagWorker {
    pub fn new() -> (r: Self)
        ensures
            label_views(r.labels@) == relevance_labels(),
            r.summary_max_tokens == SUMMARY_MAX_TOKENS,
    {
        RagWorker { labels: Relevance::labels(), summary_max_tokens: SUMMARY_MAX_TOKENS }
    }

    /// The worker with another length of its summaries.
    pub fn with_summary_max_tokens(self, n: u32) -> (r: Self)
        ensures
            r.labels@ == self.labels@,
            r.summary_max_tokens == n,
    {
        RagWorker { labels: self.labels, summary_max_tokens: n }
    }

    /// The prompt for one passage.
    pub fn relevance_prompt(&self, query: &str, passage: &str) -> (r: String)
        ensures
            r@ == relevance_prompt_text(label_views(self.labels@), query@, passage@),
    {
        let mut p = copy(
            "You judge whether a passage helps answer a query. Classify the passage into exactly one of these categories:\n\n",
        );
        push_label_lines(&mut p, &self.labels);
        p.append("\nQuery:\n");
        p.append(query);
        p.append("\n\nPassage:\n");
        p.append(passage);
        p.append("\n\nReply with ONLY the category name, nothing else.");
        p
    }

    /// The relevance that a reply comes to. A reply that names no label keeps the
    /// passage: a fumbled judgement never drops one.
    pub fn judge(&self, reply: &str) -> (r: Relevance)
        ensures
            r == (match snapped(reply@, label_views(self.labels@)) {
                Some(m) => relevance_at(m.index as int),
                None => Relevance::Related,
            }),
    {
        match snap_to_label(reply, &self.labels) {
            Some(m) => Relevance::from_index(m.index),
            None => Relevance::Related,
        }
    }

    /// The passages to keep, by their positions, given the judgement of each.
    pub fn rerank(&self, judged: &Vec<Relevance>) -> (r: Vec<usize>)
        ensures
            positions(r@) == reranked(judged@),
    {
        let mut out: Vec<usize> = Vec::new();
        push_graded(&mut out, judged, 2);
        assert(positions(out@) =~= graded(judged@, 2, judged@.len() as int));
        push_graded(&mut out, judged, 1);
        out
    }

    /// The prompt for a summary.
    pub fn summary_prompt(&self, query: &str, hits: &Vec<Hit>) -> (r: String)
        ensures
            r@ == summary_prompt_text(query@, hits@),
    {
        let mut p = copy(
            "Using ONLY the passages below, write a concise answer to the query. Do not add facts that are not in the passages; if they do not contain the answer, say so briefly.\n\nQuery:\n",
        );
        p.append(query);
        p.append("\n\nPassages:\n");
        let ghost head = p@;
        let mut i: usize = 0;
        assert(p@ =~= head + numbered(hits@.subrange(0, 0)));
        while i < hits.len()
            invariant
                i <= hits.len(),
                p@ == head + numbered(hits@.subrange(0, i as int)),
            decreases hits.len() - i,
        {
            let ghost part = hits@.subrange(0, i + 1);
            assert(part.drop_last() =~= hits@.subrange(0, i as int));
            p.append("[");
            p.append(dec(i as u64 + 1).as_str());
            p.append("] ");
            p.append(hits[i].text.as_str());
            p.append("\n");
            assert(p@ =~= head + numbered(part));
            i = i + 1;
        }
        assert(hits@.subrange(0, i as int) =~= hits@);
        p.append("\nAnswer:");
        p
    }

    /// The summary that a reply comes to: the reply; the best passage, cut short,
    /// where the reply is blank; nothing where there are no passages.
    pub fn summarize(&self, hits: &Vec<Hit>, reply: &str) -> (r: String)
        ensures
            r@ == (if hits@.len() == 0 {
                Seq::empty()
            } else if trim(reply@).len() == 0 {
                snippet(hits@[0].text@, SNIPPET_CAP as int)
            } else {
                reply@
            }),
    {
        if hits.len() == 0 {
            return String::new();
        }
        if trim_str(reply).as_str().is_empty() {
            fallback_snippet(hits)
        } else {
            copy(reply)
        }
    }

    /// The passages that stay, in their new order: what the summary is asked of.
    pub fn kept_hits(&self, hits: &Vec<Hit>, judged: &Vec<Relevance>) -> (r: Vec<Hit>)
        requires
            hits@.len() == judged@.len(),
        ensures
            hit_views(r@) == kept_of(hit_views(hits@), judged@),
    {
        let order = self.rerank(judged);
        proof {
            reranked_within(judged@);
            assert forall|k: int| 0 <= k < order@.len() implies (#[trigger] order@[k])
                < hits@.len() by {
                assert(positions(order@)[k] == order@[k]);
            }
        }
        let mut out: Vec<Hit> = Vec::new();
        let mut i: usize = 0;
        while i < order.len()
            invariant
                i <= order.len(),
                out@.len() == i,
                hits@.len() == judged@.len(),
                positions(order@) == reranked(judged@),
                forall|k: int| 0 <= k < order@.len() ==> (#[trigger] order@[k]) < hits@.len(),
                forall|k: int| 0 <= k < i ==> (#[trigger] out@[k])@ == hits@[order@[k] as int]@,
            decreases order.len() - i,
        {
            let h = &hits[order[i]];
            out.push(Hit { id: h.id.clone(), score: h.score, text: h.text.clone() });
            i = i + 1;
        }
        assert(hit_views(out@) =~= kept_of(hit_views(hits@), judged@)) by {
            assert forall|k: int| 0 <= k < out@.len() implies #[trigger] hit_views(out@)[k]
                == kept_of(hit_views(hits@), judged@)[k] by {
                assert(out@[k]@ == hits@[order@[k] as int]@);
                assert(positions(order@)[k] == order@[k]);
            }
        }
        out
    }

    /// Reranks and sums up: the passages that stay, and the summary that the reply
    /// about them comes to.
    pub fn rerank_and_summarize(&self, hits: &Vec<Hit>, judged: &Vec<Relevance>, reply: &str) -> (r:
        GroundedAnswer)
        requires
            hits@.len() == judged@.len(),
        ensures
            hit_views(r.hits@) == kept_of(hit_views(hits@), judged@),
            r.summary@ == ({
                let kept = kept_of(hit_views(hits@), judged@);
                if kept.len() == 0 {
                    Seq::empty()
                } else if trim(reply@).len() == 0 {
                    snippet(kept[0].2, SNIPPET_CAP as int)
                } else {
                    reply@
                }
            }),
    {
        let kept = self.kept_hits(hits, judged);
        assert(kept@.len() == hit_views(kept@).len());
        assert(kept@.len() > 0 ==> kept@[0]@ == hit_views(kept@)[0]);
        let summary = self.summarize(&kept, reply);
        GroundedAnswer { hits: kept, summary }
    }
}

fn fallback_snippet(hits: &Vec<Hit>) -> (r: String)
    requires
        hits@.len() > 0,
    ensures
        r@ == snippet(hits@[0].text@, SNIPPET_CAP as int),
{
    let text = hits[0].text.as_str();
    if text.as_bytes().len() <= SNIPPET_CAP {
        return copy(text);
    }
    let v = chars_of(text);
    let n = chars_within(&v, SNIPPET_CAP);
    let mut out = substr(&v, 0, n);
    out.append("…");
    out
}

// ---------------------------------------------------------------------------
// Laws
// ---------------------------------------------------------------------------

proof fn reranked_within(v: Seq<Relevance>)
    ensures
        forall|i: int|
            0 <= i < reranked(v).len() ==> 0 <= (#[trigger] reranked(v)[i]) < v.len(),
{
    graded_holds(v, 2, v.len() as int);
    graded_holds(v, 1, v.len() as int);
    let x = graded(v, 2, v.len() as int);
    let y = graded(v, 1, v.len() as int);
    assert forall|i: int| 0 <= i < reranked(v).len() implies 0 <= (#[trigger] reranked(v)[i])
        < v.len() by {
        if i < x.len() {
            assert(reranked(v)[i] == x[i]);
        } else {
            assert(reranked(v)[i] == y[i - x.len()]);
        }
    }
}

/// A reply that names two labels, and is neither of them, stands for none.
pub proof fn an_ambiguous_reply_is_no_label(
    reply: Seq<char>,
    labels: Seq<LabelView>,
    i: int,
    j: int,
)
    requires
        0 <= i < j < labels.len(),
        is_named(tokens_of(reply), labels[i].name),
        is_named(tokens_of(reply), labels[j].name),
        exact_from(tokens_of(reply), labels, 0) is None,
    ensures
        snapped(reply, labels) is None,
{
    let t = tokens_of(reply);
    assert forall|k: int| !only_named(t, labels, k) by {
        assert(is_named(t, labels[i].name));
        assert(is_named(t, labels[j].name));
    }
}

/// The label that a reply stands for is named in it.
pub proof fn a_snapped_label_is_named(reply: Seq<char>, labels: Seq<LabelView>)
    requires
        snapped(reply, labels) is Some,
        labels.len() <= usize::MAX,
    ensures
        snapped(reply, labels)->0.index < labels.len(),
        is_named(
            tokens_of(reply),
            labels[snapped(reply, labels)->0.index as int].name,
        ),
{
    let t = tokens_of(reply);
    exact_from_is_first(t, labels, 0);
    match exact_from(t, labels, 0) {
        Some(i) => {
            let n = tokens_of(labels[i].name);
            assert(t.subrange(0, 0int + n.len()) =~= n);
        },
        None => {
            let i = choose|i: int| only_named(t, labels, i);
            assert(only_named(t, labels, i));
        },
    }
}

/// No token is empty, and each is made of letters and digits: a name inside a
/// longer word is never a token of its own.
pub proof fn tokens_are_words(s: Seq<char>)
    ensures
        forall|i: int| 0 <= i < runs(s).len() ==> (#[trigger] runs(s)[i]).len() > 0,
        forall|i: int, k: int|
            0 <= i < runs(s).len() && 0 <= k < runs(s)[i].len() ==> alphanumeric(
                #[trigger] runs(s)[i][k],
            ),
{
    token_state_is_words(s);
}

proof fn token_state_is_words(s: Seq<char>)
    ensures
        forall|i: int|
            0 <= i < token_state(s).0.len() ==> (#[trigger] token_state(s).0[i]).len() > 0,
        forall|i: int, k: int|
            0 <= i < token_state(s).0.len() && 0 <= k < token_state(s).0[i].len()
                ==> alphanumeric(#[trigger] token_state(s).0[i][k]),
        forall|k: int|
            0 <= k < token_state(s).1.len() ==> alphanumeric(#[trigger] token_state(s).1[k]),
    decreases s.len(),
{
    if s.len() > 0 {
        token_state_is_words(s.drop_last());
        let p = token_state(s.drop_last());
        let t = token_state(s);
        assert forall|i: int| 0 <= i < t.0.len() implies (#[trigger] t.0[i]).len() > 0 by {
            if i < p.0.len() {
                assert(t.0[i] == p.0[i]);
            }
        }
        assert forall|i: int, k: int|
            0 <= i < t.0.len() && 0 <= k < t.0[i].len() implies alphanumeric(
            #[trigger] t.0[i][k],
        ) by {
            if i < p.0.len() {
                assert(t.0[i][k] == p.0[i][k]);
            } else {
                assert(t.0[i][k] == p.1[k]);
            }
        }
    }
}

/// Reranking keeps exactly the passages that are not off-topic, the relevant ones
/// before the related ones, and those of one grade in their order.
pub proof fn reranking_refines_the_order(v: Seq<Relevance>, a: int, b: int)
    requires
        0 <= a < b < reranked(v).len(),
    ensures
        0 <= reranked(v)[a] < v.len(),
        0 <= reranked(v)[b] < v.len(),
        grade_of(v[reranked(v)[a]]) >= grade_of(v[reranked(v)[b]]) > 0,
        grade_of(v[reranked(v)[a]]) == grade_of(v[reranked(v)[b]]) ==> reranked(v)[a] < reranked(
            v,
        )[b],
{
    graded_holds(v, 2, v.len() as int);
    graded_holds(v, 1, v.len() as int);
    let x = graded(v, 2, v.len() as int);
    let y = graded(v, 1, v.len() as int);
    if a < x.len() {
        assert(reranked(v)[a] == x[a]);
    } else {
        assert(reranked(v)[a] == y[a - x.len()]);
    }
    if b < x.len() {
        assert(reranked(v)[b] == x[b]);
    } else {
        assert(reranked(v)[b] == y[b - x.len()]);
    }
}

proof fn graded_holds(v: Seq<Relevance>, grade: u8, n: int)
    requires
        0 <= n <= v.len(),
    ensures
        forall|i: int|
            0 <= i < graded(v, grade, n).len() ==> 0 <= #[trigger] graded(v, grade, n)[i] < n
                && grade_of(v[graded(v, grade, n)[i]]) == grade,
        forall|i: int, j: int|
            0 <= i < j < graded(v, grade, n).len() ==> #[trigger] graded(v, grade, n)[i]
                < #[trigger] graded(v, grade, n)[j],
        forall|k: int|
            0 <= k < n && grade_of(#[trigger] v[k]) == grade ==> graded(v, grade, n).contains(k),
    decreases n,
{
    if n > 0 {
        graded_holds(v, grade, n - 1);
        let s = graded(v, grade, n - 1);
        let t = graded(v, grade, n);
        assert forall|k: int| 0 <= k < n && grade_of(#[trigger] v[k]) == grade implies t.contains(
            k,
        ) by {
            if k < n - 1 {
                let m = choose|m: int| 0 <= m < s.len() && s[m] == k;
                assert(t[m] == k);
            } else {
                assert(t[s.len() as int] == k);
            }
        }
    }
}

/// No passage that is relevant or related is lost.
pub proof fn reranking_loses_nothing_useful(v: Seq<Relevance>, k: int)
    requires
        0 <= k < v.len(),
        grade_of(v[k]) > 0,
    ensures
        reranked(v).contains(k),
{
    graded_holds(v, 2, v.len() as int);
    graded_holds(v, 1, v.len() as int);
    let x = graded(v, 2, v.len() as int);
    let y = graded(v, 1, v.len() as int);
    if grade_of(v[k]) == 2 {
        let m = choose|m: int| 0 <= m < x.len() && x[m] == k;
        assert(reranked(v)[m] == k);
    } else {
        let m = choose|m: int| 0 <= m < y.len() && y[m] == k;
        assert(reranked(v)[x.len() + m] == k);
    }
}

/// A word by itself is one run; what is no letter or digit parts the runs before it
/// from those behind it.
pub proof fn words_are_parted(a: Seq<char>, c: char, b: Seq<char>)
    requires
        !alphanumeric(c),
    ensures
        runs(a + seq![c] + b) == runs(a) + runs(b),
        a.len() > 0 && (forall|i: int| 0 <= i < a.len() ==> alphanumeric(#[trigger] a[i])) ==> runs(
            a,
        ) == seq![a],
    decreases b.len(),
{
    if a.len() > 0 && (forall|i: int| 0 <= i < a.len() ==> alphanumeric(#[trigger] a[i])) {
        a_word_is_whole(a);
    }
    runs_go_on(a, c, b);
    let (x, y) = token_state(b);
    let s = a + seq![c] + b;
    if y.len() > 0 {
        assert((runs(a) + x).push(y) =~= runs(a) + x.push(y));
    }
}

proof fn a_word_is_whole(a: Seq<char>)
    requires
        forall|i: int| 0 <= i < a.len() ==> alphanumeric(#[trigger] a[i]),
    ensures
        token_state(a) == (Seq::<Seq<char>>::empty(), a),
    decreases a.len(),
{
    if a.len() > 0 {
        let r = a.drop_last();
        assert forall|i: int| 0 <= i < r.len() implies alphanumeric(#[trigger] r[i]) by {
            assert(r[i] == a[i]);
        }
        a_word_is_whole(r);
        assert(a.last() == a[a.len() - 1]);
        assert(r.push(a.last()) =~= a);
    } else {
        assert(a =~= Seq::empty());
    }
}

proof fn runs_go_on(a: Seq<char>, c: char, b: Seq<char>)
    requires
        !alphanumeric(c),
    ensures
        token_state(a + seq![c] + b) == (runs(a) + token_state(b).0, token_state(b).1),
    decreases b.len(),
{
    let s = a + seq![c] + b;
    if b.len() == 0 {
        assert(s.drop_last() =~= a);
        assert(s.last() == c);
        assert(runs(a) + Seq::<Seq<char>>::empty() =~= runs(a));
    } else {
        runs_go_on(a, c, b.drop_last());
        assert(s.drop_last() =~= a + seq![c] + b.drop_last());
        assert(s.last() == b.last());
        let (x, y) = token_state(b.drop_last());
        assert((runs(a) + x).push(y) =~= runs(a) + x.push(y));
    }
}

/// A name stands in a reply where its words do, one behind the other, and only
/// there; a name without words stands nowhere.
pub proof fn a_name_is_its_words(before: Seq<Seq<char>>, name: Seq<char>, behind: Seq<Seq<char>>)
    ensures
        tokens_of(name).len() > 0 ==> is_named(before + tokens_of(name) + behind, name),
        tokens_of(name).len() == 0 ==> !is_named(before, name),
        tokens_of(name).len() > before.len() ==> !is_named(before, name),
{
    let t = tokens_of(name);
    let all = before + t + behind;
    let k = before.len() as int;
    assert(all.subrange(k, k + t.len()) =~= t);
}

proof fn exact_from_is_first(reply: Seq<Seq<char>>, labels: Seq<LabelView>, i: int)
    requires
        0 <= i,
    ensures
        match exact_from(reply, labels, i) {
            Some(k) => i <= k < labels.len() && is_exact(reply, labels[k].name) && forall|j: int|
                i <= j < k ==> !is_exact(reply, (#[trigger] labels[j]).name),
            None => forall|j: int|
                i <= j < labels.len() ==> !is_exact(reply, (#[trigger] labels[j]).name),
        },
    decreases labels.len() - i,
{
    if i < labels.len() && !is_exact(reply, labels[i].name) {
        exact_from_is_first(reply, labels, i + 1);
    }
}

/// A reply that is a label's name, and no earlier label's, is that label exactly; one
/// that names a single label among other words is that label, not exactly; one that
/// names none is no label.
pub proof fn a_reply_is_the_label_it_names(reply: Seq<char>, labels: Seq<LabelView>, i: int)
    requires
        0 <= i < labels.len() <= usize::MAX,
    ensures
        tokens_of(reply) == tokens_of(labels[i].name) && tokens_of(reply).len() > 0 && (forall|j: int|
            0 <= j < i ==> tokens_of((#[trigger] labels[j]).name) != tokens_of(reply)) ==> snapped(
            reply,
            labels,
        ) == Some((LabelMatch { index: i as usize, exact: true })),
        (forall|j: int|
            0 <= j < labels.len() ==> tokens_of((#[trigger] labels[j]).name) != tokens_of(reply))
            && is_named(tokens_of(reply), labels[i].name) && (forall|j: int|
            0 <= j < labels.len() && j != i ==> !is_named(
                tokens_of(reply),
                (#[trigger] labels[j]).name,
            )) ==> snapped(reply, labels) == Some(
            (LabelMatch { index: i as usize, exact: false }),
        ),
        (forall|j: int|
            0 <= j < labels.len() ==> !is_named(tokens_of(reply), (#[trigger] labels[j]).name))
            ==> snapped(reply, labels) is None,
{
    let t = tokens_of(reply);
    exact_from_is_first(t, labels, 0);
    if forall|j: int| 0 <= j < labels.len() ==> !is_named(t, (#[trigger] labels[j]).name) {
        if let Some(k) = exact_from(t, labels, 0) {
            let n = tokens_of(labels[k].name);
            assert(t.subrange(0, 0int + n.len()) =~= n);
            assert(is_named(t, labels[k].name));
        }
    }
    if (forall|j: int| 0 <= j < labels.len() ==> tokens_of((#[trigger] labels[j]).name) != t)
        && is_named(t, labels[i].name) && (forall|j: int|
        0 <= j < labels.len() && j != i ==> !is_named(t, (#[trigger] labels[j]).name)) {
        assert(only_named(t, labels, i));
        let k = choose|k: int| only_named(t, labels, k);
        assert(only_named(t, labels, k));
        assert(k == i);
    }
}

/// What answers a query goes before what is on its topic, and what is off it is
/// dropped; the labels stand for these in that order.
pub proof fn relevance_is_graded()
    ensures
        grade_of(Relevance::Relevant) > grade_of(Relevance::Related),
        grade_of(Relevance::Related) > grade_of(Relevance::Irrelevant),
        grade_of(Relevance::Irrelevant) == 0,
        relevance_labels().len() == 3,
        relevance_labels()[0].name == "relevant"@ && relevance_at(0) is Relevant,
        relevance_labels()[1].name == "related"@ && relevance_at(1) is Related,
        relevance_labels()[2].name == "irrelevant"@ && relevance_at(2) is Irrelevant,
{
}

/// The labels are listed in their order, each on a line of its own with its hint,
/// where it has one.
pub proof fn labels_are_listed(a: Seq<LabelView>, b: Seq<LabelView>, l: LabelView)
    ensures
        label_lines(a + b) == label_lines(a) + label_lines(b),
        l.hint.len() > 0 ==> label_lines(seq![l]) == "- "@ + l.name + ": "@ + l.hint + "\n"@,
        l.hint.len() == 0 ==> label_lines(seq![l]) == "- "@ + l.name + "\n"@,
    decreases b.len(),
{
    let none = Seq::<LabelView>::empty();
    assert(seq![l].drop_last() =~= none);
    assert(seq![l].last() == l);
    assert(label_lines(none) =~= Seq::empty());
    assert(label_lines(seq![l]) =~= label_line(l));
    if l.hint.len() > 0 {
        assert(label_line(l) =~= "- "@ + l.name + ": "@ + l.hint + "\n"@);
    } else {
        assert(label_line(l) =~= "- "@ + l.name + "\n"@);
    }
    if b.len() == 0 {
        assert(a + b =~= a);
        assert(label_lines(a) + label_lines(b) =~= label_lines(a));
    } else {
        labels_are_listed(a, b.drop_last(), l);
        assert((a + b).drop_last() =~= a + b.drop_last());
        assert((a + b).last() == b.last());
        assert(label_lines(a + b) =~= label_lines(a) + label_lines(b));
    }
}

/// The passages are numbered from one, in their order, each with its text.
pub proof fn passages_are_numbered(hits: Seq<Hit>, h: Hit)
    ensures
        numbered(hits.push(h)) == numbered(hits) + ("["@ + dec_text((hits.len() + 1) as nat) + "] "@
            + h.text@ + "\n"@),
        numbered(Seq::<Hit>::empty()).len() == 0,
{
    assert(hits.push(h).drop_last() =~= hits);
}

/// A passage within the cap is whole; a longer one is cut to the most characters
/// that the cap holds, and the cut is marked.
pub proof fn a_snippet_fits(text: Seq<char>, cap: int, n: int)
    requires
        0 <= cap,
        0 <= n < text.len(),
        encode_utf8(text).len() > cap,
        n == 0 || encode_utf8(text.subrange(0, n)).len() <= cap,
        encode_utf8(text.subrange(0, n + 1)).len() > cap,
    ensures
        snippet(text, cap) == text.subrange(0, n) + "…"@,
        forall|t: Seq<char>|
            encode_utf8(t).len() <= cap ==> #[trigger] snippet(t, cap) == t,
{
    crate::text::prefix_within_is(text, cap, n);
}

/// A prompt lists the labels before the query, and the query as it is.
pub proof fn prompts_hold_what_is_asked(
    labels: Seq<LabelView>,
    query: Seq<char>,
    passage: Seq<char>,
    hits: Seq<Hit>,
) -> (at: (int, int, int))
    ensures
        occurs_at(classify_prompt(labels, query), label_lines(labels) + "\nInput:\n"@ + query, at.0),
        occurs_at(
            relevance_prompt_text(labels, query, passage),
            label_lines(labels) + "\nQuery:\n"@ + query + "\n\nPassage:\n"@ + passage,
            at.1,
        ),
        occurs_at(summary_prompt_text(query, hits), "Query:\n"@ + query + "\n\nPassages:\n"@
            + numbered(hits), at.2),
{
    let c = "You are a fast text classifier. Classify the input below into exactly one of these categories:\n\n"@;
    let r = "You judge whether a passage helps answer a query. Classify the passage into exactly one of these categories:\n\n"@;
    let a = label_lines(labels) + "\nInput:\n"@ + query;
    let b = label_lines(labels) + "\nQuery:\n"@ + query + "\n\nPassage:\n"@ + passage;
    let p = classify_prompt(labels, query);
    let q = relevance_prompt_text(labels, query, passage);
    assert(p.subrange(c.len() as int, (c.len() + a.len()) as int) =~= a);
    assert(q.subrange(r.len() as int, (r.len() + b.len()) as int) =~= b);
    let s = summary_prompt_text(query, hits);
    let head = "Using ONLY the passages below, write a concise answer to the query. Do not add facts that are not in the passages; if they do not contain the answer, say so briefly.\n\nQuery:\n"@;
    let d = "Query:\n"@ + query + "\n\nPassages:\n"@ + numbered(hits);
    reveal_strlit("Query:\n");
    reveal_strlit(
        "Using ONLY the passages below, write a concise answer to the query. Do not add facts that are not in the passages; if they do not contain the answer, say so briefly.\n\nQuery:\n",
    );
    let k = head.len() - 7;
    assert(head.subrange(k, head.len() as int) =~= "Query:\n"@);
    assert(s.subrange(k, k + d.len()) =~= d) by {
        assert forall|i: int| 0 <= i < d.len() implies s[k + i] == d[i] by {
            if i < 7 {
                assert(head.subrange(k, head.len() as int)[i] == d[i]);
            }
        }
    }
    (c.len() as int, r.len() as int, k)
}

/// A passage that stays is one of those that were judged, in its new place.
pub proof fn kept_passages_are_passages(
    h: Seq<(Seq<char>, u32, Seq<char>)>,
    judged: Seq<Relevance>,
    i: int,
)
    requires
        h.len() == judged.len(),
        0 <= i < reranked(judged).len(),
    ensures
        kept_of(h, judged).len() == reranked(judged).len(),
        kept_of(h, judged)[i] == h[reranked(judged)[i]],
{
}

} // verus!
