//! The browser's way into a meeting room: who may come in, what the pages are
//! answered, and the model that may be started to take part.

use crate::json::{
    an_entry_is_a_member, entries_map, json_str, json_u64, member, number_of, pairs, pairs_index, trees,
    trees_index, Json,
    JsonTree,
};
use crate::meeting::tui_client::{
    cursor_view, str_entry, text_of, turns, JoinSpec, JoinView, StoredTurn, Turn,
};
use crate::text::{
    char_from, char_position, chars_of, copy, dec, dec_text, from, has_prefix, same, starts_with,
    string_of, substr, trim, trim_str, views,
};
use base64::Engine;
use vstd::prelude::*;
use vstd::utf8::{decode_utf8, valid_utf8};

verus! {

/// Where a model is served when nothing else is said.
pub const DEFAULT_GATEWAY_URL: &'static str = "http://127.0.0.1:8080/v1";

/// What a request without the secret is challenged with.
pub const CHALLENGE: &'static str = "Basic realm=\"rozum meeting\"";

/// An answer to a request: the status and the text.
pub struct Reply {
    pub status: u16,
    pub body: String,
}

impl Reply {
    pub open spec fn is(&self, status: int, body: Seq<char>) -> bool {
        self.status == status && self.body@ == body
    }
}

// ---------------------------------------------------------------------------
// Who may come in
// ---------------------------------------------------------------------------

/// What base64 text in the standard alphabet, with padding, stands for; nothing
/// where it is malformed.
pub uninterp spec fn base64_decoded(text: Seq<char>) -> Option<Seq<u8>>;

/// `base64::engine::general_purpose::STANDARD.decode`, under the name
/// `base64_decoded`. Which texts are malformed, and what the others stand for, is
/// left unsaid.
#[verifier::external_body]
fn base64_bytes(text: &str) -> (r: Option<Vec<u8>>)
    ensures
        match r {
            Some(b) => base64_decoded(text@) == Some(b@),
            None => base64_decoded(text@) is None,
        },
{
    base64::engine::general_purpose::STANDARD.decode(text).ok()
}

/// `String::from_utf8`: succeeds exactly on bytes that are UTF-8, with the text
/// they encode.
#[verifier::external_body]
fn utf8_text(bytes: Vec<u8>) -> (r: Option<String>)
    ensures
        r is Some <==> valid_utf8(bytes@),
        r matches Some(s) ==> s@ == decode_utf8(bytes@),
{
    String::from_utf8(bytes).ok()
}

/// The text after the first colon; empty where there is none.
pub open spec fn after_colon(s: Seq<char>) -> Seq<char> {
    match char_from(s, ':', 0) {
        Some(i) => from(s, i + 1),
        None => Seq::empty(),
    }
}

/// The password in a pair of name and password; empty where the bytes are no such
/// pair.
pub open spec fn password_of(pair: Seq<u8>) -> Seq<char> {
    if valid_utf8(pair) {
        after_colon(decode_utf8(pair))
    } else {
        Seq::empty()
    }
}

/// What follows the scheme of an authorization header.
pub open spec fn basic_credentials(header: Seq<char>) -> Option<Seq<char>> {
    if starts_with(header, "Basic "@) || starts_with(header, "basic "@) {
        Some(trim(from(header, 6)))
    } else {
        None
    }
}

/// The header carries the secret as the password, under any name.
pub open spec fn carries_secret(header: Option<Seq<char>>, secret: Seq<char>) -> bool {
    match header {
        Some(h) => match basic_credentials(h) {
            Some(b64) => match base64_decoded(b64) {
                Some(pair) => password_of(pair) == secret,
                None => false,
            },
            None => false,
        },
        None => false,
    }
}

/// The password in a decoded pair of name and password.
pub fn password(pair: Vec<u8>) -> (r: String)
    ensures
        r@ == password_of(pair@),
{
    match utf8_text(pair) {
        Some(s) => {
            let v = chars_of(s.as_str());
            match char_position(&v, ':', 0) {
                Some(i) => substr(&v, i + 1, v.len()),
                None => String::new(),
            }
        },
        None => String::new(),
    }
}

/// The encoded pair in an authorization header of the basic scheme.
pub fn credentials(header: &str) -> (r: Option<String>)
    ensures
        match r {
            Some(s) => basic_credentials(header@) == Some(s@),
            None => basic_credentials(header@) is None,
        },
{
    proof {
        reveal_strlit("Basic ");
        reveal_strlit("basic ");
    }
    if has_prefix(header, "Basic ") || has_prefix(header, "basic ") {
        let v = chars_of(header);
        Some(trim_str(substr(&v, 6, v.len()).as_str()))
    } else {
        None
    }
}

/// Whether a request may come in: its password must be the shared secret.
pub fn authorized(header: Option<&str>, secret: &str) -> (r: bool)
    ensures
        r == carries_secret(
            match header {
                Some(h) => Some(h@),
                None => None,
            },
            secret@,
        ),
{
    let h = match header {
        Some(h) => h,
        None => {
            return false;
        },
    };
    let b64 = match credentials(h) {
        Some(s) => s,
        None => {
            return false;
        },
    };
    match base64_bytes(b64.as_str()) {
        Some(pair) => same(password(pair).as_str(), secret),
        None => false,
    }
}

/// What a request without the secret is answered.
pub fn unauthorized() -> (r: Reply)
    ensures
        r.is(401, "401 Unauthorized\n"@),
{
    Reply { status: 401, body: copy("401 Unauthorized\n") }
}

// ---------------------------------------------------------------------------
// Messages
// ---------------------------------------------------------------------------

pub open spec fn turn_tree(t: Turn) -> JsonTree {
    JsonTree::Object(
        entries_map(
            seq![
                str_entry("from"@, t.display_name),
                str_entry("content"@, t.content),
                str_entry("date"@, t.date),
                ("n"@, JsonTree::Number(number_of(t.n))),
                ("ts"@, JsonTree::Number(number_of(t.ts))),
            ],
        ),
    )
}

/// A message as the page reads it.
pub fn turn_json(t: &StoredTurn) -> (r: Json)
    ensures
        r@ == turn_tree(t@),
{
    let mut v: Vec<(String, Json)> = Vec::new();
    v.push((copy("from"), json_str(t.display_name.as_str())));
    v.push((copy("content"), json_str(t.content.as_str())));
    v.push((copy("date"), json_str(t.date.as_str())));
    v.push((copy("n"), json_u64(t.n)));
    v.push((copy("ts"), json_u64(t.ts)));
    proof {
        pairs_index(v@);
        assert(pairs(v@) =~= seq![
            str_entry("from"@, t@.display_name),
            str_entry("content"@, t@.content),
            str_entry("date"@, t@.date),
            ("n"@, JsonTree::Number(number_of(t.n))),
            ("ts"@, JsonTree::Number(number_of(t.ts))),
        ]);
    }
    Json::Object(v)
}

pub open spec fn messages_tree(room: Seq<char>, t: Seq<Turn>) -> JsonTree {
    JsonTree::Object(
        entries_map(
            seq![
                str_entry("room"@, room),
                ("messages"@, JsonTree::Array(Seq::new(t.len(), |i: int| turn_tree(t[i])))),
            ],
        ),
    )
}

/// The history of a room as the page reads it.
pub fn messages_json(room: &str, list: &Vec<StoredTurn>) -> (r: Json)
    ensures
        r@ == messages_tree(room@, turns(list@)),
{
    let mut items: Vec<Json> = Vec::new();
    let mut i: usize = 0;
    while i < list.len()
        invariant
            i <= list.len(),
            items@.len() == i,
            forall|k: int| 0 <= k < i ==> (#[trigger] items@[k])@ == turn_tree(list@[k]@),
        decreases list.len() - i,
    {
        items.push(turn_json(&list[i]));
        i = i + 1;
    }
    let ghost all = turns(list@);
    proof {
        trees_index(items@);
        assert(trees(items@) =~= Seq::new(all.len(), |k: int| turn_tree(all[k])));
    }
    let mut v: Vec<(String, Json)> = Vec::new();
    v.push((copy("room"), json_str(room)));
    v.push((copy("messages"), Json::Array(items)));
    proof {
        pairs_index(v@);
        assert(pairs(v@) =~= seq![
            str_entry("room"@, room@),
            ("messages"@, JsonTree::Array(Seq::new(all.len(), |k: int| turn_tree(all[k])))),
        ]);
    }
    Json::Object(v)
}

/// What is submitted of a message: its text without white space around it. A
/// message without any text is refused.
pub fn submitted(content: &str) -> (r: Result<String, Reply>)
    ensures
        match r {
            Ok(s) => s@ == trim(content@) && s@.len() > 0,
            Err(e) => trim(content@).len() == 0 && e.is(400, "empty message"@),
        },
{
    let s = trim_str(content);
    if chars_of(s.as_str()).len() == 0 {
        Err(Reply { status: 400, body: copy("empty message") })
    } else {
        Ok(s)
    }
}

/// What a submitted message is answered, once the room took or refused it.
pub fn submit_reply(outcome: Result<(), String>) -> (r: Reply)
    ensures
        match outcome {
            Ok(_) => r.is(200, "ok"@),
            Err(e) => r.is(500, "submit failed: "@ + e@),
        },
{
    match outcome {
        Ok(_) => Reply { status: 200, body: copy("ok") },
        Err(e) => Reply { status: 500, body: copy("submit failed: ").concat(e.as_str()) },
    }
}

// ---------------------------------------------------------------------------
// Following a room
// ---------------------------------------------------------------------------

/// Where reading goes on after some messages: behind the last, or where it was.
pub open spec fn tail_after(cursor: Option<(Seq<char>, u64)>, t: Seq<Turn>) -> Option<
    (Seq<char>, u64),
> {
    if t.len() > 0 {
        Some((t.last().date, (t.last().n + 1) as u64))
    } else {
        cursor
    }
}

/// Follows a room for the pages that are open.
pub struct Tail {
    pub cursor: Option<(String, u64)>,
}

impl Tail {
    /// Starts behind what the room holds already: only what comes later is handed
    /// on.
    pub fn new(history: &Vec<StoredTurn>) -> (r: Self)
        requires
            history@.len() > 0 ==> history@.last().n < u64::MAX,
        ensures
            cursor_view(r.cursor) == tail_after(None, turns(history@)),
    {
        let mut t = Tail { cursor: None };
        let _ = t.advance(history);
        t
    }

    /// From where to read next: a day, or the start, and a position in it.
    pub fn since(&self) -> (r: (Option<&String>, u64))
        ensures
            match cursor_view(self.cursor) {
                Some((d, n)) => r.0 is Some && r.0->Some_0@ == d && r.1 == n,
                None => r.0 is None && r.1 == 0,
            },
    {
        match &self.cursor {
            Some((d, n)) => (Some(d), *n),
            None => (None, 0),
        }
    }

    /// New messages were read: moves behind them, and gives what is sent to each
    /// page, in order.
    pub fn advance(&mut self, new: &Vec<StoredTurn>) -> (r: Vec<Json>)
        requires
            new@.len() > 0 ==> new@.last().n < u64::MAX,
        ensures
            cursor_view(final(self).cursor) == tail_after(
                cursor_view(old(self).cursor),
                turns(new@),
            ),
            trees(r@) == Seq::new(new@.len(), |i: int| turn_tree(turns(new@)[i])),
    {
        if new.len() > 0 {
            let last = &new[new.len() - 1];
            assert(turns(new@).last() == last@);
            self.cursor = Some((last.date.clone(), last.n + 1));
        }
        let mut out: Vec<Json> = Vec::new();
        let mut i: usize = 0;
        while i < new.len()
            invariant
                i <= new.len(),
                out@.len() == i,
                forall|k: int| 0 <= k < i ==> (#[trigger] out@[k])@ == turn_tree(new@[k]@),
            decreases new.len() - i,
        {
            out.push(turn_json(&new[i]));
            i = i + 1;
        }
        proof {
            trees_index(out@);
            assert(trees(out@) =~= Seq::new(new@.len(), |i: int| turn_tree(turns(new@)[i])));
        }
        out
    }
}

/// Which room is served: the one that was named, else the room of the project.
pub fn served_room(room: Option<String>, project: Option<String>) -> (r: Result<
    JoinSpec,
    &'static str,
>)
    ensures
        match (room, project) {
            (Some(n), _) => r matches Ok(s) && s@ == JoinView::Named(n@),
            (None, Some(p)) => r matches Ok(s) && s@ == JoinView::Project(p@),
            (None, None) => r matches Err(e) && e@
                == "no project (run inside a repo, or pass --room)"@,
        },
{
    match room {
        Some(n) => Ok(JoinSpec::Named(n)),
        None => match project {
            Some(p) => Ok(JoinSpec::Project(p)),
            None => Err("no project (run inside a repo, or pass --room)"),
        },
    }
}

/// The text of the address that is listened on.
pub fn listen_address(bind: &str, port: u16) -> (r: String)
    ensures
        r@ == bind@ + ":"@ + dec_text(port as nat),
{
    copy(bind).concat(":").concat(dec(port as u64).as_str())
}

// ---------------------------------------------------------------------------
// A model that takes part
// ---------------------------------------------------------------------------

/// When a model answers.
#[derive(Clone, Copy, Debug, PartialEq, Eq, Structural)]
pub enum ReplyPolicy {
    Mention,
    Always,
    Manual,
}

impl ReplyPolicy {
    pub open spec fn named(self) -> Seq<char> {
        match self {
            ReplyPolicy::Mention => "mention"@,
            ReplyPolicy::Always => "always"@,
            ReplyPolicy::Manual => "manual"@,
        }
    }

    pub fn name(self) -> (r: &'static str)
        ensures
            r@ == self.named(),
    {
        match self {
            ReplyPolicy::Mention => "mention",
            ReplyPolicy::Always => "always",
            ReplyPolicy::Manual => "manual",
        }
    }

    /// The policy of that name.
    pub fn parse(s: &str) -> (r: Result<ReplyPolicy, String>)
        ensures
            match r {
                Ok(p) => s@ == p.named(),
                Err(e) => e@ == "unknown reply policy '"@ + s@ + "'"@ && forall|p: ReplyPolicy|
                    s@ != #[trigger] p.named(),
            },
    {
        if same(s, "mention") {
            Ok(ReplyPolicy::Mention)
        } else if same(s, "always") {
            Ok(ReplyPolicy::Always)
        } else if same(s, "manual") {
            Ok(ReplyPolicy::Manual)
        } else {
            Err(copy("unknown reply policy '").concat(s).concat("'"))
        }
    }
}

/// What the page asks for when it starts a model.
pub struct ModelStartBody {
    pub model: String,
    pub as_handle: Option<String>,
    pub reply_policy: Option<String>,
    pub gateway_url: Option<String>,
    pub peers: Option<String>,
    pub persona: Option<String>,
}

/// How a model takes part.
#[derive(Debug, PartialEq, Eq)]
pub struct ModelParticipantConfig {
    pub model: String,
    pub as_handle: String,
    pub reply_policy: String,
    pub gateway_url: String,
    pub peers: Vec<String>,
    pub persona: Option<String>,
}

/// How a model takes part, as plain values.
pub struct Participant {
    pub model: Seq<char>,
    pub as_handle: Seq<char>,
    pub reply_policy: Seq<char>,
    pub gateway_url: Seq<char>,
    pub peers: Seq<Seq<char>>,
    pub persona: Option<Seq<char>>,
}

impl View for ModelParticipantConfig {
    type V = Participant;

    open spec fn view(&self) -> Participant {
        Participant {
            model: self.model@,
            as_handle: self.as_handle@,
            reply_policy: self.reply_policy@,
            gateway_url: self.gateway_url@,
            peers: views(self.peers@),
            persona: text_of(self.persona),
        }
    }
}

fn copy_config(c: &ModelParticipantConfig) -> (r: ModelParticipantConfig)
    ensures
        r@ == c@,
{
    ModelParticipantConfig {
        model: c.model.clone(),
        as_handle: c.as_handle.clone(),
        reply_policy: c.reply_policy.clone(),
        gateway_url: c.gateway_url.clone(),
        peers: crate::text::copy_all(&c.peers),
        persona: match &c.persona {
            Some(p) => Some(p.clone()),
            None => None,
        },
    }
}

/// A field without white space around it, where it holds anything else.
pub open spec fn filled(s: Option<Seq<char>>) -> Option<Seq<char>> {
    match s {
        Some(s) => if trim(s).len() > 0 {
            Some(trim(s))
        } else {
            None
        },
        None => None,
    }
}

fn filled_in(s: &Option<String>) -> (r: Option<String>)
    ensures
        text_of(r) == filled(text_of(*s)),
{
    match s {
        Some(s) => {
            let t = trim_str(s.as_str());
            if chars_of(t.as_str()).len() > 0 {
                Some(t)
            } else {
                None
            }
        },
        None => None,
    }
}

fn filled_or(s: &Option<String>, default: &str) -> (r: String)
    ensures
        r@ == (match filled(text_of(*s)) {
            Some(s) => s,
            None => default@,
        }),
{
    match filled_in(s) {
        Some(s) => s,
        None => copy(default),
    }
}

/// `value` without white space around it; an error that names the field where
/// nothing is left.
pub fn required_trimmed(value: &str, name: &str) -> (r: Result<String, String>)
    ensures
        match r {
            Ok(s) => s@ == trim(value@) && s@.len() > 0,
            Err(e) => trim(value@).len() == 0 && e@ == name@ + " is required"@,
        },
{
    let s = trim_str(value);
    if chars_of(s.as_str()).len() == 0 {
        Err(copy(name).concat(" is required"))
    } else {
        Ok(s)
    }
}

/// The parts of a text that commas and line ends separate.
pub open spec fn pieces(s: Seq<char>) -> Seq<Seq<char>>
    decreases s.len(),
{
    if s.len() == 0 {
        seq![Seq::empty()]
    } else {
        let rest = pieces(s.drop_last());
        if s.last() == ',' || s.last() == '\n' {
            rest.push(Seq::empty())
        } else {
            rest.drop_last().push(rest.last().push(s.last()))
        }
    }
}

/// The parts that hold something, without white space around them.
pub open spec fn filled_parts(p: Seq<Seq<char>>) -> Seq<Seq<char>>
    decreases p.len(),
{
    if p.len() == 0 {
        Seq::empty()
    } else {
        let rest = filled_parts(p.drop_last());
        if trim(p.last()).len() > 0 {
            rest.push(trim(p.last()))
        } else {
            rest
        }
    }
}

fn pieces_of(s: &str) -> (r: Vec<String>)
    ensures
        views(r@) == pieces(s@),
{
    let v = chars_of(s);
    let mut out: Vec<String> = Vec::new();
    let mut current: Vec<char> = Vec::new();
    let mut i: usize = 0;
    proof {
        assert(v@.subrange(0, 0) =~= Seq::<char>::empty());
        assert(views(out@).push(current@) =~= seq![Seq::<char>::empty()]);
    }
    while i < v.len()
        invariant
            i <= v.len(),
            views(out@).push(current@) == pieces(v@.subrange(0, i as int)),
        decreases v.len() - i,
    {
        let ghost part = v@.subrange(0, i + 1);
        let ghost rest = pieces(part.drop_last());
        proof {
            assert(part.drop_last() =~= v@.subrange(0, i as int));
            assert(rest.last() == current@);
            assert(rest.drop_last() =~= views(out@));
        }
        let c = v[i];
        if c == ',' || c == '\n' {
            let ghost before = out@;
            out.push(string_of(&current));
            current = Vec::new();
            assert(views(out@) =~= rest);
            assert(current@ =~= Seq::<char>::empty());
        } else {
            current.push(c);
        }
        i = i + 1;
    }
    assert(v@.subrange(0, i as int) =~= v@);
    let ghost before = out@;
    out.push(string_of(&current));
    assert(views(out@) =~= views(before).push(current@));
    out
}

/// The names in a list that commas and line ends separate.
pub fn split_peers(peers: &str) -> (r: Vec<String>)
    ensures
        views(r@) == filled_parts(pieces(peers@)),
{
    let parts = pieces_of(peers);
    let ghost all = views(parts@);
    let mut out: Vec<String> = Vec::new();
    let mut i: usize = 0;
    assert(views(out@) =~= Seq::empty());
    while i < parts.len()
        invariant
            i <= parts.len(),
            all == views(parts@),
            views(out@) == filled_parts(all.subrange(0, i as int)),
        decreases parts.len() - i,
    {
        let ghost part = all.subrange(0, i + 1);
        assert(part.drop_last() =~= all.subrange(0, i as int));
        assert(part.last() == parts@[i as int]@);
        let t = trim_str(parts[i].as_str());
        if chars_of(t.as_str()).len() > 0 {
            let ghost before = out@;
            out.push(t);
            assert(views(out@) =~= views(before).push(t@));
        }
        i = i + 1;
    }
    assert(all.subrange(0, i as int) =~= all);
    out
}

/// The name of the policy that is asked for.
pub open spec fn asked_policy(reply_policy: Option<Seq<char>>) -> Seq<char> {
    match filled(reply_policy) {
        Some(p) => p,
        None => "mention"@,
    }
}

/// The request names a model and a known policy.
pub open spec fn acceptable(b: ModelStartBody) -> bool {
    &&& trim(b.model@).len() > 0
    &&& exists|p: ReplyPolicy| asked_policy(text_of(b.reply_policy)) == #[trigger] p.named()
}

/// How the model of a request takes part. `default_handle` is the name it goes by
/// where the request gives none.
pub open spec fn participant_of(b: ModelStartBody, default_handle: Seq<char>) -> Participant {
    Participant {
        model: trim(b.model@),
        as_handle: match filled(text_of(b.as_handle)) {
            Some(h) => h,
            None => default_handle,
        },
        reply_policy: asked_policy(text_of(b.reply_policy)),
        gateway_url: match filled(text_of(b.gateway_url)) {
            Some(u) => u,
            None => DEFAULT_GATEWAY_URL@,
        },
        peers: filled_parts(
            pieces(
                match text_of(b.peers) {
                    Some(p) => p,
                    None => Seq::empty(),
                },
            ),
        ),
        persona: filled(text_of(b.persona)),
    }
}

/// Reads a request to start a model. `default_handle` is the name derived from
/// the model.
pub fn model_config_from_body(b: ModelStartBody, default_handle: &str) -> (r: Result<
    ModelParticipantConfig,
    String,
>)
    ensures
        r is Ok <==> acceptable(b),
        r matches Ok(c) ==> c@ == participant_of(b, default_handle@),
        r matches Err(e) ==> e@ == (if trim(b.model@).len() == 0 {
            "model is required"@
        } else {
            "unknown reply policy '"@ + asked_policy(text_of(b.reply_policy)) + "'"@
        }),
{
    let model = match required_trimmed(b.model.as_str(), "model") {
        Ok(m) => m,
        Err(e) => {
            proof {
                reveal_strlit("model");
                reveal_strlit(" is required");
                reveal_strlit("model is required");
                assert("model"@ + " is required"@ =~= "model is required"@);
            }
            return Err(e);
        },
    };
    let policy = filled_or(&b.reply_policy, "mention");
    let reply_policy = match ReplyPolicy::parse(policy.as_str()) {
        Ok(p) => p.name(),
        Err(e) => {
            return Err(e);
        },
    };
    let as_handle = filled_or(&b.as_handle, default_handle);
    let gateway_url = filled_or(&b.gateway_url, DEFAULT_GATEWAY_URL);
    let peers = match &b.peers {
        Some(p) => split_peers(p.as_str()),
        None => {
            let p = split_peers("");
            proof {
                reveal_strlit("");
                assert(""@ =~= Seq::<char>::empty());
            }
            p
        },
    };
    let persona = filled_in(&b.persona);
    Ok(
        ModelParticipantConfig {
            model,
            as_handle,
            reply_policy: copy(reply_policy),
            gateway_url,
            peers,
            persona,
        },
    )
}

/// What the participant program is started with, up to the peers.
pub open spec fn args_head(room: Seq<char>, c: Participant) -> Seq<Seq<char>> {
    seq![
        "meetings"@,
        "participant"@,
        "--model"@,
        c.model,
        "--room"@,
        room,
        "--as"@,
        c.as_handle,
        "--reply-policy"@,
        c.reply_policy,
        "--gateway-url"@,
        c.gateway_url,
    ]
}

/// Two arguments for each peer.
pub open spec fn peer_args(peers: Seq<Seq<char>>) -> Seq<Seq<char>>
    decreases peers.len(),
{
    if peers.len() == 0 {
        Seq::empty()
    } else {
        peer_args(peers.drop_last()) + seq!["--peer"@, peers.last()]
    }
}

pub open spec fn command_args(room: Seq<char>, c: Participant) -> Seq<Seq<char>> {
    args_head(room, c) + peer_args(c.peers) + (match c.persona {
        Some(p) => seq!["--persona"@, p],
        None => Seq::empty(),
    })
}

/// The arguments of the program that lets a model take part.
pub fn participant_command_args(room: &str, cfg: &ModelParticipantConfig) -> (r: Vec<String>)
    ensures
        views(r@) == command_args(room@, cfg@),
{
    let mut args: Vec<String> = Vec::new();
    args.push(copy("meetings"));
    args.push(copy("participant"));
    args.push(copy("--model"));
    args.push(cfg.model.clone());
    args.push(copy("--room"));
    args.push(copy(room));
    args.push(copy("--as"));
    args.push(cfg.as_handle.clone());
    args.push(copy("--reply-policy"));
    args.push(cfg.reply_policy.clone());
    args.push(copy("--gateway-url"));
    args.push(cfg.gateway_url.clone());
    let ghost head = args_head(room@, cfg@);
    let ghost peers = views(cfg.peers@);
    let mut i: usize = 0;
    assert(views(args@) =~= head + peer_args(peers.subrange(0, 0)));
    while i < cfg.peers.len()
        invariant
            i <= cfg.peers.len(),
            peers == views(cfg.peers@),
            views(args@) == head + peer_args(peers.subrange(0, i as int)),
        decreases cfg.peers.len() - i,
    {
        let ghost part = peers.subrange(0, i + 1);
        assert(part.drop_last() =~= peers.subrange(0, i as int));
        assert(part.last() == cfg.peers@[i as int]@);
        let ghost before = args@;
        args.push(copy("--peer"));
        args.push(cfg.peers[i].clone());
        assert(views(args@) =~= views(before) + seq!["--peer"@, part.last()]);
        assert(views(args@) =~= head + peer_args(part));
        i = i + 1;
    }
    assert(peers.subrange(0, i as int) =~= peers);
    match &cfg.persona {
        Some(p) => {
            let ghost before = args@;
            args.push(copy("--persona"));
            args.push(p.clone());
            assert(views(args@) =~= views(before) + seq!["--persona"@, p@]);
        },
        None => {},
    }
    assert(views(args@) =~= command_args(room@, cfg@));
    args
}

/// `s` without the slashes at its end.
pub open spec fn without_slashes(s: Seq<char>) -> Seq<char>
    decreases s.len(),
{
    if s.len() > 0 && s.last() == '/' {
        without_slashes(s.drop_last())
    } else {
        s
    }
}

/// Where a gateway is asked whether it is up.
pub fn probe_url(cfg: &ModelParticipantConfig) -> (r: String)
    ensures
        r@ == without_slashes(cfg.gateway_url@) + "/models"@,
{
    let v = chars_of(cfg.gateway_url.as_str());
    let mut n: usize = v.len();
    assert(v@.subrange(0, n as int) =~= v@);
    while n > 0 && v[n - 1] == '/'
        invariant
            n <= v.len(),
            without_slashes(v@) == without_slashes(v@.subrange(0, n as int)),
        decreases n,
    {
        assert(v@.subrange(0, n as int).drop_last() =~= v@.subrange(0, n - 1));
        n = n - 1;
    }
    substr(&v, 0, n).concat("/models")
}

/// What came of asking a gateway.
pub struct GatewayProbe {
    pub url: String,
    pub ok: bool,
    pub status: Option<u16>,
    pub error: Option<String>,
}

/// Reads what came back from a gateway: a status, or an error.
pub fn gateway_probe(url: String, outcome: Result<u16, String>) -> (r: GatewayProbe)
    ensures
        r.url@ == url@,
        match outcome {
            Ok(s) => r.ok == (200 <= s < 300) && r.status == Some(s) && r.error is None,
            Err(e) => !r.ok && r.status is None && text_of(r.error) == Some(e@),
        },
{
    match outcome {
        Ok(s) => GatewayProbe { url, ok: 200 <= s && s < 300, status: Some(s), error: None },
        Err(e) => GatewayProbe { url, ok: false, status: None, error: Some(e) },
    }
}

/// What the page is told of the model.
pub struct ModelStatus {
    pub running: bool,
    pub pid: Option<u32>,
    pub config: Option<ModelParticipantConfig>,
    pub started_at: Option<u64>,
    pub last_exit: Option<String>,
    pub gateway: Option<GatewayProbe>,
}

/// Why a model did not start.
pub enum ModelControlError {
    AlreadyRunning,
    Spawn(String),
}

/// What a refused start is answered.
pub fn start_refusal(e: ModelControlError) -> (r: Reply)
    ensures
        match e {
            ModelControlError::AlreadyRunning => r.is(
                409,
                "model participant already running\n"@,
            ),
            ModelControlError::Spawn(m) => r.is(500, "start failed: "@ + m@ + "\n"@),
        },
{
    match e {
        ModelControlError::AlreadyRunning => Reply {
            status: 409,
            body: copy("model participant already running\n"),
        },
        ModelControlError::Spawn(m) => Reply {
            status: 500,
            body: copy("start failed: ").concat(m.as_str()).concat("\n"),
        },
    }
}

/// What a request that cannot be read is answered.
pub fn config_refusal(e: &str) -> (r: Reply)
    ensures
        r.is(400, e@ + "\n"@),
{
    Reply { status: 400, body: copy(e).concat("\n") }
}

/// How a wait for a stopped process ended.
pub enum StopOutcome {
    Exited(String),
    Failed(String),
    TimedOut,
}

/// The one process that lets a model take part.
pub struct ModelControl {
    /// A process was started and has not been seen to end.
    pub running: bool,
    pub config: Option<ModelParticipantConfig>,
    pub started_at: Option<u64>,
    pub last_exit: Option<String>,
}

pub open spec fn config_view(c: Option<ModelParticipantConfig>) -> Option<Participant> {
    match c {
        Some(c) => Some(c@),
        None => None,
    }
}

impl ModelControl {
    /// What was started last and when are as before.
    pub open spec fn same_start(&self, o: ModelControl) -> bool {
        config_view(self.config) == config_view(o.config) && self.started_at == o.started_at
    }

    pub fn new() -> (r: Self)
        ensures
            !r.running,
            r.config is None,
            r.started_at is None,
            r.last_exit is None,
    {
        ModelControl { running: false, config: None, started_at: None, last_exit: None }
    }

    /// Takes note that the process has ended. `ended` is how; nothing while it
    /// runs.
    pub fn reap(&mut self, ended: Option<String>)
        ensures
            final(self).same_start(*old(self)),
            old(self).running && ended is Some ==> !final(self).running && text_of(
                final(self).last_exit,
            ) == text_of(ended),
            !(old(self).running && ended is Some) ==> *final(self) == *old(self),
    {
        if self.running {
            match ended {
                Some(s) => {
                    self.running = false;
                    self.last_exit = Some(s);
                },
                None => {},
            }
        }
    }

    /// What the page is told. `pid` is the number of the process.
    pub fn status(&self, pid: Option<u32>) -> (r: ModelStatus)
        ensures
            r.running == self.running,
            r.pid == (if self.running {
                pid
            } else {
                None
            }),
            config_view(r.config) == config_view(self.config),
            r.started_at == self.started_at,
            text_of(r.last_exit) == text_of(self.last_exit),
            r.gateway is None,
    {
        ModelStatus {
            running: self.running,
            pid: if self.running {
                pid
            } else {
                None
            },
            config: match &self.config {
                Some(c) => Some(copy_config(c)),
                None => None,
            },
            started_at: self.started_at,
            last_exit: match &self.last_exit {
                Some(s) => Some(s.clone()),
                None => None,
            },
            gateway: None,
        }
    }

    /// Asks to start a model in a room: the arguments to start the program with,
    /// unless one runs already.
    pub fn start(&self, room: &str, cfg: &ModelParticipantConfig) -> (r: Result<
        Vec<String>,
        ModelControlError,
    >)
        ensures
            self.running ==> (r matches Err(e) && e is AlreadyRunning),
            !self.running ==> (r matches Ok(args) && views(args@) == command_args(room@, cfg@)),
    {
        if self.running {
            Err(ModelControlError::AlreadyRunning)
        } else {
            Ok(participant_command_args(room, cfg))
        }
    }

    /// The program was started.
    pub fn started(&mut self, cfg: ModelParticipantConfig, now: u64)
        ensures
            final(self).running,
            config_view(final(self).config) == Some(cfg@),
            final(self).started_at == Some(now),
            final(self).last_exit is None,
    {
        self.running = true;
        self.config = Some(cfg);
        self.started_at = Some(now);
        self.last_exit = None;
    }

    /// The program could not be found.
    pub fn unresolved(e: &str) -> (r: ModelControlError)
        ensures
            r matches ModelControlError::Spawn(m) && m@ == "resolve participant command: "@ + e@,
    {
        ModelControlError::Spawn(copy("resolve participant command: ").concat(e))
    }

    /// The program was found and could not be started.
    pub fn not_spawned(program: &str, e: &str) -> (r: ModelControlError)
        ensures
            r matches ModelControlError::Spawn(m) && m@ == program@ + ": "@ + e@,
    {
        ModelControlError::Spawn(copy(program).concat(": ").concat(e))
    }

    /// The process was told to stop, if one ran, and waited for.
    pub fn stopped(&mut self, outcome: StopOutcome)
        ensures
            final(self).same_start(*old(self)),
            !final(self).running,
            old(self).running ==> text_of(final(self).last_exit) == Some(
                match outcome {
                    StopOutcome::Exited(s) => s@,
                    StopOutcome::Failed(e) => "wait failed: "@ + e@,
                    StopOutcome::TimedOut => "kill timeout"@,
                },
            ),
            !old(self).running ==> *final(self) == *old(self),
    {
        if self.running {
            self.running = false;
            self.last_exit = Some(
                match outcome {
                    StopOutcome::Exited(s) => s,
                    StopOutcome::Failed(e) => copy("wait failed: ").concat(e.as_str()),
                    StopOutcome::TimedOut => copy("kill timeout"),
                },
            );
        }
    }
}

// ---------------------------------------------------------------------------
// Laws
// ---------------------------------------------------------------------------

/// Whoever does not give the secret stays out, and so does whoever gives nothing:
/// only a well-formed header with the secret behind the first colon gets in.
pub proof fn only_the_secret_gets_in(header: Option<Seq<char>>, secret: Seq<char>)
    ensures
        carries_secret(header, secret) ==> header is Some && basic_credentials(
            header->Some_0,
        ) is Some && base64_decoded(basic_credentials(header->Some_0)->Some_0) is Some,
        !carries_secret(None, secret),
        forall|other: Seq<char>|
            #![trigger carries_secret(header, other)]
            carries_secret(header, secret) && other != secret ==> !carries_secret(header, other),
{
}

/// The name in front of the first colon does not matter.
pub proof fn any_name_will_do(name: Seq<char>, password: Seq<char>)
    requires
        !name.contains(':'),
    ensures
        after_colon(name + seq![':'] + password) == password,
{
    let s = name + seq![':'] + password;
    crate::text::char_from_is_least(s, ':', 0);
    assert(s[name.len() as int] == ':');
    let i = char_from(s, ':', 0)->Some_0;
    if i < name.len() {
        assert(name[i] == ':');
    }
    assert(from(s, name.len() as int + 1) =~= password);
}

/// A name in the list of peers is never empty, nor has it white space around it.
pub proof fn peers_are_trimmed(p: Seq<Seq<char>>)
    ensures
        forall|i: int|
            0 <= i < filled_parts(p).len() ==> (#[trigger] filled_parts(p)[i]).len() > 0 && trim(
                filled_parts(p)[i],
            ) == filled_parts(p)[i],
    decreases p.len(),
{
    if p.len() > 0 {
        let rest = filled_parts(p.drop_last());
        peers_are_trimmed(p.drop_last());
        crate::text::trim_is_idempotent(p.last());
        assert forall|i: int| 0 <= i < filled_parts(p).len() implies (#[trigger] filled_parts(
            p,
        )[i]).len() > 0 && trim(filled_parts(p)[i]) == filled_parts(p)[i] by {
            if i < rest.len() {
                assert(filled_parts(p)[i] == rest[i]);
            }
        }
    }
}

/// Following a room in two steps ends where one step over all the messages ends:
/// nothing is sent twice or left out.
pub proof fn following_leaves_no_gap(
    cursor: Option<(Seq<char>, u64)>,
    first: Seq<Turn>,
    second: Seq<Turn>,
)
    ensures
        tail_after(tail_after(cursor, first), second) == tail_after(cursor, first + second),
{
    if second.len() > 0 {
        assert((first + second).last() == second.last());
    } else {
        assert(first + second =~= first);
    }
}

/// The parts of a list that hold something are listed in order, without white
/// space around them; the empty ones are left out.
pub proof fn peers_are_listed_in_order(a: Seq<Seq<char>>, b: Seq<Seq<char>>, x: Seq<char>)
    ensures
        filled_parts(a + b) == filled_parts(a) + filled_parts(b),
        trim(x).len() > 0 ==> filled_parts(seq![x]) == seq![trim(x)],
        trim(x).len() == 0 ==> filled_parts(seq![x]).len() == 0,
    decreases b.len(),
{
    let none = Seq::<Seq<char>>::empty();
    assert(seq![x].drop_last() =~= none);
    assert(seq![x].last() == x);
    assert(filled_parts(none) =~= Seq::empty());
    if trim(x).len() > 0 {
        assert(filled_parts(seq![x]) =~= seq![trim(x)]);
    }
    if trim(x).len() == 0 {
        assert(filled_parts(seq![x]) =~= Seq::empty());
    }
    if b.len() == 0 {
        assert(a + b =~= a);
        assert(filled_parts(a) + filled_parts(b) =~= filled_parts(a));
    } else {
        peers_are_listed_in_order(a, b.drop_last(), x);
        assert((a + b).drop_last() =~= a + b.drop_last());
        assert((a + b).last() == b.last());
        assert(filled_parts(a + b) =~= filled_parts(a) + filled_parts(b));
    }
}


/// Every peer is passed on by its name.
pub proof fn every_peer_is_named(a: Seq<Seq<char>>, b: Seq<Seq<char>>, x: Seq<char>)
    ensures
        peer_args(a + b) == peer_args(a) + peer_args(b),
        peer_args(seq![x]) == seq!["--peer"@, x],
    decreases b.len(),
{
    let none = Seq::<Seq<char>>::empty();
    assert(seq![x].drop_last() =~= none);
    assert(seq![x].last() == x);
    assert(peer_args(none) =~= Seq::empty());
    assert(peer_args(seq![x]) =~= seq!["--peer"@, x]);
    if b.len() == 0 {
        assert(a + b =~= a);
        assert(peer_args(a) + peer_args(b) =~= peer_args(a));
    } else {
        every_peer_is_named(a, b.drop_last(), x);
        assert((a + b).drop_last() =~= a + b.drop_last());
        assert((a + b).last() == b.last());
        assert(peer_args(a + b) =~= peer_args(a) + peer_args(b));
    }
}


/// A list is parted at its commas and line ends, and nowhere else.
pub proof fn lists_are_parted(a: Seq<char>, c: char, b: Seq<char>)
    requires
        c == ',' || c == '\n',
    ensures
        pieces(a + seq![c] + b) == pieces(a) + pieces(b),
        (forall|i: int| 0 <= i < a.len() ==> #[trigger] a[i] != ',' && a[i] != '\n') ==> pieces(a)
            == seq![a],
        pieces(a).len() > 0,
    decreases b.len(),
{
    pieces_are_some(a);
    if forall|i: int| 0 <= i < a.len() ==> #[trigger] a[i] != ',' && a[i] != '\n' {
        a_piece_is_whole(a);
    }
    let s = a + seq![c] + b;
    if b.len() == 0 {
        assert(s.drop_last() =~= a);
        assert(s.last() == c);
        assert(pieces(s) =~= pieces(a) + pieces(b));
    } else {
        let r = b.drop_last();
        lists_are_parted(a, c, r);
        pieces_are_some(r);
        assert(s.drop_last() =~= a + seq![c] + r);
        assert(s.last() == b.last());
        let x = pieces(a);
        let y = pieces(r);
        assert((x + y).drop_last() =~= x + y.drop_last());
        assert((x + y).last() == y.last());
        assert(pieces(s) =~= pieces(a) + pieces(b));
    }
}

proof fn pieces_are_some(s: Seq<char>)
    ensures
        pieces(s).len() > 0,
    decreases s.len(),
{
    if s.len() > 0 {
        pieces_are_some(s.drop_last());
    }
}

proof fn a_piece_is_whole(a: Seq<char>)
    requires
        forall|i: int| 0 <= i < a.len() ==> #[trigger] a[i] != ',' && a[i] != '\n',
    ensures
        pieces(a) == seq![a],
    decreases a.len(),
{
    if a.len() == 0 {
        assert(a =~= Seq::empty());
    } else {
        let r = a.drop_last();
        assert forall|i: int| 0 <= i < r.len() implies #[trigger] r[i] != ',' && r[i] != '\n' by {
            assert(r[i] == a[i]);
        }
        a_piece_is_whole(r);
        assert(a.last() == a[a.len() - 1]);
        assert(r.push(a.last()) =~= a);
        assert(pieces(a) =~= seq![a]);
    }
}

/// The header carries the secret where its credentials, decoded, are a name, a colon
/// and the secret.
pub proof fn the_secret_gets_in(b64: Seq<char>, pair: Seq<u8>, name: Seq<char>, secret: Seq<char>)
    requires
        base64_decoded(trim(b64)) == Some(pair),
        valid_utf8(pair),
        decode_utf8(pair) == name + seq![':'] + secret,
        !name.contains(':'),
    ensures
        carries_secret(Some("Basic "@ + b64), secret),
        carries_secret(Some("basic "@ + b64), secret),
        forall|other: Seq<char>|
            other != secret ==> !#[trigger] carries_secret(Some("Basic "@ + b64), other),
{
    reveal_strlit("Basic ");
    reveal_strlit("basic ");
    any_name_will_do(name, secret);
    let a = "Basic "@ + b64;
    let b = "basic "@ + b64;
    assert(a.subrange(0, 6) =~= "Basic "@);
    assert(b.subrange(0, 6) =~= "basic "@);
    assert(from(a, 6) =~= b64);
    assert(from(b, 6) =~= b64);
}

/// Credentials that cannot be decoded, and a header of another scheme, carry no
/// secret; bytes that are no text carry the empty one.
pub proof fn nothing_else_gets_in(header: Seq<char>, secret: Seq<char>)
    ensures
        !starts_with(header, "Basic "@) && !starts_with(header, "basic "@) ==> !carries_secret(
            Some(header),
            secret,
        ),
        (starts_with(header, "Basic "@) || starts_with(header, "basic "@)) && base64_decoded(
            trim(from(header, 6)),
        ) is None ==> !carries_secret(Some(header), secret),
{
}

/// A message on the page has the sender, the text and the place that it has in the
/// room.
pub proof fn a_message_is_shown_whole(room: Seq<char>, t: Seq<Turn>, i: int)
    requires
        0 <= i < t.len(),
    ensures
        member(turn_tree(t[i]), "from"@) == Some(JsonTree::Str(t[i].display_name)),
        member(turn_tree(t[i]), "content"@) == Some(JsonTree::Str(t[i].content)),
        member(turn_tree(t[i]), "date"@) == Some(JsonTree::Str(t[i].date)),
        member(turn_tree(t[i]), "n"@) == Some(JsonTree::Number(number_of(t[i].n))),
        member(turn_tree(t[i]), "ts"@) == Some(JsonTree::Number(number_of(t[i].ts))),
        member(messages_tree(room, t), "room"@) == Some(JsonTree::Str(room)),
        member(messages_tree(room, t), "messages"@) matches Some(JsonTree::Array(m)) && m.len()
            == t.len() && m[i] == turn_tree(t[i]),
{
    message_keys_differ();
    let x = t[i];
    let e = seq![
        str_entry("from"@, x.display_name),
        str_entry("content"@, x.content),
        str_entry("date"@, x.date),
        ("n"@, JsonTree::Number(number_of(x.n))),
        ("ts"@, JsonTree::Number(number_of(x.ts))),
    ];
    an_entry_is_a_member(e, 0);
    an_entry_is_a_member(e, 1);
    an_entry_is_a_member(e, 2);
    an_entry_is_a_member(e, 3);
    an_entry_is_a_member(e, 4);
    let m = seq![
        str_entry("room"@, room),
        ("messages"@, JsonTree::Array(Seq::new(t.len(), |i: int| turn_tree(t[i])))),
    ];
    an_entry_is_a_member(m, 0);
    an_entry_is_a_member(m, 1);
}

/// Keys that stand in one object differ.
proof fn message_keys_differ()
    ensures
        "from"@ != "content"@,
        "from"@ != "date"@,
        "from"@ != "n"@,
        "from"@ != "ts"@,
        "content"@ != "date"@,
        "content"@ != "n"@,
        "content"@ != "ts"@,
        "date"@ != "n"@,
        "date"@ != "ts"@,
        "n"@ != "ts"@,
        "room"@ != "messages"@,
{
    reveal_strlit("from");
    reveal_strlit("content");
    reveal_strlit("date");
    reveal_strlit("n");
    reveal_strlit("ts");
    reveal_strlit("room");
    reveal_strlit("messages");
    assert("from"@.len() != "content"@.len());
    assert("from"@[0] != "date"@[0]);
    assert("from"@.len() != "n"@.len());
    assert("from"@.len() != "ts"@.len());
    assert("content"@.len() != "date"@.len());
    assert("content"@.len() != "n"@.len());
    assert("content"@.len() != "ts"@.len());
    assert("date"@.len() != "n"@.len());
    assert("date"@.len() != "ts"@.len());
    assert("n"@.len() != "ts"@.len());
    assert("room"@.len() != "messages"@.len());
}

/// Reading goes on right behind the last message; without messages where it was.
pub proof fn reading_goes_on_behind_the_last(cursor: Option<(Seq<char>, u64)>, t: Seq<Turn>)
    ensures
        t.len() == 0 ==> tail_after(cursor, t) == cursor,
        t.len() > 0 && t.last().n < u64::MAX ==> (tail_after(cursor, t) matches Some((d, n)) && d
            == t.last().date && n == t.last().n + 1),
{
}

/// A model takes part as the request says: under its own name or the default one,
/// replying when it is mentioned unless another policy is named, through the gateway
/// that is named or the usual one.
pub proof fn a_model_takes_part_as_asked(b: ModelStartBody, handle: Seq<char>)
    ensures
        participant_of(b, handle).model == trim(b.model@),
        b.as_handle is None ==> participant_of(b, handle).as_handle == handle,
        b.as_handle matches Some(h) ==> {
            &&& trim(h@).len() > 0 ==> participant_of(b, handle).as_handle == trim(h@)
            &&& trim(h@).len() == 0 ==> participant_of(b, handle).as_handle == handle
        },
        b.reply_policy is None ==> participant_of(b, handle).reply_policy == "mention"@,
        b.reply_policy matches Some(p) ==> (trim(p@).len() > 0 ==> participant_of(
            b,
            handle,
        ).reply_policy == trim(p@)),
        b.gateway_url is None ==> participant_of(b, handle).gateway_url == DEFAULT_GATEWAY_URL@,
        b.gateway_url matches Some(u) ==> (trim(u@).len() > 0 ==> participant_of(
            b,
            handle,
        ).gateway_url == trim(u@)),
        b.persona is None ==> participant_of(b, handle).persona is None,
        b.persona matches Some(p) ==> (trim(p@).len() > 0 ==> participant_of(b, handle).persona
            == Some(trim(p@))),
        b.peers is None ==> participant_of(b, handle).peers.len() == 0,
        b.peers matches Some(p) ==> participant_of(b, handle).peers == filled_parts(pieces(p@)),
{
    let none = Seq::<char>::empty();
    assert(pieces(none) == seq![none]);
    crate::text::trimming_takes_white_space_only(none, none, none);
    assert(none + none + none =~= none);
    peers_are_listed_in_order(Seq::empty(), Seq::empty(), none);
}

/// A participant is started with every setting behind its flag, the peers one by
/// one, and the persona last, where there is one.
pub proof fn a_participant_is_started_as_configured(room: Seq<char>, c: Participant)
    ensures
        ({
            let a = command_args(room, c);
            let n = 12 + peer_args(c.peers).len() as int;
            &&& a[0] == "meetings"@ && a[1] == "participant"@
            &&& a[2] == "--model"@ && a[3] == c.model
            &&& a[4] == "--room"@ && a[5] == room
            &&& a[6] == "--as"@ && a[7] == c.as_handle
            &&& a[8] == "--reply-policy"@ && a[9] == c.reply_policy
            &&& a[10] == "--gateway-url"@ && a[11] == c.gateway_url
            &&& a.subrange(12, n) == peer_args(c.peers)
            &&& c.persona is None ==> a.len() == n
            &&& c.persona matches Some(p) ==> a.len() == n + 2 && a[n] == "--persona"@ && a[n + 1]
                == p
        }),
{
    let a = command_args(room, c);
    let n = 12 + peer_args(c.peers).len() as int;
    assert(a.subrange(12, n) =~= peer_args(c.peers));
}

/// The slashes at the end of an address are left out, all of them and no others.
pub proof fn slashes_at_the_end_are_left_out(s: Seq<char>)
    ensures
        without_slashes(s.push('/')) == without_slashes(s),
        s.len() > 0 && s.last() != '/' ==> without_slashes(s) == s,
{
    assert(s.push('/').drop_last() =~= s);
}

/// A request for a model is accepted where it names a model and, if any, a known
/// policy.
pub proof fn a_known_policy_is_accepted(b: ModelStartBody)
    ensures
        trim(b.model@).len() == 0 ==> !acceptable(b),
        trim(b.model@).len() > 0 && b.reply_policy is None ==> acceptable(b),
        trim(b.model@).len() > 0 ==> (b.reply_policy matches Some(p) ==> {
            &&& trim(p@) == "mention"@ || trim(p@) == "always"@ || trim(p@) == "manual"@
                ==> acceptable(b)
            &&& trim(p@).len() > 0 && trim(p@) != "mention"@ && trim(p@) != "always"@ && trim(p@)
                != "manual"@ ==> !acceptable(b)
        }),
{
    reveal_strlit("mention");
    reveal_strlit("always");
    reveal_strlit("manual");
    assert(ReplyPolicy::Mention.named() == "mention"@);
    assert(ReplyPolicy::Always.named() == "always"@);
    assert(ReplyPolicy::Manual.named() == "manual"@);
    assert("mention"@.len() > 0 && "always"@.len() > 0 && "manual"@.len() > 0);
}

/// A participant replies when it is mentioned, unless it was asked for otherwise.
pub proof fn a_mention_is_replied_to_unless_asked_otherwise(p: Seq<char>)
    ensures
        asked_policy(None) == "mention"@,
        trim(p).len() == 0 ==> asked_policy(Some(p)) == "mention"@,
        trim(p).len() > 0 ==> asked_policy(Some(p)) == trim(p),
{
}

} // verus!
