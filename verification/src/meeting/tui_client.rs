//! The state of a person's client of the meeting daemon: which room it is in, what
//! of the transcript is loaded, and what the daemon's replies come to.

use crate::json::{
    an_entry_is_a_member, bool_in, entries_map, field, field_of, integer_in, items_in, json_str, json_u64, member,
    number_of,
    pairs, pairs_index, rendered, string_in, text_in, trees, trees_index, without_an_entry_no_member,
    Json, JsonTree,
};
use crate::text::{copy, same, views};
use vstd::prelude::*;

verus! {

/// One message of a transcript.
pub struct StoredTurn {
    pub display_name: String,
    pub content: String,
    pub date: String,
    pub n: u64,
    pub ts: u64,
}

/// A message as plain values.
pub struct Turn {
    pub display_name: Seq<char>,
    pub content: Seq<char>,
    pub date: Seq<char>,
    pub n: u64,
    pub ts: u64,
}

impl View for StoredTurn {
    type V = Turn;

    open spec fn view(&self) -> Turn {
        Turn {
            display_name: self.display_name@,
            content: self.content@,
            date: self.date@,
            n: self.n,
            ts: self.ts,
        }
    }
}

pub open spec fn turns(v: Seq<StoredTurn>) -> Seq<Turn> {
    Seq::new(v.len(), |i: int| v[i]@)
}

fn copy_turn(t: &StoredTurn) -> (r: StoredTurn)
    ensures
        r@ == t@,
{
    StoredTurn {
        display_name: t.display_name.clone(),
        content: t.content.clone(),
        date: t.date.clone(),
        n: t.n,
        ts: t.ts,
    }
}

/// A room as the picker shows it.
pub struct RoomInfo {
    pub name: String,
    pub project: Option<String>,
    pub root: String,
    pub topic: String,
    pub participants: u64,
    pub last_date: Option<String>,
}

/// A room as plain values.
pub struct Room {
    pub name: Seq<char>,
    pub project: Option<Seq<char>>,
    pub root: Seq<char>,
    pub topic: Seq<char>,
    pub participants: u64,
    pub last_date: Option<Seq<char>>,
}

pub open spec fn text_of(s: Option<String>) -> Option<Seq<char>> {
    match s {
        Some(s) => Some(s@),
        None => None,
    }
}

impl View for RoomInfo {
    type V = Room;

    open spec fn view(&self) -> Room {
        Room {
            name: self.name@,
            project: text_of(self.project),
            root: self.root@,
            topic: self.topic@,
            participants: self.participants,
            last_date: text_of(self.last_date),
        }
    }
}

pub open spec fn rooms(v: Seq<RoomInfo>) -> Seq<Room> {
    Seq::new(v.len(), |i: int| v[i]@)
}

/// How a room was entered; a second connection joins it the same way.
pub enum JoinSpec {
    Project(String),
    Named(String),
}

pub enum JoinView {
    Project(Seq<char>),
    Named(Seq<char>),
}

impl View for JoinSpec {
    type V = JoinView;

    open spec fn view(&self) -> JoinView {
        match *self {
            JoinSpec::Project(p) => JoinView::Project(p@),
            JoinSpec::Named(n) => JoinView::Named(n@),
        }
    }
}

/// Where a single message goes.
pub enum PostTarget {
    /// The room of a project.
    Project(String),
    /// A room that must exist.
    Named(String),
    /// A shared room, created where it does not exist.
    Shared(String),
}

// ---------------------------------------------------------------------------
// Requests to the daemon
// ---------------------------------------------------------------------------

pub open spec fn str_entry(key: Seq<char>, value: Seq<char>) -> (Seq<char>, JsonTree) {
    (key, JsonTree::Str(value))
}

/// What a client says of itself when it joins the room of a project.
pub open spec fn join_project_tree(
    display_name: Seq<char>,
    project: Seq<char>,
    token: Seq<char>,
) -> JsonTree {
    JsonTree::Object(
        entries_map(
            seq![
                str_entry("client_info_name"@, display_name),
                str_entry("project"@, project),
                str_entry("session_token"@, token),
                str_entry("kind"@, "human"@),
            ],
        ),
    )
}

/// What a client says of itself when it joins a room by name.
pub open spec fn join_named_tree(
    name: Seq<char>,
    display_name: Seq<char>,
    token: Seq<char>,
) -> JsonTree {
    JsonTree::Object(
        entries_map(
            seq![
                str_entry("name"@, name),
                str_entry("client_info_name"@, display_name),
                str_entry("session_token"@, token),
                str_entry("kind"@, "human"@),
            ],
        ),
    )
}

/// What a client asks for when it makes a room: a topic or a name, or neither.
pub open spec fn new_room_tree(
    display_name: Seq<char>,
    token: Seq<char>,
    extra: Option<(Seq<char>, Seq<char>)>,
) -> JsonTree {
    let head = seq![
        str_entry("client_info_name"@, display_name),
        str_entry("session_token"@, token),
    ];
    JsonTree::Object(
        entries_map(
            match extra {
                Some((k, v)) => head.push(str_entry(k, v)),
                None => head,
            },
        ),
    )
}

/// What a client has seen: a day, and the messages of that day.
pub open spec fn since_tree(cursor: Option<(Seq<char>, u64)>) -> JsonTree {
    JsonTree::Object(
        entries_map(
            match cursor {
                Some((d, n)) => seq![
                    str_entry("since_date"@, d),
                    ("since_n"@, JsonTree::Number(number_of(n))),
                ],
                None => Seq::empty(),
            },
        ),
    )
}

pub open spec fn cursor_view(c: Option<(String, u64)>) -> Option<(Seq<char>, u64)> {
    match c {
        Some((d, n)) => Some((d@, n)),
        None => None,
    }
}

fn copy_cursor(c: &Option<(String, u64)>) -> (r: Option<(String, u64)>)
    ensures
        cursor_view(r) == cursor_view(*c),
{
    match c {
        Some((d, n)) => Some((d.clone(), *n)),
        None => None,
    }
}

fn four(
    a: (&str, &str),
    b: (&str, &str),
    c: (&str, &str),
    d: (&str, &str),
) -> (r: Json)
    ensures
        r@ == JsonTree::Object(
            entries_map(
                seq![
                    str_entry(a.0@, a.1@),
                    str_entry(b.0@, b.1@),
                    str_entry(c.0@, c.1@),
                    str_entry(d.0@, d.1@),
                ],
            ),
        ),
{
    let mut v: Vec<(String, Json)> = Vec::new();
    v.push((copy(a.0), json_str(a.1)));
    v.push((copy(b.0), json_str(b.1)));
    v.push((copy(c.0), json_str(c.1)));
    v.push((copy(d.0), json_str(d.1)));
    proof {
        pairs_index(v@);
        assert(pairs(v@) =~= seq![
            str_entry(a.0@, a.1@),
            str_entry(b.0@, b.1@),
            str_entry(c.0@, c.1@),
            str_entry(d.0@, d.1@),
        ]);
    }
    Json::Object(v)
}

/// What a poll sends: what was seen so far.
pub fn since_args(cursor: &Option<(String, u64)>) -> (r: Json)
    ensures
        r@ == since_tree(cursor_view(*cursor)),
{
    let mut v: Vec<(String, Json)> = Vec::new();
    match cursor {
        Some((d, n)) => {
            v.push((copy("since_date"), json_str(d.as_str())));
            v.push((copy("since_n"), json_u64(*n)));
            proof {
                pairs_index(v@);
                assert(pairs(v@) =~= seq![
                    str_entry("since_date"@, d@),
                    ("since_n"@, JsonTree::Number(number_of(*n))),
                ]);
            }
        },
        None => {
            assert(pairs(v@) =~= Seq::empty());
        },
    }
    Json::Object(v)
}

/// What a message is submitted with.
pub fn submit_args(content: &str) -> (r: Json)
    ensures
        r@ == JsonTree::Object(entries_map(seq![str_entry("content"@, content@)])),
{
    let mut v: Vec<(String, Json)> = Vec::new();
    v.push((copy("content"), json_str(content)));
    proof {
        pairs_index(v@);
        assert(pairs(v@) =~= seq![str_entry("content"@, content@)]);
    }
    Json::Object(v)
}

/// Joins a room the way it was joined before: the name of the call, and what is
/// sent.
pub fn rejoin_args(spec: &JoinSpec, display_name: &str, token: &str) -> (r: (&'static str, Json))
    ensures
        match spec@ {
            JoinView::Project(p) => r.0@ == "_join_internal"@ && r.1@ == join_project_tree(
                display_name@,
                p,
                token@,
            ),
            JoinView::Named(n) => r.0@ == "rooms.join"@ && r.1@ == join_named_tree(
                n,
                display_name@,
                token@,
            ),
        },
{
    match spec {
        JoinSpec::Project(p) => (
            "_join_internal",
            four(
                ("client_info_name", display_name),
                ("project", p.as_str()),
                ("session_token", token),
                ("kind", "human"),
            ),
        ),
        JoinSpec::Named(n) => (
            "rooms.join",
            four(
                ("name", n.as_str()),
                ("client_info_name", display_name),
                ("session_token", token),
                ("kind", "human"),
            ),
        ),
    }
}

// ---------------------------------------------------------------------------
// Replies of the daemon
// ---------------------------------------------------------------------------

/// The room that an entry of the list stands for, if it has a name.
pub open spec fn room_of(t: JsonTree) -> Option<Room> {
    let v = Some(t);
    match string_in(field_of(v, "name"@)) {
        Some(name) => Some(
            Room {
                name,
                project: string_in(field_of(v, "project"@)),
                root: match string_in(field_of(v, "root"@)) {
                    Some(r) => r,
                    None => Seq::empty(),
                },
                topic: match string_in(field_of(v, "topic"@)) {
                    Some(r) => r,
                    None => Seq::empty(),
                },
                participants: match integer_in(field_of(v, "participants"@)) {
                    Some(n) => n,
                    None => 0,
                },
                last_date: string_in(field_of(v, "last_date"@)),
            },
        ),
        None => None,
    }
}

pub open spec fn rooms_of(t: Seq<JsonTree>) -> Seq<Room>
    decreases t.len(),
{
    if t.len() == 0 {
        Seq::empty()
    } else {
        let rest = rooms_of(t.drop_last());
        match room_of(t.last()) {
            Some(r) => rest.push(r),
            None => rest,
        }
    }
}

/// The rooms that a reply lists.
pub open spec fn listed_rooms(v: JsonTree) -> Seq<Room> {
    match items_in(field_of(Some(v), "rooms"@)) {
        Some(items) => rooms_of(items),
        None => Seq::empty(),
    }
}

fn cloned(s: Option<&String>) -> (r: Option<String>)
    ensures
        text_of(r) == (match s {
            Some(s) => Some(s@),
            None => None,
        }),
{
    match s {
        Some(s) => Some(s.clone()),
        None => None,
    }
}

fn cloned_or_empty(s: Option<&String>) -> (r: String)
    ensures
        r@ == (match s {
            Some(s) => s@,
            None => Seq::empty(),
        }),
{
    match s {
        Some(s) => s.clone(),
        None => String::new(),
    }
}

fn room_in(room: &Json) -> (r: Option<RoomInfo>)
    ensures
        match r {
            Some(i) => room_of(room@) == Some(i@),
            None => room_of(room@) is None,
        },
{
    match room.get_str("name") {
        Some(name) => Some(
            RoomInfo {
                name: name.clone(),
                project: cloned(room.get_str("project")),
                root: cloned_or_empty(room.get_str("root")),
                topic: cloned_or_empty(room.get_str("topic")),
                participants: match room.get_u64("participants") {
                    Some(n) => n,
                    None => 0,
                },
                last_date: cloned(room.get_str("last_date")),
            },
        ),
        None => None,
    }
}

/// The rooms that the daemon's reply lists, those without a name left out.
pub fn list_rooms(v: &Json) -> (r: Vec<RoomInfo>)
    ensures
        rooms(r@) == listed_rooms(v@),
{
    let mut out: Vec<RoomInfo> = Vec::new();
    assert(rooms(out@) =~= Seq::empty());
    let items = match v.get_array("rooms") {
        Some(items) => items,
        None => {
            return out;
        },
    };
    proof {
        trees_index(items@);
    }
    let ghost all = trees(items@);
    let mut i: usize = 0;
    while i < items.len()
        invariant
            i <= items.len(),
            all.len() == items@.len(),
            forall|k: int| 0 <= k < items@.len() ==> #[trigger] all[k] == items@[k]@,
            rooms(out@) == rooms_of(all.subrange(0, i as int)),
        decreases items.len() - i,
    {
        let ghost part = all.subrange(0, i + 1);
        assert(part.drop_last() =~= all.subrange(0, i as int));
        assert(part.last() == items@[i as int]@);
        let ghost before = out@;
        match room_in(&items[i]) {
            Some(room) => {
                out.push(room);
                assert(rooms(out@) =~= rooms(before).push(room@));
            },
            None => {},
        }
        i = i + 1;
    }
    assert(all.subrange(0, i as int) =~= all);
    out
}

/// The first room with a name, from `i` on.
pub open spec fn room_named(r: Seq<Room>, name: Seq<char>, i: int) -> Option<int>
    decreases r.len() - i,
{
    if i < 0 || i >= r.len() {
        None
    } else if r[i].name == name {
        Some(i)
    } else {
        room_named(r, name, i + 1)
    }
}

/// The position of the room that a message is posted to by name; `Err` with a
/// message where there is none.
pub fn find_room(list: &Vec<RoomInfo>, name: &str) -> (r: Result<usize, String>)
    ensures
        match room_named(rooms(list@), name@, 0) {
            Some(i) => r matches Ok(k) && k == i && k < list@.len(),
            None => r matches Err(e) && e@ == "no room named '"@ + name@ + "'"@,
        },
{
    let ghost all = rooms(list@);
    let mut i: usize = 0;
    while i < list.len()
        invariant
            i <= list.len(),
            all == rooms(list@),
            room_named(all, name@, 0) == room_named(all, name@, i as int),
        decreases list.len() - i,
    {
        assert(all[i as int] == list@[i as int]@);
        if same(list[i].name.as_str(), name) {
            return Ok(i);
        }
        i = i + 1;
    }
    let mut e = copy("no room named '");
    e.append(name);
    e.append("'");
    Err(e)
}

/// The room that a reply names.
pub fn joined_room(v: &Json) -> (r: Result<String, &'static str>)
    ensures
        match string_in(field_of(Some(v@), "room"@)) {
            Some(s) => r matches Ok(room) && room@ == s,
            None => r matches Err(e) && e@ == "no room in result"@,
        },
{
    match v.get_str("room") {
        Some(s) => Ok(s.clone()),
        None => Err("no room in result"),
    }
}

/// The directory of the room that a reply names.
pub fn joined_root(v: &Json) -> (r: Result<String, &'static str>)
    ensures
        match string_in(field_of(Some(v@), "root"@)) {
            Some(s) => r matches Ok(root) && root@ == s,
            None => r matches Err(e) && e@ == "no root in result"@,
        },
{
    match v.get_str("root") {
        Some(s) => Ok(s.clone()),
        None => Err("no root in result"),
    }
}

/// Why a message was refused; `None` where it was taken.
pub fn submit_refusal(r: &Json) -> (e: Option<String>)
    ensures
        bool_in(field_of(Some(r@), "isError"@)) == Some(true) ==> (e matches Some(m) && m@
            == "submit rejected: "@ + rendered(r@)),
        bool_in(field_of(Some(r@), "isError"@)) != Some(true) ==> e is None,
{
    match r.get("isError") {
        Some(j) => match j.as_bool() {
            Some(b) => if b {
                Some(copy("submit rejected: ").concat(r.to_text().as_str()))
            } else {
                None
            },
            None => None,
        },
        None => None,
    }
}

/// Nothing new has come. A reply that does not say so is taken to mean it.
pub open spec fn still_waiting(v: JsonTree) -> bool {
    match bool_in(field_of(Some(v), "still_waiting"@)) {
        Some(b) => b,
        None => true,
    }
}

/// How far the room has come, where the reply says it in full.
pub open spec fn high_water(v: JsonTree) -> Option<(Seq<char>, u64)> {
    let hw = field_of(Some(v), "high_water"@);
    match (string_in(field_of(hw, "date"@)), integer_in(field_of(hw, "n"@))) {
        (Some(d), Some(n)) => Some((d, n)),
        _ => None,
    }
}

pub open spec fn has_ended(v: JsonTree) -> bool {
    bool_in(field_of(Some(v), "ended"@)) == Some(true)
}

/// The cursor after a reply.
pub open spec fn advanced(cursor: Option<(Seq<char>, u64)>, v: JsonTree) -> Option<
    (Seq<char>, u64),
> {
    match high_water(v) {
        Some(hw) => Some(hw),
        None => cursor,
    }
}

fn is_waiting(v: &Json) -> (r: bool)
    ensures
        r == still_waiting(v@),
{
    match v.get("still_waiting") {
        Some(j) => match j.as_bool() {
            Some(b) => b,
            None => true,
        },
        None => true,
    }
}

fn high_water_in(v: &Json) -> (r: Option<(String, u64)>)
    ensures
        cursor_view(r) == high_water(v@),
{
    let hw = field(Some(v), "high_water");
    match text_in(field(hw, "date")) {
        Some(d) => match crate::json::u64_in(field(hw, "n")) {
            Some(n) => Some((d.clone(), n)),
            None => None,
        },
        None => None,
    }
}

fn ended(v: &Json) -> (r: bool)
    ensures
        r == has_ended(v@),
{
    match v.get("ended") {
        Some(j) => match j.as_bool() {
            Some(b) => b,
            None => false,
        },
        None => false,
    }
}

// ---------------------------------------------------------------------------
// Days
// ---------------------------------------------------------------------------

/// The position of a date, from `i` on.
pub open spec fn date_position(dates: Seq<Seq<char>>, date: Seq<char>, i: int) -> Option<int>
    decreases dates.len() - i,
{
    if i < 0 || i >= dates.len() {
        None
    } else if dates[i] == date {
        Some(i)
    } else {
        date_position(dates, date, i + 1)
    }
}

/// The date before another in a list of dates.
pub open spec fn date_before(dates: Seq<Seq<char>>, oldest: Seq<char>) -> Option<Seq<char>> {
    match date_position(dates, oldest, 0) {
        Some(i) => if i > 0 {
            Some(dates[i - 1])
        } else {
            None
        },
        None => None,
    }
}

/// The day immediately before `oldest` among those of a room, oldest first.
pub fn prev_day(dates: &Vec<String>, oldest: &str) -> (r: Option<String>)
    ensures
        match r {
            Some(d) => date_before(views(dates@), oldest@) == Some(d@),
            None => date_before(views(dates@), oldest@) is None,
        },
{
    let ghost all = views(dates@);
    let mut i: usize = 0;
    while i < dates.len()
        invariant
            i <= dates.len(),
            all == views(dates@),
            date_position(all, oldest@, 0) == date_position(all, oldest@, i as int),
        decreases dates.len() - i,
    {
        assert(all[i as int] == dates@[i as int]@);
        if same(dates[i].as_str(), oldest) {
            if i == 0 {
                return None;
            }
            return Some(dates[i - 1].clone());
        }
        i = i + 1;
    }
    None
}

// ---------------------------------------------------------------------------
// Client
// ---------------------------------------------------------------------------

/// A person's client.
pub struct MeetingClient {
    pub display_name: String,
    pub session_token: String,
    pub room_name: Option<String>,
    pub room_root: Option<String>,
    pub join_spec: Option<JoinSpec>,
    /// What the person has seen.
    pub cursor: Option<(String, u64)>,
    /// The messages that are loaded.
    pub transcript: Vec<StoredTurn>,
    /// The earliest day that is loaded.
    pub oldest_loaded_date: Option<String>,
}

/// The newest day of a room, with its messages; nothing where the room has none
/// or it could not be read.
pub struct NewestDay {
    pub date: String,
    pub turns: Vec<StoredTurn>,
}

impl MeetingClient {
    /// The client says who it is as before.
    pub open spec fn same_person(&self, o: MeetingClient) -> bool {
        self.display_name@ == o.display_name@ && self.session_token@ == o.session_token@
    }

    /// The client is in the same room as before.
    pub open spec fn same_room(&self, o: MeetingClient) -> bool {
        &&& text_of(self.room_name) == text_of(o.room_name)
        &&& text_of(self.room_root) == text_of(o.room_root)
        &&& self.join_spec == o.join_spec
    }

    /// Exactly the newest day is loaded, and all of it was seen.
    pub open spec fn shows(&self, newest: Option<NewestDay>) -> bool {
        match newest {
            Some(day) => {
                &&& turns(self.transcript@) == turns(day.turns@)
                &&& text_of(self.oldest_loaded_date) == Some(day.date@)
                &&& cursor_view(self.cursor) == Some((day.date@, day.turns@.len() as u64))
            },
            None => {
                &&& self.transcript@.len() == 0
                &&& self.oldest_loaded_date is None
                &&& self.cursor is None
            },
        }
    }

    /// A client that is in no room yet.
    pub fn new(display_name: &str, token: &str) -> (r: Self)
        ensures
            r.display_name@ == display_name@,
            r.session_token@ == token@,
            r.room_name is None,
            r.room_root is None,
            r.join_spec is None,
            r.cursor is None,
            r.transcript@.len() == 0,
            r.oldest_loaded_date is None,
    {
        MeetingClient {
            display_name: copy(display_name),
            session_token: copy(token),
            room_name: None,
            room_root: None,
            join_spec: None,
            cursor: None,
            transcript: Vec::new(),
            oldest_loaded_date: None,
        }
    }

    pub fn room_name(&self) -> (r: Option<&String>)
        ensures
            match r {
                Some(s) => text_of(self.room_name) == Some(s@),
                None => self.room_name is None,
            },
    {
        self.room_name.as_ref()
    }

    /// The directory of the room that was joined.
    pub fn room_root(&self) -> (r: Option<&String>)
        ensures
            match r {
                Some(s) => text_of(self.room_root) == Some(s@),
                None => self.room_root is None,
            },
    {
        self.room_root.as_ref()
    }

    pub fn transcript(&self) -> (r: &Vec<StoredTurn>)
        ensures
            r@ == self.transcript@,
    {
        &self.transcript
    }

    /// What is sent to enter the room of a project.
    pub fn enter_project_args(&self, project: &str) -> (r: Json)
        ensures
            r@ == join_project_tree(self.display_name@, project@, self.session_token@),
    {
        four(
            ("client_info_name", self.display_name.as_str()),
            ("project", project),
            ("session_token", self.session_token.as_str()),
            ("kind", "human"),
        )
    }

    /// What is sent to enter a room by name.
    pub fn enter_named_args(&self, name: &str) -> (r: Json)
        ensures
            r@ == join_named_tree(name@, self.display_name@, self.session_token@),
    {
        four(
            ("name", name),
            ("client_info_name", self.display_name.as_str()),
            ("session_token", self.session_token.as_str()),
            ("kind", "human"),
        )
    }

    fn room_args(&self, extra: Option<(&str, &str)>) -> (r: Json)
        ensures
            r@ == new_room_tree(
                self.display_name@,
                self.session_token@,
                match extra {
                    Some((k, v)) => Some((k@, v@)),
                    None => None,
                },
            ),
    {
        let mut v: Vec<(String, Json)> = Vec::new();
        v.push((copy("client_info_name"), json_str(self.display_name.as_str())));
        v.push((copy("session_token"), json_str(self.session_token.as_str())));
        let ghost head = seq![
            str_entry("client_info_name"@, self.display_name@),
            str_entry("session_token"@, self.session_token@),
        ];
        match extra {
            Some((k, t)) => {
                v.push((copy(k), json_str(t)));
                proof {
                    pairs_index(v@);
                    assert(pairs(v@) =~= head.push(str_entry(k@, t@)));
                }
            },
            None => {
                proof {
                    pairs_index(v@);
                    assert(pairs(v@) =~= head);
                }
            },
        }
        Json::Object(v)
    }

    /// What is sent to make a room, with a topic if there is one.
    pub fn new_room_args(&self, topic: Option<&str>) -> (r: Json)
        ensures
            r@ == new_room_tree(
                self.display_name@,
                self.session_token@,
                match topic {
                    Some(t) => Some(("topic"@, t@)),
                    None => None,
                },
            ),
    {
        match topic {
            Some(t) => self.room_args(Some(("topic", t))),
            None => self.room_args(None),
        }
    }

    /// What is sent to open a room by name, or to make it.
    pub fn enter_or_create_args(&self, name: &str) -> (r: Json)
        ensures
            r@ == new_room_tree(
                self.display_name@,
                self.session_token@,
                Some(("name"@, name@)),
            ),
    {
        self.room_args(Some(("name", name)))
    }

    /// The client entered a room: it shows the newest day of it.
    pub fn entered(
        &mut self,
        name: &str,
        root: &str,
        spec: JoinSpec,
        newest: Option<NewestDay>,
    )
        ensures
            final(self).same_person(*old(self)),
            text_of(final(self).room_name) == Some(name@),
            text_of(final(self).room_root) == Some(root@),
            final(self).join_spec == Some(spec),
            final(self).shows(newest),
    {
        self.room_name = Some(copy(name));
        self.room_root = Some(copy(root));
        self.join_spec = Some(spec);
        self.reload_current_day(newest);
    }

    /// Shows the newest day.
    pub fn reload_current_day(&mut self, newest: Option<NewestDay>)
        ensures
            final(self).same_person(*old(self)),
            final(self).same_room(*old(self)),
            final(self).shows(newest),
    {
        self.transcript = Vec::new();
        self.oldest_loaded_date = None;
        self.cursor = None;
        match newest {
            Some(day) => {
                self.cursor = Some((day.date.clone(), day.turns.len() as u64));
                self.oldest_loaded_date = Some(day.date);
                self.transcript = day.turns;
            },
            None => {},
        }
    }

    /// The daemon answered a poll: moves the cursor, and says from where new
    /// messages are to be read, if there are any and there is a room.
    pub fn on_poll(&mut self, v: &Json) -> (read: Option<Option<(String, u64)>>)
        ensures
            final(self).same_person(*old(self)),
            final(self).same_room(*old(self)),
            final(self).transcript@ == old(self).transcript@,
            final(self).oldest_loaded_date == old(self).oldest_loaded_date,
            cursor_view(final(self).cursor) == advanced(cursor_view(old(self).cursor), v@),
            read is Some <==> !still_waiting(v@) && old(self).room_root is Some,
            read matches Some(since) ==> cursor_view(since) == cursor_view(old(self).cursor),
    {
        let since = copy_cursor(&self.cursor);
        match high_water_in(v) {
            Some(hw) => {
                self.cursor = Some(hw);
            },
            None => {},
        }
        if !is_waiting(v) && self.room_root.is_some() {
            Some(since)
        } else {
            None
        }
    }

    /// New messages were read.
    pub fn append(&mut self, new: &Vec<StoredTurn>)
        ensures
            turns(final(self).transcript@) == turns(old(self).transcript@) + turns(new@),
            final(self).same_person(*old(self)),
            final(self).same_room(*old(self)),
            final(self).cursor == old(self).cursor,
            final(self).oldest_loaded_date == old(self).oldest_loaded_date,
    {
        let mut i: usize = 0;
        assert(turns(self.transcript@) =~= turns(old(self).transcript@) + turns(new@).subrange(
            0,
            0,
        ));
        while i < new.len()
            invariant
                i <= new.len(),
                turns(self.transcript@) == turns(old(self).transcript@) + turns(new@).subrange(
                    0,
                    i as int,
                ),
                self.same_person(*old(self)),
                self.same_room(*old(self)),
                self.cursor == old(self).cursor,
                self.oldest_loaded_date == old(self).oldest_loaded_date,
            decreases new.len() - i,
        {
            let ghost before = self.transcript@;
            self.transcript.push(copy_turn(&new[i]));
            i = i + 1;
            assert(turns(self.transcript@) =~= turns(before).push(new@[i - 1]@));
            assert(turns(self.transcript@) =~= turns(old(self).transcript@) + turns(
                new@,
            ).subrange(0, i as int));
        }
        assert(turns(new@).subrange(0, i as int) =~= turns(new@));
    }

    /// The day to load to scroll back, given the days of the room; nothing at the
    /// earliest.
    pub fn prev_day_wanted(&self, dates: &Vec<String>) -> (r: Option<String>)
        ensures
            match r {
                Some(d) => self.room_root is Some && (text_of(self.oldest_loaded_date) matches Some(
                    o,
                ) && date_before(views(dates@), o) == Some(d@)),
                None => self.room_root is None || (match text_of(self.oldest_loaded_date) {
                    Some(o) => date_before(views(dates@), o) is None,
                    None => true,
                }),
            },
    {
        if self.room_root.is_none() {
            return None;
        }
        match &self.oldest_loaded_date {
            Some(oldest) => prev_day(dates, oldest.as_str()),
            None => None,
        }
    }

    /// The day before was read: it is the earliest now. A day that could not be
    /// read changes nothing. Gives its messages, to be put in front.
    pub fn prev_day_turns(&mut self, day: Option<NewestDay>) -> (r: Vec<StoredTurn>)
        ensures
            match day {
                Some(d) => text_of(final(self).oldest_loaded_date) == Some(d.date@) && r@
                    == d.turns@,
                None => final(self).oldest_loaded_date == old(self).oldest_loaded_date && r@.len()
                    == 0,
            },
            final(self).same_person(*old(self)),
            final(self).same_room(*old(self)),
            final(self).cursor == old(self).cursor,
            final(self).transcript@ == old(self).transcript@,
    {
        match day {
            Some(d) => {
                self.oldest_loaded_date = Some(d.date);
                d.turns
            },
            None => Vec::new(),
        }
    }
}

// ---------------------------------------------------------------------------
// Background poll
// ---------------------------------------------------------------------------

/// What a background poll does next.
pub enum PollAction {
    /// Ask again.
    Again,
    /// The room has ended.
    Stop,
    /// Read the messages since here, hand them on, and ask again.
    Read(Option<(String, u64)>),
}

/// A poll that runs on a connection of its own.
pub struct PollLoop {
    pub cursor: Option<(String, u64)>,
}

impl PollLoop {
    /// The daemon answered; `None` where the answer could not be understood.
    pub fn on_reply(&mut self, v: Option<&Json>) -> (a: PollAction)
        ensures
            match v {
                Some(j) => if has_ended(j@) {
                    a is Stop && *final(self) == *old(self)
                } else {
                    &&& cursor_view(final(self).cursor) == advanced(
                        cursor_view(old(self).cursor),
                        j@,
                    )
                    &&& if still_waiting(j@) {
                        a is Again
                    } else {
                        a matches PollAction::Read(since) && cursor_view(since) == cursor_view(
                            old(self).cursor,
                        )
                    }
                },
                None => a is Again && *final(self) == *old(self),
            },
    {
        match v {
            Some(j) => {
                if ended(j) {
                    return PollAction::Stop;
                }
                let since = copy_cursor(&self.cursor);
                match high_water_in(j) {
                    Some(hw) => {
                        self.cursor = Some(hw);
                    },
                    None => {},
                }
                if is_waiting(j) {
                    PollAction::Again
                } else {
                    PollAction::Read(since)
                }
            },
            None => PollAction::Again,
        }
    }

    /// Messages were read; `taken` tells whether the receiver, asked only where
    /// there are any, is still there. `true` to go on.
    pub fn after_read(&self, read: usize, taken: bool) -> (go_on: bool)
        ensures
            go_on == (read == 0 || taken),
    {
        read == 0 || taken
    }
}

// ---------------------------------------------------------------------------
// Laws
// ---------------------------------------------------------------------------

/// The last reply that says how far the room has come decides the cursor: a later
/// one that does not say so leaves it, and one that does replaces it.
pub proof fn the_last_reply_decides_the_cursor(cursor: Option<(Seq<char>, u64)>, first: JsonTree, second: JsonTree)
    ensures
        high_water(second) is None ==> advanced(advanced(cursor, first), second) == advanced(
            cursor,
            first,
        ),
        high_water(second) matches Some(hw) ==> advanced(advanced(cursor, first), second) == Some(
            hw,
        ),
{
}

/// Scrolling back walks through the days one by one: on distinct dates the day
/// before the day at a position is the day at the position before.
pub proof fn scrollback_walks_back(dates: Seq<Seq<char>>, i: int)
    requires
        0 <= i < dates.len(),
        forall|j: int, k: int| 0 <= j < k < dates.len() ==> #[trigger] dates[j] != #[trigger] dates[k],
    ensures
        i > 0 ==> date_before(dates, dates[i]) == Some(dates[i - 1]),
        i == 0 ==> date_before(dates, dates[i]) is None,
{
    date_position_finds(dates, i, 0);
}

proof fn date_position_finds(dates: Seq<Seq<char>>, i: int, k: int)
    requires
        0 <= k <= i < dates.len(),
        forall|j: int, k: int| 0 <= j < k < dates.len() ==> #[trigger] dates[j] != #[trigger] dates[k],
    ensures
        date_position(dates, dates[i], k) == Some(i),
    decreases i - k,
{
    if k < i {
        assert(dates[k] != dates[i]);
        date_position_finds(dates, i, k + 1);
    }
}

/// The rooms of a reply are listed in order; an entry without a name is left out.
pub proof fn rooms_are_listed_in_order(a: Seq<JsonTree>, b: Seq<JsonTree>, x: JsonTree)
    ensures
        rooms_of(a + b) == rooms_of(a) + rooms_of(b),
        string_in(field_of(Some(x), "name"@)) is None ==> rooms_of(seq![x]).len() == 0,
        room_of(x) is Some ==> rooms_of(seq![x]) == seq![room_of(x)->0],
    decreases b.len(),
{
    let none = Seq::<JsonTree>::empty();
    assert(seq![x].drop_last() =~= none);
    assert(seq![x].last() == x);
    assert(rooms_of(none) =~= Seq::empty());
    if string_in(field_of(Some(x), "name"@)) is None {
        assert(rooms_of(seq![x]) =~= Seq::empty());
    }
    if room_of(x) is Some {
        assert(rooms_of(seq![x]) =~= seq![room_of(x)->0]);
    }
    if b.len() == 0 {
        assert(a + b =~= a);
        assert(rooms_of(a) + rooms_of(b) =~= rooms_of(a));
    } else {
        rooms_are_listed_in_order(a, b.drop_last(), x);
        assert((a + b).drop_last() =~= a + b.drop_last());
        assert((a + b).last() == b.last());
        assert(rooms_of(a + b) =~= rooms_of(a) + rooms_of(b));
    }
}


/// A room is what its entry says; what the entry leaves out is empty.
pub proof fn a_room_is_what_its_entry_says(t: JsonTree, name: Seq<char>)
    requires
        string_in(field_of(Some(t), "name"@)) == Some(name),
    ensures
        room_of(t) matches Some(r) && {
            &&& r.name == name
            &&& r.project == string_in(field_of(Some(t), "project"@))
            &&& string_in(field_of(Some(t), "root"@)) matches Some(x) ==> r.root == x
            &&& string_in(field_of(Some(t), "root"@)) is None ==> r.root.len() == 0
            &&& string_in(field_of(Some(t), "topic"@)) matches Some(x) ==> r.topic == x
            &&& string_in(field_of(Some(t), "topic"@)) is None ==> r.topic.len() == 0
            &&& integer_in(field_of(Some(t), "participants"@)) matches Some(n) ==> r.participants
                == n
            &&& r.last_date == string_in(field_of(Some(t), "last_date"@))
        },
{
}

/// The first room with a name is found, and none where no room has it.
pub proof fn the_first_room_with_a_name_is_found(r: Seq<Room>, name: Seq<char>, k: int)
    ensures
        0 <= k < r.len() && r[k].name == name && (forall|j: int|
            0 <= j < k ==> (#[trigger] r[j]).name != name) ==> room_named(r, name, 0) == Some(k),
        (forall|j: int| 0 <= j < r.len() ==> (#[trigger] r[j]).name != name) ==> room_named(
            r,
            name,
            0,
        ) is None,
{
    room_is_first(r, name, 0);
}

proof fn room_is_first(r: Seq<Room>, name: Seq<char>, i: int)
    requires
        0 <= i,
    ensures
        match room_named(r, name, i) {
            Some(k) => i <= k < r.len() && r[k].name == name && forall|j: int|
                i <= j < k ==> (#[trigger] r[j]).name != name,
            None => forall|j: int| i <= j < r.len() ==> (#[trigger] r[j]).name != name,
        },
    decreases r.len() - i,
{
    if i < r.len() && r[i].name != name {
        room_is_first(r, name, i + 1);
    }
}

/// A client joins under its own name and token, the room of its project or a room by
/// name.
pub proof fn a_client_says_who_it_is(name: Seq<char>, display_name: Seq<char>, token: Seq<char>)
    ensures
        member(join_project_tree(display_name, name, token), "client_info_name"@) == Some(
            JsonTree::Str(display_name),
        ),
        member(join_project_tree(display_name, name, token), "project"@) == Some(
            JsonTree::Str(name),
        ),
        member(join_project_tree(display_name, name, token), "session_token"@) == Some(
            JsonTree::Str(token),
        ),
        member(join_project_tree(display_name, name, token), "kind"@) == Some(
            JsonTree::Str("human"@),
        ),
        member(join_named_tree(name, display_name, token), "name"@) == Some(JsonTree::Str(name)),
        member(join_named_tree(name, display_name, token), "client_info_name"@) == Some(
            JsonTree::Str(display_name),
        ),
        member(join_named_tree(name, display_name, token), "session_token"@) == Some(
            JsonTree::Str(token),
        ),
        member(join_named_tree(name, display_name, token), "kind"@) == Some(
            JsonTree::Str("human"@),
        ),
{
    join_keys_differ();
    let e = seq![
        str_entry("client_info_name"@, display_name),
        str_entry("project"@, name),
        str_entry("session_token"@, token),
        str_entry("kind"@, "human"@),
    ];
    an_entry_is_a_member(e, 0);
    an_entry_is_a_member(e, 1);
    an_entry_is_a_member(e, 2);
    an_entry_is_a_member(e, 3);
    let f = seq![
        str_entry("name"@, name),
        str_entry("client_info_name"@, display_name),
        str_entry("session_token"@, token),
        str_entry("kind"@, "human"@),
    ];
    an_entry_is_a_member(f, 0);
    an_entry_is_a_member(f, 1);
    an_entry_is_a_member(f, 2);
    an_entry_is_a_member(f, 3);
}

/// Keys that stand in one object differ.
proof fn join_keys_differ()
    ensures
        "client_info_name"@ != "project"@,
        "client_info_name"@ != "session_token"@,
        "client_info_name"@ != "kind"@,
        "project"@ != "session_token"@,
        "project"@ != "kind"@,
        "session_token"@ != "kind"@,
        "name"@ != "client_info_name"@,
        "name"@ != "session_token"@,
        "name"@ != "kind"@,
        "since_date"@ != "since_n"@,
{
    reveal_strlit("client_info_name");
    reveal_strlit("project");
    reveal_strlit("session_token");
    reveal_strlit("kind");
    reveal_strlit("name");
    reveal_strlit("since_date");
    reveal_strlit("since_n");
    assert("client_info_name"@.len() != "project"@.len());
    assert("client_info_name"@.len() != "session_token"@.len());
    assert("client_info_name"@.len() != "kind"@.len());
    assert("project"@.len() != "session_token"@.len());
    assert("project"@.len() != "kind"@.len());
    assert("session_token"@.len() != "kind"@.len());
    assert("name"@.len() != "client_info_name"@.len());
    assert("name"@.len() != "session_token"@.len());
    assert("name"@[0] != "kind"@[0]);
    assert("since_date"@.len() != "since_n"@.len());
}

/// A client says what it has seen: the day and the messages of that day, or nothing.
pub proof fn a_client_says_what_it_has_seen(d: Seq<char>, n: u64)
    ensures
        member(since_tree(Some((d, n))), "since_date"@) == Some(JsonTree::Str(d)),
        member(since_tree(Some((d, n))), "since_n"@) == Some(JsonTree::Number(number_of(n))),
        member(since_tree(None), "since_date"@) is None,
        member(since_tree(None), "since_n"@) is None,
{
    join_keys_differ();
    let e = seq![str_entry("since_date"@, d), ("since_n"@, JsonTree::Number(number_of(n)))];
    an_entry_is_a_member(e, 0);
    an_entry_is_a_member(e, 1);
    without_an_entry_no_member(Seq::empty(), "since_date"@);
    without_an_entry_no_member(Seq::empty(), "since_n"@);
}

/// A reply says how far the room has come only where it says it in full, whether
/// something is new, and whether the room has ended; what it does not say is neither.
pub proof fn a_reply_is_taken_at_its_word(v: JsonTree, cursor: Option<(Seq<char>, u64)>)
    ensures
        ({
            let hw = field_of(Some(v), "high_water"@);
            &&& string_in(field_of(hw, "date"@)) is Some && integer_in(field_of(hw, "n"@)) is Some
                ==> advanced(cursor, v) == Some(
                (string_in(field_of(hw, "date"@))->0, integer_in(field_of(hw, "n"@))->0),
            )
            &&& string_in(field_of(hw, "date"@)) is None || integer_in(field_of(hw, "n"@)) is None
                ==> advanced(cursor, v) == cursor
        }),
        bool_in(field_of(Some(v), "still_waiting"@)) == Some(false) ==> !still_waiting(v),
        bool_in(field_of(Some(v), "still_waiting"@)) != Some(false) ==> still_waiting(v),
        has_ended(v) <==> bool_in(field_of(Some(v), "ended"@)) == Some(true),
{
}

/// A client that makes a room says who it is, and what the room is called or is
/// about, where it says so.
pub proof fn a_new_room_is_asked_for(
    display_name: Seq<char>,
    token: Seq<char>,
    key: Seq<char>,
    value: Seq<char>,
)
    requires
        key != "client_info_name"@,
        key != "session_token"@,
    ensures
        member(new_room_tree(display_name, token, None), "client_info_name"@) == Some(
            JsonTree::Str(display_name),
        ),
        member(new_room_tree(display_name, token, None), "session_token"@) == Some(
            JsonTree::Str(token),
        ),
        member(new_room_tree(display_name, token, None), key) is None,
        member(new_room_tree(display_name, token, Some((key, value))), key) == Some(
            JsonTree::Str(value),
        ),
        member(new_room_tree(display_name, token, Some((key, value))), "client_info_name"@) == Some(
            JsonTree::Str(display_name),
        ),
{
    join_keys_differ();
    let head = seq![
        str_entry("client_info_name"@, display_name),
        str_entry("session_token"@, token),
    ];
    let all = head.push(str_entry(key, value));
    an_entry_is_a_member(head, 0);
    an_entry_is_a_member(head, 1);
    without_an_entry_no_member(head, key);
    an_entry_is_a_member(all, 0);
    an_entry_is_a_member(all, 2);
}

/// The rooms of a reply are those that it lists; a reply that lists none has none.
pub proof fn a_reply_lists_its_rooms(v: JsonTree, items: Seq<JsonTree>)
    ensures
        field_of(Some(v), "rooms"@) == Some(JsonTree::Array(items)) ==> listed_rooms(v) == rooms_of(
            items,
        ),
        field_of(Some(v), "rooms"@) is None ==> listed_rooms(v).len() == 0,
{
}

/// A client shows the newest day alone, all of it seen; in a room without messages it
/// shows nothing.
pub proof fn a_client_shows_the_newest_day(c: MeetingClient, day: NewestDay)
    requires
        day.turns@.len() <= u64::MAX,
    ensures
        c.shows(Some(day)) ==> turns(c.transcript@) == turns(day.turns@) && text_of(
            c.oldest_loaded_date,
        ) == Some(day.date@) && (cursor_view(c.cursor) matches Some((d, n)) && d == day.date@ && n
            == day.turns@.len()),
        c.shows(None) ==> c.transcript@.len() == 0 && c.oldest_loaded_date is None && c.cursor is None,
{
}

} // verus!
