//! JSON values: a tree of plain values, and the text that stands for it.

use vstd::prelude::*;

verus! {

// ---------------------------------------------------------------------------
// Mathematical model
// ---------------------------------------------------------------------------

/// A JSON value. An object is a finite map: a key occurs once.
pub enum JsonTree {
    Null,
    Bool(bool),
    Number(serde_json::Number),
    Str(Seq<char>),
    Array(Seq<JsonTree>),
    Object(Map<Seq<char>, JsonTree>),
}

/// The map that a list of entries stands for: a later entry for a key replaces
/// an earlier one.
pub open spec fn entries_map(s: Seq<(Seq<char>, JsonTree)>) -> Map<Seq<char>, JsonTree>
    decreases s.len(),
{
    if s.len() == 0 {
        Map::empty()
    } else {
        entries_map(s.drop_last()).insert(s.last().0, s.last().1)
    }
}

/// The member `key` of an object; nothing for any other value.
pub open spec fn member(t: JsonTree, key: Seq<char>) -> Option<JsonTree> {
    match t {
        JsonTree::Object(m) => if m.contains_key(key) {
            Some(m[key])
        } else {
            None
        },
        _ => None,
    }
}

/// The text of a string value; nothing for any other value.
pub open spec fn string_in(t: Option<JsonTree>) -> Option<Seq<char>> {
    match t {
        Some(JsonTree::Str(s)) => Some(s),
        _ => None,
    }
}

/// The items of an array; nothing for any other value.
pub open spec fn items_in(t: Option<JsonTree>) -> Option<Seq<JsonTree>> {
    match t {
        Some(JsonTree::Array(s)) => Some(s),
        _ => None,
    }
}

/// The value of a number that is a non-negative integer below 2^64; nothing
/// for any other value.
pub open spec fn integer_in(t: Option<JsonTree>) -> Option<u64> {
    match t {
        Some(JsonTree::Number(n)) => number_as_u64(n),
        _ => None,
    }
}

/// The member `key` of an object, if there is an object.
pub open spec fn field_of(t: Option<JsonTree>, key: Seq<char>) -> Option<JsonTree> {
    match t {
        Some(t) => member(t, key),
        None => None,
    }
}

/// Item `i` of an array, if there is an array that long.
pub open spec fn item_of(t: Option<JsonTree>, i: int) -> Option<JsonTree> {
    match t {
        Some(JsonTree::Array(s)) => if 0 <= i < s.len() {
            Some(s[i])
        } else {
            None
        },
        _ => None,
    }
}

pub open spec fn bool_in(t: Option<JsonTree>) -> Option<bool> {
    match t {
        Some(JsonTree::Bool(b)) => Some(b),
        _ => None,
    }
}

// ---------------------------------------------------------------------------
// serde_json
// ---------------------------------------------------------------------------

/// `serde_json::Value`, opaque.
#[verifier::external_type_specification]
#[verifier::external_body]
pub struct ExValue(serde_json::Value);

/// `serde_json::Number`, opaque.
#[verifier::external_type_specification]
#[verifier::external_body]
pub struct ExNumber(serde_json::Number);

/// What a `serde_json::Value` holds.
pub uninterp spec fn value_tree(v: serde_json::Value) -> JsonTree;

/// What `serde_json::Number::as_u64` gives.
pub uninterp spec fn number_as_u64(n: serde_json::Number) -> Option<u64>;

/// What `serde_json::Number::from` makes of an integer.
pub uninterp spec fn number_of(n: u64) -> serde_json::Number;

/// What `serde_json::from_str::<Value>` reads in a text; `None` where it fails.
pub uninterp spec fn parsed(text: Seq<char>) -> Option<JsonTree>;

/// The compact text that `serde_json::Value` displays as.
pub uninterp spec fn rendered(t: JsonTree) -> Seq<char>;

/// One level of a `serde_json::Value`, its children still whole.
pub enum JsonNode {
    Null,
    Bool(bool),
    Number(serde_json::Number),
    Str(String),
    Array(Vec<serde_json::Value>),
    Object(Vec<(String, serde_json::Value)>),
}

/// What a node stands for.
pub open spec fn node_tree(n: JsonNode) -> JsonTree {
    match n {
        JsonNode::Null => JsonTree::Null,
        JsonNode::Bool(b) => JsonTree::Bool(b),
        JsonNode::Number(n) => JsonTree::Number(n),
        JsonNode::Str(s) => JsonTree::Str(s@),
        JsonNode::Array(v) => JsonTree::Array(
            Seq::new(v@.len(), |i: int| value_tree(v@[i])),
        ),
        JsonNode::Object(v) => JsonTree::Object(
            entries_map(Seq::new(v@.len(), |i: int| (v@[i].0@, value_tree(v@[i].1)))),
        ),
    }
}

/// `serde_json::from_str::<Value>`: the value that the text stands for, under
/// the name `parsed`.
#[verifier::external_body]
fn read_value(text: &str) -> (r: Option<serde_json::Value>)
    ensures
        match r {
            Some(v) => parsed(text@) == Some(value_tree(v)),
            None => parsed(text@) is None,
        },
{
    serde_json::from_str::<serde_json::Value>(text).ok()
}

/// Takes a `serde_json::Value` apart by one level. An object hands out each of
/// its entries once.
#[verifier::external_body]
fn open_value(v: serde_json::Value) -> (r: JsonNode)
    ensures
        node_tree(r) == value_tree(v),
        match r {
            JsonNode::Object(w) => forall|i: int, j: int|
                0 <= i < j < w@.len() ==> (#[trigger] w@[i]).0@ != (#[trigger] w@[j]).0@,
            _ => true,
        },
{
    match v {
        serde_json::Value::Null => JsonNode::Null,
        serde_json::Value::Bool(b) => JsonNode::Bool(b),
        serde_json::Value::Number(n) => JsonNode::Number(n),
        serde_json::Value::String(s) => JsonNode::Str(s),
        serde_json::Value::Array(a) => JsonNode::Array(a),
        serde_json::Value::Object(m) => JsonNode::Object(m.into_iter().collect()),
    }
}

/// Puts a `serde_json::Value` together from one level. Collecting entries into
/// a `serde_json::Map` keeps the last entry of each key.
#[verifier::external_body]
fn close_value(n: JsonNode) -> (r: serde_json::Value)
    ensures
        value_tree(r) == node_tree(n),
{
    match n {
        JsonNode::Null => serde_json::Value::Null,
        JsonNode::Bool(b) => serde_json::Value::Bool(b),
        JsonNode::Number(n) => serde_json::Value::Number(n),
        JsonNode::Str(s) => serde_json::Value::String(s),
        JsonNode::Array(a) => serde_json::Value::Array(a),
        JsonNode::Object(w) => serde_json::Value::Object(w.into_iter().collect()),
    }
}

/// A number shows no fraction and no exponent.
pub open spec fn is_whole(n: serde_json::Number) -> bool {
    let s = rendered(JsonTree::Number(n));
    forall|i: int| 0 <= i < s.len() ==> '0' <= #[trigger] s[i] <= '9' || s[i] == '-'
}

/// The key that `serde_json` keeps for itself: what it reads in an object that
/// begins with it need not be that object.
pub open spec fn is_reserved(key: Seq<char>) -> bool {
    key == "$serde_json::private::RawValue"@
}

/// A value that its compact text gives back: its numbers are whole, no object
/// holds the reserved key, and at most `depth` arrays and objects stand inside
/// one another.
pub open spec fn readable(t: JsonTree, depth: nat) -> bool
    decreases depth,
{
    match t {
        JsonTree::Number(n) => is_whole(n),
        JsonTree::Array(items) => depth > 0 && forall|i: int|
            0 <= i < items.len() ==> readable(#[trigger] items[i], (depth - 1) as nat),
        JsonTree::Object(m) => depth > 0 && forall|k: Seq<char>| #[trigger]
            m.contains_key(k) ==> !is_reserved(k) && readable(m[k], (depth - 1) as nat),
        _ => true,
    }
}

/// `serde_json::Value::to_string`: the compact text, under the name `rendered`.
/// The keys of an object come in the order of a `BTreeMap`, so that the text
/// depends on the value alone. An object stands in braces. `from_str` reads the
/// value back, but for what it would round (a fraction), take for a raw value (an
/// object with the reserved key) or refuse (more than 127 arrays and objects
/// inside one another).
#[verifier::external_body]
fn value_text(v: &serde_json::Value) -> (r: String)
    ensures
        r@ == rendered(value_tree(*v)),
        value_tree(*v) is Object ==> r@.len() >= 2 && r@[0] == '{' && r@.last() == '}',
        readable(value_tree(*v), 127) ==> parsed(r@) == Some(value_tree(*v)),
{
    v.to_string()
}

/// `serde_json::Number::as_u64`, under the name `number_as_u64`.
#[verifier::external_body]
fn number_u64(n: &serde_json::Number) -> (r: Option<u64>)
    ensures
        r == number_as_u64(*n),
{
    n.as_u64()
}

/// `serde_json::Number::from`, under the name `number_of`: a number whose
/// `as_u64` is the integer it was made from.
#[verifier::external_body]
fn number_from(n: u64) -> (r: serde_json::Number)
    ensures
        r == number_of(n),
        number_as_u64(r) == Some(n),
{
    serde_json::Number::from(n)
}

/// `serde_json::Number::clone`: the same number.
#[verifier::external_body]
fn number_clone(n: &serde_json::Number) -> (r: serde_json::Number)
    ensures
        r == *n,
{
    n.clone()
}

// ---------------------------------------------------------------------------
// Values of the library
// ---------------------------------------------------------------------------

/// A JSON value.
pub enum Json {
    Null,
    Bool(bool),
    Number(serde_json::Number),
    Str(String),
    Array(Vec<Json>),
    Object(Vec<(String, Json)>),
}

/// What a value stands for.
pub open spec fn tree_of(j: Json) -> JsonTree
    decreases j,
{
    match j {
        Json::Null => JsonTree::Null,
        Json::Bool(b) => JsonTree::Bool(b),
        Json::Number(n) => JsonTree::Number(n),
        Json::Str(s) => JsonTree::Str(s@),
        Json::Array(v) => JsonTree::Array(trees(v@)),
        Json::Object(v) => JsonTree::Object(entries_map(pairs(v@))),
    }
}

/// What the items of a list stand for.
pub open spec fn trees(s: Seq<Json>) -> Seq<JsonTree>
    decreases s,
{
    if s.len() == 0 {
        Seq::empty()
    } else {
        trees(s.drop_last()).push(tree_of(s.last()))
    }
}

/// The keys of a list of entries, each with what its value stands for.
pub open spec fn pairs(s: Seq<(String, Json)>) -> Seq<(Seq<char>, JsonTree)>
    decreases s,
{
    if s.len() == 0 {
        Seq::empty()
    } else {
        pairs(s.drop_last()).push((s.last().0@, tree_of(s.last().1)))
    }
}

impl View for Json {
    type V = JsonTree;

    open spec fn view(&self) -> JsonTree {
        tree_of(*self)
    }
}

// ---------------------------------------------------------------------------
// Facts about entries
// ---------------------------------------------------------------------------

/// The last entry for a key decides; a key without an entry is not in the map.
proof fn entries_lookup(s: Seq<(Seq<char>, JsonTree)>, key: Seq<char>, at: int)
    requires
        -1 <= at < s.len(),
        at >= 0 ==> s[at].0 == key,
        forall|j: int| at < j < s.len() ==> (#[trigger] s[j]).0 != key,
    ensures
        at >= 0 ==> entries_map(s).contains_key(key) && entries_map(s)[key] == s[at].1,
        at < 0 ==> !entries_map(s).contains_key(key),
    decreases s.len(),
{
    if s.len() == 0 {
    } else if at == s.len() - 1 {
    } else {
        assert(s.last() == s[s.len() - 1]);
        assert forall|j: int| at < j < s.drop_last().len() implies (
        #[trigger] s.drop_last()[j]).0 != key by {
            assert(s.drop_last()[j] == s[j]);
        }
        entries_lookup(s.drop_last(), key, at);
    }
}

/// Every value of the map comes from an entry.
proof fn entries_origin(s: Seq<(Seq<char>, JsonTree)>, key: Seq<char>) -> (at: int)
    requires
        entries_map(s).contains_key(key),
    ensures
        0 <= at < s.len(),
        s[at].0 == key,
        entries_map(s)[key] == s[at].1,
    decreases s.len(),
{
    if s.last().0 == key {
        s.len() - 1
    } else {
        let at = entries_origin(s.drop_last(), key);
        assert(s.drop_last()[at] == s[at]);
        at
    }
}

// ---------------------------------------------------------------------------
// Reading and writing
// ---------------------------------------------------------------------------

/// `trees` item by item.
pub proof fn trees_index(s: Seq<Json>)
    ensures
        trees(s).len() == s.len(),
        forall|i: int| 0 <= i < s.len() ==> #[trigger] trees(s)[i] == s[i]@,
    decreases s.len(),
{
    if s.len() > 0 {
        trees_index(s.drop_last());
    }
}

/// `pairs` entry by entry.
pub proof fn pairs_index(s: Seq<(String, Json)>)
    ensures
        pairs(s).len() == s.len(),
        forall|i: int| 0 <= i < s.len() ==> #[trigger] pairs(s)[i] == (s[i].0@, s[i].1@),
    decreases s.len(),
{
    if s.len() > 0 {
        pairs_index(s.drop_last());
    }
}

/// An entry of an object is smaller than the object.
proof fn entries_are_smaller(t: JsonTree, es: Seq<(Seq<char>, JsonTree)>)
    requires
        t == JsonTree::Object(entries_map(es)),
        forall|i: int, j: int| 0 <= i < j < es.len() ==> (#[trigger] es[i]).0 != (#[trigger] es[j]).0,
    ensures
        forall|i: int| 0 <= i < es.len() ==> decreases_to!(t => (#[trigger] es[i]).1),
{
    assert forall|i: int| 0 <= i < es.len() implies decreases_to!(t => (#[trigger] es[i]).1) by {
        entries_lookup(es, es[i].0, i);
        assert(decreases_to!(t => t->Object_0[es[i].0]));
    }
}

fn from_value(v: serde_json::Value) -> (r: Json)
    ensures
        r@ == value_tree(v),
    decreases value_tree(v),
{
    let ghost whole = value_tree(v);
    match open_value(v) {
        JsonNode::Null => Json::Null,
        JsonNode::Bool(b) => Json::Bool(b),
        JsonNode::Number(n) => Json::Number(n),
        JsonNode::Str(s) => Json::Str(s),
        JsonNode::Array(w) => {
            let ghost ts = Seq::new(w@.len(), |i: int| value_tree(w@[i]));
            assert(ts == whole->Array_0);
            let mut out: Vec<Json> = Vec::new();
            for x in it: w
                invariant
                    it.seq() == w@,
                    whole == value_tree(v),
                    whole == JsonTree::Array(ts),
                    ts == Seq::new(w@.len(), |i: int| value_tree(w@[i])),
                    out@.len() == it.index(),
                    forall|i: int| 0 <= i < out@.len() ==> (#[trigger] out@[i])@ == ts[i],
            {
                assert(ts[it.index() as int] == value_tree(x));
                assert(decreases_to!(whole->Array_0 => ts[it.index() as int]));
                assert(decreases_to!(whole => whole->Array_0));
                out.push(from_value(x));
            }
            proof {
                trees_index(out@);
                assert(trees(out@) =~= ts);
            }
            Json::Array(out)
        },
        JsonNode::Object(w) => {
            let ghost es = Seq::new(w@.len(), |i: int| (w@[i].0@, value_tree(w@[i].1)));
            let mut out: Vec<(String, Json)> = Vec::new();
            assert(entries_map(es) == whole->Object_0);
            proof {
                assert forall|i: int, j: int| 0 <= i < j < es.len() implies (#[trigger] es[i]).0 != (
                #[trigger] es[j]).0 by {
                    assert(w@[i].0@ != w@[j].0@);
                }
                entries_are_smaller(whole, es);
            }
            for x in it: w
                invariant
                    it.seq() == w@,
                    whole == value_tree(v),
                    es == Seq::new(w@.len(), |i: int| (w@[i].0@, value_tree(w@[i].1))),
                    forall|i: int|
                        0 <= i < es.len() ==> decreases_to!(whole => (#[trigger] es[i]).1),
                    out@.len() == it.index(),
                    forall|i: int|
                        0 <= i < out@.len() ==> (#[trigger] out@[i]).0@ == es[i].0 && out@[i].1@
                            == es[i].1,
            {
                assert(es[it.index() as int] == (x.0@, value_tree(x.1)));
                out.push((x.0, from_value(x.1)));
            }
            proof {
                pairs_index(out@);
                assert(pairs(out@) =~= es);
            }
            Json::Object(out)
        },
    }
}

fn to_value(j: &Json) -> (r: serde_json::Value)
    ensures
        value_tree(r) == j@,
    decreases j,
{
    match j {
        Json::Null => close_value(JsonNode::Null),
        Json::Bool(b) => close_value(JsonNode::Bool(*b)),
        Json::Number(n) => close_value(JsonNode::Number(number_clone(n))),
        Json::Str(s) => close_value(JsonNode::Str(s.clone())),
        Json::Array(v) => {
            let mut out: Vec<serde_json::Value> = Vec::new();
            let mut i: usize = 0;
            while i < v.len()
                invariant
                    i <= v.len(),
                    *j == Json::Array(*v),
                    out@.len() == i,
                    forall|k: int| 0 <= k < i ==> value_tree(#[trigger] out@[k]) == v@[k]@,
                decreases v.len() - i,
            {
                assert(decreases_to!(*j => j->Array_0));
                assert(decreases_to!(*v => v@));
                assert(decreases_to!(v@ => v@[i as int]));
                out.push(to_value(&v[i]));
                i = i + 1;
            }
            proof {
                trees_index(v@);
                assert(Seq::new(out@.len(), |i: int| value_tree(out@[i])) =~= trees(v@));
            }
            close_value(JsonNode::Array(out))
        },
        Json::Object(v) => {
            let mut out: Vec<(String, serde_json::Value)> = Vec::new();
            let mut i: usize = 0;
            while i < v.len()
                invariant
                    i <= v.len(),
                    *j == Json::Object(*v),
                    out@.len() == i,
                    forall|k: int|
                        0 <= k < i ==> (#[trigger] out@[k]).0@ == v@[k].0@ && value_tree(out@[k].1)
                            == v@[k].1@,
                decreases v.len() - i,
            {
                assert(decreases_to!(*j => j->Object_0));
                assert(decreases_to!(*v => v@));
                assert(decreases_to!(v@ => v@[i as int]));
                assert(decreases_to!(v@[i as int] => v@[i as int].1));
                out.push((v[i].0.clone(), to_value(&v[i].1)));
                i = i + 1;
            }
            proof {
                pairs_index(v@);
                assert(Seq::new(out@.len(), |i: int| (out@[i].0@, value_tree(out@[i].1)))
                    =~= pairs(v@));
            }
            close_value(JsonNode::Object(out))
        },
    }
}

/// The value that a JSON text stands for, `None` where the text is not JSON.
pub fn parse_json(text: &str) -> (r: Option<Json>)
    ensures
        match r {
            Some(j) => parsed(text@) == Some(j@),
            None => parsed(text@) is None,
        },
{
    match read_value(text) {
        Some(v) => Some(from_value(v)),
        None => None,
    }
}

impl Json {
    /// A value that stands for the same.
    pub fn copy(&self) -> (r: Json)
        ensures
            r@ == self@,
        decreases self,
    {
        match self {
            Json::Null => Json::Null,
            Json::Bool(b) => Json::Bool(*b),
            Json::Number(n) => Json::Number(number_clone(n)),
            Json::Str(s) => Json::Str(s.clone()),
            Json::Array(v) => {
                let mut out: Vec<Json> = Vec::new();
                let mut i: usize = 0;
                while i < v.len()
                    invariant
                        i <= v.len(),
                        *self == Json::Array(*v),
                        out@.len() == i,
                        forall|k: int| 0 <= k < i ==> (#[trigger] out@[k])@ == v@[k]@,
                    decreases v.len() - i,
                {
                    assert(decreases_to!(*self => self->Array_0));
                    assert(decreases_to!(*v => v@));
                    assert(decreases_to!(v@ => v@[i as int]));
                    out.push(v[i].copy());
                    i = i + 1;
                }
                proof {
                    trees_index(v@);
                    trees_index(out@);
                    assert(trees(out@) =~= trees(v@));
                }
                Json::Array(out)
            },
            Json::Object(v) => {
                let mut out: Vec<(String, Json)> = Vec::new();
                let mut i: usize = 0;
                while i < v.len()
                    invariant
                        i <= v.len(),
                        *self == Json::Object(*v),
                        out@.len() == i,
                        forall|k: int|
                            0 <= k < i ==> (#[trigger] out@[k]).0@ == v@[k].0@ && out@[k].1@
                                == v@[k].1@,
                    decreases v.len() - i,
                {
                    assert(decreases_to!(*self => self->Object_0));
                    assert(decreases_to!(*v => v@));
                    assert(decreases_to!(v@ => v@[i as int]));
                    assert(decreases_to!(v@[i as int] => v@[i as int].1));
                    out.push((v[i].0.clone(), v[i].1.copy()));
                    i = i + 1;
                }
                proof {
                    pairs_index(v@);
                    pairs_index(out@);
                    assert(pairs(out@) =~= pairs(v@));
                }
                Json::Object(out)
            },
        }
    }

    /// The compact text of the value.
    pub fn to_text(&self) -> (r: String)
        ensures
            r@ == rendered(self@),
            self@ is Object ==> r@.len() >= 2 && r@[0] == '{' && r@.last() == '}',
            readable(self@, 127) ==> parsed(r@) == Some(self@),
    {
        value_text(&to_value(self))
    }

    /// The member `key` of an object.
    pub fn get(&self, key: &str) -> (r: Option<&Json>)
        ensures
            match r {
                Some(j) => member(self@, key@) == Some(j@),
                None => member(self@, key@) is None,
            },
    {
        match self {
            Json::Object(v) => {
                proof {
                    pairs_index(v@);
                }
                let mut i: usize = v.len();
                while i > 0
                    invariant
                        i <= v.len(),
                        self@ == JsonTree::Object(entries_map(pairs(v@))),
                        forall|j: int| i <= j < v.len() ==> (#[trigger] v@[j]).0@ != key@,
                    decreases i,
                {
                    i = i - 1;
                    if crate::text::same(v[i].0.as_str(), key) {
                        proof {
                            pairs_index(v@);
                            assert forall|j: int| i < j < pairs(v@).len() implies (
                            #[trigger] pairs(v@)[j]).0 != key@ by {
                                assert(v@[j].0@ != key@);
                            }
                            entries_lookup(pairs(v@), key@, i as int);
                        }
                        return Some(&v[i].1);
                    }
                }
                proof {
                    assert forall|j: int| -1 < j < pairs(v@).len() implies (
                    #[trigger] pairs(v@)[j]).0 != key@ by {
                        assert(v@[j].0@ != key@);
                    }
                    entries_lookup(pairs(v@), key@, -1);
                }
                None
            },
            _ => None,
        }
    }

    pub fn as_str(&self) -> (r: Option<&String>)
        ensures
            match r {
                Some(s) => self@ == JsonTree::Str(s@),
                None => !(self@ is Str),
            },
    {
        match self {
            Json::Str(s) => Some(s),
            _ => None,
        }
    }

    pub fn as_u64(&self) -> (r: Option<u64>)
        ensures
            r == integer_in(Some(self@)),
    {
        match self {
            Json::Number(n) => number_u64(n),
            _ => None,
        }
    }

    pub fn as_bool(&self) -> (r: Option<bool>)
        ensures
            r == bool_in(Some(self@)),
    {
        match self {
            Json::Bool(b) => Some(*b),
            _ => None,
        }
    }

    pub fn as_array(&self) -> (r: Option<&Vec<Json>>)
        ensures
            match r {
                Some(v) => self@ == JsonTree::Array(trees(v@)),
                None => !(self@ is Array),
            },
    {
        match self {
            Json::Array(v) => Some(v),
            _ => None,
        }
    }

    pub fn is_object(&self) -> (r: bool)
        ensures
            r == (self@ is Object),
    {
        match self {
            Json::Object(_) => true,
            _ => false,
        }
    }

    /// The string member `key` of an object.
    pub fn get_str(&self, key: &str) -> (r: Option<&String>)
        ensures
            match r {
                Some(s) => string_in(member(self@, key@)) == Some(s@),
                None => string_in(member(self@, key@)) is None,
            },
    {
        match self.get(key) {
            Some(j) => j.as_str(),
            None => None,
        }
    }

    /// The integer member `key` of an object.
    pub fn get_u64(&self, key: &str) -> (r: Option<u64>)
        ensures
            r == integer_in(member(self@, key@)),
    {
        match self.get(key) {
            Some(j) => j.as_u64(),
            None => None,
        }
    }

    /// The array member `key` of an object.
    pub fn get_array(&self, key: &str) -> (r: Option<&Vec<Json>>)
        ensures
            match r {
                Some(v) => items_in(member(self@, key@)) == Some(trees(v@)),
                None => items_in(member(self@, key@)) is None,
            },
    {
        match self.get(key) {
            Some(j) => j.as_array(),
            None => None,
        }
    }
}

/// A value, where there is one.
pub open spec fn maybe(j: Option<&Json>) -> Option<JsonTree> {
    match j {
        Some(j) => Some(j@),
        None => None,
    }
}

/// The member `key` of an object, if there is an object.
pub fn field<'a>(j: Option<&'a Json>, key: &str) -> (r: Option<&'a Json>)
    ensures
        maybe(r) == field_of(maybe(j), key@),
{
    match j {
        Some(j) => j.get(key),
        None => None,
    }
}

/// Item `i` of an array, if there is an array that long.
pub fn item<'a>(j: Option<&'a Json>, i: usize) -> (r: Option<&'a Json>)
    ensures
        maybe(r) == item_of(maybe(j), i as int),
{
    match j {
        Some(Json::Array(v)) => {
            proof {
                trees_index(v@);
            }
            if i < v.len() {
                Some(&v[i])
            } else {
                None
            }
        },
        _ => None,
    }
}

/// The text of a string value, if there is one.
pub fn text_in<'a>(j: Option<&'a Json>) -> (r: Option<&'a String>)
    ensures
        match r {
            Some(s) => string_in(maybe(j)) == Some(s@),
            None => string_in(maybe(j)) is None,
        },
{
    match j {
        Some(j) => j.as_str(),
        None => None,
    }
}

/// The value of an integer, if there is one.
pub fn u64_in(j: Option<&Json>) -> (r: Option<u64>)
    ensures
        r == integer_in(maybe(j)),
{
    match j {
        Some(j) => j.as_u64(),
        None => None,
    }
}

/// The items of an array, if there is one.
pub fn array_in<'a>(j: Option<&'a Json>) -> (r: Option<&'a Vec<Json>>)
    ensures
        match r {
            Some(v) => items_in(maybe(j)) == Some(trees(v@)),
            None => items_in(maybe(j)) is None,
        },
{
    match j {
        Some(j) => j.as_array(),
        None => None,
    }
}

/// The JSON number of an integer.
pub fn json_u64(n: u64) -> (r: Json)
    ensures
        r@ == JsonTree::Number(number_of(n)),
        integer_in(Some(r@)) == Some(n),
{
    Json::Number(number_from(n))
}

/// The JSON string of a text.
pub fn json_str(s: &str) -> (r: Json)
    ensures
        r@ == JsonTree::Str(s@),
{
    Json::Str(s.to_owned())
}

/// An entry whose key no other entry has is a member of the object.
pub proof fn an_entry_is_a_member(s: Seq<(Seq<char>, JsonTree)>, at: int)
    requires
        0 <= at < s.len(),
        forall|j: int| 0 <= j < s.len() && j != at ==> (#[trigger] s[j]).0 != s[at].0,
    ensures
        member(JsonTree::Object(entries_map(s)), s[at].0) == Some(s[at].1),
{
    entries_lookup(s, s[at].0, at);
}

/// What has no entry is no member.
pub proof fn without_an_entry_no_member(s: Seq<(Seq<char>, JsonTree)>, key: Seq<char>)
    requires
        forall|j: int| 0 <= j < s.len() ==> (#[trigger] s[j]).0 != key,
    ensures
        member(JsonTree::Object(entries_map(s)), key) is None,
{
    entries_lookup(s, key, -1);
}

/// Of several entries with one key the last one counts.
pub proof fn the_last_entry_counts(s: Seq<(Seq<char>, JsonTree)>, key: Seq<char>, t: JsonTree)
    ensures
        member(JsonTree::Object(entries_map(s.push((key, t)))), key) == Some(t),
        forall|other: Seq<char>|
            other != key ==> #[trigger] member(
                JsonTree::Object(entries_map(s.push((key, t)))),
                other,
            ) == member(JsonTree::Object(entries_map(s)), other),
{
    assert(s.push((key, t)).drop_last() =~= s);
}

/// The parts of a value are what they are: only an object has members, only an array
/// has items, only a string has a text.
pub proof fn parts_are_told_apart(t: JsonTree, key: Seq<char>, i: int)
    ensures
        !(t is Object) ==> member(t, key) is None,
        t is Object ==> (member(t, key) is Some <==> t->Object_0.contains_key(key)),
        t is Object && t->Object_0.contains_key(key) ==> member(t, key) == Some(
            t->Object_0[key],
        ),
        field_of(Some(t), key) == member(t, key),
        field_of(None, key) is None,
        t is Array && 0 <= i < t->Array_0.len() ==> item_of(Some(t), i) == Some(t->Array_0[i]),
        t is Array && i >= t->Array_0.len() ==> item_of(Some(t), i) is None,
        !(t is Array) ==> item_of(Some(t), i) is None && items_in(Some(t)) is None,
        t is Array ==> items_in(Some(t)) == Some(t->Array_0),
        t is Str ==> string_in(Some(t)) == Some(t->Str_0),
        !(t is Str) ==> string_in(Some(t)) is None,
        string_in(None) is None,
        t is Bool ==> bool_in(Some(t)) == Some(t->Bool_0),
        !(t is Bool) ==> bool_in(Some(t)) is None,
        t is Number ==> integer_in(Some(t)) == number_as_u64(t->Number_0),
        !(t is Number) ==> integer_in(Some(t)) is None,
{
}

} // verus!
