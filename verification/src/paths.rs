//! File-system paths as text: their components, their order and how they are put
//! together.

use crate::text::{
    chars_of, comes_before, copy, lex_less, lex_less_is_a_strict_order, same, split, split_on,
    views,
};
use vstd::prelude::*;

verus! {

// ---------------------------------------------------------------------------
// Components
// ---------------------------------------------------------------------------

/// A component of a path.
pub enum Comp {
    Root,
    Cur,
    Parent,
    Normal(Seq<char>),
}

/// What a part between two separators stands for; an empty part and a `.` that
/// is not at the start stand for nothing.
pub open spec fn part_comp(part: Seq<char>, first: bool) -> Option<Comp> {
    if part.len() == 0 {
        None
    } else if part == "."@ {
        if first {
            Some(Comp::Cur)
        } else {
            None
        }
    } else if part == ".."@ {
        Some(Comp::Parent)
    } else {
        Some(Comp::Normal(part))
    }
}

pub open spec fn part_comps(parts: Seq<Seq<char>>) -> Seq<Comp>
    decreases parts.len(),
{
    if parts.len() == 0 {
        Seq::empty()
    } else {
        let rest = part_comps(parts.drop_last());
        match part_comp(parts.last(), parts.len() == 1) {
            Some(c) => rest.push(c),
            None => rest,
        }
    }
}

pub open spec fn is_absolute(path: Seq<char>) -> bool {
    path.len() > 0 && path[0] == '/'
}

/// The components of a path. Repeated separators and a `.` inside the path make
/// no difference.
pub open spec fn components(path: Seq<char>) -> Seq<Comp> {
    let parts = part_comps(split_on(path, '/'));
    if is_absolute(path) {
        seq![Comp::Root] + parts
    } else {
        parts
    }
}

/// A component of a path.
pub enum Component {
    Root,
    Cur,
    Parent,
    Normal(String),
}

impl View for Component {
    type V = Comp;

    open spec fn view(&self) -> Comp {
        match *self {
            Component::Root => Comp::Root,
            Component::Cur => Comp::Cur,
            Component::Parent => Comp::Parent,
            Component::Normal(s) => Comp::Normal(s@),
        }
    }
}

pub open spec fn comp_views(v: Seq<Component>) -> Seq<Comp> {
    Seq::new(v.len(), |i: int| v[i]@)
}

/// The components of a path.
pub fn components_of(path: &str) -> (r: Vec<Component>)
    ensures
        comp_views(r@) == components(path@),
{
    let parts = split(path, '/');
    let v = chars_of(path);
    let mut out: Vec<Component> = Vec::new();
    if v.len() > 0 && v[0] == '/' {
        out.push(Component::Root);
    }
    let ghost head = comp_views(out@);
    assert(head =~= if is_absolute(path@) {
        seq![Comp::Root]
    } else {
        Seq::empty()
    });
    let mut i: usize = 0;
    assert(comp_views(out@) =~= head + part_comps(views(parts@).subrange(0, 0)));
    while i < parts.len()
        invariant
            i <= parts.len(),
            comp_views(out@) == head + part_comps(views(parts@).subrange(0, i as int)),
        decreases parts.len() - i,
    {
        let ghost part = views(parts@).subrange(0, i + 1);
        assert(part.drop_last() =~= views(parts@).subrange(0, i as int));
        assert(part.last() == parts@[i as int]@);
        let ghost before = out@;
        let p = parts[i].as_str();
        if p.is_empty() {
        } else if same(p, ".") {
            if i == 0 {
                out.push(Component::Cur);
                assert(comp_views(out@) =~= comp_views(before).push(Comp::Cur));
                assert(comp_views(out@) =~= head + part_comps(part));
            }
        } else if same(p, "..") {
            out.push(Component::Parent);
            assert(comp_views(out@) =~= comp_views(before).push(Comp::Parent));
            assert(comp_views(out@) =~= head + part_comps(part));
        } else {
            out.push(Component::Normal(copy(p)));
            assert(comp_views(out@) =~= comp_views(before).push(Comp::Normal(p@)));
            assert(comp_views(out@) =~= head + part_comps(part));
        }
        i = i + 1;
    }
    assert(views(parts@).subrange(0, i as int) =~= views(parts@));
    assert(Seq::<Comp>::empty() + part_comps(views(parts@)) =~= part_comps(views(parts@)));
    out
}

// ---------------------------------------------------------------------------
// Order
// ---------------------------------------------------------------------------

pub open spec fn comp_rank(c: Comp) -> int {
    match c {
        Comp::Root => 0,
        Comp::Cur => 1,
        Comp::Parent => 2,
        Comp::Normal(_) => 3,
    }
}

pub open spec fn comp_less(a: Comp, b: Comp) -> bool {
    match (a, b) {
        (Comp::Normal(x), Comp::Normal(y)) => lex_less(x, y),
        _ => comp_rank(a) < comp_rank(b),
    }
}

/// The order of two lists of components from position `i` on.
pub open spec fn comps_less(a: Seq<Comp>, b: Seq<Comp>, i: int) -> bool
    decreases b.len() - i,
{
    if i < 0 || i >= b.len() {
        false
    } else if i >= a.len() {
        true
    } else if a[i] != b[i] {
        comp_less(a[i], b[i])
    } else {
        comps_less(a, b, i + 1)
    }
}

/// Path `a` comes before path `b`: their components decide.
pub open spec fn path_less(a: Seq<char>, b: Seq<char>) -> bool {
    comps_less(components(a), components(b), 0)
}

/// Two texts that are one path.
pub open spec fn same_path(a: Seq<char>, b: Seq<char>) -> bool {
    components(a) == components(b)
}

/// Path `p` is `base` or lies below it.
pub open spec fn path_under(p: Seq<char>, base: Seq<char>) -> bool {
    components(base).len() <= components(p).len() && components(p).subrange(
        0,
        components(base).len() as int,
    ) == components(base)
}

fn same_component(a: &Component, b: &Component) -> (r: bool)
    ensures
        r == (a@ == b@),
{
    match (a, b) {
        (Component::Root, Component::Root) => true,
        (Component::Cur, Component::Cur) => true,
        (Component::Parent, Component::Parent) => true,
        (Component::Normal(x), Component::Normal(y)) => same(x.as_str(), y.as_str()),
        _ => false,
    }
}

fn rank_of(c: &Component) -> (r: u8)
    ensures
        r == comp_rank(c@),
{
    match c {
        Component::Root => 0,
        Component::Cur => 1,
        Component::Parent => 2,
        Component::Normal(_) => 3,
    }
}

fn component_before(a: &Component, b: &Component) -> (r: bool)
    ensures
        r == comp_less(a@, b@),
{
    match (a, b) {
        (Component::Normal(x), Component::Normal(y)) => comes_before(x.as_str(), y.as_str()),
        _ => rank_of(a) < rank_of(b),
    }
}

/// Path `a` comes before path `b`.
pub fn path_before(a: &str, b: &str) -> (r: bool)
    ensures
        r == path_less(a@, b@),
{
    let x = components_of(a);
    let y = components_of(b);
    let mut i: usize = 0;
    loop
        invariant
            i <= x.len(),
            i <= y.len(),
            comp_views(x@) == components(a@),
            comp_views(y@) == components(b@),
            path_less(a@, b@) == comps_less(components(a@), components(b@), i as int),
        decreases x.len() - i,
    {
        if i == y.len() {
            return false;
        }
        if i == x.len() {
            return true;
        }
        assert(components(a@)[i as int] == x@[i as int]@);
        assert(components(b@)[i as int] == y@[i as int]@);
        if !same_component(&x[i], &y[i]) {
            return component_before(&x[i], &y[i]);
        }
        i = i + 1;
    }
}

/// `a` and `b` are one path.
pub fn is_same_path(a: &str, b: &str) -> (r: bool)
    ensures
        r == same_path(a@, b@),
{
    let x = components_of(a);
    let y = components_of(b);
    assert(comp_views(x@).len() == x@.len());
    assert(comp_views(y@).len() == y@.len());
    if x.len() != y.len() {
        return false;
    }
    let mut i: usize = 0;
    while i < x.len()
        invariant
            i <= x.len(),
            x.len() == y.len(),
            comp_views(x@) == components(a@),
            comp_views(y@) == components(b@),
            forall|k: int| 0 <= k < i ==> #[trigger] components(a@)[k] == components(b@)[k],
        decreases x.len() - i,
    {
        assert(components(a@)[i as int] == x@[i as int]@);
        assert(components(b@)[i as int] == y@[i as int]@);
        if !same_component(&x[i], &y[i]) {
            return false;
        }
        i = i + 1;
    }
    assert(components(a@) =~= components(b@));
    true
}

/// `p` is `base` or lies below it.
pub fn is_under(p: &str, base: &str) -> (r: bool)
    ensures
        r == path_under(p@, base@),
{
    let x = components_of(p);
    let y = components_of(base);
    assert(comp_views(x@).len() == x@.len());
    assert(comp_views(y@).len() == y@.len());
    if y.len() > x.len() {
        return false;
    }
    let mut i: usize = 0;
    while i < y.len()
        invariant
            i <= y.len() <= x.len(),
            comp_views(x@) == components(p@),
            comp_views(y@) == components(base@),
            forall|k: int| 0 <= k < i ==> #[trigger] components(p@)[k] == components(base@)[k],
        decreases y.len() - i,
    {
        assert(components(p@)[i as int] == x@[i as int]@);
        assert(components(base@)[i as int] == y@[i as int]@);
        if !same_component(&x[i], &y[i]) {
            assert(components(p@).subrange(0, components(base@).len() as int)[i as int]
                != components(base@)[i as int]);
            return false;
        }
        i = i + 1;
    }
    assert(components(p@).subrange(0, components(base@).len() as int) =~= components(base@));
    true
}

// ---------------------------------------------------------------------------
// Building
// ---------------------------------------------------------------------------

/// `sub`, a relative path, below `base`.
pub open spec fn path_join(base: Seq<char>, sub: Seq<char>) -> Seq<char> {
    if is_absolute(sub) {
        sub
    } else if base.len() == 0 || base.last() == '/' {
        base + sub
    } else {
        base + seq!['/'] + sub
    }
}

/// `sub` below `base`; an absolute `sub` stands for itself.
pub fn join_path(base: &str, sub: &str) -> (r: String)
    ensures
        r@ == path_join(base@, sub@),
{
    let s = chars_of(sub);
    if s.len() > 0 && s[0] == '/' {
        return copy(sub);
    }
    let b = chars_of(base);
    let mut out = copy(base);
    if b.len() > 0 && b[b.len() - 1] != '/' {
        out.push('/');
        assert(out@ =~= base@ + seq!['/']);
    }
    out.append(sub);
    out
}

// ---------------------------------------------------------------------------
// Sorting
// ---------------------------------------------------------------------------

/// `s`, which is sorted, with `x` put behind all that do not come after it.
pub open spec fn path_inserted(s: Seq<Seq<char>>, x: Seq<char>) -> Seq<Seq<char>>
    decreases s.len(),
{
    if s.len() > 0 && path_less(x, s.last()) {
        path_inserted(s.drop_last(), x).push(s.last())
    } else {
        s.push(x)
    }
}

/// The paths in order; of equal ones the first stays first.
pub open spec fn paths_sorted(s: Seq<Seq<char>>) -> Seq<Seq<char>>
    decreases s.len(),
{
    if s.len() == 0 {
        Seq::empty()
    } else {
        path_inserted(paths_sorted(s.drop_last()), s.last())
    }
}

/// `s` without what is the same path as the one before it.
pub open spec fn paths_deduped(s: Seq<Seq<char>>) -> Seq<Seq<char>>
    decreases s.len(),
{
    if s.len() == 0 {
        Seq::empty()
    } else {
        let rest = paths_deduped(s.drop_last());
        if rest.len() > 0 && same_path(rest.last(), s.last()) {
            rest
        } else {
            rest.push(s.last())
        }
    }
}

/// The paths in order, each once.
pub open spec fn path_set(s: Seq<Seq<char>>) -> Seq<Seq<char>> {
    paths_deduped(paths_sorted(s))
}

proof fn path_inserted_at(s: Seq<Seq<char>>, x: Seq<char>, k: int)
    requires
        0 <= k <= s.len(),
        forall|j: int| k <= j < s.len() ==> path_less(x, #[trigger] s[j]),
        k > 0 ==> !path_less(x, s[k - 1]),
    ensures
        path_inserted(s, x) == s.insert(k, x),
    decreases s.len(),
{
    if k == s.len() {
        assert(s.push(x) =~= s.insert(k, x));
    } else {
        assert(path_less(x, s[s.len() - 1]));
        let t = s.drop_last();
        assert forall|j: int| k <= j < t.len() implies path_less(x, #[trigger] t[j]) by {
            assert(t[j] == s[j]);
        }
        path_inserted_at(t, x, k);
        assert(t.insert(k, x).push(s.last()) =~= s.insert(k, x));
    }
}

fn sort_paths(v: &Vec<String>) -> (r: Vec<String>)
    ensures
        views(r@) == paths_sorted(views(v@)),
{
    let mut out: Vec<String> = Vec::new();
    let mut i: usize = 0;
    assert(views(out@) =~= Seq::empty());
    while i < v.len()
        invariant
            i <= v.len(),
            views(out@) == paths_sorted(views(v@).subrange(0, i as int)),
        decreases v.len() - i,
    {
        let ghost part = views(v@).subrange(0, i + 1);
        assert(part.drop_last() =~= views(v@).subrange(0, i as int));
        assert(part.last() == v@[i as int]@);
        let mut k: usize = out.len();
        while k > 0 && path_before(v[i].as_str(), out[k - 1].as_str())
            invariant
                k <= out.len(),
                i < v.len(),
                forall|j: int|
                    k <= j < out@.len() ==> path_less(v@[i as int]@, #[trigger] views(out@)[j]),
            decreases k,
        {
            k = k - 1;
        }
        proof {
            path_inserted_at(views(out@), v@[i as int]@, k as int);
        }
        let ghost before = out@;
        out.insert(k, v[i].clone());
        assert(views(out@) =~= views(before).insert(k as int, v@[i as int]@));
        i = i + 1;
    }
    assert(views(v@).subrange(0, i as int) =~= views(v@));
    out
}

/// The paths in order, each once.
pub fn dedup(v: &Vec<String>) -> (r: Vec<String>)
    ensures
        views(r@) == path_set(views(v@)),
{
    let sorted = sort_paths(v);
    let mut out: Vec<String> = Vec::new();
    let mut i: usize = 0;
    assert(views(out@) =~= Seq::empty());
    while i < sorted.len()
        invariant
            i <= sorted.len(),
            views(sorted@) == paths_sorted(views(v@)),
            views(out@) == paths_deduped(views(sorted@).subrange(0, i as int)),
        decreases sorted.len() - i,
    {
        let ghost part = views(sorted@).subrange(0, i + 1);
        assert(part.drop_last() =~= views(sorted@).subrange(0, i as int));
        assert(part.last() == sorted@[i as int]@);
        let ghost before = out@;
        assert(views(out@).len() == out@.len());
        let repeated = out.len() > 0 && is_same_path(
            out[out.len() - 1].as_str(),
            sorted[i].as_str(),
        );
        if !repeated {
            out.push(sorted[i].clone());
            assert(views(out@) =~= views(before).push(part.last()));
        }
        i = i + 1;
    }
    assert(views(sorted@).subrange(0, i as int) =~= views(sorted@));
    out
}

// ---------------------------------------------------------------------------
// Laws
// ---------------------------------------------------------------------------

proof fn comps_less_order(a: Seq<Comp>, b: Seq<Comp>, c: Seq<Comp>, i: int)
    requires
        0 <= i,
        i <= a.len(),
        i <= b.len(),
        i <= c.len(),
        forall|k: int| 0 <= k < i ==> #[trigger] a[k] == b[k],
    ensures
        !comps_less(a, a, i),
        comps_less(a, b, i) ==> !comps_less(b, a, i),
        comps_less(a, b, i) && comps_less(b, c, i) ==> comps_less(a, c, i),
        a != b ==> comps_less(a, b, i) || comps_less(b, a, i),
    decreases a.len() - i,
{
    if i < a.len() && i < b.len() {
        comp_order(a[i], b[i], if i < c.len() {
            c[i]
        } else {
            a[i]
        });
    }
    if i < a.len() {
        comps_less_irreflexive(a, i + 1);
    }
    if i < a.len() && i < b.len() && a[i] == b[i] {
        if i < c.len() {
            comps_less_order(a, b, c, i + 1);
        } else {
            comps_less_order(a, b, a, i + 1);
        }
    } else if a != b && i == a.len() && i == b.len() {
        assert(a =~= b);
    }
}

proof fn comps_less_irreflexive(a: Seq<Comp>, i: int)
    ensures
        !comps_less(a, a, i),
    decreases a.len() - i,
{
    if 0 <= i < a.len() {
        comps_less_irreflexive(a, i + 1);
    }
}

proof fn comp_order(a: Comp, b: Comp, c: Comp)
    ensures
        !comp_less(a, a),
        comp_less(a, b) ==> !comp_less(b, a),
        comp_less(a, b) && comp_less(b, c) ==> comp_less(a, c),
        a != b ==> comp_less(a, b) || comp_less(b, a),
{
    match (a, b, c) {
        (Comp::Normal(x), Comp::Normal(y), Comp::Normal(z)) => {
            lex_less_is_a_strict_order(x, y, z);
        },
        (Comp::Normal(x), Comp::Normal(y), _) => {
            lex_less_is_a_strict_order(x, y, x);
        },
        (Comp::Normal(x), _, _) => {
            lex_less_is_a_strict_order(x, x, x);
        },
        _ => {},
    }
}

/// The order of paths is strict, and total on paths that are not the same.
pub proof fn path_order_is_strict(a: Seq<char>, b: Seq<char>, c: Seq<char>)
    ensures
        !path_less(a, a),
        path_less(a, b) ==> !path_less(b, a),
        path_less(a, b) && path_less(b, c) ==> path_less(a, c),
        same_path(a, b) || path_less(a, b) || path_less(b, a),
{
    comps_less_order(components(a), components(b), components(c), 0);
}

pub open spec fn paths_in_order(s: Seq<Seq<char>>) -> bool {
    forall|i: int, j: int| 0 <= i < j < s.len() ==> !path_less(#[trigger] s[j], #[trigger] s[i])
}

proof fn path_inserted_in_order(s: Seq<Seq<char>>, x: Seq<char>)
    requires
        paths_in_order(s),
    ensures
        paths_in_order(path_inserted(s, x)),
        path_inserted(s, x).len() == s.len() + 1,
        forall|k: int|
            0 <= k < path_inserted(s, x).len() ==> #[trigger] path_inserted(s, x)[k] == x
                || s.contains(path_inserted(s, x)[k]),
        path_inserted(s, x).contains(x),
        forall|y: Seq<char>| s.contains(y) ==> #[trigger] path_inserted(s, x).contains(y),
    decreases s.len(),
{
    let t = path_inserted(s, x);
    if s.len() > 0 && path_less(x, s.last()) {
        let init = s.drop_last();
        let u = path_inserted(init, x);
        assert forall|i: int, j: int| 0 <= i < j < init.len() implies !path_less(
            #[trigger] init[j],
            #[trigger] init[i],
        ) by {
            assert(init[j] == s[j] && init[i] == s[i]);
        }
        path_inserted_in_order(init, x);
        let last = s.last();
        assert forall|k: int| 0 <= k < u.len() implies !path_less(last, #[trigger] u[k]) by {
            if u[k] == x {
                path_order_is_strict(x, last, x);
            } else {
                let m = choose|m: int| 0 <= m < init.len() && init[m] == u[k];
                assert(s[m] == u[k]);
                assert(!path_less(s[s.len() - 1], s[m]));
            }
        }
        assert forall|i: int, j: int| 0 <= i < j < t.len() implies !path_less(
            #[trigger] t[j],
            #[trigger] t[i],
        ) by {
            assert(t[i] == u[i]);
            if j < u.len() {
                assert(t[j] == u[j]);
            }
        }
        assert forall|k: int| 0 <= k < t.len() implies #[trigger] t[k] == x || s.contains(
            t[k],
        ) by {
            if k < u.len() {
                assert(t[k] == u[k]);
                if u[k] != x {
                    let m = choose|m: int| 0 <= m < init.len() && init[m] == u[k];
                    assert(s[m] == t[k]);
                }
            } else {
                assert(s[s.len() - 1] == t[k]);
            }
        }
        let kx = choose|k: int| 0 <= k < u.len() && u[k] == x;
        assert(t[kx] == x);
        assert forall|y: Seq<char>| s.contains(y) implies #[trigger] t.contains(y) by {
            let k = choose|k: int| 0 <= k < s.len() && s[k] == y;
            if k == s.len() - 1 {
                assert(t[u.len() as int] == y);
            } else {
                assert(init[k] == y);
                assert(init.contains(y));
                assert(u.contains(y));
                let m = choose|m: int| 0 <= m < u.len() && u[m] == y;
                assert(t[m] == y);
            }
        }
    } else {
        assert(t[s.len() as int] == x);
        assert forall|i: int, j: int| 0 <= i < j < t.len() implies !path_less(
            #[trigger] t[j],
            #[trigger] t[i],
        ) by {
            if j < s.len() {
                assert(t[j] == s[j] && t[i] == s[i]);
            } else {
                assert(t[i] == s[i]);
                let last = s.last();
                if i < s.len() - 1 {
                    assert(!path_less(s[s.len() - 1], s[i]));
                    path_order_is_strict(x, s[i], last);
                    path_order_is_strict(last, x, s[i]);
                    path_order_is_strict(s[i], last, x);
                    if path_less(x, s[i]) {
                        if path_less(s[i], last) {
                        } else {
                            assert(same_path(s[i], last));
                        }
                    }
                }
            }
        }
        assert forall|k: int| 0 <= k < t.len() implies #[trigger] t[k] == x || s.contains(
            t[k],
        ) by {
            if k < s.len() {
                assert(s[k] == t[k]);
            }
        }
        assert forall|y: Seq<char>| s.contains(y) implies #[trigger] t.contains(y) by {
            let k = choose|k: int| 0 <= k < s.len() && s[k] == y;
            assert(t[k] == y);
        }
    }
}

proof fn paths_sorted_in_order(s: Seq<Seq<char>>)
    ensures
        paths_in_order(paths_sorted(s)),
        forall|y: Seq<char>| s.contains(y) ==> #[trigger] paths_sorted(s).contains(y),
        forall|k: int|
            0 <= k < paths_sorted(s).len() ==> s.contains(#[trigger] paths_sorted(s)[k]),
    decreases s.len(),
{
    if s.len() > 0 {
        let init = s.drop_last();
        paths_sorted_in_order(init);
        let p = paths_sorted(init);
        let t = paths_sorted(s);
        path_inserted_in_order(p, s.last());
        assert forall|y: Seq<char>| s.contains(y) implies #[trigger] t.contains(y) by {
            let k = choose|k: int| 0 <= k < s.len() && s[k] == y;
            if k < init.len() {
                assert(init[k] == y);
                assert(init.contains(y));
                assert(p.contains(y));
            }
        }
        assert forall|k: int| 0 <= k < t.len() implies s.contains(#[trigger] t[k]) by {
            if t[k] == s.last() {
                assert(s[s.len() - 1] == t[k]);
            } else {
                let m = choose|m: int| 0 <= m < p.len() && p[m] == t[k];
                assert(init.contains(p[m]));
                let n = choose|n: int| 0 <= n < init.len() && init[n] == t[k];
                assert(s[n] == t[k]);
            }
        }
    }
}

proof fn paths_deduped_from(s: Seq<Seq<char>>)
    ensures
        forall|k: int| 0 <= k < paths_deduped(s).len() ==> s.contains(#[trigger] paths_deduped(s)[k]),
    decreases s.len(),
{
    if s.len() > 0 {
        let init = s.drop_last();
        paths_deduped_from(init);
        let rest = paths_deduped(init);
        let t = paths_deduped(s);
        assert(s[s.len() - 1] == s.last());
        assert forall|k: int| 0 <= k < t.len() implies s.contains(#[trigger] t[k]) by {
            if k < rest.len() {
                assert(t[k] == rest[k]);
                let m = choose|m: int| 0 <= m < init.len() && init[m] == rest[k];
                assert(s[m] == t[k]);
            }
        }
    }
}

proof fn paths_deduped_keeps(s: Seq<Seq<char>>, at: int) -> (k: int)
    requires
        0 <= at < s.len(),
    ensures
        0 <= k < paths_deduped(s).len(),
        same_path(s[at], paths_deduped(s)[k]),
    decreases s.len(),
{
    let init = s.drop_last();
    let rest = paths_deduped(init);
    if at < init.len() {
        let k = paths_deduped_keeps(init, at);
        assert(init[at] == s[at]);
        assert(paths_deduped(s)[k] == rest[k]);
        k
    } else {
        paths_deduped(s).len() - 1
    }
}

proof fn paths_deduped_distinct(s: Seq<Seq<char>>)
    requires
        paths_in_order(s),
    ensures
        forall|i: int, j: int|
            0 <= i < j < paths_deduped(s).len() ==> path_less(
                #[trigger] paths_deduped(s)[i],
                #[trigger] paths_deduped(s)[j],
            ),
    decreases s.len(),
{
    if s.len() > 0 {
        let init = s.drop_last();
        let last = s.last();
        assert forall|i: int, j: int| 0 <= i < j < init.len() implies !path_less(
            #[trigger] init[j],
            #[trigger] init[i],
        ) by {
            assert(init[j] == s[j] && init[i] == s[i]);
        }
        paths_deduped_distinct(init);
        paths_deduped_from(init);
        let rest = paths_deduped(init);
        let t = paths_deduped(s);
        if rest.len() > 0 && !same_path(rest.last(), last) {
            let e = rest[rest.len() - 1];
            let m = choose|m: int| 0 <= m < init.len() && init[m] == e;
            assert(s[m] == e);
            assert(!path_less(s[s.len() - 1], s[m]));
            path_order_is_strict(e, last, e);
            assert(path_less(e, last));
            assert forall|i: int, j: int| 0 <= i < j < t.len() implies path_less(
                #[trigger] t[i],
                #[trigger] t[j],
            ) by {
                assert(t[i] == rest[i]);
                if j < rest.len() {
                    assert(t[j] == rest[j]);
                } else if i < rest.len() - 1 {
                    assert(path_less(rest[i], rest[rest.len() - 1]));
                    path_order_is_strict(rest[i], e, last);
                }
            }
        }
    }
}

/// The list of paths that `dedup` gives holds each path that was given, none
/// that was not, and each once, in order.
pub proof fn path_set_is_a_set(s: Seq<Seq<char>>)
    ensures
        forall|i: int, j: int|
            0 <= i < j < path_set(s).len() ==> path_less(
                #[trigger] path_set(s)[i],
                #[trigger] path_set(s)[j],
            ),
        forall|k: int| 0 <= k < path_set(s).len() ==> s.contains(#[trigger] path_set(s)[k]),
        forall|y: Seq<char>| #[trigger]
            s.contains(y) ==> exists|k: int|
                0 <= k < path_set(s).len() && same_path(y, #[trigger] path_set(s)[k]),
{
    paths_sorted_in_order(s);
    let p = paths_sorted(s);
    paths_deduped_distinct(p);
    paths_deduped_from(p);
    let t = path_set(s);
    assert forall|k: int| 0 <= k < t.len() implies s.contains(#[trigger] t[k]) by {
        let m = choose|m: int| 0 <= m < p.len() && p[m] == t[k];
        assert(s.contains(p[m]));
    }
    assert forall|y: Seq<char>| #[trigger] s.contains(y) implies exists|k: int|
        0 <= k < t.len() && same_path(y, #[trigger] t[k]) by {
        assert(p.contains(y));
        let m = choose|m: int| 0 <= m < p.len() && p[m] == y;
        let k = paths_deduped_keeps(p, m);
        assert(same_path(y, t[k]));
    }
}

/// What stands between two separators is a component, but for nothing at all and a
/// dot; two dots are the parent.
pub proof fn parts_are_components(part: Seq<char>)
    ensures
        part.len() == 0 ==> part_comp(part, true) is None && part_comp(part, false) is None,
        part == "."@ ==> part_comp(part, true) == Some(Comp::Cur) && part_comp(part, false) is None,
        part == ".."@ ==> part_comp(part, true) == Some(Comp::Parent) && part_comp(part, false)
            == Some(Comp::Parent),
        part.len() > 0 && part != "."@ && part != ".."@ ==> part_comp(part, true) == Some(
            Comp::Normal(part),
        ) && part_comp(part, false) == Some(Comp::Normal(part)),
{
    reveal_strlit(".");
    reveal_strlit("..");
    assert("."@.len() != ".."@.len());
}

/// The components of a path are those of its parts, in order.
pub proof fn components_follow_the_parts(parts: Seq<Seq<char>>, x: Seq<char>)
    ensures
        part_comps(Seq::empty()).len() == 0,
        part_comp(x, parts.len() == 0) is None ==> part_comps(parts.push(x)) == part_comps(parts),
        part_comp(x, parts.len() == 0) matches Some(c) ==> part_comps(parts.push(x)) == part_comps(
            parts,
        ).push(c),
{
    assert(parts.push(x).drop_last() =~= parts);
}

/// A path lies below another where its components begin with those of the other: a
/// path lies below itself, and what lies below what lies below lies below.
pub proof fn lying_below_is_beginning_with(a: Seq<char>, b: Seq<char>, c: Seq<char>)
    ensures
        path_under(a, a),
        path_under(a, b) && path_under(b, c) ==> path_under(a, c),
        path_under(a, b) && path_under(b, a) ==> same_path(a, b),
        components(a).len() < components(b).len() ==> !path_under(a, b),
        same_path(a, b) <==> components(a) == components(b),
{
    let x = components(a);
    let y = components(b);
    let z = components(c);
    assert(x.subrange(0, x.len() as int) =~= x);
    if path_under(a, b) && path_under(b, c) {
        assert(x.subrange(0, z.len() as int) =~= y.subrange(0, z.len() as int)) by {
            assert forall|i: int| 0 <= i < z.len() implies x[i] == y[i] by {
                assert(x.subrange(0, y.len() as int)[i] == y[i]);
            }
        }
    }
}

/// A relative path is put below its base with one separator between; an absolute one
/// stands for itself.
pub proof fn paths_are_joined(base: Seq<char>, sub: Seq<char>)
    ensures
        sub.len() > 0 && sub[0] == '/' ==> path_join(base, sub) == sub,
        !(sub.len() > 0 && sub[0] == '/') ==> {
            &&& base.len() == 0 ==> path_join(base, sub) == sub
            &&& base.len() > 0 && base.last() == '/' ==> path_join(base, sub) == base + sub
            &&& base.len() > 0 && base.last() != '/' ==> path_join(base, sub) == base + "/"@ + sub
        },
{
    reveal_strlit("/");
    assert("/"@ =~= seq!['/']);
    if base.len() == 0 {
        assert(base + sub =~= sub);
    }
}

/// Paths are in the order of their components: the first that differ decide, the root
/// before a dot, that before the parent, that before a name, and names by their
/// letters; a path comes before what lies below it.
pub proof fn components_decide_the_order(a: Seq<char>, b: Seq<char>, n: int)
    requires
        0 <= n <= components(a).len(),
        n < components(b).len(),
        forall|i: int| 0 <= i < n ==> components(a)[i] == components(b)[i],
    ensures
        n == components(a).len() ==> path_less(a, b) && !path_less(b, a),
        n < components(a).len() ==> match (components(a)[n], components(b)[n]) {
            (Comp::Normal(x), Comp::Normal(y)) => x != y ==> (path_less(a, b) <==> lex_less(x, y)),
            (Comp::Root, Comp::Cur) => path_less(a, b),
            (Comp::Root, Comp::Parent) => path_less(a, b),
            (Comp::Root, Comp::Normal(_)) => path_less(a, b),
            (Comp::Cur, Comp::Parent) => path_less(a, b),
            (Comp::Cur, Comp::Normal(_)) => path_less(a, b),
            (Comp::Parent, Comp::Normal(_)) => path_less(a, b),
            _ => true,
        },
{
    order_goes_on(components(a), components(b), 0, n);
    order_goes_on(components(b), components(a), 0, n);
}

proof fn order_goes_on(a: Seq<Comp>, b: Seq<Comp>, i: int, n: int)
    requires
        0 <= i <= n,
        n <= a.len(),
        n <= b.len(),
        forall|k: int| 0 <= k < n ==> a[k] == b[k],
    ensures
        comps_less(a, b, i) == comps_less(a, b, n),
    decreases n - i,
{
    if i < n {
        order_goes_on(a, b, i + 1, n);
    }
}

/// An absolute path begins at the root.
pub proof fn an_absolute_path_begins_at_the_root(p: Seq<char>)
    ensures
        p.len() > 0 && p[0] == '/' ==> components(p).len() > 0 && components(p)[0] is Root,
        !(p.len() > 0 && p[0] == '/') ==> components(p) == part_comps(split_on(p, '/')),
        p.len() > 0 && p[0] == '/' ==> components(p) == seq![Comp::Root] + part_comps(
            split_on(p, '/'),
        ),
{
}

} // verus!
