//! Text as sequences of characters: searching, trimming, splitting and
//! building strings.

use vstd::prelude::*;
use vstd::utf8::{encode_scalar, encode_utf8, is_ascii_chars};

verus! {

// ---------------------------------------------------------------------------
// Mathematical model
// ---------------------------------------------------------------------------

/// Unicode `White_Space`.
pub open spec fn is_white(c: char) -> bool {
    let n = c as u32;
    ||| 0x9 <= n <= 0xd
    ||| n == 0x20
    ||| n == 0x85
    ||| n == 0xa0
    ||| n == 0x1680
    ||| 0x2000 <= n <= 0x200a
    ||| n == 0x2028
    ||| n == 0x2029
    ||| n == 0x202f
    ||| n == 0x205f
    ||| n == 0x3000
}

/// Space, tab, newline, form feed, carriage return.
pub open spec fn is_ascii_white(c: char) -> bool {
    c == ' ' || c == '\t' || c == '\n' || c == '\u{c}' || c == '\r'
}

pub open spec fn is_ascii_digit(c: char) -> bool {
    '0' <= c && c <= '9'
}

pub open spec fn is_ascii_alnum(c: char) -> bool {
    is_ascii_digit(c) || ('a' <= c && c <= 'z') || ('A' <= c && c <= 'Z')
}

/// `s` without its leading white space.
pub open spec fn trim_start(s: Seq<char>) -> Seq<char>
    decreases s.len(),
{
    if s.len() > 0 && is_white(s[0]) {
        trim_start(s.subrange(1, s.len() as int))
    } else {
        s
    }
}

/// `s` without its trailing white space.
pub open spec fn trim_end(s: Seq<char>) -> Seq<char>
    decreases s.len(),
{
    if s.len() > 0 && is_white(s[s.len() - 1]) {
        trim_end(s.subrange(0, s.len() - 1))
    } else {
        s
    }
}

/// `s` without its leading and trailing white space.
pub open spec fn trim(s: Seq<char>) -> Seq<char> {
    trim_end(trim_start(s))
}

/// `p` stands in `s` at position `i`.
pub open spec fn occurs_at(s: Seq<char>, p: Seq<char>, i: int) -> bool {
    0 <= i && i + p.len() <= s.len() && s.subrange(i, i + p.len()) == p
}

/// The first position at or after `from` at which `p` stands in `s`.
pub open spec fn find_from(s: Seq<char>, p: Seq<char>, from: int) -> Option<int>
    decreases s.len() + 1 - from,
{
    if from < 0 || from + p.len() > s.len() {
        None
    } else if occurs_at(s, p, from) {
        Some(from)
    } else {
        find_from(s, p, from + 1)
    }
}

pub open spec fn find(s: Seq<char>, p: Seq<char>) -> Option<int> {
    find_from(s, p, 0)
}

pub open spec fn contains(s: Seq<char>, p: Seq<char>) -> bool {
    find(s, p) is Some
}

/// The part of `s` from position `i` on.
pub open spec fn from(s: Seq<char>, i: int) -> Seq<char> {
    s.subrange(i, s.len() as int)
}

pub open spec fn starts_with(s: Seq<char>, p: Seq<char>) -> bool {
    p.len() <= s.len() && s.subrange(0, p.len() as int) == p
}

pub open spec fn ends_with(s: Seq<char>, p: Seq<char>) -> bool {
    p.len() <= s.len() && s.subrange(s.len() - p.len(), s.len() as int) == p
}

/// The contents of a list of strings.
pub open spec fn views(v: Seq<String>) -> Seq<Seq<char>> {
    Seq::new(v.len(), |i: int| v[i]@)
}

// ---------------------------------------------------------------------------
// Facts
// ---------------------------------------------------------------------------

/// `find_from` gives the least position at which the pattern stands.
pub proof fn find_from_is_least(s: Seq<char>, p: Seq<char>, at: int)
    requires
        0 <= at,
    ensures
        match find_from(s, p, at) {
            Some(i) => {
                &&& at <= i
                &&& occurs_at(s, p, i)
                &&& forall|j: int| at <= j < i ==> !occurs_at(s, p, j)
            },
            None => forall|j: int| at <= j ==> !occurs_at(s, p, j),
        },
    decreases s.len() + 1 - at,
{
    if at + p.len() > s.len() {
    } else if occurs_at(s, p, at) {
    } else {
        find_from_is_least(s, p, at + 1);
    }
}

/// Searching from a position on is searching the rest.
pub proof fn find_in_rest(s: Seq<char>, p: Seq<char>, at: int)
    requires
        0 <= at <= s.len(),
    ensures
        find(from(s, at), p) == (match find_from(s, p, at) {
            Some(i) => Some(i - at),
            None => None,
        }),
{
    find_from_is_least(s, p, at);
    let r = from(s, at);
    find_from_is_least(r, p, 0);
    assert forall|j: int| 0 <= j implies occurs_at(r, p, j) == occurs_at(s, p, at + j) by {
        if j + p.len() <= r.len() {
            assert(r.subrange(j, j + p.len()) =~= s.subrange(at + j, at + j + p.len()));
        }
    }
    match find_from(s, p, at) {
        Some(i) => {
            assert(occurs_at(r, p, i - at));
            if let Some(j) = find(r, p) {
                assert(occurs_at(s, p, at + j));
            }
        },
        None => {
            if let Some(j) = find(r, p) {
                assert(occurs_at(s, p, at + j));
            }
        },
    }
}

/// The last position up to `at` at which `p` stands in `s`.
pub open spec fn rfind_upto(s: Seq<char>, p: Seq<char>, at: int) -> Option<int>
    decreases at + 1,
{
    if at < 0 {
        None
    } else if occurs_at(s, p, at) {
        Some(at)
    } else {
        rfind_upto(s, p, at - 1)
    }
}

/// The last position at which `p` stands in `s`.
pub open spec fn rfind(s: Seq<char>, p: Seq<char>) -> Option<int> {
    rfind_upto(s, p, s.len() - p.len())
}

/// Trimming an already trimmed text changes nothing.
pub proof fn trim_is_idempotent(s: Seq<char>)
    ensures
        trim(trim(s)) == trim(s),
{
    let a = trim_start(s);
    trim_start_head(s);
    trim_end_keeps_head(a);
    trim_end_tail(a);
    let t = trim_end(a);
    assert(trim_start(t) == t);
    assert(trim_end(t) == t);
}

proof fn trim_start_head(s: Seq<char>)
    ensures
        trim_start(s).len() > 0 ==> !is_white(trim_start(s)[0]),
    decreases s.len(),
{
    if s.len() > 0 && is_white(s[0]) {
        trim_start_head(s.subrange(1, s.len() as int));
    }
}

proof fn trim_end_keeps_head(s: Seq<char>)
    ensures
        trim_end(s).len() > 0 ==> trim_end(s)[0] == s[0],
    decreases s.len(),
{
    if s.len() > 0 && is_white(s[s.len() - 1]) {
        trim_end_keeps_head(s.subrange(0, s.len() - 1));
    }
}

proof fn trim_end_tail(s: Seq<char>)
    ensures
        trim_end(s).len() > 0 ==> !is_white(trim_end(s)[trim_end(s).len() - 1]),
    decreases s.len(),
{
    if s.len() > 0 && is_white(s[s.len() - 1]) {
        trim_end_tail(s.subrange(0, s.len() - 1));
    }
}

// ---------------------------------------------------------------------------
// Conversions
// ---------------------------------------------------------------------------

/// `String::push` puts one character at the end.
pub assume_specification[ String::push ](s: &mut String, c: char)
    ensures
        final(s)@ == old(s)@.push(c),
;

pub fn chars_of(s: &str) -> (r: Vec<char>)
    ensures
        r@ == s@,
{
    let mut v: Vec<char> = Vec::new();
    for c in it: s.chars()
        invariant
            it.seq() == s@,
            v@ == s@.subrange(0, it.index() as int),
    {
        v.push(c);
    }
    v
}

/// The characters of `v` from `a` up to `b` as a string.
pub fn substr(v: &Vec<char>, a: usize, b: usize) -> (r: String)
    requires
        a <= b <= v.len(),
    ensures
        r@ == v@.subrange(a as int, b as int),
{
    let mut s: String = String::new();
    let mut i: usize = a;
    while i < b
        invariant
            a <= i <= b <= v.len(),
            s@ == v@.subrange(a as int, i as int),
        decreases b - i,
    {
        s.push(v[i]);
        i = i + 1;
        assert(v@.subrange(a as int, i as int) =~= v@.subrange(a as int, i - 1).push(v@[i - 1]));
    }
    s
}

pub fn string_of(v: &Vec<char>) -> (r: String)
    ensures
        r@ == v@,
{
    let r = substr(v, 0, v.len());
    assert(v@.subrange(0, v@.len() as int) =~= v@);
    r
}

pub fn slice(v: &Vec<char>, a: usize, b: usize) -> (r: Vec<char>)
    requires
        a <= b <= v.len(),
    ensures
        r@ == v@.subrange(a as int, b as int),
{
    let mut out: Vec<char> = Vec::new();
    let mut i: usize = a;
    while i < b
        invariant
            a <= i <= b <= v.len(),
            out@ == v@.subrange(a as int, i as int),
        decreases b - i,
    {
        out.push(v[i]);
        i = i + 1;
        assert(v@.subrange(a as int, i as int) =~= v@.subrange(a as int, i - 1).push(v@[i - 1]));
    }
    out
}

/// A copy of `s`.
pub fn copy(s: &str) -> (r: String)
    ensures
        r@ == s@,
{
    s.to_owned()
}

// ---------------------------------------------------------------------------
// Tests on characters and text
// ---------------------------------------------------------------------------

pub fn char_is_white(c: char) -> (r: bool)
    ensures
        r == is_white(c),
{
    let n: u32 = c as u32;
    (0x9 <= n && n <= 0xd) || n == 0x20 || n == 0x85 || n == 0xa0 || n == 0x1680 || (0x2000 <= n && n
        <= 0x200a) || n == 0x2028 || n == 0x2029 || n == 0x202f || n == 0x205f || n == 0x3000
}

pub fn char_is_ascii_white(c: char) -> (r: bool)
    ensures
        r == is_ascii_white(c),
{
    c == ' ' || c == '\t' || c == '\n' || c == '\u{c}' || c == '\r'
}

pub fn char_is_ascii_digit(c: char) -> (r: bool)
    ensures
        r == is_ascii_digit(c),
{
    '0' <= c && c <= '9'
}

pub fn char_is_ascii_alnum(c: char) -> (r: bool)
    ensures
        r == is_ascii_alnum(c),
{
    char_is_ascii_digit(c) || ('a' <= c && c <= 'z') || ('A' <= c && c <= 'Z')
}

pub fn same_chars(a: &Vec<char>, b: &Vec<char>) -> (r: bool)
    ensures
        r == (a@ == b@),
{
    if a.len() != b.len() {
        return false;
    }
    let mut i: usize = 0;
    while i < a.len()
        invariant
            i <= a.len(),
            a.len() == b.len(),
            forall|k: int| 0 <= k < i ==> a@[k] == b@[k],
        decreases a.len() - i,
    {
        if a[i] != b[i] {
            return false;
        }
        i = i + 1;
    }
    assert(a@ =~= b@);
    true
}

/// `a` and `b` hold the same text.
pub fn same(a: &str, b: &str) -> (r: bool)
    ensures
        r == (a@ == b@),
{
    same_chars(&chars_of(a), &chars_of(b))
}

pub fn stands_at(v: &Vec<char>, p: &Vec<char>, i: usize) -> (r: bool)
    ensures
        r == occurs_at(v@, p@, i as int),
{
    if i > v.len() || p.len() > v.len() - i {
        return false;
    }
    let mut k: usize = 0;
    while k < p.len()
        invariant
            k <= p.len(),
            i + p.len() <= v.len(),
            forall|j: int| 0 <= j < k ==> v@[i + j] == p@[j],
        decreases p.len() - k,
    {
        if v[i + k] != p[k] {
            assert(v@.subrange(i as int, i + p@.len())[k as int] != p@[k as int]);
            return false;
        }
        k = k + 1;
    }
    assert(v@.subrange(i as int, i + p@.len()) =~= p@);
    true
}

pub fn position_from(v: &Vec<char>, p: &Vec<char>, at: usize) -> (r: Option<usize>)
    ensures
        match r {
            Some(i) => find_from(v@, p@, at as int) == Some(i as int) && at <= i && i + p.len()
                <= v.len() && occurs_at(v@, p@, i as int),
            None => find_from(v@, p@, at as int) is None,
        },
{
    let mut i: usize = at;
    while i <= v.len() && p.len() <= v.len() - i
        invariant
            at <= i,
            i <= v.len() + 1 || i == at,
            find_from(v@, p@, at as int) == find_from(v@, p@, i as int),
        decreases v.len() + 1 - i,
    {
        if stands_at(v, p, i) {
            return Some(i);
        }
        if i == v.len() {
            assert(find_from(v@, p@, i + 1) is None);
            return None;
        }
        i = i + 1;
    }
    None
}

/// Position of the first `p` in `v` at or after `at`.
pub fn position(v: &Vec<char>, p: &str, at: usize) -> (r: Option<usize>)
    ensures
        match r {
            Some(i) => find_from(v@, p@, at as int) == Some(i as int) && at <= i && i + p@.len()
                <= v.len() && occurs_at(v@, p@, i as int),
            None => find_from(v@, p@, at as int) is None,
        },
{
    position_from(v, &chars_of(p), at)
}

/// The last position of `p` in `v`.
pub fn last_position(v: &Vec<char>, p: &str) -> (r: Option<usize>)
    ensures
        match r {
            Some(i) => rfind(v@, p@) == Some(i as int) && i + p@.len() <= v.len(),
            None => rfind(v@, p@) is None,
        },
{
    let pat = chars_of(p);
    if pat.len() > v.len() {
        return None;
    }
    let mut i: usize = v.len() - pat.len();
    loop
        invariant
            pat@ == p@,
            i + pat.len() <= v.len(),
            rfind(v@, p@) == rfind_upto(v@, p@, i as int),
        decreases i,
    {
        if stands_at(v, &pat, i) {
            return Some(i);
        }
        if i == 0 {
            assert(rfind_upto(v@, p@, -1) is None);
            return None;
        }
        i = i - 1;
    }
}

/// The bounds of `v[a..b]` without leading and trailing white space.
pub fn trim_bounds(v: &Vec<char>, a: usize, b: usize) -> (r: (usize, usize))
    requires
        a <= b <= v.len(),
    ensures
        a <= r.0 <= r.1 <= b,
        v@.subrange(r.0 as int, r.1 as int) == trim(v@.subrange(a as int, b as int)),
{
    let mut i: usize = a;
    while i < b && char_is_white(v[i])
        invariant
            a <= i <= b <= v.len(),
            trim_start(v@.subrange(a as int, b as int)) == trim_start(
                v@.subrange(i as int, b as int),
            ),
        decreases b - i,
    {
        proof {
            let s = v@.subrange(i as int, b as int);
            assert(s.subrange(1, s.len() as int) =~= v@.subrange(i + 1, b as int));
        }
        i = i + 1;
    }
    assert(trim_start(v@.subrange(a as int, b as int)) == v@.subrange(i as int, b as int));
    let mut j: usize = b;
    while i < j && char_is_white(v[j - 1])
        invariant
            a <= i <= j <= b <= v.len(),
            trim_end(v@.subrange(i as int, b as int)) == trim_end(v@.subrange(i as int, j as int)),
        decreases j,
    {
        proof {
            let s = v@.subrange(i as int, j as int);
            assert(s.subrange(0, s.len() - 1) =~= v@.subrange(i as int, j - 1));
        }
        j = j - 1;
    }
    (i, j)
}

/// `v[a..b]` without leading and trailing white space.
pub fn trimmed(v: &Vec<char>, a: usize, b: usize) -> (r: String)
    requires
        a <= b <= v.len(),
    ensures
        r@ == trim(v@.subrange(a as int, b as int)),
{
    let (i, j) = trim_bounds(v, a, b);
    substr(v, i, j)
}

/// `s` without leading and trailing white space.
pub fn trim_str(s: &str) -> (r: String)
    ensures
        r@ == trim(s@),
{
    let v = chars_of(s);
    assert(v@.subrange(0, v@.len() as int) =~= s@);
    trimmed(&v, 0, v.len())
}

pub fn has_prefix(s: &str, p: &str) -> (r: bool)
    ensures
        r == starts_with(s@, p@),
{
    let v = chars_of(s);
    let q = chars_of(p);
    stands_at(&v, &q, 0)
}

pub fn has_suffix(s: &str, p: &str) -> (r: bool)
    ensures
        r == ends_with(s@, p@),
{
    let v = chars_of(s);
    let q = chars_of(p);
    if q.len() > v.len() {
        return false;
    }
    stands_at(&v, &q, v.len() - q.len())
}

/// `p` stands somewhere in `s`.
pub fn has(s: &str, p: &str) -> (r: bool)
    ensures
        r == contains(s@, p@),
{
    let v = chars_of(s);
    position(&v, p, 0).is_some()
}

// ---------------------------------------------------------------------------
// Numbers
// ---------------------------------------------------------------------------

/// The character of a digit below 16.
pub open spec fn digit_char(d: int) -> char {
    if 0 <= d < 10 {
        (48 + d) as char
    } else {
        (87 + d) as char
    }
}

/// `n` in decimal.
pub open spec fn dec_text(n: nat) -> Seq<char>
    decreases n,
{
    if n < 10 {
        seq![digit_char(n as int)]
    } else {
        dec_text(n / 10).push(digit_char((n % 10) as int))
    }
}

/// The lowest `width` hexadecimal digits of `n`.
pub open spec fn hex_text(n: nat, width: nat) -> Seq<char>
    decreases width,
{
    if width == 0 {
        Seq::empty()
    } else {
        hex_text(n / 16, (width - 1) as nat).push(digit_char((n % 16) as int))
    }
}

/// The number that a row of decimal digits stands for.
pub open spec fn digits_value(s: Seq<char>) -> int
    decreases s.len(),
{
    if s.len() == 0 {
        0
    } else {
        digits_value(s.drop_last()) * 10 + (s.last() as int - '0' as int)
    }
}

pub open spec fn all_digits(s: Seq<char>) -> bool {
    forall|i: int| 0 <= i < s.len() ==> is_ascii_digit(#[trigger] s[i])
}

/// The number that a text stands for: decimal digits, after an optional `+`,
/// with a value of at most `max`.
pub open spec fn number_upto(s: Seq<char>, max: int) -> Option<int> {
    let d = if s.len() > 0 && s[0] == '+' {
        s.subrange(1, s.len() as int)
    } else {
        s
    };
    if d.len() > 0 && all_digits(d) && digits_value(d) <= max {
        Some(digits_value(d))
    } else {
        None
    }
}

fn to_digit(d: u8) -> (r: char)
    requires
        d < 16,
    ensures
        r == digit_char(d as int),
{
    if d < 10 {
        (48 + d) as char
    } else {
        (87 + d) as char
    }
}

/// `n` in decimal.
pub fn dec(n: u64) -> (r: String)
    ensures
        r@ == dec_text(n as nat),
    decreases n,
{
    if n < 10 {
        let mut s = String::new();
        s.push(to_digit(n as u8));
        assert(s@ =~= seq![digit_char(n as int)]);
        s
    } else {
        let mut s = dec(n / 10);
        s.push(to_digit((n % 10) as u8));
        s
    }
}

/// The lowest `width` hexadecimal digits of `n`.
pub fn hex(n: u64, width: u32) -> (r: String)
    ensures
        r@ == hex_text(n as nat, width as nat),
    decreases width,
{
    if width == 0 {
        let s = String::new();
        assert(s@ =~= Seq::empty());
        s
    } else {
        let mut s = hex(n / 16, width - 1);
        s.push(to_digit((n % 16) as u8));
        s
    }
}

proof fn digits_value_grows(s: Seq<char>, i: int)
    requires
        all_digits(s),
        0 <= i <= s.len(),
    ensures
        0 <= digits_value(s.subrange(0, i)) <= digits_value(s),
    decreases s.len(),
{
    if i == s.len() {
        assert(s.subrange(0, i) =~= s);
        digits_are_natural(s);
    } else {
        assert(s.drop_last().subrange(0, i) =~= s.subrange(0, i));
        assert forall|k: int| 0 <= k < s.drop_last().len() implies is_ascii_digit(
            #[trigger] s.drop_last()[k],
        ) by {
            assert(s.drop_last()[k] == s[k]);
        }
        digits_value_grows(s.drop_last(), i);
        assert(is_ascii_digit(s[s.len() - 1]));
    }
}

/// A number that a text stands for is not negative, and within the bound.
pub proof fn number_is_natural(s: Seq<char>, max: int)
    ensures
        number_upto(s, max) matches Some(n) ==> 0 <= n <= max,
{
    let d = if s.len() > 0 && s[0] == '+' {
        s.subrange(1, s.len() as int)
    } else {
        s
    };
    if all_digits(d) {
        digits_are_natural(d);
    }
}

proof fn digits_are_natural(d: Seq<char>)
    requires
        all_digits(d),
    ensures
        digits_value(d) >= 0,
    decreases d.len(),
{
    if d.len() > 0 {
        digits_are_natural(d.drop_last());
    }
}

/// The number that `v[a..b]` stands for, if it is at most `max`.
pub fn number_in(v: &Vec<char>, a: usize, b: usize, max: u64) -> (r: Option<u64>)
    requires
        a <= b <= v.len(),
    ensures
        match r {
            Some(n) => number_upto(v@.subrange(a as int, b as int), max as int) == Some(n as int)
                && n <= max,
            None => number_upto(v@.subrange(a as int, b as int), max as int) is None,
        },
{
    let ghost s = v@.subrange(a as int, b as int);
    let start: usize = if a < b && v[a] == '+' {
        a + 1
    } else {
        a
    };
    let ghost d = v@.subrange(start as int, b as int);
    assert(d =~= (if s.len() > 0 && s[0] == '+' {
        s.subrange(1, s.len() as int)
    } else {
        s
    }));
    if start == b {
        return None;
    }
    let mut n: u64 = 0;
    let mut i: usize = start;
    while i < b
        invariant
            a <= start <= i <= b <= v.len(),
            d == v@.subrange(start as int, b as int),
            d == (if s.len() > 0 && s[0] == '+' {
                s.subrange(1, s.len() as int)
            } else {
                s
            }),
            s == v@.subrange(a as int, b as int),
            forall|k: int| 0 <= k < i - start ==> is_ascii_digit(#[trigger] d[k]),
            n == digits_value(d.subrange(0, i - start)),
            n <= max,
        decreases b - i,
    {
        let c = v[i];
        assert(d[i - start] == c);
        if !char_is_ascii_digit(c) {
            assert(!all_digits(d));
            return None;
        }
        let x: u64 = (c as u32 - '0' as u32) as u64;
        let next: u128 = (n as u128) * 10 + x as u128;
        proof {
            let part = d.subrange(0, i - start + 1);
            assert(part.drop_last() =~= d.subrange(0, i - start));
            assert(next == digits_value(part));
            if next > max && all_digits(d) {
                digits_value_grows(d, i - start + 1);
            }
        }
        if next > max as u128 {
            return None;
        }
        n = next as u64;
        i = i + 1;
    }
    assert(d.subrange(0, b - start) =~= d);
    Some(n)
}

/// The number that `s` stands for, if it is at most `max`.
pub fn parse_upto(s: &str, max: u64) -> (r: Option<u64>)
    ensures
        match r {
            Some(n) => number_upto(s@, max as int) == Some(n as int) && n <= max,
            None => number_upto(s@, max as int) is None,
        },
{
    let v = chars_of(s);
    assert(v@.subrange(0, v@.len() as int) =~= s@);
    number_in(&v, 0, v.len(), max)
}

/// `n` in decimal, with a sign where it is negative.
pub open spec fn signed_text(n: int) -> Seq<char> {
    if n < 0 {
        seq!['-'] + dec_text((-n) as nat)
    } else {
        dec_text(n as nat)
    }
}

/// The 64-bit signed number that a text stands for: decimal digits after an
/// optional sign.
pub open spec fn signed_number(s: Seq<char>) -> Option<int> {
    if s.len() > 0 && s[0] == '-' {
        let d = s.subrange(1, s.len() as int);
        if d.len() > 0 && all_digits(d) && digits_value(d) <= 0x8000_0000_0000_0000 {
            Some(-digits_value(d))
        } else {
            None
        }
    } else {
        number_upto(s, i64::MAX as int)
    }
}

/// `n` in decimal, with a sign where it is negative.
pub fn signed_dec(n: i64) -> (r: String)
    ensures
        r@ == signed_text(n as int),
{
    if n < 0 {
        let mut out = String::new();
        out.push('-');
        let m: u64 = (-(n as i128)) as u64;
        out.append(dec(m).as_str());
        assert(out@ =~= seq!['-'] + dec_text((-(n as int)) as nat));
        out
    } else {
        dec(n as u64)
    }
}

/// The 64-bit signed number that `s` stands for.
pub fn parse_signed(s: &str) -> (r: Option<i64>)
    ensures
        match r {
            Some(n) => signed_number(s@) == Some(n as int),
            None => signed_number(s@) is None,
        },
{
    let v = chars_of(s);
    if v.len() > 0 && v[0] == '-' {
        let ghost d = s@.subrange(1, s@.len() as int);
        if v.len() > 1 && v[1] == '+' {
            assert(d[0] == '+');
            return None;
        }
        match number_in(&v, 1, v.len(), 0x8000_0000_0000_0000) {
            Some(n) => Some((-(n as i128)) as i64),
            None => None,
        }
    } else {
        match parse_upto(s, i64::MAX as u64) {
            Some(n) => Some(n as i64),
            None => None,
        }
    }
}

// ---------------------------------------------------------------------------
// Case
// ---------------------------------------------------------------------------

pub open spec fn lower_char(c: char) -> char {
    if 'A' <= c && c <= 'Z' {
        (c as int + 32) as char
    } else {
        c
    }
}

/// `s` with its ASCII letters in lower case.
pub open spec fn ascii_lower(s: Seq<char>) -> Seq<char> {
    Seq::new(s.len(), |i: int| lower_char(s[i]))
}

pub fn to_lower_char(c: char) -> (r: char)
    ensures
        r == lower_char(c),
{
    if 'A' <= c && c <= 'Z' {
        ((c as u32 + 32) as u8) as char
    } else {
        c
    }
}

/// `s` with its ASCII letters in lower case.
pub fn to_ascii_lower(s: &str) -> (r: String)
    ensures
        r@ == ascii_lower(s@),
{
    let v = chars_of(s);
    let mut out = String::new();
    let mut i: usize = 0;
    while i < v.len()
        invariant
            i <= v.len(),
            v@ == s@,
            out@ == ascii_lower(s@).subrange(0, i as int),
        decreases v.len() - i,
    {
        out.push(to_lower_char(v[i]));
        i = i + 1;
        assert(ascii_lower(s@).subrange(0, i as int) =~= ascii_lower(s@).subrange(0, i - 1).push(
            lower_char(s@[i - 1]),
        ));
    }
    assert(ascii_lower(s@).subrange(0, i as int) =~= ascii_lower(s@));
    out
}

// ---------------------------------------------------------------------------
// Order
// ---------------------------------------------------------------------------

/// `a` comes before `b` in the order of their characters.
pub open spec fn lex_less(a: Seq<char>, b: Seq<char>) -> bool
    decreases b.len(),
{
    if b.len() == 0 {
        false
    } else if a.len() == 0 {
        true
    } else if a[0] != b[0] {
        a[0] < b[0]
    } else {
        lex_less(a.subrange(1, a.len() as int), b.subrange(1, b.len() as int))
    }
}

/// The order of texts is strict and total.
pub proof fn lex_less_is_a_strict_order(a: Seq<char>, b: Seq<char>, c: Seq<char>)
    ensures
        !lex_less(a, a),
        lex_less(a, b) ==> !lex_less(b, a),
        lex_less(a, b) && lex_less(b, c) ==> lex_less(a, c),
        a != b ==> lex_less(a, b) || lex_less(b, a),
    decreases a.len() + b.len() + c.len(),
{
    let t = |s: Seq<char>| s.subrange(1, s.len() as int);
    if a.len() > 0 && b.len() > 0 && c.len() > 0 {
        lex_less_is_a_strict_order(t(a), t(b), t(c));
    } else if a.len() > 0 && b.len() > 0 {
        lex_less_is_a_strict_order(t(a), t(b), c);
    } else if a.len() > 0 {
        lex_less_is_a_strict_order(t(a), b, c);
    }
    if a != b {
        if a.len() > 0 && b.len() > 0 && a[0] == b[0] {
            if t(a) == t(b) {
                assert(a =~= seq![a[0]] + t(a));
                assert(b =~= seq![b[0]] + t(b));
            }
        } else if a.len() == 0 && b.len() == 0 {
            assert(a =~= b);
        }
    }
}

/// `a` comes before `b` in the order of their characters.
pub fn comes_before(a: &str, b: &str) -> (r: bool)
    ensures
        r == lex_less(a@, b@),
{
    let x = chars_of(a);
    let y = chars_of(b);
    let mut i: usize = 0;
    assert(from(a@, 0) =~= a@);
    assert(from(b@, 0) =~= b@);
    loop
        invariant
            i <= x.len(),
            i <= y.len(),
            x@ == a@,
            y@ == b@,
            lex_less(a@, b@) == lex_less(from(a@, i as int), from(b@, i as int)),
        decreases x.len() - i,
    {
        if i == y.len() {
            return false;
        }
        if i == x.len() {
            return true;
        }
        if x[i] != y[i] {
            return x[i] < y[i];
        }
        proof {
            let s = from(a@, i as int);
            let t = from(b@, i as int);
            assert(s.subrange(1, s.len() as int) =~= from(a@, i + 1));
            assert(t.subrange(1, t.len() as int) =~= from(b@, i + 1));
        }
        i = i + 1;
    }
}

// ---------------------------------------------------------------------------
// Splitting
// ---------------------------------------------------------------------------

/// The first position at or after `at` that holds `c`.
pub open spec fn char_from(s: Seq<char>, c: char, at: int) -> Option<int>
    decreases s.len() - at,
{
    if at < 0 || at >= s.len() {
        None
    } else if s[at] == c {
        Some(at)
    } else {
        char_from(s, c, at + 1)
    }
}

pub proof fn char_from_is_least(s: Seq<char>, c: char, at: int)
    requires
        0 <= at,
    ensures
        match char_from(s, c, at) {
            Some(i) => {
                &&& at <= i < s.len()
                &&& s[i] == c
                &&& forall|j: int| at <= j < i ==> s[j] != c
            },
            None => forall|j: int| at <= j < s.len() ==> s[j] != c,
        },
    decreases s.len() - at,
{
    if at < s.len() && s[at] != c {
        char_from_is_least(s, c, at + 1);
    }
}

/// The parts of `s` from `at` on that `c` separates.
pub open spec fn split_from(s: Seq<char>, c: char, at: int) -> Seq<Seq<char>>
    decreases s.len() + 1 - at,
    when 0 <= at
    via split_from_decreases
{
    match char_from(s, c, at) {
        Some(i) => seq![s.subrange(at, i)] + split_from(s, c, i + 1),
        None => seq![s.subrange(at, s.len() as int)],
    }
}

#[via_fn]
proof fn split_from_decreases(s: Seq<char>, c: char, at: int) {
    char_from_is_least(s, c, at);
}

/// The parts of `s` that `c` separates; one more than there are `c`.
pub open spec fn split_on(s: Seq<char>, c: char) -> Seq<Seq<char>> {
    split_from(s, c, 0)
}

/// The position of the first `c` in `v` at or after `at`.
pub fn char_position(v: &Vec<char>, c: char, at: usize) -> (r: Option<usize>)
    requires
        at <= v.len(),
    ensures
        match r {
            Some(i) => char_from(v@, c, at as int) == Some(i as int) && at <= i < v.len() && v@[i as int] == c,
            None => char_from(v@, c, at as int) is None,
        },
{
    let mut i: usize = at;
    while i < v.len()
        invariant
            at <= i <= v.len(),
            char_from(v@, c, at as int) == char_from(v@, c, i as int),
        decreases v.len() - i,
    {
        if v[i] == c {
            return Some(i);
        }
        i = i + 1;
    }
    None
}

/// The parts of `s` that `c` separates.
pub fn split(s: &str, c: char) -> (r: Vec<String>)
    ensures
        views(r@) == split_on(s@, c),
{
    let v = chars_of(s);
    let mut out: Vec<String> = Vec::new();
    let mut at: usize = 0;
    assert(views(out@) + split_on(s@, c) =~= split_on(s@, c));
    loop
        invariant
            at <= v.len(),
            v@ == s@,
            split_on(s@, c) == views(out@) + split_from(s@, c, at as int),
        decreases v.len() + 1 - at,
    {
        let ghost before = out@;
        match char_position(&v, c, at) {
            Some(i) => {
                let part = substr(&v, at, i);
                out.push(part);
                assert(views(out@) =~= views(before).push(part@));
                proof {
                    let tail = split_from(s@, c, i + 1);
                    assert(views(before) + (seq![part@] + tail) =~= views(out@) + tail);
                }
                at = i + 1;
            },
            None => {
                let part = substr(&v, at, v.len());
                out.push(part);
                assert(views(out@) =~= views(before) + seq![part@]);
                return out;
            },
        }
    }
}

/// The parts, with `sep` between each two.
pub open spec fn joined(parts: Seq<Seq<char>>, sep: Seq<char>) -> Seq<char>
    decreases parts.len(),
{
    if parts.len() == 0 {
        Seq::empty()
    } else if parts.len() == 1 {
        parts[0]
    } else {
        joined(parts.drop_last(), sep) + sep + parts.last()
    }
}

/// The parts, with `sep` between each two.
pub fn join(parts: &Vec<String>, sep: &str) -> (r: String)
    ensures
        r@ == joined(views(parts@), sep@),
{
    let mut out = String::new();
    let mut i: usize = 0;
    while i < parts.len()
        invariant
            i <= parts.len(),
            out@ == joined(views(parts@).subrange(0, i as int), sep@),
        decreases parts.len() - i,
    {
        let ghost part = views(parts@).subrange(0, i + 1);
        assert(part.drop_last() =~= views(parts@).subrange(0, i as int));
        assert(part.last() == parts@[i as int]@);
        if i > 0 {
            out.append(sep);
        }
        let ghost before = out@;
        out.append(parts[i].as_str());
        if i == 0 {
            assert(out@ =~= parts@[0]@);
        }
        i = i + 1;
    }
    assert(views(parts@).subrange(0, i as int) =~= views(parts@));
    out
}

/// A copy of a list of strings.
pub fn copy_all(v: &Vec<String>) -> (r: Vec<String>)
    ensures
        views(r@) == views(v@),
{
    let mut out: Vec<String> = Vec::new();
    let mut i: usize = 0;
    while i < v.len()
        invariant
            i <= v.len(),
            out@.len() == i,
            forall|k: int| 0 <= k < i ==> (#[trigger] out@[k])@ == v@[k]@,
        decreases v.len() - i,
    {
        out.push(v[i].clone());
        i = i + 1;
    }
    assert(views(out@) =~= views(v@));
    out
}

// ---------------------------------------------------------------------------
// Bytes
// ---------------------------------------------------------------------------

/// Appending a character appends its bytes.
pub proof fn encode_push(s: Seq<char>, c: char)
    ensures
        encode_utf8(s.push(c)) == encode_utf8(s) + encode_scalar(c as u32),
    decreases s.len(),
{
    if s.len() == 0 {
        assert(s.push(c).drop_first() =~= Seq::empty());
        assert(encode_utf8(s.push(c)) =~= encode_scalar(c as u32) + encode_utf8(Seq::empty()));
        assert(encode_utf8(Seq::<char>::empty()) =~= Seq::empty());
        assert(encode_utf8(s) =~= Seq::empty());
        assert(encode_utf8(s.push(c)) =~= encode_utf8(s) + encode_scalar(c as u32));
    } else {
        encode_push(s.drop_first(), c);
        assert(s.push(c).drop_first() =~= s.drop_first().push(c));
        assert(encode_utf8(s.push(c)) =~= encode_utf8(s) + encode_scalar(c as u32));
    }
}

/// The bytes that a character takes.
pub fn char_bytes(c: char) -> (r: usize)
    ensures
        r == encode_scalar(c as u32).len(),
        1 <= r <= 4,
{
    proof {
        vstd::utf8::char_is_scalar(c);
    }
    let n: u32 = c as u32;
    if n < 0x80 {
        1
    } else if n < 0x800 {
        2
    } else if n < 0x1_0000 {
        3
    } else {
        4
    }
}

/// How many characters of `s` the longest prefix of at most `cap` bytes has.
pub open spec fn prefix_within(s: Seq<char>, cap: int) -> int
    decreases s.len(),
{
    if s.len() == 0 || encode_utf8(s).len() <= cap {
        s.len() as int
    } else {
        prefix_within(s.drop_last(), cap)
    }
}

proof fn encode_grows(s: Seq<char>, i: int)
    requires
        0 <= i <= s.len(),
    ensures
        encode_utf8(s.subrange(0, i)).len() <= encode_utf8(s).len(),
    decreases s.len() - i,
{
    if i == s.len() {
        assert(s.subrange(0, i) =~= s);
    } else {
        assert(s.subrange(0, i + 1) =~= s.subrange(0, i).push(s[i]));
        encode_push(s.subrange(0, i), s[i]);
        encode_grows(s, i + 1);
    }
}

/// The longest prefix within a number of bytes: one more character is too many.
pub proof fn prefix_within_is(s: Seq<char>, cap: int, k: int)
    requires
        0 <= k <= s.len(),
        k == 0 || encode_utf8(s.subrange(0, k)).len() <= cap,
        k < s.len() ==> encode_utf8(s.subrange(0, k + 1)).len() > cap,
    ensures
        prefix_within(s, cap) == k,
    decreases s.len(),
{
    if k == s.len() {
        assert(s.subrange(0, k) =~= s);
    } else {
        encode_grows(s, k + 1);
        let t = s.drop_last();
        assert(t.subrange(0, k) =~= s.subrange(0, k));
        if k < t.len() {
            assert(t.subrange(0, k + 1) =~= s.subrange(0, k + 1));
        }
        prefix_within_is(t, cap, k);
    }
}

/// A character takes at least one byte: a longer prefix has more bytes.
pub proof fn whole_prefix(s: Seq<char>, k: int)
    requires
        0 <= k <= s.len(),
        encode_utf8(s).len() <= encode_utf8(s.subrange(0, k)).len(),
    ensures
        k == s.len(),
{
    if k < s.len() {
        encode_grows(s, k + 1);
        assert(s.subrange(0, k + 1) =~= s.subrange(0, k).push(s[k]));
        encode_push(s.subrange(0, k), s[k]);
        vstd::utf8::char_is_scalar(s[k]);
    }
}

/// The bytes of a prefix hold that prefix and no more.
pub proof fn prefix_within_of(s: Seq<char>, k: int)
    requires
        0 <= k <= s.len(),
    ensures
        prefix_within(s, encode_utf8(s.subrange(0, k)).len() as int) == k,
{
    if k < s.len() {
        assert(s.subrange(0, k + 1) =~= s.subrange(0, k).push(s[k]));
        encode_push(s.subrange(0, k), s[k]);
        vstd::utf8::char_is_scalar(s[k]);
    }
    prefix_within_is(s, encode_utf8(s.subrange(0, k)).len() as int, k);
}

/// How many characters the longest prefix of `v` of at most `cap` bytes has.
pub fn chars_within(v: &Vec<char>, cap: usize) -> (r: usize)
    ensures
        r == prefix_within(v@, cap as int),
        r <= v.len(),
{
    let mut bytes: usize = 0;
    let mut i: usize = 0;
    assert(encode_utf8(v@.subrange(0, 0)).len() == 0) by {
        assert(v@.subrange(0, 0) =~= Seq::empty());
    }
    while i < v.len()
        invariant
            i <= v.len(),
            bytes == encode_utf8(v@.subrange(0, i as int)).len(),
            bytes <= cap,
        decreases v.len() - i,
    {
        let w = char_bytes(v[i]);
        proof {
            assert(v@.subrange(0, i + 1) =~= v@.subrange(0, i as int).push(v@[i as int]));
            encode_push(v@.subrange(0, i as int), v@[i as int]);
        }
        if w > cap - bytes {
            proof {
                prefix_within_is(v@, cap as int, i as int);
            }
            return i;
        }
        bytes = bytes + w;
        i = i + 1;
    }
    proof {
        prefix_within_is(v@, cap as int, i as int);
    }
    i
}

// ---------------------------------------------------------------------------
// Letters of all scripts
// ---------------------------------------------------------------------------

/// What `str::to_lowercase` gives.
pub uninterp spec fn lowercase(s: Seq<char>) -> Seq<char>;

/// `str::to_lowercase`, under the name `lowercase`; on ASCII text it lowers the
/// letters `A` to `Z`.
#[verifier::external_body]
pub(crate) fn to_lower(s: &str) -> (r: String)
    ensures
        r@ == lowercase(s@),
        is_ascii_chars(s@) ==> r@ == ascii_lower(s@),
{
    s.to_lowercase()
}

/// What `char::is_alphanumeric` gives.
pub uninterp spec fn alphanumeric(c: char) -> bool;

/// `char::is_alphanumeric`, under the name `alphanumeric`; among the ASCII
/// characters it holds of letters and digits.
#[verifier::external_body]
pub(crate) fn is_alphanumeric(c: char) -> (r: bool)
    ensures
        r == alphanumeric(c),
        (c as u32) < 0x80 ==> r == is_ascii_alnum(c),
{
    c.is_alphanumeric()
}

/// Trimming takes white space off both ends, all of it and nothing else.
pub proof fn trimming_takes_white_space_only(a: Seq<char>, x: Seq<char>, b: Seq<char>)
    requires
        forall|i: int| 0 <= i < a.len() ==> is_white(#[trigger] a[i]),
        forall|i: int| 0 <= i < b.len() ==> is_white(#[trigger] b[i]),
        x.len() > 0 ==> !is_white(x[0]) && !is_white(x.last()),
    ensures
        trim(a + x + b) == x,
{
    let s = a + x + b;
    if x.len() > 0 {
        leading_white_goes(a, x + b);
        assert(a + (x + b) =~= s);
        trailing_white_goes(x, b);
    } else {
        let w = a + b;
        assert(s =~= w + Seq::<char>::empty());
        leading_white_goes(w, Seq::empty());
        assert(trim_end(Seq::<char>::empty()) =~= Seq::<char>::empty());
    }
}

/// White space before a text goes, all of it.
pub proof fn leading_white_goes(a: Seq<char>, x: Seq<char>)
    requires
        forall|i: int| 0 <= i < a.len() ==> is_white(#[trigger] a[i]),
        x.len() > 0 ==> !is_white(x[0]),
    ensures
        trim_start(a + x) == x,
    decreases a.len(),
{
    if a.len() == 0 {
        assert(a + x =~= x);
    } else {
        let rest = a.subrange(1, a.len() as int);
        assert((a + x).subrange(1, (a + x).len() as int) =~= rest + x);
        assert((a + x)[0] == a[0]);
        assert forall|i: int| 0 <= i < rest.len() implies is_white(#[trigger] rest[i]) by {
            assert(rest[i] == a[i + 1]);
        }
        leading_white_goes(rest, x);
    }
}

proof fn trailing_white_goes(x: Seq<char>, b: Seq<char>)
    requires
        forall|i: int| 0 <= i < b.len() ==> is_white(#[trigger] b[i]),
        x.len() > 0 ==> !is_white(x.last()),
    ensures
        trim_end(x + b) == x,
    decreases b.len(),
{
    if b.len() == 0 {
        assert(x + b =~= x);
    } else {
        let s = x + b;
        let rest = b.subrange(0, b.len() - 1);
        assert(s.subrange(0, s.len() - 1) =~= x + rest);
        assert(s[s.len() - 1] == b[b.len() - 1]);
        assert forall|i: int| 0 <= i < rest.len() implies is_white(#[trigger] rest[i]) by {
            assert(rest[i] == b[i]);
        }
        trailing_white_goes(x, rest);
    }
}

/// `rfind` gives the last position at which the pattern stands.
pub proof fn rfind_is_last(s: Seq<char>, p: Seq<char>)
    ensures
        match rfind(s, p) {
            Some(i) => occurs_at(s, p, i) && forall|j: int| i < j ==> !occurs_at(s, p, j),
            None => forall|j: int| !occurs_at(s, p, j),
        },
{
    rfind_upto_is_last(s, p, s.len() - p.len());
}

proof fn rfind_upto_is_last(s: Seq<char>, p: Seq<char>, at: int)
    ensures
        match rfind_upto(s, p, at) {
            Some(i) => i <= at && occurs_at(s, p, i) && forall|j: int|
                i < j <= at ==> !occurs_at(s, p, j),
            None => forall|j: int| j <= at ==> !occurs_at(s, p, j),
        },
    decreases at + 1,
{
    if at >= 0 && !occurs_at(s, p, at) {
        rfind_upto_is_last(s, p, at - 1);
    }
}

/// A number is written with its digits: reading them back gives the number.
pub proof fn decimals_read_back(n: nat)
    ensures
        all_digits(dec_text(n)),
        dec_text(n).len() > 0,
        digits_value(dec_text(n)) == n,
        n > 0 ==> dec_text(n)[0] != '0',
    decreases n,
{
    if n >= 10 {
        decimals_read_back(n / 10);
        let s = dec_text(n / 10);
        let d = digit_char((n % 10) as int);
        assert(s.push(d).drop_last() =~= s);
        assert(s.push(d)[0] == s[0]);
        assert forall|i: int| 0 <= i < s.push(d).len() implies is_ascii_digit(
            #[trigger] s.push(d)[i],
        ) by {
            if i < s.len() {
                assert(s.push(d)[i] == s[i]);
            }
        }
    } else {
        let s = dec_text(n);
        assert(s.drop_last() =~= Seq::empty());
        assert(digits_value(s.drop_last()) == 0);
    }
}

/// A number that was written is read, where it is not above the bound, also behind
/// a plus sign; above the bound nothing is read, and neither is what is no number.
pub proof fn numbers_read_back(n: nat, max: int, other: Seq<char>)
    ensures
        n <= max ==> number_upto(dec_text(n), max) == Some(n as int),
        n <= max ==> number_upto(seq!['+'] + dec_text(n), max) == Some(n as int),
        n > max ==> number_upto(dec_text(n), max) is None,
        other.len() == 0 ==> number_upto(other, max) is None,
        other.len() > 0 && !is_ascii_digit(other.last()) ==> number_upto(other, max) is None,
{
    decimals_read_back(n);
    let s = dec_text(n);
    let p = seq!['+'] + s;
    assert(is_ascii_digit(s[0]));
    assert(p.subrange(1, p.len() as int) =~= s);
    if other.len() > 0 && !is_ascii_digit(other.last()) {
        let d = if other[0] == '+' {
            other.subrange(1, other.len() as int)
        } else {
            other
        };
        if d.len() > 0 {
            assert(d[d.len() - 1] == other.last());
        }
    }
}

/// A signed number that was written is read back.
pub proof fn signed_numbers_read_back(n: i64)
    ensures
        signed_number(signed_text(n as int)) == Some(n as int),
{
    if n < 0 {
        let m = (-(n as int)) as nat;
        decimals_read_back(m);
        let s = signed_text(n as int);
        assert(s.subrange(1, s.len() as int) =~= dec_text(m));
    } else {
        decimals_read_back(n as nat);
        numbers_read_back(n as nat, i64::MAX as int, Seq::empty());
        assert(is_ascii_digit(dec_text(n as nat)[0]));
    }
}

/// The parts of a text hold no separator, and the text is made of them.
pub proof fn parts_make_the_text(s: Seq<char>, c: char)
    ensures
        split_on(s, c).len() > 0,
        joined(split_on(s, c), seq![c]) == s,
        forall|i: int| 0 <= i < split_on(s, c).len() ==> !(#[trigger] split_on(s, c)[i]).contains(c),
{
    parts_from_make_the_rest(s, c, 0);
    assert(s.subrange(0, s.len() as int) =~= s);
}

proof fn parts_from_make_the_rest(s: Seq<char>, c: char, at: int)
    requires
        0 <= at <= s.len(),
    ensures
        split_from(s, c, at).len() > 0,
        joined(split_from(s, c, at), seq![c]) == s.subrange(at, s.len() as int),
        forall|i: int|
            0 <= i < split_from(s, c, at).len() ==> !(#[trigger] split_from(s, c, at)[i]).contains(c),
    decreases s.len() - at,
{
    char_from_is_least(s, c, at);
    let all = split_from(s, c, at);
    match char_from(s, c, at) {
        Some(i) => {
            parts_from_make_the_rest(s, c, i + 1);
            let first = s.subrange(at, i);
            let rest = split_from(s, c, i + 1);
            joined_from_the_front(first, rest, seq![c]);
            assert(first + seq![c] + s.subrange(i + 1, s.len() as int) =~= s.subrange(
                at,
                s.len() as int,
            ));
            assert forall|k: int| 0 <= k < all.len() implies !(#[trigger] all[k]).contains(c) by {
                if k == 0 {
                    assert(all[0] == first);
                    if first.contains(c) {
                        let m = choose|m: int| 0 <= m < first.len() && first[m] == c;
                        assert(s[at + m] == c);
                    }
                } else {
                    assert(all[k] == rest[k - 1]);
                }
            }
        },
        None => {
            let only = s.subrange(at, s.len() as int);
            assert(all =~= seq![only]);
            if only.contains(c) {
                let m = choose|m: int| 0 <= m < only.len() && only[m] == c;
                assert(s[at + m] == c);
            }
        },
    }
}

proof fn joined_from_the_front(first: Seq<char>, rest: Seq<Seq<char>>, sep: Seq<char>)
    requires
        rest.len() > 0,
    ensures
        joined(seq![first] + rest, sep) == first + sep + joined(rest, sep),
    decreases rest.len(),
{
    let all = seq![first] + rest;
    assert(all.last() == rest.last());
    if rest.len() == 1 {
        assert(all.drop_last() =~= seq![first]);
        assert(joined(seq![first], sep) == first);
    } else {
        assert(all.drop_last() =~= seq![first] + rest.drop_last());
        joined_from_the_front(first, rest.drop_last(), sep);
        assert(first + sep + joined(rest.drop_last(), sep) + sep + rest.last() =~= first + sep + (
        joined(rest.drop_last(), sep) + sep + rest.last()));
    }
}

/// Parts are joined in their order, with the separator between each two.
pub proof fn parts_are_joined_in_order(a: Seq<Seq<char>>, x: Seq<char>, sep: Seq<char>)
    ensures
        joined(Seq::empty(), sep).len() == 0,
        joined(seq![x], sep) == x,
        a.len() > 0 ==> joined(a.push(x), sep) == joined(a, sep) + sep + x,
{
    assert(a.push(x).drop_last() =~= a);
}

/// Small letters stand for capital ones, and everything else for itself.
pub proof fn lower_case_is_lower(s: Seq<char>, i: int)
    requires
        0 <= i < s.len(),
    ensures
        ascii_lower(s).len() == s.len(),
        !('A' <= s[i] <= 'Z') ==> ascii_lower(s)[i] == s[i],
        'A' <= s[i] <= 'Z' ==> 'a' <= ascii_lower(s)[i] <= 'z' && ascii_lower(s)[i] as int
            - s[i] as int == 'a' as int - 'A' as int,
        ascii_lower(ascii_lower(s)) == ascii_lower(s),
{
    assert(ascii_lower(ascii_lower(s)) =~= ascii_lower(s));
}

/// A text comes before another where it is a part of its start, or where its first
/// different character is smaller.
pub proof fn texts_are_in_dictionary_order(a: Seq<char>, x: Seq<char>, y: Seq<char>)
    ensures
        x.len() == 0 && y.len() > 0 ==> lex_less(a + x, a + y),
        x.len() > 0 && y.len() > 0 && x[0] < y[0] ==> lex_less(a + x, a + y) && !lex_less(
            a + y,
            a + x,
        ),
        !lex_less(a, a),
    decreases a.len(),
{
    if a.len() == 0 {
        assert(a + x =~= x);
        assert(a + y =~= y);
    } else {
        let r = a.subrange(1, a.len() as int);
        texts_are_in_dictionary_order(r, x, y);
        assert((a + x).subrange(1, (a + x).len() as int) =~= r + x);
        assert((a + y).subrange(1, (a + y).len() as int) =~= r + y);
        assert((a + x)[0] == a[0]);
        assert((a + y)[0] == a[0]);
    }
}

/// The hexadecimal digits of a number, most significant first.
pub proof fn hexadecimals_have_their_width(n: nat, width: nat)
    ensures
        hex_text(n, width).len() == width,
        width > 0 ==> hex_text(n, width).last() == digit_char((n % 16) as int),
        width > 0 ==> hex_text(n, width).drop_last() == hex_text(n / 16, (width - 1) as nat),
        digit_char(9) == '9' && digit_char(10) == 'a' && digit_char(15) == 'f',
    decreases width,
{
    if width > 0 {
        hexadecimals_have_their_width(n / 16, (width - 1) as nat);
        assert(hex_text(n, width).drop_last() =~= hex_text(n / 16, (width - 1) as nat));
    }
}

/// A text begins with its beginning, ends with its end, and contains what stands
/// within it; where it is found to begin, end or contain so, it is made up like that.
pub proof fn a_text_begins_and_ends_as_it_is_made_up(a: Seq<char>, p: Seq<char>, b: Seq<char>)
    ensures
        starts_with(p + b, p),
        ends_with(a + p, p),
        contains(a + p + b, p),
        starts_with(a, p) ==> a == p + from(a, p.len() as int),
        ends_with(a, p) ==> a == a.subrange(0, a.len() - p.len()) + p,
        find(a, p) matches Some(i) ==> 0 <= i && i + p.len() <= a.len() && a == a.subrange(0, i) + p
            + from(a, i + p.len()),
{
    let n = a.len() as int;
    assert((p + b).subrange(0, p.len() as int) =~= p);
    assert((a + p).subrange(n, n + p.len()) =~= p);
    let s = a + p + b;
    assert(s.subrange(n, n + p.len()) =~= p);
    assert(occurs_at(s, p, n));
    find_from_is_least(s, p, 0);
    if starts_with(a, p) {
        assert(a =~= p + from(a, p.len() as int));
    }
    if ends_with(a, p) {
        assert(a =~= a.subrange(0, a.len() - p.len()) + p);
    }
    find_from_is_least(a, p, 0);
    if let Some(i) = find(a, p) {
        assert(a =~= a.subrange(0, i) + p + from(a, i + p.len()));
    }
}

/// The letters and digits of plain text are those from a to z, in both cases, and
/// those from 0 to 9.
pub proof fn letters_and_digits_are_plain(c: char)
    ensures
        is_ascii_alnum('a') && is_ascii_alnum('z') && is_ascii_alnum('A') && is_ascii_alnum('Z')
            && is_ascii_alnum('0') && is_ascii_alnum('9'),
        is_ascii_alnum(c) <==> ('0' <= c <= '9' || 'a' <= c <= 'z' || 'A' <= c <= 'Z'),
{
}

} // verus!
