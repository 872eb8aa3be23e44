//! Character-level text helpers shared by every module.

use vstd::prelude::*;

verus! {

/// ASCII punctuation, as `u8::is_ascii_punctuation` classifies it.
pub open spec fn is_punct(c: char) -> bool {
    let n = c as u32;
    (0x21 <= n && n <= 0x2f) || (0x3a <= n && n <= 0x40) || (0x5b <= n && n <= 0x60) || (0x7b
        <= n && n <= 0x7e)
}

/// ASCII letter.
pub open spec fn is_alpha(c: char) -> bool {
    let n = c as u32;
    (0x41 <= n && n <= 0x5a) || (0x61 <= n && n <= 0x7a)
}

/// ASCII digit.
pub open spec fn is_digit(c: char) -> bool {
    let n = c as u32;
    0x30 <= n && n <= 0x39
}

/// ASCII letter or digit.
pub open spec fn is_alnum(c: char) -> bool {
    is_alpha(c) || is_digit(c)
}

/// ASCII whitespace, as `u8::is_ascii_whitespace` classifies it (space, tab,
/// line feed, form feed, carriage return).
pub open spec fn is_ascii_ws(c: char) -> bool {
    c == ' ' || c == '\t' || c == '\n' || c == '\x0C' || c == '\r'
}

/// Unicode `White_Space`, as `char::is_whitespace` classifies it.
pub open spec fn is_ws(c: char) -> bool {
    let n = c as u32;
    (0x09 <= n && n <= 0x0d) || n == 0x20 || n == 0x85 || n == 0xa0 || n == 0x1680 || (0x2000
        <= n && n <= 0x200a) || n == 0x2028 || n == 0x2029 || n == 0x202f || n == 0x205f || n
        == 0x3000
}

pub fn punct(c: char) -> (r: bool)
    ensures
        r == is_punct(c),
{
    let n = c as u32;
    (0x21 <= n && n <= 0x2f) || (0x3a <= n && n <= 0x40) || (0x5b <= n && n <= 0x60) || (0x7b
        <= n && n <= 0x7e)
}

pub fn alpha(c: char) -> (r: bool)
    ensures
        r == is_alpha(c),
{
    let n = c as u32;
    (0x41 <= n && n <= 0x5a) || (0x61 <= n && n <= 0x7a)
}

pub fn digit(c: char) -> (r: bool)
    ensures
        r == is_digit(c),
{
    let n = c as u32;
    0x30 <= n && n <= 0x39
}

pub fn alnum(c: char) -> (r: bool)
    ensures
        r == is_alnum(c),
{
    alpha(c) || digit(c)
}

pub fn ascii_ws(c: char) -> (r: bool)
    ensures
        r == is_ascii_ws(c),
{
    c == ' ' || c == '\t' || c == '\n' || c == '\x0C' || c == '\r'
}

pub fn ws(c: char) -> (r: bool)
    ensures
        r == is_ws(c),
{
    let n = c as u32;
    (0x09 <= n && n <= 0x0d) || n == 0x20 || n == 0x85 || n == 0xa0 || n == 0x1680 || (0x2000
        <= n && n <= 0x200a) || n == 0x2028 || n == 0x2029 || n == 0x202f || n == 0x205f || n
        == 0x3000
}

/// The characters of `s`, in order.
pub fn chars_of(s: &str) -> (out: Vec<char>)
    ensures
        out@ == s@,
{
    let mut out: Vec<char> = Vec::new();
    for c in it: s.chars()
        invariant
            out@ == it.seq().take(it.index() as int),
            it.seq() == s@,
    {
        out.push(c);
    }
    out
}

/// `String::push`.
#[verifier::external_body]
pub(crate) fn push_char(s: &mut String, c: char)
    ensures
        final(s)@ == old(s)@.push(c),
{
    s.push(c);
}

/// Append `v[from..to]` to `out`.
pub fn push_range(out: &mut String, v: &Vec<char>, from: usize, to: usize)
    requires
        from <= to <= v@.len(),
    ensures
        final(out)@ == old(out)@ + v@.subrange(from as int, to as int),
{
    let mut i = from;
    while i < to
        invariant
            from <= i <= to <= v@.len(),
            out@ == old(out)@ + v@.subrange(from as int, i as int),
        decreases to - i,
    {
        push_char(out, v[i]);
        i = i + 1;
        assert(v@.subrange(from as int, i as int) == v@.subrange(from as int, i - 1).push(
            v@[i - 1],
        ));
    }
}

/// A new string holding `v[from..to]`.
pub fn string_of_range(v: &Vec<char>, from: usize, to: usize) -> (out: String)
    requires
        from <= to <= v@.len(),
    ensures
        out@ == v@.subrange(from as int, to as int),
{
    let mut out = String::new();
    push_range(&mut out, v, from, to);
    out
}

/// A new string holding all of `v`.
pub fn string_of(v: &Vec<char>) -> (out: String)
    ensures
        out@ == v@,
{
    let out = string_of_range(v, 0, v.len());
    assert(v@.subrange(0, v@.len() as int) == v@);
    out
}

/// Append all of `t` to `out`.
pub fn push_str(out: &mut String, t: &str)
    ensures
        final(out)@ == old(out)@ + t@,
{
    let v = chars_of(t);
    push_range(out, &v, 0, v.len());
    assert(v@.subrange(0, v@.len() as int) == v@);
}


/// Number of leading Unicode whitespace characters of `s`.
pub open spec fn lead_ws(s: Seq<char>) -> nat
    decreases s.len(),
{
    if s.len() > 0 && is_ws(s[0]) {
        1 + lead_ws(s.subrange(1, s.len() as int))
    } else {
        0
    }
}

/// Number of trailing Unicode whitespace characters of `s`.
pub open spec fn trail_ws(s: Seq<char>) -> nat
    decreases s.len(),
{
    if s.len() > 0 && is_ws(s[s.len() - 1]) {
        1 + trail_ws(s.subrange(0, s.len() - 1))
    } else {
        0
    }
}

/// `str::trim`: `s` without leading and trailing Unicode whitespace.
pub open spec fn trim_spec(s: Seq<char>) -> Seq<char> {
    let a = lead_ws(s) as int;
    if a == s.len() {
        Seq::empty()
    } else {
        s.subrange(a, s.len() - trail_ws(s))
    }
}

pub proof fn lemma_lead_ws(s: Seq<char>, i: int)
    requires
        0 <= i <= s.len(),
        forall|k: int| 0 <= k < i ==> is_ws(s[k]),
    ensures
        lead_ws(s) == i + lead_ws(s.subrange(i, s.len() as int)),
        lead_ws(s) <= s.len(),
    decreases i,
{
    if i > 0 {
        let t = s.subrange(1, s.len() as int);
        assert(is_ws(s[0]));
        assert(t.subrange(i - 1, t.len() as int) == s.subrange(i, s.len() as int));
        assert forall|k: int| 0 <= k < i - 1 implies is_ws(t[k]) by {
            assert(t[k] == s[k + 1]);
        }
        lemma_lead_ws(t, i - 1);
    } else {
        assert(s.subrange(0, s.len() as int) == s);
        lemma_lead_ws_le(s);
    }
}

pub proof fn lemma_lead_ws_le(s: Seq<char>)
    ensures
        lead_ws(s) <= s.len(),
        lead_ws(s) < s.len() ==> !is_ws(s[lead_ws(s) as int]),
        forall|k: int| 0 <= k < lead_ws(s) ==> is_ws(s[k]),
    decreases s.len(),
{
    if s.len() > 0 && is_ws(s[0]) {
        let t = s.subrange(1, s.len() as int);
        lemma_lead_ws_le(t);
        assert forall|k: int| 0 <= k < lead_ws(s) implies is_ws(s[k]) by {
            if k > 0 {
                assert(s[k] == t[k - 1]);
            }
        }
    }
}

pub proof fn lemma_trail_ws_le(s: Seq<char>)
    ensures
        trail_ws(s) <= s.len(),
        trail_ws(s) < s.len() ==> !is_ws(s[s.len() - 1 - trail_ws(s)]),
        forall|k: int| s.len() - trail_ws(s) <= k < s.len() ==> is_ws(s[k]),
    decreases s.len(),
{
    if s.len() > 0 && is_ws(s[s.len() - 1]) {
        let t = s.subrange(0, s.len() - 1);
        lemma_trail_ws_le(t);
        assert forall|k: int| s.len() - trail_ws(s) <= k < s.len() implies is_ws(s[k]) by {
            if k < s.len() - 1 {
                assert(s[k] == t[k]);
            }
        }
    }
}

pub proof fn lemma_trail_ws(s: Seq<char>, j: int)
    requires
        0 <= j <= s.len(),
        forall|k: int| j <= k < s.len() ==> is_ws(s[k]),
    ensures
        trail_ws(s) == (s.len() - j) + trail_ws(s.subrange(0, j)),
    decreases s.len() - j,
{
    if j < s.len() {
        let t = s.subrange(0, s.len() - 1);
        assert(t.subrange(0, j) == s.subrange(0, j));
        lemma_trail_ws(t, j);
    } else {
        assert(s.subrange(0, j) == s);
    }
}

/// The bounds of `str::trim` within `v`: `v[a..b]` is `trim(v)`.
pub fn trim_bounds(v: &Vec<char>) -> (r: (usize, usize))
    ensures
        r.0 <= r.1 <= v@.len(),
        v@.subrange(r.0 as int, r.1 as int) == trim_spec(v@),
{
    let mut a: usize = 0;
    while a < v.len() && ws(v[a])
        invariant
            a <= v@.len(),
            forall|k: int| 0 <= k < a ==> is_ws(v@[k]),
        decreases v@.len() - a,
    {
        a = a + 1;
    }
    proof {
        lemma_lead_ws(v@, a as int);
        lemma_lead_ws_le(v@.subrange(a as int, v@.len() as int));
    }
    if a == v.len() {
        assert(v@.subrange(a as int, a as int) =~= Seq::<char>::empty());
        return (a, a);
    }
    assert(lead_ws(v@) == a);
    let mut b: usize = v.len();
    while b > a && ws(v[b - 1])
        invariant
            a < v@.len(),
            !is_ws(v@[a as int]),
            a <= b <= v@.len(),
            forall|k: int| b <= k < v@.len() ==> is_ws(v@[k]),
        decreases b,
    {
        b = b - 1;
    }
    proof {
        lemma_trail_ws(v@, b as int);
        let t = v@.subrange(0, b as int);
        assert(b > a);
        assert(!is_ws(t[t.len() - 1]));
        assert(trail_ws(t) == 0);
    }
    (a, b)
}

/// ASCII lowercase of a character code.
pub open spec fn lower_code(n: u32) -> u32 {
    if 0x41 <= n && n <= 0x5a {
        (n + 32) as u32
    } else {
        n
    }
}

/// `str::eq_ignore_ascii_case`.
pub open spec fn eq_ignore_case_spec(a: Seq<char>, b: Seq<char>) -> bool {
    a.len() == b.len() && forall|i: int|
        0 <= i < a.len() ==> lower_code(#[trigger] a[i] as u32) == lower_code(b[i] as u32)
}

pub fn eq_ignore_case(a: &Vec<char>, b: &Vec<char>) -> (r: bool)
    ensures
        r == eq_ignore_case_spec(a@, b@),
{
    if a.len() != b.len() {
        return false;
    }
    let mut i: usize = 0;
    while i < a.len()
        invariant
            a@.len() == b@.len(),
            i <= a@.len(),
            forall|k: int| 0 <= k < i ==> lower_code(#[trigger] a@[k] as u32) == lower_code(
                b@[k] as u32,
            ),
        decreases a@.len() - i,
    {
        let x = a[i] as u32;
        let y = b[i] as u32;
        let lx = if 0x41 <= x && x <= 0x5a {
            x + 32
        } else {
            x
        };
        let ly = if 0x41 <= y && y <= 0x5a {
            y + 32
        } else {
            y
        };
        if lx != ly {
            return false;
        }
        i = i + 1;
    }
    true
}

/// Whether two character sequences are equal.
pub fn seq_eq(a: &Vec<char>, b: &Vec<char>) -> (r: bool)
    ensures
        r == (a@ == b@),
{
    if a.len() != b.len() {
        return false;
    }
    let mut i: usize = 0;
    while i < a.len()
        invariant
            a@.len() == b@.len(),
            i <= a@.len(),
            forall|k: int| 0 <= k < i ==> a@[k] == b@[k],
        decreases a@.len() - i,
    {
        if a[i] != b[i] {
            return false;
        }
        i = i + 1;
    }
    assert(a@ =~= b@);
    true
}

/// Whether two strings are equal.
pub fn str_eq(a: &str, b: &str) -> (r: bool)
    ensures
        r == (a@ == b@),
{
    let x = chars_of(a);
    let y = chars_of(b);
    seq_eq(&x, &y)
}

/// Whether `v[at..]` starts with `p`.
pub open spec fn has_prefix_at(v: Seq<char>, at: int, p: Seq<char>) -> bool {
    0 <= at && at + p.len() <= v.len() && v.subrange(at, at + p.len()) == p
}

pub fn prefix_at(v: &Vec<char>, at: usize, p: &Vec<char>) -> (r: bool)
    requires
        at <= v@.len(),
    ensures
        r == has_prefix_at(v@, at as int, p@),
{
    if p.len() > v.len() - at {
        return false;
    }
    let mut i: usize = 0;
    while i < p.len()
        invariant
            v@.len() <= usize::MAX,
            at + p@.len() <= v@.len(),
            i <= p@.len(),
            forall|k: int| 0 <= k < i ==> v@[at + k] == p@[k],
        decreases p@.len() - i,
    {
        if v[at + i] != p[i] {
            assert(v@.subrange(at as int, at + p@.len())[i as int] != p@[i as int]);
            return false;
        }
        i = i + 1;
    }
    assert(v@.subrange(at as int, at + p@.len()) =~= p@);
    true
}

/// The first position at or after `from` where `p` occurs in `v`.
pub open spec fn find_from_spec(v: Seq<char>, from: int, p: Seq<char>) -> Option<int>
    decreases v.len() + 1 - from,
{
    if from < 0 || from + p.len() > v.len() {
        None
    } else if v.subrange(from, from + p.len()) == p {
        Some(from)
    } else {
        find_from_spec(v, from + 1, p)
    }
}

pub proof fn lemma_find_from_bounds(v: Seq<char>, from: int, p: Seq<char>)
    ensures
        find_from_spec(v, from, p) matches Some(i) ==> from <= i && i + p.len() <= v.len(),
    decreases v.len() + 1 - from,
{
    if !(from < 0 || from + p.len() > v.len()) && v.subrange(from, from + p.len()) != p {
        lemma_find_from_bounds(v, from + 1, p);
    }
}

pub fn find_from(v: &Vec<char>, from: usize, p: &Vec<char>) -> (r: Option<usize>)
    requires
        from <= v@.len(),
    ensures
        r == match find_from_spec(v@, from as int, p@) {
            Some(i) => Some(i as usize),
            None => None::<usize>,
        },
        find_from_spec(v@, from as int, p@) matches Some(i) ==> from <= i && i + p@.len() <= v@.len(),
{
    proof {
        lemma_find_from_bounds(v@, from as int, p@);
    }
    if p.len() == 0 {
        assert(v@.subrange(from as int, from as int) =~= p@);
        return Some(from);
    }
    let n = v.len();
    let mut at = from;
    while p.len() <= n - at
        invariant
            n == v@.len(),
            p@.len() >= 1,
            from <= at <= v@.len(),
            find_from_spec(v@, from as int, p@) == find_from_spec(v@, at as int, p@),
        decreases v@.len() + 1 - at,
    {
        if prefix_at(v, at, p) {
            return Some(at);
        }
        at = at + 1;
    }
    None
}


/// The first index at or after `from` holding `c`, or the length.
pub open spec fn index_of_spec(s: Seq<char>, from: int, c: char) -> int
    decreases s.len() - from,
{
    if from < 0 || from >= s.len() {
        s.len() as int
    } else if s[from] == c {
        from
    } else {
        index_of_spec(s, from + 1, c)
    }
}

pub fn index_of(v: &Vec<char>, from: usize, c: char) -> (r: usize)
    requires
        from <= v@.len(),
    ensures
        r as int == index_of_spec(v@, from as int, c),
        from <= r <= v@.len(),
        forall|k: int| from <= k < r ==> v@[k] != c,
        r < v@.len() ==> v@[r as int] == c,
{
    let mut i = from;
    while i < v.len() && v[i] != c
        invariant
            from <= i <= v@.len(),
            index_of_spec(v@, from as int, c) == index_of_spec(v@, i as int, c),
            forall|k: int| from <= k < i ==> v@[k] != c,
        decreases v@.len() - i,
    {
        i = i + 1;
    }
    i
}

/// `v[from..to]` as a new vector.
pub fn sub_vec(v: &Vec<char>, from: usize, to: usize) -> (r: Vec<char>)
    requires
        from <= to <= v@.len(),
    ensures
        r@ == v@.subrange(from as int, to as int),
{
    let mut r: Vec<char> = Vec::new();
    let mut i = from;
    while i < to
        invariant
            from <= i <= to <= v@.len(),
            r@ == v@.subrange(from as int, i as int),
        decreases to - i,
    {
        r.push(v[i]);
        i = i + 1;
        assert(r@ =~= v@.subrange(from as int, i as int));
    }
    r
}

/// The characters of `str::trim(s)`.
pub fn trimmed_chars(s: &str) -> (r: Vec<char>)
    ensures
        r@ == trim_spec(s@),
{
    let v = chars_of(s);
    let (a, b) = trim_bounds(&v);
    sub_vec(&v, a, b)
}

/// `parts` joined with `sep` between consecutive parts.
pub open spec fn join_spec(parts: Seq<Seq<char>>, sep: Seq<char>) -> Seq<char>
    decreases parts.len(),
{
    if parts.len() == 0 {
        Seq::empty()
    } else if parts.len() == 1 {
        parts[0]
    } else {
        join_spec(parts.drop_last(), sep) + sep + parts.last()
    }
}

pub open spec fn string_seqs(v: Seq<String>) -> Seq<Seq<char>> {
    v.map_values(|s: String| s@)
}

/// Join strings with a separator.
pub fn join(parts: &Vec<String>, sep: &str) -> (r: String)
    ensures
        r@ == join_spec(string_seqs(parts@), sep@),
{
    let ghost ps = string_seqs(parts@);
    let mut out = String::new();
    let mut i: usize = 0;
    assert(ps.take(0) =~= Seq::<Seq<char>>::empty());
    while i < parts.len()
        invariant
            i <= parts@.len(),
            ps == string_seqs(parts@),
            out@ == join_spec(ps.take(i as int), sep@),
        decreases parts@.len() - i,
    {
        assert(ps.take(i + 1).drop_last() =~= ps.take(i as int));
        assert(ps.take(i + 1).last() == parts@[i as int]@);
        if i > 0 {
            push_str(&mut out, sep);
        } else {
            assert(ps.take(1)[0] == parts@[0]@);
        }
        push_str(&mut out, parts[i].as_str());
        i = i + 1;
    }
    assert(ps.take(parts@.len() as int) =~= ps);
    out
}

/// A digit character.
pub open spec fn digit_char(d: nat) -> char {
    ((48 + d) as u8) as char
}

/// The decimal representation of `n`.
pub open spec fn decimal(n: nat) -> Seq<char>
    decreases n,
{
    if n < 10 {
        seq![digit_char(n)]
    } else {
        decimal(n / 10).push(digit_char(n % 10))
    }
}

/// The decimal representation of `n`.
pub fn decimal_string(n: u64) -> (r: String)
    ensures
        r@ == decimal(n as nat),
    decreases n,
{
    if n < 10 {
        let mut s = String::new();
        push_char(&mut s, ((48 + n) as u8) as char);
        s
    } else {
        let mut s = decimal_string(n / 10);
        push_char(&mut s, ((48 + n % 10) as u8) as char);
        s
    }
}

/// `a` followed by `b`.
pub fn concat(a: &str, b: &str) -> (r: String)
    ensures
        r@ == a@ + b@,
{
    let mut out = a.to_owned();
    push_str(&mut out, b);
    out
}

/// `a`, `b` and `c` in turn.
pub fn concat3(a: &str, b: &str, c: &str) -> (r: String)
    ensures
        r@ == a@ + b@ + c@,
{
    let mut out = a.to_owned();
    push_str(&mut out, b);
    push_str(&mut out, c);
    out
}

} // verus!
