//! Small text helpers shared by the catalog regeneration steps: whitespace
//! collapsing, HTML entity decoding, URL joining and token classification.

use vstd::prelude::*;
use vstd::string::StringSliceAdditionalSpecFns;
use crate::text::{
    alnum, chars_of, index_of, index_of_spec, is_alnum, is_ws, prefix_at, push_char, push_str,
    string_of_range, ws,
};

verus! {

/// An error raised while regenerating the catalog, carrying its message.
#[derive(Debug)]
pub struct RegenError {
    pub message: String,
}

/// Wrap a message as an error.
pub fn boxed(message: &str) -> (r: RegenError)
    ensures
        r.message@ == message@,
{
    RegenError { message: message.to_owned() }
}

// ---------------------------------------------------------------------------
// Whitespace

/// `split_whitespace` joined by single spaces, defined one character at a
/// time: whitespace is dropped, a character continuing a word is appended,
/// and a character starting a word is appended after a separating space
/// (unless it starts the first word).
pub open spec fn normalize_ws_spec(s: Seq<char>) -> Seq<char>
    decreases s.len(),
{
    if s.len() == 0 {
        Seq::empty()
    } else {
        let prev = normalize_ws_spec(s.drop_last());
        let c = s.last();
        if is_ws(c) {
            prev
        } else if s.len() >= 2 && !is_ws(s[s.len() - 2]) {
            prev.push(c)
        } else if prev.len() == 0 {
            prev.push(c)
        } else {
            prev.push(' ').push(c)
        }
    }
}

/// Whitespace only as single ASCII spaces, each after a non-space
/// character: no leading space and no run of two.
pub open spec fn ws_collapsed(r: Seq<char>) -> bool {
    forall|i: int| 0 <= i < r.len() && #[trigger] is_ws(r[i]) ==> r[i] == ' ' && i > 0 && !is_ws(r[i - 1])
}

/// Not ending in whitespace.
pub open spec fn ends_clean(r: Seq<char>) -> bool {
    r.len() == 0 || !is_ws(r.last())
}

proof fn lemma_normalized_shape(s: Seq<char>)
    ensures
        ws_collapsed(normalize_ws_spec(s)),
        ends_clean(normalize_ws_spec(s)),
    decreases s.len(),
{
    if s.len() > 0 {
        lemma_normalized_shape(s.drop_last());
        let prev = normalize_ws_spec(s.drop_last());
        let c = s.last();
        let r = normalize_ws_spec(s);
        if !is_ws(c) {
            if (s.len() >= 2 && !is_ws(s[s.len() - 2])) || prev.len() == 0 {
                assert(r == prev.push(c));
                assert forall|i: int| 0 <= i < r.len() && #[trigger] is_ws(r[i]) implies r[i] == ' ' && i > 0
                    && !is_ws(r[i - 1]) by {
                    assert(r[i] == prev[i]);
                    if i > 0 {
                        assert(r[i - 1] == prev[i - 1]);
                    }
                }
            } else {
                assert(r == prev.push(' ').push(c));
                assert forall|i: int| 0 <= i < r.len() && #[trigger] is_ws(r[i]) implies r[i] == ' ' && i > 0
                    && !is_ws(r[i - 1]) by {
                    if i < prev.len() {
                        assert(r[i] == prev[i]);
                        if i > 0 {
                            assert(r[i - 1] == prev[i - 1]);
                        }
                    } else {
                        assert(i == prev.len());
                        assert(r[i - 1] == prev.last());
                    }
                }
            }
        }
    }
}

proof fn lemma_collapsed_fixed(r: Seq<char>)
    requires
        ws_collapsed(r),
    ensures
        normalize_ws_spec(r) == if r.len() > 0 && is_ws(r.last()) {
            r.drop_last()
        } else {
            r
        },
    decreases r.len(),
{
    if r.len() > 0 {
        let p = r.drop_last();
        assert(ws_collapsed(p)) by {
            assert forall|i: int| 0 <= i < p.len() && #[trigger] is_ws(p[i]) implies p[i] == ' ' && i > 0 && !is_ws(
                p[i - 1],
            ) by {
                assert(is_ws(r[i]));
            }
        }
        lemma_collapsed_fixed(p);
        let c = r.last();
        assert(is_ws(c) ==> r[r.len() - 1] == ' ' && r.len() - 1 > 0 && !is_ws(r[r.len() - 2]));
        if is_ws(c) {
            assert(p.last() == r[r.len() - 2]);
        } else if r.len() >= 2 && !is_ws(r[r.len() - 2]) {
            assert(p.last() == r[r.len() - 2]);
            assert(p.push(c) =~= r);
        } else if r.len() >= 2 {
            assert(p.last() == r[r.len() - 2]);
            assert(is_ws(r[r.len() - 2]));
            assert(r.len() - 2 > 0);
            assert(p.drop_last().len() > 0);
            assert(p.drop_last().push(' ').push(c) =~= r);
        } else {
            assert(p.len() == 0);
            assert(p.push(c) =~= r);
        }
    }
}

/// Text without whitespace is already normalized.
pub proof fn lemma_normalize_ws_plain(s: Seq<char>)
    requires
        forall|i: int| 0 <= i < s.len() ==> !is_ws(#[trigger] s[i]),
    ensures
        normalize_ws_spec(s) == s,
{
    lemma_collapsed_fixed(s);
    if s.len() > 0 {
        assert(s.last() == s[s.len() - 1]);
    }
}

/// The whitespace-separated words of `s`, in order: a character that is
/// not whitespace extends the current word when it follows another such
/// character, and starts a new word otherwise.
pub open spec fn ws_words(s: Seq<char>) -> Seq<Seq<char>>
    decreases s.len(),
{
    if s.len() == 0 {
        Seq::empty()
    } else {
        let w = ws_words(s.drop_last());
        let c = s.last();
        if is_ws(c) {
            w
        } else if s.len() >= 2 && !is_ws(s[s.len() - 2]) && w.len() > 0 {
            w.drop_last().push(w.last().push(c))
        } else {
            w.push(seq![c])
        }
    }
}

/// Words are non-empty and hold no whitespace.
pub open spec fn proper_words(w: Seq<Seq<char>>) -> bool {
    forall|i: int|
        0 <= i < w.len() ==> (#[trigger] w[i]).len() > 0 && forall|k: int| 0 <= k < w[i].len() ==> !is_ws(w[i][k])
}

proof fn lemma_join_nonempty(w: Seq<Seq<char>>)
    requires
        w.len() > 0,
        proper_words(w),
    ensures
        crate::text::join_spec(w, " "@).len() > 0,
{
    assert(w[w.len() - 1].len() > 0);
}

proof fn lemma_words(s: Seq<char>)
    ensures
        proper_words(ws_words(s)),
        normalize_ws_spec(s) == crate::text::join_spec(ws_words(s), " "@),
        s.len() > 0 && !is_ws(s.last()) ==> ws_words(s).len() > 0,
    decreases s.len(),
{
    reveal_strlit(" ");
    if s.len() > 0 {
        let p = s.drop_last();
        lemma_words(p);
        let w = ws_words(p);
        let c = s.last();
        let r = ws_words(s);
        if !is_ws(c) {
            if s.len() >= 2 && !is_ws(s[s.len() - 2]) && w.len() > 0 {
                let x = w.last().push(c);
                assert(r =~= w.drop_last().push(x));
                assert(r.drop_last() =~= w.drop_last());
                assert(proper_words(r)) by {
                    assert forall|i: int| 0 <= i < r.len() implies (#[trigger] r[i]).len() > 0 && forall|k: int|
                        0 <= k < r[i].len() ==> !is_ws(r[i][k]) by {
                        if i < r.len() - 1 {
                            assert(r[i] == w[i]);
                        } else {
                            assert(r[i] == x);
                            assert(w[w.len() - 1] == w.last());
                        }
                    }
                }
                assert(p.last() == s[s.len() - 2]);
                assert(crate::text::join_spec(r, " "@) =~= crate::text::join_spec(w, " "@).push(c));
            } else {
                assert(r =~= w.push(seq![c]));
                assert(r.drop_last() =~= w);
                assert(proper_words(r)) by {
                    assert forall|i: int| 0 <= i < r.len() implies (#[trigger] r[i]).len() > 0 && forall|k: int|
                        0 <= k < r[i].len() ==> !is_ws(r[i][k]) by {
                        if i < w.len() {
                            assert(r[i] == w[i]);
                        }
                    }
                }
                if w.len() > 0 {
                    lemma_join_nonempty(w);
                }
                if s.len() >= 2 && !is_ws(s[s.len() - 2]) {
                    assert(p.last() == s[s.len() - 2]);
                }
            }
        }
    }
}

/// Whitespace normalization gives the input's whitespace-separated words
/// joined by single ASCII spaces: only such spaces between words, none at
/// either end, and normalizing again changes nothing.
pub proof fn lemma_normalize_ws_law(s: Seq<char>)
    ensures
        normalize_ws_spec(s) == crate::text::join_spec(ws_words(s), " "@),
        proper_words(ws_words(s)),
        ws_collapsed(normalize_ws_spec(s)),
        ends_clean(normalize_ws_spec(s)),
        normalize_ws_spec(normalize_ws_spec(s)) == normalize_ws_spec(s),
{
    lemma_words(s);
    lemma_normalized_shape(s);
    lemma_collapsed_fixed(normalize_ws_spec(s));
}

/// Collapse whitespace runs into single ASCII spaces.
pub fn normalize_ws(text: &str) -> (r: String)
    ensures
        r@ == normalize_ws_spec(text@),
{
    let v = chars_of(text);
    normalize_chars(&v)
}

pub fn normalize_chars(v: &Vec<char>) -> (r: String)
    ensures
        r@ == normalize_ws_spec(v@),
{
    let mut out = String::new();
    let mut i: usize = 0;
    assert(v@.take(0) =~= Seq::<char>::empty());
    while i < v.len()
        invariant
            i <= v@.len(),
            out@ == normalize_ws_spec(v@.take(i as int)),
        decreases v@.len() - i,
    {
        let c = v[i];
        let ghost prev = v@.take(i as int);
        assert(v@.take(i + 1).drop_last() =~= prev);
        assert(v@.take(i + 1).last() == c);
        if ws(c) {
        } else if i >= 1 && !ws(v[i - 1]) {
            assert(v@.take(i + 1)[i - 1] == v@[i - 1]);
            push_char(&mut out, c);
        } else {
            if i >= 1 {
                assert(v@.take(i + 1)[i - 1] == v@[i - 1]);
            }
            if !out.as_str().is_empty() {
                push_char(&mut out, ' ');
            }
            push_char(&mut out, c);
        }
        i = i + 1;
    }
    assert(v@.take(v@.len() as int) =~= v@);
    out
}

/// Decode HTML entities, then collapse whitespace runs into single spaces.
pub fn normalize_html_ws(text: &str) -> (r: String)
    ensures
        r@ == normalize_ws_spec(decode_spec(text@)),
{
    let decoded = decode_chars(&chars_of(text));
    normalize_ws(decoded.as_str())
}

// ---------------------------------------------------------------------------
// Numbers

/// The value of digit `c` in `radix` (10 or 16).
pub open spec fn digit_of(c: char, radix: nat) -> Option<nat> {
    let n = c as u32;
    if 0x30 <= n && n <= 0x39 {
        Some((n - 0x30) as nat)
    } else if radix == 16 && 0x61 <= n && n <= 0x66 {
        Some((n - 0x61 + 10) as nat)
    } else if radix == 16 && 0x41 <= n && n <= 0x46 {
        Some((n - 0x41 + 10) as nat)
    } else {
        None
    }
}

pub open spec fn all_digits(s: Seq<char>, radix: nat) -> bool {
    forall|i: int| 0 <= i < s.len() ==> (#[trigger] digit_of(s[i], radix)) is Some
}

/// The value of a digit string, most significant digit first.
pub open spec fn digits_value(s: Seq<char>, radix: nat) -> nat
    decreases s.len(),
{
    if s.len() == 0 {
        0
    } else {
        let d = match digit_of(s.last(), radix) {
            Some(d) => d,
            None => 0,
        };
        digits_value(s.drop_last(), radix) * radix + d
    }
}

/// `u32::from_str_radix` for radix 10 and 16: an optional `+`, then at least
/// one digit, with a value that fits in `u32`.
pub open spec fn parse_u32_spec(s: Seq<char>, radix: nat) -> Option<u32> {
    let body = if s.len() > 0 && s[0] == '+' {
        s.drop_first()
    } else {
        s
    };
    if body.len() > 0 && all_digits(body, radix) && digits_value(body, radix) <= u32::MAX {
        Some(digits_value(body, radix) as u32)
    } else {
        None
    }
}

proof fn lemma_digits_value_grows(s: Seq<char>, k: int, radix: nat)
    requires
        0 <= k <= s.len(),
        radix >= 1,
    ensures
        digits_value(s.take(k), radix) <= digits_value(s, radix),
    decreases s.len() - k,
{
    if k < s.len() {
        lemma_digits_value_grows(s, k + 1, radix);
        let t = s.take(k + 1);
        assert(t.drop_last() =~= s.take(k));
        let x = digits_value(s.take(k), radix);
        assert(x * radix >= x) by (nonlinear_arith)
            requires
                radix >= 1,
        ;
    } else {
        assert(s.take(k) =~= s);
    }
}

fn digit_value_of(c: char, radix: u32) -> (r: Option<u32>)
    requires
        radix == 10 || radix == 16,
    ensures
        match digit_of(c, radix as nat) {
            Some(d) => r == Some(d as u32),
            None => r is None,
        },
        r matches Some(d) ==> d < radix,
{
    let n = c as u32;
    if 0x30 <= n && n <= 0x39 {
        Some(n - 0x30)
    } else if radix == 16 && 0x61 <= n && n <= 0x66 {
        Some(n - 0x61 + 10)
    } else if radix == 16 && 0x41 <= n && n <= 0x46 {
        Some(n - 0x41 + 10)
    } else {
        None
    }
}

/// Parse `v[from..to]` as an unsigned 32-bit number in `radix`.
fn parse_u32(v: &Vec<char>, from: usize, to: usize, radix: u32) -> (r: Option<u32>)
    requires
        from <= to <= v@.len(),
        radix == 10 || radix == 16,
    ensures
        r == parse_u32_spec(v@.subrange(from as int, to as int), radix as nat),
{
    let ghost s = v@.subrange(from as int, to as int);
    let mut start = from;
    if from < to && v[from] == '+' {
        start = from + 1;
    }
    let ghost body = v@.subrange(start as int, to as int);
    assert(body == (if s.len() > 0 && s[0] == '+' { s.drop_first() } else { s }));
    if start == to {
        return None;
    }
    let mut value: u64 = 0;
    let mut i = start;
    assert(body.take(0) =~= Seq::<char>::empty());
    while i < to
        invariant
            from <= start <= i <= to <= v@.len(),
            body == v@.subrange(start as int, to as int),
            s == v@.subrange(from as int, to as int),
            body == (if s.len() > 0 && s[0] == '+' { s.drop_first() } else { s }),
            radix == 10 || radix == 16,
            value <= u32::MAX,
            value == digits_value(body.take(i - start), radix as nat),
            all_digits(body.take(i - start), radix as nat),
        decreases to - i,
    {
        let k: Ghost<int> = Ghost(i - start);
        assert(body.take(k@ + 1).drop_last() =~= body.take(k@));
        assert(body.take(k@ + 1).last() == v@[i as int]);
        match digit_value_of(v[i], radix) {
            None => {
                assert(!all_digits(body, radix as nat)) by {
                    assert(body[k@] == v@[i as int]);
                }
                return None;
            },
            Some(d) => {
                assert(value * (radix as u64) <= 0xffff_ffff * 16) by (nonlinear_arith)
                    requires
                        value <= 0xffff_ffff,
                        radix <= 16,
                ;
                let next = value * (radix as u64) + (d as u64);
                assert(next == digits_value(body.take(k@ + 1), radix as nat));
                assert forall|j: int| 0 <= j < k@ + 1 implies (#[trigger] digit_of(
                    body.take(k@ + 1)[j],
                    radix as nat,
                )) is Some by {
                    if j < k@ {
                        assert(body.take(k@ + 1)[j] == body.take(k@)[j]);
                    }
                }
                if next > 0xffff_ffff {
                    proof {
                        lemma_digits_value_grows(body, k@ + 1, radix as nat);
                    }
                    return None;
                }
                value = next;
            },
        }
        i = i + 1;
    }
    assert(body.take(to - start) =~= body);
    Some(value as u32)
}

// ---------------------------------------------------------------------------
// Entities

/// The character with scalar value `v`, when it is one.
pub open spec fn char_for(v: u32) -> Option<char> {
    if v < 0xd800 || (0xe000 <= v && v <= 0x10ffff) {
        Some(v as char)
    } else {
        None
    }
}

/// `char::from_u32`.
#[verifier::external_body]
fn char_from_u32(value: u32) -> (r: Option<char>)
    ensures
        r == char_for(value),
{
    char::from_u32(value)
}

pub open spec fn lit_amp() -> Seq<char> {
    seq!['a', 'm', 'p']
}

pub open spec fn lit_lt() -> Seq<char> {
    seq!['l', 't']
}

pub open spec fn lit_gt() -> Seq<char> {
    seq!['g', 't']
}

pub open spec fn lit_quot() -> Seq<char> {
    seq!['q', 'u', 'o', 't']
}

pub open spec fn lit_apos() -> Seq<char> {
    seq!['a', 'p', 'o', 's']
}

pub open spec fn lit_nbsp() -> Seq<char> {
    seq!['n', 'b', 's', 'p']
}

/// The character an entity body (the text between `&` and `;`) stands for:
/// the named basics, or a decimal (`#65`) or hexadecimal (`#x41`) reference
/// to a valid character.
pub open spec fn entity_spec(e: Seq<char>) -> Option<char> {
    if e == lit_amp() {
        Some('&')
    } else if e == lit_lt() {
        Some('<')
    } else if e == lit_gt() {
        Some('>')
    } else if e == lit_quot() {
        Some('"')
    } else if e == lit_apos() {
        Some('\'')
    } else if e == lit_nbsp() {
        Some('\u{a0}')
    } else if e.len() > 0 && e[0] == '#' {
        let code = e.drop_first();
        let value = if code.len() > 0 && (code[0] == 'x' || code[0] == 'X') {
            parse_u32_spec(code.drop_first(), 16)
        } else {
            parse_u32_spec(code, 10)
        };
        match value {
            Some(n) => char_for(n),
            None => None,
        }
    } else {
        None
    }
}

/// Decoding from position `i`: an `&` followed later by `;` around a known
/// entity body becomes that character; any other `&` stays literal.
pub open spec fn decode_from(s: Seq<char>, i: int) -> Seq<char>
    decreases s.len() - i,
{
    if i < 0 || i >= s.len() {
        Seq::empty()
    } else if s[i] != '&' {
        seq![s[i]] + decode_from(s, i + 1)
    } else {
        let semi = index_of_spec(s, i, ';');
        if semi < s.len() && entity_spec(s.subrange(i + 1, semi)) is Some && semi > i {
            seq![entity_spec(s.subrange(i + 1, semi))->0] + decode_from(s, semi + 1)
        } else {
            seq!['&'] + decode_from(s, i + 1)
        }
    }
}

pub open spec fn decode_spec(s: Seq<char>) -> Seq<char> {
    decode_from(s, 0)
}

proof fn lemma_index_of_range(s: Seq<char>, from: int, c: char)
    requires
        0 <= from <= s.len(),
    ensures
        from <= index_of_spec(s, from, c) <= s.len(),
    decreases s.len() - from,
{
    if from < s.len() && s[from] != c {
        lemma_index_of_range(s, from + 1, c);
    }
}

fn is_lit(v: &Vec<char>, from: usize, to: usize, lit: &Vec<char>) -> (r: bool)
    requires
        from <= to <= v@.len(),
    ensures
        r == (v@.subrange(from as int, to as int) == lit@),
{
    if to - from != lit.len() {
        return false;
    }
    let r = prefix_at(v, from, lit);
    assert(r == (v@.subrange(from as int, to as int) =~= lit@));
    r
}

/// Decode one entity body, `v[from..to]`.
fn decode_entity_at(v: &Vec<char>, from: usize, to: usize) -> (r: Option<char>)
    requires
        from <= to <= v@.len(),
    ensures
        r == entity_spec(v@.subrange(from as int, to as int)),
{
    let ghost e = v@.subrange(from as int, to as int);
    let amp = vec!['a', 'm', 'p'];
    let lt = vec!['l', 't'];
    let gt = vec!['g', 't'];
    let quot = vec!['q', 'u', 'o', 't'];
    let apos = vec!['a', 'p', 'o', 's'];
    let nbsp = vec!['n', 'b', 's', 'p'];
    assert(amp@ =~= lit_amp());
    assert(lt@ =~= lit_lt());
    assert(gt@ =~= lit_gt());
    assert(quot@ =~= lit_quot());
    assert(apos@ =~= lit_apos());
    assert(nbsp@ =~= lit_nbsp());
    if is_lit(v, from, to, &amp) {
        Some('&')
    } else if is_lit(v, from, to, &lt) {
        Some('<')
    } else if is_lit(v, from, to, &gt) {
        Some('>')
    } else if is_lit(v, from, to, &quot) {
        Some('"')
    } else if is_lit(v, from, to, &apos) {
        Some('\'')
    } else if is_lit(v, from, to, &nbsp) {
        Some('\u{a0}')
    } else if from < to && v[from] == '#' {
        let ghost code = e.drop_first();
        assert(code =~= v@.subrange(from + 1, to as int));
        if from + 1 < to {
            assert(code[0] == v@[from + 1]);
        }
        let value = if from + 1 < to && (v[from + 1] == 'x' || v[from + 1] == 'X') {
            assert(code.drop_first() =~= v@.subrange(from + 2, to as int));
            parse_u32(v, from + 2, to, 16)
        } else {
            parse_u32(v, from + 1, to, 10)
        };
        match value {
            Some(n) => char_from_u32(n),
            None => None,
        }
    } else {
        None
    }
}

/// Decode the character an entity body names, if it names one.
pub fn decode_html_entity(entity: &str) -> (r: Option<char>)
    ensures
        r == entity_spec(entity@),
{
    let v = chars_of(entity);
    assert(v@.subrange(0, v@.len() as int) =~= v@);
    decode_entity_at(&v, 0, v.len())
}

pub fn decode_chars(v: &Vec<char>) -> (r: String)
    ensures
        r@ == decode_spec(v@),
{
    let mut out = String::new();
    let mut i: usize = 0;
    while i < v.len()
        invariant
            i <= v@.len(),
            out@ + decode_from(v@, i as int) == decode_spec(v@),
        decreases v@.len() - i,
    {
        let ghost before = out@;
        if v[i] != '&' {
            push_char(&mut out, v[i]);
            assert(before + decode_from(v@, i as int) =~= out@ + decode_from(v@, i + 1));
            i = i + 1;
        } else {
            let semi = index_of(v, i, ';');
            proof {
                lemma_index_of_range(v@, i as int, ';');
            }
            let decoded = if semi < v.len() && semi > i {
                decode_entity_at(v, i + 1, semi)
            } else {
                None
            };
            let ghost at = i as int;
            match decoded {
                Some(c) => {
                    push_char(&mut out, c);
                    i = semi + 1;
                },
                None => {
                    push_char(&mut out, '&');
                    i = i + 1;
                },
            }
            assert(before + decode_from(v@, at) =~= out@ + decode_from(v@, i as int));
        }
    }
    assert(decode_from(v@, i as int) =~= Seq::<char>::empty());
    assert(out@ + Seq::<char>::empty() =~= out@);
    out
}

proof fn lemma_decode_plain(s: Seq<char>, i: int)
    requires
        0 <= i <= s.len(),
        forall|k: int| i <= k < s.len() ==> s[k] != '&',
    ensures
        decode_from(s, i) == s.skip(i),
    decreases s.len() - i,
{
    if i < s.len() {
        lemma_decode_plain(s, i + 1);
        assert(s.skip(i) =~= seq![s[i]] + s.skip(i + 1));
    } else {
        assert(s.skip(i) =~= Seq::<char>::empty());
    }
}

/// Decode the named basics and numeric references in one pass, leaving any
/// other `&...;` run verbatim. Text without an ampersand is handed back as
/// it is, borrowed.
pub fn decode_html_entities(input: &str) -> (r: std::borrow::Cow<'_, str>)
    ensures
        r@ == decode_spec(input@),
        r is Borrowed <==> !input@.contains('&'),
{
    let v = chars_of(input);
    let mut i: usize = 0;
    while i < v.len()
        invariant
            i <= v@.len(),
            v@ == input@,
            forall|k: int| 0 <= k < i ==> v@[k] != '&',
        decreases v@.len() - i,
    {
        if v[i] == '&' {
            assert(input@[i as int] == '&');
            return std::borrow::Cow::Owned(decode_chars(&v));
        }
        i = i + 1;
    }
    proof {
        lemma_decode_plain(input@, 0);
        assert(input@.skip(0) =~= input@);
    }
    std::borrow::Cow::Borrowed(input)
}

// ---------------------------------------------------------------------------
// Tokens and URLs

/// A bare keyword: non-empty, ASCII letters, digits and `-` only.
pub open spec fn is_keyword_spec(t: Seq<char>) -> bool {
    t.len() > 0 && forall|i: int| 0 <= i < t.len() ==> is_alnum(#[trigger] t[i]) || t[i] == '-'
}

pub fn keyword_chars(v: &Vec<char>, from: usize, to: usize) -> (r: bool)
    requires
        from <= to <= v@.len(),
    ensures
        r == is_keyword_spec(v@.subrange(from as int, to as int)),
{
    let ghost t = v@.subrange(from as int, to as int);
    if from == to {
        return false;
    }
    let mut i = from;
    while i < to
        invariant
            from <= i <= to <= v@.len(),
            t == v@.subrange(from as int, to as int),
            forall|k: int| 0 <= k < i - from ==> is_alnum(#[trigger] t[k]) || t[k] == '-',
        decreases to - i,
    {
        let c = v[i];
        assert(t[i - from] == c);
        if !(alnum(c) || c == '-') {
            return false;
        }
        i = i + 1;
    }
    true
}

/// Whether a value grammar token is a bare keyword.
pub fn is_keyword_token(token: &str) -> (r: bool)
    ensures
        r == is_keyword_spec(token@),
{
    let v = chars_of(token);
    assert(v@.subrange(0, v@.len() as int) =~= v@);
    keyword_chars(&v, 0, v.len())
}

pub open spec fn http_scheme() -> Seq<char> {
    seq!['h', 't', 't', 'p', ':', '/', '/']
}

pub open spec fn https_scheme() -> Seq<char> {
    seq!['h', 't', 't', 'p', 's', ':', '/', '/']
}

pub open spec fn is_absolute_spec(url: Seq<char>) -> bool {
    crate::compat::starts_with(url, http_scheme()) || crate::compat::starts_with(
        url,
        https_scheme(),
    )
}

/// Whether `url` is an absolute `http(s)` URL.
pub fn is_absolute_url(url: &str) -> (r: bool)
    ensures
        r == is_absolute_spec(url@),
{
    let v = chars_of(url);
    let http = vec!['h', 't', 't', 'p', ':', '/', '/'];
    let https = vec!['h', 't', 't', 'p', 's', ':', '/', '/'];
    let a = v.len() >= http.len() && prefix_at(&v, 0, &http);
    let b = v.len() >= https.len() && prefix_at(&v, 0, &https);
    assert(http@ == http_scheme());
    assert(https@ == https_scheme());
    a || b
}

/// Resolve `href` against `base`: absolute hrefs pass through, relative ones
/// are appended to `base`.
pub fn resolve_url(base: &str, href: &str) -> (r: String)
    ensures
        r@ == (if is_absolute_spec(href@) { href@ } else { base@ + href@ }),
{
    if is_absolute_url(href) {
        href.to_owned()
    } else {
        let mut out = base.to_owned();
        push_str(&mut out, href);
        out
    }
}

/// The page portion of a URL, without any `#fragment`.
pub fn page_url(url: &str) -> (r: String)
    ensures
        r@ == url@.take(index_of_spec(url@, 0, '#')),
{
    let v = chars_of(url);
    let end = index_of(&v, 0, '#');
    proof {
        lemma_index_of_range(v@, 0, '#');
    }
    let r = string_of_range(&v, 0, end);
    assert(v@.subrange(0, end as int) =~= v@.take(end as int));
    r
}

/// The end of an opening tag scanned from byte `i` with the quote state
/// `quote`: the position just past the first `>` outside quotes.
pub open spec fn tag_end_from(b: Seq<u8>, i: int, quote: Option<u8>) -> Option<int>
    decreases b.len() - i,
{
    if i < 0 || i >= b.len() {
        None
    } else {
        match quote {
            Some(q) => if b[i] == q {
                tag_end_from(b, i + 1, None)
            } else {
                tag_end_from(b, i + 1, quote)
            },
            None => if b[i] == 0x22u8 || b[i] == 0x27u8 {
                tag_end_from(b, i + 1, Some(b[i]))
            } else if b[i] == 0x3eu8 {
                Some(i + 1)
            } else {
                tag_end_from(b, i + 1, None)
            },
        }
    }
}

/// The byte offset just past the `>` that closes the tag opening at `start`,
/// skipping `>` inside single- or double-quoted attribute values.
pub fn tag_open_end(html: &str, start: usize) -> (r: Option<usize>)
    requires
        start <= html.spec_bytes().len(),
        vstd::utf8::is_char_boundary(html.spec_bytes(), start as int),
    ensures
        r == match tag_end_from(html.spec_bytes(), start as int, None) {
            Some(e) => Some(e as usize),
            None => None::<usize>,
        },
{
    let b = html.as_bytes();
    let mut quote: Option<u8> = None;
    let mut i = start;
    while i < b.len()
        invariant
            b@ == html.spec_bytes(),
            start <= i <= b@.len(),
            tag_end_from(html.spec_bytes(), start as int, None) == tag_end_from(
                html.spec_bytes(),
                i as int,
                quote,
            ),
        decreases b@.len() - i,
    {
        let c = b[i];
        match quote {
            Some(q) => {
                if c == q {
                    quote = None;
                }
            },
            None => {
                if c == 0x22u8 || c == 0x27u8 {
                    quote = Some(c);
                } else if c == 0x3eu8 {
                    return Some(i + 1);
                }
            },
        }
        i = i + 1;
    }
    None
}

} // verus!
