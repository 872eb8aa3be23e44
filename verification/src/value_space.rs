//! Recognize an attribute's value space from its CSS/SVG grammar or prose.
//!
//! A property's raw value expression (`<number> | auto`, `see below`, a
//! coordinate-pair grammar, an entity-escaped production reference, ...)
//! becomes the value space the catalog models, after source overrides and
//! token repairs.

use vstd::prelude::*;
use vstd::string::StringSliceAdditionalSpecFns;
use vstd::utf8::encode_utf8;
use crate::text::{
    chars_of, eq_ignore_case, eq_ignore_case_spec, is_alnum, is_ws, push_char, seq_eq, str_eq,
    string_of, string_seqs, sub_vec, trail_ws, trim_spec, trimmed_chars,
};
use crate::chapter::{lower_chars, lower_seq, PropertyValueDef};
use crate::lifecycle_prose::{
    contains, ends, ends_with, has_sub, starts, starts_with, straighten, straighten_spec,
};
use crate::spec_lifecycle::{sort_names, sorted_names};
use crate::util::{is_keyword_spec, is_keyword_token, normalize_ws, normalize_ws_spec};
use crate::values::{lookup, lookup_in, values_view, CatalogAttributeValues, GrammarProjectionInputs, ValuesView};
use crate::html::opt_chars;
use crate::grammar::{css_grammar_graph, grammar_graph_spec, node_views, CatalogCssGrammarGraph};

verus! {

// ---------------------------------------------------------------------------
// Range annotations

/// The walk that drops range annotations: text kept so far, whether it is
/// inside a `<type>`, and whether inside a `[min,max]` range there.
pub open spec fn strip_state(s: Seq<char>) -> (Seq<char>, bool, bool)
    decreases s.len(),
{
    if s.len() == 0 {
        (Seq::empty(), false, false)
    } else {
        let (out, in_type, in_range) = strip_state(s.drop_last());
        let c = s.last();
        if in_range {
            (out, in_type, c != ']')
        } else if c == '<' {
            (out.push(c), true, false)
        } else if c == '>' {
            (out.push(c), false, false)
        } else if c == '[' && in_type {
            (out.take(out.len() - trail_ws(out)), true, true)
        } else {
            (out.push(c), in_type, false)
        }
    }
}

/// A value grammar without the range annotations of its types, so that
/// `<number [0,∞]>` reads `<number>`.
pub open spec fn strip_ranges_spec(s: Seq<char>) -> Seq<char> {
    strip_state(s).0
}

proof fn lemma_trail_ws_bound(s: Seq<char>)
    ensures
        trail_ws(s) <= s.len(),
        forall|k: int| s.len() - trail_ws(s) <= k < s.len() ==> is_ws(#[trigger] s[k]),
        trail_ws(s) < s.len() ==> !is_ws(s[s.len() - trail_ws(s) - 1]),
    decreases s.len(),
{
    if s.len() > 0 && is_ws(s[s.len() - 1]) {
        let t = s.subrange(0, s.len() - 1);
        lemma_trail_ws_bound(t);
        assert forall|k: int| s.len() - trail_ws(s) <= k < s.len() implies is_ws(#[trigger] s[k]) by {
            if k < s.len() - 1 {
                assert(t[k] == s[k]);
            }
        }
        if trail_ws(s) < s.len() {
            assert(t[t.len() - trail_ws(t) - 1] == s[s.len() - trail_ws(s) - 1]);
        }
    }
}

pub fn strip_type_range_annotations(s: &str) -> (r: String)
    ensures
        r@ == strip_ranges_spec(s@),
{
    let v = crate::text::chars_of(s);
    let mut out: Vec<char> = Vec::new();
    let mut in_type = false;
    let mut in_range = false;
    let mut i: usize = 0;
    assert(v@.take(0) =~= Seq::<char>::empty());
    while i < v.len()
        invariant
            i <= v@.len(),
            (out@, in_type, in_range) == strip_state(v@.take(i as int)),
        decreases v@.len() - i,
    {
        assert(v@.take(i + 1).drop_last() =~= v@.take(i as int));
        assert(v@.take(i + 1).last() == v@[i as int]);
        let c = v[i];
        if in_range {
            in_range = c != ']';
        } else if c == '<' {
            out.push(c);
            in_type = true;
        } else if c == '>' {
            out.push(c);
            in_type = false;
        } else if c == '[' && in_type {
            let ghost before = out@;
            proof {
                lemma_trail_ws_bound(before);
            }
            while out.len() > 0 && crate::text::ws(out[out.len() - 1])
                invariant
                    before.len() - trail_ws(before) <= out@.len() <= before.len(),
                    out@ == before.take(out@.len() as int),
                    trail_ws(before) <= before.len(),
                    forall|k: int| before.len() - trail_ws(before) <= k < before.len() ==> is_ws(
                        #[trigger] before[k],
                    ),
                    trail_ws(before) < before.len() ==> !is_ws(
                        before[before.len() - trail_ws(before) - 1],
                    ),
                decreases out@.len(),
            {
                out.pop();
                assert(out@ =~= before.take(out@.len() as int));
            }
            assert(out@ =~= before.take(before.len() - trail_ws(before)));
            in_range = true;
        } else {
            out.push(c);
        }
        i = i + 1;
    }
    assert(v@.take(v@.len() as int) =~= v@);
    crate::text::string_of(&out)
}

// ---------------------------------------------------------------------------
// Type-token repair

/// A byte that can continue a type name.
pub open spec fn name_byte(c: u8) -> bool {
    c != 0x3e && !(c == 0x20 || c == 0x09 || c == 0x0a || c == 0x0c || c == 0x0d) && c != 0x7c
        && c != 0x5b && c != 0x5d && c != 0x2c
}

/// A multiplier or occurrence marker: `#`, `?`, `+`, `*`, `!`.
pub open spec fn marker(c: u8) -> bool {
    c == 0x23 || c == 0x3f || c == 0x2b || c == 0x2a || c == 0x21
}

pub open spec fn ascii_alpha(c: u8) -> bool {
    (0x41 <= c && c <= 0x5a) || (0x61 <= c && c <= 0x7a)
}

/// Where a type name that starts at `j` ends: at a byte that cannot continue
/// it, or at a marker.
pub open spec fn name_end(b: Seq<u8>, j: int) -> int
    decreases b.len() - j,
{
    if j < 0 || j >= b.len() || !name_byte(b[j]) || marker(b[j]) {
        j
    } else {
        name_end(b, j + 1)
    }
}

/// Where a run of markers that starts at `j` ends.
pub open spec fn marker_end(b: Seq<u8>, j: int) -> int
    decreases b.len() - j,
{
    if 0 <= j < b.len() && marker(b[j]) {
        marker_end(b, j + 1)
    } else {
        j
    }
}

pub open spec fn byte_chars(s: Seq<u8>) -> Seq<char> {
    s.map_values(|c: u8| c as char)
}

/// Whether a type token starts at `i`: `<` then a letter or a quote.
pub open spec fn type_start(b: Seq<u8>, i: int) -> bool {
    0 <= i && i + 1 < b.len() && b[i] == 0x3c && (ascii_alpha(b[i + 1]) || b[i + 1] == 0x27)
}

/// Where the text after the type token that starts at `i` resumes.
pub open spec fn type_next(b: Seq<u8>, i: int) -> int {
    let k = marker_end(b, name_end(b, i + 1));
    if k < b.len() && b[k] == 0x3e {
        k + 1
    } else {
        k
    }
}

/// The bytes from `i` on, each read as the character of its value, with every
/// type token closed and a marker glued inside it moved after it:
/// `<mask-layer#>` reads `<mask-layer>#`, `<length?` reads `<length>?`.
pub open spec fn repair_from(b: Seq<u8>, i: int) -> Seq<char>
    decreases b.len() - i,
{
    if i < 0 || i >= b.len() {
        Seq::empty()
    } else if type_start(b, i) {
        let j = name_end(b, i + 1);
        let k = marker_end(b, j);
        let next = type_next(b, i);
        if next <= i || next > b.len() {
            Seq::empty()
        } else {
            seq!['<'] + byte_chars(b.subrange(i + 1, j)) + seq!['>'] + byte_chars(b.subrange(j, k))
                + repair_from(b, next)
        }
    } else {
        seq![b[i] as char] + repair_from(b, i + 1)
    }
}

pub open spec fn repair_spec(s: Seq<char>) -> Seq<char> {
    repair_from(encode_utf8(s), 0)
}

proof fn lemma_name_end(b: Seq<u8>, j: int)
    requires
        0 <= j <= b.len(),
    ensures
        j <= name_end(b, j) <= b.len(),
        forall|k: int| j <= k < name_end(b, j) ==> name_byte(#[trigger] b[k]) && !marker(b[k]),
    decreases b.len() - j,
{
    if !(j >= b.len() || !name_byte(b[j]) || marker(b[j])) {
        lemma_name_end(b, j + 1);
    }
}

proof fn lemma_marker_end(b: Seq<u8>, j: int)
    requires
        0 <= j <= b.len(),
    ensures
        j <= marker_end(b, j) <= b.len(),
    decreases b.len() - j,
{
    if j < b.len() && marker(b[j]) {
        lemma_marker_end(b, j + 1);
    }
}

fn push_bytes(out: &mut String, b: &[u8], from: usize, to: usize)
    requires
        from <= to <= b@.len(),
    ensures
        final(out)@ == old(out)@ + byte_chars(b@.subrange(from as int, to as int)),
{
    let mut i = from;
    while i < to
        invariant
            from <= i <= to <= b@.len(),
            out@ == old(out)@ + byte_chars(b@.subrange(from as int, i as int)),
        decreases to - i,
    {
        push_char(out, b[i] as char);
        i = i + 1;
        assert(byte_chars(b@.subrange(from as int, i as int)) =~= byte_chars(
            b@.subrange(from as int, i - 1),
        ).push(b@[i - 1] as char));
    }
}

/// Close each CSS type token and move a multiplier glued inside it after it.
pub fn repair_css_type_tokens(value: &str) -> (r: String)
    ensures
        r@ == repair_spec(value@),
{
    let b = value.as_bytes();
    let ghost bs = b@;
    assert(bs == encode_utf8(value@));
    let mut out = String::new();
    let mut i: usize = 0;
    while i < b.len()
        invariant
            bs == b@,
            i <= b@.len(),
            out@ + repair_from(bs, i as int) == repair_from(bs, 0),
        decreases b@.len() - i,
    {
        let ghost at = i as int;
        if b[i] == 0x3c && i + 1 < b.len() && (is_alpha_byte(b[i + 1]) || b[i + 1] == 0x27) {
            proof {
                lemma_name_end(bs, at + 1);
                lemma_marker_end(bs, name_end(bs, at + 1));
            }
            let mut j = i + 1;
            while j < b.len() && b[j] != 0x3e && !is_ws_byte(b[j]) && b[j] != 0x7c && b[j] != 0x5b
                && b[j] != 0x5d && b[j] != 0x2c && !is_marker_byte(b[j])
                invariant
                    bs == b@,
                    at + 1 <= j <= b@.len(),
                    name_end(bs, at + 1) == name_end(bs, j as int),
                decreases b@.len() - j,
            {
                j = j + 1;
            }
            let mut k = j;
            while k < b.len() && is_marker_byte(b[k])
                invariant
                    bs == b@,
                    j <= k <= b@.len(),
                    marker_end(bs, j as int) == marker_end(bs, k as int),
                decreases b@.len() - k,
            {
                k = k + 1;
            }
            let ghost before = out@;
            push_char(&mut out, '<');
            push_bytes(&mut out, b, i + 1, j);
            push_char(&mut out, '>');
            push_bytes(&mut out, b, j, k);
            let next = if k < b.len() && b[k] == 0x3e {
                k + 1
            } else {
                k
            };
            assert(type_next(bs, at) == next);
            assert(out@ =~= before + (seq!['<'] + byte_chars(bs.subrange(at + 1, j as int)) + seq![
                '>',
            ] + byte_chars(bs.subrange(j as int, k as int))));
            i = next;
        } else {
            let ghost before = out@;
            push_char(&mut out, b[i] as char);
            assert(out@ =~= before + seq![bs[at] as char]);
            i = i + 1;
        }
    }
    assert(repair_from(bs, i as int) =~= Seq::<char>::empty());
    assert(out@ =~= out@ + repair_from(bs, i as int));
    out
}

fn is_alpha_byte(c: u8) -> (r: bool)
    ensures
        r == ascii_alpha(c),
{
    (0x41 <= c && c <= 0x5a) || (0x61 <= c && c <= 0x7a)
}

fn is_ws_byte(c: u8) -> (r: bool)
    ensures
        r == (c == 0x20 || c == 0x09 || c == 0x0a || c == 0x0c || c == 0x0d),
{
    c == 0x20 || c == 0x09 || c == 0x0a || c == 0x0c || c == 0x0d
}

fn is_marker_byte(c: u8) -> (r: bool)
    ensures
        r == marker(c),
{
    c == 0x23 || c == 0x3f || c == 0x2b || c == 0x2a || c == 0x21
}

// ---------------------------------------------------------------------------
// Splitting

/// The pieces of `s` between the occurrences of `sep` (as `str::split`):
/// the finished pieces and the one being read.
pub open spec fn split_state(s: Seq<char>, sep: char) -> (Seq<Seq<char>>, Seq<char>)
    decreases s.len(),
{
    if s.len() == 0 {
        (Seq::empty(), Seq::empty())
    } else {
        let (done, cur) = split_state(s.drop_last(), sep);
        if s.last() == sep {
            (done.push(cur), Seq::empty())
        } else {
            (done, cur.push(s.last()))
        }
    }
}

pub open spec fn split_spec(s: Seq<char>, sep: char) -> Seq<Seq<char>> {
    let (done, cur) = split_state(s, sep);
    done.push(cur)
}

pub fn split_on(s: &Vec<char>, sep: char) -> (r: Vec<String>)
    ensures
        string_seqs(r@) == split_spec(s@, sep),
{
    let mut done: Vec<String> = Vec::new();
    let mut cur: Vec<char> = Vec::new();
    let mut i: usize = 0;
    assert(s@.take(0) =~= Seq::<char>::empty());
    assert(string_seqs(done@) =~= Seq::<Seq<char>>::empty());
    while i < s.len()
        invariant
            i <= s@.len(),
            (string_seqs(done@), cur@) == split_state(s@.take(i as int), sep),
        decreases s@.len() - i,
    {
        assert(s@.take(i + 1).drop_last() =~= s@.take(i as int));
        assert(s@.take(i + 1).last() == s@[i as int]);
        if s[i] == sep {
            let ghost before = string_seqs(done@);
            done.push(string_of(&cur));
            assert(string_seqs(done@) =~= before.push(cur@));
            cur = Vec::new();
        } else {
            cur.push(s[i]);
        }
        i = i + 1;
    }
    assert(s@.take(s@.len() as int) =~= s@);
    let ghost before = string_seqs(done@);
    done.push(string_of(&cur));
    assert(string_seqs(done@) =~= before.push(cur@));
    done
}

/// The keywords among the pieces at odd positions.
pub open spec fn odd_keywords(pieces: Seq<Seq<char>>) -> Seq<Seq<char>>
    decreases pieces.len(),
{
    if pieces.len() == 0 {
        Seq::empty()
    } else {
        let prev = odd_keywords(pieces.drop_last());
        if (pieces.len() - 1) % 2 == 1 && is_keyword_spec(pieces.last()) {
            prev.push(pieces.last())
        } else {
            prev
        }
    }
}

/// The keywords quoted in prose (`'auto'`), sorted, each once.
pub open spec fn quoted_keywords_spec(text: Seq<char>) -> Seq<Seq<char>> {
    sorted_names(odd_keywords(split_spec(text, '\'')))
}

pub fn quoted_keyword_values(text: &str) -> (r: Vec<String>)
    ensures
        string_seqs(r@) == quoted_keywords_spec(text@),
{
    let v = chars_of(text);
    let pieces = split_on(&v, '\'');
    let ghost ps = string_seqs(pieces@);
    let mut found: Vec<String> = Vec::new();
    let mut i: usize = 0;
    assert(ps.take(0) =~= Seq::<Seq<char>>::empty());
    while i < pieces.len()
        invariant
            i <= pieces@.len(),
            ps == string_seqs(pieces@),
            string_seqs(found@) == odd_keywords(ps.take(i as int)),
        decreases pieces@.len() - i,
    {
        assert(ps.take(i + 1).drop_last() =~= ps.take(i as int));
        assert(ps.take(i + 1).last() == pieces@[i as int]@);
        if i % 2 == 1 && is_keyword_token(pieces[i].as_str()) {
            let ghost before = string_seqs(found@);
            found.push(pieces[i].clone());
            assert(string_seqs(found@) =~= before.push(pieces@[i as int]@));
        }
        i = i + 1;
    }
    assert(ps.take(pieces@.len() as int) =~= ps);
    sort_names(found)
}

/// Whether a value grammar is just bare keyword alternatives.
pub open spec fn keyword_only_spec(value: Seq<char>) -> bool {
    forall|k: int|
        0 <= k < split_spec(value, '|').len() ==> is_keyword_spec(
            trim_spec(#[trigger] split_spec(value, '|')[k]),
        )
}

pub fn is_keyword_only_grammar(value: &str) -> (r: bool)
    ensures
        r == keyword_only_spec(value@),
{
    let v = chars_of(value);
    let pieces = split_on(&v, '|');
    let mut i: usize = 0;
    while i < pieces.len()
        invariant
            i <= pieces@.len(),
            string_seqs(pieces@) == split_spec(value@, '|'),
            forall|k: int| 0 <= k < i ==> is_keyword_spec(trim_spec(#[trigger] split_spec(value@, '|')[k])),
        decreases pieces@.len() - i,
    {
        assert(split_spec(value@, '|')[i as int] == pieces@[i as int]@);
        let t = trimmed_chars(pieces[i].as_str());
        let ts = string_of(&t);
        if !is_keyword_token(ts.as_str()) {
            return false;
        }
        i = i + 1;
    }
    true
}

// ---------------------------------------------------------------------------
// Recognized phrasings

/// A `(see below)` value: the grammar is given in prose.
pub open spec fn unwrap_parens(t: Seq<char>) -> Seq<char> {
    if t.len() >= 2 && t[0] == '(' && t[t.len() - 1] == ')' {
        trim_spec(t.subrange(1, t.len() - 1))
    } else {
        t
    }
}

pub open spec fn see_below_spec(value: Seq<char>) -> bool {
    eq_ignore_case_spec(unwrap_parens(trim_spec(value)), "see below"@)
}

pub fn is_see_below_value(value: &str) -> (r: bool)
    ensures
        r == see_below_spec(value@),
{
    let t = trimmed_chars(value);
    let u = if t.len() >= 2 && t[0] == '(' && t[t.len() - 1] == ')' {
        let inner = sub_vec(&t, 1, t.len() - 1);
        let s = string_of(&inner);
        trimmed_chars(s.as_str())
    } else {
        t
    };
    let target = chars_of("see below");
    eq_ignore_case(&u, &target)
}

/// The ASCII letters, digits and dashes of `s`, in order.
pub open spec fn name_chars(s: Seq<char>) -> Seq<char>
    decreases s.len(),
{
    if s.len() == 0 {
        s
    } else if is_alnum(s.last()) || s.last() == '-' {
        name_chars(s.drop_last()).push(s.last())
    } else {
        name_chars(s.drop_last())
    }
}

/// A CSS property reference (`<'opacity'>`) resolved to the referenced
/// property's value space.
pub open spec fn property_reference_spec(value: Seq<char>) -> Option<ValuesView> {
    let t = trim_spec(value);
    if t.len() >= 2 && t[0] == '<' && t[t.len() - 1] == '>' {
        let inner = t.subrange(1, t.len() - 1);
        if !inner.contains('\'') {
            None
        } else if name_chars(inner) == "color"@ {
            Some(ValuesView::Color)
        } else if name_chars(inner) == "opacity"@ {
            Some(ValuesView::NumberOrPercentage)
        } else {
            None
        }
    } else {
        None
    }
}

/// A reference to the `color` property names the value space of the
/// property's own value, the bare `<color>` type, as any grammar written
/// as that type is classified (outside the transform projection).
pub proof fn lemma_color_reference_is_color_type(
    name: Seq<char>,
    id: Option<Seq<char>>,
    descriptions: Seq<(String, String)>,
    inputs: Option<GrammarProjectionInputs>,
)
    requires
        !transform_spec(name, "<color>"@, inputs),
    ensures
        property_reference_spec("<'color'>"@) == Some(classify_spec(name, id, "<color>"@, descriptions, inputs)),
        classify_spec(name, id, "<color>"@, descriptions, inputs) == ValuesView::Color,
{
    reveal_strlit("<color>");
    reveal_strlit("<'color'>");
    reveal_strlit("color");
    reveal_strlit("see below");
    reveal_strlit("<anything>");
    reveal_strlit("path data");
    reveal_strlit("svg-path [ebnf]");
    reveal_strlit("<number>");
    reveal_strlit("semicolon-separated x, y coordinate pairs");
    reveal_strlit("x, y coordinate pair");
    reveal_strlit("any value");
    let v = "<color>"@;
    assert(crate::text::lead_ws(v) == 0);
    assert(crate::text::trail_ws(v) == 0);
    assert(trim_spec(v) =~= v);
    assert(lower_seq(v) =~= v);
    assert(unwrap_parens(v) == v);
    assert(!see_below_spec(v));
    let inner = v.subrange(1, v.len() - 1);
    assert(!inner.contains('\''));
    assert(property_reference_spec(v) is None);
    assert forall|i: int| 0 <= i < v.len() implies !is_ws(#[trigger] v[i]) by {}
    crate::util::lemma_normalize_ws_plain(v);
    assert(phrase_spec(v) =~= v);
    reveal_strlit("boolean attribute [html]");
    reveal_strlit("space-separated valid non-empty url tokens [html]");
    reveal_strlit("set of space-separated tokens [html]");
    reveal_strlit("space-separated keyword tokens [html]");
    reveal_strlit("set of comma-separated tokens [html]");
    reveal_strlit("language-tag [abnf]");
    reveal_strlit("a bcp 47 language tag string [html]");
    reveal_strlit("valid integer [html]");
    reveal_strlit("url [url]");
    reveal_strlit("a referrer policy string [referrerpolicy]");
    reveal_strlit("a mime type string [html]");
    assert(referenced_syntax_spec(v) is None);
    crate::text::lemma_find_from_bounds(v, 0, "<number>"@);
    assert(!contains(v, "<number>"@));
    assert(!starts_with(v, "any value"@));
    let r = "<'color'>"@;
    assert(crate::text::lead_ws(r) == 0);
    assert(crate::text::trail_ws(r) == 0);
    assert(trim_spec(r) =~= r);
    let ri = r.subrange(1, r.len() - 1);
    assert(ri[0] == '\'');
    reveal_with_fuel(name_chars, 8);
    assert(ri.drop_last() =~= ri.subrange(0, 6));
    assert(name_chars(ri) =~= "color"@) by {
        let a = ri.subrange(0, 1);
        assert(name_chars(a.drop_last()) == a.drop_last());
    }
}

pub fn value_from_property_reference(value: &str) -> (r: Option<CatalogAttributeValues>)
    ensures
        match r {
            Some(v) => property_reference_spec(value@) == Some(values_view(v)),
            None => property_reference_spec(value@) is None,
        },
{
    let t = trimmed_chars(value);
    if !(t.len() >= 2 && t[0] == '<' && t[t.len() - 1] == '>') {
        return None;
    }
    let inner = sub_vec(&t, 1, t.len() - 1);
    let mut quote = false;
    let mut name: Vec<char> = Vec::new();
    let mut i: usize = 0;
    assert(inner@.take(0) =~= Seq::<char>::empty());
    while i < inner.len()
        invariant
            i <= inner@.len(),
            quote == exists|k: int| 0 <= k < i && #[trigger] inner@[k] == '\'',
            name@ == name_chars(inner@.take(i as int)),
        decreases inner@.len() - i,
    {
        assert(inner@.take(i + 1).drop_last() =~= inner@.take(i as int));
        assert(inner@.take(i + 1).last() == inner@[i as int]);
        let c = inner[i];
        if c == '\'' {
            quote = true;
        }
        if crate::text::alnum(c) || c == '-' {
            name.push(c);
        }
        i = i + 1;
    }
    assert(inner@.take(inner@.len() as int) =~= inner@);
    assert(quote == inner@.contains('\''));
    if !quote {
        return None;
    }
    let n = string_of(&name);
    if str_eq(n.as_str(), "color") {
        Some(CatalogAttributeValues::Color)
    } else if str_eq(n.as_str(), "opacity") {
        Some(CatalogAttributeValues::NumberOrPercentage)
    } else {
        None
    }
}

/// Prose as it is compared: whitespace collapsed, ASCII lowercased.
pub open spec fn phrase_spec(text: Seq<char>) -> Seq<char> {
    lower_seq(normalize_ws_spec(text))
}

fn phrase(text: &str) -> (r: Vec<char>)
    ensures
        r@ == phrase_spec(text@),
{
    let n = normalize_ws(text);
    let v = chars_of(n.as_str());
    lower_chars(&v)
}

/// An exact citation of a fetched syntax (`Boolean attribute [HTML]`).
pub open spec fn referenced_syntax_spec(value: Seq<char>) -> Option<ValuesView> {
    let p = phrase_spec(value);
    if p == "boolean attribute [html]"@ {
        Some(ValuesView::Boolean)
    } else if p == "space-separated valid non-empty url tokens [html]"@ {
        Some(ValuesView::UrlTokenList)
    } else if p == "set of space-separated tokens [html]"@ || p
        == "space-separated keyword tokens [html]"@ {
        Some(ValuesView::TokenList)
    } else if p == "set of comma-separated tokens [html]"@ {
        Some(ValuesView::CommaTokenList)
    } else if p == "language-tag [abnf]"@ || p == "a bcp 47 language tag string [html]"@ {
        Some(ValuesView::LanguageTag)
    } else if p == "valid integer [html]"@ {
        Some(ValuesView::Integer)
    } else if p == "url [url]"@ {
        Some(ValuesView::Url)
    } else if p == "a referrer policy string [referrerpolicy]"@ {
        Some(ValuesView::ReferrerPolicy)
    } else if p == "a mime type string [html]"@ {
        Some(ValuesView::MediaType)
    } else {
        None
    }
}

fn is_phrase(p: &Vec<char>, lit: &str) -> (r: bool)
    ensures
        r == (p@ == lit@),
{
    let l = chars_of(lit);
    seq_eq(p, &l)
}

pub fn value_from_referenced_syntax(value: &str) -> (r: Option<CatalogAttributeValues>)
    ensures
        match r {
            Some(v) => referenced_syntax_spec(value@) == Some(values_view(v)),
            None => referenced_syntax_spec(value@) is None,
        },
{
    let p = phrase(value);
    if is_phrase(&p, "boolean attribute [html]") {
        Some(CatalogAttributeValues::Boolean)
    } else if is_phrase(&p, "space-separated valid non-empty url tokens [html]") {
        Some(CatalogAttributeValues::UrlTokenList)
    } else if is_phrase(&p, "set of space-separated tokens [html]") || is_phrase(
        &p,
        "space-separated keyword tokens [html]",
    ) {
        Some(CatalogAttributeValues::TokenList)
    } else if is_phrase(&p, "set of comma-separated tokens [html]") {
        Some(CatalogAttributeValues::CommaTokenList)
    } else if is_phrase(&p, "language-tag [abnf]") || is_phrase(
        &p,
        "a bcp 47 language tag string [html]",
    ) {
        Some(CatalogAttributeValues::LanguageTag)
    } else if is_phrase(&p, "valid integer [html]") {
        Some(CatalogAttributeValues::Integer)
    } else if is_phrase(&p, "url [url]") {
        Some(CatalogAttributeValues::Url)
    } else if is_phrase(&p, "a referrer policy string [referrerpolicy]") {
        Some(CatalogAttributeValues::ReferrerPolicy)
    } else if is_phrase(&p, "a mime type string [html]") {
        Some(CatalogAttributeValues::MediaType)
    } else {
        None
    }
}

/// The value space prose under a `(see below)` grammar describes.
pub open spec fn see_below_description_spec(prose: Seq<char>) -> ValuesView {
    let n = phrase_spec(prose);
    let keywords = quoted_keywords_spec(prose);
    if contains(n, "must not be an empty string"@) && contains(n, "must not contain any whitespace"@) {
        ValuesView::Id
    } else if keywords.len() > 0 && (contains(n, "possible values"@) || contains(
        n,
        "values are the strings"@,
    ) || contains(n, "values are "@)) {
        ValuesView::Enum(keywords)
    } else if contains(n, "parsed as a media_query_list"@) {
        ValuesView::MediaQueryList
    } else if contains(n, "style sheet language as a media type"@) {
        ValuesView::MediaType
    } else if contains(n, "parsed as a declaration-list"@) {
        ValuesView::CssDeclarationList
    } else {
        ValuesView::FreeText
    }
}

pub fn value_from_see_below_description(prose: &str) -> (r: CatalogAttributeValues)
    ensures
        values_view(r) == see_below_description_spec(prose@),
{
    let n = phrase(prose);
    if has_sub(&n, "must not be an empty string") && has_sub(&n, "must not contain any whitespace") {
        return CatalogAttributeValues::Id;
    }
    let keywords = quoted_keyword_values(prose);
    if keywords.len() > 0 && (has_sub(&n, "possible values") || has_sub(&n, "values are the strings")
        || has_sub(&n, "values are ")) {
        return CatalogAttributeValues::Enum { values: keywords };
    }
    if has_sub(&n, "parsed as a media_query_list") {
        CatalogAttributeValues::MediaQueryList
    } else if has_sub(&n, "style sheet language as a media type") {
        CatalogAttributeValues::MediaType
    } else if has_sub(&n, "parsed as a declaration-list") {
        CatalogAttributeValues::CssDeclarationList
    } else {
        CatalogAttributeValues::FreeText
    }
}

// ---------------------------------------------------------------------------
// A property's value space

/// A whole grammar that cites an unmodeled production (`begin-value-list`).
pub open spec fn unmodeled_production_spec(value: Seq<char>) -> bool {
    let t = trim_spec(value);
    ends_with(t, "-value-list"@) && !(exists|k: int| 0 <= k < t.len() && is_ws(#[trigger] t[k]))
}

pub fn is_unmodeled_production_reference(value: &str) -> (r: bool)
    ensures
        r == unmodeled_production_spec(value@),
{
    let t = trimmed_chars(value);
    if !ends(&t, "-value-list") {
        return false;
    }
    let mut k: usize = 0;
    while k < t.len()
        invariant
            k <= t@.len(),
            t@ == trim_spec(value@),
            forall|j: int| 0 <= j < k ==> !is_ws(#[trigger] t@[j]),
        decreases t@.len() - k,
    {
        if crate::text::ws(t[k]) {
            assert(is_ws(t@[k as int]));
            return false;
        }
        k = k + 1;
    }
    true
}

/// The length grammars that `width` and `height` extend with `auto`.
pub open spec fn geometry_length_spec(value: Seq<char>) -> bool {
    let t = trim_spec(value);
    t == "<length>"@ || t == "<length-percentage>"@ || t == "<length> | <percentage>"@
}

/// The value spaces the sources verify beyond their grammar text: the SMIL
/// begin/end value lists stay unresolved, and `width`/`height` accept `auto`.
pub open spec fn override_spec(name: Seq<char>, value: Option<Seq<char>>) -> Option<ValuesView> {
    match value {
        Some(v) => if unmodeled_production_spec(v) {
            Some(ValuesView::Unresolved)
        } else if (name == "width"@ || name == "height"@) && geometry_length_spec(v) {
            Some(ValuesView::CssGrammar("auto | <length-percentage>"@))
        } else {
            None
        },
        None => None,
    }
}

/// The grammar a graph was built from.
pub open spec fn graph_of(grammar: Seq<char>, graph: CatalogCssGrammarGraph) -> bool {
    &&& graph.root == 0
    &&& node_views(graph.nodes@) == grammar_graph_spec(grammar).nodes
    &&& graph.edges@ == grammar_graph_spec(grammar).edges
}

/// Every grammar value space carries the graph of its grammar.
pub open spec fn graph_consistent(v: CatalogAttributeValues) -> bool {
    match v {
        CatalogAttributeValues::CssGrammar { grammar, graph } => graph_of(grammar@, graph),
        _ => true,
    }
}

fn grammar_values(grammar: String) -> (r: CatalogAttributeValues)
    ensures
        values_view(r) == ValuesView::CssGrammar(grammar@),
        graph_consistent(r),
{
    let graph = css_grammar_graph(grammar.as_str());
    CatalogAttributeValues::CssGrammar { grammar, graph }
}

pub fn source_verified_value_override(property: &PropertyValueDef) -> (r: Option<CatalogAttributeValues>)
    ensures
        match r {
            Some(v) => override_spec(property.name@, opt_chars(property.value)) == Some(values_view(v))
                && graph_consistent(v),
            None => override_spec(property.name@, opt_chars(property.value)) is None,
        },
{
    match &property.value {
        Some(v) => {
            if is_unmodeled_production_reference(v.as_str()) {
                return Some(CatalogAttributeValues::Unresolved);
            }
            let n = property.name.as_str();
            let t = trimmed_chars(v.as_str());
            let ts = string_of(&t);
            let len = str_eq(ts.as_str(), "<length>") || str_eq(ts.as_str(), "<length-percentage>")
                || str_eq(ts.as_str(), "<length> | <percentage>");
            if (str_eq(n, "width") || str_eq(n, "height")) && len {
                Some(grammar_values("auto | <length-percentage>".to_owned()))
            } else {
                None
            }
        },
        None => None,
    }
}

pub open spec fn opt_inputs(o: Option<&GrammarProjectionInputs>) -> Option<GrammarProjectionInputs> {
    match o {
        Some(i) => Some(*i),
        None => None,
    }
}

/// Whether a `transform` grammar projects onto the published transform
/// functions.
pub open spec fn transform_spec(
    name: Seq<char>,
    normalized: Seq<char>,
    inputs: Option<GrammarProjectionInputs>,
) -> bool {
    (name == "transform"@ || contains(normalized, "<transform-list>"@)) && match inputs {
        Some(i) => i.transform_functions@.len() > 0,
        None => false,
    }
}

/// The value space a repaired grammar names.
pub open spec fn classify_spec(
    name: Seq<char>,
    id: Option<Seq<char>>,
    value: Seq<char>,
    descriptions: Seq<(String, String)>,
    inputs: Option<GrammarProjectionInputs>,
) -> ValuesView {
    let normalized = lower_seq(value);
    let t = trim_spec(normalized);
    if see_below_spec(value) {
        match id {
            Some(id) => match lookup(descriptions, id) {
                Some(d) => see_below_description_spec(d),
                None => ValuesView::FreeText,
            },
            None => ValuesView::FreeText,
        }
    } else if normalized == "<anything>"@ {
        ValuesView::FreeText
    } else if property_reference_spec(value) is Some {
        property_reference_spec(value)->0
    } else if referenced_syntax_spec(value) is Some {
        referenced_syntax_spec(value)->0
    } else if t == "path data"@ || t == "svg-path [ebnf]"@ {
        ValuesView::PathData
    } else if contains(t, "<number>"@) && contains(t, "[; <number>]*"@) {
        ValuesView::SemicolonNumberList
    } else if t == "semicolon-separated x, y coordinate pairs"@ {
        ValuesView::CoordinatePairList
    } else if t == "x, y coordinate pair"@ {
        ValuesView::CoordinatePair
    } else if starts_with(lower_seq(trim_spec(value)), "any value"@) && contains(
        lower_seq(trim_spec(value)),
        "suggested file name"@,
    ) {
        ValuesView::SuggestedFileName
    } else if transform_spec(name, normalized, inputs) {
        ValuesView::Transform(string_seqs(inputs->0.transform_functions@))
    } else if normalized == "<color>"@ {
        ValuesView::Color
    } else if normalized == "<paint>"@ {
        ValuesView::Paint
    } else if normalized == "<url>"@ {
        ValuesView::Url
    } else if normalized == "<iri>"@ || normalized == "<uri>"@ {
        ValuesView::Iri
    } else if normalized == "<number> | <percentage>"@ || normalized == "<percentage> | <number>"@ {
        ValuesView::NumberOrPercentage
    } else if normalized == "<number>"@ {
        ValuesView::Number
    } else if normalized == "<length>"@ || normalized == "<length-percentage>"@ || normalized
        == "<length> | <percentage>"@ {
        ValuesView::Length
    } else {
        ValuesView::CssGrammar(value)
    }
}

/// The grammar text of a raw value: quotes folded, range annotations
/// dropped, type tokens repaired.
pub open spec fn grammar_text_spec(raw: Seq<char>) -> Seq<char> {
    repair_spec(strip_ranges_spec(straighten_spec(raw)))
}

/// The value space the catalog models for a property with the given name,
/// anchor, value grammar and keyword alternatives.
pub open spec fn values_for_spec(
    name: Seq<char>,
    id: Option<Seq<char>>,
    value: Option<Seq<char>>,
    keywords: Seq<Seq<char>>,
    descriptions: Seq<(String, String)>,
    inputs: Option<GrammarProjectionInputs>,
) -> ValuesView {
    match override_spec(name, value) {
        Some(v) => v,
        None => {
            let sorted = sorted_names(keywords);
            if sorted.len() > 0 && value is Some && keyword_only_spec(value->0) {
                ValuesView::Enum(sorted)
            } else {
                match value {
                    None => ValuesView::FreeText,
                    Some(raw) => classify_spec(name, id, grammar_text_spec(raw), descriptions, inputs),
                }
            }
        },
    }
}

pub open spec fn values_for_property_spec(
    p: PropertyValueDef,
    descriptions: Seq<(String, String)>,
    inputs: Option<GrammarProjectionInputs>,
) -> ValuesView {
    values_for_spec(
        p.name@,
        opt_chars(p.id),
        opt_chars(p.value),
        string_seqs(p.keywords@),
        descriptions,
        inputs,
    )
}

fn clone_strings(v: &Vec<String>) -> (r: Vec<String>)
    ensures
        string_seqs(r@) == string_seqs(v@),
{
    let mut out: Vec<String> = Vec::new();
    let mut i: usize = 0;
    while i < v.len()
        invariant
            i <= v@.len(),
            string_seqs(out@) =~= string_seqs(v@).take(i as int),
        decreases v@.len() - i,
    {
        let ghost before = string_seqs(out@);
        out.push(v[i].clone());
        assert(string_seqs(out@) =~= before.push(v@[i as int]@));
        i = i + 1;
    }
    assert(string_seqs(v@).take(v@.len() as int) =~= string_seqs(v@));
    out
}

fn is_lit(v: &Vec<char>, lit: &str) -> (r: bool)
    ensures
        r == (v@ == lit@),
{
    let l = chars_of(lit);
    seq_eq(v, &l)
}

fn classify(
    property: &PropertyValueDef,
    grammar: String,
    descriptions: &Vec<(String, String)>,
    inputs: Option<&GrammarProjectionInputs>,
) -> (r: CatalogAttributeValues)
    ensures
        values_view(r) == classify_spec(
            property.name@,
            opt_chars(property.id),
            grammar@,
            descriptions@,
            opt_inputs(inputs),
        ),
        graph_consistent(r),
{
    let value = chars_of(grammar.as_str());
    let normalized = lower_chars(&value);
    let ns = string_of(&normalized);
    let t = trimmed_chars(ns.as_str());
    if is_see_below_value(grammar.as_str()) {
        return match &property.id {
            Some(id) => match lookup_in(descriptions, id.as_str()) {
                Some(d) => value_from_see_below_description(d),
                None => CatalogAttributeValues::FreeText,
            },
            None => CatalogAttributeValues::FreeText,
        };
    }
    if is_lit(&normalized, "<anything>") {
        return CatalogAttributeValues::FreeText;
    }
    if let Some(v) = value_from_property_reference(grammar.as_str()) {
        return v;
    }
    if let Some(v) = value_from_referenced_syntax(grammar.as_str()) {
        return v;
    }
    if is_lit(&t, "path data") || is_lit(&t, "svg-path [ebnf]") {
        return CatalogAttributeValues::PathData;
    }
    if has_sub(&t, "<number>") && has_sub(&t, "[; <number>]*") {
        return CatalogAttributeValues::SemicolonNumberList;
    }
    if is_lit(&t, "semicolon-separated x, y coordinate pairs") {
        return CatalogAttributeValues::CoordinatePairList;
    }
    if is_lit(&t, "x, y coordinate pair") {
        return CatalogAttributeValues::CoordinatePair;
    }
    let tv = trimmed_chars(grammar.as_str());
    let lower = lower_chars(&tv);
    if starts(&lower, "any value") && has_sub(&lower, "suggested file name") {
        return CatalogAttributeValues::SuggestedFileName;
    }
    assert(normalized@ == lower_seq(grammar@));
    if str_eq(property.name.as_str(), "transform") || has_sub(&normalized, "<transform-list>") {
        if let Some(i) = inputs {
            let functions = i.transform_functions();
            assert(functions@.len() == string_seqs(functions@).len());
            assert(i.transform_functions@.len() == string_seqs(i.transform_functions@).len());
            if functions.len() > 0 {
                assert(transform_spec(property.name@, normalized@, opt_inputs(inputs)));
                return CatalogAttributeValues::Transform { functions };
            }
        }
    }
    assert(!transform_spec(property.name@, normalized@, opt_inputs(inputs)));
    if is_lit(&normalized, "<color>") {
        CatalogAttributeValues::Color
    } else if is_lit(&normalized, "<paint>") {
        CatalogAttributeValues::Paint
    } else if is_lit(&normalized, "<url>") {
        CatalogAttributeValues::Url
    } else if is_lit(&normalized, "<iri>") || is_lit(&normalized, "<uri>") {
        CatalogAttributeValues::Iri
    } else if is_lit(&normalized, "<number> | <percentage>") || is_lit(
        &normalized,
        "<percentage> | <number>",
    ) {
        CatalogAttributeValues::NumberOrPercentage
    } else if is_lit(&normalized, "<number>") {
        CatalogAttributeValues::Number
    } else if is_lit(&normalized, "<length>") || is_lit(&normalized, "<length-percentage>")
        || is_lit(&normalized, "<length> | <percentage>") {
        CatalogAttributeValues::Length
    } else {
        grammar_values(grammar)
    }
}

/// Convert a property's value grammar into the value space the catalog
/// models.
pub fn values_for_property(
    property: &PropertyValueDef,
    descriptions: &Vec<(String, String)>,
    inputs: Option<&GrammarProjectionInputs>,
) -> (r: CatalogAttributeValues)
    ensures
        values_view(r) == values_for_property_spec(*property, descriptions@, opt_inputs(inputs)),
        graph_consistent(r),
{
    if let Some(v) = source_verified_value_override(property) {
        return v;
    }
    let keywords = sort_names(clone_strings(&property.keywords));
    if keywords.len() > 0 {
        if let Some(v) = &property.value {
            if is_keyword_only_grammar(v.as_str()) {
                return CatalogAttributeValues::Enum { values: keywords };
            }
        }
    }
    match &property.value {
        None => CatalogAttributeValues::FreeText,
        Some(raw) => {
            let folded = straighten(raw.as_str());
            let stripped = strip_type_range_annotations(folded.as_str());
            let grammar = repair_css_type_tokens(stripped.as_str());
            classify(property, grammar, descriptions, inputs)
        },
    }
}

// ---------------------------------------------------------------------------
// Value spaces that arrive without a local grammar

/// The type a grammar names when it is exactly one bare type reference
/// (`<opacity-value>`).
pub open spec fn single_type_spec(syntax: Seq<char>) -> Option<Seq<char>> {
    let t = trim_spec(syntax);
    if t.len() >= 2 && t[0] == '<' && t[t.len() - 1] == '>' {
        let inner = t.subrange(1, t.len() - 1);
        if inner.len() > 0 && forall|k: int|
            0 <= k < inner.len() ==> is_alnum(#[trigger] inner[k]) || inner[k] == '-' {
            Some(inner)
        } else {
            None
        }
    } else {
        None
    }
}

fn single_type_reference(syntax: &str) -> (r: Option<String>)
    ensures
        opt_chars(r) == single_type_spec(syntax@),
{
    let t = trimmed_chars(syntax);
    if !(t.len() >= 2 && t[0] == '<' && t[t.len() - 1] == '>') {
        return None;
    }
    let inner = sub_vec(&t, 1, t.len() - 1);
    if inner.len() == 0 {
        return None;
    }
    let mut k: usize = 0;
    while k < inner.len()
        invariant
            k <= inner@.len(),
            t@ == trim_spec(syntax@),
            t@.len() >= 2 && t@[0] == '<' && t@[t@.len() - 1] == '>',
            inner@ == t@.subrange(1, t@.len() - 1),
            inner@.len() > 0,
            forall|j: int| 0 <= j < k ==> is_alnum(#[trigger] inner@[j]) || inner@[j] == '-',
        decreases inner@.len() - k,
    {
        if !(crate::text::alnum(inner[k]) || inner[k] == '-') {
            assert(!(is_alnum(inner@[k as int]) || inner@[k as int] == '-'));
            return None;
        }
        k = k + 1;
    }
    Some(string_of(&inner))
}

/// A grammar resolved as the value of a property named `name`.
pub open spec fn resolve_once_spec(
    name: Seq<char>,
    grammar: Seq<char>,
    descriptions: Seq<(String, String)>,
    inputs: Option<GrammarProjectionInputs>,
) -> ValuesView {
    values_for_spec(name, None, Some(grammar), crate::chapter::keywords_of(grammar), descriptions, inputs)
}

/// A grammar from any source projected onto a catalog value space: a bare
/// type reference is expanded one level through the published type syntax
/// when that yields a specialized value space; free text and unresolved
/// results are no resolution.
pub open spec fn resolve_source_spec(
    name: Seq<char>,
    grammar: Seq<char>,
    descriptions: Seq<(String, String)>,
    inputs: Option<GrammarProjectionInputs>,
) -> Option<ValuesView> {
    let v = resolve_once_spec(name, grammar, descriptions, inputs);
    let expanded = match inputs {
        Some(i) => match single_type_spec(grammar) {
            Some(t) => lookup(i.type_syntaxes@, t),
            None => None,
        },
        None => None,
    };
    let w = if v is CssGrammar && expanded is Some {
        let e = resolve_once_spec(name, expanded->0, descriptions, inputs);
        if e is CssGrammar || e is FreeText {
            v
        } else {
            e
        }
    } else {
        v
    };
    if w is FreeText || w is Unresolved {
        None
    } else {
        Some(w)
    }
}

fn resolve_once(
    name: &str,
    grammar: &str,
    descriptions: &Vec<(String, String)>,
    inputs: Option<&GrammarProjectionInputs>,
) -> (r: CatalogAttributeValues)
    ensures
        values_view(r) == resolve_once_spec(name@, grammar@, descriptions@, opt_inputs(inputs)),
        graph_consistent(r),
{
    let keywords = crate::chapter::value_keywords(grammar);
    assert(string_seqs(keywords@) =~= crate::chapter::strs(keywords@));
    let property = PropertyValueDef {
        name: name.to_owned(),
        id: None,
        value: Some(grammar.to_owned()),
        keywords,
        initial: None,
        applies_to: None,
        inherited: None,
        computed_value: None,
        animation_type: None,
    };
    values_for_property(&property, descriptions, inputs)
}

pub fn resolve_source_grammar(
    name: &str,
    grammar: &str,
    inputs: Option<&GrammarProjectionInputs>,
    descriptions: &Vec<(String, String)>,
) -> (r: Option<CatalogAttributeValues>)
    ensures
        match r {
            Some(v) => resolve_source_spec(name@, grammar@, descriptions@, opt_inputs(inputs)) == Some(
                values_view(v),
            ) && graph_consistent(v),
            None => resolve_source_spec(name@, grammar@, descriptions@, opt_inputs(inputs)) is None,
        },
{
    let mut values = resolve_once(name, grammar, descriptions, inputs);
    if let CatalogAttributeValues::CssGrammar { .. } = &values {
        if let Some(i) = inputs {
            if let Some(t) = single_type_reference(grammar) {
                if let Some(expanded) = i.type_syntax(t.as_str()) {
                    let e = resolve_once(name, expanded, descriptions, inputs);
                    match e {
                        CatalogAttributeValues::CssGrammar { .. } | CatalogAttributeValues::FreeText => {},
                        _ => {
                            values = e;
                        },
                    }
                }
            }
        }
    }
    match values {
        CatalogAttributeValues::FreeText | CatalogAttributeValues::Unresolved => None,
        resolved => Some(resolved),
    }
}

/// A CSS property's value space from its published grammar.
pub open spec fn css_property_spec(
    name: Seq<char>,
    inputs: Option<GrammarProjectionInputs>,
    descriptions: Seq<(String, String)>,
) -> Option<ValuesView> {
    match inputs {
        Some(i) => match lookup(i.property_syntaxes@, name) {
            Some(syntax) => resolve_source_spec(name, syntax, descriptions, inputs),
            None => None,
        },
        None => None,
    }
}

pub fn css_property_value_space(
    name: &str,
    inputs: Option<&GrammarProjectionInputs>,
    descriptions: &Vec<(String, String)>,
) -> (r: Option<CatalogAttributeValues>)
    ensures
        match r {
            Some(v) => css_property_spec(name@, opt_inputs(inputs), descriptions@) == Some(values_view(v))
                && graph_consistent(v),
            None => css_property_spec(name@, opt_inputs(inputs), descriptions@) is None,
        },
{
    match inputs {
        Some(i) => match i.property_syntax(name) {
            Some(syntax) => resolve_source_grammar(name, syntax, inputs, descriptions),
            None => None,
        },
        None => None,
    }
}

/// Grammars quoted from the specifications that define attributes SVG 2
/// removed, without the universal `inherit`.
pub open spec fn deprecated_grammar_spec(name: Seq<char>) -> Option<Seq<char>> {
    if name == "zoomAndPan"@ {
        Some("disable | magnify"@)
    } else if name == "externalResourcesRequired"@ {
        Some("false | true"@)
    } else if name == "attributeType"@ {
        Some("CSS | XML | auto"@)
    } else if name == "version"@ {
        Some("<number>"@)
    } else if name == "xlink:show"@ {
        Some("new | replace | embed | other | none"@)
    } else if name == "xlink:actuate"@ {
        Some("onLoad | onRequest | other | none"@)
    } else {
        None
    }
}

pub fn deprecated_attribute_grammar(name: &str) -> (r: Option<&'static str>)
    ensures
        match r {
            Some(g) => deprecated_grammar_spec(name@) == Some(g@),
            None => deprecated_grammar_spec(name@) is None,
        },
{
    if str_eq(name, "zoomAndPan") {
        Some("disable | magnify")
    } else if str_eq(name, "externalResourcesRequired") {
        Some("false | true")
    } else if str_eq(name, "attributeType") {
        Some("CSS | XML | auto")
    } else if str_eq(name, "version") {
        Some("<number>")
    } else if str_eq(name, "xlink:show") {
        Some("new | replace | embed | other | none")
    } else if str_eq(name, "xlink:actuate") {
        Some("onLoad | onRequest | other | none")
    } else {
        None
    }
}

/// Attributes SVG borrows from HTML, with the value spaces the WHATWG
/// sections give them.
pub open spec fn html_borrowed_spec(
    name: Seq<char>,
    inputs: Option<GrammarProjectionInputs>,
    descriptions: Seq<(String, String)>,
) -> Option<ValuesView> {
    if name == "async"@ || name == "defer"@ {
        Some(ValuesView::Boolean)
    } else if name == "interestfor"@ {
        Some(ValuesView::Id)
    } else if name == "decoding"@ {
        resolve_source_spec(name, "sync | async | auto"@, descriptions, inputs)
    } else if name == "fetchpriority"@ {
        resolve_source_spec(name, "high | low | auto"@, descriptions, inputs)
    } else {
        None
    }
}

pub fn html_borrowed_value_space(
    name: &str,
    inputs: Option<&GrammarProjectionInputs>,
    descriptions: &Vec<(String, String)>,
) -> (r: Option<CatalogAttributeValues>)
    ensures
        match r {
            Some(v) => html_borrowed_spec(name@, opt_inputs(inputs), descriptions@) == Some(values_view(v))
                && graph_consistent(v),
            None => html_borrowed_spec(name@, opt_inputs(inputs), descriptions@) is None,
        },
{
    if str_eq(name, "async") || str_eq(name, "defer") {
        Some(CatalogAttributeValues::Boolean)
    } else if str_eq(name, "interestfor") {
        Some(CatalogAttributeValues::Id)
    } else if str_eq(name, "decoding") {
        resolve_source_grammar(name, "sync | async | auto", inputs, descriptions)
    } else if str_eq(name, "fetchpriority") {
        resolve_source_grammar(name, "high | low | auto", inputs, descriptions)
    } else {
        None
    }
}

/// Value spaces fixed by definition: `xml:lang` is a language tag; the
/// polymorphic animation values, advisory titles and profile names are free.
pub open spec fn definitional_spec(name: Seq<char>) -> Option<ValuesView> {
    if name == "xml:lang"@ {
        Some(ValuesView::LanguageTag)
    } else if name == "by"@ || name == "from"@ || name == "to"@ || name == "values"@ || name
        == "title"@ || name == "baseProfile"@ || name == "xlink:title"@ {
        Some(ValuesView::FreeText)
    } else {
        None
    }
}

pub fn definitional_value_space(name: &str) -> (r: Option<CatalogAttributeValues>)
    ensures
        match r {
            Some(v) => definitional_spec(name@) == Some(values_view(v)),
            None => definitional_spec(name@) is None,
        },
{
    if str_eq(name, "xml:lang") {
        Some(CatalogAttributeValues::LanguageTag)
    } else if str_eq(name, "by") || str_eq(name, "from") || str_eq(name, "to") || str_eq(
        name,
        "values",
    ) || str_eq(name, "title") || str_eq(name, "baseProfile") || str_eq(name, "xlink:title") {
        Some(CatalogAttributeValues::FreeText)
    } else {
        None
    }
}

/// Event handlers (`on` then a lowercase letter) and the `data-*` wildcard
/// take any value.
pub open spec fn genuinely_free_spec(name: Seq<char>) -> bool {
    name == "data-*"@ || (starts_with(name, "on"@) && name.len() > 2 && 'a' <= name[2] && name[2]
        <= 'z')
}

pub fn is_genuinely_free_value(name: &str) -> (r: bool)
    ensures
        r == genuinely_free_spec(name@),
{
    if str_eq(name, "data-*") {
        return true;
    }
    let v = chars_of(name);
    starts(&v, "on") && v.len() > 2 && 'a' <= v[2] && v[2] <= 'z'
}

/// An attribute's value space after the derived sources are consulted: a
/// free-text space is resolved from WAI-ARIA, the published CSS grammars,
/// the SVG 1.1 property index, the grammars of removed attributes, the HTML
/// sections SVG borrows from, and fixed definitions, in that order; what
/// remains free is unresolved unless it is genuinely free.
pub open spec fn derived_spec(
    name: Seq<char>,
    values: ValuesView,
    aria: Option<Seq<(String, CatalogAttributeValues)>>,
    inputs: Option<GrammarProjectionInputs>,
    svg11: Seq<(String, String)>,
    descriptions: Seq<(String, String)>,
) -> ValuesView {
    let from_aria = match aria {
        Some(a) => crate::aria::index_get(a, name),
        None => None,
    };
    let from_svg11 = match lookup(svg11, name) {
        Some(g) => resolve_source_spec(name, g, descriptions, inputs),
        None => None,
    };
    let from_deprecated = match deprecated_grammar_spec(name) {
        Some(g) => resolve_source_spec(name, g, descriptions, inputs),
        None => None,
    };
    if !(values is FreeText) {
        values
    } else if from_aria is Some {
        from_aria->0
    } else if css_property_spec(name, inputs, descriptions) is Some {
        css_property_spec(name, inputs, descriptions)->0
    } else if from_svg11 is Some {
        from_svg11->0
    } else if from_deprecated is Some {
        from_deprecated->0
    } else if html_borrowed_spec(name, inputs, descriptions) is Some {
        html_borrowed_spec(name, inputs, descriptions)->0
    } else if definitional_spec(name) is Some {
        definitional_spec(name)->0
    } else if !genuinely_free_spec(name) {
        ValuesView::Unresolved
    } else {
        values
    }
}

/// A copy of a value space; a grammar's graph is rebuilt from its text.
pub fn copy_values(v: &CatalogAttributeValues) -> (r: CatalogAttributeValues)
    ensures
        values_view(r) == values_view(*v),
        graph_consistent(r),
{
    match v {
        CatalogAttributeValues::Enum { values } => CatalogAttributeValues::Enum { values: clone_strings(values) },
        CatalogAttributeValues::Transform { functions } => CatalogAttributeValues::Transform {
            functions: clone_strings(functions),
        },
        CatalogAttributeValues::CssGrammar { grammar, .. } => grammar_values(grammar.clone()),
        CatalogAttributeValues::Boolean => CatalogAttributeValues::Boolean,
        CatalogAttributeValues::Color => CatalogAttributeValues::Color,
        CatalogAttributeValues::CommaTokenList => CatalogAttributeValues::CommaTokenList,
        CatalogAttributeValues::CoordinatePair => CatalogAttributeValues::CoordinatePair,
        CatalogAttributeValues::CoordinatePairList => CatalogAttributeValues::CoordinatePairList,
        CatalogAttributeValues::CssDeclarationList => CatalogAttributeValues::CssDeclarationList,
        CatalogAttributeValues::FreeText => CatalogAttributeValues::FreeText,
        CatalogAttributeValues::Id => CatalogAttributeValues::Id,
        CatalogAttributeValues::IdList => CatalogAttributeValues::IdList,
        CatalogAttributeValues::Integer => CatalogAttributeValues::Integer,
        CatalogAttributeValues::Iri => CatalogAttributeValues::Iri,
        CatalogAttributeValues::LanguageTag => CatalogAttributeValues::LanguageTag,
        CatalogAttributeValues::Length => CatalogAttributeValues::Length,
        CatalogAttributeValues::MediaQueryList => CatalogAttributeValues::MediaQueryList,
        CatalogAttributeValues::MediaType => CatalogAttributeValues::MediaType,
        CatalogAttributeValues::Number => CatalogAttributeValues::Number,
        CatalogAttributeValues::NumberOrPercentage => CatalogAttributeValues::NumberOrPercentage,
        CatalogAttributeValues::Paint => CatalogAttributeValues::Paint,
        CatalogAttributeValues::PathData => CatalogAttributeValues::PathData,
        CatalogAttributeValues::ReferrerPolicy => CatalogAttributeValues::ReferrerPolicy,
        CatalogAttributeValues::SemicolonNumberList => CatalogAttributeValues::SemicolonNumberList,
        CatalogAttributeValues::SuggestedFileName => CatalogAttributeValues::SuggestedFileName,
        CatalogAttributeValues::TokenList => CatalogAttributeValues::TokenList,
        CatalogAttributeValues::Unresolved => CatalogAttributeValues::Unresolved,
        CatalogAttributeValues::Url => CatalogAttributeValues::Url,
        CatalogAttributeValues::UrlTokenList => CatalogAttributeValues::UrlTokenList,
    }
}

pub open spec fn opt_aria(o: Option<&crate::aria::AriaValueIndex>) -> Option<
    Seq<(String, CatalogAttributeValues)>,
> {
    match o {
        Some(a) => Some(a.values@),
        None => None,
    }
}

/// Finalize the value space of attribute `name` after primary extraction.
pub fn apply_derived_value_space(
    name: &str,
    values: &mut CatalogAttributeValues,
    aria: Option<&crate::aria::AriaValueIndex>,
    inputs: Option<&GrammarProjectionInputs>,
    svg11_grammars: &Vec<(String, String)>,
    descriptions: &Vec<(String, String)>,
)
    requires
        graph_consistent(*old(values)),
    ensures
        values_view(*final(values)) == derived_spec(
            name@,
            values_view(*old(values)),
            opt_aria(aria),
            opt_inputs(inputs),
            svg11_grammars@,
            descriptions@,
        ),
        graph_consistent(*final(values)),
{
    if !matches!(values, CatalogAttributeValues::FreeText) {
        return;
    }
    if let Some(index) = aria {
        if let Some(v) = index.get(name) {
            *values = copy_values(v);
            return;
        }
    }
    if let Some(v) = css_property_value_space(name, inputs, descriptions) {
        *values = v;
        return;
    }
    if let Some(g) = lookup_in(svg11_grammars, name) {
        if let Some(v) = resolve_source_grammar(name, g, inputs, descriptions) {
            *values = v;
            return;
        }
    }
    if let Some(g) = deprecated_attribute_grammar(name) {
        if let Some(v) = resolve_source_grammar(name, g, inputs, descriptions) {
            *values = v;
            return;
        }
    }
    if let Some(v) = html_borrowed_value_space(name, inputs, descriptions) {
        *values = v;
        return;
    }
    if let Some(v) = definitional_value_space(name) {
        *values = v;
        return;
    }
    if !is_genuinely_free_value(name) {
        *values = CatalogAttributeValues::Unresolved;
    }
}

} // verus!
