//! WAI-ARIA state and property value types, projected into catalog value
//! spaces so `aria-*` attributes resolve.

use vstd::prelude::*;
use crate::chapter::lower_seq;
use crate::compat::{chars_lt, seq_lt, starts_with};
use crate::text::{
    chars_of, find_from, find_from_spec, index_of, index_of_spec, lemma_find_from_bounds,
    seq_eq, str_eq, string_of_range, string_seqs, sub_vec, trim_bounds, trim_spec,
};
use crate::values::{values_view, CatalogAttributeValues, ValuesView};
use crate::chapter::strip_colons;
use crate::chapter_page::{query, query_all};
use crate::html::{
    class_member, class_member_v, inner_text_of, inner_text_v, parse_html, parsed_html, tag_at_v, tag_ref,
    views, HtmlNode, NodeView,
};
use crate::util::{boxed, normalize_ws, normalize_ws_spec, RegenError};
use crate::keyed::{entries_view, lemma_put_sorted, names_sorted, put_entry, put_spec};

verus! {

/// Derived value spaces for `aria-*` attributes, by attribute name, in name
/// order with each name once.
pub struct AriaValueIndex {
    pub values: Vec<(String, CatalogAttributeValues)>,
}

pub open spec fn index_keys(v: Seq<(String, CatalogAttributeValues)>) -> Seq<Seq<char>> {
    v.map_values(|e: (String, CatalogAttributeValues)| e.0@)
}

/// The first entry named `name`.
pub open spec fn index_get(v: Seq<(String, CatalogAttributeValues)>, name: Seq<char>) -> Option<
    ValuesView,
>
    decreases v.len(),
{
    if v.len() == 0 {
        None
    } else if v[0].0@ == name {
        Some(values_view(v[0].1))
    } else {
        index_get(v.drop_first(), name)
    }
}

impl AriaValueIndex {
    /// The derived value space of an `aria-*` attribute, if WAI-ARIA gives it
    /// a value type the catalog models.
    pub fn get(&self, name: &str) -> (r: Option<&CatalogAttributeValues>)
        ensures
            match index_get(self.values@, name@) {
                Some(v) => r matches Some(x) && values_view(*x) == v,
                None => r is None,
            },
    {
        let mut i: usize = 0;
        assert(self.values@.skip(0) =~= self.values@);
        while i < self.values.len()
            invariant
                i <= self.values@.len(),
                index_get(self.values@, name@) == index_get(self.values@.skip(i as int), name@),
            decreases self.values@.len() - i,
        {
            assert(self.values@.skip(i as int)[0] == self.values@[i as int]);
            assert(self.values@.skip(i as int).drop_first() =~= self.values@.skip(i + 1));
            if str_eq(self.values[i].0.as_str(), name) {
                return Some(&self.values[i].1);
            }
            i = i + 1;
        }
        None
    }

    /// Number of `aria-*` attributes with a derived value space.
    pub fn len(&self) -> (r: usize)
        ensures
            r == self.values@.len(),
    {
        self.values.len()
    }
}

/// A value-description cell without the `(default)` marker, trimmed.
pub open spec fn aria_token_spec(cell: Seq<char>) -> Seq<char> {
    match find_from_spec(cell, 0, " (default)"@) {
        Some(i) => trim_spec(cell.take(i)),
        None => trim_spec(cell),
    }
}

/// Strip the `(default)` marker WAI-ARIA appends to a default token.
pub fn aria_token(cell: &str) -> (r: String)
    ensures
        r@ == aria_token_spec(cell@),
{
    let v = chars_of(cell);
    let marker = chars_of(" (default)");
    proof {
        lemma_find_from_bounds(v@, 0, marker@);
    }
    let end = match find_from(&v, 0, &marker) {
        Some(i) => i,
        None => v.len(),
    };
    let head = sub_vec(&v, 0, end);
    assert(v@.take(end as int) =~= head@);
    if end == v.len() {
        assert(head@ =~= v@);
    }
    let (a, b) = trim_bounds(&head);
    string_of_range(&head, a, b)
}

pub open spec fn enum_of(values: Seq<Seq<char>>) -> ValuesView {
    ValuesView::Enum(values)
}

/// The value space of a WAI-ARIA value type (compared trimmed and in lower
/// case); `token` needs the enumerated tokens.
pub open spec fn map_value_type_spec(value_type: Seq<char>, tokens: Seq<Seq<char>>) -> Option<
    ValuesView,
> {
    let t = lower_seq(trim_spec(value_type));
    if t == "true/false"@ {
        Some(ValuesView::Boolean)
    } else if t == "true/false/undefined"@ {
        Some(enum_of(seq!["false"@, "true"@, "undefined"@]))
    } else if t == "tristate"@ {
        Some(enum_of(seq!["false"@, "mixed"@, "true"@, "undefined"@]))
    } else if t == "integer"@ {
        Some(ValuesView::Integer)
    } else if t == "number"@ {
        Some(ValuesView::Number)
    } else if t == "id reference"@ {
        Some(ValuesView::Id)
    } else if t == "id reference list"@ {
        Some(ValuesView::IdList)
    } else if t == "string"@ {
        Some(ValuesView::FreeText)
    } else if t == "token list"@ {
        Some(ValuesView::TokenList)
    } else if t == "token"@ && tokens.len() > 0 {
        Some(enum_of(tokens))
    } else {
        None
    }
}

/// Whether a value space admits the literal value `w`.
pub open spec fn admits(v: ValuesView, w: Seq<char>) -> bool {
    match v {
        ValuesView::Boolean => w == "true"@ || w == "false"@,
        ValuesView::Enum(values) => values.contains(w),
        _ => false,
    }
}

/// The `/`-separated parts of a text.
pub open spec fn slash_words(s: Seq<char>) -> Seq<Seq<char>>
    decreases s.len(),
{
    if s.len() == 0 {
        seq![Seq::empty()]
    } else {
        let w = slash_words(s.drop_last());
        if s.last() == '/' {
            w.push(Seq::empty())
        } else {
            w.drop_last().push(w.last().push(s.last()))
        }
    }
}

proof fn lemma_slash_plain(s: Seq<char>)
    requires
        !s.contains('/'),
    ensures
        slash_words(s) == seq![s],
    decreases s.len(),
{
    if s.len() > 0 {
        lemma_slash_plain(s.drop_last());
        assert(s.drop_last().push(s.last()) =~= s);
        assert(s.last() == s[s.len() - 1]);
    } else {
        assert(s =~= Seq::<char>::empty());
    }
}

proof fn lemma_slash_after(a: Seq<char>, b: Seq<char>)
    requires
        !b.contains('/'),
    ensures
        slash_words(a.push('/') + b) == slash_words(a).push(b),
    decreases b.len(),
{
    let s = a.push('/') + b;
    if b.len() == 0 {
        assert(s =~= a.push('/'));
        assert(s.drop_last() =~= a);
        assert(b =~= Seq::<char>::empty());
    } else {
        let b0 = b.drop_last();
        assert(!b0.contains('/')) by {
            if b0.contains('/') {
                let k = choose|k: int| 0 <= k < b0.len() && b0[k] == '/';
                assert(b[k] == '/');
            }
        }
        lemma_slash_after(a, b0);
        assert(s.drop_last() =~= a.push('/') + b0);
        assert(s.last() == b[b.len() - 1]);
        assert(b0.push(b.last()) =~= b);
    }
}

/// A value type written as alternatives (`true/false/undefined`) admits each
/// value it names, and a token type admits each enumerated token.
pub proof fn lemma_value_type_admits_named_values(value_type: Seq<char>, tokens: Seq<Seq<char>>)
    ensures
        ({
            let t = lower_seq(trim_spec(value_type));
            match map_value_type_spec(value_type, tokens) {
                Some(v) => (t.contains('/') ==> forall|i: int|
                    0 <= i < slash_words(t).len() ==> admits(v, #[trigger] slash_words(t)[i])) && (t == "token"@
                    ==> forall|i: int| 0 <= i < tokens.len() ==> admits(v, #[trigger] tokens[i])),
                None => true,
            }
        }),
{
    let t = lower_seq(trim_spec(value_type));
    reveal_strlit("true/false");
    reveal_strlit("true/false/undefined");
    reveal_strlit("tristate");
    reveal_strlit("integer");
    reveal_strlit("number");
    reveal_strlit("id reference");
    reveal_strlit("id reference list");
    reveal_strlit("string");
    reveal_strlit("token list");
    reveal_strlit("token");
    reveal_strlit("true");
    reveal_strlit("false");
    reveal_strlit("undefined");
    if t == "true/false"@ {
        lemma_slash_plain("true"@);
        lemma_slash_after("true"@, "false"@);
        assert(t =~= "true"@.push('/') + "false"@);
        assert(slash_words(t) =~= seq!["true"@, "false"@]);
    } else if t == "true/false/undefined"@ {
        lemma_slash_plain("true"@);
        lemma_slash_after("true"@, "false"@);
        lemma_slash_after("true"@.push('/') + "false"@, "undefined"@);
        assert(t =~= ("true"@.push('/') + "false"@).push('/') + "undefined"@);
        assert(slash_words(t) =~= seq!["true"@, "false"@, "undefined"@]);
        let vals = seq!["false"@, "true"@, "undefined"@];
        assert(vals[0] == "false"@ && vals[1] == "true"@ && vals[2] == "undefined"@);
    } else if t == "token"@ && tokens.len() > 0 {
        assert(!t.contains('/'));
    } else {
        if t == "tristate"@ || t == "integer"@ || t == "number"@ || t == "id reference"@ || t == "id reference list"@
            || t == "string"@ || t == "token list"@ {
            assert(!t.contains('/'));
        }
    }
}

fn owned_list(items: &Vec<&str>) -> (r: Vec<String>)
    ensures
        string_seqs(r@) == items@.map_values(|s: &str| s@),
{
    let mut out: Vec<String> = Vec::new();
    let mut i: usize = 0;
    while i < items.len()
        invariant
            i <= items@.len(),
            string_seqs(out@) == items@.map_values(|s: &str| s@).take(i as int),
        decreases items@.len() - i,
    {
        let ghost before = string_seqs(out@);
        let x = items[i].to_owned();
        out.push(x);
        assert(string_seqs(out@) =~= before.push(x@));
        assert(items@.map_values(|s: &str| s@).take(i + 1) =~= items@.map_values(|s: &str| s@).take(
            i as int,
        ).push(x@));
        i = i + 1;
    }
    assert(items@.map_values(|s: &str| s@).take(i as int) =~= items@.map_values(|s: &str| s@));
    out
}

fn clone_strings(v: &Vec<String>) -> (r: Vec<String>)
    ensures
        string_seqs(r@) == string_seqs(v@),
{
    let mut out: Vec<String> = Vec::new();
    let mut i: usize = 0;
    while i < v.len()
        invariant
            i <= v@.len(),
            string_seqs(out@) == string_seqs(v@).take(i as int),
        decreases v@.len() - i,
    {
        let ghost before = string_seqs(out@);
        let x = v[i].clone();
        out.push(x);
        assert(string_seqs(out@) =~= before.push(x@));
        assert(string_seqs(v@).take(i + 1) =~= string_seqs(v@).take(i as int).push(x@));
        i = i + 1;
    }
    assert(string_seqs(v@).take(i as int) =~= string_seqs(v@));
    out
}

/// Project a WAI-ARIA value type to a catalog value space.
pub fn map_value_type(value_type: &str, tokens: &Vec<String>) -> (r: Option<CatalogAttributeValues>)
    ensures
        match r {
            Some(x) => map_value_type_spec(value_type@, string_seqs(tokens@)) == Some(values_view(x)),
            None => map_value_type_spec(value_type@, string_seqs(tokens@)) is None,
        },
{
    let v = chars_of(value_type);
    let (a, b) = trim_bounds(&v);
    let trimmed = sub_vec(&v, a, b);
    let t = crate::chapter::lower_chars(&trimmed);
    let is = |lit: &str| -> (r: bool)
        ensures
            r == (t@ == lit@),
        {
            let l = chars_of(lit);
            seq_eq(&t, &l)
        };
    if is("true/false") {
        Some(CatalogAttributeValues::Boolean)
    } else if is("true/false/undefined") {
        let items = vec!["false", "true", "undefined"];
        let values = owned_list(&items);
        assert(items@.map_values(|s: &str| s@) =~= seq!["false"@, "true"@, "undefined"@]);
        Some(CatalogAttributeValues::Enum { values })
    } else if is("tristate") {
        let items = vec!["false", "mixed", "true", "undefined"];
        let values = owned_list(&items);
        assert(items@.map_values(|s: &str| s@) =~= seq!["false"@, "mixed"@, "true"@, "undefined"@]);
        Some(CatalogAttributeValues::Enum { values })
    } else if is("integer") {
        Some(CatalogAttributeValues::Integer)
    } else if is("number") {
        Some(CatalogAttributeValues::Number)
    } else if is("id reference") {
        Some(CatalogAttributeValues::Id)
    } else if is("id reference list") {
        Some(CatalogAttributeValues::IdList)
    } else if is("string") {
        Some(CatalogAttributeValues::FreeText)
    } else if is("token list") {
        Some(CatalogAttributeValues::TokenList)
    } else if is("token") && tokens.len() > 0 {
        Some(CatalogAttributeValues::Enum { values: clone_strings(tokens) })
    } else {
        None
    }
}

/// `aria-` followed by at least one ASCII lowercase letter, and nothing else.
pub open spec fn is_aria_name(name: Seq<char>) -> bool {
    starts_with(name, "aria-"@) && name.len() > 5 && forall|i: int|
        5 <= i < name.len() ==> 0x61 <= (#[trigger] name[i]) as u32 && name[i] as u32 <= 0x7a
}

pub open spec fn section_marker() -> Seq<char> {
    "property=\"bibo:hasPart\""@
}

pub open spec fn section_pattern() -> Seq<char> {
    "id=\"aria-"@
}

/// The first `c` at or after `from`.
pub open spec fn find_ch(s: Seq<char>, from: int, c: char) -> Option<int> {
    let k = index_of_spec(s, from, c);
    if 0 <= from && k < s.len() {
        Some(k)
    } else {
        None
    }
}

/// Where the section whose `id` attribute starts at `off` begins, with its
/// name, when the id names an `aria-*` attribute and the tag carries the
/// section marker.
pub open spec fn section_start_at(h: Seq<char>, off: int) -> Option<Seq<char>> {
    let after = h.subrange(off + 4, h.len() as int);
    match find_ch(after, 0, '"') {
        None => None,
        Some(close) => {
            let name = after.take(close);
            if !is_aria_name(name) {
                None
            } else {
                match find_ch(after, close, '>') {
                    None => None,
                    Some(te) => if find_from_spec(after.subrange(close, te), 0, section_marker()) is Some {
                        Some(name)
                    } else {
                        None
                    },
                }
            }
        },
    }
}

/// The section starts (offset and name) among the `id="aria-` occurrences
/// from `from`.
pub open spec fn starts_from(h: Seq<char>, from: int) -> Seq<(int, Seq<char>)>
    decreases h.len() - from,
{
    if from < 0 || from > h.len() {
        Seq::empty()
    } else {
        match find_from_spec(h, from, section_pattern()) {
            None => Seq::empty(),
            Some(off) => {
                let next = off + section_pattern().len();
                let rest = if from < next <= h.len() {
                    starts_from(h, next)
                } else {
                    Seq::empty()
                };
                match section_start_at(h, off) {
                    Some(name) => seq![(off, name)] + rest,
                    None => rest,
                }
            },
        }
    }
}

/// Each section runs from its start to the next section's start, or to the
/// end of the page.
pub open spec fn sections_spec(h: Seq<char>) -> Seq<(Seq<char>, Seq<char>)> {
    let st = starts_from(h, 0);
    Seq::new(
        st.len(),
        |k: int|
            (st[k].1, h.subrange(st[k].0, if k + 1 < st.len() { st[k + 1].0 } else { h.len() as int })),
    )
}

proof fn lemma_starts(h: Seq<char>, from: int)
    requires
        0 <= from <= h.len(),
    ensures
        forall|k: int|
            0 <= k < starts_from(h, from).len() ==> from <= (#[trigger] starts_from(h, from)[k]).0
                && starts_from(h, from)[k].0 + 9 <= h.len(),
        forall|k: int, j: int|
            0 <= k < j < starts_from(h, from).len() ==> (#[trigger] starts_from(h, from)[k]).0
                < (#[trigger] starts_from(h, from)[j]).0,
    decreases h.len() - from,
{
    reveal_strlit("id=\"aria-");
    lemma_find_from_bounds(h, from, section_pattern());
    match find_from_spec(h, from, section_pattern()) {
        None => {},
        Some(off) => {
            let next = off + section_pattern().len();
            if from < next <= h.len() {
                lemma_starts(h, next);
            }
            let rest = if from < next <= h.len() {
                starts_from(h, next)
            } else {
                Seq::empty()
            };
            let st = starts_from(h, from);
            match section_start_at(h, off) {
                Some(name) => {
                    assert(st =~= seq![(off, name)] + rest);
                    assert forall|k: int, j: int| 0 <= k < j < st.len() implies (#[trigger] st[k]).0
                        < (#[trigger] st[j]).0 by {
                        if k > 0 {
                            assert(st[k] == rest[k - 1]);
                        }
                        assert(st[j] == rest[j - 1]);
                    }
                    assert forall|k: int| 0 <= k < st.len() implies from <= (#[trigger] st[k]).0
                        && st[k].0 + 9 <= h.len() by {
                        if k > 0 {
                            assert(st[k] == rest[k - 1]);
                        }
                    }
                },
                None => {},
            }
        },
    }
}

fn section_name_at(h: &Vec<char>, off: usize) -> (r: Option<String>)
    requires
        off + 4 <= h@.len(),
    ensures
        match section_start_at(h@, off as int) {
            Some(n) => r matches Some(x) && x@ == n,
            None => r is None,
        },
{
    let hn = h.len();
    let after = sub_vec(h, off + 4, hn);
    let close = index_of(&after, 0, '"');
    if close >= after.len() {
        return None;
    }
    let name = sub_vec(&after, 0, close);
    assert(name@ =~= after@.take(close as int));
    let prefix = chars_of("aria-");
    proof {
        reveal_strlit("aria-");
    }
    if !(name.len() > 5 && crate::text::prefix_at(&name, 0, &prefix)) {
        return None;
    }
    let mut i: usize = 5;
    while i < name.len()
        invariant
            5 <= i <= name@.len(),
            off + 4 <= h@.len(),
            name@ == after@.take(close as int),
            after@ == h@.subrange(off + 4, h@.len() as int),
            close < after@.len(),
            close == index_of_spec(after@, 0, '"'),
            crate::compat::starts_with(name@, "aria-"@),
            forall|k: int| 5 <= k < i ==> 0x61 <= (#[trigger] name@[k]) as u32 && name@[k] as u32 <= 0x7a,
        decreases name@.len() - i,
    {
        let c = name[i] as u32;
        if !(0x61 <= c && c <= 0x7a) {
            assert(!is_aria_name(name@));
            return None;
        }
        i = i + 1;
    }
    let te = index_of(&after, close, '>');
    if te >= after.len() {
        return None;
    }
    let tag = sub_vec(&after, close, te);
    let marker = chars_of("property=\"bibo:hasPart\"");
    if find_from(&tag, 0, &marker).is_none() {
        return None;
    }
    Some(crate::text::string_of(&name))
}

/// Split a WAI-ARIA page into `(aria-name, section)` pairs: each state or
/// property section opens with `id="aria-NAME"` on a tag carrying the
/// section marker and runs to the next such section.
pub fn aria_sections(html: &str) -> (r: Vec<(String, String)>)
    ensures
        r@.map_values(|p: (String, String)| (p.0@, p.1@)) == sections_spec(html@),
{
    let h = chars_of(html);
    let pat = chars_of("id=\"aria-");
    proof {
        reveal_strlit("id=\"aria-");
    }
    assert(pat@.len() == 9);
    let mut starts: Vec<(usize, String)> = Vec::new();
    let mut from: usize = 0;
    let ghost all = starts_from(h@, 0);
    let hn = h.len();
    loop
        invariant
            hn == h@.len(),
            from <= h@.len(),
            pat@ == section_pattern(),
            pat@.len() == 9,
            all == starts_from(h@, 0),
            starts@.map_values(|p: (usize, String)| (p.0 as int, p.1@)) + starts_from(h@, from as int)
                == all,
            forall|k: int| 0 <= k < starts@.len() ==> (#[trigger] starts@[k]).0 < from,
        ensures
            starts@.map_values(|p: (usize, String)| (p.0 as int, p.1@)) == all,
        decreases h@.len() - from,
    {
        proof {
            lemma_find_from_bounds(h@, from as int, pat@);
        }
        let off = match find_from(&h, from, &pat) {
            Some(o) => o,
            None => {
                assert(starts@.map_values(|p: (usize, String)| (p.0 as int, p.1@)) =~= all);
                break;
            },
        };
        let ghost before = starts@.map_values(|p: (usize, String)| (p.0 as int, p.1@));
        let next = off + 9;
        match section_name_at(&h, off) {
            Some(name) => {
                let ghost nv = name@;
                starts.push((off, name));
                assert(starts@.map_values(|p: (usize, String)| (p.0 as int, p.1@)) =~= before.push(
                    (off as int, nv),
                ));
            },
            None => {},
        }
        from = next;
    }
    let ghost st = all;
    assert(starts@.map_values(|p: (usize, String)| (p.0 as int, p.1@)) == st);
    proof {
        lemma_starts(h@, 0);
    }
    let mut sections: Vec<(String, String)> = Vec::new();
    let n = starts.len();
    let mut k: usize = 0;
    while k < n
        invariant
            n == starts@.len(),
            k <= n,
            st == starts@.map_values(|p: (usize, String)| (p.0 as int, p.1@)),
            st == starts_from(h@, 0),
            sections@.map_values(|p: (String, String)| (p.0@, p.1@)) == sections_spec(html@).take(
                k as int,
            ),
            h@ == html@,
            forall|i: int| 0 <= i < st.len() ==> (#[trigger] st[i]).0 + 9 <= h@.len(),
            forall|i: int, j: int| 0 <= i < j < st.len() ==> (#[trigger] st[i]).0 < (#[trigger] st[j]).0,
        decreases n - k,
    {
        let start = starts[k].0;
        assert(st[k as int].0 == start);
        let end = if k + 1 < n {
            assert(st[k + 1].0 == starts@[k + 1].0);
            starts[k + 1].0
        } else {
            h.len()
        };
        let body = string_of_range(&h, start, end);
        let ghost before = sections@.map_values(|p: (String, String)| (p.0@, p.1@));
        let name = starts[k].1.clone();
        assert(st[k as int].1 == name@);
        let ghost item = (name@, body@);
        sections.push((name, body));
        assert(sections@.map_values(|p: (String, String)| (p.0@, p.1@)) =~= before.push(item));
        assert(sections_spec(html@).take(k + 1) =~= sections_spec(html@).take(k as int).push(item));
        k = k + 1;
    }
    assert(sections_spec(html@).take(k as int) =~= sections_spec(html@));
    sections
}

// ---------------------------------------------------------------------------
// Reading a section

/// The positions before `n` of the tags named `name` in class `cls`, in
/// document order: what `tl::VDom::query_selector` yields for `name.cls`.
pub open spec fn doc_query(nv: Seq<NodeView>, n: int, name: Seq<char>, cls: Seq<char>) -> Seq<int>
    decreases n,
{
    if n <= 0 {
        Seq::empty()
    } else {
        let prev = doc_query(nv, n - 1, name, cls);
        match tag_at_v(nv, n - 1) {
            Some(t) => if t.name == name && class_member_v(t, cls) {
                prev.push(n - 1)
            } else {
                prev
            },
            None => prev,
        }
    }
}

fn doc_query_all(nodes: &Vec<HtmlNode>, name: &str, cls: &str) -> (r: Vec<usize>)
    ensures
        r@.map_values(|p: usize| p as int) == doc_query(views(nodes@), nodes@.len() as int, name@, cls@),
{
    let mut out: Vec<usize> = Vec::new();
    let mut i: usize = 0;
    assert(out@.map_values(|p: usize| p as int) =~= Seq::<int>::empty());
    while i < nodes.len()
        invariant
            i <= nodes@.len(),
            out@.map_values(|p: usize| p as int) == doc_query(views(nodes@), i as int, name@, cls@),
        decreases nodes@.len() - i,
    {
        let ghost before = out@.map_values(|p: usize| p as int);
        if let Some(t) = tag_ref(nodes, i) {
            if str_eq(t.name.as_str(), name) && class_member(t, cls) {
                out.push(i);
                assert(out@.map_values(|p: usize| p as int) =~= before.push(i as int));
            }
        }
        i = i + 1;
    }
    out
}

/// A cell's text: its inner text with whitespace collapsed.
pub open spec fn cell_words(nv: Seq<NodeView>, k: int) -> Seq<char> {
    normalize_ws_spec(inner_text_v(nv, k))
}

pub(crate) fn cell_words_of(nodes: &Vec<HtmlNode>, k: usize) -> (r: String)
    ensures
        r@ == cell_words(views(nodes@), k as int),
{
    let raw = inner_text_of(nodes, k);
    normalize_ws(raw.as_str())
}

/// The text of the first descendant named `name` of the tag at `i`.
pub open spec fn first_text_spec(nv: Seq<NodeView>, i: int, name: Seq<char>) -> Option<Seq<char>> {
    let hits = query(nv, i, name);
    if hits.len() > 0 {
        Some(cell_words(nv, hits[0]))
    } else {
        None
    }
}

fn first_text(nodes: &Vec<HtmlNode>, i: usize, name: &str) -> (r: Option<String>)
    ensures
        match first_text_spec(views(nodes@), i as int, name@) {
            Some(t) => r matches Some(x) && x@ == t,
            None => r is None,
        },
{
    let hits = query_all(nodes, i, name);
    if hits.len() > 0 {
        assert(hits@.map_values(|p: usize| p as int)[0] == hits@[0] as int);
        Some(cell_words_of(nodes, hits[0]))
    } else {
        None
    }
}

/// The characteristics table of a property or a state.
pub open spec fn features_table(nv: Seq<NodeView>) -> Option<int> {
    let a = doc_query(nv, nv.len() as int, "table"@, "property-features"@);
    let b = doc_query(nv, nv.len() as int, "table"@, "state-features"@);
    if a.len() > 0 {
        Some(a[0])
    } else if b.len() > 0 {
        Some(b[0])
    } else {
        None
    }
}

/// The `Value:` row among `rows`, when there is one: its first cell's text.
pub open spec fn value_row(nv: Seq<NodeView>, rows: Seq<int>) -> Option<Option<Seq<char>>>
    decreases rows.len(),
{
    if rows.len() == 0 {
        None
    } else {
        match first_text_spec(nv, rows[0], "th"@) {
            Some(l) => if trim_spec(strip_colons(l)) == "Value"@ {
                Some(first_text_spec(nv, rows[0], "td"@))
            } else {
                value_row(nv, rows.drop_first())
            },
            None => value_row(nv, rows.drop_first()),
        }
    }
}

/// The non-empty tokens of the cells at `cells`, in order.
pub open spec fn token_cells(nv: Seq<NodeView>, cells: Seq<int>) -> Seq<Seq<char>>
    decreases cells.len(),
{
    if cells.len() == 0 {
        Seq::empty()
    } else {
        let prev = token_cells(nv, cells.drop_last());
        let t = aria_token_spec(cell_words(nv, cells.last()));
        if t.len() > 0 {
            prev.push(t)
        } else {
            prev
        }
    }
}

/// The enumerated value names of a section (`value-name` cells, else
/// `state-name` cells).
pub open spec fn section_tokens(nv: Seq<NodeView>) -> Seq<Seq<char>> {
    let a = token_cells(nv, doc_query(nv, nv.len() as int, "th"@, "value-name"@));
    if a.len() > 0 {
        a
    } else {
        token_cells(nv, doc_query(nv, nv.len() as int, "th"@, "state-name"@))
    }
}

/// The value space one section declares: its `Value:` type projected, with
/// the section's tokens for a `token` type.
pub open spec fn section_space(nv: Seq<NodeView>) -> Option<ValuesView> {
    match features_table(nv) {
        Some(t) => match value_row(nv, query(nv, t, "tr"@)) {
            Some(Some(vt)) => map_value_type_spec(vt, section_tokens(nv)),
            _ => None,
        },
        None => None,
    }
}

fn query_token_cells(nodes: &Vec<HtmlNode>, cls: &str) -> (r: Vec<String>)
    ensures
        string_seqs(r@) == token_cells(views(nodes@), doc_query(views(nodes@), nodes@.len() as int, "th"@, cls@)),
{
    let cells = doc_query_all(nodes, "th", cls);
    let ghost cs = cells@.map_values(|p: usize| p as int);
    let mut out: Vec<String> = Vec::new();
    let mut i: usize = 0;
    assert(cs.take(0) =~= Seq::<int>::empty());
    assert(string_seqs(out@) =~= Seq::<Seq<char>>::empty());
    while i < cells.len()
        invariant
            i <= cells@.len(),
            cs == cells@.map_values(|p: usize| p as int),
            string_seqs(out@) == token_cells(views(nodes@), cs.take(i as int)),
        decreases cells@.len() - i,
    {
        assert(cs.take(i + 1).drop_last() =~= cs.take(i as int));
        assert(cs.take(i + 1).last() == cells@[i as int] as int);
        let ghost before = string_seqs(out@);
        let words = cell_words_of(nodes, cells[i]);
        let t = aria_token(words.as_str());
        if t.as_str().unicode_len() > 0 {
            out.push(t);
            assert(string_seqs(out@) =~= before.push(out@.last()@));
        }
        i = i + 1;
    }
    assert(cs.take(cells@.len() as int) =~= cs);
    out
}

fn is_value_label(label: &String) -> (r: bool)
    ensures
        r == (trim_spec(strip_colons(label@)) == "Value"@),
{
    let v = chars_of(label.as_str());
    let mut n = v.len();
    assert(v@.take(n as int) =~= v@);
    while n > 0 && v[n - 1] == ':'
        invariant
            n <= v@.len(),
            strip_colons(v@) == strip_colons(v@.take(n as int)),
        decreases n,
    {
        assert(v@.take(n as int).drop_last() =~= v@.take(n - 1));
        n = n - 1;
    }
    assert(v@.take(n as int) =~= v@.subrange(0, n as int));
    let stripped = sub_vec(&v, 0, n);
    let (a, b) = trim_bounds(&stripped);
    let t = sub_vec(&stripped, a, b);
    let lit = chars_of("Value");
    seq_eq(&t, &lit)
}

/// Read one section's `Value:` characteristic (and, for a `token` type, its
/// enumerated values) and project it to a catalog value space. Fails when
/// the section cannot be parsed.
pub fn section_value_space(segment: &str) -> (r: Result<Option<CatalogAttributeValues>, RegenError>)
    ensures
        match parsed_html(segment@) {
            None => r matches Err(e) && e.message@ == "HTML document could not be parsed"@,
            Some(nv) => r matches Ok(x) && match x {
                Some(v) => section_space(nv) == Some(values_view(v)),
                None => section_space(nv) is None,
            },
        },
{
    let nodes = match parse_html(segment) {
        Some(n) => n,
        None => return Err(boxed("HTML document could not be parsed")),
    };
    let ghost nv = views(nodes@);
    let a = doc_query_all(&nodes, "table", "property-features");
    let b = doc_query_all(&nodes, "table", "state-features");
    let table = if a.len() > 0 {
        assert(a@.map_values(|p: usize| p as int)[0] == a@[0] as int);
        a[0]
    } else if b.len() > 0 {
        assert(b@.map_values(|p: usize| p as int)[0] == b@[0] as int);
        b[0]
    } else {
        return Ok(None);
    };
    assert(features_table(nv) == Some(table as int));
    let rows = query_all(&nodes, table, "tr");
    let ghost rs = rows@.map_values(|p: usize| p as int);
    let mut value_type: Option<String> = None;
    let mut found = false;
    let mut i: usize = 0;
    assert(rs.skip(0) =~= rs);
    while i < rows.len()
        invariant_except_break
            !found,
            value_type is None,
            value_row(nv, rs) == value_row(nv, rs.skip(i as int)),
        invariant
            i <= rows@.len(),
            rs == rows@.map_values(|p: usize| p as int),
            nv == views(nodes@),
        ensures
            found ==> value_row(nv, rs) == Some(
                match value_type {
                    Some(s) => Some(s@),
                    None => None,
                },
            ),
            !found ==> value_row(nv, rs) is None && value_type is None,
        decreases rows@.len() - i,
    {
        assert(rs.skip(i as int)[0] == rows@[i as int] as int);
        assert(rs.skip(i as int).drop_first() =~= rs.skip(i + 1));
        if let Some(label) = first_text(&nodes, rows[i], "th") {
            if is_value_label(&label) {
                value_type = first_text(&nodes, rows[i], "td");
                found = true;
                break;
            }
        }
        i = i + 1;
    }
    let vt = match value_type {
        Some(v) => v,
        None => return Ok(None),
    };
    let mut tokens = query_token_cells(&nodes, "value-name");
    if tokens.len() == 0 {
        tokens = query_token_cells(&nodes, "state-name");
    }
    assert(string_seqs(tokens@) == section_tokens(nv));
    Ok(map_value_type(vt.as_str(), &tokens))
}

// ---------------------------------------------------------------------------
// The index

pub open spec fn values_fn() -> spec_fn(CatalogAttributeValues) -> ValuesView {
    |c: CatalogAttributeValues| values_view(c)
}

pub open spec fn index_view(v: Seq<(String, CatalogAttributeValues)>) -> Seq<(Seq<char>, ValuesView)> {
    entries_view(v, values_fn())
}

/// The index the sections give: every section's declared value space under
/// its name (a later section replacing an earlier one); `None` when a
/// section cannot be parsed.
pub open spec fn aria_fold(secs: Seq<(Seq<char>, Seq<char>)>) -> Option<Seq<(Seq<char>, ValuesView)>>
    decreases secs.len(),
{
    if secs.len() == 0 {
        Some(Seq::empty())
    } else {
        match aria_fold(secs.drop_last()) {
            None => None,
            Some(acc) => match parsed_html(secs.last().1) {
                None => None,
                Some(nv) => match section_space(nv) {
                    None => Some(acc),
                    Some(v) => Some(put_spec(acc, secs.last().0, v)),
                },
            },
        }
    }
}

proof fn lemma_fold_fails(secs: Seq<(Seq<char>, Seq<char>)>, k: int)
    requires
        0 <= k <= secs.len(),
        aria_fold(secs.take(k)) is None,
    ensures
        aria_fold(secs) is None,
    decreases secs.len() - k,
{
    if k < secs.len() {
        assert(secs.take(k + 1).drop_last() =~= secs.take(k));
        lemma_fold_fails(secs, k + 1);
    } else {
        assert(secs.take(k) =~= secs);
    }
}

proof fn lemma_fold_sorted(secs: Seq<(Seq<char>, Seq<char>)>)
    ensures
        aria_fold(secs) matches Some(ix) ==> names_sorted(ix),
    decreases secs.len(),
{
    if secs.len() > 0 {
        lemma_fold_sorted(secs.drop_last());
        if let Some(acc) = aria_fold(secs.drop_last()) {
            if let Some(nv) = parsed_html(secs.last().1) {
                if let Some(v) = section_space(nv) {
                    lemma_put_sorted(acc, secs.last().0, v);
                }
            }
        }
    }
}

/// Derive the value space of every `aria-*` attribute from the WAI-ARIA
/// page: each section's declared value space, by name, in name order with
/// each name once. Fails when a section cannot be parsed.
pub fn parse_aria_value_index(html: &str) -> (r: Result<AriaValueIndex, RegenError>)
    ensures
        match aria_fold(sections_spec(html@)) {
            Some(ix) => r matches Ok(x) && index_view(x.values@) == ix && names_sorted(ix),
            None => r is Err,
        },
{
    let sections = aria_sections(html);
    let ghost secs = sections_spec(html@);
    let mut values: Vec<(String, CatalogAttributeValues)> = Vec::new();
    let mut k: usize = 0;
    assert(secs.take(0) =~= Seq::<(Seq<char>, Seq<char>)>::empty());
    assert(index_view(values@) =~= Seq::<(Seq<char>, ValuesView)>::empty());
    while k < sections.len()
        invariant
            k <= sections@.len(),
            sections@.map_values(|p: (String, String)| (p.0@, p.1@)) == secs,
            secs == sections_spec(html@),
            aria_fold(secs.take(k as int)) == Some(index_view(values@)),
        decreases sections@.len() - k,
    {
        assert(secs.take(k + 1).drop_last() =~= secs.take(k as int));
        assert(secs.take(k + 1).last() == secs[k as int]);
        assert(secs[k as int] == (sections@[k as int].0@, sections@[k as int].1@));
        match section_value_space(sections[k].1.as_str()) {
            Err(e) => {
                proof {
                    lemma_fold_fails(secs, k + 1);
                }
                return Err(e);
            },
            Ok(None) => {},
            Ok(Some(v)) => {
                put_entry::<CatalogAttributeValues, ValuesView>(&mut values, sections[k].0.clone(), v, Ghost(values_fn()));
            },
        }
        k = k + 1;
    }
    assert(secs.take(sections@.len() as int) =~= secs);
    proof {
        lemma_fold_sorted(secs);
    }
    Ok(AriaValueIndex { values })
}

} // verus!
