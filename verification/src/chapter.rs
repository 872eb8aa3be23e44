//! Records extracted from a specification chapter, and the raw-HTML reader
//! for CSS/SVG property-definition tables (`<table class="propdef">`) and
//! CSS 2 `propinfo` blocks.

use vstd::prelude::*;
use crate::text::{
    chars_of, find_from, find_from_spec, index_of, index_of_spec, lead_ws, lemma_find_from_bounds,
    lower_code, push_char, seq_eq, string_of, string_of_range, sub_vec, trim_bounds, trim_spec, ws,
    is_ws,
};
use crate::compat::starts_with;
use crate::util::{
    decode_chars, decode_html_entities, decode_spec, is_keyword_spec, keyword_chars,
    normalize_chars, normalize_ws_spec,
};

verus! {

/// An `id` anchor: a permalink target within a chapter.
pub struct Anchor {
    /// The fragment id.
    pub id: String,
    /// The HTML tag carrying the id (`h2`, `dfn`, `dt`, ...).
    pub tag: String,
    /// The heading text, captured for section headings.
    pub text: Option<String>,
}

/// A `<dfn>` term definition.
pub struct Dfn {
    pub id: Option<String>,
    pub term: String,
    /// The `data-dfn-type`, when set.
    pub kind: Option<String>,
}

/// An `<edit:example>` reference to an example asset.
pub struct Example {
    pub href: Option<String>,
    pub image: Option<String>,
    pub link: Option<String>,
}

/// A property definition table: the value space and metadata of one CSS-style
/// property or presentation attribute.
pub struct PropertyValueDef {
    /// Property name (the `Name:` row).
    pub name: String,
    /// The property's definition anchor id.
    pub id: Option<String>,
    /// The raw value grammar (the `Value:` row).
    pub value: Option<String>,
    /// The bare keyword alternatives of the value grammar.
    pub keywords: Vec<String>,
    pub initial: Option<String>,
    pub applies_to: Option<String>,
    pub inherited: Option<String>,
    pub computed_value: Option<String>,
    pub animation_type: Option<String>,
}

/// A glossary term paired with the prose of its `<dd>`.
pub struct TermDefinition {
    pub term: String,
    pub id: Option<String>,
    pub kind: Option<String>,
    pub description: String,
}

/// Prose attached to an anchor id.
pub struct AnchorDescription {
    pub id: String,
    pub description: String,
}

/// Everything extracted from one chapter page.
pub struct Chapter {
    pub name: String,
    pub anchors: Vec<Anchor>,
    pub dfns: Vec<Dfn>,
    pub examples: Vec<Example>,
    pub properties: Vec<PropertyValueDef>,
    pub term_definitions: Vec<TermDefinition>,
    pub anchor_descriptions: Vec<AnchorDescription>,
}

/// Category membership used to expand the publish-time category macros, in
/// document order: category name and its member names.
pub struct MacroIndex {
    pub element_categories: Vec<(String, Vec<String>)>,
    pub attribute_categories: Vec<(String, Vec<String>)>,
}

// ---------------------------------------------------------------------------
// Views

pub open spec fn opt_str(o: Option<String>) -> Option<Seq<char>> {
    match o {
        Some(s) => Some(s@),
        None => None,
    }
}

pub open spec fn strs(v: Seq<String>) -> Seq<Seq<char>> {
    v.map_values(|s: String| s@)
}

/// A property definition as character sequences.
pub struct PropView {
    pub name: Seq<char>,
    pub id: Option<Seq<char>>,
    pub value: Option<Seq<char>>,
    pub keywords: Seq<Seq<char>>,
    pub initial: Option<Seq<char>>,
    pub applies_to: Option<Seq<char>>,
    pub inherited: Option<Seq<char>>,
    pub computed_value: Option<Seq<char>>,
    pub animation_type: Option<Seq<char>>,
}

impl View for PropertyValueDef {
    type V = PropView;

    open spec fn view(&self) -> PropView {
        PropView {
            name: self.name@,
            id: opt_str(self.id),
            value: opt_str(self.value),
            keywords: strs(self.keywords@),
            initial: opt_str(self.initial),
            applies_to: opt_str(self.applies_to),
            inherited: opt_str(self.inherited),
            computed_value: opt_str(self.computed_value),
            animation_type: opt_str(self.animation_type),
        }
    }
}

pub open spec fn prop_views(v: Seq<PropertyValueDef>) -> Seq<PropView> {
    v.map_values(|p: PropertyValueDef| p@)
}

// ---------------------------------------------------------------------------
// Value keywords

/// The trimmed `|`-separated alternatives of `s` from position `i` that are
/// bare keywords, in order.
pub open spec fn keywords_from(s: Seq<char>, i: int) -> Seq<Seq<char>>
    decreases s.len() - i,
{
    if i < 0 || i > s.len() {
        Seq::empty()
    } else {
        let j = index_of_spec(s, i, '|');
        let t = trim_spec(s.subrange(i, j));
        let here = if is_keyword_spec(t) {
            seq![t]
        } else {
            Seq::empty()
        };
        if i <= j < s.len() {
            here + keywords_from(s, j + 1)
        } else {
            here
        }
    }
}

pub open spec fn keywords_of(s: Seq<char>) -> Seq<Seq<char>> {
    keywords_from(s, 0)
}

proof fn lemma_index_of_range(s: Seq<char>, from: int, c: char)
    requires
        0 <= from <= s.len(),
    ensures
        from <= index_of_spec(s, from, c) <= s.len(),
    decreases s.len() - from,
{
    if from < s.len() && s[from] != c {
        lemma_index_of_range(s, from + 1, c);
    }
}

fn keyword_list(v: &Vec<char>) -> (r: Vec<String>)
    ensures
        strs(r@) == keywords_of(v@),
{
    let mut out: Vec<String> = Vec::new();
    let mut i: usize = 0;
    loop
        invariant
            i <= v@.len(),
            strs(out@) + keywords_from(v@, i as int) == keywords_of(v@),
        decreases v@.len() - i,
    {
        let j = index_of(v, i, '|');
        let piece = sub_vec(v, i, j);
        let (a, b) = trim_bounds(&piece);
        let ghost before = strs(out@);
        if keyword_chars(&piece, a, b) {
            out.push(string_of_range(&piece, a, b));
        }
        assert(strs(out@) =~= before + (if is_keyword_spec(trim_spec(v@.subrange(i as int, j as int))) {
            seq![trim_spec(v@.subrange(i as int, j as int))]
        } else {
            Seq::<Seq<char>>::empty()
        }));
        if j < v.len() {
            assert(strs(out@) + keywords_from(v@, j + 1) =~= before + keywords_from(v@, i as int));
            i = j + 1;
        } else {
            assert(strs(out@) =~= before + keywords_from(v@, i as int));
            assert(strs(out@) =~= keywords_of(v@));
            return out;
        }
    }
}

/// The bare keyword alternatives of a value grammar: split on `|`, trimmed,
/// keeping only bare identifiers.
pub fn value_keywords(value: &str) -> (r: Vec<String>)
    ensures
        strs(r@) == keywords_of(value@),
{
    let v = chars_of(value);
    keyword_list(&v)
}

// ---------------------------------------------------------------------------
// Entities and whitespace

/// Decode the HTML entities the spec text uses, leaving unrecognized runs
/// verbatim.
pub fn decode_entities(input: &str) -> (r: String)
    ensures
        r@ == decode_spec(input@),
{
    decode_chars(&chars_of(input))
}

/// Cell text: decoded, then whitespace-collapsed.
pub open spec fn cell_text(raw: Seq<char>) -> Seq<char> {
    normalize_ws_spec(decode_spec(raw))
}

/// `raw` from position `i` with tags removed, `in_tag` saying whether `i`
/// lies inside a tag.
pub open spec fn strip_from(s: Seq<char>, i: int, in_tag: bool) -> Seq<char>
    decreases s.len() - i,
{
    if i < 0 || i >= s.len() {
        Seq::empty()
    } else if s[i] == '<' {
        strip_from(s, i + 1, true)
    } else if s[i] == '>' {
        strip_from(s, i + 1, false)
    } else if !in_tag {
        seq![s[i]] + strip_from(s, i + 1, in_tag)
    } else {
        strip_from(s, i + 1, in_tag)
    }
}

pub open spec fn strip_tags_spec(s: Seq<char>) -> Seq<char> {
    strip_from(s, 0, false)
}

fn strip_tags(v: &Vec<char>) -> (r: Vec<char>)
    ensures
        r@ == strip_tags_spec(v@),
{
    let mut out: Vec<char> = Vec::new();
    let mut in_tag = false;
    let mut i: usize = 0;
    while i < v.len()
        invariant
            i <= v@.len(),
            out@ + strip_from(v@, i as int, in_tag) == strip_tags_spec(v@),
        decreases v@.len() - i,
    {
        let ghost before = out@;
        let ghost was = in_tag;
        let c = v[i];
        if c == '<' {
            in_tag = true;
        } else if c == '>' {
            in_tag = false;
        } else if !in_tag {
            out.push(c);
        }
        assert(before + strip_from(v@, i as int, was) =~= out@ + strip_from(v@, i + 1, in_tag));
        i = i + 1;
    }
    assert(out@ + Seq::<char>::empty() =~= out@);
    out
}

// ---------------------------------------------------------------------------
// Rows and cells

pub open spec fn min_opt(a: Option<int>, b: Option<int>) -> Option<int> {
    match (a, b) {
        (Some(x), Some(y)) => Some(if x <= y { x } else { y }),
        (Some(x), None) => Some(x),
        (None, Some(y)) => Some(y),
        (None, None) => None,
    }
}

/// Where a row's content ends: the next `<tr` or `</table>`, else the end.
pub open spec fn row_end(t: Seq<char>, from: int) -> int {
    match min_opt(find_from_spec(t, from, "<tr"@), find_from_spec(t, from, "</table>"@)) {
        Some(e) => e,
        None => t.len() as int,
    }
}

/// The contents of the rows of a table from `offset`: each runs from just
/// after its `<tr ...>` to the next row or the end of the table.
pub open spec fn rows_from(t: Seq<char>, offset: int) -> Seq<Seq<char>>
    decreases t.len() - offset,
{
    if offset < 0 || offset > t.len() {
        Seq::empty()
    } else {
        match find_from_spec(t, offset, "<tr"@) {
            None => Seq::empty(),
            Some(start) => match find_char(t, start, '>') {
                None => Seq::empty(),
                Some(gt) => {
                    let end = row_end(t, gt + 1);
                    if offset < end <= t.len() {
                        seq![t.subrange(gt + 1, end)] + rows_from(t, end)
                    } else {
                        Seq::empty()
                    }
                },
            },
        }
    }
}

/// Where a cell's content ends: the next cell, row or table end, else the end.
pub open spec fn cell_end(r: Seq<char>, from: int) -> int {
    match min_opt(
        min_opt(find_from_spec(r, from, "<th"@), find_from_spec(r, from, "<td"@)),
        min_opt(
            min_opt(find_from_spec(r, from, "</tr"@), find_from_spec(r, from, "<tr"@)),
            find_from_spec(r, from, "</table>"@),
        ),
    ) {
        Some(e) => e,
        None => r.len() as int,
    }
}

/// The normalized text of the cells of a row from `offset`.
pub open spec fn cells_from(r: Seq<char>, offset: int) -> Seq<Seq<char>>
    decreases r.len() - offset,
{
    if offset < 0 || offset > r.len() {
        Seq::empty()
    } else {
        match min_opt(find_from_spec(r, offset, "<th"@), find_from_spec(r, offset, "<td"@)) {
            None => Seq::empty(),
            Some(start) => match find_char(r, start, '>') {
                None => Seq::empty(),
                Some(gt) => {
                    let end = cell_end(r, gt + 1);
                    if offset < end <= r.len() {
                        seq![cell_text(strip_tags_spec(r.subrange(gt + 1, end)))] + cells_from(
                            r,
                            end,
                        )
                    } else {
                        Seq::empty()
                    }
                },
            },
        }
    }
}

proof fn lemma_min_opt(a: Option<int>, b: Option<int>, lo: int, hi: int)
    requires
        a matches Some(x) ==> lo <= x <= hi,
        b matches Some(y) ==> lo <= y <= hi,
    ensures
        min_opt(a, b) matches Some(z) ==> lo <= z <= hi && (z == a->0 || z == b->0),
        min_opt(a, b) is None <==> (a is None && b is None),
{
}

fn min_found(a: Option<usize>, b: Option<usize>) -> (r: Option<usize>)
    ensures
        r == match min_opt(
            match a { Some(x) => Some(x as int), None => None::<int> },
            match b { Some(x) => Some(x as int), None => None::<int> },
        ) {
            Some(z) => Some(z as usize),
            None => None::<usize>,
        },
{
    match (a, b) {
        (Some(x), Some(y)) => Some(if x <= y { x } else { y }),
        (Some(x), None) => Some(x),
        (None, Some(y)) => Some(y),
        (None, None) => None,
    }
}

pub open spec fn as_int(o: Option<usize>) -> Option<int> {
    match o {
        Some(x) => Some(x as int),
        None => None,
    }
}

fn find_in(v: &Vec<char>, from: usize, p: &str) -> (r: Option<usize>)
    requires
        from <= v@.len(),
    ensures
        as_int(r) == find_from_spec(v@, from as int, p@),
        r matches Some(i) ==> from <= i && i + p@.len() <= v@.len(),
        v@.len() <= usize::MAX,
{
    let pv = chars_of(p);
    assert(pv@ == p@);
    let r = find_from(v, from, &pv);
    let n = v.len();
    proof {
        lemma_find_from_bounds(v@, from as int, p@);
        match find_from_spec(v@, from as int, p@) {
            Some(i) => {
                assert(from <= i && i + p@.len() <= v@.len());
                assert(r == Some(i as usize));
                assert(as_int(r) == Some(i));
            },
            None => {
                assert(r is None);
            },
        }
    }
    r
}

/// The first position at or after `from` holding `c`.
pub open spec fn find_char(s: Seq<char>, from: int, c: char) -> Option<int> {
    let k = index_of_spec(s, from, c);
    if 0 <= from && k < s.len() {
        Some(k)
    } else {
        None
    }
}

fn find_gt(v: &Vec<char>, from: usize) -> (r: Option<usize>)
    requires
        from <= v@.len(),
    ensures
        as_int(r) == find_char(v@, from as int, '>'),
        r matches Some(i) ==> from <= i < v@.len(),
        v@.len() <= usize::MAX,
{
    let k = index_of(v, from, '>');
    if k < v.len() {
        Some(k)
    } else {
        None
    }
}

fn row_end_at(t: &Vec<char>, from: usize) -> (r: usize)
    requires
        from <= t@.len(),
    ensures
        r as int == row_end(t@, from as int),
        from <= r <= t@.len(),
{
    let a = find_in(t, from, "<tr");
    let b = find_in(t, from, "</table>");
    proof {
        lemma_min_opt(as_int(a), as_int(b), from as int, t@.len() as int);
    }
    match min_found(a, b) {
        Some(e) => e,
        None => t.len(),
    }
}

fn raw_rows(t: &Vec<char>) -> (r: Vec<Vec<char>>)
    ensures
        r@.map_values(|x: Vec<char>| x@) == rows_from(t@, 0),
{
    let mut rows: Vec<Vec<char>> = Vec::new();
    let mut offset: usize = 0;
    loop
        invariant
            offset <= t@.len(),
            rows@.map_values(|x: Vec<char>| x@) + rows_from(t@, offset as int) == rows_from(t@, 0),
        decreases t@.len() - offset,
    {
        let ghost before = rows@.map_values(|x: Vec<char>| x@);
        let start = match find_in(t, offset, "<tr") {
            Some(s) => s,
            None => {
                assert(before + Seq::<Seq<char>>::empty() =~= before);
                return rows;
            },
        };
        let gt = match find_gt(t, start) {
            Some(g) => g,
            None => {
                assert(before + Seq::<Seq<char>>::empty() =~= before);
                return rows;
            },
        };
        let end = row_end_at(t, gt + 1);
        rows.push(sub_vec(t, gt + 1, end));
        assert(rows@.map_values(|x: Vec<char>| x@) =~= before.push(t@.subrange(gt + 1, end as int)));
        assert(rows@.map_values(|x: Vec<char>| x@) + rows_from(t@, end as int) =~= before
            + rows_from(t@, offset as int));
        offset = end;
    }
}

fn cell_end_at(r: &Vec<char>, from: usize) -> (e: usize)
    requires
        from <= r@.len(),
    ensures
        e as int == cell_end(r@, from as int),
        from <= e <= r@.len(),
{
    let a = find_in(r, from, "<th");
    let b = find_in(r, from, "<td");
    let c = find_in(r, from, "</tr");
    let d = find_in(r, from, "<tr");
    let f = find_in(r, from, "</table>");
    let ghost lo = from as int;
    let ghost hi = r@.len() as int;
    let ab = min_found(a, b);
    proof {
        lemma_min_opt(as_int(a), as_int(b), lo, hi);
        lemma_min_opt(as_int(c), as_int(d), lo, hi);
    }
    let cd = min_found(c, d);
    proof {
        lemma_min_opt(as_int(cd), as_int(f), lo, hi);
    }
    let cdf = min_found(cd, f);
    proof {
        lemma_min_opt(as_int(ab), as_int(cdf), lo, hi);
    }
    match min_found(ab, cdf) {
        Some(e) => e,
        None => r.len(),
    }
}

fn raw_cells(row: &Vec<char>) -> (r: Vec<String>)
    ensures
        strs(r@) == cells_from(row@, 0),
{
    let mut cells: Vec<String> = Vec::new();
    let mut offset: usize = 0;
    loop
        invariant
            offset <= row@.len(),
            strs(cells@) + cells_from(row@, offset as int) == cells_from(row@, 0),
        decreases row@.len() - offset,
    {
        let ghost before = strs(cells@);
        let a = find_in(row, offset, "<th");
        let b = find_in(row, offset, "<td");
        proof {
            lemma_min_opt(as_int(a), as_int(b), offset as int, row@.len() as int);
        }
        let start = match min_found(a, b) {
            Some(s) => s,
            None => {
                assert(before + Seq::<Seq<char>>::empty() =~= before);
                return cells;
            },
        };
        let gt = match find_gt(row, start) {
            Some(g) => g,
            None => {
                assert(before + Seq::<Seq<char>>::empty() =~= before);
                return cells;
            },
        };
        let end = cell_end_at(row, gt + 1);
        let raw = sub_vec(row, gt + 1, end);
        let stripped = strip_tags(&raw);
        let decoded = decode_chars(&stripped);
        let dv = chars_of(decoded.as_str());
        cells.push(normalize_chars(&dv));
        assert(strs(cells@) =~= before.push(cell_text(strip_tags_spec(row@.subrange(
            gt + 1,
            end as int,
        )))));
        assert(strs(cells@) + cells_from(row@, end as int) =~= before + cells_from(
            row@,
            offset as int,
        ));
        offset = end;
    }
}

// ---------------------------------------------------------------------------
// Attributes in raw tag heads

/// The first position at or after `i` holding whitespace or `>`, else the end.
pub open spec fn value_end(s: Seq<char>, i: int) -> int
    decreases s.len() - i,
{
    if i < 0 || i >= s.len() {
        s.len() as int
    } else if is_ws(s[i]) || s[i] == '>' {
        i
    } else {
        value_end(s, i + 1)
    }
}

/// The value of attribute `name` in a raw tag head: the first `name=`, then
/// after leading whitespace either a quoted value (which must be closed) or
/// a bare value up to whitespace or `>`.
pub open spec fn raw_attr_spec(head: Seq<char>, name: Seq<char>) -> Option<Seq<char>> {
    let needle = name.push('=');
    match find_from_spec(head, 0, needle) {
        None => None,
        Some(p) => {
            let rest0 = head.subrange(p + needle.len(), head.len() as int);
            let value = rest0.subrange(lead_ws(rest0) as int, rest0.len() as int);
            if value.len() > 0 && (value[0] == '"' || value[0] == '\'') {
                let rest = value.drop_first();
                let q = index_of_spec(rest, 0, value[0]);
                if q < rest.len() {
                    Some(rest.take(q))
                } else {
                    None
                }
            } else {
                Some(value.take(value_end(value, 0)))
            }
        },
    }
}

proof fn lemma_value_end(s: Seq<char>, i: int)
    requires
        0 <= i <= s.len(),
    ensures
        i <= value_end(s, i) <= s.len(),
    decreases s.len() - i,
{
    if i < s.len() && !(is_ws(s[i]) || s[i] == '>') {
        lemma_value_end(s, i + 1);
    }
}

fn raw_attr(head: &Vec<char>, name: &str) -> (r: Option<Vec<char>>)
    ensures
        match raw_attr_spec(head@, name@) {
            Some(x) => r matches Some(y) && y@ == x,
            None => r is None,
        },
{
    let mut needle = chars_of(name);
    needle.push('=');
    proof {
        lemma_find_from_bounds(head@, 0, needle@);
    }
    let p = match find_from(head, 0, &needle) {
        Some(p) => p,
        None => {
            return None;
        },
    };
    let hn = head.len();
    let rest0 = sub_vec(head, p + needle.len(), hn);
    let mut a: usize = 0;
    while a < rest0.len() && ws(rest0[a])
        invariant
            a <= rest0@.len(),
            forall|k: int| 0 <= k < a ==> is_ws(rest0@[k]),
        decreases rest0@.len() - a,
    {
        a = a + 1;
    }
    proof {
        crate::text::lemma_lead_ws(rest0@, a as int);
        crate::text::lemma_lead_ws_le(rest0@.subrange(a as int, rest0@.len() as int));
    }
    let value = sub_vec(&rest0, a, rest0.len());
    assert(lead_ws(rest0@) == a);
    if value.len() > 0 && (value[0] == '"' || value[0] == '\'') {
        let quote = value[0];
        let rest = sub_vec(&value, 1, value.len());
        assert(rest@ =~= value@.drop_first());
        let q = index_of(&rest, 0, quote);
        if q < rest.len() {
            let out = sub_vec(&rest, 0, q);
            assert(out@ =~= rest@.take(q as int));
            Some(out)
        } else {
            None
        }
    } else {
        let mut e: usize = 0;
        while e < value.len() && !(ws(value[e]) || value[e] == '>')
            invariant
                e <= value@.len(),
                value_end(value@, 0) == value_end(value@, e as int),
            decreases value@.len() - e,
        {
            e = e + 1;
        }
        let out = sub_vec(&value, 0, e);
        assert(out@ =~= value@.take(e as int));
        Some(out)
    }
}

/// The id of the first `<dfn` in a row.
pub open spec fn first_dfn_id(row: Seq<char>) -> Option<Seq<char>> {
    match find_from_spec(row, 0, "<dfn"@) {
        None => None,
        Some(start) => match find_char(row, start, '>') {
            None => None,
            Some(end) => raw_attr_spec(row.subrange(start, end), "id"@),
        },
    }
}

fn first_raw_dfn_id(row: &Vec<char>) -> (r: Option<Vec<char>>)
    ensures
        match first_dfn_id(row@) {
            Some(x) => r matches Some(y) && y@ == x,
            None => r is None,
        },
{
    let start = match find_in(row, 0, "<dfn") {
        Some(s) => s,
        None => {
            return None;
        },
    };
    let end = match find_gt(row, start) {
        Some(e) => e,
        None => {
            return None;
        },
    };
    let head = sub_vec(row, start, end);
    raw_attr(&head, "id")
}

/// The first `name=` or `id=` anchor value starting `propdef-` among the
/// `<a` tags from `offset`.
pub open spec fn propdef_anchor_from(h: Seq<char>, offset: int) -> Option<Seq<char>>
    decreases h.len() - offset,
{
    if offset < 0 || offset > h.len() {
        None
    } else {
        match find_from_spec(h, offset, "<a"@) {
            None => None,
            Some(start) => match find_char(h, start, '>') {
                None => None,
                Some(end) => {
                    let head = h.subrange(start, end);
                    match raw_attr_spec(head, "name"@) {
                        Some(n) if starts_with(n, "propdef-"@) => Some(n),
                        _ => match raw_attr_spec(head, "id"@) {
                            Some(i) if starts_with(i, "propdef-"@) => Some(i),
                            _ => if offset < end + 1 <= h.len() {
                                propdef_anchor_from(h, end + 1)
                            } else {
                                None
                            },
                        },
                    }
                },
            },
        }
    }
}

fn has_prefix(v: &Vec<char>, p: &str) -> (r: bool)
    ensures
        r == starts_with(v@, p@),
{
    let pv = chars_of(p);
    if pv.len() > v.len() {
        return false;
    }
    let r = crate::text::prefix_at(v, 0, &pv);
    r
}

fn first_raw_propdef_anchor(h: &Vec<char>) -> (r: Option<Vec<char>>)
    ensures
        match propdef_anchor_from(h@, 0) {
            Some(x) => r matches Some(y) && y@ == x,
            None => r is None,
        },
{
    let mut offset: usize = 0;
    loop
        invariant
            offset <= h@.len(),
            propdef_anchor_from(h@, 0) == propdef_anchor_from(h@, offset as int),
        decreases h@.len() - offset,
    {
        let start = match find_in(h, offset, "<a") {
            Some(s) => s,
            None => {
                return None;
            },
        };
        let end = match find_gt(h, start) {
            Some(e) => e,
            None => {
                return None;
            },
        };
        let head = sub_vec(h, start, end);
        match raw_attr(&head, "name") {
            Some(n) => {
                if has_prefix(&n, "propdef-") {
                    return Some(n);
                }
            },
            None => {},
        }
        match raw_attr(&head, "id") {
            Some(i) => {
                if has_prefix(&i, "propdef-") {
                    return Some(i);
                }
            },
            None => {},
        }
        offset = end + 1;
    }
}

// ---------------------------------------------------------------------------
// Field rows

/// The fields a propdef table's rows fill in.
pub struct Fields {
    pub name: Option<Seq<char>>,
    pub id: Option<Seq<char>>,
    pub value: Option<Seq<char>>,
    pub initial: Option<Seq<char>>,
    pub applies_to: Option<Seq<char>>,
    pub inherited: Option<Seq<char>>,
    pub computed_value: Option<Seq<char>>,
    pub animation_type: Option<Seq<char>>,
}

pub open spec fn no_fields() -> Fields {
    Fields {
        name: None,
        id: None,
        value: None,
        initial: None,
        applies_to: None,
        inherited: None,
        computed_value: None,
        animation_type: None,
    }
}

/// `s` without its trailing `:` characters.
pub open spec fn strip_colons(s: Seq<char>) -> Seq<char>
    decreases s.len(),
{
    if s.len() > 0 && s.last() == ':' {
        strip_colons(s.drop_last())
    } else {
        s
    }
}

pub open spec fn lower_char(c: char) -> char {
    if 0x41 <= (c as u32) && (c as u32) <= 0x5a {
        (((c as u32) + 32) as u8) as char
    } else {
        c
    }
}

pub open spec fn lower_seq(s: Seq<char>) -> Seq<char> {
    s.map_values(|c: char| lower_char(c))
}

/// A row label as it is matched: trailing colons dropped, trimmed, lowercased.
pub open spec fn label_of(cell: Seq<char>) -> Seq<char> {
    lower_seq(trim_spec(strip_colons(cell)))
}

/// Fold one row into the fields: its first cell names the field and its
/// second cell (or nothing) is the value; a `name` row (when names are read)
/// also takes the id of the row's first `<dfn`.
pub open spec fn apply_row(f: Fields, row: Seq<char>, with_name: bool) -> Fields {
    let cells = cells_from(row, 0);
    if cells.len() == 0 {
        f
    } else {
        let label = label_of(cells[0]);
        let cell = if cells.len() > 1 {
            cells[1]
        } else {
            Seq::empty()
        };
        if with_name && label == "name"@ {
            Fields { name: Some(cell), id: first_dfn_id(row), ..f }
        } else if label == "value"@ {
            Fields { value: Some(cell), ..f }
        } else if label == "initial"@ {
            Fields { initial: Some(cell), ..f }
        } else if label == "applies to"@ {
            Fields { applies_to: Some(cell), ..f }
        } else if label == "inherited"@ {
            Fields { inherited: Some(cell), ..f }
        } else if label == "computed value"@ {
            Fields { computed_value: Some(cell), ..f }
        } else if label == "animation type"@ {
            Fields { animation_type: Some(cell), ..f }
        } else {
            f
        }
    }
}

pub open spec fn fields_over(rows: Seq<Seq<char>>, with_name: bool) -> Fields
    decreases rows.len(),
{
    if rows.len() == 0 {
        no_fields()
    } else {
        apply_row(fields_over(rows.drop_last(), with_name), rows.last(), with_name)
    }
}

struct RawFields {
    name: Option<String>,
    id: Option<String>,
    value: Option<String>,
    initial: Option<String>,
    applies_to: Option<String>,
    inherited: Option<String>,
    computed_value: Option<String>,
    animation_type: Option<String>,
}

impl RawFields {
    spec fn fields(&self) -> Fields {
        Fields {
            name: opt_str(self.name),
            id: opt_str(self.id),
            value: opt_str(self.value),
            initial: opt_str(self.initial),
            applies_to: opt_str(self.applies_to),
            inherited: opt_str(self.inherited),
            computed_value: opt_str(self.computed_value),
            animation_type: opt_str(self.animation_type),
        }
    }
}

pub fn lower_chars(v: &Vec<char>) -> (r: Vec<char>)
    ensures
        r@ == lower_seq(v@),
{
    let mut out: Vec<char> = Vec::new();
    let mut i: usize = 0;
    while i < v.len()
        invariant
            i <= v@.len(),
            out@ == lower_seq(v@.take(i as int)),
        decreases v@.len() - i,
    {
        let c = v[i];
        let n = c as u32;
        let l = if 0x41 <= n && n <= 0x5a {
            ((n + 32) as u8) as char
        } else {
            c
        };
        assert(l == lower_char(c));
        out.push(l);
        i = i + 1;
        assert(out@ =~= lower_seq(v@.take(i as int)));
    }
    assert(v@.take(v@.len() as int) =~= v@);
    out
}

fn row_label(cell: &String) -> (r: Vec<char>)
    ensures
        r@ == label_of(cell@),
{
    let v = chars_of(cell.as_str());
    let mut n = v.len();
    assert(v@.take(n as int) =~= v@);
    while n > 0 && v[n - 1] == ':'
        invariant
            n <= v@.len(),
            strip_colons(v@) == strip_colons(v@.take(n as int)),
        decreases n,
    {
        assert(v@.take(n as int).drop_last() =~= v@.take(n - 1));
        n = n - 1;
    }
    assert(v@.take(n as int) =~= v@.subrange(0, n as int));
    let stripped = sub_vec(&v, 0, n);
    let (a, b) = trim_bounds(&stripped);
    let t = sub_vec(&stripped, a, b);
    lower_chars(&t)
}

fn is_label(label: &Vec<char>, lit: &str) -> (r: bool)
    ensures
        r == (label@ == lit@),
{
    let l = chars_of(lit);
    seq_eq(label, &l)
}

fn apply_raw_row(f: &mut RawFields, row: &Vec<char>, with_name: bool)
    ensures
        final(f).fields() == apply_row(old(f).fields(), row@, with_name),
{
    let cells = raw_cells(row);
    if cells.len() == 0 {
        return;
    }
    assert(strs(cells@)[0] == cells@[0]@);
    let label = row_label(&cells[0]);
    let cell = if cells.len() > 1 {
        assert(strs(cells@)[1] == cells@[1]@);
        cells[1].clone()
    } else {
        String::new()
    };
    if with_name && is_label(&label, "name") {
        f.name = Some(cell);
        f.id = match first_raw_dfn_id(row) {
            Some(v) => Some(string_of(&v)),
            None => None,
        };
    } else if is_label(&label, "value") {
        f.value = Some(cell);
    } else if is_label(&label, "initial") {
        f.initial = Some(cell);
    } else if is_label(&label, "applies to") {
        f.applies_to = Some(cell);
    } else if is_label(&label, "inherited") {
        f.inherited = Some(cell);
    } else if is_label(&label, "computed value") {
        f.computed_value = Some(cell);
    } else if is_label(&label, "animation type") {
        f.animation_type = Some(cell);
    }
}

fn read_fields(t: &Vec<char>, with_name: bool) -> (r: RawFields)
    ensures
        r.fields() == fields_over(rows_from(t@, 0), with_name),
{
    let rows = raw_rows(t);
    let ghost rs = rows@.map_values(|x: Vec<char>| x@);
    let mut f = RawFields {
        name: None,
        id: None,
        value: None,
        initial: None,
        applies_to: None,
        inherited: None,
        computed_value: None,
        animation_type: None,
    };
    let mut i: usize = 0;
    assert(rs.take(0) =~= Seq::<Seq<char>>::empty());
    while i < rows.len()
        invariant
            i <= rows@.len(),
            rs == rows@.map_values(|x: Vec<char>| x@),
            f.fields() == fields_over(rs.take(i as int), with_name),
        decreases rows@.len() - i,
    {
        assert(rs.take(i + 1).drop_last() =~= rs.take(i as int));
        assert(rs.take(i + 1).last() == rows@[i as int]@);
        apply_raw_row(&mut f, &rows[i], with_name);
        i = i + 1;
    }
    assert(rs.take(rows@.len() as int) =~= rs);
    f
}

// ---------------------------------------------------------------------------
// Property definitions

pub open spec fn keywords_of_value(value: Option<Seq<char>>) -> Seq<Seq<char>> {
    match value {
        Some(v) => keywords_of(v),
        None => Seq::empty(),
    }
}

/// The property a propdef table defines, when it has a `Name:` row.
pub open spec fn propdef_spec(table: Seq<char>) -> Option<PropView> {
    let f = fields_over(rows_from(table, 0), true);
    match f.name {
        None => None,
        Some(name) => Some(
            PropView {
                name,
                id: f.id,
                value: f.value,
                keywords: keywords_of_value(f.value),
                initial: f.initial,
                applies_to: f.applies_to,
                inherited: f.inherited,
                computed_value: f.computed_value,
                animation_type: f.animation_type,
            },
        ),
    }
}

/// The property a CSS 2 `propinfo` block defines, named by its first
/// `propdef-` anchor.
pub open spec fn propinfo_spec(block: Seq<char>) -> Option<PropView> {
    match propdef_anchor_from(block, 0) {
        None => None,
        Some(id) => if starts_with(id, "propdef-"@) {
            let f = fields_over(rows_from(block, 0), false);
            Some(
                PropView {
                    name: id.subrange("propdef-"@.len() as int, id.len() as int),
                    id: Some(id),
                    value: f.value,
                    keywords: keywords_of_value(f.value),
                    initial: f.initial,
                    applies_to: f.applies_to,
                    inherited: f.inherited,
                    computed_value: f.computed_value,
                    animation_type: f.animation_type,
                },
            )
        } else {
            None
        },
    }
}

fn keywords_for(value: &Option<String>) -> (r: Vec<String>)
    ensures
        strs(r@) == keywords_of_value(opt_str(*value)),
{
    match value {
        Some(v) => value_keywords(v.as_str()),
        None => Vec::new(),
    }
}

fn extract_raw_propdef(table: &Vec<char>) -> (r: Option<PropertyValueDef>)
    ensures
        match propdef_spec(table@) {
            Some(p) => r matches Some(q) && q@ == p,
            None => r is None,
        },
{
    let f = read_fields(table, true);
    match f.name {
        None => None,
        Some(name) => {
            let keywords = keywords_for(&f.value);
            Some(
                PropertyValueDef {
                    name,
                    id: f.id,
                    value: f.value,
                    keywords,
                    initial: f.initial,
                    applies_to: f.applies_to,
                    inherited: f.inherited,
                    computed_value: f.computed_value,
                    animation_type: f.animation_type,
                },
            )
        },
    }
}

fn extract_raw_propinfo_propdef(block: &Vec<char>) -> (r: Option<PropertyValueDef>)
    ensures
        match propinfo_spec(block@) {
            Some(p) => r matches Some(q) && q@ == p,
            None => r is None,
        },
{
    let id = match first_raw_propdef_anchor(block) {
        Some(id) => id,
        None => {
            return None;
        },
    };
    if !has_prefix(&id, "propdef-") {
        return None;
    }
    let prefix_len = chars_of("propdef-").len();
    let name = string_of_range(&id, prefix_len, id.len());
    let f = read_fields(block, false);
    let keywords = keywords_for(&f.value);
    Some(
        PropertyValueDef {
            name,
            id: Some(string_of(&id)),
            value: f.value,
            keywords,
            initial: f.initial,
            applies_to: f.applies_to,
            inherited: f.inherited,
            computed_value: f.computed_value,
            animation_type: f.animation_type,
        },
    )
}

/// Whether a tag head mentions `propdef`, in any ASCII case.
pub open spec fn mentions_propdef(head: Seq<char>) -> bool {
    find_from_spec(lower_seq(head), 0, "propdef"@) is Some
}

fn head_mentions_propdef(head: &Vec<char>) -> (r: bool)
    ensures
        r == mentions_propdef(head@),
{
    let lower = lower_chars(head);
    find_in(&lower, 0, "propdef").is_some()
}

pub open spec fn found_prop(p: Option<PropView>) -> Seq<PropView> {
    match p {
        Some(x) => seq![x],
        None => Seq::empty(),
    }
}

/// The properties of the `propdef` tables from `offset`, in order.
pub open spec fn tables_from(h: Seq<char>, offset: int) -> Seq<PropView>
    decreases h.len() - offset,
{
    if offset < 0 || offset > h.len() {
        Seq::empty()
    } else {
        match find_from_spec(h, offset, "<table"@) {
            None => Seq::empty(),
            Some(start) => match find_char(h, start, '>') {
                None => Seq::empty(),
                Some(gt) => {
                    let head_end = gt + 1;
                    match find_from_spec(h, head_end, "</table>"@) {
                        None => if offset < head_end <= h.len() {
                            tables_from(h, head_end)
                        } else {
                            Seq::empty()
                        },
                        Some(e) => {
                            let end = e + "</table>"@.len();
                            let here = if mentions_propdef(h.subrange(start, head_end)) {
                                found_prop(propdef_spec(h.subrange(start, end)))
                            } else {
                                Seq::empty()
                            };
                            if offset < end <= h.len() {
                                here + tables_from(h, end)
                            } else {
                                here
                            }
                        },
                    }
                },
            },
        }
    }
}

/// The properties of the CSS 2 `propinfo` blocks from `offset`, in order.
pub open spec fn propinfo_blocks_from(h: Seq<char>, offset: int) -> Seq<PropView>
    decreases h.len() - offset,
{
    if offset < 0 || offset > h.len() {
        Seq::empty()
    } else {
        match find_from_spec(h, offset, "<div"@) {
            None => Seq::empty(),
            Some(start) => match find_char(h, start, '>') {
                None => Seq::empty(),
                Some(gt) => {
                    let head_end = gt + 1;
                    match find_from_spec(h, head_end, "</div>"@) {
                        None => if offset < head_end <= h.len() {
                            propinfo_blocks_from(h, head_end)
                        } else {
                            Seq::empty()
                        },
                        Some(e) => {
                            let end = e + "</div>"@.len();
                            let block = h.subrange(start, end);
                            let here = if mentions_propdef(h.subrange(start, head_end))
                                && find_from_spec(block, 0, "class=\"propinfo\""@) is Some {
                                found_prop(propinfo_spec(block))
                            } else {
                                Seq::empty()
                            };
                            if offset < end <= h.len() {
                                here + propinfo_blocks_from(h, end)
                            } else {
                                here
                            }
                        },
                    }
                },
            },
        }
    }
}

/// All property definitions of a page: its `propdef` tables, then its CSS 2
/// `propinfo` blocks.
pub open spec fn property_definitions_spec(h: Seq<char>) -> Seq<PropView> {
    tables_from(h, 0) + propinfo_blocks_from(h, 0)
}

fn push_found(out: &mut Vec<PropertyValueDef>, p: Option<PropertyValueDef>)
    ensures
        prop_views(final(out)@) == prop_views(old(out)@) + found_prop(
            match p {
                Some(q) => Some(q@),
                None => None,
            },
        ),
{
    match p {
        Some(q) => {
            out.push(q);
            assert(prop_views(out@) =~= prop_views(old(out)@).push(q@));
        },
        None => {
            assert(prop_views(out@) =~= prop_views(old(out)@) + Seq::<PropView>::empty());
        },
    }
}

fn extract_propdef_tables(h: &Vec<char>, out: &mut Vec<PropertyValueDef>)
    ensures
        prop_views(final(out)@) == prop_views(old(out)@) + tables_from(h@, 0),
{
    let mut offset: usize = 0;
    let ghost base = prop_views(out@);
    loop
        invariant
            offset <= h@.len(),
            base == prop_views(old(out)@),
            prop_views(out@) + tables_from(h@, offset as int) == base + tables_from(h@, 0),
        decreases h@.len() - offset,
    {
        let ghost before = prop_views(out@);
        let start = match find_in(h, offset, "<table") {
            Some(s) => s,
            None => {
                assert(before + Seq::<PropView>::empty() =~= before);
                return;
            },
        };
        let gt = match find_gt(h, start) {
            Some(g) => g,
            None => {
                assert(before + Seq::<PropView>::empty() =~= before);
                return;
            },
        };
        let head_end = gt + 1;
        let close_len = chars_of("</table>").len();
        match find_in(h, head_end, "</table>") {
            None => {
                offset = head_end;
            },
            Some(e) => {
                let end = e + close_len;
                let head = sub_vec(h, start, head_end);
                if head_mentions_propdef(&head) {
                    let table = sub_vec(h, start, end);
                    let p = extract_raw_propdef(&table);
                    push_found(out, p);
                }
                assert(prop_views(out@) + tables_from(h@, end as int) =~= before + tables_from(
                    h@,
                    offset as int,
                ));
                offset = end;
            },
        }
    }
}

fn extract_css2_propinfo_definitions(h: &Vec<char>, out: &mut Vec<PropertyValueDef>)
    ensures
        prop_views(final(out)@) == prop_views(old(out)@) + propinfo_blocks_from(h@, 0),
{
    let mut offset: usize = 0;
    let ghost base = prop_views(out@);
    loop
        invariant
            offset <= h@.len(),
            base == prop_views(old(out)@),
            prop_views(out@) + propinfo_blocks_from(h@, offset as int) == base
                + propinfo_blocks_from(h@, 0),
        decreases h@.len() - offset,
    {
        let ghost before = prop_views(out@);
        let start = match find_in(h, offset, "<div") {
            Some(s) => s,
            None => {
                assert(before + Seq::<PropView>::empty() =~= before);
                return;
            },
        };
        let gt = match find_gt(h, start) {
            Some(g) => g,
            None => {
                assert(before + Seq::<PropView>::empty() =~= before);
                return;
            },
        };
        let head_end = gt + 1;
        let close_len = chars_of("</div>").len();
        match find_in(h, head_end, "</div>") {
            None => {
                offset = head_end;
            },
            Some(e) => {
                let end = e + close_len;
                let head = sub_vec(h, start, head_end);
                let block = sub_vec(h, start, end);
                if head_mentions_propdef(&head) && find_in(&block, 0, "class=\"propinfo\"").is_some() {
                    let p = extract_raw_propinfo_propdef(&block);
                    push_found(out, p);
                }
                assert(prop_views(out@) + propinfo_blocks_from(h@, end as int) =~= before
                    + propinfo_blocks_from(h@, offset as int));
                offset = end;
            },
        }
    }
}

/// Extract the CSS/SVG property-definition tables of an HTML page, then its
/// CSS 2 `propinfo` blocks.
pub fn extract_property_definitions(html: &str) -> (r: Vec<PropertyValueDef>)
    ensures
        prop_views(r@) == property_definitions_spec(html@),
{
    let h = chars_of(html);
    let mut out: Vec<PropertyValueDef> = Vec::new();
    assert(prop_views(out@) =~= Seq::<PropView>::empty());
    extract_propdef_tables(&h, &mut out);
    extract_css2_propinfo_definitions(&h, &mut out);
    assert(prop_views(out@) =~= property_definitions_spec(html@));
    out
}

} // verus!
