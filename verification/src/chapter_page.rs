//! Reading one specification chapter page from its parsed HTML: the `id`
//! anchors, `<dfn>` terms, example references, property tables, glossary
//! definitions and the prose that describes each anchor.

use vstd::prelude::*;
use crate::chapter::{
    cell_text, keywords_of_value, label_of, lower_chars, no_fields, value_keywords, Anchor, Chapter,
    Dfn, Example, Fields, MacroIndex, PropView, PropertyValueDef, AnchorDescription, TermDefinition,
};
use crate::html::{
    attr, attr_spec, has_class, has_class_spec, inner_text, inner_text_of, inside_range, inside_range_of, opt_chars,
    parse_html, parsed_html, tag_at, tag_at_v, tag_ref, views, attr_v, has_class_v, inner_text_v, HtmlNode, HtmlTag,
    NodeView, TagView, tag_view,
};
use crate::text::{chars_of, join, join_spec, seq_eq, str_eq, string_seqs, sub_vec, trim_bounds, trim_spec};
use crate::util::{boxed, normalize_html_ws, RegenError};
use crate::lifecycle_prose::{ends, ends_with};
use crate::text::push_str;

verus! {

// ---------------------------------------------------------------------------
// Nodes and selectors

/// The positions in `[lo, hi)` holding a tag named `name`, in order.
pub open spec fn query_range(nodes: Seq<NodeView>, lo: int, hi: int, name: Seq<char>) -> Seq<int>
    decreases hi - lo,
{
    if hi <= lo {
        Seq::empty()
    } else {
        let prev = query_range(nodes, lo, hi - 1, name);
        match tag_at_v(nodes, hi - 1) {
            Some(t) => if t.name == name {
                prev.push(hi - 1)
            } else {
                prev
            },
            None => prev,
        }
    }
}

/// What `tl::HTMLTag::query_selector` yields for a tag-name selector: the
/// descendants named `name`, in document order.
pub open spec fn query(nodes: Seq<NodeView>, i: int, name: Seq<char>) -> Seq<int> {
    match inside_range(nodes, i) {
        Some((a, b)) => query_range(nodes, a, b + 1, name),
        None => Seq::empty(),
    }
}

proof fn lemma_query_range_bounds(nodes: Seq<NodeView>, lo: int, hi: int, name: Seq<char>)
    ensures
        forall|k: int|
            0 <= k < query_range(nodes, lo, hi, name).len() ==> {
                let p = #[trigger] query_range(nodes, lo, hi, name)[k];
                &&& lo <= p < hi
                &&& tag_at_v(nodes, p) matches Some(t) && t.name == name
            },
    decreases hi - lo,
{
    if hi > lo {
        lemma_query_range_bounds(nodes, lo, hi - 1, name);
    }
}

pub proof fn lemma_query_tags(nodes: Seq<NodeView>, i: int, name: Seq<char>)
    ensures
        forall|k: int|
            0 <= k < query(nodes, i, name).len() ==> (tag_at_v(nodes, #[trigger] query(nodes, i, name)[k])
                matches Some(t) && t.name == name),
{
    if let Some((a, b)) = inside_range(nodes, i) {
        lemma_query_range_bounds(nodes, a, b + 1, name);
    }
}

pub(crate) fn query_all(nodes: &Vec<HtmlNode>, i: usize, name: &str) -> (r: Vec<usize>)
    ensures
        r@.map_values(|p: usize| p as int) == query(views(nodes@), i as int, name@),
{
    let mut out: Vec<usize> = Vec::new();
    match inside_range_of(nodes, i) {
        None => {
            assert(out@.map_values(|p: usize| p as int) =~= Seq::<int>::empty());
            out
        },
        Some((a, b)) => {
            let end: usize = if b < nodes.len() {
                b + 1
            } else {
                nodes.len()
            };
            proof {
                lemma_query_range_past_end(views(nodes@), a as int, b + 1, name@);
            }
            assert(out@.map_values(|p: usize| p as int) =~= query_range(views(nodes@), a as int, a as int, name@));
            if a >= end {
                return out;
            }
            let mut p: usize = a;
            while p < end
                invariant
                    a <= p <= end <= nodes@.len(),
                    out@.map_values(|p: usize| p as int) == query_range(views(nodes@), a as int, p as int, name@),
                decreases end - p,
            {
                let ghost before = out@.map_values(|p: usize| p as int);
                if let HtmlNode::Tag(t) = &nodes[p] {
                    if str_eq(t.name.as_str(), name) {
                        out.push(p);
                        assert(out@.map_values(|p: usize| p as int) =~= before.push(p as int));
                    }
                }
                p = p + 1;
            }
            out
        },
    }
}

/// Positions past the end of the list hold no tag.
proof fn lemma_query_range_past_end(nodes: Seq<NodeView>, lo: int, hi: int, name: Seq<char>)
    ensures
        hi >= nodes.len() && lo >= nodes.len() ==> query_range(nodes, lo, hi, name) == Seq::<int>::empty(),
        hi >= nodes.len() && lo < nodes.len() ==> query_range(nodes, lo, hi, name) == query_range(
            nodes,
            lo,
            nodes.len() as int,
            name,
        ),
    decreases hi - lo,
{
    if hi > lo && hi > nodes.len() {
        lemma_query_range_past_end(nodes, lo, hi - 1, name);
    }
}

/// The text of the tag at `i` as the chapter reader keeps it: its inner text
/// with entities decoded and whitespace collapsed.
pub open spec fn text_at(nodes: Seq<NodeView>, i: int) -> Seq<char> {
    cell_text(inner_text_v(nodes, i))
}

fn handle_text(nodes: &Vec<HtmlNode>, i: usize) -> (r: String)
    ensures
        r@ == text_at(views(nodes@), i as int),
{
    let raw = inner_text_of(nodes, i);
    normalize_html_ws(raw.as_str())
}

/// The value of attribute `key` on the first descendant named `name`.
pub open spec fn first_attr_spec(nodes: Seq<NodeView>, i: int, name: Seq<char>, key: Seq<char>) -> Option<
    Seq<char>,
> {
    let hits = query(nodes, i, name);
    if hits.len() > 0 {
        match tag_at_v(nodes, hits[0]) {
            Some(t) => attr_v(t, key),
            None => None,
        }
    } else {
        None
    }
}

fn first_attr(nodes: &Vec<HtmlNode>, i: usize, name: &str, key: &str) -> (r: Option<String>)
    ensures
        opt_chars(r) == first_attr_spec(views(nodes@), i as int, name@, key@),
{
    let hits = query_all(nodes, i, name);
    if hits.len() > 0 {
        assert(hits@.map_values(|p: usize| p as int)[0] == hits@[0] as int);
        match tag_ref(nodes, hits[0]) {
            Some(t) => attr(t, key),
            None => None,
        }
    } else {
        None
    }
}

// ---------------------------------------------------------------------------
// Property tables

/// A row's label and value: its first `th` and first `td`, or, without a
/// `th`, its first two `td` cells (a row without cells has none).
pub open spec fn row_label_and_value(nodes: Seq<NodeView>, row: int) -> Option<(Seq<char>, Seq<char>)> {
    let ths = query(nodes, row, "th"@);
    let tds = query(nodes, row, "td"@);
    if ths.len() > 0 {
        Some(
            (
                text_at(nodes, ths[0]),
                if tds.len() > 0 {
                    text_at(nodes, tds[0])
                } else {
                    Seq::empty()
                },
            ),
        )
    } else if tds.len() > 0 {
        Some(
            (
                text_at(nodes, tds[0]),
                if tds.len() > 1 {
                    text_at(nodes, tds[1])
                } else {
                    Seq::empty()
                },
            ),
        )
    } else {
        None
    }
}

fn propdef_row_label_and_value(nodes: &Vec<HtmlNode>, row: usize) -> (r: Option<(String, String)>)
    ensures
        match row_label_and_value(views(nodes@), row as int) {
            Some((l, v)) => r matches Some(x) && x.0@ == l && x.1@ == v,
            None => r is None,
        },
{
    let ths = query_all(nodes, row, "th");
    let tds = query_all(nodes, row, "td");
    let ghost th_s = ths@.map_values(|p: usize| p as int);
    let ghost td_s = tds@.map_values(|p: usize| p as int);
    if ths.len() > 0 {
        assert(th_s[0] == ths@[0] as int);
        let label = handle_text(nodes, ths[0]);
        let value = if tds.len() > 0 {
            assert(td_s[0] == tds@[0] as int);
            handle_text(nodes, tds[0])
        } else {
            String::new()
        };
        Some((label, value))
    } else if tds.len() > 0 {
        assert(td_s[0] == tds@[0] as int);
        let label = handle_text(nodes, tds[0]);
        let value = if tds.len() > 1 {
            assert(td_s[1] == tds@[1] as int);
            handle_text(nodes, tds[1])
        } else {
            String::new()
        };
        Some((label, value))
    } else {
        None
    }
}

/// Fold one table row into the fields; a `name` row also takes the id of the
/// row's first `<dfn>`.
pub open spec fn apply_dom_row(nodes: Seq<NodeView>, f: Fields, row: int) -> Fields {
    match tag_at_v(nodes, row) {
        None => f,
        Some(_) => match row_label_and_value(nodes, row) {
            None => f,
            Some((l, cell)) => {
                let label = label_of(l);
                if label == "name"@ {
                    Fields { name: Some(cell), id: first_attr_spec(nodes, row, "dfn"@, "id"@), ..f }
                } else if label == "value"@ {
                    Fields { value: Some(cell), ..f }
                } else if label == "initial"@ {
                    Fields { initial: Some(cell), ..f }
                } else if label == "applies to"@ {
                    Fields { applies_to: Some(cell), ..f }
                } else if label == "inherited"@ {
                    Fields { inherited: Some(cell), ..f }
                } else if label == "computed value"@ {
                    Fields { computed_value: Some(cell), ..f }
                } else if label == "animation type"@ {
                    Fields { animation_type: Some(cell), ..f }
                } else {
                    f
                }
            },
        },
    }
}

pub open spec fn dom_fields(nodes: Seq<NodeView>, rows: Seq<int>) -> Fields
    decreases rows.len(),
{
    if rows.len() == 0 {
        no_fields()
    } else {
        apply_dom_row(nodes, dom_fields(nodes, rows.drop_last()), rows.last())
    }
}

/// The property a `propdef` table defines: its rows folded into fields, when
/// one of them names the property.
pub open spec fn dom_propdef(nodes: Seq<NodeView>, table: int) -> Option<PropView> {
    let f = dom_fields(nodes, query(nodes, table, "tr"@));
    match f.name {
        Some(name) => Some(
            PropView {
                name,
                id: f.id,
                value: f.value,
                keywords: keywords_of_value(f.value),
                initial: f.initial,
                applies_to: f.applies_to,
                inherited: f.inherited,
                computed_value: f.computed_value,
                animation_type: f.animation_type,
            },
        ),
        None => None,
    }
}

fn label_chars(cell: &String) -> (r: Vec<char>)
    ensures
        r@ == label_of(cell@),
{
    let v = chars_of(cell.as_str());
    let mut n = v.len();
    assert(v@.take(n as int) =~= v@);
    while n > 0 && v[n - 1] == ':'
        invariant
            n <= v@.len(),
            crate::chapter::strip_colons(v@) == crate::chapter::strip_colons(v@.take(n as int)),
        decreases n,
    {
        assert(v@.take(n as int).drop_last() =~= v@.take(n - 1));
        n = n - 1;
    }
    assert(v@.take(n as int) =~= v@.subrange(0, n as int));
    let stripped = sub_vec(&v, 0, n);
    let (a, b) = trim_bounds(&stripped);
    let t = sub_vec(&stripped, a, b);
    lower_chars(&t)
}

fn is_label(label: &Vec<char>, lit: &str) -> (r: bool)
    ensures
        r == (label@ == lit@),
{
    let l = chars_of(lit);
    seq_eq(label, &l)
}

struct DomFields {
    name: Option<String>,
    id: Option<String>,
    value: Option<String>,
    initial: Option<String>,
    applies_to: Option<String>,
    inherited: Option<String>,
    computed_value: Option<String>,
    animation_type: Option<String>,
}

impl DomFields {
    spec fn fields(&self) -> Fields {
        Fields {
            name: opt_chars(self.name),
            id: opt_chars(self.id),
            value: opt_chars(self.value),
            initial: opt_chars(self.initial),
            applies_to: opt_chars(self.applies_to),
            inherited: opt_chars(self.inherited),
            computed_value: opt_chars(self.computed_value),
            animation_type: opt_chars(self.animation_type),
        }
    }
}

fn apply_row_exec(nodes: &Vec<HtmlNode>, f: &mut DomFields, row: usize)
    ensures
        final(f).fields() == apply_dom_row(views(nodes@), old(f).fields(), row as int),
{
    if tag_ref(nodes, row).is_none() {
        return;
    }
    let (l, cell) = match propdef_row_label_and_value(nodes, row) {
        Some(x) => x,
        None => return,
    };
    let label = label_chars(&l);
    if is_label(&label, "name") {
        f.name = Some(cell);
        f.id = first_attr(nodes, row, "dfn", "id");
    } else if is_label(&label, "value") {
        f.value = Some(cell);
    } else if is_label(&label, "initial") {
        f.initial = Some(cell);
    } else if is_label(&label, "applies to") {
        f.applies_to = Some(cell);
    } else if is_label(&label, "inherited") {
        f.inherited = Some(cell);
    } else if is_label(&label, "computed value") {
        f.computed_value = Some(cell);
    } else if is_label(&label, "animation type") {
        f.animation_type = Some(cell);
    }
}

fn keywords_for(value: &Option<String>) -> (r: Vec<String>)
    ensures
        string_seqs(r@) == keywords_of_value(opt_chars(*value)),
{
    match value {
        Some(v) => {
            let k = value_keywords(v.as_str());
            assert(string_seqs(k@) =~= crate::chapter::strs(k@));
            k
        },
        None => {
            let k: Vec<String> = Vec::new();
            assert(string_seqs(k@) =~= Seq::<Seq<char>>::empty());
            k
        },
    }
}

/// A property definition as plain values.
pub open spec fn prop_view(p: PropertyValueDef) -> PropView {
    PropView {
        name: p.name@,
        id: opt_chars(p.id),
        value: opt_chars(p.value),
        keywords: string_seqs(p.keywords@),
        initial: opt_chars(p.initial),
        applies_to: opt_chars(p.applies_to),
        inherited: opt_chars(p.inherited),
        computed_value: opt_chars(p.computed_value),
        animation_type: opt_chars(p.animation_type),
    }
}

fn extract_propdef(nodes: &Vec<HtmlNode>, table: usize) -> (r: Option<PropertyValueDef>)
    ensures
        match dom_propdef(views(nodes@), table as int) {
            Some(p) => r matches Some(q) && prop_view(q) == p,
            None => r is None,
        },
{
    let rows = query_all(nodes, table, "tr");
    let ghost rs = rows@.map_values(|p: usize| p as int);
    let mut f = DomFields {
        name: None,
        id: None,
        value: None,
        initial: None,
        applies_to: None,
        inherited: None,
        computed_value: None,
        animation_type: None,
    };
    let mut i: usize = 0;
    assert(rs.take(0) =~= Seq::<int>::empty());
    while i < rows.len()
        invariant
            i <= rows@.len(),
            rs == rows@.map_values(|p: usize| p as int),
            f.fields() == dom_fields(views(nodes@), rs.take(i as int)),
        decreases rows@.len() - i,
    {
        assert(rs.take(i + 1).drop_last() =~= rs.take(i as int));
        assert(rs.take(i + 1).last() == rows@[i as int] as int);
        apply_row_exec(nodes, &mut f, rows[i]);
        i = i + 1;
    }
    assert(rs.take(rows@.len() as int) =~= rs);
    match f.name {
        None => None,
        Some(name) => {
            let keywords = keywords_for(&f.value);
            Some(
                PropertyValueDef {
                    name,
                    id: f.id,
                    value: f.value,
                    keywords,
                    initial: f.initial,
                    applies_to: f.applies_to,
                    inherited: f.inherited,
                    computed_value: f.computed_value,
                    animation_type: f.animation_type,
                },
            )
        },
    }
}

// ---------------------------------------------------------------------------
// Terms

/// The ids of the `<dfn>` descendants that have one, in order.
pub open spec fn ids_of(nodes: Seq<NodeView>, hits: Seq<int>) -> Seq<Seq<char>>
    decreases hits.len(),
{
    if hits.len() == 0 {
        Seq::empty()
    } else {
        let prev = ids_of(nodes, hits.drop_last());
        match tag_at_v(nodes, hits.last()) {
            Some(t) => match attr_v(t, "id"@) {
                Some(id) => prev.push(id),
                None => prev,
            },
            None => prev,
        }
    }
}

pub open spec fn dfn_ids_spec(nodes: Seq<NodeView>, i: int) -> Seq<Seq<char>> {
    ids_of(nodes, query(nodes, i, "dfn"@))
}

fn dfn_ids(nodes: &Vec<HtmlNode>, i: usize) -> (r: Vec<String>)
    ensures
        string_seqs(r@) == dfn_ids_spec(views(nodes@), i as int),
{
    let hits = query_all(nodes, i, "dfn");
    let ghost hs = hits@.map_values(|p: usize| p as int);
    let mut out: Vec<String> = Vec::new();
    let mut j: usize = 0;
    assert(hs.take(0) =~= Seq::<int>::empty());
    assert(string_seqs(out@) =~= Seq::<Seq<char>>::empty());
    while j < hits.len()
        invariant
            j <= hits@.len(),
            hs == hits@.map_values(|p: usize| p as int),
            string_seqs(out@) == ids_of(views(nodes@), hs.take(j as int)),
        decreases hits@.len() - j,
    {
        assert(hs.take(j + 1).drop_last() =~= hs.take(j as int));
        assert(hs.take(j + 1).last() == hits@[j as int] as int);
        let ghost before = string_seqs(out@);
        if let Some(t) = tag_ref(nodes, hits[j]) {
            if let Some(id) = attr(t, "id") {
                out.push(id);
                assert(string_seqs(out@) =~= before.push(out@.last()@));
            }
        }
        j = j + 1;
    }
    assert(hs.take(hits@.len() as int) =~= hs);
    out
}

/// A `<dfn>` as plain values: id, term, kind.
pub open spec fn dfn_view(d: Dfn) -> (Option<Seq<char>>, Seq<char>, Option<Seq<char>>) {
    (opt_chars(d.id), d.term@, opt_chars(d.kind))
}

/// The term a `<dt>` defines: its first `<dfn>` when it has one, else its own
/// text with no id or kind.
pub open spec fn term_of_spec(nodes: Seq<NodeView>, dt: int) -> (Option<Seq<char>>, Seq<char>, Option<Seq<char>>) {
    let hits = query(nodes, dt, "dfn"@);
    if hits.len() > 0 && tag_at_v(nodes, hits[0]) is Some {
        let d = tag_at_v(nodes, hits[0])->0;
        (attr_v(d, "id"@), text_at(nodes, hits[0]), attr_v(d, "data-dfn-type"@))
    } else {
        (None, text_at(nodes, dt), None)
    }
}

fn term_of(nodes: &Vec<HtmlNode>, dt: usize) -> (r: Dfn)
    ensures
        dfn_view(r) == term_of_spec(views(nodes@), dt as int),
{
    let hits = query_all(nodes, dt, "dfn");
    if hits.len() > 0 {
        assert(hits@.map_values(|p: usize| p as int)[0] == hits@[0] as int);
        if let Some(d) = tag_ref(nodes, hits[0]) {
            return Dfn { id: attr(d, "id"), term: handle_text(nodes, hits[0]), kind: attr(d, "data-dfn-type") };
        }
    }
    Dfn { id: None, term: handle_text(nodes, dt), kind: None }
}


// ---------------------------------------------------------------------------
// Descriptions

/// The members of the category that a macro tag names (first entry by
/// name), comma-joined; empty when the name or the category is missing.
pub open spec fn category(cats: Seq<(String, Vec<String>)>, name: Seq<char>) -> Option<Seq<Seq<char>>>
    decreases cats.len(),
{
    if cats.len() == 0 {
        None
    } else if cats[0].0@ == name {
        Some(string_seqs(cats[0].1@))
    } else {
        category(cats.drop_first(), name)
    }
}

pub open spec fn members_text(cats: Seq<(String, Vec<String>)>, tag: TagView) -> Seq<char> {
    match attr_v(tag, "name"@) {
        Some(n) => match category(cats, n) {
            Some(ms) => join_spec(ms, ", "@),
            None => Seq::empty(),
        },
        None => Seq::empty(),
    }
}

/// The text one child contributes: raw text as written, a category macro
/// expanded, any other tag its own children's text. `tl` registers a tag
/// before its children, so a child always comes after its parent in the node
/// list; a position that does not is contributing nothing.
pub open spec fn piece(nodes: Seq<NodeView>, m: MacroIndex, parent: int, k: int) -> Seq<char>
    decreases nodes.len() - parent, 0int,
{
    if parent < k < nodes.len() {
        match nodes[k] {
            NodeView::Tag(c) => if c.name == "edit:elementcategory"@ {
                members_text(m.element_categories@, c)
            } else if c.name == "edit:attributecategory"@ {
                members_text(m.attribute_categories@, c)
            } else {
                kids_text(nodes, m, k, c.children)
            },
            NodeView::Raw(s) => s,
            NodeView::Comment => Seq::empty(),
        }
    } else {
        Seq::empty()
    }
}

/// The concatenated text of the children `kids` of the node at `parent`.
pub open spec fn kids_text(nodes: Seq<NodeView>, m: MacroIndex, parent: int, kids: Seq<u32>) -> Seq<char>
    decreases nodes.len() - parent, kids.len() + 1,
{
    if kids.len() == 0 {
        Seq::empty()
    } else {
        kids_text(nodes, m, parent, kids.drop_last()) + piece(nodes, m, parent, kids.last() as int)
    }
}

/// A tag's description: its text with category macros expanded, entities
/// decoded and whitespace collapsed.
pub open spec fn description_spec(nodes: Seq<NodeView>, m: MacroIndex, i: int) -> Seq<char> {
    match tag_at_v(nodes, i) {
        Some(t) => cell_text(kids_text(nodes, m, i, t.children)),
        None => Seq::empty(),
    }
}

fn lookup_category<'a>(cats: &'a Vec<(String, Vec<String>)>, name: &str) -> (r: Option<&'a Vec<String>>)
    ensures
        match category(cats@, name@) {
            Some(ms) => r matches Some(x) && string_seqs(x@) == ms,
            None => r is None,
        },
{
    let mut i: usize = 0;
    assert(cats@.skip(0) =~= cats@);
    while i < cats.len()
        invariant
            i <= cats@.len(),
            category(cats@, name@) == category(cats@.skip(i as int), name@),
        decreases cats@.len() - i,
    {
        assert(cats@.skip(i as int)[0] == cats@[i as int]);
        assert(cats@.skip(i as int).drop_first() =~= cats@.skip(i + 1));
        if str_eq(cats[i].0.as_str(), name) {
            return Some(&cats[i].1);
        }
        i = i + 1;
    }
    None
}

fn push_members(cats: &Vec<(String, Vec<String>)>, tag: &HtmlTag, buffer: &mut String)
    ensures
        final(buffer)@ == old(buffer)@ + members_text(cats@, tag_view(*tag)),
{
    if let Some(name) = attr(tag, "name") {
        if let Some(names) = lookup_category(cats, name.as_str()) {
            let joined = join(names, ", ");
            push_str(buffer, joined.as_str());
            return;
        }
    }
    assert(old(buffer)@ + Seq::<char>::empty() =~= old(buffer)@);
}

fn collect_text(nodes: &Vec<HtmlNode>, m: &MacroIndex, parent: usize, buffer: &mut String)
    requires
        tag_at_v(views(nodes@), parent as int) is Some,
    ensures
        final(buffer)@ == old(buffer)@ + kids_text(
            views(nodes@),
            *m,
            parent as int,
            tag_at_v(views(nodes@), parent as int)->0.children,
        ),
    decreases nodes@.len() - parent,
{
    let t = match &nodes[parent] {
        HtmlNode::Tag(t) => t,
        _ => return,
    };
    let ghost b0 = old(buffer)@;
    let mut i: usize = 0;
    assert(t.children@.take(0) =~= Seq::<u32>::empty());
    assert(b0 + Seq::<char>::empty() =~= b0);
    while i < t.children.len()
        invariant
            i <= t.children@.len(),
            tag_at_v(views(nodes@), parent as int) == Some(tag_view(*t)),
            buffer@ == b0 + kids_text(views(nodes@), *m, parent as int, t.children@.take(i as int)),
        decreases t.children@.len() - i,
    {
        let k = t.children[i] as usize;
        assert(t.children@.take(i + 1).drop_last() =~= t.children@.take(i as int));
        assert(t.children@.take(i + 1).last() == t.children@[i as int]);
        let ghost before = buffer@;
        if parent < k && k < nodes.len() {
            match &nodes[k] {
                HtmlNode::Tag(c) => {
                    if str_eq(c.name.as_str(), "edit:elementcategory") {
                        push_members(&m.element_categories, c, buffer);
                    } else if str_eq(c.name.as_str(), "edit:attributecategory") {
                        push_members(&m.attribute_categories, c, buffer);
                    } else {
                        collect_text(nodes, m, k, buffer);
                    }
                },
                HtmlNode::Raw(s) => {
                    push_str(buffer, s.as_str());
                },
                HtmlNode::Comment => {},
            }
        }
        assert(buffer@ =~= before + piece(views(nodes@), *m, parent as int, t.children@[i as int] as int));
        assert(buffer@ =~= b0 + kids_text(views(nodes@), *m, parent as int, t.children@.take(i + 1)));
        i = i + 1;
    }
    assert(t.children@.take(t.children@.len() as int) =~= t.children@);
}

fn description_text(nodes: &Vec<HtmlNode>, m: &MacroIndex, i: usize) -> (r: String)
    ensures
        r@ == description_spec(views(nodes@), *m, i as int),
{
    if tag_ref(nodes, i).is_none() {
        return String::new();
    }
    let mut buffer = String::new();
    collect_text(nodes, m, i, &mut buffer);
    assert(buffer@ =~= kids_text(views(nodes@), *m, i as int, tag_at_v(views(nodes@), i as int)->0.children));
    normalize_html_ws(buffer.as_str())
}

/// Whether a paragraph's description is real prose: not empty, not an
/// annotation, caption, definition or production, and not a lead-in to a
/// value list.
pub open spec fn usable_paragraph(tag: TagView, d: Seq<char>) -> bool {
    &&& d.len() > 0
    &&& !has_class_v(tag, "annotation"@)
    &&& !has_class_v(tag, "caption"@)
    &&& !has_class_v(tag, "definition"@)
    &&& !has_class_v(tag, "prod"@)
    &&& trim_spec(d) != "where:"@
    &&& trim_spec(d) != "Values have the following meanings:"@
    &&& !ends_with(d, " is defined as follows:"@)
}

fn is_description_paragraph(tag: &HtmlTag, d: &String) -> (r: bool)
    ensures
        r == usable_paragraph(tag_view(*tag), d@),
{
    if d.as_str().unicode_len() == 0 || has_class(tag, "annotation") || has_class(tag, "caption")
        || has_class(tag, "definition") || has_class(tag, "prod") {
        return false;
    }
    let v = chars_of(d.as_str());
    let (a, b) = trim_bounds(&v);
    let t = sub_vec(&v, a, b);
    let w = chars_of("where:");
    let vals = chars_of("Values have the following meanings:");
    !seq_eq(&t, &w) && !seq_eq(&t, &vals) && !ends(&v, " is defined as follows:")
}

/// The first direct `<p>` child that is not an annotation and has a
/// description.
pub open spec fn first_paragraph(nodes: Seq<NodeView>, m: MacroIndex, kids: Seq<u32>) -> Option<Seq<char>>
    decreases kids.len(),
{
    if kids.len() == 0 {
        None
    } else {
        let k = kids[0] as int;
        let here = match tag_at_v(nodes, k) {
            Some(c) => if c.name == "p"@ && !has_class_v(c, "annotation"@) && description_spec(
                nodes,
                m,
                k,
            ).len() > 0 {
                Some(description_spec(nodes, m, k))
            } else {
                None
            },
            None => None,
        };
        if here is Some {
            here
        } else {
            first_paragraph(nodes, m, kids.drop_first())
        }
    }
}

/// The prose of an attribute's `<dd>`: its first real paragraph, else its
/// whole description.
pub open spec fn attribute_description(nodes: Seq<NodeView>, m: MacroIndex, dd: int) -> Seq<char> {
    match tag_at_v(nodes, dd) {
        Some(t) => match first_paragraph(nodes, m, t.children) {
            Some(d) => d,
            None => description_spec(nodes, m, dd),
        },
        None => Seq::empty(),
    }
}

fn attribute_description_text(nodes: &Vec<HtmlNode>, m: &MacroIndex, dd: usize) -> (r: String)
    ensures
        r@ == attribute_description(views(nodes@), *m, dd as int),
{
    let t = match tag_ref(nodes, dd) {
        Some(t) => t,
        None => return String::new(),
    };
    let mut i: usize = 0;
    assert(t.children@.skip(0) =~= t.children@);
    while i < t.children.len()
        invariant
            i <= t.children@.len(),
            first_paragraph(views(nodes@), *m, t.children@) == first_paragraph(views(nodes@), *m, t.children@.skip(i as int)),
            tag_at_v(views(nodes@), dd as int) == Some(tag_view(*t)),
        decreases t.children@.len() - i,
    {
        assert(t.children@.skip(i as int)[0] == t.children@[i as int]);
        assert(t.children@.skip(i as int).drop_first() =~= t.children@.skip(i + 1));
        let k = t.children[i] as usize;
        if let Some(c) = tag_ref(nodes, k) {
            if str_eq(c.name.as_str(), "p") && !has_class(c, "annotation") {
                let d = description_text(nodes, m, k);
                if d.as_str().unicode_len() > 0 {
                    return d;
                }
            }
        }
        i = i + 1;
    }
    assert(t.children@.skip(i as int) =~= Seq::<u32>::empty());
    description_text(nodes, m, dd)
}

/// The ids a `<dt>` row describes: its `<dfn>` ids, else its own id.
pub open spec fn anchor_ids(nodes: Seq<NodeView>, dt: int) -> Seq<Seq<char>> {
    let ids = dfn_ids_spec(nodes, dt);
    if ids.len() > 0 {
        ids
    } else {
        match tag_at_v(nodes, dt) {
            Some(t) => match attr_v(t, "id"@) {
                Some(id) => seq![id],
                None => Seq::empty(),
            },
            None => Seq::empty(),
        }
    }
}

fn description_anchor_ids(nodes: &Vec<HtmlNode>, dt: usize) -> (r: Vec<String>)
    ensures
        string_seqs(r@) == anchor_ids(views(nodes@), dt as int),
{
    let ids = dfn_ids(nodes, dt);
    if ids.len() > 0 {
        return ids;
    }
    let mut out: Vec<String> = Vec::new();
    if let Some(t) = tag_ref(nodes, dt) {
        if let Some(id) = attr(t, "id") {
            out.push(id);
        }
    }
    assert(string_seqs(out@) =~= anchor_ids(views(nodes@), dt as int));
    out
}

// ---------------------------------------------------------------------------
// Definition lists

/// A glossary entry as plain values: term, id, kind, description.
pub open spec fn term_view(t: TermDefinition) -> (Seq<char>, Option<Seq<char>>, Option<Seq<char>>, Seq<char>) {
    (t.term@, opt_chars(t.id), opt_chars(t.kind), t.description@)
}

pub open spec fn term_views(v: Seq<TermDefinition>) -> Seq<
    (Seq<char>, Option<Seq<char>>, Option<Seq<char>>, Seq<char>),
> {
    v.map_values(|t: TermDefinition| term_view(t))
}

/// Reading a glossary: a `<dt>` sets the pending term, and the next `<dd>`
/// pairs its description with it.
pub open spec fn glossary(nodes: Seq<NodeView>, m: MacroIndex, kids: Seq<u32>) -> (
    Option<(Option<Seq<char>>, Seq<char>, Option<Seq<char>>)>,
    Seq<(Seq<char>, Option<Seq<char>>, Option<Seq<char>>, Seq<char>)>,
)
    decreases kids.len(),
{
    if kids.len() == 0 {
        (None, Seq::empty())
    } else {
        let st = glossary(nodes, m, kids.drop_last());
        let k = kids.last() as int;
        match tag_at_v(nodes, k) {
            Some(c) => if c.name == "dt"@ {
                (Some(term_of_spec(nodes, k)), st.1)
            } else if c.name == "dd"@ {
                match st.0 {
                    Some(d) => (None, st.1.push((d.1, d.0, d.2, description_spec(nodes, m, k)))),
                    None => st,
                }
            } else {
                st
            },
            None => st,
        }
    }
}

fn extract_definition_list(nodes: &Vec<HtmlNode>, m: &MacroIndex, dl: &HtmlTag, out: &mut Vec<TermDefinition>)
    ensures
        term_views(final(out)@) == term_views(old(out)@) + glossary(views(nodes@), *m, dl.children@).1,
{
    let ghost o0 = term_views(old(out)@);
    let mut pending: Option<Dfn> = None;
    let mut i: usize = 0;
    assert(dl.children@.take(0) =~= Seq::<u32>::empty());
    assert(term_views(out@) =~= o0 + Seq::empty());
    while i < dl.children.len()
        invariant
            i <= dl.children@.len(),
            ({
                let st = glossary(views(nodes@), *m, dl.children@.take(i as int));
                &&& term_views(out@) == o0 + st.1
                &&& match pending {
                    Some(d) => st.0 == Some(dfn_view(d)),
                    None => st.0 is None,
                }
            }),
        decreases dl.children@.len() - i,
    {
        assert(dl.children@.take(i + 1).drop_last() =~= dl.children@.take(i as int));
        assert(dl.children@.take(i + 1).last() == dl.children@[i as int]);
        let k = dl.children[i] as usize;
        if let Some(c) = tag_ref(nodes, k) {
            if str_eq(c.name.as_str(), "dt") {
                pending = Some(term_of(nodes, k));
            } else if str_eq(c.name.as_str(), "dd") {
                if let Some(d) = pending {
                    let ghost before = term_views(out@);
                    let description = description_text(nodes, m, k);
                    out.push(TermDefinition { term: d.term, id: d.id, kind: d.kind, description });
                    assert(term_views(out@) =~= before.push(term_view(out@.last())));
                    pending = None;
                }
            }
        }
        i = i + 1;
    }
    assert(dl.children@.take(dl.children@.len() as int) =~= dl.children@);
}

/// An anchor description as plain values: id, prose.
pub open spec fn desc_views(v: Seq<AnchorDescription>) -> Seq<(Seq<char>, Seq<char>)> {
    v.map_values(|d: AnchorDescription| (d.id@, d.description@))
}

/// Each id paired with the same prose.
pub open spec fn each_with(ids: Seq<Seq<char>>, d: Seq<char>) -> Seq<(Seq<char>, Seq<char>)> {
    ids.map_values(|id: Seq<char>| (id, d))
}

/// Reading an attribute definition list: a `<dt>` sets the ids it
/// describes, and the next `<dd>` with prose gives each of them that prose.
pub open spec fn attribute_list(nodes: Seq<NodeView>, m: MacroIndex, kids: Seq<u32>) -> (
    Seq<Seq<char>>,
    Seq<(Seq<char>, Seq<char>)>,
)
    decreases kids.len(),
{
    if kids.len() == 0 {
        (Seq::empty(), Seq::empty())
    } else {
        let st = attribute_list(nodes, m, kids.drop_last());
        let k = kids.last() as int;
        match tag_at_v(nodes, k) {
            Some(c) => if c.name == "dt"@ {
                (anchor_ids(nodes, k), st.1)
            } else if c.name == "dd"@ && st.0.len() > 0 {
                let d = attribute_description(nodes, m, k);
                if d.len() > 0 {
                    (Seq::empty(), st.1 + each_with(st.0, d))
                } else {
                    st
                }
            } else {
                st
            },
            None => st,
        }
    }
}

/// Give every pending id the prose `d`; no id stays pending.
fn append_anchor_descriptions(pending: &mut Vec<String>, d: &String, out: &mut Vec<AnchorDescription>)
    ensures
        final(pending)@.len() == 0,
        desc_views(final(out)@) == desc_views(old(out)@) + each_with(string_seqs(old(pending)@), d@),
{
    let ghost o0 = desc_views(old(out)@);
    let ghost ids = string_seqs(old(pending)@);
    let mut i: usize = 0;
    assert(desc_views(out@) =~= o0 + each_with(ids.take(0), d@));
    while i < pending.len()
        invariant
            i <= pending@.len(),
            ids == string_seqs(pending@),
            desc_views(out@) == o0 + each_with(ids.take(i as int), d@),
        decreases pending@.len() - i,
    {
        let ghost before = desc_views(out@);
        out.push(AnchorDescription { id: pending[i].clone(), description: d.clone() });
        assert(ids.take(i + 1) =~= ids.take(i as int).push(ids[i as int]));
        assert(desc_views(out@) =~= before.push((ids[i as int], d@)));
        assert(each_with(ids.take(i + 1), d@) =~= each_with(ids.take(i as int), d@).push((ids[i as int], d@)));
        i = i + 1;
    }
    assert(ids.take(pending@.len() as int) =~= ids);
    pending.clear();
}

fn extract_attribute_definition_list(
    nodes: &Vec<HtmlNode>,
    m: &MacroIndex,
    dl: &HtmlTag,
    out: &mut Vec<AnchorDescription>,
)
    ensures
        desc_views(final(out)@) == desc_views(old(out)@) + attribute_list(views(nodes@), *m, dl.children@).1,
{
    let ghost o0 = desc_views(old(out)@);
    let mut pending: Vec<String> = Vec::new();
    let mut i: usize = 0;
    assert(dl.children@.take(0) =~= Seq::<u32>::empty());
    assert(desc_views(out@) =~= o0 + Seq::empty());
    assert(string_seqs(pending@) =~= Seq::<Seq<char>>::empty());
    while i < dl.children.len()
        invariant
            i <= dl.children@.len(),
            ({
                let st = attribute_list(views(nodes@), *m, dl.children@.take(i as int));
                &&& desc_views(out@) == o0 + st.1
                &&& string_seqs(pending@) == st.0
            }),
        decreases dl.children@.len() - i,
    {
        assert(dl.children@.take(i + 1).drop_last() =~= dl.children@.take(i as int));
        assert(dl.children@.take(i + 1).last() == dl.children@[i as int]);
        let k = dl.children[i] as usize;
        if let Some(c) = tag_ref(nodes, k) {
            if str_eq(c.name.as_str(), "dt") {
                pending = description_anchor_ids(nodes, k);
            } else if str_eq(c.name.as_str(), "dd") && pending.len() > 0 {
                let d = attribute_description_text(nodes, m, k);
                if d.as_str().unicode_len() > 0 {
                    append_anchor_descriptions(&mut pending, &d, out);
                    assert(string_seqs(pending@) =~= Seq::<Seq<char>>::empty());
                }
            }
        }
        i = i + 1;
    }
    assert(dl.children@.take(dl.children@.len() as int) =~= dl.children@);
}

// ---------------------------------------------------------------------------
// The page

/// What has been read of a page so far, as plain values, with the anchor
/// ids still waiting for prose and the current section's first paragraph.
#[verifier::ext_equal]
pub struct PageState {
    pub anchors: Seq<(Seq<char>, Seq<char>, Option<Seq<char>>)>,
    pub dfns: Seq<(Option<Seq<char>>, Seq<char>, Option<Seq<char>>)>,
    pub examples: Seq<(Option<Seq<char>>, Option<Seq<char>>, Option<Seq<char>>)>,
    pub properties: Seq<PropView>,
    pub terms: Seq<(Seq<char>, Option<Seq<char>>, Option<Seq<char>>, Seq<char>)>,
    pub descriptions: Seq<(Seq<char>, Seq<char>)>,
    pub pending: Seq<Seq<char>>,
    pub intro: Option<Seq<char>>,
}

pub open spec fn is_heading(name: Seq<char>) -> bool {
    name == "h1"@ || name == "h2"@ || name == "h3"@ || name == "h4"@ || name == "h5"@ || name == "h6"@
}

/// A paragraph: with no id waiting it may become the section's intro; with
/// ids waiting, real prose describes them (and becomes the intro when there
/// is none), and otherwise the intro does, when there is one.
pub open spec fn paragraph(nodes: Seq<NodeView>, m: MacroIndex, st: PageState, i: int, t: TagView) -> PageState {
    let d = description_spec(nodes, m, i);
    let u = usable_paragraph(t, d);
    if st.pending.len() == 0 {
        if st.intro is None && u {
            PageState { intro: Some(d), ..st }
        } else {
            st
        }
    } else if u {
        PageState {
            pending: Seq::empty(),
            intro: if st.intro is None {
                Some(d)
            } else {
                st.intro
            },
            descriptions: st.descriptions + each_with(st.pending, d),
            ..st
        }
    } else {
        match st.intro {
            Some(x) => PageState {
                pending: Seq::empty(),
                descriptions: st.descriptions + each_with(st.pending, x),
                ..st
            },
            None => st,
        }
    }
}

/// What the tag at position `i` adds to the page.
pub open spec fn page_step(nodes: Seq<NodeView>, m: MacroIndex, st: PageState, i: int) -> PageState {
    match tag_at_v(nodes, i) {
        None => st,
        Some(t) => {
            let name = t.name;
            let id = attr_v(t, "id"@);
            let s1 = match id {
                Some(x) => PageState {
                    anchors: st.anchors.push(
                        (
                            x,
                            name,
                            if is_heading(name) {
                                Some(text_at(nodes, i))
                            } else {
                                None
                            },
                        ),
                    ),
                    ..st
                },
                None => st,
            };
            if is_heading(name) && id is Some {
                PageState { pending: seq![id->0], intro: None, ..s1 }
            } else {
                let s2 = if has_class_v(t, "propdef"@) && dfn_ids_spec(nodes, i).len() > 0 {
                    PageState { pending: dfn_ids_spec(nodes, i), ..s1 }
                } else {
                    s1
                };
                let s3 = if name == "edit:elementsummary"@ {
                    PageState { pending: Seq::empty(), ..s2 }
                } else {
                    s2
                };
                if name == "p"@ {
                    paragraph(nodes, m, s3, i, t)
                } else if name == "dfn"@ {
                    PageState {
                        dfns: s3.dfns.push((id, text_at(nodes, i), attr_v(t, "data-dfn-type"@))),
                        ..s3
                    }
                } else if name == "edit:example"@ {
                    PageState {
                        examples: s3.examples.push(
                            (
                                attr_v(t, "href"@),
                                attr_v(t, "image"@),
                                attr_v(t, "link"@),
                            ),
                        ),
                        ..s3
                    }
                } else if name == "table"@ && has_class_v(t, "propdef"@) {
                    match dom_propdef(nodes, i) {
                        Some(p) => PageState { properties: s3.properties.push(p), ..s3 },
                        None => s3,
                    }
                } else if name == "dl"@ && has_class_v(t, "definitions"@) {
                    PageState { terms: s3.terms + glossary(nodes, m, t.children).1, ..s3 }
                } else if name == "dl"@ && (has_class_v(t, "attrdef-list"@) || has_class_v(
                    t,
                    "attrdef-list-svg2"@,
                )) {
                    PageState {
                        descriptions: s3.descriptions + attribute_list(nodes, m, t.children).1,
                        ..s3
                    }
                } else {
                    s3
                }
            }
        },
    }
}

pub open spec fn empty_page() -> PageState {
    PageState {
        anchors: Seq::empty(),
        dfns: Seq::empty(),
        examples: Seq::empty(),
        properties: Seq::empty(),
        terms: Seq::empty(),
        descriptions: Seq::empty(),
        pending: Seq::empty(),
        intro: None,
    }
}

/// The page after its first `n` nodes.
pub open spec fn page_walk(nodes: Seq<NodeView>, m: MacroIndex, n: int) -> PageState
    decreases n,
{
    if n <= 0 {
        empty_page()
    } else {
        page_step(nodes, m, page_walk(nodes, m, n - 1), n - 1)
    }
}

pub open spec fn chapter_state(c: Chapter, pending: Seq<String>, intro: Option<String>) -> PageState {
    PageState {
        anchors: c.anchors@.map_values(|a: Anchor| (a.id@, a.tag@, opt_chars(a.text))),
        dfns: c.dfns@.map_values(|d: Dfn| dfn_view(d)),
        examples: c.examples@.map_values(
            |e: Example| (opt_chars(e.href), opt_chars(e.image), opt_chars(e.link)),
        ),
        properties: c.properties@.map_values(|p: PropertyValueDef| prop_view(p)),
        terms: term_views(c.term_definitions@),
        descriptions: desc_views(c.anchor_descriptions@),
        pending: string_seqs(pending),
        intro: opt_chars(intro),
    }
}

/// Whether `c` holds everything read from the page `nodes`.
pub open spec fn chapter_fits(c: Chapter, nodes: Seq<NodeView>, m: MacroIndex) -> bool {
    let st = page_walk(nodes, m, nodes.len() as int);
    let got = chapter_state(c, Seq::empty(), None);
    &&& got.anchors == st.anchors
    &&& got.dfns == st.dfns
    &&& got.examples == st.examples
    &&& got.properties == st.properties
    &&& got.terms == st.terms
    &&& got.descriptions == st.descriptions
}

fn handle_paragraph_description(
    nodes: &Vec<HtmlNode>,
    m: &MacroIndex,
    i: usize,
    t: &HtmlTag,
    ch: &mut Chapter,
    pending: &mut Vec<String>,
    intro: &mut Option<String>,
)
    requires
        tag_at_v(views(nodes@), i as int) == Some(tag_view(*t)),
    ensures
        chapter_state(*final(ch), final(pending)@, *final(intro)) == paragraph(
            views(nodes@),
            *m,
            chapter_state(*old(ch), old(pending)@, *old(intro)),
            i as int,
            tag_view(*t),
        ),
        final(ch).name == old(ch).name,
{
    let d = description_text(nodes, m, i);
    let u = is_description_paragraph(t, &d);
    if pending.len() == 0 {
        if intro.is_none() && u {
            *intro = Some(d);
        }
        return;
    }
    if u {
        if intro.is_none() {
            *intro = Some(d.clone());
        }
        append_anchor_descriptions(pending, &d, &mut ch.anchor_descriptions);
    } else if intro.is_some() {
        let x = match intro {
            Some(x) => x.clone(),
            None => String::new(),
        };
        append_anchor_descriptions(pending, &x, &mut ch.anchor_descriptions);
    }
}

fn page_step_exec(
    nodes: &Vec<HtmlNode>,
    m: &MacroIndex,
    i: usize,
    ch: &mut Chapter,
    pending: &mut Vec<String>,
    intro: &mut Option<String>,
)
    ensures
        chapter_state(*final(ch), final(pending)@, *final(intro)) == page_step(
            views(nodes@),
            *m,
            chapter_state(*old(ch), old(pending)@, *old(intro)),
            i as int,
        ),
        final(ch).name == old(ch).name,
{
    let t = match tag_ref(nodes, i) {
        Some(t) => t,
        None => return,
    };
    let ghost st0 = chapter_state(*ch, pending@, *intro);
    let name = t.name.as_str();
    let heading = str_eq(name, "h1") || str_eq(name, "h2") || str_eq(name, "h3") || str_eq(name, "h4")
        || str_eq(name, "h5") || str_eq(name, "h6");
    let id = attr(t, "id");
    if let Some(x) = &id {
        let text = if heading {
            Some(handle_text(nodes, i))
        } else {
            None
        };
        ch.anchors.push(Anchor { id: x.clone(), tag: t.name.clone(), text });
    }
    let ghost s1 = chapter_state(*ch, pending@, *intro);
    assert(s1.anchors =~= match attr_spec(t.attributes@, "id"@) {
        Some(x) => st0.anchors.push((x, t.name@, if is_heading(t.name@) { Some(text_at(views(nodes@), i as int)) } else { None })),
        None => st0.anchors,
    });
    if heading && id.is_some() {
        let x = match &id {
            Some(x) => x.clone(),
            None => String::new(),
        };
        *pending = vec![x];
        *intro = None;
        assert(string_seqs(pending@) =~= seq![x@]);
        return;
    }
    if has_class(t, "propdef") {
        let ids = dfn_ids(nodes, i);
        if ids.len() > 0 {
            *pending = ids;
        }
    }
    if str_eq(name, "edit:elementsummary") {
        pending.clear();
        assert(string_seqs(pending@) =~= Seq::<Seq<char>>::empty());
    }
    if str_eq(name, "p") {
        handle_paragraph_description(nodes, m, i, t, ch, pending, intro);
        return;
    }
    let ghost s3 = chapter_state(*ch, pending@, *intro);
    if str_eq(name, "dfn") {
        ch.dfns.push(Dfn { id, term: handle_text(nodes, i), kind: attr(t, "data-dfn-type") });
        assert(chapter_state(*ch, pending@, *intro).dfns =~= s3.dfns.push(
            (attr_spec(t.attributes@, "id"@), text_at(views(nodes@), i as int), attr_spec(t.attributes@, "data-dfn-type"@)),
        ));
    } else if str_eq(name, "edit:example") {
        ch.examples.push(Example { href: attr(t, "href"), image: attr(t, "image"), link: attr(t, "link") });
        assert(chapter_state(*ch, pending@, *intro).examples =~= s3.examples.push(
            (
                attr_spec(t.attributes@, "href"@),
                attr_spec(t.attributes@, "image"@),
                attr_spec(t.attributes@, "link"@),
            ),
        ));
    } else if str_eq(name, "table") && has_class(t, "propdef") {
        if let Some(p) = extract_propdef(nodes, i) {
            ch.properties.push(p);
            assert(chapter_state(*ch, pending@, *intro).properties =~= s3.properties.push(
                prop_view(ch.properties@.last()),
            ));
        }
    } else if str_eq(name, "dl") && has_class(t, "definitions") {
        extract_definition_list(nodes, m, t, &mut ch.term_definitions);
    } else if str_eq(name, "dl") && (has_class(t, "attrdef-list") || has_class(t, "attrdef-list-svg2")) {
        extract_attribute_definition_list(nodes, m, t, &mut ch.anchor_descriptions);
    }
}

/// Read the anchors, definitions, examples, property tables, glossary and
/// anchor prose of one chapter page; `macros` expands the category
/// placeholders in descriptions. Fails when the page cannot be parsed.
pub fn extract_chapter(name: &str, html: &str, macros: &MacroIndex) -> (r: Result<Chapter, RegenError>)
    ensures
        match parsed_html(html@) {
            Some(nodes) => r matches Ok(c) && c.name@ == name@ && chapter_fits(c, nodes, *macros),
            None => r matches Err(e) && e.message@ == "HTML document could not be parsed"@,
        },
{
    let nodes = match parse_html(html) {
        Some(n) => n,
        None => return Err(boxed("HTML document could not be parsed")),
    };
    Ok(chapter_from_nodes(name, &nodes, macros))
}

/// The chapter a parsed page gives.
pub fn chapter_from_nodes(name: &str, nodes: &Vec<HtmlNode>, macros: &MacroIndex) -> (c: Chapter)
    ensures
        c.name@ == name@,
        chapter_fits(c, views(nodes@), *macros),
{
    let mut ch = Chapter {
        name: name.to_owned(),
        anchors: Vec::new(),
        dfns: Vec::new(),
        examples: Vec::new(),
        properties: Vec::new(),
        term_definitions: Vec::new(),
        anchor_descriptions: Vec::new(),
    };
    let mut pending: Vec<String> = Vec::new();
    let mut intro: Option<String> = None;
    let mut i: usize = 0;
    assert(chapter_state(ch, pending@, intro) =~= empty_page());
    while i < nodes.len()
        invariant
            i <= nodes@.len(),
            ch.name@ == name@,
            chapter_state(ch, pending@, intro) == page_walk(views(nodes@), *macros, i as int),
        decreases nodes@.len() - i,
    {
        page_step_exec(nodes, macros, i, &mut ch, &mut pending, &mut intro);
        i = i + 1;
    }
    ch
}

} // verus!
