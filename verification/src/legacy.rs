//! Value differences of the dated SVG 1.1 editions, read from their property
//! index pages and turned into the catalog's per-edition value overrides.

use vstd::prelude::*;
use crate::aria::{cell_words, cell_words_of};
use crate::chapter_page::{query, query_all};
use crate::html::{parse_html, parsed_html, tag_at_v, tag_ref, views, HtmlNode, NodeView};
use crate::keyed::{entries_view, index_of_name, lemma_index_of_name, lemma_put_sorted, names_sorted, put_entry, put_spec};
use crate::snapshot::SpecSnapshotId;
use crate::spec_lifecycle::{sort_names, sorted_names};
use crate::text::{chars_of, is_alnum, alnum, push_char, str_eq, string_seqs, trim_spec, trimmed_chars, string_of};
use crate::util::{boxed, is_keyword_spec, is_keyword_token, RegenError};
use crate::value_space::{split_on, split_spec};
use crate::values::{values_view, CatalogAttributeValues, ValuesView};

verus! {

/// One dated property-index page of a legacy SVG edition.
pub struct LegacyPropertyIndexSource {
    /// Human-readable source label.
    pub name: String,
    /// The edition the index describes.
    pub profile: SpecSnapshotId,
    /// Exact W3C source URL.
    pub url: String,
}

/// The SVG 1.1 property indexes used for edition-specific value overrides.
pub fn svg11_property_indexes() -> (r: Vec<LegacyPropertyIndexSource>)
    ensures
        r@.len() == 2,
        r@[0].name@ == "SVG 1.1 First Edition Property Index"@,
        r@[0].profile == SpecSnapshotId::Svg11Rec20030114,
        r@[0].url@ == "https://www.w3.org/TR/2003/REC-SVG11-20030114/propidx.html"@,
        r@[1].name@ == "SVG 1.1 Second Edition Property Index"@,
        r@[1].profile == SpecSnapshotId::Svg11Rec20110816,
        r@[1].url@ == "https://www.w3.org/TR/SVG11/propidx.html"@,
{
    vec![
        LegacyPropertyIndexSource {
            name: "SVG 1.1 First Edition Property Index".to_owned(),
            profile: SpecSnapshotId::Svg11Rec20030114,
            url: "https://www.w3.org/TR/2003/REC-SVG11-20030114/propidx.html".to_owned(),
        },
        LegacyPropertyIndexSource {
            name: "SVG 1.1 Second Edition Property Index".to_owned(),
            profile: SpecSnapshotId::Svg11Rec20110816,
            url: "https://www.w3.org/TR/SVG11/propidx.html".to_owned(),
        },
    ]
}

/// An attribute's value space in one edition.
pub struct CatalogAttributeValueOverride {
    pub profile: SpecSnapshotId,
    pub values: CatalogAttributeValues,
}

/// A legacy page the overrides were read from.
pub struct CatalogLegacySource {
    pub name: String,
    pub profile: SpecSnapshotId,
    pub url: String,
}

/// Legacy overrides: the pages read, and the overrides by attribute name in
/// name order, each name once.
pub struct LegacyValueOverrides {
    pub sources: Vec<CatalogLegacySource>,
    pub attributes: Vec<(String, Vec<CatalogAttributeValueOverride>)>,
}

pub open spec fn override_view(o: CatalogAttributeValueOverride) -> (SpecSnapshotId, ValuesView) {
    (o.profile, values_view(o.values))
}

pub open spec fn overrides_fn() -> spec_fn(Vec<CatalogAttributeValueOverride>) -> Seq<(SpecSnapshotId, ValuesView)> {
    |v: Vec<CatalogAttributeValueOverride>| v@.map_values(|o: CatalogAttributeValueOverride| override_view(o))
}

pub open spec fn attributes_view(v: Seq<(String, Vec<CatalogAttributeValueOverride>)>) -> Seq<
    (Seq<char>, Seq<(SpecSnapshotId, ValuesView)>),
> {
    entries_view(v, overrides_fn())
}

pub open spec fn source_view(s: CatalogLegacySource) -> (Seq<char>, SpecSnapshotId, Seq<char>) {
    (s.name@, s.profile, s.url@)
}

// ---------------------------------------------------------------------------
// Reading a property index

/// A property name as the catalog keys it: its ASCII letters, digits and
/// hyphens.
pub open spec fn name_chars(s: Seq<char>) -> Seq<char>
    decreases s.len(),
{
    if s.len() == 0 {
        s
    } else if is_alnum(s.last()) || s.last() == '-' {
        name_chars(s.drop_last()).push(s.last())
    } else {
        name_chars(s.drop_last())
    }
}

pub fn normalized_property_name(name: &str) -> (r: String)
    ensures
        r@ == name_chars(name@),
{
    let v = chars_of(name);
    let mut out = String::new();
    let mut i: usize = 0;
    assert(v@.take(0) =~= Seq::<char>::empty());
    while i < v.len()
        invariant
            i <= v@.len(),
            v@ == name@,
            out@ == name_chars(v@.take(i as int)),
        decreases v@.len() - i,
    {
        assert(v@.take(i + 1).drop_last() =~= v@.take(i as int));
        assert(v@.take(i + 1).last() == v@[i as int]);
        if alnum(v[i]) || v[i] == '-' {
            push_char(&mut out, v[i]);
        }
        i = i + 1;
    }
    assert(v@.take(v@.len() as int) =~= v@);
    out
}

/// The keyword alternatives of a value grammar when it has nothing else:
/// every `|`-separated alternative, trimmed, is a bare keyword; sorted, each
/// once.
pub open spec fn keyword_only_spec(value: Seq<char>) -> Option<Seq<Seq<char>>> {
    let toks = split_spec(value, '|').map_values(|t: Seq<char>| trim_spec(t));
    if forall|k: int| 0 <= k < toks.len() ==> is_keyword_spec(#[trigger] toks[k]) {
        Some(sorted_names(toks))
    } else {
        None
    }
}

pub fn keyword_only_values(value: &str) -> (r: Option<Vec<String>>)
    ensures
        match keyword_only_spec(value@) {
            Some(ws) => r matches Some(x) && string_seqs(x@) == ws,
            None => r is None,
        },
{
    let v = chars_of(value);
    let parts = split_on(&v, '|');
    let ghost toks = split_spec(value@, '|').map_values(|t: Seq<char>| trim_spec(t));
    let mut tokens: Vec<String> = Vec::new();
    let mut i: usize = 0;
    assert(string_seqs(tokens@) =~= toks.take(0));
    while i < parts.len()
        invariant
            i <= parts@.len(),
            string_seqs(parts@) == split_spec(value@, '|'),
            toks == split_spec(value@, '|').map_values(|t: Seq<char>| trim_spec(t)),
            string_seqs(tokens@) == toks.take(i as int),
            forall|k: int| 0 <= k < i ==> is_keyword_spec(#[trigger] toks[k]),
        decreases parts@.len() - i,
    {
        assert(string_seqs(parts@)[i as int] == parts@[i as int]@);
        let t = string_of(&trimmed_chars(parts[i].as_str()));
        if !is_keyword_token(t.as_str()) {
            assert(!is_keyword_spec(toks[i as int]));
            return None;
        }
        let ghost before = string_seqs(tokens@);
        tokens.push(t);
        assert(string_seqs(tokens@) =~= before.push(t@));
        assert(toks.take(i + 1) =~= toks.take(i as int).push(toks[i as int]));
        i = i + 1;
    }
    assert(toks.take(parts@.len() as int) =~= toks);
    Some(sort_names(tokens))
}

/// A property row's name and values: the text of its first two cells.
pub open spec fn property_row(nv: Seq<NodeView>, row: int) -> Option<(Seq<char>, Seq<char>)> {
    let cells = query(nv, row, "td"@);
    if cells.len() >= 2 {
        Some((cell_words(nv, cells[0]), cell_words(nv, cells[1])))
    } else {
        None
    }
}

fn property_row_name_and_values(nodes: &Vec<HtmlNode>, row: usize) -> (r: Option<(String, String)>)
    ensures
        match property_row(views(nodes@), row as int) {
            Some((n, v)) => r matches Some(x) && x.0@ == n && x.1@ == v,
            None => r is None,
        },
{
    let cells = query_all(nodes, row, "td");
    if cells.len() >= 2 {
        assert(cells@.map_values(|p: usize| p as int)[0] == cells@[0] as int);
        assert(cells@.map_values(|p: usize| p as int)[1] == cells@[1] as int);
        Some((cell_words_of(nodes, cells[0]), cell_words_of(nodes, cells[1])))
    } else {
        None
    }
}

pub open spec fn words_fn() -> spec_fn(Vec<String>) -> Seq<Seq<char>> {
    |v: Vec<String>| string_seqs(v@)
}

/// The keyword-only rows among the first `n` nodes, by property name (a later
/// row replacing an earlier one), in name order.
pub open spec fn keyword_rows(nv: Seq<NodeView>, n: int) -> Seq<(Seq<char>, Seq<Seq<char>>)>
    decreases n,
{
    if n <= 0 {
        Seq::empty()
    } else {
        let acc = keyword_rows(nv, n - 1);
        match tag_at_v(nv, n - 1) {
            Some(t) => if t.name == "tr"@ {
                match property_row(nv, n - 1) {
                    Some((name, values)) => {
                        let key = name_chars(name);
                        if key.len() == 0 {
                            acc
                        } else {
                            match keyword_only_spec(values) {
                                Some(ws) => put_spec(acc, key, ws),
                                None => acc,
                            }
                        }
                    },
                    None => acc,
                }
            } else {
                acc
            },
            None => acc,
        }
    }
}

proof fn lemma_keyword_rows_sorted(nv: Seq<NodeView>, n: int)
    ensures
        names_sorted(keyword_rows(nv, n)),
    decreases n,
{
    if n > 0 {
        lemma_keyword_rows_sorted(nv, n - 1);
        let acc = keyword_rows(nv, n - 1);
        if let Some(t) = tag_at_v(nv, n - 1) {
            if let Some((name, values)) = property_row(nv, n - 1) {
                if let Some(ws) = keyword_only_spec(values) {
                    lemma_put_sorted(acc, name_chars(name), ws);
                }
            }
        }
    }
}

fn extract_keyword_only_value_overrides(nodes: &Vec<HtmlNode>) -> (r: Vec<(String, Vec<String>)>)
    ensures
        entries_view(r@, words_fn()) == keyword_rows(views(nodes@), nodes@.len() as int),
{
    let mut out: Vec<(String, Vec<String>)> = Vec::new();
    let mut i: usize = 0;
    assert(entries_view(out@, words_fn()) =~= Seq::<(Seq<char>, Seq<Seq<char>>)>::empty());
    while i < nodes.len()
        invariant
            i <= nodes@.len(),
            entries_view(out@, words_fn()) == keyword_rows(views(nodes@), i as int),
        decreases nodes@.len() - i,
    {
        if let Some(t) = tag_ref(nodes, i) {
            if str_eq(t.name.as_str(), "tr") {
                if let Some((name, values)) = property_row_name_and_values(nodes, i) {
                    let key = normalized_property_name(name.as_str());
                    if key.as_str().unicode_len() > 0 {
                        if let Some(ws) = keyword_only_values(values.as_str()) {
                            put_entry::<Vec<String>, Seq<Seq<char>>>(&mut out, key, ws, Ghost(words_fn()));
                        }
                    }
                }
            }
        }
        i = i + 1;
    }
    out
}

/// The overrides one page gives: each keyword-only property as an
/// enumeration in that page's edition.
pub open spec fn page_overrides(rows: Seq<(Seq<char>, Seq<Seq<char>>)>, profile: SpecSnapshotId) -> Seq<
    (Seq<char>, Seq<(SpecSnapshotId, ValuesView)>),
> {
    rows.map_values(
        |e: (Seq<char>, Seq<Seq<char>>)| (e.0, seq![(profile, ValuesView::Enum(e.1))]),
    )
}

/// Read the keyword-only rows of one SVG 1.1 property index page as value
/// overrides for that page's edition. Fails when the page cannot be parsed
/// or has no keyword-only row.
pub fn extract_svg11_property_index(source: &LegacyPropertyIndexSource, html: &str) -> (r: Result<
    LegacyValueOverrides,
    RegenError,
>)
    ensures
        match parsed_html(html@) {
            None => r matches Err(e) && e.message@ == "HTML document could not be parsed"@,
            Some(nv) => {
                let rows = keyword_rows(nv, nv.len() as int);
                if rows.len() == 0 {
                    r matches Err(e) && e.message@ == "SVG 1.1 property index had no keyword-only rows"@
                } else {
                    r matches Ok(o) && o.sources@.map_values(|s: CatalogLegacySource| source_view(s)) == seq![
                        (source.name@, source.profile, source.url@),
                    ] && attributes_view(o.attributes@) == page_overrides(rows, source.profile)
                        && names_sorted(attributes_view(o.attributes@))
                }
            },
        },
{
    let nodes = match parse_html(html) {
        Some(n) => n,
        None => return Err(boxed("HTML document could not be parsed")),
    };
    let rows = extract_keyword_only_value_overrides(&nodes);
    let ghost rv = keyword_rows(views(nodes@), nodes@.len() as int);
    proof {
        lemma_keyword_rows_sorted(views(nodes@), nodes@.len() as int);
    }
    if rows.len() == 0 {
        return Err(boxed("SVG 1.1 property index had no keyword-only rows"));
    }
    let mut attributes: Vec<(String, Vec<CatalogAttributeValueOverride>)> = Vec::new();
    let mut rest = rows;
    let n = rest.len();
    let mut k: usize = 0;
    assert(attributes_view(attributes@) =~= page_overrides(rv.take(0), source.profile));
    while k < n
        invariant
            k <= n,
            n == rv.len(),
            rest@.len() == n - k,
            entries_view(rest@, words_fn()) == rv.skip(k as int),
            attributes_view(attributes@) == page_overrides(rv.take(k as int), source.profile),
        decreases n - k,
    {
        let ghost old_rest = rest@;
        let (name, values) = rest.remove(0);
        assert(rest@ =~= old_rest.subrange(1, old_rest.len() as int));
        assert(entries_view(old_rest, words_fn())[0] == rv.skip(k as int)[0]);
        assert(rv.skip(k as int)[0] == rv[k as int]);
        assert(name@ == rv[k as int].0);
        assert(string_seqs(values@) == rv[k as int].1);
        assert(entries_view(rest@, words_fn()) =~= entries_view(old_rest, words_fn()).drop_first());
        assert(rv.skip(k as int).drop_first() =~= rv.skip(k + 1));
        let ghost before = attributes_view(attributes@);
        let o = CatalogAttributeValueOverride {
            profile: source.profile,
            values: CatalogAttributeValues::Enum { values },
        };
        let ov = vec![o];
        assert(overrides_fn()(ov) =~= seq![(source.profile, ValuesView::Enum(rv[k as int].1))]);
        attributes.push((name, ov));
        assert(attributes_view(attributes@) =~= before.push(
            (rv[k as int].0, seq![(source.profile, ValuesView::Enum(rv[k as int].1))]),
        ));
        assert(page_overrides(rv.take(k + 1), source.profile) =~= page_overrides(
            rv.take(k as int),
            source.profile,
        ).push((rv[k as int].0, seq![(source.profile, ValuesView::Enum(rv[k as int].1))])));
        k = k + 1;
    }
    assert(rv.take(n as int) =~= rv);
    assert(names_sorted(attributes_view(attributes@))) by {
        assert forall|i: int, j: int| 0 <= i < j < attributes@.len() implies crate::compat::seq_lt(
            #[trigger] attributes_view(attributes@)[i].0,
            #[trigger] attributes_view(attributes@)[j].0,
        ) by {
            assert(attributes_view(attributes@)[i].0 == rv[i].0);
            assert(attributes_view(attributes@)[j].0 == rv[j].0);
        }
    }
    let sources = vec![
        CatalogLegacySource { name: source.name.clone(), profile: source.profile, url: source.url.clone() },
    ];
    assert(sources@.map_values(|s: CatalogLegacySource| source_view(s)) =~= seq![
        (source.name@, source.profile, source.url@),
    ]);
    Ok(LegacyValueOverrides { sources, attributes })
}

// ---------------------------------------------------------------------------
// Accumulating pages

/// `acc` with `items` added to the overrides of `name`: after its own, or
/// as a new entry in name order.
pub open spec fn merge_into(
    acc: Seq<(Seq<char>, Seq<(SpecSnapshotId, ValuesView)>)>,
    name: Seq<char>,
    items: Seq<(SpecSnapshotId, ValuesView)>,
) -> Seq<(Seq<char>, Seq<(SpecSnapshotId, ValuesView)>)> {
    match index_of_name(acc, name) {
        Some(p) => acc.update(p, (name, acc[p].1 + items)),
        None => put_spec(acc, name, items),
    }
}

pub open spec fn merge_all(
    acc: Seq<(Seq<char>, Seq<(SpecSnapshotId, ValuesView)>)>,
    src: Seq<(Seq<char>, Seq<(SpecSnapshotId, ValuesView)>)>,
) -> Seq<(Seq<char>, Seq<(SpecSnapshotId, ValuesView)>)>
    decreases src.len(),
{
    if src.len() == 0 {
        acc
    } else {
        merge_into(merge_all(acc, src.drop_last()), src.last().0, src.last().1)
    }
}

/// Merging keeps the overrides in name order, each name once.
pub proof fn lemma_merge_sorted(
    acc: Seq<(Seq<char>, Seq<(SpecSnapshotId, ValuesView)>)>,
    src: Seq<(Seq<char>, Seq<(SpecSnapshotId, ValuesView)>)>,
)
    requires
        names_sorted(acc),
    ensures
        names_sorted(merge_all(acc, src)),
    decreases src.len(),
{
    if src.len() > 0 {
        lemma_merge_sorted(acc, src.drop_last());
        let a = merge_all(acc, src.drop_last());
        lemma_index_of_name(a, src.last().0);
        match index_of_name(a, src.last().0) {
            Some(p) => {
                let r = merge_into(a, src.last().0, src.last().1);
                assert forall|i: int, j: int| 0 <= i < j < r.len() implies crate::compat::seq_lt(
                    #[trigger] r[i].0,
                    #[trigger] r[j].0,
                ) by {
                    assert(r[i].0 == a[i].0);
                    assert(r[j].0 == a[j].0);
                }
            },
            None => {
                lemma_put_sorted(a, src.last().0, src.last().1);
            },
        }
    }
}

fn merge_into_exec(
    values: &mut Vec<(String, Vec<CatalogAttributeValueOverride>)>,
    name: String,
    items: Vec<CatalogAttributeValueOverride>,
)
    ensures
        attributes_view(final(values)@) == merge_into(attributes_view(old(values)@), name@, overrides_fn()(items)),
{
    let ghost av = attributes_view(old(values)@);
    proof {
        lemma_index_of_name(av, name@);
    }
    let mut i: usize = 0;
    while i < values.len()
        invariant
            i <= values@.len(),
            values@ == old(values)@,
            av == attributes_view(values@),
            forall|j: int| 0 <= j < i ==> av[j].0 != name@,
            match index_of_name(av, name@) {
                Some(p) => 0 <= p < av.len() && av[p].0 == name@ && forall|j: int|
                    0 <= j < p ==> av[j].0 != name@,
                None => forall|j: int| 0 <= j < av.len() ==> av[j].0 != name@,
            },
        decreases values@.len() - i,
    {
        if str_eq(values[i].0.as_str(), name.as_str()) {
            assert(av[i as int].0 == name@);
            assert(index_of_name(av, name@) == Some(i as int));
            let ghost old_values = values@;
            let (k, mut cur) = values.remove(i);
            let ghost cur0 = cur@;
            let mut it = items;
            let ghost it0 = it@;
            cur.append(&mut it);
            values.insert(i, (k, cur));
            assert(overrides_fn()(values@[i as int].1) =~= overrides_fn()(old_values[i as int].1)
                + it0.map_values(|o: CatalogAttributeValueOverride| override_view(o)));
            assert(attributes_view(values@) =~= av.update(
                i as int,
                (name@, av[i as int].1 + it0.map_values(|o: CatalogAttributeValueOverride| override_view(o))),
            ));
            return;
        }
        i = i + 1;
    }
    assert(index_of_name(av, name@) is None);
    put_entry::<Vec<CatalogAttributeValueOverride>, Seq<(SpecSnapshotId, ValuesView)>>(
        values,
        name,
        items,
        Ghost(overrides_fn()),
    );
}

/// Merge one page's overrides into an accumulator: its sources after the
/// accumulator's, and each attribute's overrides after those already
/// gathered for it.
pub fn merge_value_overrides(target: &mut LegacyValueOverrides, source: LegacyValueOverrides)
    ensures
        final(target).sources@ == old(target).sources@ + source.sources@,
        attributes_view(final(target).attributes@) == merge_all(
            attributes_view(old(target).attributes@),
            attributes_view(source.attributes@),
        ),
{
    let ghost src = attributes_view(source.attributes@);
    let ghost acc0 = attributes_view(target.attributes@);
    let LegacyValueOverrides { sources, attributes } = source;
    let mut sources = sources;
    target.sources.append(&mut sources);
    let mut rest = attributes;
    let n = rest.len();
    let mut k: usize = 0;
    assert(src.take(0) =~= Seq::<(Seq<char>, Seq<(SpecSnapshotId, ValuesView)>)>::empty());
    assert(rest@ =~= source.attributes@.skip(0));
    while k < n
        invariant
            k <= n,
            n == source.attributes@.len(),
            src == attributes_view(source.attributes@),
            rest@ == source.attributes@.skip(k as int),
            attributes_view(target.attributes@) == merge_all(acc0, src.take(k as int)),
            target.sources@ == old(target).sources@ + source.sources@,
        decreases n - k,
    {
        let ghost old_rest = rest@;
        let (name, items) = rest.remove(0);
        assert(rest@ =~= source.attributes@.skip(k + 1));
        assert(old_rest[0] == source.attributes@[k as int]);
        merge_into_exec(&mut target.attributes, name, items);
        assert(src.take(k + 1).drop_last() =~= src.take(k as int));
        assert(src.take(k + 1).last() == src[k as int]);
        k = k + 1;
    }
    assert(src.take(n as int) =~= src);
}

} // verus!
