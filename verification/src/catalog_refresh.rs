//! Refreshing the compat facts recorded in the catalog's documents from a
//! newly collected compat catalog: every element, attribute, element-local
//! attribute context and record kept aside gets its `browser_support`,
//! `baseline` and `discouraged` members replaced, and every other member,
//! specification-derived ones included, stays as it was.

use vstd::prelude::*;
use crate::compat_catalog::{CatalogCompatFacts, CatalogPackageSource, CompatAttribute, CompatCatalog};
use crate::compat_collect::{
    attr_fn, attr_view, catalog_view, common_view, facts_fn, facts_view, sub_views, AttrView, CollectView,
    FactsView, SubView,
};
use crate::facts_json::{baseline_json, baseline_value, discouraged_value, discs_json, support_json, support_value};
use crate::json::{iv, json_view, lemma_array_view, lemma_object_view, mv, JsonValue, JsonView};
use crate::keyed::{entries_view, find_name, index_of_name, lemma_index_of_name, lemma_value_at, value_of};
use crate::text::{decimal, decimal_string, str_eq};
use crate::util::{boxed, RegenError};

verus! {

// ---------------------------------------------------------------------------
// Objects

/// An object with member `k` set to `v`: in place where `k` stands, else
/// added at the end.
pub open spec fn obj_set(e: Seq<(Seq<char>, JsonView)>, k: Seq<char>, v: JsonView) -> Seq<(Seq<char>, JsonView)> {
    match index_of_name(e, k) {
        Some(p) => e.update(p, (k, v)),
        None => e.push((k, v)),
    }
}

/// An object without member `k`, the others keeping their order.
pub open spec fn obj_remove(e: Seq<(Seq<char>, JsonView)>, k: Seq<char>) -> Seq<(Seq<char>, JsonView)> {
    match index_of_name(e, k) {
        Some(p) => e.remove(p),
        None => e,
    }
}

/// Member `k` set to the value given, or removed when there is none.
pub open spec fn obj_put(e: Seq<(Seq<char>, JsonView)>, k: Seq<char>, o: Option<JsonView>) -> Seq<
    (Seq<char>, JsonView),
> {
    match o {
        Some(v) => obj_set(e, k, v),
        None => obj_remove(e, k),
    }
}

pub open spec fn vmember(v: JsonView, k: Seq<char>) -> Option<JsonView> {
    match v {
        JsonView::Object(e) => value_of(e, k),
        _ => None,
    }
}

pub open spec fn vstring(o: Option<JsonView>) -> Option<Seq<char>> {
    match o {
        Some(JsonView::String(s)) => Some(s),
        _ => None,
    }
}

// ---------------------------------------------------------------------------
// Replacing facts

/// An object's members with its facts replaced: browser support, Baseline
/// and (non-empty) advice written from `f`, each removed where `f` has none.
pub open spec fn facts_members(e: Seq<(Seq<char>, JsonView)>, f: Option<FactsView>) -> Seq<(Seq<char>, JsonView)> {
    let support = match f {
        Some(x) => match x.browser_support {
            Some(s) => Some(support_json(s)),
            None => None,
        },
        None => None,
    };
    let baseline = match f {
        Some(x) => match x.baseline {
            Some(b) => Some(baseline_json(b)),
            None => None,
        },
        None => None,
    };
    let discouraged = match f {
        Some(x) => if x.discouraged.len() > 0 {
            Some(discs_json(x.discouraged))
        } else {
            None
        },
        None => None,
    };
    obj_put(obj_put(obj_put(e, "browser_support"@, support), "baseline"@, baseline), "discouraged"@, discouraged)
}

/// A record with its facts replaced; `None` when it is not an object.
pub open spec fn replaced(v: JsonView, f: Option<FactsView>) -> Option<JsonView> {
    match v {
        JsonView::Object(e) => Some(JsonView::Object(facts_members(e, f))),
        _ => None,
    }
}

pub open spec fn replaced_or_err(v: JsonView, f: Option<FactsView>) -> Result<JsonView, Seq<char>> {
    match replaced(v, f) {
        Some(x) => Ok(x),
        None => Err("catalog fact must be an object"@),
    }
}

/// Each item refreshed in turn; the first failure stops the refresh.
pub open spec fn refresh_items(items: Seq<JsonView>, step: spec_fn(JsonView) -> Result<JsonView, Seq<char>>) -> Result<
    Seq<JsonView>,
    Seq<char>,
>
    decreases items.len(),
{
    if items.len() == 0 {
        Ok(Seq::empty())
    } else {
        match refresh_items(items.drop_last(), step) {
            Err(m) => Err(m),
            Ok(prev) => match step(items.last()) {
                Ok(x) => Ok(prev.push(x)),
                Err(m) => Err(m),
            },
        }
    }
}

/// An element record refreshed from the facts of the element it names.
pub open spec fn element_refreshed(item: JsonView, cat: CollectView) -> Result<JsonView, Seq<char>> {
    match vstring(vmember(item, "name"@)) {
        None => Err("missing string field: name"@),
        Some(name) => replaced_or_err(item, value_of(cat.elements, name)),
    }
}

/// An element-local context of attribute `a`, refreshed from the facts of
/// the element it names.
pub open spec fn context_refreshed(ctx: JsonView, a: Option<AttrView>) -> Result<JsonView, Seq<char>> {
    let facts = match a {
        Some(av) => match vstring(vmember(ctx, "element"@)) {
            Some(e) => value_of(av.elements, e),
            None => None,
        },
        None => None,
    };
    replaced_or_err(ctx, facts)
}

pub open spec fn context_step(a: Option<AttrView>) -> spec_fn(JsonView) -> Result<JsonView, Seq<char>> {
    |c: JsonView| context_refreshed(c, a)
}

/// An attribute record refreshed from its common facts, and each of its
/// element-local contexts from that element's facts.
pub open spec fn attribute_refreshed(item: JsonView, cat: CollectView) -> Result<JsonView, Seq<char>> {
    match vstring(vmember(item, "name"@)) {
        None => Err("missing string field: name"@),
        Some(name) => {
            let a = value_of(cat.attributes, name);
            let common = match a {
                Some(av) => common_view(av),
                None => None,
            };
            match replaced(item, common) {
                Some(JsonView::Object(e)) => match value_of(e, "element_compat"@) {
                    Some(JsonView::Array(ctxs)) => match refresh_items(ctxs, context_step(a)) {
                        Ok(nc) => Ok(JsonView::Object(obj_set(e, "element_compat"@, JsonView::Array(nc)))),
                        Err(m) => Err(m),
                    },
                    _ => Ok(JsonView::Object(e)),
                },
                _ => Err("catalog fact must be an object"@),
            }
        },
    }
}

/// The facts of the first record kept aside under compatibility key `k`.
pub open spec fn unmodeled_facts(subs: Seq<SubView>, k: Seq<char>) -> Option<FactsView>
    decreases subs.len(),
{
    if subs.len() == 0 {
        None
    } else if subs[0].compat_key == k {
        Some(subs[0].facts)
    } else {
        unmodeled_facts(subs.drop_first(), k)
    }
}

/// A record kept aside, refreshed from the facts recorded under its key.
pub open spec fn feature_refreshed(item: JsonView, cat: CollectView) -> Result<JsonView, Seq<char>> {
    match vstring(vmember(item, "compat_key"@)) {
        None => Err("missing string field: compat_key"@),
        Some(k) => replaced_or_err(item, unmodeled_facts(cat.unmodeled, k)),
    }
}

/// A document with its `schema_version` set: a null document becomes an
/// object holding only that member.
pub open spec fn with_schema(v: JsonView, n: u64) -> JsonView {
    match v {
        JsonView::Object(e) => JsonView::Object(obj_set(e, "schema_version"@, JsonView::Number(decimal(n as nat)))),
        _ => JsonView::Object(seq![("schema_version"@, JsonView::Number(decimal(n as nat)))]),
    }
}

/// The core document with its element and attribute records refreshed.
pub open spec fn core_refreshed(core: JsonView, cat: CollectView) -> Result<Seq<(Seq<char>, JsonView)>, Seq<char>> {
    match core {
        JsonView::Object(ce) => match value_of(ce, "elements"@) {
            Some(JsonView::Array(els)) => match refresh_items(els, |x: JsonView| element_refreshed(x, cat)) {
                Err(m) => Err(m),
                Ok(new_els) => {
                    let ce1 = obj_set(ce, "elements"@, JsonView::Array(new_els));
                    match value_of(ce1, "attributes"@) {
                        Some(JsonView::Array(ats)) => match refresh_items(
                            ats,
                            |x: JsonView| attribute_refreshed(x, cat),
                        ) {
                            Err(m) => Err(m),
                            Ok(new_ats) => Ok(obj_set(ce1, "attributes"@, JsonView::Array(new_ats))),
                        },
                        _ => Err("catalog attributes must be an array"@),
                    }
                },
            },
            _ => Err("catalog elements must be an array"@),
        },
        _ => Err("catalog elements must be an array"@),
    }
}

/// The provenance document with its records kept aside refreshed.
pub open spec fn provenance_refreshed(prov: JsonView, cat: CollectView) -> Result<JsonView, Seq<char>> {
    match prov {
        JsonView::Object(pe) => match value_of(pe, "unmodeled_features"@) {
            Some(JsonView::Array(fs)) => match refresh_items(fs, |x: JsonView| feature_refreshed(x, cat)) {
                Err(m) => Err(m),
                Ok(nf) => Ok(JsonView::Object(obj_set(pe, "unmodeled_features"@, JsonView::Array(nf)))),
            },
            _ => Ok(prov),
        },
        _ => Ok(prov),
    }
}

/// Both documents refreshed and stamped with `schema_version`, or the first
/// failure.
pub open spec fn documents_refreshed(core: JsonView, prov: JsonView, cat: CollectView, n: u64) -> Result<
    (JsonView, JsonView),
    Seq<char>,
> {
    match core_refreshed(core, cat) {
        Err(m) => Err(m),
        Ok(ce) => match provenance_refreshed(prov, cat) {
            Err(m) => Err(m),
            Ok(p) => Ok((with_schema(JsonView::Object(ce), n), with_schema(p, n))),
        },
    }
}

// ---------------------------------------------------------------------------
// Proofs

proof fn lemma_refresh_prefix(items: Seq<JsonView>, step: spec_fn(JsonView) -> Result<JsonView, Seq<char>>, j: int)
    requires
        0 <= j < items.len(),
    ensures
        refresh_items(items.take(j + 1), step) == match refresh_items(items.take(j), step) {
            Err(m) => Err(m),
            Ok(prev) => match step(items[j]) {
                Ok(x) => Ok(prev.push(x)),
                Err(m) => Err(m),
            },
        },
{
    assert(items.take(j + 1).drop_last() =~= items.take(j));
    assert(items.take(j + 1).last() == items[j]);
}

proof fn lemma_refresh_err(items: Seq<JsonView>, step: spec_fn(JsonView) -> Result<JsonView, Seq<char>>, j: int, k: int)
    requires
        0 <= j <= k <= items.len(),
        refresh_items(items.take(j), step) is Err,
    ensures
        refresh_items(items.take(k), step) == refresh_items(items.take(j), step),
    decreases k - j,
{
    if k > j {
        lemma_refresh_err(items, step, j, k - 1);
        lemma_refresh_prefix(items, step, k - 1);
    }
}

proof fn lemma_member_first(entries: Seq<(String, JsonValue)>, k: Seq<char>)
    ensures
        match crate::json::member_of(entries, k) {
            Some(m) => value_of(mv(entries), k) == Some(json_view(m)),
            None => value_of(mv(entries), k) is None,
        },
    decreases entries.len(),
{
    if entries.len() > 0 {
        lemma_member_first(entries.drop_first(), k);
        assert(mv(entries).drop_first() =~= mv(entries.drop_first()));
    }
}

// ---------------------------------------------------------------------------
// Writing

fn member_index(entries: &Vec<(String, JsonValue)>, k: &str) -> (r: Option<usize>)
    ensures
        match index_of_name(mv(entries@), k@) {
            Some(p) => r matches Some(i) && i as int == p,
            None => r is None,
        },
{
    let r = find_name::<JsonValue, JsonView>(entries, k, Ghost(|v: JsonValue| json_view(v)));
    assert(entries_view(entries@, |v: JsonValue| json_view(v)) =~= mv(entries@));
    r
}

/// Member `k` set to `o`, or removed when `o` is `None`.
fn put_member(entries: &mut Vec<(String, JsonValue)>, k: &str, o: Option<JsonValue>)
    ensures
        mv(final(entries)@) == obj_put(
            mv(old(entries)@),
            k@,
            match o {
                Some(v) => Some(json_view(v)),
                None => None,
            },
        ),
{
    let ghost e0 = mv(entries@);
    proof {
        lemma_index_of_name(e0, k@);
    }
    let idx = member_index(entries, k);
    match o {
        Some(v) => {
            let ghost jv = json_view(v);
            match idx {
                Some(i) => {
                    entries.set(i, (k.to_owned(), v));
                    assert(mv(entries@) =~= e0.update(i as int, (k@, jv)));
                },
                None => {
                    entries.push((k.to_owned(), v));
                    assert(mv(entries@) =~= e0.push((k@, jv)));
                },
            }
        },
        None => match idx {
            Some(i) => {
                entries.remove(i);
                assert(mv(entries@) =~= e0.remove(i as int));
            },
            None => {},
        },
    }
}

pub open spec fn opt_facts(f: Option<&CatalogCompatFacts>) -> Option<FactsView> {
    match f {
        Some(x) => Some(facts_view(*x)),
        None => None,
    }
}

fn put_facts(entries: &mut Vec<(String, JsonValue)>, facts: Option<&CatalogCompatFacts>)
    ensures
        mv(final(entries)@) == facts_members(mv(old(entries)@), opt_facts(facts)),
{
    let support = match facts {
        Some(f) => match &f.browser_support {
            Some(s) => Some(support_value(s)),
            None => None,
        },
        None => None,
    };
    put_member(entries, "browser_support", support);
    let baseline = match facts {
        Some(f) => match &f.baseline {
            Some(b) => Some(baseline_value(b)),
            None => None,
        },
        None => None,
    };
    put_member(entries, "baseline", baseline);
    let discouraged = match facts {
        Some(f) => if f.discouraged.len() > 0 {
            Some(discouraged_value(&f.discouraged))
        } else {
            None
        },
        None => None,
    };
    put_member(entries, "discouraged", discouraged);
}

/// A record with its facts replaced.
fn replace_facts(value: JsonValue, facts: Option<&CatalogCompatFacts>) -> (r: Result<JsonValue, RegenError>)
    ensures
        match replaced_or_err(json_view(value), opt_facts(facts)) {
            Ok(x) => r matches Ok(w) && json_view(w) == x,
            Err(m) => r matches Err(e) && e.message@ == m,
        },
{
    match value {
        JsonValue::Object(entries) => {
            proof {
                lemma_object_view(entries);
            }
            let mut entries = entries;
            put_facts(&mut entries, facts);
            proof {
                lemma_object_view(entries);
            }
            Ok(JsonValue::Object(entries))
        },
        _ => Err(boxed("catalog fact must be an object")),
    }
}

/// The string member `k` of a record.
fn string_member<'a>(v: &'a JsonValue, k: &str) -> (r: Option<&'a str>)
    ensures
        match vstring(vmember(json_view(*v), k@)) {
            Some(s) => r matches Some(x) && x@ == s,
            None => r is None,
        },
{
    match v {
        JsonValue::Object(entries) => {
            proof {
                lemma_object_view(*entries);
                lemma_member_first(entries@, k@);
            }
            match v.get(k) {
                Some(JsonValue::String(s)) => Some(s.as_str()),
                _ => None,
            }
        },
        _ => None,
    }
}

fn element_facts_of<'a>(cat: &'a CompatCatalog, name: &str) -> (r: Option<&'a CatalogCompatFacts>)
    ensures
        opt_facts(r) == value_of(catalog_view(*cat).elements, name@),
{
    let ghost ev = entries_view(cat.elements@, facts_fn());
    proof {
        lemma_value_at(ev, name@);
        lemma_index_of_name(ev, name@);
    }
    match find_name::<CatalogCompatFacts, FactsView>(&cat.elements, name, Ghost(facts_fn())) {
        Some(i) => Some(&cat.elements[i].1),
        None => None,
    }
}

fn attribute_of<'a>(cat: &'a CompatCatalog, name: &str) -> (r: Option<&'a CompatAttribute>)
    ensures
        match r {
            Some(a) => Some(attr_view(*a)),
            None => None,
        } == value_of(catalog_view(*cat).attributes, name@),
{
    let ghost av = entries_view(cat.attributes@, attr_fn());
    proof {
        lemma_value_at(av, name@);
        lemma_index_of_name(av, name@);
    }
    match find_name::<CompatAttribute, AttrView>(&cat.attributes, name, Ghost(attr_fn())) {
        Some(i) => Some(&cat.attributes[i].1),
        None => None,
    }
}

fn context_facts_of<'a>(a: &'a CompatAttribute, element: &str) -> (r: Option<&'a CatalogCompatFacts>)
    ensures
        opt_facts(r) == value_of(attr_view(*a).elements, element@),
{
    let ghost ev = entries_view(a.element_facts@, facts_fn());
    proof {
        lemma_value_at(ev, element@);
        lemma_index_of_name(ev, element@);
    }
    match find_name::<CatalogCompatFacts, FactsView>(&a.element_facts, element, Ghost(facts_fn())) {
        Some(i) => Some(&a.element_facts[i].1),
        None => None,
    }
}

fn unmodeled_facts_of<'a>(cat: &'a CompatCatalog, key: &str) -> (r: Option<&'a CatalogCompatFacts>)
    ensures
        opt_facts(r) == unmodeled_facts(catalog_view(*cat).unmodeled, key@),
{
    let subs = &cat.provenance.unmodeled_features;
    let ghost sv = sub_views(subs@);
    let mut i: usize = 0;
    assert(sv.skip(0) =~= sv);
    while i < subs.len()
        invariant
            i <= subs@.len(),
            sv == sub_views(subs@),
            sv == catalog_view(*cat).unmodeled,
            unmodeled_facts(sv, key@) == unmodeled_facts(sv.skip(i as int), key@),
        decreases subs@.len() - i,
    {
        assert(sv.skip(i as int)[0] == sv[i as int]);
        assert(sv.skip(i as int).drop_first() =~= sv.skip(i + 1));
        if str_eq(subs[i].compat_key.as_str(), key) {
            return Some(&subs[i].facts);
        }
        i = i + 1;
    }
    None
}

fn refresh_element(item: JsonValue, cat: &CompatCatalog) -> (r: Result<JsonValue, RegenError>)
    ensures
        match element_refreshed(json_view(item), catalog_view(*cat)) {
            Ok(x) => r matches Ok(w) && json_view(w) == x,
            Err(m) => r matches Err(e) && e.message@ == m,
        },
{
    let facts = match string_member(&item, "name") {
        Some(name) => element_facts_of(cat, name),
        None => return Err(boxed("missing string field: name")),
    };
    replace_facts(item, facts)
}

fn refresh_context(item: JsonValue, a: Option<&CompatAttribute>) -> (r: Result<JsonValue, RegenError>)
    ensures
        match context_refreshed(
            json_view(item),
            match a {
                Some(x) => Some(attr_view(*x)),
                None => None,
            },
        ) {
            Ok(x) => r matches Ok(w) && json_view(w) == x,
            Err(m) => r matches Err(e) && e.message@ == m,
        },
{
    let facts = match a {
        Some(attr) => match string_member(&item, "element") {
            Some(e) => context_facts_of(attr, e),
            None => None,
        },
        None => None,
    };
    replace_facts(item, facts)
}

fn refresh_contexts(items: Vec<JsonValue>, a: Option<&CompatAttribute>) -> (r: Result<Vec<JsonValue>, RegenError>)
    ensures
        match refresh_items(
            iv(items@),
            context_step(
                match a {
                    Some(x) => Some(attr_view(*x)),
                    None => None,
                },
            ),
        ) {
            Ok(s) => r matches Ok(v) && iv(v@) == s,
            Err(m) => r matches Err(e) && e.message@ == m,
        },
{
    let ghost av = match a {
        Some(x) => Some(attr_view(*x)),
        None => None,
    };
    let ghost step = context_step(av);
    let ghost s = iv(items@);
    let mut rest = items;
    let mut out: Vec<JsonValue> = Vec::new();
    let n = rest.len();
    let mut k: usize = 0;
    assert(s.take(0) =~= Seq::<JsonView>::empty());
    assert(iv(out@) =~= Seq::<JsonView>::empty());
    while k < n
        invariant
            k <= n,
            n == s.len(),
            s == iv(items@),
            rest@.len() == n - k,
            iv(rest@) == s.skip(k as int),
            av == match a {
                Some(x) => Some(attr_view(*x)),
                None => None,
            },
            step == context_step(av),
            refresh_items(s.take(k as int), step) == Ok::<Seq<JsonView>, Seq<char>>(iv(out@)),
        decreases n - k,
    {
        let ghost before = rest@;
        let x = rest.remove(0);
        proof {
            assert(json_view(x) == iv(before)[0]);
            assert(s.skip(k as int)[0] == s[k as int]);
            assert(iv(rest@) =~= iv(before).drop_first());
            assert(s.skip(k as int).drop_first() =~= s.skip(k + 1));
            lemma_refresh_prefix(s, step, k as int);
        }
        let one = refresh_context(x, a);
        assert(step(s[k as int]) == context_refreshed(json_view(x), av));
        match one {
            Ok(w) => {
                let ghost o = out@;
                out.push(w);
                assert(iv(out@) =~= iv(o).push(json_view(w)));
            },
            Err(e) => {
                proof {
                    assert(step(s[k as int]) == Err::<JsonView, Seq<char>>(e.message@));
                    assert(refresh_items(s.take(k + 1), step) == Err::<Seq<JsonView>, Seq<char>>(e.message@));
                    lemma_refresh_err(s, step, k + 1, n as int);
                    assert(s.take(n as int) =~= s);
                }
                return Err(e);
            },
        }
        k = k + 1;
    }
    assert(s.take(n as int) =~= s);
    Ok(out)
}

fn refresh_attribute(item: JsonValue, cat: &CompatCatalog) -> (r: Result<JsonValue, RegenError>)
    ensures
        match attribute_refreshed(json_view(item), catalog_view(*cat)) {
            Ok(x) => r matches Ok(w) && json_view(w) == x,
            Err(m) => r matches Err(e) && e.message@ == m,
        },
{
    let attr = match string_member(&item, "name") {
        Some(name) => attribute_of(cat, name),
        None => return Err(boxed("missing string field: name")),
    };
    let common = match attr {
        Some(a) => a.common_facts(),
        None => None,
    };
    let replaced = replace_facts(item, common);
    let value = match replaced {
        Ok(v) => v,
        Err(e) => return Err(e),
    };
    let mut entries = match value {
        JsonValue::Object(entries) => entries,
        _ => return Err(boxed("catalog fact must be an object")),
    };
    proof {
        lemma_object_view(entries);
    }
    let ghost e0 = mv(entries@);
    proof {
        lemma_value_at(e0, "element_compat"@);
        lemma_index_of_name(e0, "element_compat"@);
    }
    match member_index(&entries, "element_compat") {
        Some(i) => {
            if let JsonValue::Array(_) = &entries[i].1 {
                let (name, v) = entries.remove(i);
                let ctxs = match v {
                    JsonValue::Array(ctxs) => ctxs,
                    _ => Vec::new(),
                };
                proof {
                    lemma_array_view(ctxs);
                }
                match refresh_contexts(ctxs, attr) {
                    Ok(nc) => {
                        proof {
                            lemma_array_view(nc);
                        }
                        let ghost nv = json_view(JsonValue::Array(nc));
                        entries.insert(i, (name, JsonValue::Array(nc)));
                        assert(mv(entries@) =~= e0.update(i as int, ("element_compat"@, nv)));
                    },
                    Err(e) => return Err(e),
                }
            }
        },
        None => {},
    }
    proof {
        lemma_object_view(entries);
    }
    Ok(JsonValue::Object(entries))
}

fn refresh_feature(item: JsonValue, cat: &CompatCatalog) -> (r: Result<JsonValue, RegenError>)
    ensures
        match feature_refreshed(json_view(item), catalog_view(*cat)) {
            Ok(x) => r matches Ok(w) && json_view(w) == x,
            Err(m) => r matches Err(e) && e.message@ == m,
        },
{
    let facts = match string_member(&item, "compat_key") {
        Some(k) => unmodeled_facts_of(cat, k),
        None => return Err(boxed("missing string field: compat_key")),
    };
    replace_facts(item, facts)
}

/// Which kind of record a list holds.
enum RecordKind {
    Element,
    Attribute,
    Feature,
}

spec fn kind_step(kind: RecordKind, cat: CollectView) -> spec_fn(JsonView) -> Result<JsonView, Seq<char>> {
    match kind {
        RecordKind::Element => |x: JsonView| element_refreshed(x, cat),
        RecordKind::Attribute => |x: JsonView| attribute_refreshed(x, cat),
        RecordKind::Feature => |x: JsonView| feature_refreshed(x, cat),
    }
}

fn refresh_records(items: Vec<JsonValue>, kind: RecordKind, cat: &CompatCatalog) -> (r: Result<Vec<JsonValue>, RegenError>)
    ensures
        match refresh_items(iv(items@), kind_step(kind, catalog_view(*cat))) {
            Ok(s) => r matches Ok(v) && iv(v@) == s,
            Err(m) => r matches Err(e) && e.message@ == m,
        },
{
    let ghost step = kind_step(kind, catalog_view(*cat));
    let ghost s = iv(items@);
    let mut rest = items;
    let mut out: Vec<JsonValue> = Vec::new();
    let n = rest.len();
    let mut k: usize = 0;
    assert(s.take(0) =~= Seq::<JsonView>::empty());
    assert(iv(out@) =~= Seq::<JsonView>::empty());
    while k < n
        invariant
            k <= n,
            n == s.len(),
            s == iv(items@),
            rest@.len() == n - k,
            iv(rest@) == s.skip(k as int),
            step == kind_step(kind, catalog_view(*cat)),
            refresh_items(s.take(k as int), step) == Ok::<Seq<JsonView>, Seq<char>>(iv(out@)),
        decreases n - k,
    {
        let ghost before = rest@;
        let x = rest.remove(0);
        proof {
            assert(json_view(x) == iv(before)[0]);
            assert(s.skip(k as int)[0] == s[k as int]);
            assert(iv(rest@) =~= iv(before).drop_first());
            assert(s.skip(k as int).drop_first() =~= s.skip(k + 1));
            lemma_refresh_prefix(s, step, k as int);
        }
        let one = match kind {
            RecordKind::Element => refresh_element(x, cat),
            RecordKind::Attribute => refresh_attribute(x, cat),
            RecordKind::Feature => refresh_feature(x, cat),
        };
        proof {
            match kind {
                RecordKind::Element => assert(step(s[k as int]) == element_refreshed(json_view(x), catalog_view(*cat))),
                RecordKind::Attribute => assert(step(s[k as int]) == attribute_refreshed(json_view(x), catalog_view(*cat))),
                RecordKind::Feature => assert(step(s[k as int]) == feature_refreshed(json_view(x), catalog_view(*cat))),
            }
        }
        proof {
            match kind {
                RecordKind::Element => assert(step(s[k as int]) == element_refreshed(json_view(x), catalog_view(*cat))),
                RecordKind::Attribute => assert(step(s[k as int]) == attribute_refreshed(json_view(x), catalog_view(*cat))),
                RecordKind::Feature => assert(step(s[k as int]) == feature_refreshed(json_view(x), catalog_view(*cat))),
            }
        }
        match one {
            Ok(w) => {
                let ghost o = out@;
                out.push(w);
                assert(iv(out@) =~= iv(o).push(json_view(w)));
            },
            Err(e) => {
                proof {
                    assert(step(s[k as int]) == Err::<JsonView, Seq<char>>(e.message@));
                    assert(refresh_items(s.take(k + 1), step) == Err::<Seq<JsonView>, Seq<char>>(e.message@));
                    lemma_refresh_err(s, step, k + 1, n as int);
                    assert(s.take(n as int) =~= s);
                }
                return Err(e);
            },
        }
        k = k + 1;
    }
    assert(s.take(n as int) =~= s);
    Ok(out)
}

/// The array member `k` refreshed as records of `kind`; `Ok(false)` when
/// the member is not an array, the object then unchanged.
fn refresh_member(entries: &mut Vec<(String, JsonValue)>, k: &str, kind: RecordKind, cat: &CompatCatalog) -> (r: Result<
    bool,
    RegenError,
>)
    ensures
        match value_of(mv(old(entries)@), k@) {
            Some(JsonView::Array(items)) => match refresh_items(items, kind_step(kind, catalog_view(*cat))) {
                Ok(s) => r == Ok::<bool, RegenError>(true) && mv(final(entries)@) == obj_set(
                    mv(old(entries)@),
                    k@,
                    JsonView::Array(s),
                ),
                Err(m) => r matches Err(e) && e.message@ == m,
            },
            _ => r == Ok::<bool, RegenError>(false) && final(entries)@ == old(entries)@,
        },
{
    let ghost e0 = mv(entries@);
    proof {
        lemma_value_at(e0, k@);
        lemma_index_of_name(e0, k@);
    }
    let i = match member_index(entries, k) {
        Some(i) => i,
        None => return Ok(false),
    };
    if let JsonValue::Array(_) = &entries[i].1 {
    } else {
        return Ok(false);
    }
    let (name, v) = entries.remove(i);
    let items = match v {
        JsonValue::Array(items) => items,
        _ => Vec::new(),
    };
    proof {
        lemma_array_view(items);
    }
    match refresh_records(items, kind, cat) {
        Ok(ni) => {
            proof {
                lemma_array_view(ni);
            }
            let ghost nv = json_view(JsonValue::Array(ni));
            entries.insert(i, (name, JsonValue::Array(ni)));
            assert(mv(entries@) =~= e0.update(i as int, (k@, nv)));
            Ok(true)
        },
        Err(e) => Err(e),
    }
}

fn set_schema(v: &mut JsonValue, n: u64)
    requires
        *old(v) is Object || *old(v) is Null,
    ensures
        json_view(*final(v)) == with_schema(json_view(*old(v)), n),
{
    let mut doc = JsonValue::Null;
    std::mem::swap(&mut doc, v);
    let mut entries = match doc {
        JsonValue::Object(entries) => entries,
        _ => Vec::new(),
    };
    proof {
        lemma_object_view(entries);
    }
    let ghost e0 = mv(entries@);
    put_member(&mut entries, "schema_version", Some(JsonValue::Number(decimal_string(n))));
    assert(e0.len() == 0 ==> obj_set(e0, "schema_version"@, JsonView::Number(decimal(n as nat))) =~= seq![
        ("schema_version"@, JsonView::Number(decimal(n as nat))),
    ]);
    proof {
        lemma_object_view(entries);
    }
    *v = JsonValue::Object(entries);
}

/// Refresh the compat facts of the catalog's core and provenance documents
/// from `facts`, and set both documents' `schema_version` to
/// `schema_version`. Each element record takes the facts of the element it
/// names; each attribute record its attribute's common facts, and each of
/// its `element_compat` contexts the facts of the element that context
/// names; each record kept aside the facts recorded under its compatibility
/// key. Every other member stays as it was.
pub fn refresh_documents(
    core: &mut JsonValue,
    provenance: &mut JsonValue,
    facts: &CompatCatalog,
    schema_version: u64,
) -> (r: Result<(), RegenError>)
    requires
        *old(core) is Object || *old(core) is Null,
        *old(provenance) is Object || *old(provenance) is Null,
    ensures
        match documents_refreshed(json_view(*old(core)), json_view(*old(provenance)), catalog_view(*facts), schema_version) {
            Ok((c, p)) => r is Ok && json_view(*final(core)) == c && json_view(*final(provenance)) == p,
            Err(m) => r matches Err(e) && e.message@ == m,
        },
{
    let ghost cat = catalog_view(*facts);
    let ghost c0 = json_view(*core);
    let ghost p0 = json_view(*provenance);
    let mut doc = JsonValue::Null;
    std::mem::swap(&mut doc, core);
    let mut entries = match doc {
        JsonValue::Object(entries) => entries,
        _ => return Err(boxed("catalog elements must be an array")),
    };
    proof {
        lemma_object_view(entries);
    }
    match refresh_member(&mut entries, "elements", RecordKind::Element, facts) {
        Ok(true) => {},
        Ok(false) => return Err(boxed("catalog elements must be an array")),
        Err(e) => return Err(e),
    }
    match refresh_member(&mut entries, "attributes", RecordKind::Attribute, facts) {
        Ok(true) => {},
        Ok(false) => return Err(boxed("catalog attributes must be an array")),
        Err(e) => return Err(e),
    }
    assert(core_refreshed(c0, cat) == Ok::<Seq<(Seq<char>, JsonView)>, Seq<char>>(mv(entries@)));
    let mut pdoc = JsonValue::Null;
    std::mem::swap(&mut pdoc, provenance);
    let ghost pv = json_view(pdoc);
    let pdoc = match pdoc {
        JsonValue::Object(pentries) => {
            proof {
                lemma_object_view(pentries);
            }
            let mut pentries = pentries;
            match refresh_member(&mut pentries, "unmodeled_features", RecordKind::Feature, facts) {
                Ok(_) => {},
                Err(e) => return Err(e),
            }
            proof {
                lemma_object_view(pentries);
            }
            JsonValue::Object(pentries)
        },
        other => other,
    };
    assert(provenance_refreshed(pv, cat) == Ok::<JsonView, Seq<char>>(json_view(pdoc)));
    *provenance = pdoc;
    set_schema(provenance, schema_version);
    proof {
        lemma_object_view(entries);
    }
    *core = JsonValue::Object(entries);
    set_schema(core, schema_version);
    Ok(())
}


pub open spec fn opt_vmember(v: Option<JsonView>, k: Seq<char>) -> Option<JsonView> {
    match v {
        Some(x) => vmember(x, k),
        None => None,
    }
}

/// The package a provenance record names: its `name`, `version` and `url`
/// strings, or the first that is missing.
pub open spec fn source_of(v: Option<JsonView>) -> Result<(Seq<char>, Seq<char>, Seq<char>), Seq<char>> {
    match vstring(opt_vmember(v, "name"@)) {
        None => Err("missing string field: name"@),
        Some(n) => match vstring(opt_vmember(v, "version"@)) {
            None => Err("missing string field: version"@),
            Some(ver) => match vstring(opt_vmember(v, "url"@)) {
                None => Err("missing string field: url"@),
                Some(u) => Ok((n, ver, u)),
            },
        },
    }
}

/// The package recorded under `key` in the provenance document.
pub fn package_source(provenance: &JsonValue, key: &str) -> (r: Result<CatalogPackageSource, RegenError>)
    ensures
        match source_of(vmember(json_view(*provenance), key@)) {
            Ok((n, ver, u)) => r matches Ok(s) && s.name@ == n && s.version@ == ver && s.url@ == u,
            Err(m) => r matches Err(e) && e.message@ == m,
        },
{
    let record = match provenance {
        JsonValue::Object(entries) => {
            proof {
                lemma_object_view(*entries);
                lemma_member_first(entries@, key@);
            }
            provenance.get(key)
        },
        _ => None,
    };
    let record = match record {
        Some(x) => x,
        None => return Err(boxed("missing string field: name")),
    };
    let name = match string_member(record, "name") {
        Some(x) => x.to_owned(),
        None => return Err(boxed("missing string field: name")),
    };
    let version = match string_member(record, "version") {
        Some(x) => x.to_owned(),
        None => return Err(boxed("missing string field: version")),
    };
    let url = match string_member(record, "url") {
        Some(x) => x.to_owned(),
        None => return Err(boxed("missing string field: url")),
    };
    Ok(CatalogPackageSource { name, version, url })
}


proof fn lemma_value_update_other<V>(e: Seq<(Seq<char>, V)>, p: int, x: (Seq<char>, V), k: Seq<char>)
    requires
        0 <= p < e.len(),
        e[p].0 != k,
        x.0 != k,
    ensures
        value_of(e.update(p, x), k) == value_of(e, k),
    decreases p,
{
    let u = e.update(p, x);
    if p == 0 {
        assert(u.drop_first() =~= e.drop_first());
    } else {
        assert(u.drop_first() =~= e.drop_first().update(p - 1, x));
        if e[0].0 != k {
            lemma_value_update_other(e.drop_first(), p - 1, x, k);
        }
    }
}

proof fn lemma_value_remove_other<V>(e: Seq<(Seq<char>, V)>, p: int, k: Seq<char>)
    requires
        0 <= p < e.len(),
        e[p].0 != k,
    ensures
        value_of(e.remove(p), k) == value_of(e, k),
    decreases p,
{
    let r = e.remove(p);
    if p == 0 {
        assert(r =~= e.drop_first());
    } else {
        assert(r[0] == e[0]);
        assert(r.drop_first() =~= e.drop_first().remove(p - 1));
        if e[0].0 != k {
            lemma_value_remove_other(e.drop_first(), p - 1, k);
        }
    }
}

proof fn lemma_value_push_other<V>(e: Seq<(Seq<char>, V)>, x: (Seq<char>, V), k: Seq<char>)
    requires
        x.0 != k,
    ensures
        value_of(e.push(x), k) == value_of(e, k),
    decreases e.len(),
{
    let r = e.push(x);
    if e.len() == 0 {
        assert(r.drop_first() =~= Seq::<(Seq<char>, V)>::empty());
    } else {
        assert(r[0] == e[0]);
        assert(r.drop_first() =~= e.drop_first().push(x));
        if e[0].0 != k {
            lemma_value_push_other(e.drop_first(), x, k);
        }
    }
}

proof fn lemma_put_other(e: Seq<(Seq<char>, JsonView)>, name: Seq<char>, o: Option<JsonView>, k: Seq<char>)
    requires
        name != k,
    ensures
        value_of(obj_put(e, name, o), k) == value_of(e, k),
{
    lemma_index_of_name(e, name);
    match o {
        Some(v) => match index_of_name(e, name) {
            Some(p) => lemma_value_update_other(e, p, (name, v), k),
            None => lemma_value_push_other(e, (name, v), k),
        },
        None => match index_of_name(e, name) {
            Some(p) => lemma_value_remove_other(e, p, k),
            None => {},
        },
    }
}

/// Refreshing a record's facts leaves every member other than
/// `browser_support`, `baseline` and `discouraged` as it was.
pub proof fn lemma_refresh_keeps_other_members(e: Seq<(Seq<char>, JsonView)>, f: Option<FactsView>, k: Seq<char>)
    requires
        k != "browser_support"@,
        k != "baseline"@,
        k != "discouraged"@,
    ensures
        value_of(facts_members(e, f), k) == value_of(e, k),
{
    let support = match f {
        Some(x) => match x.browser_support {
            Some(s) => Some(support_json(s)),
            None => None,
        },
        None => None,
    };
    let baseline = match f {
        Some(x) => match x.baseline {
            Some(b) => Some(baseline_json(b)),
            None => None,
        },
        None => None,
    };
    let discouraged = match f {
        Some(x) => if x.discouraged.len() > 0 {
            Some(discs_json(x.discouraged))
        } else {
            None
        },
        None => None,
    };
    let e1 = obj_put(e, "browser_support"@, support);
    let e2 = obj_put(e1, "baseline"@, baseline);
    lemma_put_other(e, "browser_support"@, support, k);
    lemma_put_other(e1, "baseline"@, baseline, k);
    lemma_put_other(e2, "discouraged"@, discouraged, k);
}

} // verus!
