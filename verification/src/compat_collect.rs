//! Gathering the catalog's objective compat facts from browser-compat-data
//! and web-features: the facts of every element and attribute record, merged
//! where several records land on one catalog entry.

use vstd::prelude::*;
use crate::compat::{
    parsed_date, replaces, Baseline, BaselineDate, BaselineDiagnostic, BaselineQualifier,
    BaselineTier, BrowserFlag, BrowserSupport, BrowserVersion, Discouraged, DiscouragementScope,
    VersionAdded,
};
use crate::compat_catalog::{
    bcd_attribute_name, bcd_attribute_spec, unmodeled_feature_kind, unmodeled_kind_spec, CatalogCompatFacts,
    CatalogCompatProvenance, CatalogCompatSubfeature, CatalogCompatSubfeatureKind, CatalogPackageSource, CompatAttribute,
    CompatCatalog,
};
use crate::text::{concat, concat3};
use crate::util::{boxed, RegenError};
use crate::compat_json::{
    advice_fits, advice_list_fits, advising, baseline_fits, date_fits, extract_browser_support,
    has_baseline_facts, opt_json, resolve_baseline, resolve_baseline_status,
    resolve_discouraged, statement_view, added_view, flag_view, string_items, string_members, support_spec, support_view,
    tier_of, StatementView,
};
use crate::compat_refresh::status_flag;
use crate::html::opt_chars;
use crate::json::{as_str_spec, serialized_json, member, opt_member, JsonValue};
use crate::text::{str_eq, string_seqs};
use crate::compat::seq_lt;
use crate::keyed::{
    entries_view, find_name, index_of_name, lemma_index_of_name, lemma_put_sorted, lemma_set_sorted, lemma_value_at,
    names_sorted, put_entry, put_spec, set_value, value_of,
};

verus! {

// ---------------------------------------------------------------------------
// Views

pub struct DateView {
    pub raw: Seq<char>,
    pub date: Option<Seq<char>>,
    pub qualifier: Option<BaselineQualifier>,
}

pub open spec fn date_view(d: BaselineDate) -> DateView {
    DateView { raw: d.raw@, date: opt_chars(d.date), qualifier: d.qualifier }
}

pub open spec fn opt_date_view(d: Option<BaselineDate>) -> Option<DateView> {
    match d {
        Some(x) => Some(date_view(x)),
        None => None,
    }
}

/// A date field as recorded: a string parsed as a date, any other value kept
/// as its JSON text with no date.
pub open spec fn date_view_of(v: Option<JsonValue>) -> Option<DateView> {
    match v {
        None => None,
        Some(JsonValue::String(s)) => Some(DateView { raw: s@, date: parsed_date(s@).0, qualifier: parsed_date(s@).1 }),
        Some(other) => Some(DateView { raw: serialized_json(other), date: None, qualifier: None }),
    }
}

pub struct BaselineView {
    pub status: Option<BaselineTier>,
    pub raw_status: Option<Seq<char>>,
    pub diagnostic: Option<BaselineDiagnostic>,
    pub low: Option<DateView>,
    pub high: Option<DateView>,
    pub support: Option<Seq<(Seq<char>, Seq<char>)>>,
}

pub open spec fn baseline_view(b: Baseline) -> BaselineView {
    BaselineView {
        status: b.status,
        raw_status: opt_chars(b.raw_status),
        diagnostic: b.status_diagnostic,
        low: opt_date_view(b.low_date),
        high: opt_date_view(b.high_date),
        support: match b.support {
            Some(v) => Some(v@.map_values(|p: (String, String)| (p.0@, p.1@))),
            None => None,
        },
    }
}

/// The Baseline facts a status block gives.
pub open spec fn baseline_view_of(status: JsonValue) -> BaselineView {
    let raw = member(status, "baseline"@);
    BaselineView {
        status: tier_of(raw),
        raw_status: match raw {
            Some(v) => Some(serialized_json(v)),
            None => None,
        },
        diagnostic: if tier_of(raw) is Some {
            None
        } else if raw is None {
            Some(BaselineDiagnostic::Missing)
        } else {
            Some(BaselineDiagnostic::Unrecognized)
        },
        low: date_view_of(member(status, "baseline_low_date"@)),
        high: date_view_of(member(status, "baseline_high_date"@)),
        support: match member(status, "support"@) {
            Some(JsonValue::Object(entries)) => Some(string_members(entries@)),
            _ => None,
        },
    }
}

/// The Baseline web-features gives a compatibility key, when it says
/// anything about it.
pub open spec fn baseline_of(wf: Option<JsonValue>, key: Seq<char>) -> Option<BaselineView> {
    match resolve_baseline_status(wf, key) {
        Some(status) => if has_baseline_facts(status) {
            Some(baseline_view_of(status))
        } else {
            None
        },
        None => None,
    }
}

pub struct DiscView {
    pub feature_id: Seq<char>,
    pub compat_key: Seq<char>,
    pub scope: DiscouragementScope,
    pub feature_name: Option<Seq<char>>,
    pub reason: Seq<char>,
    pub reason_html: Option<Seq<char>>,
    pub according_to: Seq<Seq<char>>,
    pub alternatives: Seq<Seq<char>>,
    pub removal_date: Option<Seq<char>>,
}

pub open spec fn disc_view(d: Discouraged) -> DiscView {
    DiscView {
        feature_id: d.feature_id@,
        compat_key: d.compat_key@,
        scope: d.scope,
        feature_name: opt_chars(d.feature_name),
        reason: d.reason@,
        reason_html: opt_chars(d.reason_html),
        according_to: string_seqs(d.according_to@),
        alternatives: string_seqs(d.alternatives@),
        removal_date: opt_chars(d.removal_date),
    }
}

pub open spec fn disc_views(v: Seq<Discouraged>) -> Seq<DiscView> {
    v.map_values(|d: Discouraged| disc_view(d))
}

/// The advice feature `id` gives for `key`.
pub open spec fn advice_of(id: Seq<char>, feature: JsonValue, key: Seq<char>) -> DiscView {
    let advice = member(feature, "discouraged"@);
    DiscView {
        feature_id: id,
        compat_key: key,
        scope: DiscouragementScope::Feature,
        feature_name: as_str_spec(member(feature, "name"@)),
        reason: match opt_member(advice, "reason"@) {
            Some(JsonValue::String(s)) => s@,
            _ => Seq::empty(),
        },
        reason_html: as_str_spec(opt_member(advice, "reason_html"@)),
        according_to: string_items(opt_member(advice, "according_to"@)),
        alternatives: string_items(opt_member(advice, "alternatives"@)),
        removal_date: as_str_spec(opt_member(advice, "removal_date"@)),
    }
}

/// Every applicable feature's advice for `key`, in feature order.
pub open spec fn advice_list_of(wf: Option<JsonValue>, key: Seq<char>) -> Seq<DiscView> {
    match wf {
        Some(JsonValue::Object(entries)) => advising(entries@, key).map_values(
            |i: int| advice_of(entries@[i].0@, entries@[i].1, key),
        ),
        _ => Seq::empty(),
    }
}

pub type SupportView = Seq<(Seq<char>, Seq<StatementView>)>;

/// The objective facts of one record, as plain values.
pub struct FactsView {
    pub mdn_url: Option<Seq<char>>,
    pub deprecated: bool,
    pub experimental: bool,
    pub standard_track: Option<bool>,
    pub baseline: Option<BaselineView>,
    pub discouraged: Seq<DiscView>,
    pub browser_support: Option<SupportView>,
}

pub open spec fn facts_view(f: CatalogCompatFacts) -> FactsView {
    FactsView {
        mdn_url: opt_chars(f.mdn_url),
        deprecated: f.deprecated,
        experimental: f.experimental,
        standard_track: f.standard_track,
        baseline: match f.baseline {
            Some(b) => Some(baseline_view(b)),
            None => None,
        },
        discouraged: disc_views(f.discouraged@),
        browser_support: match f.browser_support {
            Some(s) => Some(support_view(s)),
            None => None,
        },
    }
}

/// The facts a BCD `__compat` record gives for compatibility key `key`, with
/// web-features' Baseline and advice for that key.
pub open spec fn facts_of(compat: JsonValue, wf: Option<JsonValue>, key: Seq<char>) -> FactsView {
    FactsView {
        mdn_url: as_str_spec(member(compat, "mdn_url"@)),
        deprecated: status_flag(Some(compat), "deprecated"@) == Some(true),
        experimental: status_flag(Some(compat), "experimental"@) == Some(true),
        standard_track: status_flag(Some(compat), "standard_track"@),
        baseline: baseline_of(wf, key),
        discouraged: advice_list_of(wf, key),
        browser_support: support_spec(compat),
    }
}

proof fn lemma_date_view(d: Option<BaselineDate>, v: Option<JsonValue>)
    requires
        date_fits(d, v),
    ensures
        opt_date_view(d) == date_view_of(v),
{
}

proof fn lemma_baseline_view(b: Baseline, status: JsonValue)
    requires
        baseline_fits(b, status),
    ensures
        baseline_view(b) == baseline_view_of(status),
{
    lemma_date_view(b.low_date, member(status, "baseline_low_date"@));
    lemma_date_view(b.high_date, member(status, "baseline_high_date"@));
}

proof fn lemma_advice_views(r: Seq<Discouraged>, wf: Option<JsonValue>, key: Seq<char>)
    requires
        advice_list_fits(r, wf, key),
    ensures
        disc_views(r) == advice_list_of(wf, key),
{
    if let Some(JsonValue::Object(entries)) = wf {
        let idx = advising(entries@, key);
        assert forall|k: int| 0 <= k < r.len() implies disc_views(r)[k] == advice_list_of(wf, key)[k] by {
            assert(advice_fits(r[k], entries@[idx[k]].0@, entries@[idx[k]].1, key));
        }
        assert(disc_views(r) =~= advice_list_of(wf, key));
    } else {
        assert(disc_views(r) =~= advice_list_of(wf, key));
    }
}

fn flag(compat: &JsonValue, name: &str) -> (r: Option<bool>)
    ensures
        r == status_flag(Some(*compat), name@),
{
    match compat.get("status") {
        Some(st) => match st.get(name) {
            Some(v) => v.as_bool(),
            None => None,
        },
        None => None,
    }
}

/// The objective facts of one BCD record.
pub fn facts_from_compat(compat: &JsonValue, wf: Option<&JsonValue>, compat_key: &str) -> (r:
    CatalogCompatFacts)
    ensures
        facts_view(r) == facts_of(*compat, opt_json(wf), compat_key@),
{
    let mdn_url = match compat.get("mdn_url") {
        Some(v) => match v.as_str() {
            Some(s) => Some(s.to_owned()),
            None => None,
        },
        None => None,
    };
    let baseline = resolve_baseline(wf, compat_key);
    let discouraged = resolve_discouraged(wf, compat_key);
    let browser_support = extract_browser_support(compat);
    proof {
        if let Some(status) = resolve_baseline_status(opt_json(wf), compat_key@) {
            if baseline is Some {
                lemma_baseline_view(baseline->0, status);
            }
        }
        lemma_advice_views(discouraged@, opt_json(wf), compat_key@);
    }
    CatalogCompatFacts {
        mdn_url,
        deprecated: match flag(compat, "deprecated") {
            Some(b) => b,
            None => false,
        },
        experimental: match flag(compat, "experimental") {
            Some(b) => b,
            None => false,
        },
        standard_track: flag(compat, "standard_track"),
        baseline,
        discouraged,
        browser_support,
    }
}

// ---------------------------------------------------------------------------
// Comparing records

fn same_strings(a: &Vec<String>, b: &Vec<String>) -> (r: bool)
    ensures
        r == (string_seqs(a@) == string_seqs(b@)),
{
    if a.len() != b.len() {
        assert(string_seqs(a@).len() != string_seqs(b@).len());
        return false;
    }
    let mut i: usize = 0;
    while i < a.len()
        invariant
            i <= a@.len(),
            a@.len() == b@.len(),
            forall|k: int| 0 <= k < i ==> a@[k]@ == b@[k]@,
        decreases a@.len() - i,
    {
        if !str_eq(a[i].as_str(), b[i].as_str()) {
            assert(string_seqs(a@)[i as int] != string_seqs(b@)[i as int]);
            return false;
        }
        i = i + 1;
    }
    assert(string_seqs(a@) =~= string_seqs(b@));
    true
}

fn same_opt(a: &Option<String>, b: &Option<String>) -> (r: bool)
    ensures
        r == (opt_chars(*a) == opt_chars(*b)),
{
    match (a, b) {
        (Some(x), Some(y)) => str_eq(x.as_str(), y.as_str()),
        (None, None) => true,
        _ => false,
    }
}

fn same_discouraged(a: &Discouraged, b: &Discouraged) -> (r: bool)
    ensures
        r == (disc_view(*a) == disc_view(*b)),
{
    str_eq(a.feature_id.as_str(), b.feature_id.as_str()) && str_eq(a.compat_key.as_str(), b.compat_key.as_str())
        && a.scope == b.scope && same_opt(&a.feature_name, &b.feature_name) && str_eq(
        a.reason.as_str(),
        b.reason.as_str(),
    ) && same_opt(&a.reason_html, &b.reason_html) && same_strings(&a.according_to, &b.according_to)
        && same_strings(&a.alternatives, &b.alternatives) && same_opt(&a.removal_date, &b.removal_date)
}

fn same_added(a: &Option<VersionAdded>, b: &Option<VersionAdded>) -> (r: bool)
    ensures
        r == (added_view(*a) == added_view(*b)),
{
    match (a, b) {
        (Some(VersionAdded::Version(x)), Some(VersionAdded::Version(y))) => str_eq(x.as_str(), y.as_str()),
        (Some(VersionAdded::Unsupported), Some(VersionAdded::Unsupported)) => true,
        (None, None) => true,
        _ => false,
    }
}

fn same_flags(a: &Vec<BrowserFlag>, b: &Vec<BrowserFlag>) -> (r: bool)
    ensures
        r == (a@.map_values(|f: BrowserFlag| flag_view(f)) == b@.map_values(|f: BrowserFlag| flag_view(f))),
{
    let ghost fa = a@.map_values(|f: BrowserFlag| flag_view(f));
    let ghost fb = b@.map_values(|f: BrowserFlag| flag_view(f));
    if a.len() != b.len() {
        assert(fa.len() != fb.len());
        return false;
    }
    let mut i: usize = 0;
    while i < a.len()
        invariant
            i <= a@.len(),
            a@.len() == b@.len(),
            fa == a@.map_values(|f: BrowserFlag| flag_view(f)),
            fb == b@.map_values(|f: BrowserFlag| flag_view(f)),
            forall|k: int| 0 <= k < i ==> fa[k] == fb[k],
        decreases a@.len() - i,
    {
        if !(a[i].kind == b[i].kind && str_eq(a[i].name.as_str(), b[i].name.as_str()) && same_opt(
            &a[i].value_to_set,
            &b[i].value_to_set,
        )) {
            assert(fa[i as int] != fb[i as int]);
            return false;
        }
        i = i + 1;
    }
    assert(fa =~= fb);
    true
}

fn same_statement(a: &BrowserVersion, b: &BrowserVersion) -> (r: bool)
    ensures
        r == (statement_view(*a) == statement_view(*b)),
{
    same_added(&a.version_added, &b.version_added) && same_opt(&a.version_removed, &b.version_removed)
        && same_opt(&a.version_last, &b.version_last) && same_opt(&a.prefix, &b.prefix) && same_opt(
        &a.alternative_name,
        &b.alternative_name,
    ) && same_flags(&a.flags, &b.flags) && same_strings(&a.impl_url, &b.impl_url)
        && a.partial_implementation == b.partial_implementation && same_strings(&a.notes, &b.notes)
}

// ---------------------------------------------------------------------------
// Merging records

/// `acc` followed by each of `items` it does not already hold.
pub open spec fn add_new<A>(acc: Seq<A>, items: Seq<A>) -> Seq<A>
    decreases items.len(),
{
    if items.len() == 0 {
        acc
    } else {
        let prev = add_new(acc, items.drop_last());
        if prev.contains(items.last()) {
            prev
        } else {
            prev.push(items.last())
        }
    }
}

fn add_new_discouraged(existing: &mut Vec<Discouraged>, new: Vec<Discouraged>)
    ensures
        disc_views(final(existing)@) == add_new(disc_views(old(existing)@), disc_views(new@)),
{
    let ghost e0 = disc_views(old(existing)@);
    let ghost items = disc_views(new@);
    let mut rest = new;
    let n = rest.len();
    let mut k: usize = 0;
    assert(items.take(0) =~= Seq::<DiscView>::empty());
    while k < n
        invariant
            k <= n,
            n == items.len(),
            rest@.len() == n - k,
            disc_views(rest@) == items.skip(k as int),
            disc_views(existing@) == add_new(e0, items.take(k as int)),
        decreases n - k,
    {
        let ghost old_rest = rest@;
        let d = rest.remove(0);
        assert(rest@ =~= old_rest.subrange(1, old_rest.len() as int));
        assert(disc_views(rest@) =~= disc_views(old_rest).drop_first());
        assert(items.skip(k as int).drop_first() =~= items.skip(k + 1));
        assert(disc_view(d) == items[k as int]) by {
            assert(disc_views(old_rest)[0] == items.skip(k as int)[0]);
        }
        assert(items.take(k + 1).drop_last() =~= items.take(k as int));
        assert(items.take(k + 1).last() == items[k as int]);
        let mut found = false;
        let mut j: usize = 0;
        while j < existing.len()
            invariant_except_break
                !found,
            invariant
                j <= existing@.len(),
                forall|m: int| 0 <= m < j ==> disc_views(existing@)[m] != disc_view(d),
            ensures
                found ==> j < existing@.len() && disc_views(existing@)[j as int] == disc_view(d),
                !found ==> j == existing@.len(),
            decreases existing@.len() - j,
        {
            if same_discouraged(&existing[j], &d) {
                found = true;
                break;
            }
            j = j + 1;
        }
        if found {
            assert(disc_views(existing@)[j as int] == disc_view(d));
            assert(disc_views(existing@).contains(disc_view(d)));
        } else {
            assert(!disc_views(existing@).contains(disc_view(d)));
            let ghost before = disc_views(existing@);
            existing.push(d);
            assert(disc_views(existing@) =~= before.push(disc_view(d)));
        }
        k = k + 1;
    }
    assert(items.take(n as int) =~= items);
}

pub open spec fn statement_views(v: Seq<BrowserVersion>) -> Seq<StatementView> {
    v.map_values(|b: BrowserVersion| statement_view(b))
}

fn add_new_statements(existing: &mut Vec<BrowserVersion>, new: Vec<BrowserVersion>)
    ensures
        statement_views(final(existing)@) == add_new(statement_views(old(existing)@), statement_views(new@)),
{
    let ghost e0 = statement_views(old(existing)@);
    let ghost items = statement_views(new@);
    let mut rest = new;
    let n = rest.len();
    let mut k: usize = 0;
    assert(items.take(0) =~= Seq::<StatementView>::empty());
    while k < n
        invariant
            k <= n,
            n == items.len(),
            rest@.len() == n - k,
            statement_views(rest@) == items.skip(k as int),
            statement_views(existing@) == add_new(e0, items.take(k as int)),
        decreases n - k,
    {
        let ghost old_rest = rest@;
        let d = rest.remove(0);
        assert(rest@ =~= old_rest.subrange(1, old_rest.len() as int));
        assert(statement_views(rest@) =~= statement_views(old_rest).drop_first());
        assert(items.skip(k as int).drop_first() =~= items.skip(k + 1));
        assert(statement_view(d) == items[k as int]) by {
            assert(statement_views(old_rest)[0] == items.skip(k as int)[0]);
        }
        assert(items.take(k + 1).drop_last() =~= items.take(k as int));
        assert(items.take(k + 1).last() == items[k as int]);
        let mut found = false;
        let mut j: usize = 0;
        while j < existing.len()
            invariant_except_break
                !found,
            invariant
                j <= existing@.len(),
                forall|m: int| 0 <= m < j ==> statement_views(existing@)[m] != statement_view(d),
            ensures
                found ==> j < existing@.len() && statement_views(existing@)[j as int] == statement_view(d),
                !found ==> j == existing@.len(),
            decreases existing@.len() - j,
        {
            if same_statement(&existing[j], &d) {
                found = true;
                break;
            }
            j = j + 1;
        }
        if found {
            assert(statement_views(existing@)[j as int] == statement_view(d));
            assert(statement_views(existing@).contains(statement_view(d)));
        } else {
            assert(!statement_views(existing@).contains(statement_view(d)));
            let ghost before = statement_views(existing@);
            existing.push(d);
            assert(statement_views(existing@) =~= before.push(statement_view(d)));
        }
        k = k + 1;
    }
    assert(items.take(n as int) =~= items);
}

pub open spec fn sv_of(v: Seq<(String, Vec<BrowserVersion>)>) -> SupportView {
    v.map_values(
        |e: (String, Vec<BrowserVersion>)| (e.0@, e.1@.map_values(|b: BrowserVersion| statement_view(b))),
    )
}

/// `existing` with each browser's statements from `incoming` added after
/// its own (each statement once), a browser it lacks added at the end.
pub open spec fn merge_support(existing: SupportView, incoming: SupportView) -> SupportView
    decreases incoming.len(),
{
    if incoming.len() == 0 {
        existing
    } else {
        let acc = merge_support(existing, incoming.drop_last());
        let b = incoming.last().0;
        let st = incoming.last().1;
        match index_of_name(acc, b) {
            Some(i) => acc.update(i, (b, add_new(acc[i].1, st))),
            None => acc.push((b, add_new(Seq::<StatementView>::empty(), st))),
        }
    }
}

/// Each browser listed once.
pub open spec fn ids_unique(s: SupportView) -> bool {
    forall|i: int, j: int| 0 <= i < j < s.len() ==> #[trigger] s[i].0 != #[trigger] s[j].0
}

/// Merging browser support never lists a browser twice: a browser already
/// present takes the new statements in its own entry.
pub proof fn lemma_merge_support_unique(existing: SupportView, incoming: SupportView)
    requires
        ids_unique(existing),
    ensures
        ids_unique(merge_support(existing, incoming)),
    decreases incoming.len(),
{
    if incoming.len() > 0 {
        lemma_merge_support_unique(existing, incoming.drop_last());
        let acc = merge_support(existing, incoming.drop_last());
        let b = incoming.last().0;
        lemma_index_of_name(acc, b);
        let r = merge_support(existing, incoming);
        match index_of_name(acc, b) {
            Some(p) => {
                assert forall|i: int, j: int| 0 <= i < j < r.len() implies #[trigger] r[i].0 != #[trigger] r[j].0 by {
                    assert(r[i].0 == acc[i].0);
                    assert(r[j].0 == acc[j].0);
                }
            },
            None => {
                assert forall|i: int, j: int| 0 <= i < j < r.len() implies #[trigger] r[i].0 != #[trigger] r[j].0 by {
                    assert(r[i] == acc[i]);
                    if j < acc.len() {
                        assert(r[j] == acc[j]);
                    }
                }
            },
        }
    }
}

fn find_browser(entries: &Vec<(String, Vec<BrowserVersion>)>, id: &String) -> (r: Option<usize>)
    ensures
        match index_of_name(sv_of(entries@), id@) {
            Some(p) => r matches Some(i) && i as int == p,
            None => r is None,
        },
        r matches Some(i) ==> i < entries@.len(),
{
    let ghost sv = sv_of(entries@);
    proof {
        lemma_index_of_name(sv, id@);
    }
    let mut i: usize = 0;
    while i < entries.len()
        invariant
            i <= entries@.len(),
            sv == sv_of(entries@),
            forall|m: int| 0 <= m < i ==> sv[m].0 != id@,
            match index_of_name(sv, id@) {
                Some(p) => 0 <= p < sv.len() && sv[p].0 == id@ && forall|j: int| 0 <= j < p ==> sv[j].0 != id@,
                None => forall|j: int| 0 <= j < sv.len() ==> sv[j].0 != id@,
            },
        decreases entries@.len() - i,
    {
        if str_eq(entries[i].0.as_str(), id.as_str()) {
            assert(sv[i as int].0 == id@);
            return Some(i);
        }
        i = i + 1;
    }
    None
}

fn merge_browser_support(existing: &mut Option<BrowserSupport>, incoming: BrowserSupport)
    ensures
        *final(existing) matches Some(x) && support_view(x) == merge_support(
            match *old(existing) {
                Some(o) => support_view(o),
                None => Seq::empty(),
            },
            support_view(incoming),
        ),
{
    let mut entries = match existing.take() {
        Some(o) => o.entries,
        None => Vec::new(),
    };
    let ghost e0 = sv_of(entries@);
    assert(e0 == match *old(existing) {
        Some(o) => support_view(o),
        None => Seq::<(Seq<char>, Seq<StatementView>)>::empty(),
    });
    let ghost items = support_view(incoming);
    let mut rest = incoming.entries;
    let n = rest.len();
    let mut k: usize = 0;
    assert(items.take(0) =~= Seq::<(Seq<char>, Seq<StatementView>)>::empty());
    while k < n
        invariant
            k <= n,
            n == items.len(),
            rest@.len() == n - k,
            sv_of(rest@) == items.skip(k as int),
            sv_of(entries@) == merge_support(e0, items.take(k as int)),
        decreases n - k,
    {
        let ghost old_rest = rest@;
        let (browser, statements) = rest.remove(0);
        assert(rest@ =~= old_rest.subrange(1, old_rest.len() as int));
        assert(sv_of(rest@) =~= sv_of(old_rest).drop_first());
        assert(items.skip(k as int).drop_first() =~= items.skip(k + 1));
        assert(sv_of(old_rest)[0] == items.skip(k as int)[0]);
        assert(browser@ == items[k as int].0 && statement_views(statements@) == items[k as int].1);
        assert(items.take(k + 1).drop_last() =~= items.take(k as int));
        assert(items.take(k + 1).last() == items[k as int]);
        let ghost acc = sv_of(entries@);
        match find_browser(&entries, &browser) {
            Some(i) => {
                proof {
                    lemma_index_of_name(acc, browser@);
                }
                assert(index_of_name(acc, browser@) == Some(i as int));
                assert(acc[i as int].0 == browser@);
                let ghost old_entries = entries@;
                assert(acc[i as int].0 == old_entries[i as int].0@);
                let (key, mut current) = entries.remove(i);
                assert(key@ == browser@);
                assert(statement_views(current@) == acc[i as int].1);
                add_new_statements(&mut current, statements);
                entries.insert(i, (key, current));
                assert(entries@ =~= old_entries.update(i as int, entries@[i as int]));
                assert(sv_of(entries@) =~= acc.update(
                    i as int,
                    (browser@, add_new(acc[i as int].1, items[k as int].1)),
                ));
            },
            None => {
                let mut current: Vec<BrowserVersion> = Vec::new();
                assert(statement_views(current@) =~= Seq::<StatementView>::empty());
                add_new_statements(&mut current, statements);
                entries.push((browser, current));
                assert(sv_of(entries@) =~= acc.push(
                    (items[k as int].0, add_new(Seq::<StatementView>::empty(), items[k as int].1)),
                ));
            },
        }
        k = k + 1;
    }
    assert(items.take(n as int) =~= items);
    *existing = Some(BrowserSupport { entries });
}

/// Whether `incoming` replaces `existing` when Baselines are aggregated,
/// by their views.
pub open spec fn replaces_view(existing: Option<BaselineView>, incoming: BaselineView) -> bool {
    match existing {
        None => true,
        Some(current) => rank_view(incoming) < rank_view(current) || (rank_view(incoming) == rank_view(
            current,
        ) && opt_text_gt(milestone_view(incoming), milestone_view(current))),
    }
}

pub open spec fn rank_view(b: BaselineView) -> int {
    match b.status {
        Some(BaselineTier::Limited) => 0,
        Some(BaselineTier::Newly) => 1,
        Some(BaselineTier::Widely) => 2,
        None => 3,
    }
}

pub open spec fn milestone_view(b: BaselineView) -> Option<Seq<char>> {
    match b.status {
        Some(BaselineTier::Widely) => match b.high {
            Some(d) => d.date,
            None => None,
        },
        Some(BaselineTier::Newly) => match b.low {
            Some(d) => d.date,
            None => None,
        },
        _ => None,
    }
}

pub open spec fn opt_text_gt(a: Option<Seq<char>>, b: Option<Seq<char>>) -> bool {
    match (a, b) {
        (Some(x), Some(y)) => seq_lt(y, x),
        (Some(_), None) => true,
        _ => false,
    }
}

proof fn lemma_replaces_view(existing: Option<Baseline>, incoming: Baseline)
    ensures
        replaces(existing, incoming) == replaces_view(
            match existing {
                Some(b) => Some(baseline_view(b)),
                None => None,
            },
            baseline_view(incoming),
        ),
{
}

/// Facts merged from two records of one catalog entry: the first
/// documentation link, either record's deprecation or experimental flag,
/// the first record's standards status, the more restrictive (then later)
/// Baseline, the advice of both (each once) and the browser statements of
/// both.
pub open spec fn merge_view(old: FactsView, new: FactsView) -> FactsView {
    FactsView {
        mdn_url: if old.mdn_url is None {
            new.mdn_url
        } else {
            old.mdn_url
        },
        deprecated: old.deprecated || new.deprecated,
        experimental: old.experimental || new.experimental,
        standard_track: old.standard_track,
        baseline: match new.baseline {
            None => old.baseline,
            Some(b) => if replaces_view(old.baseline, b) {
                Some(b)
            } else {
                old.baseline
            },
        },
        discouraged: add_new(old.discouraged, new.discouraged),
        browser_support: match new.browser_support {
            None => old.browser_support,
            Some(ns) => Some(
                merge_support(
                    match old.browser_support {
                        Some(o) => o,
                        None => Seq::empty(),
                    },
                    ns,
                ),
            ),
        },
    }
}

pub fn merge_compat_facts(existing: &mut CatalogCompatFacts, new: CatalogCompatFacts)
    ensures
        facts_view(*final(existing)) == merge_view(facts_view(*old(existing)), facts_view(new)),
{
    let ghost o = *existing;
    if existing.mdn_url.is_none() {
        existing.mdn_url = match &new.mdn_url {
            Some(u) => Some(u.clone()),
            None => None,
        };
    }
    existing.deprecated = existing.deprecated || new.deprecated;
    existing.experimental = existing.experimental || new.experimental;
    proof {
        if new.baseline is Some {
            lemma_replaces_view(o.baseline, new.baseline->0);
        }
    }
    crate::compat::merge_baseline(&mut existing.baseline, new.baseline);
    add_new_discouraged(&mut existing.discouraged, new.discouraged);
    if let Some(support) = new.browser_support {
        merge_browser_support(&mut existing.browser_support, support);
    }
}


// ---------------------------------------------------------------------------
// The attribute index

pub open spec fn facts_fn() -> spec_fn(CatalogCompatFacts) -> FactsView {
    |f: CatalogCompatFacts| facts_view(f)
}

pub open spec fn opt_facts_view(f: Option<CatalogCompatFacts>) -> Option<FactsView> {
    match f {
        Some(x) => Some(facts_view(x)),
        None => None,
    }
}

/// An attribute's facts as plain values: those of its global record, and
/// those of each element-local record by element name.
#[verifier::ext_equal]
pub struct AttrView {
    pub global: Option<FactsView>,
    pub elements: Seq<(Seq<char>, FactsView)>,
}

pub open spec fn attr_view(a: CompatAttribute) -> AttrView {
    AttrView { global: opt_facts_view(a.global_facts), elements: entries_view(a.element_facts@, facts_fn()) }
}

pub open spec fn attr_fn() -> spec_fn(CompatAttribute) -> AttrView {
    |a: CompatAttribute| attr_view(a)
}

/// The attribute bound to `c`, or one with no facts yet.
pub open spec fn attr_or_empty(attrs: Seq<(Seq<char>, AttrView)>, c: Seq<char>) -> AttrView {
    match value_of(attrs, c) {
        Some(a) => a,
        None => AttrView { global: None, elements: Seq::empty() },
    }
}

/// The index with the element-local record of attribute `c` on element `e`
/// taken in: its facts merged into those the element already has for `c`,
/// or bound to the element when it has none.
pub open spec fn add_element_facts(
    attrs: Seq<(Seq<char>, AttrView)>,
    c: Seq<char>,
    e: Seq<char>,
    f: FactsView,
) -> Seq<(Seq<char>, AttrView)> {
    let a = attr_or_empty(attrs, c);
    let facts = match value_of(a.elements, e) {
        Some(old) => merge_view(old, f),
        None => f,
    };
    set_value(attrs, c, AttrView { global: a.global, elements: set_value(a.elements, e, facts) })
}

/// The index with the global record of attribute `c` taken in: its facts
/// merged into the global facts `c` already has, or made its global facts.
pub open spec fn add_global_facts(attrs: Seq<(Seq<char>, AttrView)>, c: Seq<char>, f: FactsView) -> Seq<
    (Seq<char>, AttrView),
> {
    let a = attr_or_empty(attrs, c);
    set_value(
        attrs,
        c,
        AttrView {
            global: Some(
                match a.global {
                    Some(g) => merge_view(g, f),
                    None => f,
                },
            ),
            elements: a.elements,
        },
    )
}

/// Take an element-local attribute record into the attribute index.
fn merge_element_compat_attribute(
    attributes: &mut Vec<(String, CompatAttribute)>,
    canonical: String,
    element_name: &str,
    new: CatalogCompatFacts,
)
    ensures
        entries_view(final(attributes)@, attr_fn()) == add_element_facts(
            entries_view(old(attributes)@, attr_fn()),
            canonical@,
            element_name@,
            facts_view(new),
        ),
{
    let ghost av = entries_view(attributes@, attr_fn());
    let ghost nf = facts_view(new);
    proof {
        lemma_value_at(av, canonical@);
        lemma_index_of_name(av, canonical@);
    }
    match find_name::<CompatAttribute, AttrView>(attributes, canonical.as_str(), Ghost(attr_fn())) {
        None => {
            let mut element_facts: Vec<(String, CatalogCompatFacts)> = Vec::new();
            element_facts.push((element_name.to_owned(), new));
            let attr = CompatAttribute { global_facts: None, element_facts };
            proof {
                assert(index_of_name(Seq::<(Seq<char>, FactsView)>::empty(), element_name@) is None);
                assert(put_spec(Seq::<(Seq<char>, FactsView)>::empty(), element_name@, nf) =~= seq![
                    (element_name@, nf),
                ]);
                assert(attr_view(attr) =~= AttrView {
                    global: None,
                    elements: set_value(Seq::<(Seq<char>, FactsView)>::empty(), element_name@, nf),
                });
            }
            put_entry::<CompatAttribute, AttrView>(attributes, canonical, attr, Ghost(attr_fn()));
        },
        Some(i) => {
            let (name, mut attr) = attributes.remove(i);
            let ghost a0 = attr_view(attr);
            let ghost ev = entries_view(attr.element_facts@, facts_fn());
            assert(av[i as int] == (name@, a0));
            proof {
                lemma_value_at(ev, element_name@);
                lemma_index_of_name(ev, element_name@);
            }
            match find_name::<CatalogCompatFacts, FactsView>(&attr.element_facts, element_name, Ghost(facts_fn())) {
                None => {
                    put_entry::<CatalogCompatFacts, FactsView>(&mut attr.element_facts, element_name.to_owned(), new, Ghost(facts_fn()));
                },
                Some(j) => {
                    let (en, mut existing) = attr.element_facts.remove(j);
                    assert(ev[j as int] == (en@, facts_view(existing)));
                    merge_compat_facts(&mut existing, new);
                    attr.element_facts.insert(j, (en, existing));
                    assert(entries_view(attr.element_facts@, facts_fn()) =~= ev.update(
                        j as int,
                        (element_name@, merge_view(ev[j as int].1, nf)),
                    ));
                },
            }
            assert(attr_view(attr) =~= AttrView {
                global: a0.global,
                elements: set_value(
                    a0.elements,
                    element_name@,
                    match value_of(a0.elements, element_name@) {
                        Some(old) => merge_view(old, nf),
                        None => nf,
                    },
                ),
            });
            let ghost a1 = attr_view(attr);
            attributes.insert(i, (name, attr));
            assert(entries_view(attributes@, attr_fn()) =~= av.update(i as int, (canonical@, a1)));
        },
    }
}

/// Take a global attribute record into the attribute index.
fn merge_global_compat_attribute(
    attributes: &mut Vec<(String, CompatAttribute)>,
    canonical: String,
    new: CatalogCompatFacts,
)
    ensures
        entries_view(final(attributes)@, attr_fn()) == add_global_facts(
            entries_view(old(attributes)@, attr_fn()),
            canonical@,
            facts_view(new),
        ),
{
    let ghost av = entries_view(attributes@, attr_fn());
    let ghost nf = facts_view(new);
    proof {
        lemma_value_at(av, canonical@);
        lemma_index_of_name(av, canonical@);
    }
    match find_name::<CompatAttribute, AttrView>(attributes, canonical.as_str(), Ghost(attr_fn())) {
        None => {
            let attr = CompatAttribute { global_facts: Some(new), element_facts: Vec::new() };
            assert(attr_view(attr) =~= AttrView { global: Some(nf), elements: Seq::empty() });
            put_entry::<CompatAttribute, AttrView>(attributes, canonical, attr, Ghost(attr_fn()));
        },
        Some(i) => {
            let (name, mut attr) = attributes.remove(i);
            let ghost a0 = attr_view(attr);
            assert(av[i as int] == (name@, a0));
            match attr.global_facts {
                Some(mut g) => {
                    merge_compat_facts(&mut g, new);
                    attr.global_facts = Some(g);
                },
                None => {
                    attr.global_facts = Some(new);
                },
            }
            let ghost a1 = attr_view(attr);
            assert(a1 =~= AttrView {
                global: Some(
                    match a0.global {
                        Some(g) => merge_view(g, nf),
                        None => nf,
                    },
                ),
                elements: a0.elements,
            });
            attributes.insert(i, (name, attr));
            assert(entries_view(attributes@, attr_fn()) =~= av.update(i as int, (canonical@, a1)));
        },
    }
}


// ---------------------------------------------------------------------------
// Collecting the records of browser-compat-data

/// A record kept aside, as plain values.
pub struct SubView {
    pub compat_key: Seq<char>,
    pub kind: CatalogCompatSubfeatureKind,
    pub element: Seq<char>,
    pub name: Seq<char>,
    pub facts: FactsView,
}

pub open spec fn sub_view(x: CatalogCompatSubfeature) -> SubView {
    SubView { compat_key: x.compat_key@, kind: x.kind, element: x.element@, name: x.name@, facts: facts_view(x.facts) }
}

pub open spec fn sub_views(v: Seq<CatalogCompatSubfeature>) -> Seq<SubView> {
    v.map_values(|x: CatalogCompatSubfeature| sub_view(x))
}

/// What has been collected: element facts by element name, the attribute
/// index, and the records kept aside in the order met.
#[verifier::ext_equal]
pub struct CollectView {
    pub elements: Seq<(Seq<char>, FactsView)>,
    pub attributes: Seq<(Seq<char>, AttrView)>,
    pub unmodeled: Seq<SubView>,
}

pub open spec fn collect_view(
    elements: Seq<(String, CatalogCompatFacts)>,
    attributes: Seq<(String, CompatAttribute)>,
    unmodeled: Seq<CatalogCompatSubfeature>,
) -> CollectView {
    CollectView {
        elements: entries_view(elements, facts_fn()),
        attributes: entries_view(attributes, attr_fn()),
        unmodeled: sub_views(unmodeled),
    }
}

/// The compatibility key of an element record.
pub open spec fn element_key(e: Seq<char>) -> Seq<char> {
    "svg.elements."@ + e
}

/// The compatibility key of an element-local attribute record.
pub open spec fn element_attr_key(e: Seq<char>, a: Seq<char>) -> Seq<char> {
    "svg.elements."@ + e + "."@ + a
}

/// The compatibility key of a global attribute record.
pub open spec fn global_key(a: Seq<char>) -> Seq<char> {
    "svg.global_attributes."@ + a
}

/// One member `name` of element `e`'s data taken in: the element's own
/// `__compat` member and members without a `__compat` record are passed
/// over; a catalog attribute's facts go into the attribute index under its
/// catalog spelling; a key kept aside is recorded with its kind.
pub open spec fn attr_step(st: CollectView, e: Seq<char>, name: Seq<char>, data: JsonValue, wf: Option<
    JsonValue,
>) -> CollectView {
    if name == "__compat"@ {
        st
    } else {
        match member(data, "__compat"@) {
            None => st,
            Some(compat) => {
                let key = element_attr_key(e, name);
                let facts = facts_of(compat, wf, key);
                match bcd_attribute_spec(name) {
                    Some(c) => CollectView {
                        elements: st.elements,
                        attributes: add_element_facts(st.attributes, c, e, facts),
                        unmodeled: st.unmodeled,
                    },
                    None => match unmodeled_kind_spec(name) {
                        Some(kind) => CollectView {
                            elements: st.elements,
                            attributes: st.attributes,
                            unmodeled: st.unmodeled.push(
                                SubView { compat_key: key, kind, element: e, name, facts },
                            ),
                        },
                        None => st,
                    },
                }
            },
        }
    }
}

pub open spec fn attr_fold(st: CollectView, e: Seq<char>, entries: Seq<(String, JsonValue)>, wf: Option<
    JsonValue,
>) -> CollectView
    decreases entries.len(),
{
    if entries.len() == 0 {
        st
    } else {
        attr_step(attr_fold(st, e, entries.drop_last(), wf), e, entries.last().0@, entries.last().1, wf)
    }
}

/// One element's data taken in: its own record bound to its name, then
/// each of its members in order.
pub open spec fn element_step(st: CollectView, e: Seq<char>, data: JsonValue, wf: Option<JsonValue>) -> CollectView {
    let st1 = match member(data, "__compat"@) {
        Some(compat) => CollectView {
            elements: put_spec(st.elements, e, facts_of(compat, wf, element_key(e))),
            attributes: st.attributes,
            unmodeled: st.unmodeled,
        },
        None => st,
    };
    match data {
        JsonValue::Object(entries) => attr_fold(st1, e, entries@, wf),
        _ => st1,
    }
}

pub open spec fn element_fold(st: CollectView, entries: Seq<(String, JsonValue)>, wf: Option<JsonValue>) -> CollectView
    decreases entries.len(),
{
    if entries.len() == 0 {
        st
    } else {
        element_step(element_fold(st, entries.drop_last(), wf), entries.last().0@, entries.last().1, wf)
    }
}

/// One global attribute record taken into the attribute index under its
/// catalog spelling; keys kept aside and members without a record are
/// passed over.
pub open spec fn global_step(attrs: Seq<(Seq<char>, AttrView)>, name: Seq<char>, data: JsonValue, wf: Option<
    JsonValue,
>) -> Seq<(Seq<char>, AttrView)> {
    match member(data, "__compat"@) {
        None => attrs,
        Some(compat) => match bcd_attribute_spec(name) {
            None => attrs,
            Some(c) => add_global_facts(attrs, c, facts_of(compat, wf, global_key(name))),
        },
    }
}

pub open spec fn global_fold(attrs: Seq<(Seq<char>, AttrView)>, entries: Seq<(String, JsonValue)>, wf: Option<
    JsonValue,
>) -> Seq<(Seq<char>, AttrView)>
    decreases entries.len(),
{
    if entries.len() == 0 {
        attrs
    } else {
        global_step(global_fold(attrs, entries.drop_last(), wf), entries.last().0@, entries.last().1, wf)
    }
}

/// The index with every record of `/svg/global_attributes` taken in, when
/// BCD has that object.
pub open spec fn with_globals(attrs: Seq<(Seq<char>, AttrView)>, bcd: JsonValue, wf: Option<JsonValue>) -> Seq<
    (Seq<char>, AttrView),
> {
    match opt_member(member(bcd, "svg"@), "global_attributes"@) {
        Some(JsonValue::Object(entries)) => global_fold(attrs, entries@, wf),
        _ => attrs,
    }
}

/// The members of `/svg/elements`, when BCD has that object.
pub open spec fn svg_elements(bcd: JsonValue) -> Option<Seq<(String, JsonValue)>> {
    match opt_member(member(bcd, "svg"@), "elements"@) {
        Some(JsonValue::Object(entries)) => Some(entries@),
        _ => None,
    }
}

pub open spec fn empty_collection() -> CollectView {
    CollectView { elements: Seq::empty(), attributes: Seq::empty(), unmodeled: Seq::empty() }
}

/// The catalog BCD and the web-features `features` object give: every
/// element record in turn, then every global attribute record; `None` when
/// BCD has no `/svg/elements` object.
pub open spec fn catalog_of(bcd: JsonValue, wf: Option<JsonValue>) -> Option<CollectView> {
    match svg_elements(bcd) {
        None => None,
        Some(entries) => {
            let st = element_fold(empty_collection(), entries, wf);
            Some(
                CollectView {
                    elements: st.elements,
                    attributes: with_globals(st.attributes, bcd, wf),
                    unmodeled: st.unmodeled,
                },
            )
        },
    }
}

pub open spec fn catalog_view(c: CompatCatalog) -> CollectView {
    collect_view(c.elements@, c.attributes@, c.provenance.unmodeled_features@)
}

fn collect_attribute_records(
    element_name: &String,
    attribute_map: &Vec<(String, JsonValue)>,
    wf: Option<&JsonValue>,
    elements: &Vec<(String, CatalogCompatFacts)>,
    attributes: &mut Vec<(String, CompatAttribute)>,
    unmodeled: &mut Vec<CatalogCompatSubfeature>,
)
    ensures
        collect_view(elements@, final(attributes)@, final(unmodeled)@) == attr_fold(
            collect_view(elements@, old(attributes)@, old(unmodeled)@),
            element_name@,
            attribute_map@,
            opt_json(wf),
        ),
{
    let ghost st0 = collect_view(elements@, attributes@, unmodeled@);
    let ghost w = opt_json(wf);
    let ghost e = element_name@;
    let ghost entries = attribute_map@;
    let mut i: usize = 0;
    assert(entries.take(0) =~= Seq::<(String, JsonValue)>::empty());
    while i < attribute_map.len()
        invariant
            i <= entries.len(),
            entries == attribute_map@,
            w == opt_json(wf),
            e == element_name@,
            collect_view(elements@, attributes@, unmodeled@) == attr_fold(st0, e, entries.take(i as int), w),
        decreases entries.len() - i,
    {
        let ghost st = collect_view(elements@, attributes@, unmodeled@);
        let name = &attribute_map[i].0;
        let data = &attribute_map[i].1;
        proof {
            assert(entries.take(i + 1).drop_last() =~= entries.take(i as int));
            assert(entries.take(i + 1).last() == entries[i as int]);
        }
        if !str_eq(name.as_str(), "__compat") {
            if let Some(compat) = data.get("__compat") {
                let prefix = concat3("svg.elements.", element_name.as_str(), ".");
                let key = concat(prefix.as_str(), name.as_str());
                let facts = facts_from_compat(compat, wf, key.as_str());
                match bcd_attribute_name(name.as_str()) {
                    Some(canonical) => {
                        merge_element_compat_attribute(attributes, canonical, element_name.as_str(), facts);
                    },
                    None => {
                        if let Some(kind) = unmodeled_feature_kind(name.as_str()) {
                            let sub = CatalogCompatSubfeature {
                                compat_key: key,
                                kind,
                                element: element_name.clone(),
                                name: name.clone(),
                                facts,
                            };
                            let ghost before = unmodeled@;
                            unmodeled.push(sub);
                            assert(sub_views(unmodeled@) =~= sub_views(before).push(sub_view(sub)));
                        }
                    },
                }
            }
        }
        assert(collect_view(elements@, attributes@, unmodeled@) == attr_step(st, e, name@, *data, w));
        i = i + 1;
    }
    assert(entries.take(entries.len() as int) =~= entries);
}

fn collect_element_facts(
    svg_elements: &Vec<(String, JsonValue)>,
    wf: Option<&JsonValue>,
    elements: &mut Vec<(String, CatalogCompatFacts)>,
    attributes: &mut Vec<(String, CompatAttribute)>,
    unmodeled: &mut Vec<CatalogCompatSubfeature>,
)
    ensures
        collect_view(final(elements)@, final(attributes)@, final(unmodeled)@) == element_fold(
            collect_view(old(elements)@, old(attributes)@, old(unmodeled)@),
            svg_elements@,
            opt_json(wf),
        ),
{
    let ghost st0 = collect_view(elements@, attributes@, unmodeled@);
    let ghost w = opt_json(wf);
    let ghost entries = svg_elements@;
    let mut i: usize = 0;
    assert(entries.take(0) =~= Seq::<(String, JsonValue)>::empty());
    while i < svg_elements.len()
        invariant
            i <= entries.len(),
            entries == svg_elements@,
            w == opt_json(wf),
            collect_view(elements@, attributes@, unmodeled@) == element_fold(st0, entries.take(i as int), w),
        decreases entries.len() - i,
    {
        let ghost st = collect_view(elements@, attributes@, unmodeled@);
        let name = &svg_elements[i].0;
        let data = &svg_elements[i].1;
        proof {
            assert(entries.take(i + 1).drop_last() =~= entries.take(i as int));
            assert(entries.take(i + 1).last() == entries[i as int]);
        }
        if let Some(compat) = data.get("__compat") {
            let key = concat("svg.elements.", name.as_str());
            let facts = facts_from_compat(compat, wf, key.as_str());
            put_entry::<CatalogCompatFacts, FactsView>(elements, name.clone(), facts, Ghost(facts_fn()));
        }
        let ghost st1 = collect_view(elements@, attributes@, unmodeled@);
        match data {
            JsonValue::Object(map) => {
                collect_attribute_records(name, map, wf, elements, attributes, unmodeled);
            },
            _ => {},
        }
        assert(collect_view(elements@, attributes@, unmodeled@) == element_step(st, name@, *data, w));
        i = i + 1;
    }
    assert(entries.take(entries.len() as int) =~= entries);
}

fn collect_global_attribute_facts(bcd: &JsonValue, wf: Option<&JsonValue>, attributes: &mut Vec<(String, CompatAttribute)>)
    ensures
        entries_view(final(attributes)@, attr_fn()) == with_globals(
            entries_view(old(attributes)@, attr_fn()),
            *bcd,
            opt_json(wf),
        ),
{
    let globals = match bcd.get("svg") {
        Some(svg) => svg.get("global_attributes"),
        None => None,
    };
    let map = match globals {
        Some(JsonValue::Object(map)) => map,
        _ => return ,
    };
    let ghost a0 = entries_view(attributes@, attr_fn());
    let ghost w = opt_json(wf);
    let ghost entries = map@;
    let mut i: usize = 0;
    assert(entries.take(0) =~= Seq::<(String, JsonValue)>::empty());
    while i < map.len()
        invariant
            i <= entries.len(),
            entries == map@,
            w == opt_json(wf),
            entries_view(attributes@, attr_fn()) == global_fold(a0, entries.take(i as int), w),
        decreases entries.len() - i,
    {
        let name = &map[i].0;
        let data = &map[i].1;
        proof {
            assert(entries.take(i + 1).drop_last() =~= entries.take(i as int));
            assert(entries.take(i + 1).last() == entries[i as int]);
        }
        if let Some(compat) = data.get("__compat") {
            if let Some(canonical) = bcd_attribute_name(name.as_str()) {
                let key = concat("svg.global_attributes.", name.as_str());
                let facts = facts_from_compat(compat, wf, key.as_str());
                merge_global_compat_attribute(attributes, canonical, facts);
            }
        }
        i = i + 1;
    }
    assert(entries.take(entries.len() as int) =~= entries);
}

/// The compat catalog that a browser-compat-data document and a
/// web-features document give, recorded with the packages they came from.
pub fn compat_catalog_from(
    bcd: &JsonValue,
    web_features: &JsonValue,
    bcd_source: CatalogPackageSource,
    web_features_source: CatalogPackageSource,
) -> (r: Result<CompatCatalog, RegenError>)
    ensures
        match catalog_of(*bcd, member(*web_features, "features"@)) {
            Some(v) => r matches Ok(c) && catalog_view(c) == v && c.provenance.browser_compat_data
                == bcd_source && c.provenance.web_features == web_features_source,
            None => r matches Err(e) && e.message@ == "browser-compat-data missing /svg/elements object"@,
        },
{
    let svg_elements = match bcd.get("svg") {
        Some(svg) => match svg.get("elements") {
            Some(JsonValue::Object(map)) => map,
            _ => return Err(boxed("browser-compat-data missing /svg/elements object")),
        },
        None => return Err(boxed("browser-compat-data missing /svg/elements object")),
    };
    let wf = web_features.get("features");
    let mut elements: Vec<(String, CatalogCompatFacts)> = Vec::new();
    let mut attributes: Vec<(String, CompatAttribute)> = Vec::new();
    let mut unmodeled_features: Vec<CatalogCompatSubfeature> = Vec::new();
    assert(collect_view(elements@, attributes@, unmodeled_features@) =~= empty_collection());
    collect_element_facts(svg_elements, wf, &mut elements, &mut attributes, &mut unmodeled_features);
    collect_global_attribute_facts(bcd, wf, &mut attributes);
    Ok(
        CompatCatalog {
            provenance: CatalogCompatProvenance {
                browser_compat_data: bcd_source,
                web_features: web_features_source,
                unmodeled_features,
            },
            elements,
            attributes,
        },
    )
}


// ---------------------------------------------------------------------------
// Facts common to an attribute

fn same_discs(a: &Vec<Discouraged>, b: &Vec<Discouraged>) -> (r: bool)
    ensures
        r == (disc_views(a@) == disc_views(b@)),
{
    let ghost va = disc_views(a@);
    let ghost vb = disc_views(b@);
    if a.len() != b.len() {
        assert(va.len() != vb.len());
        return false;
    }
    let mut i: usize = 0;
    while i < a.len()
        invariant
            i <= a@.len(),
            a@.len() == b@.len(),
            va == disc_views(a@),
            vb == disc_views(b@),
            forall|k: int| 0 <= k < i ==> va[k] == vb[k],
        decreases a@.len() - i,
    {
        if !same_discouraged(&a[i], &b[i]) {
            assert(va[i as int] != vb[i as int]);
            return false;
        }
        i = i + 1;
    }
    assert(va =~= vb);
    true
}

fn same_statements(a: &Vec<BrowserVersion>, b: &Vec<BrowserVersion>) -> (r: bool)
    ensures
        r == (statement_views(a@) == statement_views(b@)),
{
    let ghost va = statement_views(a@);
    let ghost vb = statement_views(b@);
    if a.len() != b.len() {
        assert(va.len() != vb.len());
        return false;
    }
    let mut i: usize = 0;
    while i < a.len()
        invariant
            i <= a@.len(),
            a@.len() == b@.len(),
            va == statement_views(a@),
            vb == statement_views(b@),
            forall|k: int| 0 <= k < i ==> va[k] == vb[k],
        decreases a@.len() - i,
    {
        if !same_statement(&a[i], &b[i]) {
            assert(va[i as int] != vb[i as int]);
            return false;
        }
        i = i + 1;
    }
    assert(va =~= vb);
    true
}

fn same_support(a: &BrowserSupport, b: &BrowserSupport) -> (r: bool)
    ensures
        r == (support_view(*a) == support_view(*b)),
{
    let ghost va = support_view(*a);
    let ghost vb = support_view(*b);
    if a.entries.len() != b.entries.len() {
        assert(va.len() != vb.len());
        return false;
    }
    let mut i: usize = 0;
    while i < a.entries.len()
        invariant
            i <= a.entries@.len(),
            a.entries@.len() == b.entries@.len(),
            va == support_view(*a),
            vb == support_view(*b),
            forall|k: int| 0 <= k < i ==> va[k] == vb[k],
        decreases a.entries@.len() - i,
    {
        let same = str_eq(a.entries[i].0.as_str(), b.entries[i].0.as_str()) && same_statements(
            &a.entries[i].1,
            &b.entries[i].1,
        );
        assert(statement_views(a.entries@[i as int].1@) =~= va[i as int].1);
        assert(statement_views(b.entries@[i as int].1@) =~= vb[i as int].1);
        if !same {
            assert(va[i as int] != vb[i as int]);
            return false;
        }
        i = i + 1;
    }
    assert(va =~= vb);
    true
}

fn same_pairs(a: &Vec<(String, String)>, b: &Vec<(String, String)>) -> (r: bool)
    ensures
        r == (a@.map_values(|p: (String, String)| (p.0@, p.1@)) == b@.map_values(
            |p: (String, String)| (p.0@, p.1@),
        )),
{
    let ghost va = a@.map_values(|p: (String, String)| (p.0@, p.1@));
    let ghost vb = b@.map_values(|p: (String, String)| (p.0@, p.1@));
    if a.len() != b.len() {
        assert(va.len() != vb.len());
        return false;
    }
    let mut i: usize = 0;
    while i < a.len()
        invariant
            i <= a@.len(),
            a@.len() == b@.len(),
            va == a@.map_values(|p: (String, String)| (p.0@, p.1@)),
            vb == b@.map_values(|p: (String, String)| (p.0@, p.1@)),
            forall|k: int| 0 <= k < i ==> va[k] == vb[k],
        decreases a@.len() - i,
    {
        if !(str_eq(a[i].0.as_str(), b[i].0.as_str()) && str_eq(a[i].1.as_str(), b[i].1.as_str())) {
            assert(va[i as int] != vb[i as int]);
            return false;
        }
        i = i + 1;
    }
    assert(va =~= vb);
    true
}

fn same_date(a: &Option<BaselineDate>, b: &Option<BaselineDate>) -> (r: bool)
    ensures
        r == (opt_date_view(*a) == opt_date_view(*b)),
{
    match (a, b) {
        (Some(x), Some(y)) => str_eq(x.raw.as_str(), y.raw.as_str()) && same_opt(&x.date, &y.date) && x.qualifier
            == y.qualifier,
        (None, None) => true,
        _ => false,
    }
}

fn same_baseline(a: &Option<Baseline>, b: &Option<Baseline>) -> (r: bool)
    ensures
        r == (match *a {
            Some(x) => Some(baseline_view(x)),
            None => None,
        } == match *b {
            Some(x) => Some(baseline_view(x)),
            None => None,
        }),
{
    match (a, b) {
        (Some(x), Some(y)) => {
            let support = match (&x.support, &y.support) {
                (Some(p), Some(q)) => same_pairs(p, q),
                (None, None) => true,
                _ => false,
            };
            x.status == y.status && same_opt(&x.raw_status, &y.raw_status) && x.status_diagnostic
                == y.status_diagnostic && same_date(&x.low_date, &y.low_date) && same_date(&x.high_date, &y.high_date)
                && support
        },
        (None, None) => true,
        _ => false,
    }
}

/// Whether two records give the same facts.
fn same_facts(a: &CatalogCompatFacts, b: &CatalogCompatFacts) -> (r: bool)
    ensures
        r == (facts_view(*a) == facts_view(*b)),
{
    let support = match (&a.browser_support, &b.browser_support) {
        (Some(x), Some(y)) => same_support(x, y),
        (None, None) => true,
        _ => false,
    };
    same_opt(&a.mdn_url, &b.mdn_url) && a.deprecated == b.deprecated && a.experimental == b.experimental
        && a.standard_track == b.standard_track && same_baseline(&a.baseline, &b.baseline) && same_discs(
        &a.discouraged,
        &b.discouraged,
    ) && support
}

/// The facts safe to use for an attribute as a whole: its global facts,
/// else the facts every element-local record shares, if they all agree.
pub open spec fn common_view(a: AttrView) -> Option<FactsView> {
    match a.global {
        Some(g) => Some(g),
        None => if a.elements.len() > 0 && forall|i: int|
            0 <= i < a.elements.len() ==> #[trigger] a.elements[i].1 == a.elements[0].1 {
            Some(a.elements[0].1)
        } else {
            None
        },
    }
}

impl CompatAttribute {
    /// Facts that can be safely used for attribute-wide fallback.
    pub fn common_facts(&self) -> (r: Option<&CatalogCompatFacts>)
        ensures
            match r {
                Some(f) => Some(facts_view(*f)),
                None => None,
            } == common_view(attr_view(*self)),
    {
        if let Some(facts) = &self.global_facts {
            return Some(facts);
        }
        let ghost ev = entries_view(self.element_facts@, facts_fn());
        if self.element_facts.len() == 0 {
            return None;
        }
        let first = &self.element_facts[0].1;
        let mut i: usize = 1;
        while i < self.element_facts.len()
            invariant
                1 <= i <= self.element_facts@.len(),
                self.global_facts is None,
                ev == entries_view(self.element_facts@, facts_fn()),
                *first == self.element_facts@[0].1,
                forall|k: int| 0 <= k < i ==> #[trigger] ev[k].1 == ev[0].1,
            decreases self.element_facts@.len() - i,
        {
            if !same_facts(&self.element_facts[i].1, first) {
                assert(attr_view(*self).elements == ev);
                assert(ev[i as int].1 != ev[0].1);
                return None;
            }
            i = i + 1;
        }
        assert(attr_view(*self).elements == ev);
        Some(first)
    }
}


spec fn collect_sorted(st: CollectView) -> bool {
    names_sorted(st.elements) && names_sorted(st.attributes)
}

proof fn lemma_attr_fold_sorted(st: CollectView, e: Seq<char>, entries: Seq<(String, JsonValue)>, wf: Option<JsonValue>)
    requires
        collect_sorted(st),
    ensures
        collect_sorted(attr_fold(st, e, entries, wf)),
    decreases entries.len(),
{
    if entries.len() > 0 {
        lemma_attr_fold_sorted(st, e, entries.drop_last(), wf);
        let prev = attr_fold(st, e, entries.drop_last(), wf);
        let name = entries.last().0@;
        if let Some(c) = bcd_attribute_spec(name) {
            let a = attr_or_empty(prev.attributes, c);
            let key = element_attr_key(e, name);
            if let Some(compat) = member(entries.last().1, "__compat"@) {
                let f = facts_of(compat, wf, key);
                let facts = match value_of(a.elements, e) {
                    Some(old) => merge_view(old, f),
                    None => f,
                };
                lemma_set_sorted(prev.attributes, c, AttrView { global: a.global, elements: set_value(a.elements, e, facts) });
            }
        }
    }
}

proof fn lemma_element_fold_sorted(st: CollectView, entries: Seq<(String, JsonValue)>, wf: Option<JsonValue>)
    requires
        collect_sorted(st),
    ensures
        collect_sorted(element_fold(st, entries, wf)),
    decreases entries.len(),
{
    if entries.len() > 0 {
        lemma_element_fold_sorted(st, entries.drop_last(), wf);
        let prev = element_fold(st, entries.drop_last(), wf);
        let e = entries.last().0@;
        let data = entries.last().1;
        let st1 = match member(data, "__compat"@) {
            Some(compat) => {
                lemma_put_sorted(prev.elements, e, facts_of(compat, wf, element_key(e)));
                CollectView {
                    elements: put_spec(prev.elements, e, facts_of(compat, wf, element_key(e))),
                    attributes: prev.attributes,
                    unmodeled: prev.unmodeled,
                }
            },
            None => prev,
        };
        if let JsonValue::Object(m) = data {
            lemma_attr_fold_sorted(st1, e, m@, wf);
        }
    }
}

proof fn lemma_global_fold_sorted(attrs: Seq<(Seq<char>, AttrView)>, entries: Seq<(String, JsonValue)>, wf: Option<JsonValue>)
    requires
        names_sorted(attrs),
    ensures
        names_sorted(global_fold(attrs, entries, wf)),
    decreases entries.len(),
{
    if entries.len() > 0 {
        lemma_global_fold_sorted(attrs, entries.drop_last(), wf);
        let prev = global_fold(attrs, entries.drop_last(), wf);
        let name = entries.last().0@;
        if let Some(compat) = member(entries.last().1, "__compat"@) {
            if let Some(c) = bcd_attribute_spec(name) {
                let f = facts_of(compat, wf, global_key(name));
                let a = attr_or_empty(prev, c);
                lemma_set_sorted(
                    prev,
                    c,
                    AttrView {
                        global: Some(
                            match a.global {
                                Some(g) => merge_view(g, f),
                                None => f,
                            },
                        ),
                        elements: a.elements,
                    },
                );
            }
        }
    }
}

/// The catalog keeps its elements and its attributes in name order, each
/// name once, however the records are ordered in the data.
pub proof fn lemma_catalog_sorted(bcd: JsonValue, wf: Option<JsonValue>)
    ensures
        catalog_of(bcd, wf) matches Some(v) ==> names_sorted(v.elements) && names_sorted(v.attributes),
{
    if let Some(entries) = svg_elements(bcd) {
        lemma_element_fold_sorted(empty_collection(), entries, wf);
        let st = element_fold(empty_collection(), entries, wf);
        if let Some(JsonValue::Object(g)) = opt_member(member(bcd, "svg"@), "global_attributes"@) {
            lemma_global_fold_sorted(st.attributes, g@, wf);
        }
    }
}

} // verus!
