//! Compatibility facts read from browser-compat-data and web-features JSON:
//! Baseline status, discouragement advice and browser support statements.

use vstd::prelude::*;
use crate::compat::{
    parse_baseline_date, parsed_date, Baseline, BaselineDate, BaselineDiagnostic, BaselineTier,
    BrowserFlag, BrowserSupport, BrowserVersion, Discouraged, DiscouragementScope, FlagKind,
    VersionAdded,
};
use crate::json::{as_str_spec, serialized_json, member, member_of, to_json_string, JsonValue};
use crate::text::{str_eq, string_seqs};
use crate::html::opt_chars;

verus! {

// ---------------------------------------------------------------------------
// Baseline

/// The tier an upstream `baseline` field names: `false`, `"low"`, `"high"`.
pub open spec fn tier_of(raw: Option<JsonValue>) -> Option<BaselineTier> {
    match raw {
        Some(JsonValue::Bool(false)) => Some(BaselineTier::Limited),
        Some(JsonValue::String(s)) => if s@ == "low"@ {
            Some(BaselineTier::Newly)
        } else if s@ == "high"@ {
            Some(BaselineTier::Widely)
        } else {
            None
        },
        _ => None,
    }
}

/// A date field as recorded: a string parsed as a date, any other value
/// kept as its JSON text with no date.
pub open spec fn date_fits(d: Option<BaselineDate>, v: Option<JsonValue>) -> bool {
    match v {
        None => d is None,
        Some(JsonValue::String(s)) => d matches Some(x) && x.raw@ == s@ && opt_chars(x.date)
            == parsed_date(s@).0 && x.qualifier == parsed_date(s@).1,
        Some(other) => d matches Some(x) && x.raw@ == serialized_json(other) && x.date is None
            && x.qualifier is None,
    }
}

/// The members of an object whose values are strings, as pairs.
pub open spec fn string_members(entries: Seq<(String, JsonValue)>) -> Seq<(Seq<char>, Seq<char>)>
    decreases entries.len(),
{
    if entries.len() == 0 {
        Seq::empty()
    } else {
        let prev = string_members(entries.drop_last());
        match entries.last().1 {
            JsonValue::String(s) => prev.push((entries.last().0@, s@)),
            _ => prev,
        }
    }
}

pub open spec fn pair_views(v: Seq<(String, String)>) -> Seq<(Seq<char>, Seq<char>)> {
    v.map_values(|p: (String, String)| (p.0@, p.1@))
}

/// Per-browser versions: the string members of a `support` object.
pub open spec fn support_fits(s: Option<Vec<(String, String)>>, v: Option<JsonValue>) -> bool {
    match v {
        Some(JsonValue::Object(entries)) => s matches Some(x) && pair_views(x@) == string_members(
            entries@,
        ),
        _ => s is None,
    }
}

/// Whether a status block says anything about Baseline.
pub open spec fn has_baseline_facts(status: JsonValue) -> bool {
    member(status, "baseline"@) is Some || member(status, "baseline_low_date"@) is Some || member(
        status,
        "baseline_high_date"@,
    ) is Some || member(status, "support"@) matches Some(JsonValue::Object(_))
}

/// The Baseline facts a status block gives, imported without calculating
/// eligibility or requiring dates.
pub open spec fn baseline_fits(b: Baseline, status: JsonValue) -> bool {
    let raw = member(status, "baseline"@);
    &&& b.status == tier_of(raw)
    &&& opt_chars(b.raw_status) == match raw {
        Some(v) => Some(serialized_json(v)),
        None => None,
    }
    &&& b.status_diagnostic == if tier_of(raw) is Some {
        None
    } else if raw is None {
        Some(BaselineDiagnostic::Missing)
    } else {
        Some(BaselineDiagnostic::Unrecognized)
    }
    &&& date_fits(b.low_date, member(status, "baseline_low_date"@))
    &&& date_fits(b.high_date, member(status, "baseline_high_date"@))
    &&& support_fits(b.support, member(status, "support"@))
}

fn date_field(status: &JsonValue, key: &str) -> (r: Option<BaselineDate>)
    ensures
        date_fits(r, member(*status, key@)),
{
    match status.get(key) {
        None => None,
        Some(v) => match v {
            JsonValue::String(s) => Some(parse_baseline_date(s.as_str())),
            _ => Some(BaselineDate { raw: to_json_string(v), date: None, qualifier: None }),
        },
    }
}

fn support_field(status: &JsonValue) -> (r: Option<Vec<(String, String)>>)
    ensures
        support_fits(r, member(*status, "support"@)),
{
    match status.get("support") {
        Some(JsonValue::Object(entries)) => {
            let mut out: Vec<(String, String)> = Vec::new();
            let mut i: usize = 0;
            assert(entries@.take(0) =~= Seq::<(String, JsonValue)>::empty());
            while i < entries.len()
                invariant
                    i <= entries@.len(),
                    pair_views(out@) =~= string_members(entries@.take(i as int)),
                decreases entries@.len() - i,
            {
                assert(entries@.take(i + 1).drop_last() =~= entries@.take(i as int));
                assert(entries@.take(i + 1).last() == entries@[i as int]);
                if let JsonValue::String(s) = &entries[i].1 {
                    let ghost before = pair_views(out@);
                    out.push((entries[i].0.clone(), s.clone()));
                    assert(pair_views(out@) =~= before.push((entries@[i as int].0@, s@)));
                }
                i = i + 1;
            }
            assert(entries@.take(entries@.len() as int) =~= entries@);
            Some(out)
        },
        _ => None,
    }
}

/// Import upstream Baseline facts from a web-features status block.
pub fn parse_baseline(status: &JsonValue) -> (r: Option<Baseline>)
    ensures
        match r {
            Some(b) => has_baseline_facts(*status) && baseline_fits(b, *status),
            None => !has_baseline_facts(*status),
        },
{
    let raw = status.get("baseline");
    let low_date = date_field(status, "baseline_low_date");
    let high_date = date_field(status, "baseline_high_date");
    let support = support_field(status);
    if raw.is_none() && low_date.is_none() && high_date.is_none() && support.is_none() {
        return None;
    }
    let tier = match raw {
        Some(JsonValue::Bool(false)) => Some(BaselineTier::Limited),
        Some(JsonValue::String(s)) => {
            if str_eq(s.as_str(), "low") {
                Some(BaselineTier::Newly)
            } else if str_eq(s.as_str(), "high") {
                Some(BaselineTier::Widely)
            } else {
                None
            }
        },
        _ => None,
    };
    let raw_status = match raw {
        Some(v) => Some(to_json_string(v)),
        None => None,
    };
    let status_diagnostic = if tier.is_some() {
        None
    } else if raw.is_none() {
        Some(BaselineDiagnostic::Missing)
    } else {
        Some(BaselineDiagnostic::Unrecognized)
    };
    Some(Baseline { status: tier, raw_status, status_diagnostic, low_date, high_date, support })
}

// ---------------------------------------------------------------------------
// Features by compat key

pub open spec fn strings_contain(items: Seq<JsonValue>, key: Seq<char>) -> bool {
    exists|k: int| 0 <= k < items.len() && as_str_spec(Some(#[trigger] items[k])) == Some(key)
}

/// Whether a web-features feature lists `key` among its compat features.
pub open spec fn matches_key_spec(feature: JsonValue, key: Seq<char>) -> bool {
    match member(feature, "compat_features"@) {
        Some(JsonValue::Array(items)) => strings_contain(items@, key),
        _ => false,
    }
}

pub fn matches_key(feature: &JsonValue, key: &str) -> (r: bool)
    ensures
        r == matches_key_spec(*feature, key@),
{
    match feature.get("compat_features") {
        Some(JsonValue::Array(items)) => {
            let mut k: usize = 0;
            while k < items.len()
                invariant
                    k <= items@.len(),
                    matches_key_spec(*feature, key@) == strings_contain(items@, key@),
                    forall|j: int| 0 <= j < k ==> as_str_spec(Some(#[trigger] items@[j])) != Some(key@),
                decreases items@.len() - k,
            {
                if let Some(s) = items[k].as_str() {
                    if str_eq(s, key) {
                        assert(as_str_spec(Some(items@[k as int])) == Some(key@));
                        return true;
                    }
                }
                k = k + 1;
            }
            false
        },
        _ => false,
    }
}

/// The first feature (in document order) that lists `key`.
pub open spec fn first_matching(entries: Seq<(String, JsonValue)>, key: Seq<char>) -> Option<int>
    decreases entries.len(),
{
    if entries.len() == 0 {
        None
    } else {
        match first_matching(entries.drop_last(), key) {
            Some(i) => Some(i),
            None => if matches_key_spec(entries.last().1, key) {
                Some(entries.len() - 1)
            } else {
                None
            },
        }
    }
}

proof fn lemma_first_matching(entries: Seq<(String, JsonValue)>, key: Seq<char>, n: int)
    requires
        0 <= n <= entries.len(),
        first_matching(entries.take(n), key) is Some,
    ensures
        first_matching(entries, key) == first_matching(entries.take(n), key),
    decreases entries.len() - n,
{
    if n < entries.len() {
        assert(entries.take(n + 1).drop_last() =~= entries.take(n));
        lemma_first_matching(entries, key, n + 1);
    } else {
        assert(entries.take(n) =~= entries);
    }
}

proof fn lemma_first_matching_range(entries: Seq<(String, JsonValue)>, key: Seq<char>)
    ensures
        first_matching(entries, key) matches Some(i) ==> 0 <= i < entries.len(),
    decreases entries.len(),
{
    if entries.len() > 0 {
        lemma_first_matching_range(entries.drop_last(), key);
    }
}

/// The status block that applies to `key`: its per-key override when the
/// feature has one (even an empty one), else the feature's own.
pub open spec fn status_for_key(feature: JsonValue, key: Seq<char>) -> Option<JsonValue> {
    match member(feature, "status"@) {
        Some(status) => match member(status, "by_compat_key"@) {
            Some(keys) => match member(keys, key) {
                Some(s) => Some(s),
                None => Some(status),
            },
            None => Some(status),
        },
        None => None,
    }
}

/// The Baseline facts web-features gives `key`: from the first feature that
/// lists it.
pub open spec fn resolve_baseline_status(features: Option<JsonValue>, key: Seq<char>) -> Option<JsonValue> {
    match features {
        Some(JsonValue::Object(entries)) => match first_matching(entries@, key) {
            Some(i) => status_for_key(entries@[i].1, key),
            None => None,
        },
        _ => None,
    }
}

pub open spec fn opt_json(o: Option<&JsonValue>) -> Option<JsonValue> {
    match o {
        Some(x) => Some(*x),
        None => None,
    }
}

pub fn resolve_baseline(features: Option<&JsonValue>, compat_key: &str) -> (r: Option<Baseline>)
    ensures
        match resolve_baseline_status(opt_json(features), compat_key@) {
            Some(status) => match r {
                Some(b) => has_baseline_facts(status) && baseline_fits(b, status),
                None => !has_baseline_facts(status),
            },
            None => r is None,
        },
{
    let entries = match features {
        Some(JsonValue::Object(entries)) => entries,
        _ => return None,
    };
    proof {
        lemma_first_matching_range(entries@, compat_key@);
    }
    let mut i: usize = 0;
    assert(entries@.take(0) =~= Seq::<(String, JsonValue)>::empty());
    while i < entries.len()
        invariant
            i <= entries@.len(),
            first_matching(entries@.take(i as int), compat_key@) is None,
            resolve_baseline_status(opt_json(features), compat_key@) == match first_matching(
                entries@,
                compat_key@,
            ) {
                Some(j) => status_for_key(entries@[j].1, compat_key@),
                None => None,
            },
        decreases entries@.len() - i,
    {
        assert(entries@.take(i + 1).drop_last() =~= entries@.take(i as int));
        assert(entries@.take(i + 1).last() == entries@[i as int]);
        if matches_key(&entries[i].1, compat_key) {
            proof {
                lemma_first_matching(entries@, compat_key@, i + 1);
            }
            let feature = &entries[i].1;
            let status = match feature.get("status") {
                Some(s) => s,
                None => return None,
            };
            let target = match status.get("by_compat_key") {
                Some(keys) => match keys.get(compat_key) {
                    Some(s) => s,
                    None => status,
                },
                None => status,
            };
            return parse_baseline(target);
        }
        i = i + 1;
    }
    assert(entries@.take(entries@.len() as int) =~= entries@);
    None
}

// ---------------------------------------------------------------------------
// Discouragement

/// The strings of a list member, others skipped; none when it is not a list.
pub open spec fn string_items(v: Option<JsonValue>) -> Seq<Seq<char>> {
    match v {
        Some(JsonValue::Array(items)) => strings_of(items@),
        _ => Seq::empty(),
    }
}

pub open spec fn strings_of(items: Seq<JsonValue>) -> Seq<Seq<char>>
    decreases items.len(),
{
    if items.len() == 0 {
        Seq::empty()
    } else {
        let prev = strings_of(items.drop_last());
        match items.last() {
            JsonValue::String(s) => prev.push(s@),
            _ => prev,
        }
    }
}

/// The advice one feature gives, when it matches `key` and has an advice
/// object.
pub open spec fn advice_fits(d: Discouraged, id: Seq<char>, feature: JsonValue, key: Seq<char>) -> bool {
    let advice = member(feature, "discouraged"@);
    &&& d.feature_id@ == id
    &&& d.compat_key@ == key
    &&& d.scope == DiscouragementScope::Feature
    &&& opt_chars(d.feature_name) == as_str_spec(member(feature, "name"@))
    &&& d.reason@ == match crate::json::opt_member(advice, "reason"@) {
        Some(JsonValue::String(s)) => s@,
        _ => Seq::empty(),
    }
    &&& opt_chars(d.reason_html) == as_str_spec(crate::json::opt_member(advice, "reason_html"@))
    &&& string_seqs(d.according_to@) == string_items(crate::json::opt_member(advice, "according_to"@))
    &&& string_seqs(d.alternatives@) == string_items(crate::json::opt_member(advice, "alternatives"@))
    &&& opt_chars(d.removal_date) == as_str_spec(crate::json::opt_member(advice, "removal_date"@))
}

/// Whether a feature contributes advice for `key`.
pub open spec fn gives_advice(feature: JsonValue, key: Seq<char>) -> bool {
    matches_key_spec(feature, key) && member(feature, "discouraged"@) matches Some(
        JsonValue::Object(_),
    )
}

/// The positions of the features that give advice for `key`, in order.
pub open spec fn advising(entries: Seq<(String, JsonValue)>, key: Seq<char>) -> Seq<int>
    decreases entries.len(),
{
    if entries.len() == 0 {
        Seq::empty()
    } else {
        let prev = advising(entries.drop_last(), key);
        if gives_advice(entries.last().1, key) {
            prev.push(entries.len() - 1)
        } else {
            prev
        }
    }
}

pub open spec fn advice_list_fits(
    r: Seq<Discouraged>,
    features: Option<JsonValue>,
    key: Seq<char>,
) -> bool {
    match features {
        Some(JsonValue::Object(entries)) => {
            let idx = advising(entries@, key);
            r.len() == idx.len() && forall|k: int|
                0 <= k < r.len() ==> #[trigger] advice_fits(
                    r[k],
                    entries@[idx[k]].0@,
                    entries@[idx[k]].1,
                    key,
                )
        },
        _ => r.len() == 0,
    }
}

fn string_field(obj: &JsonValue, key: &str) -> (r: Option<String>)
    ensures
        opt_chars(r) == as_str_spec(member(*obj, key@)),
{
    match obj.get(key) {
        Some(v) => match v.as_str() {
            Some(s) => Some(s.to_owned()),
            None => None,
        },
        None => None,
    }
}

fn string_list(obj: &JsonValue, key: &str) -> (r: Vec<String>)
    ensures
        string_seqs(r@) == string_items(member(*obj, key@)),
{
    let mut out: Vec<String> = Vec::new();
    if let Some(JsonValue::Array(items)) = obj.get(key) {
        let mut i: usize = 0;
        assert(items@.take(0) =~= Seq::<JsonValue>::empty());
        while i < items.len()
            invariant
                i <= items@.len(),
                string_seqs(out@) =~= strings_of(items@.take(i as int)),
            decreases items@.len() - i,
        {
            assert(items@.take(i + 1).drop_last() =~= items@.take(i as int));
            assert(items@.take(i + 1).last() == items@[i as int]);
            if let JsonValue::String(s) = &items[i] {
                let ghost before = string_seqs(out@);
                out.push(s.clone());
                assert(string_seqs(out@) =~= before.push(s@));
            }
            i = i + 1;
        }
        assert(items@.take(items@.len() as int) =~= items@);
    }
    out
}

/// Retain every applicable feature identity and its advice, without
/// changing statuses.
pub fn resolve_discouraged(features: Option<&JsonValue>, compat_key: &str) -> (r: Vec<Discouraged>)
    ensures
        advice_list_fits(r@, opt_json(features), compat_key@),
{
    let entries = match features {
        Some(JsonValue::Object(entries)) => entries,
        _ => return Vec::new(),
    };
    let mut out: Vec<Discouraged> = Vec::new();
    let mut i: usize = 0;
    assert(entries@.take(0) =~= Seq::<(String, JsonValue)>::empty());
    while i < entries.len()
        invariant
            i <= entries@.len(),
            out@.len() == advising(entries@.take(i as int), compat_key@).len(),
            forall|k: int|
                0 <= k < out@.len() ==> #[trigger] advice_fits(
                    out@[k],
                    entries@[advising(entries@.take(i as int), compat_key@)[k]].0@,
                    entries@[advising(entries@.take(i as int), compat_key@)[k]].1,
                    compat_key@,
                ),
            forall|k: int|
                0 <= k < advising(entries@.take(i as int), compat_key@).len() ==> 0
                    <= #[trigger] advising(entries@.take(i as int), compat_key@)[k] < i,
        decreases entries@.len() - i,
    {
        let ghost prev = advising(entries@.take(i as int), compat_key@);
        assert(entries@.take(i + 1).drop_last() =~= entries@.take(i as int));
        assert(entries@.take(i + 1).last() == entries@[i as int]);
        let feature = &entries[i].1;
        if matches_key(feature, compat_key) {
            if let Some(advice) = feature.get("discouraged") {
                if advice.is_object() {
                    let d = Discouraged {
                        feature_id: entries[i].0.clone(),
                        compat_key: compat_key.to_owned(),
                        scope: DiscouragementScope::Feature,
                        feature_name: string_field(feature, "name"),
                        reason: match string_field(advice, "reason") {
                            Some(s) => s,
                            None => String::new(),
                        },
                        reason_html: string_field(advice, "reason_html"),
                        according_to: string_list(advice, "according_to"),
                        alternatives: string_list(advice, "alternatives"),
                        removal_date: string_field(advice, "removal_date"),
                    };
                    assert(advice_fits(d, entries@[i as int].0@, entries@[i as int].1, compat_key@));
                    let ghost before = out@;
                    out.push(d);
                    assert(advising(entries@.take(i + 1), compat_key@) == prev.push(i as int));
                    assert forall|k: int| 0 <= k < out@.len() implies #[trigger] advice_fits(
                        out@[k],
                        entries@[advising(entries@.take(i + 1), compat_key@)[k]].0@,
                        entries@[advising(entries@.take(i + 1), compat_key@)[k]].1,
                        compat_key@,
                    ) by {
                        if k < before.len() {
                            assert(out@[k] == before[k]);
                            assert(advising(entries@.take(i + 1), compat_key@)[k] == prev[k]);
                        }
                    }
                }
            }
        }
        i = i + 1;
    }
    assert(entries@.take(entries@.len() as int) =~= entries@);
    out
}

// ---------------------------------------------------------------------------
// Browser support statements

/// A version union as plain values.
pub enum AddedView {
    Version(Seq<char>),
    Unsupported,
}

/// A support statement as plain values.
pub struct StatementView {
    pub version_added: Option<AddedView>,
    pub version_removed: Option<Seq<char>>,
    pub version_last: Option<Seq<char>>,
    pub prefix: Option<Seq<char>>,
    pub alternative_name: Option<Seq<char>>,
    pub flags: Seq<(FlagKind, Seq<char>, Option<Seq<char>>)>,
    pub impl_url: Seq<Seq<char>>,
    pub partial_implementation: bool,
    pub notes: Seq<Seq<char>>,
}

pub open spec fn added_view(a: Option<VersionAdded>) -> Option<AddedView> {
    match a {
        Some(VersionAdded::Version(s)) => Some(AddedView::Version(s@)),
        Some(VersionAdded::Unsupported) => Some(AddedView::Unsupported),
        None => None,
    }
}

pub open spec fn flag_view(f: BrowserFlag) -> (FlagKind, Seq<char>, Option<Seq<char>>) {
    (f.kind, f.name@, opt_chars(f.value_to_set))
}

pub open spec fn statement_view(b: BrowserVersion) -> StatementView {
    StatementView {
        version_added: added_view(b.version_added),
        version_removed: opt_chars(b.version_removed),
        version_last: opt_chars(b.version_last),
        prefix: opt_chars(b.prefix),
        alternative_name: opt_chars(b.alternative_name),
        flags: b.flags@.map_values(|f: BrowserFlag| flag_view(f)),
        impl_url: string_seqs(b.impl_url@),
        partial_implementation: b.partial_implementation,
        notes: string_seqs(b.notes@),
    }
}

/// `version_added`: a string version, `false`, or unknown (anything else,
/// including `true` and `null`, is read as unknown).
pub open spec fn added_field(v: Option<JsonValue>) -> Option<AddedView> {
    match v {
        Some(JsonValue::String(s)) => Some(AddedView::Version(s@)),
        Some(JsonValue::Bool(false)) => Some(AddedView::Unsupported),
        _ => None,
    }
}

/// An optional string member: absent or `null` is none, a string is kept,
/// anything else invalidates the statement (outer `None`).
pub open spec fn opt_string_field(v: Option<JsonValue>) -> Option<Option<Seq<char>>> {
    match v {
        None => Some(None),
        Some(JsonValue::Null) => Some(None),
        Some(JsonValue::String(s)) => Some(Some(s@)),
        _ => None,
    }
}

pub open spec fn all_strings(items: Seq<JsonValue>) -> bool {
    forall|k: int| 0 <= k < items.len() ==> (#[trigger] items[k]) is String
}

/// A list of strings: absent is empty, a lone string is a list of one.
pub open spec fn string_list_field(v: Option<JsonValue>) -> Option<Seq<Seq<char>>> {
    match v {
        None => Some(Seq::empty()),
        Some(JsonValue::String(s)) => Some(seq![s@]),
        Some(JsonValue::Array(items)) => if all_strings(items@) {
            Some(strings_of(items@))
        } else {
            None
        },
        _ => None,
    }
}

/// A flag declaration: its category (`preference` or `runtime_flag`) and
/// name are required.
pub open spec fn flag_field(v: JsonValue) -> Option<(FlagKind, Seq<char>, Option<Seq<char>>)> {
    let kind = match member(v, "type"@) {
        Some(JsonValue::String(t)) => if t@ == "preference"@ {
            Some(FlagKind::Preference)
        } else if t@ == "runtime_flag"@ {
            Some(FlagKind::RuntimeFlag)
        } else {
            None
        },
        _ => None,
    };
    match (v, kind, member(v, "name"@), opt_string_field(member(v, "value_to_set"@))) {
        (JsonValue::Object(_), Some(k), Some(JsonValue::String(n)), Some(value)) => Some((k, n@, value)),
        _ => None,
    }
}

pub open spec fn all_flags(items: Seq<JsonValue>) -> bool {
    forall|k: int| 0 <= k < items.len() ==> flag_field(#[trigger] items[k]) is Some
}

pub open spec fn flags_field(v: Option<JsonValue>) -> Option<Seq<(FlagKind, Seq<char>, Option<Seq<char>>)>> {
    match v {
        None => Some(Seq::empty()),
        Some(JsonValue::Array(items)) => if all_flags(items@) {
            Some(items@.map_values(|x: JsonValue| flag_field(x)->0))
        } else {
            None
        },
        _ => None,
    }
}

pub open spec fn bool_field(v: Option<JsonValue>) -> Option<bool> {
    match v {
        None => Some(false),
        Some(JsonValue::Bool(b)) => Some(b),
        _ => None,
    }
}

/// One support statement as BCD gives it; `None` when a field has the
/// wrong type.
pub open spec fn statement_spec(v: JsonValue) -> Option<StatementView> {
    let removed = opt_string_field(member(v, "version_removed"@));
    let last = opt_string_field(member(v, "version_last"@));
    let prefix = opt_string_field(member(v, "prefix"@));
    let alt = opt_string_field(member(v, "alternative_name"@));
    let flags = flags_field(member(v, "flags"@));
    let impl_url = string_list_field(member(v, "impl_url"@));
    let partial = bool_field(member(v, "partial_implementation"@));
    let notes = string_list_field(member(v, "notes"@));
    if v is Object && removed is Some && last is Some && prefix is Some && alt is Some && flags is Some
        && impl_url is Some && partial is Some && notes is Some {
        Some(
            StatementView {
                version_added: added_field(member(v, "version_added"@)),
                version_removed: removed->0,
                version_last: last->0,
                prefix: prefix->0,
                alternative_name: alt->0,
                flags: flags->0,
                impl_url: impl_url->0,
                partial_implementation: partial->0,
                notes: notes->0,
            },
        )
    } else {
        None
    }
}

fn opt_string(v: &JsonValue, key: &str) -> (r: Option<Option<String>>)
    ensures
        match opt_string_field(member(*v, key@)) {
            Some(o) => r matches Some(x) && opt_chars(x) == o,
            None => r is None,
        },
{
    match v.get(key) {
        None => Some(None),
        Some(JsonValue::Null) => Some(None),
        Some(JsonValue::String(s)) => Some(Some(s.clone())),
        _ => None,
    }
}

fn string_list_of(v: &JsonValue, key: &str) -> (r: Option<Vec<String>>)
    ensures
        match string_list_field(member(*v, key@)) {
            Some(l) => r matches Some(x) && string_seqs(x@) == l,
            None => r is None,
        },
{
    match v.get(key) {
        None => Some(Vec::new()),
        Some(JsonValue::String(s)) => {
            let r = vec![s.clone()];
            assert(string_seqs(r@) =~= seq![s@]);
            Some(r)
        },
        Some(JsonValue::Array(items)) => {
            let mut out: Vec<String> = Vec::new();
            let mut i: usize = 0;
            assert(items@.take(0) =~= Seq::<JsonValue>::empty());
            while i < items.len()
                invariant
                    i <= items@.len(),
                    member(*v, key@) == Some(JsonValue::Array(*items)),
                    forall|k: int| 0 <= k < i ==> (#[trigger] items@[k]) is String,
                    string_seqs(out@) =~= strings_of(items@.take(i as int)),
                decreases items@.len() - i,
            {
                assert(items@.take(i + 1).drop_last() =~= items@.take(i as int));
                assert(items@.take(i + 1).last() == items@[i as int]);
                match &items[i] {
                    JsonValue::String(s) => {
                        let ghost before = string_seqs(out@);
                        out.push(s.clone());
                        assert(string_seqs(out@) =~= before.push(s@));
                    },
                    _ => {
                        assert(!all_strings(items@));
                        return None;
                    },
                }
                i = i + 1;
            }
            assert(items@.take(items@.len() as int) =~= items@);
            Some(out)
        },
        _ => None,
    }
}

fn parse_flag(v: &JsonValue) -> (r: Option<BrowserFlag>)
    ensures
        match flag_field(*v) {
            Some(f) => r matches Some(x) && flag_view(x) == f,
            None => r is None,
        },
{
    if !v.is_object() {
        return None;
    }
    let kind = match v.get("type") {
        Some(JsonValue::String(t)) => {
            if str_eq(t.as_str(), "preference") {
                FlagKind::Preference
            } else if str_eq(t.as_str(), "runtime_flag") {
                FlagKind::RuntimeFlag
            } else {
                return None;
            }
        },
        _ => return None,
    };
    let name = match v.get("name") {
        Some(JsonValue::String(n)) => n.clone(),
        _ => return None,
    };
    let value_to_set = match opt_string(v, "value_to_set") {
        Some(x) => x,
        None => return None,
    };
    Some(BrowserFlag { kind, name, value_to_set })
}

fn parse_flags(v: &JsonValue) -> (r: Option<Vec<BrowserFlag>>)
    ensures
        match flags_field(member(*v, "flags"@)) {
            Some(l) => r matches Some(x) && x@.map_values(|f: BrowserFlag| flag_view(f)) == l,
            None => r is None,
        },
{
    match v.get("flags") {
        None => {
            let r: Vec<BrowserFlag> = Vec::new();
            assert(r@.map_values(|f: BrowserFlag| flag_view(f)) =~= Seq::<
                (FlagKind, Seq<char>, Option<Seq<char>>),
            >::empty());
            Some(r)
        },
        Some(JsonValue::Array(items)) => {
            let mut out: Vec<BrowserFlag> = Vec::new();
            let mut i: usize = 0;
            while i < items.len()
                invariant
                    i <= items@.len(),
                    member(*v, "flags"@) == Some(JsonValue::Array(*items)),
                    forall|k: int| 0 <= k < i ==> flag_field(#[trigger] items@[k]) is Some,
                    out@.map_values(|f: BrowserFlag| flag_view(f)) =~= items@.take(i as int).map_values(
                        |x: JsonValue| flag_field(x)->0,
                    ),
                decreases items@.len() - i,
            {
                match parse_flag(&items[i]) {
                    Some(f) => {
                        let ghost before = out@.map_values(|f: BrowserFlag| flag_view(f));
                        out.push(f);
                        assert(out@.map_values(|f: BrowserFlag| flag_view(f)) =~= before.push(
                            flag_view(f),
                        ));
                        assert(items@.take(i + 1).map_values(|x: JsonValue| flag_field(x)->0)
                            =~= items@.take(i as int).map_values(|x: JsonValue| flag_field(x)->0).push(
                            flag_field(items@[i as int])->0,
                        ));
                    },
                    None => {
                        assert(!all_flags(items@));
                        return None;
                    },
                }
                i = i + 1;
            }
            assert(items@.take(items@.len() as int) =~= items@);
            Some(out)
        },
        _ => None,
    }
}

/// Read one support statement; `None` when a field has the wrong type.
pub fn parse_statement(v: &JsonValue) -> (r: Option<BrowserVersion>)
    ensures
        match statement_spec(*v) {
            Some(sv) => r matches Some(b) && statement_view(b) == sv,
            None => r is None,
        },
{
    if !v.is_object() {
        return None;
    }
    let version_added = match v.get("version_added") {
        Some(JsonValue::String(s)) => Some(VersionAdded::Version(s.clone())),
        Some(JsonValue::Bool(false)) => Some(VersionAdded::Unsupported),
        _ => None,
    };
    let version_removed = match opt_string(v, "version_removed") {
        Some(x) => x,
        None => return None,
    };
    let version_last = match opt_string(v, "version_last") {
        Some(x) => x,
        None => return None,
    };
    let prefix = match opt_string(v, "prefix") {
        Some(x) => x,
        None => return None,
    };
    let alternative_name = match opt_string(v, "alternative_name") {
        Some(x) => x,
        None => return None,
    };
    let flags = match parse_flags(v) {
        Some(x) => x,
        None => return None,
    };
    let impl_url = match string_list_of(v, "impl_url") {
        Some(x) => x,
        None => return None,
    };
    let partial_implementation = match v.get("partial_implementation") {
        None => false,
        Some(JsonValue::Bool(b)) => *b,
        _ => return None,
    };
    let notes = match string_list_of(v, "notes") {
        Some(x) => x,
        None => return None,
    };
    Some(
        BrowserVersion {
            version_added,
            version_removed,
            version_last,
            prefix,
            alternative_name,
            flags,
            impl_url,
            partial_implementation,
            notes,
        },
    )
}

/// The statements of one browser: each item of a list, or the lone
/// statement; those that do not read are dropped.
pub open spec fn browser_statements(v: JsonValue) -> Seq<StatementView> {
    match v {
        JsonValue::Array(items) => parsed_statements(items@),
        _ => parsed_statements(seq![v]),
    }
}

pub open spec fn parsed_statements(items: Seq<JsonValue>) -> Seq<StatementView>
    decreases items.len(),
{
    if items.len() == 0 {
        Seq::empty()
    } else {
        let prev = parsed_statements(items.drop_last());
        match statement_spec(items.last()) {
            Some(s) => prev.push(s),
            None => prev,
        }
    }
}

/// Every browser of a compat record's `support` object with all of its
/// statements, in order; none when there is no such object.
pub open spec fn support_spec(compat: JsonValue) -> Option<Seq<(Seq<char>, Seq<StatementView>)>> {
    match member(compat, "support"@) {
        Some(JsonValue::Object(entries)) => Some(
            entries@.map_values(|e: (String, JsonValue)| (e.0@, browser_statements(e.1))),
        ),
        _ => None,
    }
}

pub open spec fn support_view(s: BrowserSupport) -> Seq<(Seq<char>, Seq<StatementView>)> {
    s.entries@.map_values(
        |e: (String, Vec<BrowserVersion>)| (e.0@, e.1@.map_values(|b: BrowserVersion| statement_view(b))),
    )
}

fn statements_of(items: &Vec<JsonValue>) -> (r: Vec<BrowserVersion>)
    ensures
        r@.map_values(|b: BrowserVersion| statement_view(b)) == parsed_statements(items@),
{
    let mut out: Vec<BrowserVersion> = Vec::new();
    let mut i: usize = 0;
    assert(items@.take(0) =~= Seq::<JsonValue>::empty());
    while i < items.len()
        invariant
            i <= items@.len(),
            out@.map_values(|b: BrowserVersion| statement_view(b)) =~= parsed_statements(
                items@.take(i as int),
            ),
        decreases items@.len() - i,
    {
        assert(items@.take(i + 1).drop_last() =~= items@.take(i as int));
        assert(items@.take(i + 1).last() == items@[i as int]);
        if let Some(b) = parse_statement(&items[i]) {
            let ghost before = out@.map_values(|b: BrowserVersion| statement_view(b));
            out.push(b);
            assert(out@.map_values(|b: BrowserVersion| statement_view(b)) =~= before.push(
                statement_view(b),
            ));
        }
        i = i + 1;
    }
    assert(items@.take(items@.len() as int) =~= items@);
    out
}

/// Parse every BCD product and its whole history, without selecting a
/// display statement.
pub fn extract_browser_support(compat: &JsonValue) -> (r: Option<BrowserSupport>)
    ensures
        match support_spec(*compat) {
            Some(s) => r matches Some(x) && support_view(x) == s,
            None => r is None,
        },
{
    let entries = match compat.get("support") {
        Some(JsonValue::Object(entries)) => entries,
        _ => return None,
    };
    let mut out: Vec<(String, Vec<BrowserVersion>)> = Vec::new();
    let mut i: usize = 0;
    while i < entries.len()
        invariant
            i <= entries@.len(),
            support_view(BrowserSupport { entries: out }) =~= entries@.take(i as int).map_values(
                |e: (String, JsonValue)| (e.0@, browser_statements(e.1)),
            ),
        decreases entries@.len() - i,
    {
        let statements = match &entries[i].1 {
            JsonValue::Array(items) => statements_of(items),
            _ => match parse_statement(&entries[i].1) {
                Some(b) => {
                    let ghost one = seq![entries@[i as int].1];
                    assert(one.drop_last() =~= Seq::<JsonValue>::empty());
                    assert(one.last() == entries@[i as int].1);
                    assert(parsed_statements(one.drop_last()) =~= Seq::<StatementView>::empty());
                    let r = vec![b];
                    assert(r@.map_values(|b: BrowserVersion| statement_view(b)) =~= parsed_statements(
                        one,
                    ));
                    r
                },
                None => {
                    let ghost one = seq![entries@[i as int].1];
                    assert(one.drop_last() =~= Seq::<JsonValue>::empty());
                    assert(one.last() == entries@[i as int].1);
                    assert(parsed_statements(one.drop_last()) =~= Seq::<StatementView>::empty());
                    let r: Vec<BrowserVersion> = Vec::new();
                    assert(r@.map_values(|b: BrowserVersion| statement_view(b)) =~= parsed_statements(
                        one,
                    ));
                    r
                },
            },
        };
        let ghost before = support_view(BrowserSupport { entries: out });
        let ghost sv = statements@.map_values(|b: BrowserVersion| statement_view(b));
        assert(sv == browser_statements(entries@[i as int].1));
        out.push((entries[i].0.clone(), statements));
        assert(support_view(BrowserSupport { entries: out }) =~= before.push(
            (entries@[i as int].0@, sv),
        ));
        assert(entries@.take(i + 1).map_values(|e: (String, JsonValue)| (e.0@, browser_statements(e.1)))
            =~= entries@.take(i as int).map_values(
            |e: (String, JsonValue)| (e.0@, browser_statements(e.1)),
        ).push((entries@[i as int].0@, browser_statements(entries@[i as int].1))));
        i = i + 1;
    }
    assert(entries@.take(entries@.len() as int) =~= entries@);
    Some(BrowserSupport { entries: out })
}

} // verus!
