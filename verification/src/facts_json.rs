//! The catalog's JSON records of compat facts: Baseline status, browser
//! support statements and discouragement advice, written as the catalog
//! writes them (absent optional fields left out, lists always written).

use vstd::prelude::*;
use crate::compat::{
    flag_kind_name, Baseline, BaselineDate, BaselineDiagnostic, BaselineQualifier, BaselineTier, BrowserFlag,
    BrowserSupport, BrowserVersion, Discouraged, VersionAdded,
};
use crate::compat_collect::{
    baseline_view, date_view, disc_view, disc_views, BaselineView, DateView, DiscView, SupportView,
};
use crate::compat_json::{flag_view, statement_view, support_view, AddedView, StatementView};
use crate::html::opt_chars;
use crate::json::{iv, json_view, lemma_array_view, lemma_object_view, mv, JsonValue, JsonView};
use crate::compat::FlagKind;
use crate::text::string_seqs;

verus! {

// ---------------------------------------------------------------------------
// The records, as views

/// A member written only when there is a value.
pub open spec fn opt_field(name: Seq<char>, v: Option<JsonView>) -> Seq<(Seq<char>, JsonView)> {
    match v {
        Some(x) => seq![(name, x)],
        None => Seq::empty(),
    }
}

pub open spec fn opt_str_json(o: Option<Seq<char>>) -> Option<JsonView> {
    match o {
        Some(s) => Some(JsonView::String(s)),
        None => None,
    }
}

pub open spec fn strings_json(s: Seq<Seq<char>>) -> JsonView {
    JsonView::Array(s.map_values(|x: Seq<char>| JsonView::String(x)))
}

pub open spec fn tier_text(t: BaselineTier) -> Seq<char> {
    match t {
        BaselineTier::Widely => "widely"@,
        BaselineTier::Newly => "newly"@,
        BaselineTier::Limited => "limited"@,
    }
}

pub open spec fn diagnostic_text(d: BaselineDiagnostic) -> Seq<char> {
    match d {
        BaselineDiagnostic::Missing => "missing"@,
        BaselineDiagnostic::Unrecognized => "unrecognized"@,
    }
}

pub open spec fn qualifier_text(q: BaselineQualifier) -> Seq<char> {
    match q {
        BaselineQualifier::Before => "before"@,
        BaselineQualifier::After => "after"@,
        BaselineQualifier::Approximately => "approximately"@,
    }
}

/// A Baseline milestone: its raw text, and its date and qualifier when read.
pub open spec fn date_json(d: DateView) -> JsonView {
    JsonView::Object(
        seq![("raw"@, JsonView::String(d.raw))] + opt_field("date"@, opt_str_json(d.date)) + opt_field(
            "qualifier"@,
            match d.qualifier {
                Some(q) => Some(JsonView::String(qualifier_text(q))),
                None => None,
            },
        ),
    )
}

pub open spec fn opt_date_json(d: Option<DateView>) -> Option<JsonView> {
    match d {
        Some(x) => Some(date_json(x)),
        None => None,
    }
}

/// A Baseline record: tier, raw status, diagnostic and milestones, each
/// when known. The catalog's record holds no per-browser versions.
pub open spec fn baseline_json(b: BaselineView) -> JsonView {
    JsonView::Object(
        opt_field(
            "status"@,
            match b.status {
                Some(t) => Some(JsonView::String(tier_text(t))),
                None => None,
            },
        ) + opt_field("raw_status"@, opt_str_json(b.raw_status)) + opt_field(
            "status_diagnostic"@,
            match b.diagnostic {
                Some(d) => Some(JsonView::String(diagnostic_text(d))),
                None => None,
            },
        ) + opt_field("low_date"@, opt_date_json(b.low)) + opt_field("high_date"@, opt_date_json(b.high)),
    )
}

/// A flag: its category, name and the value to set when given.
pub open spec fn flag_json(f: (FlagKind, Seq<char>, Option<Seq<char>>)) -> JsonView {
    JsonView::Object(
        seq![("type"@, JsonView::String(flag_kind_name(f.0))), ("name"@, JsonView::String(f.1))] + opt_field(
            "value_to_set"@,
            opt_str_json(f.2),
        ),
    )
}

/// A support statement: the optional versions and names when known, then
/// flags, implementation links, the partial-implementation mark and notes.
pub open spec fn statement_json(s: StatementView) -> JsonView {
    JsonView::Object(
        opt_field(
            "version_added"@,
            match s.version_added {
                Some(AddedView::Version(v)) => Some(JsonView::String(v)),
                Some(AddedView::Unsupported) => Some(JsonView::Bool(false)),
                None => None,
            },
        ) + opt_field("version_removed"@, opt_str_json(s.version_removed)) + opt_field(
            "version_last"@,
            opt_str_json(s.version_last),
        ) + opt_field("prefix"@, opt_str_json(s.prefix)) + opt_field(
            "alternative_name"@,
            opt_str_json(s.alternative_name),
        ) + seq![
            ("flags"@, JsonView::Array(s.flags.map_values(|f: (FlagKind, Seq<char>, Option<Seq<char>>)| flag_json(f)))),
            ("impl_url"@, strings_json(s.impl_url)),
            ("partial_implementation"@, JsonView::Bool(s.partial_implementation)),
            ("notes"@, strings_json(s.notes)),
        ],
    )
}

/// Browser support: each browser's statements under its identifier.
pub open spec fn support_json(s: SupportView) -> JsonView {
    JsonView::Object(
        s.map_values(
            |e: (Seq<char>, Seq<StatementView>)|
                (e.0, JsonView::Array(e.1.map_values(|x: StatementView| statement_json(x)))),
        ),
    )
}

/// A piece of discouragement advice.
pub open spec fn disc_json(d: DiscView) -> JsonView {
    JsonView::Object(
        seq![
            ("feature_id"@, JsonView::String(d.feature_id)),
            ("compat_key"@, JsonView::String(d.compat_key)),
            ("scope"@, JsonView::String("feature"@)),
        ] + opt_field("feature_name"@, opt_str_json(d.feature_name)) + seq![("reason"@, JsonView::String(d.reason))]
            + opt_field("reason_html"@, opt_str_json(d.reason_html)) + seq![
            ("according_to"@, strings_json(d.according_to)),
            ("alternatives"@, strings_json(d.alternatives)),
        ] + opt_field("removal_date"@, opt_str_json(d.removal_date)),
    )
}

pub open spec fn discs_json(d: Seq<DiscView>) -> JsonView {
    JsonView::Array(d.map_values(|x: DiscView| disc_json(x)))
}

// ---------------------------------------------------------------------------
// Writing them

fn jstring(s: &str) -> (r: JsonValue)
    ensures
        json_view(r) == JsonView::String(s@),
{
    JsonValue::String(s.to_owned())
}

fn push_member(out: &mut Vec<(String, JsonValue)>, name: &str, v: JsonValue)
    ensures
        mv(final(out)@) == mv(old(out)@).push((name@, json_view(v))),
{
    out.push((name.to_owned(), v));
    assert(mv(out@) =~= mv(old(out)@).push((name@, json_view(v))));
}

fn push_opt_member(out: &mut Vec<(String, JsonValue)>, name: &str, v: Option<JsonValue>)
    ensures
        mv(final(out)@) == mv(old(out)@) + opt_field(
            name@,
            match v {
                Some(x) => Some(json_view(x)),
                None => None,
            },
        ),
{
    match v {
        Some(x) => push_member(out, name, x),
        None => {
            assert(mv(out@) =~= mv(out@) + Seq::<(Seq<char>, JsonView)>::empty());
        },
    }
}

fn opt_string_json(o: &Option<String>) -> (r: Option<JsonValue>)
    ensures
        match r {
            Some(x) => Some(json_view(x)),
            None => None,
        } == opt_str_json(opt_chars(*o)),
{
    match o {
        Some(s) => Some(jstring(s.as_str())),
        None => None,
    }
}

fn object(entries: Vec<(String, JsonValue)>) -> (r: JsonValue)
    ensures
        json_view(r) == JsonView::Object(mv(entries@)),
{
    proof {
        lemma_object_view(entries);
    }
    JsonValue::Object(entries)
}

fn array(items: Vec<JsonValue>) -> (r: JsonValue)
    ensures
        json_view(r) == JsonView::Array(iv(items@)),
{
    proof {
        lemma_array_view(items);
    }
    JsonValue::Array(items)
}

fn strings_value(v: &Vec<String>) -> (r: JsonValue)
    ensures
        json_view(r) == strings_json(string_seqs(v@)),
{
    let ghost want = string_seqs(v@).map_values(|x: Seq<char>| JsonView::String(x));
    let mut out: Vec<JsonValue> = Vec::new();
    let mut i: usize = 0;
    while i < v.len()
        invariant
            i <= v@.len(),
            want == string_seqs(v@).map_values(|x: Seq<char>| JsonView::String(x)),
            iv(out@) == want.take(i as int),
        decreases v@.len() - i,
    {
        let x = jstring(v[i].as_str());
        let ghost before = out@;
        out.push(x);
        proof {
            assert(iv(out@) =~= iv(before).push(json_view(x)));
            assert(want.take(i + 1) =~= want.take(i as int).push(want[i as int]));
        }
        assert(iv(out@) =~= want.take(i + 1));
        i = i + 1;
    }
    assert(want.take(v@.len() as int) =~= want);
    array(out)
}

fn date_value(d: &BaselineDate) -> (r: JsonValue)
    ensures
        json_view(r) == date_json(date_view(*d)),
{
    let mut out: Vec<(String, JsonValue)> = Vec::new();
    push_member(&mut out, "raw", jstring(d.raw.as_str()));
    push_opt_member(&mut out, "date", opt_string_json(&d.date));
    let q = match d.qualifier {
        Some(BaselineQualifier::Before) => Some(jstring("before")),
        Some(BaselineQualifier::After) => Some(jstring("after")),
        Some(BaselineQualifier::Approximately) => Some(jstring("approximately")),
        None => None,
    };
    push_opt_member(&mut out, "qualifier", q);
    assert(mv(out@) =~= seq![("raw"@, JsonView::String(d.raw@))] + opt_field("date"@, opt_str_json(opt_chars(d.date)))
        + opt_field(
        "qualifier"@,
        match d.qualifier {
            Some(q) => Some(JsonView::String(qualifier_text(q))),
            None => None,
        },
    ));
    object(out)
}

fn opt_date_value(d: &Option<BaselineDate>) -> (r: Option<JsonValue>)
    ensures
        match r {
            Some(x) => Some(json_view(x)),
            None => None,
        } == opt_date_json(
            match *d {
                Some(x) => Some(date_view(x)),
                None => None,
            },
        ),
{
    match d {
        Some(x) => Some(date_value(x)),
        None => None,
    }
}

/// The catalog's record of a Baseline status.
pub fn baseline_value(b: &Baseline) -> (r: JsonValue)
    ensures
        json_view(r) == baseline_json(baseline_view(*b)),
{
    let mut out: Vec<(String, JsonValue)> = Vec::new();
    let status = match b.status {
        Some(BaselineTier::Widely) => Some(jstring("widely")),
        Some(BaselineTier::Newly) => Some(jstring("newly")),
        Some(BaselineTier::Limited) => Some(jstring("limited")),
        None => None,
    };
    push_opt_member(&mut out, "status", status);
    push_opt_member(&mut out, "raw_status", opt_string_json(&b.raw_status));
    let diagnostic = match b.status_diagnostic {
        Some(BaselineDiagnostic::Missing) => Some(jstring("missing")),
        Some(BaselineDiagnostic::Unrecognized) => Some(jstring("unrecognized")),
        None => None,
    };
    push_opt_member(&mut out, "status_diagnostic", diagnostic);
    push_opt_member(&mut out, "low_date", opt_date_value(&b.low_date));
    push_opt_member(&mut out, "high_date", opt_date_value(&b.high_date));
    let ghost bv = baseline_view(*b);
    assert(mv(out@) =~= opt_field(
        "status"@,
        match bv.status {
            Some(t) => Some(JsonView::String(tier_text(t))),
            None => None,
        },
    ) + opt_field("raw_status"@, opt_str_json(bv.raw_status)) + opt_field(
        "status_diagnostic"@,
        match bv.diagnostic {
            Some(d) => Some(JsonView::String(diagnostic_text(d))),
            None => None,
        },
    ) + opt_field("low_date"@, opt_date_json(bv.low)) + opt_field("high_date"@, opt_date_json(bv.high)));
    object(out)
}

fn flag_value(f: &BrowserFlag) -> (r: JsonValue)
    ensures
        json_view(r) == flag_json(flag_view(*f)),
{
    let mut out: Vec<(String, JsonValue)> = Vec::new();
    let kind = match f.kind {
        FlagKind::Preference => jstring("preference"),
        FlagKind::RuntimeFlag => jstring("runtime_flag"),
    };
    push_member(&mut out, "type", kind);
    push_member(&mut out, "name", jstring(f.name.as_str()));
    push_opt_member(&mut out, "value_to_set", opt_string_json(&f.value_to_set));
    assert(mv(out@) =~= seq![("type"@, JsonView::String(flag_kind_name(f.kind))), ("name"@, JsonView::String(f.name@))]
        + opt_field("value_to_set"@, opt_str_json(opt_chars(f.value_to_set))));
    object(out)
}

fn flags_value(flags: &Vec<BrowserFlag>) -> (r: JsonValue)
    ensures
        json_view(r) == JsonView::Array(
            flags@.map_values(|f: BrowserFlag| flag_view(f)).map_values(
                |f: (FlagKind, Seq<char>, Option<Seq<char>>)| flag_json(f),
            ),
        ),
{
    let ghost want = flags@.map_values(|f: BrowserFlag| flag_view(f)).map_values(
        |f: (FlagKind, Seq<char>, Option<Seq<char>>)| flag_json(f),
    );
    let mut out: Vec<JsonValue> = Vec::new();
    let mut i: usize = 0;
    while i < flags.len()
        invariant
            i <= flags@.len(),
            want == flags@.map_values(|f: BrowserFlag| flag_view(f)).map_values(
                |f: (FlagKind, Seq<char>, Option<Seq<char>>)| flag_json(f),
            ),
            iv(out@) == want.take(i as int),
        decreases flags@.len() - i,
    {
        let x = flag_value(&flags[i]);
        let ghost before = out@;
        out.push(x);
        proof {
            assert(iv(out@) =~= iv(before).push(json_view(x)));
            assert(want.take(i + 1) =~= want.take(i as int).push(want[i as int]));
        }
        assert(iv(out@) =~= want.take(i + 1));
        i = i + 1;
    }
    assert(want.take(flags@.len() as int) =~= want);
    array(out)
}

fn statement_value(s: &BrowserVersion) -> (r: JsonValue)
    ensures
        json_view(r) == statement_json(statement_view(*s)),
{
    let mut out: Vec<(String, JsonValue)> = Vec::new();
    let added = match &s.version_added {
        Some(VersionAdded::Version(v)) => Some(jstring(v.as_str())),
        Some(VersionAdded::Unsupported) => Some(JsonValue::Bool(false)),
        None => None,
    };
    push_opt_member(&mut out, "version_added", added);
    push_opt_member(&mut out, "version_removed", opt_string_json(&s.version_removed));
    push_opt_member(&mut out, "version_last", opt_string_json(&s.version_last));
    push_opt_member(&mut out, "prefix", opt_string_json(&s.prefix));
    push_opt_member(&mut out, "alternative_name", opt_string_json(&s.alternative_name));
    push_member(&mut out, "flags", flags_value(&s.flags));
    push_member(&mut out, "impl_url", strings_value(&s.impl_url));
    push_member(&mut out, "partial_implementation", JsonValue::Bool(s.partial_implementation));
    push_member(&mut out, "notes", strings_value(&s.notes));
    let ghost sv = statement_view(*s);
    assert(mv(out@) =~= opt_field(
        "version_added"@,
        match sv.version_added {
            Some(AddedView::Version(v)) => Some(JsonView::String(v)),
            Some(AddedView::Unsupported) => Some(JsonView::Bool(false)),
            None => None,
        },
    ) + opt_field("version_removed"@, opt_str_json(sv.version_removed)) + opt_field(
        "version_last"@,
        opt_str_json(sv.version_last),
    ) + opt_field("prefix"@, opt_str_json(sv.prefix)) + opt_field(
        "alternative_name"@,
        opt_str_json(sv.alternative_name),
    ) + seq![
        ("flags"@, JsonView::Array(sv.flags.map_values(|f: (FlagKind, Seq<char>, Option<Seq<char>>)| flag_json(f)))),
        ("impl_url"@, strings_json(sv.impl_url)),
        ("partial_implementation"@, JsonView::Bool(sv.partial_implementation)),
        ("notes"@, strings_json(sv.notes)),
    ]);
    object(out)
}

fn statements_value(v: &Vec<BrowserVersion>) -> (r: JsonValue)
    ensures
        json_view(r) == JsonView::Array(
            v@.map_values(|b: BrowserVersion| statement_view(b)).map_values(|x: StatementView| statement_json(x)),
        ),
{
    let ghost want = v@.map_values(|b: BrowserVersion| statement_view(b)).map_values(
        |x: StatementView| statement_json(x),
    );
    let mut out: Vec<JsonValue> = Vec::new();
    let mut i: usize = 0;
    while i < v.len()
        invariant
            i <= v@.len(),
            want == v@.map_values(|b: BrowserVersion| statement_view(b)).map_values(
                |x: StatementView| statement_json(x),
            ),
            iv(out@) == want.take(i as int),
        decreases v@.len() - i,
    {
        let x = statement_value(&v[i]);
        let ghost before = out@;
        out.push(x);
        proof {
            assert(iv(out@) =~= iv(before).push(json_view(x)));
            assert(want.take(i + 1) =~= want.take(i as int).push(want[i as int]));
        }
        assert(iv(out@) =~= want.take(i + 1));
        i = i + 1;
    }
    assert(want.take(v@.len() as int) =~= want);
    array(out)
}

/// The catalog's record of browser support.
pub fn support_value(s: &BrowserSupport) -> (r: JsonValue)
    ensures
        json_view(r) == support_json(support_view(*s)),
{
    let ghost want = mv_support(support_view(*s));
    let mut out: Vec<(String, JsonValue)> = Vec::new();
    let mut i: usize = 0;
    while i < s.entries.len()
        invariant
            i <= s.entries@.len(),
            want == mv_support(support_view(*s)),
            mv(out@) == want.take(i as int),
        decreases s.entries@.len() - i,
    {
        let statements = statements_value(&s.entries[i].1);
        let name = s.entries[i].0.clone();
        let ghost before = out@;
        out.push((name, statements));
        proof {
            assert(mv(out@) =~= mv(before).push((name@, json_view(statements))));
            assert(want.take(i + 1) =~= want.take(i as int).push(want[i as int]));
        }
        assert(mv(out@) =~= want.take(i + 1));
        i = i + 1;
    }
    assert(want.take(s.entries@.len() as int) =~= want);
    object(out)
}

pub open spec fn mv_support(s: SupportView) -> Seq<(Seq<char>, JsonView)> {
    s.map_values(
        |e: (Seq<char>, Seq<StatementView>)|
            (e.0, JsonView::Array(e.1.map_values(|x: StatementView| statement_json(x)))),
    )
}

fn disc_value(d: &Discouraged) -> (r: JsonValue)
    ensures
        json_view(r) == disc_json(disc_view(*d)),
{
    let mut out: Vec<(String, JsonValue)> = Vec::new();
    push_member(&mut out, "feature_id", jstring(d.feature_id.as_str()));
    push_member(&mut out, "compat_key", jstring(d.compat_key.as_str()));
    push_member(&mut out, "scope", jstring("feature"));
    push_opt_member(&mut out, "feature_name", opt_string_json(&d.feature_name));
    push_member(&mut out, "reason", jstring(d.reason.as_str()));
    push_opt_member(&mut out, "reason_html", opt_string_json(&d.reason_html));
    push_member(&mut out, "according_to", strings_value(&d.according_to));
    push_member(&mut out, "alternatives", strings_value(&d.alternatives));
    push_opt_member(&mut out, "removal_date", opt_string_json(&d.removal_date));
    let ghost dv = disc_view(*d);
    assert(mv(out@) =~= seq![
        ("feature_id"@, JsonView::String(dv.feature_id)),
        ("compat_key"@, JsonView::String(dv.compat_key)),
        ("scope"@, JsonView::String("feature"@)),
    ] + opt_field("feature_name"@, opt_str_json(dv.feature_name)) + seq![("reason"@, JsonView::String(dv.reason))]
        + opt_field("reason_html"@, opt_str_json(dv.reason_html)) + seq![
        ("according_to"@, strings_json(dv.according_to)),
        ("alternatives"@, strings_json(dv.alternatives)),
    ] + opt_field("removal_date"@, opt_str_json(dv.removal_date)));
    object(out)
}

/// The catalog's record of a list of advice.
pub fn discouraged_value(v: &Vec<Discouraged>) -> (r: JsonValue)
    ensures
        json_view(r) == discs_json(disc_views(v@)),
{
    let ghost want = disc_views(v@).map_values(|x: DiscView| disc_json(x));
    let mut out: Vec<JsonValue> = Vec::new();
    let mut i: usize = 0;
    while i < v.len()
        invariant
            i <= v@.len(),
            want == disc_views(v@).map_values(|x: DiscView| disc_json(x)),
            iv(out@) == want.take(i as int),
        decreases v@.len() - i,
    {
        let x = disc_value(&v[i]);
        let ghost before = out@;
        out.push(x);
        proof {
            assert(iv(out@) =~= iv(before).push(json_view(x)));
            assert(want.take(i + 1) =~= want.take(i as int).push(want[i as int]));
        }
        assert(iv(out@) =~= want.take(i + 1));
        i = i + 1;
    }
    assert(want.take(v@.len() as int) =~= want);
    array(out)
}

} // verus!
