use svg_toolkit::compat::{BaselineTier, FlagKind, VersionAdded};
use svg_toolkit::compat_json::{extract_browser_support, parse_baseline, parse_statement, resolve_baseline};
use svg_toolkit::compat_refresh::{bcd_outcome, bcd_record, provenance, resolve, wf_has_key, Source};
use svg_toolkit::json::{to_json_string, JsonValue};
use svg_toolkit::runtime_compat::{
    attribute_key, global_key, raw_attribute_name, CompatOverride, Outcome, RuntimeCompat,
};
use svg_toolkit::verdict::Facts;

fn convert(v: &serde_json::Value) -> JsonValue {
    match v {
        serde_json::Value::Null => JsonValue::Null,
        serde_json::Value::Bool(b) => JsonValue::Bool(*b),
        serde_json::Value::Number(n) => JsonValue::Number(n.to_string()),
        serde_json::Value::String(s) => JsonValue::String(s.clone()),
        serde_json::Value::Array(items) => JsonValue::Array(items.iter().map(convert).collect()),
        serde_json::Value::Object(map) => {
            JsonValue::Object(map.iter().map(|(k, v)| (k.clone(), convert(v))).collect())
        }
    }
}

fn j(text: &str) -> JsonValue {
    convert(&serde_json::from_str(text).expect("test JSON"))
}

fn source(name: &str, data: Option<JsonValue>) -> Source {
    Source {
        name: name.to_owned(),
        disabled: false,
        version: Some("fixture-2".to_owned()),
        url: "https://example.com/fixture-2".to_owned(),
        data,
    }
}

fn bundled() -> Vec<(String, String, String)> {
    vec![
        (
            "@mdn/browser-compat-data".to_owned(),
            "7.0.0".to_owned(),
            "https://example.com/bcd-7".to_owned(),
        ),
        (
            "web-features".to_owned(),
            "3.36.0".to_owned(),
            "https://example.com/wf-3".to_owned(),
        ),
    ]
}

fn same<T: std::fmt::Debug>(a: &T, b: &T) -> bool {
    format!("{a:?}") == format!("{b:?}")
}

#[test]
fn malformed_bcd_fields_are_unknown_and_do_not_keep_old_warnings() {
    let bcd = source(
        "@mdn/browser-compat-data",
        Some(j(r#"{"svg":{"elements":{"rect":{"__compat":{"status":{"deprecated":"maybe"},"support":{"chrome":{"version_added":null}}}}}}}"#)),
    );
    let wf = source("web-features", Some(j(r#"{"features":{}}"#)));
    let mut baked = Facts::empty();
    baked.deprecated = true;
    let record = resolve(baked, "svg.elements.rect", None, &bcd, &wf, &bundled());
    assert_eq!(record.sources[0].outcome, Outcome::Unknown);
    assert!(!record.facts.deprecated);
    let support = record.facts.browser_support.as_ref().expect("support");
    let chrome = support.get("chrome").expect("chrome");
    assert_eq!(chrome[0].supported(), None);
}

#[test]
fn resolves_baseline_from_web_features_by_compat_key() {
    let wf = j(r#"{"svg":{"compat_features":["svg.elements.rect","svg.elements.rect.width"],
        "status":{"baseline":"high","baseline_high_date":"2022-07-15","baseline_low_date":"2020-01-15",
        "by_compat_key":{"svg.elements.rect.width":{"baseline":"low","baseline_low_date":"2025-05-01"}}}}}"#);
    assert!(same(
        &resolve_baseline(Some(&wf), "svg.elements.rect.width"),
        &parse_baseline(&j(r#"{"baseline":"low","baseline_low_date":"2025-05-01"}"#))
    ));
    assert!(same(
        &resolve_baseline(Some(&wf), "svg.elements.rect"),
        &parse_baseline(&j(
            r#"{"baseline":"high","baseline_high_date":"2022-07-15","baseline_low_date":"2020-01-15"}"#
        ))
    ));
}

#[test]
fn qualified_baseline_date_yields_year_and_qualifier() {
    let wf = j(r#"{"svg":{"compat_features":["svg.elements.rect"],"status":{"baseline":"high",
        "baseline_high_date":"≤2020-01-05","baseline_low_date":"≤2018-01-05"}}}"#);
    assert!(same(
        &resolve_baseline(Some(&wf), "svg.elements.rect"),
        &parse_baseline(&j(
            r#"{"baseline":"high","baseline_high_date":"≤2020-01-05","baseline_low_date":"≤2018-01-05"}"#
        ))
    ));
}

#[test]
fn resolves_limited_baseline_from_false_status() {
    let wf = j(r#"{"feature":{"compat_features":["svg.elements.a.referrerPolicy"],"status":{"baseline":false}}}"#);
    assert!(same(
        &resolve_baseline(Some(&wf), "svg.elements.a.referrerPolicy"),
        &parse_baseline(&j(r#"{"baseline":false}"#))
    ));
}

#[test]
fn resolves_baseline_by_compat_key_override() {
    let wf = j(r#"{"feature":{"compat_features":["svg.elements.rect","svg.elements.rect.width"],
        "status":{"baseline":"high","baseline_high_date":"2022-01-01",
        "by_compat_key":{"svg.elements.rect.width":{"baseline":"low","baseline_low_date":"2025-01-01"}}}}}"#);
    assert!(same(
        &resolve_baseline(Some(&wf), "svg.elements.rect.width"),
        &parse_baseline(&j(r#"{"baseline":"low","baseline_low_date":"2025-01-01"}"#))
    ));
}

#[test]
fn resolves_qualified_baseline_dates() {
    let wf = j(r#"{"feature":{"compat_features":["svg.elements.feGaussianBlur"],
        "status":{"baseline":"high","baseline_high_date":"2018-01-29",
        "by_compat_key":{"svg.elements.feGaussianBlur":{"baseline":"high","baseline_high_date":"≤2021-04-02"}}}}}"#);
    assert!(same(
        &resolve_baseline(Some(&wf), "svg.elements.feGaussianBlur"),
        &parse_baseline(&j(r#"{"baseline":"high","baseline_high_date":"≤2021-04-02"}"#))
    ));
}

#[test]
fn support_states_and_caveats_are_not_collapsed() {
    let raw = j(r#"{"support":{
        "chrome":{"version_added":"≤50","version_removed":"70","flags":[{"type":"preference","name":"demo"}],
                  "notes":["first","second"],"prefix":"-x-","partial_implementation":true},
        "edge":{"version_added":"12"},"firefox":{"version_added":false},"safari":{"version_added":null}}}"#);
    let s = extract_browser_support(&raw).expect("support");
    let chrome = &s.get("chrome").expect("chrome")[0];
    assert_eq!(chrome.version(), Some("≤50"));
    assert_eq!(chrome.version_removed.as_deref(), Some("70"));
    assert_eq!(chrome.notes, ["first", "second"]);
    assert_eq!(chrome.flags[0].name, "demo");
    assert_eq!(chrome.prefix.as_deref(), Some("-x-"));
    assert!(chrome.partial_implementation);
    assert_eq!(s.get("edge").expect("edge")[0].supported(), Some(true));
    assert_eq!(s.get("firefox").expect("firefox")[0].supported(), Some(false));
    assert_eq!(s.get("safari").expect("safari")[0].supported(), None);
}

#[test]
fn version_and_flag_types_reject_invalid_upstream_values() {
    let st = parse_statement(&j(r#"{"version_added":true}"#)).expect("statement");
    assert!(st.version_added.is_none());
    assert!(parse_statement(&j(r#"{"version_added":"1","flags":[{"name":"missing-category"}]}"#)).is_none());
    assert!(parse_statement(&j(
        r#"{"version_added":"1","flags":[{"name":"bad-category","type":"other"}]}"#
    ))
    .is_none());
    let ok = parse_statement(&j(
        r#"{"version_added":"1","flags":[{"name":"f","type":"runtime_flag","value_to_set":"on"}]}"#,
    ))
    .expect("statement");
    assert_eq!(ok.flags[0].kind, FlagKind::RuntimeFlag);
    assert_eq!(ok.flags[0].value_to_set.as_deref(), Some("on"));
    assert!(matches!(ok.version_added, Some(VersionAdded::Version(ref v)) if v == "1"));
}

#[test]
fn bcd_records_are_found_by_dotted_key() {
    let data = j(r#"{"svg":{"elements":{"rect":{"__compat":{"status":{"deprecated":true}},
        "width":{"__compat":{"status":{}}}}}}}"#);
    let rect = bcd_record(&data, "svg.elements.rect").expect("rect");
    assert_eq!(
        to_json_string(rect),
        r#"{"status":{"deprecated":true}}"#
    );
    assert!(bcd_record(&data, "svg.elements.rect.width").is_some());
    assert!(bcd_record(&data, "svg.elements.circle").is_none());
    assert!(bcd_record(&data, "svg.elements").is_none());
}

#[test]
fn web_features_keys_are_listed_or_overridden() {
    let features = j(r#"{"a":{"compat_features":["svg.elements.rect"]},
        "b":{"status":{"by_compat_key":{"svg.elements.circle":{}}}}}"#);
    assert!(wf_has_key(Some(&features), "svg.elements.rect"));
    assert!(!wf_has_key(Some(&features), "svg.elements.circle"));
    assert!(!wf_has_key(Some(&features), "svg.elements.line"));
    assert!(!wf_has_key(None, "svg.elements.rect"));
}

#[test]
fn bcd_outcome_marks_malformed_records_unknown() {
    assert_eq!(
        bcd_outcome(&j(r#"{"status":{"deprecated":false},"support":{"chrome":{"version_added":"1"}}}"#)),
        Outcome::Loaded
    );
    assert_eq!(bcd_outcome(&j(r#"{"status":{"deprecated":"maybe"}}"#)), Outcome::Unknown);
    assert_eq!(
        bcd_outcome(&j(r#"{"support":{"chrome":{"version_added":null}}}"#)),
        Outcome::Unknown
    );
}

#[test]
fn failed_refresh_reports_bundled_identity() {
    let failed = source("web-features", None);
    let p = provenance(&failed, "svg.elements.rect", Outcome::Failed, &bundled());
    assert_eq!(p.source, "web-features");
    assert_eq!(p.version.as_deref(), Some("3.36.0"));
    assert_eq!(p.url, "https://example.com/wf-3");
    let loaded = provenance(&failed, "svg.elements.rect", Outcome::Loaded, &bundled());
    assert_eq!(loaded.version.as_deref(), Some("fixture-2"));
    assert_eq!(loaded.url, "https://example.com/fixture-2");
    let unknown_source = source("other", None);
    let q = provenance(&unknown_source, "k", Outcome::Disabled, &bundled());
    assert_eq!(q.version.as_deref(), Some("fixture-2"));
}

#[test]
fn failed_refresh_retains_baked_facts_and_absence_clears_them() {
    let mut baked = Facts::empty();
    baked.deprecated = true;
    baked.baseline = parse_baseline(&j(r#"{"baseline":"high"}"#));
    let failed = resolve(
        baked.clone(),
        "svg.elements.rect",
        None,
        &source("@mdn/browser-compat-data", None),
        &source("web-features", None),
        &bundled(),
    );
    assert!(same(&failed.facts, &baked));
    assert_eq!(failed.sources[0].outcome, Outcome::Failed);
    assert_eq!(failed.sources[1].outcome, Outcome::Failed);
    assert_eq!(failed.sources[1].version.as_deref(), Some("3.36.0"));
    let absent = resolve(
        baked,
        "svg.elements.rect",
        None,
        &source("@mdn/browser-compat-data", Some(j(r#"{"svg":{"elements":{}}}"#))),
        &source("web-features", Some(j(r#"{"features":{}}"#))),
        &bundled(),
    );
    assert!(!absent.facts.deprecated);
    assert!(absent.facts.baseline.is_none());
    assert!(absent.facts.browser_support.is_none());
    assert_eq!(absent.sources[0].outcome, Outcome::Absent);
    assert_eq!(absent.sources[1].outcome, Outcome::Absent);
    assert_eq!(absent.sources[1].version.as_deref(), Some("fixture-2"));
}

#[test]
fn element_context_falls_back_to_the_global_record() {
    let bcd = source(
        "@mdn/browser-compat-data",
        Some(j(r#"{"svg":{"global_attributes":{"width":{"__compat":{"status":{"experimental":true}}}}}}"#)),
    );
    let wf = source(
        "web-features",
        Some(j(r#"{"features":{"g":{"compat_features":["svg.global_attributes.width"],"status":{"baseline":"low"}}}}"#)),
    );
    let key = attribute_key("rect", "width");
    let global = global_key("width");
    let r = resolve(Facts::empty(), &key, Some(&global), &bcd, &wf, &bundled());
    assert!(r.facts.experimental);
    assert_eq!(r.sources[0].key, "svg.global_attributes.width");
    assert_eq!(r.sources[1].key, "svg.global_attributes.width");
    assert_eq!(r.facts.baseline.as_ref().and_then(|b| b.status), Some(BaselineTier::Newly));
    assert_eq!(r.sources[1].outcome, Outcome::Loaded);
}

#[test]
fn exact_unknown_web_features_status_is_reported_unknown() {
    let wf = source(
        "web-features",
        Some(j(r#"{"features":{"scoped":{"compat_features":["svg.elements.rect.width"],
            "status":{"baseline":"high","by_compat_key":{"svg.elements.rect.width":{}}}}}}"#)),
    );
    let bcd = source("@mdn/browser-compat-data", Some(j(r#"{"svg":{}}"#)));
    let r = resolve(Facts::empty(), "svg.elements.rect.width", None, &bcd, &wf, &bundled());
    assert!(r.facts.baseline.as_ref().is_none_or(|b| b.status.is_none()));
    assert_eq!(r.sources[1].outcome, Outcome::Unknown);
}

#[test]
fn attribute_keys_use_upstream_spelling() {
    assert_eq!(raw_attribute_name("xlink:href"), "xlink_href");
    assert_eq!(raw_attribute_name("referrerpolicy"), "referrerPolicy");
    assert_eq!(raw_attribute_name("data-*"), "data_attributes");
    assert_eq!(global_key("xml:lang"), "svg.global_attributes.xml_lang");
    assert_eq!(attribute_key("a", "referrerpolicy"), "svg.elements.a.referrerPolicy");
}

fn record(deprecated: bool, outcome: Outcome) -> CompatOverride {
    let mut facts = Facts::empty();
    facts.deprecated = deprecated;
    let p = |name: &str| svg_toolkit::runtime_compat::Provenance {
        source: name.to_owned(),
        version: None,
        url: String::new(),
        key: String::new(),
        outcome,
    };
    CompatOverride { facts, sources: [p("bcd"), p("wf")] }
}

#[test]
fn runtime_lookup_prefers_the_exact_context() {
    let rt = RuntimeCompat {
        elements: vec![],
        attributes: vec![("width".to_owned(), record(false, Outcome::Loaded))],
        attribute_contexts: vec![(
            ("rect".to_owned(), "width".to_owned()),
            record(true, Outcome::Loaded),
        )],
    };
    assert!(rt.attribute("width", Some("rect")).expect("rect").facts.deprecated);
    assert!(!rt.attribute("width", Some("svg")).expect("svg").facts.deprecated);
    assert!(!rt.attribute("width", None).expect("global").facts.deprecated);
    assert!(rt.attribute("height", Some("rect")).is_none());
    let flags = rt.to_lint_overrides();
    assert_eq!(flags.attributes.len(), 1);
    assert_eq!(flags.attribute_contexts.len(), 1);
    assert!(flags.attribute_contexts[0].1.deprecated);
    let verdicts = rt.to_verdict_overrides();
    assert_eq!(verdicts.attributes[0].1.headline_template, "safe to use");
    assert!(!verdicts.attribute_contexts[0].1.reasons.is_empty());
}

#[test]
fn failed_records_are_not_lint_overrides() {
    let rt = RuntimeCompat {
        elements: vec![("rect".to_owned(), record(true, Outcome::Failed))],
        attributes: vec![("width".to_owned(), record(true, Outcome::Disabled))],
        attribute_contexts: vec![],
    };
    let flags = rt.to_lint_overrides();
    assert_eq!(flags.elements.len(), 0);
    assert_eq!(flags.attributes.len(), 0);
}

#[test]
fn json_text_matches_compact_serialization() {
    let text = r#"{"a":[1,true,null,"x\"y\n"],"b":{},"c":-2.5}"#;
    let v: serde_json::Value = serde_json::from_str(text).expect("json");
    assert_eq!(to_json_string(&convert(&v)), serde_json::to_string(&v).expect("text"));
    assert_eq!(to_json_string(&JsonValue::String("\u{1}".to_owned())), "\"\\u0001\"");
}

#[test]
fn json_accessors_read_members() {
    let v = j(r#"{"name":"x","flag":true,"inner":{"k":1}}"#);
    assert_eq!(v.get("name").and_then(|n| n.as_str()), Some("x"));
    assert_eq!(v.get("flag").and_then(|n| n.as_bool()), Some(true));
    assert!(v.get("inner").expect("inner").is_object());
    assert!(v.get("missing").is_none());
    assert!(JsonValue::Null.get("name").is_none());
}
