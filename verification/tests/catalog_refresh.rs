use svg_toolkit::catalog_refresh::refresh_documents;
use svg_toolkit::compat_catalog::{CatalogCompatSubfeatureKind, CatalogPackageSource, CompatCatalog};
use svg_toolkit::compat_collect::compat_catalog_from;
use svg_toolkit::json::{parse_json, JsonValue};

fn json(text: &str) -> JsonValue {
    parse_json(text).expect("valid JSON")
}

fn source(name: &str) -> CatalogPackageSource {
    CatalogPackageSource {
        name: name.to_owned(),
        version: "1.0.0".to_owned(),
        url: format!("https://example.test/{name}/data.json"),
    }
}

fn string_of(v: Option<&JsonValue>) -> Option<String> {
    match v {
        Some(JsonValue::String(s)) => Some(s.clone()),
        _ => None,
    }
}

const BCD: &str = r#"{"svg":{
    "elements":{
        "rect":{
            "__compat":{"mdn_url":"https://mdn.test/rect","status":{"deprecated":true},
                        "support":{"chrome":{"version_added":"1"}}},
            "width":{"__compat":{"status":{"experimental":true}}},
            "xlink_href":{"__compat":{"status":{"deprecated":true}}}
        },
        "circle":{
            "width":{"__compat":{"status":{"experimental":true}}}
        }
    },
    "global_attributes":{
        "class":{"__compat":{"status":{"standard_track":true}}},
        "data_uri":{"__compat":{}}
    }
}}"#;

fn catalog() -> CompatCatalog {
    compat_catalog_from(&json(BCD), &json(r#"{"features":{}}"#), source("bcd"), source("web-features"))
        .ok()
        .expect("catalog")
}

#[test]
fn parses_json_text_into_values() {
    let v = json(r#"{"a":[1,true,null,"x"],"b":{}}"#);
    match v.get("a") {
        Some(JsonValue::Array(items)) => {
            assert_eq!(items.len(), 4);
            assert!(matches!(&items[0], JsonValue::Number(n) if n == "1"));
            assert!(matches!(items[1], JsonValue::Bool(true)));
            assert!(matches!(items[2], JsonValue::Null));
            assert!(matches!(&items[3], JsonValue::String(s) if s == "x"));
        }
        _ => panic!("array expected"),
    }
    assert!(parse_json("{not json").is_none());
}

#[test]
fn collects_element_attribute_and_unmodeled_records() {
    let c = catalog();
    assert_eq!(c.elements.len(), 1);
    assert_eq!(c.elements[0].0, "rect");
    assert!(c.elements[0].1.deprecated);
    assert_eq!(c.elements[0].1.mdn_url.as_deref(), Some("https://mdn.test/rect"));
    assert!(c.elements[0].1.browser_support.is_some());

    let names: Vec<&str> = c.attributes.iter().map(|(n, _)| n.as_str()).collect();
    assert_eq!(names, vec!["class", "width"]);
    let class = &c.attributes[0].1;
    assert!(class.is_global());
    assert_eq!(class.global_facts.as_ref().and_then(|f| f.standard_track), Some(true));
    let width = &c.attributes[1].1;
    assert!(!width.is_global());
    let bearers: Vec<&str> = width.bearers().into_iter().map(String::as_str).collect();
    assert_eq!(bearers, vec!["circle", "rect"]);
    assert!(width.common_facts().map(|f| f.experimental).unwrap_or(false));

    let unmodeled = &c.provenance.unmodeled_features;
    assert_eq!(unmodeled.len(), 1);
    assert_eq!(unmodeled[0].compat_key, "svg.elements.rect.xlink_href");
    assert_eq!(unmodeled[0].kind, CatalogCompatSubfeatureKind::LegacyXlinkAlias);
    assert_eq!(unmodeled[0].element, "rect");
    assert!(unmodeled[0].facts.deprecated);
    assert_eq!(c.provenance.browser_compat_data.name, "bcd");
    assert_eq!(c.provenance.web_features.name, "web-features");
}

#[test]
fn repeated_attribute_records_merge_and_disagreement_has_no_common_facts() {
    let bcd = json(
        r#"{"svg":{"elements":{
            "a":{"href":{"__compat":{"status":{"deprecated":true}}}},
            "b":{"href":{"__compat":{"status":{"experimental":true}}}}
        }}}"#,
    );
    let c = compat_catalog_from(&bcd, &json("{}"), source("bcd"), source("wf")).ok().expect("catalog");
    assert_eq!(c.attributes.len(), 1);
    assert!(c.attributes[0].1.common_facts().is_none());
}

#[test]
fn missing_svg_elements_is_an_error() {
    let r = compat_catalog_from(&json(r#"{"svg":{}}"#), &json("{}"), source("bcd"), source("wf"));
    match r {
        Err(e) => assert_eq!(e.message, "browser-compat-data missing /svg/elements object"),
        Ok(_) => panic!("error expected"),
    }
}

#[test]
fn refresh_replaces_only_compat_members() {
    let c = catalog();
    let mut core = json(
        r#"{"elements":[{"name":"rect","description":"kept","baseline":{"status":"widely"}},
                        {"name":"g","browser_support":{"chrome":[]}}],
            "attributes":[{"name":"width","spec":"kept","element_compat":[
                {"element":"circle","discouraged":[]},{"element":"svg","baseline":{}}]}]}"#,
    );
    let mut provenance = json(
        r#"{"unmodeled_features":[{"compat_key":"svg.elements.rect.xlink_href","note":"kept"}]}"#,
    );
    assert!(refresh_documents(&mut core, &mut provenance, &c, 3).is_ok());

    let elements = match core.get("elements") {
        Some(JsonValue::Array(items)) => items,
        _ => panic!("elements expected"),
    };
    assert_eq!(string_of(elements[0].get("description")).as_deref(), Some("kept"));
    assert!(elements[0].get("baseline").is_none());
    assert!(elements[0].get("browser_support").is_some());
    assert!(elements[1].get("browser_support").is_none());

    let attributes = match core.get("attributes") {
        Some(JsonValue::Array(items)) => items,
        _ => panic!("attributes expected"),
    };
    assert_eq!(string_of(attributes[0].get("spec")).as_deref(), Some("kept"));
    let contexts = match attributes[0].get("element_compat") {
        Some(JsonValue::Array(items)) => items,
        _ => panic!("contexts expected"),
    };
    assert!(contexts[0].get("discouraged").is_none());
    assert!(contexts[1].get("baseline").is_none());
    assert!(matches!(core.get("schema_version"), Some(JsonValue::Number(n)) if n == "3"));

    let features = match provenance.get("unmodeled_features") {
        Some(JsonValue::Array(items)) => items,
        _ => panic!("features expected"),
    };
    assert_eq!(string_of(features[0].get("note")).as_deref(), Some("kept"));
    assert!(matches!(provenance.get("schema_version"), Some(JsonValue::Number(n)) if n == "3"));
}

#[test]
fn refresh_writes_support_statements_in_catalog_shape() {
    let c = catalog();
    let mut core = json(r#"{"elements":[{"name":"rect"}],"attributes":[]}"#);
    let mut provenance = json("{}");
    assert!(refresh_documents(&mut core, &mut provenance, &c, 7).is_ok());
    let elements = match core.get("elements") {
        Some(JsonValue::Array(items)) => items,
        _ => panic!("elements expected"),
    };
    let chrome = match elements[0].get("browser_support").and_then(|s| s.get("chrome")) {
        Some(JsonValue::Array(statements)) => statements,
        _ => panic!("statements expected"),
    };
    assert_eq!(string_of(chrome[0].get("version_added")).as_deref(), Some("1"));
    assert!(matches!(chrome[0].get("partial_implementation"), Some(JsonValue::Bool(false))));
    assert!(matches!(chrome[0].get("flags"), Some(JsonValue::Array(f)) if f.is_empty()));
}

#[test]
fn refresh_reports_malformed_documents() {
    let c = catalog();
    let mut core = json(r#"{"elements":{}}"#);
    let mut provenance = json("{}");
    match refresh_documents(&mut core, &mut provenance, &c, 1) {
        Err(e) => assert_eq!(e.message, "catalog elements must be an array"),
        Ok(()) => panic!("error expected"),
    }
    let mut core = json(r#"{"elements":[{"title":"x"}],"attributes":[]}"#);
    match refresh_documents(&mut core, &mut provenance, &c, 1) {
        Err(e) => assert_eq!(e.message, "missing string field: name"),
        Ok(()) => panic!("error expected"),
    }
    let mut core = json(r#"{"elements":[]}"#);
    match refresh_documents(&mut core, &mut provenance, &c, 1) {
        Err(e) => assert_eq!(e.message, "catalog attributes must be an array"),
        Ok(()) => panic!("error expected"),
    }
    let mut core = json(r#"{"elements":[],"attributes":[]}"#);
    let mut provenance = json(r#"{"unmodeled_features":[{"key":"x"}]}"#);
    match refresh_documents(&mut core, &mut provenance, &c, 1) {
        Err(e) => assert_eq!(e.message, "missing string field: compat_key"),
        Ok(()) => panic!("error expected"),
    }
}
