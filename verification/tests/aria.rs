use svg_toolkit::aria::{aria_sections, aria_token, map_value_type, parse_aria_value_index, section_value_space, AriaValueIndex};
use svg_toolkit::values::CatalogAttributeValues;

#[test]
fn maps_value_types_to_spaces() {
    assert!(matches!(
        map_value_type("true/false", &vec![]),
        Some(CatalogAttributeValues::Boolean)
    ));
    assert!(matches!(
        map_value_type("ID reference list", &vec![]),
        Some(CatalogAttributeValues::IdList)
    ));
    assert!(matches!(
        map_value_type("number", &vec![]),
        Some(CatalogAttributeValues::Number)
    ));
    assert!(matches!(
        map_value_type("string", &vec![]),
        Some(CatalogAttributeValues::FreeText)
    ));
}

#[test]
fn token_types_need_tokens_and_tristate_enumerates() {
    assert!(map_value_type("token", &vec![]).is_none());
    match map_value_type(" Token ", &vec!["inline".to_owned(), "none".to_owned()]) {
        Some(CatalogAttributeValues::Enum { values }) => assert_eq!(values, ["inline", "none"]),
        _ => panic!("token enumerates its values"),
    }
    match map_value_type("tristate", &vec![]) {
        Some(CatalogAttributeValues::Enum { values }) => {
            assert_eq!(values, ["false", "mixed", "true", "undefined"])
        }
        _ => panic!("tristate is an enumeration"),
    }
    assert!(map_value_type("unknown type", &vec![]).is_none());
    assert_eq!(aria_token(" none (default) "), "none");
    assert_eq!(aria_token(" list "), "list");
}

#[test]
fn sections_split_at_marked_aria_ids() {
    let html = r#"<p id="aria-x">skip</p>
<section id="aria-autocomplete" property="bibo:hasPart">A</section>
<section id="aria-Bad" property="bibo:hasPart">B</section>
<section id="aria-checked" class="x" property="bibo:hasPart">C</section>"#;
    let sections = aria_sections(html);
    let names: Vec<&str> = sections.iter().map(|(n, _)| n.as_str()).collect();
    assert_eq!(names, ["aria-autocomplete", "aria-checked"]);
    assert!(sections[0].1.starts_with("id=\"aria-autocomplete\""));
    assert!(sections[0].1.contains("aria-Bad"));
    assert!(sections[1].1.ends_with("C</section>"));
    let index = AriaValueIndex {
        values: vec![("aria-busy".to_owned(), CatalogAttributeValues::Boolean)],
    };
    assert!(matches!(index.get("aria-busy"), Some(CatalogAttributeValues::Boolean)));
    assert!(index.get("aria-hidden").is_none());
    assert_eq!(index.len(), 1);
}

const SECTION: &str = r#"
<section id="aria-autocomplete" property="bibo:hasPart">
  <table class="property-features"><caption>Characteristics:</caption>
    <tbody>
      <tr><th class="property-applicability-head" scope="row">Used in Roles:</th><td>combobox</td></tr>
      <tr><th class="property-value-head" scope="row">Value:</th><td class="property-value">token</td></tr>
    </tbody>
  </table>
  <table class="value-descriptions"><caption>Values:</caption>
    <tbody>
      <tr><th class="value-name" scope="row">inline</th><td>x</td></tr>
      <tr><th class="value-name" scope="row">list</th><td>x</td></tr>
      <tr><th class="value-name" scope="row">none (default)</th><td>x</td></tr>
    </tbody>
  </table>
</section>
<section id="aria-checked" property="bibo:hasPart">
  <table class="property-features"><tbody>
    <tr><th scope="row">Value:</th><td>tristate</td></tr>
  </tbody></table>
</section>"#;

fn enum_values(v: Option<&CatalogAttributeValues>) -> Option<Vec<String>> {
    match v {
        Some(CatalogAttributeValues::Enum { values }) => Some(values.clone()),
        _ => None,
    }
}

#[test]
fn extracts_token_enum_and_tristate() {
    let index = parse_aria_value_index(SECTION).expect("parse");
    assert_eq!(
        enum_values(index.get("aria-autocomplete")),
        Some(vec!["inline".to_owned(), "list".to_owned(), "none".to_owned()])
    );
    assert_eq!(
        enum_values(index.get("aria-checked")),
        Some(vec![
            "false".to_owned(),
            "mixed".to_owned(),
            "true".to_owned(),
            "undefined".to_owned(),
        ])
    );
}

#[test]
fn aria_index_is_in_name_order_with_each_name_once() {
    let html = r#"<section id="aria-zeta" property="bibo:hasPart"><table class="state-features"><tr><th>Value:</th><td>number</td></tr></table></section>
<section id="aria-alpha" property="bibo:hasPart"><table class="property-features"><tr><th>Value:</th><td>ID reference</td></tr></table></section>
<section id="aria-zeta" property="bibo:hasPart"><table class="property-features"><tr><th>Value:</th><td>integer</td></tr></table></section>
<section id="aria-mid" property="bibo:hasPart"><p>no table</p></section>"#;
    let index = parse_aria_value_index(html).expect("parse");
    let names: Vec<&str> = index.values.iter().map(|(n, _)| n.as_str()).collect();
    assert_eq!(names, ["aria-alpha", "aria-zeta"]);
    assert!(matches!(index.get("aria-zeta"), Some(CatalogAttributeValues::Integer)));
    assert!(matches!(index.get("aria-alpha"), Some(CatalogAttributeValues::Id)));
    assert!(index.get("aria-mid").is_none());
    assert_eq!(index.len(), 2);
}

#[test]
fn a_section_without_a_value_row_has_no_value_space() {
    let r = section_value_space(r#"<table class="property-features"><tr><th>Used in Roles:</th><td>all</td></tr></table>"#)
        .expect("parse");
    assert!(r.is_none());
    let t = section_value_space(r#"<table class="property-features"><tr><th>Value:</th><td>token</td></tr></table>
<table><tr><th class="state-name">on</th></tr><tr><th class="state-name">off (default)</th></tr></table>"#)
        .expect("parse");
    assert_eq!(enum_values(t.as_ref()), Some(vec!["on".to_owned(), "off".to_owned()]));
}
