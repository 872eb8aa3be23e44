use svg_toolkit::legacy::{
    extract_svg11_property_index, keyword_only_values, merge_value_overrides, normalized_property_name,
    svg11_property_indexes, LegacyValueOverrides,
};
use svg_toolkit::snapshot::SpecSnapshotId;
use svg_toolkit::values::CatalogAttributeValues;

fn enum_values(v: &CatalogAttributeValues) -> Option<Vec<String>> {
    match v {
        CatalogAttributeValues::Enum { values } => Some(values.clone()),
        _ => None,
    }
}

fn get<'a>(o: &'a LegacyValueOverrides, name: &str) -> Option<&'a Vec<svg_toolkit::legacy::CatalogAttributeValueOverride>> {
    o.attributes.iter().find(|(n, _)| n == name).map(|(_, v)| v)
}

#[test]
fn extracts_keyword_only_svg11_property_values() {
    let html = r#"
            <table class="property-table">
              <tr>
                <td><a href="painting.html#DisplayProperty"><span>'display'</span></a></td>
                <td>inline | block | list-item | run-in | compact |
                    marker | table | inline-table | table-row-group |
                    table-header-group | table-footer-group | table-row |
                    table-column-group | table-column | table-cell |
                    table-caption | none | <a><span>inherit</span></a></td>
                    <td>inline</td>
              </tr>
              <tr>
                <td><a href="painting.html#StrokeLinecapProperty"><span>'stroke-linecap'</span></a></td>
                <td>butt | round | square | inherit</td>
                <td>butt</td>
              </tr>
              <tr>
                <td><a href="painting.html#StrokeDasharrayProperty"><span>'stroke-dasharray'</span></a></td>
                <td>none | &lt;dasharray&gt;</td>
                <td>none</td>
              </tr>
            </table>
        "#;

    let sources = svg11_property_indexes();
    let overrides = extract_svg11_property_index(&sources[0], html).expect("overrides");
    let display = get(&overrides, "display").and_then(|o| o.first()).expect("missing display override");

    assert_eq!(display.profile, SpecSnapshotId::Svg11Rec20030114);
    let expected: Vec<String> = [
        "block",
        "compact",
        "inherit",
        "inline",
        "inline-table",
        "list-item",
        "marker",
        "none",
        "run-in",
        "table",
        "table-caption",
        "table-cell",
        "table-column",
        "table-column-group",
        "table-footer-group",
        "table-header-group",
        "table-row",
        "table-row-group",
    ]
    .into_iter()
    .map(str::to_owned)
    .collect();
    assert_eq!(enum_values(&display.values), Some(expected));
    assert!(get(&overrides, "stroke-linecap").is_some(), "keyword-only rows should become overrides");
    assert!(
        get(&overrides, "stroke-dasharray").is_none(),
        "mixed grammars must not collapse to keyword-only enums"
    );
}

#[test]
fn a_page_without_keyword_rows_is_an_error() {
    let sources = svg11_property_indexes();
    let r = extract_svg11_property_index(&sources[1], "<table><tr><td>'x'</td><td>&lt;length&gt;</td></tr></table>");
    assert_eq!(
        r.err().map(|e| e.message),
        Some("SVG 1.1 property index had no keyword-only rows".to_owned())
    );
}

#[test]
fn keyword_only_values_sort_and_dedup() {
    assert_eq!(
        keyword_only_values(" b | a | b "),
        Some(vec!["a".to_owned(), "b".to_owned()])
    );
    assert_eq!(keyword_only_values("a | <length>"), None);
    assert_eq!(keyword_only_values("a ||b"), None);
    assert_eq!(normalized_property_name("'stroke-linecap'"), "stroke-linecap");
}

#[test]
fn merging_pages_appends_sources_and_overrides() {
    let sources = svg11_property_indexes();
    let first = extract_svg11_property_index(
        &sources[0],
        "<tr><td>'b'</td><td>x | y</td></tr><tr><td>'a'</td><td>p</td></tr>",
    )
    .expect("first");
    let second = extract_svg11_property_index(
        &sources[1],
        "<tr><td>'c'</td><td>q</td></tr><tr><td>'a'</td><td>r | s</td></tr>",
    )
    .expect("second");
    let mut all = LegacyValueOverrides { sources: vec![], attributes: vec![] };
    merge_value_overrides(&mut all, first);
    merge_value_overrides(&mut all, second);
    assert_eq!(all.sources.len(), 2);
    assert_eq!(all.sources[1].profile, SpecSnapshotId::Svg11Rec20110816);
    let names: Vec<&str> = all.attributes.iter().map(|(n, _)| n.as_str()).collect();
    assert_eq!(names, ["a", "b", "c"]);
    let a = get(&all, "a").expect("a");
    assert_eq!(a.len(), 2);
    assert_eq!(a[0].profile, SpecSnapshotId::Svg11Rec20030114);
    assert_eq!(enum_values(&a[1].values), Some(vec!["r".to_owned(), "s".to_owned()]));
}
