use svg_toolkit::chapter::PropertyValueDef;
use svg_toolkit::value_space::{
    apply_derived_value_space, quoted_keyword_values, repair_css_type_tokens,
    resolve_source_grammar, strip_type_range_annotations, value_from_property_reference,
    value_from_see_below_description, values_for_property,
};
use svg_toolkit::values::{CatalogAttributeValues, GrammarProjectionInputs};

fn property(name: &str, id: Option<&str>, value: Option<&str>, keywords: &[&str]) -> PropertyValueDef {
    PropertyValueDef {
        name: name.into(),
        id: id.map(Into::into),
        value: value.map(Into::into),
        keywords: keywords.iter().map(|k| (*k).to_owned()).collect(),
        initial: None,
        applies_to: None,
        inherited: None,
        computed_value: None,
        animation_type: None,
    }
}

fn inputs() -> GrammarProjectionInputs {
    GrammarProjectionInputs {
        transform_functions: vec!["matrix".into(), "rotate".into()],
        property_syntaxes: vec![("writing-mode".into(), "horizontal-tb | vertical-rl".into())],
        type_syntaxes: vec![("opacity-value".into(), "<number> | <percentage>".into())],
    }
}

#[test]
fn type_tokens_are_closed_and_markers_moved_out() {
    assert_eq!(repair_css_type_tokens("<mask-layer#>"), "<mask-layer>#");
    assert_eq!(repair_css_type_tokens("<length?"), "<length>?");
    assert_eq!(repair_css_type_tokens("a < b"), "a < b");
    assert_eq!(repair_css_type_tokens("<'opacity'>"), "<'opacity'>");
    assert_eq!(strip_type_range_annotations("<number [0,\u{221e}]> | auto"), "<number> | auto");
    assert_eq!(strip_type_range_annotations("[ a | b ]"), "[ a | b ]");
}

#[test]
fn keyword_grammars_become_sorted_enums() {
    let values = values_for_property(
        &property("fill-rule", None, Some("nonzero | evenodd"), &["nonzero", "evenodd", "nonzero"]),
        &vec![],
        None,
    );
    match values {
        CatalogAttributeValues::Enum { values } => assert_eq!(values, ["evenodd", "nonzero"]),
        other => panic!("{other:?}"),
    }
}

#[test]
fn named_types_become_their_value_spaces() {
    let d = vec![];
    assert!(matches!(
        values_for_property(&property("x", None, Some("<number>"), &[]), &d, None),
        CatalogAttributeValues::Number
    ));
    assert!(matches!(
        values_for_property(&property("fill", None, Some("<paint>"), &[]), &d, None),
        CatalogAttributeValues::Paint
    ));
    assert!(matches!(
        values_for_property(&property("stop-opacity", None, Some("<\u{2018}'opacity'\u{2019}>"), &[]), &d, None),
        CatalogAttributeValues::NumberOrPercentage
    ));
    assert!(matches!(
        values_for_property(&property("d", None, Some("path data"), &[]), &d, None),
        CatalogAttributeValues::PathData
    ));
    assert!(matches!(
        values_for_property(&property("x", None, None, &[]), &d, None),
        CatalogAttributeValues::FreeText
    ));
    assert!(matches!(
        values_for_property(&property("begin", None, Some("begin-value-list"), &[]), &d, None),
        CatalogAttributeValues::Unresolved
    ));
    match values_for_property(&property("width", None, Some("<length-percentage>"), &[]), &d, None) {
        CatalogAttributeValues::CssGrammar { grammar, graph } => {
            assert_eq!(grammar, "auto | <length-percentage>");
            assert_eq!(graph.root, 0);
            assert!(!graph.nodes.is_empty());
        }
        other => panic!("{other:?}"),
    }
    match values_for_property(&property("clip", None, Some("<shape> | auto"), &[]), &d, None) {
        CatalogAttributeValues::CssGrammar { grammar, .. } => assert_eq!(grammar, "<shape> | auto"),
        other => panic!("{other:?}"),
    }
    let i = inputs();
    match values_for_property(&property("transform", None, Some("<transform-list>"), &[]), &d, Some(&i)) {
        CatalogAttributeValues::Transform { functions } => assert_eq!(functions, ["matrix", "rotate"]),
        other => panic!("{other:?}"),
    }
}

#[test]
fn see_below_values_read_their_prose() {
    let descriptions = vec![(
        "x".to_owned(),
        "The possible values are 'b', 'a' and 'not a keyword'.".to_owned(),
    )];
    match values_for_property(&property("k", Some("x"), Some("(see below)"), &[]), &descriptions, None) {
        CatalogAttributeValues::Enum { values } => assert_eq!(values, ["a", "b"]),
        other => panic!("{other:?}"),
    }
    assert!(matches!(
        values_for_property(&property("k", Some("y"), Some("see below"), &[]), &descriptions, None),
        CatalogAttributeValues::FreeText
    ));
    assert!(matches!(
        value_from_see_below_description("It must not be an empty string and must not contain any whitespace."),
        CatalogAttributeValues::Id
    ));
    assert_eq!(quoted_keyword_values("'b' or 'a' or 'b'"), ["a", "b"]);
    assert!(value_from_property_reference("<color>").is_none());
}

#[test]
fn source_grammars_expand_one_bare_type() {
    let i = inputs();
    let d = vec![];
    assert!(matches!(
        resolve_source_grammar("opacity", "<opacity-value>", Some(&i), &d),
        Some(CatalogAttributeValues::NumberOrPercentage)
    ));
    assert!(resolve_source_grammar("title", "<anything>", Some(&i), &d).is_none());
}

#[test]
fn derived_value_spaces_fill_free_text_only() {
    let i = inputs();
    let d = vec![];
    let svg11 = vec![("kerning".to_owned(), "auto | <length>".to_owned())];
    let mut v = CatalogAttributeValues::FreeText;
    apply_derived_value_space("async", &mut v, None, Some(&i), &svg11, &d);
    assert!(matches!(v, CatalogAttributeValues::Boolean));
    let mut v = CatalogAttributeValues::FreeText;
    apply_derived_value_space("writing-mode", &mut v, None, Some(&i), &svg11, &d);
    match v {
        CatalogAttributeValues::Enum { values } => assert_eq!(values, ["horizontal-tb", "vertical-rl"]),
        other => panic!("{other:?}"),
    }
    let mut v = CatalogAttributeValues::FreeText;
    apply_derived_value_space("kerning", &mut v, None, Some(&i), &svg11, &d);
    assert!(matches!(v, CatalogAttributeValues::CssGrammar { .. }));
    let mut v = CatalogAttributeValues::FreeText;
    apply_derived_value_space("onclick", &mut v, None, Some(&i), &svg11, &d);
    assert!(matches!(v, CatalogAttributeValues::FreeText));
    let mut v = CatalogAttributeValues::FreeText;
    apply_derived_value_space("mystery", &mut v, None, Some(&i), &svg11, &d);
    assert!(matches!(v, CatalogAttributeValues::Unresolved));
    let mut v = CatalogAttributeValues::Number;
    apply_derived_value_space("mystery", &mut v, None, Some(&i), &svg11, &d);
    assert!(matches!(v, CatalogAttributeValues::Number));
}
