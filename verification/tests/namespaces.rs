use svg_toolkit::namespaces::{
    declares_default_namespace, expand_attribute_name, expand_element_name,
    resolves_to_svg_namespace, scope_for_tag, split_qualified_name, trim_attr_value,
    ExpandedName, NamespaceScope, TagLink, SVG_NAMESPACE_URI, XLINK_NAMESPACE_URI,
};

#[test]
fn prefixed_element_without_binding_does_not_inherit_default_namespace() {
    let scope = NamespaceScope {
        default_namespace: Some(SVG_NAMESPACE_URI),
        prefixes: Vec::new(),
    };

    assert_eq!(
        expand_element_name("sodipodi:namedview", &scope),
        ExpandedName {
            namespace_uri: None,
            local_name: "namedview",
        }
    );
}

fn link<'a>(name: &'a str, attributes: Vec<(&'a str, Option<&'a str>)>) -> TagLink<'a> {
    TagLink { name: Some(name), attributes }
}

/// Resolve each element of a document given as nested chains.
fn resolves(chain: Vec<TagLink<'_>>) -> bool {
    resolves_to_svg_namespace(&chain, &vec!["foreignObject"])
}

#[test]
fn unbound_svg_root_resolves_itself_and_its_children_as_svg() {
    assert!(resolves(vec![link("svg", vec![])]));
    assert!(resolves(vec![link("svg", vec![]), link("rect", vec![])]));
}

#[test]
fn a_foreign_default_namespace_wins_over_the_svg_name() {
    let xhtml = vec![("xmlns", Some("\"http://www.w3.org/1999/xhtml\""))];
    assert!(!resolves(vec![link("svg", xhtml.clone())]));
    assert!(!resolves(vec![link("svg", xhtml), link("svg", vec![])]));
}

#[test]
fn a_prefixed_foreign_element_is_not_svg() {
    let attrs = vec![("xmlns:html", Some("\"http://www.w3.org/1999/xhtml\""))];
    assert!(resolves(vec![link("svg", attrs.clone())]));
    assert!(!resolves(vec![link("svg", attrs), link("html:title", vec![])]));
}

#[test]
fn foreign_content_children_do_not_resolve_to_svg() {
    assert!(resolves(vec![link("svg", vec![]), link("foreignObject", vec![])]));
    assert!(!resolves(vec![
        link("svg", vec![]),
        link("foreignObject", vec![]),
        link("div", vec![])
    ]));
}

#[test]
fn svg_redeclared_inside_foreign_content_resolves_again() {
    let svg = vec![("xmlns", Some("\"http://www.w3.org/2000/svg\""))];
    assert!(resolves(vec![
        link("svg", vec![]),
        link("foreignObject", vec![]),
        link("svg", svg.clone()),
        link("rect", vec![])
    ]));
}

#[test]
fn an_empty_prefix_declaration_undeclares_the_inherited_binding() {
    let bind = vec![("xmlns:p", Some("\"http://www.w3.org/2000/svg\""))];
    let unbind = vec![("xmlns:p", Some("\"\""))];
    assert!(resolves(vec![link("svg", bind.clone()), link("g", unbind.clone())]));
    assert!(!resolves(vec![
        link("svg", bind),
        link("g", unbind),
        link("p:rect", vec![])
    ]));
}

#[test]
fn scope_for_tag_reads_namespace_values() {
    let attrs = vec![
        ("xmlns", Some("\"http://www.w3.org/2000/svg\"")),
        ("xmlns:xlink", Some(" 'http://www.w3.org/1999/xlink' ")),
        ("width", Some("10")),
    ];
    let scope = scope_for_tag(&attrs, &NamespaceScope::default());
    assert_eq!(scope.default_namespace(), Some(SVG_NAMESPACE_URI));
    assert_eq!(scope.resolve_prefix("xlink"), Some(XLINK_NAMESPACE_URI));
    assert!(declares_default_namespace(&attrs));
    assert!(!declares_default_namespace(&vec![("xmlns:a", None)]));
    assert!(declares_default_namespace(&vec![("xmlns", None)]));
}

#[test]
fn names_split_at_the_first_colon() {
    assert_eq!(split_qualified_name("a:b:c"), (Some("a"), "b:c"));
    assert_eq!(split_qualified_name("rect"), (None, "rect"));
    assert_eq!(trim_attr_value(" \"x\" "), "x");
    assert_eq!(trim_attr_value("''"), "");
}

#[test]
fn unbound_xlink_attributes_stay_in_the_xlink_namespace() {
    let scope = NamespaceScope::default();
    assert_eq!(
        expand_attribute_name("xlink:href", &scope).namespace_uri,
        Some(XLINK_NAMESPACE_URI)
    );
    assert_eq!(expand_attribute_name("href", &scope).namespace_uri, None);
    assert_eq!(expand_attribute_name("foo:bar", &scope).namespace_uri, None);
}
