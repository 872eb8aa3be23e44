use svg_toolkit::lifecycle_prose::{
    draft_chapter_pages, extract, is_skipped_page, lifecycle_base, lifecycle_overview_url,
    overview_chapters, paragraph_declarations, split_owners, status, DeclarationIndex,
};
use svg_toolkit::snapshot::SpecSnapshotId;
use svg_toolkit::spec_lifecycle::{
    apply, reconcile_inventory, CatalogDeclaredStatus, CatalogInventory, CatalogInventoryElement,
    CatalogLifecycleDeclaration, CatalogSnapshot, CatalogSnapshotLifecycle, Declaration,
};

fn snapshot_of(inventory: &CatalogInventory) -> CatalogSnapshot {
    CatalogSnapshot {
        profile: inventory.profile,
        inventory: inventory.clone(),
        lifecycle: CatalogSnapshotLifecycle {
            elements: Vec::new(),
            attributes: Vec::new(),
        },
    }
}

fn text_and_links_inventory() -> CatalogInventory {
    CatalogInventory {
        profile: SpecSnapshotId::Svg2EditorsDraft,
        sources: vec![],
        elements: vec![
            CatalogInventoryElement {
                name: "text".into(),
                attributes: vec![
                    "glyph-orientation-horizontal".into(),
                    "glyph-orientation-vertical".into(),
                ],
            },
            CatalogInventoryElement {
                name: "use".into(),
                attributes: vec!["href".into()],
            },
            CatalogInventoryElement {
                name: "image".into(),
                attributes: vec!["href".into()],
            },
        ],
        attributes: vec![
            "glyph-orientation-horizontal".into(),
            "glyph-orientation-vertical".into(),
            "href".into(),
        ],
    }
}

#[test]
fn declarations_reconcile_membership_without_leaking_attribute_scope() {
    let declarations = extract(
        r#"
            <h2 id="text">Text</h2><p>The 'glyph-orientation-horizontal' property is removed.</p>
            <h2 id="vertical">The 'glyph-orientation-vertical' property</h2>
            <p>This property has been obsoleted.</p>
            <dfn id="link" data-dfn-type="element-attr" data-dfn-for="use">xlink:href</dfn>
            <p>This attribute is deprecated.</p>
            "#,
        "https://example.org/edition/text.html",
    )
    .ok()
    .expect("extracts");
    let mut current = text_and_links_inventory();
    let mut historical = current.clone();
    historical.profile = SpecSnapshotId::Svg11Rec20110816;
    reconcile_inventory(&mut current, &declarations).expect("reconciles");
    assert!(!current
        .attributes
        .iter()
        .any(|a| a == "glyph-orientation-horizontal"));
    assert!(current.elements[1]
        .attributes
        .iter()
        .any(|a| a == "xlink:href"));
    assert!(!current.elements[2]
        .attributes
        .iter()
        .any(|a| a == "xlink:href"));
    let inventories = [historical, current.clone()];
    let mut snapshot = snapshot_of(&current);
    apply(&mut snapshot, &inventories, &declarations).expect("applies");
    for (name, present, status) in [
        (
            "glyph-orientation-horizontal",
            false,
            CatalogDeclaredStatus::Removed,
        ),
        (
            "glyph-orientation-vertical",
            true,
            CatalogDeclaredStatus::Obsolete,
        ),
        ("xlink:href", true, CatalogDeclaredStatus::Deprecated),
    ] {
        let entry = snapshot
            .lifecycle
            .attributes
            .iter()
            .find(|e| e.name == name && e.declaration.is_some())
            .expect("lifecycle entry");
        assert_eq!(entry.present, present, "{name}");
        assert_eq!(
            entry.declaration.as_ref().expect("source declaration").status,
            status
        );
    }
    let mut invalid = declarations[2].clone();
    invalid.owner = Some("missing-element".into());
    let error = apply(&mut snapshot, &inventories, &[invalid])
        .err()
        .expect("invalid bearer must fail");
    assert!(error.message().contains("missing-element/xlink:href"));
}

#[test]
fn declarations_keep_the_subject_and_ignore_values_aliases_and_dom_apis() {
    let declarations = extract(
        r#"
            <h4 id="vertical">The <span>'glyph-orientation-vertical'</span> property</h4>
            <p>This property applies only to vertical text. It has been obsoleted in SVG 2.</p>
            <h4 id="writing">The 'writing-mode' property</h4>
            <p>The SVG 1.1 values are obsolete but must still be supported.</p>
            <h4 id="font">The 'font-stretch' property</h4>
            <p>For historical reasons, this property is a legacy name alias of 'font-width'.</p>
            <h3 id="dom">DOM interfaces</h3><p>This attribute is deprecated.</p>
            <h3 id="links">Links</h3>
            <p>The deprecated 'xlink:href' attribute is retained alongside the 'xlink:title' attribute which has also been deprecated.</p>
            <p>The 'href' attribute is not deprecated.</p>
            <p>The 'fill' property may be deprecated in the future.</p>
            <p>The non-deprecated 'fill' property remains supported.</p>
            <!-- <p>The 'stroke' property is deprecated.</p> -->
            <div class="issue"><p>The 'filter' property is deprecated.</p></div>
            <div class="example"><p>The 'mask' property is deprecated.</p></div>
        "#,
        "https://example.org/edition/text.html",
    )
    .ok()
    .expect("extracts");
    assert_eq!(
        declarations
            .iter()
            .map(|d| d.name.as_str())
            .collect::<Vec<_>>(),
        ["glyph-orientation-vertical", "xlink:href", "xlink:title"]
    );
    assert_eq!(declarations[0].fact.status, CatalogDeclaredStatus::Obsolete);
    assert!(declarations[0].fact.source.ends_with("#vertical"));
}

#[test]
fn attribute_definition_preserves_bearer_and_global_xml_scope() {
    let declarations = extract(
        r#"
            <h2 id="style">Style</h2><dl><dt><table><tr><td>
            <dfn id="type" data-dfn-type="element-attr" data-dfn-for="style">type</dfn>
            </td></tr></table></dt><dd><p>This attribute is obsolete and should not be used.</p></dd></dl>
            <h2 id="core">Core attributes</h2><dl><dt>
            <dfn id="space" data-dfn-type="element-attr" data-dfn-for="core-attributes">xml:space</dfn>
            </dt><dd><p>Deprecated XML attribute to control whitespace.</p></dd></dl>
        "#,
        "https://example.org/edition/struct.html",
    )
    .ok()
    .expect("extracts");
    assert_eq!(declarations.len(), 2);
    assert_eq!(declarations[0].owner.as_deref(), Some("style"));
    assert_eq!(declarations[1].owner, None);
    assert!(declarations[0].fact.source.ends_with("#type"));
}

#[test]
fn missing_definition_metadata_fails_instead_of_losing_a_declaration() {
    for html in [
        "<h4>The 'fill' property</h4><p>This property is deprecated.</p>",
        "<h4 id='fill'>Property</h4><p>This property is deprecated.</p>",
        "<h4 id='style'>The 'style' element</h4><p>This attribute is obsolete.</p>",
    ] {
        assert!(extract(html, "https://example.org/spec").is_err(), "{html}");
    }
}

#[test]
fn errors_name_the_source_and_anchor() {
    let error = extract(
        "<h4 id='fill'>Property</h4><p>This property is deprecated.</p>",
        "https://example.org/spec",
    )
    .err()
    .expect("no subject");
    assert_eq!(
        error.message,
        "https://example.org/spec#fill: property lifecycle declaration has no identifiable definition"
    );
    let error = extract(
        "<h4>The 'fill' property</h4><p>This property is deprecated.</p>",
        "https://example.org/spec",
    )
    .err()
    .expect("no anchor");
    assert_eq!(
        error.message,
        "https://example.org/spec: lifecycle declaration for fill has no source anchor"
    );
}

#[test]
fn a_bearer_list_yields_one_declaration_per_bearer() {
    let declarations = extract(
        r#"<dfn id="x" data-dfn-type="element-attr" data-dfn-for="use, image">href</dfn>
           <p>This attribute is deprecated.</p>"#,
        "s",
    )
    .ok()
    .expect("extracts");
    let owners: Vec<Option<&str>> = declarations.iter().map(|d| d.owner.as_deref()).collect();
    assert_eq!(owners, [Some("use"), Some("image")]);
    assert!(declarations.iter().all(|d| d.fact.source == "s#x"));
    assert_eq!(split_owners(",a  b,,c "), ["a", "b", "c"]);
}

#[test]
fn paragraphs_read_prefix_and_suffix_statements() {
    let found = paragraph_declarations(
        "The removed 'kerning' property and the 'glyph' element is obsolete.",
        &None,
    )
    .expect("reads");
    assert_eq!(found.len(), 2);
    assert_eq!(found[0].0, "kerning");
    assert_eq!(found[0].2, CatalogDeclaredStatus::Removed);
    assert_eq!(found[1].0, "glyph");
    assert!(found[1].1);
    assert_eq!(found[1].2, CatalogDeclaredStatus::Obsolete);
    assert_eq!(status("DEPRECATED"), CatalogDeclaredStatus::Deprecated);
    assert_eq!(status("obsoleted"), CatalogDeclaredStatus::Obsolete);
}

#[test]
fn edition_sources_and_chapter_pages() {
    assert_eq!(
        lifecycle_base(SpecSnapshotId::Svg2EditorsDraft, "abc"),
        "https://raw.githubusercontent.com/w3c/svgwg/abc/master/"
    );
    assert_eq!(lifecycle_overview_url(SpecSnapshotId::Svg2EditorsDraft), None);
    assert_eq!(
        lifecycle_overview_url(SpecSnapshotId::Svg11Rec20030114).as_deref(),
        Some("https://www.w3.org/TR/2003/REC-SVG11-20030114/")
    );
    assert_eq!(
        lifecycle_overview_url(SpecSnapshotId::Svg2Cr20181004).as_deref(),
        Some("https://www.w3.org/TR/2018/CR-SVG2-20181004/Overview.html")
    );
    let pages = draft_chapter_pages(&["struct".into(), "painting".into(), "struct".into()]);
    assert_eq!(pages, ["painting.html", "struct.html"]);
    let chapters = overview_chapters(
        r#"<a href="struct.html#x">S</a><a href="Overview.html">O</a>
           <a href="https://w3.org/x.html">E</a><a href="painting.HTML">P</a>
           <a href="struct.html">S</a><a href=".html">D</a>"#,
        "base/",
    )
    .ok()
    .expect("chapters");
    assert_eq!(chapters, ["painting.HTML", "struct.html"]);
    let error = overview_chapters("<p>nothing</p>", "base/").err().expect("none");
    assert_eq!(error.message, "base/: no chapters discovered for lifecycle extraction");
    assert!(is_skipped_page("changes.html"));
    assert!(!is_skipped_page("struct.html"));
}

fn decl(name: &str, owner: Option<&str>, status: CatalogDeclaredStatus, source: &str) -> Declaration {
    Declaration {
        name: name.into(),
        element: false,
        owner: owner.map(Into::into),
        fact: CatalogLifecycleDeclaration {
            status,
            source: source.into(),
        },
    }
}

#[test]
fn declarations_are_kept_once_per_subject_in_subject_order() {
    let mut index = DeclarationIndex::new();
    index
        .add_all(vec![
            decl("href", Some("use"), CatalogDeclaredStatus::Deprecated, "a#1"),
            decl("href", None, CatalogDeclaredStatus::Deprecated, "a#2"),
            decl("fill", None, CatalogDeclaredStatus::Obsolete, "a#3"),
            decl("fill", None, CatalogDeclaredStatus::Obsolete, "b#3"),
            decl("href", Some("image"), CatalogDeclaredStatus::Obsolete, "a#4"),
        ])
        .ok()
        .expect("agrees");
    let names: Vec<(String, Option<String>)> = index
        .finish()
        .into_iter()
        .map(|d| (d.name, d.owner))
        .collect();
    assert_eq!(
        names,
        [
            ("fill".to_owned(), None),
            ("href".to_owned(), None),
            ("href".to_owned(), Some("image".to_owned())),
        ]
    );
    let error = index
        .add(decl("fill", None, CatalogDeclaredStatus::Removed, "c#9"))
        .err()
        .expect("conflict");
    assert_eq!(
        error.message,
        "conflicting lifecycle declarations for fill: a#3 and c#9"
    );
}
