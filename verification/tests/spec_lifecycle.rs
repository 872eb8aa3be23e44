use svg_toolkit::snapshot::SpecSnapshotId;
use svg_toolkit::spec_lifecycle::{
    apply, reconcile_inventory, CatalogDeclaredStatus, CatalogInventory, CatalogInventoryElement,
    CatalogLifecycleDeclaration, CatalogLifecycleStatus, CatalogSnapshot, CatalogSnapshotLifecycle,
    Declaration, LifecycleError,
};

fn snapshot_of(inventory: &CatalogInventory) -> CatalogSnapshot {
    CatalogSnapshot {
        profile: inventory.profile,
        inventory: inventory.clone(),
        lifecycle: CatalogSnapshotLifecycle {
            elements: Vec::new(),
            attributes: Vec::new(),
        },
    }
}

#[test]
fn lifecycle_validation_rejects_unknown_subjects() {
    let inventory = CatalogInventory {
        profile: SpecSnapshotId::Svg2EditorsDraft,
        sources: vec![],
        elements: vec![],
        attributes: vec!["fill".into()],
    };
    let mut snapshot = snapshot_of(&inventory);
    let declaration = Declaration {
        name: "misspelled".into(),
        element: false,
        owner: None,
        fact: CatalogLifecycleDeclaration {
            status: CatalogDeclaredStatus::Deprecated,
            source: "https://example.org/spec#missing".into(),
        },
    };
    let error = apply(&mut snapshot, &[inventory], &[declaration])
        .err()
        .expect("unknown lifecycle subject must fail");
    assert!(error.message().contains("misspelled"));
    assert!(error
        .message()
        .contains("https://example.org/spec#missing"));
}

fn text_and_links_inventory() -> CatalogInventory {
    CatalogInventory {
        profile: SpecSnapshotId::Svg2EditorsDraft,
        sources: vec![],
        elements: vec![
            CatalogInventoryElement {
                name: "text".into(),
                attributes: vec![
                    "glyph-orientation-horizontal".into(),
                    "glyph-orientation-vertical".into(),
                ],
            },
            CatalogInventoryElement {
                name: "use".into(),
                attributes: vec!["href".into()],
            },
            CatalogInventoryElement {
                name: "image".into(),
                attributes: vec!["href".into()],
            },
        ],
        attributes: vec![
            "glyph-orientation-horizontal".into(),
            "glyph-orientation-vertical".into(),
            "href".into(),
        ],
    }
}

fn declaration(name: &str, owner: Option<&str>, status: CatalogDeclaredStatus, anchor: &str) -> Declaration {
    Declaration {
        name: name.into(),
        element: false,
        owner: owner.map(Into::into),
        fact: CatalogLifecycleDeclaration {
            status,
            source: format!("https://example.org/edition/text.html#{anchor}"),
        },
    }
}

#[test]
fn declared_removals_and_aliases_reconcile_membership_without_leaking_bearers() {
    let declarations = vec![
        declaration(
            "glyph-orientation-horizontal",
            None,
            CatalogDeclaredStatus::Removed,
            "text",
        ),
        declaration(
            "glyph-orientation-vertical",
            None,
            CatalogDeclaredStatus::Obsolete,
            "vertical",
        ),
        declaration("xlink:href", Some("use"), CatalogDeclaredStatus::Deprecated, "link"),
    ];
    let mut current = text_and_links_inventory();
    let mut historical = current.clone();
    historical.profile = SpecSnapshotId::Svg11Rec20110816;
    reconcile_inventory(&mut current, &declarations).expect("reconciles");
    assert!(!current
        .attributes
        .iter()
        .any(|a| a == "glyph-orientation-horizontal"));
    assert_eq!(current.attributes, ["glyph-orientation-vertical", "href", "xlink:href"]);
    assert!(current.elements[1].attributes.iter().any(|a| a == "xlink:href"));
    assert!(!current.elements[2].attributes.iter().any(|a| a == "xlink:href"));
    assert_eq!(current.elements[0].attributes, ["glyph-orientation-vertical"]);

    let inventories = [historical, current.clone()];
    let mut snapshot = snapshot_of(&current);
    apply(&mut snapshot, &inventories, &declarations).expect("applies");
    for (name, present, status, lifecycle) in [
        (
            "glyph-orientation-horizontal",
            false,
            CatalogDeclaredStatus::Removed,
            CatalogLifecycleStatus::Obsolete,
        ),
        (
            "glyph-orientation-vertical",
            true,
            CatalogDeclaredStatus::Obsolete,
            CatalogLifecycleStatus::Obsolete,
        ),
        (
            "xlink:href",
            true,
            CatalogDeclaredStatus::Deprecated,
            CatalogLifecycleStatus::Deprecated,
        ),
    ] {
        let entry = snapshot
            .lifecycle
            .attributes
            .iter()
            .find(|e| e.name == name && e.declaration.is_some())
            .expect("lifecycle entry");
        assert_eq!(entry.present, present, "{name}");
        assert_eq!(entry.lifecycle, lifecycle, "{name}");
        assert_eq!(entry.declaration.as_ref().expect("declaration").status, status);
    }
    let xlink = snapshot
        .lifecycle
        .attributes
        .iter()
        .find(|e| e.name == "xlink:href")
        .expect("xlink entry");
    assert_eq!(xlink.owner.as_deref(), Some("use"));
    assert_eq!(xlink.catalog_name.as_deref(), Some("href"));
    assert_eq!(
        xlink.known_in,
        [SpecSnapshotId::Svg2EditorsDraft]
    );
    let names: Vec<&str> = snapshot
        .lifecycle
        .attributes
        .iter()
        .map(|e| e.name.as_str())
        .collect();
    assert_eq!(
        names,
        ["glyph-orientation-horizontal", "glyph-orientation-vertical", "xlink:href"]
    );

    let mut invalid = declarations[2].clone();
    invalid.owner = Some("missing-element".into());
    let error = apply(&mut snapshot, &inventories, &[invalid])
        .err()
        .expect("invalid bearer must fail");
    assert!(error.message().contains("missing-element/xlink:href"));
    assert!(matches!(error, LifecycleError::NoApplicableAttribute { .. }));
}

#[test]
fn a_retained_feature_missing_from_the_edition_is_rejected() {
    let mut historical = text_and_links_inventory();
    historical.profile = SpecSnapshotId::Svg11Rec20110816;
    historical.attributes.push("kerning".into());
    let current = text_and_links_inventory();
    let mut snapshot = snapshot_of(&current);
    let error = apply(
        &mut snapshot,
        &[historical, current.clone()],
        &[declaration("kerning", None, CatalogDeclaredStatus::Deprecated, "k")],
    )
    .err()
    .expect("missing from this edition");
    assert_eq!(
        error.message(),
        "Svg2EditorsDraft: retained feature kerning at https://example.org/edition/text.html#k is missing from this edition"
    );
}

#[test]
fn an_alias_without_its_canonical_attribute_is_rejected() {
    let mut inventory = text_and_links_inventory();
    inventory.attributes.retain(|a| a != "href");
    let before = inventory.clone();
    let error = reconcile_inventory(
        &mut inventory,
        &[declaration("xlink:href", None, CatalogDeclaredStatus::Deprecated, "l")],
    )
    .err()
    .expect("no canonical attribute");
    assert!(matches!(error, LifecycleError::NoDefinition { .. }));
    assert_eq!(inventory, before);
}
