use svg_toolkit::compat_catalog::{
    bcd_attribute_name, canonical_attribute_name, unmodeled_feature_kind,
    CatalogCompatSubfeatureKind,
};
use svg_toolkit::profile::{svg_native, ConstraintKind};
use svg_toolkit::provenance::{BaseUrls, VersionLink};

#[test]
fn bcd_attribute_names_are_normalized_and_subfeatures_skipped() {
    assert_eq!(bcd_attribute_name("xml_lang").as_deref(), Some("xml:lang"));
    assert_eq!(
        bcd_attribute_name("data_attributes").as_deref(),
        Some("data-*")
    );
    assert_eq!(bcd_attribute_name("path").as_deref(), Some("path"));
    assert_eq!(bcd_attribute_name("data_uri"), None);
    assert_eq!(bcd_attribute_name("xlink_href"), None);
}

#[test]
fn compat_normalization_boundary_is_explicit() {
    assert_eq!(
        unmodeled_feature_kind("xlink_href"),
        Some(CatalogCompatSubfeatureKind::LegacyXlinkAlias)
    );
    assert_eq!(
        canonical_attribute_name("referrerPolicy").as_deref(),
        Some("referrerpolicy")
    );
    assert_eq!(bcd_attribute_name("xlink_href"), None);
}

#[test]
fn behavior_keys_are_kept_aside() {
    assert_eq!(
        unmodeled_feature_kind("tooltip_display"),
        Some(CatalogCompatSubfeatureKind::Behavior)
    );
    assert_eq!(unmodeled_feature_kind("width"), None);
    assert_eq!(canonical_attribute_name("xlink_href"), None);
    assert_eq!(
        canonical_attribute_name("xlink_show").as_deref(),
        Some("xlink:show")
    );
}

#[test]
fn base_urls_take_the_first_link_of_each_name() {
    let links = vec![
        VersionLink { name: "this".to_owned(), href: "https://a/dated/".to_owned() },
        VersionLink { name: "cvs".to_owned(), href: "https://a/ed/".to_owned() },
        VersionLink { name: "this".to_owned(), href: "https://b/".to_owned() },
    ];
    let urls = BaseUrls::from_links(&links);
    assert_eq!(urls.dated.as_deref(), Some("https://a/dated/"));
    assert_eq!(urls.editors_draft.as_deref(), Some("https://a/ed/"));
    assert_eq!(urls.latest, None);
    assert_eq!(urls.latest_rec, None);
}

#[test]
fn svg_native_profile_restricts_nothing() {
    let profile = svg_native();
    assert!(!profile.is_unsupported(ConstraintKind::Element, "rect"));
    assert!(profile.supported_only(ConstraintKind::Attribute, "href").is_none());
}
