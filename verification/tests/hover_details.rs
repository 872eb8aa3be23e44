use svg_toolkit::compat::{
    parse_baseline_date, Baseline, BaselineTier, BrowserFlag, BrowserSupport, BrowserVersion,
    Discouraged, DiscouragementScope, FlagKind, VersionAdded,
};
use svg_toolkit::grammar::css_grammar_graph;
use svg_toolkit::hover::CompatMarkdownBuilder;
use svg_toolkit::hover_details::{
    append_compat_details, append_provenance, css_graph_node_text, format_baseline,
    format_browser_note, format_browser_notes_list, format_discouraged, metadata_link,
    value_constraints_lines, BaselineIcons,
};
use svg_toolkit::grammar::CatalogCssGrammarNodeKind;
use svg_toolkit::hover_settings::{HoverSettings, Section};
use svg_toolkit::runtime_compat::{CompatOverride, Outcome, Provenance};
use svg_toolkit::values::CatalogAttributeValues;
use svg_toolkit::verdict::Facts;

fn icons() -> BaselineIcons {
    BaselineIcons {
        widely: "w.svg".into(),
        newly: "n.svg".into(),
        limited: "l.svg".into(),
    }
}

#[test]
fn semantic_value_shapes_render_without_fake_grammar() {
    let cases = [
        (CatalogAttributeValues::Id, "Value: non-empty ID without whitespace"),
        (CatalogAttributeValues::TokenList, "Value: space-separated tokens"),
        (CatalogAttributeValues::LanguageTag, "Value: BCP 47 language tag"),
        (CatalogAttributeValues::Integer, "Value: integer"),
        (CatalogAttributeValues::CssDeclarationList, "Value: CSS declaration list"),
        (CatalogAttributeValues::ReferrerPolicy, "Value: referrer policy"),
    ];
    for (values, label) in cases {
        let lines = value_constraints_lines(&values).join("\n");
        assert!(lines.contains(label), "{lines}");
        assert!(!lines.contains("Grammar:"), "{lines}");
        assert!(!lines.contains("Keywords:"), "{lines}");
    }
}

#[test]
fn grammar_constraints_list_sorted_keywords_and_types() {
    let grammar = "auto | <length> | none | auto";
    let values = CatalogAttributeValues::CssGrammar {
        grammar: grammar.into(),
        graph: css_grammar_graph(grammar),
    };
    assert_eq!(
        value_constraints_lines(&values),
        [
            "Grammar: `auto | <length> | none | auto`",
            "Keywords: `auto` | `none`",
            "Types: `<length>`",
        ]
    );
    assert_eq!(
        css_graph_node_text(&css_grammar_graph(grammar), CatalogCssGrammarNodeKind::Keyword),
        ["auto", "none"]
    );
    let e = CatalogAttributeValues::Enum { values: vec!["a".into(), "b".into()] };
    assert_eq!(value_constraints_lines(&e), ["Values: `a` | `b`"]);
    assert!(value_constraints_lines(&CatalogAttributeValues::Color).is_empty());
}

#[test]
fn notes_read_as_text() {
    assert_eq!(format_browser_note("Supported <code>x</code> only."), "Supported x only\\.");
    assert_eq!(format_browser_note("a<br/>b &amp; c &#65;"), "a b \\& c A");
    assert_eq!(format_browser_note("a &foo; b"), "a \\&foo\\; b");
    assert_eq!(format_browser_note("<p>open"), "open");
}

#[test]
fn links_autolink_only_web_urls() {
    assert_eq!(metadata_link("https://example.com/a b"), "<https://example.com/a%20b>");
    assert_eq!(metadata_link("https://example.com/<x>"), "<https://example.com/%3Cx%3E>");
    assert_eq!(metadata_link("not a url"), "not a url");
    assert_eq!(metadata_link("ftp://x.org/"), "ftp\\:\\/\\/x\\.org\\/");
}

fn statement() -> BrowserVersion {
    BrowserVersion {
        version_added: Some(VersionAdded::Version("50".into())),
        version_removed: Some("70".into()),
        prefix: Some("-x-".into()),
        flags: vec![BrowserFlag {
            kind: FlagKind::Preference,
            name: "demo".into(),
            value_to_set: Some("true".into()),
        }],
        notes: vec!["first".into()],
        partial_implementation: true,
        ..BrowserVersion::empty()
    }
}

#[test]
fn browser_details_list_each_shown_caveat() {
    let support = BrowserSupport {
        entries: vec![("chrome".into(), vec![statement()])],
    };
    let lines = format_browser_notes_list(Some(&support), &HoverSettings::default()).expect("lines");
    assert_eq!(
        lines,
        ["- Chrome: partial implementation; requires \\-x\\- prefix; behind flag ` demo=true ` (preference); removed in 70; first"]
    );
    let plain = BrowserSupport {
        entries: vec![("chrome".into(), vec![BrowserVersion::empty()])],
    };
    assert_eq!(format_browser_notes_list(Some(&plain), &HoverSettings::default()), None);
    assert_eq!(format_browser_notes_list(None, &HoverSettings::default()), None);
}

fn baseline(status: Option<BaselineTier>) -> Baseline {
    Baseline {
        status,
        raw_status: None,
        status_diagnostic: None,
        low_date: Some(parse_baseline_date("2020-01-15")),
        high_date: Some(parse_baseline_date("\u{2264}2022-07-15")),
        support: None,
    }
}

#[test]
fn baseline_lines_carry_tier_year_and_dates() {
    assert_eq!(
        format_baseline(&baseline(Some(BaselineTier::Widely)), &icons()),
        "![Baseline icon](w.svg) _Widely Available since \u{2264}2022_\n\nNewly Available date: 2020-01-15\n\nWidely Available date: \u{2264}2022-07-15"
    );
    let unknown = Baseline {
        low_date: None,
        high_date: None,
        ..baseline(None)
    };
    assert_eq!(
        format_baseline(&unknown, &icons()),
        "_Baseline status unknown_ (upstream status missing)"
    );
}

#[test]
fn discouragement_names_scope_alternatives_and_references() {
    let advice = Discouraged {
        feature_id: "svg-font".into(),
        compat_key: "svg.elements.font".into(),
        scope: DiscouragementScope::Feature,
        feature_name: None,
        reason: "Removed".into(),
        reason_html: None,
        according_to: vec!["https://x.org/a".into(), "see spec".into()],
        alternatives: vec!["woff".into()],
        removal_date: None,
    };
    assert_eq!(
        format_discouraged(&vec![advice]).expect("advice"),
        "**WebDX discourages svg\\-font**\n\nRemoved\n\nFeature scope: svg\\-font (svg\\.elements\\.font).\n\nAlternatives: woff\n\nSupporting reference: <https://x.org/a>\n\nSupporting reference: see spec"
    );
    assert_eq!(format_discouraged(&vec![]), None);
}

fn provenance(source: &str, outcome: Outcome) -> Provenance {
    Provenance {
        source: source.into(),
        version: None,
        url: "https://example.com/data.json".into(),
        key: "svg.elements.rect".into(),
        outcome,
    }
}

#[test]
fn sources_are_listed_with_their_outcomes() {
    let rt = CompatOverride {
        facts: Facts::empty(),
        sources: [
            provenance("@mdn/browser-compat-data", Outcome::Failed),
            provenance("web-features", Outcome::Absent),
        ],
    };
    let mut builder = CompatMarkdownBuilder::new();
    append_provenance(&mut builder, Some(&rt));
    assert_eq!(
        builder.build(),
        "@mdn/browser-compat-data (version unavailable): refresh failed; bundled facts retained (stale). Context: `svg.elements.rect`. Source: <https://example.com/data.json>\n\nweb-features (version unavailable): no data. Context: `svg.elements.rect`. Source: <https://example.com/data.json>"
    );
    let mut facts = Facts::empty();
    facts.baseline = Some(Baseline {
        support: Some(vec![("firefox".into(), "110".into())]),
        ..baseline(Some(BaselineTier::Limited))
    });
    let mut settings = HoverSettings::default();
    settings.sections = vec![Section::Baseline, Section::WebFeaturesSupport];
    let mut builder = CompatMarkdownBuilder::new();
    append_compat_details(&mut builder, &facts, Some(&rt), &settings, &icons());
    assert_eq!(
        builder.build(),
        "![Baseline icon](l.svg) _Limited availability_\n\nNewly Available date: 2020-01-15\n\nWidely Available date: \u{2264}2022-07-15\n\nWeb Features support: Firefox 110"
    );
}
