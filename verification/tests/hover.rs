use svg_toolkit::compat::{BrowserSupport, BrowserVersion, VersionAdded};
use svg_toolkit::hover::{
    browser_version_label, escape_link_label, escape_link_target, escape_metadata,
    external_attribute_hover, format_browser_support_line, format_browser_version,
    format_definition_hover, format_verdict_headline, format_verdict_reason,
    format_verdict_status, hover_link_list, longest_backtick_run, matching_brace_end,
    metadata_code, profile_lifecycle_hover_line, reconcile_verdict, reconciled_status,
    CompatMarkdownBuilder, HoverSourceLink,
};
use svg_toolkit::hover_settings::HoverSettings;
use svg_toolkit::plain_text::to_plain_text;
use svg_toolkit::snapshot::{ProfileLookup, SpecLifecycle, SpecSnapshotId};
use svg_toolkit::verdict::{CompatVerdict, Facts, VerdictReason, VerdictRecommendation};

fn bv_unknown() -> BrowserVersion {
    BrowserVersion {
        version_added: Some(VersionAdded::Version("preview".to_owned())),
        ..BrowserVersion::empty()
    }
}

#[test]
fn preview_browser_version_is_preserved() {
    let baked = BrowserSupport {
        entries: vec![("chrome".to_owned(), vec![bv_unknown()])],
    };

    // New separator is ` · ` (prose bullet) instead of ` | `.
    assert_eq!(
        format_browser_support_line(Some(&baked), &HoverSettings::default()),
        Some("Chrome preview · Edge unknown · Firefox unknown · Safari unknown".to_owned())
    );
}

#[test]
fn absent_browser_support_omits_chip_row() {
    assert_eq!(
        format_browser_support_line(None, &HoverSettings::default()),
        None
    );
}

#[test]
fn qualified_browser_versions_are_not_double_prefixed() {
    let version = BrowserVersion {
        version_added: Some(VersionAdded::Version("≤80".to_owned())),
        ..BrowserVersion::empty()
    };
    assert_eq!(browser_version_label(Some(&version)), "≤80");
    assert_eq!(format_browser_version("≤13.1"), "≤13.1");
    let removed = BrowserVersion {
        version_removed: Some("≤100".to_owned()),
        ..version
    };
    assert_eq!(browser_version_label(Some(&removed)), "≤80 (removed)");
    let reason = VerdictReason::RemovedIn {
        browser: "chrome".to_owned(),
        version: "≤100".to_owned(),
    };
    assert_eq!(format_verdict_reason(&reason), "removed in chrome ≤100");
}

#[test]
fn missing_and_unknown_browser_data_stays_unknown() {
    let support = BrowserSupport {
        entries: vec![("chrome".to_owned(), vec![BrowserVersion::empty()])],
    };
    assert_eq!(
        format_browser_support_line(Some(&support), &HoverSettings::default()).as_deref(),
        Some("Chrome unknown · Edge unknown · Firefox unknown · Safari unknown")
    );
}

#[test]
fn unsupported_profile_hover_line_marks_obsolete_after_last_known_snapshot() {
    assert_eq!(
        profile_lifecycle_hover_line(
            SpecSnapshotId::Svg2EditorsDraft,
            &ProfileLookup::<()>::UnsupportedInProfile {
                known_in: &[
                    SpecSnapshotId::Svg11Rec20030114,
                    SpecSnapshotId::Svg11Rec20110816,
                ],
            },
        ),
        Some("**Obsolete after Svg11Rec20110816**".to_owned())
    );
}

#[test]
fn present_profile_hover_line_uses_selected_profile_lifecycle() {
    assert_eq!(
        profile_lifecycle_hover_line(
            SpecSnapshotId::Svg2EditorsDraft,
            &ProfileLookup::Present {
                value: &(),
                lifecycle: SpecLifecycle::Experimental,
            },
        ),
        Some("**Experimental in Svg2EditorsDraft**".to_owned())
    );
}

#[test]
fn successful_refresh_clears_old_compat_reasons_and_keeps_profile_reasons() {
    let previous = CompatVerdict {
        recommendation: VerdictRecommendation::Forbid,
        headline_template: "removed from the current SVG profile".to_owned(),
        reasons: vec![
            VerdictReason::BaselineLimited,
            VerdictReason::BcdDeprecated,
            VerdictReason::ProfileObsolete {
                last_seen: SpecSnapshotId::Svg11Rec20110816,
            },
        ],
    };
    let verdict = reconcile_verdict(Some(&previous), &Facts::empty(), &HoverSettings::default());
    assert_eq!(
        verdict.map(|v| v.reasons),
        Some(vec![VerdictReason::ProfileObsolete {
            last_seen: SpecSnapshotId::Svg11Rec20110816
        }])
    );
}

#[test]
fn two_definitions_are_separated_without_a_visible_rule() {
    // `format_definition_hover` joins definitions with a thematic break,
    // so any class defined in two sheets carries one.
    let link = |name: &str| HoverSourceLink {
        label: format!("{name}.css"),
        target: format!("file:///{name}.css"),
    };
    let hover = format_definition_hover(
        &vec![
            (".a { fill: red }".to_owned(), link("base")),
            (".a { fill: blue }".to_owned(), link("theme")),
        ],
        ".a",
    );
    assert!(
        hover.contains("\n---\n"),
        "the Markdown carries the rule: {hover}"
    );
    let plain = to_plain_text(&hover);
    assert!(
        !plain.contains("---"),
        "the rule is markup and should not survive: {plain}"
    );
    // Both definitions do, still told apart by a blank line.
    assert!(
        plain.contains(".a { fill: red }")
            && plain.contains(".a { fill: blue }")
            && plain.contains("base.css")
            && plain.contains("theme.css"),
        "both definitions should survive: {plain}"
    );
    assert!(
        !plain.contains("\n\n\n"),
        "dropping the rule should not leave a gap: {plain}"
    );
}

#[test]
fn definition_hover_fences_longer_than_any_backtick_run() {
    let link = HoverSourceLink {
        label: "a[1].css".to_owned(),
        target: "file:///a(1).css".to_owned(),
    };
    let hover = format_definition_hover(&vec![("  .a { /* ```` */ }  ".to_owned(), link)], ".a");
    assert_eq!(
        hover,
        "`````css\n.a { /* ```` */ }\n`````\nDefined in [a\\[1\\].css](file:///a%281%29.css)"
    );
    let blank = HoverSourceLink {
        label: "x.css".to_owned(),
        target: "x.css".to_owned(),
    };
    assert_eq!(
        format_definition_hover(&vec![("   ".to_owned(), blank)], ".b"),
        "`.b`\nDefined in [x.css](x.css)"
    );
    assert_eq!(longest_backtick_run("a``b```c`"), 3);
    assert_eq!(escape_link_label("[x]\\"), "\\[x\\]\\\\");
    assert_eq!(escape_link_target("(a)"), "%28a%29");
}

#[test]
fn braces_are_matched_by_depth() {
    assert_eq!(matching_brace_end(b"a { b { c } } d", 2), Some(13));
    assert_eq!(matching_brace_end(b"{ {", 0), None);
    assert_eq!(matching_brace_end(b"} {", 0), None);
}

#[test]
fn verdict_lines_render_glyph_template_and_reasons() {
    let verdict = CompatVerdict {
        recommendation: VerdictRecommendation::Avoid,
        headline_template: String::new(),
        reasons: vec![
            VerdictReason::BcdDeprecated,
            VerdictReason::BaselineNewly {
                since: Some(2021),
                qualifier: Some(svg_toolkit::compat::BaselineQualifier::Before),
            },
            VerdictReason::PrefixRequiredIn {
                browser: "safari".to_owned(),
                prefix: "-webkit-".to_owned(),
            },
        ],
    };
    assert_eq!(
        format_verdict_headline(&verdict, "baseProfile"),
        "> ⊘ `baseProfile` — avoid in new work"
    );
    assert_eq!(
        format_verdict_status(&verdict).as_deref(),
        Some("**Status (svg assessment):** deprecated · newly available since ≤2021 · `-webkit-` prefix in safari")
    );
    assert_eq!(
        reconciled_status(Some(&verdict), Some("**Stable in Svg2EditorsDraft**".to_owned())),
        format_verdict_status(&verdict)
    );
    assert_eq!(
        reconciled_status(None, Some("**Not in Svg2Cr20181004**".to_owned())).as_deref(),
        Some("**Not in Svg2Cr20181004**")
    );
    assert_eq!(
        format_verdict_reason(&VerdictReason::RemovedIn {
            browser: "firefox".to_owned(),
            version: "1 2".to_owned()
        }),
        "removed in firefox 1 2"
    );
}

#[test]
fn xml_attributes_get_reference_hovers() {
    assert_eq!(
        external_attribute_hover("xml_version_attribute_name", "version").as_deref(),
        Some("Specifies the XML version used by the document declaration.\n\n[W3C XML Reference](https://www.w3.org/TR/xml/)")
    );
    assert_eq!(
        external_attribute_hover("attribute_name", "xmlns:xlink").as_deref(),
        Some("Declares the `xlink` XML namespace prefix for this element and its descendants.\n\n[W3C Namespaces in XML](https://www.w3.org/TR/REC-xml-names/)")
    );
    assert_eq!(
        external_attribute_hover("attribute_name", "xlink:href").as_deref(),
        Some("~~Legacy XLink form of `href` used to point at linked resources in SVG.~~\n\n**Deprecated**\n\nUse `href` instead.\n\n[MDN Reference](https://developer.mozilla.org/docs/Web/SVG/Reference/Attribute/xlink:href)")
    );
    assert_eq!(external_attribute_hover("attribute_name", "fill"), None);
}

#[test]
fn builder_separates_sections_by_one_blank_line() {
    let mut builder = CompatMarkdownBuilder::new();
    builder.headline("`<rect>`".to_owned());
    builder.description(String::new());
    builder.value_constraints(vec!["Values: `a`".to_owned(), "Scaling: `b`".to_owned()]);
    builder.links(hover_link_list("https://mdn", Some("https://spec")));
    assert_eq!(
        builder.build(),
        "`<rect>`\n\nValues: `a`\nScaling: `b`\n\n[MDN Reference](https://mdn) · [Spec](https://spec)"
    );
}

#[test]
fn metadata_is_escaped_and_fenced() {
    assert_eq!(escape_metadata("a_b*c"), "a\\_b\\*c");
    assert_eq!(metadata_code("x``y"), "``` x``y ```");
    assert_eq!(metadata_code("plain"), "` plain `");
}

#[test]
fn a_fence_is_closed_only_by_a_line_of_backticks() {
    // A CSS comment may carry a run of backticks. It is content, and the
    // preview promises it verbatim.
    let hover = format_definition_hover(
        &vec![(
            "/*\n``` a line of backticks inside a comment\n*/\n.a { fill: red }".to_owned(),
            HoverSourceLink {
                label: "sheet.css".to_owned(),
                target: "file:///sheet.css".to_owned(),
            },
        )],
        ".a",
    );
    let plain = to_plain_text(&hover);
    assert!(
        plain.contains("``` a line of backticks inside a comment")
            && plain.contains(".a { fill: red }"),
        "the whole rule should survive: {plain}"
    );
}

#[test]
fn a_link_label_carries_its_brackets() {
    // A path may contain either bracket, and one of them would end the
    // label early — leaving the whole construct visible.
    let hover = format_definition_hover(
        &vec![(
            ".a { fill: red }".to_owned(),
            HoverSourceLink {
                label: "theme]dark.css:1".to_owned(),
                target: "file:///theme%5Ddark.css".to_owned(),
            },
        )],
        ".a",
    );
    assert!(
        hover.contains(r"[theme\]dark.css:1]("),
        "the label should be escaped where it is written: {hover}"
    );
    let plain = to_plain_text(&hover);
    assert!(
        plain.contains("theme]dark.css:1 (file:///theme%5Ddark.css)"),
        "and read back with the bracket and without the escape: {plain}"
    );
}

#[test]
fn a_link_target_carries_its_parentheses() {
    // Parentheses are legal in a path, and an unpaired one would close the
    // destination early — in a Markdown client as much as here.
    let hover = format_definition_hover(
        &vec![(
            ".a { fill: red }".to_owned(),
            HoverSourceLink {
                label: "sheet.css".to_owned(),
                target: "file:///themes/dark(2)/sheet.css".to_owned(),
            },
        )],
        ".a",
    );
    assert!(
        hover.contains("file:///themes/dark%282%29/sheet.css"),
        "the destination should be escaped where it is written: {hover}"
    );
    let plain = to_plain_text(&hover);
    assert!(
        plain.ends_with("file:///themes/dark%282%29/sheet.css)"),
        "and survive the conversion whole: {plain}"
    );
}
