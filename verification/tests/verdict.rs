use svg_toolkit::snapshot::SpecLifecycle::{Deprecated, Experimental, Obsolete, Stable};
use svg_toolkit::snapshot::{resolve_profile_id, SpecSnapshotId};
use svg_toolkit::verdict::{lifecycle, LifecycleFlags};

#[test]
fn lifecycle_precedence_preserves_spec_and_replaces_browser_flags() {
    let clear = LifecycleFlags::clear();
    let deprecated = LifecycleFlags {
        deprecated: true,
        experimental: false,
    };
    let experimental = LifecycleFlags {
        deprecated: false,
        experimental: true,
    };
    for (spec, bundled, runtime, latest, historical) in [
        (Obsolete, deprecated, Some(clear), Obsolete, Obsolete),
        (
            Deprecated,
            clear,
            Some(experimental),
            Deprecated,
            Deprecated,
        ),
        (Experimental, deprecated, None, Deprecated, Experimental),
        (
            Experimental,
            clear,
            Some(deprecated),
            Deprecated,
            Deprecated,
        ),
        (Stable, deprecated, None, Deprecated, Stable),
        (Stable, experimental, None, Experimental, Stable),
        (Stable, deprecated, Some(clear), Stable, Stable),
        (Stable, experimental, Some(clear), Stable, Stable),
        (
            Stable,
            deprecated,
            Some(experimental),
            Experimental,
            Experimental,
        ),
        (
            Experimental,
            deprecated,
            Some(clear),
            Experimental,
            Experimental,
        ),
    ] {
        assert_eq!(
            lifecycle(SpecSnapshotId::LATEST, spec, bundled, runtime),
            latest
        );
        assert_eq!(
            lifecycle(SpecSnapshotId::Svg11Rec20110816, spec, bundled, runtime),
            historical
        );
    }
}

#[test]
fn profile_aliases_resolve_without_generated_snapshot_metadata() {
    assert_eq!(
        resolve_profile_id("svg11"),
        Some(SpecSnapshotId::Svg11Rec20110816)
    );
    assert_eq!(
        resolve_profile_id("Svg2Draft"),
        Some(SpecSnapshotId::Svg2EditorsDraft)
    );
    assert_eq!(
        resolve_profile_id("Svg11Rec20030114"),
        Some(SpecSnapshotId::Svg11Rec20030114)
    );
}

#[test]
fn verdict_reasons_are_sorted_by_tier() {
    let mut facts = svg_toolkit::verdict::Facts::empty();
    facts.deprecated = true;
    facts.experimental = true;
    facts.standard_track = Some(false);
    let v = svg_toolkit::verdict::verdict(&facts).expect("a verdict");
    assert_eq!(v.recommendation, svg_toolkit::verdict::VerdictRecommendation::Avoid);
    assert_eq!(
        v.reasons,
        vec![
            svg_toolkit::verdict::VerdictReason::BcdDeprecated,
            svg_toolkit::verdict::VerdictReason::BcdNonStandard,
            svg_toolkit::verdict::VerdictReason::BcdExperimental,
        ]
    );
    assert_eq!(v.headline_template, "avoid in new work");
}
