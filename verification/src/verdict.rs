//! The compatibility verdict derived from one selected record of facts, and
//! how the spec lifecycle combines with the browser flags.

use vstd::prelude::*;
use crate::compat::{
    date_year, select_statement, selected_index, support_for, supported_spec, Baseline,
    BaselineQualifier, BaselineTier, BrowserSupport, BrowserVersion, Discouraged,
};
use crate::snapshot::{SpecLifecycle, SpecSnapshotId};
use crate::text::{chars_of, string_of};

verus! {

/// BCD flags used to annotate supported features.
#[derive(Debug, Clone, Copy, PartialEq, Eq, Structural)]
pub struct LifecycleFlags {
    /// BCD deprecation flag.
    pub deprecated: bool,
    /// BCD experimental flag.
    pub experimental: bool,
}

impl LifecycleFlags {
    /// Neither flag set.
    pub fn clear() -> (r: LifecycleFlags)
        ensures
            !r.deprecated && !r.experimental,
    {
        LifecycleFlags { deprecated: false, experimental: false }
    }
}

/// The lifecycle shown for a feature: explicit spec status survives, then the
/// selected flags (the runtime record, else the bundled one under the latest
/// profile only) can mark it deprecated, then experimental.
pub open spec fn lifecycle_spec(
    profile: SpecSnapshotId,
    specification: SpecLifecycle,
    bundled: LifecycleFlags,
    runtime: Option<LifecycleFlags>,
) -> SpecLifecycle {
    let flags = match runtime {
        Some(f) => f,
        None => if profile == SpecSnapshotId::Svg2EditorsDraft {
            bundled
        } else {
            LifecycleFlags { deprecated: false, experimental: false }
        },
    };
    if specification == SpecLifecycle::Deprecated || specification == SpecLifecycle::Obsolete {
        specification
    } else if flags.deprecated {
        SpecLifecycle::Deprecated
    } else if specification == SpecLifecycle::Experimental {
        specification
    } else if flags.experimental {
        SpecLifecycle::Experimental
    } else {
        SpecLifecycle::Stable
    }
}

/// Combine specification lifecycle with the selected compatibility record.
///
/// Explicit spec status survives refreshes. A runtime record replaces both
/// bundled flags, including when both are false. Bundled current-web advice
/// does not promote diagnostics or completions for historical profiles.
pub fn lifecycle(
    profile: SpecSnapshotId,
    specification: SpecLifecycle,
    bundled: LifecycleFlags,
    runtime: Option<LifecycleFlags>,
) -> (r: SpecLifecycle)
    ensures
        r == lifecycle_spec(profile, specification, bundled, runtime),
{
    let flags = match runtime {
        Some(f) => f,
        None => if profile == SpecSnapshotId::LATEST {
            bundled
        } else {
            LifecycleFlags::clear()
        },
    };
    match specification {
        SpecLifecycle::Deprecated | SpecLifecycle::Obsolete => specification,
        _ if flags.deprecated => SpecLifecycle::Deprecated,
        SpecLifecycle::Experimental => specification,
        _ if flags.experimental => SpecLifecycle::Experimental,
        SpecLifecycle::Stable => SpecLifecycle::Stable,
    }
}

/// All compatibility dimensions for one element or attribute context.
#[derive(Debug, Clone)]
pub struct Facts {
    /// BCD deprecation flag.
    pub deprecated: bool,
    /// BCD experimental flag.
    pub experimental: bool,
    /// BCD standards status.
    pub standard_track: Option<bool>,
    /// Web Features Baseline facts.
    pub baseline: Option<Baseline>,
    /// Feature-scoped `WebDX` advice.
    pub discouraged: Vec<Discouraged>,
    /// All BCD browser products and support statements.
    pub browser_support: Option<BrowserSupport>,
}

impl Facts {
    /// No facts at all.
    pub fn empty() -> (r: Facts)
        ensures
            !r.deprecated && !r.experimental && r.standard_track is None && r.baseline is None
                && r.discouraged@.len() == 0 && r.browser_support is None,
    {
        Facts {
            deprecated: false,
            experimental: false,
            standard_track: None,
            baseline: None,
            discouraged: Vec::new(),
            browser_support: None,
        }
    }
}

/// One contributing reason behind a [`CompatVerdict`].
#[derive(Debug, Clone, PartialEq, Eq)]
pub enum VerdictReason {
    /// Compat data marks the feature deprecated.
    BcdDeprecated,
    /// Compat data marks the feature experimental.
    BcdExperimental,
    /// Compat data marks the feature non-standard.
    BcdNonStandard,
    /// The active profile dropped the feature after `last_seen`.
    ProfileObsolete { last_seen: SpecSnapshotId },
    /// The feature is only in a draft snapshot.
    ProfileExperimental,
    /// Baseline is limited.
    BaselineLimited,
    /// Baseline is newly available.
    BaselineNewly { since: Option<u16>, qualifier: Option<BaselineQualifier> },
    /// A browser ships a partial implementation.
    PartialImplementationIn(String),
    /// A browser needs a vendor prefix.
    PrefixRequiredIn { browser: String, prefix: String },
    /// A browser gates the feature behind a flag.
    BehindFlagIn(String),
    /// A browser reports no support.
    UnsupportedIn(String),
    /// A browser removed support at a version.
    RemovedIn { browser: String, version: String },
}

/// A [`VerdictReason`] with its texts as character sequences.
pub enum ReasonView {
    BcdDeprecated,
    BcdExperimental,
    BcdNonStandard,
    ProfileObsolete(SpecSnapshotId),
    ProfileExperimental,
    BaselineLimited,
    BaselineNewly(Option<u16>, Option<BaselineQualifier>),
    PartialImplementationIn(Seq<char>),
    PrefixRequiredIn(Seq<char>, Seq<char>),
    BehindFlagIn(Seq<char>),
    UnsupportedIn(Seq<char>),
    RemovedIn(Seq<char>, Seq<char>),
}

impl View for VerdictReason {
    type V = ReasonView;

    open spec fn view(&self) -> ReasonView {
        match *self {
            VerdictReason::BcdDeprecated => ReasonView::BcdDeprecated,
            VerdictReason::BcdExperimental => ReasonView::BcdExperimental,
            VerdictReason::BcdNonStandard => ReasonView::BcdNonStandard,
            VerdictReason::ProfileObsolete { last_seen } => ReasonView::ProfileObsolete(last_seen),
            VerdictReason::ProfileExperimental => ReasonView::ProfileExperimental,
            VerdictReason::BaselineLimited => ReasonView::BaselineLimited,
            VerdictReason::BaselineNewly { since, qualifier } => ReasonView::BaselineNewly(
                since,
                qualifier,
            ),
            VerdictReason::PartialImplementationIn(b) => ReasonView::PartialImplementationIn(b@),
            VerdictReason::PrefixRequiredIn { browser, prefix } => ReasonView::PrefixRequiredIn(
                browser@,
                prefix@,
            ),
            VerdictReason::BehindFlagIn(b) => ReasonView::BehindFlagIn(b@),
            VerdictReason::UnsupportedIn(b) => ReasonView::UnsupportedIn(b@),
            VerdictReason::RemovedIn { browser, version } => ReasonView::RemovedIn(
                browser@,
                version@,
            ),
        }
    }
}

/// The views of a list of reasons.
pub open spec fn reason_views(r: Seq<VerdictReason>) -> Seq<ReasonView> {
    r.map_values(|x: VerdictReason| x@)
}

/// Highest-tier recommendation across a verdict's reasons.
#[derive(Debug, Clone, Copy, PartialEq, Eq, Structural)]
pub enum VerdictRecommendation {
    /// Safe to use.
    Safe,
    /// Usable with caution.
    Caution,
    /// Avoid.
    Avoid,
    /// Do not use.
    Forbid,
}

/// A fully-reconciled compatibility verdict for a feature in a profile.
#[derive(Debug, Clone, PartialEq, Eq)]
pub struct CompatVerdict {
    /// Highest-tier recommendation across all reasons.
    pub recommendation: VerdictRecommendation,
    /// Template text for the hover headline.
    pub headline_template: String,
    /// Contributing reasons.
    pub reasons: Vec<VerdictReason>,
}

/// Reasons the selected record itself carries, before any browser.
pub open spec fn record_reasons(f: Facts) -> Seq<ReasonView> {
    (if f.deprecated {
        seq![ReasonView::BcdDeprecated]
    } else {
        Seq::empty()
    }) + (if f.experimental {
        seq![ReasonView::BcdExperimental]
    } else {
        Seq::empty()
    }) + (if f.standard_track == Some(false) {
        seq![ReasonView::BcdNonStandard]
    } else {
        Seq::empty()
    }) + match f.baseline {
        Some(b) => match b.status {
            Some(BaselineTier::Limited) => seq![ReasonView::BaselineLimited],
            Some(BaselineTier::Newly) => seq![
                ReasonView::BaselineNewly(
                    match b.low_date {
                        Some(d) => date_year(d),
                        None => None,
                    },
                    match b.low_date {
                        Some(d) => d.qualifier,
                        None => None,
                    },
                ),
            ],
            _ => Seq::empty(),
        },
        None => Seq::empty(),
    }
}

/// Reasons one browser's selected statement contributes.
pub open spec fn statement_reasons(browser: Seq<char>, v: BrowserVersion) -> Seq<ReasonView> {
    (if supported_spec(v) == Some(false) {
        seq![ReasonView::UnsupportedIn(browser)]
    } else {
        Seq::empty()
    }) + (if v.partial_implementation {
        seq![ReasonView::PartialImplementationIn(browser)]
    } else {
        Seq::empty()
    }) + match v.prefix {
        Some(p) => seq![ReasonView::PrefixRequiredIn(browser, p@)],
        None => Seq::empty(),
    } + (if v.flags@.len() > 0 {
        seq![ReasonView::BehindFlagIn(browser)]
    } else {
        Seq::empty()
    }) + match v.version_removed {
        Some(r) => seq![ReasonView::RemovedIn(browser, r@)],
        None => Seq::empty(),
    }
}

/// Reasons browser `id` contributes: those of its selected statement, if any.
pub open spec fn browser_reasons(s: BrowserSupport, id: Seq<char>) -> Seq<ReasonView> {
    match support_for(s, id) {
        Some(history) => match selected_index(history) {
            Some(i) => statement_reasons(id, history[i]),
            None => Seq::empty(),
        },
        None => Seq::empty(),
    }
}

/// Reasons the listed browsers contribute, in the order they are listed.
pub open spec fn browsers_reasons(s: BrowserSupport, browsers: Seq<Seq<char>>) -> Seq<ReasonView>
    decreases browsers.len(),
{
    if browsers.len() == 0 {
        Seq::empty()
    } else {
        browsers_reasons(s, browsers.drop_last()) + browser_reasons(s, browsers.last())
    }
}

/// Every reason a record yields for the selected browsers.
pub open spec fn verdict_reasons(f: Facts, browsers: Seq<Seq<char>>) -> Seq<ReasonView> {
    record_reasons(f) + match f.browser_support {
        Some(s) => browsers_reasons(s, browsers),
        None => Seq::empty(),
    }
}

/// The recommendation a list of reasons earns: a profile removal forbids,
/// deprecation, non-standard status or a browser removal says avoid, anything
/// else asks for caution.
pub open spec fn recommendation_for(reasons: Seq<ReasonView>) -> VerdictRecommendation {
    if exists|i: int| 0 <= i < reasons.len() && #[trigger] reasons[i] is ProfileObsolete {
        VerdictRecommendation::Forbid
    } else if exists|i: int|
        0 <= i < reasons.len() && (#[trigger] reasons[i] is BcdDeprecated || reasons[i] is BcdNonStandard
            || reasons[i] is RemovedIn) {
        VerdictRecommendation::Avoid
    } else {
        VerdictRecommendation::Caution
    }
}

/// The headline template of a recommendation.
pub open spec fn headline_for(r: VerdictRecommendation) -> Seq<char> {
    match r {
        VerdictRecommendation::Safe => "safe to use"@,
        VerdictRecommendation::Caution => "use with care"@,
        VerdictRecommendation::Avoid => "avoid in new work"@,
        VerdictRecommendation::Forbid => "do not use"@,
    }
}

/// The tier a reason belongs to: a profile removal forbids (2); deprecation,
/// non-standard status and a browser removal say avoid (1); every other
/// reason asks for caution (0).
pub open spec fn reason_tier(r: ReasonView) -> int {
    if r is ProfileObsolete {
        2
    } else if r is BcdDeprecated || r is BcdNonStandard || r is RemovedIn {
        1
    } else {
        0
    }
}

/// The reasons of tier `t`, in their order.
pub open spec fn of_tier(s: Seq<ReasonView>, t: int) -> Seq<ReasonView>
    decreases s.len(),
{
    if s.len() == 0 {
        Seq::empty()
    } else {
        of_tier(s.drop_last(), t) + if reason_tier(s.last()) == t {
            seq![s.last()]
        } else {
            Seq::empty()
        }
    }
}

/// Reasons sorted by tier, the highest tier first, each tier keeping the
/// order in which its reasons were found.
pub open spec fn by_tier(s: Seq<ReasonView>) -> Seq<ReasonView> {
    of_tier(s, 2) + of_tier(s, 1) + of_tier(s, 0)
}

/// The verdict is present exactly when there is a reason; it lists every
/// reason sorted by tier, with the recommendation and headline they earn.
pub open spec fn is_verdict_for(r: Option<CompatVerdict>, f: Facts, browsers: Seq<Seq<char>>) -> bool {
    let reasons = verdict_reasons(f, browsers);
    match r {
        None => reasons.len() == 0,
        Some(v) => reasons.len() > 0 && reason_views(v.reasons@) == by_tier(reasons) && v.recommendation
            == recommendation_for(reasons) && v.headline_template@ == headline_for(
            v.recommendation,
        ),
    }
}

fn owned(s: &str) -> (r: String)
    ensures
        r@ == s@,
{
    let v = chars_of(s);
    string_of(&v)
}

fn clone_string(s: &String) -> (r: String)
    ensures
        r@ == s@,
{
    owned(s.as_str())
}

fn push_reason(reasons: &mut Vec<VerdictReason>, r: VerdictReason)
    ensures
        reason_views(final(reasons)@) == reason_views(old(reasons)@).push(r@),
        final(reasons)@.len() == old(reasons)@.len() + 1,
{
    reasons.push(r);
    assert(reason_views(reasons@) =~= reason_views(old(reasons)@).push(r@));
}

fn collect_browser_reasons(reasons: &mut Vec<VerdictReason>, browser: &str, version: Option<&BrowserVersion>)
    ensures
        reason_views(final(reasons)@) == reason_views(old(reasons)@) + match version {
            Some(v) => statement_reasons(browser@, *v),
            None => Seq::empty(),
        },
{
    let ghost start = reason_views(reasons@);
    let version = match version {
        Some(v) => v,
        None => {
            assert(start + Seq::<ReasonView>::empty() == start);
            return ;
        },
    };
    let ghost b = browser@;
    if version.supported() == Some(false) {
        push_reason(reasons, VerdictReason::UnsupportedIn(owned(browser)));
    }
    let ghost s1 = reason_views(reasons@);
    assert(s1 == start + (if supported_spec(*version) == Some(false) {
        seq![ReasonView::UnsupportedIn(b)]
    } else {
        Seq::empty()
    }));
    if version.partial_implementation {
        push_reason(reasons, VerdictReason::PartialImplementationIn(owned(browser)));
    }
    let ghost s2 = reason_views(reasons@);
    assert(s2 == s1 + (if version.partial_implementation {
        seq![ReasonView::PartialImplementationIn(b)]
    } else {
        Seq::empty()
    }));
    if let Some(prefix) = &version.prefix {
        push_reason(
            reasons,
            VerdictReason::PrefixRequiredIn { browser: owned(browser), prefix: clone_string(prefix) },
        );
    }
    let ghost s3 = reason_views(reasons@);
    assert(s3 == s2 + match version.prefix {
        Some(p) => seq![ReasonView::PrefixRequiredIn(b, p@)],
        None => Seq::empty(),
    });
    if version.flags.len() > 0 {
        push_reason(reasons, VerdictReason::BehindFlagIn(owned(browser)));
    }
    let ghost s4 = reason_views(reasons@);
    assert(s4 == s3 + (if version.flags@.len() > 0 {
        seq![ReasonView::BehindFlagIn(b)]
    } else {
        Seq::empty()
    }));
    if let Some(removed) = &version.version_removed {
        push_reason(
            reasons,
            VerdictReason::RemovedIn { browser: owned(browser), version: clone_string(removed) },
        );
    }
    let ghost s5 = reason_views(reasons@);
    assert(s5 == s4 + match version.version_removed {
        Some(r) => seq![ReasonView::RemovedIn(b, r@)],
        None => Seq::empty(),
    });
    assert(s5 == start + statement_reasons(b, *version));
}

fn recommendation_for_reasons(reasons: &Vec<VerdictReason>) -> (r: VerdictRecommendation)
    ensures
        r == recommendation_for(reason_views(reasons@)),
{
    let ghost views = reason_views(reasons@);
    let mut i: usize = 0;
    while i < reasons.len()
        invariant
            i <= reasons@.len(),
            views == reason_views(reasons@),
            forall|k: int| 0 <= k < i ==> !(#[trigger] views[k] is ProfileObsolete),
        decreases reasons@.len() - i,
    {
        if let VerdictReason::ProfileObsolete { .. } = reasons[i] {
            assert(views[i as int] is ProfileObsolete);
            return VerdictRecommendation::Forbid;
        }
        i = i + 1;
    }
    let mut j: usize = 0;
    while j < reasons.len()
        invariant
            j <= reasons@.len(),
            views == reason_views(reasons@),
            forall|k: int| 0 <= k < reasons@.len() ==> !(#[trigger] views[k] is ProfileObsolete),
            forall|k: int|
                0 <= k < j ==> !(#[trigger] views[k] is BcdDeprecated || views[k] is BcdNonStandard
                    || views[k] is RemovedIn),
        decreases reasons@.len() - j,
    {
        match reasons[j] {
            VerdictReason::BcdDeprecated | VerdictReason::BcdNonStandard
            | VerdictReason::RemovedIn { .. } => {
                assert(views[j as int] is BcdDeprecated || views[j as int] is BcdNonStandard
                    || views[j as int] is RemovedIn);
                return VerdictRecommendation::Avoid;
            },
            _ => {},
        }
        j = j + 1;
    }
    VerdictRecommendation::Caution
}

proof fn lemma_of_tier_members(s: Seq<ReasonView>, t: int)
    ensures
        forall|i: int| 0 <= i < of_tier(s, t).len() ==> reason_tier(#[trigger] of_tier(s, t)[i]) == t,
        of_tier(s, t).len() <= s.len(),
    decreases s.len(),
{
    if s.len() > 0 {
        lemma_of_tier_members(s.drop_last(), t);
        let prev = of_tier(s.drop_last(), t);
        assert forall|i: int| 0 <= i < of_tier(s, t).len() implies reason_tier(#[trigger] of_tier(s, t)[i]) == t by {
            if i < prev.len() {
                assert(of_tier(s, t)[i] == prev[i]);
            }
        }
    }
}

proof fn lemma_of_tier_add(a: Seq<ReasonView>, b: Seq<ReasonView>, t: int)
    ensures
        of_tier(a + b, t) == of_tier(a, t) + of_tier(b, t),
    decreases b.len(),
{
    if b.len() == 0 {
        assert(a + b =~= a);
        assert(of_tier(a, t) + of_tier(b, t) =~= of_tier(a, t));
    } else {
        lemma_of_tier_add(a, b.drop_last(), t);
        assert((a + b).drop_last() =~= a + b.drop_last());
        assert((a + b).last() == b.last());
        assert(of_tier(a + b, t) =~= of_tier(a, t) + of_tier(b, t));
    }
}

proof fn lemma_of_tier_of_tier(s: Seq<ReasonView>, u: int, t: int)
    ensures
        of_tier(of_tier(s, u), t) == if u == t {
            of_tier(s, t)
        } else {
            Seq::<ReasonView>::empty()
        },
    decreases s.len(),
{
    if s.len() > 0 {
        lemma_of_tier_of_tier(s.drop_last(), u, t);
        let tail = if reason_tier(s.last()) == u {
            seq![s.last()]
        } else {
            Seq::<ReasonView>::empty()
        };
        lemma_of_tier_add(of_tier(s.drop_last(), u), tail, t);
        if reason_tier(s.last()) == u {
            assert(tail.drop_last() =~= Seq::<ReasonView>::empty());
            assert(of_tier(tail, t) == of_tier(tail.drop_last(), t) + if reason_tier(tail.last()) == t {
                seq![tail.last()]
            } else {
                Seq::<ReasonView>::empty()
            });
            assert(of_tier(Seq::<ReasonView>::empty(), t) =~= Seq::<ReasonView>::empty());
        } else {
            assert(of_tier(tail, t) =~= Seq::<ReasonView>::empty());
        }
        assert(of_tier(of_tier(s, u), t) =~= if u == t {
            of_tier(s, t)
        } else {
            Seq::<ReasonView>::empty()
        });
    } else {
        assert(of_tier(s, u) =~= Seq::<ReasonView>::empty());
    }
}

/// A verdict's reasons are sorted by tier: a reason never comes before one of
/// a higher tier, so every avoid reason precedes every caution reason.
pub proof fn lemma_by_tier_sorted(s: Seq<ReasonView>)
    ensures
        forall|i: int, j: int|
            0 <= i < j < by_tier(s).len() ==> reason_tier(#[trigger] by_tier(s)[i]) >= reason_tier(
                #[trigger] by_tier(s)[j],
            ),
{
    lemma_of_tier_members(s, 2);
    lemma_of_tier_members(s, 1);
    lemma_of_tier_members(s, 0);
    let a = of_tier(s, 2);
    let b = of_tier(s, 1);
    let c = of_tier(s, 0);
    let r = by_tier(s);
    assert forall|i: int| 0 <= i < r.len() implies reason_tier(#[trigger] r[i]) == if i < a.len() {
        2int
    } else if i < a.len() + b.len() {
        1int
    } else {
        0int
    } by {
        if i < a.len() {
            assert(r[i] == a[i]);
        } else if i < a.len() + b.len() {
            assert(r[i] == b[i - a.len()]);
        } else {
            assert(r[i] == c[i - a.len() - b.len()]);
        }
    }
}

/// Sorting by tier loses and adds nothing: each tier holds the same reasons,
/// in the same order, as before.
pub proof fn lemma_by_tier_keeps(s: Seq<ReasonView>, t: int)
    requires
        0 <= t <= 2,
    ensures
        of_tier(by_tier(s), t) == of_tier(s, t),
{
    lemma_of_tier_add(of_tier(s, 2) + of_tier(s, 1), of_tier(s, 0), t);
    lemma_of_tier_add(of_tier(s, 2), of_tier(s, 1), t);
    lemma_of_tier_of_tier(s, 2, t);
    lemma_of_tier_of_tier(s, 1, t);
    lemma_of_tier_of_tier(s, 0, t);
    assert(of_tier(by_tier(s), t) =~= of_tier(s, t));
}

/// The recommendation is the highest tier among the reasons: a reason of
/// tier 2 forbids, otherwise one of tier 1 says avoid, and reasons all of
/// tier 0 ask for caution.
pub proof fn lemma_recommendation_by_tier(rs: Seq<ReasonView>)
    ensures
        (exists|i: int| 0 <= i < rs.len() && #[trigger] reason_tier(rs[i]) == 2) ==> recommendation_for(rs)
            == VerdictRecommendation::Forbid,
        (forall|i: int| 0 <= i < rs.len() ==> #[trigger] reason_tier(rs[i]) < 2) && (exists|i: int|
            0 <= i < rs.len() && #[trigger] reason_tier(rs[i]) == 1) ==> recommendation_for(rs)
            == VerdictRecommendation::Avoid,
        (forall|i: int| 0 <= i < rs.len() ==> #[trigger] reason_tier(rs[i]) == 0) ==> recommendation_for(rs)
            == VerdictRecommendation::Caution,
{
    if exists|i: int| 0 <= i < rs.len() && #[trigger] reason_tier(rs[i]) == 2 {
        let i = choose|i: int| 0 <= i < rs.len() && #[trigger] reason_tier(rs[i]) == 2;
        assert(rs[i] is ProfileObsolete);
    }
    if (forall|i: int| 0 <= i < rs.len() ==> #[trigger] reason_tier(rs[i]) < 2) {
        assert forall|i: int| 0 <= i < rs.len() implies !(#[trigger] rs[i] is ProfileObsolete) by {
            assert(reason_tier(rs[i]) < 2);
        }
        if exists|i: int| 0 <= i < rs.len() && #[trigger] reason_tier(rs[i]) == 1 {
            let i = choose|i: int| 0 <= i < rs.len() && #[trigger] reason_tier(rs[i]) == 1;
            assert(rs[i] is BcdDeprecated || rs[i] is BcdNonStandard || rs[i] is RemovedIn);
        }
        if forall|i: int| 0 <= i < rs.len() ==> #[trigger] reason_tier(rs[i]) == 0 {
            assert forall|i: int| 0 <= i < rs.len() implies !(#[trigger] rs[i] is BcdDeprecated
                || rs[i] is BcdNonStandard || rs[i] is RemovedIn) by {
                assert(reason_tier(rs[i]) == 0);
            }
        }
    }
}

/// A browser that removed the feature, deprecation or non-standard status
/// makes the verdict say avoid, unless a profile removal forbids it.
pub proof fn lemma_avoid_reasons(rs: Seq<ReasonView>, i: int)
    requires
        0 <= i < rs.len(),
        rs[i] is RemovedIn || rs[i] is BcdDeprecated || rs[i] is BcdNonStandard,
        forall|j: int| 0 <= j < rs.len() ==> !(#[trigger] rs[j] is ProfileObsolete),
    ensures
        recommendation_for(rs) == VerdictRecommendation::Avoid,
{
    assert(rs[i] is BcdDeprecated || rs[i] is BcdNonStandard || rs[i] is RemovedIn);
}

/// Only reasons of the lowest tier make the verdict ask for mere caution.
pub proof fn lemma_caution_only_for_minor_reasons(rs: Seq<ReasonView>)
    requires
        recommendation_for(rs) == VerdictRecommendation::Caution,
    ensures
        forall|i: int| 0 <= i < rs.len() ==> !(#[trigger] rs[i] is RemovedIn) && !(rs[i] is BcdDeprecated) && !(
        rs[i] is BcdNonStandard) && !(rs[i] is ProfileObsolete),
{
    assert forall|i: int| 0 <= i < rs.len() implies !(#[trigger] rs[i] is RemovedIn) && !(rs[i] is BcdDeprecated)
        && !(rs[i] is BcdNonStandard) && !(rs[i] is ProfileObsolete) by {
        if rs[i] is ProfileObsolete {
            assert(recommendation_for(rs) == VerdictRecommendation::Forbid);
        } else if rs[i] is RemovedIn || rs[i] is BcdDeprecated || rs[i] is BcdNonStandard {
            assert(rs[i] is BcdDeprecated || rs[i] is BcdNonStandard || rs[i] is RemovedIn);
        }
    }
}

fn tier_of(r: &VerdictReason) -> (t: u8)
    ensures
        t as int == reason_tier(r@),
{
    match r {
        VerdictReason::ProfileObsolete { .. } => 2,
        VerdictReason::BcdDeprecated | VerdictReason::BcdNonStandard | VerdictReason::RemovedIn { .. } => 1,
        _ => 0,
    }
}

/// The reasons sorted by tier, highest first, each tier in its own order.
fn sort_by_tier(reasons: Vec<VerdictReason>) -> (r: Vec<VerdictReason>)
    ensures
        reason_views(r@) == by_tier(reason_views(reasons@)),
{
    let ghost views = reason_views(reasons@);
    let mut rest = reasons;
    let mut high: Vec<VerdictReason> = Vec::new();
    let mut mid: Vec<VerdictReason> = Vec::new();
    let mut low: Vec<VerdictReason> = Vec::new();
    let n = rest.len();
    let mut k: usize = 0;
    assert(views.take(0) =~= Seq::<ReasonView>::empty());
    while k < n
        invariant
            k <= n,
            n == views.len(),
            rest@.len() == n - k,
            reason_views(rest@) == views.skip(k as int),
            reason_views(high@) == of_tier(views.take(k as int), 2),
            reason_views(mid@) == of_tier(views.take(k as int), 1),
            reason_views(low@) == of_tier(views.take(k as int), 0),
        decreases n - k,
    {
        let ghost before = rest@;
        let x = rest.remove(0);
        proof {
            assert(x@ == reason_views(before)[0]);
            assert(views.skip(k as int)[0] == views[k as int]);
            assert(reason_views(rest@) =~= reason_views(before).drop_first());
            assert(views.skip(k as int).drop_first() =~= views.skip(k + 1));
            assert(views.take(k + 1).drop_last() =~= views.take(k as int));
            assert(views.take(k + 1).last() == views[k as int]);
        }
        let t = tier_of(&x);
        if t == 2 {
            push_reason(&mut high, x);
        } else if t == 1 {
            push_reason(&mut mid, x);
        } else {
            push_reason(&mut low, x);
        }
        k = k + 1;
    }
    assert(views.take(n as int) =~= views);
    let ghost hv = high@;
    let ghost mv = mid@;
    let ghost lv = low@;
    high.append(&mut mid);
    high.append(&mut low);
    assert(high@ =~= hv + mv + lv);
    assert(reason_views(high@) =~= reason_views(hv) + reason_views(mv) + reason_views(lv));
    high
}

fn headline_for_recommendation(recommendation: VerdictRecommendation) -> (r: &'static str)
    ensures
        r@ == headline_for(recommendation),
{
    match recommendation {
        VerdictRecommendation::Safe => "safe to use",
        VerdictRecommendation::Caution => "use with care",
        VerdictRecommendation::Avoid => "avoid in new work",
        VerdictRecommendation::Forbid => "do not use",
    }
}

/// The views of a list of browser identifiers.
pub open spec fn string_views(v: Seq<String>) -> Seq<Seq<char>> {
    v.map_values(|s: String| s@)
}

/// Derive a presentation verdict for explicitly selected browser products.
pub fn verdict_for_browsers(facts: &Facts, browsers: &Vec<String>) -> (r: Option<CompatVerdict>)
    ensures
        is_verdict_for(r, *facts, string_views(browsers@)),
{
    let mut reasons: Vec<VerdictReason> = Vec::new();
    if facts.deprecated {
        push_reason(&mut reasons, VerdictReason::BcdDeprecated);
    }
    if facts.experimental {
        push_reason(&mut reasons, VerdictReason::BcdExperimental);
    }
    if facts.standard_track == Some(false) {
        push_reason(&mut reasons, VerdictReason::BcdNonStandard);
    }
    match &facts.baseline {
        Some(baseline) => match baseline.status {
            Some(BaselineTier::Limited) => push_reason(&mut reasons, VerdictReason::BaselineLimited),
            Some(BaselineTier::Newly) => {
                let since = match &baseline.low_date {
                    Some(d) => d.year(),
                    None => None,
                };
                let qualifier = match &baseline.low_date {
                    Some(d) => d.qualifier,
                    None => None,
                };
                push_reason(&mut reasons, VerdictReason::BaselineNewly { since, qualifier });
            },
            _ => {},
        },
        None => {},
    }
    assert(reason_views(reasons@) =~= record_reasons(*facts));
    let ghost ids = string_views(browsers@);
    if let Some(support) = &facts.browser_support {
        let mut i: usize = 0;
        while i < browsers.len()
            invariant
                i <= browsers@.len(),
                ids == string_views(browsers@),
                facts.browser_support == Some(*support),
                reason_views(reasons@) == record_reasons(*facts) + browsers_reasons(
                    *support,
                    ids.subrange(0, i as int),
                ),
            decreases browsers@.len() - i,
        {
            let id = browsers[i].as_str();
            let selected = match support.get(id) {
                Some(history) => select_statement(history.as_slice()),
                None => None,
            };
            collect_browser_reasons(&mut reasons, id, selected);
            proof {
                assert(ids.subrange(0, i + 1).drop_last() =~= ids.subrange(0, i as int));
                assert(ids.subrange(0, i + 1).last() == browsers@[i as int]@);
            }
            i = i + 1;
        }
        assert(ids.subrange(0, browsers@.len() as int) =~= ids);
    } else {
        assert(reason_views(reasons@) =~= record_reasons(*facts) + Seq::<ReasonView>::empty());
    }
    if reasons.len() == 0 {
        return None;
    }
    let recommendation = recommendation_for_reasons(&reasons);
    Some(
        CompatVerdict {
            recommendation,
            headline_template: owned(headline_for_recommendation(recommendation)),
            reasons: sort_by_tier(reasons),
        },
    )
}

/// The four engines a default verdict covers.
pub open spec fn default_browsers() -> Seq<Seq<char>> {
    seq!["chrome"@, "edge"@, "firefox"@, "safari"@]
}

/// Derive every compatibility warning from one selected record, across the
/// four tracked engines.
pub fn verdict(facts: &Facts) -> (r: Option<CompatVerdict>)
    ensures
        is_verdict_for(r, *facts, default_browsers()),
{
    let browsers = vec![owned("chrome"), owned("edge"), owned("firefox"), owned("safari")];
    assert(string_views(browsers@) =~= default_browsers());
    verdict_for_browsers(facts, &browsers)
}

} // verus!
