//! Hover Markdown: definition previews, compatibility verdict lines, browser
//! support rows, profile lifecycle lines and the hovers of attributes that
//! belong to XML rather than SVG.

use vstd::prelude::*;
use crate::compat::{
    select_statement, selected_index, support_for, supported_spec, BaselineQualifier,
    BrowserSupport, BrowserVersion, VersionAdded,
};
use crate::hover_settings::{browser_label, browser_label_spec, HoverSettings};
use crate::snapshot::{
    snapshot_index, snapshot_name, snapshot_rank, ProfileLookup, SpecLifecycle, SpecSnapshotId,
};
use crate::text::{
    alnum, chars_of, concat, concat3, decimal, decimal_string, is_alnum, is_punct, join,
    join_spec, punct, push_char, push_str, str_eq, string_of, string_seqs, trim_bounds, trim_spec,
    sub_vec,
};
use crate::verdict::{
    reason_views, verdict_for_browsers, CompatVerdict, Facts, ReasonView, VerdictReason,
    VerdictRecommendation,
};

verus! {

// ---------------------------------------------------------------------------
// Escaping

/// Upstream prose as Markdown text: every ASCII punctuation character is
/// backslash-escaped.
pub open spec fn escape_metadata_spec(s: Seq<char>) -> Seq<char>
    decreases s.len(),
{
    if s.len() == 0 {
        Seq::empty()
    } else {
        escape_metadata_spec(s.drop_last()) + if is_punct(s.last()) {
            seq!['\\', s.last()]
        } else {
            seq![s.last()]
        }
    }
}

/// Upstream prose is text, never trusted Markdown or HTML.
pub fn escape_metadata(text: &str) -> (r: String)
    ensures
        r@ == escape_metadata_spec(text@),
{
    let v = chars_of(text);
    let mut out = String::new();
    let mut i: usize = 0;
    while i < v.len()
        invariant
            i <= v@.len(),
            out@ == escape_metadata_spec(v@.take(i as int)),
        decreases v@.len() - i,
    {
        let c = v[i];
        assert(v@.take(i + 1).drop_last() =~= v@.take(i as int));
        if punct(c) {
            push_char(&mut out, '\\');
        }
        push_char(&mut out, c);
        i = i + 1;
        assert(out@ =~= escape_metadata_spec(v@.take(i as int)));
    }
    assert(v@.take(v@.len() as int) =~= v@);
    out
}

/// A link label with `[`, `]` and `\` backslash-escaped.
pub open spec fn escape_label_spec(s: Seq<char>) -> Seq<char>
    decreases s.len(),
{
    if s.len() == 0 {
        Seq::empty()
    } else {
        let c = s.last();
        escape_label_spec(s.drop_last()) + if c == '[' || c == ']' || c == '\\' {
            seq!['\\', c]
        } else {
            seq![c]
        }
    }
}

/// Make a link label safe to write between brackets.
pub fn escape_link_label(label: &str) -> (r: String)
    ensures
        r@ == escape_label_spec(label@),
{
    let v = chars_of(label);
    let mut out = String::new();
    let mut i: usize = 0;
    while i < v.len()
        invariant
            i <= v@.len(),
            out@ == escape_label_spec(v@.take(i as int)),
        decreases v@.len() - i,
    {
        let c = v[i];
        assert(v@.take(i + 1).drop_last() =~= v@.take(i as int));
        if c == '[' || c == ']' || c == '\\' {
            push_char(&mut out, '\\');
        }
        push_char(&mut out, c);
        i = i + 1;
        assert(out@ =~= escape_label_spec(v@.take(i as int)));
    }
    assert(v@.take(v@.len() as int) =~= v@);
    out
}

/// A link destination with `(` and `)` percent-encoded.
pub open spec fn escape_target_spec(s: Seq<char>) -> Seq<char>
    decreases s.len(),
{
    if s.len() == 0 {
        Seq::empty()
    } else {
        let c = s.last();
        escape_target_spec(s.drop_last()) + if c == '(' {
            seq!['%', '2', '8']
        } else if c == ')' {
            seq!['%', '2', '9']
        } else {
            seq![c]
        }
    }
}

/// Make a link destination safe to write between parentheses.
pub fn escape_link_target(target: &str) -> (r: String)
    ensures
        r@ == escape_target_spec(target@),
{
    let v = chars_of(target);
    let mut out = String::new();
    let mut i: usize = 0;
    while i < v.len()
        invariant
            i <= v@.len(),
            out@ == escape_target_spec(v@.take(i as int)),
        decreases v@.len() - i,
    {
        let c = v[i];
        assert(v@.take(i + 1).drop_last() =~= v@.take(i as int));
        if c == '(' {
            push_char(&mut out, '%');
            push_char(&mut out, '2');
            push_char(&mut out, '8');
        } else if c == ')' {
            push_char(&mut out, '%');
            push_char(&mut out, '2');
            push_char(&mut out, '9');
        } else {
            push_char(&mut out, c);
        }
        i = i + 1;
        assert(out@ =~= escape_target_spec(v@.take(i as int)));
    }
    assert(v@.take(v@.len() as int) =~= v@);
    out
}

// ---------------------------------------------------------------------------
// Definition previews

/// The number of backticks that end `s`.
pub open spec fn trailing_ticks(s: Seq<char>) -> nat
    decreases s.len(),
{
    if s.len() > 0 && s.last() == '`' {
        1 + trailing_ticks(s.drop_last())
    } else {
        0
    }
}

/// The length of the longest run of backticks in `s`.
pub open spec fn longest_ticks(s: Seq<char>) -> nat
    decreases s.len(),
{
    if s.len() == 0 {
        0
    } else {
        let prev = longest_ticks(s.drop_last());
        let run = trailing_ticks(s);
        if run > prev {
            run
        } else {
            prev
        }
    }
}

proof fn lemma_ticks_bounded(s: Seq<char>)
    ensures
        trailing_ticks(s) <= s.len(),
        longest_ticks(s) <= s.len(),
    decreases s.len(),
{
    if s.len() > 0 {
        lemma_ticks_bounded(s.drop_last());
    }
}

fn longest_run_in(v: &Vec<char>) -> (r: usize)
    ensures
        r == longest_ticks(v@),
{
    let mut longest: usize = 0;
    let mut run: usize = 0;
    let mut i: usize = 0;
    while i < v.len()
        invariant
            i <= v@.len(),
            run == trailing_ticks(v@.take(i as int)),
            longest == longest_ticks(v@.take(i as int)),
        decreases v@.len() - i,
    {
        assert(v@.take(i + 1).drop_last() =~= v@.take(i as int));
        proof {
            lemma_ticks_bounded(v@.take(i as int));
        }
        if v[i] == '`' {
            run = run + 1;
            if run > longest {
                longest = run;
            }
        } else {
            run = 0;
        }
        i = i + 1;
    }
    assert(v@.take(v@.len() as int) =~= v@);
    longest
}

/// Length of the longest run of backticks in `text`.
pub fn longest_backtick_run(text: &str) -> (r: usize)
    ensures
        r == longest_ticks(text@),
{
    let v = chars_of(text);
    longest_run_in(&v)
}

/// Where a hover definition was found: its label and its link target.
pub struct HoverSourceLink {
    pub label: String,
    pub target: String,
}

pub open spec fn ticks(n: nat) -> Seq<char> {
    Seq::new(n, |i: int| '`')
}

/// One definition section: the trimmed snippet fenced as CSS (the fence one
/// backtick longer than any run inside, and at least three), or the fallback
/// label as code when the snippet is blank; then where it is defined.
pub open spec fn definition_section(snippet: Seq<char>, link: HoverSourceLink, fallback: Seq<char>) -> Seq<
    char,
> {
    let trimmed = trim_spec(snippet);
    let head = if trimmed.len() == 0 {
        seq!['`'] + fallback + seq!['`']
    } else {
        let n = longest_ticks(trimmed);
        let fence = ticks(if n > 2 { n + 1 } else { 3 });
        fence + "css\n"@ + trimmed + seq!['\n'] + fence
    };
    head + "\nDefined in ["@ + escape_label_spec(link.label@) + "]("@ + escape_target_spec(
        link.target@,
    ) + seq![')']
}

pub open spec fn definition_sections(defs: Seq<(String, HoverSourceLink)>, fallback: Seq<char>) -> Seq<
    Seq<char>,
> {
    defs.map_values(|d: (String, HoverSourceLink)| definition_section(d.0@, d.1, fallback))
}

/// The definitions, separated by a thematic break.
pub open spec fn definition_hover_spec(defs: Seq<(String, HoverSourceLink)>, fallback: Seq<char>) -> Seq<
    char,
> {
    join_spec(definition_sections(defs, fallback), "\n\n---\n\n"@)
}

fn push_ticks(out: &mut String, n: usize)
    ensures
        final(out)@ == old(out)@ + ticks(n as nat),
{
    let mut i: usize = 0;
    while i < n
        invariant
            i <= n,
            out@ == old(out)@ + ticks(i as nat),
        decreases n - i,
    {
        push_char(out, '`');
        i = i + 1;
        assert(out@ =~= old(out)@ + ticks(i as nat));
    }
}

fn definition_section_text(snippet: &String, source: &HoverSourceLink, fallback_label: &str) -> (r:
    String)
    requires
        snippet@.len() < usize::MAX,
    ensures
        r@ == definition_section(snippet@, *source, fallback_label@),
{
    let v = chars_of(snippet.as_str());
    let (a, b) = trim_bounds(&v);
    let trimmed = sub_vec(&v, a, b);
    let mut section = String::new();
    if trimmed.len() == 0 {
        push_char(&mut section, '`');
        push_str(&mut section, fallback_label);
        push_char(&mut section, '`');
    } else {
        let longest = longest_run_in(&trimmed);
        proof {
            lemma_ticks_bounded(trimmed@);
            crate::text::lemma_lead_ws_le(v@);
        }
        assert(trimmed@.len() <= v@.len());
        let width = if longest > 2 {
            longest + 1
        } else {
            3
        };
        push_ticks(&mut section, width);
        push_str(&mut section, "css\n");
        let t = string_of(&trimmed);
        push_str(&mut section, t.as_str());
        push_char(&mut section, '\n');
        push_ticks(&mut section, width);
    }
    push_str(&mut section, "\nDefined in [");
    let label = escape_link_label(source.label.as_str());
    push_str(&mut section, label.as_str());
    push_str(&mut section, "](");
    let target = escape_link_target(source.target.as_str());
    push_str(&mut section, target.as_str());
    push_char(&mut section, ')');
    assert(section@ =~= definition_section(snippet@, *source, fallback_label@));
    section
}

/// Definition previews joined by a thematic break.
pub fn format_definition_hover(definitions: &Vec<(String, HoverSourceLink)>, fallback_label: &str) -> (r:
    String)
    requires
        forall|i: int| 0 <= i < definitions@.len() ==> (#[trigger] definitions@[i]).0@.len() < usize::MAX,
    ensures
        r@ == definition_hover_spec(definitions@, fallback_label@),
{
    let mut sections: Vec<String> = Vec::new();
    let mut i: usize = 0;
    while i < definitions.len()
        invariant
            i <= definitions@.len(),
            forall|k: int| 0 <= k < definitions@.len() ==> (#[trigger] definitions@[k]).0@.len() < usize::MAX,
            string_seqs(sections@) == definition_sections(definitions@, fallback_label@).take(
                i as int,
            ),
        decreases definitions@.len() - i,
    {
        let (snippet, source) = &definitions[i];
        assert(definitions@[i as int].0@.len() < usize::MAX);
        assert(definition_sections(definitions@, fallback_label@)[i as int] == definition_section(
            snippet@,
            *source,
            fallback_label@,
        ));
        let ghost before = string_seqs(sections@);
        let x = definition_section_text(snippet, source, fallback_label);
        sections.push(x);
        assert(string_seqs(sections@) =~= before.push(x@));
        assert(definition_sections(definitions@, fallback_label@).take(i + 1) =~= definition_sections(
            definitions@,
            fallback_label@,
        ).take(i as int).push(x@));
        i = i + 1;
    }
    assert(definition_sections(definitions@, fallback_label@).take(i as int) =~= definition_sections(
        definitions@,
        fallback_label@,
    ));
    join(&sections, "\n\n---\n\n")
}

/// The hover of a CSS class: its definitions, labelled `.name` when a
/// snippet is blank.
pub fn format_class_hover(class_name: &str, definitions: &Vec<(String, HoverSourceLink)>) -> (r:
    String)
    requires
        forall|i: int| 0 <= i < definitions@.len() ==> (#[trigger] definitions@[i]).0@.len() < usize::MAX,
    ensures
        r@ == definition_hover_spec(definitions@, seq!['.'] + class_name@),
{
    let mut label = String::new();
    push_char(&mut label, '.');
    push_str(&mut label, class_name);
    format_definition_hover(definitions, label.as_str())
}

/// The hover of a CSS custom property: its declarations.
pub fn format_custom_property_hover(
    property_name: &str,
    definitions: &Vec<(String, HoverSourceLink)>,
) -> (r: String)
    requires
        forall|i: int| 0 <= i < definitions@.len() ==> (#[trigger] definitions@[i]).0@.len() < usize::MAX,
    ensures
        r@ == definition_hover_spec(definitions@, property_name@),
{
    format_definition_hover(definitions, property_name)
}

/// The end (one past the brace) of the block opened at `open`, counting
/// braces from `i` with `depth` blocks open.
pub open spec fn brace_end_from(s: Seq<u8>, i: int, depth: nat) -> Option<int>
    decreases s.len() - i,
{
    if i < 0 || i >= s.len() {
        None
    } else if s[i] == 0x7bu8 {
        brace_end_from(s, i + 1, depth + 1)
    } else if s[i] == 0x7du8 {
        if depth == 0 {
            None
        } else if depth == 1 {
            Some(i + 1)
        } else {
            brace_end_from(s, i + 1, (depth - 1) as nat)
        }
    } else {
        brace_end_from(s, i + 1, depth)
    }
}

/// A cheap brace counter for hover snippets: the position just past the
/// brace that closes the block opened at `open_index`.
pub fn matching_brace_end(source: &[u8], open_index: usize) -> (r: Option<usize>)
    ensures
        r == match brace_end_from(source@, open_index as int, 0) {
            Some(e) => Some(e as usize),
            None => None::<usize>,
        },
{
    let mut depth: usize = 0;
    let mut idx = open_index;
    if idx > source.len() {
        return None;
    }
    while idx < source.len()
        invariant
            open_index <= idx <= source@.len(),
            depth <= idx - open_index,
            brace_end_from(source@, open_index as int, 0) == brace_end_from(
                source@,
                idx as int,
                depth as nat,
            ),
        decreases source@.len() - idx,
    {
        let byte = source[idx];
        if byte == 0x7bu8 {
            depth = depth + 1;
        } else if byte == 0x7du8 {
            if depth == 0 {
                return None;
            }
            depth = depth - 1;
            if depth == 0 {
                return Some(idx + 1);
            }
        }
        idx = idx + 1;
    }
    None
}

// ---------------------------------------------------------------------------
// Compatibility sections

/// A compatibility verdict as character sequences.
pub struct VerdictView {
    pub recommendation: VerdictRecommendation,
    pub headline: Seq<char>,
    pub reasons: Seq<ReasonView>,
}

pub open spec fn verdict_view(v: CompatVerdict) -> VerdictView {
    VerdictView {
        recommendation: v.recommendation,
        headline: v.headline_template@,
        reasons: reason_views(v.reasons@),
    }
}

/// Glyph before a baseline year whose upstream date was inexact.
pub open spec fn qualifier_glyph(q: Option<BaselineQualifier>) -> Seq<char> {
    match q {
        Some(BaselineQualifier::Before) => "\u{2264}"@,
        Some(BaselineQualifier::After) => "\u{2265}"@,
        Some(BaselineQualifier::Approximately) => "~"@,
        None => ""@,
    }
}

pub fn format_baseline_qualifier(qualifier: Option<BaselineQualifier>) -> (r: &'static str)
    ensures
        r@ == qualifier_glyph(qualifier),
{
    match qualifier {
        Some(BaselineQualifier::Before) => "\u{2264}",
        Some(BaselineQualifier::After) => "\u{2265}",
        Some(BaselineQualifier::Approximately) => "~",
        None => "",
    }
}

/// Characters a browser version keeps unescaped.
pub open spec fn is_version_char(c: char) -> bool {
    is_alnum(c) || c == '.' || c == '\u{2264}' || c == '\u{2265}' || c == '~' || c == '\u{2248}'
}

/// A browser version as written, or escaped when it holds anything but
/// version characters.
pub open spec fn browser_version_text(v: Seq<char>) -> Seq<char> {
    if forall|i: int| 0 <= i < v.len() ==> is_version_char(#[trigger] v[i]) {
        v
    } else {
        escape_metadata_spec(v)
    }
}

pub fn format_browser_version(version: &str) -> (r: String)
    ensures
        r@ == browser_version_text(version@),
{
    let v = chars_of(version);
    let mut i: usize = 0;
    while i < v.len()
        invariant
            i <= v@.len(),
            v@ == version@,
            forall|k: int| 0 <= k < i ==> is_version_char(#[trigger] v@[k]),
        decreases v@.len() - i,
    {
        let c = v[i];
        if !(alnum(c) || c == '.' || c == '\u{2264}' || c == '\u{2265}' || c == '~' || c
            == '\u{2248}') {
            assert(!is_version_char(version@[i as int]));
            assert(!(forall|k: int| 0 <= k < version@.len() ==> is_version_char(#[trigger] version@[k])));
            let r = escape_metadata(version);
            assert(r@ == browser_version_text(version@));
            return r;
        }
        i = i + 1;
    }
    version.to_owned()
}

/// The text of one verdict reason.
pub open spec fn reason_text(r: ReasonView) -> Seq<char> {
    match r {
        ReasonView::BcdDeprecated => "deprecated"@,
        ReasonView::BcdExperimental => "experimental"@,
        ReasonView::BcdNonStandard => "non-standard"@,
        ReasonView::ProfileObsolete(last) => "removed after `"@ + snapshot_name(last) + "`"@,
        ReasonView::ProfileExperimental => "draft-only in profile"@,
        ReasonView::BaselineLimited => "limited baseline"@,
        ReasonView::BaselineNewly(since, q) => match since {
            Some(year) => "newly available since "@ + qualifier_glyph(q) + decimal(year as nat),
            None => "newly available"@,
        },
        ReasonView::PartialImplementationIn(b) => "partial in "@ + b,
        ReasonView::PrefixRequiredIn(b, p) => "`"@ + p + "` prefix in "@ + b,
        ReasonView::BehindFlagIn(b) => "flagged in "@ + b,
        ReasonView::UnsupportedIn(b) => "no support in "@ + b,
        ReasonView::RemovedIn(b, v) => "removed in "@ + b + " "@ + browser_version_text(v),
    }
}

pub fn format_verdict_reason(reason: &VerdictReason) -> (r: String)
    ensures
        r@ == reason_text(reason@),
{
    match reason {
        VerdictReason::BcdDeprecated => "deprecated".to_owned(),
        VerdictReason::BcdExperimental => "experimental".to_owned(),
        VerdictReason::BcdNonStandard => "non-standard".to_owned(),
        VerdictReason::ProfileObsolete { last_seen } => concat3(
            "removed after `",
            last_seen.as_str(),
            "`",
        ),
        VerdictReason::ProfileExperimental => "draft-only in profile".to_owned(),
        VerdictReason::BaselineLimited => "limited baseline".to_owned(),
        VerdictReason::BaselineNewly { since, qualifier } => match since {
            Some(year) => {
                let y = decimal_string(*year as u64);
                concat3("newly available since ", format_baseline_qualifier(*qualifier), y.as_str())
            },
            None => "newly available".to_owned(),
        },
        VerdictReason::PartialImplementationIn(browser) => concat("partial in ", browser.as_str()),
        VerdictReason::PrefixRequiredIn { browser, prefix } => {
            let mut out = concat3("`", prefix.as_str(), "` prefix in ");
            push_str(&mut out, browser.as_str());
            out
        },
        VerdictReason::BehindFlagIn(browser) => concat("flagged in ", browser.as_str()),
        VerdictReason::UnsupportedIn(browser) => concat("no support in ", browser.as_str()),
        VerdictReason::RemovedIn { browser, version } => {
            let mut out = concat3("removed in ", browser.as_str(), " ");
            let v = format_browser_version(version.as_str());
            push_str(&mut out, v.as_str());
            out
        },
    }
}

pub open spec fn reason_texts(r: Seq<ReasonView>) -> Seq<Seq<char>> {
    r.map_values(|x: ReasonView| reason_text(x))
}

/// The consolidated status line of a verdict, when it has reasons.
pub open spec fn verdict_status_spec(v: VerdictView) -> Option<Seq<char>> {
    if v.reasons.len() == 0 {
        None
    } else {
        Some("**Status (svg assessment):** "@ + join_spec(reason_texts(v.reasons), " \u{b7} "@))
    }
}

pub fn format_verdict_status(verdict: &CompatVerdict) -> (r: Option<String>)
    ensures
        match verdict_status_spec(verdict_view(*verdict)) {
            Some(s) => r matches Some(x) && x@ == s,
            None => r is None,
        },
{
    if verdict.reasons.len() == 0 {
        return None;
    }
    let mut parts: Vec<String> = Vec::new();
    let mut i: usize = 0;
    let ghost rs = reason_views(verdict.reasons@);
    while i < verdict.reasons.len()
        invariant
            i <= verdict.reasons@.len(),
            rs == reason_views(verdict.reasons@),
            string_seqs(parts@) == reason_texts(rs).take(i as int),
        decreases verdict.reasons@.len() - i,
    {
        assert(reason_texts(rs)[i as int] == reason_text(verdict.reasons@[i as int]@));
        let ghost before = string_seqs(parts@);
        let x = format_verdict_reason(&verdict.reasons[i]);
        parts.push(x);
        assert(string_seqs(parts@) =~= before.push(x@));
        assert(reason_texts(rs).take(i + 1) =~= reason_texts(rs).take(i as int).push(x@));
        i = i + 1;
    }
    assert(reason_texts(rs).take(i as int) =~= reason_texts(rs));
    let joined = join(&parts, " \u{b7} ");
    Some(concat("**Status (svg assessment):** ", joined.as_str()))
}

/// The glyph of a recommendation.
pub open spec fn recommendation_glyph(r: VerdictRecommendation) -> Seq<char> {
    match r {
        VerdictRecommendation::Safe => "\u{2713}"@,
        VerdictRecommendation::Caution => "\u{26A0}"@,
        VerdictRecommendation::Avoid => "\u{2298}"@,
        VerdictRecommendation::Forbid => "\u{2717}"@,
    }
}

pub open spec fn default_template(r: VerdictRecommendation) -> Seq<char> {
    match r {
        VerdictRecommendation::Safe => "safe to use"@,
        VerdictRecommendation::Caution => "use with care"@,
        VerdictRecommendation::Avoid => "avoid in new work"@,
        VerdictRecommendation::Forbid => "do not use"@,
    }
}

/// The verdict headline as a blockquote: glyph, feature name as code, and the
/// verdict's template (or the recommendation's default when it has none).
pub open spec fn verdict_headline_spec(v: VerdictView, name: Seq<char>) -> Seq<char> {
    let template = if v.headline.len() == 0 {
        default_template(v.recommendation)
    } else {
        v.headline
    };
    "> "@ + recommendation_glyph(v.recommendation) + " `"@ + name + "` \u{2014} "@ + template
}

pub fn format_verdict_headline(verdict: &CompatVerdict, feature_name: &str) -> (r: String)
    ensures
        r@ == verdict_headline_spec(verdict_view(*verdict), feature_name@),
{
    let glyph = match verdict.recommendation {
        VerdictRecommendation::Safe => "\u{2713}",
        VerdictRecommendation::Caution => "\u{26A0}",
        VerdictRecommendation::Avoid => "\u{2298}",
        VerdictRecommendation::Forbid => "\u{2717}",
    };
    let template = if verdict.headline_template.as_str().is_empty() {
        match verdict.recommendation {
            VerdictRecommendation::Safe => "safe to use",
            VerdictRecommendation::Caution => "use with care",
            VerdictRecommendation::Avoid => "avoid in new work",
            VerdictRecommendation::Forbid => "do not use",
        }
    } else {
        verdict.headline_template.as_str()
    };
    let mut out = concat3("> ", glyph, " `");
    push_str(&mut out, feature_name);
    push_str(&mut out, "` \u{2014} ");
    push_str(&mut out, template);
    assert(out@ =~= verdict_headline_spec(verdict_view(*verdict), feature_name@));
    out
}

/// The status line of a hover: the verdict status, joined with the profile
/// line unless that line says the feature is stable; either alone otherwise.
pub open spec fn reconciled_status_spec(status: Option<Seq<char>>, profile: Option<Seq<char>>) -> Option<
    Seq<char>,
> {
    match (status, profile) {
        (Some(s), Some(p)) => if crate::compat::starts_with(p, "**Stable"@) {
            Some(s)
        } else {
            Some(s + " \u{b7} "@ + p)
        },
        (Some(s), None) => Some(s),
        (None, p) => p,
    }
}

pub open spec fn opt_verdict_status(v: Option<CompatVerdict>) -> Option<Seq<char>> {
    match v {
        Some(x) => verdict_status_spec(verdict_view(x)),
        None => None,
    }
}

pub open spec fn opt_string(o: Option<String>) -> Option<Seq<char>> {
    match o {
        Some(s) => Some(s@),
        None => None,
    }
}

fn starts_with_str(s: &str, p: &str) -> (r: bool)
    ensures
        r == crate::compat::starts_with(s@, p@),
{
    let v = chars_of(s);
    let pv = chars_of(p);
    if pv.len() > v.len() {
        return false;
    }
    crate::text::prefix_at(&v, 0, &pv)
}

pub fn reconciled_status(verdict: Option<&CompatVerdict>, profile: Option<String>) -> (r: Option<
    String,
>)
    ensures
        opt_string(r) == reconciled_status_spec(
            match verdict {
                Some(v) => verdict_status_spec(verdict_view(*v)),
                None => None,
            },
            opt_string(profile),
        ),
{
    let status = match verdict {
        Some(v) => format_verdict_status(v),
        None => None,
    };
    match (status, profile) {
        (Some(s), Some(p)) => {
            if starts_with_str(p.as_str(), "**Stable") {
                Some(s)
            } else {
                let mut out = s;
                push_str(&mut out, " \u{b7} ");
                push_str(&mut out, p.as_str());
                Some(out)
            }
        },
        (Some(s), None) => Some(s),
        (None, p) => p,
    }
}

fn clone_string(s: &String) -> (r: String)
    ensures
        r@ == s@,
{
    s.clone()
}

fn clone_reason(r: &VerdictReason) -> (c: VerdictReason)
    ensures
        c@ == r@,
{
    match r {
        VerdictReason::BcdDeprecated => VerdictReason::BcdDeprecated,
        VerdictReason::BcdExperimental => VerdictReason::BcdExperimental,
        VerdictReason::BcdNonStandard => VerdictReason::BcdNonStandard,
        VerdictReason::ProfileObsolete { last_seen } => VerdictReason::ProfileObsolete {
            last_seen: *last_seen,
        },
        VerdictReason::ProfileExperimental => VerdictReason::ProfileExperimental,
        VerdictReason::BaselineLimited => VerdictReason::BaselineLimited,
        VerdictReason::BaselineNewly { since, qualifier } => VerdictReason::BaselineNewly {
            since: *since,
            qualifier: *qualifier,
        },
        VerdictReason::PartialImplementationIn(b) => VerdictReason::PartialImplementationIn(
            clone_string(b),
        ),
        VerdictReason::PrefixRequiredIn { browser, prefix } => VerdictReason::PrefixRequiredIn {
            browser: clone_string(browser),
            prefix: clone_string(prefix),
        },
        VerdictReason::BehindFlagIn(b) => VerdictReason::BehindFlagIn(clone_string(b)),
        VerdictReason::UnsupportedIn(b) => VerdictReason::UnsupportedIn(clone_string(b)),
        VerdictReason::RemovedIn { browser, version } => VerdictReason::RemovedIn {
            browser: clone_string(browser),
            version: clone_string(version),
        },
    }
}

/// Whether a reason is a profile restriction rather than a compatibility fact.
pub open spec fn is_profile_reason(r: ReasonView) -> bool {
    r is ProfileObsolete || r is ProfileExperimental
}

/// The profile reasons among `rs`, in order.
pub open spec fn profile_reasons(rs: Seq<ReasonView>) -> Seq<ReasonView>
    decreases rs.len(),
{
    if rs.len() == 0 {
        Seq::empty()
    } else if is_profile_reason(rs.last()) {
        profile_reasons(rs.drop_last()).push(rs.last())
    } else {
        profile_reasons(rs.drop_last())
    }
}

/// The verdict shown after a refresh: a profile prohibition keeps its
/// recommendation, headline and profile reasons, and takes every current
/// compatibility reason after them; otherwise the current verdict stands.
pub open spec fn reconcile_spec(previous: Option<VerdictView>, current: Option<VerdictView>) -> Option<
    VerdictView,
> {
    match previous {
        Some(p) => if p.recommendation == VerdictRecommendation::Forbid {
            Some(
                VerdictView {
                    recommendation: p.recommendation,
                    headline: p.headline,
                    reasons: profile_reasons(p.reasons) + match current {
                        Some(c) => c.reasons,
                        None => Seq::empty(),
                    },
                },
            )
        } else {
            current
        },
        None => current,
    }
}

pub open spec fn opt_verdict_view(v: Option<CompatVerdict>) -> Option<VerdictView> {
    match v {
        Some(x) => Some(verdict_view(x)),
        None => None,
    }
}

/// Preserve independent profile restrictions while replacing all
/// compatibility reasons with those of the current facts.
pub fn reconcile_verdict(
    previous: Option<&CompatVerdict>,
    facts: &Facts,
    settings: &HoverSettings,
) -> (r: Option<CompatVerdict>)
    ensures
        exists|current: Option<CompatVerdict>|
            crate::verdict::is_verdict_for(
                current,
                *facts,
                crate::verdict::string_views(settings.browsers@),
            ) && opt_verdict_view(r) == reconcile_spec(
                match previous {
                    Some(p) => Some(verdict_view(*p)),
                    None => None,
                },
                opt_verdict_view(current),
            ),
{
    let current = verdict_for_browsers(facts, &settings.browsers);
    match previous {
        Some(profile) => {
            if profile.recommendation == VerdictRecommendation::Forbid {
                let mut reasons: Vec<VerdictReason> = Vec::new();
                let ghost pr = reason_views(profile.reasons@);
                let mut i: usize = 0;
                assert(pr.take(0) =~= Seq::<ReasonView>::empty());
                while i < profile.reasons.len()
                    invariant
                        i <= profile.reasons@.len(),
                        pr == reason_views(profile.reasons@),
                        reason_views(reasons@) == profile_reasons(pr.take(i as int)),
                    decreases profile.reasons@.len() - i,
                {
                    let reason = &profile.reasons[i];
                    assert(pr.take(i + 1).drop_last() =~= pr.take(i as int));
                    assert(pr.take(i + 1).last() == reason@);
                    let keep = match reason {
                        VerdictReason::ProfileObsolete { .. } => true,
                        VerdictReason::ProfileExperimental => true,
                        _ => false,
                    };
                    if keep {
                        let ghost before = reason_views(reasons@);
                        let x = clone_reason(reason);
                        reasons.push(x);
                        assert(reason_views(reasons@) =~= before.push(x@));
                        assert(reason_views(reasons@) =~= profile_reasons(pr.take(i + 1)));
                    } else {
                        assert(reason_views(reasons@) =~= profile_reasons(pr.take(i + 1)));
                    }
                    i = i + 1;
                }
                assert(pr.take(i as int) =~= pr);
                let ghost kept = reason_views(reasons@);
                match current {
                    Some(c) => {
                        let mut j: usize = 0;
                        let ghost cr = reason_views(c.reasons@);
                        while j < c.reasons.len()
                            invariant
                                j <= c.reasons@.len(),
                                cr == reason_views(c.reasons@),
                                reason_views(reasons@) == kept + cr.take(j as int),
                            decreases c.reasons@.len() - j,
                        {
                            assert(cr[j as int] == c.reasons@[j as int]@);
                            let ghost before = reason_views(reasons@);
                            let x = clone_reason(&c.reasons[j]);
                            reasons.push(x);
                            assert(reason_views(reasons@) =~= before.push(x@));
                            assert(cr.take(j + 1) =~= cr.take(j as int).push(x@));
                            j = j + 1;
                            assert(reason_views(reasons@) =~= kept + cr.take(j as int));
                        }
                        assert(cr.take(j as int) =~= cr);
                        let r = CompatVerdict {
                            recommendation: profile.recommendation,
                            headline_template: clone_string(&profile.headline_template),
                            reasons,
                        };
                        assert(opt_verdict_view(Some(r)) == reconcile_spec(
                            Some(verdict_view(*profile)),
                            opt_verdict_view(Some(c)),
                        ));
                        Some(r)
                    },
                    None => {
                        assert(kept + Seq::<ReasonView>::empty() =~= kept);
                        Some(
                            CompatVerdict {
                                recommendation: profile.recommendation,
                                headline_template: clone_string(&profile.headline_template),
                                reasons,
                            },
                        )
                    },
                }
            } else {
                current
            }
        },
        None => current,
    }
}

// ---------------------------------------------------------------------------
// Browser support rows

/// The concise label of one browser's support statement.
pub open spec fn version_label_spec(v: Option<BrowserVersion>) -> Seq<char> {
    match v {
        None => "unknown"@,
        Some(s) => if supported_spec(s) == Some(false) {
            "\u{2717}"@
        } else {
            match s.version_added {
                Some(VersionAdded::Version(x)) => browser_version_text(x@) + if s.version_removed is Some {
                    " (removed)"@
                } else {
                    Seq::empty()
                },
                _ => "unknown"@,
            }
        },
    }
}

pub fn browser_version_label(version: Option<&BrowserVersion>) -> (r: String)
    ensures
        r@ == version_label_spec(
            match version {
                Some(v) => Some(*v),
                None => None,
            },
        ),
{
    let v = match version {
        Some(v) => v,
        None => {
            return "unknown".to_owned();
        },
    };
    let ghost expected = version_label_spec(Some(*v));
    if v.supported() == Some(false) {
        let r = "\u{2717}".to_owned();
        assert(r@ == expected);
        r
    } else {
        match v.version() {
            Some(version) => {
                let mut out = format_browser_version(version);
                if v.version_removed.is_some() {
                    push_str(&mut out, " (removed)");
                }
                assert(out@ == expected);
                out
            },
            None => {
                let r = "unknown".to_owned();
                assert(r@ == expected);
                r
            },
        }
    }
}

/// The statement a browser's row shows: its selected statement, if any.
pub open spec fn selected_statement(s: BrowserSupport, id: Seq<char>) -> Option<BrowserVersion> {
    match support_for(s, id) {
        Some(h) => match selected_index(h) {
            Some(i) => Some(h[i]),
            None => None,
        },
        None => None,
    }
}

/// One browser's chip: its label, escaped, and its selected version.
pub open spec fn chip(s: BrowserSupport, id: Seq<char>) -> Seq<char> {
    escape_metadata_spec(browser_label_spec(id)) + " "@ + version_label_spec(
        selected_statement(s, id),
    )
}

pub open spec fn chips(s: BrowserSupport, ids: Seq<Seq<char>>) -> Seq<Seq<char>> {
    ids.map_values(|id: Seq<char>| chip(s, id))
}

/// The chip row: one chip per configured browser, when there is support data
/// and at least one browser.
pub open spec fn support_line_spec(support: Option<BrowserSupport>, browsers: Seq<Seq<char>>) -> Option<
    Seq<char>,
> {
    match support {
        None => None,
        Some(s) => if browsers.len() == 0 {
            None
        } else {
            Some(join_spec(chips(s, browsers), " \u{b7} "@))
        },
    }
}

fn browser_chip(support: &BrowserSupport, id: &str) -> (r: String)
    ensures
        r@ == chip(*support, id@),
{
    let selected = match support.get(id) {
        Some(history) => select_statement(history.as_slice()),
        None => None,
    };
    let mut out = escape_metadata(browser_label(id));
    push_str(&mut out, " ");
    let label = browser_version_label(selected);
    push_str(&mut out, label.as_str());
    out
}

pub fn format_browser_support_line(support: Option<&BrowserSupport>, settings: &HoverSettings) -> (r:
    Option<String>)
    ensures
        opt_string(r) == support_line_spec(
            match support {
                Some(s) => Some(*s),
                None => None,
            },
            string_seqs(settings.browsers@),
        ),
{
    let support = match support {
        Some(s) => s,
        None => {
            return None;
        },
    };
    let ghost ids = string_seqs(settings.browsers@);
    let mut parts: Vec<String> = Vec::new();
    let mut i: usize = 0;
    while i < settings.browsers.len()
        invariant
            i <= settings.browsers@.len(),
            ids == string_seqs(settings.browsers@),
            string_seqs(parts@) == chips(*support, ids).take(i as int),
        decreases settings.browsers@.len() - i,
    {
        assert(chips(*support, ids)[i as int] == chip(*support, settings.browsers@[i as int]@));
        let ghost before = string_seqs(parts@);
        let x = browser_chip(support, settings.browsers[i].as_str());
        parts.push(x);
        assert(string_seqs(parts@) =~= before.push(x@));
        assert(chips(*support, ids).take(i + 1) =~= chips(*support, ids).take(i as int).push(x@));
        i = i + 1;
    }
    assert(chips(*support, ids).take(i as int) =~= chips(*support, ids));
    if parts.len() == 0 {
        None
    } else {
        Some(join(&parts, " \u{b7} "))
    }
}

// ---------------------------------------------------------------------------
// Profile lifecycle lines

pub open spec fn lifecycle_label(l: SpecLifecycle) -> Seq<char> {
    match l {
        SpecLifecycle::Stable => "Stable"@,
        SpecLifecycle::Experimental => "Experimental"@,
        SpecLifecycle::Deprecated => "Deprecated"@,
        SpecLifecycle::Obsolete => "Obsolete"@,
    }
}

/// `**<Lifecycle> in <profile>**`.
pub open spec fn profile_lifecycle_line_spec(profile: SpecSnapshotId, l: SpecLifecycle) -> Seq<char> {
    "**"@ + lifecycle_label(l) + " in "@ + snapshot_name(profile) + "**"@
}

fn format_profile_lifecycle_line(profile: SpecSnapshotId, lifecycle: SpecLifecycle) -> (r: String)
    ensures
        r@ == profile_lifecycle_line_spec(profile, lifecycle),
{
    let label = match lifecycle {
        SpecLifecycle::Stable => "Stable",
        SpecLifecycle::Experimental => "Experimental",
        SpecLifecycle::Deprecated => "Deprecated",
        SpecLifecycle::Obsolete => "Obsolete",
    };
    let mut out = concat3("**", label, " in ");
    push_str(&mut out, profile.as_str());
    push_str(&mut out, "**");
    out
}

/// The line for a feature the profile lacks: obsolete after the last
/// snapshot that had it, when that predates the profile; experimental in the
/// first that has it, when that postdates the profile; otherwise simply not
/// in the profile.
pub open spec fn unsupported_line_spec(profile: SpecSnapshotId, known_in: Seq<SpecSnapshotId>) -> Seq<
    char,
> {
    let selected = snapshot_rank(profile);
    if known_in.len() > 0 && snapshot_rank(known_in.last()) < selected {
        "**Obsolete after "@ + snapshot_name(known_in.last()) + "**"@
    } else if known_in.len() > 0 && snapshot_rank(known_in[0]) > selected {
        "**Experimental in "@ + snapshot_name(known_in[0]) + "**"@
    } else {
        "**Not in "@ + snapshot_name(profile) + "**"@
    }
}

/// For a feature the profile lacks, with the snapshots that have it listed
/// oldest first: when all of them postdate the profile, the line names the
/// earliest of them as where the feature is experimental; when all predate
/// it, the line names the latest of them as where it was last seen.
pub proof fn lemma_unsupported_line_names_nearest(profile: SpecSnapshotId, known_in: Seq<SpecSnapshotId>)
    requires
        known_in.len() > 0,
        forall|i: int, j: int|
            0 <= i < j < known_in.len() ==> snapshot_rank(#[trigger] known_in[i]) < snapshot_rank(#[trigger] known_in[j]),
    ensures
        (forall|i: int| 0 <= i < known_in.len() ==> snapshot_rank(#[trigger] known_in[i]) > snapshot_rank(profile))
            ==> exists|i: int|
            0 <= i < known_in.len() && unsupported_line_spec(profile, known_in) == "**Experimental in "@
                + snapshot_name(#[trigger] known_in[i]) + "**"@ && forall|j: int|
                0 <= j < known_in.len() ==> snapshot_rank(known_in[i]) <= snapshot_rank(#[trigger] known_in[j]),
        (forall|i: int| 0 <= i < known_in.len() ==> snapshot_rank(#[trigger] known_in[i]) < snapshot_rank(profile))
            ==> exists|i: int|
            0 <= i < known_in.len() && unsupported_line_spec(profile, known_in) == "**Obsolete after "@
                + snapshot_name(#[trigger] known_in[i]) + "**"@ && forall|j: int|
                0 <= j < known_in.len() ==> snapshot_rank(#[trigger] known_in[j]) <= snapshot_rank(known_in[i]),
{
    let n = known_in.len();
    assert(known_in.last() == known_in[n - 1]);
    if forall|i: int| 0 <= i < known_in.len() ==> snapshot_rank(#[trigger] known_in[i]) > snapshot_rank(profile) {
        assert(snapshot_rank(known_in[n - 1]) > snapshot_rank(profile));
        assert(snapshot_rank(known_in[0]) > snapshot_rank(profile));
        assert forall|j: int| 0 <= j < known_in.len() implies snapshot_rank(known_in[0]) <= snapshot_rank(
            #[trigger] known_in[j],
        ) by {
            if j > 0 {
                assert(snapshot_rank(known_in[0]) < snapshot_rank(known_in[j]));
            }
        }
    }
    if forall|i: int| 0 <= i < known_in.len() ==> snapshot_rank(#[trigger] known_in[i]) < snapshot_rank(profile) {
        assert(snapshot_rank(known_in[n - 1]) < snapshot_rank(profile));
        assert forall|j: int| 0 <= j < known_in.len() implies snapshot_rank(#[trigger] known_in[j]) <= snapshot_rank(
            known_in[n - 1],
        ) by {
            if j < n - 1 {
                assert(snapshot_rank(known_in[j]) < snapshot_rank(known_in[n - 1]));
            }
        }
    }
}

fn format_unsupported_profile_lifecycle_line(
    profile: SpecSnapshotId,
    known_in: &[SpecSnapshotId],
) -> (r: String)
    ensures
        r@ == unsupported_line_spec(profile, known_in@),
{
    let selected_index = snapshot_index(profile);
    let n = known_in.len();
    if n > 0 && snapshot_index(known_in[n - 1]) < selected_index {
        return concat3("**Obsolete after ", known_in[n - 1].as_str(), "**");
    }
    if n > 0 && snapshot_index(known_in[0]) > selected_index {
        return concat3("**Experimental in ", known_in[0].as_str(), "**");
    }
    concat3("**Not in ", profile.as_str(), "**")
}

/// The last snapshot of `known_in` that predates `rank`.
pub open spec fn last_known_before(known_in: Seq<SpecSnapshotId>, rank: nat) -> Option<SpecSnapshotId>
    decreases known_in.len(),
{
    if known_in.len() == 0 {
        None
    } else if snapshot_rank(known_in.last()) < rank {
        Some(known_in.last())
    } else {
        last_known_before(known_in.drop_last(), rank)
    }
}

pub fn last_known_before_profile(profile: SpecSnapshotId, known_in: &[SpecSnapshotId]) -> (r: Option<
    SpecSnapshotId,
>)
    ensures
        r == last_known_before(known_in@, snapshot_rank(profile)),
{
    let selected = snapshot_index(profile);
    let mut i = known_in.len();
    assert(known_in@.take(i as int) =~= known_in@);
    while i > 0
        invariant
            i <= known_in@.len(),
            selected == snapshot_rank(profile),
            last_known_before(known_in@, snapshot_rank(profile)) == last_known_before(
                known_in@.take(i as int),
                snapshot_rank(profile),
            ),
        decreases i,
    {
        let known = known_in[i - 1];
        assert(known_in@.take(i as int).last() == known);
        assert(known_in@.take(i as int).drop_last() =~= known_in@.take(i - 1));
        if snapshot_index(known) < selected {
            return Some(known);
        }
        i = i - 1;
    }
    None
}

/// The profile line of a lookup: the lifecycle where the feature is present,
/// the unsupported line where it is known elsewhere, nothing where unknown.
pub open spec fn lookup_line_spec<T: 'static>(profile: SpecSnapshotId, lookup: ProfileLookup<T>) -> Option<
    Seq<char>,
> {
    match lookup {
        ProfileLookup::Present { lifecycle, .. } => Some(
            profile_lifecycle_line_spec(profile, lifecycle),
        ),
        ProfileLookup::UnsupportedInProfile { known_in } => Some(
            unsupported_line_spec(profile, known_in@),
        ),
        ProfileLookup::Unknown => None,
    }
}

pub fn profile_lifecycle_hover_line<T: 'static>(profile: SpecSnapshotId, lookup: &ProfileLookup<T>) -> (r:
    Option<String>)
    ensures
        opt_string(r) == lookup_line_spec(profile, *lookup),
{
    match lookup {
        ProfileLookup::Present { lifecycle, .. } => Some(
            format_profile_lifecycle_line(profile, *lifecycle),
        ),
        ProfileLookup::UnsupportedInProfile { known_in } => Some(
            format_unsupported_profile_lifecycle_line(profile, known_in),
        ),
        ProfileLookup::Unknown => None,
    }
}

// ---------------------------------------------------------------------------
// Links and builder

/// `[MDN Reference](mdn)`, then `[Spec](spec)` when there is one.
pub open spec fn link_list_spec(mdn_url: Seq<char>, spec_url: Option<Seq<char>>) -> Seq<Seq<char>> {
    let mdn = "[MDN Reference]("@ + mdn_url + ")"@;
    match spec_url {
        Some(s) => seq![mdn, "[Spec]("@ + s + ")"@],
        None => seq![mdn],
    }
}

pub fn hover_link_list(mdn_url: &str, spec_url: Option<&str>) -> (r: Vec<String>)
    ensures
        string_seqs(r@) == link_list_spec(
            mdn_url@,
            match spec_url {
                Some(s) => Some(s@),
                None => None,
            },
        ),
{
    let mut links: Vec<String> = Vec::new();
    links.push(concat3("[MDN Reference](", mdn_url, ")"));
    match spec_url {
        Some(spec) => {
            links.push(concat3("[Spec](", spec, ")"));
        },
        None => {},
    }
    assert(string_seqs(links@) =~= link_list_spec(
        mdn_url@,
        match spec_url {
            Some(s) => Some(s@),
            None => None,
        },
    ));
    links
}

/// Typed sections of a compatibility hover, each rendered on its own.
pub enum HoverSection {
    Headline(String),
    Description(String),
    Status(String),
    /// Consecutive lines with no blank line between them.
    ValueConstraints(Vec<String>),
    Baseline(String),
    BrowserChips(String),
    /// Consecutive lines with no blank line between them.
    BrowserNotes(Vec<String>),
    /// Joined with ` · ` into one line.
    Links(Vec<String>),
}

pub open spec fn section_text(s: HoverSection) -> Seq<char> {
    match s {
        HoverSection::Headline(l) => l@,
        HoverSection::Description(l) => l@,
        HoverSection::Status(l) => l@,
        HoverSection::Baseline(l) => l@,
        HoverSection::BrowserChips(l) => l@,
        HoverSection::ValueConstraints(ls) => join_spec(string_seqs(ls@), "\n"@),
        HoverSection::BrowserNotes(ls) => join_spec(string_seqs(ls@), "\n"@),
        HoverSection::Links(ls) => join_spec(string_seqs(ls@), " \u{b7} "@),
    }
}

pub open spec fn section_texts(s: Seq<HoverSection>) -> Seq<Seq<char>> {
    s.map_values(|x: HoverSection| section_text(x))
}

/// Builds compatibility-hover Markdown: sections in display order, rendered
/// each on its own and separated by exactly one blank line.
pub struct CompatMarkdownBuilder {
    pub sections: Vec<HoverSection>,
}

impl CompatMarkdownBuilder {
    pub fn new() -> (r: Self)
        ensures
            r.sections@.len() == 0,
    {
        CompatMarkdownBuilder { sections: Vec::new() }
    }

    pub fn headline(&mut self, line: String)
        ensures
            final(self).sections@ == old(self).sections@.push(HoverSection::Headline(line)),
    {
        self.sections.push(HoverSection::Headline(line));
    }

    /// A description; an empty one adds nothing.
    pub fn description(&mut self, line: String)
        ensures
            final(self).sections@ == if line@.len() == 0 {
                old(self).sections@
            } else {
                old(self).sections@.push(HoverSection::Description(line))
            },
    {
        if !line.as_str().is_empty() {
            self.sections.push(HoverSection::Description(line));
        }
    }

    pub fn status(&mut self, line: String)
        ensures
            final(self).sections@ == old(self).sections@.push(HoverSection::Status(line)),
    {
        self.sections.push(HoverSection::Status(line));
    }

    /// Value-constraint lines; none adds nothing.
    pub fn value_constraints(&mut self, lines: Vec<String>)
        ensures
            final(self).sections@ == if lines@.len() == 0 {
                old(self).sections@
            } else {
                old(self).sections@.push(HoverSection::ValueConstraints(lines))
            },
    {
        if lines.len() != 0 {
            self.sections.push(HoverSection::ValueConstraints(lines));
        }
    }

    pub fn baseline(&mut self, line: String)
        ensures
            final(self).sections@ == old(self).sections@.push(HoverSection::Baseline(line)),
    {
        self.sections.push(HoverSection::Baseline(line));
    }

    pub fn browser_chips(&mut self, line: String)
        ensures
            final(self).sections@ == old(self).sections@.push(HoverSection::BrowserChips(line)),
    {
        self.sections.push(HoverSection::BrowserChips(line));
    }

    /// Per-browser note lines; none adds nothing.
    pub fn browser_notes(&mut self, lines: Vec<String>)
        ensures
            final(self).sections@ == if lines@.len() == 0 {
                old(self).sections@
            } else {
                old(self).sections@.push(HoverSection::BrowserNotes(lines))
            },
    {
        if lines.len() != 0 {
            self.sections.push(HoverSection::BrowserNotes(lines));
        }
    }

    /// Footer links; none adds nothing.
    pub fn links(&mut self, lines: Vec<String>)
        ensures
            final(self).sections@ == if lines@.len() == 0 {
                old(self).sections@
            } else {
                old(self).sections@.push(HoverSection::Links(lines))
            },
    {
        if lines.len() != 0 {
            self.sections.push(HoverSection::Links(lines));
        }
    }

    /// Render every section and separate them by one blank line.
    pub fn build(self) -> (r: String)
        ensures
            r@ == join_spec(section_texts(self.sections@), "\n\n"@),
    {
        let mut rendered: Vec<String> = Vec::new();
        let mut i: usize = 0;
        let ghost all = section_texts(self.sections@);
        while i < self.sections.len()
            invariant
                i <= self.sections@.len(),
                all == section_texts(self.sections@),
                string_seqs(rendered@) == all.take(i as int),
            decreases self.sections@.len() - i,
        {
            let text = match &self.sections[i] {
                HoverSection::Headline(line) => line.clone(),
                HoverSection::Description(line) => line.clone(),
                HoverSection::Status(line) => line.clone(),
                HoverSection::Baseline(line) => line.clone(),
                HoverSection::BrowserChips(line) => line.clone(),
                HoverSection::ValueConstraints(lines) => join(lines, "\n"),
                HoverSection::BrowserNotes(lines) => join(lines, "\n"),
                HoverSection::Links(lines) => join(lines, " \u{b7} "),
            };
            assert(text@ == all[i as int]);
            let ghost before = string_seqs(rendered@);
            rendered.push(text);
            assert(string_seqs(rendered@) =~= before.push(text@));
            assert(all.take(i + 1) =~= all.take(i as int).push(text@));
            i = i + 1;
        }
        assert(all.take(i as int) =~= all);
        join(&rendered, "\n\n")
    }
}

// ---------------------------------------------------------------------------
// Attributes outside SVG

/// `description`, a blank line, and the reference link.
pub open spec fn external_hover_spec(description: Seq<char>, label: Seq<char>, url: Seq<char>) -> Seq<
    char,
> {
    description + "\n\n["@ + label + "]("@ + url + ")"@
}

fn format_external_attribute_hover(description: &str, reference_label: &str, reference_url: &str) -> (r:
    String)
    ensures
        r@ == external_hover_spec(description@, reference_label@, reference_url@),
{
    let mut out = concat3(description, "\n\n[", reference_label);
    push_str(&mut out, "](");
    push_str(&mut out, reference_url);
    push_str(&mut out, ")");
    out
}

/// The struck-through description of a deprecated attribute, the
/// deprecation, its replacement when it has one, and the reference link.
pub open spec fn deprecated_hover_spec(
    description: Seq<char>,
    replacement: Option<Seq<char>>,
    label: Seq<char>,
    url: Seq<char>,
) -> Seq<char> {
    "~~"@ + description + "~~\n\n**Deprecated**"@ + match replacement {
        Some(r) => "\n\nUse `"@ + r + "` instead."@,
        None => Seq::empty(),
    } + "\n\n["@ + label + "]("@ + url + ")"@
}

fn format_deprecated_external_attribute_hover(
    description: &str,
    replacement: Option<&str>,
    reference_label: &str,
    reference_url: &str,
) -> (r: String)
    ensures
        r@ == deprecated_hover_spec(
            description@,
            match replacement {
                Some(x) => Some(x@),
                None => None,
            },
            reference_label@,
            reference_url@,
        ),
{
    let mut out = concat3("~~", description, "~~\n\n**Deprecated**");
    match replacement {
        Some(r) => {
            push_str(&mut out, "\n\nUse `");
            push_str(&mut out, r);
            push_str(&mut out, "` instead.");
        },
        None => {},
    }
    push_str(&mut out, "\n\n[");
    push_str(&mut out, reference_label);
    push_str(&mut out, "](");
    push_str(&mut out, reference_url);
    push_str(&mut out, ")");
    assert(out@ =~= deprecated_hover_spec(
        description@,
        match replacement {
            Some(x) => Some(x@),
            None => None,
        },
        reference_label@,
        reference_url@,
    ));
    out
}

pub open spec fn xml_decl_url() -> Seq<char> {
    "https://www.w3.org/TR/xml/"@
}

pub open spec fn xml_names_url() -> Seq<char> {
    "https://www.w3.org/TR/REC-xml-names/"@
}

/// The MDN reference page of an attribute.
pub open spec fn mdn_attribute_url(name: Seq<char>) -> Seq<char> {
    "https://developer.mozilla.org/docs/Web/SVG/Reference/Attribute/"@ + name
}

/// The hover of an XML declaration attribute, by its syntax-node kind.
pub open spec fn xml_declaration_hover_spec(kind: Seq<char>) -> Option<Seq<char>> {
    let description = if kind == "xml_version_attribute_name"@ {
        Some("Specifies the XML version used by the document declaration."@)
    } else if kind == "xml_encoding_attribute_name"@ {
        Some("Specifies the character encoding declared for the XML document."@)
    } else if kind == "xml_standalone_attribute_name"@ {
        Some("Declares whether the XML document relies on external markup declarations."@)
    } else {
        None
    };
    match description {
        Some(d) => Some(external_hover_spec(d, "W3C XML Reference"@, xml_decl_url())),
        None => None,
    }
}

fn xml_declaration_attribute_hover(kind: &str) -> (r: Option<String>)
    ensures
        opt_string(r) == xml_declaration_hover_spec(kind@),
{
    let description = if str_eq(kind, "xml_version_attribute_name") {
        "Specifies the XML version used by the document declaration."
    } else if str_eq(kind, "xml_encoding_attribute_name") {
        "Specifies the character encoding declared for the XML document."
    } else if str_eq(kind, "xml_standalone_attribute_name") {
        "Declares whether the XML document relies on external markup declarations."
    } else {
        return None;
    };
    Some(format_external_attribute_hover(description, "W3C XML Reference", "https://www.w3.org/TR/xml/"))
}

/// The hover of a namespace declaration attribute.
pub open spec fn namespace_hover_spec(name: Seq<char>) -> Option<Seq<char>> {
    if name == "xmlns"@ {
        Some(
            external_hover_spec(
                "Declares the default XML namespace for this element and its descendants."@,
                "W3C Namespaces in XML"@,
                xml_names_url(),
            ),
        )
    } else if crate::compat::starts_with(name, "xmlns:"@) {
        let prefix = name.subrange("xmlns:"@.len() as int, name.len() as int);
        Some(
            external_hover_spec(
                "Declares the `"@ + prefix
                    + "` XML namespace prefix for this element and its descendants."@,
                "W3C Namespaces in XML"@,
                xml_names_url(),
            ),
        )
    } else {
        None
    }
}

fn namespace_attribute_hover(attr_name: &str) -> (r: Option<String>)
    ensures
        opt_string(r) == namespace_hover_spec(attr_name@),
{
    let url = "https://www.w3.org/TR/REC-xml-names/";
    if str_eq(attr_name, "xmlns") {
        return Some(
            format_external_attribute_hover(
                "Declares the default XML namespace for this element and its descendants.",
                "W3C Namespaces in XML",
                url,
            ),
        );
    }
    if starts_with_str(attr_name, "xmlns:") {
        let v = chars_of(attr_name);
        let n = chars_of("xmlns:").len();
        let prefix = crate::text::string_of_range(&v, n, v.len());
        let description = concat3(
            "Declares the `",
            prefix.as_str(),
            "` XML namespace prefix for this element and its descendants.",
        );
        return Some(format_external_attribute_hover(description.as_str(), "W3C Namespaces in XML", url));
    }
    None
}

/// The hovers of the legacy `xml:` and `xlink:` attributes.
pub open spec fn legacy_hover_spec(name: Seq<char>) -> Option<Seq<char>> {
    let url = mdn_attribute_url(name);
    let label = "MDN Reference"@;
    if name == "xml:lang"@ {
        Some(external_hover_spec(
            "Specifies the natural language used by the element's text content and attribute values."@,
            label,
            url,
        ))
    } else if name == "xml:space"@ {
        Some(external_hover_spec(
            "Controls how XML whitespace is handled for the element's character data."@,
            label,
            url,
        ))
    } else if name == "xml:base"@ {
        Some(external_hover_spec(
            "Specifies the base URI used to resolve relative URLs within the element."@,
            label,
            url,
        ))
    } else if name == "xlink:href"@ {
        Some(deprecated_hover_spec(
            "Legacy XLink form of `href` used to point at linked resources in SVG."@,
            Some("href"@),
            label,
            url,
        ))
    } else if name == "xlink:arcrole"@ {
        Some(deprecated_hover_spec(
            "Legacy XLink attribute that identifies the semantic role of the link arc."@,
            None,
            label,
            url,
        ))
    } else if name == "xlink:role"@ {
        Some(deprecated_hover_spec(
            "Legacy XLink attribute that identifies the semantic role of the linked resource."@,
            None,
            label,
            url,
        ))
    } else if name == "xlink:show"@ {
        Some(deprecated_hover_spec(
            "Legacy XLink attribute that hints how the linked resource should be presented."@,
            None,
            label,
            url,
        ))
    } else if name == "xlink:title"@ {
        Some(deprecated_hover_spec(
            "Legacy XLink attribute that provides a human-readable title for the link."@,
            None,
            label,
            url,
        ))
    } else if name == "xlink:type"@ {
        Some(deprecated_hover_spec(
            "Legacy XLink attribute that declares the XLink link type."@,
            None,
            label,
            url,
        ))
    } else if name == "xlink:actuate"@ {
        Some(deprecated_hover_spec(
            "Legacy XLink attribute that hints when the linked resource should be traversed."@,
            None,
            label,
            url,
        ))
    } else {
        None
    }
}

fn legacy_svg_attribute_hover(attr_name: &str) -> (r: Option<String>)
    ensures
        opt_string(r) == legacy_hover_spec(attr_name@),
{
    let url = concat("https://developer.mozilla.org/docs/Web/SVG/Reference/Attribute/", attr_name);
    let url = url.as_str();
    let label = "MDN Reference";
    if str_eq(attr_name, "xml:lang") {
        Some(format_external_attribute_hover(
            "Specifies the natural language used by the element's text content and attribute values.",
            label,
            url,
        ))
    } else if str_eq(attr_name, "xml:space") {
        Some(format_external_attribute_hover(
            "Controls how XML whitespace is handled for the element's character data.",
            label,
            url,
        ))
    } else if str_eq(attr_name, "xml:base") {
        Some(format_external_attribute_hover(
            "Specifies the base URI used to resolve relative URLs within the element.",
            label,
            url,
        ))
    } else if str_eq(attr_name, "xlink:href") {
        Some(format_deprecated_external_attribute_hover(
            "Legacy XLink form of `href` used to point at linked resources in SVG.",
            Some("href"),
            label,
            url,
        ))
    } else if str_eq(attr_name, "xlink:arcrole") {
        Some(format_deprecated_external_attribute_hover(
            "Legacy XLink attribute that identifies the semantic role of the link arc.",
            None,
            label,
            url,
        ))
    } else if str_eq(attr_name, "xlink:role") {
        Some(format_deprecated_external_attribute_hover(
            "Legacy XLink attribute that identifies the semantic role of the linked resource.",
            None,
            label,
            url,
        ))
    } else if str_eq(attr_name, "xlink:show") {
        Some(format_deprecated_external_attribute_hover(
            "Legacy XLink attribute that hints how the linked resource should be presented.",
            None,
            label,
            url,
        ))
    } else if str_eq(attr_name, "xlink:title") {
        Some(format_deprecated_external_attribute_hover(
            "Legacy XLink attribute that provides a human-readable title for the link.",
            None,
            label,
            url,
        ))
    } else if str_eq(attr_name, "xlink:type") {
        Some(format_deprecated_external_attribute_hover(
            "Legacy XLink attribute that declares the XLink link type.",
            None,
            label,
            url,
        ))
    } else if str_eq(attr_name, "xlink:actuate") {
        Some(format_deprecated_external_attribute_hover(
            "Legacy XLink attribute that hints when the linked resource should be traversed.",
            None,
            label,
            url,
        ))
    } else {
        None
    }
}

/// The hover of an attribute that XML rather than SVG defines: XML
/// declaration attributes by node kind, then namespace declarations, then the
/// legacy `xml:` and `xlink:` attributes.
pub open spec fn external_attribute_hover_spec(kind: Seq<char>, name: Seq<char>) -> Option<Seq<char>> {
    match xml_declaration_hover_spec(kind) {
        Some(h) => Some(h),
        None => match namespace_hover_spec(name) {
            Some(h) => Some(h),
            None => legacy_hover_spec(name),
        },
    }
}

pub fn external_attribute_hover(kind: &str, attr_name: &str) -> (r: Option<String>)
    ensures
        opt_string(r) == external_attribute_hover_spec(kind@, attr_name@),
{
    match xml_declaration_attribute_hover(kind) {
        Some(markdown) => {
            return Some(markdown);
        },
        None => {},
    }
    match namespace_attribute_hover(attr_name) {
        Some(markdown) => {
            return Some(markdown);
        },
        None => {},
    }
    legacy_svg_attribute_hover(attr_name)
}

/// Metadata as a code span: fenced by one backtick more than its longest run.
pub open spec fn metadata_code_spec(text: Seq<char>) -> Seq<char> {
    let fence = ticks(longest_ticks(text) + 1);
    fence + " "@ + text + " "@ + fence
}

pub fn metadata_code(text: &str) -> (r: String)
    ensures
        r@ == metadata_code_spec(text@),
{
    let v = chars_of(text);
    let longest = longest_run_in(&v);
    proof {
        lemma_ticks_bounded(v@);
    }
    let mut out = String::new();
    push_ticks(&mut out, longest);
    push_char(&mut out, '`');
    push_str(&mut out, " ");
    push_str(&mut out, text);
    push_str(&mut out, " ");
    push_ticks(&mut out, longest);
    push_char(&mut out, '`');
    assert(ticks(longest as nat + 1) =~= ticks(longest as nat).push('`'));
    assert(out@ =~= metadata_code_spec(text@));
    out
}

} // verus!
