//! Browser-compatibility facts (Web Features baseline, WebDX advice, BCD
//! support statements) and the verdict derived from them.
//!
//! Spec lifecycle and browser compatibility are separate axes: the spec axis
//! is the profile's lifecycle, the browser axis is these facts. A verdict is
//! derived from one selected record of facts; nothing is blended.

use vstd::prelude::*;
use crate::snapshot::{SpecLifecycle, SpecSnapshotId};
use crate::text::{chars_of, digit, is_digit, str_eq};

verus! {

/// A recognized upstream Baseline tier.
#[derive(Debug, Clone, Copy, PartialEq, Eq, Structural)]
pub enum BaselineTier {
    /// Widely Available (`"high"` upstream).
    Widely,
    /// Newly Available (`"low"` upstream).
    Newly,
    /// Non-Baseline (`false` upstream), including discouraged features.
    Limited,
}

/// Known inexactness qualifier on a date or browser version.
#[derive(Debug, Clone, Copy, PartialEq, Eq, Structural)]
pub enum BaselineQualifier {
    /// On or before the given date/version.
    Before,
    /// On or after the given date/version.
    After,
    /// Approximately the given date/version.
    Approximately,
}

/// A full upstream date, with a parsed value only when its meaning is
/// recognized.
#[derive(Debug, Clone)]
pub struct BaselineDate {
    /// Original upstream string, including any qualifier or malformed input.
    pub raw: String,
    /// Valid calendar date in YYYY-MM-DD form.
    pub date: Option<String>,
    /// Recognized comparison qualifier; unknown prefixes are never approximated.
    pub qualifier: Option<BaselineQualifier>,
}

/// Why an upstream status did not yield a recognized tier.
#[derive(Debug, Clone, Copy, PartialEq, Eq, Structural)]
pub enum BaselineDiagnostic {
    /// The status block has dates but no baseline field.
    Missing,
    /// The baseline field is present but not false, low, or high.
    Unrecognized,
}

/// Baseline facts. A missing recognized status is never Limited availability.
#[derive(Debug, Clone)]
pub struct Baseline {
    /// Recognized tier, independently of whether either date can be parsed.
    pub status: Option<BaselineTier>,
    /// Original baseline field encoded as JSON, preserving null and invalid types.
    pub raw_status: Option<String>,
    /// Parsing diagnostic, separate from the upstream status.
    pub status_diagnostic: Option<BaselineDiagnostic>,
    /// Optional milestone when the feature became Newly Available.
    pub low_date: Option<BaselineDate>,
    /// Optional milestone when the feature became Widely Available.
    pub high_date: Option<BaselineDate>,
    /// Per-browser versions Web Features reports for the exact key, when given.
    pub support: Option<Vec<(String, String)>>,
}

/// Scope of `WebDX` discouragement metadata.
#[derive(Debug, Clone, Copy, PartialEq, Eq, Structural)]
pub enum DiscouragementScope {
    /// Advice applies to the named Web Features feature.
    Feature,
}

/// Feature-scoped `WebDX` discouragement; independent of Baseline and BCD
/// deprecation.
#[derive(Debug, Clone)]
pub struct Discouraged {
    /// Web Features identity.
    pub feature_id: String,
    /// BCD compatibility key through which this feature applies.
    pub compat_key: String,
    /// Scope of the advice.
    pub scope: DiscouragementScope,
    /// Human-readable feature name when provided upstream.
    pub feature_name: Option<String>,
    /// Upstream explanation, rendered as text.
    pub reason: String,
    /// Original HTML explanation, retained but never rendered as trusted HTML.
    pub reason_html: Option<String>,
    /// Supporting specification or vendor notices.
    pub according_to: Vec<String>,
    /// Alternative Web Features identifiers.
    pub alternatives: Vec<String>,
    /// Optional upstream removal date.
    pub removal_date: Option<String>,
}

// ---------------------------------------------------------------- dates

/// The date qualifier prefixes, in the order they are tried, with the
/// qualifier each one means.
pub open spec fn qualifier_prefixes() -> Seq<(Seq<char>, BaselineQualifier)> {
    seq![
        (seq!['<', '='], BaselineQualifier::Before),
        (seq!['>', '='], BaselineQualifier::After),
        (seq!['\u{2264}'], BaselineQualifier::Before),
        (seq!['\u{2265}'], BaselineQualifier::After),
        (seq!['<'], BaselineQualifier::Before),
        (seq!['>'], BaselineQualifier::After),
        (seq!['~'], BaselineQualifier::Approximately),
        (seq!['\u{2248}'], BaselineQualifier::Approximately),
    ]
}

/// Whether `s` starts with `p`.
pub open spec fn starts_with(s: Seq<char>, p: Seq<char>) -> bool {
    p.len() <= s.len() && s.subrange(0, p.len() as int) == p
}

/// The first qualifier prefix of `raw` at or after position `i` of the list.
pub open spec fn first_prefix(raw: Seq<char>, i: int) -> Option<int>
    decreases 8 - i,
{
    if i < 0 || i >= 8 {
        None
    } else if starts_with(raw, qualifier_prefixes()[i].0) {
        Some(i)
    } else {
        first_prefix(raw, i + 1)
    }
}

/// The value of two ASCII digits.
pub open spec fn two_digits(a: char, b: char) -> int {
    digit_value(a) * 10 + digit_value(b)
}

/// The value of an ASCII digit.
pub open spec fn digit_value(c: char) -> int {
    (c as u32) as int - 0x30
}

/// The value of four ASCII digits.
pub open spec fn four_digits(s: Seq<char>) -> int {
    two_digits(s[0], s[1]) * 100 + two_digits(s[2], s[3])
}

/// Days in `month` of `year` (0 for a month that does not exist).
pub open spec fn days_in_month(year: int, month: int) -> int {
    if month == 2 {
        if year % 4 == 0 && (year % 100 != 0 || year % 400 == 0) {
            29
        } else {
            28
        }
    } else if month == 4 || month == 6 || month == 9 || month == 11 {
        30
    } else if 1 <= month <= 12 {
        31
    } else {
        0
    }
}

/// A valid calendar date written `YYYY-MM-DD`, year after 0.
pub open spec fn is_valid_date(d: Seq<char>) -> bool {
    &&& d.len() == 10
    &&& d[4] == '-'
    &&& d[7] == '-'
    &&& forall|i: int| 0 <= i < 10 && i != 4 && i != 7 ==> is_digit(#[trigger] d[i])
    &&& four_digits(d) > 0
    &&& two_digits(d[8], d[9]) > 0
    &&& two_digits(d[8], d[9]) <= days_in_month(four_digits(d), two_digits(d[5], d[6]))
}

fn two_digit_value(a: char, b: char) -> (r: u32)
    requires
        is_digit(a),
        is_digit(b),
    ensures
        r == two_digits(a, b),
        r <= 99,
{
    (a as u32 - 0x30) * 10 + (b as u32 - 0x30)
}

fn valid_date(d: &Vec<char>) -> (r: bool)
    ensures
        r == is_valid_date(d@),
{
    if d.len() != 10 || d[4] != '-' || d[7] != '-' {
        return false;
    }
    let mut i: usize = 0;
    while i < 10
        invariant
            d@.len() == 10,
            i <= 10,
            forall|k: int| 0 <= k < i && k != 4 && k != 7 ==> is_digit(#[trigger] d@[k]),
        decreases 10 - i,
    {
        if i != 4 && i != 7 && !digit(d[i]) {
            return false;
        }
        i = i + 1;
    }
    assert(is_digit(d@[0]) && is_digit(d@[1]) && is_digit(d@[2]) && is_digit(d@[3]));
    assert(is_digit(d@[5]) && is_digit(d@[6]) && is_digit(d@[8]) && is_digit(d@[9]));
    let year = two_digit_value(d[0], d[1]) * 100 + two_digit_value(d[2], d[3]);
    let month = two_digit_value(d[5], d[6]);
    let day = two_digit_value(d[8], d[9]);
    let days: u32 = if month == 2 {
        if year % 4 == 0 && (year % 100 != 0 || year % 400 == 0) {
            29
        } else {
            28
        }
    } else if month == 4 || month == 6 || month == 9 || month == 11 {
        30
    } else if 1 <= month && month <= 12 {
        31
    } else {
        0
    };
    year > 0 && day > 0 && day <= days
}

/// The date facts parsed from a raw upstream date: the date and qualifier
/// are kept only when the part after a recognized prefix is a valid date.
pub open spec fn parsed_date(raw: Seq<char>) -> (Option<Seq<char>>, Option<BaselineQualifier>) {
    let (rest, qualifier) = match first_prefix(raw, 0) {
        Some(i) => (
            raw.subrange(qualifier_prefixes()[i].0.len() as int, raw.len() as int),
            Some(qualifier_prefixes()[i].1),
        ),
        None => (raw, None),
    };
    if is_valid_date(rest) {
        (Some(rest), qualifier)
    } else {
        (None, None)
    }
}

/// Parse only full, valid calendar dates with known prefixes; preserve every
/// raw string.
pub fn parse_baseline_date(raw: &str) -> (r: BaselineDate)
    ensures
        r.raw@ == raw@,
        r.date matches Some(d) ==> parsed_date(raw@).0 == Some(d@),
        r.date is None ==> parsed_date(raw@).0 is None,
        r.qualifier == parsed_date(raw@).1,
{
    let v = chars_of(raw);
    let prefixes: Vec<(Vec<char>, BaselineQualifier)> = vec![
        (vec!['<', '='], BaselineQualifier::Before),
        (vec!['>', '='], BaselineQualifier::After),
        (vec!['\u{2264}'], BaselineQualifier::Before),
        (vec!['\u{2265}'], BaselineQualifier::After),
        (vec!['<'], BaselineQualifier::Before),
        (vec!['>'], BaselineQualifier::After),
        (vec!['~'], BaselineQualifier::Approximately),
        (vec!['\u{2248}'], BaselineQualifier::Approximately),
    ];
    let ghost spec_prefixes = qualifier_prefixes();
    assert(prefixes@.len() == 8);
    assert forall|k: int| 0 <= k < 8 implies (#[trigger] prefixes@[k]).0@ == spec_prefixes[k].0
        && prefixes@[k].1 == spec_prefixes[k].1 by {
        assert(prefixes@[0].0@ =~= spec_prefixes[0].0);
        assert(prefixes@[1].0@ =~= spec_prefixes[1].0);
        assert(prefixes@[2].0@ =~= spec_prefixes[2].0);
        assert(prefixes@[3].0@ =~= spec_prefixes[3].0);
        assert(prefixes@[4].0@ =~= spec_prefixes[4].0);
        assert(prefixes@[5].0@ =~= spec_prefixes[5].0);
        assert(prefixes@[6].0@ =~= spec_prefixes[6].0);
        assert(prefixes@[7].0@ =~= spec_prefixes[7].0);
    }
    let mut i: usize = 0;
    while i < 8 && !(prefixes[i].0.len() <= v.len() && crate::text::prefix_at(&v, 0, &prefixes[i].0))
        invariant
            i <= 8,
            prefixes@.len() == 8,
            forall|k: int| 0 <= k < 8 ==> (#[trigger] prefixes@[k]).0@ == spec_prefixes[k].0
                && prefixes@[k].1 == spec_prefixes[k].1,
            spec_prefixes == qualifier_prefixes(),
            first_prefix(v@, 0) == first_prefix(v@, i as int),
        decreases 8 - i,
    {
        i = i + 1;
    }
    let (start, qualifier) = if i < 8 {
        (prefixes[i].0.len(), Some(prefixes[i].1))
    } else {
        (0, None)
    };
    let rest = crate::text::sub_vec(&v, start, v.len());
    proof {
        if qualifier is None {
            assert(rest@ =~= v@);
        }
    }
    let date = if valid_date(&rest) {
        Some(crate::text::string_of(&rest))
    } else {
        None
    };
    let qualifier = if date.is_some() {
        qualifier
    } else {
        None
    };
    BaselineDate { raw: crate::text::string_of(&v), date, qualifier }
}


/// The year of a recognized date: its first four characters read as an
/// unsigned number (a leading `+` and three digits also read as one).
pub open spec fn date_year(d: BaselineDate) -> Option<u16> {
    match d.date {
        None => None,
        Some(text) => {
            let t = text@;
            if t.len() >= 4 && is_digit(t[0]) && is_digit(t[1]) && is_digit(t[2]) && is_digit(t[3]) {
                Some(four_digits(t) as u16)
            } else if t.len() >= 4 && t[0] == '+' && is_digit(t[1]) && is_digit(t[2]) && is_digit(
                t[3],
            ) {
                Some((two_digits(t[1], t[2]) * 10 + digit_value(t[3])) as u16)
            } else {
                None
            }
        },
    }
}

impl BaselineDate {
    /// Derive a coarse year for presentation only when a date was recognized.
    pub fn year(&self) -> (r: Option<u16>)
        ensures
            r == date_year(*self),
    {
        match &self.date {
            None => None,
            Some(text) => {
                let t = chars_of(text.as_str());
                if t.len() >= 4 && digit(t[0]) && digit(t[1]) && digit(t[2]) && digit(t[3]) {
                    let y = two_digit_value(t[0], t[1]) * 100 + two_digit_value(t[2], t[3]);
                    assert(y == four_digits(t@) && y <= 9999);
                    Some(y as u16)
                } else if t.len() >= 4 && t[0] == '+' && digit(t[1]) && digit(t[2]) && digit(t[3]) {
                    let d = t[3] as u32;
                    let y = two_digit_value(t[1], t[2]) * 10 + (d - 0x30);
                    assert(y == two_digits(t@[1], t@[2]) * 10 + digit_value(t@[3]) && y <= 999);
                    Some(y as u16)
                } else {
                    None
                }
            },
        }
    }
}

/// The milestone date of the recognized tier, without inventing one.
pub open spec fn milestone_of(b: Baseline) -> Option<BaselineDate> {
    match b.status {
        Some(BaselineTier::Widely) => b.high_date,
        Some(BaselineTier::Newly) => b.low_date,
        _ => None,
    }
}

impl Baseline {
    /// The date of the recognized tier, without inventing a missing milestone.
    pub fn milestone(&self) -> (r: Option<&BaselineDate>)
        ensures
            r == match milestone_of(*self) {
                Some(d) => Some(&d),
                None => None::<&BaselineDate>,
            },
    {
        match self.status {
            Some(BaselineTier::Widely) => self.high_date.as_ref(),
            Some(BaselineTier::Newly) => self.low_date.as_ref(),
            _ => None,
        }
    }
}

/// Lexicographic order by character code (the order `String` compares in).
pub open spec fn seq_lt(a: Seq<char>, b: Seq<char>) -> bool
    decreases a.len(),
{
    if a.len() == 0 {
        b.len() > 0
    } else if b.len() == 0 {
        false
    } else if a[0] != b[0] {
        (a[0] as u32) < (b[0] as u32)
    } else {
        seq_lt(a.subrange(1, a.len() as int), b.subrange(1, b.len() as int))
    }
}

/// `seq_lt` orders any two different sequences one way or the other.
pub proof fn lemma_seq_lt_total(a: Seq<char>, b: Seq<char>)
    ensures
        !seq_lt(a, a),
        seq_lt(a, b) ==> !seq_lt(b, a),
        a != b ==> seq_lt(a, b) || seq_lt(b, a),
    decreases a.len(),
{
    if a.len() > 0 {
        let a1 = a.subrange(1, a.len() as int);
        lemma_seq_lt_total(a1, a1);
        if b.len() > 0 {
            let b1 = b.subrange(1, b.len() as int);
            lemma_seq_lt_total(a1, b1);
            if a[0] == b[0] && a != b {
                assert(a1 != b1) by {
                    if a1 == b1 {
                        assert forall|k: int| 0 <= k < a.len() implies a[k] == b[k] by {
                            if k > 0 {
                                assert(a[k] == a1[k - 1]);
                                assert(b[k] == b1[k - 1]);
                            }
                        }
                        assert(a =~= b);
                    }
                }
            }
            if a[0] != b[0] {
                vstd::utf8::char_u32_cast(a[0], a[0] as u32);
                vstd::utf8::char_u32_cast(b[0], b[0] as u32);
                assert((a[0] as u32) != (b[0] as u32));
            }
        }
    } else if b.len() == 0 {
        assert(a =~= b);
    }
}

/// `seq_lt` is transitive.
pub proof fn lemma_seq_lt_trans(a: Seq<char>, b: Seq<char>, c: Seq<char>)
    requires
        seq_lt(a, b),
        seq_lt(b, c),
    ensures
        seq_lt(a, c),
    decreases a.len(),
{
    if a.len() > 0 && b.len() > 0 && c.len() > 0 && a[0] == b[0] && b[0] == c[0] {
        lemma_seq_lt_trans(
            a.subrange(1, a.len() as int),
            b.subrange(1, b.len() as int),
            c.subrange(1, c.len() as int),
        );
    }
}

pub fn chars_lt(a: &Vec<char>, b: &Vec<char>) -> (r: bool)
    ensures
        r == seq_lt(a@, b@),
{
    let mut i: usize = 0;
    assert(a@.subrange(0, a@.len() as int) == a@);
    assert(b@.subrange(0, b@.len() as int) == b@);
    while i < a.len() && i < b.len() && a[i] == b[i]
        invariant
            i <= a@.len(),
            i <= b@.len(),
            seq_lt(a@, b@) == seq_lt(
                a@.subrange(i as int, a@.len() as int),
                b@.subrange(i as int, b@.len() as int),
            ),
        decreases a@.len() - i,
    {
        let ghost x = a@.subrange(i as int, a@.len() as int);
        let ghost y = b@.subrange(i as int, b@.len() as int);
        assert(x.subrange(1, x.len() as int) == a@.subrange(i + 1, a@.len() as int));
        assert(y.subrange(1, y.len() as int) == b@.subrange(i + 1, b@.len() as int));
        i = i + 1;
    }
    let ghost x = a@.subrange(i as int, a@.len() as int);
    let ghost y = b@.subrange(i as int, b@.len() as int);
    if i == a.len() {
        i < b.len()
    } else if i == b.len() {
        false
    } else {
        assert(x[0] == a@[i as int] && y[0] == b@[i as int]);
        (a[i] as u32) < (b[i] as u32)
    }
}

/// `Option<&String>` ordering: `None` first, then by string.
pub open spec fn opt_date_gt(a: Option<String>, b: Option<String>) -> bool {
    match (a, b) {
        (Some(x), Some(y)) => seq_lt(y@, x@),
        (Some(_), None) => true,
        _ => false,
    }
}

/// The precedence of a tier when aggregating: a more restrictive tier wins.
pub open spec fn tier_rank(b: Baseline) -> int {
    match b.status {
        Some(BaselineTier::Limited) => 0,
        Some(BaselineTier::Newly) => 1,
        Some(BaselineTier::Widely) => 2,
        None => 3,
    }
}

fn rank(b: &Baseline) -> (r: u8)
    ensures
        r as int == tier_rank(*b),
{
    match b.status {
        Some(BaselineTier::Limited) => 0,
        Some(BaselineTier::Newly) => 1,
        Some(BaselineTier::Widely) => 2,
        None => 3,
    }
}

fn milestone_text(b: &Baseline) -> (r: Option<Vec<char>>)
    ensures
        match milestone_of(*b) {
            Some(d) => match d.date {
                Some(t) => r matches Some(v) && v@ == t@,
                None => r is None,
            },
            None => r is None,
        },
{
    match b.milestone() {
        Some(d) => match &d.date {
            Some(t) => Some(chars_of(t.as_str())),
            None => None,
        },
        None => None,
    }
}

/// Whether `incoming` replaces `existing` when facts for several keys are
/// aggregated: an absent record is replaced, a more restrictive tier wins,
/// and within a tier the later milestone wins.
pub open spec fn replaces(existing: Option<Baseline>, incoming: Baseline) -> bool {
    match existing {
        None => true,
        Some(current) => tier_rank(incoming) < tier_rank(current) || (tier_rank(incoming)
            == tier_rank(current) && opt_date_gt(
            match milestone_of(incoming) {
                Some(d) => d.date,
                None => None,
            },
            match milestone_of(current) {
                Some(d) => d.date,
                None => None,
            },
        )),
    }
}

/// Preserve the existing aggregate policy without classifying unknown data as
/// Limited.
pub fn merge_baseline(existing: &mut Option<Baseline>, incoming: Option<Baseline>)
    ensures
        match incoming {
            None => *final(existing) == *old(existing),
            Some(new) => *final(existing) == if replaces(*old(existing), new) {
                Some(new)
            } else {
                *old(existing)
            },
        },
{
    let new = match incoming {
        None => return ,
        Some(new) => new,
    };
    let should_replace = match existing {
        None => true,
        Some(current) => {
            let rn = rank(&new);
            let rc = rank(current);
            rn < rc || (rn == rc && match (milestone_text(&new), milestone_text(current)) {
                (Some(x), Some(y)) => chars_lt(&y, &x),
                (Some(_), None) => true,
                _ => false,
            })
        },
    };
    if should_replace {
        *existing = Some(new);
    }
}

// ---------------------------------------------------------------- browsers

/// BCD's `string | false` version value.
#[derive(Debug, Clone)]
pub enum VersionAdded {
    /// Original version string, including qualified versions and `preview`.
    Version(String),
    /// Explicitly unsupported.
    Unsupported,
}

/// BCD's two flag categories.
#[derive(Debug, Clone, Copy, PartialEq, Eq, Structural)]
pub enum FlagKind {
    /// A browser preference.
    Preference,
    /// A command-line/runtime flag.
    RuntimeFlag,
}

/// Upstream spelling of a flag category.
pub open spec fn flag_kind_name(kind: FlagKind) -> Seq<char> {
    match kind {
        FlagKind::Preference => "preference"@,
        FlagKind::RuntimeFlag => "runtime_flag"@,
    }
}

impl FlagKind {
    /// Upstream spelling.
    pub fn as_str(self) -> (r: &'static str)
        ensures
            r@ == flag_kind_name(self),
    {
        match self {
            FlagKind::Preference => "preference",
            FlagKind::RuntimeFlag => "runtime_flag",
        }
    }
}

/// A complete BCD flag declaration.
#[derive(Debug, Clone)]
pub struct BrowserFlag {
    /// Required upstream category.
    pub kind: FlagKind,
    /// Flag or preference name.
    pub name: String,
    /// Required setting value, if supplied.
    pub value_to_set: Option<String>,
}

/// One complete support statement.
#[derive(Debug, Clone)]
pub struct BrowserVersion {
    /// Upstream version union. Absent/null/invalid input remains unknown.
    pub version_added: Option<VersionAdded>,
    /// First version without support, retaining its qualifier.
    pub version_removed: Option<String>,
    /// Last version with support.
    pub version_last: Option<String>,
    /// Required prefix.
    pub prefix: Option<String>,
    /// Name used by this implementation.
    pub alternative_name: Option<String>,
    /// All flag declarations.
    pub flags: Vec<BrowserFlag>,
    /// Implementation tracking links.
    pub impl_url: Vec<String>,
    /// Whether mandatory behavior is missing.
    pub partial_implementation: bool,
    /// Original upstream notes, with HTML retained as data.
    pub notes: Vec<String>,
}

/// Explicit support state, independent of the display version.
pub open spec fn supported_spec(v: BrowserVersion) -> Option<bool> {
    match v.version_added {
        Some(VersionAdded::Version(_)) => Some(true),
        Some(VersionAdded::Unsupported) => Some(false),
        None => None,
    }
}

impl BrowserVersion {
    /// A statement with nothing known.
    pub fn empty() -> (r: BrowserVersion)
        ensures
            r.version_added is None,
            r.version_removed is None,
            r.version_last is None,
            r.prefix is None,
            r.alternative_name is None,
            r.flags@.len() == 0,
            r.impl_url@.len() == 0,
            !r.partial_implementation,
            r.notes@.len() == 0,
    {
        BrowserVersion {
            version_added: None,
            version_removed: None,
            version_last: None,
            prefix: None,
            alternative_name: None,
            flags: Vec::new(),
            impl_url: Vec::new(),
            partial_implementation: false,
            notes: Vec::new(),
        }
    }

    /// Explicit support state, independent of the display version.
    pub fn supported(&self) -> (r: Option<bool>)
        ensures
            r == supported_spec(*self),
    {
        match self.version_added {
            Some(VersionAdded::Version(_)) => Some(true),
            Some(VersionAdded::Unsupported) => Some(false),
            None => None,
        }
    }

    /// Original version string when present.
    pub fn version(&self) -> (r: Option<&str>)
        ensures
            match self.version_added {
                Some(VersionAdded::Version(v)) => r matches Some(x) && x@ == v@,
                _ => r is None,
            },
    {
        match &self.version_added {
            Some(VersionAdded::Version(v)) => Some(v.as_str()),
            _ => None,
        }
    }
}

/// A current, unrestricted implementation: supported, not removed, with no
/// flag, prefix, alternative name or partial implementation.
pub open spec fn is_clean(v: BrowserVersion) -> bool {
    supported_spec(v) == Some(true) && v.version_removed is None && v.flags@.len() == 0
        && v.prefix is None && v.alternative_name is None && !v.partial_implementation
}

/// Supported and not removed.
pub open spec fn is_current(v: BrowserVersion) -> bool {
    supported_spec(v) == Some(true) && v.version_removed is None
}

/// The first index at or after `i` whose statement satisfies `p`.
pub open spec fn first_where(s: Seq<BrowserVersion>, i: int, p: spec_fn(BrowserVersion) -> bool) -> Option<int>
    decreases s.len() - i,
{
    if i < 0 || i >= s.len() {
        None
    } else if p(s[i]) {
        Some(i)
    } else {
        first_where(s, i + 1, p)
    }
}

/// The statement chosen for concise display: the first clean one, else the
/// first current one, else the first one.
pub open spec fn selected_index(s: Seq<BrowserVersion>) -> Option<int> {
    match first_where(s, 0, |v: BrowserVersion| is_clean(v)) {
        Some(i) => Some(i),
        None => match first_where(s, 0, |v: BrowserVersion| is_current(v)) {
            Some(i) => Some(i),
            None => if s.len() > 0 {
                Some(0)
            } else {
                None
            },
        },
    }
}

pub proof fn lemma_first_where_bounds(s: Seq<BrowserVersion>, i: int, p: spec_fn(BrowserVersion) -> bool)
    requires
        0 <= i,
    ensures
        first_where(s, i, p) matches Some(k) ==> i <= k < s.len() && p(s[k]),
    decreases s.len() - i,
{
    if i < s.len() && !p(s[i]) {
        lemma_first_where_bounds(s, i + 1, p);
    }
}

fn clean(v: &BrowserVersion) -> (r: bool)
    ensures
        r == is_clean(*v),
{
    v.supported() == Some(true) && v.version_removed.is_none() && v.flags.len() == 0
        && v.prefix.is_none() && v.alternative_name.is_none() && !v.partial_implementation
}

fn current(v: &BrowserVersion) -> (r: bool)
    ensures
        r == is_current(*v),
{
    v.supported() == Some(true) && v.version_removed.is_none()
}

/// Choose the current unrestricted implementation for concise display,
/// retaining history elsewhere.
pub fn select_statement(statements: &[BrowserVersion]) -> (r: Option<&BrowserVersion>)
    ensures
        r == match selected_index(statements@) {
            Some(i) => Some(&statements@[i]),
            None => None::<&BrowserVersion>,
        },
{
    let mut i: usize = 0;
    while i < statements.len()
        invariant
            i <= statements@.len(),
            first_where(statements@, 0, |v: BrowserVersion| is_clean(v)) == first_where(
                statements@,
                i as int,
                |v: BrowserVersion| is_clean(v),
            ),
        decreases statements@.len() - i,
    {
        if clean(&statements[i]) {
            return Some(&statements[i]);
        }
        i = i + 1;
    }
    let mut j: usize = 0;
    while j < statements.len()
        invariant
            j <= statements@.len(),
            first_where(statements@, 0, |v: BrowserVersion| is_clean(v)) is None,
            first_where(statements@, 0, |v: BrowserVersion| is_current(v)) == first_where(
                statements@,
                j as int,
                |v: BrowserVersion| is_current(v),
            ),
        decreases statements@.len() - j,
    {
        if current(&statements[j]) {
            return Some(&statements[j]);
        }
        j = j + 1;
    }
    if statements.len() > 0 {
        Some(&statements[0])
    } else {
        None
    }
}

/// Every upstream product and its support statements, in upstream order.
#[derive(Debug, Clone)]
pub struct BrowserSupport {
    /// Browser identifier and its statements.
    pub entries: Vec<(String, Vec<BrowserVersion>)>,
}

/// The position of the first entry for browser `id`.
pub open spec fn entry_index(entries: Seq<(String, Vec<BrowserVersion>)>, i: int, id: Seq<char>) -> Option<int>
    decreases entries.len() - i,
{
    if i < 0 || i >= entries.len() {
        None
    } else if entries[i].0@ == id {
        Some(i)
    } else {
        entry_index(entries, i + 1, id)
    }
}

/// The statements recorded for browser `id`.
pub open spec fn support_for(s: BrowserSupport, id: Seq<char>) -> Option<Seq<BrowserVersion>> {
    match entry_index(s.entries@, 0, id) {
        Some(i) => Some(s.entries@[i].1@),
        None => None,
    }
}

impl BrowserSupport {
    /// The statements recorded for browser `id`.
    pub fn get(&self, id: &str) -> (r: Option<&Vec<BrowserVersion>>)
        ensures
            match support_for(*self, id@) {
                Some(h) => r matches Some(x) && x@ == h,
                None => r is None,
            },
    {
        let mut i: usize = 0;
        while i < self.entries.len()
            invariant
                i <= self.entries@.len(),
                entry_index(self.entries@, 0, id@) == entry_index(self.entries@, i as int, id@),
            decreases self.entries@.len() - i,
        {
            if str_eq(self.entries[i].0.as_str(), id) {
                return Some(&self.entries[i].1);
            }
            i = i + 1;
        }
        None
    }
}

} // verus!
