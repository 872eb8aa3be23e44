//! The specification snapshots the catalog tracks, and how a requested profile
//! or a `version="…"` attribute resolves to one.

use vstd::prelude::*;
use crate::text::{
    chars_of, eq_ignore_case, eq_ignore_case_spec, index_of, index_of_spec, trim_spec, trimmed_chars,
};

verus! {

/// A canonical SVG specification snapshot the catalog tracks.
#[derive(Debug, Clone, Copy, PartialEq, Eq, Structural, Hash)]
pub enum SpecSnapshotId {
    /// SVG 1.1 First Edition (W3C REC 2003-01-14).
    Svg11Rec20030114,
    /// SVG 1.1 Second Edition (W3C REC 2011-08-16).
    Svg11Rec20110816,
    /// SVG 2 Candidate Recommendation (2018-10-04).
    Svg2Cr20181004,
    /// SVG 2 Editor's Draft (rolling).
    Svg2EditorsDraft,
}

/// The stable string identifier of a snapshot.
pub open spec fn snapshot_name(id: SpecSnapshotId) -> Seq<char> {
    match id {
        SpecSnapshotId::Svg11Rec20030114 => "Svg11Rec20030114"@,
        SpecSnapshotId::Svg11Rec20110816 => "Svg11Rec20110816"@,
        SpecSnapshotId::Svg2Cr20181004 => "Svg2Cr20181004"@,
        SpecSnapshotId::Svg2EditorsDraft => "Svg2EditorsDraft"@,
    }
}

/// Position of a snapshot in publication order, oldest first.
pub open spec fn snapshot_rank(id: SpecSnapshotId) -> nat {
    match id {
        SpecSnapshotId::Svg11Rec20030114 => 0,
        SpecSnapshotId::Svg11Rec20110816 => 1,
        SpecSnapshotId::Svg2Cr20181004 => 2,
        SpecSnapshotId::Svg2EditorsDraft => 3,
    }
}

/// All snapshots, oldest first.
pub open spec fn all_snapshots() -> Seq<SpecSnapshotId> {
    seq![
        SpecSnapshotId::Svg11Rec20030114,
        SpecSnapshotId::Svg11Rec20110816,
        SpecSnapshotId::Svg2Cr20181004,
        SpecSnapshotId::Svg2EditorsDraft,
    ]
}

impl SpecSnapshotId {
    /// The most recent snapshot: the default profile when none is declared.
    pub const LATEST: SpecSnapshotId = SpecSnapshotId::Svg2EditorsDraft;

    /// Stable string identifier (matches the on-disk snapshot directory name).
    pub fn as_str(self) -> (r: &'static str)
        ensures
            r@ == snapshot_name(self),
    {
        match self {
            SpecSnapshotId::Svg11Rec20030114 => "Svg11Rec20030114",
            SpecSnapshotId::Svg11Rec20110816 => "Svg11Rec20110816",
            SpecSnapshotId::Svg2Cr20181004 => "Svg2Cr20181004",
            SpecSnapshotId::Svg2EditorsDraft => "Svg2EditorsDraft",
        }
    }
}

/// All snapshots the catalog tracks, oldest first.
pub fn spec_snapshots() -> (r: Vec<SpecSnapshotId>)
    ensures
        r@ == all_snapshots(),
{
    let r = vec![
        SpecSnapshotId::Svg11Rec20030114,
        SpecSnapshotId::Svg11Rec20110816,
        SpecSnapshotId::Svg2Cr20181004,
        SpecSnapshotId::Svg2EditorsDraft,
    ];
    assert(r@ =~= all_snapshots());
    r
}

/// Where `snapshot` stands among [`spec_snapshots`].
pub fn snapshot_index(snapshot: SpecSnapshotId) -> (r: usize)
    ensures
        r == snapshot_rank(snapshot),
        all_snapshots()[r as int] == snapshot,
{
    match snapshot {
        SpecSnapshotId::Svg11Rec20030114 => 0,
        SpecSnapshotId::Svg11Rec20110816 => 1,
        SpecSnapshotId::Svg2Cr20181004 => 2,
        SpecSnapshotId::Svg2EditorsDraft => 3,
    }
}

/// Whether a profile is one of the SVG 1.1 editions.
pub open spec fn is_svg11(profile: SpecSnapshotId) -> bool {
    profile == SpecSnapshotId::Svg11Rec20030114 || profile == SpecSnapshotId::Svg11Rec20110816
}

pub fn is_svg11_profile(profile: SpecSnapshotId) -> (r: bool)
    ensures
        r == is_svg11(profile),
{
    matches!(profile, SpecSnapshotId::Svg11Rec20030114 | SpecSnapshotId::Svg11Rec20110816)
}

/// Spec lifecycle of an element or attribute within a given profile.
#[derive(Debug, Clone, Copy, PartialEq, Eq, Structural)]
pub enum SpecLifecycle {
    /// Stable in the selected profile.
    Stable,
    /// Present only in a draft / non-stable snapshot.
    Experimental,
    /// Explicitly deprecated by the spec.
    Deprecated,
    /// Removed from later snapshots but known historically.
    Obsolete,
}

/// Outcome of a profile-aware element or attribute lookup.
pub enum ProfileLookup<T: 'static> {
    /// The feature is present in the profile.
    Present { value: &'static T, lifecycle: SpecLifecycle },
    /// Known to SVG, but not part of this profile; carries the snapshots it is
    /// present in, oldest first.
    UnsupportedInProfile { known_in: &'static [SpecSnapshotId] },
    /// Not a known SVG element or attribute at all.
    Unknown,
}

/// The major version family of a `version="…"` value: the trimmed value up to
/// its first `.`.
pub open spec fn version_major(version: Seq<char>) -> Seq<char> {
    let t = trim_spec(version);
    t.subrange(0, index_of_spec(t, 0, '.'))
}

/// The snapshot a `version="…"` value names by its major family.
pub open spec fn snapshot_for_version(version: Seq<char>) -> Option<SpecSnapshotId> {
    let major = version_major(version);
    if major == "1"@ {
        Some(SpecSnapshotId::Svg11Rec20110816)
    } else if major == "2"@ {
        Some(SpecSnapshotId::Svg2EditorsDraft)
    } else {
        None
    }
}

/// Resolve a `version="…"` attribute value to a snapshot by major family.
pub fn snapshot_for_svg_version_attr(version: &str) -> (r: Option<SpecSnapshotId>)
    ensures
        r == snapshot_for_version(version@),
{
    let t = trimmed_chars(version);
    let end = index_of(&t, 0, '.');
    let ghost major = t@.subrange(0, end as int);
    proof {
        reveal_strlit("1");
        reveal_strlit("2");
        assert(version_major(version@) == major);
        assert("1"@.len() == 1 && "1"@[0] == '1');
        assert("2"@.len() == 1 && "2"@[0] == '2');
    }
    if end == 1 && t[0] == '1' {
        assert(major =~= "1"@);
        Some(SpecSnapshotId::Svg11Rec20110816)
    } else if end == 1 && t[0] == '2' {
        assert(major =~= "2"@);
        Some(SpecSnapshotId::Svg2EditorsDraft)
    } else {
        proof {
            if major == "1"@ {
                assert(major[0] == '1');
            }
            if major == "2"@ {
                assert(major[0] == '2');
            }
        }
        None
    }
}

/// Metadata describing a snapshot: alias strings that resolve to it.
#[derive(Debug, Clone)]
pub struct SnapshotMetadata {
    /// The snapshot this metadata describes.
    pub snapshot: SpecSnapshotId,
    /// Accepted alias strings that resolve to this snapshot.
    pub aliases: Vec<&'static str>,
}

/// The aliases a snapshot is known by.
pub open spec fn snapshot_aliases(id: SpecSnapshotId) -> Seq<Seq<char>> {
    match id {
        SpecSnapshotId::Svg11Rec20030114 => seq![
            "svg11rec20030114"@,
            "svg11-20030114"@,
            "svg1.1-20030114"@,
        ],
        SpecSnapshotId::Svg11Rec20110816 => seq![
            "svg11"@,
            "svg1.1"@,
            "1.1"@,
            "svg11rec20110816"@,
            "svg11-20110816"@,
        ],
        SpecSnapshotId::Svg2Cr20181004 => seq![
            "svg2cr"@,
            "svg2-cr"@,
            "svg2cr20181004"@,
            "svg2-20181004"@,
        ],
        SpecSnapshotId::Svg2EditorsDraft => seq![
            "svg2"@,
            "svg2.0"@,
            "2"@,
            "2.0"@,
            "svg2draft"@,
            "svg2-draft"@,
            "latest"@,
        ],
    }
}

/// Metadata (aliases) for a snapshot.
pub fn snapshot_metadata(snapshot: SpecSnapshotId) -> (r: SnapshotMetadata)
    ensures
        r.snapshot == snapshot,
        r.aliases@.len() == snapshot_aliases(snapshot).len(),
        forall|i: int| 0 <= i < r.aliases@.len() ==> #[trigger] r.aliases@[i]@ == snapshot_aliases(snapshot)[i],
{
    let aliases: Vec<&'static str> = match snapshot {
        SpecSnapshotId::Svg11Rec20030114 => vec!["svg11rec20030114", "svg11-20030114", "svg1.1-20030114"],
        SpecSnapshotId::Svg11Rec20110816 => vec![
            "svg11",
            "svg1.1",
            "1.1",
            "svg11rec20110816",
            "svg11-20110816",
        ],
        SpecSnapshotId::Svg2Cr20181004 => vec!["svg2cr", "svg2-cr", "svg2cr20181004", "svg2-20181004"],
        SpecSnapshotId::Svg2EditorsDraft => vec![
            "svg2",
            "svg2.0",
            "2",
            "2.0",
            "svg2draft",
            "svg2-draft",
            "latest",
        ],
    };
    SnapshotMetadata { snapshot, aliases }
}

/// Whether `requested` (already trimmed) names `id`, by its identifier or an
/// alias, ignoring ASCII case.
pub open spec fn names_snapshot(id: SpecSnapshotId, requested: Seq<char>) -> bool {
    eq_ignore_case_spec(snapshot_name(id), requested) || exists|i: int|
        0 <= i < snapshot_aliases(id).len() && eq_ignore_case_spec(
            #[trigger] snapshot_aliases(id)[i],
            requested,
        )
}

/// The snapshot a requested profile string names: the oldest whose
/// identifier or alias matches the trimmed request, ignoring ASCII case.
pub open spec fn profile_for_request(requested: Seq<char>) -> Option<SpecSnapshotId> {
    let t = trim_spec(requested);
    if names_snapshot(SpecSnapshotId::Svg11Rec20030114, t) {
        Some(SpecSnapshotId::Svg11Rec20030114)
    } else if names_snapshot(SpecSnapshotId::Svg11Rec20110816, t) {
        Some(SpecSnapshotId::Svg11Rec20110816)
    } else if names_snapshot(SpecSnapshotId::Svg2Cr20181004, t) {
        Some(SpecSnapshotId::Svg2Cr20181004)
    } else if names_snapshot(SpecSnapshotId::Svg2EditorsDraft, t) {
        Some(SpecSnapshotId::Svg2EditorsDraft)
    } else {
        None
    }
}

fn names(id: SpecSnapshotId, requested: &Vec<char>) -> (r: bool)
    ensures
        r == names_snapshot(id, requested@),
{
    let name = chars_of(id.as_str());
    if eq_ignore_case(&name, requested) {
        return true;
    }
    let meta = snapshot_metadata(id);
    let mut i: usize = 0;
    while i < meta.aliases.len()
        invariant
            i <= meta.aliases@.len(),
            meta.aliases@.len() == snapshot_aliases(id).len(),
            forall|k: int| 0 <= k < meta.aliases@.len() ==> #[trigger] meta.aliases@[k]@ == snapshot_aliases(id)[k],
            forall|k: int| 0 <= k < i ==> !eq_ignore_case_spec(#[trigger] snapshot_aliases(id)[k], requested@),
            !eq_ignore_case_spec(snapshot_name(id), requested@),
        decreases meta.aliases@.len() - i,
    {
        let alias = chars_of(meta.aliases[i]);
        if eq_ignore_case(&alias, requested) {
            return true;
        }
        i = i + 1;
    }
    false
}

/// Resolve a requested profile string (identifier or alias) to a snapshot.
pub fn resolve_profile_id(requested: &str) -> (r: Option<SpecSnapshotId>)
    ensures
        r == profile_for_request(requested@),
{
    let t = trimmed_chars(requested);
    if names(SpecSnapshotId::Svg11Rec20030114, &t) {
        Some(SpecSnapshotId::Svg11Rec20030114)
    } else if names(SpecSnapshotId::Svg11Rec20110816, &t) {
        Some(SpecSnapshotId::Svg11Rec20110816)
    } else if names(SpecSnapshotId::Svg2Cr20181004, &t) {
        Some(SpecSnapshotId::Svg2Cr20181004)
    } else if names(SpecSnapshotId::Svg2EditorsDraft, &t) {
        Some(SpecSnapshotId::Svg2EditorsDraft)
    } else {
        None
    }
}

} // verus!
