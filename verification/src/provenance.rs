//! Typed provenance of a regeneration run: the pinned upstream commit and the
//! permalink bases distilled from the publication manifest.

use vstd::prelude::*;
use crate::text::str_eq;

verus! {

/// One `<versions>` link of the publication manifest.
pub struct VersionLink {
    pub name: String,
    pub href: String,
}

/// The permalink base URLs a regeneration derives from.
pub struct BaseUrls {
    /// Rolling editor's-draft render (`<cvs>`).
    pub editors_draft: Option<String>,
    /// Current dated edition (`<this>`).
    pub dated: Option<String>,
    /// Version-less draft alias (`<latest>`).
    pub latest: Option<String>,
    /// Version-less recommendation alias (`<latestrec>`).
    pub latest_rec: Option<String>,
}

/// The exact upstream snapshot a regeneration fetched, plus permalink bases.
pub struct Provenance {
    pub repository: String,
    pub reference: String,
    pub commit_sha: String,
    pub commit_date: String,
    pub maturity: String,
    pub base_urls: BaseUrls,
}

/// The target of the first link named `name`.
pub open spec fn link_target(links: Seq<VersionLink>, name: Seq<char>) -> Option<Seq<char>>
    decreases links.len(),
{
    if links.len() == 0 {
        None
    } else if links[0].name@ == name {
        Some(links[0].href@)
    } else {
        link_target(links.drop_first(), name)
    }
}

pub open spec fn opt_string(o: Option<String>) -> Option<Seq<char>> {
    match o {
        Some(s) => Some(s@),
        None => None,
    }
}

fn find_link(links: &[VersionLink], name: &str) -> (r: Option<String>)
    ensures
        opt_string(r) == link_target(links@, name@),
{
    let mut i: usize = 0;
    assert(links@.skip(0) =~= links@);
    while i < links.len()
        invariant
            i <= links@.len(),
            link_target(links@, name@) == link_target(links@.skip(i as int), name@),
        decreases links@.len() - i,
    {
        assert(links@.skip(i as int)[0] == links@[i as int]);
        assert(links@.skip(i as int).drop_first() =~= links@.skip(i + 1));
        if str_eq(links[i].name.as_str(), name) {
            return Some(links[i].href.clone());
        }
        i = i + 1;
    }
    None
}

impl BaseUrls {
    /// Distil the permalink bases from the manifest's `<versions>` links.
    pub fn from_links(links: &[VersionLink]) -> (r: BaseUrls)
        ensures
            opt_string(r.editors_draft) == link_target(links@, "cvs"@),
            opt_string(r.dated) == link_target(links@, "this"@),
            opt_string(r.latest) == link_target(links@, "latest"@),
            opt_string(r.latest_rec) == link_target(links@, "latestrec"@),
    {
        BaseUrls {
            editors_draft: find_link(links, "cvs"),
            dated: find_link(links, "this"),
            latest: find_link(links, "latest"),
            latest_rec: find_link(links, "latestrec"),
        }
    }
}

} // verus!
