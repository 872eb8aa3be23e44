//! Regular-expression matching through the `regex` crate, with the matches
//! handed back as plain strings.

use vstd::prelude::*;

verus! {

/// The capture groups of the leftmost match of `pattern` in `text`: `None`
/// when the pattern does not compile, `Some(None)` when nothing matches, and
/// otherwise group 0 (the whole match) then each group in order, `None` for a
/// group that did not take part.
pub uninterp spec fn first_captures(pattern: Seq<char>, text: Seq<char>) -> Option<
    Option<Seq<Option<Seq<char>>>>,
>;

/// Every successive non-overlapping match of `pattern` in `text`, each as the
/// text before the match and its capture groups; `None` when the pattern does
/// not compile.
pub uninterp spec fn all_captures(pattern: Seq<char>, text: Seq<char>) -> Option<
    Seq<(Seq<char>, Seq<Option<Seq<char>>>)>,
>;

pub open spec fn groups_view(g: Vec<Option<String>>) -> Seq<Option<Seq<char>>> {
    g@.map_values(|o: Option<String>| crate::html::opt_chars(o))
}

pub open spec fn match_view(m: (String, Vec<Option<String>>)) -> (Seq<char>, Seq<Option<Seq<char>>>) {
    (m.0@, groups_view(m.1))
}

/// `regex::Regex::new` then `Regex::captures`; the groups are copied out as
/// strings. The outcome is named, nothing more is claimed of it.
#[verifier::external_body]
pub(crate) fn captures(pattern: &str, text: &str) -> (r: Option<Option<Vec<Option<String>>>>)
    ensures
        first_captures(pattern@, text@) == match r {
            None => None,
            Some(None) => Some(None),
            Some(Some(g)) => Some(Some(groups_view(g))),
        },
{
    let re = regex::Regex::new(pattern).ok()?;
    Some(re.captures(text).map(|c| c.iter().map(|g| g.map(|m| m.as_str().to_owned())).collect()))
}

/// `regex::Regex::new` then `Regex::captures_iter`; each match is copied out
/// as the text before it and its groups. The outcome is named, nothing more
/// is claimed of it.
#[verifier::external_body]
pub(crate) fn captures_all(pattern: &str, text: &str) -> (r: Option<Vec<(String, Vec<Option<String>>)>>)
    ensures
        all_captures(pattern@, text@) == match r {
            None => None,
            Some(v) => Some(v@.map_values(|m: (String, Vec<Option<String>>)| match_view(m))),
        },
{
    let re = regex::Regex::new(pattern).ok()?;
    Some(re.captures_iter(text).map(|c| (
        text[..c.get(0).map_or(0, |m| m.start())].to_owned(),
        c.iter().map(|g| g.map(|m| m.as_str().to_owned())).collect(),
    )).collect())
}

} // verus!
