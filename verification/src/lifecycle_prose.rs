//! Explicit lifecycle declarations read from specification prose.
//!
//! Only declarations about an element, attribute or property are accepted;
//! definitions and headings supply the subject for "this property"
//! statements, and explicit quoted subjects stand alone.

use vstd::prelude::*;
use crate::html::{attr, attr_spec, has_class, has_class_spec, parse_html, parsed_html, inner_text, inner_text_of, views, HtmlNode, HtmlTag};
use crate::pattern::{all_captures, captures, captures_all, first_captures, groups_view, match_view};
use crate::spec_lifecycle::{
    decl_view, decl_views, CatalogDeclaredStatus, CatalogLifecycleDeclaration, Declaration,
    DeclView,
};
use crate::text::{
    chars_of, concat, concat3, eq_ignore_case, eq_ignore_case_spec, find_from, find_from_spec,
    has_prefix_at, prefix_at, push_char, push_str, str_eq,
};
use crate::util::{boxed, decode_spec, normalize_html_ws, normalize_ws_spec, RegenError};
use crate::spec_lifecycle::{insert_string, opt_str, option_lt, sort_names, sorted_names};
use crate::compat::{chars_lt, lemma_seq_lt_total, lemma_seq_lt_trans, seq_lt};
use crate::snapshot::SpecSnapshotId;
use crate::text::string_seqs;

verus! {

/// A quoted subject in a heading: `'name' property`.
pub const SUBJECT_PATTERN: &'static str = r"'([A-Za-z_][A-Za-z0-9_.:-]*)'\s+(property|attribute|element)\b";

/// A status word before a quoted subject: `deprecated 'name' attribute`.
pub const PREFIX_PATTERN: &'static str = r"(?i)\b(deprecated|obsoleted?|removed)\s+'([A-Za-z_][A-Za-z0-9_.:-]*)'\s+(?:property|attribute|element)\b";

/// A status word after a quoted subject: `'name' attribute is deprecated`.
pub const SUFFIX_PATTERN: &'static str = r"(?i)'([A-Za-z_][A-Za-z0-9_.:-]*)'\s+(?:(?:property|attribute|element)\s+(?:is\s+|has\s+(?:also\s+)?been\s+|which\s+has\s+also\s+been\s+)?)?(deprecated|obsoleted?|removed)\b";

/// A statement about the definition being read: `This property is deprecated`.
pub const THIS_PATTERN: &'static str = r"(?i)^This (?:property|attribute|element)\b.*?\b(?:is|has been|It has been) (deprecated|obsoleted?|removed)\b";

/// A declaration found in one paragraph: subject, whether it is an element,
/// and the declared status.
pub type Found = (String, bool, CatalogDeclaredStatus);

pub open spec fn found_view(f: Found) -> (Seq<char>, bool, CatalogDeclaredStatus) {
    (f.0@, f.1, f.2)
}

pub open spec fn found_views(v: Seq<Found>) -> Seq<(Seq<char>, bool, CatalogDeclaredStatus)> {
    v.map_values(|f: Found| found_view(f))
}

pub open spec fn subject_view(s: Option<(String, bool)>) -> Option<(Seq<char>, bool)> {
    match s {
        Some(p) => Some((p.0@, p.1)),
        None => None,
    }
}

// ---------------------------------------------------------------------------
// Small text predicates

pub open spec fn starts_with(s: Seq<char>, p: Seq<char>) -> bool {
    has_prefix_at(s, 0, p)
}

pub open spec fn ends_with(s: Seq<char>, p: Seq<char>) -> bool {
    p.len() <= s.len() && has_prefix_at(s, s.len() - p.len(), p)
}

pub open spec fn contains(s: Seq<char>, p: Seq<char>) -> bool {
    find_from_spec(s, 0, p) is Some
}

pub(crate) fn starts(s: &Vec<char>, p: &str) -> (r: bool)
    ensures
        r == starts_with(s@, p@),
{
    let pv = chars_of(p);
    prefix_at(s, 0, &pv)
}

pub(crate) fn ends(s: &Vec<char>, p: &str) -> (r: bool)
    ensures
        r == ends_with(s@, p@),
{
    let pv = chars_of(p);
    if pv.len() > s.len() {
        false
    } else {
        prefix_at(s, s.len() - pv.len(), &pv)
    }
}

pub(crate) fn has_sub(s: &Vec<char>, p: &str) -> (r: bool)
    ensures
        r == contains(s@, p@),
{
    let pv = chars_of(p);
    find_from(s, 0, &pv).is_some()
}

/// Group `i` of a match, empty when the group did not take part.
pub open spec fn group(g: Seq<Option<Seq<char>>>, i: int) -> Seq<char> {
    if 0 <= i < g.len() {
        match g[i] {
            Some(s) => s,
            None => Seq::empty(),
        }
    } else {
        Seq::empty()
    }
}

fn group_at(g: &Vec<Option<String>>, i: usize) -> (r: String)
    ensures
        r@ == group(groups_view(*g), i as int),
{
    if i < g.len() {
        match &g[i] {
            Some(s) => s.clone(),
            None => String::new(),
        }
    } else {
        String::new()
    }
}

/// The status a declaration's word names.
pub open spec fn status_spec(word: Seq<char>) -> CatalogDeclaredStatus {
    if eq_ignore_case_spec(word, "deprecated"@) {
        CatalogDeclaredStatus::Deprecated
    } else if eq_ignore_case_spec(word, "removed"@) {
        CatalogDeclaredStatus::Removed
    } else {
        CatalogDeclaredStatus::Obsolete
    }
}

pub fn status(word: &str) -> (r: CatalogDeclaredStatus)
    ensures
        r == status_spec(word@),
{
    let w = chars_of(word);
    let d = chars_of("deprecated");
    let r = chars_of("removed");
    if eq_ignore_case(&w, &d) {
        CatalogDeclaredStatus::Deprecated
    } else if eq_ignore_case(&w, &r) {
        CatalogDeclaredStatus::Removed
    } else {
        CatalogDeclaredStatus::Obsolete
    }
}

// ---------------------------------------------------------------------------
// One paragraph

pub open spec fn pattern_error() -> Seq<char> {
    "lifecycle pattern does not compile"@
}

pub open spec fn kind_mismatch_error() -> Seq<char> {
    "lifecycle declaration does not match its definition's subject kind"@
}

pub open spec fn no_definition_error() -> Seq<char> {
    "property lifecycle declaration has no identifiable definition"@
}

/// What a "This property is deprecated" statement declares.
pub open spec fn this_found(
    prose: Seq<char>,
    subject: Option<(Seq<char>, bool)>,
    this_match: Option<Seq<Option<Seq<char>>>>,
) -> Result<Seq<(Seq<char>, bool, CatalogDeclaredStatus)>, Seq<char>> {
    match this_match {
        None => Ok(Seq::empty()),
        Some(g) => match subject {
            Some((name, element)) => if element != starts_with(prose, "This element"@) {
                Err(kind_mismatch_error())
            } else {
                Ok(seq![(name, element, status_spec(group(g, 1)))])
            },
            None => if starts_with(prose, "This property"@) {
                Err(no_definition_error())
            } else {
                Ok(Seq::empty())
            },
        },
    }
}

/// What a "Deprecated attribute" note declares of the current subject.
pub open spec fn note_found(prose: Seq<char>, subject: Option<(Seq<char>, bool)>) -> Seq<
    (Seq<char>, bool, CatalogDeclaredStatus),
> {
    match subject {
        Some((name, element)) => if starts_with(prose, "Deprecated attribute"@) || starts_with(
            prose,
            "Deprecated XML attribute"@,
        ) {
            seq![(name, element, CatalogDeclaredStatus::Deprecated)]
        } else {
            Seq::empty()
        },
        None => Seq::empty(),
    }
}

/// The declarations of `deprecated 'name' attribute` matches, skipping those
/// negated by a preceding `non-` or `not `.
pub open spec fn prefix_found(ms: Seq<(Seq<char>, Seq<Option<Seq<char>>>)>) -> Seq<
    (Seq<char>, bool, CatalogDeclaredStatus),
>
    decreases ms.len(),
{
    if ms.len() == 0 {
        Seq::empty()
    } else {
        let prev = prefix_found(ms.drop_last());
        let (before, g) = ms.last();
        if ends_with(before, "non-"@) || ends_with(before, "not "@) {
            prev
        } else {
            prev.push((group(g, 2), ends_with(group(g, 0), "element"@), status_spec(group(g, 1))))
        }
    }
}

/// The declarations of `'name' attribute is deprecated` matches.
pub open spec fn suffix_found(ms: Seq<(Seq<char>, Seq<Option<Seq<char>>>)>) -> Seq<
    (Seq<char>, bool, CatalogDeclaredStatus),
>
    decreases ms.len(),
{
    if ms.len() == 0 {
        Seq::empty()
    } else {
        let g = ms.last().1;
        suffix_found(ms.drop_last()).push(
            (group(g, 1), contains(group(g, 0), " element "@), status_spec(group(g, 2))),
        )
    }
}

/// The declarations one paragraph makes, given the matches of the four
/// patterns in it.
pub open spec fn paragraph_spec(
    prose: Seq<char>,
    subject: Option<(Seq<char>, bool)>,
    this_match: Option<Option<Seq<Option<Seq<char>>>>>,
    prefix_matches: Option<Seq<(Seq<char>, Seq<Option<Seq<char>>>)>>,
    suffix_matches: Option<Seq<(Seq<char>, Seq<Option<Seq<char>>>)>>,
) -> Result<Seq<(Seq<char>, bool, CatalogDeclaredStatus)>, Seq<char>> {
    match this_match {
        None => Err(pattern_error()),
        Some(t) => match this_found(prose, subject, t) {
            Err(e) => Err(e),
            Ok(this) => match (prefix_matches, suffix_matches) {
                (Some(p), Some(s)) => Ok(
                    this + note_found(prose, subject) + prefix_found(p) + suffix_found(s),
                ),
                _ => Err(pattern_error()),
            },
        },
    }
}

/// The declarations one paragraph makes as the four patterns read it.
pub open spec fn paragraph_declarations_spec(prose: Seq<char>, subject: Option<(Seq<char>, bool)>) -> Result<
    Seq<(Seq<char>, bool, CatalogDeclaredStatus)>,
    Seq<char>,
> {
    paragraph_spec(
        prose,
        subject,
        first_captures(THIS_PATTERN@, prose),
        all_captures(PREFIX_PATTERN@, prose),
        all_captures(SUFFIX_PATTERN@, prose),
    )
}

pub open spec fn matches_view(v: Vec<(String, Vec<Option<String>>)>) -> Seq<
    (Seq<char>, Seq<Option<Seq<char>>>),
> {
    v@.map_values(|m: (String, Vec<Option<String>>)| match_view(m))
}

pub open spec fn opt_matches_view(o: Option<Vec<(String, Vec<Option<String>>)>>) -> Option<
    Seq<(Seq<char>, Seq<Option<Seq<char>>>)>,
> {
    match o {
        Some(v) => Some(matches_view(v)),
        None => None,
    }
}

pub open spec fn inner_view(o: Option<Vec<Option<String>>>) -> Option<Seq<Option<Seq<char>>>> {
    match o {
        None => None,
        Some(g) => Some(groups_view(g)),
    }
}

pub open spec fn this_view(o: Option<Option<Vec<Option<String>>>>) -> Option<
    Option<Seq<Option<Seq<char>>>>,
> {
    match o {
        None => None,
        Some(t) => Some(inner_view(t)),
    }
}

pub open spec fn result_view(r: Result<Vec<Found>, String>) -> Result<
    Seq<(Seq<char>, bool, CatalogDeclaredStatus)>,
    Seq<char>,
> {
    match r {
        Ok(v) => Ok(found_views(v@)),
        Err(e) => Err(e@),
    }
}

fn clone_subject(s: &Option<(String, bool)>) -> (r: Option<(String, bool)>)
    ensures
        subject_view(r) == subject_view(*s),
{
    match s {
        Some((n, e)) => Some((n.clone(), *e)),
        None => None,
    }
}

/// The declarations one paragraph makes, given the matches of the patterns
/// in it: the leftmost `THIS_PATTERN` match, then every `PREFIX_PATTERN` and
/// every `SUFFIX_PATTERN` match (`None` for a pattern that did not compile).
pub fn declarations_from_matches(
    prose: &str,
    subject: &Option<(String, bool)>,
    this_match: Option<Option<Vec<Option<String>>>>,
    prefix_matches: Option<Vec<(String, Vec<Option<String>>)>>,
    suffix_matches: Option<Vec<(String, Vec<Option<String>>)>>,
) -> (r: Result<Vec<Found>, String>)
    ensures
        result_view(r) == paragraph_spec(
            prose@,
            subject_view(*subject),
            this_view(this_match),
            opt_matches_view(prefix_matches),
            opt_matches_view(suffix_matches),
        ),
{
    let p = chars_of(prose);
    let mut found: Vec<Found> = Vec::new();
    let t = match this_match {
        None => return Err("lifecycle pattern does not compile".to_owned()),
        Some(t) => t,
    };
    proof {
        reveal_strlit("lifecycle pattern does not compile");
        reveal_strlit("This element");
        reveal_strlit("This property");
        reveal_strlit("Deprecated attribute");
        reveal_strlit("Deprecated XML attribute");
    }
    if let Some(g) = &t {
        match subject {
            Some((name, element)) => {
                if *element != starts(&p, "This element") {
                    proof {
                        reveal_strlit(
                            "lifecycle declaration does not match its definition's subject kind",
                        );
                    }
                    return Err(
                        "lifecycle declaration does not match its definition's subject kind".to_owned(),
                    );
                }
                let word = group_at(g, 1);
                found.push((name.clone(), *element, status(word.as_str())));
                assert(found_views(found@) =~= seq![(name@, *element, status_spec(word@))]);
            },
            None => {
                if starts(&p, "This property") {
                    proof {
                        reveal_strlit("property lifecycle declaration has no identifiable definition");
                    }
                    return Err(
                        "property lifecycle declaration has no identifiable definition".to_owned(),
                    );
                }
            },
        }
    }
    assert(t is None ==> found_views(found@) =~= Seq::empty());
    assert(t is Some && subject is None ==> found_views(found@) =~= Seq::empty());
    let ghost this_part = found_views(found@);
    assert(this_found(prose@, subject_view(*subject), inner_view(t)) == Ok::<
        Seq<(Seq<char>, bool, CatalogDeclaredStatus)>,
        Seq<char>,
    >(this_part));
    let (pm, sm) = match (prefix_matches, suffix_matches) {
        (Some(pm), Some(sm)) => (pm, sm),
        _ => return Err("lifecycle pattern does not compile".to_owned()),
    };
    if let Some((name, element)) = subject {
        if starts(&p, "Deprecated attribute") || starts(&p, "Deprecated XML attribute") {
            found.push((name.clone(), *element, CatalogDeclaredStatus::Deprecated));
        }
    }
    let ghost with_note = found_views(found@);
    assert(with_note =~= this_part + note_found(prose@, subject_view(*subject)));
    let mut i: usize = 0;
    assert(matches_view(pm).take(0) =~= Seq::<(Seq<char>, Seq<Option<Seq<char>>>)>::empty());
    while i < pm.len()
        invariant
            i <= pm@.len(),
            found_views(found@) == with_note + prefix_found(matches_view(pm).take(i as int)),
        decreases pm@.len() - i,
    {
        let ghost before = found_views(found@);
        assert(matches_view(pm).take(i + 1).drop_last() =~= matches_view(pm).take(i as int));
        assert(matches_view(pm).take(i + 1).last() == match_view(pm@[i as int]));
        let b = chars_of(pm[i].0.as_str());
        if !(ends(&b, "non-") || ends(&b, "not ")) {
            let whole = chars_of(group_at(&pm[i].1, 0).as_str());
            let name = group_at(&pm[i].1, 2);
            let word = group_at(&pm[i].1, 1);
            found.push((name, ends(&whole, "element"), status(word.as_str())));
            assert(found_views(found@) =~= before.push(found_view(found@.last())));
        }
        i = i + 1;
    }
    assert(matches_view(pm).take(pm@.len() as int) =~= matches_view(pm));
    let ghost with_prefix = found_views(found@);
    let mut j: usize = 0;
    assert(matches_view(sm).take(0) =~= Seq::<(Seq<char>, Seq<Option<Seq<char>>>)>::empty());
    while j < sm.len()
        invariant
            j <= sm@.len(),
            found_views(found@) == with_prefix + suffix_found(matches_view(sm).take(j as int)),
        decreases sm@.len() - j,
    {
        let ghost before = found_views(found@);
        assert(matches_view(sm).take(j + 1).drop_last() =~= matches_view(sm).take(j as int));
        assert(matches_view(sm).take(j + 1).last() == match_view(sm@[j as int]));
        let whole = chars_of(group_at(&sm[j].1, 0).as_str());
        let name = group_at(&sm[j].1, 1);
        let word = group_at(&sm[j].1, 2);
        found.push((name, has_sub(&whole, " element "), status(word.as_str())));
        assert(found_views(found@) =~= before.push(found_view(found@.last())));
        j = j + 1;
    }
    assert(matches_view(sm).take(sm@.len() as int) =~= matches_view(sm));
    Ok(found)
}

/// The declarations one paragraph makes: its subject (from the enclosing
/// definition or heading) for "This property ..." statements, explicit
/// quoted subjects otherwise.
pub fn paragraph_declarations(prose: &str, subject: &Option<(String, bool)>) -> (r: Result<
    Vec<Found>,
    String,
>)
    ensures
        result_view(r) == paragraph_declarations_spec(prose@, subject_view(*subject)),
{
    let this_match = captures(THIS_PATTERN, prose);
    let prefix_matches = captures_all(PREFIX_PATTERN, prose);
    let suffix_matches = captures_all(SUFFIX_PATTERN, prose);
    declarations_from_matches(prose, subject, this_match, prefix_matches, suffix_matches)
}

// ---------------------------------------------------------------------------
// One chapter

/// Curly single quotes read as straight ones.
pub open spec fn straighten_spec(s: Seq<char>) -> Seq<char> {
    s.map_values(|c: char| if c == '\u{2018}' || c == '\u{2019}' { '\'' } else { c })
}

pub(crate) fn straighten(s: &str) -> (r: String)
    ensures
        r@ == straighten_spec(s@),
{
    let v = chars_of(s);
    let mut out = String::new();
    let mut i: usize = 0;
    while i < v.len()
        invariant
            i <= v@.len(),
            out@ == straighten_spec(v@.take(i as int)),
        decreases v@.len() - i,
    {
        let c = v[i];
        push_char(&mut out, if c == '\u{2018}' || c == '\u{2019}' { '\'' } else { c });
        i = i + 1;
        assert(straighten_spec(v@.take(i as int)) =~= straighten_spec(v@.take(i - 1)).push(
            if c == '\u{2018}' || c == '\u{2019}' { '\'' } else { c },
        ));
    }
    assert(v@.take(v@.len() as int) =~= v@);
    out
}

/// The prose of a tag: entities decoded, whitespace collapsed, curly quotes
/// straightened.
pub open spec fn tag_text(nodes: Seq<HtmlNode>, i: int) -> Seq<char> {
    straighten_spec(normalize_ws_spec(decode_spec(inner_text(nodes, i))))
}

fn text_of(nodes: &Vec<HtmlNode>, i: usize) -> (r: String)
    ensures
        r@ == tag_text(nodes@, i as int),
{
    let raw = inner_text_of(nodes, i);
    let n = normalize_html_ws(raw.as_str());
    straighten(n.as_str())
}

/// Markup whose content declares nothing: code, scripts, styles, deletions,
/// and issue, example and requirement boxes.
pub open spec fn excluded_tag(tag: HtmlTag) -> bool {
    ||| tag.name@ == "pre"@
    ||| tag.name@ == "script"@
    ||| tag.name@ == "style"@
    ||| tag.name@ == "del"@
    ||| has_class_spec(tag, "issue"@)
    ||| has_class_spec(tag, "example"@)
    ||| has_class_spec(tag, "requirement"@)
    ||| has_class_spec(tag, "svg2-requirement"@)
}

fn is_excluded(tag: &HtmlTag) -> (r: bool)
    ensures
        r == excluded_tag(*tag),
{
    let n = tag.name.as_str();
    str_eq(n, "pre") || str_eq(n, "script") || str_eq(n, "style") || str_eq(n, "del") || has_class(
        tag,
        "issue",
    ) || has_class(tag, "example") || has_class(tag, "requirement") || has_class(
        tag,
        "svg2-requirement",
    )
}

/// The source ranges of the excluded tags, in document order.
pub open spec fn excluded_ranges_spec(nodes: Seq<HtmlNode>) -> Seq<(usize, usize)>
    decreases nodes.len(),
{
    if nodes.len() == 0 {
        Seq::empty()
    } else {
        let prev = excluded_ranges_spec(nodes.drop_last());
        match nodes.last() {
            HtmlNode::Tag(t) => if excluded_tag(t) {
                prev.push((t.bounds.0, t.bounds.1))
            } else {
                prev
            },
            _ => prev,
        }
    }
}

fn excluded_ranges(nodes: &Vec<HtmlNode>) -> (r: Vec<(usize, usize)>)
    ensures
        r@ == excluded_ranges_spec(nodes@),
{
    let mut out: Vec<(usize, usize)> = Vec::new();
    let mut i: usize = 0;
    assert(nodes@.take(0) =~= Seq::<HtmlNode>::empty());
    while i < nodes.len()
        invariant
            i <= nodes@.len(),
            out@ == excluded_ranges_spec(nodes@.take(i as int)),
        decreases nodes@.len() - i,
    {
        assert(nodes@.take(i + 1).drop_last() =~= nodes@.take(i as int));
        assert(nodes@.take(i + 1).last() == nodes@[i as int]);
        if let HtmlNode::Tag(t) = &nodes[i] {
            if is_excluded(t) {
                out.push((t.bounds.0, t.bounds.1));
            }
        }
        i = i + 1;
    }
    assert(nodes@.take(nodes@.len() as int) =~= nodes@);
    out
}

/// Whether `tag` lies within one of `ranges`.
pub open spec fn inside(ranges: Seq<(usize, usize)>, tag: HtmlTag) -> bool {
    exists|k: int| 0 <= k < ranges.len() && ranges[k].0 <= tag.bounds.0 && tag.bounds.1 <= ranges[k].1
}

fn is_inside(ranges: &Vec<(usize, usize)>, tag: &HtmlTag) -> (r: bool)
    ensures
        r == inside(ranges@, *tag),
{
    let mut k: usize = 0;
    while k < ranges.len()
        invariant
            k <= ranges@.len(),
            forall|j: int|
                0 <= j < k ==> !(ranges@[j].0 <= tag.bounds.0 && tag.bounds.1 <= ranges@[j].1),
        decreases ranges@.len() - k,
    {
        if ranges[k].0 <= tag.bounds.0 && tag.bounds.1 <= ranges[k].1 {
            return true;
        }
        k = k + 1;
    }
    false
}

/// What the walk over a chapter knows at each tag: the current anchor, the
/// subject and bearer of the enclosing definition, and the declarations so
/// far.
pub struct ProseState {
    pub anchor: Seq<char>,
    pub subject: Option<(Seq<char>, bool)>,
    pub owner: Option<Seq<char>>,
    pub found: Seq<DeclView>,
}

pub open spec fn id_or_empty(tag: HtmlTag) -> Seq<char> {
    match attr_spec(tag.attributes@, "id"@) {
        Some(v) => v,
        None => Seq::empty(),
    }
}

fn id_of(tag: &HtmlTag) -> (r: String)
    ensures
        r@ == id_or_empty(*tag),
{
    match attr(tag, "id") {
        Some(v) => v,
        None => String::new(),
    }
}

pub open spec fn is_heading(n: Seq<char>) -> bool {
    n == "h1"@ || n == "h2"@ || n == "h3"@ || n == "h4"@ || n == "h5"@ || n == "h6"@
}

fn heading(n: &str) -> (r: bool)
    ensures
        r == is_heading(n@),
{
    str_eq(n, "h1") || str_eq(n, "h2") || str_eq(n, "h3") || str_eq(n, "h4") || str_eq(n, "h5")
        || str_eq(n, "h6")
}

/// The subject a heading names, from its `SUBJECT_PATTERN` match.
pub open spec fn subject_of(m: Option<Seq<Option<Seq<char>>>>) -> Option<(Seq<char>, bool)> {
    match m {
        Some(g) => Some((group(g, 1), group(g, 2) == "element"@)),
        None => None,
    }
}

/// The state after a heading: its anchor and subject; `None` when the
/// subject pattern does not compile.
pub open spec fn after_heading(st: ProseState, tag: HtmlTag, text: Seq<char>) -> Option<ProseState> {
    if is_heading(tag.name@) {
        match first_captures(SUBJECT_PATTERN@, text) {
            None => None,
            Some(m) => Some(
                ProseState { anchor: id_or_empty(tag), subject: subject_of(m), owner: None, found: st.found },
            ),
        }
    } else {
        Some(st)
    }
}

/// A definition of an element, attribute or property.
pub open spec fn lifecycle_dfn(tag: HtmlTag) -> bool {
    tag.name@ == "dfn"@ && match attr_spec(tag.attributes@, "data-dfn-type"@) {
        Some(t) => t == "element-attr"@ || t == "property"@ || t == "element"@,
        None => false,
    }
}

/// The bearer a definition is local to, unless it names a whole category.
pub open spec fn dfn_owner(tag: HtmlTag) -> Option<Seq<char>> {
    match attr_spec(tag.attributes@, "data-dfn-for"@) {
        Some(v) => if v.len() > 0 && !ends_with(v, "-attributes"@) {
            Some(v)
        } else {
            None
        },
        None => None,
    }
}

pub open spec fn after_dfn(st: ProseState, tag: HtmlTag, text: Seq<char>) -> ProseState {
    if lifecycle_dfn(tag) {
        ProseState {
            anchor: id_or_empty(tag),
            subject: Some(
                (text, attr_spec(tag.attributes@, "data-dfn-type"@) == Some("element"@)),
            ),
            owner: dfn_owner(tag),
            found: st.found,
        }
    } else {
        st
    }
}

/// The words of `s` separated by commas and spaces, with the word being read.
pub open spec fn split_state(s: Seq<char>) -> (Seq<Seq<char>>, Seq<char>)
    decreases s.len(),
{
    if s.len() == 0 {
        (Seq::empty(), Seq::empty())
    } else {
        let (done, cur) = split_state(s.drop_last());
        let c = s.last();
        if c == ',' || c == ' ' {
            if cur.len() > 0 {
                (done.push(cur), Seq::empty())
            } else {
                (done, Seq::empty())
            }
        } else {
            (done, cur.push(c))
        }
    }
}

/// The non-empty words of `s` separated by commas and spaces.
pub open spec fn owner_tokens(s: Seq<char>) -> Seq<Seq<char>> {
    let (done, cur) = split_state(s);
    if cur.len() > 0 {
        done.push(cur)
    } else {
        done
    }
}

pub fn split_owners(s: &str) -> (r: Vec<String>)
    ensures
        crate::text::string_seqs(r@) == owner_tokens(s@),
{
    let v = chars_of(s);
    let mut done: Vec<String> = Vec::new();
    let mut cur = String::new();
    let mut i: usize = 0;
    assert(v@.take(0) =~= Seq::<char>::empty());
    assert(crate::text::string_seqs(done@) =~= Seq::<Seq<char>>::empty());
    while i < v.len()
        invariant
            i <= v@.len(),
            (crate::text::string_seqs(done@), cur@) == split_state(v@.take(i as int)),
        decreases v@.len() - i,
    {
        assert(v@.take(i + 1).drop_last() =~= v@.take(i as int));
        assert(v@.take(i + 1).last() == v@[i as int]);
        let c = v[i];
        if c == ',' || c == ' ' {
            if !cur.as_str().is_empty() {
                let ghost before = crate::text::string_seqs(done@);
                let w = cur;
                done.push(w);
                cur = String::new();
                assert(crate::text::string_seqs(done@) =~= before.push(done@.last()@));
            } else {
                cur = String::new();
            }
        } else {
            push_char(&mut cur, c);
        }
        i = i + 1;
    }
    assert(v@.take(v@.len() as int) =~= v@);
    if !cur.as_str().is_empty() {
        let ghost before = crate::text::string_seqs(done@);
        done.push(cur);
        assert(crate::text::string_seqs(done@) =~= before.push(done@.last()@));
    }
    done
}

pub open spec fn context_of(st: ProseState, name: Seq<char>) -> Option<Seq<char>> {
    match st.subject {
        Some((n, _)) => if n == name {
            st.owner
        } else {
            None
        },
        None => None,
    }
}

/// The bearers a declaration applies to: each listed one, or none in
/// particular.
pub open spec fn owners_of(context: Option<Seq<char>>) -> Seq<Option<Seq<char>>> {
    match context {
        None => seq![None],
        Some(v) => owner_tokens(v).map_values(|t: Seq<char>| Some(t)),
    }
}

pub open spec fn source_ref(source: Seq<char>, anchor: Seq<char>) -> Seq<char> {
    source + "#"@ + anchor
}

pub open spec fn decls_for(
    st: ProseState,
    f: (Seq<char>, bool, CatalogDeclaredStatus),
    source: Seq<char>,
) -> Seq<DeclView> {
    owners_of(context_of(st, f.0)).map_values(
        |o: Option<Seq<char>>|
            DeclView { name: f.0, element: f.1, owner: o, status: f.2, source: source_ref(source, st.anchor) },
    )
}

pub open spec fn no_anchor_error(source: Seq<char>, name: Seq<char>) -> Seq<char> {
    source + ": lifecycle declaration for "@ + name + " has no source anchor"@
}

/// The declarations so far followed by those of a paragraph's findings.
pub open spec fn add_found(
    st: ProseState,
    found: Seq<(Seq<char>, bool, CatalogDeclaredStatus)>,
    source: Seq<char>,
) -> Result<Seq<DeclView>, Seq<char>>
    decreases found.len(),
{
    if found.len() == 0 {
        Ok(st.found)
    } else {
        match add_found(st, found.drop_last(), source) {
            Err(e) => Err(e),
            Ok(acc) => if st.anchor.len() == 0 {
                Err(no_anchor_error(source, found.last().0))
            } else {
                Ok(acc + decls_for(st, found.last(), source))
            },
        }
    }
}

proof fn lemma_add_found_err(
    st: ProseState,
    fv: Seq<(Seq<char>, bool, CatalogDeclaredStatus)>,
    source: Seq<char>,
    k: int,
    m: int,
)
    requires
        0 <= k <= m <= fv.len(),
        add_found(st, fv.take(k), source) is Err,
    ensures
        add_found(st, fv.take(m), source) == add_found(st, fv.take(k), source),
    decreases m - k,
{
    if k < m {
        assert(fv.take(k + 1).drop_last() =~= fv.take(k));
        lemma_add_found_err(st, fv, source, k + 1, m);
    }
}

pub open spec fn paragraph_error(source: Seq<char>, anchor: Seq<char>, e: Seq<char>) -> Seq<char> {
    source + "#"@ + anchor + ": "@ + e
}

/// The walk's state after one node.
pub open spec fn step(
    ranges: Seq<(usize, usize)>,
    st: ProseState,
    nodes: Seq<HtmlNode>,
    i: int,
    source: Seq<char>,
) -> Result<ProseState, Seq<char>> {
    match nodes[i] {
        HtmlNode::Tag(tag) => if inside(ranges, tag) {
            Ok(st)
        } else {
            let text = tag_text(nodes, i);
            match after_heading(st, tag, text) {
                None => Err(pattern_error()),
                Some(s1) => {
                    let s2 = after_dfn(s1, tag, text);
                    if tag.name@ != "p"@ {
                        Ok(s2)
                    } else {
                        match paragraph_declarations_spec(text, s2.subject) {
                            Err(e) => Err(paragraph_error(source, s2.anchor, e)),
                            Ok(found) => match add_found(s2, found, source) {
                                Err(e) => Err(e),
                                Ok(all) => Ok(
                                    ProseState {
                                        anchor: s2.anchor,
                                        subject: s2.subject,
                                        owner: s2.owner,
                                        found: all,
                                    },
                                ),
                            },
                        }
                    }
                },
            }
        },
        _ => Ok(st),
    }
}

pub open spec fn initial_state() -> ProseState {
    ProseState { anchor: Seq::empty(), subject: None, owner: None, found: Seq::empty() }
}

/// The walk over the first `n` of `nodes`.
pub open spec fn walk(ranges: Seq<(usize, usize)>, nodes: Seq<HtmlNode>, n: int, source: Seq<char>) -> Result<
    ProseState,
    Seq<char>,
>
    decreases n,
{
    if n <= 0 {
        Ok(initial_state())
    } else {
        match walk(ranges, nodes, n - 1, source) {
            Err(e) => Err(e),
            Ok(st) => step(ranges, st, nodes, n - 1, source),
        }
    }
}

pub open spec fn parse_error() -> Seq<char> {
    "HTML document could not be parsed"@
}

/// The declarations of a chapter with parsed nodes `nodes`, or why they
/// could not be read.
pub open spec fn extract_spec(nodes: Seq<HtmlNode>, source: Seq<char>) -> Result<Seq<DeclView>, Seq<char>> {
    match walk(excluded_ranges_spec(nodes), nodes, nodes.len() as int, source) {
        Ok(st) => Ok(st.found),
        Err(e) => Err(e),
    }
}

/// Whether `r` is what reading the chapter `html` gives: the parse error, or
/// the declarations of the nodes the page parses to.
pub open spec fn extract_result(r: Result<Seq<DeclView>, Seq<char>>, html: Seq<char>, source: Seq<char>) -> bool {
    match parsed_html(html) {
        None => r == Err::<Seq<DeclView>, Seq<char>>(parse_error()),
        Some(parsed) => exists|nodes: Seq<HtmlNode>|
            #![trigger views(nodes)]
            views(nodes) == parsed && extract_spec(nodes, source) == r,
    }
}

pub open spec fn view_state(
    anchor: String,
    subject: Option<(String, bool)>,
    owner: Option<String>,
    found: Seq<Declaration>,
) -> ProseState {
    ProseState {
        anchor: anchor@,
        subject: subject_view(subject),
        owner: opt_str(owner),
        found: decl_views(found),
    }
}

fn context_for(subject: &Option<(String, bool)>, owner: &Option<String>, name: &String) -> (r:
    Option<String>)
    ensures
        opt_str(r) == context_of(
            ProseState { anchor: Seq::empty(), subject: subject_view(*subject), owner: opt_str(*owner), found: Seq::empty() },
            name@,
        ),
{
    match subject {
        Some((n, _)) => {
            if str_eq(n.as_str(), name.as_str()) {
                match owner {
                    Some(o) => Some(o.clone()),
                    None => None,
                }
            } else {
                None
            }
        },
        None => None,
    }
}

fn owners_for(context: &Option<String>) -> (r: Vec<Option<String>>)
    ensures
        r@.map_values(|o: Option<String>| opt_str(o)) == owners_of(opt_str(*context)),
{
    match context {
        None => {
            let r: Vec<Option<String>> = vec![None];
            assert(r@.map_values(|o: Option<String>| opt_str(o)) =~= seq![None::<Seq<char>>]);
            r
        },
        Some(v) => {
            let tokens = split_owners(v.as_str());
            let mut r: Vec<Option<String>> = Vec::new();
            let mut i: usize = 0;
            while i < tokens.len()
                invariant
                    i <= tokens@.len(),
                    crate::text::string_seqs(tokens@) == owner_tokens(v@),
                    r@.map_values(|o: Option<String>| opt_str(o)) =~= owner_tokens(v@).take(
                        i as int,
                    ).map_values(|t: Seq<char>| Some(t)),
                decreases tokens@.len() - i,
            {
                assert(crate::text::string_seqs(tokens@)[i as int] == tokens@[i as int]@);
                let ghost before = r@.map_values(|o: Option<String>| opt_str(o));
                r.push(Some(tokens[i].clone()));
                assert(r@.map_values(|o: Option<String>| opt_str(o)) =~= before.push(
                    Some(tokens@[i as int]@),
                ));
                assert(owner_tokens(v@).take(i + 1) =~= owner_tokens(v@).take(i as int).push(
                    tokens@[i as int]@,
                ));
                i = i + 1;
                assert(r@.map_values(|o: Option<String>| opt_str(o)) =~= owner_tokens(v@).take(
                    i as int,
                ).map_values(|t: Seq<char>| Some(t)));
            }
            assert(owner_tokens(v@).take(tokens@.len() as int) =~= owner_tokens(v@));
            r
        },
    }
}

/// Appends the declarations a paragraph's findings make, in order; fails on
/// the first finding when no anchor locates the paragraph.
fn add_paragraph(
    found: &Vec<Found>,
    anchor: &String,
    subject: &Option<(String, bool)>,
    owner: &Option<String>,
    source: &str,
    out: &mut Vec<Declaration>,
) -> (r: Result<(), String>)
    ensures
        match add_found(
            view_state(*anchor, *subject, *owner, old(out)@),
            found_views(found@),
            source@,
        ) {
            Ok(all) => r is Ok && decl_views(final(out)@) == all,
            Err(e) => r matches Err(m) && m@ == e,
        },
{
    let ghost st = view_state(*anchor, *subject, *owner, old(out)@);
    let ghost fv = found_views(found@);
    let src = concat3(source, "#", anchor.as_str());
    let mut i: usize = 0;
    assert(fv.take(0) =~= Seq::<(Seq<char>, bool, CatalogDeclaredStatus)>::empty());
    while i < found.len()
        invariant
            i <= found@.len(),
            fv == found_views(found@),
            st == view_state(*anchor, *subject, *owner, old(out)@),
            src@ == source_ref(source@, anchor@),
            add_found(st, fv.take(i as int), source@) == Ok::<Seq<DeclView>, Seq<char>>(
                decl_views(out@),
            ),
        decreases found@.len() - i,
    {
        assert(fv.take(i + 1).drop_last() =~= fv.take(i as int));
        assert(fv.take(i + 1).last() == found_view(found@[i as int]));
        let name = &found[i].0;
        if anchor.as_str().is_empty() {
            proof {
                reveal_strlit(": lifecycle declaration for ");
                reveal_strlit(" has no source anchor");
            }
            let mut msg = concat3(source, ": lifecycle declaration for ", name.as_str());
            push_str(&mut msg, " has no source anchor");
            proof {
                let ghost e = no_anchor_error(source@, name@);
                assert(msg@ =~= e);
                lemma_add_found_err(st, fv, source@, i + 1, fv.len() as int);
                assert(fv.take(fv.len() as int) =~= fv);
            }
            return Err(msg);
        }
        let context = context_for(subject, owner, name);
        let owners = owners_for(&context);
        let ghost before = decl_views(out@);
        let mut j: usize = 0;
        while j < owners.len()
            invariant
                j <= owners@.len(),
                i < found@.len(),
                src@ == source_ref(source@, anchor@),
                decl_views(out@) =~= before + decls_for(st, found_view(found@[i as int]), source@).take(
                    j as int,
                ),
                owners@.map_values(|o: Option<String>| opt_str(o)) == owners_of(opt_str(context)),
                opt_str(context) == context_of(st, name@),
                name == &found@[i as int].0,
                st.anchor == anchor@,
            decreases owners@.len() - j,
        {
            let ghost mid = decl_views(out@);
            let d = Declaration {
                name: name.clone(),
                element: found[i].1,
                owner: match &owners[j] {
                    Some(o) => Some(o.clone()),
                    None => None,
                },
                fact: CatalogLifecycleDeclaration { status: found[i].2, source: src.clone() },
            };
            assert(opt_str(d.owner) == opt_str(owners@[j as int]));
            assert(owners@.map_values(|o: Option<String>| opt_str(o))[j as int] == opt_str(
                owners@[j as int],
            ));
            out.push(d);
            j = j + 1;
            assert(decl_views(out@) =~= mid.push(decl_view(d)));
            assert(decls_for(st, found_view(found@[i as int]), source@).take(j as int) =~= decls_for(
                st,
                found_view(found@[i as int]),
                source@,
            ).take(j - 1).push(decl_view(d)));
        }
        assert(decls_for(st, found_view(found@[i as int]), source@).take(owners@.len() as int)
            =~= decls_for(st, found_view(found@[i as int]), source@));
        i = i + 1;
    }
    assert(fv.take(found@.len() as int) =~= fv);
    Ok(())
}

fn is_lifecycle_dfn(tag: &HtmlTag) -> (r: bool)
    ensures
        r == lifecycle_dfn(*tag),
{
    if !str_eq(tag.name.as_str(), "dfn") {
        return false;
    }
    match attr(tag, "data-dfn-type") {
        Some(t) => str_eq(t.as_str(), "element-attr") || str_eq(t.as_str(), "property") || str_eq(
            t.as_str(),
            "element",
        ),
        None => false,
    }
}

fn dfn_owner_of(tag: &HtmlTag) -> (r: Option<String>)
    ensures
        opt_str(r) == dfn_owner(*tag),
{
    match attr(tag, "data-dfn-for") {
        Some(v) => {
            let c = chars_of(v.as_str());
            if !v.as_str().is_empty() && !ends(&c, "-attributes") {
                Some(v)
            } else {
                None
            }
        },
        None => None,
    }
}

/// Extract the lifecycle declarations of one chapter. Definitions and
/// headings supply the subject for "this property" statements; explicit
/// quoted subjects stand alone. Every declaration is located by
/// `source#anchor`.
pub fn extract(html: &str, source: &str) -> (r: Result<Vec<Declaration>, RegenError>)
    ensures
        match r {
            Ok(v) => extract_result(Ok(decl_views(v@)), html@, source@),
            Err(e) => extract_result(Err(e.message@), html@, source@),
        },
{
    let nodes = match parse_html(html) {
        Some(n) => n,
        None => return Err(boxed("HTML document could not be parsed")),
    };
    let r = extract_from_nodes(&nodes, source);
    assert(views(nodes@) == views(nodes@));
    r
}

/// The lifecycle declarations of a parsed chapter page, or the first
/// failure.
pub fn extract_from_nodes(nodes: &Vec<HtmlNode>, source: &str) -> (r: Result<Vec<Declaration>, RegenError>)
    ensures
        match r {
            Ok(v) => extract_spec(nodes@, source@) == Ok::<Seq<DeclView>, Seq<char>>(decl_views(v@)),
            Err(e) => extract_spec(nodes@, source@) == Err::<Seq<DeclView>, Seq<char>>(e.message@),
        },
{
    let ranges = excluded_ranges(nodes);
    let mut anchor = String::new();
    let mut subject: Option<(String, bool)> = None;
    let mut owner: Option<String> = None;
    let mut result: Vec<Declaration> = Vec::new();
    let mut i: usize = 0;
    assert(nodes@.take(0) =~= Seq::<HtmlNode>::empty());
    assert(anchor@ =~= Seq::<char>::empty());
    assert(decl_views(result@) =~= Seq::<DeclView>::empty());
    assert(view_state(anchor, subject, owner, result@) == initial_state());
    while i < nodes.len()
        invariant
            i <= nodes@.len(),
            ranges@ == excluded_ranges_spec(nodes@),
            walk(ranges@, nodes@, i as int, source@) == Ok::<ProseState, Seq<char>>(
                view_state(anchor, subject, owner, result@),
            ),
        decreases nodes@.len() - i,
    {
        let ghost st0 = view_state(anchor, subject, owner, result@);
        if let HtmlNode::Tag(tag) = &nodes[i] {
            if !is_inside(&ranges, tag) {
                let name = tag.name.as_str();
                if heading(name) {
                    let t = text_of(nodes, i);
                    match captures(SUBJECT_PATTERN, t.as_str()) {
                        None => {
                            proof {
                                lemma_walk_err(ranges@, nodes@, source@, i + 1, nodes@.len() as int);
                            }
                            return Err(boxed("lifecycle pattern does not compile"));
                        },
                        Some(m) => {
                            anchor = id_of(tag);
                            subject = match m {
                                Some(g) => {
                                    let n = group_at(&g, 1);
                                    let k = group_at(&g, 2);
                                    Some((n, str_eq(k.as_str(), "element")))
                                },
                                None => None,
                            };
                            owner = None;
                        },
                    }
                }
                let ghost st1 = view_state(anchor, subject, owner, result@);
                assert(after_heading(st0, *tag, tag_text(nodes@, i as int)) == Some(st1));
                if is_lifecycle_dfn(tag) {
                    anchor = id_of(tag);
                    let element = match attr(tag, "data-dfn-type") {
                        Some(v) => str_eq(v.as_str(), "element"),
                        None => false,
                    };
                    subject = Some((text_of(nodes, i), element));
                    owner = dfn_owner_of(tag);
                }
                let ghost st2 = view_state(anchor, subject, owner, result@);
                assert(after_dfn(st1, *tag, tag_text(nodes@, i as int)) == st2);
                if str_eq(name, "p") {
                    let t = text_of(nodes, i);
                    match paragraph_declarations(t.as_str(), &subject) {
                        Err(e) => {
                            let mut msg = concat3(source, "#", anchor.as_str());
                            push_str(&mut msg, ": ");
                            push_str(&mut msg, e.as_str());
                            proof {
                                assert(msg@ =~= paragraph_error(source@, anchor@, e@));
                                lemma_walk_err(ranges@, nodes@, source@, i + 1, nodes@.len() as int);
                            }
                            return Err(RegenError { message: msg });
                        },
                        Ok(found) => {
                            match add_paragraph(&found, &anchor, &subject, &owner, source, &mut result) {
                                Err(e) => {
                                    proof {
                                        lemma_walk_err(ranges@, nodes@, source@, i + 1, nodes@.len() as int);
                                    }
                                    return Err(RegenError { message: e });
                                },
                                Ok(()) => {},
                            }
                        },
                    }
                }
            }
        }
        i = i + 1;
    }
    Ok(result)
}

proof fn lemma_walk_err(
    ranges: Seq<(usize, usize)>,
    nodes: Seq<HtmlNode>,
    source: Seq<char>,
    k: int,
    m: int,
)
    requires
        0 <= k <= m <= nodes.len(),
        walk(ranges, nodes, k, source) is Err,
    ensures
        walk(ranges, nodes, m, source) == walk(ranges, nodes, k, source),
    decreases m - k,
{
    if k < m {
        lemma_walk_err(ranges, nodes, source, k + 1, m);
    }
}

// ---------------------------------------------------------------------------
// The chapters of an edition

/// Where the chapters of an edition are read from: the pinned commit of the
/// editor's draft, or the dated publication.
pub open spec fn lifecycle_base_spec(profile: SpecSnapshotId, commit: Seq<char>) -> Seq<char> {
    match profile {
        SpecSnapshotId::Svg2EditorsDraft => "https://raw.githubusercontent.com/w3c/svgwg/"@ + commit
            + "/master/"@,
        SpecSnapshotId::Svg11Rec20030114 => "https://www.w3.org/TR/2003/REC-SVG11-20030114/"@,
        SpecSnapshotId::Svg11Rec20110816 => "https://www.w3.org/TR/2011/REC-SVG11-20110816/"@,
        SpecSnapshotId::Svg2Cr20181004 => "https://www.w3.org/TR/2018/CR-SVG2-20181004/"@,
    }
}

pub fn lifecycle_base(profile: SpecSnapshotId, commit: &str) -> (r: String)
    ensures
        r@ == lifecycle_base_spec(profile, commit@),
{
    match profile {
        SpecSnapshotId::Svg2EditorsDraft => concat3(
            "https://raw.githubusercontent.com/w3c/svgwg/",
            commit,
            "/master/",
        ),
        SpecSnapshotId::Svg11Rec20030114 => "https://www.w3.org/TR/2003/REC-SVG11-20030114/".to_owned(),
        SpecSnapshotId::Svg11Rec20110816 => "https://www.w3.org/TR/2011/REC-SVG11-20110816/".to_owned(),
        SpecSnapshotId::Svg2Cr20181004 => "https://www.w3.org/TR/2018/CR-SVG2-20181004/".to_owned(),
    }
}

/// The table of contents whose links discover a dated edition's chapters;
/// the editor's draft lists its chapters itself.
pub open spec fn lifecycle_overview_spec(profile: SpecSnapshotId) -> Option<Seq<char>> {
    match profile {
        SpecSnapshotId::Svg2EditorsDraft => None,
        SpecSnapshotId::Svg11Rec20030114 => Some(lifecycle_base_spec(profile, Seq::empty())),
        _ => Some(lifecycle_base_spec(profile, Seq::empty()) + "Overview.html"@),
    }
}

pub fn lifecycle_overview_url(profile: SpecSnapshotId) -> (r: Option<String>)
    ensures
        opt_str(r) == lifecycle_overview_spec(profile),
{
    match profile {
        SpecSnapshotId::Svg2EditorsDraft => None,
        SpecSnapshotId::Svg11Rec20030114 => Some(lifecycle_base(profile, "")),
        _ => Some(concat(lifecycle_base(profile, "").as_str(), "Overview.html")),
    }
}

/// The pages of the editor's draft chapters, sorted, each once.
pub open spec fn draft_pages_spec(names: Seq<Seq<char>>) -> Seq<Seq<char>> {
    sorted_names(names.map_values(|n: Seq<char>| n + ".html"@))
}

pub fn draft_chapter_pages(names: &[String]) -> (r: Vec<String>)
    ensures
        string_seqs(r@) == draft_pages_spec(string_seqs(names@)),
{
    let mut pages: Vec<String> = Vec::new();
    let mut i: usize = 0;
    while i < names.len()
        invariant
            i <= names@.len(),
            string_seqs(pages@) =~= string_seqs(names@).take(i as int).map_values(
                |n: Seq<char>| n + ".html"@,
            ),
        decreases names@.len() - i,
    {
        let ghost before = string_seqs(pages@);
        pages.push(concat(names[i].as_str(), ".html"));
        assert(string_seqs(pages@) =~= before.push(names@[i as int]@ + ".html"@));
        i = i + 1;
    }
    assert(string_seqs(names@).take(names@.len() as int) =~= string_seqs(names@));
    sort_names(pages)
}

/// The text of `s` before its first `#`.
pub open spec fn before_hash(s: Seq<char>) -> Seq<char> {
    s.take(crate::text::index_of_spec(s, 0, '#'))
}

/// The position of the last `.` of `s`, if any.
pub open spec fn last_dot(s: Seq<char>, j: int) -> Option<int>
    decreases j,
{
    if j <= 0 {
        None
    } else if s[j - 1] == '.' {
        Some(j - 1)
    } else {
        last_dot(s, j - 1)
    }
}

/// Whether a page name (with no directory part) has the `html` extension, as
/// `Path::extension` reads it: after the last dot, which does not start the
/// name.
pub open spec fn html_extension(page: Seq<char>) -> bool {
    match last_dot(page, page.len() as int) {
        Some(k) => k > 0 && eq_ignore_case_spec(page.skip(k + 1), "html"@),
        None => false,
    }
}

/// A chapter page a table-of-contents link points at: a local `.html` page
/// other than the overview itself.
pub open spec fn chapter_link(href: Seq<char>) -> Option<Seq<char>> {
    let page = before_hash(href);
    if html_extension(page) && !page.contains('/') && !page.contains(':') && page
        != "Overview.html"@ {
        Some(page)
    } else {
        None
    }
}

/// The chapter pages the anchors of a table of contents link to.
pub open spec fn linked_pages(nodes: Seq<HtmlNode>) -> Seq<Seq<char>>
    decreases nodes.len(),
{
    if nodes.len() == 0 {
        Seq::empty()
    } else {
        let prev = linked_pages(nodes.drop_last());
        match nodes.last() {
            HtmlNode::Tag(t) => if t.name@ == "a"@ {
                match attr_spec(t.attributes@, "href"@) {
                    Some(h) => match chapter_link(h) {
                        Some(p) => prev.push(p),
                        None => prev,
                    },
                    None => prev,
                }
            } else {
                prev
            },
            _ => prev,
        }
    }
}

fn find_last_dot(v: &Vec<char>) -> (r: Option<usize>)
    ensures
        r matches Some(k) ==> k < v@.len() && last_dot(v@, v@.len() as int) == Some(k as int),
        r is None ==> last_dot(v@, v@.len() as int) is None,
{
    let mut j = v.len();
    while j > 0
        invariant
            j <= v@.len(),
            last_dot(v@, v@.len() as int) == last_dot(v@, j as int),
        decreases j,
    {
        if v[j - 1] == '.' {
            return Some(j - 1);
        }
        j = j - 1;
    }
    None
}

fn chapter_page(href: &str) -> (r: Option<String>)
    ensures
        opt_str(r) == chapter_link(href@),
{
    let v = chars_of(href);
    let h = crate::text::index_of(&v, 0, '#');
    let page = crate::text::sub_vec(&v, 0, h);
    assert(page@ =~= before_hash(href@));
    let ld = find_last_dot(&page);
    let mut ext = false;
    if let Some(k) = ld {
        assert(last_dot(page@, page@.len() as int) == Some(k as int));
        let tail = crate::text::sub_vec(&page, k + 1, page.len());
        let html = chars_of("html");
        assert(tail@ =~= page@.skip(k + 1));
        ext = k > 0 && eq_ignore_case(&tail, &html);
        assert(ext == html_extension(page@));
    } else {
        assert(last_dot(page@, page@.len() as int) is None);
    }
    let slash = crate::text::index_of(&page, 0, '/') < page.len();
    let colon = crate::text::index_of(&page, 0, ':') < page.len();
    let s = crate::text::string_of(&page);
    assert(slash == page@.contains('/')) by {
        if page@.contains('/') {
            let k = choose|k: int| 0 <= k < page@.len() && page@[k] == '/';
            assert(crate::text::index_of_spec(page@, 0, '/') <= k);
        }
    }
    assert(colon == page@.contains(':')) by {
        if page@.contains(':') {
            let k = choose|k: int| 0 <= k < page@.len() && page@[k] == ':';
            assert(crate::text::index_of_spec(page@, 0, ':') <= k);
        }
    }
    assert(ext == html_extension(page@));
    assert(s@ == page@);
    if ext && !slash && !colon && !str_eq(s.as_str(), "Overview.html") {
        Some(s)
    } else {
        None
    }
}

pub open spec fn no_chapters_error(base: Seq<char>) -> Seq<char> {
    base + ": no chapters discovered for lifecycle extraction"@
}

/// The chapters a dated edition's table of contents links to, sorted, each
/// once; an error when it links to none.
pub open spec fn overview_chapters_spec(nodes: Seq<HtmlNode>, base: Seq<char>) -> Result<
    Seq<Seq<char>>,
    Seq<char>,
> {
    let pages = sorted_names(linked_pages(nodes));
    if pages.len() == 0 {
        Err(no_chapters_error(base))
    } else {
        Ok(pages)
    }
}

/// Whether `r` is what reading the table of contents `overview` gives.
pub open spec fn overview_result(r: Result<Seq<Seq<char>>, Seq<char>>, overview: Seq<char>, base: Seq<char>) -> bool {
    match parsed_html(overview) {
        None => r == Err::<Seq<Seq<char>>, Seq<char>>(parse_error()),
        Some(parsed) => exists|nodes: Seq<HtmlNode>|
            #![trigger views(nodes)]
            views(nodes) == parsed && overview_chapters_spec(nodes, base) == r,
    }
}

pub fn overview_chapters(overview: &str, base: &str) -> (r: Result<Vec<String>, RegenError>)
    ensures
        match r {
            Ok(v) => overview_result(Ok(string_seqs(v@)), overview@, base@),
            Err(e) => overview_result(Err(e.message@), overview@, base@),
        },
{
    let nodes = match parse_html(overview) {
        Some(n) => n,
        None => return Err(boxed("HTML document could not be parsed")),
    };
    let r = overview_from_nodes(&nodes, base);
    assert(views(nodes@) == views(nodes@));
    r
}

/// The chapter pages a parsed table of contents links to, in name order,
/// or the error when it links to none.
pub fn overview_from_nodes(nodes: &Vec<HtmlNode>, base: &str) -> (r: Result<Vec<String>, RegenError>)
    ensures
        match r {
            Ok(v) => overview_chapters_spec(nodes@, base@) == Ok::<Seq<Seq<char>>, Seq<char>>(string_seqs(v@)),
            Err(e) => overview_chapters_spec(nodes@, base@) == Err::<Seq<Seq<char>>, Seq<char>>(e.message@),
        },
{
    let mut pages: Vec<String> = Vec::new();
    let mut i: usize = 0;
    assert(nodes@.take(0) =~= Seq::<HtmlNode>::empty());
    while i < nodes.len()
        invariant
            i <= nodes@.len(),
            string_seqs(pages@) == linked_pages(nodes@.take(i as int)),
        decreases nodes@.len() - i,
    {
        assert(nodes@.take(i + 1).drop_last() =~= nodes@.take(i as int));
        assert(nodes@.take(i + 1).last() == nodes@[i as int]);
        let ghost before = string_seqs(pages@);
        if let HtmlNode::Tag(t) = &nodes[i] {
            if str_eq(t.name.as_str(), "a") {
                if let Some(h) = attr(t, "href") {
                    if let Some(p) = chapter_page(h.as_str()) {
                        pages.push(p);
                        assert(string_seqs(pages@) =~= before.push(pages@.last()@));
                    }
                }
            }
        }
        i = i + 1;
    }
    assert(nodes@.take(nodes@.len() as int) =~= nodes@);
    let sorted = sort_names(pages);
    if sorted.len() == 0 {
        proof {
            reveal_strlit(": no chapters discovered for lifecycle extraction");
        }
        return Err(RegenError { message: concat(base, ": no chapters discovered for lifecycle extraction") });
    }
    Ok(sorted)
}

/// Pages that describe other editions or index the whole specification, and
/// so declare nothing for this one.
pub open spec fn skipped_page_spec(page: Seq<char>) -> bool {
    page == "single-page.html"@ || page == "changes.html"@ || page == "eltindex.html"@ || page
        == "attindex.html"@ || page == "propidx.html"@ || page == "idlindex.html"@
}

pub fn is_skipped_page(page: &str) -> (r: bool)
    ensures
        r == skipped_page_spec(page@),
{
    str_eq(page, "single-page.html") || str_eq(page, "changes.html") || str_eq(
        page,
        "eltindex.html",
    ) || str_eq(page, "attindex.html") || str_eq(page, "propidx.html") || str_eq(
        page,
        "idlindex.html",
    )
}

// ---------------------------------------------------------------------------
// Declarations of an edition, by subject

pub open spec fn owner_lt(a: Option<Seq<char>>, b: Option<Seq<char>>) -> bool {
    match (a, b) {
        (None, Some(_)) => true,
        (Some(x), Some(y)) => seq_lt(x, y),
        _ => false,
    }
}

/// The order of subjects: attributes before elements, then by name, then
/// by bearer (none first).
pub open spec fn key_lt(a: DeclView, b: DeclView) -> bool {
    ||| !a.element && b.element
    ||| a.element == b.element && seq_lt(a.name, b.name)
    ||| a.element == b.element && a.name == b.name && owner_lt(a.owner, b.owner)
}

pub open spec fn same_key(a: DeclView, b: DeclView) -> bool {
    a.element == b.element && a.name == b.name && a.owner == b.owner
}

/// Strictly increasing by subject: each subject at most once.
pub open spec fn keyed(s: Seq<DeclView>) -> bool {
    forall|i: int, j: int| 0 <= i < j < s.len() ==> key_lt(#[trigger] s[i], #[trigger] s[j])
}

pub proof fn lemma_key_order(a: DeclView, b: DeclView, c: DeclView)
    ensures
        !key_lt(a, a),
        key_lt(a, b) ==> !key_lt(b, a),
        !same_key(a, b) ==> key_lt(a, b) || key_lt(b, a),
        key_lt(a, b) && key_lt(b, c) ==> key_lt(a, c),
{
    lemma_seq_lt_total(a.name, b.name);
    lemma_seq_lt_total(a.name, a.name);
    if a.name == b.name && a.owner is Some && b.owner is Some {
        lemma_seq_lt_total(a.owner->0, b.owner->0);
    }
    if a.owner is Some {
        lemma_seq_lt_total(a.owner->0, a.owner->0);
    }
    if key_lt(a, b) && key_lt(b, c) {
        if seq_lt(a.name, b.name) && seq_lt(b.name, c.name) {
            lemma_seq_lt_trans(a.name, b.name, c.name);
        }
        if a.owner is Some && b.owner is Some && c.owner is Some && seq_lt(a.owner->0, b.owner->0)
            && seq_lt(b.owner->0, c.owner->0) {
            lemma_seq_lt_trans(a.owner->0, b.owner->0, c.owner->0);
        }
    }
}

/// The position of the first subject not before `d`'s.
pub open spec fn key_pos(s: Seq<DeclView>, d: DeclView, j: int) -> int
    decreases s.len() - j,
{
    if j < 0 || j >= s.len() {
        s.len() as int
    } else if !key_lt(s[j], d) {
        j
    } else {
        key_pos(s, d, j + 1)
    }
}

pub open spec fn conflict_error(name: Seq<char>, first: Seq<char>, second: Seq<char>) -> Seq<char> {
    "conflicting lifecycle declarations for "@ + name + ": "@ + first + " and "@ + second
}

/// The declarations by subject after adding `d`: kept once when its subject
/// is already declared with the same status, an error when with another.
pub open spec fn index_add(s: Seq<DeclView>, d: DeclView) -> Result<Seq<DeclView>, Seq<char>> {
    if exists|k: int| 0 <= k < s.len() && same_key(#[trigger] s[k], d) {
        let k = choose|k: int| 0 <= k < s.len() && same_key(#[trigger] s[k], d);
        if s[k].status != d.status {
            Err(conflict_error(d.name, s[k].source, d.source))
        } else {
            Ok(s)
        }
    } else {
        let p = key_pos(s, d, 0);
        Ok(s.take(p).push(d) + s.skip(p))
    }
}

/// Adding each declaration in turn, stopping at the first conflict.
pub open spec fn index_add_all(s: Seq<DeclView>, ds: Seq<DeclView>) -> Result<Seq<DeclView>, Seq<char>>
    decreases ds.len(),
{
    if ds.len() == 0 {
        Ok(s)
    } else {
        match index_add_all(s, ds.drop_last()) {
            Err(e) => Err(e),
            Ok(t) => index_add(t, ds.last()),
        }
    }
}

/// A bearer-scoped declaration that only repeats its subject's global
/// declaration adds nothing.
pub open spec fn redundant(all: Seq<DeclView>, d: DeclView) -> bool {
    d.owner is Some && exists|k: int|
        0 <= k < all.len() && (#[trigger] all[k]).element == d.element && all[k].name == d.name
            && all[k].owner is None && all[k].status == d.status
}

pub open spec fn without_redundant(all: Seq<DeclView>, s: Seq<DeclView>) -> Seq<DeclView>
    decreases s.len(),
{
    if s.len() == 0 {
        s
    } else if redundant(all, s.last()) {
        without_redundant(all, s.drop_last())
    } else {
        without_redundant(all, s.drop_last()).push(s.last())
    }
}

/// The explicit declarations of one edition, each subject once, in subject
/// order.
pub struct DeclarationIndex {
    pub entries: Vec<Declaration>,
}

impl DeclarationIndex {
    pub open spec fn view(&self) -> Seq<DeclView> {
        decl_views(self.entries@)
    }

    pub open spec fn wf(&self) -> bool {
        keyed(self.view())
    }

    pub fn new() -> (r: DeclarationIndex)
        ensures
            r.wf(),
            r.view() == Seq::<DeclView>::empty(),
    {
        let r = DeclarationIndex { entries: Vec::new() };
        assert(r.view() =~= Seq::<DeclView>::empty());
        r
    }

    /// Add one declaration; a second declaration of a subject must agree
    /// with the first on its status.
    pub fn add(&mut self, d: Declaration) -> (r: Result<(), RegenError>)
        requires
            old(self).wf(),
        ensures
            final(self).wf(),
            match index_add(old(self).view(), decl_view(d)) {
                Ok(s) => r is Ok && final(self).view() == s,
                Err(e) => r matches Err(m) && m.message@ == e && final(self).view() == old(self).view(),
            },
    {
        let ghost s = self.view();
        let ghost dv = decl_view(d);
        let mut p: usize = 0;
        while p < self.entries.len() && decl_key_lt(&self.entries[p], &d)
            invariant
                p <= self.entries@.len(),
                s == self.view(),
                dv == decl_view(d),
                keyed(s),
                key_pos(s, dv, 0) == key_pos(s, dv, p as int),
                forall|k: int| 0 <= k < p ==> key_lt(#[trigger] s[k], dv),
            decreases self.entries@.len() - p,
        {
            assert(s[p as int] == decl_view(self.entries@[p as int]));
            p = p + 1;
        }
        assert(key_pos(s, dv, 0) == p as int) by {
            if p < s.len() {
                assert(s[p as int] == decl_view(self.entries@[p as int]));
            }
        }
        if p < self.entries.len() && same_decl_key(&self.entries[p], &d) {
            assert(s[p as int] == decl_view(self.entries@[p as int]));
            let ghost k = choose|k: int| 0 <= k < s.len() && same_key(#[trigger] s[k], dv);
            assert(k == p) by {
                assert(same_key(s[k], s[p as int]));
                if k < p {
                    assert(key_lt(s[k], s[p as int]));
                    lemma_key_order(s[k], s[p as int], dv);
                } else if k > p {
                    assert(key_lt(s[p as int], s[k]));
                    lemma_key_order(s[p as int], s[k], dv);
                }
            }
            if self.entries[p].fact.status != d.fact.status {
                proof {
                    reveal_strlit("conflicting lifecycle declarations for ");
                    reveal_strlit(": ");
                    reveal_strlit(" and ");
                }
                let mut msg = concat3(
                    "conflicting lifecycle declarations for ",
                    d.name.as_str(),
                    ": ",
                );
                push_str(&mut msg, self.entries[p].fact.source.as_str());
                push_str(&mut msg, " and ");
                push_str(&mut msg, d.fact.source.as_str());
                assert(msg@ =~= conflict_error(dv.name, s[p as int].source, dv.source));
                return Err(RegenError { message: msg });
            }
            return Ok(());
        }
        assert(!exists|k: int| 0 <= k < s.len() && same_key(#[trigger] s[k], dv)) by {
            if exists|k: int| 0 <= k < s.len() && same_key(#[trigger] s[k], dv) {
                let k = choose|k: int| 0 <= k < s.len() && same_key(#[trigger] s[k], dv);
                lemma_key_order(s[k], dv, dv);
                if k < p {
                    assert(key_lt(s[k], dv));
                } else {
                    assert(s[p as int] == decl_view(self.entries@[p as int]));
                    assert(!key_lt(s[p as int], dv));
                    if k > p {
                        assert(key_lt(s[p as int], s[k]));
                        lemma_key_order(dv, s[p as int], dv);
                        lemma_key_order(s[p as int], dv, s[p as int]);
                    }
                }
            }
        }
        self.entries.insert(p, d);
        let ghost t = s.take(p as int).push(dv) + s.skip(p as int);
        assert(self.view() =~= t);
        assert forall|i: int, j: int| 0 <= i < j < t.len() implies key_lt(#[trigger] t[i], #[trigger] t[j]) by {
            if j < p {
                assert(t[i] == s[i] && t[j] == s[j]);
            } else if j == p {
                assert(t[j] == dv);
                assert(t[i] == s[i]);
            } else if i == p {
                assert(t[i] == dv && t[j] == s[j - 1]);
                assert(!key_lt(s[p as int], dv));
                lemma_key_order(s[p as int], dv, dv);
                if j - 1 > p {
                    lemma_key_order(dv, s[p as int], s[j - 1]);
                }
            } else if i < p {
                assert(t[i] == s[i] && t[j] == s[j - 1]);
            } else {
                assert(t[i] == s[i - 1] && t[j] == s[j - 1]);
            }
        }
        Ok(())
    }

    /// Add the declarations of one chapter in turn, stopping at the first
    /// conflict.
    pub fn add_all(&mut self, ds: Vec<Declaration>) -> (r: Result<(), RegenError>)
        requires
            old(self).wf(),
        ensures
            final(self).wf(),
            match index_add_all(old(self).view(), decl_views(ds@)) {
                Ok(s) => r is Ok && final(self).view() == s,
                Err(e) => r matches Err(m) && m.message@ == e,
            },
    {
        let ghost s0 = self.view();
        let ghost dvs = decl_views(ds@);
        let mut rest = ds;
        let n = rest.len();
        let mut k: usize = 0;
        assert(dvs.take(0) =~= Seq::<DeclView>::empty());
        while rest.len() > 0
            invariant
                k + rest@.len() == n,
                n == dvs.len(),
                s0 == old(self).view(),
                dvs == decl_views(ds@),
                decl_views(rest@) == dvs.skip(k as int),
                self.wf(),
                index_add_all(s0, dvs.take(k as int)) == Ok::<Seq<DeclView>, Seq<char>>(self.view()),
            decreases rest@.len(),
        {
            let ghost raw = rest@;
            let d = rest.remove(0);
            assert(decl_view(d) == dvs[k as int]) by {
                assert(dvs.skip(k as int)[0] == dvs[k as int]);
                assert(decl_views(raw)[0] == decl_view(raw[0]));
            }
            assert(rest@ =~= raw.subrange(1, raw.len() as int));
            assert forall|j: int| 0 <= j < rest@.len() implies #[trigger] decl_views(rest@)[j]
                == dvs.skip(k + 1)[j] by {
                assert(rest@[j] == raw[j + 1]);
                assert(decl_views(raw)[j + 1] == dvs.skip(k as int)[j + 1]);
            }
            assert(decl_views(rest@) =~= dvs.skip(k + 1));
            assert(dvs.take(k + 1).drop_last() =~= dvs.take(k as int));
            assert(dvs.take(k + 1).last() == decl_view(d));
            let ghost before = self.view();
            let ghost dv = decl_view(d);
            assert(index_add_all(s0, dvs.take(k + 1)) == index_add(before, dv));
            match self.add(d) {
                Err(e) => {
                    proof {
                        lemma_add_all_err(s0, dvs, k + 1, n as int);
                        assert(dvs.take(n as int) =~= dvs);
                    }
                    return Err(e);
                },
                Ok(()) => {},
            }
            k = k + 1;
        }
        assert(dvs.take(n as int) =~= dvs);
        Ok(())
    }

    /// The declarations, in subject order, without the bearer-scoped ones
    /// that only repeat their subject's global declaration.
    pub fn finish(&self) -> (r: Vec<Declaration>)
        ensures
            decl_views(r@) == without_redundant(self.view(), self.view()),
    {
        let ghost all = self.view();
        let mut out: Vec<Declaration> = Vec::new();
        let mut i: usize = 0;
        assert(all.take(0) =~= Seq::<DeclView>::empty());
        while i < self.entries.len()
            invariant
                i <= self.entries@.len(),
                all == self.view(),
                decl_views(out@) == without_redundant(all, all.take(i as int)),
            decreases self.entries@.len() - i,
        {
            assert(all.take(i + 1).drop_last() =~= all.take(i as int));
            assert(all.take(i + 1).last() == decl_view(self.entries@[i as int]));
            let d = &self.entries[i];
            let mut repeats = false;
            if d.owner.is_some() {
                let mut k: usize = 0;
                while k < self.entries.len()
                    invariant
                        k <= self.entries@.len(),
                        all == self.view(),
                        d == &self.entries@[i as int],
                        d.owner is Some,
                        repeats == exists|j: int|
                            0 <= j < k && (#[trigger] all[j]).element == d.element && all[j].name
                                == d.name@ && all[j].owner is None && all[j].status == d.fact.status,
                    decreases self.entries@.len() - k,
                {
                    let e = &self.entries[k];
                    assert(all[k as int] == decl_view(*e));
                    if e.element == d.element && e.owner.is_none() && e.fact.status == d.fact.status
                        && str_eq(e.name.as_str(), d.name.as_str()) {
                        repeats = true;
                    }
                    k = k + 1;
                }
            }
            assert(repeats == redundant(all, decl_view(*d)));
            if !repeats {
                let ghost before = decl_views(out@);
                out.push(d.clone_declaration());
                assert(decl_views(out@) =~= before.push(decl_view(*d)));
            }
            i = i + 1;
        }
        assert(all.take(self.entries@.len() as int) =~= all);
        out
    }
}

proof fn lemma_add_all_err(s: Seq<DeclView>, ds: Seq<DeclView>, k: int, m: int)
    requires
        0 <= k <= m <= ds.len(),
        index_add_all(s, ds.take(k)) is Err,
    ensures
        index_add_all(s, ds.take(m)) == index_add_all(s, ds.take(k)),
    decreases m - k,
{
    if k < m {
        assert(ds.take(k + 1).drop_last() =~= ds.take(k));
        lemma_add_all_err(s, ds, k + 1, m);
    }
}

fn decl_key_lt(a: &Declaration, b: &Declaration) -> (r: bool)
    ensures
        r == key_lt(decl_view(*a), decl_view(*b)),
{
    if !a.element && b.element {
        return true;
    }
    if a.element != b.element {
        return false;
    }
    let an = chars_of(a.name.as_str());
    let bn = chars_of(b.name.as_str());
    if chars_lt(&an, &bn) {
        return true;
    }
    str_eq(a.name.as_str(), b.name.as_str()) && option_lt(&a.owner, &b.owner)
}

fn same_decl_key(a: &Declaration, b: &Declaration) -> (r: bool)
    ensures
        r == same_key(decl_view(*a), decl_view(*b)),
{
    a.element == b.element && str_eq(a.name.as_str(), b.name.as_str()) && match (&a.owner, &b.owner) {
        (None, None) => true,
        (Some(x), Some(y)) => str_eq(x.as_str(), y.as_str()),
        _ => false,
    }
}

} // verus!
