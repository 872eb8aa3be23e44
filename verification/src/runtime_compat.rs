//! Compatibility facts resolved at run time, once per context, with the
//! identity and outcome of each contributing source, and the overrides they
//! give the linter.

use vstd::prelude::*;
use crate::text::{chars_of, concat, push_char, push_str, str_eq};
use crate::verdict::{
    default_browsers, headline_for, is_verdict_for, reason_views, verdict, CompatVerdict, Facts,
    VerdictRecommendation,
};
use crate::hover::{verdict_view, VerdictView};

verus! {

/// Outcome of one source lookup. Absence is authoritative only after a
/// valid load.
#[derive(Debug, Clone, Copy, PartialEq, Eq, Structural)]
pub enum Outcome {
    Loaded,
    Absent,
    Unknown,
    Failed,
    Disabled,
}

/// Which source said what about a context, and how the lookup went.
pub struct Provenance {
    pub source: String,
    pub version: Option<String>,
    pub url: String,
    pub key: String,
    pub outcome: Outcome,
}

/// Complete effective facts, plus the identity and outcome of each
/// contributing source (browser-compat-data, then web-features).
pub struct CompatOverride {
    pub facts: Facts,
    pub sources: [Provenance; 2],
}

/// Whether a refresh produced facts worth linting on: not when it failed or
/// was disabled.
pub open spec fn refreshed(o: CompatOverride) -> bool {
    !(o.sources@[0].outcome == Outcome::Failed || o.sources@[0].outcome == Outcome::Disabled)
}

/// Runtime facts by element, by attribute, and by (element, attribute)
/// context; each key at most once.
pub struct RuntimeCompat {
    pub elements: Vec<(String, CompatOverride)>,
    /// Genuine global or common facts, never a merge of element-local facts.
    pub attributes: Vec<(String, CompatOverride)>,
    pub attribute_contexts: Vec<((String, String), CompatOverride)>,
}

/// The first record for `key`.
pub open spec fn find_named(v: Seq<(String, CompatOverride)>, key: Seq<char>) -> Option<int>
    decreases v.len(),
{
    if v.len() == 0 {
        None
    } else {
        match find_named(v.drop_last(), key) {
            Some(i) => Some(i),
            None => if v.last().0@ == key {
                Some(v.len() - 1)
            } else {
                None
            },
        }
    }
}

/// The first record for the context (`element`, `name`).
pub open spec fn find_context(
    v: Seq<((String, String), CompatOverride)>,
    element: Seq<char>,
    name: Seq<char>,
) -> Option<int>
    decreases v.len(),
{
    if v.len() == 0 {
        None
    } else {
        match find_context(v.drop_last(), element, name) {
            Some(i) => Some(i),
            None => if v.last().0.0@ == element && v.last().0.1@ == name {
                Some(v.len() - 1)
            } else {
                None
            },
        }
    }
}

proof fn lemma_find_named(v: Seq<(String, CompatOverride)>, key: Seq<char>)
    ensures
        find_named(v, key) matches Some(i) ==> 0 <= i < v.len() && v[i].0@ == key,
        find_named(v, key) is None ==> forall|k: int| 0 <= k < v.len() ==> v[k].0@ != key,
    decreases v.len(),
{
    if v.len() > 0 {
        lemma_find_named(v.drop_last(), key);
        assert forall|k: int| 0 <= k < v.len() - 1 implies v[k] == v.drop_last()[k] by {}
    }
}

proof fn lemma_find_context(v: Seq<((String, String), CompatOverride)>, element: Seq<char>, name: Seq<char>)
    ensures
        find_context(v, element, name) matches Some(i) ==> 0 <= i < v.len() && v[i].0.0@ == element
            && v[i].0.1@ == name,
    decreases v.len(),
{
    if v.len() > 0 {
        lemma_find_context(v.drop_last(), element, name);
    }
}

fn position_named(v: &Vec<(String, CompatOverride)>, key: &str) -> (r: Option<usize>)
    ensures
        r matches Some(i) ==> i < v@.len() && find_named(v@, key@) == Some(i as int),
        r is None ==> find_named(v@, key@) is None,
{
    proof {
        lemma_find_named(v@, key@);
    }
    let mut i: usize = 0;
    assert(v@.take(0) =~= Seq::<(String, CompatOverride)>::empty());
    while i < v.len()
        invariant
            i <= v@.len(),
            find_named(v@.take(i as int), key@) is None,
        decreases v@.len() - i,
    {
        assert(v@.take(i + 1).drop_last() =~= v@.take(i as int));
        if str_eq(v[i].0.as_str(), key) {
            proof {
                lemma_prefix_named(v@, key@, i as int + 1);
            }
            return Some(i);
        }
        i = i + 1;
    }
    assert(v@.take(v@.len() as int) =~= v@);
    None
}

proof fn lemma_prefix_named(v: Seq<(String, CompatOverride)>, key: Seq<char>, n: int)
    requires
        0 <= n <= v.len(),
        find_named(v.take(n), key) is Some,
    ensures
        find_named(v, key) == find_named(v.take(n), key),
    decreases v.len() - n,
{
    if n < v.len() {
        assert(v.take(n + 1).drop_last() =~= v.take(n));
        lemma_prefix_named(v, key, n + 1);
    } else {
        assert(v.take(n) =~= v);
    }
}

proof fn lemma_prefix_context(v: Seq<((String, String), CompatOverride)>, e: Seq<char>, a: Seq<char>, n: int)
    requires
        0 <= n <= v.len(),
        find_context(v.take(n), e, a) is Some,
    ensures
        find_context(v, e, a) == find_context(v.take(n), e, a),
    decreases v.len() - n,
{
    if n < v.len() {
        assert(v.take(n + 1).drop_last() =~= v.take(n));
        lemma_prefix_context(v, e, a, n + 1);
    } else {
        assert(v.take(n) =~= v);
    }
}

fn position_context(v: &Vec<((String, String), CompatOverride)>, element: &str, name: &str) -> (r:
    Option<usize>)
    ensures
        r matches Some(i) ==> i < v@.len() && find_context(v@, element@, name@) == Some(i as int),
        r is None ==> find_context(v@, element@, name@) is None,
{
    proof {
        lemma_find_context(v@, element@, name@);
    }
    let mut i: usize = 0;
    assert(v@.take(0) =~= Seq::<((String, String), CompatOverride)>::empty());
    while i < v.len()
        invariant
            i <= v@.len(),
            find_context(v@.take(i as int), element@, name@) is None,
        decreases v@.len() - i,
    {
        assert(v@.take(i + 1).drop_last() =~= v@.take(i as int));
        if str_eq(v[i].0.0.as_str(), element) && str_eq(v[i].0.1.as_str(), name) {
            proof {
                lemma_prefix_context(v@, element@, name@, i as int + 1);
            }
            return Some(i);
        }
        i = i + 1;
    }
    assert(v@.take(v@.len() as int) =~= v@);
    None
}

/// The record an attribute hover uses: the exact element context when there
/// is one, else the attribute's global record.
pub open spec fn attribute_record(rt: RuntimeCompat, name: Seq<char>, element: Option<Seq<char>>) -> Option<
    CompatOverride,
> {
    let exact = match element {
        Some(e) => match find_context(rt.attribute_contexts@, e, name) {
            Some(i) => Some(rt.attribute_contexts@[i].1),
            None => None,
        },
        None => None,
    };
    match exact {
        Some(o) => Some(o),
        None => match find_named(rt.attributes@, name) {
            Some(i) => Some(rt.attributes@[i].1),
            None => None,
        },
    }
}

impl RuntimeCompat {
    /// The record for attribute `name`, on `element` when given.
    pub fn attribute(&self, name: &str, element: Option<&str>) -> (r: Option<&CompatOverride>)
        ensures
            match attribute_record(
                *self,
                name@,
                match element {
                    Some(e) => Some(e@),
                    None => None,
                },
            ) {
                Some(o) => r matches Some(x) && *x == o,
                None => r is None,
            },
    {
        let ghost el = match element {
            Some(e) => Some(e@),
            None => None::<Seq<char>>,
        };
        if let Some(e) = element {
            if let Some(i) = position_context(&self.attribute_contexts, e, name) {
                assert(find_context(self.attribute_contexts@, e@, name@) == Some(i as int));
                assert(attribute_record(*self, name@, el) == Some(self.attribute_contexts@[i as int].1));
                return Some(&self.attribute_contexts[i].1);
            }
            assert(find_context(self.attribute_contexts@, e@, name@) is None);
        }
        match position_named(&self.attributes, name) {
            Some(i) => {
                assert(attribute_record(*self, name@, el) == Some(self.attributes@[i as int].1));
                Some(&self.attributes[i].1)
            },
            None => None,
        }
    }
}

// ---------------------------------------------------------------------------
// Overrides for the linter

/// The lint-relevant flags of one record.
#[derive(Debug, Clone, Copy, PartialEq, Eq, Structural)]
pub struct CompatFlags {
    pub deprecated: bool,
    pub experimental: bool,
}

pub open spec fn flags_of(o: CompatOverride) -> CompatFlags {
    CompatFlags { deprecated: o.facts.deprecated, experimental: o.facts.experimental }
}

/// Lint flags by element, attribute and context.
pub struct LintOverrides {
    pub elements: Vec<(String, CompatFlags)>,
    pub attributes: Vec<(String, CompatFlags)>,
    pub attribute_contexts: Vec<((String, String), CompatFlags)>,
}

/// The flags of the refreshed records, keys kept, in order.
pub open spec fn refreshed_flags(v: Seq<(String, CompatOverride)>) -> Seq<(Seq<char>, CompatFlags)>
    decreases v.len(),
{
    if v.len() == 0 {
        Seq::empty()
    } else if refreshed(v.last().1) {
        refreshed_flags(v.drop_last()).push((v.last().0@, flags_of(v.last().1)))
    } else {
        refreshed_flags(v.drop_last())
    }
}

pub open spec fn refreshed_context_flags(v: Seq<((String, String), CompatOverride)>) -> Seq<
    ((Seq<char>, Seq<char>), CompatFlags),
>
    decreases v.len(),
{
    if v.len() == 0 {
        Seq::empty()
    } else if refreshed(v.last().1) {
        refreshed_context_flags(v.drop_last()).push(
            ((v.last().0.0@, v.last().0.1@), flags_of(v.last().1)),
        )
    } else {
        refreshed_context_flags(v.drop_last())
    }
}

pub open spec fn named_flags(v: Seq<(String, CompatFlags)>) -> Seq<(Seq<char>, CompatFlags)> {
    v.map_values(|e: (String, CompatFlags)| (e.0@, e.1))
}

pub open spec fn context_flags(v: Seq<((String, String), CompatFlags)>) -> Seq<
    ((Seq<char>, Seq<char>), CompatFlags),
> {
    v.map_values(|e: ((String, String), CompatFlags)| ((e.0.0@, e.0.1@), e.1))
}

fn is_refreshed(o: &CompatOverride) -> (r: bool)
    ensures
        r == refreshed(*o),
{
    let outcome = o.sources[0].outcome;
    !(outcome == Outcome::Failed || outcome == Outcome::Disabled)
}

fn flags_for_names(v: &Vec<(String, CompatOverride)>) -> (r: Vec<(String, CompatFlags)>)
    ensures
        named_flags(r@) == refreshed_flags(v@),
{
    let mut out: Vec<(String, CompatFlags)> = Vec::new();
    let mut i: usize = 0;
    assert(v@.take(0) =~= Seq::<(String, CompatOverride)>::empty());
    while i < v.len()
        invariant
            i <= v@.len(),
            named_flags(out@) =~= refreshed_flags(v@.take(i as int)),
        decreases v@.len() - i,
    {
        assert(v@.take(i + 1).drop_last() =~= v@.take(i as int));
        assert(v@.take(i + 1).last() == v@[i as int]);
        if is_refreshed(&v[i].1) {
            let ghost before = named_flags(out@);
            let f = CompatFlags { deprecated: v[i].1.facts.deprecated, experimental: v[i].1.facts.experimental };
            out.push((v[i].0.clone(), f));
            assert(named_flags(out@) =~= before.push((v@[i as int].0@, flags_of(v@[i as int].1))));
        }
        i = i + 1;
    }
    assert(v@.take(v@.len() as int) =~= v@);
    out
}

fn flags_for_contexts(v: &Vec<((String, String), CompatOverride)>) -> (r: Vec<((String, String), CompatFlags)>)
    ensures
        context_flags(r@) == refreshed_context_flags(v@),
{
    let mut out: Vec<((String, String), CompatFlags)> = Vec::new();
    let mut i: usize = 0;
    assert(v@.take(0) =~= Seq::<((String, String), CompatOverride)>::empty());
    while i < v.len()
        invariant
            i <= v@.len(),
            context_flags(out@) =~= refreshed_context_flags(v@.take(i as int)),
        decreases v@.len() - i,
    {
        assert(v@.take(i + 1).drop_last() =~= v@.take(i as int));
        assert(v@.take(i + 1).last() == v@[i as int]);
        if is_refreshed(&v[i].1) {
            let ghost before = context_flags(out@);
            let f = CompatFlags { deprecated: v[i].1.facts.deprecated, experimental: v[i].1.facts.experimental };
            out.push(((v[i].0.0.clone(), v[i].0.1.clone()), f));
            assert(context_flags(out@) =~= before.push(
                ((v@[i as int].0.0@, v@[i as int].0.1@), flags_of(v@[i as int].1)),
            ));
        }
        i = i + 1;
    }
    assert(v@.take(v@.len() as int) =~= v@);
    out
}

/// A verdict for every record: the derived one, or an explicit "safe to
/// use" that clears stale reasons.
pub open spec fn runtime_verdict(o: CompatOverride, v: CompatVerdict) -> bool {
    let reasons = crate::verdict::verdict_reasons(o.facts, default_browsers());
    if reasons.len() == 0 {
        v.recommendation == VerdictRecommendation::Safe && v.headline_template@ == "safe to use"@
            && v.reasons@.len() == 0
    } else {
        is_verdict_for(Some(v), o.facts, default_browsers())
    }
}

pub open spec fn named_verdict_ok(a: (String, CompatOverride), b: (String, CompatVerdict)) -> bool {
    b.0@ == a.0@ && runtime_verdict(a.1, b.1)
}

pub open spec fn context_verdict_ok(
    a: ((String, String), CompatOverride),
    b: ((String, String), CompatVerdict),
) -> bool {
    b.0.0@ == a.0.0@ && b.0.1@ == a.0.1@ && runtime_verdict(a.1, b.1)
}

/// Verdicts by element, attribute and context.
pub struct VerdictOverrides {
    pub elements: Vec<(String, CompatVerdict)>,
    pub attributes: Vec<(String, CompatVerdict)>,
    pub attribute_contexts: Vec<((String, String), CompatVerdict)>,
}

fn verdict_or_safe(o: &CompatOverride) -> (r: CompatVerdict)
    ensures
        runtime_verdict(*o, r),
{
    match verdict(&o.facts) {
        Some(v) => v,
        None => {
            let r = CompatVerdict {
                recommendation: VerdictRecommendation::Safe,
                headline_template: "safe to use".to_owned(),
                reasons: Vec::new(),
            };
            r
        },
    }
}

fn verdicts_for_names(v: &Vec<(String, CompatOverride)>) -> (r: Vec<(String, CompatVerdict)>)
    ensures
        r@.len() == v@.len(),
        forall|k: int| 0 <= k < v@.len() ==> #[trigger] named_verdict_ok(v@[k], r@[k]),
{
    let mut out: Vec<(String, CompatVerdict)> = Vec::new();
    let mut i: usize = 0;
    while i < v.len()
        invariant
            i <= v@.len(),
            out@.len() == i,
            forall|k: int| 0 <= k < i ==> #[trigger] named_verdict_ok(v@[k], out@[k]),
        decreases v@.len() - i,
    {
        let name = v[i].0.clone();
        let checked = verdict_or_safe(&v[i].1);
        let ghost before = out@;
        out.push((name, checked));
        assert(named_verdict_ok(v@[i as int], out@[i as int]));
        assert forall|k: int| 0 <= k < i + 1 implies #[trigger] named_verdict_ok(v@[k], out@[k]) by {
            if k < i {
                assert(out@[k] == before[k]);
            }
        }
        i = i + 1;
    }
    out
}

fn verdicts_for_contexts(v: &Vec<((String, String), CompatOverride)>) -> (r: Vec<
    ((String, String), CompatVerdict),
>)
    ensures
        r@.len() == v@.len(),
        forall|k: int| 0 <= k < v@.len() ==> #[trigger] context_verdict_ok(v@[k], r@[k]),
{
    let mut out: Vec<((String, String), CompatVerdict)> = Vec::new();
    let mut i: usize = 0;
    while i < v.len()
        invariant
            i <= v@.len(),
            out@.len() == i,
            forall|k: int| 0 <= k < i ==> #[trigger] context_verdict_ok(v@[k], out@[k]),
        decreases v@.len() - i,
    {
        let e = v[i].0.0.clone();
        let a = v[i].0.1.clone();
        let checked = verdict_or_safe(&v[i].1);
        let ghost before = out@;
        out.push(((e, a), checked));
        assert(context_verdict_ok(v@[i as int], out@[i as int]));
        assert forall|k: int| 0 <= k < i + 1 implies #[trigger] context_verdict_ok(v@[k], out@[k]) by {
            if k < i {
                assert(out@[k] == before[k]);
            }
        }
        i = i + 1;
    }
    out
}

impl RuntimeCompat {
    /// The deprecated and experimental flags of every record whose
    /// browser-compat refresh neither failed nor was disabled.
    pub fn to_lint_overrides(&self) -> (r: LintOverrides)
        ensures
            named_flags(r.elements@) == refreshed_flags(self.elements@),
            named_flags(r.attributes@) == refreshed_flags(self.attributes@),
            context_flags(r.attribute_contexts@) == refreshed_context_flags(self.attribute_contexts@),
    {
        LintOverrides {
            elements: flags_for_names(&self.elements),
            attributes: flags_for_names(&self.attributes),
            attribute_contexts: flags_for_contexts(&self.attribute_contexts),
        }
    }

    /// A verdict for every record; an explicit neutral verdict where the
    /// facts give no reason, so that stale reasons are cleared.
    pub fn to_verdict_overrides(&self) -> (r: VerdictOverrides)
        ensures
            r.elements@.len() == self.elements@.len(),
            forall|k: int|
                0 <= k < self.elements@.len() ==> #[trigger] named_verdict_ok(
                    self.elements@[k],
                    r.elements@[k],
                ),
            r.attributes@.len() == self.attributes@.len(),
            forall|k: int|
                0 <= k < self.attributes@.len() ==> #[trigger] named_verdict_ok(
                    self.attributes@[k],
                    r.attributes@[k],
                ),
            r.attribute_contexts@.len() == self.attribute_contexts@.len(),
            forall|k: int|
                0 <= k < self.attribute_contexts@.len() ==> #[trigger] context_verdict_ok(
                    self.attribute_contexts@[k],
                    r.attribute_contexts@[k],
                ),
    {
        VerdictOverrides {
            elements: verdicts_for_names(&self.elements),
            attributes: verdicts_for_names(&self.attributes),
            attribute_contexts: verdicts_for_contexts(&self.attribute_contexts),
        }
    }
}

// ---------------------------------------------------------------------------
// Compatibility keys

/// The BCD spelling of a catalog attribute name.
pub open spec fn raw_attribute_spec(name: Seq<char>) -> Seq<char> {
    if name == "referrerpolicy"@ {
        "referrerPolicy"@
    } else if name == "data-*"@ {
        "data_attributes"@
    } else {
        name.map_values(|c: char| if c == ':' { '_' } else { c })
    }
}

pub fn raw_attribute_name(name: &str) -> (r: String)
    ensures
        r@ == raw_attribute_spec(name@),
{
    if str_eq(name, "referrerpolicy") {
        return "referrerPolicy".to_owned();
    }
    if str_eq(name, "data-*") {
        return "data_attributes".to_owned();
    }
    let v = chars_of(name);
    let mut out = String::new();
    let mut i: usize = 0;
    while i < v.len()
        invariant
            i <= v@.len(),
            v@ == name@,
            out@ == v@.take(i as int).map_values(|c: char| if c == ':' { '_' } else { c }),
        decreases v@.len() - i,
    {
        let c = v[i];
        push_char(&mut out, if c == ':' { '_' } else { c });
        i = i + 1;
        assert(out@ =~= v@.take(i as int).map_values(|c: char| if c == ':' { '_' } else { c }));
    }
    assert(v@.take(v@.len() as int) =~= v@);
    out
}

/// The BCD key of an attribute's global record.
pub open spec fn global_key_spec(name: Seq<char>) -> Seq<char> {
    "svg.global_attributes."@ + raw_attribute_spec(name)
}

pub fn global_key(name: &str) -> (r: String)
    ensures
        r@ == global_key_spec(name@),
{
    concat("svg.global_attributes.", raw_attribute_name(name).as_str())
}

/// The BCD key of an attribute's record on one element.
pub open spec fn attribute_key_spec(element: Seq<char>, name: Seq<char>) -> Seq<char> {
    "svg.elements."@ + element + "."@ + raw_attribute_spec(name)
}

pub fn attribute_key(element: &str, name: &str) -> (r: String)
    ensures
        r@ == attribute_key_spec(element@, name@),
{
    let mut out = concat("svg.elements.", element);
    push_str(&mut out, ".");
    push_str(&mut out, raw_attribute_name(name).as_str());
    out
}

} // verus!
