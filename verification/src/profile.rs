//! The SVG Native profile and its constraints.

use vstd::prelude::*;
use crate::text::str_eq;

verus! {

/// What kind of spec entity a constraint targets.
#[derive(Debug, Clone, Copy, PartialEq, Eq, Structural)]
pub enum ConstraintKind {
    Element,
    Attribute,
    Property,
}

/// The scope an SVG Native conditional-support constraint applies across.
#[derive(Debug, Clone, Copy, PartialEq, Eq)]
pub enum ConstraintScope {
    /// Supported only on the listed bearer elements.
    Elements { names: &'static [&'static str] },
}

/// The SVG Native profile: the restricted subset of SVG it supports.
#[derive(Debug, PartialEq, Eq)]
pub struct SvgNative {
    pub unsupported_elements: &'static [&'static str],
    pub unsupported_attributes: &'static [&'static str],
    pub unsupported_properties: &'static [&'static str],
}

pub open spec fn names_of(v: Seq<&str>) -> Seq<Seq<char>> {
    v.map_values(|s: &str| s@)
}

/// The names a profile leaves unsupported for a kind of entity.
pub open spec fn unsupported_names(p: SvgNative, kind: ConstraintKind) -> Seq<Seq<char>> {
    match kind {
        ConstraintKind::Element => names_of(p.unsupported_elements@),
        ConstraintKind::Attribute => names_of(p.unsupported_attributes@),
        ConstraintKind::Property => names_of(p.unsupported_properties@),
    }
}

impl SvgNative {
    /// Whether `name` (of the given kind) is unsupported by the profile.
    pub fn is_unsupported(&self, kind: ConstraintKind, name: &str) -> (r: bool)
        ensures
            r == unsupported_names(*self, kind).contains(name@),
    {
        let set = match kind {
            ConstraintKind::Element => self.unsupported_elements,
            ConstraintKind::Attribute => self.unsupported_attributes,
            ConstraintKind::Property => self.unsupported_properties,
        };
        let mut i: usize = 0;
        while i < set.len()
            invariant
                i <= set@.len(),
                names_of(set@) == unsupported_names(*self, kind),
                forall|k: int| 0 <= k < i ==> set@[k]@ != name@,
            decreases set@.len() - i,
        {
            if str_eq(set[i], name) {
                assert(names_of(set@)[i as int] == name@);
                return true;
            }
            i = i + 1;
        }
        assert forall|k: int| 0 <= k < names_of(set@).len() implies names_of(set@)[k] != name@ by {
            assert(names_of(set@)[k] == set@[k]@);
        }
        false
    }

    /// The scope `name` (of `kind`) is restricted to, when the profile
    /// supports it only on some bearers; the extracted profile records none.
    pub fn supported_only(&self, kind: ConstraintKind, name: &str) -> (r: Option<ConstraintScope>)
        ensures
            r is None,
    {
        None
    }
}

/// The SVG Native profile data; the extracted profile restricts nothing yet.
pub fn svg_native() -> (r: &'static SvgNative)
    ensures
        r.unsupported_elements@.len() == 0,
        r.unsupported_attributes@.len() == 0,
        r.unsupported_properties@.len() == 0,
{
    &SvgNative { unsupported_elements: &[], unsupported_attributes: &[], unsupported_properties: &[] }
}

} // verus!
