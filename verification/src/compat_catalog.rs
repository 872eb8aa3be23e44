//! Objective browser-compat facts gathered per element and attribute, and the
//! explicit normalization from BCD key spellings to catalog names.

use vstd::prelude::*;
use crate::compat::{Baseline, BrowserSupport, Discouraged};
use crate::text::str_eq;

verus! {

/// Objective compat facts of one element or attribute record.
pub struct CatalogCompatFacts {
    pub mdn_url: Option<String>,
    pub deprecated: bool,
    pub experimental: bool,
    pub standard_track: Option<bool>,
    pub baseline: Option<Baseline>,
    pub discouraged: Vec<Discouraged>,
    pub browser_support: Option<BrowserSupport>,
}

/// A pinned upstream package.
pub struct CatalogPackageSource {
    pub name: String,
    pub version: String,
    pub url: String,
}

/// What a BCD record that is not a catalog attribute describes.
#[derive(Debug, Clone, Copy, PartialEq, Eq, Structural)]
pub enum CatalogCompatSubfeatureKind {
    /// A behavior of the element rather than an attribute.
    Behavior,
    /// The legacy `xlink:href` spelling of `href`.
    LegacyXlinkAlias,
}

/// A BCD record kept as compat data without becoming a catalog attribute.
pub struct CatalogCompatSubfeature {
    pub compat_key: String,
    pub kind: CatalogCompatSubfeatureKind,
    pub element: String,
    pub name: String,
    pub facts: CatalogCompatFacts,
}

/// The packages a compat catalog was read from, and the records it kept
/// aside.
pub struct CatalogCompatProvenance {
    pub browser_compat_data: CatalogPackageSource,
    pub web_features: CatalogPackageSource,
    pub unmodeled_features: Vec<CatalogCompatSubfeature>,
}

/// Objective compat facts plus the applicability BCD gives one attribute.
pub struct CompatAttribute {
    /// Facts of the global record, when BCD has one.
    pub global_facts: Option<CatalogCompatFacts>,
    /// Facts of each element-local record, by element name in name order.
    pub element_facts: Vec<(String, CatalogCompatFacts)>,
}

/// Objective compat facts collected from BCD and web-features.
pub struct CompatCatalog {
    pub provenance: CatalogCompatProvenance,
    /// Facts by element name, in name order.
    pub elements: Vec<(String, CatalogCompatFacts)>,
    /// Attribute facts by canonical attribute name, in name order.
    pub attributes: Vec<(String, CompatAttribute)>,
}

impl CompatAttribute {
    /// The elements where BCD defines this as an element-local attribute.
    pub fn bearers(&self) -> (r: Vec<&String>)
        ensures
            r@.len() == self.element_facts@.len(),
            forall|i: int| 0 <= i < r@.len() ==> *r@[i] == self.element_facts@[i].0,
    {
        let mut out: Vec<&String> = Vec::new();
        let mut i: usize = 0;
        while i < self.element_facts.len()
            invariant
                i <= self.element_facts@.len(),
                out@.len() == i,
                forall|k: int| 0 <= k < i ==> *out@[k] == self.element_facts@[k].0,
            decreases self.element_facts@.len() - i,
        {
            out.push(&self.element_facts[i].0);
            i = i + 1;
        }
        out
    }

    /// Whether BCD defines this attribute globally.
    pub fn is_global(&self) -> (r: bool)
        ensures
            r == self.global_facts is Some,
    {
        self.global_facts.is_some()
    }
}

/// Why a BCD key is kept aside: behaviors and the legacy `xlink:href` alias.
pub open spec fn unmodeled_kind_spec(name: Seq<char>) -> Option<CatalogCompatSubfeatureKind> {
    if name == "data_uri"@ || name == "external_uri"@ || name == "omit_external_fragment"@ || name
        == "tooltip_display"@ {
        Some(CatalogCompatSubfeatureKind::Behavior)
    } else if name == "xlink_href"@ {
        Some(CatalogCompatSubfeatureKind::LegacyXlinkAlias)
    } else {
        None
    }
}

pub fn unmodeled_feature_kind(name: &str) -> (r: Option<CatalogCompatSubfeatureKind>)
    ensures
        r == unmodeled_kind_spec(name@),
{
    if str_eq(name, "data_uri") || str_eq(name, "external_uri") || str_eq(
        name,
        "omit_external_fragment",
    ) || str_eq(name, "tooltip_display") {
        Some(CatalogCompatSubfeatureKind::Behavior)
    } else if str_eq(name, "xlink_href") {
        Some(CatalogCompatSubfeatureKind::LegacyXlinkAlias)
    } else {
        None
    }
}

/// The catalog spelling of a BCD attribute key.
pub open spec fn bcd_canonical_spec(name: Seq<char>) -> Option<Seq<char>> {
    if name == "data_attributes"@ {
        Some("data-*"@)
    } else if name == "xlink_actuate"@ {
        Some("xlink:actuate"@)
    } else if name == "xlink_href"@ {
        None
    } else if name == "xlink_show"@ {
        Some("xlink:show"@)
    } else if name == "xlink_title"@ {
        Some("xlink:title"@)
    } else if name == "xml_lang"@ {
        Some("xml:lang"@)
    } else if name == "xml_space"@ {
        Some("xml:space"@)
    } else if name == "referrerPolicy"@ {
        Some("referrerpolicy"@)
    } else {
        Some(name)
    }
}

pub open spec fn opt_string(o: Option<String>) -> Option<Seq<char>> {
    match o {
        Some(s) => Some(s@),
        None => None,
    }
}

pub fn canonical_attribute_name(name: &str) -> (r: Option<String>)
    ensures
        opt_string(r) == bcd_canonical_spec(name@),
{
    if str_eq(name, "data_attributes") {
        Some("data-*".to_owned())
    } else if str_eq(name, "xlink_actuate") {
        Some("xlink:actuate".to_owned())
    } else if str_eq(name, "xlink_href") {
        None
    } else if str_eq(name, "xlink_show") {
        Some("xlink:show".to_owned())
    } else if str_eq(name, "xlink_title") {
        Some("xlink:title".to_owned())
    } else if str_eq(name, "xml_lang") {
        Some("xml:lang".to_owned())
    } else if str_eq(name, "xml_space") {
        Some("xml:space".to_owned())
    } else if str_eq(name, "referrerPolicy") {
        Some("referrerpolicy".to_owned())
    } else {
        Some(name.to_owned())
    }
}

/// The catalog attribute a BCD key stands for: none for the keys kept aside,
/// else the key's catalog spelling.
pub open spec fn bcd_attribute_spec(name: Seq<char>) -> Option<Seq<char>> {
    if unmodeled_kind_spec(name) is Some {
        None
    } else {
        bcd_canonical_spec(name)
    }
}

pub fn bcd_attribute_name(name: &str) -> (r: Option<String>)
    ensures
        opt_string(r) == bcd_attribute_spec(name@),
{
    if unmodeled_feature_kind(name).is_some() {
        return None;
    }
    canonical_attribute_name(name)
}

} // verus!
