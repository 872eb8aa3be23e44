//! The value spaces the catalog models for an attribute, and the inputs the
//! grammar projection draws on.

use vstd::prelude::*;
use crate::grammar::CatalogCssGrammarGraph;
use crate::text::{str_eq, string_seqs};

verus! {

/// How an attribute's value space is described in the catalog.
#[derive(Debug, Clone)]
pub enum CatalogAttributeValues {
    Enum { values: Vec<String> },
    Transform { functions: Vec<String> },
    CssGrammar { grammar: String, graph: CatalogCssGrammarGraph },
    Boolean,
    Color,
    CommaTokenList,
    CoordinatePair,
    CoordinatePairList,
    CssDeclarationList,
    FreeText,
    Id,
    IdList,
    Integer,
    Iri,
    LanguageTag,
    Length,
    MediaQueryList,
    MediaType,
    Number,
    NumberOrPercentage,
    Paint,
    PathData,
    ReferrerPolicy,
    SemicolonNumberList,
    SuggestedFileName,
    TokenList,
    Unresolved,
    Url,
    UrlTokenList,
}

/// Value spaces as plain values; a grammar is represented by its text.
pub enum ValuesView {
    Enum(Seq<Seq<char>>),
    Transform(Seq<Seq<char>>),
    CssGrammar(Seq<char>),
    Boolean,
    Color,
    CommaTokenList,
    CoordinatePair,
    CoordinatePairList,
    CssDeclarationList,
    FreeText,
    Id,
    IdList,
    Integer,
    Iri,
    LanguageTag,
    Length,
    MediaQueryList,
    MediaType,
    Number,
    NumberOrPercentage,
    Paint,
    PathData,
    ReferrerPolicy,
    SemicolonNumberList,
    SuggestedFileName,
    TokenList,
    Unresolved,
    Url,
    UrlTokenList,
}

pub open spec fn values_view(v: CatalogAttributeValues) -> ValuesView {
    match v {
        CatalogAttributeValues::Enum { values } => ValuesView::Enum(string_seqs(values@)),
        CatalogAttributeValues::Transform { functions } => ValuesView::Transform(
            string_seqs(functions@),
        ),
        CatalogAttributeValues::CssGrammar { grammar, .. } => ValuesView::CssGrammar(grammar@),
        CatalogAttributeValues::Boolean => ValuesView::Boolean,
        CatalogAttributeValues::Color => ValuesView::Color,
        CatalogAttributeValues::CommaTokenList => ValuesView::CommaTokenList,
        CatalogAttributeValues::CoordinatePair => ValuesView::CoordinatePair,
        CatalogAttributeValues::CoordinatePairList => ValuesView::CoordinatePairList,
        CatalogAttributeValues::CssDeclarationList => ValuesView::CssDeclarationList,
        CatalogAttributeValues::FreeText => ValuesView::FreeText,
        CatalogAttributeValues::Id => ValuesView::Id,
        CatalogAttributeValues::IdList => ValuesView::IdList,
        CatalogAttributeValues::Integer => ValuesView::Integer,
        CatalogAttributeValues::Iri => ValuesView::Iri,
        CatalogAttributeValues::LanguageTag => ValuesView::LanguageTag,
        CatalogAttributeValues::Length => ValuesView::Length,
        CatalogAttributeValues::MediaQueryList => ValuesView::MediaQueryList,
        CatalogAttributeValues::MediaType => ValuesView::MediaType,
        CatalogAttributeValues::Number => ValuesView::Number,
        CatalogAttributeValues::NumberOrPercentage => ValuesView::NumberOrPercentage,
        CatalogAttributeValues::Paint => ValuesView::Paint,
        CatalogAttributeValues::PathData => ValuesView::PathData,
        CatalogAttributeValues::ReferrerPolicy => ValuesView::ReferrerPolicy,
        CatalogAttributeValues::SemicolonNumberList => ValuesView::SemicolonNumberList,
        CatalogAttributeValues::SuggestedFileName => ValuesView::SuggestedFileName,
        CatalogAttributeValues::TokenList => ValuesView::TokenList,
        CatalogAttributeValues::Unresolved => ValuesView::Unresolved,
        CatalogAttributeValues::Url => ValuesView::Url,
        CatalogAttributeValues::UrlTokenList => ValuesView::UrlTokenList,
    }
}

/// The first value recorded for `key` among `(key, value)` pairs.
pub open spec fn lookup(pairs: Seq<(String, String)>, key: Seq<char>) -> Option<Seq<char>>
    decreases pairs.len(),
{
    if pairs.len() == 0 {
        None
    } else if pairs[0].0@ == key {
        Some(pairs[0].1@)
    } else {
        lookup(pairs.drop_first(), key)
    }
}

/// Published CSS grammar inputs: the transform functions, and the value
/// syntax of each CSS property and type.
pub struct GrammarProjectionInputs {
    pub transform_functions: Vec<String>,
    pub property_syntaxes: Vec<(String, String)>,
    pub type_syntaxes: Vec<(String, String)>,
}

pub(crate) fn lookup_in<'a>(pairs: &'a Vec<(String, String)>, key: &str) -> (r: Option<&'a str>)
    ensures
        match lookup(pairs@, key@) {
            Some(v) => r matches Some(x) && x@ == v,
            None => r is None,
        },
{
    let mut i: usize = 0;
    assert(pairs@.skip(0) =~= pairs@);
    while i < pairs.len()
        invariant
            i <= pairs@.len(),
            lookup(pairs@, key@) == lookup(pairs@.skip(i as int), key@),
        decreases pairs@.len() - i,
    {
        assert(pairs@.skip(i as int)[0] == pairs@[i as int]);
        assert(pairs@.skip(i as int).drop_first() =~= pairs@.skip(i + 1));
        if str_eq(pairs[i].0.as_str(), key) {
            return Some(pairs[i].1.as_str());
        }
        i = i + 1;
    }
    None
}

impl GrammarProjectionInputs {
    /// The transform functions, in order.
    pub fn transform_functions(&self) -> (r: Vec<String>)
        ensures
            string_seqs(r@) == string_seqs(self.transform_functions@),
    {
        let mut out: Vec<String> = Vec::new();
        let mut i: usize = 0;
        while i < self.transform_functions.len()
            invariant
                i <= self.transform_functions@.len(),
                string_seqs(out@) == string_seqs(self.transform_functions@).take(i as int),
            decreases self.transform_functions@.len() - i,
        {
            let ghost before = string_seqs(out@);
            let x = self.transform_functions[i].clone();
            out.push(x);
            assert(string_seqs(out@) =~= before.push(x@));
            assert(string_seqs(self.transform_functions@).take(i + 1) =~= string_seqs(
                self.transform_functions@,
            ).take(i as int).push(x@));
            i = i + 1;
        }
        assert(string_seqs(self.transform_functions@).take(i as int) =~= string_seqs(
            self.transform_functions@,
        ));
        out
    }

    /// The published value syntax of a CSS property.
    pub fn property_syntax(&self, name: &str) -> (r: Option<&str>)
        ensures
            match lookup(self.property_syntaxes@, name@) {
                Some(v) => r matches Some(x) && x@ == v,
                None => r is None,
            },
    {
        lookup_in(&self.property_syntaxes, name)
    }

    /// The published value syntax of a CSS type.
    pub fn type_syntax(&self, name: &str) -> (r: Option<&str>)
        ensures
            match lookup(self.type_syntaxes@, name@) {
                Some(v) => r matches Some(x) && x@ == v,
                None => r is None,
            },
    {
        lookup_in(&self.type_syntaxes, name)
    }
}

} // verus!
