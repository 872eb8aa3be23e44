//! Structured SVG specification facts and the presentation logic built on
//! them: browser-compatibility verdicts, hover text, namespace resolution and
//! the text extraction used when the catalog is regenerated.

pub mod text;
pub mod plain_text;
pub mod snapshot;
pub mod compat;
pub mod verdict;
pub mod util;
pub mod chapter;
pub mod hover_settings;
pub mod namespaces;
pub mod hover;
pub mod grammar;
pub mod spec_lifecycle;
pub mod values;
pub mod aria;
pub mod compat_catalog;
pub mod provenance;
pub mod profile;
pub mod html;
pub mod pattern;
pub mod lifecycle_prose;
pub mod value_space;
pub mod hover_details;
pub mod runtime_compat;
pub mod json;
pub mod compat_json;
pub mod compat_refresh;
pub mod chapter_page;
pub mod keyed;
pub mod legacy;
pub mod compat_collect;
pub mod facts_json;
pub mod catalog_refresh;
pub mod closing_tags;
