//! Extracts structured annotations from source-code documentation comments
//! and assembles them into a cross-referenced documentation graph.
//!
//! The annotation grammar recognizes `EXPORT:`, `SIGNAL:` and `TYPE:`
//! declaration lines, typed parameter lists and parameter-detail blocks.
//! Finished entries are kept in two keyed collections (by access path and by
//! base type); two build passes link the hierarchy and index types, and the
//! renderer turns the finished graph into markup pages.

pub mod access;
pub mod chars;
pub mod docs;
pub mod entry;
pub mod laws;
pub mod namespace;
pub mod order;
pub mod parse;
pub mod render;
pub mod strutil;
pub mod ty;
