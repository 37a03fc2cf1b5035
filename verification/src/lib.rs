//! Translate structural type-schema documents into source text for a runtime
//! validator library's schema-construction expressions.
//!
//! The crate merges independently produced single-root documents into one
//! definition table, then walks each definition and emits a named
//! validator-construction statement together with a static-type alias.
pub use api::convert;
pub use api::convert_joined;
pub use api::merge_schemas;
pub use schema::SchemaDocument;
pub use schema::SchemaNode;

pub mod api;
pub mod schema;
pub mod emit;
pub mod laws;
pub mod table;
pub mod zod;

