//! nixcfg: bridge config structs to NixOS module options via JSON Schema.
//!
//! The library works on its own model of JSON documents ([`json::Json`]):
//! it merges serialised defaults into a schema ([`schema::NixSchema::with_defaults`]),
//! wraps the schema with the nixcfg metadata ([`schema::NixSchema::document`])
//! and writes it out as pretty JSON ([`schema::NixSchema::to_json_pretty`]),
//! and rewrites `#[nixcfg(...)]` field attributes into schemars extension
//! arguments ([`attrs::rewrite`]).

pub mod attrs;
pub mod example;
pub mod json;
pub mod laws;
pub mod schema;

pub use json::{Json, JsonModel};
pub use schema::{emit, emit_document, NixSchema};
