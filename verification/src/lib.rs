//! Deep merge of configuration documents, schema validation of the result,
//! and an append-only version history of every template that was merged.

mod clock;
pub mod codec;
pub mod document;
pub mod entries;
pub mod error;
pub mod file;
pub mod insert;
pub mod marker;
pub mod merge;
pub mod merge_laws;
pub mod schema;
pub mod state;
pub mod state_laws;
pub mod yaml;
pub mod yaml_laws;
