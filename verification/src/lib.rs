//! Verified core of a local documentation index: document parsers, chunking,
//! API manifests, search-query shaping, and package/spec validation.
pub mod text;
pub mod error;
pub mod package;
pub mod node;
pub mod parser;
pub mod tokens;
pub mod chunker;
pub mod json;
pub mod toml_doc;
pub mod source;
pub mod manifest;
pub mod diff;
pub mod search;
pub mod stack;
pub mod package_spec;
pub mod indexer;
pub mod commands;
pub mod discovery;
pub mod reports;
