//! A file-search library driven by a small boolean query language.
//!
//! Queries are parsed into an abstract syntax tree, evaluated against a
//! per-file context with short-circuiting boolean logic, and produce either a
//! plain verdict or the byte ranges ("hunks") of a file that satisfy them.

pub mod code_aware;
pub mod config;
pub mod evaluator;
pub mod hunk;
pub mod options;
pub mod predicates;
pub mod profiles;
pub mod query;
pub mod render;
pub mod text;
