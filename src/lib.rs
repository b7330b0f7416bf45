//! Static discovery of unit-test entry points in parsed Python sources.
//!
//! Given a syntax tree of a source file, the library extracts its top-level
//! statements, resolves what the file imports, enumerates the test units that
//! naming conventions designate, detects skip decorators, and merges the
//! dotted test identifiers of many files into one sorted, duplicate-free list.

pub mod table;
pub mod text;
pub mod syntax;
pub mod models;
pub mod skip;
pub mod parser;
pub mod aggregate;
pub mod enumerator;
pub mod discovery;
