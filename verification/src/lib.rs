//! Static analysis of TypeScript/JavaScript source shape: per-file line
//! classification, symbol extraction with branching complexity, dependency
//! edges, configurable quality rules, a cross-module dependency graph, and a
//! lossless interchange representation of the results.

pub mod analyze;
pub mod cache;
pub mod config;
pub mod discovery;
pub mod graph;
pub mod json;
pub mod lines;
pub mod metrics;
pub mod rules;
pub mod syntax;
pub mod text;
pub mod types;
pub mod typescript;
