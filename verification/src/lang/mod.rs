//! Language-specific extractors that do not go through tree-sitter.

pub mod cobol_exec;
pub mod cobol_preprocessor;
pub mod html;
pub mod jcl;
pub mod languages;
pub mod prisma;
pub mod provider;
