//! Cross-reference analysis for de-linking a fully linked dual-processor
//! handheld ROM image: section and symbol maps per module, a local pointer
//! scanner, and a cross-module resolver that emits typed relocations.

pub mod analysis;
pub mod config;
pub mod errors;
pub mod laws;
pub mod modules;
pub mod names;
pub mod relocations;
pub mod scan;
pub mod sections;
pub mod symbols;
