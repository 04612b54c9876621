//! Semantic-analysis core of a VHDL front end.
//!
//! The crate builds a validated, name-resolved design database from a parse
//! tree: interned strings, arena-backed AST nodes, canonicalized identifiers,
//! scope chains with overload-aware resolution, and per-library two-phase
//! registration of design units.

pub mod ast;
pub mod design;
pub mod driver;
pub mod identifier;
pub mod objpools;
pub mod util;
