//! Backend-independent program index: normalized module, symbol, signature
//! and import model, and the index abstraction that separates proven
//! answers from unsupported ones.
//!
//! **Semantic boundary:** a syntax backend proves syntactic facts about a
//! *single unit* — definitions, normalized signatures, imports, parse
//! status. It does NOT resolve cross-file semantics; queries for
//! references/callers/implementations/subclasses answer
//! [`index::Answer::Unsupported`], never an empty set.

pub mod index;
pub mod model;
pub mod python;
pub mod syntax;
