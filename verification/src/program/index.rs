//! Backend-independent program index abstraction.
//!
//! The answer type distinguishes **proven** results from **unsupported**
//! ones: a semantic cross-file query answered by a backend without
//! semantic-resolution capability returns [`Answer::Unsupported`], never an
//! empty set. An empty set can only be produced by [`Answer::Proven`] — and
//! then it is an authoritative absence from a provider whose certificate
//! claims the required capabilities.
use vstd::prelude::*;

use crate::ids::ContentHash;
use crate::program::model::{Definition, Import, ModuleId, ParseStatus, Signature, SymbolPath};

verus! {

/// Outcome of a projection query.
#[derive(Debug, Clone, PartialEq, Eq)]
pub enum Answer<T> {
    /// The backend proved this value under its declared capabilities.
    Proven(T),
    /// The backend cannot answer this query. The absence of a value here
    /// must NEVER be interpreted as an empty set or an absence claim.
    Unsupported(Unsupported),
}

impl<T> Answer<T> {
    /// The proven value, if any.
    pub fn proven(self) -> (r: Option<T>)
        ensures
            match self {
                Answer::Proven(v) => r == Some(v),
                Answer::Unsupported(_) => r is None,
            },
    {
        match self {
            Answer::Proven(v) => Some(v),
            Answer::Unsupported(_) => None,
        }
    }

    /// Whether the query was answered with a proven value.
    pub fn is_proven(&self) -> (r: bool)
        ensures
            r == (*self is Proven),
    {
        matches!(self, Answer::Proven(_))
    }
}

/// Why a backend could not answer a query.
#[derive(Debug, Clone, PartialEq, Eq)]
pub enum Unsupported {
    /// The query requires cross-file semantic resolution (references,
    /// callers, implementations, precise subclasses). A syntax-only backend
    /// can never prove these.
    RequiresSemanticResolution,
    /// The backend does not cover the requested unit.
    UnitNotIndexed(String),
    /// The unit failed to parse, so extraction is incomplete: results that
    /// depend on its full contents cannot be proven.
    ParseIncomplete(String),
    /// The backend lacks a required capability for another reason.
    MissingCapability(&'static str),
}

/// Backend-independent program index.
///
/// Two query families, never conflated:
///
/// - **Syntactic facts** (definition, signature, imports, parse status):
///   provable deterministically from a parse of one source unit.
/// - **Semantic cross-file facts** (references, callers, implementations,
///   precise subclasses): require a semantic provider. A syntax-only
///   backend must return [`Answer::Unsupported`].
pub trait ProgramIndex {
    /// Parse status of a source unit.
    fn parse_status(&self, module: &ModuleId) -> Answer<ParseStatus>;

    /// Syntactic definition lookup by canonical symbol path.
    fn definition(&self, symbol: &SymbolPath) -> Answer<Option<Definition>>;

    /// Normalized signature of a function/method/async function.
    fn signature(&self, symbol: &SymbolPath) -> Answer<Option<Signature>>;

    /// All definitions declared in a module, in source order.
    fn definitions_in(&self, module: &ModuleId) -> Answer<Vec<Definition>>;

    /// Syntactic imports of a module, in source order.
    fn imports(&self, module: &ModuleId) -> Answer<Vec<Import>>;

    /// Map a changed-file set to the syntactically affected symbols.
    fn changed_symbols(&self, changed_paths: &[String]) -> Answer<Vec<SymbolPath>>;

    /// Content digest of a tracked Python file.
    fn file_digest(&self, path: &str) -> Answer<Option<ContentHash>>;

    /// Semantic: all references to a symbol.
    fn references(&self, symbol: &SymbolPath) -> Answer<Vec<SymbolPath>>;

    /// Semantic: all symbols that call a symbol.
    fn callers(&self, symbol: &SymbolPath) -> Answer<Vec<SymbolPath>>;

    /// Semantic: all classes implementing a trait/interface/protocol.
    fn implementations(&self, symbol: &SymbolPath) -> Answer<Vec<SymbolPath>>;

    /// Semantic: precise subclass relation.
    fn subclasses(&self, symbol: &SymbolPath) -> Answer<Vec<SymbolPath>>;
}

} // verus!
