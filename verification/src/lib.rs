//! Trellis: a provenance-aware incremental-computation runtime for coding
//! agents — the verified domain model and decision logic.
use vstd::prelude::*;

pub mod artifact;
pub mod attestation;
pub mod canonical;
pub mod cli;
pub mod cas;
pub mod coverage;
pub mod engine;
pub mod error;
pub mod hash;
pub mod ids;
pub mod json;
pub mod observation_id;
pub mod oracle;
pub mod order;
pub mod program;
pub mod projection;
pub mod semantic;
pub mod snapshot;
pub mod source;
pub mod text;
pub mod validity;

verus! {
} // verus!
