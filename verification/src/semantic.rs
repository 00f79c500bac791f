//! The authoritative semantic freeze adapter: SCIP indexes ingested into
//! Trellis's own normalized program graph, the freeze rule, and the
//! coverage certificate a freeze can honestly establish.
//!
//! SCIP is an input adapter: everything here speaks Trellis types —
//! semantic snapshots, canonical caller/reference/implementation sets, and
//! coverage certificates. Units missing from the index are explicit
//! failures, never silent gaps.

pub mod freeze;
pub mod graph;
pub mod ingest;
