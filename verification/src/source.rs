//! Deterministic source state: working-tree manifests, content hashing of
//! tracked files, lazy reconciliation of a stored snapshot against the
//! current working tree, and explicitly declared environment fingerprints.
//!
//! Dirtiness is **discovered, not tracked**: there is no watcher and no
//! daemon. Reconciliation is called at query/freeze time and computes the
//! exact changed-file set; it is deterministic and side-effect free.

pub mod environment;
pub mod freeze;
pub mod manifest;
pub mod reconcile;
