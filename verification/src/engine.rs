//! Dependency engine: conservative dirty-candidate discovery, projection
//! observation, and the red/green transition decisions.
//!
//! Soundness rule: candidate discovery may over-approximate — an
//! unnecessary reevaluation is acceptable — but must never omit a
//! potentially affected projection, because that would allow stale reuse
//! without reevaluation. Three concepts stay distinct: *candidate affected*
//! ≠ *projection value changed* ≠ *artifact stale*.

pub mod discovery;
pub mod ledger;
pub mod observe;
pub mod redgreen;
pub mod round;
pub mod sources;
