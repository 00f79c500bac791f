//! The BLAKE3 primitive behind every content identity.
//!
//! BLAKE3 itself is computed by the `blake3` crate; this module only names
//! its result so that identities can be stated as functions of their
//! canonical input bytes.
use vstd::prelude::*;

verus! {

/// The BLAKE3 digest of a byte sequence, as computed by `blake3::hash`.
pub uninterp spec fn blake3_digest(data: Seq<u8>) -> Seq<u8>;

/// Calls `blake3::hash` and returns the 32 digest bytes
/// (`Hash::as_bytes`). The contract claims only that the bytes are the
/// (deterministic) BLAKE3 digest of the input; nothing is claimed about
/// collisions.
#[verifier::external_body]
pub(crate) fn blake3_hash(data: &[u8]) -> (r: [u8; 32])
    ensures
        r@ == blake3_digest(data@),
{
    *blake3::hash(data).as_bytes()
}

/// The incremental BLAKE3 hasher of the `blake3` crate.
#[verifier::external_type_specification]
#[verifier::external_body]
pub struct ExBlake3Hasher(blake3::Hasher);

/// The bytes a `blake3::Hasher` has absorbed since it was created.
pub uninterp spec fn hasher_input(h: blake3::Hasher) -> Seq<u8>;

/// Calls `blake3::Hasher::new`: a hasher that has absorbed nothing.
#[verifier::external_body]
pub(crate) fn blake3_hasher_new() -> (r: blake3::Hasher)
    ensures
        hasher_input(r) == Seq::<u8>::empty(),
{
    blake3::Hasher::new()
}

/// Calls `blake3::Hasher::update`: the hasher absorbs `data` after what it
/// absorbed before.
#[verifier::external_body]
pub(crate) fn blake3_hasher_update(h: &mut blake3::Hasher, data: &[u8])
    ensures
        hasher_input(*final(h)) == hasher_input(*old(h)) + data@,
{
    h.update(data);
}

/// Calls `blake3::Hasher::finalize`: per the crate's documentation, the
/// result equals `blake3::hash` of everything absorbed so far.
#[verifier::external_body]
pub(crate) fn blake3_hasher_finalize(h: &blake3::Hasher) -> (r: [u8; 32])
    ensures
        r@ == blake3_digest(hasher_input(*h)),
{
    *h.finalize().as_bytes()
}

} // verus!
