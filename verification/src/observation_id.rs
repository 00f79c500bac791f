//! Canonical observation identity: the single derivation for recording and
//! verification of projection observation ids.
use vstd::prelude::*;

use crate::canonical::{framed, leb128, write_bytes, write_str};
use crate::hash::blake3_digest;
use crate::ids::{ContentHash, HashAlgo, ProjectionId, ProjectionObservationId, SnapshotId};
use crate::text::utf8;

verus! {

/// The canonical bytes of an observation identity: domain tag, then the
/// projection id, value digest and snapshot id digests, each
/// length-prefixed.
pub open spec fn observation_encoding(
    projection: ContentHash,
    value_digest: ContentHash,
    snapshot: ContentHash,
) -> Seq<u8> {
    framed(utf8("trellis.projection-observation.v1"@)) + framed(projection.digest@) + framed(
        value_digest.digest@,
    ) + framed(snapshot.digest@)
}

/// The observation encoding is injective in its identity fields: equal
/// encodings come from equal projection, value and snapshot digests.
pub proof fn lemma_observation_encoding_injective(
    p1: ContentHash,
    v1: ContentHash,
    s1: ContentHash,
    p2: ContentHash,
    v2: ContentHash,
    s2: ContentHash,
)
    requires
        observation_encoding(p1, v1, s1) == observation_encoding(p2, v2, s2),
    ensures
        p1.digest == p2.digest,
        v1.digest == v2.digest,
        s1.digest == s2.digest,
{
    let e1 = observation_encoding(p1, v1, s1);
    let t = framed(utf8("trellis.projection-observation.v1"@));
    let n = t.len() as int;
    assert(leb128(32) == seq![32u8]);
    assert(e1 == t + framed(p1.digest@) + framed(v1.digest@) + framed(s1.digest@));
    assert(p1.digest@ =~= e1.subrange(n + 1, n + 33));
    assert(p2.digest@ =~= e1.subrange(n + 1, n + 33));
    assert(v1.digest@ =~= e1.subrange(n + 34, n + 66));
    assert(v2.digest@ =~= e1.subrange(n + 34, n + 66));
    assert(s1.digest@ =~= e1.subrange(n + 67, n + 99));
    assert(s2.digest@ =~= e1.subrange(n + 67, n + 99));
    crate::ids::lemma_digest_array(p1.digest);
    crate::ids::lemma_digest_array(p2.digest);
    crate::ids::lemma_digest_array(v1.digest);
    crate::ids::lemma_digest_array(v2.digest);
    crate::ids::lemma_digest_array(s1.digest);
    crate::ids::lemma_digest_array(s2.digest);
}

/// Derive the canonical observation id from its identity fields
/// `(projection id, value digest, snapshot id)`, domain-separated and
/// versioned. Persisted ids that do not re-derive are corrupt state.
pub fn canonical_observation_id(
    projection: &ProjectionId,
    value_digest: &ContentHash,
    snapshot: &SnapshotId,
) -> (r: ProjectionObservationId)
    ensures
        r.0.algo == HashAlgo::Blake3,
        r.0.digest@ == blake3_digest(observation_encoding(projection.0, *value_digest, snapshot.0)),
{
    let mut buf: Vec<u8> = Vec::new();
    write_str(&mut buf, "trellis.projection-observation.v1");
    write_bytes(&mut buf, projection.hash().digest.as_slice());
    write_bytes(&mut buf, value_digest.digest.as_slice());
    write_bytes(&mut buf, snapshot.hash().digest.as_slice());
    proof {
        assert(buf@ =~= observation_encoding(projection.0, *value_digest, snapshot.0));
    }
    ProjectionObservationId::from_hash(ContentHash::compute(HashAlgo::Blake3, buf.as_slice()))
}

} // verus!
