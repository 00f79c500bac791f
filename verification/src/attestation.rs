//! Validation attestations: the append-only evidentiary history of an
//! artifact.
//!
//! Authority belongs to immutable attestations scoped to a particular
//! source+semantic snapshot — never to mutable fields on the artifact.
//! Individual attestations never transition; an artifact's validation
//! history strengthens only by appending a stronger attestation.
use vstd::prelude::*;
use vstd::std_specs::iter::IteratorSpec;

use crate::artifact::Derivation;
use crate::error::DomainError;
use crate::ids::{
    hash_text, ArtifactId, AttestationId, BlobId, ContentHash, ProjectionObservationId, SnapshotId,
    Timestamp, VerifierId,
};
use crate::order::{bytes_le, lemma_bytes_le_antisymmetric, lemma_bytes_le_reflexive, lemma_bytes_le_total, lemma_bytes_le_transitive, Ordered};
use crate::validity::{level_rank, Authority, CaptureTrust, Validity, VerificationLevel};

verus! {

/// A reference to evidence backing an attestation.
#[derive(Debug, Clone, Copy, PartialEq, Eq, Hash)]
pub enum EvidenceRef {
    /// A CAS blob (e.g. a verifier result, an evaluation transcript).
    Blob(BlobId),
    /// A projection observation backing a dependency check.
    Observation(ProjectionObservationId),
    /// A prior attestation this one strengthens.
    PriorAttestation(AttestationId),
}

/// What a [`ValidationAttestation`] records.
pub struct AttestationModel {
    /// Identity of the attestation.
    pub id: ContentHash,
    /// The artifact the attestation speaks about.
    pub artifact_id: ContentHash,
    /// The source snapshot validity was evaluated against.
    pub target_source_snapshot: ContentHash,
    /// The authoritative semantic snapshot used, if any.
    pub target_semantic_snapshot: Option<SnapshotId>,
    /// Validity at the target world.
    pub validity: Validity,
    /// Authority of the establishing evidence.
    pub authority: Authority,
    /// Verification strength at establishment.
    pub verification_level: VerificationLevel,
    /// The verifier that established validity, if one was applied.
    pub verifier: Option<VerifierId>,
    /// Evidence references.
    pub evidence: Seq<EvidenceRef>,
    /// Capture trust propagated from the derivation.
    pub capture_trust: CaptureTrust,
    /// Creation time (unix epoch millis, UTC).
    pub created_at: u64,
}

/// One immutable record of an artifact's standing at a particular world
/// state.
///
/// CaptureTrust is **propagated, not claimed**: it is copied from the
/// derivation the artifact was produced by, and
/// [`ValidationAttestation::for_derivation`] enforces that by taking the
/// derivation itself.
#[derive(Debug, PartialEq, Eq, Hash)]
pub struct ValidationAttestation {
    attestation_id: AttestationId,
    artifact_id: ArtifactId,
    target_source_snapshot: SnapshotId,
    target_semantic_snapshot: Option<SnapshotId>,
    validity: Validity,
    authority: Authority,
    verification_level: VerificationLevel,
    verifier: Option<VerifierId>,
    evidence: Vec<EvidenceRef>,
    capture_trust: CaptureTrust,
    created_at: Timestamp,
}

impl View for ValidationAttestation {
    type V = AttestationModel;

    closed spec fn view(&self) -> AttestationModel {
        AttestationModel {
            id: self.attestation_id.0,
            artifact_id: self.artifact_id.0,
            target_source_snapshot: self.target_source_snapshot.0,
            target_semantic_snapshot: self.target_semantic_snapshot,
            validity: self.validity,
            authority: self.authority,
            verification_level: self.verification_level,
            verifier: self.verifier,
            evidence: self.evidence@,
            capture_trust: self.capture_trust,
            created_at: self.created_at,
        }
    }
}

impl Clone for ValidationAttestation {
    fn clone(&self) -> (r: Self)
        ensures
            r@ == self@,
    {
        ValidationAttestation {
            attestation_id: self.attestation_id,
            artifact_id: self.artifact_id,
            target_source_snapshot: self.target_source_snapshot,
            target_semantic_snapshot: self.target_semantic_snapshot,
            validity: self.validity,
            authority: self.authority,
            verification_level: self.verification_level,
            verifier: self.verifier,
            evidence: crate::order::copy_all(self.evidence.as_slice()),
            capture_trust: self.capture_trust,
            created_at: self.created_at,
        }
    }
}

impl ValidationAttestation {
    /// Construct an attestation whose capture trust is propagated from the
    /// derivation.
    ///
    /// `target_semantic_snapshot` is `Some` when validity was established
    /// against an authoritative semantic snapshot, and `None` for mid-task
    /// overlay evaluations.
    pub fn for_derivation(
        attestation_id: AttestationId,
        artifact_id: ArtifactId,
        derivation: &Derivation,
        target_source_snapshot: SnapshotId,
        target_semantic_snapshot: Option<SnapshotId>,
        validity: Validity,
        authority: Authority,
        verification_level: VerificationLevel,
        verifier: Option<VerifierId>,
        evidence: Vec<EvidenceRef>,
        created_at: Timestamp,
    ) -> (r: Self)
        ensures
            r@ == (AttestationModel {
                id: attestation_id.0,
                artifact_id: artifact_id.0,
                target_source_snapshot: target_source_snapshot.0,
                target_semantic_snapshot,
                validity,
                authority,
                verification_level,
                verifier,
                evidence: evidence@,
                capture_trust: derivation@.capture_trust,
                created_at,
            }),
    {
        ValidationAttestation {
            attestation_id,
            artifact_id,
            target_source_snapshot,
            target_semantic_snapshot,
            validity,
            authority,
            verification_level,
            verifier,
            evidence,
            capture_trust: derivation.capture_trust(),
            created_at,
        }
    }

    /// Identity of this attestation.
    pub fn id(&self) -> (r: AttestationId)
        ensures
            r.0 == self@.id,
    {
        self.attestation_id
    }

    /// The artifact this attestation speaks about.
    pub fn artifact_id(&self) -> (r: ArtifactId)
        ensures
            r.0 == self@.artifact_id,
    {
        self.artifact_id
    }

    /// The source snapshot (world state) validity was evaluated against.
    pub fn target_source_snapshot(&self) -> (r: SnapshotId)
        ensures
            r.0 == self@.target_source_snapshot,
    {
        self.target_source_snapshot
    }

    /// The authoritative semantic snapshot used, if any.
    pub fn target_semantic_snapshot(&self) -> (r: Option<SnapshotId>)
        ensures
            r == self@.target_semantic_snapshot,
    {
        self.target_semantic_snapshot
    }

    /// Validity at the target world.
    pub fn validity(&self) -> (r: Validity)
        ensures
            r == self@.validity,
    {
        self.validity
    }

    /// Authority of the establishing evidence.
    pub fn authority(&self) -> (r: Authority)
        ensures
            r == self@.authority,
    {
        self.authority
    }

    /// Verification strength at establishment.
    pub fn verification_level(&self) -> (r: VerificationLevel)
        ensures
            r == self@.verification_level,
    {
        self.verification_level
    }

    /// The verifier that established validity, if one was applied.
    pub fn verifier_id(&self) -> (r: Option<VerifierId>)
        ensures
            r == self@.verifier,
    {
        self.verifier
    }

    /// Evidence references.
    pub fn evidence(&self) -> (r: &[EvidenceRef])
        ensures
            r@ == self@.evidence,
    {
        self.evidence.as_slice()
    }

    /// Capture trust propagated from the derivation.
    pub fn capture_trust(&self) -> (r: CaptureTrust)
        ensures
            r == self@.capture_trust,
    {
        self.capture_trust
    }

    /// Creation time (unix epoch millis, UTC).
    pub fn created_at(&self) -> (r: Timestamp)
        ensures
            r == self@.created_at,
    {
        self.created_at
    }
}

/// Rank of an authority: `Authoritative` above `Provisional`.
pub open spec fn authority_rank(a: Authority) -> int {
    match a {
        Authority::Provisional => 0,
        Authority::Authoritative => 1,
    }
}

/// The standing order on attestations: authority, then verification level,
/// then creation time, then attestation id (digest byte order). `a` stands
/// no higher than `b`.
pub open spec fn standing_le(a: AttestationModel, b: AttestationModel) -> bool {
    if authority_rank(a.authority) != authority_rank(b.authority) {
        authority_rank(a.authority) < authority_rank(b.authority)
    } else if level_rank(a.verification_level) != level_rank(b.verification_level) {
        level_rank(a.verification_level) < level_rank(b.verification_level)
    } else if a.created_at != b.created_at {
        a.created_at < b.created_at
    } else {
        bytes_le(a.id.digest@, b.id.digest@)
    }
}

/// Among attestations of equal authority, a strictly higher verification
/// level stands strictly higher, whatever their creation times and ids.
pub proof fn lemma_higher_level_stands_higher(a: AttestationModel, b: AttestationModel)
    requires
        a.authority == b.authority,
        level_rank(a.verification_level) > level_rank(b.verification_level),
    ensures
        standing_le(b, a),
        !standing_le(a, b),
{
}

/// What stands highest in a history has no rival of equal authority and
/// higher verification level: no recorded attestation of the same
/// authority has a higher verification level.
pub proof fn lemma_highest_has_top_level(entries: Seq<AttestationModel>, s: AttestationModel, j: int)
    requires
        forall|k: int| 0 <= k < entries.len() ==> standing_le(#[trigger] entries[k], s),
        0 <= j < entries.len(),
        entries[j].authority == s.authority,
    ensures
        level_rank(entries[j].verification_level) <= level_rank(s.verification_level),
{
    if level_rank(entries[j].verification_level) > level_rank(s.verification_level) {
        lemma_higher_level_stands_higher(entries[j], s);
        assert(standing_le(entries[j], s));
    }
}

/// What an [`AttestationHistory`] records.
pub struct HistoryModel {
    /// The artifact this history belongs to.
    pub artifact_id: ContentHash,
    /// The attestations in append order.
    pub entries: Seq<AttestationModel>,
}

/// The history invariants: one artifact, distinct ids, non-decreasing
/// creation times.
pub open spec fn history_wf(h: HistoryModel) -> bool {
    &&& forall|i: int| 0 <= i < h.entries.len() ==> (#[trigger] h.entries[i]).artifact_id == h.artifact_id
    &&& forall|i: int, j: int|
        0 <= i < j < h.entries.len() ==> (#[trigger] h.entries[i]).id != (#[trigger] h.entries[j]).id
    &&& forall|i: int, j: int|
        0 <= i <= j < h.entries.len() ==> (#[trigger] h.entries[i]).created_at <= (
        #[trigger] h.entries[j]).created_at
}

/// Whether some recorded attestation has the given id.
pub open spec fn has_id(entries: Seq<AttestationModel>, id: ContentHash) -> bool {
    exists|i: int| 0 <= i < entries.len() && (#[trigger] entries[i]).id == id
}

/// The error an append is rejected with, if any.
pub open spec fn append_rejection(h: HistoryModel, a: AttestationModel, e: DomainError) -> bool {
    if a.artifact_id != h.artifact_id {
        e matches DomainError::ArtifactMismatch { history, attestation }
            && history@ == hash_text(h.artifact_id) && attestation@ == hash_text(a.artifact_id)
    } else if has_id(h.entries, a.id) {
        e matches DomainError::DuplicateAttestation { id } && id@ == hash_text(a.id)
    } else {
        &&& h.entries.len() > 0
        &&& a.created_at < h.entries.last().created_at
        &&& e == DomainError::AttestationOutOfOrder {
            latest: h.entries.last().created_at,
            rejected: a.created_at,
        }
    }
}

/// Whether an append of `a` to `h` is accepted.
pub open spec fn append_accepted(h: HistoryModel, a: AttestationModel) -> bool {
    &&& a.artifact_id == h.artifact_id
    &&& !has_id(h.entries, a.id)
    &&& (h.entries.len() > 0 ==> h.entries.last().created_at <= a.created_at)
}

/// The append-only validation history of one artifact.
///
/// # Invariants
/// - **Append-only.** There is no remove, no replace, no mutation. Earlier
///   attestations remain exactly what they always were.
/// - Every entry references the same artifact.
/// - Entries are appended in non-decreasing `created_at` order.
/// - [`AttestationHistory::strongest`] resolves the strongest recorded
///   standing deterministically.
#[derive(Debug, PartialEq, Eq)]
pub struct AttestationHistory {
    artifact_id: ArtifactId,
    entries: Vec<ValidationAttestation>,
}

impl View for AttestationHistory {
    type V = HistoryModel;

    closed spec fn view(&self) -> HistoryModel {
        HistoryModel {
            artifact_id: self.artifact_id.0,
            entries: self.entries@.map_values(|a: ValidationAttestation| a@),
        }
    }
}

impl AttestationHistory {
    #[verifier::type_invariant]
    spec fn invariants_hold(self) -> bool {
        history_wf(self@)
    }

    /// Start the (empty) history of one artifact.
    pub fn new(artifact_id: ArtifactId) -> (r: Self)
        ensures
            r@.artifact_id == artifact_id.0,
            r@.entries.len() == 0,
    {
        AttestationHistory { artifact_id, entries: Vec::new() }
    }

    /// The artifact this history belongs to.
    pub fn artifact_id(&self) -> (r: ArtifactId)
        ensures
            r.0 == self@.artifact_id,
    {
        self.artifact_id
    }

    /// Append an attestation. Enforces the history invariants; never
    /// mutates existing entries: on success the history grows by exactly
    /// the new entry, on failure it is unchanged.
    ///
    /// # Errors
    /// - [`DomainError::ArtifactMismatch`] if the attestation references a
    ///   different artifact.
    /// - [`DomainError::DuplicateAttestation`] if the attestation ID was
    ///   already recorded.
    /// - [`DomainError::AttestationOutOfOrder`] if `created_at` precedes
    ///   the latest recorded entry.
    pub fn append(&mut self, attestation: ValidationAttestation) -> (r: Result<(), DomainError>)
        ensures
            final(self)@.artifact_id == old(self)@.artifact_id,
            r is Ok <==> append_accepted(old(self)@, attestation@),
            r is Ok ==> final(self)@.entries == old(self)@.entries.push(attestation@),
            r matches Err(e) ==> final(self)@ == old(self)@ && append_rejection(
                old(self)@,
                attestation@,
                e,
            ),
            history_wf(final(self)@),
    {
        proof {
            use_type_invariant(&*self);
        }
        let ghost old_view = self@;
        if !attestation.artifact_id().0.eq_exec(&self.artifact_id.0) {
            return Err(
                DomainError::ArtifactMismatch {
                    history: self.artifact_id.to_string(),
                    attestation: attestation.artifact_id().to_string(),
                },
            );
        }
        let mut i: usize = 0;
        while i < self.entries.len()
            invariant
                i <= self.entries.len(),
                self@ == old_view,
                history_wf(old_view),
                attestation@.artifact_id == old_view.artifact_id,
                forall|k: int| 0 <= k < i ==> (#[trigger] self@.entries[k]).id != attestation@.id,
            decreases self.entries.len() - i,
        {
            if self.entries[i].id().0.eq_exec(&attestation.id().0) {
                assert(self@.entries[i as int] == self.entries@[i as int]@);
                assert(self@.entries[i as int].id == attestation@.id);
                return Err(DomainError::DuplicateAttestation { id: attestation.id().to_string() });
            }
            assert(self@.entries[i as int] == self.entries@[i as int]@);
            i = i + 1;
        }
        let n = self.entries.len();
        if n > 0 {
            let latest = self.entries[n - 1].created_at();
            assert(self@.entries.last() == self.entries@[n - 1]@);
            if attestation.created_at() < latest {
                return Err(
                    DomainError::AttestationOutOfOrder {
                        latest,
                        rejected: attestation.created_at(),
                    },
                );
            }
        }
        let ghost a = attestation@;
        let mut entries: Vec<ValidationAttestation> = Vec::new();
        std::mem::swap(&mut entries, &mut self.entries);
        entries.push(attestation);
        proof {
            assert(entries@.map_values(|x: ValidationAttestation| x@) =~= old_view.entries.push(a));
        }
        self.entries = entries;
        Ok(())
    }

    /// All attestations in append order. Read-only.
    pub fn entries(&self) -> (r: &[ValidationAttestation])
        ensures
            r@.map_values(|a: ValidationAttestation| a@) == self@.entries,
    {
        self.entries.as_slice()
    }

    /// An iterator over the attestations in append order.
    pub fn iter(&self) -> (r: std::slice::Iter<'_, ValidationAttestation>)
        ensures
            r.remaining().len() == self@.entries.len(),
            forall|i: int|
                0 <= i < self@.entries.len() ==> (*#[trigger] r.remaining()[i])@ == self@.entries[i],
    {
        let sl = self.entries.as_slice();
        let r = sl.iter();
        proof {
            broadcast use vstd::std_specs::slice::axiom_spec_slice_iter;
            assert(r.remaining() == sl@.as_ref());
        }
        r
    }

    /// Number of recorded attestations.
    pub fn len(&self) -> (r: usize)
        ensures
            r == self@.entries.len(),
    {
        self.entries.len()
    }

    /// Whether any attestation is recorded.
    pub fn is_empty(&self) -> (r: bool)
        ensures
            r == (self@.entries.len() == 0),
    {
        self.entries.len() == 0
    }

    /// The strongest recorded standing, deterministically:
    ///
    /// 1. `Authoritative` over `Provisional`;
    /// 2. then higher [`VerificationLevel`];
    /// 3. then latest `created_at`;
    /// 4. then greatest attestation ID (deterministic tiebreak).
    ///
    /// Applicability to a *current* world is decided by the engine at query
    /// time; this method resolves standing among recorded attestations only.
    pub fn strongest(&self) -> (r: Option<&ValidationAttestation>)
        ensures
            r is None <==> self@.entries.len() == 0,
            r matches Some(a) ==> {
                &&& exists|i: int| 0 <= i < self@.entries.len() && self@.entries[i] == a@
                &&& forall|j: int|
                    0 <= j < self@.entries.len() ==> standing_le(
                        #[trigger] self@.entries[j],
                        a@,
                    )
                &&& forall|j: int|
                    0 <= j < self@.entries.len() && (#[trigger] self@.entries[j]).authority == a@.authority
                        ==> level_rank(self@.entries[j].verification_level) <= level_rank(a@.verification_level)
            },
    {
        proof {
            use_type_invariant(self);
        }
        if self.entries.len() == 0 {
            return None;
        }
        let mut best: usize = 0;
        let mut i: usize = 1;
        proof {
            lemma_standing_reflexive(self@.entries[0]);
        }
        while i < self.entries.len()
            invariant
                1 <= i <= self.entries.len(),
                best < i,
                forall|j: int| 0 <= j < i ==> standing_le(#[trigger] self@.entries[j], self@.entries[best as int]),
            decreases self.entries.len() - i,
        {
            let ghost cand = self@.entries[i as int];
            let ghost cur = self@.entries[best as int];
            assert(cand == self.entries@[i as int]@);
            assert(cur == self.entries@[best as int]@);
            if stronger_or_equal(&self.entries[i], &self.entries[best]) {
                proof {
                    assert forall|j: int| 0 <= j < i + 1 implies standing_le(
                        #[trigger] self@.entries[j],
                        cand,
                    ) by {
                        if j < i {
                            lemma_standing_transitive(self@.entries[j], cur, cand);
                        } else {
                            lemma_standing_reflexive(cand);
                        }
                    }
                }
                best = i;
            } else {
                proof {
                    lemma_standing_total(cand, cur);
                }
            }
            i = i + 1;
        }
        assert(self@.entries[best as int] == self.entries@[best as int]@);
        proof {
            let top = self@.entries[best as int];
            assert forall|j: int|
                0 <= j < self@.entries.len() && (#[trigger] self@.entries[j]).authority == top.authority
                    implies level_rank(self@.entries[j].verification_level) <= level_rank(top.verification_level) by {
                lemma_highest_has_top_level(self@.entries, top, j);
            }
        }
        Some(&self.entries[best])
    }
}

proof fn lemma_standing_reflexive(a: AttestationModel)
    ensures
        standing_le(a, a),
{
    lemma_bytes_le_reflexive(a.id.digest@);
}

proof fn lemma_standing_transitive(a: AttestationModel, b: AttestationModel, c: AttestationModel)
    requires
        standing_le(a, b),
        standing_le(b, c),
    ensures
        standing_le(a, c),
{
    if authority_rank(a.authority) == authority_rank(b.authority) && authority_rank(b.authority)
        == authority_rank(c.authority) && level_rank(a.verification_level) == level_rank(
        b.verification_level,
    ) && level_rank(b.verification_level) == level_rank(c.verification_level) && a.created_at
        == b.created_at && b.created_at == c.created_at {
        lemma_bytes_le_transitive(a.id.digest@, b.id.digest@, c.id.digest@);
    }
}

proof fn lemma_standing_total(a: AttestationModel, b: AttestationModel)
    ensures
        standing_le(a, b) || standing_le(b, a),
{
    lemma_bytes_le_total(a.id.digest@, b.id.digest@);
}

/// Whether `a` stands at least as high as `b`.
fn stronger_or_equal(a: &ValidationAttestation, b: &ValidationAttestation) -> (r: bool)
    ensures
        r == standing_le(b@, a@),
{
    let aa: u8 = match a.authority() {
        Authority::Provisional => 0,
        Authority::Authoritative => 1,
    };
    let ab: u8 = match b.authority() {
        Authority::Provisional => 0,
        Authority::Authoritative => 1,
    };
    if aa != ab {
        return ab < aa;
    }
    let la = a.verification_level().rank();
    let lb = b.verification_level().rank();
    if la != lb {
        return lb < la;
    }
    if a.created_at() != b.created_at() {
        return b.created_at() < a.created_at();
    }
    b.id().0.le_exec(&a.id().0)
}

/// Two attestations in one history that are mutually no stronger than
/// each other are the same attestation: the standing order has no ties
/// among distinct recorded attestations, so the strongest is unique.
pub proof fn lemma_strongest_unique(h: HistoryModel, i: int, j: int)
    requires
        history_wf(h),
        0 <= i < h.entries.len(),
        0 <= j < h.entries.len(),
        standing_le(h.entries[i], h.entries[j]),
        standing_le(h.entries[j], h.entries[i]),
    ensures
        i == j,
{
    let a = h.entries[i];
    let b = h.entries[j];
    lemma_bytes_le_antisymmetric(a.id.digest@, b.id.digest@);
    assert(a.id.digest =~= b.id.digest);
    if i != j {
        if i < j {
            assert(h.entries[i].id != h.entries[j].id);
        } else {
            assert(h.entries[j].id != h.entries[i].id);
        }
    }
}

} // verus!
