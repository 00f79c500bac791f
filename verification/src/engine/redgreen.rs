//! Red/green invalidation with value-equality cutoff and causal
//! explanation: the decisions of one transition.
//!
//! A transition reevaluates each candidate projection; a projection whose
//! reevaluated canonical value equals every compared prior observation is
//! **green** — dependents are never dirtied (the value-equality cutoff); a
//! projection whose value differs is **red** — every artifact declaring a
//! dependency on it has its validity contract evaluated and the outcome is
//! appended as a validation attestation. The persistence that carries the
//! recorded state sits outside the library; every decision of the run is
//! here.
//!
//! Epistemic discipline: internal evaluation states live only inside the
//! report; artifacts and attestations carry only the public validity /
//! authority / verification-level model. Nothing here mutates an artifact
//! or an existing attestation — every validity transition is an append.
use vstd::prelude::*;

use crate::artifact::{ArtifactEnvelope, ArtifactKind};
use crate::attestation::{EvidenceRef, ValidationAttestation};
use crate::coverage::{requirements_met, Completeness, CompletenessEvaluator, CoverageCertificate, Universe};
use crate::engine::discovery::RecordedObservation;
use crate::engine::observe::{digest_of, observe_message, value_digest, ObserveError};
use crate::hash::blake3_digest;
use crate::ids::{
    hash_text, ArtifactId, AttestationId, ContentHash, HashAlgo, ProjectionId,
    ProjectionObservationId, SnapshotId, Timestamp, VerifierId,
};
use crate::observation_id::{canonical_observation_id, observation_encoding};
use crate::order::{contains_ordered, views, Ordered};
use crate::projection::{completeness_sensitive, Projection, ProjectionKind, ProjectionObservation};
use crate::text::{decimal, owned, push_char, push_str, u64_to_decimal, utf8};
use crate::validity::{Authority, Validity, VerificationLevel};

verus! {

broadcast use vstd::seq_lib::group_to_multiset_ensures;

/// Transition failures. All explicit; nothing is silently dropped.
#[derive(Debug, PartialEq, Eq)]
pub enum TransitionError {
    /// Persistence failure (its message).
    Store(String),
    /// Observation-production failure (kind mismatch).
    Observe(ObserveError),
}

/// The human-readable rendering of a transition error.
pub open spec fn transition_message(e: TransitionError) -> Seq<char> {
    match e {
        TransitionError::Store(m) => "store: "@ + m@,
        TransitionError::Observe(o) => "observe: "@ + observe_message(o),
    }
}

impl TransitionError {
    /// The error rendered for people.
    pub fn to_string(&self) -> (r: String)
        ensures
            r@ == transition_message(*self),
    {
        match self {
            TransitionError::Store(m) => {
                let mut s = owned("store: ");
                push_str(&mut s, m.as_str());
                s
            },
            TransitionError::Observe(o) => {
                let mut s = owned("observe: ");
                let inner = o.to_string();
                push_str(&mut s, inner.as_str());
                s
            },
        }
    }
}

/// A reevaluated projection value plus the epistemic class of the source
/// that proved it. `authoritative = false` marks provisional evidence
/// (e.g. a mid-task overlay); such evidence can never establish
/// authoritative validity.
#[derive(Debug, PartialEq, Eq)]
pub struct Evaluated {
    value: String,
    authoritative: bool,
}

impl View for Evaluated {
    type V = (Seq<char>, bool);

    closed spec fn view(&self) -> (Seq<char>, bool) {
        (self.value@, self.authoritative)
    }
}

impl Clone for Evaluated {
    fn clone(&self) -> (r: Self)
        ensures
            r@ == self@,
    {
        Evaluated { value: self.value.clone(), authoritative: self.authoritative }
    }
}

impl Evaluated {
    /// A proven value with its evidence class.
    pub fn new(value: &str, authoritative: bool) -> (r: Self)
        ensures
            r@ == (value@, authoritative),
    {
        Evaluated { value: owned(value), authoritative }
    }

    /// The canonical value rendering.
    pub fn value(&self) -> (r: &str)
        ensures
            r@ == self@.0,
    {
        self.value.as_str()
    }

    /// Whether the evidence class is authoritative.
    pub fn is_authoritative(&self) -> (r: bool)
        ensures
            r == self@.1,
    {
        self.authoritative
    }
}

/// The completeness context a transition is evaluated under: the explicit
/// eligible universe, the backend's coverage certificate for this
/// snapshot, and the indexer identity.
#[derive(Debug, PartialEq, Eq)]
pub struct CoverageContext {
    /// The eligible universe this transition's world state declares.
    pub universe: Universe,
    /// The backend's coverage capabilities over that universe.
    pub certificate: CoverageCertificate,
    /// Indexer identity/version/config.
    pub indexer: String,
}

/// Where a projection's current value comes from. `None` never means
/// "empty": it means "no evidence this round", and the transition treats
/// it as unobserved rather than as a change.
pub trait ReevaluationSource {
    /// The projection's canonical value at the current world state, or
    /// `None` when this source has no proven evidence for it.
    fn evaluate(&self, projection: &Projection) -> Result<Option<Evaluated>, TransitionError>;
}

/// Canonical identity of the built-in set-continuity contract
/// (`StructuralSet` artifacts): valid iff every reevaluated dependency
/// value equals the value pinned by the artifact's latest attestation.
pub const SET_EQUALITY_CONTRACT: &'static str = "trellis.contract/set-equality.v1";

/// Canonical identity of the built-in absence contract (`Fact` artifacts
/// carrying an absence proposition): valid iff every reevaluated
/// dependency value is the canonical empty-set encoding.
pub const ABSENCE_FACT_CONTRACT: &'static str = "trellis.contract/absence-fact.v1";

/// The verifier identity of a contract name: BLAKE3 over the name.
pub open spec fn verifier_digest(name: Seq<char>) -> Seq<u8> {
    blake3_digest(utf8(name))
}

/// The verifier identity for a built-in contract name (BLAKE3 over the
/// name), so contract selection round-trips through persistence.
pub fn contract_verifier_id(name: &str) -> (r: VerifierId)
    ensures
        r.0.algo == HashAlgo::Blake3,
        r.0.digest@ == verifier_digest(name@),
{
    VerifierId::from_hash(ContentHash::compute(HashAlgo::Blake3, name.as_bytes()))
}

/// Internal evaluation outcome of one candidate projection.
#[derive(Debug, Clone, Copy, PartialEq, Eq, Structural)]
pub enum ProjectionOutcomeKind {
    /// Reevaluated value equals every compared prior observation: green —
    /// dependents are not dirtied.
    Unchanged,
    /// Reevaluated value differs from at least one compared prior
    /// observation: red — dependent artifacts are re-contracted.
    Changed,
    /// The source had no proven evidence this round: nothing was recorded
    /// and nothing changed (absence of evidence is not a change).
    Unobserved,
}

/// How an artifact's validity was settled by the transition.
#[derive(Debug, Clone, Copy, PartialEq, Eq, Structural)]
pub enum ContractVerdict {
    /// The contract holds under the reevaluated dependencies.
    Holds,
    /// The contract fails under the reevaluated dependencies.
    Fails,
    /// The contract could not be evaluated: conservative UNKNOWN appended
    /// — never auto-reuse.
    Undecidable,
}

/// The public validity a verdict appends.
pub open spec fn verdict_validity(v: ContractVerdict) -> Validity {
    match v {
        ContractVerdict::Holds => Validity::Valid,
        ContractVerdict::Fails => Validity::Stale,
        ContractVerdict::Undecidable => Validity::Unknown,
    }
}

impl From<ContractVerdict> for Validity {
    fn from(v: ContractVerdict) -> (r: Validity) {
        match v {
            ContractVerdict::Holds => Validity::Valid,
            ContractVerdict::Fails => Validity::Stale,
            ContractVerdict::Undecidable => Validity::Unknown,
        }
    }
}

impl vstd::std_specs::convert::FromSpecImpl<ContractVerdict> for Validity {
    open spec fn obeys_from_spec() -> bool {
        true
    }

    open spec fn from_spec(v: ContractVerdict) -> Validity {
        verdict_validity(v)
    }
}

/// The explain record for one reevaluated projection.
#[derive(Debug, PartialEq, Eq)]
pub struct ProjectionOutcome {
    projection: Projection,
    compared: Vec<ProjectionObservationId>,
    prior_digest: Option<ContentHash>,
    new_value: Option<String>,
    new_digest: Option<ContentHash>,
    outcome: ProjectionOutcomeKind,
    completeness: Option<Completeness>,
    completeness_dirty: bool,
    affected_artifacts: Vec<ArtifactId>,
}

/// What a [`ProjectionOutcome`] records.
pub struct OutcomeModel {
    /// The evaluated projection key.
    pub projection: crate::projection::ProjectionModel,
    /// Prior observations the new value was compared against.
    pub compared: Seq<ContentHash>,
    /// The digest of the first compared prior observation.
    pub prior_digest: Option<ContentHash>,
    /// The reevaluated canonical value, when proven.
    pub new_value: Option<Seq<char>>,
    /// Digest of the reevaluated value.
    pub new_digest: Option<ContentHash>,
    /// The internal evaluation outcome.
    pub outcome: ProjectionOutcomeKind,
    /// The completeness verdict of this round.
    pub completeness: Option<Completeness>,
    /// Whether only the completeness standing changed.
    pub completeness_dirty: bool,
    /// Artifacts re-contracted because of this projection.
    pub affected_artifacts: Seq<ContentHash>,
}

/// The view of an optional string.
pub open spec fn opt_chars(o: Option<String>) -> Option<Seq<char>> {
    match o {
        Some(s) => Some(s@),
        None => None,
    }
}

impl View for ProjectionOutcome {
    type V = OutcomeModel;

    closed spec fn view(&self) -> OutcomeModel {
        OutcomeModel {
            projection: self.projection@,
            compared: views(self.compared@),
            prior_digest: self.prior_digest,
            new_value: opt_chars(self.new_value),
            new_digest: self.new_digest,
            outcome: self.outcome,
            completeness: self.completeness,
            completeness_dirty: self.completeness_dirty,
            affected_artifacts: views(self.affected_artifacts@),
        }
    }
}

impl ProjectionOutcome {
    /// The evaluated projection key.
    pub fn projection(&self) -> (r: &Projection)
        ensures
            r@ == self@.projection,
    {
        &self.projection
    }

    /// Prior observations the new value was compared against.
    pub fn compared(&self) -> (r: &[ProjectionObservationId])
        ensures
            views(r@) == self@.compared,
    {
        self.compared.as_slice()
    }

    /// The digest of the first compared prior observation.
    pub fn prior_digest(&self) -> (r: Option<&ContentHash>)
        ensures
            match r {
                Some(d) => self@.prior_digest == Some(*d),
                None => self@.prior_digest is None,
            },
    {
        match &self.prior_digest {
            Some(d) => Some(d),
            None => None,
        }
    }

    /// The reevaluated canonical value, when proven.
    pub fn new_value(&self) -> (r: Option<&str>)
        ensures
            match r {
                Some(v) => self@.new_value == Some(v@),
                None => self@.new_value is None,
            },
    {
        match &self.new_value {
            Some(v) => Some(v.as_str()),
            None => None,
        }
    }

    /// Digest of the reevaluated canonical value.
    pub fn new_digest(&self) -> (r: Option<&ContentHash>)
        ensures
            match r {
                Some(d) => self@.new_digest == Some(*d),
                None => self@.new_digest is None,
            },
    {
        match &self.new_digest {
            Some(d) => Some(d),
            None => None,
        }
    }

    /// The internal evaluation outcome (never persisted on artifacts).
    pub fn outcome(&self) -> (r: ProjectionOutcomeKind)
        ensures
            r == self@.outcome,
    {
        self.outcome
    }

    /// The completeness verdict for completeness-sensitive kinds evaluated
    /// under a coverage context.
    pub fn completeness(&self) -> (r: Option<Completeness>)
        ensures
            r == self@.completeness,
    {
        self.completeness
    }

    /// Whether the completeness standing changed this round.
    pub fn completeness_dirty(&self) -> (r: bool)
        ensures
            r == self@.completeness_dirty,
    {
        self.completeness_dirty
    }

    /// Artifacts whose validity contract was re-evaluated because of this
    /// projection's value change.
    pub fn affected_artifacts(&self) -> (r: &[ArtifactId])
        ensures
            views(r@) == self@.affected_artifacts,
    {
        self.affected_artifacts.as_slice()
    }

    /// Record the dependents re-contracted because of this projection.
    pub fn set_affected_artifacts(&mut self, artifacts: Vec<ArtifactId>)
        ensures
            final(self)@ == (OutcomeModel { affected_artifacts: views(artifacts@), ..old(self)@ }),
    {
        self.affected_artifacts = artifacts;
    }

    /// Whether the projection's dependents enter the artifact pass: a value
    /// change, or a completeness-standing change.
    pub fn dirties_dependents(&self) -> (r: bool)
        ensures
            r == (self@.outcome == ProjectionOutcomeKind::Changed || self@.completeness_dirty),
    {
        matches!(self.outcome, ProjectionOutcomeKind::Changed) || self.completeness_dirty
    }
}

/// The completeness verdict a round evaluates a projection under: only
/// completeness-sensitive kinds under a supplied coverage context get one.
pub open spec fn round_completeness(
    certificate: Option<CoverageCertificate>,
    kind: ProjectionKind,
) -> Option<Completeness> {
    match certificate {
        Some(c) => if completeness_sensitive(kind) {
            Some(
                if requirements_met(kind, c) {
                    Completeness::Complete
                } else {
                    Completeness::Unknown
                },
            )
        } else {
            None
        },
        None => None,
    }
}

/// The certificate of an optional coverage context.
pub open spec fn context_certificate(c: Option<&CoverageContext>) -> Option<CoverageCertificate> {
    match c {
        Some(ctx) => Some(ctx.certificate),
        None => None,
    }
}

/// The completeness verdict for this round.
pub fn completeness_for(coverage: Option<&CoverageContext>, kind: ProjectionKind) -> (r: Option<
    Completeness,
>)
    ensures
        r == round_completeness(context_certificate(coverage), kind),
{
    match coverage {
        Some(ctx) => if kind.is_completeness_sensitive() {
            Some(CompletenessEvaluator::evaluate(kind, &ctx.certificate))
        } else {
            None
        },
        None => None,
    }
}

/// A completeness-sensitive projection's persisted `(Q, U, C)` binding is
/// stale: never bound, or bound to another universe, certificate, or
/// indexer. Such a projection is reevaluated even with no file change.
pub fn binding_is_stale(
    bound: Option<(ContentHash, ContentHash, &str)>,
    universe_digest: &ContentHash,
    coverage_digest: &ContentHash,
    indexer: &str,
) -> (r: bool)
    ensures
        r == match bound {
            None => true,
            Some((u, c, i)) => u != *universe_digest || c != *coverage_digest || i@ != indexer@,
        },
{
    match bound {
        None => true,
        Some((u, c, i)) => !u.eq_exec(universe_digest) || !c.eq_exec(coverage_digest)
            || !crate::text::str_eq(i, indexer),
    }
}

/// Whether a persisted completeness binding (universe digest, coverage
/// digest, indexer) no longer matches the current coverage: a missing
/// binding never matches.
pub open spec fn binding_stale(
    bound: Option<(ContentHash, ContentHash, String)>,
    universe_digest: ContentHash,
    coverage_digest: ContentHash,
    indexer: Seq<char>,
) -> bool {
    match bound {
        None => true,
        Some((u, c, i)) => u != universe_digest || c != coverage_digest || i@ != indexer,
    }
}

/// The projections forced by the first `n` recorded observations, in
/// recorded order and without repeats: completeness-sensitive ones whose
/// persisted binding is stale.
pub open spec fn forced_upto(
    recorded: Seq<RecordedObservation>,
    bound: Seq<Option<(ContentHash, ContentHash, String)>>,
    universe_digest: ContentHash,
    coverage_digest: ContentHash,
    indexer: Seq<char>,
    n: int,
) -> Seq<ContentHash>
    decreases n,
{
    if n <= 0 {
        Seq::empty()
    } else {
        let f = forced_upto(recorded, bound, universe_digest, coverage_digest, indexer, n - 1);
        let pid = recorded[n - 1].observation@.projection;
        if completeness_sensitive(recorded[n - 1].projection@.kind) && !f.contains(pid) && binding_stale(
            bound[n - 1],
            universe_digest,
            coverage_digest,
            indexer,
        ) {
            f.push(pid)
        } else {
            f
        }
    }
}

/// The projections whose completeness binding no longer matches the
/// current coverage, which forces their reevaluation even over an
/// untouched tree. `bound[i]` is the persisted binding of the projection
/// of `recorded[i]` (read only for completeness-sensitive kinds).
pub fn forced_projections(
    recorded: &[RecordedObservation],
    bound: &[Option<(ContentHash, ContentHash, String)>],
    universe_digest: &ContentHash,
    coverage_digest: &ContentHash,
    indexer: &str,
) -> (r: Vec<ProjectionId>)
    requires
        bound@.len() == recorded@.len(),
    ensures
        views(r@) == forced_upto(recorded@, bound@, *universe_digest, *coverage_digest, indexer@, recorded@.len() as int),
{
    let mut forced: Vec<ProjectionId> = Vec::new();
    let mut i: usize = 0;
    while i < recorded.len()
        invariant
            i <= recorded@.len(),
            bound@.len() == recorded@.len(),
            views(forced@) == forced_upto(recorded@, bound@, *universe_digest, *coverage_digest, indexer@, i as int),
        decreases recorded.len() - i,
    {
        let ghost pre = forced@;
        let pid = recorded[i].observation.projection();
        if recorded[i].projection.kind().is_completeness_sensitive() && !contains_ordered(&forced, &pid) {
            let b = match &bound[i] {
                None => None,
                Some((u, c, x)) => Some((*u, *c, x.as_str())),
            };
            if binding_is_stale(b, universe_digest, coverage_digest, indexer) {
                forced.push(pid);
                proof {
                    crate::order::lemma_views_push(pre, pid);
                }
            }
        }
        i = i + 1;
    }
    forced
}

/// A completeness-standing change relative to the persisted binding
/// dirties the claim even when the value is identical.
pub fn claim_is_dirty(completeness: Option<Completeness>, bound: Option<Completeness>) -> (r: bool)
    ensures
        r == match completeness {
            Some(v) => bound != Some(v),
            None => false,
        },
{
    match completeness {
        Some(v) => match bound {
            Some(b) => !matches!((b, v), (Completeness::Complete, Completeness::Complete) | (Completeness::Unknown, Completeness::Unknown)),
            None => true,
        },
        None => false,
    }
}

/// Whether some compared observation recorded another digest.
pub open spec fn differs_from_some(compared: Seq<RecordedObservation>, digest: ContentHash) -> bool {
    exists|i: int| 0 <= i < compared.len() && (#[trigger] compared[i]).observation@.value_digest != digest
}

/// The evaluation of one candidate projection: the outcome record and the
/// fresh observation recorded for it, if any.
pub struct ProjectionEvaluation {
    /// The explain record.
    pub outcome: ProjectionOutcome,
    /// The fresh observation to record (proven values only).
    pub observation: Option<ProjectionObservation>,
}

/// Evaluate one candidate projection against its compared prior
/// observations (all recorded for that projection).
///
/// With a proven value: the value digest is compared against every prior
/// digest; the projection is `Changed` if any differs or the completeness
/// claim is dirty, `Unchanged` otherwise (the value-equality cutoff), and
/// a fresh observation of the value at the target snapshot is recorded.
/// Without evidence: `Unobserved`, nothing recorded.
pub fn evaluate_projection(
    compared: &[RecordedObservation],
    evaluated: Option<Evaluated>,
    completeness: Option<Completeness>,
    claim_dirty: bool,
    target_snapshot: SnapshotId,
) -> (r: ProjectionEvaluation)
    requires
        compared@.len() > 0,
    ensures
        r.outcome@.projection == compared@[0].projection@,
        r.outcome@.compared == compared@.map_values(|o: RecordedObservation| o.observation@.id),
        r.outcome@.prior_digest == Some(compared@[0].observation@.value_digest),
        r.outcome@.completeness == completeness,
        r.outcome@.affected_artifacts.len() == 0,
        match evaluated {
            Some(ev) => {
                let digest = r.outcome@.new_digest->0;
                let value_changed = differs_from_some(compared@, digest);
                &&& r.outcome@.new_digest is Some
                &&& digest.algo == HashAlgo::Blake3
                &&& digest.digest@ == value_digest(ev@.0)
                &&& r.outcome@.new_value == Some(ev@.0)
                &&& r.outcome@.outcome == (if value_changed || claim_dirty {
                    ProjectionOutcomeKind::Changed
                } else {
                    ProjectionOutcomeKind::Unchanged
                })
                &&& r.outcome@.completeness_dirty == (claim_dirty && !value_changed)
                &&& r.observation matches Some(o) && o@.projection == compared@[0].observation@.projection
                    && o@.snapshot == target_snapshot.0 && o@.value_digest == digest
                    && o@.canonical_value is None && o@.id.algo == HashAlgo::Blake3
                    && o@.id.digest@ == blake3_digest(observation_encoding(o@.projection, digest, target_snapshot.0))
            },
            None => {
                &&& r.outcome@.outcome == ProjectionOutcomeKind::Unobserved
                &&& r.outcome@.new_value is None
                &&& r.outcome@.new_digest is None
                &&& r.outcome@.completeness_dirty == claim_dirty
                &&& r.observation is None
            },
        },
{
    let ghost cv = compared@.map_values(|o: RecordedObservation| o.observation@.id);
    let mut ids: Vec<ProjectionObservationId> = Vec::new();
    let mut i: usize = 0;
    while i < compared.len()
        invariant
            i <= compared@.len(),
            cv == compared@.map_values(|o: RecordedObservation| o.observation@.id),
            views(ids@) == cv.subrange(0, i as int),
        decreases compared.len() - i,
    {
        let ghost pre = ids@;
        let id = compared[i].observation.id();
        ids.push(id);
        proof {
            crate::order::lemma_views_push(pre, id);
            assert(cv.subrange(0, i + 1) =~= cv.subrange(0, i as int).push(cv[i as int]));
        }
        i = i + 1;
    }
    assert(cv.subrange(0, compared@.len() as int) =~= cv);
    let projection = compared[0].projection.clone();
    let prior = *compared[0].observation.value_digest();
    match evaluated {
        Some(ev) => {
            let new_digest = digest_of(ev.value());
            let mut value_changed = false;
            let mut k: usize = 0;
            while k < compared.len()
                invariant
                    k <= compared@.len(),
                    value_changed == exists|j: int|
                        0 <= j < k && (#[trigger] compared@[j]).observation@.value_digest != new_digest,
                decreases compared.len() - k,
            {
                if !compared[k].observation.value_digest().eq_exec(&new_digest) {
                    value_changed = true;
                }
                k = k + 1;
            }
            let pid = compared[0].observation.projection();
            let new_observation = ProjectionObservation::new(
                canonical_observation_id(&pid, &new_digest, &target_snapshot),
                pid,
                target_snapshot,
                new_digest,
                None,
            );
            let changed = value_changed || claim_dirty;
            let outcome = ProjectionOutcome {
                projection,
                compared: ids,
                prior_digest: Some(prior),
                new_value: Some(owned(ev.value())),
                new_digest: Some(new_digest),
                outcome: if changed {
                    ProjectionOutcomeKind::Changed
                } else {
                    ProjectionOutcomeKind::Unchanged
                },
                completeness,
                completeness_dirty: claim_dirty && !value_changed,
                affected_artifacts: Vec::new(),
            };
            ProjectionEvaluation { outcome, observation: Some(new_observation) }
        },
        None => {
            let outcome = ProjectionOutcome {
                projection,
                compared: ids,
                prior_digest: Some(prior),
                new_value: None,
                new_digest: None,
                outcome: ProjectionOutcomeKind::Unobserved,
                completeness,
                completeness_dirty: claim_dirty,
                affected_artifacts: Vec::new(),
            };
            ProjectionEvaluation { outcome, observation: None }
        },
    }
}

/// One dependency's before/after comparison inside an artifact outcome.
#[derive(Debug, PartialEq, Eq)]
pub struct DependencyEvaluation {
    projection: ProjectionId,
    changed: bool,
    authoritative: bool,
    completeness: Option<Completeness>,
    completeness_dirty: bool,
    pinned_digest: Option<ContentHash>,
    new_digest: Option<ContentHash>,
    new_value: Option<String>,
}

/// What a [`DependencyEvaluation`] records.
pub struct DependencyModel {
    /// The dependent projection.
    pub projection: ContentHash,
    /// Whether the value changed relative to the pinned prior value.
    pub changed: bool,
    /// Whether the fresh evidence is authoritative.
    pub authoritative: bool,
    /// The completeness verdict of the fresh evidence.
    pub completeness: Option<Completeness>,
    /// Whether only the completeness standing changed.
    pub completeness_dirty: bool,
    /// The value the latest attestation pinned, when found.
    pub pinned_digest: Option<ContentHash>,
    /// The reevaluated value digest.
    pub new_digest: Option<ContentHash>,
    /// The reevaluated canonical value, when proven.
    pub new_value: Option<Seq<char>>,
}

impl View for DependencyEvaluation {
    type V = DependencyModel;

    closed spec fn view(&self) -> DependencyModel {
        DependencyModel {
            projection: self.projection.0,
            changed: self.changed,
            authoritative: self.authoritative,
            completeness: self.completeness,
            completeness_dirty: self.completeness_dirty,
            pinned_digest: self.pinned_digest,
            new_digest: self.new_digest,
            new_value: opt_chars(self.new_value),
        }
    }
}

impl Clone for DependencyEvaluation {
    fn clone(&self) -> (r: Self)
        ensures
            r@ == self@,
    {
        DependencyEvaluation {
            projection: self.projection,
            changed: self.changed,
            authoritative: self.authoritative,
            completeness: self.completeness,
            completeness_dirty: self.completeness_dirty,
            pinned_digest: self.pinned_digest,
            new_digest: self.new_digest,
            new_value: match &self.new_value {
                Some(v) => Some(v.clone()),
                None => None,
            },
        }
    }
}

impl DependencyEvaluation {
    /// The evaluation of a dependency whose projection entered the artifact
    /// pass: with a fresh observation, its digest and (when the value
    /// changed) the value and evidence class; without one, nothing fresh.
    /// The pinned value is resolved later against the latest attestation.
    pub fn for_dependency(
        outcome: &ProjectionOutcome,
        projection: ProjectionId,
        fresh: Option<&ProjectionObservation>,
        changed_value: Option<&Evaluated>,
    ) -> (r: Self)
        ensures
            r@.projection == projection.0,
            r@.completeness == outcome@.completeness,
            r@.completeness_dirty == outcome@.completeness_dirty,
            r@.pinned_digest is None,
            match fresh {
                Some(o) => {
                    &&& r@.changed == (outcome@.outcome == ProjectionOutcomeKind::Changed)
                    &&& r@.authoritative == (changed_value matches Some(ev) && ev@.1)
                    &&& r@.new_digest == Some(o@.value_digest)
                    &&& r@.new_value == match changed_value {
                        Some(ev) => Some(ev@.0),
                        None => None::<Seq<char>>,
                    }
                },
                None => !r@.changed && !r@.authoritative && r@.new_digest is None && r@.new_value is None,
            },
    {
        match fresh {
            Some(o) => DependencyEvaluation {
                projection,
                changed: matches!(outcome.outcome(), ProjectionOutcomeKind::Changed),
                authoritative: match changed_value {
                    Some(ev) => ev.is_authoritative(),
                    None => false,
                },
                completeness: outcome.completeness(),
                completeness_dirty: outcome.completeness_dirty(),
                pinned_digest: None,
                new_digest: Some(*o.value_digest()),
                new_value: match changed_value {
                    Some(ev) => Some(owned(ev.value())),
                    None => None,
                },
            },
            None => DependencyEvaluation {
                projection,
                changed: false,
                authoritative: false,
                completeness: outcome.completeness(),
                completeness_dirty: outcome.completeness_dirty(),
                pinned_digest: None,
                new_digest: None,
                new_value: None,
            },
        }
    }

    /// The dependent projection.
    pub fn projection(&self) -> (r: &ProjectionId)
        ensures
            r.0 == self@.projection,
    {
        &self.projection
    }

    /// Whether the value changed relative to the pinned prior value.
    pub fn changed(&self) -> (r: bool)
        ensures
            r == self@.changed,
    {
        self.changed
    }

    /// Whether the fresh evidence is authoritative.
    pub fn is_authoritative(&self) -> (r: bool)
        ensures
            r == self@.authoritative,
    {
        self.authoritative
    }

    /// The completeness verdict of this dependency's fresh evidence.
    pub fn completeness(&self) -> (r: Option<Completeness>)
        ensures
            r == self@.completeness,
    {
        self.completeness
    }

    /// Whether the completeness standing changed relative to the persisted
    /// binding.
    pub fn completeness_dirty(&self) -> (r: bool)
        ensures
            r == self@.completeness_dirty,
    {
        self.completeness_dirty
    }

    /// The value the artifact's latest attestation pinned for this
    /// dependency, when found.
    pub fn pinned_digest(&self) -> (r: Option<&ContentHash>)
        ensures
            match r {
                Some(d) => self@.pinned_digest == Some(*d),
                None => self@.pinned_digest is None,
            },
    {
        match &self.pinned_digest {
            Some(d) => Some(d),
            None => None,
        }
    }

    /// The reevaluated value digest.
    pub fn new_digest(&self) -> (r: Option<&ContentHash>)
        ensures
            match r {
                Some(d) => self@.new_digest == Some(*d),
                None => self@.new_digest is None,
            },
    {
        match &self.new_digest {
            Some(d) => Some(d),
            None => None,
        }
    }

    /// The reevaluated canonical value, when proven.
    pub fn new_value(&self) -> (r: Option<&str>)
        ensures
            match r {
                Some(v) => self@.new_value == Some(v@),
                None => self@.new_value is None,
            },
    {
        match &self.new_value {
            Some(v) => Some(v.as_str()),
            None => None,
        }
    }

    /// Settle the pinned prior value: the dependency changed unless both a
    /// pinned and a fresh digest exist and agree.
    pub fn pin(&mut self, pinned: Option<ContentHash>)
        ensures
            final(self)@ == (DependencyModel {
                pinned_digest: pinned,
                changed: dependency_changed(pinned, old(self)@.new_digest),
                ..old(self)@
            }),
    {
        self.changed = match (&pinned, &self.new_digest) {
            (Some(p), Some(n)) => !p.eq_exec(n),
            _ => true,
        };
        self.pinned_digest = pinned;
    }
}

/// A dependency changed unless both a pinned and a fresh digest exist and
/// agree.
pub open spec fn dependency_changed(pinned: Option<ContentHash>, new: Option<ContentHash>) -> bool {
    match (pinned, new) {
        (Some(p), Some(n)) => p != n,
        _ => true,
    }
}

/// The digest a latest attestation pinned for a dependency: the last
/// observation evidence (in evidence order) whose resolved observation
/// belongs to the projection. `resolved[i]` is the recorded observation
/// evidence `i` refers to, when it could be loaded.
pub open spec fn pinned_from(
    evidence: Seq<EvidenceRef>,
    resolved: Seq<Option<ProjectionObservation>>,
    projection: ContentHash,
) -> Option<ContentHash>
    decreases evidence.len(),
{
    if evidence.len() == 0 {
        None
    } else {
        let i = evidence.len() - 1;
        let here = match (evidence[i], resolved[i]) {
            (EvidenceRef::Observation(_), Some(o)) => if o@.projection == projection {
                Some(o@.value_digest)
            } else {
                None
            },
            _ => None,
        };
        match here {
            Some(d) => Some(d),
            None => pinned_from(evidence.drop_last(), resolved.drop_last(), projection),
        }
    }
}

/// Resolve the pinned prior value of a dependency from the latest
/// attestation's observation evidence.
pub fn pinned_digest_from(
    evidence: &[EvidenceRef],
    resolved: &[Option<ProjectionObservation>],
    projection: &ProjectionId,
) -> (r: Option<ContentHash>)
    requires
        resolved@.len() == evidence@.len(),
    ensures
        r == pinned_from(evidence@, resolved@, projection.0),
{
    let mut i: usize = evidence.len();
    proof {
        assert(evidence@.subrange(0, i as int) =~= evidence@);
        assert(resolved@.subrange(0, i as int) =~= resolved@);
    }
    while i > 0
        invariant
            i <= evidence@.len(),
            resolved@.len() == evidence@.len(),
            pinned_from(evidence@, resolved@, projection.0) == pinned_from(
                evidence@.subrange(0, i as int),
                resolved@.subrange(0, i as int),
                projection.0,
            ),
        decreases i,
    {
        let k = i - 1;
        proof {
            let e = evidence@.subrange(0, i as int);
            let rs = resolved@.subrange(0, i as int);
            assert(e.drop_last() =~= evidence@.subrange(0, k as int));
            assert(rs.drop_last() =~= resolved@.subrange(0, k as int));
            assert(e[k as int] == evidence@[k as int]);
            assert(rs[k as int] == resolved@[k as int]);
        }
        match (&evidence[k], &resolved[k]) {
            (EvidenceRef::Observation(_), Some(o)) => {
                if o.projection().0.eq_exec(&projection.0) {
                    return Some(*o.value_digest());
                }
            },
            _ => {},
        }
        i = k;
    }
    None
}

/// The evaluations of dependencies the artifact actually declares, in
/// order.
pub open spec fn touched(deps: Seq<ContentHash>, evals: Seq<DependencyModel>) -> Seq<DependencyModel>
    decreases evals.len(),
{
    if evals.len() == 0 {
        Seq::empty()
    } else {
        let init = touched(deps, evals.drop_last());
        if deps.contains(evals.last().projection) {
            init.push(evals.last())
        } else {
            init
        }
    }
}

/// Every touched dependency has a pinned digest, a fresh digest and a
/// fresh value.
pub open spec fn all_evidenced(t: Seq<DependencyModel>) -> bool {
    forall|i: int|
        0 <= i < t.len() ==> (#[trigger] t[i]).pinned_digest is Some && t[i].new_digest is Some
            && t[i].new_value is Some
}

/// The verdict a contract verifier reaches on the touched dependencies:
/// set equality holds iff every fresh digest equals its pinned digest; the
/// absence contract holds iff every fresh value is the empty encoding; any
/// other verifier cannot decide.
pub open spec fn verifier_verdict(verifier: Option<VerifierId>, t: Seq<DependencyModel>) -> ContractVerdict {
    match verifier {
        Some(v) => if v.0.digest@ == verifier_digest(SET_EQUALITY_CONTRACT@) {
            if forall|i: int| 0 <= i < t.len() ==> (#[trigger] t[i]).pinned_digest == t[i].new_digest {
                ContractVerdict::Holds
            } else {
                ContractVerdict::Fails
            }
        } else if v.0.digest@ == verifier_digest(ABSENCE_FACT_CONTRACT@) {
            if forall|i: int| 0 <= i < t.len() ==> (#[trigger] t[i]).new_value == Some(Seq::<char>::empty()) {
                ContractVerdict::Holds
            } else {
                ContractVerdict::Fails
            }
        } else {
            ContractVerdict::Undecidable
        },
        None => ContractVerdict::Undecidable,
    }
}

/// The contract decision for an artifact: undecidable (provisional) when
/// no declared dependency was touched or evidence is missing; otherwise
/// the verifier's verdict, downgraded from holds to undecidable when some
/// touched dependency was evaluated under UNKNOWN completeness, with
/// authority only when every touched dependency's evidence is
/// authoritative.
pub open spec fn contract_decision(
    deps: Seq<ContentHash>,
    latest: Option<crate::attestation::AttestationModel>,
    evals: Seq<DependencyModel>,
) -> (ContractVerdict, Authority) {
    let t = touched(deps, evals);
    if t.len() == 0 {
        (ContractVerdict::Undecidable, Authority::Provisional)
    } else if !(latest is Some && all_evidenced(t)) {
        (ContractVerdict::Undecidable, Authority::Provisional)
    } else {
        let base = verifier_verdict(latest->0.verifier, t);
        let downgraded = exists|i: int|
            0 <= i < t.len() && (#[trigger] t[i]).completeness == Some(Completeness::Unknown);
        let verdict = if downgraded && base == ContractVerdict::Holds {
            ContractVerdict::Undecidable
        } else {
            base
        };
        let authority = if forall|i: int| 0 <= i < t.len() ==> (#[trigger] t[i]).authoritative {
            Authority::Authoritative
        } else {
            Authority::Provisional
        };
        (verdict, authority)
    }
}

proof fn lemma_touched_holds(deps: Seq<ContentHash>, evals: Seq<DependencyModel>, i: int)
    requires
        0 <= i < evals.len(),
        deps.contains(evals[i].projection),
    ensures
        exists|k: int| 0 <= k < touched(deps, evals).len() && touched(deps, evals)[k] == evals[i],
    decreases evals.len(),
{
    let t = touched(deps, evals);
    if i == evals.len() - 1 {
        assert(t[t.len() - 1] == evals[i]);
    } else {
        lemma_touched_holds(deps, evals.drop_last(), i);
        let init = touched(deps, evals.drop_last());
        let k = choose|k: int| 0 <= k < init.len() && init[k] == evals.drop_last()[i];
        assert(t[k] == evals[i]);
    }
}

/// A claim under unknown completeness is never settled as holding: when
/// any dependency of the artifact was reevaluated under `Unknown`
/// completeness, the contract verdict is not `Holds`, whatever the
/// verifier and the digests say.
pub proof fn lemma_unknown_completeness_never_holds(
    deps: Seq<ContentHash>,
    latest: Option<crate::attestation::AttestationModel>,
    evals: Seq<DependencyModel>,
    i: int,
)
    requires
        0 <= i < evals.len(),
        deps.contains(evals[i].projection),
        evals[i].completeness == Some(Completeness::Unknown),
    ensures
        contract_decision(deps, latest, evals).0 != ContractVerdict::Holds,
{
    lemma_touched_holds(deps, evals, i);
    let t = touched(deps, evals);
    let k = choose|k: int| 0 <= k < t.len() && t[k] == evals[i];
    assert(t[k].completeness == Some(Completeness::Unknown));
}

fn is_contract(v: &VerifierId, name: &str) -> (r: bool)
    ensures
        r == (v.0.digest@ == verifier_digest(name@)),
{
    let id = contract_verifier_id(name);
    let r = v.0.eq_exec(&id.0);
    proof {
        if v.0.digest@ == verifier_digest(name@) {
            assert(v.0.digest =~= id.0.digest);
        }
    }
    r
}

/// Evaluate an artifact's validity contract against the reevaluated
/// dependencies. Returns the internal verdict and the evidence authority.
pub fn evaluate_contract(
    artifact: &ArtifactEnvelope,
    latest: Option<&ValidationAttestation>,
    evals: &[DependencyEvaluation],
) -> (r: (ContractVerdict, Authority))
    ensures
        r == contract_decision(
            artifact@.dependencies,
            match latest {
                Some(a) => Some(a@),
                None => None,
            },
            evals@.map_values(|d: DependencyEvaluation| d@),
        ),
{
    let deps = artifact.dependencies();
    let ghost dv = evals@.map_values(|d: DependencyEvaluation| d@);
    let ghost depv = artifact@.dependencies;
    let mut t: Vec<&DependencyEvaluation> = Vec::new();
    let mut i: usize = 0;
    while i < evals.len()
        invariant
            i <= evals@.len(),
            dv == evals@.map_values(|d: DependencyEvaluation| d@),
            views(deps@) == depv,
            t@.map_values(|d: &DependencyEvaluation| d@) == touched(depv, dv.subrange(0, i as int)),
        decreases evals.len() - i,
    {
        let ghost sub = dv.subrange(0, i + 1);
        proof {
            assert(sub.drop_last() =~= dv.subrange(0, i as int));
            assert(sub.last() == evals@[i as int]@);
        }
        let mut found = false;
        let mut j: usize = 0;
        while j < deps.len()
            invariant
                j <= deps@.len(),
                i < evals@.len(),
                found == exists|k: int| 0 <= k < j && (#[trigger] deps@[k]).0 == evals@[i as int]@.projection,
            decreases deps.len() - j,
        {
            if deps[j].0.eq_exec(&evals[i].projection.0) {
                found = true;
            }
            j = j + 1;
        }
        proof {
            if found {
                let k = choose|k: int| 0 <= k < deps@.len() && (#[trigger] deps@[k]).0 == evals@[i as int]@.projection;
                assert(views(deps@)[k] == deps@[k].0);
            }
            if views(deps@).contains(evals@[i as int]@.projection) {
                let k = choose|k: int| 0 <= k < views(deps@).len() && views(deps@)[k] == evals@[i as int]@.projection;
                assert(deps@[k].0 == views(deps@)[k]);
            }
        }
        if found {
            let ghost pre = t@;
            t.push(&evals[i]);
            proof {
                assert(t@.map_values(|d: &DependencyEvaluation| d@) =~= pre.map_values(|d: &DependencyEvaluation| d@).push(evals@[i as int]@));
            }
        }
        i = i + 1;
    }
    proof {
        assert(dv.subrange(0, evals@.len() as int) =~= dv);
    }
    let ghost tv = t@.map_values(|d: &DependencyEvaluation| d@);
    if t.len() == 0 {
        return (ContractVerdict::Undecidable, Authority::Provisional);
    }
    let mut evidenced = true;
    let mut k: usize = 0;
    while k < t.len()
        invariant
            k <= t@.len(),
            tv == t@.map_values(|d: &DependencyEvaluation| d@),
            evidenced == forall|m: int|
                0 <= m < k ==> (#[trigger] tv[m]).pinned_digest is Some && tv[m].new_digest is Some
                    && tv[m].new_value is Some,
        decreases t.len() - k,
    {
        assert(tv[k as int] == t@[k as int]@);
        if t[k].pinned_digest.is_none() || t[k].new_digest.is_none() || t[k].new_value.is_none() {
            evidenced = false;
        }
        k = k + 1;
    }
    let latest_att = match latest {
        Some(a) => a,
        None => {
            return (ContractVerdict::Undecidable, Authority::Provisional);
        },
    };
    if !evidenced {
        return (ContractVerdict::Undecidable, Authority::Provisional);
    }
    let base = match latest_att.verifier_id() {
        Some(v) => if is_contract(&v, SET_EQUALITY_CONTRACT) {
            let mut all_equal = true;
            let mut m: usize = 0;
            while m < t.len()
                invariant
                    m <= t@.len(),
                    tv == t@.map_values(|d: &DependencyEvaluation| d@),
                    all_equal == forall|q: int| 0 <= q < m ==> (#[trigger] tv[q]).pinned_digest == tv[q].new_digest,
                decreases t.len() - m,
            {
                assert(tv[m as int] == t@[m as int]@);
                let same = match (&t[m].pinned_digest, &t[m].new_digest) {
                    (Some(p), Some(n)) => p.eq_exec(n),
                    (None, None) => true,
                    _ => false,
                };
                if !same {
                    all_equal = false;
                }
                m = m + 1;
            }
            if all_equal {
                ContractVerdict::Holds
            } else {
                ContractVerdict::Fails
            }
        } else if is_contract(&v, ABSENCE_FACT_CONTRACT) {
            let mut all_absent = true;
            let mut m: usize = 0;
            while m < t.len()
                invariant
                    m <= t@.len(),
                    tv == t@.map_values(|d: &DependencyEvaluation| d@),
                    all_absent == forall|q: int|
                        0 <= q < m ==> (#[trigger] tv[q]).new_value == Some(Seq::<char>::empty()),
                decreases t.len() - m,
            {
                assert(tv[m as int] == t@[m as int]@);
                let empty = match &t[m].new_value {
                    Some(v) => crate::text::chars_of(v.as_str()).len() == 0,
                    None => false,
                };
                proof {
                    if let Some(v) = &t@[m as int].new_value {
                        if v@.len() == 0 {
                            assert(v@ =~= Seq::<char>::empty());
                        }
                    }
                }
                if !empty {
                    all_absent = false;
                }
                m = m + 1;
            }
            if all_absent {
                ContractVerdict::Holds
            } else {
                ContractVerdict::Fails
            }
        } else {
            ContractVerdict::Undecidable
        },
        None => ContractVerdict::Undecidable,
    };
    let mut downgraded = false;
    let mut all_auth = true;
    let mut m: usize = 0;
    while m < t.len()
        invariant
            m <= t@.len(),
            tv == t@.map_values(|d: &DependencyEvaluation| d@),
            downgraded == exists|q: int|
                0 <= q < m && (#[trigger] tv[q]).completeness == Some(Completeness::Unknown),
            all_auth == forall|q: int| 0 <= q < m ==> (#[trigger] tv[q]).authoritative,
        decreases t.len() - m,
    {
        assert(tv[m as int] == t@[m as int]@);
        if matches!(t[m].completeness, Some(Completeness::Unknown)) {
            downgraded = true;
        }
        if !t[m].authoritative {
            all_auth = false;
        }
        m = m + 1;
    }
    let verdict = if downgraded && matches!(base, ContractVerdict::Holds) {
        ContractVerdict::Undecidable
    } else {
        base
    };
    let authority = if all_auth {
        Authority::Authoritative
    } else {
        Authority::Provisional
    };
    (verdict, authority)
}

/// The verifier an artifact's contract is checked with: the latest
/// attestation's verifier, else the built-in contract of its kind (set
/// equality for structural sets, absence for everything else).
pub open spec fn contract_verifier_for(kind: ArtifactKind, latest_verifier: Option<VerifierId>) -> Seq<u8> {
    match latest_verifier {
        Some(v) => v.0.digest@,
        None => if kind == ArtifactKind::StructuralSet {
            verifier_digest(SET_EQUALITY_CONTRACT@)
        } else {
            verifier_digest(ABSENCE_FACT_CONTRACT@)
        },
    }
}

/// The verifier identity an artifact's contract is checked with.
pub fn contract_id_for(artifact: &ArtifactEnvelope, latest: Option<&ValidationAttestation>) -> (r:
    VerifierId)
    ensures
        r.0.digest@ == contract_verifier_for(
            artifact@.kind,
            match latest {
                Some(a) => a@.verifier,
                None => None,
            },
        ),
{
    let from_latest = match latest {
        Some(att) => att.verifier_id(),
        None => None,
    };
    match from_latest {
        Some(v) => v,
        None => match artifact.kind() {
            ArtifactKind::StructuralSet => contract_verifier_id(SET_EQUALITY_CONTRACT),
            _ => contract_verifier_id(ABSENCE_FACT_CONTRACT),
        },
    }
}

/// The rendering of a validity (its variant name).
pub open spec fn validity_name(v: Validity) -> Seq<char> {
    match v {
        Validity::Valid => "Valid"@,
        Validity::Stale => "Stale"@,
        Validity::Unknown => "Unknown"@,
    }
}

/// The rendering of an authority (its variant name).
pub open spec fn authority_name(a: Authority) -> Seq<char> {
    match a {
        Authority::Authoritative => "Authoritative"@,
        Authority::Provisional => "Provisional"@,
    }
}

/// The rendering of a verification level (its variant name; the
/// structural-query level renders as `Structural`).
pub open spec fn level_name(l: VerificationLevel) -> Seq<char> {
    match l {
        VerificationLevel::Unverified => "Unverified"@,
        VerificationLevel::EvidenceBacked => "EvidenceBacked"@,
        VerificationLevel::StructuralQuery => "Structural"@,
        VerificationLevel::Test => "Test"@,
        VerificationLevel::Static => "Static"@,
        VerificationLevel::Deterministic => "Deterministic"@,
    }
}

/// The variant name of a validity.
pub fn validity_name_exec(v: Validity) -> (r: &'static str)
    ensures
        r@ == validity_name(v),
{
    match v {
        Validity::Valid => "Valid",
        Validity::Stale => "Stale",
        Validity::Unknown => "Unknown",
    }
}

fn authority_name_exec(a: Authority) -> (r: &'static str)
    ensures
        r@ == authority_name(a),
{
    match a {
        Authority::Authoritative => "Authoritative",
        Authority::Provisional => "Provisional",
    }
}

fn level_name_exec(l: VerificationLevel) -> (r: &'static str)
    ensures
        r@ == level_name(l),
{
    match l {
        VerificationLevel::Unverified => "Unverified",
        VerificationLevel::EvidenceBacked => "EvidenceBacked",
        VerificationLevel::StructuralQuery => "Structural",
        VerificationLevel::Test => "Test",
        VerificationLevel::Static => "Static",
        VerificationLevel::Deterministic => "Deterministic",
    }
}

/// The rendering of one evidence reference: `blob:`, `obs:` or `att:`
/// followed by the referenced identity.
pub open spec fn evidence_text(e: EvidenceRef) -> Seq<char> {
    match e {
        EvidenceRef::Blob(b) => "blob:"@ + hash_text(b.0),
        EvidenceRef::Observation(o) => "obs:"@ + hash_text(o.0),
        EvidenceRef::PriorAttestation(a) => "att:"@ + hash_text(a.0),
    }
}

fn evidence_rendering(e: &EvidenceRef) -> (r: String)
    ensures
        r@ == evidence_text(*e),
{
    let (tag, text) = match e {
        EvidenceRef::Blob(b) => ("blob:", b.0.to_string()),
        EvidenceRef::Observation(o) => ("obs:", o.0.to_string()),
        EvidenceRef::PriorAttestation(a) => ("att:", a.0.to_string()),
    };
    let mut s = owned(tag);
    push_str(&mut s, text.as_str());
    s
}

/// The digest material of an attestation event: the tag, then artifact,
/// snapshot, validity, authority, level, verifier (or nothing), every
/// evidence reference, and the creation time, unit-separated.
pub open spec fn attestation_material(
    artifact: ContentHash,
    snapshot: ContentHash,
    validity: Validity,
    authority: Authority,
    level: VerificationLevel,
    verifier: Option<VerifierId>,
    evidence: Seq<EvidenceRef>,
    created_at: u64,
) -> Seq<char> {
    crate::coverage::joined(
        "trellis.attestation-event.v1"@,
        seq![
            hash_text(artifact),
            hash_text(snapshot),
            validity_name(validity),
            authority_name(authority),
            level_name(level),
            match verifier {
                Some(v) => hash_text(v.0),
                None => Seq::<char>::empty(),
            },
        ] + evidence.map_values(|e: EvidenceRef| evidence_text(e)) + seq![decimal(created_at as nat)],
    )
}

proof fn lemma_tagged_sep_free(tag: Seq<char>, h: ContentHash)
    requires
        forall|k: int| 0 <= k < tag.len() ==> (#[trigger] tag[k]) as u32 >= 32,
    ensures
        crate::coverage::sep_free(tag + hash_text(h)),
{
    crate::ids::lemma_hash_text_injective(h, h);
    let t = tag + hash_text(h);
    if t.contains(crate::coverage::sep()) {
        let k = choose|k: int| 0 <= k < t.len() && t[k] == crate::coverage::sep();
        if k < tag.len() {
            assert(tag[k] as u32 >= 32);
        } else {
            assert(hash_text(h)[k - tag.len()] as u32 >= 32);
        }
    }
}

proof fn lemma_evidence_text_facts(e1: EvidenceRef, e2: EvidenceRef)
    ensures
        crate::coverage::sep_free(evidence_text(e1)),
        evidence_text(e1) == evidence_text(e2) ==> e1 == e2,
{
    reveal_strlit("blob:");
    reveal_strlit("obs:");
    reveal_strlit("att:");
    let h1 = match e1 {
        EvidenceRef::Blob(b) => b.0,
        EvidenceRef::Observation(o) => o.0,
        EvidenceRef::PriorAttestation(a) => a.0,
    };
    let h2 = match e2 {
        EvidenceRef::Blob(b) => b.0,
        EvidenceRef::Observation(o) => o.0,
        EvidenceRef::PriorAttestation(a) => a.0,
    };
    let t1: Seq<char> = match e1 {
        EvidenceRef::Blob(_) => "blob:"@,
        EvidenceRef::Observation(_) => "obs:"@,
        EvidenceRef::PriorAttestation(_) => "att:"@,
    };
    let t2: Seq<char> = match e2 {
        EvidenceRef::Blob(_) => "blob:"@,
        EvidenceRef::Observation(_) => "obs:"@,
        EvidenceRef::PriorAttestation(_) => "att:"@,
    };
    assert(evidence_text(e1) == t1 + hash_text(h1));
    assert(evidence_text(e2) == t2 + hash_text(h2));
    lemma_tagged_sep_free(t1, h1);
    crate::ids::lemma_hash_text_injective(h1, h2);
    crate::ids::lemma_hash_text_injective(h2, h1);
    if evidence_text(e1) == evidence_text(e2) {
        let x = evidence_text(e1);
        assert(t1.len() == t2.len());
        assert(t1[0] == x[0] && t2[0] == x[0]);
        assert(t1 =~= x.subrange(0, t1.len() as int));
        assert(t2 =~= x.subrange(0, t2.len() as int));
        assert(hash_text(h1) =~= x.subrange(t1.len() as int, x.len() as int));
        assert(hash_text(h2) =~= x.subrange(t2.len() as int, x.len() as int));
        assert(h1 == h2);
    }
}

proof fn lemma_name_facts(
    v1: Validity,
    v2: Validity,
    a1: Authority,
    a2: Authority,
    l1: VerificationLevel,
    l2: VerificationLevel,
)
    ensures
        crate::coverage::sep_free(validity_name(v1)),
        crate::coverage::sep_free(authority_name(a1)),
        crate::coverage::sep_free(level_name(l1)),
        validity_name(v1) == validity_name(v2) ==> v1 == v2,
        authority_name(a1) == authority_name(a2) ==> a1 == a2,
        level_name(l1) == level_name(l2) ==> l1 == l2,
{
    reveal_strlit("Valid");
    reveal_strlit("Stale");
    reveal_strlit("Unknown");
    reveal_strlit("Authoritative");
    reveal_strlit("Provisional");
    reveal_strlit("Unverified");
    reveal_strlit("EvidenceBacked");
    reveal_strlit("Structural");
    reveal_strlit("Test");
    reveal_strlit("Static");
    reveal_strlit("Deterministic");
    if validity_name(v1) == validity_name(v2) {
        assert(validity_name(v1)[0] == validity_name(v2)[0]);
    }
    if authority_name(a1) == authority_name(a2) {
        assert(authority_name(a1)[0] == authority_name(a2)[0]);
    }
    if level_name(l1) == level_name(l2) {
        assert(level_name(l1)[0] == level_name(l2)[0]);
        assert(level_name(l1)[1] == level_name(l2)[1]);
    }
    let vn = validity_name(v1);
    if vn.contains(crate::coverage::sep()) {
        let k = choose|k: int| 0 <= k < vn.len() && vn[k] == crate::coverage::sep();
        assert(vn[k] != crate::coverage::sep());
    }
    let an = authority_name(a1);
    if an.contains(crate::coverage::sep()) {
        let k = choose|k: int| 0 <= k < an.len() && an[k] == crate::coverage::sep();
        assert(an[k] != crate::coverage::sep());
    }
    let ln = level_name(l1);
    if ln.contains(crate::coverage::sep()) {
        let k = choose|k: int| 0 <= k < ln.len() && ln[k] == crate::coverage::sep();
        assert(ln[k] != crate::coverage::sep());
    }
}

/// The items the attestation material joins.
pub open spec fn attestation_items(
    artifact: ContentHash,
    snapshot: ContentHash,
    validity: Validity,
    authority: Authority,
    level: VerificationLevel,
    verifier: Option<VerifierId>,
    evidence: Seq<EvidenceRef>,
    created_at: u64,
) -> Seq<Seq<char>> {
    seq![
        hash_text(artifact),
        hash_text(snapshot),
        validity_name(validity),
        authority_name(authority),
        level_name(level),
        match verifier {
            Some(v) => hash_text(v.0),
            None => Seq::<char>::empty(),
        },
    ] + evidence.map_values(|e: EvidenceRef| evidence_text(e)) + seq![decimal(created_at as nat)]
}

proof fn lemma_attestation_items_sep_free(
    artifact: ContentHash,
    snapshot: ContentHash,
    validity: Validity,
    authority: Authority,
    level: VerificationLevel,
    verifier: Option<VerifierId>,
    evidence: Seq<EvidenceRef>,
    created_at: u64,
)
    ensures
        crate::coverage::all_sep_free(
            attestation_items(artifact, snapshot, validity, authority, level, verifier, evidence, created_at),
        ),
{
    let items = attestation_items(artifact, snapshot, validity, authority, level, verifier, evidence, created_at);
    lemma_name_facts(validity, validity, authority, authority, level, level);
    lemma_tagged_sep_free(Seq::empty(), artifact);
    lemma_tagged_sep_free(Seq::empty(), snapshot);
    assert(Seq::<char>::empty() + hash_text(artifact) =~= hash_text(artifact));
    assert(Seq::<char>::empty() + hash_text(snapshot) =~= hash_text(snapshot));
    if let Some(v) = verifier {
        lemma_tagged_sep_free(Seq::empty(), v.0);
        assert(Seq::<char>::empty() + hash_text(v.0) =~= hash_text(v.0));
    }
    crate::text::lemma_decimal_injective(created_at as nat, created_at as nat);
    assert forall|i: int| 0 <= i < items.len() implies crate::coverage::sep_free(#[trigger] items[i]) by {
        if 6 <= i < items.len() - 1 {
            lemma_evidence_text_facts(evidence[i - 6], evidence[i - 6]);
        }
        if i == items.len() - 1 {
            let d = decimal(created_at as nat);
            if d.contains(crate::coverage::sep()) {
                let k = choose|k: int| 0 <= k < d.len() && d[k] == crate::coverage::sep();
                assert('0' <= d[k] <= '9');
            }
        }
    }
}

/// The attestation material is injective: equal materials come from equal
/// artifact and snapshot identities, validity, authority, verification
/// level, verifier, evidence and creation time.
pub proof fn lemma_attestation_material_injective(
    artifact1: ContentHash,
    snapshot1: ContentHash,
    validity1: Validity,
    authority1: Authority,
    level1: VerificationLevel,
    verifier1: Option<VerifierId>,
    evidence1: Seq<EvidenceRef>,
    created_at1: u64,
    artifact2: ContentHash,
    snapshot2: ContentHash,
    validity2: Validity,
    authority2: Authority,
    level2: VerificationLevel,
    verifier2: Option<VerifierId>,
    evidence2: Seq<EvidenceRef>,
    created_at2: u64,
)
    requires
        attestation_material(artifact1, snapshot1, validity1, authority1, level1, verifier1, evidence1, created_at1)
            == attestation_material(artifact2, snapshot2, validity2, authority2, level2, verifier2, evidence2, created_at2),
    ensures
        artifact1 == artifact2,
        snapshot1 == snapshot2,
        validity1 == validity2,
        authority1 == authority2,
        level1 == level2,
        verifier1 == verifier2,
        evidence1 == evidence2,
        created_at1 == created_at2,
{
    let i1 = attestation_items(artifact1, snapshot1, validity1, authority1, level1, verifier1, evidence1, created_at1);
    let i2 = attestation_items(artifact2, snapshot2, validity2, authority2, level2, verifier2, evidence2, created_at2);
    lemma_attestation_items_sep_free(artifact1, snapshot1, validity1, authority1, level1, verifier1, evidence1, created_at1);
    lemma_attestation_items_sep_free(artifact2, snapshot2, validity2, authority2, level2, verifier2, evidence2, created_at2);
    reveal_strlit("trellis.attestation-event.v1");
    crate::coverage::lemma_joined_injective("trellis.attestation-event.v1"@, i1, i2);
    assert(i1 == i2);
    assert(i1[0] == i2[0]);
    assert(i1[1] == i2[1]);
    assert(i1[2] == i2[2]);
    assert(i1[3] == i2[3]);
    assert(i1[4] == i2[4]);
    assert(i1[5] == i2[5]);
    crate::ids::lemma_hash_text_injective(artifact1, artifact2);
    crate::ids::lemma_hash_text_injective(snapshot1, snapshot2);
    lemma_name_facts(validity1, validity2, authority1, authority2, level1, level2);
    match (verifier1, verifier2) {
        (Some(v1), Some(v2)) => {
            crate::ids::lemma_hash_text_injective(v1.0, v2.0);
        },
        (Some(v1), None) => {
            crate::ids::lemma_hash_text_injective(v1.0, v1.0);
        },
        (None, Some(v2)) => {
            crate::ids::lemma_hash_text_injective(v2.0, v2.0);
        },
        (None, None) => {},
    }
    assert(evidence1.len() == evidence2.len());
    assert forall|i: int| 0 <= i < evidence1.len() implies evidence1[i] == evidence2[i] by {
        assert(i1[i + 6] == i2[i + 6]);
        lemma_evidence_text_facts(evidence1[i], evidence2[i]);
    }
    assert(evidence1 =~= evidence2);
    assert(i1[i1.len() - 1] == i2[i2.len() - 1]);
    crate::text::lemma_decimal_injective(created_at1 as nat, created_at2 as nat);
}

/// Content-derived attestation identity: BLAKE3 over every field that
/// distinguishes one validity event from another. Identical transitions
/// therefore produce identical attestations (idempotent appends), and
/// different runs are distinct events.
pub fn attestation_identity(
    artifact: &ArtifactId,
    snapshot: &SnapshotId,
    validity: Validity,
    authority: Authority,
    level: VerificationLevel,
    verifier: Option<VerifierId>,
    evidence: &[EvidenceRef],
    created_at: Timestamp,
) -> (r: AttestationId)
    ensures
        r.0.algo == HashAlgo::Blake3,
        r.0.digest@ == blake3_digest(
            utf8(
                attestation_material(
                    artifact.0,
                    snapshot.0,
                    validity,
                    authority,
                    level,
                    verifier,
                    evidence@,
                    created_at,
                ),
            ),
        ),
{
    let ghost tag = "trellis.attestation-event.v1"@;
    let ghost items = seq![
        hash_text(artifact.0),
        hash_text(snapshot.0),
        validity_name(validity),
        authority_name(authority),
        level_name(level),
        match verifier {
            Some(v) => hash_text(v.0),
            None => Seq::<char>::empty(),
        },
    ] + evidence@.map_values(|e: EvidenceRef| evidence_text(e)) + seq![decimal(created_at as nat)];
    let mut parts: Vec<String> = Vec::new();
    parts.push(artifact.to_string());
    parts.push(snapshot.to_string());
    parts.push(owned(validity_name_exec(validity)));
    parts.push(owned(authority_name_exec(authority)));
    parts.push(owned(level_name_exec(level)));
    parts.push(
        match verifier {
            Some(v) => v.to_string(),
            None => String::new(),
        },
    );
    let mut i: usize = 0;
    while i < evidence.len()
        invariant
            i <= evidence@.len(),
            parts@.len() == 6 + i,
            views(parts@) == (seq![
                hash_text(artifact.0),
                hash_text(snapshot.0),
                validity_name(validity),
                authority_name(authority),
                level_name(level),
                match verifier {
                    Some(v) => hash_text(v.0),
                    None => Seq::<char>::empty(),
                },
            ] + evidence@.subrange(0, i as int).map_values(|e: EvidenceRef| evidence_text(e))),
        decreases evidence.len() - i,
    {
        let ghost pre = parts@;
        let s = evidence_rendering(&evidence[i]);
        parts.push(s);
        proof {
            crate::order::lemma_views_push(pre, s);
            assert(evidence@.subrange(0, i + 1).map_values(|e: EvidenceRef| evidence_text(e)) =~= evidence@.subrange(
                0,
                i as int,
            ).map_values(|e: EvidenceRef| evidence_text(e)).push(evidence_text(evidence@[i as int])));
        }
        i = i + 1;
    }
    let ghost pre = parts@;
    let when = u64_to_decimal(created_at);
    parts.push(when);
    proof {
        crate::order::lemma_views_push(pre, when);
        assert(evidence@.subrange(0, evidence@.len() as int) =~= evidence@);
        assert(views(parts@) =~= items);
    }
    let mut material = owned("trellis.attestation-event.v1");
    let mut k: usize = 0;
    while k < parts.len()
        invariant
            k <= parts@.len(),
            views(parts@) == items,
            tag == "trellis.attestation-event.v1"@,
            material@ == crate::coverage::joined(tag, items.subrange(0, k as int)),
        decreases parts.len() - k,
    {
        push_char(&mut material, '\u{1f}');
        push_str(&mut material, parts[k].as_str());
        proof {
            let a = items.subrange(0, k as int);
            let b = items.subrange(0, k + 1);
            assert(b.drop_last() =~= a);
            assert(b.last() == parts@[k as int]@);
        }
        k = k + 1;
    }
    proof {
        assert(items.subrange(0, parts@.len() as int) =~= items);
    }
    AttestationId::from_hash(ContentHash::compute(HashAlgo::Blake3, material.as_str().as_bytes()))
}

/// The explain record for one artifact's re-contracted validity: which
/// dependencies changed, the pinned prior values, the new values, and the
/// attestation appended.
#[derive(Debug, PartialEq, Eq)]
pub struct ArtifactOutcome {
    artifact: ArtifactId,
    dependency_evaluations: Vec<DependencyEvaluation>,
    verdict: ContractVerdict,
    appended: Option<Validity>,
    attestation: Option<AttestationId>,
}

/// What an [`ArtifactOutcome`] records.
pub struct ArtifactOutcomeModel {
    /// The re-contracted artifact.
    pub artifact: ContentHash,
    /// Per-dependency before/after evaluation.
    pub evaluations: Seq<DependencyModel>,
    /// The internal contract verdict.
    pub verdict: ContractVerdict,
    /// The public validity appended, if any.
    pub appended: Option<Validity>,
    /// The attestation's identity.
    pub attestation: Option<AttestationId>,
}

impl View for ArtifactOutcome {
    type V = ArtifactOutcomeModel;

    closed spec fn view(&self) -> ArtifactOutcomeModel {
        ArtifactOutcomeModel {
            artifact: self.artifact.0,
            evaluations: self.dependency_evaluations@.map_values(|d: DependencyEvaluation| d@),
            verdict: self.verdict,
            appended: self.appended,
            attestation: self.attestation,
        }
    }
}

impl ArtifactOutcome {
    /// The re-contracted artifact.
    pub fn artifact(&self) -> (r: ArtifactId)
        ensures
            r.0 == self@.artifact,
    {
        self.artifact
    }

    /// Per-dependency before/after evaluation.
    pub fn dependency_evaluations(&self) -> (r: &[DependencyEvaluation])
        ensures
            r@.map_values(|d: DependencyEvaluation| d@) == self@.evaluations,
    {
        self.dependency_evaluations.as_slice()
    }

    /// The internal contract verdict (never persisted on the artifact).
    pub fn verdict(&self) -> (r: ContractVerdict)
        ensures
            r == self@.verdict,
    {
        self.verdict
    }

    /// The public validity appended by this transition, if any.
    pub fn appended(&self) -> (r: Option<Validity>)
        ensures
            r == self@.appended,
    {
        self.appended
    }

    /// The attestation's identity.
    pub fn attestation(&self) -> (r: Option<AttestationId>)
        ensures
            r == self@.attestation,
    {
        self.attestation
    }
}

/// A dependency evaluation with its pinned prior value settled.
pub open spec fn pin_spec(d: DependencyModel, pinned: Option<ContentHash>) -> DependencyModel {
    DependencyModel { pinned_digest: pinned, changed: dependency_changed(pinned, d.new_digest), ..d }
}

/// Every evaluation pinned against the latest attestation's evidence.
pub open spec fn pinned_evaluations(
    evals: Seq<DependencyModel>,
    latest: Option<crate::attestation::AttestationModel>,
    resolved: Seq<Option<ProjectionObservation>>,
) -> Seq<DependencyModel> {
    evals.map_values(
        |d: DependencyModel|
            pin_spec(
                d,
                match latest {
                    Some(a) => pinned_from(a.evidence, resolved, d.projection),
                    None => None,
                },
            ),
    )
}

/// The first fresh observation of a projection.
pub open spec fn first_fresh(fresh: Seq<ProjectionObservation>, p: ContentHash) -> Option<ProjectionObservation>
    decreases fresh.len(),
{
    if fresh.len() == 0 {
        None
    } else if fresh[0]@.projection == p {
        Some(fresh[0])
    } else {
        first_fresh(fresh.drop_first(), p)
    }
}

/// The evidence of an appended attestation: the fresh observation of each
/// evaluated dependency that has one, in evaluation order.
pub open spec fn fresh_evidence(evals: Seq<DependencyModel>, fresh: Seq<ProjectionObservation>) -> Seq<EvidenceRef>
    decreases evals.len(),
{
    if evals.len() == 0 {
        Seq::empty()
    } else {
        let init = fresh_evidence(evals.drop_last(), fresh);
        match first_fresh(fresh, evals.last().projection) {
            Some(o) => init.push(EvidenceRef::Observation(ProjectionObservationId(o@.id))),
            None => init,
        }
    }
}

fn find_fresh(fresh: &[ProjectionObservation], p: &ProjectionId) -> (r: Option<ProjectionObservationId>)
    ensures
        match first_fresh(fresh@, p.0) {
            Some(o) => r == Some(ProjectionObservationId(o@.id)),
            None => r is None,
        },
{
    let mut i: usize = 0;
    assert(fresh@.subrange(0, fresh@.len() as int) =~= fresh@);
    while i < fresh.len()
        invariant
            i <= fresh@.len(),
            first_fresh(fresh@, p.0) == first_fresh(fresh@.subrange(i as int, fresh@.len() as int), p.0),
        decreases fresh.len() - i,
    {
        let ghost rest = fresh@.subrange(i as int, fresh@.len() as int);
        proof {
            assert(rest.drop_first() =~= fresh@.subrange(i + 1, fresh@.len() as int));
            assert(rest[0] == fresh@[i as int]);
        }
        if fresh[i].projection().0.eq_exec(&p.0) {
            return Some(fresh[i].id());
        }
        i = i + 1;
    }
    proof {
        assert(fresh@.subrange(i as int, fresh@.len() as int).len() == 0);
    }
    None
}

/// The digest bytes of an optional verifier (empty when absent).
pub open spec fn verifier_bytes(v: Option<VerifierId>) -> Seq<u8> {
    match v {
        Some(id) => id.0.digest@,
        None => Seq::empty(),
    }
}

/// The verification level an appended attestation carries.
pub open spec fn level_for(v: ContractVerdict) -> VerificationLevel {
    if v == ContractVerdict::Undecidable {
        VerificationLevel::Unverified
    } else {
        VerificationLevel::StructuralQuery
    }
}

/// The settled standing of one re-contracted artifact: the explain record,
/// the attestation of this round, and whether it is new to the history
/// (an identical earlier run already recorded it otherwise).
pub struct SettledArtifact {
    /// The explain record.
    pub outcome: ArtifactOutcome,
    /// The attestation of this round.
    pub attestation: ValidationAttestation,
    /// Whether the attestation must be appended.
    pub append: bool,
}

/// The view of the latest attestation of a history.
pub open spec fn latest_of(h: crate::attestation::HistoryModel) -> Option<crate::attestation::AttestationModel> {
    if h.entries.len() == 0 {
        None
    } else {
        Some(h.entries.last())
    }
}

/// One dependent artifact to settle: its envelope, its attestation
/// history, its dependency evaluations, and the observations the latest
/// attestation's evidence resolves to.
pub struct DependentInputs {
    pub artifact: ArtifactEnvelope,
    pub history: crate::attestation::AttestationHistory,
    pub evaluations: Vec<DependencyEvaluation>,
    pub latest_resolved: Vec<Option<ProjectionObservation>>,
}

/// Settle every dependent of a round in order; the `i`-th is stamped at
/// `now + i`, so the attestations of one round are ordered by creation.
pub fn settle_dependents(
    items: Vec<DependentInputs>,
    fresh: &[ProjectionObservation],
    target_snapshot: SnapshotId,
    now: Timestamp,
) -> (r: Vec<SettledArtifact>)
    requires
        now + items@.len() <= u64::MAX,
        forall|i: int| 0 <= i < items@.len() ==> (#[trigger] items@[i]).latest_resolved@.len() == match latest_of(
            items@[i].history@,
        ) {
            Some(a) => a.evidence.len(),
            None => 0,
        },
    ensures
        r@.len() == items@.len(),
        forall|i: int| 0 <= i < items@.len() ==> settled_as(
            (#[trigger] items@[i]).artifact,
            items@[i].history@,
            items@[i].evaluations@,
            items@[i].latest_resolved@,
            fresh@,
            target_snapshot,
            (now + i) as u64,
            r@[i],
        ),
{
    let ghost orig = items@;
    let mut out: Vec<SettledArtifact> = Vec::new();
    let mut items = items;
    let mut i: usize = 0;
    let n = items.len();
    while i < n
        invariant
            n == orig.len(),
            i <= n,
            now + n <= u64::MAX,
            items@ == orig.subrange(i as int, n as int),
            forall|k: int| 0 <= k < orig.len() ==> (#[trigger] orig[k]).latest_resolved@.len() == match latest_of(
                orig[k].history@,
            ) {
                Some(a) => a.evidence.len(),
                None => 0,
            },
            out@.len() == i,
            forall|k: int| 0 <= k < i ==> settled_as(
                (#[trigger] orig[k]).artifact,
                orig[k].history@,
                orig[k].evaluations@,
                orig[k].latest_resolved@,
                fresh@,
                target_snapshot,
                (now + k) as u64,
                out@[k],
            ),
        decreases n - i,
    {
        let item = items.remove(0);
        assert(item == orig[i as int]);
        assert(items@ =~= orig.subrange(i + 1, n as int));
        let settled = settle_artifact(
            &item.artifact,
            &item.history,
            item.evaluations,
            item.latest_resolved.as_slice(),
            fresh,
            target_snapshot,
            now + i as u64,
        );
        out.push(settled);
        i = i + 1;
    }
    out
}

/// The latest attestation already records this round: it targets the same
/// snapshot with the same evidence. Settling again then appends nothing.
pub open spec fn repeats_latest(
    latest: Option<crate::attestation::AttestationModel>,
    target: ContentHash,
    evidence: Seq<EvidenceRef>,
) -> bool {
    latest matches Some(l) && l.target_source_snapshot == target && l.evidence == evidence
}

fn same_evidence(a: &[EvidenceRef], b: &[EvidenceRef]) -> (r: bool)
    ensures
        r == (a@ == b@),
{
    if a.len() != b.len() {
        return false;
    }
    let mut i: usize = 0;
    while i < a.len()
        invariant
            i <= a@.len(),
            a@.len() == b@.len(),
            forall|k: int| 0 <= k < i ==> a@[k] == b@[k],
        decreases a.len() - i,
    {
        let same = match (&a[i], &b[i]) {
            (EvidenceRef::Blob(x), EvidenceRef::Blob(y)) => x.0.eq_exec(&y.0),
            (EvidenceRef::Observation(x), EvidenceRef::Observation(y)) => x.0.eq_exec(&y.0),
            (EvidenceRef::PriorAttestation(x), EvidenceRef::PriorAttestation(y)) => x.0.eq_exec(&y.0),
            _ => false,
        };
        if !same {
            return false;
        }
        i = i + 1;
    }
    assert(a@ =~= b@);
    true
}

proof fn lemma_fresh_evidence_projections(a: Seq<DependencyModel>, b: Seq<DependencyModel>, fresh: Seq<ProjectionObservation>)
    requires
        a.len() == b.len(),
        forall|i: int| 0 <= i < a.len() ==> (#[trigger] a[i]).projection == b[i].projection,
    ensures
        fresh_evidence(a, fresh) == fresh_evidence(b, fresh),
    decreases a.len(),
{
    if a.len() > 0 {
        lemma_fresh_evidence_projections(a.drop_last(), b.drop_last(), fresh);
        assert(a.last().projection == b[b.len() - 1].projection);
    }
}

/// Settling is idempotent: settling an artifact again with the same
/// dependency evaluations, fresh observations and target snapshot, against
/// its history extended by what the first settle appended, appends
/// nothing.
pub proof fn lemma_settle_rerun_appends_nothing(
    artifact: ArtifactEnvelope,
    history: crate::attestation::HistoryModel,
    evaluations: Seq<DependencyEvaluation>,
    resolved1: Seq<Option<ProjectionObservation>>,
    resolved2: Seq<Option<ProjectionObservation>>,
    fresh: Seq<ProjectionObservation>,
    target_snapshot: SnapshotId,
    created1: Timestamp,
    created2: Timestamp,
    r1: SettledArtifact,
    r2: SettledArtifact,
)
    requires
        settled_as(artifact, history, evaluations, resolved1, fresh, target_snapshot, created1, r1),
        r1.append,
        settled_as(
            artifact,
            crate::attestation::HistoryModel {
                artifact_id: history.artifact_id,
                entries: history.entries.push(r1.attestation@),
            },
            evaluations,
            resolved2,
            fresh,
            target_snapshot,
            created2,
            r2,
        ),
    ensures
        !r2.append,
{
    let h2 = crate::attestation::HistoryModel { artifact_id: history.artifact_id, entries: history.entries.push(r1.attestation@) };
    let ev = evaluations.map_values(|d: DependencyEvaluation| d@);
    let p1 = pinned_evaluations(ev, latest_of(history), resolved1);
    let p2 = pinned_evaluations(ev, latest_of(h2), resolved2);
    assert(h2.entries.last() == r1.attestation@);
    assert(latest_of(h2) == Some(r1.attestation@));
    lemma_fresh_evidence_projections(p1, p2, fresh);
    assert(repeats_latest(latest_of(h2), target_snapshot.0, r2.attestation@.evidence));
}

/// What settling one artifact gives: the contract's verdict over the
/// pinned evaluations, the content-derived attestation of that verdict,
/// and whether it is new to the history.
pub open spec fn settled_as(
    artifact: ArtifactEnvelope,
    history: crate::attestation::HistoryModel,
    evaluations: Seq<DependencyEvaluation>,
    latest_resolved: Seq<Option<ProjectionObservation>>,
    fresh: Seq<ProjectionObservation>,
    target_snapshot: SnapshotId,
    created_at: Timestamp,
    r: SettledArtifact,
) -> bool {
    let latest = latest_of(history);
    let pinned = pinned_evaluations(
        evaluations.map_values(|d: DependencyEvaluation| d@),
        latest,
        latest_resolved,
    );
    let (verdict, authority) = contract_decision(artifact@.dependencies, latest, pinned);
    let a = r.attestation@;
    &&& r.outcome@.artifact == artifact@.id
    &&& r.outcome@.evaluations == pinned
    &&& r.outcome@.verdict == verdict
    &&& a.artifact_id == artifact@.id
    &&& a.target_source_snapshot == target_snapshot.0
    &&& a.target_semantic_snapshot is None
    &&& a.validity == verdict_validity(verdict)
    &&& a.authority == authority
    &&& a.verification_level == level_for(verdict)
    &&& (verdict == ContractVerdict::Undecidable ==> a.verifier is None)
    &&& (verdict != ContractVerdict::Undecidable ==> (a.verifier is Some
        && verifier_bytes(a.verifier) == contract_verifier_for(
        artifact@.kind,
        match latest {
            Some(l) => l.verifier,
            None => None,
        },
    )))
    &&& a.evidence == fresh_evidence(pinned, fresh)
    &&& a.capture_trust == artifact@.derivation.capture_trust
    &&& a.created_at == created_at
    &&& a.id.digest@ == blake3_digest(
        utf8(
            attestation_material(
                artifact@.id,
                target_snapshot.0,
                a.validity,
                a.authority,
                a.verification_level,
                a.verifier,
                a.evidence,
                created_at,
            ),
        ),
    )
    &&& r.append == (!crate::attestation::has_id(history.entries, a.id) && !repeats_latest(
        latest,
        target_snapshot.0,
        a.evidence,
    ))
    &&& r.outcome@.appended == (if r.append {
        Some(a.validity)
    } else {
        None
    })
    &&& r.outcome@.attestation == Some(AttestationId(a.id))
}


/// Settle one artifact whose dependencies entered the artifact pass: pin
/// each dependency's prior value from the latest attestation's evidence
/// (`latest_resolved[i]` is the recorded observation its evidence `i`
/// refers to), evaluate the contract, and build the content-derived
/// attestation of the outcome. Nothing existing is mutated: the
/// attestation is appended only if the history does not hold it yet.
pub fn settle_artifact(
    artifact: &ArtifactEnvelope,
    history: &crate::attestation::AttestationHistory,
    evaluations: Vec<DependencyEvaluation>,
    latest_resolved: &[Option<ProjectionObservation>],
    fresh: &[ProjectionObservation],
    target_snapshot: SnapshotId,
    created_at: Timestamp,
) -> (r: SettledArtifact)
    requires
        latest_resolved@.len() == match latest_of(history@) {
            Some(a) => a.evidence.len(),
            None => 0,
        },
    ensures
        settled_as(*artifact, history@, evaluations@, latest_resolved@, fresh@, target_snapshot, created_at, r),
{
    let entries = history.entries();
    let latest: Option<&ValidationAttestation> = if entries.len() == 0 {
        None
    } else {
        Some(&entries[entries.len() - 1])
    };
    proof {
        if entries@.len() > 0 {
            assert(history@.entries.last() == entries@[entries@.len() - 1]@);
        }
    }
    let ghost latest_model = latest_of(history@);
    let ghost ev_models = evaluations@.map_values(|d: DependencyEvaluation| d@);
    let mut pinned_list: Vec<DependencyEvaluation> = Vec::new();
    let ghost target = pinned_evaluations(ev_models, latest_model, latest_resolved@);
    let mut i: usize = 0;
    while i < evaluations.len()
        invariant
            i <= evaluations@.len(),
            ev_models == evaluations@.map_values(|d: DependencyEvaluation| d@),
            pinned_list@.map_values(|d: DependencyEvaluation| d@) == target.subrange(0, i as int),
            target == pinned_evaluations(ev_models, latest_model, latest_resolved@),
            latest_model == latest_of(history@),
            latest_resolved@.len() == match latest_model {
                Some(a) => a.evidence.len(),
                None => 0,
            },
            match latest {
                Some(l) => latest_model == Some(l@),
                None => latest_model is None,
            },
        decreases evaluations.len() - i,
    {
        let mut d = evaluations[i].clone();
        let pinned = match latest {
            Some(l) => pinned_digest_from(l.evidence(), latest_resolved, &d.projection),
            None => None,
        };
        d.pin(pinned);
        let ghost pre_pinned = pinned_list@;
        pinned_list.push(d);
        proof {
            assert(pinned_list@.map_values(|x: DependencyEvaluation| x@) =~= pre_pinned.map_values(|x: DependencyEvaluation| x@).push(d@));
            assert(ev_models[i as int] == evaluations@[i as int]@);
            assert(target[i as int] == d@);
            assert(target.subrange(0, i + 1) =~= target.subrange(0, i as int).push(target[i as int]));
        }
        i = i + 1;
    }
    proof {
        assert(target.subrange(0, evaluations@.len() as int) =~= target);
    }
    let (verdict, authority) = evaluate_contract(artifact, latest, pinned_list.as_slice());
    let validity = Validity::from(verdict);
    let level = if matches!(verdict, ContractVerdict::Undecidable) {
        VerificationLevel::Unverified
    } else {
        VerificationLevel::StructuralQuery
    };
    let verifier = match verdict {
        ContractVerdict::Undecidable => None,
        _ => Some(contract_id_for(artifact, latest)),
    };
    let mut evidence: Vec<EvidenceRef> = Vec::new();
    let mut k: usize = 0;
    while k < pinned_list.len()
        invariant
            k <= pinned_list@.len(),
            pinned_list@.map_values(|d: DependencyEvaluation| d@) == target,
            evidence@ == fresh_evidence(target.subrange(0, k as int), fresh@),
        decreases pinned_list.len() - k,
    {
        proof {
            let a = target.subrange(0, k as int);
            let b = target.subrange(0, k + 1);
            assert(b.drop_last() =~= a);
            assert(b.last() == pinned_list@[k as int]@);
        }
        match find_fresh(fresh, &pinned_list[k].projection) {
            Some(oid) => evidence.push(EvidenceRef::Observation(oid)),
            None => {},
        }
        k = k + 1;
    }
    proof {
        assert(target.subrange(0, pinned_list@.len() as int) =~= target);
    }
    let artifact_id = artifact.id();
    let att_id = attestation_identity(
        &artifact_id,
        &target_snapshot,
        validity,
        authority,
        level,
        verifier,
        evidence.as_slice(),
        created_at,
    );
    let att = ValidationAttestation::for_derivation(
        att_id,
        artifact_id,
        artifact.derivation(),
        target_snapshot,
        None,
        validity,
        authority,
        level,
        verifier,
        evidence,
        created_at,
    );
    let mut already = false;
    let mut j: usize = 0;
    let ghost hv = history@.entries;
    while j < entries.len()
        invariant
            j <= entries@.len(),
            hv == history@.entries,
            hv == entries@.map_values(|a: ValidationAttestation| a@),
            already == exists|q: int| 0 <= q < j && (#[trigger] hv[q]).id == att_id.0,
        decreases entries.len() - j,
    {
        assert(hv[j as int] == entries@[j as int]@);
        if entries[j].id().0.eq_exec(&att_id.0) {
            already = true;
        }
        j = j + 1;
    }
    let repeat = match latest {
        Some(l) => l.target_source_snapshot().0.eq_exec(&target_snapshot.0) && same_evidence(l.evidence(), att.evidence()),
        None => false,
    };
    let append = !already && !repeat;
    let outcome = ArtifactOutcome {
        artifact: artifact_id,
        dependency_evaluations: pinned_list,
        verdict,
        appended: if !append {
            None
        } else {
            Some(validity)
        },
        attestation: Some(att_id),
    };
    SettledArtifact { outcome, attestation: att, append }
}

/// The ordering key of a projection outcome: its projection's identity.
pub open spec fn outcome_key(m: OutcomeModel) -> Seq<u8> {
    blake3_digest(crate::projection::projection_encoding(m.projection))
}

/// The views of a list of projection outcomes.
pub open spec fn outcome_views(s: Seq<ProjectionOutcome>) -> Seq<OutcomeModel> {
    s.map_values(|o: ProjectionOutcome| o@)
}

/// Outcomes in canonical projection-id order.
pub open spec fn sorted_by_projection(s: Seq<OutcomeModel>) -> bool {
    forall|a: int, b: int|
        0 <= a < b < s.len() ==> crate::order::bytes_le(
            outcome_key(#[trigger] s[a]),
            outcome_key(#[trigger] s[b]),
        )
}

/// Sort projection outcomes into canonical projection-id order.
pub fn sort_outcomes(v: Vec<ProjectionOutcome>) -> (r: Vec<ProjectionOutcome>)
    ensures
        outcome_views(r@).to_multiset() == outcome_views(v@).to_multiset(),
        sorted_by_projection(outcome_views(r@)),
{
    let ghost orig = outcome_views(v@);
    let mut v = v;
    let mut r: Vec<ProjectionOutcome> = Vec::new();
    proof {
        crate::order::lemma_bytes_total_ordering();
        assert(outcome_views(r@) =~= Seq::<OutcomeModel>::empty());
    }
    while v.len() > 0
        invariant
            sorted_by_projection(outcome_views(r@)),
            outcome_views(r@).to_multiset().add(outcome_views(v@).to_multiset()) == orig.to_multiset(),
        decreases v.len(),
    {
        let ghost pre_v = v@;
        let x = v.pop().unwrap();
        proof {
            assert(pre_v =~= v@.push(x));
            assert(outcome_views(pre_v) =~= outcome_views(v@).push(x@));
            assert(outcome_views(pre_v).to_multiset() =~= outcome_views(v@).to_multiset().insert(x@));
        }
        let xk = x.projection.id();
        let ghost rv = outcome_views(r@);
        let mut j: usize = 0;
        while j < r.len() && crate::order::bytes_le_exec(
            r[j].projection.id().0.digest.as_slice(),
            xk.0.digest.as_slice(),
        )
            invariant
                j <= r.len(),
                rv == outcome_views(r@),
                xk.0.digest@ == outcome_key(x@),
                forall|k: int| 0 <= k < j ==> crate::order::bytes_le(outcome_key(rv[k]), outcome_key(x@)),
            decreases r.len() - j,
        {
            assert(rv[j as int] == r@[j as int]@);
            j = j + 1;
        }
        let ghost pre_r = r@;
        proof {
            if j < rv.len() {
                assert(rv[j as int] == r@[j as int]@);
                crate::order::lemma_bytes_le_total(outcome_key(rv[j as int]), outcome_key(x@));
            }
            assert forall|k: int| j <= k < rv.len() implies crate::order::bytes_le(
                outcome_key(x@),
                outcome_key(rv[k]),
            ) by {
                crate::order::lemma_bytes_le_total(outcome_key(rv[j as int]), outcome_key(x@));
                if k > j {
                    crate::order::lemma_bytes_le_transitive(
                        outcome_key(x@),
                        outcome_key(rv[j as int]),
                        outcome_key(rv[k]),
                    );
                }
            }
        }
        r.insert(j, x);
        proof {
            assert(r@ =~= pre_r.insert(j as int, x));
            assert(outcome_views(r@) =~= rv.insert(j as int, x@));
            vstd::seq_lib::to_multiset_insert(rv, j as int, x@);
            let nv = outcome_views(r@);
            assert forall|a: int, b: int| 0 <= a < b < nv.len() implies crate::order::bytes_le(
                outcome_key(#[trigger] nv[a]),
                outcome_key(#[trigger] nv[b]),
            ) by {
                if a < j && b < j {
                } else if a < j && b == j {
                } else if a < j && b > j {
                    crate::order::lemma_bytes_le_transitive(
                        outcome_key(rv[a]),
                        outcome_key(x@),
                        outcome_key(rv[b - 1]),
                    );
                } else if a == j {
                } else {
                }
            }
            assert(outcome_views(r@).to_multiset().add(outcome_views(v@).to_multiset()) =~= orig.to_multiset());
        }
    }
    proof {
        assert(outcome_views(v@) =~= Seq::<OutcomeModel>::empty());
        assert(outcome_views(r@).to_multiset() =~= orig.to_multiset());
    }
    r
}

/// The full causal record of one transition run: every reevaluated
/// projection with old/new values, every re-contracted artifact, and every
/// appended attestation.
#[derive(Debug, PartialEq, Eq)]
pub struct TransitionReport {
    target_snapshot: SnapshotId,
    projections: Vec<ProjectionOutcome>,
    artifacts: Vec<ArtifactOutcome>,
}

impl TransitionReport {
    /// Assemble the report of a run: projection outcomes are put in
    /// canonical projection-id order, artifact outcomes keep their order.
    pub fn new(
        target_snapshot: SnapshotId,
        projections: Vec<ProjectionOutcome>,
        artifacts: Vec<ArtifactOutcome>,
    ) -> (r: Self)
        ensures
            r.spec_target() == target_snapshot,
            outcome_views(r.spec_projections()).to_multiset() == outcome_views(projections@).to_multiset(),
            sorted_by_projection(outcome_views(r.spec_projections())),
            r.spec_artifacts() == artifacts@,
    {
        TransitionReport { target_snapshot, projections: sort_outcomes(projections), artifacts }
    }

    /// The snapshot of the report.
    pub closed spec fn spec_target(&self) -> SnapshotId {
        self.target_snapshot
    }

    /// The projection outcomes of the report.
    pub closed spec fn spec_projections(&self) -> Seq<ProjectionOutcome> {
        self.projections@
    }

    /// The artifact outcomes of the report.
    pub closed spec fn spec_artifacts(&self) -> Seq<ArtifactOutcome> {
        self.artifacts@
    }

    /// The snapshot the transition evaluated against.
    pub fn target_snapshot(&self) -> (r: SnapshotId)
        ensures
            r == self.spec_target(),
    {
        self.target_snapshot
    }

    /// Per-projection outcomes in canonical projection-id order.
    pub fn projections(&self) -> (r: &[ProjectionOutcome])
        ensures
            r@ == self.spec_projections(),
    {
        self.projections.as_slice()
    }

    /// Per-artifact outcomes.
    pub fn artifacts(&self) -> (r: &[ArtifactOutcome])
        ensures
            r@ == self.spec_artifacts(),
    {
        self.artifacts.as_slice()
    }
}

} // verus!
