//! Artifacts and derivations.
//!
//! An artifact is an immutable value with a provenance trail — never a
//! mutable truth container. Validity, authority, and verification level
//! live on attestations; `CaptureTrust` originates here, on the
//! derivation, and propagates from there.
use vstd::prelude::*;

use crate::error::DomainError;
use crate::ids::{ArtifactId, BlobId, DerivationId, ProjectionId, SnapshotId, Timestamp, ContentHash};
use crate::order::{copy_all, canonical_set, canonical_set_of, strictly_sorted, views};
use crate::text::{blank, is_blank, owned};
use crate::validity::{
    capture_trust_from_channels, channel_trust, trust_rank, weakest_trust, CaptureChannel,
    CaptureTrust,
};

verus! {

/// The externally meaningful kind of an artifact. Kind defines the
/// *interface* of the validity contract; verifiers implement it.
#[derive(Debug, Clone, Copy, PartialEq, Eq, Structural, Hash)]
pub enum ArtifactKind {
    /// A canonical structural set (caller set, reference set, …).
    StructuralSet,
    /// A recorded observation of the world.
    Observation,
    /// A fact claim.
    Fact,
    /// A fact derived from other artifacts.
    DerivedFact,
    /// A natural-language summary.
    Summary,
    /// A hypothesis — surfaced as "previously considered", never trusted
    /// reuse.
    Hypothesis,
    /// A plan.
    Plan,
    /// A recorded execution result.
    ExecutionResult,
    /// A patch. Never replayed after repository changes.
    Patch,
}

/// Artifact reuse classes A–F.
#[derive(Debug, Clone, Copy, PartialEq, Eq, Structural, Hash)]
pub enum ReuseClass {
    /// Class A — deterministic structural artifacts; auto-reusable when
    /// dependencies are green and completeness policies hold.
    DeterministicStructural,
    /// Class B — deterministically verified facts; reusable while the
    /// attached verifier remains valid.
    VerifiedFact,
    /// Class C — model-derived facts; candidates only.
    ModelDerived,
    /// Class D — hypotheses; never trusted reuse.
    Hypothesis,
    /// Class E — plans; parts may serve as reference material.
    Plan,
    /// Class F — patches/execution results; historical outputs only.
    Historical,
}

/// The reuse class of each artifact kind.
pub open spec fn kind_reuse_class(k: ArtifactKind) -> ReuseClass {
    match k {
        ArtifactKind::StructuralSet => ReuseClass::DeterministicStructural,
        ArtifactKind::Observation => ReuseClass::DeterministicStructural,
        ArtifactKind::Fact => ReuseClass::VerifiedFact,
        ArtifactKind::DerivedFact => ReuseClass::VerifiedFact,
        ArtifactKind::Summary => ReuseClass::ModelDerived,
        ArtifactKind::Hypothesis => ReuseClass::Hypothesis,
        ArtifactKind::Plan => ReuseClass::Plan,
        ArtifactKind::ExecutionResult => ReuseClass::Historical,
        ArtifactKind::Patch => ReuseClass::Historical,
    }
}

/// Kinds whose artifacts make a propositional claim and so must carry a
/// proposition.
pub open spec fn is_propositional(k: ArtifactKind) -> bool {
    k == ArtifactKind::Fact || k == ArtifactKind::DerivedFact || k == ArtifactKind::Hypothesis
}

impl ArtifactKind {
    /// The artifact reuse class. Class and capture trust are orthogonal: a
    /// class describes what kind of claim the artifact makes, capture trust
    /// describes how well its derivation was observed.
    pub fn reuse_class(self) -> (r: ReuseClass)
        ensures
            r == kind_reuse_class(self),
    {
        match self {
            ArtifactKind::StructuralSet => ReuseClass::DeterministicStructural,
            ArtifactKind::Observation => ReuseClass::DeterministicStructural,
            ArtifactKind::Fact => ReuseClass::VerifiedFact,
            ArtifactKind::DerivedFact => ReuseClass::VerifiedFact,
            ArtifactKind::Summary => ReuseClass::ModelDerived,
            ArtifactKind::Hypothesis => ReuseClass::Hypothesis,
            ArtifactKind::Plan => ReuseClass::Plan,
            ArtifactKind::ExecutionResult => ReuseClass::Historical,
            ArtifactKind::Patch => ReuseClass::Historical,
        }
    }
}

/// A normalized claim the artifact makes; never blank.
#[derive(Debug, PartialEq, Eq, Hash)]
pub struct Proposition(String);

impl View for Proposition {
    type V = Seq<char>;

    closed spec fn view(&self) -> Seq<char> {
        self.0@
    }
}

impl Clone for Proposition {
    fn clone(&self) -> (r: Self)
        ensures
            r@ == self@,
    {
        proof {
            use_type_invariant(self);
        }
        Proposition(self.0.clone())
    }
}

impl Proposition {
    #[verifier::type_invariant]
    spec fn not_blank(self) -> bool {
        !blank(self.0@)
    }

    /// Construct a proposition; rejects empty/whitespace text.
    pub fn new(text: &str) -> (r: Result<Self, DomainError>)
        ensures
            match r {
                Ok(p) => !blank(text@) && p@ == text@,
                Err(e) => blank(text@) && e == DomainError::EmptyField("proposition"),
            },
    {
        if is_blank(text) {
            return Err(DomainError::EmptyField("proposition"));
        }
        Ok(Proposition(owned(text)))
    }

    /// The proposition text; never blank.
    pub fn as_str(&self) -> (r: &str)
        ensures
            r@ == self@,
            !blank(r@),
    {
        proof {
            use_type_invariant(self);
        }
        self.0.as_str()
    }

    /// The proposition text as an owned string.
    pub fn to_string(&self) -> (r: String)
        ensures
            r@ == self@,
    {
        owned(self.0.as_str())
    }
}

/// What a [`ProducerInfo`] records.
pub struct ProducerModel {
    /// The harness that produced the artifact.
    pub harness: Seq<char>,
    /// Harness version.
    pub version: Seq<char>,
    /// Model identifier, if model-derived.
    pub model: Option<Seq<char>>,
}

/// Provenance of the producing agent/harness: harness, version, model.
#[derive(Debug, PartialEq, Eq, Hash)]
pub struct ProducerInfo {
    harness: String,
    version: String,
    model: Option<String>,
}

/// The view of an optional string.
pub open spec fn opt_view(o: Option<String>) -> Option<Seq<char>> {
    match o {
        Some(s) => Some(s@),
        None => None,
    }
}

impl View for ProducerInfo {
    type V = ProducerModel;

    closed spec fn view(&self) -> ProducerModel {
        ProducerModel { harness: self.harness@, version: self.version@, model: opt_view(self.model) }
    }
}

/// A copy of an optional string.
pub fn clone_opt_string(o: &Option<String>) -> (r: Option<String>)
    ensures
        opt_view(r) == opt_view(*o),
{
    match o {
        Some(s) => Some(s.clone()),
        None => None,
    }
}

impl Clone for ProducerInfo {
    fn clone(&self) -> (r: Self)
        ensures
            r@ == self@,
    {
        proof {
            use_type_invariant(self);
        }
        ProducerInfo {
            harness: self.harness.clone(),
            version: self.version.clone(),
            model: clone_opt_string(&self.model),
        }
    }
}

impl ProducerInfo {
    #[verifier::type_invariant]
    spec fn fields_present(self) -> bool {
        !blank(self.harness@) && !blank(self.version@)
    }

    /// Construct producer info; `harness` and `version` must be non-blank.
    pub fn new(harness: &str, version: &str, model: Option<String>) -> (r: Result<
        Self,
        DomainError,
    >)
        ensures
            match r {
                Ok(p) => !blank(harness@) && !blank(version@) && p@ == (ProducerModel {
                    harness: harness@,
                    version: version@,
                    model: opt_view(model),
                }),
                Err(e) => if blank(harness@) {
                    e == DomainError::EmptyField("producer.harness")
                } else {
                    blank(version@) && e == DomainError::EmptyField("producer.version")
                },
            },
    {
        if is_blank(harness) {
            return Err(DomainError::EmptyField("producer.harness"));
        }
        if is_blank(version) {
            return Err(DomainError::EmptyField("producer.version"));
        }
        Ok(ProducerInfo { harness: owned(harness), version: owned(version), model })
    }

    /// The harness that produced the artifact.
    pub fn harness(&self) -> (r: &str)
        ensures
            r@ == self@.harness,
            !blank(r@),
    {
        proof {
            use_type_invariant(self);
        }
        self.harness.as_str()
    }

    /// Harness version.
    pub fn version(&self) -> (r: &str)
        ensures
            r@ == self@.version,
            !blank(r@),
    {
        proof {
            use_type_invariant(self);
        }
        self.version.as_str()
    }

    /// Model identifier, if model-derived.
    pub fn model(&self) -> (r: Option<&str>)
        ensures
            match r {
                Some(m) => self@.model == Some(m@),
                None => self@.model is None,
            },
    {
        match &self.model {
            Some(m) => Some(m.as_str()),
            None => None,
        }
    }
}

/// Cost accounting for an artifact's production. All fields optional;
/// zero-cost is the default.
#[derive(Debug, Clone, Copy, PartialEq, Eq, Hash)]
pub struct CostRecord {
    /// Capture cost in milliseconds.
    pub capture_ms: Option<u64>,
    /// Validation cost in milliseconds.
    pub validation_ms: Option<u64>,
    /// Recomputation cost in milliseconds.
    pub recompute_ms: Option<u64>,
    /// Model tokens consumed, if any.
    pub tokens: Option<u64>,
}

impl Default for CostRecord {
    fn default() -> (r: Self)
        ensures
            r.capture_ms is None,
            r.validation_ms is None,
            r.recompute_ms is None,
            r.tokens is None,
    {
        CostRecord { capture_ms: None, validation_ms: None, recompute_ms: None, tokens: None }
    }
}

/// What a [`Derivation`] records.
pub struct DerivationModel {
    /// Identity of the derivation.
    pub id: ContentHash,
    /// The capture channels that participated.
    pub channels: Seq<CaptureChannel>,
    /// The derived capture trust.
    pub capture_trust: CaptureTrust,
    /// Producer provenance.
    pub producer: ProducerModel,
    /// Creation time (unix epoch millis, UTC).
    pub created_at: u64,
}

/// How an artifact was produced (provenance, never correctness). Owns the
/// [`CaptureTrust`] that propagates into every attestation of artifacts
/// derived here.
#[derive(Debug, PartialEq, Eq, Hash)]
pub struct Derivation {
    id: DerivationId,
    channels: Vec<CaptureChannel>,
    capture_trust: CaptureTrust,
    producer: ProducerInfo,
    created_at: Timestamp,
}

impl View for Derivation {
    type V = DerivationModel;

    closed spec fn view(&self) -> DerivationModel {
        DerivationModel {
            id: self.id.0,
            channels: self.channels@,
            capture_trust: self.capture_trust,
            producer: self.producer@,
            created_at: self.created_at,
        }
    }
}

impl Clone for Derivation {
    fn clone(&self) -> (r: Self)
        ensures
            r@ == self@,
    {
        proof {
            use_type_invariant(self);
        }
        Derivation {
            id: self.id,
            channels: copy_all(self.channels.as_slice()),
            capture_trust: self.capture_trust,
            producer: self.producer.clone(),
            created_at: self.created_at,
        }
    }
}

impl Derivation {
    #[verifier::type_invariant]
    spec fn trust_is_computed(self) -> bool {
        self.capture_trust == weakest_trust(self.channels@)
    }

    /// Construct a derivation from the observation channels that
    /// participated. Capture trust is **computed**, not claimed: it is the
    /// weakest participating channel. No channels at all means nothing was
    /// captured → [`CaptureTrust::Unobserved`].
    pub fn new(
        id: DerivationId,
        channels: Vec<CaptureChannel>,
        producer: ProducerInfo,
        created_at: Timestamp,
    ) -> (r: Self)
        ensures
            r@.id == id.0,
            r@.channels == channels@,
            r@.capture_trust == weakest_trust(channels@),
            r@.producer == producer@,
            r@.created_at == created_at,
    {
        let trust = capture_trust_from_channels(channels.as_slice());
        Derivation { id, channels, capture_trust: trust, producer, created_at }
    }

    /// Identity of this derivation.
    pub fn id(&self) -> (r: DerivationId)
        ensures
            r.0 == self@.id,
    {
        self.id
    }

    /// The capture channels that participated.
    pub fn channels(&self) -> (r: &[CaptureChannel])
        ensures
            r@ == self@.channels,
    {
        self.channels.as_slice()
    }

    /// The derived capture trust: the weakest participating channel.
    pub fn capture_trust(&self) -> (r: CaptureTrust)
        ensures
            r == self@.capture_trust,
            r == weakest_trust(self@.channels),
    {
        proof {
            use_type_invariant(self);
        }
        self.capture_trust
    }

    /// Producer provenance.
    pub fn producer(&self) -> (r: &ProducerInfo)
        ensures
            r@ == self@.producer,
    {
        &self.producer
    }

    /// Creation time (unix epoch millis, UTC).
    pub fn created_at(&self) -> (r: Timestamp)
        ensures
            r == self@.created_at,
    {
        self.created_at
    }
}

/// What an [`ArtifactEnvelope`] records.
pub struct EnvelopeModel {
    /// Content identity of the artifact.
    pub id: ContentHash,
    /// Schema version of the envelope and payload.
    pub schema_version: u32,
    /// The artifact kind.
    pub kind: ArtifactKind,
    /// CAS blob holding the canonical payload.
    pub payload_ref: ContentHash,
    /// The proposition, if any.
    pub proposition: Option<Seq<char>>,
    /// Producer provenance.
    pub producer: ProducerModel,
    /// The derivation.
    pub derivation: DerivationModel,
    /// Dependency projections, sorted and deduplicated.
    pub dependencies: Seq<ContentHash>,
    /// The snapshot this artifact was created against.
    pub created_snapshot: ContentHash,
    /// Production cost record.
    pub cost: CostRecord,
}

/// The view of an optional proposition.
pub open spec fn prop_view(p: Option<Proposition>) -> Option<Seq<char>> {
    match p {
        Some(p) => Some(p@),
        None => None,
    }
}

/// The immutable artifact envelope.
///
/// **Note what is absent:** no validity, authority, or verification fields.
/// Those belong to the validation attestation. All fields are private with
/// read-only accessors: artifacts are immutable by construction.
#[derive(Debug, PartialEq, Eq, Hash)]
pub struct ArtifactEnvelope {
    id: ArtifactId,
    schema_version: u32,
    kind: ArtifactKind,
    payload_ref: BlobId,
    proposition: Option<Proposition>,
    producer: ProducerInfo,
    derivation: Derivation,
    dependencies: Vec<ProjectionId>,
    created_snapshot: SnapshotId,
    cost: CostRecord,
}

impl View for ArtifactEnvelope {
    type V = EnvelopeModel;

    closed spec fn view(&self) -> EnvelopeModel {
        EnvelopeModel {
            id: self.id.0,
            schema_version: self.schema_version,
            kind: self.kind,
            payload_ref: self.payload_ref.0,
            proposition: prop_view(self.proposition),
            producer: self.producer@,
            derivation: self.derivation@,
            dependencies: views(self.dependencies@),
            created_snapshot: self.created_snapshot.0,
            cost: self.cost,
        }
    }
}

impl Clone for ArtifactEnvelope {
    fn clone(&self) -> (r: Self)
        ensures
            r@ == self@,
    {
        proof {
            use_type_invariant(self);
        }
        let proposition = match &self.proposition {
            Some(p) => Some(p.clone()),
            None => None,
        };
        ArtifactEnvelope {
            id: self.id,
            schema_version: self.schema_version,
            kind: self.kind,
            payload_ref: self.payload_ref,
            proposition,
            producer: self.producer.clone(),
            derivation: self.derivation.clone(),
            dependencies: copy_all(self.dependencies.as_slice()),
            created_snapshot: self.created_snapshot,
            cost: self.cost,
        }
    }
}

impl ArtifactEnvelope {
    #[verifier::type_invariant]
    spec fn dependencies_canonical(self) -> bool {
        strictly_sorted::<ProjectionId>(views(self.dependencies@))
    }

    /// Construct an artifact envelope.
    ///
    /// # Invariants
    /// - The dependency list is stored **sorted and deduplicated**;
    ///   construction normalizes rather than trusting the caller.
    /// - The proposition is required for propositional kinds (`Fact`,
    ///   `DerivedFact`, `Hypothesis`); a present proposition is never blank.
    ///
    /// # Errors
    /// [`DomainError::EmptyField`]`("proposition")` exactly when a
    /// propositional kind comes without a proposition.
    pub fn new(
        id: ArtifactId,
        schema_version: u32,
        kind: ArtifactKind,
        payload_ref: BlobId,
        proposition: Option<Proposition>,
        producer: ProducerInfo,
        derivation: Derivation,
        dependencies: Vec<ProjectionId>,
        created_snapshot: SnapshotId,
        cost: CostRecord,
    ) -> (r: Result<Self, DomainError>)
        ensures
            match r {
                Ok(a) => {
                    &&& !(is_propositional(kind) && proposition is None)
                    &&& a@.id == id.0
                    &&& a@.schema_version == schema_version
                    &&& a@.kind == kind
                    &&& a@.payload_ref == payload_ref.0
                    &&& a@.proposition == prop_view(proposition)
                    &&& a@.producer == producer@
                    &&& a@.derivation == derivation@
                    &&& canonical_set_of::<ProjectionId>(a@.dependencies, views(dependencies@))
                    &&& a@.created_snapshot == created_snapshot.0
                    &&& a@.cost == cost
                },
                Err(e) => is_propositional(kind) && proposition is None && e
                    == DomainError::EmptyField("proposition"),
            },
    {
        let propositional = matches!(
            kind,
            ArtifactKind::Fact | ArtifactKind::DerivedFact | ArtifactKind::Hypothesis
        );
        if propositional && proposition.is_none() {
            return Err(DomainError::EmptyField("proposition"));
        }
        if let Some(p) = &proposition {
            if is_blank(p.as_str()) {
                return Err(DomainError::EmptyField("proposition"));
            }
        }
        let deps = canonical_set(dependencies);
        Ok(
            ArtifactEnvelope {
                id,
                schema_version,
                kind,
                payload_ref,
                proposition,
                producer,
                derivation,
                dependencies: deps,
                created_snapshot,
                cost,
            },
        )
    }

    /// Content identity of this artifact.
    pub fn id(&self) -> (r: ArtifactId)
        ensures
            r.0 == self@.id,
    {
        self.id
    }

    /// Schema version of the envelope and payload.
    pub fn schema_version(&self) -> (r: u32)
        ensures
            r == self@.schema_version,
    {
        self.schema_version
    }

    /// The artifact kind.
    pub fn kind(&self) -> (r: ArtifactKind)
        ensures
            r == self@.kind,
    {
        self.kind
    }

    /// The artifact's reuse class (kind-derived).
    pub fn reuse_class(&self) -> (r: ReuseClass)
        ensures
            r == kind_reuse_class(self@.kind),
    {
        self.kind.reuse_class()
    }

    /// CAS blob holding the canonical payload.
    pub fn payload_ref(&self) -> (r: BlobId)
        ensures
            r.0 == self@.payload_ref,
    {
        self.payload_ref
    }

    /// The proposition, if this is a propositional artifact.
    pub fn proposition(&self) -> (r: Option<&Proposition>)
        ensures
            match r {
                Some(p) => self@.proposition == Some(p@),
                None => self@.proposition is None,
            },
    {
        match &self.proposition {
            Some(p) => Some(p),
            None => None,
        }
    }

    /// Producer provenance.
    pub fn producer(&self) -> (r: &ProducerInfo)
        ensures
            r@ == self@.producer,
    {
        &self.producer
    }

    /// The derivation — how this artifact was produced.
    pub fn derivation(&self) -> (r: &Derivation)
        ensures
            r@ == self@.derivation,
    {
        &self.derivation
    }

    /// The capture trust inherited from the derivation.
    pub fn capture_trust(&self) -> (r: CaptureTrust)
        ensures
            r == self@.derivation.capture_trust,
            r == weakest_trust(self@.derivation.channels),
    {
        self.derivation.capture_trust()
    }

    /// Dependency projections, sorted and deduplicated.
    pub fn dependencies(&self) -> (r: &[ProjectionId])
        ensures
            views(r@) == self@.dependencies,
            strictly_sorted::<ProjectionId>(views(r@)),
    {
        proof {
            use_type_invariant(self);
        }
        self.dependencies.as_slice()
    }

    /// The snapshot this artifact was created against.
    pub fn created_snapshot(&self) -> (r: SnapshotId)
        ensures
            r.0 == self@.created_snapshot,
    {
        self.created_snapshot
    }

    /// Production cost record.
    pub fn cost(&self) -> (r: CostRecord)
        ensures
            r == self@.cost,
    {
        self.cost
    }
}

} // verus!
