use trellis::artifact::{ArtifactEnvelope, ArtifactKind, CostRecord, Derivation, ProducerInfo, Proposition};
use trellis::attestation::{AttestationHistory, ValidationAttestation};
use trellis::error::DomainError;
use trellis::ids::{
    ArtifactId, AttestationId, BlobId, ContentHash, DerivationId, EnvironmentFingerprintId, GitOid, HashAlgo, ManifestId,
    ProjectionId, ProjectionObservationId, RepositoryId, SnapshotId,
};
use trellis::observation_id::canonical_observation_id;
use trellis::projection::{Projection, ProjectionKind, ProjectionObservation, Property, Scope, Subject};
use trellis::snapshot::Snapshot;
use trellis::validity::{
    capture_trust_from_channels, default_auto_reuse, Authority, CaptureChannel, CaptureTrust, Validity, VerificationLevel,
};

fn h(seed: u8) -> ContentHash {
    let d: Vec<u8> = (0..32).map(|i| seed.wrapping_add(i)).collect();
    ContentHash::from_bytes(HashAlgo::Blake3, &d).unwrap()
}

#[test]
fn acceptance_trace_domain_shape() {
    let callers = Projection::callers("app.auth.refresh_token", Scope::Repository).unwrap();
    assert!(callers.kind().is_completeness_sensitive());
    let artifact = ArtifactEnvelope::new(
        ArtifactId::from_hash(ContentHash::from_str(&format!("blake3:{}", "11".repeat(32))).unwrap()),
        1,
        ArtifactKind::Fact,
        BlobId::from_hash(ContentHash::from_str(&format!("blake3:{}", "22".repeat(32))).unwrap()),
        Some(Proposition::new("refresh_token has no external callers").unwrap()),
        ProducerInfo::new("bench-agent", "0.1.0", None).unwrap(),
        Derivation::new(
            DerivationId::from_hash(ContentHash::from_str(&format!("blake3:{}", "33".repeat(32))).unwrap()),
            vec![CaptureChannel::TrellisTool],
            ProducerInfo::new("bench-agent", "0.1.0", None).unwrap(),
            1_000,
        ),
        vec![ProjectionId::from_hash(ContentHash::from_str(&format!("blake3:{}", "44".repeat(32))).unwrap())],
        SnapshotId::from_hash(ContentHash::from_str(&format!("blake3:{}", "55".repeat(32))).unwrap()),
        CostRecord::default(),
    )
    .unwrap();

    let mut history = AttestationHistory::new(artifact.id());
    history
        .append(ValidationAttestation::for_derivation(
            AttestationId::from_hash(ContentHash::from_str(&format!("blake3:{}", "66".repeat(32))).unwrap()),
            artifact.id(),
            artifact.derivation(),
            artifact.created_snapshot(),
            None,
            Validity::Valid,
            Authority::Authoritative,
            VerificationLevel::StructuralQuery,
            None,
            vec![],
            1_100,
        ))
        .unwrap();
    let s0 = history.strongest().unwrap();
    assert!(default_auto_reuse(s0.validity(), s0.authority(), s0.capture_trust()));

    history
        .append(ValidationAttestation::for_derivation(
            AttestationId::from_hash(ContentHash::from_str(&format!("blake3:{}", "77".repeat(32))).unwrap()),
            artifact.id(),
            artifact.derivation(),
            SnapshotId::from_hash(ContentHash::from_str(&format!("blake3:{}", "88".repeat(32))).unwrap()),
            None,
            Validity::Stale,
            Authority::Authoritative,
            VerificationLevel::StructuralQuery,
            None,
            vec![],
            2_000,
        ))
        .unwrap();

    let stale = history.strongest().unwrap();
    assert_eq!(stale.validity(), Validity::Stale);
    assert!(!default_auto_reuse(stale.validity(), stale.authority(), stale.capture_trust()));
    assert_eq!(history.len(), 2);
    assert_eq!(history.iter().next().unwrap().validity(), Validity::Valid);
}

#[test]
fn derivation_is_deterministic_and_field_sensitive() {
    let p = ProjectionId::from_hash(h(1));
    let v = h(2);
    let s = SnapshotId::from_hash(h(3));
    assert_eq!(canonical_observation_id(&p, &v, &s), canonical_observation_id(&p, &v, &s));
    assert_ne!(canonical_observation_id(&p, &v, &s), canonical_observation_id(&p, &h(4), &s));
    assert_ne!(canonical_observation_id(&p, &v, &s), canonical_observation_id(&ProjectionId::from_hash(h(9)), &v, &s));
    assert_ne!(canonical_observation_id(&p, &v, &s), canonical_observation_id(&p, &v, &SnapshotId::from_hash(h(5))));
    assert!(canonical_observation_id(&p, &v, &s).to_string().starts_with("blake3:"));
}

#[test]
fn callers_constructor_binds_kind_property_scope() {
    let p = Projection::callers("app.auth.verify", Scope::Repository).unwrap();
    assert_eq!(p.kind(), ProjectionKind::Callers);
    assert_eq!(p.property(), Property::CallerSet);
    assert_eq!(p.scope(), Scope::Repository);
    assert!(p.kind().is_completeness_sensitive());
    assert_eq!(p.to_string(), "callers(app.auth.verify, scope=Repository)");
}

#[test]
fn empty_subject_rejected() {
    assert_eq!(Projection::callers("   ", Scope::Repository).unwrap_err(), DomainError::EmptySubject);
    assert!(Projection::file("").is_err());
}

#[test]
fn inconsistent_property_rejected() {
    let err = Projection::new(ProjectionKind::Callers, Subject::Symbol("x".into()), Property::Signature, Scope::Repository)
        .unwrap_err();
    assert!(matches!(err, DomainError::InconsistentProperty { .. }));
}

#[test]
fn file_content_is_not_completeness_sensitive() {
    let p = Projection::file("src/auth.py").unwrap();
    assert!(!p.kind().is_completeness_sensitive());
}

#[test]
fn observation_holds_digest_and_optional_blob() {
    let obs = ProjectionObservation::new(
        ProjectionObservationId::from_hash(h(1)),
        ProjectionId::from_hash(h(2)),
        SnapshotId::from_hash(h(3)),
        h(4),
        Some(BlobId::from_hash(h(5))),
    );
    assert_eq!(obs.value_digest(), &h(4));
    assert!(obs.canonical_value().is_some());
    assert_eq!(ProjectionObservationId::from_str(&obs.id().to_string()).unwrap(), obs.id());
}

fn snap_id(seed: u8) -> SnapshotId {
    SnapshotId::from_hash(h(seed))
}

fn manifest_id(seed: u8) -> ManifestId {
    ManifestId::from_hash(h(seed))
}

fn env() -> EnvironmentFingerprintId {
    let d: Vec<u8> = (0..32).map(|i| 90 + i).collect();
    EnvironmentFingerprintId::from_hash(ContentHash::from_bytes(HashAlgo::Blake3, &d).unwrap())
}

#[test]
fn self_parent_rejected() {
    let s = snap_id(1);
    let err = Snapshot::new(s, RepositoryId::from_hash(*s.hash()), None, manifest_id(2), None, env(), Some(s), 0)
        .unwrap_err();
    assert_eq!(err, DomainError::SelfParent);
}

#[test]
fn valid_snapshot_roundtrips_fields() {
    let commit = GitOid::from_str("0123456789abcdef0123456789abcdef01234567").unwrap();
    let snap = Snapshot::new(
        snap_id(1),
        RepositoryId::from_hash(*snap_id(1).hash()),
        Some(commit),
        manifest_id(2),
        None,
        env(),
        None,
        42,
    )
    .unwrap();
    assert_eq!(snap.git_commit(), Some(commit));
    assert_eq!(snap.created_at(), 42);
    assert_eq!(snap.parent(), None);
    assert_eq!(snap.semantic_snapshot(), None);
}

#[test]
fn verification_level_is_ordered_weakest_to_strongest() {
    assert!(VerificationLevel::Deterministic > VerificationLevel::Static);
    assert!(VerificationLevel::Static > VerificationLevel::Test);
    assert!(VerificationLevel::Test > VerificationLevel::StructuralQuery);
    assert!(VerificationLevel::StructuralQuery > VerificationLevel::EvidenceBacked);
    assert!(VerificationLevel::EvidenceBacked > VerificationLevel::Unverified);
    assert!(VerificationLevel::Deterministic.rank() > VerificationLevel::Unverified.rank());
}

#[test]
fn capture_trust_orders_weakest_to_strongest() {
    assert!(CaptureTrust::Complete > CaptureTrust::Partial);
    assert!(CaptureTrust::Partial > CaptureTrust::DeclaredOnly);
    assert!(CaptureTrust::DeclaredOnly > CaptureTrust::Unobserved);
    assert!(CaptureTrust::Complete.rank() > CaptureTrust::Unobserved.rank());
}

#[test]
fn trust_is_weakest_participating_channel() {
    let all_good = [CaptureChannel::TrellisTool, CaptureChannel::FullyIntercepted, CaptureChannel::TrellisTool];
    assert_eq!(capture_trust_from_channels(&all_good), CaptureTrust::Complete);
    let one_unobserved = [CaptureChannel::TrellisTool, CaptureChannel::Unobserved];
    assert_eq!(capture_trust_from_channels(&one_unobserved), CaptureTrust::Unobserved);
    let declared_and_partial = [CaptureChannel::DeclaredOnly, CaptureChannel::PartiallyCaptured];
    assert_eq!(capture_trust_from_channels(&declared_and_partial), CaptureTrust::DeclaredOnly);
}

#[test]
fn empty_channels_capture_nothing() {
    assert_eq!(capture_trust_from_channels(&[]), CaptureTrust::Unobserved);
}

#[test]
fn default_reuse_floor_truth_table() {
    let (auth, prov) = (Authority::Authoritative, Authority::Provisional);
    let valid = Validity::Valid;
    assert!(default_auto_reuse(valid, auth, CaptureTrust::Complete));
    assert!(default_auto_reuse(valid, auth, CaptureTrust::Partial));
    assert!(default_auto_reuse(valid, auth, CaptureTrust::DeclaredOnly));
    assert!(!default_auto_reuse(valid, prov, CaptureTrust::Complete));
    assert!(!default_auto_reuse(Validity::Unknown, auth, CaptureTrust::Complete));
    assert!(!default_auto_reuse(Validity::Stale, auth, CaptureTrust::Complete));
    assert!(!default_auto_reuse(valid, auth, CaptureTrust::Unobserved));
}

#[test]
fn projection_identity_is_content_derived() {
    let a = Projection::signature("m.f").unwrap();
    let b = Projection::signature("m.f").unwrap();
    let c = Projection::signature("m.g").unwrap();
    assert_eq!(a.id(), b.id());
    assert_ne!(a.id(), c.id());
    assert_eq!(a.to_string(), "signature(m.f, scope=Repository)");
}
