use trellis::artifact::{ArtifactEnvelope, ArtifactKind, CostRecord, Derivation, ProducerInfo, Proposition, ReuseClass};
use trellis::error::DomainError;
use trellis::ids::{ArtifactId, BlobId, ContentHash, DerivationId, HashAlgo, ProjectionId, SnapshotId};
use trellis::validity::{default_auto_reuse, Authority, CaptureChannel, CaptureTrust, Validity};

fn h(seed: u8) -> ContentHash {
    let d: Vec<u8> = (0..32).map(|i| seed.wrapping_add(i)).collect();
    ContentHash::from_bytes(HashAlgo::Blake3, &d).unwrap()
}

fn producer() -> ProducerInfo {
    ProducerInfo::new("bench-agent", "0.1.0", Some("test-model".to_string())).unwrap()
}

fn derivation() -> Derivation {
    Derivation::new(DerivationId::from_hash(h(20)), vec![CaptureChannel::TrellisTool], producer(), 100)
}

fn envelope(kind: ArtifactKind, deps: Vec<ProjectionId>, prop: Option<Proposition>) -> ArtifactEnvelope {
    ArtifactEnvelope::new(
        ArtifactId::from_hash(h(30)),
        1,
        kind,
        BlobId::from_hash(h(31)),
        prop,
        producer(),
        derivation(),
        deps,
        SnapshotId::from_hash(h(32)),
        CostRecord::default(),
    )
    .unwrap()
}

#[test]
fn dependencies_are_sorted_and_deduplicated() {
    let a = ProjectionId::from_hash(h(1));
    let b = ProjectionId::from_hash(h(2));
    let c = ProjectionId::from_hash(h(3));
    let art = envelope(ArtifactKind::StructuralSet, vec![c, a, b, a], None);
    assert_eq!(art.dependencies(), &[a, b, c]);
}

#[test]
fn capture_trust_propagates_from_derivation() {
    let art = envelope(ArtifactKind::StructuralSet, vec![], None);
    assert_eq!(art.capture_trust(), CaptureTrust::Complete);

    let unobserved = Derivation::new(
        DerivationId::from_hash(h(21)),
        vec![CaptureChannel::TrellisTool, CaptureChannel::Unobserved],
        producer(),
        100,
    );
    let art2 = ArtifactEnvelope::new(
        ArtifactId::from_hash(h(30)),
        1,
        ArtifactKind::StructuralSet,
        BlobId::from_hash(h(31)),
        None,
        producer(),
        unobserved,
        vec![],
        SnapshotId::from_hash(h(32)),
        CostRecord::default(),
    )
    .unwrap();
    assert_eq!(art2.capture_trust(), CaptureTrust::Unobserved);
    assert!(!default_auto_reuse(Validity::Valid, Authority::Authoritative, art2.capture_trust()));
}

#[test]
fn propositional_kinds_require_proposition() {
    let res = ArtifactEnvelope::new(
        ArtifactId::from_hash(h(30)),
        1,
        ArtifactKind::Fact,
        BlobId::from_hash(h(31)),
        None,
        producer(),
        derivation(),
        vec![],
        SnapshotId::from_hash(h(32)),
        CostRecord::default(),
    );
    assert!(matches!(res.unwrap_err(), DomainError::EmptyField("proposition")));

    let ok = envelope(ArtifactKind::Fact, vec![], Some(Proposition::new("normalize_email is idempotent").unwrap()));
    assert_eq!(ok.kind(), ArtifactKind::Fact);
    assert_eq!(ok.reuse_class(), ReuseClass::VerifiedFact);
    assert_eq!(ok.proposition().unwrap().to_string(), "normalize_email is idempotent");
    assert_eq!(ok.derivation().capture_trust(), CaptureTrust::Complete);
}

#[test]
fn empty_proposition_text_rejected() {
    assert!(Proposition::new("   ").is_err());
}

#[test]
fn producer_info_validated() {
    assert!(ProducerInfo::new("", "1.0", None).is_err());
    assert!(ProducerInfo::new("agent", " ", None).is_err());
    let p = ProducerInfo::new("agent", "1.0", Some("model".to_string())).unwrap();
    assert_eq!(p.model(), Some("model"));
}

#[test]
fn ids_roundtrip_through_display() {
    let art = envelope(ArtifactKind::StructuralSet, vec![], None);
    assert_eq!(ArtifactId::from_str(&art.id().to_string()).unwrap(), art.id());
    assert_eq!(DerivationId::from_str(&art.derivation().id().to_string()).unwrap(), art.derivation().id());
}

#[test]
fn reuse_class_follows_kind() {
    assert_eq!(ArtifactKind::Observation.reuse_class(), ReuseClass::DeterministicStructural);
    assert_eq!(ArtifactKind::DerivedFact.reuse_class(), ReuseClass::VerifiedFact);
    assert_eq!(ArtifactKind::Summary.reuse_class(), ReuseClass::ModelDerived);
    assert_eq!(ArtifactKind::Patch.reuse_class(), ReuseClass::Historical);
}
