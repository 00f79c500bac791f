use trellis::engine::ledger::Ledger;
use trellis::artifact::{Derivation, ProducerInfo};
use trellis::attestation::{AttestationHistory, ValidationAttestation};
use trellis::error::DomainError;
use trellis::ids::{ArtifactId, AttestationId, ContentHash, DerivationId, HashAlgo, SnapshotId};
use trellis::validity::{Authority, CaptureChannel, CaptureTrust, Validity, VerificationLevel};

fn h(seed: u8) -> ContentHash {
    let d: Vec<u8> = (0..32).map(|i| seed.wrapping_add(i)).collect();
    ContentHash::from_bytes(HashAlgo::Blake3, &d).unwrap()
}

fn art(seed: u8) -> ArtifactId {
    ArtifactId::from_hash(h(seed))
}

fn snap(seed: u8) -> SnapshotId {
    SnapshotId::from_hash(h(seed))
}

fn att_id(seed: u8) -> AttestationId {
    AttestationId::from_hash(h(seed))
}

fn derivation() -> Derivation {
    Derivation::new(
        DerivationId::from_hash(h(90)),
        vec![CaptureChannel::PartiallyCaptured],
        ProducerInfo::new("harness", "0.1", None).unwrap(),
        0,
    )
}

fn att(seed: u8, artifact: ArtifactId, validity: Validity, authority: Authority, level: VerificationLevel, at: u64) -> ValidationAttestation {
    ValidationAttestation::for_derivation(
        att_id(seed),
        artifact,
        &derivation(),
        snap(70),
        None,
        validity,
        authority,
        level,
        None,
        vec![],
        at,
    )
}

#[test]
fn capture_trust_is_propagated_from_derivation() {
    let a = att(1, art(80), Validity::Valid, Authority::Authoritative, VerificationLevel::Test, 10);
    assert_eq!(a.capture_trust(), CaptureTrust::Partial);
}

#[test]
fn history_rejects_foreign_artifacts_and_duplicates() {
    let mut history = AttestationHistory::new(art(80));
    history.append(att(1, art(80), Validity::Valid, Authority::Provisional, VerificationLevel::Unverified, 10)).unwrap();
    assert_eq!(
        history.append(att(2, art(81), Validity::Valid, Authority::Provisional, VerificationLevel::Unverified, 11)).unwrap_err(),
        DomainError::ArtifactMismatch { history: art(80).to_string(), attestation: art(81).to_string() }
    );
    assert_eq!(
        history.append(att(1, art(80), Validity::Stale, Authority::Provisional, VerificationLevel::Unverified, 12)).unwrap_err(),
        DomainError::DuplicateAttestation { id: att_id(1).to_string() }
    );
}

#[test]
fn history_is_append_only() {
    let mut history = AttestationHistory::new(art(80));
    let first = att(1, art(80), Validity::Valid, Authority::Provisional, VerificationLevel::Unverified, 10);
    history.append(first.clone()).unwrap();
    let second = att(2, art(80), Validity::Valid, Authority::Authoritative, VerificationLevel::Deterministic, 20);
    history.append(second).unwrap();
    assert_eq!(history.iter().next().unwrap(), &first);
    assert_eq!(history.iter().next().unwrap().authority(), Authority::Provisional);
    assert_eq!(history.len(), 2);
}

#[test]
fn out_of_order_append_rejected() {
    let mut history = AttestationHistory::new(art(80));
    history.append(att(1, art(80), Validity::Valid, Authority::Provisional, VerificationLevel::Unverified, 100)).unwrap();
    assert_eq!(
        history.append(att(2, art(80), Validity::Valid, Authority::Provisional, VerificationLevel::Unverified, 50)).unwrap_err(),
        DomainError::AttestationOutOfOrder { latest: 100, rejected: 50 }
    );
}

#[test]
fn strongest_prefers_authority_then_verification_then_time() {
    let mut history = AttestationHistory::new(art(80));
    history.append(att(1, art(80), Validity::Valid, Authority::Provisional, VerificationLevel::Deterministic, 30)).unwrap();
    history.append(att(2, art(80), Validity::Valid, Authority::Authoritative, VerificationLevel::Unverified, 40)).unwrap();
    assert_eq!(history.strongest().unwrap().id(), att_id(2));

    let mut history2 = AttestationHistory::new(art(80));
    history2.append(att(3, art(80), Validity::Valid, Authority::Authoritative, VerificationLevel::StructuralQuery, 10)).unwrap();
    history2.append(att(4, art(80), Validity::Valid, Authority::Authoritative, VerificationLevel::Test, 20)).unwrap();
    assert_eq!(history2.strongest().unwrap().id(), att_id(4));
}

#[test]
fn strongest_is_deterministic_on_full_ties() {
    let mut history = AttestationHistory::new(art(80));
    history.append(att(5, art(80), Validity::Valid, Authority::Provisional, VerificationLevel::StructuralQuery, 10)).unwrap();
    history.append(att(6, art(80), Validity::Valid, Authority::Provisional, VerificationLevel::StructuralQuery, 10)).unwrap();
    let strongest = history.strongest().unwrap().id();
    assert_eq!(strongest, att_id(6));
    assert_eq!(AttestationId::from_str(&strongest.to_string()).unwrap(), strongest);
}

#[test]
fn empty_history_has_no_strongest() {
    let history = AttestationHistory::new(art(80));
    assert!(history.is_empty());
    assert!(history.strongest().is_none());
}

#[test]
fn rejected_append_leaves_history_unchanged() {
    let mut history = AttestationHistory::new(art(80));
    history.append(att(1, art(80), Validity::Valid, Authority::Provisional, VerificationLevel::Unverified, 10)).unwrap();
    let _ = history.append(att(2, art(81), Validity::Valid, Authority::Provisional, VerificationLevel::Unverified, 11));
    assert_eq!(history.len(), 1);
    assert_eq!(history.entries()[0].id(), att_id(1));
}

#[test]
fn ledger_commits_append_only_and_idempotently() {
    let a = art(1);
    let b = art(2);
    let mut ha = AttestationHistory::new(a);
    ha.append(att(10, a, Validity::Valid, Authority::Authoritative, VerificationLevel::Test, 5)).unwrap();
    let hb = AttestationHistory::new(b);
    let mut ledger = Ledger::new(vec![ha, hb]);
    let round = vec![
        att(11, a, Validity::Stale, Authority::Authoritative, VerificationLevel::Test, 6),
        att(12, b, Validity::Valid, Authority::Provisional, VerificationLevel::Test, 7),
        att(13, art(3), Validity::Valid, Authority::Provisional, VerificationLevel::Test, 8),
        att(14, a, Validity::Valid, Authority::Authoritative, VerificationLevel::Test, 1),
    ];
    assert_eq!(ledger.commit(&round), vec![true, true, false, false]);
    let lens: Vec<usize> = ledger.histories().iter().map(|h| h.entries().len()).collect();
    assert_eq!(lens, vec![2, 1]);
    assert_eq!(ledger.histories()[0].entries()[0].id(), att_id(10));
    assert_eq!(ledger.histories()[0].entries()[1].id(), att_id(11));
    assert_eq!(ledger.commit(&round), vec![false, false, false, false]);
    let lens: Vec<usize> = ledger.histories().iter().map(|h| h.entries().len()).collect();
    assert_eq!(lens, vec![2, 1]);
}
