use trellis::artifact::{ArtifactEnvelope, ArtifactKind, CostRecord, Derivation, ProducerInfo, Proposition};
use trellis::attestation::{AttestationHistory, EvidenceRef, ValidationAttestation};
use trellis::cli::state::digest_str;
use trellis::engine::redgreen::{contract_verifier_id, settle_artifact, SET_EQUALITY_CONTRACT};
use trellis::ids::{AttestationId, BlobId, DerivationId};
use trellis::observation_id::canonical_observation_id;
use trellis::validity::{Authority, CaptureChannel, Validity, VerificationLevel};
use trellis::engine::redgreen::forced_projections;
use trellis::projection::Scope;
use trellis::engine::discovery::RecordedObservation;
use trellis::engine::redgreen::{evaluate_projection, DependencyEvaluation, Evaluated};
use trellis::engine::round::{collate_dependents, group_candidates};
use trellis::ids::{ArtifactId, ContentHash, HashAlgo, ProjectionId, ProjectionObservationId, SnapshotId};
use trellis::projection::{Projection, ProjectionObservation};

fn h(seed: u8) -> ContentHash {
    let d: Vec<u8> = (0..32).map(|i| seed.wrapping_add(i)).collect();
    ContentHash::from_bytes(HashAlgo::Blake3, &d).unwrap()
}

fn rec(projection: &Projection, obs_seed: u8, value_seed: u8) -> RecordedObservation {
    RecordedObservation {
        projection: projection.clone(),
        observation: ProjectionObservation::new(
            ProjectionObservationId::from_hash(h(obs_seed)),
            projection.id(),
            SnapshotId::from_hash(h(1)),
            h(value_seed),
            None,
        ),
        anchor_path: "auth/tokens.py".to_string(),
    }
}

#[test]
fn candidates_group_per_projection_in_id_order() {
    let sig = Projection::signature("auth.tokens.refresh_token").unwrap();
    let def = Projection::definition("auth.tokens.refresh_token").unwrap();
    let other = Projection::definition("users.service.UserService").unwrap();
    let recorded = vec![
        rec(&sig, 30, 1),
        rec(&def, 10, 2),
        rec(&sig, 20, 3),
        rec(&other, 40, 4),
        rec(&sig, 30, 5),
    ];
    let candidates: Vec<ProjectionObservationId> = vec![
        ProjectionObservationId::from_hash(h(30)),
        ProjectionObservationId::from_hash(h(20)),
        ProjectionObservationId::from_hash(h(10)),
    ];
    let groups = group_candidates(&recorded, &candidates, &vec![]);
    let mut pids = vec![sig.id(), def.id()];
    pids.sort();
    assert_eq!(groups.iter().map(|g| g.0).collect::<Vec<ProjectionId>>(), pids);
    let sig_group = groups.iter().find(|g| g.0 == sig.id()).unwrap();
    assert_eq!(sig_group.1, vec![2, 4], "ids in order, the later record of id 30 wins");
    let def_group = groups.iter().find(|g| g.0 == def.id()).unwrap();
    assert_eq!(def_group.1, vec![1]);
}

#[test]
fn forced_projections_join_the_round() {
    let sig = Projection::signature("auth.tokens.refresh_token").unwrap();
    let other = Projection::definition("users.service.UserService").unwrap();
    let recorded = vec![rec(&sig, 30, 1), rec(&other, 40, 4)];
    let groups = group_candidates(&recorded, &vec![], &vec![other.id()]);
    assert_eq!(groups, vec![(other.id(), vec![1])]);
    assert!(group_candidates(&recorded, &vec![], &vec![]).is_empty());
}

fn evaluation(projection: &Projection, value: &str) -> DependencyEvaluation {
    let compared = vec![rec(projection, 7, 9)];
    let e = evaluate_projection(&compared, Some(Evaluated::new(value, true)), None, false, SnapshotId::from_hash(h(2)));
    DependencyEvaluation::for_dependency(&e.outcome, projection.id(), e.observation.as_ref(), None)
}

#[test]
fn dependents_collate_by_first_appearance() {
    let a = ArtifactId::from_hash(h(100));
    let b = ArtifactId::from_hash(h(50));
    let p1 = Projection::signature("m.f").unwrap();
    let p2 = Projection::signature("m.g").unwrap();
    let pairs = vec![(a, evaluation(&p1, "x")), (b, evaluation(&p1, "x")), (a, evaluation(&p2, "y"))];
    let collated = collate_dependents(pairs);
    assert_eq!(collated.len(), 2);
    assert_eq!(collated[0].0, a);
    assert_eq!(collated[1].0, b);
    let a_deps: Vec<ProjectionId> = collated[0].1.iter().map(|d| *d.projection()).collect();
    assert_eq!(a_deps, vec![p1.id(), p2.id()]);
    assert_eq!(collated[1].1.len(), 1);
    assert!(collate_dependents(vec![]).is_empty());
}

#[test]
fn stale_completeness_bindings_force_each_projection_once() {
    let callers = Projection::callers("auth.tokens.refresh_token", Scope::Repository).unwrap();
    let other = Projection::callers("users.svc.rotate", Scope::Repository).unwrap();
    let def = Projection::definition("auth.tokens.refresh_token").unwrap();
    let recorded = vec![rec(&callers, 10, 1), rec(&def, 11, 2), rec(&callers, 12, 3), rec(&other, 13, 4)];
    let (u, c) = (h(100), h(101));
    let bound = vec![
        None,
        None,
        None,
        Some((u, c, "scip-python".to_string())),
    ];
    let forced = forced_projections(&recorded, &bound, &u, &c, "scip-python");
    assert_eq!(forced, vec![callers.id()]);
    let bound = vec![
        Some((u, c, "scip-python".to_string())),
        None,
        Some((u, c, "scip-python".to_string())),
        Some((u, h(102), "scip-python".to_string())),
    ];
    let forced = forced_projections(&recorded, &bound, &u, &c, "scip-python");
    assert_eq!(forced, vec![other.id()]);
    let bound = vec![None, None, None, Some((u, c, "other-indexer".to_string()))];
    let forced = forced_projections(&recorded, &bound, &u, &c, "scip-python");
    assert_eq!(forced, vec![callers.id(), other.id()]);
}

#[test]
fn settling_again_with_identical_inputs_appends_nothing() {
    let proj = Projection::signature("m.f").unwrap();
    let pid = proj.id();
    let (s0, s1) = (SnapshotId::from_hash(h(1)), SnapshotId::from_hash(h(2)));
    let d0 = digest_str("old");
    let obs0 = ProjectionObservation::new(canonical_observation_id(&pid, &d0, &s0), pid, s0, d0, None);
    let producer = ProducerInfo::new("agent", "1", None).unwrap();
    let derivation = Derivation::new(DerivationId::from_hash(h(3)), vec![CaptureChannel::TrellisTool], producer, 5);
    let artifact = ArtifactEnvelope::new(
        ArtifactId::from_hash(h(4)),
        1,
        ArtifactKind::StructuralSet,
        BlobId::from_hash(h(5)),
        Some(Proposition::new("m.f has a stable signature").unwrap()),
        ProducerInfo::new("agent", "1", None).unwrap(),
        derivation.clone(),
        vec![pid],
        s0,
        CostRecord::default(),
    )
    .unwrap();
    let mut history = AttestationHistory::new(artifact.id());
    history
        .append(ValidationAttestation::for_derivation(
            AttestationId::from_hash(h(6)),
            artifact.id(),
            &derivation,
            s0,
            None,
            Validity::Valid,
            Authority::Authoritative,
            VerificationLevel::StructuralQuery,
            Some(contract_verifier_id(SET_EQUALITY_CONTRACT)),
            vec![EvidenceRef::Observation(obs0.id())],
            10,
        ))
        .unwrap();
    let recorded = vec![RecordedObservation { projection: proj.clone(), observation: obs0, anchor_path: "m.py".to_string() }];
    let round = evaluate_projection(&recorded, Some(Evaluated::new("new", true)), None, false, s1);
    let obs1 = round.observation.unwrap();
    let fresh = vec![obs1];
    let value = Evaluated::new("new", true);
    let first = settle_artifact(
        &artifact,
        &history,
        vec![DependencyEvaluation::for_dependency(&round.outcome, pid, Some(&obs1), Some(&value))],
        &[Some(obs0)],
        &fresh,
        s1,
        20,
    );
    assert!(first.append);
    assert_eq!(first.attestation.validity(), Validity::Stale);
    history.append(first.attestation.clone()).unwrap();
    let second = settle_artifact(
        &artifact,
        &history,
        vec![DependencyEvaluation::for_dependency(&round.outcome, pid, Some(&obs1), Some(&value))],
        &[Some(obs1)],
        &fresh,
        s1,
        20,
    );
    assert!(!second.append, "a re-run over the same world appends nothing new");
}
