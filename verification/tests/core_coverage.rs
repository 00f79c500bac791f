use trellis::coverage::{Completeness, CompletenessEvaluator, CoverageCertificate, CoverageState, Universe};
use trellis::projection::ProjectionKind;

fn universe(paths: &[&str]) -> Universe {
    Universe::new(paths.iter().map(|p| p.to_string()).collect())
}

#[test]
fn universe_digest_is_order_and_duplicate_insensitive() {
    let a = universe(&["b.py", "a.py"]);
    let b = universe(&["a.py", "b.py", "a.py"]);
    assert_eq!(a, b);
    assert_eq!(a.digest(), b.digest());
    let c = universe(&["a.py", "c.py"]);
    assert_ne!(a.digest(), c.digest());
}

#[test]
fn certificate_digest_covers_every_field() {
    let base = CoverageCertificate::complete();
    assert_eq!(base.digest(), CoverageCertificate::complete().digest());
    let mut degraded = CoverageCertificate::complete();
    degraded.resolved_reference_coverage = CoverageState::Unproven;
    assert_ne!(base.digest(), degraded.digest());
    let mut with_failure = CoverageCertificate::complete();
    with_failure.failures = vec!["users/broken.py".to_string()];
    assert_ne!(base.digest(), with_failure.digest());
}

#[test]
fn evaluator_satisfies_only_complete_certificates() {
    for kind in [
        ProjectionKind::Callers,
        ProjectionKind::References,
        ProjectionKind::Implementations,
        ProjectionKind::Subclasses,
        ProjectionKind::RepositorySearch,
    ] {
        assert_eq!(CompletenessEvaluator::evaluate(kind, &CoverageCertificate::complete()), Completeness::Complete);
        assert_eq!(
            CompletenessEvaluator::evaluate(kind, &CoverageCertificate::with_failed_units(&["users/broken.py".into()])),
            Completeness::Unknown
        );
        let mut unproven = CoverageCertificate::complete();
        unproven.resolved_reference_coverage = CoverageState::Unproven;
        assert_eq!(CompletenessEvaluator::evaluate(kind, &unproven), Completeness::Unknown);
    }
    assert_eq!(
        CompletenessEvaluator::evaluate(ProjectionKind::Signature, &CoverageCertificate::with_failed_units(&["x.py".into()])),
        Completeness::Complete
    );
}

#[test]
fn universe_paths_are_sorted_and_distinct() {
    let u = universe(&["b.py", "a.py", "b.py"]);
    assert_eq!(u.paths(), &["a.py".to_string(), "b.py".to_string()]);
}
