use trellis::engine::discovery::{reevaluation_candidates, RecordedObservation};
use trellis::ids::{ContentHash, HashAlgo, ProjectionObservationId, SnapshotId};
use trellis::program::index::ProgramIndex;
use trellis::program::model::SymbolPath;
use trellis::program::python::PythonSyntaxIndex;
use trellis::projection::{Projection, ProjectionKind, ProjectionObservation, Property, Scope, Subject};
use trellis::source::reconcile::ChangedSet;

fn h(seed: u8) -> ContentHash {
    let d: Vec<u8> = (0..32).map(|i| seed.wrapping_add(i)).collect();
    ContentHash::from_bytes(HashAlgo::Blake3, &d).unwrap()
}

fn snap(seed: u8) -> SnapshotId {
    SnapshotId::from_hash(h(seed))
}

fn changed(paths: &[&str]) -> ChangedSet {
    ChangedSet {
        added: paths.iter().filter(|p| p.starts_with("ADD:")).map(|p| p.trim_start_matches("ADD:").to_string()).collect(),
        modified: paths.iter().filter(|p| p.starts_with("MOD:")).map(|p| p.trim_start_matches("MOD:").to_string()).collect(),
        removed: paths.iter().filter(|p| p.starts_with("REM:")).map(|p| p.trim_start_matches("REM:").to_string()).collect(),
    }
}

fn rec(projection: Projection, anchor: &str, seed: u8) -> RecordedObservation {
    let projection_id = projection.id();
    RecordedObservation {
        projection,
        observation: ProjectionObservation::new(
            ProjectionObservationId::from_hash(h(seed)),
            projection_id,
            snap(1),
            h(seed.wrapping_add(200)),
            None,
        ),
        anchor_path: anchor.to_string(),
    }
}

#[test]
fn file_scoped_projection_matches_exact_changed_path() {
    let recorded = vec![rec(Projection::file("auth/tokens.py").unwrap(), "auth/tokens.py", 1)];
    let c = reevaluation_candidates(&changed(&["MOD:auth/tokens.py"]), &recorded);
    assert!(c.contains(&recorded[0].observation.id()));
    let c2 = reevaluation_candidates(&changed(&["MOD:payments/pricing.py"]), &recorded);
    assert!(!c2.contains(&recorded[0].observation.id()));
}

#[test]
fn unit_anchored_projections_match_changed_defining_file() {
    let recorded = vec![
        rec(Projection::signature("auth.tokens.refresh_token").unwrap(), "auth/tokens.py", 1),
        rec(Projection::definition("auth.service.AuthService").unwrap(), "auth/service.py", 2),
    ];
    let c = reevaluation_candidates(&changed(&["MOD:auth/tokens.py"]), &recorded);
    assert!(c.contains(&recorded[0].observation.id()));
    assert!(!c.contains(&recorded[1].observation.id()));
    let c2 = reevaluation_candidates(&changed(&["REM:auth/tokens.py"]), &recorded);
    assert!(c2.contains(&recorded[0].observation.id()));
}

#[test]
fn package_init_imports_are_anchored_to_init_py() {
    let recorded = vec![rec(Projection::imports("users", Scope::Repository).unwrap(), "users/__init__.py", 1)];
    for p in ["ADD:users/__init__.py", "MOD:users/__init__.py", "REM:users/__init__.py"] {
        let c = reevaluation_candidates(&changed(&[p]), &recorded);
        assert!(c.contains(&recorded[0].observation.id()), "{p} must select the package-init imports observation");
    }
    let c = reevaluation_candidates(&changed(&["MOD:auth/tokens.py"]), &recorded);
    assert!(!c.contains(&recorded[0].observation.id()));
}

#[test]
fn added_file_triggers_completeness_sensitive_candidates() {
    let recorded = vec![rec(Projection::callers("auth.tokens.refresh_token", Scope::Repository).unwrap(), "auth/tokens.py", 1)];
    let c = reevaluation_candidates(&changed(&["ADD:api/webhooks.py"]), &recorded);
    assert!(c.contains(&recorded[0].observation.id()));
}

#[test]
fn modified_and_removed_files_trigger_completeness_candidates() {
    let recorded = vec![rec(Projection::callers("auth.tokens.refresh_token", Scope::Repository).unwrap(), "auth/tokens.py", 1)];
    assert!(reevaluation_candidates(&changed(&["MOD:payments/pricing.py"]), &recorded).contains(&recorded[0].observation.id()));
    assert!(reevaluation_candidates(&changed(&["REM:users/service.py"]), &recorded).contains(&recorded[0].observation.id()));
}

#[test]
fn conservative_fallback_kinds_match_any_file_change_and_are_documented() {
    let recorded = vec![rec(Projection::config_value("security.session_timeout").unwrap(), "config/settings.py", 1)];
    assert!(reevaluation_candidates(&changed(&["MOD:payments/pricing.py"]), &recorded).contains(&recorded[0].observation.id()));
}

#[test]
fn empty_changed_set_selects_nothing() {
    let recorded = vec![
        rec(Projection::file("auth/tokens.py").unwrap(), "auth/tokens.py", 1),
        rec(Projection::signature("auth.tokens.refresh_token").unwrap(), "auth/tokens.py", 2),
        rec(Projection::callers("auth.tokens.refresh_token", Scope::Repository).unwrap(), "auth/tokens.py", 3),
        rec(Projection::config_value("k").unwrap(), "config.py", 4),
    ];
    let c = reevaluation_candidates(&ChangedSet::default(), &recorded);
    assert_eq!(c.len(), 0, "no changes → no candidates (every kind)");
}

#[test]
fn multiple_changes_and_duplicates_deduplicate_deterministically() {
    let recorded = vec![
        rec(Projection::file("auth/tokens.py").unwrap(), "auth/tokens.py", 1),
        rec(Projection::signature("auth.tokens.refresh_token").unwrap(), "auth/tokens.py", 2),
        rec(Projection::callers("auth.tokens.refresh_token", Scope::Repository).unwrap(), "auth/tokens.py", 3),
    ];
    let c = reevaluation_candidates(&changed(&["MOD:auth/tokens.py", "ADD:api/webhooks.py"]), &recorded);
    assert_eq!(c.len(), 3);
    let ids = c.ids();
    let mut sorted = ids.clone();
    sorted.sort();
    assert_eq!(ids, sorted, "deterministic canonical ordering");
}

#[test]
fn unrelated_change_minimizes_candidates() {
    let recorded = vec![
        rec(Projection::signature("auth.tokens.refresh_token").unwrap(), "auth/tokens.py", 1),
        rec(Projection::file("payments/pricing.py").unwrap(), "payments/pricing.py", 2),
    ];
    let c = reevaluation_candidates(&changed(&["MOD:payments/pricing.py"]), &recorded);
    assert!(!c.contains(&recorded[0].observation.id()));
    assert!(c.contains(&recorded[1].observation.id()));
}

#[test]
fn scope_distinct_projections_have_distinct_ids() {
    let p_repo = Projection::definition("m.f").unwrap();
    let p_pkg = Projection::new(ProjectionKind::Definition, Subject::Symbol("m.f".into()), Property::Definition, Scope::Package).unwrap();
    assert_ne!(p_repo.id(), p_pkg.id());
    let recorded = vec![rec(p_repo.clone(), "m.py", 1), rec(p_pkg.clone(), "m.py", 2)];
    let c = reevaluation_candidates(&changed(&["MOD:m.py"]), &recorded);
    assert!(c.contains(&recorded[0].observation.id()));
    assert!(c.contains(&recorded[1].observation.id()));
}

#[test]
fn inventory_change_selects_unit_anchored_observations() {
    let recorded = vec![
        rec(Projection::definition("pkg.sub.f").unwrap(), "pkg.py", 1),
        rec(Projection::signature("pkg.sub.f").unwrap(), "pkg.py", 2),
        rec(Projection::imports("pkg", Scope::Repository).unwrap(), "pkg.py", 3),
    ];
    let c = reevaluation_candidates(&changed(&["ADD:pkg/sub.py"]), &recorded);
    for r in &recorded {
        assert!(
            c.contains(&r.observation.id()),
            "ADD must select unit-anchored {}({})",
            r.projection.kind().keyword(),
            r.projection.subject().canonical()
        );
    }
    let c2 = reevaluation_candidates(&changed(&["REM:other.py"]), &recorded);
    for r in &recorded {
        assert!(c2.contains(&r.observation.id()));
    }
    let c3 = reevaluation_candidates(&changed(&["MOD:unrelated.py"]), &recorded);
    assert_eq!(c3.len(), 0, "modified-only: anchors unchanged, no rebinding");
}

#[test]
fn subject_variant_participates_in_identity() {
    let as_symbol = Projection::definition("m.f").unwrap();
    let as_file = Projection::new(ProjectionKind::Definition, Subject::File("m.f".into()), Property::Definition, Scope::Repository).unwrap();
    assert_ne!(as_symbol.id(), as_file.id());
}

#[test]
fn non_python_inventory_change_does_not_select_unit_anchored() {
    let recorded = vec![rec(Projection::definition("pkg.sub.f").unwrap(), "pkg.py", 1)];
    let c = reevaluation_candidates(&changed(&["ADD:README.md"]), &recorded);
    assert!(!c.contains(&recorded[0].observation.id()));
    let c2 = reevaluation_candidates(&changed(&["REM:docs.md"]), &recorded);
    assert!(!c2.contains(&recorded[0].observation.id()));
}

#[test]
fn semantic_kinds_are_recorded_data_not_synthesized() {
    let recorded = vec![rec(Projection::callers("auth.tokens.refresh_token", Scope::Repository).unwrap(), "auth/tokens.py", 1)];
    let c = reevaluation_candidates(&changed(&["ADD:x.py"]), &recorded);
    assert!(c.contains(&recorded[0].observation.id()));
    let tree = vec![("auth/tokens.py".to_string(), "def refresh_token():\n    pass\n".to_string())];
    let idx = PythonSyntaxIndex::index(&tree);
    let symbol = SymbolPath::new("auth.tokens.refresh_token").unwrap();
    assert!(!ProgramIndex::callers(&idx, &symbol).is_proven());
}

#[test]
fn module_aliasing_file_digest_is_path_exact() {
    let mut tree: Vec<(String, String)> = vec![("users.py".to_string(), "VALUE = 1\n".to_string())];
    let idx = PythonSyntaxIndex::index(&tree);
    let d1 = idx.file_digest("users.py").proven().flatten().unwrap();
    tree.push(("users/__init__.py".to_string(), "X = 2\n".to_string()));
    let idx2 = PythonSyntaxIndex::index(&tree);
    let d2 = idx2.file_digest("users.py").proven().flatten().unwrap();
    assert_eq!(d1, d2, "adding an aliased unit must not alter the other path's digest");
    let d3 = idx2.file_digest("users/__init__.py").proven().flatten().unwrap();
    assert_ne!(d2, d3);
}
