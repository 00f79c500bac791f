use trellis::cli::commands::{release_value, stored_serves, STALE_PINS_EXPLANATION};
use trellis::artifact::{Derivation, ProducerInfo};
use trellis::cli::commands::seed_attestation;
use trellis::engine::redgreen::{contract_verifier_id, SET_EQUALITY_CONTRACT};
use trellis::validity::{Authority, CaptureChannel, VerificationLevel};
use trellis::cas::CasError;
use trellis::cli::args::{parse_args, plan_command, Command};
use trellis::cli::commands::{
    anchor_for, artifact_key_id, compute_fresh, coverage_for, covers_query, dependency_projections,
    derivation_key_id, explain_outcomes, first_run_changes, head_parent, kind_serves, manifest_from_state,
    pin_kind, pin_projection, pin_scope, pins_current, pins_hold, query_answer, query_pin_kind, retrieval_verdict,
    seed_attestation_id, snapshot_row, standing_label, INDEXER,
};
use trellis::cli::semantic::CliSemanticSource;
use trellis::cli::state::digest_str;
use trellis::coverage::CoverageState;
use trellis::engine::discovery::RecordedObservation;
use trellis::engine::observe::ObserveError;
use trellis::engine::redgreen::{evaluate_projection, Evaluated, TransitionError};
use trellis::error::DomainError;
use trellis::ids::{ArtifactId, BlobId, ContentHash, HashAlgo, ProjectionObservationId, SnapshotId};
use trellis::program::python::PythonSyntaxIndex;
use trellis::projection::{Projection, ProjectionKind, ProjectionObservation, Scope};
use trellis::source::environment::EnvironmentError;
use trellis::source::manifest::{Manifest, ManifestEntry, ManifestError};
use trellis::validity::Validity;

fn words(ws: &[&str]) -> Vec<String> {
    ws.iter().map(|w| w.to_string()).collect()
}

fn tree() -> Vec<(String, String)> {
    vec![
        (
            "api/webhooks.py".to_string(),
            "from auth.tokens import refresh_token\n\ndef handle_refresh(u):\n    return refresh_token(u)\n".to_string(),
        ),
        ("auth/__init__.py".to_string(), "".to_string()),
        ("auth/tokens.py".to_string(), "import os\n\ndef refresh_token(t):\n    return t\n".to_string()),
    ]
}

#[test]
fn pins_name_projections_by_keyword_subject_scope() {
    let callers = Projection::callers("auth.tokens.refresh_token", Scope::Repository).unwrap();
    assert_eq!(pin_kind(&callers), "callers");
    assert_eq!(pin_scope(&callers), "Repository");
    assert_eq!(pin_projection("callers", "auth.tokens.refresh_token", "Repository").unwrap(), callers);
    let imports = Projection::imports("auth.tokens", Scope::Module).unwrap();
    assert_eq!(pin_kind(&imports), "imports");
    assert_eq!(pin_projection("imports", "auth.tokens", "Module").unwrap(), imports);
    let refs = Projection::references("x.y", Scope::Repository).unwrap();
    assert_eq!(pin_kind(&refs), "other");
    assert_eq!(pin_projection("callers", "x", "Module").unwrap_err(), "unknown pin kind callers");
    assert_eq!(pin_projection("file", " ", "File").unwrap_err(), "projection subject is empty");
}

#[test]
fn dependency_projections_per_artifact_kind() {
    let t = tree();
    let deps = dependency_projections("references", "auth.tokens.refresh_token", &[], &t).unwrap();
    assert_eq!(deps, vec![Projection::callers("auth.tokens.refresh_token", Scope::Repository).unwrap()]);
    let deps = dependency_projections("filemap", "auth.tokens", &[], &t).unwrap();
    assert_eq!(deps, vec![Projection::file("auth/tokens.py").unwrap()]);
    assert_eq!(
        dependency_projections("filemap", "auth.missing", &[], &t).unwrap_err(),
        "filemap key must be a dotted module name present in the tree (e.g. auth.tokens); 'auth.missing' resolves to missing auth/missing.py"
    );
    let deps =
        dependency_projections("notes", "k", &words(&["auth.tokens", "api.webhooks"]), &t).unwrap();
    assert_eq!(
        deps,
        vec![Projection::file("auth/tokens.py").unwrap(), Projection::file("api/webhooks.py").unwrap()]
    );
    assert_eq!(
        dependency_projections("notes", "k", &[], &t).unwrap_err(),
        "notes artifacts require at least one --dep FILE (dotted module names the note depends on)"
    );
    assert_eq!(
        dependency_projections("notes", "k", &words(&["users.service"]), &t).unwrap_err(),
        "notes dep must be a dotted module name present in the tree (e.g. users.service); 'users.service' resolves to missing users/service.py"
    );
    assert_eq!(dependency_projections("graph", "k", &[], &t).unwrap_err(), "unknown artifact kind graph");
}

#[test]
fn anchors_follow_the_defining_file() {
    let t = tree();
    let sig = Projection::signature("auth.tokens.refresh_token").unwrap();
    assert_eq!(anchor_for(&sig, &t).unwrap(), "auth/tokens.py");
    let module_def = Projection::definition("auth.tokens").unwrap();
    assert_eq!(anchor_for(&module_def, &t).unwrap(), "auth/tokens.py");
    let file = Projection::file("api/webhooks.py").unwrap();
    assert_eq!(anchor_for(&file, &t).unwrap(), "api/webhooks.py");
    let imports = Projection::imports("auth.tokens", Scope::Module).unwrap();
    assert_eq!(anchor_for(&imports, &t).unwrap(), "auth/tokens.py");
    let pkg = Projection::callers("auth.helper", Scope::Repository).unwrap();
    assert_eq!(
        anchor_for(&pkg, &t).unwrap_err(),
        "definition site of auth.helper not found in tree",
        "a package prefix names `auth.py`, which the tree lacks"
    );
    let lost = Projection::callers("users.service.f", Scope::Repository).unwrap();
    assert_eq!(anchor_for(&lost, &t).unwrap_err(), "definition site of users.service.f not found in tree");
    let impls = Projection::implementations("auth.tokens.X", Scope::Repository).unwrap();
    assert_eq!(anchor_for(&impls, &t).unwrap_err(), "no anchor rule for kind Implementations");
}

#[test]
fn publication_identities_hash_labeled_keys() {
    let a = artifact_key_id("callers:auth.tokens.refresh_token", 17);
    assert_eq!(
        a,
        ArtifactId::from_hash(ContentHash::compute(HashAlgo::Blake3, b"trellis.cli.artifact:callers:auth.tokens.refresh_token:17"))
    );
    assert_ne!(a, artifact_key_id("callers:auth.tokens.refresh_token", 18));
    assert_eq!(derivation_key_id("k", 1).hash(), &digest_str("trellis.cli.derivation:k:1"));
    assert_eq!(seed_attestation_id("k", 1).hash(), &digest_str("trellis.cli.seed:k:1"));
}

#[test]
fn fresh_tool_values_and_kinds() {
    let t = tree();
    let idx = PythonSyntaxIndex::index(&t);
    assert_eq!(
        compute_fresh("callers", "auth.tokens.refresh_token", &t, &idx).unwrap(),
        "api.webhooks.handle_refresh"
    );
    assert_eq!(
        compute_fresh("references", "auth.tokens.refresh_token", &t, &idx).unwrap(),
        "api.webhooks.handle_refresh"
    );
    assert!(!compute_fresh("definitions", "auth.tokens.refresh_token", &t, &idx).unwrap().is_empty());
    assert_eq!(compute_fresh("definitions", "auth.tokens.nothing", &t, &idx).unwrap(), "absent");
    assert_eq!(compute_fresh("imports", "auth.tokens", &t, &idx).unwrap(), "os as os (false)");
    assert_eq!(compute_fresh("graph", "x", &t, &idx).unwrap_err(), "unknown tool kind graph");
    assert_eq!(compute_fresh("imports", "", &t, &idx).unwrap_err(), "projection subject is empty");
}

#[test]
fn retrieval_verdicts_and_explanations() {
    assert_eq!(retrieval_verdict(Some(Validity::Valid)), "valid");
    assert_eq!(retrieval_verdict(Some(Validity::Stale)), "stale");
    assert_eq!(retrieval_verdict(Some(Validity::Unknown)), "unknown");
    assert_eq!(retrieval_verdict(None), "unknown");

    let p = Projection::callers("auth.tokens.refresh_token", Scope::Repository).unwrap();
    let other = Projection::signature("m.f").unwrap();
    let h = |seed: u8| ContentHash::compute(HashAlgo::Blake3, &[seed]);
    let compared = |proj: &Projection| {
        vec![RecordedObservation {
            projection: proj.clone(),
            observation: ProjectionObservation::new(
                ProjectionObservationId::from_hash(h(1)),
                proj.id(),
                SnapshotId::from_hash(h(2)),
                h(3),
                None,
            ),
            anchor_path: "auth/tokens.py".to_string(),
        }]
    };
    let changed =
        evaluate_projection(&compared(&p), Some(Evaluated::new("a.b", true)), None, false, SnapshotId::from_hash(h(4)));
    let unobserved = evaluate_projection(&compared(&other), None, None, false, SnapshotId::from_hash(h(4)));
    let outcomes = vec![changed.outcome, unobserved.outcome];
    assert_eq!(
        explain_outcomes(&outcomes, &[p.id()]),
        "Callers(auth.tokens.refresh_token) changed to [a.b]"
    );
    let mut both = vec![p.id(), other.id()];
    both.sort();
    assert_eq!(
        explain_outcomes(&outcomes, &both),
        "Callers(auth.tokens.refresh_token) changed to [a.b]; Signature(m.f) unobserved under current coverage"
    );
    assert_eq!(
        explain_outcomes(&outcomes, &[]),
        "no dependency evidence this round; standing is conservative UNKNOWN"
    );
}

fn pin(k: &str, s: &str, sc: &str, d: &str) -> (String, String, String, String) {
    (k.to_string(), s.to_string(), sc.to_string(), d.to_string())
}

#[test]
fn pins_are_checked_against_current_values() {
    let t = tree();
    let idx = PythonSyntaxIndex::index(&t);
    let source = CliSemanticSource::new(&idx, &t);
    let current = digest_str("api.webhooks.handle_refresh").to_string();
    let good = vec![pin("callers", "auth.tokens.refresh_token", "Repository", &current)];
    assert_eq!(pins_current(&source, &good), Ok(true));
    assert!(pins_hold(&source, &good));
    let stale = vec![pin("callers", "auth.tokens.refresh_token", "Repository", "blake3:00")];
    assert_eq!(pins_current(&source, &stale), Ok(false));
    assert!(!pins_hold(&source, &stale));
    let bad = vec![pin("graph", "x", "Repository", &current)];
    assert_eq!(pins_current(&source, &bad), Err("unknown pin kind graph".to_string()));
    assert!(!pins_hold(&source, &bad));
    assert!(covers_query(&good, "references", "auth.tokens.refresh_token"));
    assert!(!covers_query(&good, "imports", "auth.tokens.refresh_token"));
    assert_eq!(query_pin_kind("definitions"), "definition");
    assert_eq!(query_pin_kind("imports"), "imports");
    assert_eq!(query_pin_kind("filemap"), "filemap");
    assert!(kind_serves("callers", "references"));
    assert!(kind_serves("imports", "imports"));
    assert!(!kind_serves("references", "callers"));
}

#[test]
fn coverage_of_the_textual_backend_is_complete_over_the_tree() {
    let t = tree();
    let ctx = coverage_for(&t);
    assert_eq!(ctx.universe.paths().len(), 3);
    assert_eq!(ctx.certificate.resolved_reference_coverage, CoverageState::Established);
    assert!(ctx.certificate.failures.is_empty());
    assert_eq!(ctx.indexer, INDEXER);
}

#[test]
fn persisted_manifest_rebuilds_and_first_run_adds_everything() {
    let d = ContentHash::compute(HashAlgo::Blake3, b"x");
    let entries = vec![
        ("b.py".to_string(), d.to_string()),
        ("a.py".to_string(), d.to_string()),
        ("c.py".to_string(), "not-a-digest".to_string()),
    ];
    let m = manifest_from_state(&entries).unwrap();
    let paths: Vec<&str> = m.entries().iter().map(|e| e.path.as_str()).collect();
    assert_eq!(paths, vec!["a.py", "b.py"]);
    let expected = Manifest::from_entries(vec![
        ManifestEntry { path: "a.py".into(), digest: d },
        ManifestEntry { path: "b.py".into(), digest: d },
    ])
    .unwrap();
    assert_eq!(m.id(), expected.id());
    assert!(manifest_from_state(&[("../x.py".to_string(), d.to_string())]).is_none());
    let changes = first_run_changes(&m);
    assert_eq!(changes.added, vec!["a.py", "b.py"]);
    assert!(changes.modified.is_empty() && changes.removed.is_empty());
}

#[test]
fn snapshot_rows_and_head_parents() {
    let s1 = SnapshotId::from_hash(ContentHash::compute(HashAlgo::Blake3, b"one"));
    let s2 = SnapshotId::from_hash(ContentHash::compute(HashAlgo::Blake3, b"two"));
    let row = snapshot_row(s2, Some(s1), 9).unwrap();
    assert_eq!(row.id(), s2);
    assert_eq!(row.parent(), Some(s1));
    assert_eq!(row.repository_id().hash(), &digest_str("trellis.cli.repo"));
    assert_eq!(row.working_tree_manifest().hash(), &digest_str(&format!("manifest:{}", s2.to_string())));
    assert_eq!(snapshot_row(s1, Some(s1), 9).unwrap_err(), DomainError::SelfParent);
    let head = s1.to_string();
    assert_eq!(head_parent(Some(&head), s2), Some(s1));
    assert_eq!(head_parent(Some(&head), s1), None);
    assert_eq!(head_parent(Some("garbage"), s1), None);
    assert_eq!(head_parent(None, s1), None);
}

#[test]
fn command_lines_parse_and_plan() {
    let a = parse_args(&words(&["publish", "--repo", "r", "--store", "s", "--key", "k", "--kind", "notes", "--value", "v", "--dep", "a", "--dep", "b"])).unwrap();
    assert_eq!(a.deps, vec!["a", "b"]);
    assert_eq!(
        plan_command(a).unwrap(),
        Command::Publish {
            repo: "r".into(),
            store: "s".into(),
            key: "k".into(),
            kind: "notes".into(),
            value: "v".into(),
            deps: vec!["a".into(), "b".into()],
        }
    );
    assert_eq!(parse_args(&[]).unwrap_err(), "usage: trellis <command> [options]");
    assert_eq!(parse_args(&words(&["init", "--bogus", "x"])).unwrap_err(), "unknown flag --bogus");
    assert_eq!(parse_args(&words(&["init", "--repo"])).unwrap_err(), "missing value for --repo");
    let a = parse_args(&words(&["init", "--repo", "r"])).unwrap();
    assert_eq!(plan_command(a).unwrap_err(), "missing required option --store");
    let a = parse_args(&words(&["tool", "--repo", "r", "--mode", "baseline", "--kind", "callers", "--subject", "x"])).unwrap();
    assert_eq!(
        plan_command(a).unwrap(),
        Command::Tool {
            repo: "r".into(),
            store: "/dev/null".into(),
            mode: "baseline".into(),
            kind: "callers".into(),
            subject: "x".into(),
        }
    );
    let a = parse_args(&words(&["launch"])).unwrap();
    assert_eq!(plan_command(a).unwrap_err(), "unknown command launch");
}

#[test]
fn errors_render_for_people() {
    assert_eq!(DomainError::SelfParent.to_string(), "snapshot cannot be its own parent");
    assert_eq!(
        DomainError::DigestLength { algo: HashAlgo::Blake3, got: 3 }.to_string(),
        "digest length 3 for blake3 (expected 32)"
    );
    assert_eq!(
        DomainError::AttestationOutOfOrder { latest: 10, rejected: 4 }.to_string(),
        "attestation created_at 4 precedes latest 10"
    );
    assert_eq!(EnvironmentError::DuplicateKey("a".into()).to_string(), "duplicate declared key `a`");
    assert_eq!(ManifestError::NonCanonicalPath("./x".into()).to_string(), "manifest path not canonical: ./x");
    let kind = ObserveError::KindMismatch { expected: ProjectionKind::Signature, got: ProjectionKind::Callers };
    assert_eq!(kind.to_string(), "kind mismatch: expected Signature, got Callers");
    assert_eq!(TransitionError::Observe(kind).to_string(), "observe: kind mismatch: expected Signature, got Callers");
    assert_eq!(TransitionError::Store("locked".into()).to_string(), "store: locked");
    let blob = BlobId::from_hash(ContentHash::compute(HashAlgo::Blake3, b"b"));
    assert_eq!(CasError::MissingBlob(blob).to_string(), format!("missing blob {}", blob.to_string()));
}

#[test]
fn fresh_queries_carry_their_backend() {
    let t = tree();
    let idx = PythonSyntaxIndex::index(&t);
    assert_eq!(
        query_answer("callers", "auth.tokens.refresh_token", &t, &idx).unwrap(),
        ("cli-textual-approx".to_string(), Some("api.webhooks.handle_refresh".to_string()))
    );
    assert_eq!(
        query_answer("imports", "auth.tokens", &t, &idx).unwrap(),
        ("trellis-program-syntax".to_string(), Some("os as os (false)".to_string()))
    );
    assert_eq!(
        query_answer("imports", "users.missing", &t, &idx).unwrap(),
        ("trellis-program-syntax".to_string(), None)
    );
    assert_eq!(query_answer("tool", "x", &t, &idx).unwrap_err(), "unknown query kind tool");
    assert_eq!(standing_label(Some(Validity::Stale)), "Stale");
    assert_eq!(standing_label(None), "None");
}

#[test]
fn fresh_tool_values_are_deterministic() {
    let t = tree();
    let idx = PythonSyntaxIndex::index(&t);
    let other = PythonSyntaxIndex::index(&t);
    for (kind, subject) in [
        ("callers", "auth.tokens.refresh_token"),
        ("definitions", "auth.tokens.refresh_token"),
        ("imports", "auth.tokens"),
    ] {
        assert_eq!(
            compute_fresh(kind, subject, &t, &idx).unwrap(),
            compute_fresh(kind, subject, &t, &other).unwrap()
        );
    }
}

#[test]
fn stored_values_serve_and_release_only_while_pins_hold() {
    let t = tree();
    let idx = PythonSyntaxIndex::index(&t);
    let source = CliSemanticSource::new(&idx, &t);
    let current = digest_str("api.webhooks.handle_refresh").to_string();
    let good = vec![pin("callers", "auth.tokens.refresh_token", "Repository", &current)];
    let stale = vec![pin("callers", "auth.tokens.refresh_token", "Repository", "blake3:00")];
    let subject = "auth.tokens.refresh_token";
    assert!(stored_serves(&source, "callers", Some(Validity::Valid), &good, "references", subject));
    assert!(!stored_serves(&source, "callers", Some(Validity::Stale), &good, "callers", subject));
    assert!(!stored_serves(&source, "callers", None, &good, "callers", subject));
    assert!(!stored_serves(&source, "imports", Some(Validity::Valid), &good, "callers", subject));
    assert!(!stored_serves(&source, "callers", Some(Validity::Valid), &good, "callers", "other.symbol"));
    assert!(!stored_serves(&source, "callers", Some(Validity::Valid), &stale, "callers", subject));
    assert_eq!(release_value(&source, &good, "v"), Ok(Some("v".to_string())));
    assert_eq!(release_value(&source, &stale, "v"), Ok(None));
    let bad = vec![pin("graph", "x", "Repository", &current)];
    assert_eq!(release_value(&source, &bad, "v"), Err("unknown pin kind graph".to_string()));
    assert!(STALE_PINS_EXPLANATION.contains("recompute required"));
}

#[test]
fn seed_attestations_are_valid_structural_set_equality_claims() {
    let producer = ProducerInfo::new("trellis-cli", "0.2.0", None).unwrap();
    let derivation = Derivation::new(derivation_key_id("k", 7), vec![CaptureChannel::TrellisTool], producer, 7);
    let art = artifact_key_id("k", 7);
    let snap = SnapshotId::from_hash(ContentHash::compute(HashAlgo::Blake3, b"tree"));
    let a = seed_attestation("k", 7, art, &derivation, snap, vec![]);
    assert_eq!(a.id(), seed_attestation_id("k", 7));
    assert_eq!(a.artifact_id(), art);
    assert_eq!(a.validity(), Validity::Valid);
    assert_eq!(a.authority(), Authority::Authoritative);
    assert_eq!(a.verification_level(), VerificationLevel::StructuralQuery);
    assert_eq!(a.verifier_id(), Some(contract_verifier_id(SET_EQUALITY_CONTRACT)));
    assert_eq!(a.created_at(), 7);
}
