use trellis::coverage::{Completeness, CompletenessEvaluator, CoverageState};
use trellis::projection::ProjectionKind;
use trellis::semantic::freeze::{classify_changes, freeze_semantic_snapshot, ChangeClass, FreezeDecision};
use trellis::semantic::graph::ScipIdentity;
use trellis::semantic::ingest::{
    dotted_from_descriptors, ingest, module_of_document, symbol_to_dotted, ScipDocument, ScipIndex, ScipMetadata,
    ScipOccurrence, ScipRelationship, ScipSymbolInfo, ScipToolInfo,
};

const PROVIDER: &str = "auth.interfaces.AuthProvider";
const TOKENS: &str = "auth.tokens.refresh_token";

fn py_symbol(path: &str, scope: &[&str]) -> String {
    let mut s = format!("scip-python pip python_auth 1.0.0 `{path}`");
    for (i, part) in scope.iter().enumerate() {
        s.push('/');
        s.push_str(part);
        if i == scope.len() - 1 {
            s.push('.');
        }
    }
    s
}

fn occ(symbol: &str, roles: i32, range: Vec<i32>) -> ScipOccurrence {
    ScipOccurrence { symbol: symbol.to_string(), symbol_roles: roles, range }
}

fn info(symbol: &str, implements: Option<&str>) -> ScipSymbolInfo {
    ScipSymbolInfo {
        symbol: symbol.to_string(),
        relationships: implements
            .map(|t| {
                vec![ScipRelationship {
                    symbol: t.to_string(),
                    is_implementation: true,
                    is_type_definition: false,
                }]
            })
            .unwrap_or_default(),
    }
}

fn doc(path: &str, symbols: Vec<ScipSymbolInfo>, occurrences: Vec<ScipOccurrence>) -> ScipDocument {
    ScipDocument {
        relative_path: path.to_string(),
        language: "python".to_string(),
        symbols,
        occurrences,
    }
}

fn metadata(version: &str) -> Option<ScipMetadata> {
    Some(ScipMetadata {
        tool_info: Some(ScipToolInfo { name: "scip-python".into(), version: version.into() }),
    })
}

fn fixture_index() -> ScipIndex {
    let tokens_sym = py_symbol("auth/tokens.py", &["refresh_token"]);
    let handle_sym = py_symbol("api/webhooks.py", &["handle_refresh"]);
    let rotate_sym = py_symbol("users/alias_caller.py", &["rotate_now"]);
    let provider_sym = py_symbol("auth/interfaces.py", &["AuthProvider"]);
    let oidc_sym = py_symbol("auth/providers/oidc_provider.py", &["OidcAuthProvider"]);
    let password_sym =
        py_symbol("auth/providers/password_provider.py", &["PasswordAuthProvider"]);
    ScipIndex {
        metadata: metadata("1.2.3"),
        documents: vec![
            doc(
                "api/webhooks.py",
                vec![info(&handle_sym, None)],
                vec![occ(&handle_sym, 1, vec![5, 4, 9, 60]), occ(&tokens_sym, 0, vec![7, 11, 7, 40])],
            ),
            doc(
                "users/alias_caller.py",
                vec![info(&rotate_sym, None)],
                vec![occ(&rotate_sym, 1, vec![5, 4, 8, 50]), occ(&tokens_sym, 0, vec![7, 11, 7, 40])],
            ),
            doc("auth/interfaces.py", vec![info(&provider_sym, None)], vec![]),
            doc(
                "auth/providers/oidc_provider.py",
                vec![info(&oidc_sym, Some(&provider_sym))],
                vec![],
            ),
            doc(
                "auth/providers/password_provider.py",
                vec![info(&password_sym, Some(&provider_sym))],
                vec![],
            ),
        ],
        external_symbols: vec![info(&tokens_sym, None)],
    }
}

fn universe() -> Vec<String> {
    vec![
        "api/webhooks.py".to_string(),
        "users/alias_caller.py".to_string(),
        "auth/interfaces.py".to_string(),
        "auth/providers/oidc_provider.py".to_string(),
        "auth/providers/password_provider.py".to_string(),
    ]
}

fn identity() -> ScipIdentity {
    ScipIdentity::new("scip-python", "1.2.3")
}

#[test]
fn symbol_decoding_produces_dotted_subjects() {
    let (graph, report) = ingest(&fixture_index());
    assert_eq!(report.documents_ingested, 5);
    assert_eq!(report.documents_non_python, 0);
    assert!(!graph.callers.members(TOKENS).is_empty(), "callers keyed by dotted subject");
    assert!(!graph.implementations.members(PROVIDER).is_empty());
    assert_eq!(
        symbol_to_dotted(&py_symbol("auth/tokens.py", &["refresh_token"])).as_deref(),
        Some(TOKENS)
    );
}

#[test]
fn caller_sets_exact_and_aliased_caller_detected() {
    let (graph, _) = ingest(&fixture_index());
    assert_eq!(
        graph.callers_value(TOKENS),
        "api.webhooks.handle_refresh; users.alias_caller.rotate_now"
    );
    assert_eq!(
        graph.implementations_value(PROVIDER),
        "auth.providers.oidc_provider.OidcAuthProvider; auth.providers.password_provider.PasswordAuthProvider"
    );
}

#[test]
fn definition_site_is_never_a_member() {
    let (graph, report) = ingest(&fixture_index());
    let members = graph.callers.members(TOKENS);
    assert!(!members.is_empty(), "caller set exists");
    assert!(!members.iter().any(|m| m == TOKENS), "definition site must never be a caller member");
    assert_eq!(report.references_consumed, 2);
}

#[test]
fn certificate_is_honest_about_universe() {
    let (graph, _) = ingest(&fixture_index());
    let cert = graph.coverage_certificate(&universe());
    assert_eq!(cert.resolved_reference_coverage, CoverageState::Established);
    assert_eq!(cert.inheritance_relationships, CoverageState::Established);
    assert!(cert.failures.is_empty());

    let mut with_broken = universe();
    with_broken.push("users/broken.py".to_string());
    let degraded = graph.coverage_certificate(&with_broken);
    assert_eq!(degraded.failures, vec!["users/broken.py".to_string()]);
    assert_eq!(degraded.all_units_participated, CoverageState::Failed);
}

#[test]
fn evaluator_complete_for_full_scip_coverage() {
    let (graph, _) = ingest(&fixture_index());
    let cert = graph.coverage_certificate(&universe());
    assert_eq!(
        CompletenessEvaluator::evaluate(ProjectionKind::Callers, &cert),
        Completeness::Complete
    );
}

#[test]
fn classifier_is_conservative() {
    assert_eq!(classify_changes(&["README.md".into()]), ChangeClass::NonPython);
    assert_eq!(
        classify_changes(&["setup.cfg".into(), "docs/x.md".into()]),
        ChangeClass::NonPython
    );
    assert_eq!(classify_changes(&["auth/service.py".into()]), ChangeClass::PythonSource);
    assert_eq!(
        classify_changes(&["README.md".into(), "users/models.py".into()]),
        ChangeClass::PythonSource,
        "one Python file flips the classification"
    );
}

#[test]
fn freeze_identity_is_deterministic() {
    let index = fixture_index();
    let decision =
        freeze_semantic_snapshot(&index, &identity(), &["auth/service.py".to_string()], None, &universe());
    let decision2 =
        freeze_semantic_snapshot(&index, &identity(), &["auth/service.py".to_string()], None, &universe());
    match (decision, decision2) {
        (FreezeDecision::Freeze(a), FreezeDecision::Freeze(b)) => {
            assert_eq!(a.semantic_snapshot_id, b.semantic_snapshot_id);
            assert_eq!(a.graph, b.graph);
            assert_eq!(a.report.identity, "trellis-scip-ingest/1 (scip-python 1.2.3)");
            assert_eq!(a.indexer_identity, identity().render());
        }
        _ => panic!("freeze expected"),
    }
}

#[test]
fn freeze_rule_readme_vs_auth_change() {
    let index = fixture_index();
    let frozen = match freeze_semantic_snapshot(&index, &identity(), &[], None, &universe()) {
        FreezeDecision::Freeze(f) => f,
        FreezeDecision::Reuse { .. } => panic!("anchor freeze expected"),
    };
    match freeze_semantic_snapshot(
        &index,
        &identity(),
        &["README.md".to_string()],
        Some(frozen.semantic_snapshot_id),
        &universe(),
    ) {
        FreezeDecision::Reuse { semantic_snapshot_id, .. } => {
            assert_eq!(semantic_snapshot_id, frozen.semantic_snapshot_id)
        }
        FreezeDecision::Freeze(_) => panic!("README change must reuse"),
    }
    let rerun = freeze_semantic_snapshot(
        &index,
        &identity(),
        &["auth/service.py".to_string()],
        Some(frozen.semantic_snapshot_id),
        &universe(),
    );
    assert!(matches!(rerun, FreezeDecision::Freeze(_)));
}

#[test]
fn module_level_reference_attributes_full_module() {
    let tokens_sym = py_symbol("auth/tokens.py", &["refresh_token"]);
    let index = ScipIndex {
        metadata: metadata("9.9.9"),
        documents: vec![doc("auth/tokens.py", vec![], vec![occ(&tokens_sym, 0, vec![1, 0, 1, 20])])],
        external_symbols: vec![info(&tokens_sym, None)],
    };
    let (graph, _) = ingest(&index);
    assert_eq!(
        graph.references.members(TOKENS),
        vec!["auth.tokens".to_string()],
        "module-level reference must attribute the full module"
    );
}

#[test]
fn non_python_documents_are_counted_not_ingested() {
    let mut index = fixture_index();
    index.documents.push(ScipDocument {
        relative_path: "web/app.ts".into(),
        language: "typescript".into(),
        symbols: vec![],
        occurrences: vec![],
    });
    let (_, report) = ingest(&index);
    assert_eq!(report.documents_ingested, 5);
    assert_eq!(report.documents_non_python, 1);
}

#[test]
fn module_of_document_maps_paths_to_dotted_modules() {
    assert_eq!(module_of_document("auth/tokens.py"), "auth.tokens");
    assert_eq!(module_of_document("auth/__init__.py"), "auth");
}

#[test]
fn missing_tool_info_yields_unknown_identity_but_still_ingests() {
    let mut index = fixture_index();
    index.metadata = None;
    let (graph, report) = ingest(&index);
    assert!(report.identity.starts_with("trellis-scip-ingest/1"));
    assert!(!graph.callers.members(TOKENS).is_empty());
}

#[test]
fn descriptors_decode_to_dotted_symbols() {
    let d = |n: &str, c: i32| (n.to_string(), c);
    assert_eq!(
        dotted_from_descriptors(&vec![d("auth/service.py", 1), d("AuthService", 3), d("verify", 4)]),
        Some("auth.service.AuthService.verify".to_string())
    );
    assert_eq!(dotted_from_descriptors(&vec![d("auth/__init__.py", 1), d("bootstrap", 4)]), Some("auth.bootstrap".to_string()));
    assert_eq!(dotted_from_descriptors(&vec![d("pkg", 1), d("mod", 1), d("f", 4)]), Some("pkg.mod.f".to_string()));
    assert_eq!(dotted_from_descriptors(&vec![d("auth/service.py", 1), d("AuthService", 2)]), None);
    assert_eq!(dotted_from_descriptors(&vec![d("f", 4)]), None);
    assert_eq!(dotted_from_descriptors(&vec![]), None);
}
