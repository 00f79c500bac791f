use trellis::cli::state::digest_str;
use trellis::engine::discovery::RecordedObservation;
use trellis::engine::redgreen::{evaluate_projection, ProjectionOutcomeKind};
use trellis::ids::{ContentHash, HashAlgo, ProjectionObservationId, SnapshotId};
use trellis::projection::ProjectionObservation;
use trellis::engine::redgreen::ReevaluationSource;
use trellis::engine::sources::{FrozenSemanticSource, OverlaySemanticSource, SyntacticSource};
use trellis::program::python::PythonSyntaxIndex;
use trellis::projection::{Projection, ProjectionKind, Property, Scope, Subject};
use trellis::semantic::graph::ScipGraph;
use trellis::semantic::ingest::{
    ingest, ScipDocument, ScipIndex, ScipOccurrence, ScipRelationship, ScipSymbolInfo,
};

const TOKENS: &str = "auth.tokens.refresh_token";
const PROVIDER: &str = "auth.interfaces.AuthProvider";

fn sym(path: &str, name: &str) -> String {
    format!("scip-python pip python_auth 1.0.0 `{path}`/{name}.")
}

fn caller_doc(path: &str, caller: &str) -> ScipDocument {
    let caller_sym = sym(path, caller);
    ScipDocument {
        relative_path: path.to_string(),
        language: "python".to_string(),
        symbols: vec![ScipSymbolInfo { symbol: caller_sym.clone(), relationships: vec![] }],
        occurrences: vec![
            ScipOccurrence { symbol: caller_sym, symbol_roles: 1, range: vec![3, 4, 6, 30] },
            ScipOccurrence { symbol: sym("auth/tokens.py", "refresh_token"), symbol_roles: 0, range: vec![5, 11, 5, 30] },
        ],
    }
}

fn frozen_graph() -> ScipGraph {
    let provider = sym("auth/interfaces.py", "AuthProvider");
    let index = ScipIndex {
        metadata: None,
        documents: vec![
            caller_doc("auth/__init__.py", "bootstrap"),
            caller_doc("users/alias_caller.py", "rotate_now"),
            ScipDocument {
                relative_path: "auth/providers/oidc_provider.py".into(),
                language: "python".into(),
                symbols: vec![ScipSymbolInfo {
                    symbol: sym("auth/providers/oidc_provider.py", "OidcAuthProvider"),
                    relationships: vec![ScipRelationship {
                        symbol: provider.clone(),
                        is_implementation: true,
                        is_type_definition: false,
                    }],
                }],
                occurrences: vec![],
            },
        ],
        external_symbols: vec![
            ScipSymbolInfo { symbol: sym("auth/tokens.py", "refresh_token"), relationships: vec![] },
            ScipSymbolInfo { symbol: provider, relationships: vec![] },
        ],
    };
    ingest(&index).0
}

fn tree() -> Vec<(String, String)> {
    vec![("auth/tokens.py".to_string(), "def refresh_token(t: str) -> str:\n    return t\n".to_string())]
}

fn callers() -> Projection {
    Projection::callers(TOKENS, Scope::Repository).unwrap()
}

fn implementations() -> Projection {
    Projection::new(
        ProjectionKind::Implementations,
        Subject::Symbol(PROVIDER.to_string()),
        Property::ImplementationSet,
        Scope::Repository,
    )
    .unwrap()
}

#[test]
fn frozen_source_serves_graph_values_authoritatively() {
    let graph = frozen_graph();
    let index = PythonSyntaxIndex::index(&tree());
    let source = FrozenSemanticSource::new(&graph, &index);
    let v = source.evaluate(&callers()).unwrap().unwrap();
    assert_eq!(v.value(), "auth.bootstrap; users.alias_caller.rotate_now");
    assert!(v.is_authoritative());
    let v = source.evaluate(&implementations()).unwrap().unwrap();
    assert_eq!(v.value(), "auth.providers.oidc_provider.OidcAuthProvider");
    assert!(v.is_authoritative());
}

#[test]
fn syntactic_source_does_not_answer_semantic_kinds() {
    let index = PythonSyntaxIndex::index(&tree());
    let source = SyntacticSource::new(&index);
    assert!(source.evaluate(&callers()).unwrap().is_none());
    let def = Projection::definition(TOKENS).unwrap();
    assert!(source.evaluate(&def).unwrap().is_some());
}

#[test]
fn overlay_reflects_mid_task_changes_with_provisional_authority() {
    let graph = frozen_graph();
    let index = PythonSyntaxIndex::index(&tree());
    let live = vec![(TOKENS.to_string(), vec!["api.webhooks.handle_refresh".to_string()])];
    let source = OverlaySemanticSource::new(&graph, &index, vec!["api/webhooks.py".to_string()], live);
    let v = source.evaluate(&callers()).unwrap().unwrap();
    assert_eq!(
        v.value(),
        "api.webhooks.handle_refresh; auth.bootstrap; users.alias_caller.rotate_now"
    );
    assert!(!v.is_authoritative(), "overlay = provisional");
    let v = source.evaluate(&implementations()).unwrap().unwrap();
    assert_eq!(v.value(), "auth.providers.oidc_provider.OidcAuthProvider");
    assert!(!v.is_authoritative());
}

#[test]
fn init_py_delta_supersedes_frozen_callers() {
    let graph = frozen_graph();
    let index = PythonSyntaxIndex::index(&tree());
    let source = OverlaySemanticSource::new(
        &graph,
        &index,
        vec!["auth/__init__.py".to_string(), "users/alias_caller.py".to_string()],
        vec![],
    );
    let v = source.evaluate(&callers()).unwrap().unwrap();
    assert_eq!(v.value(), "", "frozen members of touched modules are superseded");
}

fn caller_doc_symbol(path: &str, caller_sym: String) -> ScipDocument {
    ScipDocument {
        relative_path: path.to_string(),
        language: "python".to_string(),
        symbols: vec![ScipSymbolInfo { symbol: caller_sym.clone(), relationships: vec![] }],
        occurrences: vec![
            ScipOccurrence { symbol: caller_sym, symbol_roles: 1, range: vec![3, 4, 6, 30] },
            ScipOccurrence { symbol: sym("auth/tokens.py", "refresh_token"), symbol_roles: 0, range: vec![5, 11, 5, 30] },
        ],
    }
}

#[test]
fn overlay_drops_frozen_callers_defined_in_changed_files() {
    let index = ScipIndex {
        metadata: None,
        documents: vec![
            caller_doc_symbol("auth/__init__.py", sym("auth/__init__.py", "module_func")),
            caller_doc_symbol(
                "auth/service.py",
                "scip-python pip python_auth 1.0.0 `auth/service.py`/AuthService.login().".to_string(),
            ),
            caller_doc_symbol("users/svc.py", sym("users/svc.py", "rotate")),
        ],
        external_symbols: vec![ScipSymbolInfo { symbol: sym("auth/tokens.py", "refresh_token"), relationships: vec![] }],
    };
    let graph = ingest(&index).0;
    assert_eq!(
        graph.callers_value(TOKENS),
        "auth.module_func; auth.service.AuthService.login; users.svc.rotate"
    );
    let empty = PythonSyntaxIndex::index(&[]);
    let live = vec![(TOKENS.to_string(), vec!["api.webhooks.handle".to_string()])];
    let source = OverlaySemanticSource::new(
        &graph,
        &empty,
        vec!["auth/__init__.py".to_string(), "auth/service.py".to_string()],
        live,
    );
    let v = source.evaluate(&callers()).unwrap().unwrap();
    assert_eq!(v.value(), "api.webhooks.handle; users.svc.rotate");
    assert!(!v.is_authoritative());
}

#[test]
fn overlay_keeps_callers_of_untouched_submodules() {
    let graph = frozen_graph();
    let tree = vec![
        ("auth/__init__.py".to_string(), "def bootstrap():\n    pass\n".to_string()),
        ("users/alias_caller.py".to_string(), "def rotate_now():\n    pass\n".to_string()),
    ];
    let index = PythonSyntaxIndex::index(&tree);
    let source = OverlaySemanticSource::new(&graph, &index, vec!["users/__init__.py".to_string()], vec![]);
    let v = source.evaluate(&callers()).unwrap().unwrap();
    assert_eq!(v.value(), "auth.bootstrap; users.alias_caller.rotate_now");
}

#[test]
fn overlay_cannot_establish_completeness_authority() {
    let graph = frozen_graph();
    let index = PythonSyntaxIndex::index(&tree());
    let source = OverlaySemanticSource::new(&graph, &index, vec![], vec![]);
    let projection = callers();
    let evaluated = source.evaluate(&projection).unwrap().unwrap();
    assert!(!evaluated.is_authoritative(), "overlay evidence is provisional by construction");
    let h = |seed: u8| ContentHash::compute(HashAlgo::Blake3, &[seed]);
    let recorded = vec![RecordedObservation {
        projection: projection.clone(),
        observation: ProjectionObservation::new(
            ProjectionObservationId::from_hash(h(1)),
            projection.id(),
            SnapshotId::from_hash(h(2)),
            digest_str(evaluated.value()),
            None,
        ),
        anchor_path: "auth/tokens.py".to_string(),
    }];
    // Untouched tree, identical frozen graph: the value is unchanged, so
    // nothing is re-contracted and no attestation is appended.
    let round = evaluate_projection(&recorded, Some(evaluated), None, false, SnapshotId::from_hash(h(3)));
    assert_eq!(round.outcome.outcome(), ProjectionOutcomeKind::Unchanged);
    assert!(!round.outcome.dirties_dependents());
}
