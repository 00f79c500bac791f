use trellis::cli::semantic::{
    bindings_for, call_sites, resolve_from_import, scan_calls, CallExpr, CliSemanticSource,
};
use trellis::cli::state::{digest_str, module_name, module_source_path, snapshot_id_for};
use trellis::engine::redgreen::ReevaluationSource;
use trellis::ids::{ContentHash, HashAlgo, SnapshotId};
use trellis::program::python::PythonSyntaxIndex;
use trellis::projection::{Projection, Scope};

fn tree(items: &[(&str, &str)]) -> Vec<(String, String)> {
    let mut v: Vec<(String, String)> =
        items.iter().map(|(p, c)| (p.to_string(), c.to_string())).collect();
    v.sort();
    v
}

#[test]
fn scan_calls_finds_names_and_attribute_calls() {
    assert_eq!(
        scan_calls("    x = refresh_token(a) + tokens.issue (b)"),
        vec![
            CallExpr::Name("refresh_token".into()),
            CallExpr::Attribute("tokens".into(), "issue".into()),
            CallExpr::Name("issue".into()),
        ]
    );
    assert_eq!(scan_calls("value = obj.attr + 3"), vec![]);
    assert_eq!(scan_calls("f (x)"), vec![CallExpr::Name("f".into())]);
}

#[test]
fn relative_from_imports_resolve_against_the_package() {
    assert_eq!(resolve_from_import("auth.service", ".interfaces"), "auth.interfaces");
    assert_eq!(resolve_from_import("auth.providers.oidc", "..tokens"), "auth.tokens");
    assert_eq!(resolve_from_import("auth.service", "os.path"), "os.path");
    assert_eq!(resolve_from_import("auth.service", "."), "auth");
    assert_eq!(resolve_from_import("top", "...x"), "x");
}

#[test]
fn bindings_record_aliases_and_from_imports_in_order() {
    let t = tree(&[(
        "users/alias_caller.py",
        "import subprocess as sp\nfrom ..auth.tokens import refresh_token as rt, verify_token\n",
    )]);
    let b = bindings_for(&t, "users/alias_caller.py", "users.alias_caller");
    assert_eq!(
        b,
        vec![
            ("sp".to_string(), "subprocess".to_string()),
            ("rt".to_string(), "auth.tokens.refresh_token".to_string()),
            ("verify_token".to_string(), "auth.tokens.verify_token".to_string()),
        ]
    );
    assert!(bindings_for(&t, "missing.py", "missing").is_empty());
}

#[test]
fn call_sites_track_enclosing_scopes() {
    let t = tree(&[(
        "m.py",
        "import os\nclass A:\n    def run(self):\n        go()\nhelper()\n",
    )]);
    let sites = call_sites(&t, "m.py");
    assert_eq!(sites.len(), 2);
    assert_eq!(sites[0].0.as_deref(), Some("A:.run"));
    assert_eq!(sites[0].1, vec![CallExpr::Name("go".into())]);
    assert_eq!(sites[1].0, None);
    assert_eq!(sites[1].1, vec![CallExpr::Name("helper".into())]);
}

#[test]
fn approximate_callers_follow_import_bindings() {
    let t = tree(&[
        ("auth/tokens.py", "def refresh_token(x):\n    return refresh_token(x)\n"),
        (
            "api/webhooks.py",
            "from auth.tokens import refresh_token\n\ndef handle_refresh(req):\n    return refresh_token(req)\n",
        ),
        (
            "users/alias_caller.py",
            "from auth import tokens as t\n\ndef rotate_now(u):\n    t.refresh_token(u)\n",
        ),
        ("users/other.py", "def refresh_token():\n    pass\n\ndef unrelated():\n    refresh_token()\n"),
    ]);
    let idx = PythonSyntaxIndex::index(&t);
    let source = CliSemanticSource::new(&idx, &t);
    assert_eq!(
        source.approx_callers("auth.tokens.refresh_token"),
        "api.webhooks.handle_refresh; users.alias_caller.rotate_now"
    );
    let p = Projection::callers("auth.tokens.refresh_token", Scope::Repository).unwrap();
    let evaluated = source.evaluate(&p).unwrap().unwrap();
    assert_eq!(evaluated.value(), "api.webhooks.handle_refresh; users.alias_caller.rotate_now");
    assert!(!evaluated.is_authoritative(), "approximate callers are never authoritative");
}

#[test]
fn module_names_and_paths() {
    assert_eq!(module_name("auth/tokens.py"), "auth.tokens");
    assert_eq!(module_name("auth/__init__.py"), "auth");
    assert_eq!(module_name("README"), "README");
    assert_eq!(module_source_path("auth.tokens"), "auth/tokens.py");
}

#[test]
fn snapshot_identity_is_the_digest_of_the_tree_encoding() {
    let t = tree(&[("a.py", "x = 1\n"), ("b.py", "y = 2\n")]);
    let expected = SnapshotId::from_hash(ContentHash::compute(
        HashAlgo::Blake3,
        b"a.py\0x = 1\n\nb.py\0y = 2\n\n",
    ));
    assert_eq!(snapshot_id_for(&t), expected);
    assert_eq!(digest_str("abc"), ContentHash::compute(HashAlgo::Blake3, b"abc"));
    let changed = tree(&[("a.py", "x = 1\n"), ("b.py", "y = 3\n")]);
    assert_ne!(snapshot_id_for(&t), snapshot_id_for(&changed));
}
