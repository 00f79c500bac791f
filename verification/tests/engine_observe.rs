use trellis::engine::observe::{observe_definition, observe_file_digest, observe_imports, observe_signature, syntactic_value_canonical, ObserveError};
use trellis::ids::{ContentHash, HashAlgo, SnapshotId};
use trellis::program::index::ProgramIndex;
use trellis::program::model::SymbolPath;
use trellis::program::python::PythonSyntaxIndex;
use trellis::projection::{Projection, ProjectionKind, Property, Scope, Subject};

fn tree_with(content: &str) -> Vec<(String, String)> {
    vec![("m.py".to_string(), content.to_string())]
}

fn snap(s: &[u8]) -> SnapshotId {
    SnapshotId::from_hash(ContentHash::compute(HashAlgo::Blake3, s))
}

#[test]
fn definition_observation_present_and_absent_are_distinct_values() {
    let t = tree_with("def f() -> None:\n    pass\n");
    let idx = PythonSyntaxIndex::index(&t);
    let snap = snap(b"s1");
    let p_f = Projection::definition("m.f").unwrap();
    let p_g = Projection::definition("m.g").unwrap();
    let present = observe_definition(&idx, &p_f, snap).unwrap().unwrap();
    let absent = observe_definition(&idx, &p_g, snap).unwrap().unwrap();
    assert_ne!(present.observation().value_digest(), absent.observation().value_digest());
}

#[test]
fn signature_observation_changes_with_true_change_only() {
    let snap = snap(b"s1");
    let p = Projection::signature("m.f").unwrap();
    let t1 = tree_with("def f(a: int) -> bool:\n    return True\n");
    let t2 = tree_with("def f( a : int ) -> bool :  # styled\n    return True\n");
    let t3 = tree_with("def f(a: int, c: str | None = None) -> bool:\n    return True\n");
    let s1 = observe_signature(&PythonSyntaxIndex::index(&t1), &p, snap).unwrap().unwrap();
    let s2 = observe_signature(&PythonSyntaxIndex::index(&t2), &p, snap).unwrap().unwrap();
    let s3 = observe_signature(&PythonSyntaxIndex::index(&t3), &p, snap).unwrap().unwrap();
    assert_eq!(s1.observation().value_digest(), s2.observation().value_digest(), "formatting-only");
    assert_ne!(s1.observation().value_digest(), s3.observation().value_digest(), "true change");
}

#[test]
fn imports_observation_excludes_line_numbers() {
    let snap = snap(b"s1");
    let p = Projection::imports("m", Scope::Repository).unwrap();
    let t1 = tree_with("import os\nimport sys\n");
    let t2 = tree_with("\n\nimport os\nimport sys\n");
    let i1 = observe_imports(&PythonSyntaxIndex::index(&t1), &p, snap).unwrap().unwrap();
    let i2 = observe_imports(&PythonSyntaxIndex::index(&t2), &p, snap).unwrap().unwrap();
    assert_eq!(i1.observation().value_digest(), i2.observation().value_digest(), "position shift only");
}

#[test]
fn semantic_kinds_produce_no_observations() {
    let t = tree_with("def f():\n    pass\n");
    let idx = PythonSyntaxIndex::index(&t);
    let symbol = SymbolPath::new("m.f").unwrap();
    let answer = ProgramIndex::callers(&idx, &symbol);
    assert!(!answer.is_proven());
}

#[test]
fn observation_identity_is_deterministic_and_scope_sensitive() {
    let t = tree_with("def f() -> None:\n    pass\n");
    let idx = PythonSyntaxIndex::index(&t);
    let snap1 = snap(b"s1");
    let p = Projection::definition("m.f").unwrap();
    let o1 = observe_definition(&idx, &p, snap1).unwrap().unwrap();
    let o2 = observe_definition(&idx, &p, snap1).unwrap().unwrap();
    assert_eq!(o1.observation().id(), o2.observation().id());
    let snap2 = snap(b"s2");
    let o3 = observe_definition(&idx, &p, snap2).unwrap().unwrap();
    assert_ne!(o1.observation().id(), o3.observation().id());
    let p_pkg = Projection::new(ProjectionKind::Definition, Subject::Symbol("m.f".into()), Property::Definition, Scope::Package).unwrap();
    assert_ne!(p.id(), p_pkg.id());
    let o4 = observe_definition(&idx, &p_pkg, snap1).unwrap().unwrap();
    assert_ne!(o1.observation().id(), o4.observation().id());
}

#[test]
fn wrong_kind_projection_refused_explicitly() {
    let t = tree_with("def f() -> None:\n    pass\n");
    let idx = PythonSyntaxIndex::index(&t);
    let snap = snap(b"s1");
    let wrong = Projection::signature("m.f").unwrap();
    let err = observe_definition(&idx, &wrong, snap).unwrap_err();
    assert_eq!(err, ObserveError::KindMismatch { expected: ProjectionKind::Definition, got: ProjectionKind::Signature });
    let wrong2 = Projection::file("m.f").unwrap();
    assert!(observe_signature(&idx, &wrong2, snap).is_err());
    assert!(observe_imports(&idx, &wrong2, snap).is_err());
    assert!(observe_file_digest(&idx, &Projection::definition("m.f").unwrap(), snap).is_err());
}

#[test]
fn canonical_values_of_the_syntactic_kinds() {
    let t = vec![
        ("m.py".to_string(), "import os\nfrom a.b import c as d\n\ndef f(x: int = 1, *, y) -> bool:\n    return True\n\nclass K:\n    async def g(self): pass\n".to_string()),
    ];
    let idx = PythonSyntaxIndex::index(&t);
    let def = syntactic_value_canonical(&idx, &Projection::definition("m.f").unwrap());
    assert_eq!(def.as_deref(), Some("Function@m.f"));
    let method = syntactic_value_canonical(&idx, &Projection::definition("m.K.g").unwrap());
    assert_eq!(method.as_deref(), Some("AsyncMethod@m.K.g"));
    let absent = syntactic_value_canonical(&idx, &Projection::definition("m.zzz").unwrap());
    assert_eq!(absent.as_deref(), Some("absent"));
    let sig = syntactic_value_canonical(&idx, &Projection::signature("m.f").unwrap());
    assert_eq!(sig.as_deref(), Some("(x: int = 1, *, y) -> bool"));
    let class_sig = syntactic_value_canonical(&idx, &Projection::signature("m.K").unwrap());
    assert_eq!(class_sig.as_deref(), Some("absent"));
    let imports = syntactic_value_canonical(&idx, &Projection::imports("m", Scope::Repository).unwrap());
    assert_eq!(imports.as_deref(), Some("a.b.c as d (true); os as os (false)"));
    let file = syntactic_value_canonical(&idx, &Projection::file("m.py").unwrap()).unwrap();
    assert_eq!(file, ContentHash::compute(HashAlgo::Blake3, t[0].1.as_bytes()).to_string());
    assert!(syntactic_value_canonical(&idx, &Projection::callers("m.f", Scope::Repository).unwrap()).is_none());
    assert!(syntactic_value_canonical(&idx, &Projection::file("README.md").unwrap()).is_none());
}

#[test]
fn resolved_anchor_follows_longest_indexed_prefix() {
    let tree = vec![("pkg.py".to_string(), "def f():\n    pass\n".to_string())];
    let idx = PythonSyntaxIndex::index(&tree);
    let p = Projection::definition("pkg.sub.f").unwrap();
    let observed = observe_definition(&idx, &p, snap(b"1")).unwrap().unwrap();
    assert_eq!(observed.resolved_source_path(), "pkg.py");
    let tree2 = vec![
        ("pkg.py".to_string(), "def f():\n    pass\n".to_string()),
        ("pkg/sub.py".to_string(), "def f():\n    return 1\n".to_string()),
    ];
    let idx2 = PythonSyntaxIndex::index(&tree2);
    let observed2 = observe_definition(&idx2, &p, snap(b"2")).unwrap().unwrap();
    assert_eq!(observed2.resolved_source_path(), "pkg/sub.py");
}
