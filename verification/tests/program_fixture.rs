use trellis::program::index::{Answer, ProgramIndex};
use trellis::program::model::{DefKind, Import, ModuleId, SymbolPath};
use trellis::program::python::PythonSyntaxIndex;

/// A reduced copy of the python_auth base layout: the declarations the
/// checks below read.
fn fixture_tree() -> Vec<(String, String)> {
    let files: [(&str, &str); 7] = [
        ("auth/__init__.py", ""),
        (
            "auth/interfaces.py",
            "class AuthProvider:\n    def validate(self, code: str) -> bool:\n        raise NotImplementedError\n",
        ),
        (
            "auth/providers/oidc_provider.py",
            "from ..interfaces import AuthProvider\n\n\nclass OidcAuthProvider(AuthProvider):\n    def validate(self, code: str) -> bool:\n        return code.startswith(\"oidc:\")\n",
        ),
        (
            "auth/service.py",
            "from .interfaces import AuthProvider\nfrom .tokens import issue_token\n\n\nclass AuthService:\n    def __init__(self, provider: AuthProvider) -> None:\n        self.provider = provider\n\n    def login(self, user_id: str, code: str) -> str:\n        if not self.provider.validate(code):\n            raise PermissionError(user_id)\n        return issue_token(user_id)\n",
        ),
        (
            "auth/session.py",
            "from config.settings import Settings\nfrom .tokens import issue_token, verify_token\n\n\ndef open_session(user_id: str) -> str:\n    return issue_token(user_id, Settings.ttl)\n",
        ),
        (
            "auth/tokens.py",
            "import hashlib\n\n\ndef _sign(payload: str) -> str:\n    return hashlib.sha256(payload.encode()).hexdigest()\n\n\ndef issue_token(user_id: str, ttl_seconds: int | None = None) -> str:\n    return _sign(user_id)\n\n\ndef verify_token(token: str) -> bool:\n    return len(token) == 64\n\n\ndef refresh_token(token: str) -> str:\n    return _sign(token)\n",
        ),
        (
            "users/service.py",
            "from auth.tokens import refresh_token\n\n\nclass UserService:\n    def rotate(self, token: str) -> str:\n        return refresh_token(token)\n",
        ),
    ];
    files.iter().map(|(p, c)| (p.to_string(), c.to_string())).collect()
}

fn index_fixture() -> PythonSyntaxIndex {
    PythonSyntaxIndex::index(&fixture_tree())
}

fn one(path: &str, src: &str) -> PythonSyntaxIndex {
    PythonSyntaxIndex::index(&[(path.to_string(), src.to_string())])
}

#[test]
fn full_fixture_indexes_deterministically_across_runs() {
    let i1 = index_fixture();
    let i2 = index_fixture();
    assert_eq!(i1.unit_count(), i2.unit_count());
    let m = ModuleId::from_path("auth/tokens.py").unwrap();
    let d1 = i1.definitions_in(&m);
    let d2 = i2.definitions_in(&m);
    assert_eq!(d1, d2);
    assert!(d1.is_proven());
}

#[test]
fn traversal_order_independence() {
    let t1 = fixture_tree();
    let mut reversed: Vec<(String, String)> = t1.clone();
    reversed.reverse();
    let i1 = PythonSyntaxIndex::index(&t1);
    let i2 = PythonSyntaxIndex::index(&reversed);
    let m = ModuleId::from_path("users/service.py").unwrap();
    assert_eq!(i1.definitions_in(&m), i2.definitions_in(&m));
}

#[test]
fn definitions_identity_on_fixture() {
    let idx = index_fixture();
    let def = idx
        .definition(&SymbolPath::new("auth.tokens.refresh_token").unwrap())
        .proven()
        .expect("proven definition query");
    let def = def.expect("refresh_token defined");
    assert_eq!(def.kind, DefKind::Function);

    let cls = idx
        .definition(&SymbolPath::new("auth.service.AuthService").unwrap())
        .proven()
        .flatten()
        .expect("AuthService defined");
    assert_eq!(cls.kind, DefKind::Class);
    let method = idx
        .definition(&SymbolPath::new("auth.service.AuthService.login").unwrap())
        .proven()
        .flatten()
        .expect("login defined");
    assert_eq!(method.kind, DefKind::Method);

    let nested = idx.definition(&SymbolPath::new("auth.tokens._sign").unwrap()).proven().flatten();
    assert!(nested.is_some(), "module-level private function indexed");
}

#[test]
fn provider_implementations_exist_as_classes_but_semantic_query_unsupported() {
    let idx = index_fixture();
    let oidc = idx
        .definition(&SymbolPath::new("auth.providers.oidc_provider.OidcAuthProvider").unwrap())
        .proven()
        .flatten();
    assert!(oidc.is_some());
    let iface = SymbolPath::new("auth.interfaces.AuthProvider").unwrap();
    let answer = idx.implementations(&iface);
    assert!(!answer.is_proven(), "implementations must not be proven by a syntax backend");
}

#[test]
fn signature_extraction_matches_oracle_normalized_forms() {
    let idx = index_fixture();
    let sig = idx
        .signature(&SymbolPath::new("auth.interfaces.AuthProvider.validate").unwrap())
        .proven()
        .flatten()
        .expect("validate signature");
    assert_eq!(sig.canonical(), "(self, code: str) -> bool");

    let sig = idx
        .signature(&SymbolPath::new("auth.tokens.issue_token").unwrap())
        .proven()
        .flatten()
        .expect("issue_token signature");
    assert_eq!(sig.canonical(), "(user_id: str, ttl_seconds: int | None = None) -> str");
}

#[test]
fn imports_and_aliases_represented_syntactically() {
    let idx = index_fixture();
    let m = ModuleId::from_path("auth/service.py").unwrap();
    let imports = idx.imports(&m).proven().expect("service imports");
    let auth_provider =
        imports.iter().find(|i| i.binding == "AuthProvider").expect("AuthProvider import recorded");
    assert!(auth_provider.from_import);
    assert!(auth_provider.target.ends_with(".interfaces.AuthProvider"));

    let session = idx.imports(&ModuleId::from_path("auth/session.py").unwrap()).proven().unwrap();
    let bindings: Vec<&str> = session.iter().map(|i| i.binding.as_str()).collect();
    assert!(bindings.contains(&"issue_token") && bindings.contains(&"verify_token"));
    assert!(session.iter().any(|i| i.binding == "Settings"));

    let idx2 = one("m.py", "import subprocess as sp\nfrom os import path as p, sep\n");
    let imports = idx2.imports(&ModuleId::from_path("m.py").unwrap()).proven().unwrap();
    assert!(imports.contains(&Import {
        target: "subprocess".into(),
        binding: "sp".into(),
        from_import: false,
        line: 1,
    }));
    assert!(imports.contains(&Import {
        target: "os.path".into(),
        binding: "p".into(),
        from_import: true,
        line: 2,
    }));
    assert!(imports.contains(&Import {
        target: "os.sep".into(),
        binding: "sep".into(),
        from_import: true,
        line: 2,
    }));
}

#[test]
fn formatting_only_change_preserves_signature_value() {
    let src_a = "def f(a: int, b: str = \"x\") -> bool:\n    return True\n";
    let src_b = "def f( a :  int ,   b : str=\"x\" ) -> bool :  # styled\n    return True\n";
    let s1 = one("m.py", src_a).signature(&SymbolPath::new("m.f").unwrap()).proven().flatten().unwrap();
    let s2 = one("m.py", src_b).signature(&SymbolPath::new("m.f").unwrap()).proven().flatten().unwrap();
    assert_eq!(s1.canonical(), s2.canonical());
    assert_eq!(s1, s2);
}

#[test]
fn true_signature_change_alters_value() {
    let src_a = "def f(a: int) -> bool:\n    return True\n";
    let src_b = "def f(a: int, c: str | None = None) -> bool:\n    return True\n";
    let s1 = one("m.py", src_a).signature(&SymbolPath::new("m.f").unwrap()).proven().flatten().unwrap();
    let s2 = one("m.py", src_b).signature(&SymbolPath::new("m.f").unwrap()).proven().flatten().unwrap();
    assert_ne!(s1, s2);
    assert_eq!(s2.canonical(), "(a: int, c: str | None = None) -> bool");
}

#[test]
fn malformed_python_yields_explicit_failed_status() {
    let t = vec![
        ("broken.py".to_string(), "def fragment(  # never closed\n".to_string()),
        ("good.py".to_string(), "def ok() -> None:\n    pass\n".to_string()),
    ];
    let idx = PythonSyntaxIndex::index(&t);
    let status = idx.parse_status(&ModuleId::from_path("broken.py").unwrap()).proven().unwrap();
    assert!(!status.is_ok());
    let status = idx.parse_status(&ModuleId::from_path("good.py").unwrap()).proven().unwrap();
    assert!(status.is_ok());
    assert_eq!(idx.unit_count(), 2);
}

#[test]
fn semantic_projections_never_return_authoritative_empty_sets() {
    let idx = index_fixture();
    let sym = SymbolPath::new("auth.tokens.refresh_token").unwrap();
    for answer in [
        !matches!(idx.references(&sym), Answer::Proven(_)),
        !matches!(idx.callers(&sym), Answer::Proven(_)),
        !matches!(idx.implementations(&sym), Answer::Proven(_)),
        !matches!(idx.subclasses(&sym), Answer::Proven(_)),
    ] {
        assert!(answer, "semantic query must return Unsupported, never Proven(empty)");
    }
}

#[test]
fn unsupported_unit_returns_explicit_unsupported_not_empty() {
    let idx = PythonSyntaxIndex::empty();
    let m = ModuleId::from_path("nope.py").unwrap();
    assert!(!idx.definitions_in(&m).is_proven(), "unindexed unit must be Unsupported, not empty");
}

#[test]
fn async_functions_and_defaults_and_splats() {
    let src = "\nasync def fetch(url: str, *, timeout: float = 1.5, **headers: str) -> None:\n    pass\n\ndef combine(*args: int, sep: str = \"-\", **kw: str) -> str:\n    return \"-\"\n";
    let idx = one("m.py", src);
    let f = idx.signature(&SymbolPath::new("m.fetch").unwrap()).proven().flatten().unwrap();
    assert!(f.is_async);
    assert_eq!(f.canonical(), "(url: str, *, timeout: float = 1.5, **headers: str) -> None");
    let c = idx.signature(&SymbolPath::new("m.combine").unwrap()).proven().flatten().unwrap();
    assert!(!c.is_async);
    assert_eq!(c.canonical(), "(*args: int, sep: str = \"-\", **kw: str) -> str");
}

#[test]
fn changed_symbols_maps_changed_files_to_affected_symbols() {
    let idx = index_fixture();
    let affected = idx.changed_symbols(&["users/service.py".to_string()]).proven().expect("proven");
    assert!(
        affected.contains(&SymbolPath::new("users.service.UserService").unwrap()),
        "changed file's symbols must be candidates"
    );
    assert!(
        !affected.contains(&SymbolPath::new("auth.tokens.refresh_token").unwrap()),
        "unrelated file's symbols must not appear"
    );
}

#[test]
fn changed_symbols_degrades_when_a_changed_unit_failed_to_parse() {
    let t = vec![
        ("broken.py".to_string(), "def fragment(  # never closed\n".to_string()),
        ("good.py".to_string(), "def ok() -> None:\n    pass\n".to_string()),
    ];
    let idx = PythonSyntaxIndex::index(&t);
    let answer = idx.changed_symbols(&["good.py".to_string(), "broken.py".to_string()]);
    assert!(!answer.is_proven(), "a failed-parse unit in the changed set must downgrade the answer");
    assert!(idx.changed_symbols(&["good.py".to_string()]).is_proven());
}

#[test]
fn failed_parse_units_degrade_queries_to_unsupported_never_partial_proven() {
    let idx = one("broken.py", "def fragment(  # never closed\n\ndef later():\n    pass\n");
    let m = ModuleId::from_path("broken.py").unwrap();
    let status = idx.parse_status(&m).proven().expect("status proven");
    assert!(!status.is_ok());
    assert!(!idx.definition(&SymbolPath::new("broken.later").unwrap()).is_proven());
    assert!(!idx.signature(&SymbolPath::new("broken.later").unwrap()).is_proven());
    assert!(!idx.definitions_in(&m).is_proven());
    assert!(!idx.imports(&m).is_proven());
    assert!(!idx.extract_definitions(&m).is_proven());
}

#[test]
fn file_digest_is_content_derived_and_deterministic() {
    let idx = one("a.py", "x = 1\n");
    let d1 = idx.file_digest("a.py").proven().flatten().expect("digest");
    let d2 = idx.file_digest("a.py").proven().flatten().expect("digest");
    assert_eq!(d1, d2);
    assert!(d1.to_string().starts_with("blake3:"));
    let idx2 = one("a.py", "x = 1  # comment\n");
    let d3 = idx2.file_digest("a.py").proven().flatten().unwrap();
    assert_ne!(d1, d3);
    assert!(idx.file_digest("nope.py").proven().flatten().is_none());
}

#[test]
fn file_digest_out_of_universe_paths_are_unsupported_not_proven_absence() {
    let mut t = fixture_tree();
    t.push(("README.md".to_string(), "docs\n".to_string()));
    let idx = PythonSyntaxIndex::index(&t);
    assert!(!idx.file_digest("README.md").is_proven());
    assert!(!idx.file_digest("/abs/auth.py").is_proven());
    assert!(idx.file_digest("nope.py").proven().flatten().is_none());
    assert!(idx.file_digest("auth/tokens.py").proven().flatten().is_some());
}
