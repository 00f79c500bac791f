use trellis::program::index::{Answer, ProgramIndex, Unsupported};
use trellis::program::model::{DefKind, ModuleId, ParamKind, ParseStatus, SymbolPath};
use trellis::program::python::PythonSyntaxIndex;
use trellis::program::syntax::{normalize_ws, parse_python};

fn one(path: &str, src: &str) -> PythonSyntaxIndex {
    PythonSyntaxIndex::index(&[(path.to_string(), src.to_string())])
}

const SRC: &str = "import os.path as p, sys\nfrom .models import User, Role as R\nfrom pkg import *\n\n@decorator\ndef top(a, b: int = 2, /, c=3, *args: str, d, e: int = 4, **kw: dict) -> list[int]:\n    def inner(x):\n        return x\n    return []\n\nclass Service(Base):\n    def login(self, code: str) -> bool:\n        return True\n\n    async def refresh(self):\n        pass\n\nif True:\n    def conditional():\n        pass\n";

#[test]
fn definitions_are_extracted_in_source_order() {
    let idx = one("auth/service.py", SRC);
    let m = ModuleId::from_path("auth/service.py").unwrap();
    let defs = idx.definitions_in(&m).proven().unwrap();
    let names: Vec<(String, DefKind)> = defs.iter().map(|d| (d.symbol.as_str().to_string(), d.kind)).collect();
    assert_eq!(
        names,
        vec![
            ("auth.service.top".to_string(), DefKind::Function),
            ("auth.service.top.inner".to_string(), DefKind::Function),
            ("auth.service.Service".to_string(), DefKind::Class),
            ("auth.service.Service.login".to_string(), DefKind::Method),
            ("auth.service.Service.refresh".to_string(), DefKind::AsyncMethod),
            ("auth.service.conditional".to_string(), DefKind::Function),
        ]
    );
}

#[test]
fn signatures_normalize_parameters() {
    let idx = one("auth/service.py", SRC);
    let sym = SymbolPath::new("auth.service.top").unwrap();
    let sig = idx.signature(&sym).proven().unwrap().unwrap();
    assert_eq!(sig.canonical(), "(/, a, b: int = 2, c = 3, *args: str, d, e: int = 4, **kw: dict) -> list[int]");
    let kinds: Vec<ParamKind> = sig.params.iter().map(|p| p.kind).collect();
    assert_eq!(
        kinds,
        vec![
            ParamKind::Positional,
            ParamKind::Positional,
            ParamKind::PositionalOnly,
            ParamKind::VarArgs,
            ParamKind::PositionalOnly,
            ParamKind::PositionalOnly,
            ParamKind::KwArgs,
        ]
    );
    let login = idx.signature(&SymbolPath::new("auth.service.Service.login").unwrap()).proven().unwrap().unwrap();
    assert_eq!(login.canonical(), "(self, code: str) -> bool");
    let refresh = idx.signature(&SymbolPath::new("auth.service.Service.refresh").unwrap()).proven().unwrap().unwrap();
    assert!(refresh.is_async);
    let class_sig = idx.signature(&SymbolPath::new("auth.service.Service").unwrap()).proven().unwrap();
    assert!(class_sig.is_none());
}

#[test]
fn imports_are_extracted_with_bindings() {
    let idx = one("auth/service.py", SRC);
    let m = ModuleId::from_path("auth/service.py").unwrap();
    let imports = idx.extract_imports(&m).proven().unwrap();
    let rendered: Vec<(String, String, bool, u32)> =
        imports.iter().map(|i| (i.target.clone(), i.binding.clone(), i.from_import, i.line)).collect();
    assert_eq!(
        rendered,
        vec![
            ("os.path".to_string(), "p".to_string(), false, 1),
            ("sys".to_string(), "sys".to_string(), false, 1),
            (".models.User".to_string(), "User".to_string(), true, 2),
            (".models.Role".to_string(), "R".to_string(), true, 2),
            ("pkg.*".to_string(), "*".to_string(), true, 3),
        ]
    );
}

#[test]
fn malformed_unit_fails_explicitly_and_degrades_queries() {
    let idx = one("bad.py", "def broken(:\n    pass\n");
    let m = ModuleId::from_path("bad.py").unwrap();
    match idx.parse_status(&m) {
        Answer::Proven(ParseStatus::Failed { error_count, .. }) => assert!(error_count > 0),
        other => panic!("expected explicit failure, got {other:?}"),
    }
    assert_eq!(idx.definitions_in(&m), Answer::Unsupported(Unsupported::ParseIncomplete("bad".to_string())));
    let changed = idx.changed_symbols(&["bad.py".to_string()]);
    assert_eq!(changed, Answer::Unsupported(Unsupported::ParseIncomplete("bad".to_string())));
}

#[test]
fn unindexed_units_are_unsupported_not_empty() {
    let idx = one("a.py", "x = 1\n");
    let m = ModuleId::from_path("b.py").unwrap();
    assert_eq!(idx.definitions_in(&m), Answer::Unsupported(Unsupported::UnitNotIndexed("b".to_string())));
    assert_eq!(idx.file_digest("README.md"), Answer::Unsupported(Unsupported::UnitNotIndexed("README.md".to_string())));
    assert_eq!(idx.file_digest("b.py"), Answer::Proven(None));
    assert_eq!(idx.unit_count(), 1);
    let sym = SymbolPath::new("zzz.f").unwrap();
    assert_eq!(idx.definition(&sym), Answer::Unsupported(Unsupported::UnitNotIndexed("zzz.f".to_string())));
}

#[test]
fn changed_symbols_are_a_sorted_set() {
    let tree = vec![
        ("a.py".to_string(), "def z():\n    pass\ndef b():\n    pass\n".to_string()),
        ("c.py".to_string(), "class K:\n    pass\n".to_string()),
    ];
    let idx = PythonSyntaxIndex::index(&tree);
    let changed = idx
        .changed_symbols(&["c.py".to_string(), "README.md".to_string(), "a.py".to_string(), "a.py".to_string()])
        .proven()
        .unwrap();
    let names: Vec<&str> = changed.iter().map(|s| s.as_str()).collect();
    assert_eq!(names, vec!["a.b", "a.z", "c.K"]);
    assert!(matches!(idx.changed_symbols(&["missing.py".to_string()]), Answer::Unsupported(Unsupported::UnitNotIndexed(_))));
}

#[test]
fn semantic_queries_are_unsupported() {
    let idx = one("a.py", "def f():\n    pass\n");
    let sym = SymbolPath::new("a.f").unwrap();
    assert_eq!(idx.references(&sym), Answer::Unsupported(Unsupported::RequiresSemanticResolution));
    assert_eq!(idx.callers(&sym), Answer::Unsupported(Unsupported::RequiresSemanticResolution));
    assert_eq!(idx.implementations(&sym), Answer::Unsupported(Unsupported::RequiresSemanticResolution));
    assert_eq!(idx.subclasses(&sym), Answer::Unsupported(Unsupported::RequiresSemanticResolution));
}

#[test]
fn later_entry_wins_for_one_module_and_index_is_deterministic() {
    let tree = vec![("users.py".to_string(), "def a():\n    pass\n".to_string()), ("users/__init__.py".to_string(), "def b():\n    pass\n".to_string())];
    let idx = PythonSyntaxIndex::index(&tree);
    assert_eq!(idx.unit_count(), 1);
    let m = ModuleId::from_path("users.py").unwrap();
    assert_eq!(idx.unit_path(&m), Some("users/__init__.py"));
    let defs = idx.definitions_in(&m).proven().unwrap();
    assert_eq!(defs[0].symbol.as_str(), "users.b");
    let again = PythonSyntaxIndex::index(&tree);
    assert_eq!(again.definitions_in(&m), idx.definitions_in(&m));
}

#[test]
fn whitespace_normalization_collapses_runs() {
    assert_eq!(normalize_ws("  a \t b\n\nc  "), "a b c");
    assert_eq!(normalize_ws(""), "");
    assert_eq!(normalize_ws(" \n "), "");
}

#[test]
fn parse_tree_covers_the_whole_source() {
    let tree = parse_python("x = 1\n").unwrap();
    assert_eq!(tree.row.kind, "module");
    assert_eq!(tree.row.bytes.start, 0);
    assert!(!tree.children.is_empty());
}
