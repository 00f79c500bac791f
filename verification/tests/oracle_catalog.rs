use trellis::oracle::{apply_op, tree_at, Catalog, FixtureDecl, Mutation, Op, ProjectionKey};

fn base() -> Vec<(String, String)> {
    vec![
        ("auth/tokens.py".to_string(), "def refresh_token():\n    pass\n".to_string()),
        ("users/service.py".to_string(), "x = 1\n".to_string()),
    ]
}

fn op(kind: &str, path: &str, content: Option<&str>) -> Op {
    Op { op: kind.to_string(), path: path.to_string(), content: content.map(str::to_string) }
}

fn mutation(id: &str, parent: &str, ops: Vec<Op>) -> Mutation {
    Mutation {
        id: id.to_string(),
        title: None,
        parent: parent.to_string(),
        purpose: None,
        ops,
        intended_semantic_change: None,
        affected_projections: vec![],
        unchanged_projections: vec![],
        artifact_consequences: vec![],
        completeness_absence_involved: false,
        ground_truth_rationale: None,
        provenance: vec![],
    }
}

fn catalog() -> Catalog {
    Catalog {
        schema: "trellis.oracle.v1".to_string(),
        fixture: FixtureDecl { root: "fixtures/python_auth/base".into(), test_modules: vec![], file_count_py: None },
        seeded_artifacts: vec![],
        mutations: vec![
            mutation("R0", "BASE", vec![]),
            mutation("R1", "BASE", vec![op("replace_file", "users/service.py", Some("x = 2\n"))]),
            mutation("R2", "R1", vec![op("add_file", "api/webhooks.py", Some("y = 1\n"))]),
            mutation("R3", "R2", vec![op("delete_file", "auth/tokens.py", None)]),
            mutation("BAD", "BASE", vec![op("delete_file", "missing.py", None)]),
        ],
    }
}

#[test]
fn add_replace_delete_apply_as_map_operations() {
    let mut t = base();
    apply_op(&mut t, &op("add_file", "api/a.py", Some("z\n"))).unwrap();
    assert_eq!(t[0], ("api/a.py".to_string(), "z\n".to_string()), "entries stay in path order");
    apply_op(&mut t, &op("replace_file", "api/a.py", Some("w\n"))).unwrap();
    assert_eq!(t[0].1, "w\n");
    apply_op(&mut t, &op("delete_file", "api/a.py", None)).unwrap();
    assert_eq!(t, base());
}

#[test]
fn operations_that_do_not_apply_leave_the_tree_unchanged() {
    let mut t = base();
    assert_eq!(
        apply_op(&mut t, &op("add_file", "auth/tokens.py", Some("x"))),
        Err("add_file: path already exists: auth/tokens.py".to_string())
    );
    assert_eq!(
        apply_op(&mut t, &op("replace_file", "users/service.py", Some("x = 1\n"))),
        Err("replace_file: content identical: users/service.py".to_string())
    );
    assert_eq!(
        apply_op(&mut t, &op("replace_file", "nope.py", Some("a"))),
        Err("replace_file: path missing: nope.py".to_string())
    );
    assert_eq!(
        apply_op(&mut t, &op("delete_file", "nope.py", None)),
        Err("delete_file: path missing: nope.py".to_string())
    );
    assert_eq!(
        apply_op(&mut t, &op("add_file", "n.py", None)),
        Err("add_file without content: n.py".to_string())
    );
    assert_eq!(apply_op(&mut t, &op("rename", "n.py", None)), Err("unknown op `rename`".to_string()));
    assert_eq!(t, base());
}

#[test]
fn tree_at_folds_the_ancestor_chain_root_first() {
    let cat = catalog();
    assert_eq!(tree_at(&cat, "BASE", base()).unwrap(), base());
    assert_eq!(tree_at(&cat, "R0", base()).unwrap(), base());
    let r3 = tree_at(&cat, "R3", base()).unwrap();
    assert_eq!(
        r3,
        vec![
            ("api/webhooks.py".to_string(), "y = 1\n".to_string()),
            ("users/service.py".to_string(), "x = 2\n".to_string()),
        ]
    );
    assert_eq!(
        tree_at(&cat, "BAD", base()),
        Err("in mutation BAD: delete_file: path missing: missing.py".to_string())
    );
    assert_eq!(tree_at(&cat, "NOPE", base()), Err("unknown parent id `NOPE`".to_string()));
}

#[test]
fn mutation_lookup_and_baseline() {
    let cat = catalog();
    assert_eq!(cat.mutation("R2").map(|m| m.parent.as_str()), Some("R1"));
    assert!(cat.mutation("R9").is_none());
    assert!(cat.mutation("R0").unwrap().is_baseline());
    assert!(!cat.mutation("R1").unwrap().is_baseline());
    assert_eq!(Catalog::REQUIRED_SERIES, ["R0", "R1", "R2", "R3", "R4"]);
}

#[test]
fn projection_key_renders_canonically() {
    let k = ProjectionKey {
        kind: "callers".into(),
        subject: "auth.tokens.refresh_token".into(),
        scope: "repository".into(),
    };
    assert_eq!(k.render(), "callers(auth.tokens.refresh_token, scope=repository)");
}
