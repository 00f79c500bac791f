use trellis::ids::{ContentHash, HashAlgo, RepositoryId};
use trellis::source::environment::{EnvironmentError, EnvironmentFingerprint};
use trellis::source::freeze::freeze;
use trellis::source::manifest::{normalize_rel_path, Manifest, ManifestEntry, ManifestError};
use trellis::source::reconcile::reconcile;

fn pairs(items: &[(&str, &str)]) -> Vec<(String, String)> {
    items.iter().map(|(k, v)| (k.to_string(), v.to_string())).collect()
}

#[test]
fn same_declared_inputs_yield_same_identity() {
    let a = EnvironmentFingerprint::from_declared(&pairs(&[
        ("python", "3.12.7"),
        ("platform", "linux-amd64"),
    ]))
    .unwrap();
    let b = EnvironmentFingerprint::from_declared(&pairs(&[
        ("platform", "linux-amd64"),
        ("python", "3.12.7"),
    ]))
    .unwrap();
    assert_eq!(a.id(), b.id(), "declaration order must not matter");
    assert!(a.id().to_string().starts_with("blake3:"));
}

#[test]
fn different_values_yield_different_identity() {
    let a = EnvironmentFingerprint::from_declared(&pairs(&[("python", "3.12")])).unwrap();
    let b = EnvironmentFingerprint::from_declared(&pairs(&[("python", "3.13")])).unwrap();
    assert_ne!(a.id(), b.id());
}

#[test]
fn raw_values_are_not_retained() {
    let secret = "super-secret-value";
    let fp = EnvironmentFingerprint::from_declared(&pairs(&[("token", secret)])).unwrap();
    let rendered = format!("{fp:?}");
    assert!(!rendered.contains(secret), "raw value leaked into stored state");
    assert!(fp.entries()[0].1.to_string().starts_with("blake3:"));
}

#[test]
fn duplicate_and_empty_keys_rejected() {
    assert_eq!(
        EnvironmentFingerprint::from_declared(&pairs(&[("a", "1"), ("a", "2")])).unwrap_err(),
        EnvironmentError::DuplicateKey("a".into())
    );
    assert_eq!(
        EnvironmentFingerprint::from_declared(&pairs(&[("  ", "1")])).unwrap_err(),
        EnvironmentError::EmptyKey
    );
    assert_eq!(
        EnvironmentFingerprint::from_declared(&[]).unwrap_err(),
        EnvironmentError::Empty
    );
}

#[test]
fn environment_entries_are_sorted_by_key() {
    let fp = EnvironmentFingerprint::from_declared(&pairs(&[("zeta", "1"), ("alpha", "2")]))
        .unwrap();
    let keys: Vec<&str> = fp.entries().iter().map(|(k, _)| k.as_str()).collect();
    assert_eq!(keys, vec!["alpha", "zeta"]);
    assert_eq!(fp.entries()[0].1, ContentHash::compute(HashAlgo::Blake3, b"2"));
}

#[test]
fn non_canonical_paths_rejected() {
    assert_eq!(normalize_rel_path("/abs/path"), None, "absolute paths are not canonical");
    assert_eq!(normalize_rel_path("./a/b.py").as_deref(), Some("a/b.py"));
    assert_eq!(normalize_rel_path("a/b.py").as_deref(), Some("a/b.py"));
    assert_eq!(normalize_rel_path("a/../b.py"), None);
}

#[test]
fn normalization_drops_empty_and_current_components() {
    assert_eq!(normalize_rel_path("a//./b.py").as_deref(), Some("a/b.py"));
    assert_eq!(normalize_rel_path("."), None);
    assert_eq!(normalize_rel_path(""), None);
}

fn entry_of(path: &str, content: &[u8]) -> ManifestEntry {
    ManifestEntry { path: path.to_string(), digest: ContentHash::compute(HashAlgo::Blake3, content) }
}

#[test]
fn conflicting_digests_for_one_path_rejected() {
    let err = Manifest::from_entries(vec![entry_of("a.py", b"one"), entry_of("a.py", b"two")])
        .unwrap_err();
    assert!(
        matches!(err, ManifestError::ConflictingDigest(ref p) if p == "a.py"),
        "conflicting digests must never be silently deduplicated"
    );
    let ok = Manifest::from_entries(vec![entry_of("a.py", b"one"), entry_of("a.py", b"one")])
        .unwrap();
    assert_eq!(ok.entries().len(), 1);
}

#[test]
fn manifest_rejects_non_canonical_entry_and_sorts_paths() {
    let err = Manifest::from_entries(vec![entry_of("./a.py", b"x")]).unwrap_err();
    assert_eq!(err, ManifestError::NonCanonicalPath("./a.py".into()));
    let m = Manifest::from_entries(vec![entry_of("b.py", b"1"), entry_of("a.py", b"2")]).unwrap();
    let paths: Vec<&str> = m.entries().iter().map(|e| e.path.as_str()).collect();
    assert_eq!(paths, vec!["a.py", "b.py"]);
    let m2 = Manifest::from_entries(vec![entry_of("a.py", b"2"), entry_of("b.py", b"1")]).unwrap();
    assert_eq!(m.id(), m2.id(), "manifest identity is order-insensitive");
    let m3 = Manifest::from_entries(vec![entry_of("a.py", b"3"), entry_of("b.py", b"1")]).unwrap();
    assert_ne!(m.id(), m3.id(), "content participates in identity");
}

fn entry(path: &str, seed: u8) -> ManifestEntry {
    ManifestEntry { path: path.to_string(), digest: ContentHash::compute(HashAlgo::Blake3, &[seed; 32]) }
}

#[test]
fn identical_manifests_reconcile_to_empty() {
    let m = Manifest::from_entries(vec![entry("a.py", 1), entry("src/b.py", 2)]).unwrap();
    let changed = reconcile(&m, &m);
    assert!(changed.is_empty());
    assert_eq!(changed.len(), 0);
}

#[test]
fn detects_add_modify_remove() {
    let stored =
        Manifest::from_entries(vec![entry("a.py", 1), entry("src/b.py", 2), entry("old.py", 3)])
            .unwrap();
    let current =
        Manifest::from_entries(vec![entry("a.py", 1), entry("src/b.py", 9), entry("new.py", 4)])
            .unwrap();
    let changed = reconcile(&stored, &current);
    assert_eq!(changed.added, vec!["new.py"]);
    assert_eq!(changed.modified, vec!["src/b.py"]);
    assert_eq!(changed.removed, vec!["old.py"]);
    assert_eq!(changed.len(), 3);
}

#[test]
fn rename_manifests_as_delete_plus_add() {
    let stored = Manifest::from_entries(vec![entry("old_name.py", 1)]).unwrap();
    let current = Manifest::from_entries(vec![entry("new_name.py", 1)]).unwrap();
    let changed = reconcile(&stored, &current);
    assert_eq!(changed.removed, vec!["old_name.py"]);
    assert_eq!(changed.added, vec!["new_name.py"]);
    assert!(changed.modified.is_empty());
}

fn repo() -> RepositoryId {
    RepositoryId::from_hash(ContentHash::compute(HashAlgo::Blake3, b"repo:fixture"))
}

fn env() -> EnvironmentFingerprint {
    EnvironmentFingerprint::from_declared(&pairs(&[("python", "3.12")])).unwrap()
}

#[test]
fn freeze_is_reproducible_for_identical_state() {
    let manifest = Manifest::from_entries(vec![]).unwrap();
    let e = env();
    let s1 = freeze(repo(), &manifest, &e, None, None, 1_000).unwrap();
    let s2 = freeze(repo(), &manifest, &e, None, None, 1_000).unwrap();
    assert_eq!(s1.id(), s2.id());
    assert_eq!(s1.working_tree_manifest(), manifest.id());
    assert_eq!(s1.semantic_snapshot(), None);
}

#[test]
fn drift_produces_new_snapshot_identity() {
    let manifest_a = Manifest::from_entries(vec![]).unwrap();
    let manifest_b = Manifest::from_entries(vec![entry_of("a.py", b"alpha")]).unwrap();
    let e = env();
    let s1 = freeze(repo(), &manifest_a, &e, None, None, 1_000).unwrap();
    let s2 = freeze(repo(), &manifest_b, &e, None, None, 1_000).unwrap();
    assert_ne!(s1.id(), s2.id());
    let s3 = freeze(repo(), &manifest_a, &e, None, None, 2_000).unwrap();
    assert_ne!(s1.id(), s3.id(), "freeze time participates in identity");
}

#[test]
fn self_parent_still_guarded_through_freeze() {
    let manifest = Manifest::from_entries(vec![]).unwrap();
    let e = env();
    let parent = freeze(repo(), &manifest, &e, None, None, 1).unwrap();
    let child = freeze(repo(), &manifest, &e, Some(parent.id()), None, 2).unwrap();
    assert_eq!(child.parent(), Some(parent.id()));
}
