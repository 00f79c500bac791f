use trellis::ids::{ArtifactId, ContentHash, ContentHasher, GitOid, HashAlgo, SnapshotId};

fn digest(seed: u8) -> Vec<u8> {
    (0..32).map(|i| seed.wrapping_add(i)).collect()
}

fn hex_encode(bytes: &[u8]) -> String {
    bytes.iter().map(|b| format!("{b:02x}")).collect()
}

#[test]
fn content_hash_display_parse_roundtrip() {
    let hash = ContentHash::from_bytes(HashAlgo::Blake3, &digest(0x2a)).unwrap();
    let rendered = hash.to_string();
    assert!(rendered.starts_with("blake3:"));
    assert_eq!(rendered.len(), "blake3:".len() + 64);
    let parsed = ContentHash::from_str(&rendered).unwrap();
    assert_eq!(parsed, hash);
}

#[test]
fn uppercase_hex_is_accepted_and_rendered_lowercase() {
    let hash = ContentHash::from_bytes(HashAlgo::Blake3, &digest(1)).unwrap();
    let upper = format!("blake3:{}", hex_encode(&digest(1)).to_uppercase());
    let parsed = ContentHash::from_str(&upper).unwrap();
    assert_eq!(parsed.to_string(), hash.to_string());
}

#[test]
fn rejects_bad_ids() {
    assert!(ContentHash::from_str("no-separator").is_err());
    assert!(ContentHash::from_str("sha256:00").is_err());
    assert!(ContentHash::from_str("blake3:zz").is_err());
    assert!(ContentHash::from_str("blake3:00").is_err());
    assert!(ContentHash::from_str("blake3:0").is_err());
}

#[test]
fn typed_ids_do_not_unify() {
    let hash = ContentHash::from_bytes(HashAlgo::Blake3, &digest(7)).unwrap();
    let artifact = ArtifactId::from_hash(hash);
    let snapshot = SnapshotId::from_hash(hash);
    assert_eq!(artifact.hash(), snapshot.hash());
    assert_eq!(ArtifactId::from_str(&artifact.to_string()).unwrap(), artifact);
    assert_eq!(SnapshotId::from_str(&snapshot.to_string()).unwrap(), snapshot);
}

#[test]
fn digest_length_mismatch_rejected() {
    let short = vec![0u8; 16];
    assert!(ContentHash::from_bytes(HashAlgo::Blake3, &short).is_none());
}

#[test]
fn compute_is_deterministic_and_input_sensitive() {
    let a = ContentHash::compute(HashAlgo::Blake3, b"canonical bytes");
    let b = ContentHash::compute(HashAlgo::Blake3, b"canonical bytes");
    let c = ContentHash::compute(HashAlgo::Blake3, b"canonical bytes ");
    assert_eq!(a, b);
    assert_ne!(a, c);
    assert_eq!(a.algo(), HashAlgo::Blake3);
}

#[test]
fn streaming_hasher_matches_one_shot() {
    let algo = HashAlgo::Blake3;
    let mut hasher = ContentHasher::new(algo);
    hasher.update(b"chunk one");
    hasher.update(b"chunk two");
    let streamed = hasher.finish();
    let one_shot = ContentHash::compute(algo, b"chunk onechunk two");
    assert_eq!(streamed, one_shot);
}

#[test]
fn known_blake3_vector() {
    let empty = ContentHash::compute(HashAlgo::Blake3, b"");
    let rendered = empty.to_string();
    assert!(rendered.starts_with("blake3:af1349b9"), "unexpected blake3(empty) digest: {rendered}");
}

#[test]
fn git_oid_roundtrip() {
    let bytes: Vec<u8> = (0..20).collect();
    let oid = GitOid::from_bytes(&bytes).unwrap();
    assert_eq!(oid.to_string().len(), 40);
    assert_eq!(GitOid::from_str(&oid.to_string()).unwrap(), oid);
    assert!(GitOid::from_bytes(&bytes[..19]).is_none());
    assert!(GitOid::from_str("zz").is_err());
}

#[test]
fn hash_text_roundtrip_for_every_seed() {
    for seed in [0u8, 17, 255] {
        let hash = ContentHash::from_bytes(HashAlgo::Blake3, &digest(seed)).unwrap();
        assert_eq!(ContentHash::from_str(&hash.to_string()).unwrap(), hash);
    }
}

#[test]
fn digest_bytes_are_the_hash_output() {
    let h = ContentHash::compute(HashAlgo::Blake3, b"abc");
    assert_eq!(h.digest(), blake3::hash(b"abc").as_bytes());
    assert_ne!(h.digest(), &[0u8; 32]);
}
