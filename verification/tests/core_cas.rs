use trellis::cas::{blob_id_of, blob_relative_path, check_blob_content, CasError};
use trellis::ids::{BlobId, ContentHash, HashAlgo};

#[test]
fn same_bytes_same_id_different_bytes_different_id() {
    let a = blob_id_of(b"alpha");
    let a2 = blob_id_of(b"alpha");
    let b = blob_id_of(b"beta");
    assert_eq!(a, a2);
    assert_ne!(a, b);
    assert!(a.to_string().starts_with("blake3:"));
}

#[test]
fn blob_path_shards_by_leading_hex() {
    let id = blob_id_of(b"alpha");
    let hex = id.to_string()["blake3:".len()..].to_string();
    let rel = blob_relative_path(&id);
    assert_eq!(rel, format!("{}/{}", &hex[..2], hex));
}

#[test]
fn content_check_detects_corruption() {
    let id = blob_id_of(b"integrity");
    assert!(check_blob_content(&id, b"integrity").is_ok());
    match check_blob_content(&id, b"integritx") {
        Err(CasError::CorruptBlob(s)) => assert_eq!(s, id),
        other => panic!("expected CorruptBlob, got {other:?}"),
    }
    let other = BlobId::from_hash(ContentHash::compute(HashAlgo::Blake3, b"other"));
    assert!(check_blob_content(&other, b"integrity").is_err());
}
