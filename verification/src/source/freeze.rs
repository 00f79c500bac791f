//! Snapshot freezing — coherent on-demand world freezes.
//!
//! A freeze materializes a snapshot from the current reconciled state:
//! manifest identity, declared environment, parent, git commit and creation
//! time are canonically encoded and hashed into the snapshot identity.
use vstd::prelude::*;

use crate::canonical::{framed, leb128, write_bytes, write_str, write_u64};
use crate::error::DomainError;
use crate::hash::blake3_digest;
use crate::ids::{ContentHash, GitOid, HashAlgo, RepositoryId, SnapshotId, Timestamp};
use crate::snapshot::{Snapshot, SnapshotModel};
use crate::source::environment::EnvironmentFingerprint;
use crate::source::manifest::Manifest;
use crate::text::utf8;

verus! {

/// The canonical bytes a snapshot identity is computed over: domain tag,
/// manifest id, environment id, parent id (or a zero varint), git commit
/// (or a zero varint), creation time.
pub open spec fn snapshot_encoding(
    manifest: ContentHash,
    environment: ContentHash,
    parent: Option<SnapshotId>,
    git_commit: Option<GitOid>,
    created_at: u64,
) -> Seq<u8> {
    framed(utf8("trellis.snapshot.v1"@)) + framed(manifest.digest@) + framed(environment.digest@)
        + match parent {
        Some(p) => framed(p.0.digest@),
        None => leb128(0),
    } + match git_commit {
        Some(c) => framed(c.0@),
        None => leb128(0),
    } + leb128(created_at as nat)
}

/// The identity a freeze of these inputs computes.
pub open spec fn frozen_id(
    manifest: ContentHash,
    environment: ContentHash,
    parent: Option<SnapshotId>,
    git_commit: Option<GitOid>,
    created_at: u64,
) -> ContentHash {
    ContentHash {
        algo: HashAlgo::Blake3,
        digest: crate::ids::digest_array(
            blake3_digest(snapshot_encoding(manifest, environment, parent, git_commit, created_at)),
        ),
    }
}

/// Freeze the current world state into a snapshot.
///
/// The snapshot identity is computed over the canonical encoding of
/// `(manifest id, environment id, parent, git commit, created_at)`, so two
/// freezes of identical state at identical times share identity. The
/// semantic snapshot is `None`: a source freeze carries no semantic index.
///
/// # Errors
/// [`DomainError::SelfParent`] exactly when `parent` is the identity the
/// freeze computes.
pub fn freeze(
    repository_id: RepositoryId,
    manifest: &Manifest,
    environment: &EnvironmentFingerprint,
    parent: Option<SnapshotId>,
    git_commit: Option<GitOid>,
    created_at: Timestamp,
) -> (r: Result<Snapshot, DomainError>)
    ensures
        ({
            let id = frozen_id(manifest@.id, environment@.id, parent, git_commit, created_at);
            match r {
                Ok(s) => parent != Some(SnapshotId(id)) && s@ == (SnapshotModel {
                    id,
                    repository_id: repository_id.0,
                    git_commit,
                    working_tree_manifest: manifest@.id,
                    semantic_snapshot: None,
                    environment: environment@.id,
                    parent,
                    created_at,
                }),
                Err(e) => parent == Some(SnapshotId(id)) && e == DomainError::SelfParent,
            }
        }),
{
    let mut buf: Vec<u8> = Vec::new();
    write_str(&mut buf, "trellis.snapshot.v1");
    write_bytes(&mut buf, manifest.id().0.digest.as_slice());
    write_bytes(&mut buf, environment.id().0.digest.as_slice());
    match parent {
        Some(p) => write_bytes(&mut buf, p.0.digest.as_slice()),
        None => write_u64(&mut buf, 0),
    }
    match git_commit {
        Some(c) => write_bytes(&mut buf, c.0.as_slice()),
        None => write_u64(&mut buf, 0),
    }
    write_u64(&mut buf, created_at);
    proof {
        assert(buf@ =~= snapshot_encoding(manifest@.id, environment@.id, parent, git_commit, created_at));
    }
    let hash = ContentHash::compute(HashAlgo::Blake3, buf.as_slice());
    proof {
        crate::ids::lemma_digest_array(hash.digest);
    }
    let id = SnapshotId::from_hash(hash);
    Snapshot::new(
        id,
        repository_id,
        git_commit,
        manifest.id(),
        None,
        environment.id(),
        parent,
        created_at,
    )
}

} // verus!
