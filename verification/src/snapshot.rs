//! Snapshots — explicit, on-demand coherent freezes of the world state.
use vstd::prelude::*;

use crate::error::DomainError;
use crate::ids::{
    ContentHash, EnvironmentFingerprintId, GitOid, ManifestId, RepositoryId, SemanticSnapshotId,
    SnapshotId, Timestamp,
};
use crate::order::Ordered;

verus! {

/// What a [`Snapshot`] records.
pub struct SnapshotModel {
    /// Identity of the snapshot.
    pub id: ContentHash,
    /// Repository the snapshot indexes.
    pub repository_id: ContentHash,
    /// Git commit the snapshot corresponds to, if any.
    pub git_commit: Option<GitOid>,
    /// Manifest identifying the exact tracked file state of the freeze.
    pub working_tree_manifest: ContentHash,
    /// Authoritative semantic snapshot carried by the freeze, if any.
    pub semantic_snapshot: Option<SemanticSnapshotId>,
    /// Declared environment fingerprint.
    pub environment: ContentHash,
    /// Parent freeze, for incremental change analysis.
    pub parent: Option<SnapshotId>,
    /// Creation time (unix epoch millis, UTC).
    pub created_at: u64,
}

/// One version of the world Trellis has indexed.
///
/// A snapshot is a **coherent freeze**, not a copy: it references a
/// working-tree manifest and whatever semantic index the freeze carries.
#[derive(Debug, Clone, Copy, PartialEq, Eq)]
pub struct Snapshot {
    id: SnapshotId,
    repository_id: RepositoryId,
    git_commit: Option<GitOid>,
    working_tree_manifest: ManifestId,
    semantic_snapshot: Option<SemanticSnapshotId>,
    environment: EnvironmentFingerprintId,
    parent: Option<SnapshotId>,
    created_at: Timestamp,
}

impl View for Snapshot {
    type V = SnapshotModel;

    closed spec fn view(&self) -> SnapshotModel {
        SnapshotModel {
            id: self.id.0,
            repository_id: self.repository_id.0,
            git_commit: self.git_commit,
            working_tree_manifest: self.working_tree_manifest.0,
            semantic_snapshot: self.semantic_snapshot,
            environment: self.environment.0,
            parent: self.parent,
            created_at: self.created_at,
        }
    }
}

impl Snapshot {
    /// Construct a snapshot.
    ///
    /// # Errors
    /// [`DomainError::SelfParent`] exactly when the snapshot would be its
    /// own parent.
    pub fn new(
        id: SnapshotId,
        repository_id: RepositoryId,
        git_commit: Option<GitOid>,
        working_tree_manifest: ManifestId,
        semantic_snapshot: Option<SemanticSnapshotId>,
        environment: EnvironmentFingerprintId,
        parent: Option<SnapshotId>,
        created_at: Timestamp,
    ) -> (r: Result<Self, DomainError>)
        ensures
            match r {
                Ok(s) => parent != Some(id) && s@ == (SnapshotModel {
                    id: id.0,
                    repository_id: repository_id.0,
                    git_commit,
                    working_tree_manifest: working_tree_manifest.0,
                    semantic_snapshot,
                    environment: environment.0,
                    parent,
                    created_at,
                }),
                Err(e) => parent == Some(id) && e == DomainError::SelfParent,
            },
    {
        if let Some(p) = parent {
            if p.0.eq_exec(&id.0) {
                return Err(DomainError::SelfParent);
            }
        }
        Ok(
            Snapshot {
                id,
                repository_id,
                git_commit,
                working_tree_manifest,
                semantic_snapshot,
                environment,
                parent,
                created_at,
            },
        )
    }

    /// Identity of this snapshot.
    pub fn id(&self) -> (r: SnapshotId)
        ensures
            r.0 == self@.id,
    {
        self.id
    }

    /// Repository this snapshot indexes.
    pub fn repository_id(&self) -> (r: RepositoryId)
        ensures
            r.0 == self@.repository_id,
    {
        self.repository_id
    }

    /// Git commit this snapshot corresponds to, if any. Informational only:
    /// the working-tree manifest is authoritative.
    pub fn git_commit(&self) -> (r: Option<GitOid>)
        ensures
            r == self@.git_commit,
    {
        self.git_commit
    }

    /// Manifest identifying the exact tracked file state of the freeze.
    pub fn working_tree_manifest(&self) -> (r: ManifestId)
        ensures
            r.0 == self@.working_tree_manifest,
    {
        self.working_tree_manifest
    }

    /// Authoritative semantic snapshot carried by this freeze, if any.
    pub fn semantic_snapshot(&self) -> (r: Option<SemanticSnapshotId>)
        ensures
            r == self@.semantic_snapshot,
    {
        self.semantic_snapshot
    }

    /// Declared environment fingerprint (explicit inputs only).
    pub fn environment(&self) -> (r: EnvironmentFingerprintId)
        ensures
            r.0 == self@.environment,
    {
        self.environment
    }

    /// Parent freeze, for incremental change analysis.
    pub fn parent(&self) -> (r: Option<SnapshotId>)
        ensures
            r == self@.parent,
    {
        self.parent
    }

    /// Creation time (unix epoch millis, UTC).
    pub fn created_at(&self) -> (r: Timestamp)
        ensures
            r == self@.created_at,
    {
        self.created_at
    }
}

} // verus!
