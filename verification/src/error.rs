//! Domain error type for construction-time invariant violations.
use vstd::prelude::*;

use crate::ids::{blake3_prefix_text, HashAlgo};
use crate::text::{decimal, owned, push_str, u64_to_decimal};

verus! {

/// Errors raised when a domain object would be constructed in an illegal
/// state. Construction is total otherwise: every `Ok` value satisfies the
/// domain invariants by construction.
#[derive(Debug, Clone, PartialEq, Eq)]
pub enum DomainError {
    /// A required text field was empty or whitespace-only.
    EmptyField(&'static str),
    /// An ID string lacked the `<algo>:<hex>` separator.
    MissingHashSeparator,
    /// An ID string used an unknown algorithm prefix.
    UnknownHashAlgo(String),
    /// Hex decoding failed for a digest of the given character length.
    InvalidHexDigest(usize),
    /// Digest length did not match the algorithm's requirement.
    DigestLength {
        /// Algorithm whose digest length was violated.
        algo: HashAlgo,
        /// Actual byte length supplied.
        got: usize,
    },
    /// A git OID was not exactly 20 bytes.
    GitOidLength(usize),
    /// A snapshot was constructed with itself as its own parent.
    SelfParent,
    /// A projection was constructed with an empty subject.
    EmptySubject,
    /// A projection's property disagreed with its kind.
    InconsistentProperty {
        /// The kind the projection was constructed with.
        kind: &'static str,
        /// The property that disagreed with it.
        property: &'static str,
    },
    /// An attestation for a different artifact was appended to a history.
    ArtifactMismatch {
        /// Artifact the history belongs to.
        history: String,
        /// Artifact the offending attestation references.
        attestation: String,
    },
    /// An attestation with an already-recorded ID was appended.
    DuplicateAttestation {
        /// The duplicated attestation ID.
        id: String,
    },
    /// An attestation was appended with a creation time earlier than the
    /// latest entry, which would corrupt the append-order history.
    AttestationOutOfOrder {
        /// Creation time of the latest existing attestation.
        latest: u64,
        /// Creation time of the rejected attestation.
        rejected: u64,
    },
}

/// The human-readable rendering of a domain error.
pub open spec fn domain_message(e: DomainError) -> Seq<char> {
    match e {
        DomainError::EmptyField(name) => "required field `"@ + name@ + "` is empty"@,
        DomainError::MissingHashSeparator => "content id missing `<algo>:<hex>` separator"@,
        DomainError::UnknownHashAlgo(prefix) => "unknown hash algorithm `"@ + prefix@ + "`"@,
        DomainError::InvalidHexDigest(len) => "invalid hex digest ("@ + decimal(len as nat) + " chars)"@,
        DomainError::DigestLength { algo, got } => "digest length "@ + decimal(got as nat) + " for "@
            + blake3_prefix_text() + " (expected "@ + decimal(32) + ")"@,
        DomainError::GitOidLength(got) => "git oid length "@ + decimal(got as nat) + " (expected 20)"@,
        DomainError::SelfParent => "snapshot cannot be its own parent"@,
        DomainError::EmptySubject => "projection subject is empty"@,
        DomainError::InconsistentProperty { kind, property } => "property `"@ + property@
            + "` inconsistent with kind `"@ + kind@ + "`"@,
        DomainError::ArtifactMismatch { history, attestation } => "attestation for artifact "@ + attestation@
            + " appended to history of "@ + history@,
        DomainError::DuplicateAttestation { id } => "attestation "@ + id@ + " already recorded"@,
        DomainError::AttestationOutOfOrder { latest, rejected } => "attestation created_at "@ + decimal(
            rejected as nat,
        ) + " precedes latest "@ + decimal(latest as nat),
    }
}

impl DomainError {
    /// The error rendered for people.
    pub fn to_string(&self) -> (r: String)
        ensures
            r@ == domain_message(*self),
    {
        match self {
            DomainError::EmptyField(name) => {
                let mut s = owned("required field `");
                push_str(&mut s, name);
                push_str(&mut s, "` is empty");
                s
            },
            DomainError::MissingHashSeparator => owned("content id missing `<algo>:<hex>` separator"),
            DomainError::UnknownHashAlgo(prefix) => {
                let mut s = owned("unknown hash algorithm `");
                push_str(&mut s, prefix.as_str());
                push_str(&mut s, "`");
                s
            },
            DomainError::InvalidHexDigest(len) => {
                let mut s = owned("invalid hex digest (");
                let n = u64_to_decimal(*len as u64);
                push_str(&mut s, n.as_str());
                push_str(&mut s, " chars)");
                s
            },
            DomainError::DigestLength { algo, got } => {
                let mut s = owned("digest length ");
                let n = u64_to_decimal(*got as u64);
                push_str(&mut s, n.as_str());
                push_str(&mut s, " for ");
                push_str(&mut s, algo.prefix());
                push_str(&mut s, " (expected ");
                let expected = u64_to_decimal(algo.digest_len() as u64);
                push_str(&mut s, expected.as_str());
                push_str(&mut s, ")");
                s
            },
            DomainError::GitOidLength(got) => {
                let mut s = owned("git oid length ");
                let n = u64_to_decimal(*got as u64);
                push_str(&mut s, n.as_str());
                push_str(&mut s, " (expected 20)");
                s
            },
            DomainError::SelfParent => owned("snapshot cannot be its own parent"),
            DomainError::EmptySubject => owned("projection subject is empty"),
            DomainError::InconsistentProperty { kind, property } => {
                let mut s = owned("property `");
                push_str(&mut s, property);
                push_str(&mut s, "` inconsistent with kind `");
                push_str(&mut s, kind);
                push_str(&mut s, "`");
                s
            },
            DomainError::ArtifactMismatch { history, attestation } => {
                let mut s = owned("attestation for artifact ");
                push_str(&mut s, attestation.as_str());
                push_str(&mut s, " appended to history of ");
                push_str(&mut s, history.as_str());
                s
            },
            DomainError::DuplicateAttestation { id } => {
                let mut s = owned("attestation ");
                push_str(&mut s, id.as_str());
                push_str(&mut s, " already recorded");
                s
            },
            DomainError::AttestationOutOfOrder { latest, rejected } => {
                let mut s = owned("attestation created_at ");
                let r = u64_to_decimal(*rejected);
                push_str(&mut s, r.as_str());
                push_str(&mut s, " precedes latest ");
                let l = u64_to_decimal(*latest);
                push_str(&mut s, l.as_str());
                s
            },
        }
    }
}

} // verus!
