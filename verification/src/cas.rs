//! Content-addressed storage: blob identity, the on-disk layout of a blob,
//! and the integrity check every read goes through.
//!
//! Write protocol (at the edge): canonical bytes → BLAKE3 → temp file →
//! fsync → atomic rename into the store. Reads verify content against the
//! requested identity — corruption is always an explicit error, never
//! silent.
use vstd::prelude::*;

use crate::hash::blake3_digest;
use crate::ids::{hash_text, hex_text, push_hex, BlobId, ContentHash, HashAlgo};
use crate::order::Ordered;
use crate::text::{chars_of, owned, push_char, push_str};

verus! {

/// CAS identity for canonical bytes: the `blake3:…` blob id.
pub fn blob_id_of(bytes: &[u8]) -> (r: BlobId)
    ensures
        r.0.algo == HashAlgo::Blake3,
        r.0.digest@ == blake3_digest(bytes@),
{
    BlobId::from_hash(ContentHash::compute(HashAlgo::Blake3, bytes))
}

/// Errors surfaced at the CAS boundary. All explicit; corruption is never
/// silently repaired or ignored.
#[derive(Debug, PartialEq, Eq)]
pub enum CasError {
    /// Underlying filesystem error (path, reason).
    Io(String, String),
    /// The blob's content does not hash to its requested identity.
    CorruptBlob(BlobId),
    /// The blob is not present in the store.
    MissingBlob(BlobId),
    /// The store root is not a directory or cannot be created (path,
    /// reason).
    RootInvalid(String, String),
}

/// The human-readable rendering of a CAS error.
pub open spec fn cas_message(e: CasError) -> Seq<char> {
    match e {
        CasError::Io(p, why) => "cas io error at "@ + p@ + ": "@ + why@,
        CasError::CorruptBlob(id) => "corrupt blob "@ + hash_text(id.0),
        CasError::MissingBlob(id) => "missing blob "@ + hash_text(id.0),
        CasError::RootInvalid(p, why) => "invalid CAS root "@ + p@ + ": "@ + why@,
    }
}

impl CasError {
    /// The error rendered for people.
    pub fn to_string(&self) -> (r: String)
        ensures
            r@ == cas_message(*self),
    {
        match self {
            CasError::Io(p, why) => {
                let mut s = owned("cas io error at ");
                push_str(&mut s, p.as_str());
                push_str(&mut s, ": ");
                push_str(&mut s, why.as_str());
                s
            },
            CasError::CorruptBlob(id) => {
                let mut s = owned("corrupt blob ");
                let t = id.to_string();
                push_str(&mut s, t.as_str());
                s
            },
            CasError::MissingBlob(id) => {
                let mut s = owned("missing blob ");
                let t = id.to_string();
                push_str(&mut s, t.as_str());
                s
            },
            CasError::RootInvalid(p, why) => {
                let mut s = owned("invalid CAS root ");
                push_str(&mut s, p.as_str());
                push_str(&mut s, ": ");
                push_str(&mut s, why.as_str());
                s
            },
        }
    }
}

/// The relative location of a blob under the store root:
/// `<first two hex digits>/<all hex digits>`.
pub open spec fn blob_location(id: ContentHash) -> Seq<char> {
    hex_text(id.digest@).subrange(0, 2) + "/"@ + hex_text(id.digest@)
}

/// The relative location of a blob under the store root.
pub fn blob_relative_path(id: &BlobId) -> (r: String)
    ensures
        r@ == blob_location(id.0),
{
    let mut hex = String::new();
    push_hex(&mut hex, id.0.digest.as_slice());
    let cs = chars_of(hex.as_str());
    assert(cs@.len() == 64);
    let mut out = String::new();
    push_char(&mut out, cs[0]);
    push_char(&mut out, cs[1]);
    push_char(&mut out, '/');
    push_str(&mut out, hex.as_str());
    proof {
        reveal_strlit("/");
        assert(hex@ == hex_text(id.0.digest@));
        assert(out@ =~= blob_location(id.0));
    }
    out
}

/// The integrity check of a read: the bytes must hash to the requested
/// identity.
///
/// # Errors
/// [`CasError::CorruptBlob`] exactly when the bytes hash to another digest.
pub fn check_blob_content(id: &BlobId, bytes: &[u8]) -> (r: Result<(), CasError>)
    ensures
        r is Ok <==> blake3_digest(bytes@) == id.0.digest@,
        r is Err ==> r == Err::<(), CasError>(CasError::CorruptBlob(*id)),
{
    let actual = blob_id_of(bytes);
    if actual.0.eq_exec(&id.0) {
        Ok(())
    } else {
        proof {
            if blake3_digest(bytes@) == id.0.digest@ {
                assert(actual.0.digest =~= id.0.digest);
            }
        }
        Err(CasError::CorruptBlob(*id))
    }
}

} // verus!
