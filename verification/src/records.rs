//! The stored records: user profiles, documents and share sessions, together
//! with the composite keys that locate them, and the per-record operations.
//!
//! Principals are identified by a plain 64-bit identity. A confidential
//! handle is an opaque 128-bit reference minted by the external confidential
//! value service; this crate never looks inside one, it only compares them.

use vstd::prelude::*;

use crate::errors::ErrorCode;

verus! {

/// Greatest number of characters accepted in a document fingerprint; storage
/// for the record is pre-sized, so the bound is enforced at the boundary.
pub const MAX_FINGERPRINT_LEN: usize = 64;

/// Greatest number of characters accepted in a blob URI; storage for the
/// record is pre-sized, so the bound is enforced at the boundary.
pub const MAX_BLOB_URI_LEN: usize = 200;

/// One profile per user. Created once, then mutated only by incrementing
/// `document_count` on each successful upload; never deleted.
#[derive(Clone, Copy, Debug, PartialEq, Eq, Structural)]
pub struct UserProfile {
    /// The principal this profile belongs to; immutable after creation.
    pub authority: u64,
    /// How many documents the principal has uploaded. The next document's
    /// storage index is derived from this value, so it never decreases.
    pub document_count: u64,
}

impl UserProfile {
    /// The storage index the principal's next document will occupy: the
    /// current pre-increment counter value.
    pub fn next_document_index(&self) -> (r: u64)
        ensures
            r == self.document_count,
    {
        self.document_count
    }

    /// Record one successful upload by incrementing the counter. Overflow is
    /// a hard, non-retryable condition and leaves the profile unchanged.
    pub fn record_upload(&mut self) -> (r: Result<(), ErrorCode>)
        ensures
            old(self).document_count == u64::MAX ==> r == Err::<(), ErrorCode>(
                ErrorCode::CounterOverflow,
            ) && *final(self) == *old(self),
            old(self).document_count < u64::MAX ==> r == Ok::<(), ErrorCode>(())
                && final(self).authority == old(self).authority
                && final(self).document_count == old(self).document_count + 1,
    {
        if self.document_count == u64::MAX {
            Err(ErrorCode::CounterOverflow)
        } else {
            self.document_count = self.document_count + 1;
            Ok(())
        }
    }
}

/// Deterministic storage key of a document: the owning principal together
/// with the index drawn from the owner's profile counter at upload time.
#[derive(Clone, Copy, Debug, PartialEq, Eq, Structural)]
pub struct DocumentKey {
    pub owner: u64,
    pub index: u64,
}

/// Deterministic storage key of a share session: the document shared and the
/// verifier being granted access. At most one session exists per key.
#[derive(Clone, Copy, Debug, PartialEq, Eq, Structural)]
pub struct SessionKey {
    pub document: DocumentKey,
    pub verifier: u64,
}

/// One record per uploaded document; created exactly once, immutable
/// thereafter. The encrypted bytes live outside this system: only their URI
/// and the confidential handle of the sensitive field are tracked here.
#[derive(Debug, PartialEq)]
pub struct Document {
    /// The principal that uploaded the document; only it may share it.
    pub owner: u64,
    /// Storage index under the owner, drawn from the profile counter.
    pub index: u64,
    /// Caller-supplied content fingerprint; not verified by this system.
    pub fingerprint: String,
    /// Where the externally stored ciphertext lives.
    pub blob_uri: String,
    /// When the document was uploaded.
    pub created_at: i64,
    /// Confidential handle of the sensitive field, minted by the external
    /// service at upload time.
    pub sensitive_handle: u128,
}

impl Document {
    /// The storage key this record sits under.
    pub open spec fn key(self) -> DocumentKey {
        DocumentKey { owner: self.owner, index: self.index }
    }

    /// The bounded string fields fit their pre-sized storage.
    pub open spec fn wf(self) -> bool {
        &&& self.fingerprint@.len() <= MAX_FINGERPRINT_LEN
        &&& self.blob_uri@.len() <= MAX_BLOB_URI_LEN
    }
}

/// One time-bounded, revocable access grant for one (document, verifier)
/// pair. Its derived handle is distinct from the document's handle and from
/// every other session's handle, so the grant can be revoked independently.
#[derive(Clone, Copy, Debug, PartialEq, Eq, Structural)]
pub struct ShareSession {
    /// Copy of the shared document's owner, for authorization of revocation.
    pub owner: u64,
    /// The document this grant is scoped to.
    pub document: DocumentKey,
    /// The principal being granted access.
    pub verifier: u64,
    /// When the grant lapses; access requires `now < expires_at`.
    pub expires_at: i64,
    /// Whether the owner has revoked the grant. One-way: never cleared.
    pub revoked: bool,
    /// Fresh confidential handle minted for this grant alone.
    pub derived_handle: u128,
}

impl ShareSession {
    /// The storage key this record sits under.
    pub open spec fn key(self) -> SessionKey {
        SessionKey { document: self.document, verifier: self.verifier }
    }

    /// Whether the grant still admits access at time `now`: not revoked and
    /// not yet expired. Expiry is a derived predicate, never a stored state.
    pub open spec fn accessible(self, now: i64) -> bool {
        !self.revoked && now < self.expires_at
    }

    /// Whether a verifier should still be able to use this grant at `now`.
    /// False once `now` reaches `expires_at`, whatever `revoked` says; false
    /// once revoked, whatever the time; true only when neither holds.
    pub fn is_accessible(&self, now: i64) -> (r: bool)
        ensures
            r == self.accessible(now),
    {
        !self.revoked && now < self.expires_at
    }
}

/// The identities an `initialize_user` call touches: the signing principal
/// whose profile is to be created.
#[derive(Clone, Copy, Debug)]
pub struct InitializeUser {
    pub user: u64,
}

/// The identities an `upload_document` call touches: the signing principal,
/// whose profile supplies the new document's index.
#[derive(Clone, Copy, Debug)]
pub struct UploadDocument {
    pub user: u64,
}

/// The identities a `create_share_session` call touches: the signing
/// principal and the document to be shared.
#[derive(Clone, Copy, Debug)]
pub struct CreateShareSession {
    pub user: u64,
    pub document: DocumentKey,
}

/// The identities a `revoke_share_session` call touches: the signing
/// principal and the session to be revoked.
#[derive(Clone, Copy, Debug)]
pub struct RevokeShareSession {
    pub user: u64,
    pub session: SessionKey,
}

} // verus!
