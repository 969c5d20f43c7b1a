//! The ledger state and its four serialized operations.
//!
//! All records live in content-addressed stores: profiles are keyed by their
//! principal, documents by (owner, index) and sessions by (document,
//! verifier). Every operation runs to completion against this state and
//! either fully commits its writes or leaves the state untouched. The calls
//! out to the external confidential value service are made by the caller
//! beforehand; each operation takes the service's outcome as a plain value
//! and commits nothing when the service failed.

use vstd::prelude::*;

use crate::errors::ErrorCode;
use crate::records::{
    CreateShareSession, Document, DocumentKey, InitializeUser, RevokeShareSession, SessionKey,
    ShareSession, UploadDocument, UserProfile, MAX_BLOB_URI_LEN, MAX_FINGERPRINT_LEN,
};

verus! {

/// The whole durable state: one content-addressed store per record kind.
pub struct Locker {
    pub profiles: Vec<UserProfile>,
    pub documents: Vec<Document>,
    pub sessions: Vec<ShareSession>,
}

impl Locker {
    /// A profile exists for the principal.
    pub open spec fn has_profile(self, who: u64) -> bool {
        exists|i: int|
            0 <= i < self.profiles@.len() && self.profiles@[i].authority == who
    }

    /// Position of the principal's profile; meaningful under `wf` (profiles
    /// are keyed by principal, so the position is unique) when one exists.
    pub open spec fn profile_index(self, who: u64) -> int {
        choose|i: int|
            0 <= i < self.profiles@.len() && self.profiles@[i].authority == who
    }

    /// The principal's profile record.
    pub open spec fn profile_of(self, who: u64) -> UserProfile {
        self.profiles@[self.profile_index(who)]
    }

    /// A document record exists under the key.
    pub open spec fn has_document(self, key: DocumentKey) -> bool {
        exists|i: int|
            0 <= i < self.documents@.len() && self.documents@[i].key() == key
    }

    /// Position of the document under the key; meaningful under `wf` when
    /// one exists.
    pub open spec fn document_index(self, key: DocumentKey) -> int {
        choose|i: int|
            0 <= i < self.documents@.len() && self.documents@[i].key() == key
    }

    /// The document record under the key.
    pub open spec fn document_of(self, key: DocumentKey) -> Document {
        self.documents@[self.document_index(key)]
    }

    /// A session record exists under the key.
    pub open spec fn has_session(self, key: SessionKey) -> bool {
        exists|i: int|
            0 <= i < self.sessions@.len() && self.sessions@[i].key() == key
    }

    /// Position of the session under the key; meaningful under `wf` when one
    /// exists.
    pub open spec fn session_index(self, key: SessionKey) -> int {
        choose|i: int|
            0 <= i < self.sessions@.len() && self.sessions@[i].key() == key
    }

    /// The session record under the key.
    pub open spec fn session_of(self, key: SessionKey) -> ShareSession {
        self.sessions@[self.session_index(key)]
    }

    /// A confidential handle is already referenced somewhere in the state,
    /// either as a document's sensitive handle or as a session's derived
    /// handle. The external service mints globally fresh handles, so a
    /// handle it returns is never in use.
    pub open spec fn handle_in_use(self, h: u128) -> bool {
        ||| exists|i: int|
            0 <= i < self.documents@.len() && self.documents@[i].sensitive_handle == h
        ||| exists|i: int|
            0 <= i < self.sessions@.len() && self.sessions@[i].derived_handle == h
    }

    /// Profiles are keyed by principal: no two share an authority.
    pub open spec fn profiles_wf(self) -> bool {
        forall|i: int, j: int|
            0 <= i < j < self.profiles@.len()
                ==> self.profiles@[i].authority != self.profiles@[j].authority
    }

    /// Documents are keyed by (owner, index), each belongs to a registered
    /// profile, their string fields are bounded, their handles are pairwise
    /// distinct, and each owner's documents occupy exactly the indices below
    /// that owner's counter.
    pub open spec fn documents_wf(self) -> bool {
        &&& forall|i: int, j: int|
            0 <= i < j < self.documents@.len()
                ==> self.documents@[i].key() != self.documents@[j].key()
        &&& forall|i: int|
            0 <= i < self.documents@.len() ==> (#[trigger] self.documents@[i]).wf()
        &&& forall|i: int|
            0 <= i < self.documents@.len()
                ==> self.has_profile((#[trigger] self.documents@[i]).owner)
        &&& forall|i: int, j: int|
            0 <= i < self.documents@.len() && 0 <= j < self.profiles@.len()
                && (#[trigger] self.documents@[i]).owner
                == (#[trigger] self.profiles@[j]).authority
                ==> self.documents@[i].index < self.profiles@[j].document_count
        &&& forall|j: int, k: u64|
            0 <= j < self.profiles@.len()
                && k < self.profiles@[j].document_count
                ==> #[trigger] self.has_document(
                    (DocumentKey { owner: self.profiles@[j].authority, index: k }),
                )
        &&& forall|i: int, j: int|
            0 <= i < j < self.documents@.len()
                ==> self.documents@[i].sensitive_handle
                != self.documents@[j].sensitive_handle
    }

    /// Sessions are keyed by (document, verifier), each refers to a stored
    /// document and carries that document's owner, and every derived handle
    /// is distinct from every other handle in the state.
    pub open spec fn sessions_wf(self) -> bool {
        &&& forall|i: int, j: int|
            0 <= i < j < self.sessions@.len()
                ==> self.sessions@[i].key() != self.sessions@[j].key()
        &&& forall|i: int|
            0 <= i < self.sessions@.len()
                ==> self.has_document((#[trigger] self.sessions@[i]).document)
        &&& forall|i: int|
            0 <= i < self.sessions@.len()
                ==> (#[trigger] self.sessions@[i]).owner == self.sessions@[i].document.owner
        &&& forall|i: int, j: int|
            0 <= i < j < self.sessions@.len()
                ==> self.sessions@[i].derived_handle != self.sessions@[j].derived_handle
        &&& forall|i: int, j: int|
            0 <= i < self.sessions@.len() && 0 <= j < self.documents@.len()
                ==> (#[trigger] self.sessions@[i]).derived_handle
                != (#[trigger] self.documents@[j]).sensitive_handle
    }

    /// Well-formedness of the whole state. Established by `new` and
    /// preserved by every operation.
    pub open spec fn wf(self) -> bool {
        &&& self.profiles_wf()
        &&& self.documents_wf()
        &&& self.sessions_wf()
    }

    /// An empty state: no profiles, no documents, no sessions.
    pub fn new() -> (r: Locker)
        ensures
            r.wf(),
            r.profiles@.len() == 0,
            r.documents@.len() == 0,
            r.sessions@.len() == 0,
    {
        Locker { profiles: Vec::new(), documents: Vec::new(), sessions: Vec::new() }
    }

    /// Linear scan for the principal's profile position.
    fn find_profile(&self, who: u64) -> (r: Option<usize>)
        ensures
            match r {
                Some(i) => i < self.profiles@.len() && self.profiles@[i as int].authority
                    == who,
                None => !self.has_profile(who),
            },
    {
        let mut i: usize = 0;
        while i < self.profiles.len()
            invariant
                i <= self.profiles@.len(),
                forall|j: int| 0 <= j < i ==> self.profiles@[j].authority != who,
            decreases self.profiles@.len() - i,
        {
            if self.profiles[i].authority == who {
                return Some(i);
            }
            i = i + 1;
        }
        None
    }

    /// Linear scan for the document position under the key.
    fn find_document(&self, key: DocumentKey) -> (r: Option<usize>)
        ensures
            match r {
                Some(i) => i < self.documents@.len() && self.documents@[i as int].key()
                    == key,
                None => !self.has_document(key),
            },
    {
        let mut i: usize = 0;
        while i < self.documents.len()
            invariant
                i <= self.documents@.len(),
                forall|j: int| 0 <= j < i ==> self.documents@[j].key() != key,
            decreases self.documents@.len() - i,
        {
            if self.documents[i].owner == key.owner && self.documents[i].index == key.index {
                return Some(i);
            }
            i = i + 1;
        }
        None
    }

    /// Linear scan for the session position under the key.
    fn find_session(&self, key: SessionKey) -> (r: Option<usize>)
        ensures
            match r {
                Some(i) => i < self.sessions@.len() && self.sessions@[i as int].key() == key,
                None => !self.has_session(key),
            },
    {
        let mut i: usize = 0;
        while i < self.sessions.len()
            invariant
                i <= self.sessions@.len(),
                forall|j: int| 0 <= j < i ==> self.sessions@[j].key() != key,
            decreases self.sessions@.len() - i,
        {
            let s = &self.sessions[i];
            if s.document.owner == key.document.owner && s.document.index == key.document.index
                && s.verifier == key.verifier {
                return Some(i);
            }
            i = i + 1;
        }
        None
    }

    /// Create the signing principal's profile with a zeroed document
    /// counter. Idempotent creation is refused: if a profile already exists
    /// under the principal's storage key the call fails with
    /// `AlreadyInitialized` and the state is untouched.
    pub fn initialize_user(&mut self, ctx: InitializeUser) -> (r: Result<(), ErrorCode>)
        requires
            old(self).wf(),
        ensures
            final(self).wf(),
            r == Ok::<(), ErrorCode>(()) <==> !old(self).has_profile(ctx.user),
            r is Err ==> r == Err::<(), ErrorCode>(ErrorCode::AlreadyInitialized)
                && *final(self) == *old(self),
            r is Ok ==> final(self).profiles@ == old(self).profiles@.push(
                (UserProfile { authority: ctx.user, document_count: 0 }),
            ),
            r is Ok ==> final(self).has_profile(ctx.user) && final(self).profile_of(
                ctx.user,
            ).document_count == 0,
            final(self).documents@ == old(self).documents@,
            final(self).sessions@ == old(self).sessions@,
    {
        match self.find_profile(ctx.user) {
            Some(_) => Err(ErrorCode::AlreadyInitialized),
            None => {
                let profile = UserProfile { authority: ctx.user, document_count: 0 };
                self.profiles.push(profile);
                proof {
                    assert forall|i: int| 0 <= i < old(self).profiles@.len()
                        implies old(self).profiles@[i].authority != ctx.user by {
                        if old(self).profiles@[i].authority == ctx.user {
                            assert(old(self).has_profile(ctx.user));
                        }
                    }
                    self.lemma_profile_index_is(ctx.user, old(self).profiles@.len() as int);
                    assert(self.documents_wf()) by {
                        assert forall|i: int| 0 <= i < self.documents@.len()
                            implies self.has_profile((#[trigger] self.documents@[i]).owner) by {
                            assert(old(self).has_profile(old(self).documents@[i].owner));
                            let w = choose|j: int|
                                0 <= j < old(self).profiles@.len()
                                    && old(self).profiles@[j].authority
                                    == old(self).documents@[i].owner;
                            assert(self.profiles@[w].authority == self.documents@[i].owner);
                        }
                        assert forall|j: int, k: u64|
                            0 <= j < self.profiles@.len()
                                && k < self.profiles@[j].document_count
                            implies #[trigger] self.has_document(
                            (DocumentKey { owner: self.profiles@[j].authority, index: k }),
                        ) by {
                            if j < old(self).profiles@.len() {
                                assert(old(self).has_document(
                                    (DocumentKey {
                                        owner: old(self).profiles@[j].authority,
                                        index: k,
                                    }),
                                ));
                            }
                        }
                    }
                }
                Ok(())
            },
        }
    }

    /// Store a new document for the signing principal. The caller first
    /// submits the sensitive ciphertext to the external confidential value
    /// service; `sensitive_handle` is that call's outcome, `None` when the
    /// service failed, in which case nothing is committed and the failure
    /// surfaces as `ConfidentialServiceError`. On success the document is
    /// stored under the owner's pre-increment counter value and the counter
    /// is incremented in the same step, so no two documents can ever land on
    /// the same slot. The freshness of the handle is the service's promise:
    /// it never returns a handle already referenced in the state.
    ///
    /// Granting the owner decryption rights on the new handle is a separate,
    /// explicit follow-up against the service, not done here.
    pub fn upload_document(
        &mut self,
        ctx: UploadDocument,
        doc_fingerprint: String,
        encrypted_blob_uri: String,
        now: i64,
        sensitive_handle: Option<u128>,
    ) -> (r: Result<(), ErrorCode>)
        requires
            old(self).wf(),
            old(self).has_profile(ctx.user),
            doc_fingerprint@.len() <= MAX_FINGERPRINT_LEN,
            encrypted_blob_uri@.len() <= MAX_BLOB_URI_LEN,
            sensitive_handle matches Some(h) ==> !old(self).handle_in_use(h),
        ensures
            final(self).wf(),
            r == Ok::<(), ErrorCode>(()) <==> sensitive_handle is Some && old(self).profile_of(
                ctx.user,
            ).document_count < u64::MAX,
            sensitive_handle is None ==> r == Err::<(), ErrorCode>(
                ErrorCode::ConfidentialServiceError,
            ),
            sensitive_handle is Some && old(self).profile_of(ctx.user).document_count
                == u64::MAX ==> r == Err::<(), ErrorCode>(ErrorCode::CounterOverflow),
            r is Err ==> *final(self) == *old(self),
            r is Ok ==> (sensitive_handle matches Some(h) ==> ({
                let c = old(self).profile_of(ctx.user).document_count;
                let doc = (Document {
                    owner: ctx.user,
                    index: c,
                    fingerprint: doc_fingerprint,
                    blob_uri: encrypted_blob_uri,
                    created_at: now,
                    sensitive_handle: h,
                });
                &&& !old(self).has_document((DocumentKey { owner: ctx.user, index: c }))
                &&& final(self).profiles@ == old(self).profiles@.update(
                    old(self).profile_index(ctx.user),
                    (UserProfile { authority: ctx.user, document_count: (c + 1) as u64 }),
                )
                &&& final(self).documents@ == old(self).documents@.push(doc)
                &&& final(self).profile_of(ctx.user).document_count == c + 1
                &&& final(self).has_document((DocumentKey { owner: ctx.user, index: c }))
                &&& final(self).document_of((DocumentKey { owner: ctx.user, index: c })) == doc
            })),
            final(self).sessions@ == old(self).sessions@,
    {
        let h = match sensitive_handle {
            None => {
                return Err(ErrorCode::ConfidentialServiceError);
            },
            Some(h) => h,
        };
        match self.find_profile(ctx.user) {
            // cannot be reached: the signer's profile is registered
            None => Err(ErrorCode::ConfidentialServiceError),
            Some(i) => {
                proof {
                    old(self).lemma_profile_index_is(ctx.user, i as int);
                }
                let mut p = self.profiles[i];
                let index = p.next_document_index();
                match p.record_upload() {
                    Err(e) => Err(e),
                    Ok(()) => {
                        let doc = Document {
                            owner: ctx.user,
                            index,
                            fingerprint: doc_fingerprint,
                            blob_uri: encrypted_blob_uri,
                            created_at: now,
                            sensitive_handle: h,
                        };
                        self.profiles.set(i, p);
                        self.documents.push(doc);
                        proof {
                            self.lemma_upload_commit(*old(self), ctx.user, i as int, h);
                        }
                        Ok(())
                    },
                }
            },
        }
    }

    /// The committed upload state is well formed, and the new document sits
    /// alone on the owner's pre-increment slot. `prev` is the state before
    /// the commit, `i` the owner's profile position, `h` the fresh handle.
    proof fn lemma_upload_commit(self, prev: Locker, who: u64, i: int, h: u128)
        requires
            prev.wf(),
            0 <= i < prev.profiles@.len(),
            prev.profiles@[i].authority == who,
            prev.profiles@[i].document_count < u64::MAX,
            !prev.handle_in_use(h),
            self.profiles@ == prev.profiles@.update(
                i,
                (UserProfile {
                    authority: who,
                    document_count: (prev.profiles@[i].document_count + 1) as u64,
                }),
            ),
            self.documents@.len() == prev.documents@.len() + 1,
            forall|d: int|
                0 <= d < prev.documents@.len() ==> self.documents@[d] == prev.documents@[d],
            self.documents@[prev.documents@.len() as int].owner == who,
            self.documents@[prev.documents@.len() as int].index == prev.profiles@[i].document_count,
            self.documents@[prev.documents@.len() as int].sensitive_handle == h,
            self.documents@[prev.documents@.len() as int].wf(),
            self.sessions@ == prev.sessions@,
        ensures
            self.wf(),
            !prev.has_document(
                (DocumentKey { owner: who, index: prev.profiles@[i].document_count }),
            ),
            self.profile_index(who) == i,
            self.profile_of(who).document_count == prev.profiles@[i].document_count + 1,
            self.has_document((DocumentKey { owner: who, index: prev.profiles@[i].document_count })),
            self.document_of((DocumentKey { owner: who, index: prev.profiles@[i].document_count }))
                == self.documents@[prev.documents@.len() as int],
    {
        let c = prev.profiles@[i].document_count;
        let newkey = DocumentKey { owner: who, index: c };
        let n = prev.documents@.len() as int;
        prev.lemma_profile_index_is(who, i);
        // the new slot was free: every document the owner already had sits below c
        assert forall|d: int| 0 <= d < n implies prev.documents@[d].key() != newkey by {
            if prev.documents@[d].owner == who {
                assert(prev.documents@[d].index < prev.profiles@[i].document_count);
            }
        }
        assert(!prev.has_document(newkey));
        // profiles stay keyed by principal: the update keeps every authority
        assert forall|a: int, b: int| 0 <= a < b < self.profiles@.len()
            implies self.profiles@[a].authority != self.profiles@[b].authority by {
            assert(self.profiles@[a].authority == prev.profiles@[a].authority);
            assert(self.profiles@[b].authority == prev.profiles@[b].authority);
        }
        self.lemma_profile_index_is(who, i);
        // every stored document still belongs to a registered profile
        assert forall|d: int| 0 <= d < self.documents@.len()
            implies self.has_profile((#[trigger] self.documents@[d]).owner) by {
            if d < n {
                assert(prev.has_profile(prev.documents@[d].owner));
                let w = choose|j: int|
                    0 <= j < prev.profiles@.len() && prev.profiles@[j].authority
                        == prev.documents@[d].owner;
                assert(self.profiles@[w].authority == self.documents@[d].owner);
            } else {
                assert(self.profiles@[i].authority == who);
            }
        }
        // document keys stay unique
        assert forall|a: int, b: int| 0 <= a < b < self.documents@.len()
            implies self.documents@[a].key() != self.documents@[b].key() by {
            if b < n {
                assert(prev.documents@[a].key() != prev.documents@[b].key());
            } else {
                assert(self.documents@[b].key() == newkey);
                assert(prev.documents@[a].key() != newkey);
            }
        }
        // indices stay below the owning profile's counter
        assert forall|d: int, j: int|
            0 <= d < self.documents@.len() && 0 <= j < self.profiles@.len()
                && (#[trigger] self.documents@[d]).owner
                == (#[trigger] self.profiles@[j]).authority
            implies self.documents@[d].index < self.profiles@[j].document_count by {
            if d < n {
                assert(prev.documents@[d].index < prev.profiles@[j].document_count);
                assert(prev.profiles@[j].document_count <= self.profiles@[j].document_count);
            } else {
                // the new document is owned by `who`, whose only profile is at `i`
                if j != i {
                    assert(prev.profiles@[j].authority == who);
                    if j < i {
                        assert(prev.profiles@[j].authority != prev.profiles@[i].authority);
                    } else {
                        assert(prev.profiles@[i].authority != prev.profiles@[j].authority);
                    }
                }
                assert(j == i);
            }
        }
        // every index below a counter is occupied
        assert forall|j: int, k: u64|
            0 <= j < self.profiles@.len() && k < self.profiles@[j].document_count
            implies #[trigger] self.has_document(
            (DocumentKey { owner: self.profiles@[j].authority, index: k }),
        ) by {
            if j == i && k == c {
                assert(self.documents@[n].key() == newkey);
            } else {
                assert(k < prev.profiles@[j].document_count);
                assert(prev.has_document(
                    (DocumentKey { owner: prev.profiles@[j].authority, index: k }),
                ));
                let w = choose|d: int|
                    0 <= d < prev.documents@.len() && prev.documents@[d].key()
                        == (DocumentKey { owner: prev.profiles@[j].authority, index: k });
                assert(self.documents@[w].key() == (DocumentKey {
                    owner: self.profiles@[j].authority,
                    index: k,
                }));
            }
        }
        // the fresh handle collides with nothing already stored
        assert forall|a: int, b: int| 0 <= a < b < self.documents@.len()
            implies self.documents@[a].sensitive_handle != self.documents@[b].sensitive_handle by {
            if b < n {
                assert(prev.documents@[a].sensitive_handle != prev.documents@[b].sensitive_handle);
            } else {
                if prev.documents@[a].sensitive_handle == h {
                    assert(prev.handle_in_use(h));
                }
            }
        }
        assert forall|s: int| 0 <= s < self.sessions@.len()
            implies self.has_document((#[trigger] self.sessions@[s]).document) by {
            assert(prev.has_document(prev.sessions@[s].document));
            let w = choose|d: int|
                0 <= d < prev.documents@.len() && prev.documents@[d].key()
                    == prev.sessions@[s].document;
            assert(self.documents@[w].key() == self.sessions@[s].document);
        }
        assert forall|s: int, b: int|
            0 <= s < self.sessions@.len() && 0 <= b < self.documents@.len()
            implies (#[trigger] self.sessions@[s]).derived_handle
            != (#[trigger] self.documents@[b]).sensitive_handle by {
            if b < n {
                assert(prev.sessions@[s].derived_handle != prev.documents@[b].sensitive_handle);
            } else {
                if prev.sessions@[s].derived_handle == h {
                    assert(prev.handle_in_use(h));
                }
            }
        }
        assert(self.documents@[n].key() == newkey);
        self.lemma_document_index_is(newkey, n);
    }

    /// Grant a verifier time-bounded access to a document. The caller first
    /// asks the external confidential value service to combine the
    /// document's sensitive handle with the encrypted additive identity;
    /// `derived_handle` is that call's outcome, `None` when the service
    /// failed. Combining with the identity yields a value-equal but
    /// handle-distinct reference, so every verifier receives a unique handle
    /// whose rights can be granted and revoked independently of the source
    /// document and of every other grant; the freshness of the handle is the
    /// service's promise. Only the document's owner may share it, the time
    /// to live must be positive, and a pair that already has a session is
    /// refused rather than silently overwritten, which would orphan the
    /// previous grant. Granting the verifier decryption rights on the
    /// derived handle is a separate, explicit follow-up against the service.
    pub fn create_share_session(
        &mut self,
        ctx: CreateShareSession,
        verifier: u64,
        expires_in_seconds: i64,
        now: i64,
        derived_handle: Option<u128>,
    ) -> (r: Result<(), ErrorCode>)
        requires
            old(self).wf(),
            old(self).has_document(ctx.document),
            derived_handle matches Some(h) ==> !old(self).handle_in_use(h),
            expires_in_seconds > 0 ==> now + expires_in_seconds <= i64::MAX,
        ensures
            final(self).wf(),
            r is Err ==> *final(self) == *old(self),
            ctx.document.owner != ctx.user ==> r == Err::<(), ErrorCode>(
                ErrorCode::Unauthorized,
            ),
            ctx.document.owner == ctx.user && expires_in_seconds <= 0 ==> r == Err::<
                (),
                ErrorCode,
            >(ErrorCode::InvalidExpiry),
            ctx.document.owner == ctx.user && expires_in_seconds > 0 && old(self).has_session(
                (SessionKey { document: ctx.document, verifier }),
            ) ==> r == Err::<(), ErrorCode>(ErrorCode::SessionAlreadyExists),
            ctx.document.owner == ctx.user && expires_in_seconds > 0 && !old(self).has_session(
                (SessionKey { document: ctx.document, verifier }),
            ) && derived_handle is None ==> r == Err::<(), ErrorCode>(
                ErrorCode::ConfidentialServiceError,
            ),
            r == Ok::<(), ErrorCode>(()) <==> ctx.document.owner == ctx.user
                && expires_in_seconds > 0 && !old(self).has_session(
                (SessionKey { document: ctx.document, verifier }),
            ) && derived_handle is Some,
            r is Ok ==> (derived_handle matches Some(h) ==> ({
                let s = (ShareSession {
                    owner: ctx.user,
                    document: ctx.document,
                    verifier,
                    expires_at: (now + expires_in_seconds) as i64,
                    revoked: false,
                    derived_handle: h,
                });
                &&& final(self).sessions@ == old(self).sessions@.push(s)
                &&& final(self).has_session(s.key())
                &&& final(self).session_of(s.key()) == s
            })),
            final(self).profiles@ == old(self).profiles@,
            final(self).documents@ == old(self).documents@,
    {
        let key = SessionKey { document: ctx.document, verifier };
        match self.find_document(ctx.document) {
            // cannot be reached: the shared document is stored
            None => Err(ErrorCode::Unauthorized),
            Some(d) => {
                if self.documents[d].owner != ctx.user {
                    return Err(ErrorCode::Unauthorized);
                }
                if expires_in_seconds <= 0 {
                    return Err(ErrorCode::InvalidExpiry);
                }
                match self.find_session(key) {
                    Some(_) => Err(ErrorCode::SessionAlreadyExists),
                    None => {
                        let h = match derived_handle {
                            None => {
                                return Err(ErrorCode::ConfidentialServiceError);
                            },
                            Some(h) => h,
                        };
                        let s = ShareSession {
                            owner: ctx.user,
                            document: ctx.document,
                            verifier,
                            expires_at: now + expires_in_seconds,
                            revoked: false,
                            derived_handle: h,
                        };
                        self.sessions.push(s);
                        proof {
                            self.lemma_create_session_commit(*old(self), s);
                        }
                        Ok(())
                    },
                }
            },
        }
    }

    /// The committed session state is well formed and holds the new session
    /// under its key. `prev` is the state before the commit.
    proof fn lemma_create_session_commit(self, prev: Locker, s: ShareSession)
        requires
            prev.wf(),
            prev.has_document(s.document),
            s.owner == s.document.owner,
            !prev.has_session(s.key()),
            !prev.handle_in_use(s.derived_handle),
            self.profiles@ == prev.profiles@,
            self.documents@ == prev.documents@,
            self.sessions@ == prev.sessions@.push(s),
        ensures
            self.wf(),
            self.has_session(s.key()),
            self.session_of(s.key()) == s,
    {
        let n = prev.sessions@.len() as int;
        assert forall|i: int| 0 <= i < self.documents@.len()
            implies self.has_profile((#[trigger] self.documents@[i]).owner) by {
            assert(prev.has_profile(prev.documents@[i].owner));
            let w = choose|j: int|
                0 <= j < prev.profiles@.len() && prev.profiles@[j].authority
                    == prev.documents@[i].owner;
            assert(self.profiles@[w].authority == self.documents@[i].owner);
        }
        assert forall|j: int, k: u64|
            0 <= j < self.profiles@.len() && k < self.profiles@[j].document_count
            implies #[trigger] self.has_document(
            (DocumentKey { owner: self.profiles@[j].authority, index: k }),
        ) by {
            assert(prev.has_document(
                (DocumentKey { owner: prev.profiles@[j].authority, index: k }),
            ));
            let w = choose|d: int|
                0 <= d < prev.documents@.len() && prev.documents@[d].key()
                    == (DocumentKey { owner: prev.profiles@[j].authority, index: k });
            assert(self.documents@[w].key() == (DocumentKey {
                owner: self.profiles@[j].authority,
                index: k,
            }));
        }
        assert forall|a: int, b: int| 0 <= a < b < self.sessions@.len()
            implies self.sessions@[a].key() != self.sessions@[b].key() by {
            if b < n {
                assert(prev.sessions@[a].key() != prev.sessions@[b].key());
            } else {
                if prev.sessions@[a].key() == s.key() {
                    assert(prev.has_session(s.key()));
                }
            }
        }
        assert forall|t: int| 0 <= t < self.sessions@.len()
            implies self.has_document((#[trigger] self.sessions@[t]).document) by {
            if t < n {
                assert(prev.has_document(prev.sessions@[t].document));
            }
            let k = self.sessions@[t].document;
            let w = choose|d: int|
                0 <= d < prev.documents@.len() && prev.documents@[d].key() == k;
            assert(self.documents@[w].key() == k);
        }
        assert forall|t: int| 0 <= t < self.sessions@.len()
            implies (#[trigger] self.sessions@[t]).owner == self.sessions@[t].document.owner by {
            if t < n {
                assert(prev.sessions@[t].owner == prev.sessions@[t].document.owner);
            }
        }
        assert forall|a: int, b: int| 0 <= a < b < self.sessions@.len()
            implies self.sessions@[a].derived_handle != self.sessions@[b].derived_handle by {
            if b < n {
                assert(prev.sessions@[a].derived_handle != prev.sessions@[b].derived_handle);
            } else {
                if prev.sessions@[a].derived_handle == s.derived_handle {
                    assert(prev.handle_in_use(s.derived_handle));
                }
            }
        }
        assert forall|t: int, b: int|
            0 <= t < self.sessions@.len() && 0 <= b < self.documents@.len()
            implies (#[trigger] self.sessions@[t]).derived_handle
            != (#[trigger] self.documents@[b]).sensitive_handle by {
            if t < n {
                assert(prev.sessions@[t].derived_handle != prev.documents@[b].sensitive_handle);
            } else {
                if prev.documents@[b].sensitive_handle == s.derived_handle {
                    assert(prev.handle_in_use(s.derived_handle));
                }
            }
        }
        assert(self.sessions@[n].key() == s.key());
        self.lemma_session_index_is(s.key(), n);
    }

    /// Revoke a share session. Only the original document owner may revoke;
    /// a verifier or any third party is refused and the grant is untouched.
    /// Revocation is one-way and idempotent: revoking an already-revoked
    /// session succeeds and changes nothing. The record itself is kept, and
    /// any right already granted on the external service is not retracted
    /// here; pairing this call with the service's own revocation is the
    /// caller's documented responsibility.
    pub fn revoke_share_session(&mut self, ctx: RevokeShareSession) -> (r: Result<(), ErrorCode>)
        requires
            old(self).wf(),
            old(self).has_session(ctx.session),
        ensures
            final(self).wf(),
            r == Ok::<(), ErrorCode>(()) <==> old(self).session_of(ctx.session).owner
                == ctx.user,
            r is Err ==> r == Err::<(), ErrorCode>(ErrorCode::Unauthorized) && *final(self)
                == *old(self),
            r is Ok ==> ({
                let t = old(self).session_index(ctx.session);
                let s0 = old(self).sessions@[t];
                let s1 = (ShareSession {
                    owner: s0.owner,
                    document: s0.document,
                    verifier: s0.verifier,
                    expires_at: s0.expires_at,
                    revoked: true,
                    derived_handle: s0.derived_handle,
                });
                &&& final(self).sessions@ == old(self).sessions@.update(t, s1)
                &&& final(self).has_session(ctx.session)
                &&& final(self).session_of(ctx.session) == s1
            }),
            final(self).profiles@ == old(self).profiles@,
            final(self).documents@ == old(self).documents@,
    {
        match self.find_session(ctx.session) {
            // cannot be reached: the session record is stored
            None => Err(ErrorCode::Unauthorized),
            Some(t) => {
                proof {
                    old(self).lemma_session_index_is(ctx.session, t as int);
                }
                let s0 = self.sessions[t];
                if s0.owner != ctx.user {
                    return Err(ErrorCode::Unauthorized);
                }
                let s1 = ShareSession {
                    owner: s0.owner,
                    document: s0.document,
                    verifier: s0.verifier,
                    expires_at: s0.expires_at,
                    revoked: true,
                    derived_handle: s0.derived_handle,
                };
                self.sessions.set(t, s1);
                proof {
                    assert forall|x: int| 0 <= x < self.sessions@.len() implies (
                    #[trigger] self.sessions@[x]).key() == old(self).sessions@[x].key()
                        && self.sessions@[x].derived_handle
                        == old(self).sessions@[x].derived_handle && self.sessions@[x].owner
                        == old(self).sessions@[x].owner && self.sessions@[x].document
                        == old(self).sessions@[x].document by {}
                    assert forall|a: int, b: int| 0 <= a < b < self.sessions@.len()
                        implies self.sessions@[a].key() != self.sessions@[b].key() by {
                        assert(old(self).sessions@[a].key() != old(self).sessions@[b].key());
                    }
                    assert forall|x: int| 0 <= x < self.sessions@.len()
                        implies self.has_document((#[trigger] self.sessions@[x]).document) by {
                        assert(old(self).has_document(old(self).sessions@[x].document));
                        let k = self.sessions@[x].document;
                        let w = choose|d: int|
                            0 <= d < old(self).documents@.len() && old(self).documents@[d].key()
                                == k;
                        assert(self.documents@[w].key() == k);
                    }
                    assert forall|a: int, b: int| 0 <= a < b < self.sessions@.len()
                        implies self.sessions@[a].derived_handle
                        != self.sessions@[b].derived_handle by {
                        assert(old(self).sessions@[a].derived_handle != old(
                            self,
                        ).sessions@[b].derived_handle);
                    }
                    assert forall|x: int, b: int|
                        0 <= x < self.sessions@.len() && 0 <= b < self.documents@.len()
                        implies (#[trigger] self.sessions@[x]).derived_handle
                        != (#[trigger] self.documents@[b]).sensitive_handle by {
                        assert(old(self).sessions@[x].derived_handle != old(
                            self,
                        ).documents@[b].sensitive_handle);
                    }
                    assert forall|i: int| 0 <= i < self.documents@.len()
                        implies self.has_profile((#[trigger] self.documents@[i]).owner) by {
                        assert(old(self).has_profile(old(self).documents@[i].owner));
                        let w = choose|j: int|
                            0 <= j < old(self).profiles@.len() && old(self).profiles@[j].authority
                                == old(self).documents@[i].owner;
                        assert(self.profiles@[w].authority == self.documents@[i].owner);
                    }
                    assert forall|j: int, k: u64|
                        0 <= j < self.profiles@.len() && k < self.profiles@[j].document_count
                        implies #[trigger] self.has_document(
                        (DocumentKey { owner: self.profiles@[j].authority, index: k }),
                    ) by {
                        assert(old(self).has_document(
                            (DocumentKey { owner: old(self).profiles@[j].authority, index: k }),
                        ));
                        let w = choose|d: int|
                            0 <= d < old(self).documents@.len() && old(self).documents@[d].key()
                                == (DocumentKey {
                                owner: old(self).profiles@[j].authority,
                                index: k,
                            });
                        assert(self.documents@[w].key() == (DocumentKey {
                            owner: self.profiles@[j].authority,
                            index: k,
                        }));
                    }
                    assert(self.sessions@[t as int].key() == ctx.session);
                    self.lemma_session_index_is(ctx.session, t as int);
                }
                Ok(())
            },
        }
    }

    /// The stored profile of a principal, if any.
    pub fn get_profile(&self, who: u64) -> (r: Option<&UserProfile>)
        requires
            self.wf(),
        ensures
            match r {
                Some(p) => self.has_profile(who) && *p == self.profile_of(who),
                None => !self.has_profile(who),
            },
    {
        match self.find_profile(who) {
            None => None,
            Some(i) => {
                proof {
                    self.lemma_profile_index_is(who, i as int);
                }
                Some(&self.profiles[i])
            },
        }
    }

    /// The stored document under a key, if any.
    pub fn get_document(&self, key: DocumentKey) -> (r: Option<&Document>)
        requires
            self.wf(),
        ensures
            match r {
                Some(d) => self.has_document(key) && *d == self.document_of(key),
                None => !self.has_document(key),
            },
    {
        match self.find_document(key) {
            None => None,
            Some(i) => {
                proof {
                    self.lemma_document_index_is(key, i as int);
                }
                Some(&self.documents[i])
            },
        }
    }

    /// The stored session under a key, if any.
    pub fn get_session(&self, key: SessionKey) -> (r: Option<&ShareSession>)
        requires
            self.wf(),
        ensures
            match r {
                Some(s) => self.has_session(key) && *s == self.session_of(key),
                None => !self.has_session(key),
            },
    {
        match self.find_session(key) {
            None => None,
            Some(i) => {
                proof {
                    self.lemma_session_index_is(key, i as int);
                }
                Some(&self.sessions[i])
            },
        }
    }

    /// The storage indices occupied by a principal's documents.
    pub open spec fn owned_document_indices(self, who: u64) -> Set<int> {
        Set::new(
            |k: int|
                0 <= k <= u64::MAX && self.has_document(
                    (DocumentKey { owner: who, index: k as u64 }),
                ),
        )
    }

    /// A profile's counter tells exactly which slots the principal's
    /// documents occupy: a document exists under (owner, index) precisely
    /// for the indices below `document_count`. With `initialize_user`
    /// starting the counter at zero and each successful upload placing its
    /// document on the pre-increment counter value, the counter after a run
    /// of successful uploads equals their number and the latest document
    /// sits one below it.
    pub proof fn lemma_count_matches_documents(self, who: u64)
        requires
            self.wf(),
            self.has_profile(who),
        ensures
            forall|k: u64|
                #[trigger] self.has_document((DocumentKey { owner: who, index: k })) <==> k
                    < self.profile_of(who).document_count,
    {
        let i = self.profile_index(who);
        assert(0 <= i < self.profiles@.len() && self.profiles@[i].authority == who);
        assert forall|k: u64| #[trigger] self.has_document((DocumentKey { owner: who, index: k }))
            implies k < self.profile_of(who).document_count by {
            let w = choose|d: int|
                0 <= d < self.documents@.len() && self.documents@[d].key()
                    == (DocumentKey { owner: who, index: k });
            assert(self.documents@[w].index < self.profiles@[i].document_count);
        }
        assert forall|k: u64| k < self.profile_of(who).document_count
            implies #[trigger] self.has_document((DocumentKey { owner: who, index: k })) by {
            assert(self.has_document(
                (DocumentKey { owner: self.profiles@[i].authority, index: k }),
            ));
        }
    }

    /// The number of documents a principal owns equals the profile's
    /// `document_count`.
    pub proof fn lemma_count_is_number_owned(self, who: u64)
        requires
            self.wf(),
            self.has_profile(who),
        ensures
            self.owned_document_indices(who).finite(),
            self.owned_document_indices(who).len() == self.profile_of(who).document_count,
    {
        self.lemma_count_matches_documents(who);
        let c = self.profile_of(who).document_count as int;
        assert(self.owned_document_indices(who) =~= vstd::set_lib::set_int_range(0, c));
        vstd::set_lib::lemma_int_range(0, c);
    }

    /// Storage slots are never reused: two stored documents never sit under
    /// the same (owner, index) key, however the counter was read.
    pub proof fn lemma_document_slots_distinct(self, a: int, b: int)
        requires
            self.wf(),
            0 <= a < self.documents@.len(),
            0 <= b < self.documents@.len(),
            a != b,
        ensures
            self.documents@[a].key() != self.documents@[b].key(),
    {
    }

    /// Two sessions for the same document but different verifiers hold
    /// distinct derived handles, even though both trace back to the same
    /// sensitive handle.
    pub proof fn lemma_sessions_never_share_handles(self, a: int, b: int)
        requires
            self.wf(),
            0 <= a < self.sessions@.len(),
            0 <= b < self.sessions@.len(),
            self.sessions@[a].document == self.sessions@[b].document,
            self.sessions@[a].verifier != self.sessions@[b].verifier,
        ensures
            self.sessions@[a].derived_handle != self.sessions@[b].derived_handle,
    {
    }

    /// A session's derived handle never coincides with any stored
    /// document's sensitive handle: revoking a grant can touch neither the
    /// source document nor any other document.
    pub proof fn lemma_derived_handle_not_a_source(self, a: int, b: int)
        requires
            self.wf(),
            0 <= a < self.sessions@.len(),
            0 <= b < self.documents@.len(),
        ensures
            self.sessions@[a].derived_handle != self.documents@[b].sensitive_handle,
    {
    }

    /// Under unique keying, any position holding the principal's profile is
    /// the position `profile_index` denotes.
    pub proof fn lemma_profile_index_is(self, who: u64, i: int)
        requires
            self.profiles_wf(),
            0 <= i < self.profiles@.len(),
            self.profiles@[i].authority == who,
        ensures
            self.has_profile(who),
            self.profile_index(who) == i,
    {
        assert(self.has_profile(who));
        let j = self.profile_index(who);
        assert(0 <= j < self.profiles@.len() && self.profiles@[j].authority == who);
        if i < j {
            assert(self.profiles@[i].authority != self.profiles@[j].authority);
        } else if j < i {
            assert(self.profiles@[j].authority != self.profiles@[i].authority);
        }
    }

    /// Under unique keying, any position holding a document with the key is
    /// the position `document_index` denotes.
    pub proof fn lemma_document_index_is(self, key: DocumentKey, i: int)
        requires
            self.documents_wf(),
            0 <= i < self.documents@.len(),
            self.documents@[i].key() == key,
        ensures
            self.has_document(key),
            self.document_index(key) == i,
    {
        assert(self.has_document(key));
        let j = self.document_index(key);
        assert(0 <= j < self.documents@.len() && self.documents@[j].key() == key);
        if i < j {
            assert(self.documents@[i].key() != self.documents@[j].key());
        } else if j < i {
            assert(self.documents@[j].key() != self.documents@[i].key());
        }
    }

    /// Under unique keying, any position holding a session with the key is
    /// the position `session_index` denotes.
    pub proof fn lemma_session_index_is(self, key: SessionKey, i: int)
        requires
            self.sessions_wf(),
            0 <= i < self.sessions@.len(),
            self.sessions@[i].key() == key,
        ensures
            self.has_session(key),
            self.session_index(key) == i,
    {
        assert(self.has_session(key));
        let j = self.session_index(key);
        assert(0 <= j < self.sessions@.len() && self.sessions@[j].key() == key);
        if i < j {
            assert(self.sessions@[i].key() != self.sessions@[j].key());
        } else if j < i {
            assert(self.sessions@[j].key() != self.sessions@[i].key());
        }
    }
}

} // verus!
