use privy_locker::errors::ErrorCode;
use privy_locker::locker::Locker;
use privy_locker::records::{
    CreateShareSession, DocumentKey, InitializeUser, RevokeShareSession, SessionKey, ShareSession,
    UploadDocument, UserProfile,
};

const ALICE: u64 = 11;
const BOB: u64 = 22;
const CAROL: u64 = 33;

fn doc_key(owner: u64, index: u64) -> DocumentKey {
    DocumentKey { owner, index }
}

fn session_key(document: DocumentKey, verifier: u64) -> SessionKey {
    SessionKey { document, verifier }
}

#[test]
fn initialize_starts_counter_at_zero() {
    let mut locker = Locker::new();
    assert!(locker.get_profile(ALICE).is_none());
    assert_eq!(locker.initialize_user(InitializeUser { user: ALICE }), Ok(()));
    let profile = locker.get_profile(ALICE).expect("profile must exist");
    assert_eq!(profile.authority, ALICE);
    assert_eq!(profile.document_count, 0);
    assert_eq!(profile.next_document_index(), 0);
}

#[test]
fn initialize_twice_is_refused() {
    let mut locker = Locker::new();
    assert_eq!(locker.initialize_user(InitializeUser { user: ALICE }), Ok(()));
    assert_eq!(
        locker.initialize_user(InitializeUser { user: ALICE }),
        Err(ErrorCode::AlreadyInitialized)
    );
    let profile = locker.get_profile(ALICE).expect("profile must survive");
    assert_eq!(profile.document_count, 0);
}

#[test]
fn uploads_count_up_and_fill_sequential_slots() {
    let mut locker = Locker::new();
    locker.initialize_user(InitializeUser { user: ALICE }).unwrap();
    let upload = UploadDocument { user: ALICE };
    assert_eq!(
        locker.upload_document(upload, "fp-one".to_string(), "uri-one".to_string(), 50, Some(101)),
        Ok(())
    );
    assert_eq!(locker.get_profile(ALICE).unwrap().document_count, 1);
    assert_eq!(
        locker.upload_document(upload, "fp-two".to_string(), "uri-two".to_string(), 60, Some(102)),
        Ok(())
    );
    assert_eq!(locker.get_profile(ALICE).unwrap().document_count, 2);

    let first = locker.get_document(doc_key(ALICE, 0)).expect("slot 0 filled");
    let second = locker.get_document(doc_key(ALICE, 1)).expect("slot 1 filled");
    assert_eq!(first.index, 0);
    assert_eq!(second.index, 1);
    assert_ne!(first.index, second.index);
    assert_eq!(first.owner, ALICE);
    assert_eq!(first.fingerprint, "fp-one");
    assert_eq!(first.blob_uri, "uri-one");
    assert_eq!(first.created_at, 50);
    assert_eq!(first.sensitive_handle, 101);
    assert_eq!(second.fingerprint, "fp-two");
    assert!(locker.get_document(doc_key(ALICE, 2)).is_none());
}

#[test]
fn upload_without_service_handle_commits_nothing() {
    let mut locker = Locker::new();
    locker.initialize_user(InitializeUser { user: ALICE }).unwrap();
    assert_eq!(
        locker.upload_document(
            UploadDocument { user: ALICE },
            "fp".to_string(),
            "uri".to_string(),
            50,
            None
        ),
        Err(ErrorCode::ConfidentialServiceError)
    );
    assert_eq!(locker.get_profile(ALICE).unwrap().document_count, 0);
    assert!(locker.get_document(doc_key(ALICE, 0)).is_none());
}

#[test]
fn counter_overflow_is_a_hard_error() {
    let mut profile = UserProfile { authority: ALICE, document_count: u64::MAX };
    assert_eq!(profile.record_upload(), Err(ErrorCode::CounterOverflow));
    assert_eq!(profile.document_count, u64::MAX);

    let mut low = UserProfile { authority: ALICE, document_count: 7 };
    assert_eq!(low.record_upload(), Ok(()));
    assert_eq!(low.document_count, 8);
}

fn locker_with_one_document() -> Locker {
    let mut locker = Locker::new();
    locker.initialize_user(InitializeUser { user: ALICE }).unwrap();
    locker
        .upload_document(
            UploadDocument { user: ALICE },
            "abc123".to_string(),
            "uri://blob".to_string(),
            100,
            Some(500),
        )
        .unwrap();
    locker
}

#[test]
fn create_session_succeeds_only_for_owner_with_positive_ttl() {
    let document = doc_key(ALICE, 0);

    let mut locker = locker_with_one_document();
    assert_eq!(
        locker.create_share_session(
            CreateShareSession { user: BOB, document },
            CAROL,
            3600,
            1000,
            Some(501)
        ),
        Err(ErrorCode::Unauthorized)
    );
    assert!(locker.get_session(session_key(document, CAROL)).is_none());

    assert_eq!(
        locker.create_share_session(
            CreateShareSession { user: ALICE, document },
            CAROL,
            0,
            1000,
            Some(501)
        ),
        Err(ErrorCode::InvalidExpiry)
    );
    assert_eq!(
        locker.create_share_session(
            CreateShareSession { user: ALICE, document },
            CAROL,
            -5,
            1000,
            Some(501)
        ),
        Err(ErrorCode::InvalidExpiry)
    );
    assert!(locker.get_session(session_key(document, CAROL)).is_none());

    assert_eq!(
        locker.create_share_session(
            CreateShareSession { user: ALICE, document },
            CAROL,
            3600,
            1000,
            None
        ),
        Err(ErrorCode::ConfidentialServiceError)
    );
    assert!(locker.get_session(session_key(document, CAROL)).is_none());

    assert_eq!(
        locker.create_share_session(
            CreateShareSession { user: ALICE, document },
            CAROL,
            3600,
            1000,
            Some(501)
        ),
        Ok(())
    );
    let session = locker.get_session(session_key(document, CAROL)).expect("session stored");
    assert_eq!(session.owner, ALICE);
    assert_eq!(session.document, document);
    assert_eq!(session.verifier, CAROL);
    assert_eq!(session.expires_at, 4600);
    assert!(!session.revoked);
    assert_eq!(session.derived_handle, 501);
}

#[test]
fn sessions_for_different_verifiers_get_distinct_handles() {
    let document = doc_key(ALICE, 0);
    let mut locker = locker_with_one_document();
    let source_handle = locker.get_document(document).unwrap().sensitive_handle;
    locker
        .create_share_session(
            CreateShareSession { user: ALICE, document },
            BOB,
            600,
            1000,
            Some(501),
        )
        .unwrap();
    locker
        .create_share_session(
            CreateShareSession { user: ALICE, document },
            CAROL,
            600,
            1000,
            Some(502),
        )
        .unwrap();
    let for_bob = locker.get_session(session_key(document, BOB)).unwrap().derived_handle;
    let for_carol = locker.get_session(session_key(document, CAROL)).unwrap().derived_handle;
    assert_ne!(for_bob, for_carol);
    assert_ne!(for_bob, source_handle);
    assert_ne!(for_carol, source_handle);
}

#[test]
fn duplicate_session_is_refused_and_original_kept() {
    let document = doc_key(ALICE, 0);
    let mut locker = locker_with_one_document();
    locker
        .create_share_session(
            CreateShareSession { user: ALICE, document },
            CAROL,
            3600,
            1000,
            Some(501),
        )
        .unwrap();
    let original: ShareSession = *locker.get_session(session_key(document, CAROL)).unwrap();
    assert_eq!(
        locker.create_share_session(
            CreateShareSession { user: ALICE, document },
            CAROL,
            60,
            2000,
            Some(777)
        ),
        Err(ErrorCode::SessionAlreadyExists)
    );
    let kept: ShareSession = *locker.get_session(session_key(document, CAROL)).unwrap();
    assert_eq!(kept, original);
}

#[test]
fn revoke_is_owner_only_one_way_and_idempotent() {
    let document = doc_key(ALICE, 0);
    let key = session_key(document, CAROL);
    let mut locker = locker_with_one_document();
    locker
        .create_share_session(
            CreateShareSession { user: ALICE, document },
            CAROL,
            3600,
            1000,
            Some(501),
        )
        .unwrap();

    assert_eq!(
        locker.revoke_share_session(RevokeShareSession { user: CAROL, session: key }),
        Err(ErrorCode::Unauthorized)
    );
    assert!(!locker.get_session(key).unwrap().revoked);

    assert_eq!(
        locker.revoke_share_session(RevokeShareSession { user: ALICE, session: key }),
        Ok(())
    );
    assert!(locker.get_session(key).unwrap().revoked);

    assert_eq!(
        locker.revoke_share_session(RevokeShareSession { user: ALICE, session: key }),
        Ok(())
    );
    assert!(locker.get_session(key).unwrap().revoked);
}

#[test]
fn accessibility_needs_unexpired_and_unrevoked() {
    let base = ShareSession {
        owner: ALICE,
        document: doc_key(ALICE, 0),
        verifier: CAROL,
        expires_at: 500,
        revoked: false,
        derived_handle: 501,
    };
    assert!(base.is_accessible(499));
    assert!(!base.is_accessible(500));
    assert!(!base.is_accessible(501));
    let revoked = ShareSession { revoked: true, ..base };
    assert!(!revoked.is_accessible(499));
    assert!(!revoked.is_accessible(500));
    assert!(!revoked.is_accessible(501));
}

#[test]
fn end_to_end_share_lifecycle() {
    let mut locker = Locker::new();
    locker.initialize_user(InitializeUser { user: ALICE }).unwrap();
    assert_eq!(locker.get_profile(ALICE).unwrap().document_count, 0);

    locker
        .upload_document(
            UploadDocument { user: ALICE },
            "abc123".to_string(),
            "uri://blob".to_string(),
            0,
            Some(500),
        )
        .unwrap();
    assert_eq!(locker.get_profile(ALICE).unwrap().document_count, 1);

    let document = doc_key(ALICE, 0);
    let key = session_key(document, BOB);
    let now: i64 = 1000;
    locker
        .create_share_session(
            CreateShareSession { user: ALICE, document },
            BOB,
            3600,
            now,
            Some(501),
        )
        .unwrap();
    assert!(locker.get_session(key).unwrap().is_accessible(now));
    assert!(!locker.get_session(key).unwrap().is_accessible(now + 3600));
    assert!(!locker.get_session(key).unwrap().is_accessible(now + 9999));

    // in a separate run the owner revokes before expiry instead
    let mut locker2 = locker;
    locker2
        .revoke_share_session(RevokeShareSession { user: ALICE, session: key })
        .unwrap();
    assert!(!locker2.get_session(key).unwrap().is_accessible(now + 1));
    assert!(!locker2.get_session(key).unwrap().is_accessible(now + 100_000));
}

#[test]
fn separate_users_count_independently() {
    let mut locker = Locker::new();
    locker.initialize_user(InitializeUser { user: ALICE }).unwrap();
    locker.initialize_user(InitializeUser { user: BOB }).unwrap();
    locker
        .upload_document(
            UploadDocument { user: ALICE },
            "fp-a".to_string(),
            "uri-a".to_string(),
            5,
            Some(900),
        )
        .unwrap();
    assert_eq!(locker.get_profile(ALICE).unwrap().document_count, 1);
    assert_eq!(locker.get_profile(BOB).unwrap().document_count, 0);
    assert!(locker.get_document(doc_key(BOB, 0)).is_none());
}
