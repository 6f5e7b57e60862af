use merodocs::error::Error;
use merodocs::merodocs::DocumentStatus;
use merodocs::registry::{
    validate_hash, validate_id, AuditAction, AuditEntry, AuditTrail, CreateContextRequest, DocumentUploadRequest, Registry,
    SigningRequest, VerificationStatus,
};

const HASH_A: &str = "aa00000000000000000000000000000000000000000000000000000000000001";
const HASH_B: &str = "BB00000000000000000000000000000000000000000000000000000000000002";

fn s(x: &str) -> String {
    x.to_string()
}

fn setup() -> Registry {
    let mut r = Registry::new();
    let req = CreateContextRequest {
        context_id: s("ctx-1"),
        participants: vec![s("bob")],
        title: Some(s("Lease")),
        description: None,
        agreement_type: None,
        expires_at: None,
    };
    assert_eq!(r.create_context(&s("alice"), 10, req), Ok(()));
    let up = DocumentUploadRequest { context_id: s("ctx-1"), document_id: s("doc_1"), document_hash: s(HASH_A) };
    assert_eq!(r.upload_document_to_context(&s("alice"), 11, up), Ok(()));
    r
}

fn sign(r: &mut Registry, who: &str) -> Result<(), Error> {
    r.sign_document(&s(who), 20, SigningRequest { document_id: s("doc_1"), consent_acknowledged: true })
}

#[test]
fn ids_are_checked() {
    assert_eq!(validate_id("abc-DEF_9"), Ok(()));
    assert_eq!(validate_id(""), Err(Error::InvalidInput));
    assert_eq!(validate_id("a b"), Err(Error::InvalidInput));
    assert_eq!(validate_id("a/b"), Err(Error::InvalidInput));
    assert_eq!(validate_id(&"x".repeat(128)), Ok(()));
    assert_eq!(validate_id(&"x".repeat(129)), Err(Error::InvalidInput));
}

#[test]
fn hashes_are_checked() {
    assert_eq!(validate_hash(HASH_A), Ok(()));
    assert_eq!(validate_hash(HASH_B), Ok(()));
    assert_eq!(validate_hash(&HASH_A[..63]), Err(Error::InvalidInput));
    let bad = format!("g{}", &HASH_A[1..]);
    assert_eq!(validate_hash(&bad), Err(Error::InvalidInput));
}

#[test]
fn audit_trail_appends() {
    let mut t = AuditTrail::new();
    assert_eq!(t.get_entries().len(), 0);
    let r = setup();
    let entries = r.get_audit_trail(&s("ctx-1")).unwrap();
    assert_eq!(entries.len(), 2);
    assert_eq!(entries[0].action, AuditAction::ContextCreated);
    assert_eq!(entries[1].action, AuditAction::DocumentUploaded);
    t.add_entry(entries[0].clone());
    assert_eq!(t.get_entries().len(), 1);
}

#[test]
fn contexts_and_participants() {
    let mut r = setup();
    let again = CreateContextRequest {
        context_id: s("ctx-1"),
        participants: Vec::new(),
        title: None,
        description: None,
        agreement_type: None,
        expires_at: None,
    };
    assert_eq!(r.create_context(&s("carol"), 12, again), Err(Error::AlreadyExists));
    assert_eq!(r.add_participant_to_context(&s("bob"), 13, &s("ctx-1"), &s("carol")), Err(Error::Unauthorized));
    assert_eq!(r.add_participant_to_context(&s("alice"), 13, &s("ctx-1"), &s("bob")), Err(Error::AlreadyExists));
    assert_eq!(r.add_participant_to_context(&s("alice"), 13, &s("nope"), &s("carol")), Err(Error::NotFound));
    assert_eq!(r.add_participant_to_context(&s("alice"), 13, &s("ctx-1"), &s("carol")), Ok(()));
    assert!(r.is_context_participant(&s("ctx-1"), &s("carol")));
    assert!(r.is_user_context_participant(&s("ctx-1"), &s("alice")));
    assert!(!r.is_context_participant(&s("ctx-1"), &s("dave")));
    assert_eq!(r.get_context(&s("ctx-1")).unwrap().participants.len(), 2);
    assert_eq!(r.get_context(&s("ctx 1")).unwrap_err(), Error::InvalidInput);
    assert_eq!(r.get_context(&s("ctx-2")).unwrap_err(), Error::NotFound);
}

#[test]
fn signing_needs_consent() {
    let mut r = setup();
    let no_ack = r.sign_document(&s("bob"), 20, SigningRequest { document_id: s("doc_1"), consent_acknowledged: false });
    assert_eq!(no_ack, Err(Error::ConsentRequired));
    assert_eq!(sign(&mut r, "bob"), Err(Error::ConsentRequired));
    assert_eq!(sign(&mut r, "eve"), Err(Error::Unauthorized));
    assert_eq!(r.record_consent_for_context(&s("eve"), 15, &s("ctx-1"), &s("doc_1")), Err(Error::Unauthorized));
    assert_eq!(r.record_consent_for_context(&s("bob"), 15, &s("ctx-1"), &s("doc_9")), Err(Error::NotFound));
    assert_eq!(r.record_consent_for_context(&s("bob"), 15, &s("ctx-1"), &s("doc_1")), Ok(()));
    assert!(r.has_user_given_consent(&s("ctx-1"), &s("bob"), &s("doc_1")));
    assert!(r.has_user_consented(&s("ctx-1"), &s("bob"), &s("doc_1")));
    assert!(!r.has_user_given_consent(&s("ctx-1"), &s("alice"), &s("doc_1")));
    assert_eq!(sign(&mut r, "bob"), Ok(()));
    assert_eq!(sign(&mut r, "bob"), Err(Error::AlreadySigned));
    assert_eq!(r.get_document(&s("doc_1")).unwrap().document_status, DocumentStatus::PartiallySigned);
}

#[test]
fn consent_twice_keeps_consent() {
    let mut r = setup();
    assert_eq!(r.record_consent_for_context(&s("bob"), 15, &s("ctx-1"), &s("doc_1")), Ok(()));
    assert_eq!(r.record_consent_for_context(&s("bob"), 16, &s("ctx-1"), &s("doc_1")), Ok(()));
    assert!(r.has_user_given_consent(&s("ctx-1"), &s("bob"), &s("doc_1")));
}

#[test]
fn everyone_signing_completes_the_document() {
    let mut r = setup();
    r.record_consent_for_context(&s("bob"), 15, &s("ctx-1"), &s("doc_1")).unwrap();
    r.record_consent_for_context(&s("alice"), 15, &s("ctx-1"), &s("doc_1")).unwrap();
    sign(&mut r, "bob").unwrap();
    sign(&mut r, "alice").unwrap();
    let d = r.get_document(&s("doc_1")).unwrap();
    assert_eq!(d.document_status, DocumentStatus::FullySigned);
    assert_eq!(d.timestamp_final, Some(20));
    let trail = r.get_audit_trail(&s("ctx-1")).unwrap();
    let last = &trail[trail.len() - 1];
    assert_eq!(last.action, AuditAction::DocumentCompleted);
    assert_eq!(last.user_id, "system");
    assert_eq!(trail[trail.len() - 2].action, AuditAction::SignatureApplied);
}

#[test]
fn final_hash_is_recorded_once() {
    let mut r = setup();
    assert_eq!(r.verify_document_hash(&s("doc_1"), &s(HASH_A)), VerificationStatus::OriginalMatch);
    assert_eq!(r.verify_document_hash(&s("doc_1"), &s(HASH_B)), VerificationStatus::NoMatch);
    assert_eq!(r.verify_document_hash(&s("doc_2"), &s(HASH_B)), VerificationStatus::Unrecorded);
    assert_eq!(r.verify_document_hash(&s("doc_1"), &s("xyz")), VerificationStatus::Unrecorded);
    assert_eq!(r.record_final_hash(&s("bob"), 30, &s("doc_1"), &s(HASH_B)), Err(Error::Unauthorized));
    assert_eq!(r.record_final_hash(&s("alice"), 30, &s("doc_1"), &s(HASH_B)), Ok(()));
    assert_eq!(r.record_final_hash(&s("alice"), 31, &s("doc_1"), &s(HASH_B)), Err(Error::AlreadyExists));
    assert_eq!(r.verify_document_hash(&s("doc_1"), &s(HASH_B)), VerificationStatus::FinalMatch);
}

#[test]
fn uploads_are_checked() {
    let mut r = setup();
    let dup = DocumentUploadRequest { context_id: s("ctx-1"), document_id: s("doc_1"), document_hash: s(HASH_A) };
    assert_eq!(r.upload_document_to_context(&s("alice"), 12, dup), Err(Error::AlreadyExists));
    let not_admin = DocumentUploadRequest { context_id: s("ctx-1"), document_id: s("doc_2"), document_hash: s(HASH_A) };
    assert_eq!(r.upload_document_to_context(&s("bob"), 12, not_admin), Err(Error::Unauthorized));
    let bad_hash = DocumentUploadRequest { context_id: s("ctx-1"), document_id: s("doc_2"), document_hash: s("00") };
    assert_eq!(r.upload_document_to_context(&s("alice"), 12, bad_hash), Err(Error::InvalidInput));
}

#[test]
fn queries_by_context_and_document() {
    let mut r = setup();
    let up = DocumentUploadRequest { context_id: s("ctx-1"), document_id: s("doc_2"), document_hash: s(HASH_B) };
    r.upload_document_to_context(&s("alice"), 12, up).unwrap();
    r.record_consent_for_context(&s("bob"), 15, &s("ctx-1"), &s("doc_2")).unwrap();
    r.record_consent_for_context(&s("bob"), 16, &s("ctx-1"), &s("doc_1")).unwrap();
    let docs = r.get_context_documents(&s("ctx-1")).unwrap();
    assert_eq!(docs.len(), 2);
    assert_eq!(docs[0].document_id, "doc_1");
    assert_eq!(docs[1].document_id, "doc_2");
    assert_eq!(r.get_context_documents(&s("ctx-9")).unwrap_err(), Error::NotFound);
    let about = r.get_audit_trail_for_document(&s("ctx-1"), &s("doc_2")).unwrap();
    assert_eq!(about.len(), 2);
    assert_eq!(about[0].action, AuditAction::DocumentUploaded);
    assert_eq!(about[1].action, AuditAction::ConsentGiven);
    assert_eq!(r.get_audit_trail_for_document(&s("ctx-9"), &s("doc_2")).unwrap().len(), 0);
    let (required, consented, statuses) = r.get_context_signing_progress(&s("ctx-1")).unwrap();
    assert_eq!(required, vec![s("alice"), s("bob")]);
    assert_eq!(consented, vec![s("bob")]);
    assert_eq!(statuses, vec![(s("doc_1"), DocumentStatus::Pending), (s("doc_2"), DocumentStatus::Pending)]);
}

#[test]
fn a_new_participant_reopens_a_fully_signed_document() {
    let mut r = setup();
    r.record_consent_for_context(&s("bob"), 15, &s("ctx-1"), &s("doc_1")).unwrap();
    r.record_consent_for_context(&s("alice"), 15, &s("ctx-1"), &s("doc_1")).unwrap();
    sign(&mut r, "bob").unwrap();
    sign(&mut r, "alice").unwrap();
    assert_eq!(r.get_document(&s("doc_1")).unwrap().document_status, DocumentStatus::FullySigned);
    r.add_participant_to_context(&s("alice"), 21, &s("ctx-1"), &s("dave")).unwrap();
    assert_eq!(r.get_document(&s("doc_1")).unwrap().document_status, DocumentStatus::PartiallySigned);
    r.record_consent_for_context(&s("dave"), 22, &s("ctx-1"), &s("doc_1")).unwrap();
    sign(&mut r, "dave").unwrap();
    assert_eq!(r.get_document(&s("doc_1")).unwrap().document_status, DocumentStatus::FullySigned);
}

#[test]
fn entries_for_an_unknown_context_begin_its_trail() {
    let mut r = Registry::new();
    let entry = AuditEntry {
        entry_id: 1,
        user_id: s("carol"),
        action: AuditAction::ParticipantAdded,
        timestamp: 1,
        context_id: s("ctx-9"),
        document_id: None,
        consent_given: None,
        document_hash_after_action: None,
    };
    r.add_audit_entry(&s("ctx-9"), entry);
    assert_eq!(r.get_audit_trail(&s("ctx-9")).unwrap().len(), 1);
    let req = CreateContextRequest {
        context_id: s("ctx-9"),
        participants: Vec::new(),
        title: None,
        description: None,
        agreement_type: None,
        expires_at: None,
    };
    r.create_context(&s("alice"), 2, req).unwrap();
    let trail = r.get_audit_trail(&s("ctx-9")).unwrap();
    assert_eq!(trail.len(), 2);
    assert_eq!(trail[0].action, AuditAction::ParticipantAdded);
    assert_eq!(trail[1].action, AuditAction::ContextCreated);
}
