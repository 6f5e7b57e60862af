use merodocs::encoding::parse_blob_id_base58;
use merodocs::error::Error;
use merodocs::ids::UserId;
use merodocs::merodocs::{ContextType, DocumentStatus, MeroDocsState, PermissionLevel};

const BLOB_ONES: &str = "4vJ9JU1bJJE96FWSJKvHsmmFADCg4gpZQff4P3bkLKi";
const BLOB_RANGE: &str = "1thX6LZfHDZZKUs92febYZhYRcXddmzfzF2NvTkPNE";

fn user(n: u8) -> UserId {
    UserId([n; 32])
}

fn s(x: &str) -> String {
    x.to_string()
}

fn shared() -> MeroDocsState {
    let mut st = MeroDocsState::init(false, s("team"), user(1));
    st.add_participant(user(2), PermissionLevel::Sign).unwrap();
    st.add_participant(user(3), PermissionLevel::Sign).unwrap();
    st.upload_document(s("doc_1"), s("Contract"), s("h0"), BLOB_ONES, 100, 5).unwrap();
    st
}

fn consent_and_sign(st: &mut MeroDocsState, n: u8, at: u64) -> Result<(), Error> {
    st.set_consent(user(n), &s("doc_1"))?;
    st.sign_document(&s("doc_1"), BLOB_RANGE, 120, format!("h{}", n), user(n), at)
}

#[test]
fn blob_ids_decode_to_their_bytes() {
    assert_eq!(parse_blob_id_base58(BLOB_ONES), Ok([1u8; 32]));
    let mut range = [0u8; 32];
    for (i, b) in range.iter_mut().enumerate() {
        *b = i as u8;
    }
    assert_eq!(parse_blob_id_base58(BLOB_RANGE), Ok(range));
    assert_eq!(parse_blob_id_base58("7DUeBUtEcb7nujVZRJmeBju3X1mo6PpnWNtJ9EBhdY"), Err(Error::InvalidInput));
    assert_eq!(parse_blob_id_base58("0OIl"), Err(Error::InvalidInput));
}

#[test]
fn signing_needs_consent_first() {
    let mut st = shared();
    assert_eq!(st.sign_document(&s("doc_1"), BLOB_RANGE, 1, s("h"), user(2), 9), Err(Error::ConsentRequired));
    assert_eq!(st.set_consent(user(2), &s("doc_9")), Err(Error::NotFound));
    assert_eq!(consent_and_sign(&mut st, 2, 9), Ok(()));
    assert_eq!(st.sign_document(&s("doc_1"), BLOB_RANGE, 1, s("h"), user(2), 9), Err(Error::AlreadySigned));
    let d = &st.list_documents()[0];
    assert_eq!(d.status, DocumentStatus::PartiallySigned);
    assert_eq!(d.hash, "h2");
    assert_eq!(d.size, 120);
    assert_eq!(d.updated_at, 9);
    assert_eq!(st.get_document_signatures(&s("doc_1")).len(), 1);
    assert_eq!(st.mark_participant_signed(&s("doc_1"), user(2)), Ok(()));
    st.set_consent(user(3), &s("doc_1")).unwrap();
    assert_eq!(st.mark_participant_signed(&s("doc_1"), user(3)), Err(Error::NotReady));
}

#[test]
fn consent_twice_leaves_state_as_once() {
    let mut st = shared();
    st.set_consent(user(2), &s("doc_1")).unwrap();
    let once = st.consents.len();
    st.set_consent(user(2), &s("doc_1")).unwrap();
    assert_eq!(st.consents.len(), once);
    assert!(st.has_consented(user(2), &s("doc_1")));
    assert!(!st.has_consented(user(3), &s("doc_1")));
}

#[test]
fn new_signer_reopens_and_then_completes() {
    let mut st = shared();
    consent_and_sign(&mut st, 1, 10).unwrap();
    consent_and_sign(&mut st, 2, 11).unwrap();
    consent_and_sign(&mut st, 3, 12).unwrap();
    assert_eq!(st.documents[0].status, DocumentStatus::FullySigned);
    st.add_participant(user(4), PermissionLevel::Sign).unwrap();
    assert_eq!(st.documents[0].status, DocumentStatus::PartiallySigned);
    consent_and_sign(&mut st, 4, 13).unwrap();
    assert_eq!(st.documents[0].status, DocumentStatus::FullySigned);
}

#[test]
fn a_reader_does_not_reopen_a_document() {
    let mut st = shared();
    consent_and_sign(&mut st, 1, 10).unwrap();
    consent_and_sign(&mut st, 2, 11).unwrap();
    consent_and_sign(&mut st, 3, 12).unwrap();
    st.add_participant(user(5), PermissionLevel::Read).unwrap();
    assert_eq!(st.documents[0].status, DocumentStatus::FullySigned);
    assert_eq!(st.add_participant(user(5), PermissionLevel::Sign), Err(Error::AlreadyExists));
    assert_eq!(st.get_user_permission(user(5)), Ok(PermissionLevel::Read));
    assert_eq!(st.remove_participant(user(5)), Ok(()));
    assert_eq!(st.remove_participant(user(5)), Err(Error::NotFound));
    assert_eq!(st.list_participants(), vec![user(1), user(2), user(3)]);
}

#[test]
fn uploads_and_deletes() {
    let mut st = shared();
    assert_eq!(st.upload_document(s("doc_1"), s("x"), s("h"), BLOB_ONES, 1, 6), Err(Error::AlreadyExists));
    assert_eq!(st.upload_document(s("doc_2"), s("x"), s("h"), "not base58!", 1, 6), Err(Error::InvalidInput));
    assert_eq!(st.upload_document(s("doc_2"), s("x"), s("h"), BLOB_RANGE, 1, 6), Ok(()));
    assert_eq!(st.documents[1].status, DocumentStatus::Pending);
    assert_eq!(st.delete_document(&s("doc_1")), Ok(()));
    assert_eq!(st.delete_document(&s("doc_1")), Err(Error::NotFound));
    assert_eq!(st.list_documents().len(), 1);
    let details = st.get_context_details(s("ctx"), 77);
    assert_eq!(details.participant_count, 3);
    assert_eq!(details.document_count, 1);
}

#[test]
fn identity_mappings() {
    let mut private = MeroDocsState::init(true, s("default"), user(1));
    assert!(private.is_default_private_context());
    assert_eq!(private.join_shared_context(s("c1"), user(11), s("Team"), 3), Ok(()));
    assert_eq!(private.join_shared_context(s("c1"), user(12), s("Team"), 4), Err(Error::AlreadyJoined));
    assert_eq!(
        private.join_shared_context_with_type(s("c2"), user(12), s("Dao"), ContextType::DaoAgreement, 5),
        Ok(())
    );
    assert_eq!(private.get_shared_identity(&s("c1")), Ok(user(11)));
    assert_eq!(private.get_identity_mapping(&s("c2")).unwrap().private_identity, user(1));
    assert_eq!(private.resolve_private_identity(user(12)), Ok(Some(user(1))));
    assert_eq!(private.resolve_private_identity(user(13)), Ok(None));
    assert_eq!(private.leave_shared_context(&s("c1")), Ok(()));
    assert_eq!(private.leave_shared_context(&s("c1")), Err(Error::NotFound));
    assert_eq!(private.get_shared_identity(&s("c1")), Err(Error::NotFound));
    let shared = MeroDocsState::init(false, s("team"), user(1));
    assert_eq!(shared.resolve_private_identity(user(12)), Err(Error::WrongContextKind));
    assert!(!shared.is_default_private_context());
}

#[test]
fn private_signature_images() {
    let mut private = MeroDocsState::init(true, s("default"), user(1));
    assert_eq!(private.create_signature(s("sig"), BLOB_ONES, 10, 1), Ok(0));
    assert_eq!(private.create_signature(s("sig2"), BLOB_RANGE, 10, 2), Ok(1));
    assert_eq!(private.create_signature(s("bad"), "xyz0", 10, 2), Err(Error::InvalidInput));
    assert_eq!(private.list_signatures().unwrap().len(), 2);
    assert_eq!(private.delete_signature(0), Ok(()));
    assert_eq!(private.delete_signature(0), Err(Error::NotFound));
    let mut shared = MeroDocsState::init(false, s("team"), user(1));
    assert_eq!(shared.create_signature(s("sig"), BLOB_ONES, 10, 1), Err(Error::WrongContextKind));
}

#[test]
fn joined_contexts_are_listed_by_kind_then_name() {
    let mut private = MeroDocsState::init(true, s("default"), user(1));
    private.join_shared_context_with_type(s("c1"), user(11), s("zeta"), ContextType::DaoAgreement, 1).unwrap();
    private.join_shared_context(s("c2"), user(12), s("beta"), 2).unwrap();
    private.join_shared_context(s("c3"), user(13), s("alpha"), 3).unwrap();
    private.join_shared_context_with_type(s("c4"), user(14), s("alpha"), ContextType::DaoAgreement, 4).unwrap();
    let names: Vec<String> = private.list_joined_contexts().unwrap().iter().map(|c| c.context_name.clone()).collect();
    assert_eq!(names, vec![s("alpha"), s("beta"), s("alpha"), s("zeta")]);
    let shared = MeroDocsState::init(false, s("team"), user(1));
    assert_eq!(shared.list_joined_contexts().unwrap_err(), Error::WrongContextKind);
}
