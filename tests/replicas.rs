use merodocs::ids::UserId;
use merodocs::merge::{lookup_consent, lookup_vote, merge_consents, merge_document, merge_signatures, merge_votes};
use merodocs::merodocs::{
    ConsentRecord, DocumentInfo, DocumentSignature, DocumentStatus, MeroDocsState, ParticipantInfo, PermissionLevel,
};
use merodocs::agreement::{DaoAgreement, DaoMilestone};
use merodocs::error::Error;
use merodocs::milestone::{MilestoneStatus, MilestoneType, Vote};

fn user(n: u8) -> UserId {
    UserId([n; 32])
}

fn consent(n: u8, doc: &str, c: bool) -> ConsentRecord {
    ConsentRecord { user_id: user(n), document_id: doc.to_string(), consented: c }
}

fn sig(n: u8, at: u64) -> DocumentSignature {
    DocumentSignature { signer: user(n), signed_at: at }
}

fn doc(hash: &str, at: u64, sigs: Vec<DocumentSignature>) -> DocumentInfo {
    DocumentInfo {
        id: "doc_1".to_string(),
        name: "Contract".to_string(),
        hash: hash.to_string(),
        uploaded_by: user(1),
        uploaded_at: 1,
        status: DocumentStatus::Pending,
        pdf_blob_id: [0u8; 32],
        size: 10,
        signatures: sigs,
        updated_at: at,
    }
}

#[test]
fn consents_merge_by_or() {
    let a = vec![consent(1, "d", true), consent(2, "d", false)];
    let b = vec![consent(2, "d", true), consent(3, "e", false)];
    let ab = merge_consents(&a, &b);
    let ba = merge_consents(&b, &a);
    for (n, d, expect) in [(1u8, "d", Some(true)), (2, "d", Some(true)), (3, "e", Some(false)), (4, "d", None)] {
        assert_eq!(lookup_consent(&ab, user(n), &d.to_string()), expect);
        assert_eq!(lookup_consent(&ba, user(n), &d.to_string()), expect);
    }
    let again = merge_consents(&ab, &b);
    assert_eq!(lookup_consent(&again, user(2), &"d".to_string()), Some(true));
}

#[test]
fn votes_merge_by_latest() {
    let a = vec![Vote { voter: user(1), approve: true, cast_at: 5 }, Vote { voter: user(2), approve: true, cast_at: 1 }];
    let b = vec![Vote { voter: user(1), approve: false, cast_at: 3 }, Vote { voter: user(2), approve: false, cast_at: 4 }];
    let ab = merge_votes(&a, &b);
    let ba = merge_votes(&b, &a);
    assert_eq!(ab.len(), 2);
    for m in [&ab, &ba] {
        assert!(lookup_vote(m, &user(1)).unwrap().approve);
        assert!(!lookup_vote(m, &user(2)).unwrap().approve);
    }
    let tie_a = vec![Vote { voter: user(3), approve: true, cast_at: 7 }];
    let tie_b = vec![Vote { voter: user(3), approve: false, cast_at: 7 }];
    assert!(!lookup_vote(&merge_votes(&tie_a, &tie_b), &user(3)).unwrap().approve);
    assert!(!lookup_vote(&merge_votes(&tie_b, &tie_a), &user(3)).unwrap().approve);
}

#[test]
fn signatures_survive_a_concurrent_content_change() {
    let ps = vec![
        ParticipantInfo { user_id: user(1), permission_level: PermissionLevel::Admin },
        ParticipantInfo { user_id: user(2), permission_level: PermissionLevel::Sign },
    ];
    let signed_here = doc("old", 10, vec![sig(1, 10)]);
    let changed_there = doc("new", 20, vec![sig(2, 12)]);
    let m1 = merge_document(&signed_here, &changed_there, &ps);
    let m2 = merge_document(&changed_there, &signed_here, &ps);
    for m in [&m1, &m2] {
        assert_eq!(m.hash, "new");
        assert_eq!(m.updated_at, 20);
        assert_eq!(m.signatures.len(), 2);
        assert_eq!(m.status, DocumentStatus::FullySigned);
    }
    let sigs = merge_signatures(&vec![sig(1, 1)], &vec![sig(1, 2), sig(3, 3)]);
    assert_eq!(sigs.len(), 2);
}

const BLOB_ONES: &str = "4vJ9JU1bJJE96FWSJKvHsmmFADCg4gpZQff4P3bkLKi";
const BLOB_RANGE: &str = "1thX6LZfHDZZKUs92febYZhYRcXddmzfzF2NvTkPNE";

/// A shared context with one document, as every replica starts.
fn replica() -> MeroDocsState {
    let mut st = MeroDocsState::init(false, "team".to_string(), user(1));
    st.add_participant(user(2), PermissionLevel::Sign).unwrap();
    st.upload_document("doc_1".to_string(), "Contract".to_string(), "h0".to_string(), BLOB_ONES, 10, 1).unwrap();
    st
}

/// The first replica: user 2 signs.
fn first_branch() -> MeroDocsState {
    let mut st = replica();
    st.set_consent(user(2), &"doc_1".to_string()).unwrap();
    st.sign_document(&"doc_1".to_string(), BLOB_RANGE, 11, "h-r1".to_string(), user(2), 5).unwrap();
    st
}

/// The second replica: user 1 signs later, and a second document is uploaded.
fn second_branch() -> MeroDocsState {
    let mut st = replica();
    st.set_consent(user(1), &"doc_1".to_string()).unwrap();
    st.sign_document(&"doc_1".to_string(), BLOB_RANGE, 12, "h-r2".to_string(), user(1), 7).unwrap();
    st.upload_document("doc_2".to_string(), "Annex".to_string(), "h9".to_string(), BLOB_ONES, 3, 8).unwrap();
    st
}

#[test]
fn replicas_converge_after_merging_both_ways() {
    let mut a = first_branch();
    a.merge_replica(&second_branch());
    let mut b = second_branch();
    b.merge_replica(&first_branch());
    for st in [&a, &b] {
        let d1 = st.documents.iter().find(|d| d.id == "doc_1").unwrap();
        assert_eq!(d1.hash, "h-r2");
        assert_eq!(d1.size, 12);
        assert_eq!(d1.signatures.len(), 2);
        assert_eq!(d1.status, DocumentStatus::FullySigned);
        assert!(st.documents.iter().any(|d| d.id == "doc_2"));
        assert!(st.has_consented(user(2), &"doc_1".to_string()));
        assert!(st.has_consented(user(1), &"doc_1".to_string()));
    }
    let once = a.documents.len();
    a.merge_replica(&b);
    assert_eq!(a.documents.len(), once);
    assert_eq!(a.documents[0].signatures.len(), 2);
    assert_eq!(a.documents[0].hash, "h-r2");
}


fn milestone(status: MilestoneStatus) -> DaoMilestone {
    DaoMilestone {
        id: 1,
        title: "m".to_string(),
        description: String::new(),
        milestone_type: MilestoneType::ManualApproval,
        recipient: user(9),
        amount: 10,
        status,
        votes: Vec::new(),
        created_at: 0,
        completed_at: None,
    }
}

#[test]
fn milestone_status_is_decided_from_the_joined_votes() {
    let mut a = DaoAgreement::create(
        "a1".to_string(),
        "T".to_string(),
        String::new(),
        user(1),
        &vec![user(2), user(3), user(4), user(5)],
        Vec::new(),
        vec![milestone(MilestoneStatus::Pending)],
        60,
        100,
        0,
    )
    .unwrap();
    a.advance_ready_milestones(1);
    a.vote(1, user(1), true, 2).unwrap();
    a.vote(1, user(2), true, 3).unwrap();
    assert_eq!(a.milestones[0].status, MilestoneStatus::VotingActive);
    let remote = vec![Vote { voter: user(3), approve: true, cast_at: 4 }, Vote { voter: user(2), approve: false, cast_at: 1 }];
    assert_eq!(a.merge_milestone_votes(1, &remote), Ok(MilestoneStatus::Approved));
    assert_eq!(a.milestones[0].votes.len(), 3);
    assert!(lookup_vote(&a.milestones[0].votes, &user(2)).unwrap().approve);
    assert_eq!(a.merge_milestone_votes(7, &remote), Err(Error::NotFound));
}

#[test]
fn versions_written_at_the_same_time_merge_the_same_both_ways() {
    let ps = vec![ParticipantInfo { user_id: user(1), permission_level: PermissionLevel::Admin }];
    let x = doc("hash-b", 10, vec![sig(1, 10)]);
    let y = doc("hash-a", 10, Vec::new());
    let xy = merge_document(&x, &y, &ps);
    let yx = merge_document(&y, &x, &ps);
    assert_eq!(xy.hash, "hash-b");
    assert_eq!(yx.hash, "hash-b");
    assert_eq!(xy.signatures.len(), 1);
    assert_eq!(yx.signatures.len(), 1);
}

#[test]
fn replica_merge_joins_milestone_votes() {
    let make = || {
        let mut st = MeroDocsState::init(false, "team".to_string(), user(1));
        st.initialize_dao_context().unwrap();
        st.create_dao_agreement(
            user(1),
            "a1".to_string(),
            "T".to_string(),
            &vec![user(2), user(3), user(4), user(5)],
            vec![milestone(MilestoneStatus::Pending)],
            60,
            100,
            0,
        )
        .unwrap();
        st.dao_agreements[0].advance_ready_milestones(1);
        st
    };
    let mut r1 = make();
    let mut r2 = make();
    r1.vote_on_milestone(user(1), &"a1".to_string(), 1, true, 2).unwrap();
    r1.vote_on_milestone(user(2), &"a1".to_string(), 1, true, 3).unwrap();
    r2.vote_on_milestone(user(3), &"a1".to_string(), 1, true, 4).unwrap();
    let r2_copy = {
        let mut c = make();
        c.vote_on_milestone(user(3), &"a1".to_string(), 1, true, 4).unwrap();
        c
    };
    r2.merge_replica(&r1);
    r1.merge_replica(&r2_copy);
    for st in [&r1, &r2] {
        let m = &st.dao_agreements[0].milestones[0];
        assert_eq!(m.votes.len(), 3);
        assert_eq!(m.status, MilestoneStatus::Approved);
    }
}
