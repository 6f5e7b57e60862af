use merodocs::agreement::{DaoAgreement, DaoMilestone, DocumentRef};
use merodocs::error::Error;
use merodocs::ids::UserId;
use merodocs::milestone::{MilestoneStatus, MilestoneType};

fn user(n: u8) -> UserId {
    UserId([n; 32])
}

fn milestone(id: u64, amount: u128, t: MilestoneType) -> DaoMilestone {
    DaoMilestone {
        id,
        title: format!("m{}", id),
        description: String::new(),
        milestone_type: t,
        recipient: user(9),
        amount,
        status: MilestoneStatus::Pending,
        votes: Vec::new(),
        created_at: 0,
        completed_at: None,
    }
}

fn agreement(total: u128, ms: Vec<DaoMilestone>, docs: Vec<DocumentRef>) -> Result<DaoAgreement, Error> {
    DaoAgreement::create(
        "a1".to_string(),
        "Agreement".to_string(),
        String::new(),
        user(1),
        &vec![user(2), user(3), user(4), user(5)],
        docs,
        ms,
        60,
        total,
        100,
    )
}

fn approved_agreement(total: u128, amount: u128) -> DaoAgreement {
    let mut a = agreement(total, vec![milestone(1, amount, MilestoneType::ManualApproval)], Vec::new()).unwrap();
    assert_eq!(a.advance_ready_milestones(100), vec![1]);
    for v in [1u8, 2, 3] {
        a.vote(1, user(v), true, 101).unwrap();
    }
    assert_eq!(a.milestones[0].status, MilestoneStatus::Approved);
    a
}

#[test]
fn milestones_over_the_funding_are_refused() {
    let ms = vec![milestone(1, 100, MilestoneType::ManualApproval), milestone(2, 50, MilestoneType::ManualApproval)];
    assert_eq!(agreement(100, ms, Vec::new()).unwrap_err(), Error::InvalidInput);
}

#[test]
fn milestones_within_the_funding_are_accepted() {
    let ms = vec![milestone(1, 60, MilestoneType::ManualApproval), milestone(2, 40, MilestoneType::ManualApproval)];
    let a = agreement(100, ms, Vec::new()).unwrap();
    assert_eq!(a.total_funding, 100);
    assert_eq!(a.remaining_balance, 0);
    assert_eq!(a.participants.len(), 4);
}

#[test]
fn bad_terms_are_refused() {
    let ms = || vec![milestone(1, 10, MilestoneType::ManualApproval)];
    assert_eq!(agreement(0, ms(), Vec::new()).unwrap_err(), Error::InvalidInput);
    assert_eq!(agreement(100, Vec::new(), Vec::new()).unwrap_err(), Error::InvalidInput);
    let dup = vec![milestone(1, 10, MilestoneType::ManualApproval), milestone(1, 10, MilestoneType::ManualApproval)];
    assert_eq!(agreement(100, dup, Vec::new()).unwrap_err(), Error::InvalidInput);
    let r = DaoAgreement::create(
        "a".to_string(), "t".to_string(), String::new(), user(1), &Vec::new(), Vec::new(), ms(), 49, 100, 0,
    );
    assert_eq!(r.unwrap_err(), Error::InvalidInput);
    let r = DaoAgreement::create(
        String::new(), "t".to_string(), String::new(), user(1), &Vec::new(), Vec::new(), ms(), 60, 100, 0,
    );
    assert_eq!(r.unwrap_err(), Error::InvalidInput);
}

#[test]
fn funding_adds_to_total_and_balance() {
    let mut a = agreement(100, vec![milestone(1, 10, MilestoneType::ManualApproval)], Vec::new()).unwrap();
    assert_eq!(a.fund(user(2), 0), Err(Error::InvalidAmount));
    assert_eq!(a.fund(user(8), 5), Err(Error::Unauthorized));
    assert_eq!(a.fund(user(2), 50), Ok(()));
    assert_eq!(a.total_funding, 150);
    assert_eq!(a.remaining_balance, 50);
    assert!(a.remaining_balance <= a.total_funding);
    assert_eq!(a.fund(user(1), u128::MAX), Err(Error::Overflow));
    assert_eq!(a.total_funding, 150);
}

#[test]
fn voting_needs_an_open_milestone() {
    let mut a = agreement(100, vec![milestone(1, 10, MilestoneType::ManualApproval)], Vec::new()).unwrap();
    assert_eq!(a.vote(1, user(2), true, 1), Err(Error::NotReady));
    assert_eq!(a.vote(7, user(2), true, 1), Err(Error::NotFound));
    assert_eq!(a.vote(1, user(8), true, 1), Err(Error::Unauthorized));
}

#[test]
fn second_concurrent_execution_is_refused() {
    let mut a = approved_agreement(100, 60);
    a.fund(user(1), 100).unwrap();
    let order = a.begin_execution(1).unwrap();
    assert_eq!(order, (user(9), 60));
    assert_eq!(a.remaining_balance, 40);
    assert_eq!(a.milestones[0].status, MilestoneStatus::Executing);
    assert_eq!(a.begin_execution(1), Err(Error::NotApproved));
    assert_eq!(a.finish_execution(1, 500), Ok(()));
    assert_eq!(a.milestones[0].status, MilestoneStatus::Executed);
    assert_eq!(a.milestones[0].completed_at, Some(500));
    assert_eq!(a.remaining_balance, 40);
    assert_eq!(a.begin_execution(1), Err(Error::NotApproved));
}

#[test]
fn failed_transfer_restores_the_milestone() {
    let mut a = approved_agreement(100, 60);
    a.fund(user(1), 80).unwrap();
    a.begin_execution(1).unwrap();
    assert_eq!(a.remaining_balance, 20);
    assert_eq!(a.abort_execution(1), Ok(()));
    assert_eq!(a.milestones[0].status, MilestoneStatus::Approved);
    assert_eq!(a.remaining_balance, 80);
    assert_eq!(a.abort_execution(1), Err(Error::NotReady));
}

#[test]
fn execution_needs_the_balance() {
    let mut a = approved_agreement(100, 60);
    a.fund(user(1), 50).unwrap();
    assert_eq!(a.begin_execution(1), Err(Error::InsufficientBalance));
    assert_eq!(a.execute_now(1, 9), Err(Error::InsufficientBalance));
    a.fund(user(1), 10).unwrap();
    assert_eq!(a.execute_now(1, 9), Ok(()));
    assert_eq!(a.remaining_balance, 0);
    assert_eq!(a.milestones[0].completed_at, Some(9));
}

#[test]
fn conditions_follow_documents_and_time() {
    let doc = DocumentRef {
        doc_id: "d1".to_string(),
        title: "Doc".to_string(),
        required_signers: vec![user(2), user(3)],
        current_signers: Vec::new(),
        is_signed_by_all: false,
    };
    let ms = vec![
        milestone(1, 10, MilestoneType::DocumentSignature { required_doc_id: "d1".to_string() }),
        milestone(2, 10, MilestoneType::TimeRelease { release_time: 1000 }),
        milestone(3, 10, MilestoneType::MultiCondition {
            required_docs: vec!["d1".to_string()],
            requires_vote: true,
            min_time: Some(50),
        }),
    ];
    let mut a = agreement(100, ms, vec![doc]).unwrap();
    assert!(!a.check_milestone_conditions(1, 0));
    assert!(a.check_milestone_conditions(2, 1000));
    assert!(!a.check_milestone_conditions(2, 999));
    assert_eq!(a.sign_document(&"d1".to_string(), user(8), 10), Err(Error::Unauthorized));
    assert_eq!(a.sign_document(&"d1".to_string(), user(2), 10), Ok(Vec::new()));
    assert_eq!(a.sign_document(&"d1".to_string(), user(2), 10), Err(Error::AlreadySigned));
    assert_eq!(a.sign_document(&"dx".to_string(), user(2), 10), Err(Error::NotFound));
    assert_eq!(a.sign_document(&"d1".to_string(), user(3), 60), Ok(vec![1, 3]));
    assert!(a.documents[0].is_signed_by_all);
    assert_eq!(a.milestones[0].status, MilestoneStatus::Approved);
    assert_eq!(a.milestones[1].status, MilestoneStatus::Pending);
    assert_eq!(a.milestones[2].status, MilestoneStatus::ReadyForVoting);
    let info = a.voting_info(3).unwrap();
    assert_eq!(info.total_participants, 5);
    assert_eq!(info.required_votes, 3);
    assert_eq!(info.approval_votes, 0);
}

#[test]
fn adding_milestones_and_participants() {
    let mut a = agreement(100, vec![milestone(1, 10, MilestoneType::ManualApproval)], Vec::new()).unwrap();
    assert_eq!(a.add_milestone(milestone(1, 5, MilestoneType::ManualApproval)), Err(Error::AlreadyExists));
    assert_eq!(a.add_milestone(milestone(2, 5, MilestoneType::ManualApproval)), Ok(()));
    assert_eq!(a.milestones.len(), 2);
    assert_eq!(a.add_participant(user(2)), Err(Error::AlreadyExists));
    assert_eq!(a.add_participant(user(6)), Ok(()));
    assert_eq!(a.participants.len(), 5);
}
