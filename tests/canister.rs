use merodocs::agreement::{DaoMilestone, DocumentRef};
use merodocs::dao::{CanisterState, EventKind, ICRC1TransferError, ICRC1TransferResult};
use merodocs::error::Error;
use merodocs::ids::UserId;
use merodocs::milestone::{MilestoneStatus, MilestoneType};

fn user(n: u8) -> UserId {
    UserId([n; 32])
}

fn s(x: &str) -> String {
    x.to_string()
}

fn milestone(id: u64, amount: u128, t: MilestoneType) -> DaoMilestone {
    DaoMilestone {
        id,
        title: s("m"),
        description: s(""),
        milestone_type: t,
        recipient: user(9),
        amount,
        status: MilestoneStatus::Pending,
        votes: Vec::new(),
        created_at: 0,
        completed_at: None,
    }
}

fn state() -> CanisterState {
    let mut st = CanisterState::init(user(100), vec![7]);
    let doc = DocumentRef {
        doc_id: s("d1"),
        title: s("Deed"),
        required_signers: vec![user(1), user(2)],
        current_signers: Vec::new(),
        is_signed_by_all: false,
    };
    let ms = vec![milestone(1, 40, MilestoneType::DocumentSignature { required_doc_id: s("d1") })];
    st.create_agreement(user(1), 5, s("a1"), s("Deal"), s(""), &vec![user(2)], vec![doc], ms, 50, 100).unwrap();
    st
}

#[test]
fn agreements_are_created_once() {
    let mut st = state();
    let ms = vec![milestone(1, 40, MilestoneType::ManualApproval)];
    let r = st.create_agreement(user(1), 5, s("a1"), s("Deal"), s(""), &Vec::new(), Vec::new(), ms, 50, 100);
    assert_eq!(r, Err(Error::AlreadyExists));
    let ms = vec![milestone(1, 150, MilestoneType::ManualApproval)];
    let r = st.create_agreement(user(1), 5, s("a2"), s("Deal"), s(""), &Vec::new(), Vec::new(), ms, 50, 100);
    assert_eq!(r, Err(Error::InvalidInput));
    assert_eq!(st.list_events().len(), 1);
    assert_eq!(st.list_events()[0].event_type, EventKind::CreateAgreement);
}

#[test]
fn signing_approves_a_signature_milestone() {
    let mut st = state();
    let a = s("a1");
    assert_eq!(st.sign_document(user(7), 6, &a, &s("d1")), Err(Error::Unauthorized));
    assert_eq!(st.sign_document(user(1), 6, &a, &s("d1")), Ok(Vec::new()));
    assert!(!st.check_milestone_conditions(&a, 1, 6));
    assert_eq!(st.sign_document(user(2), 7, &a, &s("d1")), Ok(vec![1]));
    assert_eq!(st.get_agreement(&a).unwrap().milestones[0].status, MilestoneStatus::Approved);
    assert!(st.check_milestone_conditions(&a, 1, 7));
}

#[test]
fn payout_in_two_steps() {
    let mut st = state();
    let a = s("a1");
    st.sign_document(user(1), 6, &a, &s("d1")).unwrap();
    st.sign_document(user(2), 7, &a, &s("d1")).unwrap();
    assert_eq!(st.execute_milestone(&a, 1).unwrap_err(), Error::InsufficientBalance);
    assert_eq!(st.fund_agreement(user(8), 8, &a, 50), Err(Error::Unauthorized));
    assert_eq!(st.fund_agreement(user(2), 8, &a, 50), Ok(()));
    assert_eq!(st.get_agreement_balance(&a), 50);
    let order = st.execute_milestone(&a, 1).unwrap();
    assert_eq!(order.amount, 40);
    assert_eq!(order.recipient, user(9));
    assert_eq!(st.get_agreement_balance(&a), 10);
    assert_eq!(st.execute_milestone(&a, 1).unwrap_err(), Error::NotApproved);
    assert_eq!(st.settle_milestone(user(1), 9, &a, 1, false), Err(Error::TemporarilyUnavailable));
    assert_eq!(st.get_agreement_balance(&a), 50);
    assert_eq!(st.get_agreement(&a).unwrap().milestones[0].status, MilestoneStatus::Approved);
    st.execute_milestone(&a, 1).unwrap();
    assert_eq!(st.settle_milestone(user(1), 10, &a, 1, true), Ok(()));
    assert_eq!(st.get_agreement(&a).unwrap().milestones[0].status, MilestoneStatus::Executed);
    assert_eq!(st.get_agreement(&a).unwrap().milestones[0].completed_at, Some(10));
    assert_eq!(st.settle_milestone(user(1), 11, &a, 1, true), Err(Error::NotReady));
    assert_eq!(st.get_agreement_balance(&a), 10);
    assert_eq!(st.get_agreement_balance(&s("zz")), 0);
}

#[test]
fn participants_and_votes() {
    let mut st = CanisterState::init(user(100), vec![7]);
    let ms = vec![milestone(1, 10, MilestoneType::ManualApproval)];
    st.create_agreement(user(1), 5, s("a1"), s("Deal"), s(""), &vec![user(2)], Vec::new(), ms, 100, 100).unwrap();
    let a = s("a1");
    assert_eq!(st.add_participant(user(2), 6, &a, user(3)), Err(Error::Unauthorized));
    assert_eq!(st.add_participant(user(100), 6, &a, user(2)), Err(Error::AlreadyExists));
    assert_eq!(st.add_participant(user(100), 6, &a, user(3)), Ok(()));
    assert!(st.is_participant(&a, user(3)));
    assert!(st.is_participant(&a, user(100)));
    assert!(!st.is_participant(&a, user(4)));
    assert_eq!(st.get_my_agreements(user(3)), vec![0]);
    assert_eq!(st.get_my_agreements(user(4)), Vec::<usize>::new());
    assert_eq!(st.vote_milestone(user(1), 7, &a, 1, true), Err(Error::NotReady));
    st.agreements[0].advance_ready_milestones(7);
    assert_eq!(st.vote_milestone(user(1), 7, &a, 1, false), Ok(MilestoneStatus::Rejected));
    let info = st.get_milestone_voting_status(&a, 1).unwrap();
    assert_eq!(info.rejection_votes, 1);
    assert_eq!(info.total_participants, 3);
    assert_eq!(info.required_votes, 3);
    assert_eq!(st.get_milestone_voting_status(&a, 2).unwrap_err(), Error::NotFound);
}

#[test]
fn ledger_answers_settle_payouts() {
    let mut st = state();
    let a = s("a1");
    st.sign_document(user(1), 6, &a, &s("d1")).unwrap();
    st.sign_document(user(2), 7, &a, &s("d1")).unwrap();
    st.fund_agreement(user(1), 8, &a, 100).unwrap();
    st.execute_milestone(&a, 1).unwrap();
    let refused = ICRC1TransferResult::Refused(ICRC1TransferError::InsufficientFunds { balance: 0 });
    assert_eq!(st.settle_transfer(user(1), 9, &a, 1, &refused), Err(Error::TemporarilyUnavailable));
    assert_eq!(st.get_agreement_balance(&a), 100);
    st.execute_milestone(&a, 1).unwrap();
    assert_eq!(st.settle_transfer(user(1), 10, &a, 1, &ICRC1TransferResult::Transferred(42)), Ok(()));
    assert_eq!(st.get_agreement_balance(&a), 60);
    assert_eq!(st.set_ledger_canister_id(user(1), vec![1]), Err(Error::Unauthorized));
    assert_eq!(st.set_ledger_canister_id(user(100), vec![1]), Ok(()));
    assert_eq!(st.ledger_canister_id, vec![1]);
}
