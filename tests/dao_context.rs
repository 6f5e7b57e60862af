use merodocs::agreement::DaoMilestone;
use merodocs::error::Error;
use merodocs::ids::UserId;
use merodocs::merodocs::MeroDocsState;
use merodocs::milestone::{MilestoneStatus, MilestoneType};

fn user(n: u8) -> UserId {
    UserId([n; 32])
}

fn s(x: &str) -> String {
    x.to_string()
}

fn milestone(id: u64, amount: u128) -> DaoMilestone {
    DaoMilestone {
        id,
        title: s("work"),
        description: s(""),
        milestone_type: MilestoneType::TimeRelease { release_time: 0 },
        recipient: user(9),
        amount,
        status: MilestoneStatus::Pending,
        votes: Vec::new(),
        created_at: 0,
        completed_at: None,
    }
}

#[test]
fn dao_agreements_need_a_dao_context() {
    let mut st = MeroDocsState::init(false, s("team"), user(1));
    let r = st.create_dao_agreement(user(1), s("a1"), s("T"), &vec![user(2)], vec![milestone(1, 10)], 60, 100, 1);
    assert_eq!(r, Err(Error::WrongContextKind));
    assert_eq!(st.initialize_dao_context(), Ok(()));
    let r = st.create_dao_agreement(user(1), s("a1"), s("T"), &vec![user(2)], vec![milestone(1, 150)], 60, 100, 1);
    assert_eq!(r, Err(Error::InvalidInput));
    let r = st.create_dao_agreement(user(1), s("a1"), s("T"), &vec![user(2)], vec![milestone(1, 100)], 60, 100, 1);
    assert_eq!(r, Ok(()));
    let r = st.create_dao_agreement(user(1), s("a1"), s("T"), &vec![user(2)], vec![milestone(1, 10)], 60, 100, 1);
    assert_eq!(r, Err(Error::AlreadyExists));
    let mut private = MeroDocsState::init(true, s("default"), user(1));
    assert_eq!(private.initialize_dao_context(), Err(Error::WrongContextKind));
}

#[test]
fn dao_agreement_lifecycle() {
    let mut st = MeroDocsState::init(false, s("team"), user(1));
    st.initialize_dao_context().unwrap();
    st.create_dao_agreement(user(1), s("a1"), s("T"), &vec![user(2)], vec![milestone(1, 100)], 60, 100, 1).unwrap();
    let id = s("a1");
    assert_eq!(st.add_milestone_to_agreement(&id, milestone(1, 5)), Err(Error::AlreadyExists));
    assert_eq!(st.add_milestone_to_agreement(&id, milestone(2, 5)), Ok(()));
    assert_eq!(st.fund_dao_agreement(user(1), &id, 0), Err(Error::InvalidAmount));
    assert_eq!(st.fund_dao_agreement(user(7), &id, 10), Err(Error::Unauthorized));
    assert_eq!(st.fund_dao_agreement(user(1), &s("zz"), 10), Err(Error::NotFound));
    assert_eq!(st.fund_dao_agreement(user(2), &id, 100), Ok(()));
    assert_eq!(st.get_dao_agreement(&id).unwrap().total_funding, 200);
    assert_eq!(st.get_dao_agreement(&id).unwrap().remaining_balance, 100);
    assert_eq!(st.vote_on_milestone(user(1), &id, 1, true, 2), Err(Error::NotReady));
    assert!(st.dao_agreements[0].check_milestone_conditions(1, 5));
    st.dao_agreements[0].advance_ready_milestones(5);
    assert_eq!(st.vote_on_milestone(user(1), &id, 1, true, 6), Ok(MilestoneStatus::VotingActive));
    assert_eq!(st.vote_on_milestone(user(2), &id, 1, true, 7), Ok(MilestoneStatus::Approved));
    let info = st.get_milestone_voting_status(&id, 1).unwrap();
    assert_eq!(info.approval_votes, 2);
    assert_eq!(info.required_votes, 2);
    assert_eq!(st.execute_milestone(&id, 1, 8), Ok(()));
    assert_eq!(st.execute_milestone(&id, 1, 9), Err(Error::NotApproved));
    assert_eq!(st.get_milestone_details(&id, 1).unwrap().status, MilestoneStatus::Executed);
    assert_eq!(st.get_dao_agreement(&id).unwrap().remaining_balance, 0);
    assert_eq!(st.list_dao_agreements().unwrap().len(), 1);
    assert_eq!(st.get_milestone_details(&id, 3).unwrap_err(), Error::NotFound);
}
