use merodocs::ids::UserId;
use merodocs::milestone::{count_votes, record_vote, required_votes, tally, MilestoneStatus, Vote};

fn user(n: u8) -> UserId {
    UserId([n; 32])
}

fn vote(n: u8, approve: bool, at: u64) -> Vote {
    Vote { voter: user(n), approve, cast_at: at }
}

#[test]
fn required_votes_is_sixty_percent_ceiling() {
    assert_eq!(required_votes(5, 60), 3);
    assert_eq!(required_votes(10, 60), 6);
    assert_eq!(required_votes(1, 50), 1);
    assert_eq!(required_votes(3, 50), 2);
    assert_eq!(required_votes(4, 100), 4);
    assert_eq!(required_votes(0, 60), 0);
}

#[test]
fn three_of_five_approvals_approve() {
    let votes = vec![vote(1, true, 1), vote(2, true, 2), vote(3, true, 3)];
    assert_eq!(tally(&votes, 5, 60), MilestoneStatus::Approved);
}

#[test]
fn three_of_five_rejections_reject() {
    let votes = vec![vote(1, false, 1), vote(2, false, 2), vote(3, false, 3)];
    assert_eq!(tally(&votes, 5, 60), MilestoneStatus::Rejected);
}

#[test]
fn two_rejections_of_five_keep_voting_open() {
    let votes = vec![vote(1, false, 1), vote(2, false, 2), vote(3, true, 3)];
    assert_eq!(tally(&votes, 5, 60), MilestoneStatus::VotingActive);
}

#[test]
fn a_later_vote_replaces_the_earlier_one() {
    let mut votes = Vec::new();
    record_vote(&mut votes, vote(1, true, 1));
    record_vote(&mut votes, vote(2, true, 2));
    record_vote(&mut votes, vote(1, false, 3));
    assert_eq!(votes.len(), 2);
    assert_eq!(count_votes(&votes), (1, 1));
    assert!(!votes[0].approve);
}
