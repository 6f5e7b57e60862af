use vstd::prelude::*;
use crate::ids::UserId;
use crate::lookup::{first_pos, lemma_first_pos, lemma_first_pos_at};

verus! {

/// What has to hold before a milestone's funds may be released.
#[derive(Clone, Debug)]
pub enum MilestoneType {
    /// Released when the named document is signed by everyone required.
    DocumentSignature { required_doc_id: String },
    /// Released by a vote of the agreement's members.
    ManualApproval,
    /// Released once the clock reaches `release_time`.
    TimeRelease { release_time: u64 },
    /// Every listed document fully signed and, where given, `min_time` reached.
    MultiCondition { required_docs: Vec<String>, requires_vote: bool, min_time: Option<u64> },
}

/// Where a milestone stands in its life.
///
/// `Executing` marks a payout that has been reserved and whose transfer is
/// still outstanding: while it lasts, no other execution can see the
/// milestone as `Approved`.
#[derive(Clone, Copy, Debug, PartialEq, Eq, Structural)]
pub enum MilestoneStatus {
    Pending,
    ReadyForVoting,
    VotingActive,
    Approved,
    Executing,
    Executed,
    Rejected,
}

/// Where an agreement stands in its life.
#[derive(Clone, Copy, Debug, PartialEq, Eq, Structural)]
pub enum AgreementStatus {
    Active,
    Completed,
    Cancelled,
}

/// One member's vote on a milestone, with the time it was cast.
#[derive(Clone, Copy, Debug)]
pub struct Vote {
    pub voter: UserId,
    pub approve: bool,
    pub cast_at: u64,
}

/// A snapshot of the tally of one milestone.
#[derive(Clone, Debug)]
pub struct MilestoneVotingInfo {
    pub milestone_id: u64,
    pub status: MilestoneStatus,
    pub approval_votes: u64,
    pub rejection_votes: u64,
    pub total_participants: u64,
    pub required_votes: u64,
    pub voting_threshold: u8,
}

/// Approvals needed among `n` voters at a threshold in percent: `ceil(n * threshold / 100)`.
pub open spec fn required_votes_spec(n: int, threshold: int) -> int {
    (n * threshold + 99) / 100
}

/// The number of approving votes.
pub open spec fn approvals(votes: Seq<Vote>) -> nat
    decreases votes.len(),
{
    if votes.len() == 0 {
        0
    } else {
        approvals(votes.drop_last()) + if votes.last().approve { 1nat } else { 0nat }
    }
}

/// The number of rejecting votes.
pub open spec fn rejections(votes: Seq<Vote>) -> nat
    decreases votes.len(),
{
    if votes.len() == 0 {
        0
    } else {
        rejections(votes.drop_last()) + if votes.last().approve { 0nat } else { 1nat }
    }
}

/// The status that a tally decides: approved once the approvals reach the
/// quorum, rejected once the remaining voters can no longer reach it, and
/// still open otherwise.
pub open spec fn quorum_status(approve: int, reject: int, n: int, threshold: int) -> MilestoneStatus {
    let req = required_votes_spec(n, threshold);
    if approve >= req {
        MilestoneStatus::Approved
    } else if reject > n - req {
        MilestoneStatus::Rejected
    } else {
        MilestoneStatus::VotingActive
    }
}

pub open spec fn voters(votes: Seq<Vote>) -> Seq<UserId> {
    votes.map_values(|v: Vote| v.voter)
}

/// No member holds two votes.
pub open spec fn voters_unique(votes: Seq<Vote>) -> bool {
    forall|i: int, j: int|
        0 <= i < votes.len() && 0 <= j < votes.len() && i != j ==> votes[i].voter != votes[j].voter
}

/// The votes after `v` is cast: it replaces its voter's earlier vote, or is added.
pub open spec fn upsert_vote(votes: Seq<Vote>, v: Vote) -> Seq<Vote> {
    let p = first_pos(voters(votes), v.voter);
    if p >= 0 {
        votes.update(p, v)
    } else {
        votes.push(v)
    }
}

/// The quorum among `n` voters at `threshold` percent is the ceiling of
/// `n * threshold / 100`: the least count whose share reaches the threshold.
pub proof fn required_votes_is_ceiling(n: int, threshold: int)
    requires
        n >= 0,
        0 <= threshold <= 100,
    ensures
        required_votes_spec(n, threshold) * 100 >= n * threshold,
        (required_votes_spec(n, threshold) - 1) * 100 < n * threshold,
        0 <= required_votes_spec(n, threshold) <= n,
{
    let x = n * threshold;
    assert(0 <= x <= n * 100) by (nonlinear_arith)
        requires
            n >= 0,
            0 <= threshold <= 100,
            x == n * threshold,
    ;
    let r = (x + 99) / 100;
    assert(r * 100 <= x + 99 && x + 99 < r * 100 + 100);
    assert(r <= n);
}

/// Approvals needed among `n` voters at `threshold` percent.
pub fn required_votes(n: u64, threshold: u8) -> (r: u64)
    requires
        threshold <= 100,
    ensures
        r == required_votes_spec(n as int, threshold as int),
        r <= n,
{
    proof {
        required_votes_is_ceiling(n as int, threshold as int);
    }
    assert((n as u128) * (threshold as u128) <= 100 * (u64::MAX as u128)) by (nonlinear_arith)
        requires
            threshold <= 100,
    ;
    let x: u128 = (n as u128) * (threshold as u128) + 99;
    (x / 100) as u64
}

/// Counts the approving and the rejecting votes.
pub fn count_votes(votes: &Vec<Vote>) -> (r: (u64, u64))
    ensures
        r.0 == approvals(votes@),
        r.1 == rejections(votes@),
{
    let mut yes: u64 = 0;
    let mut no: u64 = 0;
    let mut i: usize = 0;
    while i < votes.len()
        invariant
            0 <= i <= votes@.len(),
            yes == approvals(votes@.take(i as int)),
            no == rejections(votes@.take(i as int)),
            yes + no == i,
        decreases votes@.len() - i,
    {
        assert(votes@.take(i as int + 1).drop_last() =~= votes@.take(i as int));
        if votes[i].approve {
            yes = yes + 1;
        } else {
            no = no + 1;
        }
        i = i + 1;
    }
    assert(votes@.take(i as int) =~= votes@);
    (yes, no)
}

/// Decides a milestone's status from its votes among `n` voters.
pub fn tally(votes: &Vec<Vote>, n: u64, threshold: u8) -> (r: MilestoneStatus)
    requires
        threshold <= 100,
    ensures
        r == quorum_status(approvals(votes@) as int, rejections(votes@) as int, n as int, threshold as int),
{
    let (yes, no) = count_votes(votes);
    let req = required_votes(n, threshold);
    if yes >= req {
        MilestoneStatus::Approved
    } else if no > n - req {
        MilestoneStatus::Rejected
    } else {
        MilestoneStatus::VotingActive
    }
}

/// The position of `voter`'s vote, if any.
pub fn find_vote(votes: &Vec<Vote>, voter: &UserId) -> (r: Option<usize>)
    ensures
        match r {
            Some(p) => p as int == first_pos(voters(votes@), *voter),
            None => first_pos(voters(votes@), *voter) == -1,
        },
{
    let mut i: usize = 0;
    while i < votes.len()
        invariant
            0 <= i <= votes@.len(),
            forall|j: int| 0 <= j < i ==> voters(votes@)[j] != *voter,
        decreases votes@.len() - i,
    {
        if votes[i].voter == *voter {
            proof {
                lemma_first_pos_at(voters(votes@), *voter, i as int);
            }
            return Some(i);
        }
        i = i + 1;
    }
    proof {
        lemma_first_pos(voters(votes@), *voter);
    }
    None
}

/// Casts `v`: it replaces its voter's earlier vote, or is added.
pub fn record_vote(votes: &mut Vec<Vote>, v: Vote)
    requires
        voters_unique(old(votes)@),
    ensures
        final(votes)@ == upsert_vote(old(votes)@, v),
        voters_unique(final(votes)@),
{
    proof {
        lemma_first_pos(voters(votes@), v.voter);
    }
    match find_vote(votes, &v.voter) {
        Some(p) => {
            assert(voters(votes@)[p as int] == v.voter);
            votes.set(p, v);
        },
        None => {
            votes.push(v);
            assert forall|i: int, j: int|
                0 <= i < votes@.len() && 0 <= j < votes@.len() && i != j
                implies votes@[i].voter != votes@[j].voter by {
                if i < old(votes)@.len() {
                    assert(voters(old(votes)@)[i] == old(votes)@[i].voter);
                }
                if j < old(votes)@.len() {
                    assert(voters(old(votes)@)[j] == old(votes)@[j].voter);
                }
            }
        },
    }
}

} // verus!
