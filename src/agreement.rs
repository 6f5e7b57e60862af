use vstd::prelude::*;
use crate::error::Error;
use crate::ids::UserId;
use crate::lookup::{first_pos, lemma_first_pos, lemma_first_pos_at};
use crate::milestone::{
    approvals, quorum_status, record_vote, rejections, required_votes, tally, upsert_vote, voters_unique,
    AgreementStatus, MilestoneStatus, MilestoneType, MilestoneVotingInfo, Vote,
};

verus! {

/// A document that an agreement's milestones may wait on, with who has to
/// sign it and who has.
#[derive(Clone, Debug)]
pub struct DocumentRef {
    pub doc_id: String,
    pub title: String,
    pub required_signers: Vec<UserId>,
    pub current_signers: Vec<UserId>,
    pub is_signed_by_all: bool,
}

/// A conditioned, fund-releasing checkpoint of an agreement.
#[derive(Clone, Debug)]
pub struct DaoMilestone {
    pub id: u64,
    pub title: String,
    pub description: String,
    pub milestone_type: MilestoneType,
    pub recipient: UserId,
    pub amount: u128,
    pub status: MilestoneStatus,
    pub votes: Vec<Vote>,
    pub created_at: u64,
    pub completed_at: Option<u64>,
}

/// A funded, multi-milestone contract among participants.
#[derive(Clone, Debug)]
pub struct DaoAgreement {
    pub id: String,
    pub title: String,
    pub description: String,
    pub creator: UserId,
    pub participants: Vec<UserId>,
    pub documents: Vec<DocumentRef>,
    pub milestones: Vec<DaoMilestone>,
    pub voting_threshold: u8,
    pub status: AgreementStatus,
    pub created_at: u64,
    pub total_funding: u128,
    pub remaining_balance: u128,
}

pub open spec fn milestone_ids(ms: Seq<DaoMilestone>) -> Seq<u64> {
    ms.map_values(|m: DaoMilestone| m.id)
}

pub open spec fn doc_ids(ds: Seq<DocumentRef>) -> Seq<Seq<char>> {
    ds.map_values(|d: DocumentRef| d.doc_id@)
}

/// The sum of the amounts that the milestones pay.
pub open spec fn amount_sum(ms: Seq<DaoMilestone>) -> int
    decreases ms.len(),
{
    if ms.len() == 0 {
        0
    } else {
        amount_sum(ms.drop_last()) + ms.last().amount
    }
}

/// What a milestone holds back from the balance while its payout is under way.
pub open spec fn held(m: DaoMilestone) -> int {
    if m.status == MilestoneStatus::Executing {
        m.amount as int
    } else {
        0
    }
}

/// The sum of the payouts under way.
pub open spec fn reserved(ms: Seq<DaoMilestone>) -> int
    decreases ms.len(),
{
    if ms.len() == 0 {
        0
    } else {
        reserved(ms.drop_last()) + held(ms.last())
    }
}

/// A milestone as an agreement takes it in: pending, with no votes and no payout.
pub open spec fn fresh_milestone(m: DaoMilestone) -> bool {
    m.status == MilestoneStatus::Pending && m.votes@.len() == 0 && m.completed_at is None
}

/// Every signer that the document requires has signed it.
pub open spec fn fully_signed(d: DocumentRef) -> bool {
    forall|u: UserId| d.required_signers@.contains(u) ==> d.current_signers@.contains(u)
}

/// The document with this id is known and fully signed.
pub open spec fn doc_ready(ds: Seq<DocumentRef>, id: Seq<char>) -> bool {
    let p = first_pos(doc_ids(ds), id);
    p >= 0 && fully_signed(ds[p])
}

/// Whether a milestone's release condition holds at time `now`.
pub open spec fn condition_met(ds: Seq<DocumentRef>, t: MilestoneType, now: u64) -> bool {
    match t {
        MilestoneType::DocumentSignature { required_doc_id } => doc_ready(ds, required_doc_id@),
        MilestoneType::TimeRelease { release_time } => now >= release_time,
        MilestoneType::ManualApproval => true,
        MilestoneType::MultiCondition { required_docs, requires_vote, min_time } => {
            &&& forall|k: int| 0 <= k < required_docs@.len() ==> doc_ready(ds, #[trigger] required_docs@[k]@)
            &&& match min_time {
                Some(t) => now >= t,
                None => true,
            }
        },
    }
}

/// The status a pending milestone moves to once its condition holds: a
/// signature milestone needs no vote, every other kind goes to the vote.
pub open spec fn ready_status(t: MilestoneType) -> MilestoneStatus {
    match t {
        MilestoneType::DocumentSignature { .. } => MilestoneStatus::Approved,
        _ => MilestoneStatus::ReadyForVoting,
    }
}

/// Whether a reserved payout may start: only from `Approved`, and only if the
/// escrow covers it.
pub open spec fn execution_gate(status: MilestoneStatus, balance: int, amount: int) -> Result<(), Error> {
    if status != MilestoneStatus::Approved {
        Err(Error::NotApproved)
    } else if balance < amount {
        Err(Error::InsufficientBalance)
    } else {
        Ok(())
    }
}

/// Two milestones agree on everything but status, votes and completion time.
pub open spec fn same_terms(m1: DaoMilestone, m2: DaoMilestone) -> bool {
    &&& m1.id == m2.id
    &&& m1.title == m2.title
    &&& m1.description == m2.description
    &&& m1.milestone_type == m2.milestone_type
    &&& m1.recipient == m2.recipient
    &&& m1.amount == m2.amount
    &&& m1.created_at == m2.created_at
}

pub proof fn lemma_reserved_nonneg(ms: Seq<DaoMilestone>)
    ensures
        reserved(ms) >= 0,
    decreases ms.len(),
{
    if ms.len() > 0 {
        lemma_reserved_nonneg(ms.drop_last());
    }
}

pub proof fn lemma_reserved_none(ms: Seq<DaoMilestone>)
    requires
        forall|j: int| 0 <= j < ms.len() ==> ms[j].status != MilestoneStatus::Executing,
    ensures
        reserved(ms) == 0,
    decreases ms.len(),
{
    if ms.len() > 0 {
        lemma_reserved_none(ms.drop_last());
    }
}

pub proof fn lemma_reserved_update(ms: Seq<DaoMilestone>, i: int, m: DaoMilestone)
    requires
        0 <= i < ms.len(),
    ensures
        reserved(ms.update(i, m)) == reserved(ms) - held(ms[i]) + held(m),
    decreases ms.len(),
{
    let u = ms.update(i, m);
    if i == ms.len() - 1 {
        assert(u.drop_last() =~= ms.drop_last());
    } else {
        assert(u.drop_last() =~= ms.drop_last().update(i, m));
        lemma_reserved_update(ms.drop_last(), i, m);
    }
}

pub proof fn lemma_amount_sum_prefix(ms: Seq<DaoMilestone>, k: int)
    requires
        0 <= k <= ms.len(),
    ensures
        amount_sum(ms.take(k)) <= amount_sum(ms),
    decreases ms.len(),
{
    if k == ms.len() {
        assert(ms.take(k) =~= ms);
    } else {
        assert(ms.take(k) =~= ms.drop_last().take(k));
        lemma_amount_sum_prefix(ms.drop_last(), k);
    }
}

/// Whether `u` is in `v`.
pub fn contains_id(v: &Vec<UserId>, u: &UserId) -> (r: bool)
    ensures
        r == v@.contains(*u),
{
    let mut i: usize = 0;
    while i < v.len()
        invariant
            0 <= i <= v@.len(),
            forall|j: int| 0 <= j < i ==> v@[j] != *u,
        decreases v@.len() - i,
    {
        if v[i] == *u {
            return true;
        }
        i = i + 1;
    }
    false
}

/// The identities of `v`, each once, in order of first appearance.
pub fn distinct_ids(v: &Vec<UserId>) -> (r: Vec<UserId>)
    ensures
        r@.no_duplicates(),
        forall|u: UserId| r@.contains(u) <==> v@.contains(u),
        r@.len() <= v@.len(),
{
    let mut r: Vec<UserId> = Vec::new();
    let mut i: usize = 0;
    while i < v.len()
        invariant
            0 <= i <= v@.len(),
            r@.no_duplicates(),
            r@.len() <= i,
            forall|u: UserId| r@.contains(u) <==> v@.take(i as int).contains(u),
        decreases v@.len() - i,
    {
        let u = v[i];
        let ghost before = r@;
        assert(v@.take(i as int + 1) =~= v@.take(i as int).push(u));
        if !contains_id(&r, &u) {
            r.push(u);
            assert forall|a: int, b: int| 0 <= a < b < r@.len() implies r@[a] != r@[b] by {
                if b == r@.len() - 1 {
                    assert(before[a] == r@[a]);
                }
            }
        }
        assert forall|w: UserId| r@.contains(w) <==> v@.take(i as int + 1).contains(w) by {
            if r@.contains(w) && w != u {
                let j = choose|j: int| 0 <= j < r@.len() && r@[j] == w;
                assert(before[j] == w);
                assert(before.contains(w));
                let t = v@.take(i as int);
                let k = choose|k: int| 0 <= k < t.len() && t[k] == w;
                assert(v@.take(i as int + 1)[k] == w);
            }
            if v@.take(i as int + 1).contains(w) && w != u {
                let t = v@.take(i as int + 1);
                let j = choose|j: int| 0 <= j < t.len() && t[j] == w;
                assert(v@.take(i as int)[j] == w);
                assert(v@.take(i as int).contains(w));
                assert(before.contains(w));
                let jj = choose|jj: int| 0 <= jj < before.len() && before[jj] == w;
                assert(r@[jj] == w);
            }
            if w == u && !before.contains(u) {
                assert(r@[r@.len() - 1] == u);
            }
            if w == u {
                assert(v@.take(i as int + 1)[i as int] == u);
                if before.contains(u) {
                    let jj = choose|jj: int| 0 <= jj < before.len() && before[jj] == u;
                    assert(r@[jj] == u);
                }
            }
        }
        i = i + 1;
    }
    assert(v@.take(i as int) =~= v@);
    r
}

impl DaoAgreement {
    /// The agreement's standing invariant. Among others: the escrow never
    /// holds more than was funded, also counting payouts under way.
    pub open spec fn wf(self) -> bool {
        &&& 50 <= self.voting_threshold <= 100
        &&& self.remaining_balance <= self.total_funding
        &&& self.remaining_balance + reserved(self.milestones@) <= self.total_funding
        &&& milestone_ids(self.milestones@).no_duplicates()
        &&& forall|i: int| 0 <= i < self.milestones@.len() ==> voters_unique(#[trigger] self.milestones@[i].votes@)
        &&& self.participants@.len() + 1 <= u64::MAX
    }

    /// The creator and the participants.
    pub open spec fn is_member(self, u: UserId) -> bool {
        self.creator == u || self.participants@.contains(u)
    }

    /// The number of voters: the participants and the creator.
    pub open spec fn voter_count(self) -> int {
        self.participants@.len() + 1int
    }

    /// The position of the milestone with this id, or -1.
    pub open spec fn milestone_pos(self, id: u64) -> int {
        first_pos(milestone_ids(self.milestones@), id)
    }

    /// The agreement's terms other than its milestones and its funds.
    pub open spec fn same_frame(self, other: DaoAgreement) -> bool {
        &&& self.id == other.id
        &&& self.title == other.title
        &&& self.description == other.description
        &&& self.creator == other.creator
        &&& self.participants == other.participants
        &&& self.documents == other.documents
        &&& self.voting_threshold == other.voting_threshold
        &&& self.status == other.status
        &&& self.created_at == other.created_at
    }

    /// The votes on milestone `id` once `voter` has cast `approve` at `now`.
    pub open spec fn votes_after(self, id: u64, voter: UserId, approve: bool, now: u64) -> Seq<Vote> {
        upsert_vote(self.milestones@[self.milestone_pos(id)].votes@, (Vote { voter, approve, cast_at: now }))
    }

    /// The status that the quorum rule gives milestone `id` once `voter` has voted.
    pub open spec fn status_after_vote(self, id: u64, voter: UserId, approve: bool, now: u64) -> MilestoneStatus {
        let v = self.votes_after(id, voter, approve, now);
        quorum_status(approvals(v) as int, rejections(v) as int, self.voter_count(), self.voting_threshold as int)
    }

    /// `b` is this agreement with milestone `id` alone changed, keeping its
    /// terms, and with the same frame and funding total.
    pub open spec fn only_milestone_changed(self, b: DaoAgreement, id: u64) -> bool {
        let p = self.milestone_pos(id);
        &&& b.milestones@ == self.milestones@.update(p, b.milestones@[p])
        &&& same_terms(b.milestones@[p], self.milestones@[p])
        &&& b.same_frame(self)
        &&& b.total_funding == self.total_funding
    }

    /// `b` is this agreement after `voter`'s vote on milestone `id` was recorded and tallied.
    pub open spec fn voted(self, b: DaoAgreement, id: u64, voter: UserId, approve: bool, now: u64) -> bool {
        let p = self.milestone_pos(id);
        &&& self.only_milestone_changed(b, id)
        &&& b.milestones@[p].votes@ == self.votes_after(id, voter, approve, now)
        &&& b.milestones@[p].status == self.status_after_vote(id, voter, approve, now)
        &&& b.milestones@[p].completed_at == self.milestones@[p].completed_at
        &&& b.remaining_balance == self.remaining_balance
    }

    /// `b` is this agreement with the payout of milestone `id` reserved.
    pub open spec fn reserved_by(self, b: DaoAgreement, id: u64) -> bool {
        let p = self.milestone_pos(id);
        &&& self.only_milestone_changed(b, id)
        &&& b.milestones@[p].status == MilestoneStatus::Executing
        &&& b.milestones@[p].votes == self.milestones@[p].votes
        &&& b.milestones@[p].completed_at == self.milestones@[p].completed_at
        &&& b.remaining_balance == self.remaining_balance - self.milestones@[p].amount
    }

    /// `b` is this agreement with the reserved payout of milestone `id` settled at `now`.
    pub open spec fn settled_by(self, b: DaoAgreement, id: u64, now: u64) -> bool {
        let p = self.milestone_pos(id);
        &&& self.only_milestone_changed(b, id)
        &&& b.milestones@[p].status == MilestoneStatus::Executed
        &&& b.milestones@[p].votes == self.milestones@[p].votes
        &&& b.milestones@[p].completed_at == Some(now)
        &&& b.remaining_balance == self.remaining_balance
    }

    /// `b` is this agreement with the reserved payout of milestone `id` undone.
    pub open spec fn undone_by(self, b: DaoAgreement, id: u64) -> bool {
        let p = self.milestone_pos(id);
        &&& self.only_milestone_changed(b, id)
        &&& b.milestones@[p].status == MilestoneStatus::Approved
        &&& b.milestones@[p].votes == self.milestones@[p].votes
        &&& b.milestones@[p].completed_at == self.milestones@[p].completed_at
        &&& b.remaining_balance == self.remaining_balance + self.milestones@[p].amount
    }

    /// `b` is this agreement with milestone `id` paid out in one step at `now`.
    pub open spec fn paid_by(self, b: DaoAgreement, id: u64, now: u64) -> bool {
        let p = self.milestone_pos(id);
        &&& self.only_milestone_changed(b, id)
        &&& b.milestones@[p].status == MilestoneStatus::Executed
        &&& b.milestones@[p].votes == self.milestones@[p].votes
        &&& b.milestones@[p].completed_at == Some(now)
        &&& b.remaining_balance == self.remaining_balance - self.milestones@[p].amount
    }

    /// Whether the terms of a new agreement are acceptable.
    pub open spec fn valid_terms(
        id: Seq<char>,
        title: Seq<char>,
        milestones: Seq<DaoMilestone>,
        voting_threshold: u8,
        total_funding: u128,
    ) -> bool {
        &&& id.len() > 0
        &&& title.len() > 0
        &&& 50 <= voting_threshold <= 100
        &&& milestones.len() > 0
        &&& total_funding > 0
        &&& milestone_ids(milestones).no_duplicates()
        &&& amount_sum(milestones) <= total_funding
    }

    /// The position of the milestone with this id, if any.
    pub fn find_milestone(&self, id: u64) -> (r: Option<usize>)
        ensures
            match r {
                Some(p) => p as int == self.milestone_pos(id),
                None => self.milestone_pos(id) == -1,
            },
    {
        let mut i: usize = 0;
        while i < self.milestones.len()
            invariant
                0 <= i <= self.milestones@.len(),
                forall|j: int| 0 <= j < i ==> milestone_ids(self.milestones@)[j] != id,
            decreases self.milestones@.len() - i,
        {
            if self.milestones[i].id == id {
                proof {
                    lemma_first_pos_at(milestone_ids(self.milestones@), id, i as int);
                }
                return Some(i);
            }
            i = i + 1;
        }
        proof {
            lemma_first_pos(milestone_ids(self.milestones@), id);
        }
        None
    }

    /// Opens an agreement. The terms are refused with `InvalidInput` where
    /// an id or the title is empty, the threshold lies outside 50..=100,
    /// there is no milestone, the funding is zero, two milestones share an
    /// id, or the milestones pay more in sum than the funding. The escrow
    /// starts empty; participants are kept once each; every milestone starts
    /// pending, without votes.
    pub fn create(
        id: String,
        title: String,
        description: String,
        creator: UserId,
        participants: &Vec<UserId>,
        documents: Vec<DocumentRef>,
        mut milestones: Vec<DaoMilestone>,
        voting_threshold: u8,
        total_funding: u128,
        now: u64,
    ) -> (r: Result<DaoAgreement, Error>)
        requires
            participants@.len() + 1 <= u64::MAX,
        ensures
            r is Ok <==> Self::valid_terms(id@, title@, milestones@, voting_threshold, total_funding),
            r is Err ==> r == Err::<DaoAgreement, Error>(Error::InvalidInput),
            r matches Ok(a) ==> {
                &&& a.wf()
                &&& a.id == id
                &&& a.title == title
                &&& a.description == description
                &&& a.creator == creator
                &&& a.participants@.no_duplicates()
                &&& (forall|u: UserId| a.participants@.contains(u) <==> participants@.contains(u))
                &&& a.documents == documents
                &&& a.milestones@.len() == milestones@.len()
                &&& (forall|i: int| 0 <= i < milestones@.len() ==> same_terms(#[trigger] a.milestones@[i], milestones@[i])
                    && fresh_milestone(a.milestones@[i]))
                &&& a.voting_threshold == voting_threshold
                &&& a.status == AgreementStatus::Active
                &&& a.created_at == now
                &&& a.total_funding == total_funding
                &&& a.remaining_balance == 0
            },
    {
        if id.as_str().is_empty() || title.as_str().is_empty() {
            return Err(Error::InvalidInput);
        }
        if voting_threshold < 50 || voting_threshold > 100 {
            return Err(Error::InvalidInput);
        }
        if milestones.len() == 0 || total_funding == 0 {
            return Err(Error::InvalidInput);
        }
        let mut sum: u128 = 0;
        let mut i: usize = 0;
        while i < milestones.len()
            invariant
                0 <= i <= milestones@.len(),
                sum == amount_sum(milestones@.take(i as int)),
                milestone_ids(milestones@.take(i as int)).no_duplicates(),
            decreases milestones@.len() - i,
        {
            let m = &milestones[i];
            assert(milestones@.take(i as int + 1).drop_last() =~= milestones@.take(i as int));
            let mut k: usize = 0;
            while k < i
                invariant
                    0 <= k <= i < milestones@.len(),
                    m.id == milestones@[i as int].id,
                    forall|j: int| 0 <= j < k ==> milestones@[j].id != milestones@[i as int].id,
                decreases i - k,
            {
                if milestones[k].id == m.id {
                    assert(milestone_ids(milestones@)[k as int] == milestone_ids(milestones@)[i as int]);
                    assert(!milestone_ids(milestones@).no_duplicates());
                    return Err(Error::InvalidInput);
                }
                k = k + 1;
            }
            if m.amount > u128::MAX - sum {
                proof {
                    lemma_amount_sum_prefix(milestones@, i as int + 1);
                }
                return Err(Error::InvalidInput);
            }
            sum = sum + m.amount;
            assert(milestone_ids(milestones@.take(i as int + 1)) =~= milestone_ids(milestones@.take(i as int)).push(m.id));
            i = i + 1;
        }
        assert(milestones@.take(i as int) =~= milestones@);
        if sum > total_funding {
            return Err(Error::InvalidInput);
        }
        let ghost given = milestones@;
        let mut k: usize = 0;
        while k < milestones.len()
            invariant
                0 <= k <= milestones@.len(),
                milestones@.len() == given.len(),
                forall|j: int| 0 <= j < given.len() ==> same_terms(#[trigger] milestones@[j], given[j]),
                forall|j: int| 0 <= j < k ==> fresh_milestone(#[trigger] milestones@[j]),
            decreases milestones@.len() - k,
        {
            milestones[k].status = MilestoneStatus::Pending;
            milestones[k].votes = Vec::new();
            milestones[k].completed_at = None;
            k = k + 1;
        }
        proof {
            lemma_reserved_none(milestones@);
            assert(milestone_ids(milestones@) =~= milestone_ids(given));
            assert forall|i: int| 0 <= i < milestones@.len() implies voters_unique(#[trigger] milestones@[i].votes@) by {
                assert(fresh_milestone(milestones@[i]));
            }
        }
        let members = distinct_ids(participants);
        Ok(DaoAgreement {
            id,
            title,
            description,
            creator,
            participants: members,
            documents,
            milestones,
            voting_threshold,
            status: AgreementStatus::Active,
            created_at: now,
            total_funding,
            remaining_balance: 0,
        })
    }
}

/// After one execution has reserved a milestone's payout, a second execution
/// of the same milestone is refused, whatever the balance: two concurrent
/// executions never both pay.
pub proof fn second_execution_refused(status: MilestoneStatus, balance: int, amount: int)
    requires
        execution_gate(status, balance, amount) is Ok,
    ensures
        status == MilestoneStatus::Approved,
        balance - amount >= 0 ==> execution_gate(MilestoneStatus::Executing, balance - amount, amount)
            == Err::<(), Error>(Error::NotApproved),
        execution_gate(MilestoneStatus::Executing, balance - amount, amount) is Err,
{
}

/// A failed transfer puts the milestone back to `Approved` with its amount
/// returned to the balance, so that the payout can be tried again.
pub proof fn aborted_execution_retries(balance: int, amount: int)
    requires
        execution_gate(MilestoneStatus::Approved, balance, amount) is Ok,
    ensures
        execution_gate(MilestoneStatus::Approved, (balance - amount) + amount, amount) is Ok,
{
}

/// The ids of the pending milestones whose condition holds, in order.
pub open spec fn ready_ids(ms: Seq<DaoMilestone>, ds: Seq<DocumentRef>, now: u64) -> Seq<u64>
    decreases ms.len(),
{
    if ms.len() == 0 {
        Seq::empty()
    } else {
        let m = ms.last();
        let rest = ready_ids(ms.drop_last(), ds, now);
        if m.status == MilestoneStatus::Pending && condition_met(ds, m.milestone_type, now) {
            rest.push(m.id)
        } else {
            rest
        }
    }
}

/// The status of `m` after the pending milestones whose condition holds have moved on.
pub open spec fn advanced_status(m: DaoMilestone, ds: Seq<DocumentRef>, now: u64) -> MilestoneStatus {
    if m.status == MilestoneStatus::Pending && condition_met(ds, m.milestone_type, now) {
        ready_status(m.milestone_type)
    } else {
        m.status
    }
}

/// Whether every required signer of `d` has signed it.
pub fn signed_by_all(d: &DocumentRef) -> (r: bool)
    ensures
        r == fully_signed(*d),
{
    let mut i: usize = 0;
    while i < d.required_signers.len()
        invariant
            0 <= i <= d.required_signers@.len(),
            forall|j: int| 0 <= j < i ==> d.current_signers@.contains(#[trigger] d.required_signers@[j]),
        decreases d.required_signers@.len() - i,
    {
        if !contains_id(&d.current_signers, &d.required_signers[i]) {
            return false;
        }
        i = i + 1;
    }
    assert forall|u: UserId| d.required_signers@.contains(u) implies d.current_signers@.contains(u) by {
        let j = choose|j: int| 0 <= j < d.required_signers@.len() && d.required_signers@[j] == u;
    }
    true
}

impl DaoAgreement {
    pub fn is_member_exec(&self, u: &UserId) -> (r: bool)
        ensures
            r == self.is_member(*u),
    {
        self.creator == *u || contains_id(&self.participants, u)
    }

    /// What funding by `funder` with `amount` comes to.
    pub open spec fn fund_outcome(self, funder: UserId, amount: u128) -> Result<(), Error> {
        if amount == 0 {
            Err(Error::InvalidAmount)
        } else if !self.is_member(funder) {
            Err(Error::Unauthorized)
        } else if self.total_funding + amount > u128::MAX {
            Err(Error::Overflow)
        } else {
            Ok(())
        }
    }

    /// Adds `amount` to the funding and to the escrow balance. Only members
    /// fund; a zero amount and a total that would not fit are refused.
    pub fn fund(&mut self, funder: UserId, amount: u128) -> (r: Result<(), Error>)
        requires
            old(self).wf(),
        ensures
            final(self).wf(),
            r == old(self).fund_outcome(funder, amount),
            r is Ok ==> {
                &&& final(self).total_funding == old(self).total_funding + amount
                &&& final(self).remaining_balance == old(self).remaining_balance + amount
                &&& final(self).milestones == old(self).milestones
                &&& final(self).same_frame(*old(self))
            },
            r is Err ==> *final(self) == *old(self),
    {
        if amount == 0 {
            return Err(Error::InvalidAmount);
        }
        if !self.is_member_exec(&funder) {
            return Err(Error::Unauthorized);
        }
        if amount > u128::MAX - self.total_funding {
            return Err(Error::Overflow);
        }
        self.total_funding = self.total_funding + amount;
        self.remaining_balance = self.remaining_balance + amount;
        Ok(())
    }

    /// What a vote by `voter` on milestone `id` comes to.
    pub open spec fn vote_outcome(self, id: u64, voter: UserId) -> Result<(), Error> {
        if !self.is_member(voter) {
            Err(Error::Unauthorized)
        } else if self.milestone_pos(id) < 0 {
            Err(Error::NotFound)
        } else if self.milestones@[self.milestone_pos(id)].status != MilestoneStatus::ReadyForVoting
            && self.milestones@[self.milestone_pos(id)].status != MilestoneStatus::VotingActive {
            Err(Error::NotReady)
        } else {
            Ok(())
        }
    }

    /// Casts a member's vote on a milestone that is open to voting. The vote
    /// replaces the member's earlier one; the milestone's status is then
    /// decided afresh from all its votes.
    pub fn vote(&mut self, milestone_id: u64, voter: UserId, approve: bool, now: u64) -> (r: Result<MilestoneStatus, Error>)
        requires
            old(self).wf(),
        ensures
            final(self).wf(),
            match old(self).vote_outcome(milestone_id, voter) {
                Err(e) => r == Err::<MilestoneStatus, Error>(e) && *final(self) == *old(self),
                Ok(_) => {
                    let p = old(self).milestone_pos(milestone_id);
                    let m = old(self).milestones@[p];
                    let votes = upsert_vote(m.votes@, (Vote { voter, approve, cast_at: now }));
                    let st = quorum_status(
                        approvals(votes) as int,
                        rejections(votes) as int,
                        old(self).voter_count(),
                        old(self).voting_threshold as int,
                    );
                    &&& r == Ok::<MilestoneStatus, Error>(st)
                    &&& st == old(self).status_after_vote(milestone_id, voter, approve, now)
                    &&& old(self).voted(*final(self), milestone_id, voter, approve, now)
                    &&& final(self).milestones@ == old(self).milestones@.update(p, final(self).milestones@[p])
                    &&& final(self).milestones@.len() == old(self).milestones@.len()
                    &&& final(self).milestones@[p].votes@ == votes
                    &&& final(self).milestones@[p].status == st
                    &&& final(self).milestones@[p].completed_at == m.completed_at
                    &&& same_terms(final(self).milestones@[p], m)
                    &&& forall|j: int| 0 <= j < old(self).milestones@.len() && j != p
                        ==> final(self).milestones@[j] == old(self).milestones@[j]
                    &&& final(self).same_frame(*old(self))
                    &&& final(self).total_funding == old(self).total_funding
                    &&& final(self).remaining_balance == old(self).remaining_balance
                },
            },
    {
        if !self.is_member_exec(&voter) {
            return Err(Error::Unauthorized);
        }
        let p = match self.find_milestone(milestone_id) {
            Some(p) => p,
            None => {
                return Err(Error::NotFound);
            },
        };
        proof {
            lemma_first_pos(milestone_ids(self.milestones@), milestone_id);
        }
        let st = self.milestones[p].status;
        if st != MilestoneStatus::ReadyForVoting && st != MilestoneStatus::VotingActive {
            return Err(Error::NotReady);
        }
        let ghost old_ms = self.milestones@;
        let n: u64 = self.participants.len() as u64 + 1;
        let threshold = self.voting_threshold;
        assert(voters_unique(self.milestones@[p as int].votes@));
        record_vote(&mut self.milestones[p].votes, Vote { voter, approve, cast_at: now });
        let new_status = tally(&self.milestones[p].votes, n, threshold);
        self.milestones[p].status = new_status;
        proof {
            let ms = self.milestones@;
            assert(ms =~= old_ms.update(p as int, ms[p as int]));
            lemma_reserved_update(old_ms, p as int, ms[p as int]);
            assert(milestone_ids(ms) =~= milestone_ids(old_ms));
            assert forall|i: int| 0 <= i < ms.len() implies voters_unique(#[trigger] ms[i].votes@) by {
                if i != p {
                    assert(ms[i] == old_ms[i]);
                }
            }
        }
        Ok(new_status)
    }

    /// Reserves the payout of an approved milestone: the milestone moves to
    /// `Executing` and its amount leaves the balance at once, before any
    /// transfer is attempted. Returns the recipient and the amount to transfer.
    pub fn begin_execution(&mut self, milestone_id: u64) -> (r: Result<(UserId, u128), Error>)
        requires
            old(self).wf(),
        ensures
            final(self).wf(),
            old(self).milestone_pos(milestone_id) < 0 ==> r == Err::<(UserId, u128), Error>(Error::NotFound),
            r is Err ==> *final(self) == *old(self),
            old(self).milestone_pos(milestone_id) >= 0 ==> {
                let p = old(self).milestone_pos(milestone_id);
                let m = old(self).milestones@[p];
                let gate = execution_gate(m.status, old(self).remaining_balance as int, m.amount as int);
                &&& (r is Ok <==> gate is Ok)
                &&& (gate matches Err(e) ==> r == Err::<(UserId, u128), Error>(e))
                &&& (r is Ok ==> {
                    &&& r == Ok::<(UserId, u128), Error>((m.recipient, m.amount))
                    &&& old(self).reserved_by(*final(self), milestone_id)
                    &&& final(self).milestones@ == old(self).milestones@.update(p, final(self).milestones@[p])
                    &&& final(self).milestones@[p].status == MilestoneStatus::Executing
                    &&& final(self).milestones@[p].votes == m.votes
                    &&& final(self).milestones@[p].completed_at == m.completed_at
                    &&& same_terms(final(self).milestones@[p], m)
                    &&& final(self).same_frame(*old(self))
                    &&& final(self).total_funding == old(self).total_funding
                    &&& final(self).remaining_balance == old(self).remaining_balance - m.amount
                })
            },
    {
        let p = match self.find_milestone(milestone_id) {
            Some(p) => p,
            None => {
                return Err(Error::NotFound);
            },
        };
        proof {
            lemma_first_pos(milestone_ids(self.milestones@), milestone_id);
        }
        if self.milestones[p].status != MilestoneStatus::Approved {
            return Err(Error::NotApproved);
        }
        let amount = self.milestones[p].amount;
        if self.remaining_balance < amount {
            return Err(Error::InsufficientBalance);
        }
        let ghost old_ms = self.milestones@;
        self.milestones[p].status = MilestoneStatus::Executing;
        self.remaining_balance = self.remaining_balance - amount;
        proof {
            let ms = self.milestones@;
            lemma_reserved_update(old_ms, p as int, ms[p as int]);
            assert(milestone_ids(ms) =~= milestone_ids(old_ms));
            assert forall|i: int| 0 <= i < ms.len() implies voters_unique(#[trigger] ms[i].votes@) by {
                assert(ms[i].votes == old_ms[i].votes);
            }
        }
        Ok((self.milestones[p].recipient, amount))
    }

    /// Settles a reserved payout after its transfer succeeded: the milestone
    /// becomes `Executed` and its completion time is stamped.
    pub fn finish_execution(&mut self, milestone_id: u64, now: u64) -> (r: Result<(), Error>)
        requires
            old(self).wf(),
        ensures
            final(self).wf(),
            old(self).milestone_pos(milestone_id) < 0 ==> r == Err::<(), Error>(Error::NotFound),
            r is Err ==> *final(self) == *old(self),
            old(self).milestone_pos(milestone_id) >= 0 ==> {
                let p = old(self).milestone_pos(milestone_id);
                let m = old(self).milestones@[p];
                &&& (m.status != MilestoneStatus::Executing ==> r == Err::<(), Error>(Error::NotReady))
                &&& (m.status == MilestoneStatus::Executing ==> {
                    &&& r is Ok
                    &&& final(self).milestones@ == old(self).milestones@.update(p, final(self).milestones@[p])
                    &&& final(self).milestones@[p].status == MilestoneStatus::Executed
                    &&& old(self).settled_by(*final(self), milestone_id, now)
                    &&& final(self).milestones@[p].completed_at == Some(now)
                    &&& final(self).milestones@[p].votes == m.votes
                    &&& same_terms(final(self).milestones@[p], m)
                    &&& final(self).same_frame(*old(self))
                    &&& final(self).total_funding == old(self).total_funding
                    &&& final(self).remaining_balance == old(self).remaining_balance
                })
            },
    {
        let p = match self.find_milestone(milestone_id) {
            Some(p) => p,
            None => {
                return Err(Error::NotFound);
            },
        };
        proof {
            lemma_first_pos(milestone_ids(self.milestones@), milestone_id);
        }
        if self.milestones[p].status != MilestoneStatus::Executing {
            return Err(Error::NotReady);
        }
        let ghost old_ms = self.milestones@;
        self.milestones[p].status = MilestoneStatus::Executed;
        self.milestones[p].completed_at = Some(now);
        proof {
            let ms = self.milestones@;
            assert(ms =~= old_ms.update(p as int, ms[p as int]));
            lemma_reserved_update(old_ms, p as int, ms[p as int]);
            assert(milestone_ids(ms) =~= milestone_ids(old_ms));
            assert forall|i: int| 0 <= i < ms.len() implies voters_unique(#[trigger] ms[i].votes@) by {
                assert(ms[i].votes == old_ms[i].votes);
            }
        }
        Ok(())
    }

    /// Undoes a reserved payout after its transfer failed: the milestone is
    /// `Approved` again and its amount is back in the balance.
    pub fn abort_execution(&mut self, milestone_id: u64) -> (r: Result<(), Error>)
        requires
            old(self).wf(),
        ensures
            final(self).wf(),
            old(self).milestone_pos(milestone_id) < 0 ==> r == Err::<(), Error>(Error::NotFound),
            r is Err ==> *final(self) == *old(self),
            old(self).milestone_pos(milestone_id) >= 0 ==> {
                let p = old(self).milestone_pos(milestone_id);
                let m = old(self).milestones@[p];
                &&& (m.status != MilestoneStatus::Executing ==> r == Err::<(), Error>(Error::NotReady))
                &&& (m.status == MilestoneStatus::Executing ==> {
                    &&& r is Ok
                    &&& final(self).milestones@ == old(self).milestones@.update(p, final(self).milestones@[p])
                    &&& final(self).milestones@[p].status == MilestoneStatus::Approved
                    &&& old(self).undone_by(*final(self), milestone_id)
                    &&& final(self).milestones@[p].completed_at == m.completed_at
                    &&& final(self).milestones@[p].votes == m.votes
                    &&& same_terms(final(self).milestones@[p], m)
                    &&& final(self).same_frame(*old(self))
                    &&& final(self).total_funding == old(self).total_funding
                    &&& final(self).remaining_balance == old(self).remaining_balance + m.amount
                })
            },
    {
        let p = match self.find_milestone(milestone_id) {
            Some(p) => p,
            None => {
                return Err(Error::NotFound);
            },
        };
        proof {
            lemma_first_pos(milestone_ids(self.milestones@), milestone_id);
        }
        if self.milestones[p].status != MilestoneStatus::Executing {
            return Err(Error::NotReady);
        }
        let ghost old_ms = self.milestones@;
        let amount = self.milestones[p].amount;
        self.milestones[p].status = MilestoneStatus::Approved;
        proof {
            let ms = self.milestones@;
            lemma_reserved_update(old_ms, p as int, ms[p as int]);
            lemma_reserved_nonneg(ms);
            assert(milestone_ids(ms) =~= milestone_ids(old_ms));
            assert forall|i: int| 0 <= i < ms.len() implies voters_unique(#[trigger] ms[i].votes@) by {
                assert(ms[i].votes == old_ms[i].votes);
            }
        }
        self.remaining_balance = self.remaining_balance + amount;
        Ok(())
    }
}

impl DaoAgreement {
    /// Pays out an approved milestone in one step, for a deployment whose
    /// transfer happens elsewhere: the amount leaves the balance, the
    /// milestone becomes `Executed` and its completion time is stamped.
    pub fn execute_now(&mut self, milestone_id: u64, now: u64) -> (r: Result<(), Error>)
        requires
            old(self).wf(),
        ensures
            final(self).wf(),
            old(self).milestone_pos(milestone_id) < 0 ==> r == Err::<(), Error>(Error::NotFound),
            r is Err ==> *final(self) == *old(self),
            old(self).milestone_pos(milestone_id) >= 0 ==> {
                let p = old(self).milestone_pos(milestone_id);
                let m = old(self).milestones@[p];
                let gate = execution_gate(m.status, old(self).remaining_balance as int, m.amount as int);
                &&& (r is Ok <==> gate is Ok)
                &&& (gate matches Err(e) ==> r == Err::<(), Error>(e))
                &&& (r is Ok ==> {
                    &&& final(self).milestones@ == old(self).milestones@.update(p, final(self).milestones@[p])
                    &&& final(self).milestones@[p].status == MilestoneStatus::Executed
                    &&& old(self).paid_by(*final(self), milestone_id, now)
                    &&& final(self).milestones@[p].completed_at == Some(now)
                    &&& final(self).milestones@[p].votes == m.votes
                    &&& same_terms(final(self).milestones@[p], m)
                    &&& final(self).same_frame(*old(self))
                    &&& final(self).total_funding == old(self).total_funding
                    &&& final(self).remaining_balance == old(self).remaining_balance - m.amount
                })
            },
    {
        match self.begin_execution(milestone_id) {
            Ok(_) => {
                proof {
                    lemma_first_pos(milestone_ids(old(self).milestones@), milestone_id);
                    assert(milestone_ids(self.milestones@) =~= milestone_ids(old(self).milestones@));
                }
                let r = self.finish_execution(milestone_id, now);
                proof {
                    let p = old(self).milestone_pos(milestone_id);
                    assert(self.milestones@ =~= old(self).milestones@.update(p, self.milestones@[p]));
                }
                r
            },
            Err(e) => Err(e),
        }
    }

    /// The tally of a milestone: its status, the votes each way, and the
    /// quorum among the participants and the creator.
    pub fn voting_info(&self, milestone_id: u64) -> (r: Result<MilestoneVotingInfo, Error>)
        requires
            self.wf(),
        ensures
            self.milestone_pos(milestone_id) < 0 ==> r is Err && r == Err::<MilestoneVotingInfo, Error>(Error::NotFound),
            self.milestone_pos(milestone_id) >= 0 ==> (r matches Ok(info) && {
                let m = self.milestones@[self.milestone_pos(milestone_id)];
                &&& info.milestone_id == milestone_id
                &&& info.status == m.status
                &&& info.approval_votes == approvals(m.votes@)
                &&& info.rejection_votes == rejections(m.votes@)
                &&& info.total_participants == self.voter_count()
                &&& info.required_votes == crate::milestone::required_votes_spec(self.voter_count(), self.voting_threshold as int)
                &&& info.voting_threshold == self.voting_threshold
            }),
    {
        let p = match self.find_milestone(milestone_id) {
            Some(p) => p,
            None => {
                return Err(Error::NotFound);
            },
        };
        proof {
            lemma_first_pos(milestone_ids(self.milestones@), milestone_id);
        }
        let n: u64 = self.participants.len() as u64 + 1;
        let (yes, no) = crate::milestone::count_votes(&self.milestones[p].votes);
        let req = required_votes(n, self.voting_threshold);
        Ok(MilestoneVotingInfo {
            milestone_id,
            status: self.milestones[p].status,
            approval_votes: yes,
            rejection_votes: no,
            total_participants: n,
            required_votes: req,
            voting_threshold: self.voting_threshold,
        })
    }

    /// Whether the document with this id is known and fully signed.
    pub fn document_ready(&self, doc_id: &String) -> (r: bool)
        ensures
            r == doc_ready(self.documents@, doc_id@),
    {
        let mut i: usize = 0;
        while i < self.documents.len()
            invariant
                0 <= i <= self.documents@.len(),
                forall|j: int| 0 <= j < i ==> doc_ids(self.documents@)[j] != doc_id@,
            decreases self.documents@.len() - i,
        {
            if self.documents[i].doc_id == *doc_id {
                proof {
                    lemma_first_pos_at(doc_ids(self.documents@), doc_id@, i as int);
                }
                return signed_by_all(&self.documents[i]);
            }
            i = i + 1;
        }
        proof {
            lemma_first_pos(doc_ids(self.documents@), doc_id@);
        }
        false
    }

    /// Whether every document with one of these ids is known and fully signed.
    pub fn all_documents_ready(&self, ids: &Vec<String>) -> (r: bool)
        ensures
            r == forall|k: int| 0 <= k < ids@.len() ==> doc_ready(self.documents@, #[trigger] ids@[k]@),
    {
        let mut i: usize = 0;
        while i < ids.len()
            invariant
                0 <= i <= ids@.len(),
                forall|k: int| 0 <= k < i ==> doc_ready(self.documents@, #[trigger] ids@[k]@),
            decreases ids@.len() - i,
        {
            if !self.document_ready(&ids[i]) {
                assert(!doc_ready(self.documents@, ids@[i as int]@));
                return false;
            }
            i = i + 1;
        }
        true
    }

    /// Whether the release condition of a milestone of this type holds at `now`.
    pub fn condition_holds(&self, t: &MilestoneType, now: u64) -> (r: bool)
        ensures
            r == condition_met(self.documents@, *t, now),
    {
        match t {
            MilestoneType::DocumentSignature { required_doc_id } => self.document_ready(required_doc_id),
            MilestoneType::TimeRelease { release_time } => now >= *release_time,
            MilestoneType::ManualApproval => true,
            MilestoneType::MultiCondition { required_docs, requires_vote: _, min_time } => {
                let docs_signed = self.all_documents_ready(required_docs);
                let time_passed = match min_time {
                    Some(t) => now >= *t,
                    None => true,
                };
                docs_signed && time_passed
            },
        }
    }

    /// Whether the release condition of the milestone with this id holds at `now`.
    pub fn check_milestone_conditions(&self, milestone_id: u64, now: u64) -> (r: bool)
        ensures
            r == (self.milestone_pos(milestone_id) >= 0 && condition_met(
                self.documents@,
                self.milestones@[self.milestone_pos(milestone_id)].milestone_type,
                now,
            )),
    {
        let found = self.find_milestone(milestone_id);
        proof {
            lemma_first_pos(milestone_ids(self.milestones@), milestone_id);
        }
        match found {
            Some(p) => self.condition_holds(&self.milestones[p].milestone_type, now),
            None => false,
        }
    }

    /// Moves every pending milestone whose condition holds at `now` on: a
    /// signature milestone to `Approved`, any other to `ReadyForVoting`.
    /// Returns the ids of those that moved, in order.
    pub fn advance_ready_milestones(&mut self, now: u64) -> (r: Vec<u64>)
        requires
            old(self).wf(),
        ensures
            final(self).wf(),
            r@ == ready_ids(old(self).milestones@, old(self).documents@, now),
            final(self).milestones@.len() == old(self).milestones@.len(),
            forall|j: int| 0 <= j < old(self).milestones@.len() ==> {
                let m = #[trigger] old(self).milestones@[j];
                &&& final(self).milestones@[j].status == advanced_status(m, old(self).documents@, now)
                &&& final(self).milestones@[j].votes == m.votes
                &&& final(self).milestones@[j].completed_at == m.completed_at
                &&& same_terms(final(self).milestones@[j], m)
            },
            final(self).same_frame(*old(self)),
            final(self).total_funding == old(self).total_funding,
            final(self).remaining_balance == old(self).remaining_balance,
    {
        let ghost old_ms = self.milestones@;
        let mut ready: Vec<u64> = Vec::new();
        let mut i: usize = 0;
        while i < self.milestones.len()
            invariant
                0 <= i <= self.milestones@.len(),
                self.milestones@.len() == old_ms.len(),
                self.wf(),
                self.same_frame(*old(self)),
                self.total_funding == old(self).total_funding,
                self.remaining_balance == old(self).remaining_balance,
                old_ms == old(self).milestones@,
                ready@ == ready_ids(old_ms.take(i as int), old(self).documents@, now),
                forall|j: int| 0 <= j < old_ms.len() ==> {
                    let m = #[trigger] old_ms[j];
                    &&& self.milestones@[j].status == (if j < i { advanced_status(m, old(self).documents@, now) } else { m.status })
                    &&& self.milestones@[j].votes == m.votes
                    &&& self.milestones@[j].completed_at == m.completed_at
                    &&& same_terms(self.milestones@[j], m)
                },
            decreases old_ms.len() - i,
        {
            assert(old_ms.take(i as int + 1).drop_last() =~= old_ms.take(i as int));
            let ghost before = self.milestones@;
            if self.milestones[i].status == MilestoneStatus::Pending
                && self.condition_holds(&self.milestones[i].milestone_type, now) {
                let next = match &self.milestones[i].milestone_type {
                    MilestoneType::DocumentSignature { .. } => MilestoneStatus::Approved,
                    _ => MilestoneStatus::ReadyForVoting,
                };
                self.milestones[i].status = next;
                ready.push(self.milestones[i].id);
                proof {
                    let ms = self.milestones@;
                    assert(ms =~= before.update(i as int, ms[i as int]));
                    lemma_reserved_update(before, i as int, ms[i as int]);
                    assert(milestone_ids(ms) =~= milestone_ids(before));
                    assert forall|k: int| 0 <= k < ms.len() implies voters_unique(#[trigger] ms[k].votes@) by {
                        assert(ms[k].votes == before[k].votes);
                    }
                }
            }
            i = i + 1;
        }
        assert(old_ms.take(i as int) =~= old_ms);
        ready
    }
}

impl DaoAgreement {
    /// The position of the document with this id, or -1.
    pub open spec fn doc_pos(self, id: Seq<char>) -> int {
        first_pos(doc_ids(self.documents@), id)
    }

    /// What a signature by `signer` on the document with this id comes to.
    pub open spec fn sign_outcome(self, doc_id: Seq<char>, signer: UserId) -> Result<(), Error> {
        if self.doc_pos(doc_id) < 0 {
            Err(Error::NotFound)
        } else if !self.documents@[self.doc_pos(doc_id)].required_signers@.contains(signer) {
            Err(Error::Unauthorized)
        } else if self.documents@[self.doc_pos(doc_id)].current_signers@.contains(signer) {
            Err(Error::AlreadySigned)
        } else {
            Ok(())
        }
    }

    /// The position of the document with this id, if any.
    pub fn find_document(&self, doc_id: &String) -> (r: Option<usize>)
        ensures
            match r {
                Some(p) => p as int == self.doc_pos(doc_id@),
                None => self.doc_pos(doc_id@) == -1,
            },
    {
        let mut i: usize = 0;
        while i < self.documents.len()
            invariant
                0 <= i <= self.documents@.len(),
                forall|j: int| 0 <= j < i ==> doc_ids(self.documents@)[j] != doc_id@,
            decreases self.documents@.len() - i,
        {
            if self.documents[i].doc_id == *doc_id {
                proof {
                    lemma_first_pos_at(doc_ids(self.documents@), doc_id@, i as int);
                }
                return Some(i);
            }
            i = i + 1;
        }
        proof {
            lemma_first_pos(doc_ids(self.documents@), doc_id@);
        }
        None
    }

    /// Records a required signer's signature on a document of the agreement,
    /// refreshes whether everyone required has signed, and moves on the
    /// pending milestones whose condition now holds. Returns their ids.
    pub fn sign_document(&mut self, doc_id: &String, signer: UserId, now: u64) -> (r: Result<Vec<u64>, Error>)
        requires
            old(self).wf(),
        ensures
            final(self).wf(),
            match old(self).sign_outcome(doc_id@, signer) {
                Err(e) => r == Err::<Vec<u64>, Error>(e) && *final(self) == *old(self),
                Ok(_) => {
                    let p = old(self).doc_pos(doc_id@);
                    let d = old(self).documents@[p];
                    let nd = final(self).documents@[p];
                    &&& final(self).documents@ == old(self).documents@.update(p, nd)
                    &&& nd.doc_id == d.doc_id
                    &&& nd.title == d.title
                    &&& nd.required_signers == d.required_signers
                    &&& nd.current_signers@ == d.current_signers@.push(signer)
                    &&& nd.is_signed_by_all == fully_signed(nd)
                    &&& (r matches Ok(ids) && ids@ == ready_ids(old(self).milestones@, final(self).documents@, now))
                    &&& final(self).milestones@.len() == old(self).milestones@.len()
                    &&& forall|j: int| 0 <= j < old(self).milestones@.len() ==> {
                        let m = #[trigger] old(self).milestones@[j];
                        &&& final(self).milestones@[j].status == advanced_status(m, final(self).documents@, now)
                        &&& final(self).milestones@[j].votes == m.votes
                        &&& final(self).milestones@[j].completed_at == m.completed_at
                        &&& same_terms(final(self).milestones@[j], m)
                    }
                    &&& final(self).id == old(self).id
                    &&& final(self).title == old(self).title
                    &&& final(self).description == old(self).description
                    &&& final(self).creator == old(self).creator
                    &&& final(self).participants == old(self).participants
                    &&& final(self).voting_threshold == old(self).voting_threshold
                    &&& final(self).status == old(self).status
                    &&& final(self).created_at == old(self).created_at
                    &&& final(self).total_funding == old(self).total_funding
                    &&& final(self).remaining_balance == old(self).remaining_balance
                },
            },
    {
        let p = match self.find_document(doc_id) {
            Some(p) => p,
            None => {
                return Err(Error::NotFound);
            },
        };
        proof {
            lemma_first_pos(doc_ids(self.documents@), doc_id@);
        }
        if !contains_id(&self.documents[p].required_signers, &signer) {
            return Err(Error::Unauthorized);
        }
        if contains_id(&self.documents[p].current_signers, &signer) {
            return Err(Error::AlreadySigned);
        }
        self.documents[p].current_signers.push(signer);
        let all = signed_by_all(&self.documents[p]);
        self.documents[p].is_signed_by_all = all;
        let ids = self.advance_ready_milestones(now);
        Ok(ids)
    }

    /// Admits a participant; one already admitted is refused.
    pub fn add_participant(&mut self, participant: UserId) -> (r: Result<(), Error>)
        requires
            old(self).wf(),
            old(self).participants@.len() + 2 <= u64::MAX,
        ensures
            final(self).wf(),
            old(self).participants@.contains(participant) ==> r == Err::<(), Error>(Error::AlreadyExists)
                && *final(self) == *old(self),
            !old(self).participants@.contains(participant) ==> {
                &&& r is Ok
                &&& final(self).participants@ == old(self).participants@.push(participant)
                &&& final(self).milestones == old(self).milestones
                &&& final(self).documents == old(self).documents
                &&& final(self).id == old(self).id
                &&& final(self).creator == old(self).creator
                &&& final(self).voting_threshold == old(self).voting_threshold
                &&& final(self).total_funding == old(self).total_funding
                &&& final(self).remaining_balance == old(self).remaining_balance
            },
    {
        if contains_id(&self.participants, &participant) {
            return Err(Error::AlreadyExists);
        }
        self.participants.push(participant);
        Ok(())
    }

    /// Adds a milestone, pending and without votes; one whose id is taken
    /// is refused with `AlreadyExists`.
    pub fn add_milestone(&mut self, mut milestone: DaoMilestone) -> (r: Result<(), Error>)
        requires
            old(self).wf(),
        ensures
            final(self).wf(),
            old(self).milestone_pos(milestone.id) >= 0 ==> r == Err::<(), Error>(Error::AlreadyExists),
            r is Err ==> *final(self) == *old(self),
            old(self).milestone_pos(milestone.id) < 0 ==> {
                &&& r is Ok
                &&& final(self).milestones@ == old(self).milestones@.push(final(self).milestones@.last())
                &&& same_terms(final(self).milestones@.last(), milestone)
                &&& fresh_milestone(final(self).milestones@.last())
                &&& final(self).same_frame(*old(self))
                &&& final(self).total_funding == old(self).total_funding
                &&& final(self).remaining_balance == old(self).remaining_balance
            },
    {
        if self.find_milestone(milestone.id).is_some() {
            return Err(Error::AlreadyExists);
        }
        proof {
            lemma_first_pos(milestone_ids(self.milestones@), milestone.id);
        }
        milestone.status = MilestoneStatus::Pending;
        milestone.votes = Vec::new();
        milestone.completed_at = None;
        let ghost old_ms = self.milestones@;
        self.milestones.push(milestone);
        proof {
            let ms = self.milestones@;
            assert(ms.drop_last() =~= old_ms);
            assert(milestone_ids(ms) =~= milestone_ids(old_ms).push(ms.last().id));
            assert forall|i: int| 0 <= i < ms.len() implies voters_unique(#[trigger] ms[i].votes@) by {
                if i < old_ms.len() {
                    assert(ms[i] == old_ms[i]);
                }
            }
        }
        Ok(())
    }
}

impl DaoAgreement {
    /// Whether funding by `funder` with `amount` would be accepted, and if not why.
    pub fn fund_check(&self, funder: UserId, amount: u128) -> (r: Result<(), Error>)
        ensures
            r == self.fund_outcome(funder, amount),
    {
        if amount == 0 {
            return Err(Error::InvalidAmount);
        }
        if !self.is_member_exec(&funder) {
            return Err(Error::Unauthorized);
        }
        if amount > u128::MAX - self.total_funding {
            return Err(Error::Overflow);
        }
        Ok(())
    }

    /// Whether a vote by `voter` on milestone `id` would be accepted, and if not why.
    pub fn vote_check(&self, milestone_id: u64, voter: UserId) -> (r: Result<(), Error>)
        ensures
            r == self.vote_outcome(milestone_id, voter),
    {
        if !self.is_member_exec(&voter) {
            return Err(Error::Unauthorized);
        }
        let p = match self.find_milestone(milestone_id) {
            Some(p) => p,
            None => {
                return Err(Error::NotFound);
            },
        };
        proof {
            lemma_first_pos(milestone_ids(self.milestones@), milestone_id);
        }
        let st = self.milestones[p].status;
        if st != MilestoneStatus::ReadyForVoting && st != MilestoneStatus::VotingActive {
            return Err(Error::NotReady);
        }
        Ok(())
    }

    /// Whether milestone `id` may be paid out now, and if not why.
    pub fn execution_check(&self, milestone_id: u64) -> (r: Result<(), Error>)
        ensures
            self.milestone_pos(milestone_id) < 0 ==> r == Err::<(), Error>(Error::NotFound),
            self.milestone_pos(milestone_id) >= 0 ==> r == execution_gate(
                self.milestones@[self.milestone_pos(milestone_id)].status,
                self.remaining_balance as int,
                self.milestones@[self.milestone_pos(milestone_id)].amount as int,
            ),
    {
        let p = match self.find_milestone(milestone_id) {
            Some(p) => p,
            None => {
                return Err(Error::NotFound);
            },
        };
        proof {
            lemma_first_pos(milestone_ids(self.milestones@), milestone_id);
        }
        if self.milestones[p].status != MilestoneStatus::Approved {
            return Err(Error::NotApproved);
        }
        if self.remaining_balance < self.milestones[p].amount {
            return Err(Error::InsufficientBalance);
        }
        Ok(())
    }
}

/// Changing one milestone while keeping its terms keeps every milestone where it was.
pub proof fn lemma_milestone_pos_kept(a: DaoAgreement, b: DaoAgreement, id: u64, other: u64)
    requires
        a.milestone_pos(id) >= 0,
        a.only_milestone_changed(b, id),
    ensures
        b.milestone_pos(other) == a.milestone_pos(other),
{
    lemma_first_pos(milestone_ids(a.milestones@), id);
    assert(milestone_ids(b.milestones@) =~= milestone_ids(a.milestones@));
}

/// Once a payout of milestone `id` has been reserved, settled, or made in
/// one step, a further execution of that milestone is refused with
/// `NotApproved`: the milestone pays at most once at a time.
pub proof fn no_second_payout(a: DaoAgreement, b: DaoAgreement, id: u64, now: u64)
    requires
        a.milestone_pos(id) >= 0,
        a.reserved_by(b, id) || a.settled_by(b, id, now) || a.paid_by(b, id, now),
    ensures
        b.milestone_pos(id) == a.milestone_pos(id),
        execution_gate(
            b.milestones@[b.milestone_pos(id)].status,
            b.remaining_balance as int,
            b.milestones@[b.milestone_pos(id)].amount as int,
        ) == Err::<(), Error>(Error::NotApproved),
{
    lemma_milestone_pos_kept(a, b, id, id);
}

} // verus!
