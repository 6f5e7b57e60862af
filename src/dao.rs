use vstd::prelude::*;
use crate::agreement::{DaoAgreement, DaoMilestone, DocumentRef, execution_gate};
use crate::error::Error;
use crate::ids::UserId;
use crate::lookup::{first_pos, lemma_first_pos, lemma_first_pos_at};
use crate::milestone::{MilestoneStatus, MilestoneVotingInfo};

verus! {

/// An agreement of the single-executor deployment.
pub type Agreement = DaoAgreement;

/// A milestone of the single-executor deployment.
pub type Milestone = DaoMilestone;

/// What an audit event records.
#[derive(Clone, Copy, Debug, PartialEq, Eq, Structural)]
pub enum EventKind {
    CreateAgreement,
    AddParticipant,
    SignDocument,
    FundAgreement,
    VoteMilestone,
    ExecuteMilestone,
}

/// An entry of the append-only audit trail.
#[derive(Clone, Debug)]
pub struct Event {
    pub event_type: EventKind,
    pub agreement_id: String,
    pub milestone_id: Option<u64>,
    pub document_id: Option<String>,
    pub actor: UserId,
    pub timestamp: u64,
}

/// A payout that has been reserved and now has to be transferred.
#[derive(Clone, Copy, Debug)]
pub struct TransferOrder {
    pub recipient: UserId,
    pub amount: u128,
}

/// Why the ledger refused a transfer.
#[derive(Clone, Debug)]
pub enum ICRC1TransferError {
    BadFee { expected_fee: u128 },
    BadBurn { min_burn_amount: u128 },
    InsufficientFunds { balance: u128 },
    TooOld,
    CreatedInFuture { ledger_time: u64 },
    Duplicate { duplicate_of: u128 },
    TemporarilyUnavailable,
    GenericError { error_code: u128, message: String },
}

/// The ledger's answer to a transfer: the block index, or why it refused.
#[derive(Clone, Debug)]
pub enum ICRC1TransferResult {
    Transferred(u128),
    Refused(ICRC1TransferError),
}

/// The store of the single-executor deployment: every agreement, the audit
/// trail, and the administrator.
pub struct CanisterState {
    pub agreements: Vec<DaoAgreement>,
    pub events: Vec<Event>,
    pub admin: UserId,
    /// The raw id of the ledger that payouts are transferred through.
    pub ledger_canister_id: Vec<u8>,
}

pub open spec fn agreement_ids(s: Seq<DaoAgreement>) -> Seq<Seq<char>> {
    s.map_values(|a: DaoAgreement| a.id@)
}

impl CanisterState {
    /// Agreement ids are unique and every agreement keeps its invariant.
    pub open spec fn wf(self) -> bool {
        &&& agreement_ids(self.agreements@).no_duplicates()
        &&& forall|i: int| 0 <= i < self.agreements@.len() ==> (#[trigger] self.agreements@[i]).wf()
    }

    /// The position of the agreement with this id, or -1.
    pub open spec fn pos(self, id: Seq<char>) -> int {
        first_pos(agreement_ids(self.agreements@), id)
    }

    /// The agreement with this id; meaningful where `pos(id) >= 0`.
    pub open spec fn agreement(self, id: Seq<char>) -> DaoAgreement {
        self.agreements@[self.pos(id)]
    }

    /// The member check of this deployment: the creator, a participant, or the administrator.
    pub open spec fn participant(self, id: Seq<char>, user: UserId) -> bool {
        self.pos(id) >= 0 && (self.agreement(id).is_member(user) || self.admin == user)
    }

    /// The other agreements and the administrator are as they were; only
    /// the agreement at `p` may differ, keeping its id.
    pub open spec fn changes_only(self, old: CanisterState, p: int) -> bool {
        &&& self.admin == old.admin
        &&& self.agreements@.len() == old.agreements@.len()
        &&& self.agreements@[p].id == old.agreements@[p].id
        &&& forall|j: int| 0 <= j < old.agreements@.len() && j != p ==> self.agreements@[j] == old.agreements@[j]
    }

    /// An empty store administered by `admin`, paying through the ledger `ledger_canister_id`.
    pub fn init(admin: UserId, ledger_canister_id: Vec<u8>) -> (r: CanisterState)
        ensures
            r.wf(),
            r.agreements@.len() == 0,
            r.events@.len() == 0,
            r.admin == admin,
            r.ledger_canister_id == ledger_canister_id,
    {
        CanisterState { agreements: Vec::new(), events: Vec::new(), admin, ledger_canister_id }
    }

    /// Points payouts at another ledger; only the administrator may.
    pub fn set_ledger_canister_id(&mut self, caller: UserId, canister_id: Vec<u8>) -> (r: Result<(), Error>)
        requires
            old(self).wf(),
        ensures
            final(self).wf(),
            caller != old(self).admin ==> r == Err::<(), Error>(Error::Unauthorized) && *final(self) == *old(self),
            caller == old(self).admin ==> r is Ok && final(self).ledger_canister_id == canister_id
                && final(self).agreements == old(self).agreements && final(self).admin == old(self).admin,
    {
        if caller != self.admin {
            return Err(Error::Unauthorized);
        }
        self.ledger_canister_id = canister_id;
        Ok(())
    }

    /// The position of the agreement with this id, if any.
    pub fn find(&self, id: &String) -> (r: Option<usize>)
        ensures
            match r {
                Some(p) => p as int == self.pos(id@),
                None => self.pos(id@) == -1,
            },
            -1 <= self.pos(id@) < self.agreements@.len(),
    {
        proof {
            lemma_first_pos(agreement_ids(self.agreements@), id@);
        }
        let mut i: usize = 0;
        while i < self.agreements.len()
            invariant
                0 <= i <= self.agreements@.len(),
                forall|j: int| 0 <= j < i ==> agreement_ids(self.agreements@)[j] != id@,
            decreases self.agreements@.len() - i,
        {
            if self.agreements[i].id == *id {
                proof {
                    lemma_first_pos_at(agreement_ids(self.agreements@), id@, i as int);
                }
                return Some(i);
            }
            i = i + 1;
        }
        proof {
            lemma_first_pos(agreement_ids(self.agreements@), id@);
        }
        None
    }

    /// Appends an entry to the audit trail.
    fn add_event(&mut self, e: Event)
        ensures
            final(self).events@ == old(self).events@.push(e),
            final(self).agreements == old(self).agreements,
            final(self).admin == old(self).admin,
    {
        self.events.push(e);
    }

    /// Whether `user` may act on the agreement: its creator, a participant,
    /// or the administrator. An unknown agreement has no participants.
    pub fn is_participant(&self, agreement_id: &String, user: UserId) -> (r: bool)
        ensures
            r == self.participant(agreement_id@, user),
    {
        match self.find(agreement_id) {
            Some(p) => self.agreements[p].is_member_exec(&user) || self.admin == user,
            None => false,
        }
    }

    /// Opens an agreement created by `caller`. The terms are checked as
    /// `DaoAgreement::create` checks them; an id in use is refused with
    /// `AlreadyExists`.
    pub fn create_agreement(
        &mut self,
        caller: UserId,
        now: u64,
        id: String,
        title: String,
        description: String,
        participants: &Vec<UserId>,
        documents: Vec<DocumentRef>,
        milestones: Vec<DaoMilestone>,
        voting_threshold: u8,
        total_funding: u128,
    ) -> (r: Result<(), Error>)
        requires
            old(self).wf(),
            participants@.len() + 1 <= u64::MAX,
        ensures
            final(self).wf(),
            !DaoAgreement::valid_terms(id@, title@, milestones@, voting_threshold, total_funding)
                ==> r == Err::<(), Error>(Error::InvalidInput),
            DaoAgreement::valid_terms(id@, title@, milestones@, voting_threshold, total_funding)
                && old(self).pos(id@) >= 0 ==> r == Err::<(), Error>(Error::AlreadyExists),
            r is Err ==> final(self).agreements@ == old(self).agreements@ && final(self).events == old(self).events,
            r is Ok <==> DaoAgreement::valid_terms(id@, title@, milestones@, voting_threshold, total_funding)
                && old(self).pos(id@) < 0,
            r is Ok ==> {
                let a = final(self).agreements@.last();
                &&& final(self).agreements@ == old(self).agreements@.push(a)
                &&& a.id == id
                &&& a.title == title
                &&& a.creator == caller
                &&& a.participants@.no_duplicates()
                &&& (forall|u: UserId| a.participants@.contains(u) <==> participants@.contains(u))
                &&& a.status == crate::milestone::AgreementStatus::Active
                &&& a.voting_threshold == voting_threshold
                &&& a.milestones@.len() == milestones@.len()
                &&& (forall|i: int| 0 <= i < milestones@.len() ==> crate::agreement::same_terms(#[trigger] a.milestones@[i], milestones@[i])
                    && crate::agreement::fresh_milestone(a.milestones@[i]))
                &&& a.total_funding == total_funding
                &&& a.remaining_balance == 0
                &&& final(self).events@.len() == old(self).events@.len() + 1
            },
            final(self).admin == old(self).admin,
    {
        let exists = self.find(&id).is_some();
        let a = match DaoAgreement::create(
            id, title, description, caller, participants, documents, milestones, voting_threshold,
            total_funding, now,
        ) {
            Ok(a) => a,
            Err(e) => {
                return Err(e);
            },
        };
        if exists {
            return Err(Error::AlreadyExists);
        }
        let agreement_id = a.id.clone();
        let ghost old_agreements = self.agreements@;
        self.agreements.push(a);
        proof {
            lemma_first_pos(agreement_ids(old_agreements), agreement_id@);
            assert(agreement_ids(self.agreements@) =~= agreement_ids(old_agreements).push(agreement_id@));
            assert forall|i: int| 0 <= i < self.agreements@.len() implies (#[trigger] self.agreements@[i]).wf() by {
                if i < old_agreements.len() {
                    assert(self.agreements@[i] == old_agreements[i]);
                }
            }
        }
        self.add_event(Event {
            event_type: EventKind::CreateAgreement,
            agreement_id,
            milestone_id: None,
            document_id: None,
            actor: caller,
            timestamp: now,
        });
        Ok(())
    }
}

/// Replacing one agreement by a well-formed one with the same id keeps the store well formed.
proof fn lemma_replace_keeps_wf(s: Seq<DaoAgreement>, p: int, a: DaoAgreement)
    requires
        0 <= p < s.len(),
        agreement_ids(s).no_duplicates(),
        forall|i: int| 0 <= i < s.len() ==> (#[trigger] s[i]).wf(),
        a.wf(),
        a.id == s[p].id,
    ensures
        agreement_ids(s.update(p, a)) == agreement_ids(s),
        forall|i: int| 0 <= i < s.len() ==> (#[trigger] s.update(p, a)[i]).wf(),
{
    assert(agreement_ids(s.update(p, a)) =~= agreement_ids(s));
}

impl CanisterState {
    /// Admits `participant` to an agreement; only its creator or the
    /// administrator may do so.
    pub fn add_participant(&mut self, caller: UserId, now: u64, agreement_id: &String, participant: UserId) -> (r: Result<(), Error>)
        requires
            old(self).wf(),
        ensures
            final(self).wf(),
            old(self).pos(agreement_id@) < 0 ==> r == Err::<(), Error>(Error::NotFound),
            old(self).pos(agreement_id@) >= 0 ==> {
                let a = old(self).agreement(agreement_id@);
                &&& (caller != a.creator && caller != old(self).admin ==> r == Err::<(), Error>(Error::Unauthorized))
                &&& ((caller == a.creator || caller == old(self).admin) && a.participants@.contains(participant)
                    ==> r == Err::<(), Error>(Error::AlreadyExists))
                &&& ((caller == a.creator || caller == old(self).admin) && !a.participants@.contains(participant)
                    && a.participants@.len() + 2 > u64::MAX ==> r == Err::<(), Error>(Error::InvalidInput))
                &&& (r is Ok ==> {
                    &&& final(self).changes_only(*old(self), old(self).pos(agreement_id@))
                    &&& final(self).agreement(agreement_id@).participants@ == a.participants@.push(participant)
                    &&& final(self).agreement(agreement_id@).milestones == a.milestones
                })
                &&& (r is Ok <==> (caller == a.creator || caller == old(self).admin)
                    && !a.participants@.contains(participant) && a.participants@.len() + 2 <= u64::MAX)
            },
            r is Err ==> final(self).agreements@ == old(self).agreements@ && final(self).events == old(self).events,
            final(self).admin == old(self).admin,
    {
        let p = match self.find(agreement_id) {
            Some(p) => p,
            None => {
                return Err(Error::NotFound);
            },
        };
        if caller != self.agreements[p].creator && caller != self.admin {
            return Err(Error::Unauthorized);
        }
        if crate::agreement::contains_id(&self.agreements[p].participants, &participant) {
            return Err(Error::AlreadyExists);
        }
        if self.agreements[p].participants.len() as u64 > u64::MAX - 2 {
            return Err(Error::InvalidInput);
        }
        let ghost old_agreements = self.agreements@;
        let r = self.agreements[p].add_participant(participant);
        proof {
            lemma_replace_keeps_wf(old_agreements, p as int, self.agreements@[p as int]);
            assert(self.agreements@ =~= old_agreements.update(p as int, self.agreements@[p as int]));
            lemma_first_pos(agreement_ids(self.agreements@), agreement_id@);
        }
        self.add_event(Event {
            event_type: EventKind::AddParticipant,
            agreement_id: agreement_id.clone(),
            milestone_id: None,
            document_id: None,
            actor: caller,
            timestamp: now,
        });
        r
    }

    /// Signs a document of an agreement on behalf of `caller` and moves on
    /// the milestones whose condition now holds; returns their ids.
    pub fn sign_document(&mut self, caller: UserId, now: u64, agreement_id: &String, doc_id: &String) -> (r: Result<Vec<u64>, Error>)
        requires
            old(self).wf(),
        ensures
            final(self).wf(),
            !old(self).participant(agreement_id@, caller) ==> r is Err && r == Err::<Vec<u64>, Error>(Error::Unauthorized),
            old(self).participant(agreement_id@, caller) ==> {
                let a = old(self).agreement(agreement_id@);
                &&& (a.sign_outcome(doc_id@, caller) matches Err(e) ==> r is Err && r == Err::<Vec<u64>, Error>(e))
                &&& (r is Ok <==> a.sign_outcome(doc_id@, caller) is Ok)
                &&& (r is Ok ==> {
                    let b = final(self).agreement(agreement_id@);
                    let q = a.doc_pos(doc_id@);
                    &&& final(self).changes_only(*old(self), old(self).pos(agreement_id@))
                    &&& b.documents@[q].current_signers@ == a.documents@[q].current_signers@.push(caller)
                    &&& b.documents@[q].is_signed_by_all == crate::agreement::fully_signed(b.documents@[q])
                    &&& (r matches Ok(ids) && ids@ == crate::agreement::ready_ids(a.milestones@, b.documents@, now))
                    &&& b.milestones@.len() == a.milestones@.len()
                    &&& (forall|j: int| 0 <= j < a.milestones@.len() ==> (#[trigger] b.milestones@[j]).status
                        == crate::agreement::advanced_status(a.milestones@[j], b.documents@, now)
                        && b.milestones@[j].votes == a.milestones@[j].votes
                        && b.milestones@[j].completed_at == a.milestones@[j].completed_at
                        && crate::agreement::same_terms(b.milestones@[j], a.milestones@[j]))
                    &&& b.remaining_balance == a.remaining_balance
                    &&& final(self).events@.len() == old(self).events@.len() + 1
                })
            },
            r is Err ==> final(self).agreements@ == old(self).agreements@ && final(self).events == old(self).events,
            final(self).admin == old(self).admin,
    {
        if !self.is_participant(agreement_id, caller) {
            return Err(Error::Unauthorized);
        }
        let p = match self.find(agreement_id) {
            Some(p) => p,
            None => {
                return Err(Error::NotFound);
            },
        };
        let ghost old_agreements = self.agreements@;
        let r = self.agreements[p].sign_document(doc_id, caller, now);
        proof {
            lemma_replace_keeps_wf(old_agreements, p as int, self.agreements@[p as int]);
            assert(self.agreements@ =~= old_agreements.update(p as int, self.agreements@[p as int]));
            lemma_first_pos(agreement_ids(self.agreements@), agreement_id@);
        }
        if r.is_ok() {
            self.add_event(Event {
                event_type: EventKind::SignDocument,
                agreement_id: agreement_id.clone(),
                milestone_id: None,
                document_id: Some(doc_id.clone()),
                actor: caller,
                timestamp: now,
            });
        }
        r
    }

    /// Funds an agreement with `amount` on behalf of `caller`.
    pub fn fund_agreement(&mut self, caller: UserId, now: u64, agreement_id: &String, amount: u128) -> (r: Result<(), Error>)
        requires
            old(self).wf(),
        ensures
            final(self).wf(),
            old(self).pos(agreement_id@) < 0 ==> r == Err::<(), Error>(Error::NotFound),
            old(self).pos(agreement_id@) >= 0 ==> {
                let a = old(self).agreement(agreement_id@);
                let b = final(self).agreement(agreement_id@);
                &&& r == a.fund_outcome(caller, amount)
                &&& (r is Ok ==> {
                    &&& final(self).changes_only(*old(self), old(self).pos(agreement_id@))
                    &&& b.total_funding == a.total_funding + amount
                    &&& b.remaining_balance == a.remaining_balance + amount
                    &&& b.milestones == a.milestones
                    &&& final(self).events@.len() == old(self).events@.len() + 1
                })
            },
            r is Err ==> final(self).agreements@ == old(self).agreements@ && final(self).events == old(self).events,
            final(self).admin == old(self).admin,
    {
        let p = match self.find(agreement_id) {
            Some(p) => p,
            None => {
                return Err(Error::NotFound);
            },
        };
        let ghost old_agreements = self.agreements@;
        let r = self.agreements[p].fund(caller, amount);
        proof {
            lemma_replace_keeps_wf(old_agreements, p as int, self.agreements@[p as int]);
            assert(self.agreements@ =~= old_agreements.update(p as int, self.agreements@[p as int]));
            lemma_first_pos(agreement_ids(self.agreements@), agreement_id@);
        }
        if r.is_ok() {
            self.add_event(Event {
                event_type: EventKind::FundAgreement,
                agreement_id: agreement_id.clone(),
                milestone_id: None,
                document_id: None,
                actor: caller,
                timestamp: now,
            });
        }
        r
    }

    /// Casts `caller`'s vote on a milestone and returns the milestone's new status.
    pub fn vote_milestone(&mut self, caller: UserId, now: u64, agreement_id: &String, milestone_id: u64, approve: bool) -> (r: Result<MilestoneStatus, Error>)
        requires
            old(self).wf(),
        ensures
            final(self).wf(),
            old(self).pos(agreement_id@) < 0 ==> r == Err::<MilestoneStatus, Error>(Error::NotFound),
            old(self).pos(agreement_id@) >= 0 ==> {
                let a = old(self).agreement(agreement_id@);
                &&& (a.vote_outcome(milestone_id, caller) matches Err(e) ==> r == Err::<MilestoneStatus, Error>(e))
                &&& (r is Ok <==> a.vote_outcome(milestone_id, caller) is Ok)
                &&& (r is Ok ==> final(self).changes_only(*old(self), old(self).pos(agreement_id@))
                    && r == Ok::<MilestoneStatus, Error>(a.status_after_vote(milestone_id, caller, approve, now))
                    && a.voted(final(self).agreement(agreement_id@), milestone_id, caller, approve, now)
                    && final(self).events@.len() == old(self).events@.len() + 1)
            },
            r is Err ==> final(self).agreements@ == old(self).agreements@ && final(self).events == old(self).events,
            final(self).admin == old(self).admin,
    {
        let p = match self.find(agreement_id) {
            Some(p) => p,
            None => {
                return Err(Error::NotFound);
            },
        };
        let ghost old_agreements = self.agreements@;
        let r = self.agreements[p].vote(milestone_id, caller, approve, now);
        proof {
            lemma_replace_keeps_wf(old_agreements, p as int, self.agreements@[p as int]);
            assert(self.agreements@ =~= old_agreements.update(p as int, self.agreements@[p as int]));
            lemma_first_pos(agreement_ids(self.agreements@), agreement_id@);
        }
        if r.is_ok() {
            self.add_event(Event {
                event_type: EventKind::VoteMilestone,
                agreement_id: agreement_id.clone(),
                milestone_id: Some(milestone_id),
                document_id: None,
                actor: caller,
                timestamp: now,
            });
        }
        r
    }

    /// The first step of a payout: reserves an approved milestone's amount
    /// and moves the milestone to `Executing` before any transfer starts, so
    /// that no other execution can see it approved meanwhile. Returns what
    /// has to be transferred.
    pub fn execute_milestone(&mut self, agreement_id: &String, milestone_id: u64) -> (r: Result<TransferOrder, Error>)
        requires
            old(self).wf(),
        ensures
            final(self).wf(),
            old(self).pos(agreement_id@) < 0 ==> r is Err && r == Err::<TransferOrder, Error>(Error::NotFound),
            old(self).pos(agreement_id@) >= 0 ==> {
                let a = old(self).agreement(agreement_id@);
                let q = a.milestone_pos(milestone_id);
                &&& (q < 0 ==> r is Err && r == Err::<TransferOrder, Error>(Error::NotFound))
                &&& (q >= 0 ==> {
                    let m = a.milestones@[q];
                    let gate = execution_gate(m.status, a.remaining_balance as int, m.amount as int);
                    &&& (r is Ok <==> gate is Ok)
                    &&& (gate matches Err(e) ==> r is Err && r == Err::<TransferOrder, Error>(e))
                    &&& (r matches Ok(t) ==> {
                        let b = final(self).agreement(agreement_id@);
                        &&& t.recipient == m.recipient
                        &&& t.amount == m.amount
                        &&& final(self).changes_only(*old(self), old(self).pos(agreement_id@))
                        &&& b.milestones@[q].status == MilestoneStatus::Executing
                        &&& a.reserved_by(b, milestone_id)
                        &&& b.remaining_balance == a.remaining_balance - m.amount
                        &&& b.total_funding == a.total_funding
                    })
                })
            },
            r is Err ==> final(self).agreements@ == old(self).agreements@,
            final(self).events == old(self).events,
            final(self).admin == old(self).admin,
    {
        let p = match self.find(agreement_id) {
            Some(p) => p,
            None => {
                return Err(Error::NotFound);
            },
        };
        let ghost old_agreements = self.agreements@;
        let r = self.agreements[p].begin_execution(milestone_id);
        proof {
            lemma_replace_keeps_wf(old_agreements, p as int, self.agreements@[p as int]);
            assert(self.agreements@ =~= old_agreements.update(p as int, self.agreements@[p as int]));
            lemma_first_pos(agreement_ids(self.agreements@), agreement_id@);
        }
        match r {
            Ok((recipient, amount)) => Ok(TransferOrder { recipient, amount }),
            Err(e) => Err(e),
        }
    }

    /// The second step of a payout, once the transfer has an outcome. After
    /// a transfer, the milestone becomes `Executed` with its completion time
    /// stamped. After a failed one, the reservation is undone (the milestone
    /// is `Approved` again and its amount back in the balance) and the
    /// result is `TemporarilyUnavailable`, so that the payout can be retried.
    pub fn settle_milestone(&mut self, caller: UserId, now: u64, agreement_id: &String, milestone_id: u64, transferred: bool) -> (r: Result<(), Error>)
        requires
            old(self).wf(),
        ensures
            final(self).wf(),
            old(self).pos(agreement_id@) < 0 ==> r == Err::<(), Error>(Error::NotFound),
            old(self).pos(agreement_id@) >= 0 ==> {
                let a = old(self).agreement(agreement_id@);
                let q = a.milestone_pos(milestone_id);
                &&& (q < 0 ==> r == Err::<(), Error>(Error::NotFound))
                &&& (q >= 0 && a.milestones@[q].status != MilestoneStatus::Executing ==> r == Err::<(), Error>(Error::NotReady))
                &&& (q >= 0 && a.milestones@[q].status == MilestoneStatus::Executing ==> {
                    let b = final(self).agreement(agreement_id@);
                    let m = a.milestones@[q];
                    &&& final(self).changes_only(*old(self), old(self).pos(agreement_id@))
                    &&& (transferred ==> r is Ok && a.settled_by(b, milestone_id, now) && b.milestones@[q].status == MilestoneStatus::Executed
                        && b.milestones@[q].completed_at == Some(now)
                        && b.remaining_balance == a.remaining_balance)
                    &&& (!transferred ==> r == Err::<(), Error>(Error::TemporarilyUnavailable)
                        && a.undone_by(b, milestone_id)
                        && b.milestones@[q].status == MilestoneStatus::Approved
                        && b.remaining_balance == a.remaining_balance + m.amount)
                })
            },
            final(self).admin == old(self).admin,
    {
        let p = match self.find(agreement_id) {
            Some(p) => p,
            None => {
                return Err(Error::NotFound);
            },
        };
        let ghost old_agreements = self.agreements@;
        let r = if transferred {
            self.agreements[p].finish_execution(milestone_id, now)
        } else {
            self.agreements[p].abort_execution(milestone_id)
        };
        proof {
            lemma_replace_keeps_wf(old_agreements, p as int, self.agreements@[p as int]);
            assert(self.agreements@ =~= old_agreements.update(p as int, self.agreements@[p as int]));
            lemma_first_pos(agreement_ids(self.agreements@), agreement_id@);
        }
        match r {
            Ok(()) => {
                if transferred {
                    self.add_event(Event {
                        event_type: EventKind::ExecuteMilestone,
                        agreement_id: agreement_id.clone(),
                        milestone_id: Some(milestone_id),
                        document_id: None,
                        actor: caller,
                        timestamp: now,
                    });
                    Ok(())
                } else {
                    Err(Error::TemporarilyUnavailable)
                }
            },
            Err(e) => Err(e),
        }
    }

    /// The agreement with this id.
    pub fn get_agreement(&self, agreement_id: &String) -> (r: Option<&DaoAgreement>)
        ensures
            self.pos(agreement_id@) < 0 ==> r is None,
            self.pos(agreement_id@) >= 0 ==> (r matches Some(a) && *a == self.agreement(agreement_id@)),
    {
        match self.find(agreement_id) {
            Some(p) => Some(&self.agreements[p]),
            None => None,
        }
    }

    /// The escrow balance of an agreement; zero for an unknown one.
    pub fn get_agreement_balance(&self, agreement_id: &String) -> (r: u128)
        ensures
            self.pos(agreement_id@) < 0 ==> r == 0,
            self.pos(agreement_id@) >= 0 ==> r == self.agreement(agreement_id@).remaining_balance,
    {
        match self.find(agreement_id) {
            Some(p) => self.agreements[p].remaining_balance,
            None => 0,
        }
    }

    /// The tally of a milestone of an agreement.
    pub fn get_milestone_voting_status(&self, agreement_id: &String, milestone_id: u64) -> (r: Result<MilestoneVotingInfo, Error>)
        requires
            self.wf(),
        ensures
            self.pos(agreement_id@) < 0 ==> r is Err && r == Err::<MilestoneVotingInfo, Error>(Error::NotFound),
            self.pos(agreement_id@) >= 0 && self.agreement(agreement_id@).milestone_pos(milestone_id) < 0
                ==> r is Err && r == Err::<MilestoneVotingInfo, Error>(Error::NotFound),
            self.pos(agreement_id@) >= 0 && self.agreement(agreement_id@).milestone_pos(milestone_id) >= 0 ==> (r matches Ok(info) && {
                let a = self.agreement(agreement_id@);
                let m = a.milestones@[a.milestone_pos(milestone_id)];
                &&& info.milestone_id == milestone_id
                &&& info.status == m.status
                &&& info.approval_votes == crate::milestone::approvals(m.votes@)
                &&& info.rejection_votes == crate::milestone::rejections(m.votes@)
                &&& info.total_participants == a.voter_count()
                &&& info.required_votes == crate::milestone::required_votes_spec(a.voter_count(), a.voting_threshold as int)
            }),
    {
        match self.find(agreement_id) {
            Some(p) => self.agreements[p].voting_info(milestone_id),
            None => Err(Error::NotFound),
        }
    }

    /// Whether the release condition of a milestone holds at `now`.
    pub fn check_milestone_conditions(&self, agreement_id: &String, milestone_id: u64, now: u64) -> (r: bool)
        ensures
            r == (self.pos(agreement_id@) >= 0 && {
                let a = self.agreement(agreement_id@);
                a.milestone_pos(milestone_id) >= 0 && crate::agreement::condition_met(
                    a.documents@,
                    a.milestones@[a.milestone_pos(milestone_id)].milestone_type,
                    now,
                )
            }),
    {
        match self.find(agreement_id) {
            Some(p) => self.agreements[p].check_milestone_conditions(milestone_id, now),
            None => false,
        }
    }

    /// The audit trail, oldest first.
    pub fn list_events(&self) -> (r: &Vec<Event>)
        ensures
            r == &self.events,
    {
        &self.events
    }

    /// The positions of the agreements that `caller` created or takes part in, in order.
    pub fn get_my_agreements(&self, caller: UserId) -> (r: Vec<usize>)
        ensures
            forall|k: int| 0 <= k < r@.len() ==> r@[k] < self.agreements@.len() && self.agreements@[r@[k] as int].is_member(caller),
            forall|j: int| 0 <= j < self.agreements@.len() && self.agreements@[j].is_member(caller) ==> r@.contains(j as usize),
            forall|a: int, b: int| 0 <= a < b < r@.len() ==> r@[a] < r@[b],
    {
        let mut r: Vec<usize> = Vec::new();
        let mut i: usize = 0;
        while i < self.agreements.len()
            invariant
                0 <= i <= self.agreements@.len(),
                forall|k: int| 0 <= k < r@.len() ==> r@[k] < i && self.agreements@[r@[k] as int].is_member(caller),
                forall|j: int| 0 <= j < i && self.agreements@[j].is_member(caller) ==> r@.contains(j as usize),
                forall|a: int, b: int| 0 <= a < b < r@.len() ==> r@[a] < r@[b],
            decreases self.agreements@.len() - i,
        {
            if self.agreements[i].is_member_exec(&caller) {
                let ghost before = r@;
                r.push(i);
                proof {
                    assert forall|j: int| 0 <= j < i + 1 && self.agreements@[j].is_member(caller) implies r@.contains(j as usize) by {
                        if j < i {
                            let k = choose|k: int| 0 <= k < before.len() && before[k] == j as usize;
                            assert(r@[k] == j as usize);
                        } else {
                            assert(r@[r@.len() - 1] == j as usize);
                        }
                    }
                }
            }
            i = i + 1;
        }
        r
    }
}

impl CanisterState {
    /// Settles a reserved payout with the ledger's answer: a block index
    /// completes it, a refusal undoes the reservation.
    pub fn settle_transfer(&mut self, caller: UserId, now: u64, agreement_id: &String, milestone_id: u64, outcome: &ICRC1TransferResult) -> (r: Result<(), Error>)
        requires
            old(self).wf(),
        ensures
            final(self).wf(),
            old(self).pos(agreement_id@) < 0 ==> r == Err::<(), Error>(Error::NotFound),
            old(self).pos(agreement_id@) >= 0 ==> {
                let a = old(self).agreement(agreement_id@);
                let q = a.milestone_pos(milestone_id);
                &&& (q < 0 ==> r == Err::<(), Error>(Error::NotFound))
                &&& (q >= 0 && a.milestones@[q].status != MilestoneStatus::Executing ==> r == Err::<(), Error>(Error::NotReady))
                &&& (q >= 0 && a.milestones@[q].status == MilestoneStatus::Executing ==> {
                    let b = final(self).agreement(agreement_id@);
                    &&& final(self).changes_only(*old(self), old(self).pos(agreement_id@))
                    &&& (outcome is Transferred ==> r is Ok && a.settled_by(b, milestone_id, now) && b.milestones@[q].status == MilestoneStatus::Executed
                        && b.milestones@[q].completed_at == Some(now)
                        && b.remaining_balance == a.remaining_balance)
                    &&& (outcome is Refused ==> r == Err::<(), Error>(Error::TemporarilyUnavailable)
                        && a.undone_by(b, milestone_id)
                        && b.milestones@[q].status == MilestoneStatus::Approved
                        && b.remaining_balance == a.remaining_balance + a.milestones@[q].amount)
                })
            },
            final(self).admin == old(self).admin,
    {
        let transferred = match outcome {
            ICRC1TransferResult::Transferred(_) => true,
            ICRC1TransferResult::Refused(_) => false,
        };
        self.settle_milestone(caller, now, agreement_id, milestone_id, transferred)
    }
}

} // verus!
