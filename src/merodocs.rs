use vstd::prelude::*;
use crate::agreement::{DaoAgreement, DaoMilestone};
use crate::encoding::{blob_id_of, parse_blob_id_base58};
use crate::error::Error;
use crate::ids::UserId;
use crate::lookup::{first_pos, lemma_first_pos, lemma_first_pos_at, lemma_text_lt_asymmetric, text_less, text_lt};
use crate::milestone::{MilestoneStatus, MilestoneVotingInfo};

verus! {

/// How far a document's signing has come.
#[derive(Clone, Copy, Debug, PartialEq, Eq, Structural)]
pub enum DocumentStatus {
    Pending,
    PartiallySigned,
    FullySigned,
}

/// The kind of a shared context.
#[derive(Clone, Copy, Debug, PartialEq, Eq, Structural)]
pub enum ContextType {
    Default,
    DaoAgreement,
}

/// A member's role in a shared context, as its private context knows it.
#[derive(Clone, Copy, Debug, PartialEq, Eq, Structural)]
pub enum ParticipantRole {
    Owner,
    Signer,
    Viewer,
    Unknown,
}

/// What a participant may do, ordered `Read < Sign < Admin`.
#[derive(Clone, Copy, Debug, PartialEq, Eq, Structural)]
pub enum PermissionLevel {
    Read,
    Sign,
    Admin,
}

/// A stored signature image of a private context.
#[derive(Clone, Debug)]
pub struct SignatureRecord {
    pub id: u64,
    pub name: String,
    pub blob_id: [u8; 32],
    pub size: u64,
    pub created_at: u64,
}

/// A shared context joined under an agreement's name.
#[derive(Clone, Debug)]
pub struct ContextAgreement {
    pub context_id: String,
    pub agreement_name: String,
    pub joined_at: u64,
}

/// One signature on a document.
#[derive(Clone, Copy, Debug)]
pub struct DocumentSignature {
    pub signer: UserId,
    pub signed_at: u64,
}

/// A document of a shared context. `updated_at` is the time of the last
/// change of its content fields; replicas settle on the later version.
#[derive(Clone, Debug)]
pub struct DocumentInfo {
    pub id: String,
    pub name: String,
    pub hash: String,
    pub uploaded_by: UserId,
    pub uploaded_at: u64,
    pub status: DocumentStatus,
    pub pdf_blob_id: [u8; 32],
    pub size: u64,
    pub signatures: Vec<DocumentSignature>,
    pub updated_at: u64,
}

/// A shared context that the private context has joined.
#[derive(Clone, Debug)]
pub struct ContextMetadata {
    pub context_id: String,
    pub context_name: String,
    pub context_type: ContextType,
    pub role: ParticipantRole,
    pub joined_at: u64,
    pub private_identity: UserId,
    pub shared_identity: UserId,
}

/// Which shared identity stands for the private identity in one context.
#[derive(Clone, Debug)]
pub struct IdentityMapping {
    pub private_identity: UserId,
    pub shared_identity: UserId,
    pub context_id: String,
    pub created_at: u64,
}

/// A participant of a shared context with its permission.
#[derive(Clone, Copy, Debug)]
pub struct ParticipantInfo {
    pub user_id: UserId,
    pub permission_level: PermissionLevel,
}

/// A signer's consent to sign one document.
#[derive(Clone, Debug)]
pub struct ConsentRecord {
    pub user_id: UserId,
    pub document_id: String,
    pub consented: bool,
}

/// A summary of a shared context.
#[derive(Clone, Debug)]
pub struct ContextDetails {
    pub context_id: String,
    pub context_name: String,
    pub owner: UserId,
    pub is_private: bool,
    pub participant_count: u64,
    pub participants: Vec<ParticipantInfo>,
    pub document_count: u64,
    pub created_at: u64,
}

/// What happened, for observers of a context.
#[derive(Clone, Debug)]
pub enum MeroDocsEvent {
    SignatureCreated { id: u64, size: u64 },
    SignatureDeleted { id: u64 },
    ContextJoined { context_id: String },
    ContextLeft { context_id: String },
    DocumentUploaded { id: String, uploaded_by: UserId },
    DocumentDeleted { id: String },
    DocumentSigned { document_id: String, signer: UserId },
    ParticipantJoined { user_id: UserId },
    ParticipantLeft { user_id: UserId },
}

/// The level gives the right to sign.
pub open spec fn may_sign(l: PermissionLevel) -> bool {
    l == PermissionLevel::Sign || l == PermissionLevel::Admin
}

/// Who has to sign every document: the participants that may sign.
pub open spec fn required_set(ps: Seq<ParticipantInfo>) -> Set<UserId> {
    Set::new(|u: UserId| exists|i: int| 0 <= i < ps.len() && ps[i].user_id == u && may_sign(#[trigger] ps[i].permission_level))
}

/// Who has signed.
pub open spec fn signed_set(sigs: Seq<DocumentSignature>) -> Set<UserId> {
    Set::new(|u: UserId| exists|k: int| 0 <= k < sigs.len() && (#[trigger] sigs[k]).signer == u)
}

/// A document's status as its signers give it: fully signed once everyone
/// required has signed, pending while nobody has, partially signed between.
pub open spec fn signing_status(required: Set<UserId>, signed: Set<UserId>) -> DocumentStatus {
    if required.subset_of(signed) {
        DocumentStatus::FullySigned
    } else if signed =~= Set::empty() {
        DocumentStatus::Pending
    } else {
        DocumentStatus::PartiallySigned
    }
}

/// Admitting a signer who has not signed reopens a fully signed document,
/// and that signer's signature completes it again.
pub proof fn new_signer_reopens_document(required: Set<UserId>, signed: Set<UserId>, d: UserId)
    requires
        required.subset_of(signed),
        !signed.contains(d),
        signed.len() > 0,
        signed.finite(),
    ensures
        signing_status(required, signed) == DocumentStatus::FullySigned,
        signing_status(required.insert(d), signed) == DocumentStatus::PartiallySigned,
        signing_status(required.insert(d), signed.insert(d)) == DocumentStatus::FullySigned,
{
    assert(!required.insert(d).subset_of(signed));
    if signed =~= Set::empty() {
        assert(signed.len() == 0);
    }
    assert(required.insert(d).subset_of(signed.insert(d)));
}

pub open spec fn document_id_view(d: DocumentInfo) -> Seq<char> {
    d.id@
}

pub open spec fn doc_ids(ds: Seq<DocumentInfo>) -> Seq<Seq<char>> {
    ds.map_values(|d: DocumentInfo| d.id@)
}

pub open spec fn participant_ids(ps: Seq<ParticipantInfo>) -> Seq<UserId> {
    ps.map_values(|p: ParticipantInfo| p.user_id)
}

pub open spec fn joined_ids(cs: Seq<ContextMetadata>) -> Seq<Seq<char>> {
    cs.map_values(|c: ContextMetadata| c.context_id@)
}

pub open spec fn mapping_ids(ms: Seq<IdentityMapping>) -> Seq<Seq<char>> {
    ms.map_values(|m: IdentityMapping| m.context_id@)
}

pub open spec fn agreement_ids(s: Seq<DaoAgreement>) -> Seq<Seq<char>> {
    s.map_values(|a: DaoAgreement| a.id@)
}

/// The consent key of a record.
pub open spec fn consent_key(c: ConsentRecord) -> (UserId, Seq<char>) {
    (c.user_id, c.document_id@)
}

/// The consent ledger as a map from (signer, document) to its flag.
pub open spec fn consent_view(cs: Seq<ConsentRecord>) -> Map<(UserId, Seq<char>), bool>
    decreases cs.len(),
{
    if cs.len() == 0 {
        Map::empty()
    } else {
        consent_view(cs.drop_last()).insert(consent_key(cs.last()), cs.last().consented)
    }
}

/// The ledger after `user`'s consent to `doc` is recorded.
pub open spec fn with_consent(cs: Seq<ConsentRecord>, user: UserId, doc: Seq<char>) -> Map<(UserId, Seq<char>), bool> {
    consent_view(cs).insert((user, doc), true)
}

/// Recording a consent a second time leaves the ledger as the first time did.
pub proof fn record_consent_idempotent(cs: Seq<ConsentRecord>, once: Seq<ConsentRecord>, user: UserId, doc: Seq<char>)
    requires
        consent_view(once) == with_consent(cs, user, doc),
    ensures
        with_consent(once, user, doc) == consent_view(once),
{
    assert(with_consent(once, user, doc) =~= consent_view(once));
}

/// Whether `u` has signed.
pub fn has_signed(sigs: &Vec<DocumentSignature>, u: &UserId) -> (r: bool)
    ensures
        r == signed_set(sigs@).contains(*u),
{
    let mut i: usize = 0;
    while i < sigs.len()
        invariant
            0 <= i <= sigs@.len(),
            forall|k: int| 0 <= k < i ==> sigs@[k].signer != *u,
        decreases sigs@.len() - i,
    {
        if sigs[i].signer == *u {
            assert(signed_set(sigs@).contains(*u));
            return true;
        }
        i = i + 1;
    }
    false
}

/// A document's status from its signatures and the context's participants.
pub fn derive_status(ps: &Vec<ParticipantInfo>, sigs: &Vec<DocumentSignature>) -> (r: DocumentStatus)
    ensures
        r == signing_status(required_set(ps@), signed_set(sigs@)),
{
    let mut i: usize = 0;
    let mut all = true;
    while i < ps.len()
        invariant
            0 <= i <= ps@.len(),
            all == forall|j: int| 0 <= j < i && may_sign(ps@[j].permission_level) ==> signed_set(sigs@).contains(#[trigger] ps@[j].user_id),
        decreases ps@.len() - i,
    {
        let p = ps[i];
        let level_signs = match p.permission_level {
            PermissionLevel::Read => false,
            _ => true,
        };
        if level_signs && !has_signed(sigs, &p.user_id) {
            all = false;
        }
        i = i + 1;
    }
    if all {
        assert(required_set(ps@).subset_of(signed_set(sigs@)));
        DocumentStatus::FullySigned
    } else {
        assert(!required_set(ps@).subset_of(signed_set(sigs@))) by {
            let j = choose|j: int| 0 <= j < ps@.len() && may_sign(ps@[j].permission_level) && !signed_set(sigs@).contains(#[trigger] ps@[j].user_id);
            assert(required_set(ps@).contains(ps@[j].user_id));
        }
        if sigs.len() == 0 {
            assert(signed_set(sigs@) =~= Set::empty());
            DocumentStatus::Pending
        } else {
            assert(signed_set(sigs@).contains(sigs@[0].signer));
            DocumentStatus::PartiallySigned
        }
    }
}

/// The state of one context. A private context holds its owner's signature
/// images and the shared contexts it joined, with an identity mapping for
/// each; a shared context holds participants, documents, consents and DAO
/// agreements.
pub struct MeroDocsState {
    pub is_private: bool,
    pub owner: UserId,
    pub context_name: String,
    pub signatures: Vec<SignatureRecord>,
    pub joined_contexts: Vec<ContextMetadata>,
    pub identity_mappings: Vec<IdentityMapping>,
    pub signature_count: u64,
    pub participants: Vec<ParticipantInfo>,
    pub documents: Vec<DocumentInfo>,
    pub consents: Vec<ConsentRecord>,
    pub dao_agreements: Vec<DaoAgreement>,
    pub context_type: ContextType,
    pub events: Vec<MeroDocsEvent>,
}

impl MeroDocsState {
    /// Every document's status is the one its signatures give it; each
    /// shared context identity is mapped once; the agreements keep their invariant.
    pub open spec fn wf(self) -> bool {
        &&& forall|i: int| 0 <= i < self.documents@.len() ==> (#[trigger] self.documents@[i]).status
            == signing_status(required_set(self.participants@), signed_set(self.documents@[i].signatures@))
        &&& mapping_ids(self.identity_mappings@).no_duplicates()
        &&& joined_ids(self.joined_contexts@) == mapping_ids(self.identity_mappings@)
        &&& doc_ids(self.documents@).no_duplicates()
        &&& forall|i: int| 0 <= i < self.dao_agreements@.len() ==> (#[trigger] self.dao_agreements@[i]).wf()
    }

    pub open spec fn doc_pos(self, id: Seq<char>) -> int {
        first_pos(doc_ids(self.documents@), id)
    }

    pub open spec fn document(self, id: Seq<char>) -> DocumentInfo {
        self.documents@[self.doc_pos(id)]
    }

    pub open spec fn participant_pos(self, u: UserId) -> int {
        first_pos(participant_ids(self.participants@), u)
    }

    pub open spec fn mapping_pos(self, context_id: Seq<char>) -> int {
        first_pos(mapping_ids(self.identity_mappings@), context_id)
    }

    pub open spec fn agreement_pos(self, id: Seq<char>) -> int {
        first_pos(agreement_ids(self.dao_agreements@), id)
    }

    /// Whether `user` has consented to sign `doc`.
    pub open spec fn consented(self, user: UserId, doc: Seq<char>) -> bool {
        consent_view(self.consents@).contains_key((user, doc)) && consent_view(self.consents@)[(user, doc)]
    }

    /// The owner holds `Admin` in this shared context.
    pub open spec fn owner_is_admin(self) -> bool {
        !self.is_private && self.participant_pos(self.owner) >= 0
            && self.participants@[self.participant_pos(self.owner)].permission_level == PermissionLevel::Admin
    }

    /// A new context. A shared one starts with its owner as its administrator.
    pub fn init(is_private: bool, context_name: String, owner: UserId) -> (r: MeroDocsState)
        ensures
            r.wf(),
            r.is_private == is_private,
            r.owner == owner,
            r.context_name == context_name,
            r.context_type == ContextType::Default,
            r.documents@.len() == 0,
            r.signature_count == 0,
            is_private ==> r.participants@.len() == 0,
            !is_private ==> r.participants@ == seq![ParticipantInfo { user_id: owner, permission_level: PermissionLevel::Admin }],
    {
        let mut participants: Vec<ParticipantInfo> = Vec::new();
        if !is_private {
            participants.push(ParticipantInfo { user_id: owner, permission_level: PermissionLevel::Admin });
        }
        let r = MeroDocsState {
            is_private,
            owner,
            context_name,
            signatures: Vec::new(),
            joined_contexts: Vec::new(),
            identity_mappings: Vec::new(),
            signature_count: 0,
            participants,
            documents: Vec::new(),
            consents: Vec::new(),
            dao_agreements: Vec::new(),
            context_type: ContextType::Default,
            events: Vec::new(),
        };
        proof {
            assert(mapping_ids(r.identity_mappings@) =~= Seq::<Seq<char>>::empty());
            assert(joined_ids(r.joined_contexts@) =~= Seq::<Seq<char>>::empty());
            if !is_private {
                assert(r.participants@ =~= seq![ParticipantInfo { user_id: owner, permission_level: PermissionLevel::Admin }]);
            }
        }
        r
    }

    pub fn find_document(&self, id: &String) -> (r: Option<usize>)
        ensures
            match r {
                Some(p) => p as int == self.doc_pos(id@),
                None => self.doc_pos(id@) == -1,
            },
            -1 <= self.doc_pos(id@) < self.documents@.len(),
    {
        proof {
            lemma_first_pos(doc_ids(self.documents@), id@);
        }
        let mut i: usize = 0;
        while i < self.documents.len()
            invariant
                0 <= i <= self.documents@.len(),
                forall|j: int| 0 <= j < i ==> doc_ids(self.documents@)[j] != id@,
            decreases self.documents@.len() - i,
        {
            if self.documents[i].id == *id {
                proof {
                    lemma_first_pos_at(doc_ids(self.documents@), id@, i as int);
                }
                return Some(i);
            }
            i = i + 1;
        }
        None
    }

    pub fn find_participant(&self, u: &UserId) -> (r: Option<usize>)
        ensures
            match r {
                Some(p) => p as int == self.participant_pos(*u),
                None => self.participant_pos(*u) == -1,
            },
            -1 <= self.participant_pos(*u) < self.participants@.len(),
    {
        proof {
            lemma_first_pos(participant_ids(self.participants@), *u);
        }
        let mut i: usize = 0;
        while i < self.participants.len()
            invariant
                0 <= i <= self.participants@.len(),
                forall|j: int| 0 <= j < i ==> participant_ids(self.participants@)[j] != *u,
            decreases self.participants@.len() - i,
        {
            if self.participants[i].user_id == *u {
                proof {
                    lemma_first_pos_at(participant_ids(self.participants@), *u, i as int);
                }
                return Some(i);
            }
            i = i + 1;
        }
        None
    }

    pub fn find_mapping(&self, context_id: &String) -> (r: Option<usize>)
        ensures
            match r {
                Some(p) => p as int == self.mapping_pos(context_id@),
                None => self.mapping_pos(context_id@) == -1,
            },
            -1 <= self.mapping_pos(context_id@) < self.identity_mappings@.len(),
    {
        proof {
            lemma_first_pos(mapping_ids(self.identity_mappings@), context_id@);
        }
        let mut i: usize = 0;
        while i < self.identity_mappings.len()
            invariant
                0 <= i <= self.identity_mappings@.len(),
                forall|j: int| 0 <= j < i ==> mapping_ids(self.identity_mappings@)[j] != context_id@,
            decreases self.identity_mappings@.len() - i,
        {
            if self.identity_mappings[i].context_id == *context_id {
                proof {
                    lemma_first_pos_at(mapping_ids(self.identity_mappings@), context_id@, i as int);
                }
                return Some(i);
            }
            i = i + 1;
        }
        None
    }

    pub fn find_agreement(&self, id: &String) -> (r: Option<usize>)
        ensures
            match r {
                Some(p) => p as int == self.agreement_pos(id@),
                None => self.agreement_pos(id@) == -1,
            },
            -1 <= self.agreement_pos(id@) < self.dao_agreements@.len(),
    {
        proof {
            lemma_first_pos(agreement_ids(self.dao_agreements@), id@);
        }
        let mut i: usize = 0;
        while i < self.dao_agreements.len()
            invariant
                0 <= i <= self.dao_agreements@.len(),
                forall|j: int| 0 <= j < i ==> agreement_ids(self.dao_agreements@)[j] != id@,
            decreases self.dao_agreements@.len() - i,
        {
            if self.dao_agreements[i].id == *id {
                proof {
                    lemma_first_pos_at(agreement_ids(self.dao_agreements@), id@, i as int);
                }
                return Some(i);
            }
            i = i + 1;
        }
        None
    }

    /// Whether `user_id` has consented to sign `document_id`.
    pub fn has_consented(&self, user_id: UserId, document_id: &String) -> (r: bool)
        ensures
            r == self.consented(user_id, document_id@),
    {
        let mut found = false;
        let mut i: usize = 0;
        while i < self.consents.len()
            invariant
                0 <= i <= self.consents@.len(),
                found == (consent_view(self.consents@.take(i as int)).contains_key((user_id, document_id@))
                    && consent_view(self.consents@.take(i as int))[(user_id, document_id@)]),
            decreases self.consents@.len() - i,
        {
            assert(self.consents@.take(i as int + 1).drop_last() =~= self.consents@.take(i as int));
            let c = &self.consents[i];
            if c.user_id == user_id && c.document_id == *document_id {
                found = c.consented;
            }
            i = i + 1;
        }
        assert(self.consents@.take(i as int) =~= self.consents@);
        found
    }

    /// Records `user_id`'s consent to sign a document of this context. It
    /// is idempotent: recording it again leaves the state as it is.
    pub fn set_consent(&mut self, user_id: UserId, document_id: &String) -> (r: Result<(), Error>)
        requires
            old(self).wf(),
        ensures
            final(self).wf(),
            old(self).doc_pos(document_id@) < 0 ==> r == Err::<(), Error>(Error::NotFound),
            r is Ok <==> old(self).doc_pos(document_id@) >= 0,
            r is Ok ==> consent_view(final(self).consents@) == with_consent(old(self).consents@, user_id, document_id@),
            r is Ok ==> final(self).consented(user_id, document_id@),
            r is Err || old(self).consented(user_id, document_id@) ==> *final(self) == *old(self),
            final(self).documents == old(self).documents,
            final(self).participants == old(self).participants,
            final(self).dao_agreements == old(self).dao_agreements,
    {
        if self.find_document(document_id).is_none() {
            return Err(Error::NotFound);
        }
        if self.has_consented(user_id, document_id) {
            proof {
                assert(with_consent(self.consents@, user_id, document_id@) =~= consent_view(self.consents@));
            }
            return Ok(());
        }
        let ghost before = self.consents@;
        self.consents.push(ConsentRecord { user_id, document_id: document_id.clone(), consented: true });
        proof {
            assert(self.consents@.drop_last() =~= before);
        }
        Ok(())
    }
}

impl MeroDocsState {
    /// Joins a shared context under `shared_identity`, mapping the owner's
    /// private identity to it. A context can be joined once only.
    pub fn join_shared_context_with_type(
        &mut self,
        context_id: String,
        shared_identity: UserId,
        context_name: String,
        context_type: ContextType,
        now: u64,
    ) -> (r: Result<(), Error>)
        requires
            old(self).wf(),
        ensures
            final(self).wf(),
            !old(self).is_private ==> r == Err::<(), Error>(Error::WrongContextKind),
            old(self).is_private && old(self).mapping_pos(context_id@) >= 0 ==> r == Err::<(), Error>(Error::AlreadyJoined),
            r is Ok <==> old(self).is_private && old(self).mapping_pos(context_id@) < 0,
            r is Err ==> *final(self) == *old(self),
            r is Ok ==> {
                let m = final(self).identity_mappings@.last();
                &&& final(self).identity_mappings@ == old(self).identity_mappings@.push(m)
                &&& m.context_id == context_id
                &&& m.private_identity == old(self).owner
                &&& m.shared_identity == shared_identity
                &&& m.created_at == now
                &&& final(self).joined_contexts@ == old(self).joined_contexts@.push(final(self).joined_contexts@.last())
                &&& final(self).joined_contexts@.last().context_id == context_id
                &&& final(self).joined_contexts@.last().context_name == context_name
                &&& final(self).joined_contexts@.last().context_type == context_type
                &&& final(self).joined_contexts@.last().role == ParticipantRole::Unknown
                &&& final(self).joined_contexts@.last().joined_at == now
                &&& final(self).joined_contexts@.last().private_identity == old(self).owner
                &&& final(self).joined_contexts@.last().shared_identity == shared_identity
                &&& final(self).documents == old(self).documents
                &&& final(self).participants == old(self).participants
                &&& final(self).owner == old(self).owner
                &&& final(self).is_private == old(self).is_private
            },
    {
        if !self.is_private {
            return Err(Error::WrongContextKind);
        }
        if self.find_mapping(&context_id).is_some() {
            return Err(Error::AlreadyJoined);
        }
        let metadata = ContextMetadata {
            context_id: context_id.clone(),
            context_name,
            context_type,
            role: ParticipantRole::Unknown,
            joined_at: now,
            private_identity: self.owner,
            shared_identity,
        };
        let mapping = IdentityMapping {
            private_identity: self.owner,
            shared_identity,
            context_id: context_id.clone(),
            created_at: now,
        };
        let ghost before = self.identity_mappings@;
        let ghost before_joined = self.joined_contexts@;
        self.joined_contexts.push(metadata);
        self.identity_mappings.push(mapping);
        self.events.push(MeroDocsEvent::ContextJoined { context_id });
        proof {
            lemma_first_pos(mapping_ids(before), self.identity_mappings@.last().context_id@);
            assert(mapping_ids(self.identity_mappings@) =~= mapping_ids(before).push(self.identity_mappings@.last().context_id@));
            assert(joined_ids(self.joined_contexts@) =~= joined_ids(before_joined).push(self.joined_contexts@.last().context_id@));
        }
        Ok(())
    }

    /// Joins a shared context of the default kind.
    pub fn join_shared_context(&mut self, context_id: String, shared_identity: UserId, context_name: String, now: u64) -> (r: Result<(), Error>)
        requires
            old(self).wf(),
        ensures
            final(self).wf(),
            !old(self).is_private ==> r == Err::<(), Error>(Error::WrongContextKind),
            old(self).is_private && old(self).mapping_pos(context_id@) >= 0 ==> r == Err::<(), Error>(Error::AlreadyJoined),
            r is Ok <==> old(self).is_private && old(self).mapping_pos(context_id@) < 0,
            r is Err ==> *final(self) == *old(self),
            r is Ok ==> {
                let m = final(self).identity_mappings@.last();
                &&& final(self).identity_mappings@ == old(self).identity_mappings@.push(m)
                &&& m.context_id == context_id
                &&& m.private_identity == old(self).owner
                &&& m.shared_identity == shared_identity
            },
    {
        self.join_shared_context_with_type(context_id, shared_identity, context_name, ContextType::Default, now)
    }

    /// Leaves a joined shared context, dropping its identity mapping.
    pub fn leave_shared_context(&mut self, context_id: &String) -> (r: Result<(), Error>)
        requires
            old(self).wf(),
        ensures
            final(self).wf(),
            !old(self).is_private ==> r == Err::<(), Error>(Error::WrongContextKind),
            old(self).is_private && old(self).mapping_pos(context_id@) < 0 ==> r == Err::<(), Error>(Error::NotFound),
            r is Ok <==> old(self).is_private && old(self).mapping_pos(context_id@) >= 0,
            r is Err ==> *final(self) == *old(self),
            r is Ok ==> {
                &&& final(self).identity_mappings@ == old(self).identity_mappings@.remove(old(self).mapping_pos(context_id@))
                &&& final(self).joined_contexts@ == old(self).joined_contexts@.remove(old(self).mapping_pos(context_id@))
                &&& final(self).mapping_pos(context_id@) < 0
                &&& forall|k: int| 0 <= k < final(self).joined_contexts@.len() ==> (#[trigger] final(self).joined_contexts@[k]).context_id@ != context_id@
                &&& final(self).documents == old(self).documents
                &&& final(self).participants == old(self).participants
            },
    {
        if !self.is_private {
            return Err(Error::WrongContextKind);
        }
        let p = match self.find_mapping(context_id) {
            Some(p) => p,
            None => {
                return Err(Error::NotFound);
            },
        };
        let ghost before = self.identity_mappings@;
        let ghost before_joined = self.joined_contexts@;
        self.identity_mappings.remove(p);
        proof {
            assert(joined_ids(before_joined) == mapping_ids(before));
            assert(before_joined.len() == before.len()) by {
                assert(joined_ids(before_joined).len() == mapping_ids(before).len());
            }
        }
        self.joined_contexts.remove(p);
        self.events.push(MeroDocsEvent::ContextLeft { context_id: context_id.clone() });
        proof {
            let ids = mapping_ids(before);
            lemma_first_pos(ids, context_id@);
            let nids = mapping_ids(self.identity_mappings@);
            assert(nids =~= ids.remove(p as int));
            assert(joined_ids(self.joined_contexts@) =~= joined_ids(before_joined).remove(p as int));
            assert(joined_ids(self.joined_contexts@) == nids);
            assert forall|a: int, b: int| 0 <= a < b < nids.len() implies nids[a] != nids[b] by {
                let a2 = if a < p { a } else { a + 1 };
                let b2 = if b < p { b } else { b + 1 };
                assert(nids[a] == ids[a2] && nids[b] == ids[b2]);
            }
            assert forall|j: int| 0 <= j < nids.len() implies nids[j] != context_id@ by {
                let j2 = if j < p { j } else { j + 1 };
                assert(nids[j] == ids[j2]);
                assert(ids[p as int] == context_id@);
            }
            lemma_first_pos(nids, context_id@);
            assert forall|k: int| 0 <= k < self.joined_contexts@.len() implies (#[trigger] self.joined_contexts@[k]).context_id@ != context_id@ by {
                assert(joined_ids(self.joined_contexts@)[k] == nids[k]);
            }
        }
        Ok(())
    }

    /// The identity mapping of a joined context.
    pub fn get_identity_mapping(&self, context_id: &String) -> (r: Result<&IdentityMapping, Error>)
        ensures
            !self.is_private ==> r is Err && r == Err::<&IdentityMapping, Error>(Error::WrongContextKind),
            self.is_private && self.mapping_pos(context_id@) < 0 ==> r is Err && r == Err::<&IdentityMapping, Error>(Error::NotFound),
            self.is_private && self.mapping_pos(context_id@) >= 0 ==> (r matches Ok(m) && *m == self.identity_mappings@[self.mapping_pos(context_id@)]),
    {
        if !self.is_private {
            return Err(Error::WrongContextKind);
        }
        match self.find_mapping(context_id) {
            Some(p) => Ok(&self.identity_mappings[p]),
            None => Err(Error::NotFound),
        }
    }

    /// The shared identity used in a joined context.
    pub fn get_shared_identity(&self, context_id: &String) -> (r: Result<UserId, Error>)
        ensures
            !self.is_private ==> r == Err::<UserId, Error>(Error::WrongContextKind),
            self.is_private && self.mapping_pos(context_id@) < 0 ==> r == Err::<UserId, Error>(Error::NotFound),
            self.is_private && self.mapping_pos(context_id@) >= 0 ==> r == Ok::<UserId, Error>(self.identity_mappings@[self.mapping_pos(context_id@)].shared_identity),
    {
        match self.get_identity_mapping(context_id) {
            Ok(m) => Ok(m.shared_identity),
            Err(e) => Err(e),
        }
    }

    /// The private identity behind a shared one: that of the first mapping
    /// that uses it. Only a private context can answer.
    pub fn resolve_private_identity(&self, shared_identity: UserId) -> (r: Result<Option<UserId>, Error>)
        ensures
            !self.is_private ==> r == Err::<Option<UserId>, Error>(Error::WrongContextKind),
            self.is_private ==> (r matches Ok(found) && match found {
                Some(u) => exists|k: int| 0 <= k < self.identity_mappings@.len()
                    && (#[trigger] self.identity_mappings@[k]).shared_identity == shared_identity
                    && self.identity_mappings@[k].private_identity == u
                    && forall|j: int| 0 <= j < k ==> self.identity_mappings@[j].shared_identity != shared_identity,
                None => forall|k: int| 0 <= k < self.identity_mappings@.len() ==> (#[trigger] self.identity_mappings@[k]).shared_identity != shared_identity,
            }),
    {
        if !self.is_private {
            return Err(Error::WrongContextKind);
        }
        let mut i: usize = 0;
        while i < self.identity_mappings.len()
            invariant
                0 <= i <= self.identity_mappings@.len(),
                forall|j: int| 0 <= j < i ==> self.identity_mappings@[j].shared_identity != shared_identity,
                self.is_private,
            decreases self.identity_mappings@.len() - i,
        {
            if self.identity_mappings[i].shared_identity == shared_identity {
                assert(self.identity_mappings@[i as int].shared_identity == shared_identity);
                return Ok(Some(self.identity_mappings[i].private_identity));
            }
            i = i + 1;
        }
        Ok(None)
    }

    /// Sets every document's status to the one its signatures give it
    /// under the current participants.
    pub(crate) fn recompute_statuses(&mut self)
        ensures
            final(self).documents@.len() == old(self).documents@.len(),
            forall|i: int| 0 <= i < old(self).documents@.len() ==> {
                let d = old(self).documents@[i];
                let nd = #[trigger] final(self).documents@[i];
                &&& nd.status == signing_status(required_set(old(self).participants@), signed_set(d.signatures@))
                &&& nd.id == d.id && nd.name == d.name && nd.hash == d.hash && nd.signatures == d.signatures
                &&& nd.uploaded_by == d.uploaded_by && nd.uploaded_at == d.uploaded_at
                &&& nd.pdf_blob_id == d.pdf_blob_id && nd.size == d.size && nd.updated_at == d.updated_at
            },
            doc_ids(final(self).documents@) == doc_ids(old(self).documents@),
            final(self).participants == old(self).participants,
            final(self).consents == old(self).consents,
            final(self).dao_agreements == old(self).dao_agreements,
            final(self).identity_mappings == old(self).identity_mappings,
            final(self).joined_contexts == old(self).joined_contexts,
            final(self).is_private == old(self).is_private,
            final(self).owner == old(self).owner,
            final(self).context_type == old(self).context_type,
            final(self).signatures == old(self).signatures,
            final(self).signature_count == old(self).signature_count,
            final(self).events == old(self).events,
    {
        let mut i: usize = 0;
        while i < self.documents.len()
            invariant
                0 <= i <= self.documents@.len(),
                self.documents@.len() == old(self).documents@.len(),
                self.participants == old(self).participants,
                self.consents == old(self).consents,
                self.dao_agreements == old(self).dao_agreements,
                self.identity_mappings == old(self).identity_mappings,
                self.joined_contexts == old(self).joined_contexts,
                self.is_private == old(self).is_private,
                self.owner == old(self).owner,
                self.context_type == old(self).context_type,
                self.signatures == old(self).signatures,
                self.signature_count == old(self).signature_count,
                self.events == old(self).events,
                forall|j: int| 0 <= j < old(self).documents@.len() ==> {
                    let d = #[trigger] old(self).documents@[j];
                    let nd = self.documents@[j];
                    &&& (j < i ==> nd.status == signing_status(required_set(old(self).participants@), signed_set(d.signatures@)))
                    &&& (j >= i ==> nd.status == d.status)
                    &&& nd.id == d.id && nd.name == d.name && nd.hash == d.hash && nd.signatures == d.signatures
                    &&& nd.uploaded_by == d.uploaded_by && nd.uploaded_at == d.uploaded_at
                    &&& nd.pdf_blob_id == d.pdf_blob_id && nd.size == d.size && nd.updated_at == d.updated_at
                },
            decreases old(self).documents@.len() - i,
        {
            let st = derive_status(&self.participants, &self.documents[i].signatures);
            self.documents[i].status = st;
            i = i + 1;
        }
        assert(doc_ids(self.documents@) =~= doc_ids(old(self).documents@));
    }

    /// The shared context's owner holds `Admin`.
    fn validate_admin_permissions(&self) -> (r: Result<(), Error>)
        ensures
            self.is_private ==> r == Err::<(), Error>(Error::WrongContextKind),
            !self.is_private ==> (r is Ok <==> self.owner_is_admin()),
            !self.is_private && !self.owner_is_admin() ==> r == Err::<(), Error>(Error::Unauthorized),
    {
        if self.is_private {
            return Err(Error::WrongContextKind);
        }
        match self.find_participant(&self.owner) {
            Some(p) => match self.participants[p].permission_level {
                PermissionLevel::Admin => Ok(()),
                _ => Err(Error::Unauthorized),
            },
            None => Err(Error::Unauthorized),
        }
    }

    /// Admits a participant with a permission. Where the newcomer may sign,
    /// every document that they have not signed is no longer fully signed.
    pub fn add_participant(&mut self, user_id: UserId, permission: PermissionLevel) -> (r: Result<(), Error>)
        requires
            old(self).wf(),
        ensures
            final(self).wf(),
            old(self).is_private ==> r == Err::<(), Error>(Error::WrongContextKind),
            !old(self).is_private && !old(self).owner_is_admin() ==> r == Err::<(), Error>(Error::Unauthorized),
            old(self).owner_is_admin() && old(self).participant_pos(user_id) >= 0 ==> r == Err::<(), Error>(Error::AlreadyExists),
            r is Ok <==> old(self).owner_is_admin() && old(self).participant_pos(user_id) < 0,
            r is Err ==> *final(self) == *old(self),
            r is Ok ==> {
                &&& final(self).participants@ == old(self).participants@.push(ParticipantInfo { user_id, permission_level: permission })
                &&& required_set(final(self).participants@) == (if may_sign(permission) {
                    required_set(old(self).participants@).insert(user_id)
                } else {
                    required_set(old(self).participants@)
                })
                &&& final(self).documents@.len() == old(self).documents@.len()
                &&& forall|i: int| 0 <= i < old(self).documents@.len() ==> {
                    let d = #[trigger] old(self).documents@[i];
                    let nd = final(self).documents@[i];
                    &&& nd.status == signing_status(required_set(final(self).participants@), signed_set(d.signatures@))
                    &&& nd.id == d.id && nd.hash == d.hash && nd.signatures == d.signatures
                }
                &&& (!may_sign(permission) ==> final(self).documents == old(self).documents)
                &&& final(self).consents == old(self).consents
            },
    {
        self.validate_admin_permissions()?;
        if self.find_participant(&user_id).is_some() {
            return Err(Error::AlreadyExists);
        }
        let ghost before = self.participants@;
        self.participants.push(ParticipantInfo { user_id, permission_level: permission });
        proof {
            let ps = self.participants@;
            assert(ps.drop_last() =~= before);
            let expect = if may_sign(permission) { required_set(before).insert(user_id) } else { required_set(before) };
            assert forall|u: UserId| required_set(ps).contains(u) <==> expect.contains(u) by {
                if required_set(ps).contains(u) {
                    let k = choose|k: int| 0 <= k < ps.len() && ps[k].user_id == u && may_sign(#[trigger] ps[k].permission_level);
                    if k < before.len() {
                        assert(before[k] == ps[k]);
                        assert(may_sign(before[k].permission_level));
                        assert(required_set(before).contains(u));
                    }
                }
                if required_set(before).contains(u) {
                    let k = choose|k: int| 0 <= k < before.len() && before[k].user_id == u && may_sign(#[trigger] before[k].permission_level);
                    assert(before[k] == ps[k]);
                    assert(may_sign(ps[k].permission_level));
                    assert(required_set(ps).contains(u));
                }
                if may_sign(permission) && u == user_id {
                    let last = ps.len() - 1;
                    assert(ps[last].user_id == u);
                    assert(may_sign(ps[last].permission_level));
                    assert(required_set(ps).contains(u));
                }
            }
            assert(required_set(ps) =~= expect);
        }
        if permission != PermissionLevel::Read {
            self.recompute_statuses();
        }
        self.events.push(MeroDocsEvent::ParticipantJoined { user_id });
        Ok(())
    }

    /// Removes a participant and their permission; every document's status
    /// is then the one its signatures give it among those who remain.
    pub fn remove_participant(&mut self, user_id: UserId) -> (r: Result<(), Error>)
        requires
            old(self).wf(),
        ensures
            final(self).wf(),
            old(self).is_private ==> r == Err::<(), Error>(Error::WrongContextKind),
            !old(self).is_private && !old(self).owner_is_admin() ==> r == Err::<(), Error>(Error::Unauthorized),
            old(self).owner_is_admin() && old(self).participant_pos(user_id) < 0 ==> r == Err::<(), Error>(Error::NotFound),
            r is Ok <==> old(self).owner_is_admin() && old(self).participant_pos(user_id) >= 0,
            r is Err ==> *final(self) == *old(self),
            r is Ok ==> {
                &&& final(self).participants@ == old(self).participants@.remove(old(self).participant_pos(user_id))
                &&& final(self).documents@.len() == old(self).documents@.len()
                &&& final(self).consents == old(self).consents
            },
    {
        self.validate_admin_permissions()?;
        let p = match self.find_participant(&user_id) {
            Some(p) => p,
            None => {
                return Err(Error::NotFound);
            },
        };
        self.participants.remove(p);
        self.recompute_statuses();
        self.events.push(MeroDocsEvent::ParticipantLeft { user_id });
        Ok(())
    }

    /// The participants, in order of admission.
    pub fn list_participants(&self) -> (r: Vec<UserId>)
        ensures
            r@ == participant_ids(self.participants@),
    {
        let mut r: Vec<UserId> = Vec::new();
        let mut i: usize = 0;
        while i < self.participants.len()
            invariant
                0 <= i <= self.participants@.len(),
                r@ == participant_ids(self.participants@.take(i as int)),
            decreases self.participants@.len() - i,
        {
            r.push(self.participants[i].user_id);
            assert(participant_ids(self.participants@.take(i as int + 1)) =~= participant_ids(self.participants@.take(i as int)).push(self.participants@[i as int].user_id));
            i = i + 1;
        }
        assert(self.participants@.take(i as int) =~= self.participants@);
        r
    }

    /// A participant's permission.
    pub fn get_user_permission(&self, user_id: UserId) -> (r: Result<PermissionLevel, Error>)
        ensures
            self.participant_pos(user_id) < 0 ==> r == Err::<PermissionLevel, Error>(Error::NotFound),
            self.participant_pos(user_id) >= 0 ==> r == Ok::<PermissionLevel, Error>(self.participants@[self.participant_pos(user_id)].permission_level),
    {
        match self.find_participant(&user_id) {
            Some(p) => Ok(self.participants[p].permission_level),
            None => Err(Error::NotFound),
        }
    }
}

impl MeroDocsState {
    /// The other documents, the participants, consents, agreements and
    /// identity mappings are as they were, but for the document at `q`.
    pub open spec fn only_document(self, old: MeroDocsState, q: int) -> bool {
        &&& self.documents@.len() == old.documents@.len()
        &&& forall|j: int| 0 <= j < old.documents@.len() && j != q ==> self.documents@[j] == old.documents@[j]
        &&& self.participants == old.participants
        &&& self.consents == old.consents
        &&& self.dao_agreements == old.dao_agreements
        &&& self.identity_mappings == old.identity_mappings
    }

    /// Registers a document uploaded by the owner, with the blob that holds
    /// its content. Its status is the one no signature gives it.
    pub fn upload_document(
        &mut self,
        document_id: String,
        name: String,
        hash: String,
        pdf_blob_id_str: &str,
        file_size: u64,
        now: u64,
    ) -> (r: Result<(), Error>)
        requires
            old(self).wf(),
        ensures
            final(self).wf(),
            old(self).doc_pos(document_id@) >= 0 ==> r == Err::<(), Error>(Error::AlreadyExists),
            old(self).doc_pos(document_id@) < 0 && blob_id_of(pdf_blob_id_str@) is None ==> r == Err::<(), Error>(Error::InvalidInput),
            r is Ok <==> old(self).doc_pos(document_id@) < 0 && blob_id_of(pdf_blob_id_str@) is Some,
            r is Err ==> *final(self) == *old(self),
            r is Ok ==> {
                let d = final(self).documents@.last();
                &&& final(self).documents@ == old(self).documents@.push(d)
                &&& d.id == document_id
                &&& d.name == name
                &&& d.hash == hash
                &&& d.uploaded_by == old(self).owner
                &&& d.uploaded_at == now
                &&& d.updated_at == now
                &&& d.size == file_size
                &&& Some(d.pdf_blob_id@) == blob_id_of(pdf_blob_id_str@)
                &&& d.signatures@.len() == 0
                &&& d.status == signing_status(required_set(old(self).participants@), Set::empty())
                &&& final(self).participants == old(self).participants
                &&& final(self).consents == old(self).consents
            },
    {
        if self.find_document(&document_id).is_some() {
            return Err(Error::AlreadyExists);
        }
        let blob = parse_blob_id_base58(pdf_blob_id_str)?;
        let signatures: Vec<DocumentSignature> = Vec::new();
        let status = derive_status(&self.participants, &signatures);
        proof {
            assert(signed_set(signatures@) =~= Set::empty());
        }
        let event = MeroDocsEvent::DocumentUploaded { id: document_id.clone(), uploaded_by: self.owner };
        let doc = DocumentInfo {
            id: document_id,
            name,
            hash,
            uploaded_by: self.owner,
            uploaded_at: now,
            status,
            pdf_blob_id: blob,
            size: file_size,
            signatures,
            updated_at: now,
        };
        let ghost before = self.documents@;
        self.documents.push(doc);
        self.events.push(event);
        proof {
            lemma_first_pos(doc_ids(before), document_id_view(self.documents@.last()));
            assert(doc_ids(self.documents@) =~= doc_ids(before).push(self.documents@.last().id@));
            assert forall|i: int| 0 <= i < self.documents@.len() implies (#[trigger] self.documents@[i]).status
                == signing_status(required_set(self.participants@), signed_set(self.documents@[i].signatures@)) by {
                if i < before.len() {
                    assert(self.documents@[i] == before[i]);
                }
            }
        }
        Ok(())
    }

    /// What a signature by `signer` on a document comes to: consent first,
    /// then the document, then no earlier signature by the same signer.
    pub open spec fn sign_outcome(self, signer: UserId, doc: Seq<char>) -> Result<(), Error> {
        if !self.consented(signer, doc) {
            Err(Error::ConsentRequired)
        } else if self.doc_pos(doc) < 0 {
            Err(Error::NotFound)
        } else if signed_set(self.document(doc).signatures@).contains(signer) {
            Err(Error::AlreadySigned)
        } else {
            Ok(())
        }
    }

    /// Signs a document on behalf of `signer`, who must have consented to
    /// it and not signed it yet. The signed content replaces the document's
    /// blob, size and hash; its status becomes the one its signatures give it.
    pub fn sign_document(
        &mut self,
        document_id: &String,
        pdf_blob_id_str: &str,
        file_size: u64,
        new_hash: String,
        signer_id: UserId,
        now: u64,
    ) -> (r: Result<(), Error>)
        requires
            old(self).wf(),
        ensures
            final(self).wf(),
            old(self).sign_outcome(signer_id, document_id@) matches Err(e) ==> r == Err::<(), Error>(e),
            old(self).sign_outcome(signer_id, document_id@) is Ok && blob_id_of(pdf_blob_id_str@) is None
                ==> r == Err::<(), Error>(Error::InvalidInput),
            r is Ok <==> old(self).sign_outcome(signer_id, document_id@) is Ok && blob_id_of(pdf_blob_id_str@) is Some,
            r is Err ==> *final(self) == *old(self),
            r is Ok ==> {
                let q = old(self).doc_pos(document_id@);
                let d = old(self).documents@[q];
                let nd = final(self).documents@[q];
                &&& final(self).only_document(*old(self), q)
                &&& nd.signatures@ == d.signatures@.push(DocumentSignature { signer: signer_id, signed_at: now })
                &&& nd.hash == new_hash
                &&& Some(nd.pdf_blob_id@) == blob_id_of(pdf_blob_id_str@)
                &&& nd.size == file_size
                &&& nd.updated_at == now
                &&& nd.id == d.id
                &&& nd.name == d.name
                &&& nd.status == signing_status(required_set(old(self).participants@), signed_set(d.signatures@).insert(signer_id))
            },
    {
        if !self.has_consented(signer_id, document_id) {
            return Err(Error::ConsentRequired);
        }
        let q = match self.find_document(document_id) {
            Some(q) => q,
            None => {
                return Err(Error::NotFound);
            },
        };
        if has_signed(&self.documents[q].signatures, &signer_id) {
            return Err(Error::AlreadySigned);
        }
        let blob = parse_blob_id_base58(pdf_blob_id_str)?;
        let ghost before = self.documents@;
        self.documents[q].signatures.push(DocumentSignature { signer: signer_id, signed_at: now });
        let status = derive_status(&self.participants, &self.documents[q].signatures);
        self.documents[q].pdf_blob_id = blob;
        self.documents[q].size = file_size;
        self.documents[q].hash = new_hash;
        self.documents[q].status = status;
        self.documents[q].updated_at = now;
        self.events.push(MeroDocsEvent::DocumentSigned { document_id: document_id.clone(), signer: signer_id });
        proof {
            assert(doc_ids(self.documents@) =~= doc_ids(before));
            let sigs = self.documents@[q as int].signatures@;
            assert(signed_set(sigs) =~= signed_set(before[q as int].signatures@).insert(signer_id)) by {
                assert forall|u: UserId| signed_set(sigs).contains(u) <==> signed_set(before[q as int].signatures@).insert(signer_id).contains(u) by {
                    if signed_set(sigs).contains(u) && u != signer_id {
                        let k = choose|k: int| 0 <= k < sigs.len() && (#[trigger] sigs[k]).signer == u;
                        assert(before[q as int].signatures@[k] == sigs[k]);
                    }
                    if signed_set(before[q as int].signatures@).contains(u) {
                        let k = choose|k: int| 0 <= k < before[q as int].signatures@.len() && (#[trigger] before[q as int].signatures@[k]).signer == u;
                        assert(sigs[k] == before[q as int].signatures@[k]);
                    }
                    if u == signer_id {
                        assert(sigs[sigs.len() - 1].signer == u);
                    }
                }
            }
            assert forall|i: int| 0 <= i < self.documents@.len() implies (#[trigger] self.documents@[i]).status
                == signing_status(required_set(self.participants@), signed_set(self.documents@[i].signatures@)) by {
                if i != q {
                    assert(self.documents@[i] == before[i]);
                }
            }
        }
        Ok(())
    }

    /// Confirms that `user_id`, who consented, has signed the document. Its
    /// status always follows its signatures, so nothing changes.
    pub fn mark_participant_signed(&mut self, document_id: &String, user_id: UserId) -> (r: Result<(), Error>)
        requires
            old(self).wf(),
        ensures
            final(self).wf(),
            *final(self) == *old(self),
            !old(self).consented(user_id, document_id@) ==> r == Err::<(), Error>(Error::ConsentRequired),
            old(self).consented(user_id, document_id@) && old(self).doc_pos(document_id@) < 0 ==> r == Err::<(), Error>(Error::NotFound),
            old(self).consented(user_id, document_id@) && old(self).doc_pos(document_id@) >= 0
                && !signed_set(old(self).document(document_id@).signatures@).contains(user_id) ==> r == Err::<(), Error>(Error::NotReady),
            r is Ok <==> old(self).consented(user_id, document_id@) && old(self).doc_pos(document_id@) >= 0
                && signed_set(old(self).document(document_id@).signatures@).contains(user_id),
            r is Ok ==> old(self).document(document_id@).status == signing_status(
                required_set(old(self).participants@), signed_set(old(self).document(document_id@).signatures@)),
    {
        if !self.has_consented(user_id, document_id) {
            return Err(Error::ConsentRequired);
        }
        let q = match self.find_document(document_id) {
            Some(q) => q,
            None => {
                return Err(Error::NotFound);
            },
        };
        if !has_signed(&self.documents[q].signatures, &user_id) {
            return Err(Error::NotReady);
        }
        Ok(())
    }

    /// Deletes a document; only an administering owner may.
    pub fn delete_document(&mut self, document_id: &String) -> (r: Result<(), Error>)
        requires
            old(self).wf(),
        ensures
            final(self).wf(),
            old(self).is_private ==> r == Err::<(), Error>(Error::WrongContextKind),
            !old(self).is_private && !old(self).owner_is_admin() ==> r == Err::<(), Error>(Error::Unauthorized),
            old(self).owner_is_admin() && old(self).doc_pos(document_id@) < 0 ==> r == Err::<(), Error>(Error::NotFound),
            r is Ok <==> old(self).owner_is_admin() && old(self).doc_pos(document_id@) >= 0,
            r is Err ==> *final(self) == *old(self),
            r is Ok ==> final(self).documents@ == old(self).documents@.remove(old(self).doc_pos(document_id@)),
    {
        self.validate_admin_permissions()?;
        let q = match self.find_document(document_id) {
            Some(q) => q,
            None => {
                return Err(Error::NotFound);
            },
        };
        let ghost before = self.documents@;
        self.documents.remove(q);
        self.events.push(MeroDocsEvent::DocumentDeleted { id: document_id.clone() });
        proof {
            let ids = doc_ids(before);
            let nids = doc_ids(self.documents@);
            assert(nids =~= ids.remove(q as int));
            assert forall|a: int, b: int| 0 <= a < b < nids.len() implies nids[a] != nids[b] by {
                let a2 = if a < q { a } else { a + 1 };
                let b2 = if b < q { b } else { b + 1 };
                assert(nids[a] == ids[a2] && nids[b] == ids[b2]);
            }
            assert forall|i: int| 0 <= i < self.documents@.len() implies (#[trigger] self.documents@[i]).status
                == signing_status(required_set(self.participants@), signed_set(self.documents@[i].signatures@)) by {
                if i < q {
                    assert(self.documents@[i] == before[i]);
                } else {
                    assert(self.documents@[i] == before[i + 1]);
                }
            }
        }
        Ok(())
    }

    /// The documents, in order of upload.
    pub fn list_documents(&self) -> (r: &Vec<DocumentInfo>)
        ensures
            r@ == self.documents@,
    {
        &self.documents
    }

    /// The signatures of a document, oldest first; none for an unknown one.
    pub fn get_document_signatures(&self, document_id: &String) -> (r: Vec<DocumentSignature>)
        ensures
            self.doc_pos(document_id@) < 0 ==> r@.len() == 0,
            self.doc_pos(document_id@) >= 0 ==> r@ == self.document(document_id@).signatures@,
    {
        let mut r: Vec<DocumentSignature> = Vec::new();
        match self.find_document(document_id) {
            Some(q) => {
                let sigs = &self.documents[q].signatures;
                let mut i: usize = 0;
                while i < sigs.len()
                    invariant
                        0 <= i <= sigs@.len(),
                        r@ == sigs@.take(i as int),
                    decreases sigs@.len() - i,
                {
                    r.push(sigs[i]);
                    assert(sigs@.take(i as int + 1) =~= sigs@.take(i as int).push(sigs@[i as int]));
                    i = i + 1;
                }
                assert(sigs@.take(i as int) =~= sigs@);
            },
            None => {},
        }
        r
    }
}

/// Replacing one agreement by a well-formed one keeps every agreement well formed.
proof fn lemma_agreement_replaced(s: Seq<DaoAgreement>, p: int, a: DaoAgreement)
    requires
        0 <= p < s.len(),
        forall|i: int| 0 <= i < s.len() ==> (#[trigger] s[i]).wf(),
        a.wf(),
        a.id == s[p].id,
    ensures
        agreement_ids(s.update(p, a)) == agreement_ids(s),
        forall|i: int| 0 <= i < s.len() ==> (#[trigger] s.update(p, a)[i]).wf(),
{
    assert(agreement_ids(s.update(p, a)) =~= agreement_ids(s));
}

impl MeroDocsState {
    /// Whether this is the owner's default private context.
    pub fn is_default_private_context(&self) -> (r: bool)
        ensures
            r == (self.is_private && self.context_name@ == seq!['d', 'e', 'f', 'a', 'u', 'l', 't']),
    {
        let name = String::from_str("default");
        proof {
            reveal_strlit("default");
            assert(name@ =~= seq!['d', 'e', 'f', 'a', 'u', 'l', 't']);
        }
        self.is_private && self.context_name == name
    }

    pub fn get_context_type(&self) -> (r: ContextType)
        ensures
            r == self.context_type,
    {
        self.context_type
    }

    /// Stores a signature image of the private context under the next id.
    pub fn create_signature(&mut self, name: String, blob_id_str: &str, data_size: u64, now: u64) -> (r: Result<u64, Error>)
        requires
            old(self).wf(),
        ensures
            final(self).wf(),
            !old(self).is_private ==> r == Err::<u64, Error>(Error::WrongContextKind),
            old(self).is_private && old(self).signature_count == u64::MAX ==> r == Err::<u64, Error>(Error::Overflow),
            old(self).is_private && old(self).signature_count < u64::MAX && blob_id_of(blob_id_str@) is None
                ==> r == Err::<u64, Error>(Error::InvalidInput),
            r is Ok <==> old(self).is_private && old(self).signature_count < u64::MAX && blob_id_of(blob_id_str@) is Some,
            r is Err ==> *final(self) == *old(self),
            r is Ok ==> {
                let g = final(self).signatures@.last();
                &&& r == Ok::<u64, Error>(old(self).signature_count)
                &&& final(self).signature_count == old(self).signature_count + 1
                &&& final(self).signatures@ == old(self).signatures@.push(g)
                &&& g.id == old(self).signature_count
                &&& g.name == name
                &&& Some(g.blob_id@) == blob_id_of(blob_id_str@)
                &&& g.size == data_size
                &&& g.created_at == now
            },
    {
        if !self.is_private {
            return Err(Error::WrongContextKind);
        }
        if self.signature_count == u64::MAX {
            return Err(Error::Overflow);
        }
        let blob_id = parse_blob_id_base58(blob_id_str)?;
        let id = self.signature_count;
        self.signature_count = id + 1;
        self.signatures.push(SignatureRecord { id, name, blob_id, size: data_size, created_at: now });
        self.events.push(MeroDocsEvent::SignatureCreated { id, size: data_size });
        Ok(id)
    }

    /// The position of the signature image with this id, if any.
    pub fn find_signature(&self, signature_id: u64) -> (r: Option<usize>)
        ensures
            match r {
                Some(i) => i < self.signatures@.len() && self.signatures@[i as int].id == signature_id,
                None => forall|k: int| 0 <= k < self.signatures@.len() ==> (#[trigger] self.signatures@[k]).id != signature_id,
            },
    {
        let mut i: usize = 0;
        while i < self.signatures.len()
            invariant
                0 <= i <= self.signatures@.len(),
                forall|k: int| 0 <= k < i ==> (#[trigger] self.signatures@[k]).id != signature_id,
            decreases self.signatures@.len() - i,
        {
            if self.signatures[i].id == signature_id {
                return Some(i);
            }
            i = i + 1;
        }
        None
    }

    /// Deletes a signature image of the private context.
    pub fn delete_signature(&mut self, signature_id: u64) -> (r: Result<(), Error>)
        requires
            old(self).wf(),
        ensures
            final(self).wf(),
            !old(self).is_private ==> r == Err::<(), Error>(Error::WrongContextKind),
            old(self).is_private && (forall|k: int| 0 <= k < old(self).signatures@.len() ==> (#[trigger] old(self).signatures@[k]).id != signature_id)
                ==> r == Err::<(), Error>(Error::NotFound),
            r is Err ==> *final(self) == *old(self),
            r is Ok ==> exists|k: int| 0 <= k < old(self).signatures@.len() && (#[trigger] old(self).signatures@[k]).id == signature_id
                && final(self).signatures@ == old(self).signatures@.remove(k),
    {
        if !self.is_private {
            return Err(Error::WrongContextKind);
        }
        match self.find_signature(signature_id) {
            Some(i) => {
                self.signatures.remove(i);
                self.events.push(MeroDocsEvent::SignatureDeleted { id: signature_id });
                Ok(())
            },
            None => Err(Error::NotFound),
        }
    }

    /// The signature images of the private context.
    pub fn list_signatures(&self) -> (r: Result<&Vec<SignatureRecord>, Error>)
        ensures
            !self.is_private ==> r is Err && r == Err::<&Vec<SignatureRecord>, Error>(Error::WrongContextKind),
            self.is_private ==> (r matches Ok(v) && v@ == self.signatures@),
    {
        if !self.is_private {
            return Err(Error::WrongContextKind);
        }
        Ok(&self.signatures)
    }

    /// A summary of this context as of `now`: its participants with their
    /// permissions and the number of documents.
    pub fn get_context_details(&self, context_id: String, now: u64) -> (r: ContextDetails)
        ensures
            r.context_id == context_id,
            r.context_name == self.context_name,
            r.owner == self.owner,
            r.is_private == self.is_private,
            r.participants@ == self.participants@,
            r.participant_count == self.participants@.len(),
            r.document_count == self.documents@.len(),
            r.created_at == now,
    {
        let mut ps: Vec<ParticipantInfo> = Vec::new();
        let mut i: usize = 0;
        while i < self.participants.len()
            invariant
                0 <= i <= self.participants@.len(),
                ps@ == self.participants@.take(i as int),
            decreases self.participants@.len() - i,
        {
            ps.push(self.participants[i]);
            assert(self.participants@.take(i as int + 1) =~= self.participants@.take(i as int).push(self.participants@[i as int]));
            i = i + 1;
        }
        assert(self.participants@.take(i as int) =~= self.participants@);
        ContextDetails {
            context_id,
            context_name: self.context_name.clone(),
            owner: self.owner,
            is_private: self.is_private,
            participant_count: self.participants.len() as u64,
            participants: ps,
            document_count: self.documents.len() as u64,
            created_at: now,
        }
    }

    /// Turns this shared context into one that holds DAO agreements.
    pub fn initialize_dao_context(&mut self) -> (r: Result<(), Error>)
        requires
            old(self).wf(),
        ensures
            final(self).wf(),
            old(self).is_private ==> r == Err::<(), Error>(Error::WrongContextKind) && *final(self) == *old(self),
            !old(self).is_private ==> r is Ok && final(self).context_type == ContextType::DaoAgreement
                && final(self).dao_agreements == old(self).dao_agreements,
    {
        if self.is_private {
            return Err(Error::WrongContextKind);
        }
        self.context_type = ContextType::DaoAgreement;
        Ok(())
    }

    /// Opens a DAO agreement created by `caller`; the terms are checked as
    /// `DaoAgreement::create` checks them, and an id in use is `AlreadyExists`.
    pub fn create_dao_agreement(
        &mut self,
        caller: UserId,
        agreement_id: String,
        title: String,
        participants: &Vec<UserId>,
        milestones: Vec<DaoMilestone>,
        voting_threshold: u8,
        total_funding: u128,
        now: u64,
    ) -> (r: Result<(), Error>)
        requires
            old(self).wf(),
            participants@.len() + 1 <= u64::MAX,
        ensures
            final(self).wf(),
            old(self).context_type != ContextType::DaoAgreement ==> r == Err::<(), Error>(Error::WrongContextKind),
            old(self).context_type == ContextType::DaoAgreement
                && !DaoAgreement::valid_terms(agreement_id@, title@, milestones@, voting_threshold, total_funding)
                ==> r == Err::<(), Error>(Error::InvalidInput),
            old(self).context_type == ContextType::DaoAgreement
                && DaoAgreement::valid_terms(agreement_id@, title@, milestones@, voting_threshold, total_funding)
                && old(self).agreement_pos(agreement_id@) >= 0 ==> r == Err::<(), Error>(Error::AlreadyExists),
            r is Ok <==> old(self).context_type == ContextType::DaoAgreement
                && DaoAgreement::valid_terms(agreement_id@, title@, milestones@, voting_threshold, total_funding)
                && old(self).agreement_pos(agreement_id@) < 0,
            r is Err ==> *final(self) == *old(self),
            r is Ok ==> {
                let a = final(self).dao_agreements@.last();
                &&& final(self).dao_agreements@ == old(self).dao_agreements@.push(a)
                &&& a.id == agreement_id
                &&& a.title == title
                &&& a.creator == caller
                &&& a.participants@.no_duplicates()
                &&& (forall|u: UserId| a.participants@.contains(u) <==> participants@.contains(u))
                &&& a.status == crate::milestone::AgreementStatus::Active
                &&& a.milestones@.len() == milestones@.len()
                &&& (forall|i: int| 0 <= i < milestones@.len() ==> crate::agreement::same_terms(#[trigger] a.milestones@[i], milestones@[i])
                    && crate::agreement::fresh_milestone(a.milestones@[i]))
                &&& a.voting_threshold == voting_threshold
                &&& a.total_funding == total_funding
                &&& a.remaining_balance == 0
            },
    {
        if self.context_type != ContextType::DaoAgreement {
            return Err(Error::WrongContextKind);
        }
        let exists = self.find_agreement(&agreement_id).is_some();
        let a = DaoAgreement::create(
            agreement_id, title, String::new(), caller, participants, Vec::new(), milestones,
            voting_threshold, total_funding, now,
        )?;
        if exists {
            return Err(Error::AlreadyExists);
        }
        let ghost before = self.dao_agreements@;
        self.dao_agreements.push(a);
        proof {
            assert forall|i: int| 0 <= i < self.dao_agreements@.len() implies (#[trigger] self.dao_agreements@[i]).wf() by {
                if i < before.len() {
                    assert(self.dao_agreements@[i] == before[i]);
                }
            }
        }
        Ok(())
    }
}

impl MeroDocsState {
    /// Only the agreement at `p` may differ, keeping its id; nothing else changes.
    pub open spec fn only_agreement(self, old: MeroDocsState, p: int) -> bool {
        &&& self.dao_agreements@.len() == old.dao_agreements@.len()
        &&& self.dao_agreements@[p].id == old.dao_agreements@[p].id
        &&& forall|j: int| 0 <= j < old.dao_agreements@.len() && j != p ==> self.dao_agreements@[j] == old.dao_agreements@[j]
        &&& self.documents == old.documents
        &&& self.participants == old.participants
        &&& self.consents == old.consents
        &&& self.context_type == old.context_type
    }

    /// The agreement with this id, in a DAO context.
    pub open spec fn agreement(self, id: Seq<char>) -> DaoAgreement {
        self.dao_agreements@[self.agreement_pos(id)]
    }

    /// Adds a fresh milestone to an agreement.
    pub fn add_milestone_to_agreement(&mut self, agreement_id: &String, milestone: DaoMilestone) -> (r: Result<(), Error>)
        requires
            old(self).wf(),
        ensures
            final(self).wf(),
            old(self).context_type != ContextType::DaoAgreement ==> r == Err::<(), Error>(Error::WrongContextKind),
            old(self).context_type == ContextType::DaoAgreement && old(self).agreement_pos(agreement_id@) < 0
                ==> r == Err::<(), Error>(Error::NotFound),
            old(self).context_type == ContextType::DaoAgreement && old(self).agreement_pos(agreement_id@) >= 0 ==> {
                let a = old(self).agreement(agreement_id@);
                let b = final(self).agreement(agreement_id@);
                &&& (a.milestone_pos(milestone.id) >= 0 ==> r == Err::<(), Error>(Error::AlreadyExists))
                &&& (r is Ok <==> a.milestone_pos(milestone.id) < 0)
                &&& (r is Ok ==> final(self).only_agreement(*old(self), old(self).agreement_pos(agreement_id@))
                    && b.milestones@ == a.milestones@.push(b.milestones@.last())
                    && crate::agreement::same_terms(b.milestones@.last(), milestone)
                    && crate::agreement::fresh_milestone(b.milestones@.last())
                    && b.same_frame(a) && b.total_funding == a.total_funding && b.remaining_balance == a.remaining_balance)
            },
            r is Err ==> *final(self) == *old(self),
    {
        if self.context_type != ContextType::DaoAgreement {
            return Err(Error::WrongContextKind);
        }
        let p = match self.find_agreement(agreement_id) {
            Some(p) => p,
            None => {
                return Err(Error::NotFound);
            },
        };
        if self.dao_agreements[p].find_milestone(milestone.id).is_some() {
            return Err(Error::AlreadyExists);
        }
        let ghost before = self.dao_agreements@;
        let r = self.dao_agreements[p].add_milestone(milestone);
        proof {
            lemma_agreement_replaced(before, p as int, self.dao_agreements@[p as int]);
            assert(self.dao_agreements@ =~= before.update(p as int, self.dao_agreements@[p as int]));
            lemma_first_pos(agreement_ids(self.dao_agreements@), agreement_id@);
        }
        r
    }

    /// Funds an agreement with `amount` on behalf of `caller`.
    pub fn fund_dao_agreement(&mut self, caller: UserId, agreement_id: &String, amount: u128) -> (r: Result<(), Error>)
        requires
            old(self).wf(),
        ensures
            final(self).wf(),
            old(self).context_type != ContextType::DaoAgreement ==> r == Err::<(), Error>(Error::WrongContextKind),
            old(self).context_type == ContextType::DaoAgreement && amount == 0 ==> r == Err::<(), Error>(Error::InvalidAmount),
            old(self).context_type == ContextType::DaoAgreement && amount > 0 && old(self).agreement_pos(agreement_id@) < 0
                ==> r == Err::<(), Error>(Error::NotFound),
            old(self).context_type == ContextType::DaoAgreement && old(self).agreement_pos(agreement_id@) >= 0 ==> {
                let a = old(self).agreement(agreement_id@);
                let b = final(self).agreement(agreement_id@);
                &&& r == a.fund_outcome(caller, amount)
                &&& (r is Ok ==> final(self).only_agreement(*old(self), old(self).agreement_pos(agreement_id@))
                    && b.same_frame(a)
                    && b.total_funding == a.total_funding + amount
                    && b.remaining_balance == a.remaining_balance + amount
                    && b.milestones == a.milestones)
            },
            r is Err ==> *final(self) == *old(self),
    {
        if self.context_type != ContextType::DaoAgreement {
            return Err(Error::WrongContextKind);
        }
        if amount == 0 {
            return Err(Error::InvalidAmount);
        }
        let p = match self.find_agreement(agreement_id) {
            Some(p) => p,
            None => {
                return Err(Error::NotFound);
            },
        };
        self.dao_agreements[p].fund_check(caller, amount)?;
        let ghost before = self.dao_agreements@;
        let r = self.dao_agreements[p].fund(caller, amount);
        proof {
            lemma_agreement_replaced(before, p as int, self.dao_agreements@[p as int]);
            assert(self.dao_agreements@ =~= before.update(p as int, self.dao_agreements@[p as int]));
            lemma_first_pos(agreement_ids(self.dao_agreements@), agreement_id@);
        }
        r
    }

    /// Casts `caller`'s vote on a milestone; returns its new status.
    pub fn vote_on_milestone(&mut self, caller: UserId, agreement_id: &String, milestone_id: u64, approve: bool, now: u64) -> (r: Result<MilestoneStatus, Error>)
        requires
            old(self).wf(),
        ensures
            final(self).wf(),
            old(self).context_type != ContextType::DaoAgreement ==> r == Err::<MilestoneStatus, Error>(Error::WrongContextKind),
            old(self).context_type == ContextType::DaoAgreement && old(self).agreement_pos(agreement_id@) < 0
                ==> r == Err::<MilestoneStatus, Error>(Error::NotFound),
            old(self).context_type == ContextType::DaoAgreement && old(self).agreement_pos(agreement_id@) >= 0 ==> {
                let a = old(self).agreement(agreement_id@);
                &&& (a.vote_outcome(milestone_id, caller) matches Err(e) ==> r == Err::<MilestoneStatus, Error>(e))
                &&& (r is Ok <==> a.vote_outcome(milestone_id, caller) is Ok)
                &&& (r is Ok ==> final(self).only_agreement(*old(self), old(self).agreement_pos(agreement_id@))
                    && r == Ok::<MilestoneStatus, Error>(a.status_after_vote(milestone_id, caller, approve, now))
                    && a.voted(final(self).agreement(agreement_id@), milestone_id, caller, approve, now))
            },
            r is Err ==> *final(self) == *old(self),
    {
        if self.context_type != ContextType::DaoAgreement {
            return Err(Error::WrongContextKind);
        }
        let p = match self.find_agreement(agreement_id) {
            Some(p) => p,
            None => {
                return Err(Error::NotFound);
            },
        };
        self.dao_agreements[p].vote_check(milestone_id, caller)?;
        let ghost before = self.dao_agreements@;
        let r = self.dao_agreements[p].vote(milestone_id, caller, approve, now);
        proof {
            lemma_agreement_replaced(before, p as int, self.dao_agreements@[p as int]);
            assert(self.dao_agreements@ =~= before.update(p as int, self.dao_agreements@[p as int]));
            lemma_first_pos(agreement_ids(self.dao_agreements@), agreement_id@);
        }
        r
    }

    /// Pays out an approved milestone in one step; the transfer itself is
    /// not this context's business.
    pub fn execute_milestone(&mut self, agreement_id: &String, milestone_id: u64, now: u64) -> (r: Result<(), Error>)
        requires
            old(self).wf(),
        ensures
            final(self).wf(),
            old(self).context_type != ContextType::DaoAgreement ==> r == Err::<(), Error>(Error::WrongContextKind),
            old(self).context_type == ContextType::DaoAgreement && old(self).agreement_pos(agreement_id@) < 0
                ==> r == Err::<(), Error>(Error::NotFound),
            old(self).context_type == ContextType::DaoAgreement && old(self).agreement_pos(agreement_id@) >= 0 ==> {
                let a = old(self).agreement(agreement_id@);
                let b = final(self).agreement(agreement_id@);
                let q = a.milestone_pos(milestone_id);
                &&& (q < 0 ==> r == Err::<(), Error>(Error::NotFound))
                &&& (q >= 0 ==> {
                    let m = a.milestones@[q];
                    let gate = crate::agreement::execution_gate(m.status, a.remaining_balance as int, m.amount as int);
                    &&& (r is Ok <==> gate is Ok)
                    &&& (gate matches Err(e) ==> r == Err::<(), Error>(e))
                    &&& (r is Ok ==> final(self).only_agreement(*old(self), old(self).agreement_pos(agreement_id@))
                        && a.paid_by(b, milestone_id, now)
                        && b.milestones@[q].status == MilestoneStatus::Executed
                        && b.milestones@[q].completed_at == Some(now)
                        && b.remaining_balance == a.remaining_balance - m.amount
                        && b.total_funding == a.total_funding)
                })
            },
            r is Err ==> *final(self) == *old(self),
    {
        if self.context_type != ContextType::DaoAgreement {
            return Err(Error::WrongContextKind);
        }
        let p = match self.find_agreement(agreement_id) {
            Some(p) => p,
            None => {
                return Err(Error::NotFound);
            },
        };
        self.dao_agreements[p].execution_check(milestone_id)?;
        let ghost before = self.dao_agreements@;
        let r = self.dao_agreements[p].execute_now(milestone_id, now);
        proof {
            lemma_agreement_replaced(before, p as int, self.dao_agreements@[p as int]);
            assert(self.dao_agreements@ =~= before.update(p as int, self.dao_agreements@[p as int]));
            lemma_first_pos(agreement_ids(self.dao_agreements@), agreement_id@);
        }
        r
    }

    /// The agreement with this id.
    pub fn get_dao_agreement(&self, agreement_id: &String) -> (r: Result<&DaoAgreement, Error>)
        ensures
            self.context_type != ContextType::DaoAgreement ==> r is Err && r == Err::<&DaoAgreement, Error>(Error::WrongContextKind),
            self.context_type == ContextType::DaoAgreement && self.agreement_pos(agreement_id@) < 0
                ==> r is Err && r == Err::<&DaoAgreement, Error>(Error::NotFound),
            self.context_type == ContextType::DaoAgreement && self.agreement_pos(agreement_id@) >= 0
                ==> (r matches Ok(a) && *a == self.agreement(agreement_id@)),
    {
        if self.context_type != ContextType::DaoAgreement {
            return Err(Error::WrongContextKind);
        }
        match self.find_agreement(agreement_id) {
            Some(p) => Ok(&self.dao_agreements[p]),
            None => Err(Error::NotFound),
        }
    }

    /// Every agreement of this DAO context.
    pub fn list_dao_agreements(&self) -> (r: Result<&Vec<DaoAgreement>, Error>)
        ensures
            self.context_type != ContextType::DaoAgreement ==> r is Err && r == Err::<&Vec<DaoAgreement>, Error>(Error::WrongContextKind),
            self.context_type == ContextType::DaoAgreement ==> (r matches Ok(v) && v@ == self.dao_agreements@),
    {
        if self.context_type != ContextType::DaoAgreement {
            return Err(Error::WrongContextKind);
        }
        Ok(&self.dao_agreements)
    }

    /// A milestone of an agreement.
    pub fn get_milestone_details(&self, agreement_id: &String, milestone_id: u64) -> (r: Result<&DaoMilestone, Error>)
        ensures
            self.context_type != ContextType::DaoAgreement ==> r is Err && r == Err::<&DaoMilestone, Error>(Error::WrongContextKind),
            self.context_type == ContextType::DaoAgreement && (self.agreement_pos(agreement_id@) < 0
                || self.agreement(agreement_id@).milestone_pos(milestone_id) < 0) ==> r is Err && r == Err::<&DaoMilestone, Error>(Error::NotFound),
            self.context_type == ContextType::DaoAgreement && self.agreement_pos(agreement_id@) >= 0
                && self.agreement(agreement_id@).milestone_pos(milestone_id) >= 0 ==> (r matches Ok(m)
                && *m == self.agreement(agreement_id@).milestones@[self.agreement(agreement_id@).milestone_pos(milestone_id)]),
    {
        if self.context_type != ContextType::DaoAgreement {
            return Err(Error::WrongContextKind);
        }
        let p = match self.find_agreement(agreement_id) {
            Some(p) => p,
            None => {
                return Err(Error::NotFound);
            },
        };
        match self.dao_agreements[p].find_milestone(milestone_id) {
            Some(q) => {
                proof {
                    lemma_first_pos(crate::agreement::milestone_ids(self.dao_agreements@[p as int].milestones@), milestone_id);
                }
                Ok(&self.dao_agreements[p].milestones[q])
            },
            None => Err(Error::NotFound),
        }
    }

    /// The tally of a milestone of an agreement.
    pub fn get_milestone_voting_status(&self, agreement_id: &String, milestone_id: u64) -> (r: Result<MilestoneVotingInfo, Error>)
        requires
            self.wf(),
        ensures
            self.context_type != ContextType::DaoAgreement ==> r is Err && r == Err::<MilestoneVotingInfo, Error>(Error::WrongContextKind),
            self.context_type == ContextType::DaoAgreement && (self.agreement_pos(agreement_id@) < 0
                || self.agreement(agreement_id@).milestone_pos(milestone_id) < 0) ==> r is Err && r == Err::<MilestoneVotingInfo, Error>(Error::NotFound),
            self.context_type == ContextType::DaoAgreement && self.agreement_pos(agreement_id@) >= 0
                && self.agreement(agreement_id@).milestone_pos(milestone_id) >= 0 ==> (r matches Ok(info) && {
                let a = self.agreement(agreement_id@);
                let m = a.milestones@[a.milestone_pos(milestone_id)];
                &&& info.milestone_id == milestone_id
                &&& info.status == m.status
                &&& info.approval_votes == crate::milestone::approvals(m.votes@)
                &&& info.rejection_votes == crate::milestone::rejections(m.votes@)
                &&& info.total_participants == a.voter_count()
                &&& info.required_votes == crate::milestone::required_votes_spec(a.voter_count(), a.voting_threshold as int)
            }),
    {
        if self.context_type != ContextType::DaoAgreement {
            return Err(Error::WrongContextKind);
        }
        match self.find_agreement(agreement_id) {
            Some(p) => self.dao_agreements[p].voting_info(milestone_id),
            None => Err(Error::NotFound),
        }
    }
}

pub open spec fn type_rank(t: ContextType) -> int {
    match t {
        ContextType::Default => 0,
        ContextType::DaoAgreement => 1,
    }
}

/// Joined contexts are listed by kind (default ones first), then by name.
pub open spec fn listed_before(a: ContextMetadata, b: ContextMetadata) -> bool {
    type_rank(a.context_type) < type_rank(b.context_type)
        || (type_rank(a.context_type) == type_rank(b.context_type) && text_lt(a.context_name@, b.context_name@))
}

pub open spec fn deref_all(v: Seq<&ContextMetadata>) -> Seq<ContextMetadata> {
    v.map_values(|c: &ContextMetadata| *c)
}

fn is_listed_before(a: &ContextMetadata, b: &ContextMetadata) -> (r: bool)
    ensures
        r == listed_before(*a, *b),
{
    let ra: u8 = match a.context_type {
        ContextType::Default => 0,
        ContextType::DaoAgreement => 1,
    };
    let rb: u8 = match b.context_type {
        ContextType::Default => 0,
        ContextType::DaoAgreement => 1,
    };
    ra < rb || (ra == rb && text_less(a.context_name.as_str(), b.context_name.as_str()))
}

/// Where `x` goes among `out`: after every entry that it does not come before.
fn insertion_point(out: &Vec<&ContextMetadata>, x: &ContextMetadata) -> (k: usize)
    ensures
        k <= out@.len(),
        forall|j: int| 0 <= j < k ==> !listed_before(*x, *out@[j]),
        k < out@.len() ==> listed_before(*x, *out@[k as int]),
{
    let mut k: usize = 0;
    while k < out.len()
        invariant
            0 <= k <= out@.len(),
            forall|j: int| 0 <= j < k ==> !listed_before(*x, *out@[j]),
        decreases out@.len() - k,
    {
        if is_listed_before(x, out[k]) {
            return k;
        }
        k = k + 1;
    }
    k
}

impl MeroDocsState {
    /// The joined shared contexts, default ones first, each kind by name.
    pub fn list_joined_contexts(&self) -> (r: Result<Vec<&ContextMetadata>, Error>)
        ensures
            !self.is_private ==> r is Err && r == Err::<Vec<&ContextMetadata>, Error>(Error::WrongContextKind),
            self.is_private ==> (r matches Ok(v) && {
                &&& deref_all(v@).to_multiset() == self.joined_contexts@.to_multiset()
                &&& forall|j: int| 0 <= j < v@.len() - 1 ==> !listed_before(*#[trigger] v@[j + 1], *v@[j])
            }),
    {
        if !self.is_private {
            return Err(Error::WrongContextKind);
        }
        let mut out: Vec<&ContextMetadata> = Vec::new();
        let mut i: usize = 0;
        assert(deref_all(out@) =~= self.joined_contexts@.take(0));
        while i < self.joined_contexts.len()
            invariant
                0 <= i <= self.joined_contexts@.len(),
                deref_all(out@).to_multiset() == self.joined_contexts@.take(i as int).to_multiset(),
                forall|j: int| 0 <= j < out@.len() - 1 ==> !listed_before(*#[trigger] out@[j + 1], *out@[j]),
            decreases self.joined_contexts@.len() - i,
        {
            let x = &self.joined_contexts[i];
            let k = insertion_point(&out, x);
            let ghost before = out@;
            out.insert(k, x);
            proof {
                assert(deref_all(out@) =~= deref_all(before).insert(k as int, *x));
                vstd::seq_lib::to_multiset_insert(deref_all(before), k as int, *x);
                assert(self.joined_contexts@.take(i as int + 1) =~= self.joined_contexts@.take(i as int).push(*x));
                vstd::seq_lib::to_multiset_build(self.joined_contexts@.take(i as int), *x);
                assert forall|j: int| 0 <= j < out@.len() - 1 implies !listed_before(*#[trigger] out@[j + 1], *out@[j]) by {
                    if j + 1 < k {
                        assert(out@[j] == before[j] && out@[j + 1] == before[j + 1]);
                        assert(!listed_before(*before[j + 1], *before[j]));
                    } else if j + 1 == k {
                        assert(out@[j] == before[j]);
                        assert(out@[j + 1] == x);
                        assert(!listed_before(*x, *before[j]));
                    } else if j == k {
                        assert(out@[j] == x);
                        assert(out@[j + 1] == before[k as int]);
                        assert(listed_before(*x, *before[k as int]));
                        lemma_text_lt_asymmetric(x.context_name@, before[k as int].context_name@);
                    } else {
                        let jj = j - 1;
                        assert(out@[j] == before[jj] && out@[j + 1] == before[jj + 1]);
                        assert(!listed_before(*before[jj + 1], *before[jj]));
                    }
                }
            }
            i = i + 1;
        }
        assert(self.joined_contexts@.take(i as int) =~= self.joined_contexts@);
        Ok(out)
    }
}

} // verus!
