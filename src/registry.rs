use vstd::prelude::*;
use vstd::string::StrSliceExecFns;
use crate::encoding::{alphanumeric, hex_decodable, hex_decodes, is_alphanumeric};
use crate::error::Error;
use crate::lookup::{first_pos, lemma_first_pos, lemma_first_pos_at, lemma_text_lt_total, text_less, text_lt};
use crate::merodocs::DocumentStatus;

verus! {

/// The longest id accepted, in bytes.
pub const MAX_ID_SIZE: usize = 128;

/// The length of a document hash: 32 bytes in hex.
pub const HASH_LEN: usize = 64;

/// Where a signing context stands.
#[derive(Clone, Copy, Debug, PartialEq, Eq, Structural)]
pub enum ContextStatus {
    Active,
    Completed,
    Expired,
}

/// Descriptive fields of a signing context.
#[derive(Clone, Debug)]
pub struct ContextMetadata {
    pub title: Option<String>,
    pub description: Option<String>,
    pub agreement_type: Option<String>,
    pub expires_at: Option<u64>,
}

/// A signing context: its administrator, participants and documents.
#[derive(Clone, Debug)]
pub struct ContextRecord {
    pub context_id: String,
    pub admin_id: String,
    pub participants: Vec<String>,
    pub document_ids: Vec<String>,
    pub context_status: ContextStatus,
    pub metadata: ContextMetadata,
    pub created_at: u64,
}

/// A registered document: the hash it was uploaded with, the final hash
/// once recorded, and who has signed it.
#[derive(Clone, Debug)]
pub struct DocumentRecord {
    pub document_id: String,
    pub context_id: String,
    pub original_hash: String,
    pub timestamp_original: u64,
    pub final_hash: Option<String>,
    pub timestamp_final: Option<u64>,
    pub current_signers: Vec<String>,
    pub document_status: DocumentStatus,
    pub created_at: u64,
}

/// What an audit entry records.
#[derive(Clone, Copy, Debug, PartialEq, Eq, Structural)]
pub enum AuditAction {
    ContextCreated,
    ParticipantAdded,
    DocumentUploaded,
    ConsentGiven,
    SignatureApplied,
    DocumentCompleted,
    ContextCompleted,
}

/// One entry of a context's append-only audit trail.
#[derive(Clone, Debug)]
pub struct AuditEntry {
    pub entry_id: u64,
    pub user_id: String,
    pub action: AuditAction,
    pub timestamp: u64,
    pub context_id: String,
    pub document_id: Option<String>,
    pub consent_given: Option<bool>,
    pub document_hash_after_action: Option<String>,
}

/// The audit trail of one context, oldest entry first.
#[derive(Clone, Debug)]
pub struct AuditTrail {
    pub entries: Vec<AuditEntry>,
}

/// The terms of a new context.
pub struct CreateContextRequest {
    pub context_id: String,
    pub participants: Vec<String>,
    pub title: Option<String>,
    pub description: Option<String>,
    pub agreement_type: Option<String>,
    pub expires_at: Option<u64>,
}

/// A document to register in a context.
pub struct DocumentUploadRequest {
    pub context_id: String,
    pub document_id: String,
    pub document_hash: String,
}

/// A signature on a document, with the signer's acknowledgement of consent.
pub struct SigningRequest {
    pub document_id: String,
    pub consent_acknowledged: bool,
}

/// How a hash compares with what is recorded for a document.
#[derive(Clone, Copy, Debug, PartialEq, Eq, Structural)]
pub enum VerificationStatus {
    Unrecorded,
    OriginalMatch,
    FinalMatch,
    NoMatch,
}

/// A well-formed id: not empty, at most `MAX_ID_SIZE` bytes, and made of
/// alphanumeric characters, `-` and `_`.
pub open spec fn valid_id(id: Seq<char>) -> bool {
    &&& id.len() > 0
    &&& vstd::utf8::encode_utf8(id).len() <= MAX_ID_SIZE
    &&& forall|i: int| 0 <= i < id.len() ==> {
        let c = #[trigger] id[i];
        alphanumeric(c) || c == '-' || c == '_'
    }
}

/// A well-formed hash: 64 hex digits.
pub open spec fn valid_hash(h: Seq<char>) -> bool {
    vstd::utf8::encode_utf8(h).len() == HASH_LEN && hex_decodable(h)
}

pub open spec fn views(v: Seq<String>) -> Seq<Seq<char>> {
    v.map_values(|s: String| s@)
}

/// Checks an id; a malformed one is `InvalidInput`.
pub fn validate_id(id: &str) -> (r: Result<(), Error>)
    ensures
        r is Ok <==> valid_id(id@),
        r is Err ==> r == Err::<(), Error>(Error::InvalidInput),
{
    if id.is_empty() {
        return Err(Error::InvalidInput);
    }
    if id.as_bytes().len() > MAX_ID_SIZE {
        return Err(Error::InvalidInput);
    }
    let n = id.unicode_len();
    let mut i: usize = 0;
    while i < n
        invariant
            0 <= i <= n,
            n == id@.len(),
            forall|j: int| 0 <= j < i ==> {
                let c = #[trigger] id@[j];
                alphanumeric(c) || c == '-' || c == '_'
            },
        decreases n - i,
    {
        let c = id.get_char(i);
        if !(is_alphanumeric(c) || c == '-' || c == '_') {
            assert(!valid_id(id@));
            return Err(Error::InvalidInput);
        }
        i = i + 1;
    }
    Ok(())
}

/// Checks a document hash; anything but 64 hex digits is `InvalidInput`.
pub fn validate_hash(hash: &str) -> (r: Result<(), Error>)
    ensures
        r is Ok <==> valid_hash(hash@),
        r is Err ==> r == Err::<(), Error>(Error::InvalidInput),
{
    if hash.as_bytes().len() != HASH_LEN {
        return Err(Error::InvalidInput);
    }
    if !hex_decodes(hash) {
        return Err(Error::InvalidInput);
    }
    Ok(())
}

/// Whether `s` is one of `v`, by content.
pub fn contains_str(v: &Vec<String>, s: &String) -> (r: bool)
    ensures
        r == views(v@).contains(s@),
{
    let mut i: usize = 0;
    while i < v.len()
        invariant
            0 <= i <= v@.len(),
            forall|j: int| 0 <= j < i ==> views(v@)[j] != s@,
        decreases v@.len() - i,
    {
        if v[i] == *s {
            assert(views(v@)[i as int] == s@);
            return true;
        }
        i = i + 1;
    }
    false
}

impl AuditTrail {
    pub fn new() -> (r: AuditTrail)
        ensures
            r.entries@.len() == 0,
    {
        AuditTrail { entries: Vec::new() }
    }

    /// Appends an entry; entries are never rewritten.
    pub fn add_entry(&mut self, entry: AuditEntry)
        ensures
            final(self).entries@ == old(self).entries@.push(entry),
    {
        self.entries.push(entry);
    }

    pub fn get_entries(&self) -> (r: &Vec<AuditEntry>)
        ensures
            r@ == self.entries@,
    {
        &self.entries
    }
}

/// The entry records `user`'s consent to `doc`.
pub open spec fn consent_entry(e: AuditEntry, user: Seq<char>, doc: Seq<char>) -> bool {
    &&& e.user_id@ == user
    &&& e.action == AuditAction::ConsentGiven
    &&& e.consent_given == Some(true)
    &&& e.document_id matches Some(d) && d@ == doc
}

/// Everyone who must sign a context's documents: its participants and its administrator.
pub open spec fn required_signer(c: ContextRecord, u: Seq<char>) -> bool {
    views(c.participants@).contains(u) || c.admin_id@ == u
}

/// Every required signer of `c` is among `signers`.
pub open spec fn signed_by_required(c: ContextRecord, signers: Seq<String>) -> bool {
    forall|u: Seq<char>| required_signer(c, u) ==> views(signers).contains(u)
}

/// The registry of the single-executor deployment: contexts, documents, and
/// one audit trail per context (`audit[i]` is the trail of `contexts[i]`).
pub struct Registry {
    pub contexts: Vec<ContextRecord>,
    pub documents: Vec<DocumentRecord>,
    pub audit: Vec<AuditTrail>,
    /// Trails begun for contexts that do not exist (yet); a context created
    /// later takes its trail over.
    pub detached: Vec<DetachedTrail>,
}

/// An audit trail kept under a context id that no context has.
pub struct DetachedTrail {
    pub context_id: String,
    pub trail: AuditTrail,
}

pub open spec fn detached_ids(s: Seq<DetachedTrail>) -> Seq<Seq<char>> {
    s.map_values(|t: DetachedTrail| t.context_id@)
}

pub open spec fn context_ids(s: Seq<ContextRecord>) -> Seq<Seq<char>> {
    s.map_values(|c: ContextRecord| c.context_id@)
}

pub open spec fn document_ids(s: Seq<DocumentRecord>) -> Seq<Seq<char>> {
    s.map_values(|d: DocumentRecord| d.document_id@)
}

impl Registry {
    pub open spec fn wf(self) -> bool {
        &&& self.audit@.len() == self.contexts@.len()
    }

    pub open spec fn ctx_pos(self, id: Seq<char>) -> int {
        first_pos(context_ids(self.contexts@), id)
    }

    pub open spec fn doc_pos(self, id: Seq<char>) -> int {
        first_pos(document_ids(self.documents@), id)
    }

    pub open spec fn context(self, id: Seq<char>) -> ContextRecord {
        self.contexts@[self.ctx_pos(id)]
    }

    pub open spec fn document(self, id: Seq<char>) -> DocumentRecord {
        self.documents@[self.doc_pos(id)]
    }

    pub open spec fn detached_pos(self, id: Seq<char>) -> int {
        first_pos(detached_ids(self.detached@), id)
    }

    /// The audit trail kept under this context id: the context's own, else
    /// one begun before the context existed, else none.
    pub open spec fn trail(self, id: Seq<char>) -> Seq<AuditEntry> {
        if self.ctx_pos(id) >= 0 {
            self.audit@[self.ctx_pos(id)].entries@
        } else if self.detached_pos(id) >= 0 {
            self.detached@[self.detached_pos(id)].trail.entries@
        } else {
            Seq::empty()
        }
    }

    /// The context exists and `user` is its administrator or a participant.
    pub open spec fn participant(self, ctx: Seq<char>, user: Seq<char>) -> bool {
        self.ctx_pos(ctx) >= 0 && required_signer(self.context(ctx), user)
    }

    /// The trail of the context holds `user`'s consent to `doc`.
    pub open spec fn consented(self, ctx: Seq<char>, user: Seq<char>, doc: Seq<char>) -> bool {
        exists|k: int| 0 <= k < self.trail(ctx).len() && consent_entry(#[trigger] self.trail(ctx)[k], user, doc)
    }

    pub fn new() -> (r: Registry)
        ensures
            r.wf(),
            r.contexts@.len() == 0,
            r.documents@.len() == 0,
    {
        Registry { contexts: Vec::new(), documents: Vec::new(), audit: Vec::new(), detached: Vec::new() }
    }

    pub fn find_context(&self, id: &String) -> (r: Option<usize>)
        ensures
            match r {
                Some(p) => p as int == self.ctx_pos(id@),
                None => self.ctx_pos(id@) == -1,
            },
            -1 <= self.ctx_pos(id@) < self.contexts@.len(),
    {
        proof {
            lemma_first_pos(context_ids(self.contexts@), id@);
        }
        let mut i: usize = 0;
        while i < self.contexts.len()
            invariant
                0 <= i <= self.contexts@.len(),
                forall|j: int| 0 <= j < i ==> context_ids(self.contexts@)[j] != id@,
            decreases self.contexts@.len() - i,
        {
            if self.contexts[i].context_id == *id {
                proof {
                    lemma_first_pos_at(context_ids(self.contexts@), id@, i as int);
                }
                return Some(i);
            }
            i = i + 1;
        }
        None
    }

    pub fn find_document(&self, id: &String) -> (r: Option<usize>)
        ensures
            match r {
                Some(p) => p as int == self.doc_pos(id@),
                None => self.doc_pos(id@) == -1,
            },
            -1 <= self.doc_pos(id@) < self.documents@.len(),
    {
        proof {
            lemma_first_pos(document_ids(self.documents@), id@);
        }
        let mut i: usize = 0;
        while i < self.documents.len()
            invariant
                0 <= i <= self.documents@.len(),
                forall|j: int| 0 <= j < i ==> document_ids(self.documents@)[j] != id@,
            decreases self.documents@.len() - i,
        {
            if self.documents[i].document_id == *id {
                proof {
                    lemma_first_pos_at(document_ids(self.documents@), id@, i as int);
                }
                return Some(i);
            }
            i = i + 1;
        }
        None
    }

    pub fn find_detached(&self, id: &String) -> (r: Option<usize>)
        ensures
            match r {
                Some(p) => p as int == self.detached_pos(id@),
                None => self.detached_pos(id@) == -1,
            },
            -1 <= self.detached_pos(id@) < self.detached@.len(),
    {
        proof {
            lemma_first_pos(detached_ids(self.detached@), id@);
        }
        let mut i: usize = 0;
        while i < self.detached.len()
            invariant
                0 <= i <= self.detached@.len(),
                forall|j: int| 0 <= j < i ==> detached_ids(self.detached@)[j] != id@,
            decreases self.detached@.len() - i,
        {
            if self.detached[i].context_id == *id {
                proof {
                    lemma_first_pos_at(detached_ids(self.detached@), id@, i as int);
                }
                return Some(i);
            }
            i = i + 1;
        }
        None
    }

    /// The audit trail kept under this context id, oldest entry first.
    pub fn trail_entries(&self, context_id: &String) -> (r: &[AuditEntry])
        requires
            self.wf(),
        ensures
            r@ == self.trail(context_id@),
    {
        match self.find_context(context_id) {
            Some(p) => self.audit[p].entries.as_slice(),
            None => match self.find_detached(context_id) {
                Some(d) => self.detached[d].trail.entries.as_slice(),
                None => &[],
            },
        }
    }

    /// Appends `entry` to the trail kept under this context id, beginning
    /// one where there is none.
    pub fn add_audit_entry(&mut self, context_id: &String, entry: AuditEntry)
        requires
            old(self).wf(),
        ensures
            final(self).wf(),
            final(self).contexts == old(self).contexts,
            final(self).documents == old(self).documents,
            final(self).audit@.len() == old(self).audit@.len(),
            final(self).trail(context_id@) == old(self).trail(context_id@).push(entry),
            forall|id: Seq<char>| id != context_id@ ==> #[trigger] final(self).trail(id) == old(self).trail(id),
            old(self).ctx_pos(context_id@) >= 0 ==> final(self).audit@
                == old(self).audit@.update(old(self).ctx_pos(context_id@), final(self).audit@[old(self).ctx_pos(context_id@)])
                && final(self).detached == old(self).detached,
            old(self).ctx_pos(context_id@) < 0 ==> final(self).audit@ == old(self).audit@,
    {
        proof {
            lemma_first_pos(context_ids(self.contexts@), context_id@);
            lemma_first_pos(detached_ids(self.detached@), context_id@);
        }
        let ghost before = *self;
        match self.find_context(context_id) {
            Some(p) => {
                self.audit[p].add_entry(entry);
                proof {
                    assert forall|id: Seq<char>| id != context_id@ implies #[trigger] self.trail(id) == before.trail(id) by {
                        lemma_first_pos(context_ids(self.contexts@), id);
                        if self.ctx_pos(id) >= 0 {
                            assert(context_ids(self.contexts@)[self.ctx_pos(id)] == id);
                            assert(self.ctx_pos(id) != p);
                        }
                    }
                }
            },
            None => match self.find_detached(context_id) {
                Some(d) => {
                    self.detached[d].trail.add_entry(entry);
                    proof {
                        assert(detached_ids(self.detached@) =~= detached_ids(before.detached@));
                        assert forall|id: Seq<char>| id != context_id@ implies #[trigger] self.trail(id) == before.trail(id) by {
                            lemma_first_pos(detached_ids(self.detached@), id);
                            if self.detached_pos(id) >= 0 {
                                assert(detached_ids(self.detached@)[self.detached_pos(id)] == id);
                                assert(self.detached_pos(id) != d);
                            }
                        }
                    }
                },
                None => {
                    let mut trail = AuditTrail::new();
                    trail.add_entry(entry);
                    self.detached.push(DetachedTrail { context_id: context_id.clone(), trail });
                    proof {
                        assert(detached_ids(self.detached@) =~= detached_ids(before.detached@).push(context_id@));
                        assert(detached_ids(self.detached@).drop_last() =~= detached_ids(before.detached@));
                        assert(self.trail(context_id@) =~= before.trail(context_id@).push(entry));
                        assert forall|id: Seq<char>| id != context_id@ implies #[trigger] self.trail(id) == before.trail(id) by {
                            lemma_first_pos(detached_ids(before.detached@), id);
                            if before.detached_pos(id) >= 0 {
                                assert(detached_ids(self.detached@)[before.detached_pos(id)] == id);
                            }
                        }
                    }
                },
            },
        }
    }

    /// Whether `user_id` is the administrator or a participant of the context.
    pub fn is_context_participant(&self, context_id: &String, user_id: &String) -> (r: bool)
        ensures
            r == self.participant(context_id@, user_id@),
    {
        match self.find_context(context_id) {
            Some(p) => {
                let c = &self.contexts[p];
                c.admin_id == *user_id || contains_str(&c.participants, user_id)
            },
            None => false,
        }
    }

    /// Whether the context's trail holds `user_id`'s consent to `document_id`.
    pub fn has_user_given_consent(&self, context_id: &String, user_id: &String, document_id: &String) -> (r: bool)
        requires
            self.wf(),
        ensures
            r == self.consented(context_id@, user_id@, document_id@),
    {
        let entries = self.trail_entries(context_id);
        let mut i: usize = 0;
        while i < entries.len()
            invariant
                0 <= i <= entries@.len(),
                entries@ == self.trail(context_id@),
                forall|k: int| 0 <= k < i ==> !consent_entry(#[trigger] entries@[k], user_id@, document_id@),
            decreases entries@.len() - i,
        {
            let e = &entries[i];
            let doc_matches = match &e.document_id {
                Some(d) => *d == *document_id,
                None => false,
            };
            if e.user_id == *user_id && e.action == AuditAction::ConsentGiven && e.consent_given == Some(true) && doc_matches {
                assert(consent_entry(entries@[i as int], user_id@, document_id@));
                assert(consent_entry(self.trail(context_id@)[i as int], user_id@, document_id@));
                return true;
            }
            i = i + 1;
        }
        false
    }
}

/// The entry was made by `user` for `action` at `now`, about document `doc` if any.
pub open spec fn entry_is(e: AuditEntry, action: AuditAction, user: Seq<char>, ctx: Seq<char>, doc: Option<Seq<char>>, now: u64) -> bool {
    &&& e.action == action
    &&& e.user_id@ == user
    &&& e.context_id@ == ctx
    &&& e.timestamp == now
    &&& match doc {
        Some(d) => e.document_id matches Some(x) && x@ == d,
        None => e.document_id is None,
    }
}

/// The user id under which completions are recorded.
pub open spec fn system_user() -> Seq<char> {
    seq!['s', 'y', 's', 't', 'e', 'm']
}

fn make_entry(
    user: &String,
    action: AuditAction,
    now: u64,
    ctx: &String,
    doc: Option<&String>,
    consent: Option<bool>,
    hash: Option<String>,
) -> (r: AuditEntry)
    ensures
        entry_is(r, action, user@, ctx@, match doc { Some(d) => Some(d@), None => None }, now),
        r.consent_given == consent,
        r.document_hash_after_action == hash,
{
    AuditEntry {
        entry_id: now,
        user_id: user.clone(),
        action,
        timestamp: now,
        context_id: ctx.clone(),
        document_id: match doc {
            Some(d) => Some(d.clone()),
            None => None,
        },
        consent_given: consent,
        document_hash_after_action: hash,
    }
}

impl Registry {
    /// The other contexts, their trails and the documents are as they were,
    /// but for the context at `p`.
    pub open spec fn only_context(self, old: Registry, p: int) -> bool {
        &&& self.contexts@.len() == old.contexts@.len()
        &&& self.audit@.len() == old.audit@.len()
        &&& forall|j: int| 0 <= j < old.contexts@.len() && j != p ==> self.contexts@[j] == old.contexts@[j] && self.audit@[j] == old.audit@[j]
        &&& self.contexts@[p].context_id == old.contexts@[p].context_id
        &&& self.contexts@[p].admin_id == old.contexts@[p].admin_id
    }

    /// Opens a context administered by `caller`, with its first trail entry.
    pub fn create_context(&mut self, caller: &String, now: u64, request: CreateContextRequest) -> (r: Result<(), Error>)
        requires
            old(self).wf(),
        ensures
            final(self).wf(),
            !valid_id(request.context_id@) ==> r == Err::<(), Error>(Error::InvalidInput),
            valid_id(request.context_id@) && old(self).ctx_pos(request.context_id@) >= 0 ==> r == Err::<(), Error>(Error::AlreadyExists),
            r is Ok <==> valid_id(request.context_id@) && old(self).ctx_pos(request.context_id@) < 0,
            r is Err ==> *final(self) == *old(self),
            r is Ok ==> {
                let c = final(self).contexts@.last();
                &&& final(self).contexts@ == old(self).contexts@.push(c)
                &&& final(self).documents == old(self).documents
                &&& c.context_id == request.context_id
                &&& c.admin_id@ == caller@
                &&& c.participants == request.participants
                &&& c.document_ids@.len() == 0
                &&& c.context_status == ContextStatus::Active
                &&& c.created_at == now
                &&& final(self).audit@.len() == old(self).audit@.len() + 1
                &&& final(self).trail(request.context_id@) == old(self).trail(request.context_id@).push(final(self).trail(request.context_id@).last())
                &&& entry_is(final(self).trail(request.context_id@).last(), AuditAction::ContextCreated, caller@, request.context_id@, None, now)
                &&& forall|j: int| 0 <= j < old(self).audit@.len() ==> final(self).audit@[j] == old(self).audit@[j]
            },
    {
        validate_id(request.context_id.as_str())?;
        if self.find_context(&request.context_id).is_some() {
            return Err(Error::AlreadyExists);
        }
        let entry = make_entry(caller, AuditAction::ContextCreated, now, &request.context_id, None, None, None);
        let ghost earlier = self.trail(request.context_id@);
        proof {
            lemma_first_pos(detached_ids(self.detached@), request.context_id@);
        }
        let mut trail = match self.find_detached(&request.context_id) {
            Some(d) => self.detached.remove(d).trail,
            None => AuditTrail::new(),
        };
        proof {
            assert(trail.entries@ == earlier);
        }
        trail.add_entry(entry);
        let record = ContextRecord {
            context_id: request.context_id,
            admin_id: caller.clone(),
            participants: request.participants,
            document_ids: Vec::new(),
            context_status: ContextStatus::Active,
            metadata: ContextMetadata {
                title: request.title,
                description: request.description,
                agreement_type: request.agreement_type,
                expires_at: request.expires_at,
            },
            created_at: now,
        };
        let ghost old_contexts = self.contexts@;
        self.contexts.push(record);
        self.audit.push(trail);
        proof {
            lemma_first_pos(context_ids(old_contexts), request.context_id@);
            assert(context_ids(self.contexts@) =~= context_ids(old_contexts).push(request.context_id@));
            assert(context_ids(self.contexts@).drop_last() =~= context_ids(old_contexts));
            lemma_first_pos_at(context_ids(self.contexts@), request.context_id@, old_contexts.len() as int);
        }
        Ok(())
    }

    /// Admits `participant_id` to a context; only its administrator may.
    pub fn add_participant_to_context(&mut self, caller: &String, now: u64, context_id: &String, participant_id: &String) -> (r: Result<(), Error>)
        requires
            old(self).wf(),
        ensures
            final(self).wf(),
            !valid_id(context_id@) || !valid_id(participant_id@) ==> r == Err::<(), Error>(Error::InvalidInput),
            valid_id(context_id@) && valid_id(participant_id@) ==> {
                let p = old(self).ctx_pos(context_id@);
                let c = old(self).context(context_id@);
                &&& (p < 0 ==> r == Err::<(), Error>(Error::NotFound))
                &&& (p >= 0 && c.admin_id@ != caller@ ==> r == Err::<(), Error>(Error::Unauthorized))
                &&& (p >= 0 && c.admin_id@ == caller@ && required_signer(c, participant_id@) ==> r == Err::<(), Error>(Error::AlreadyExists))
                &&& (r is Ok <==> p >= 0 && c.admin_id@ == caller@ && !required_signer(c, participant_id@))
                &&& (r is Ok ==> {
                    let d = final(self).context(context_id@);
                    &&& final(self).only_context(*old(self), p)
                    &&& final(self).ctx_pos(context_id@) == p
                    &&& views(d.participants@) == views(c.participants@).push(participant_id@)
                    &&& d.document_ids == c.document_ids
                    &&& reopened(old(self).documents@, final(self).documents@, d)
                    &&& final(self).trail(context_id@).len() == old(self).trail(context_id@).len() + 1
                    &&& entry_is(final(self).trail(context_id@).last(), AuditAction::ParticipantAdded, caller@, context_id@, None, now)
                })
            },
            r is Err ==> *final(self) == *old(self),
    {
        validate_id(context_id.as_str())?;
        validate_id(participant_id.as_str())?;
        let p = match self.find_context(context_id) {
            Some(p) => p,
            None => {
                return Err(Error::NotFound);
            },
        };
        if self.contexts[p].admin_id != *caller {
            return Err(Error::Unauthorized);
        }
        if contains_str(&self.contexts[p].participants, participant_id) || self.contexts[p].admin_id == *participant_id {
            return Err(Error::AlreadyExists);
        }
        let ghost old_contexts = self.contexts@;
        self.contexts[p].participants.push(participant_id.clone());
        proof {
            assert(context_ids(self.contexts@) =~= context_ids(old_contexts));
            assert(views(self.contexts@[p as int].participants@) =~= views(old_contexts[p as int].participants@).push(participant_id@));
        }
        self.reopen_documents(p);
        let entry = make_entry(caller, AuditAction::ParticipantAdded, now, context_id, None, None, None);
        self.audit[p].add_entry(entry);
        Ok(())
    }

    /// After the required signers of the context at `p` grew: every fully
    /// signed document of that context that its signers no longer complete
    /// is partially signed again.
    fn reopen_documents(&mut self, p: usize)
        requires
            p < old(self).contexts@.len(),
        ensures
            final(self).contexts == old(self).contexts,
            final(self).audit == old(self).audit,
            reopened(old(self).documents@, final(self).documents@, old(self).contexts@[p as int]),
    {
        let ghost before = self.documents@;
        let mut q: usize = 0;
        while q < self.documents.len()
            invariant
                0 <= q <= self.documents@.len(),
                p < self.contexts@.len(),
                self.documents@.len() == before.len(),
                self.contexts == old(self).contexts,
                self.audit == old(self).audit,
                before == old(self).documents@,
                forall|k: int| 0 <= k < before.len() ==> {
                    let d = before[k];
                    let nd = #[trigger] self.documents@[k];
                    &&& same_record(d, nd)
                    &&& nd.document_status == (if k < q { reopened_status(d, old(self).contexts@[p as int]) } else { d.document_status })
                },
            decreases before.len() - q,
        {
            if self.documents[q].document_status == DocumentStatus::FullySigned
                && self.documents[q].context_id == self.contexts[p].context_id {
                let complete = all_required_signed(&self.contexts[p], &self.documents[q].current_signers);
                if !complete {
                    self.documents[q].document_status = DocumentStatus::PartiallySigned;
                }
            }
            q = q + 1;
        }
    }

    /// Registers a document in a context; only the context's administrator may.
    pub fn upload_document_to_context(&mut self, caller: &String, now: u64, request: DocumentUploadRequest) -> (r: Result<(), Error>)
        requires
            old(self).wf(),
        ensures
            final(self).wf(),
            !valid_id(request.context_id@) || !valid_id(request.document_id@) || !valid_hash(request.document_hash@)
                ==> r == Err::<(), Error>(Error::InvalidInput),
            valid_id(request.context_id@) && valid_id(request.document_id@) && valid_hash(request.document_hash@) ==> {
                let p = old(self).ctx_pos(request.context_id@);
                let admin = p >= 0 && old(self).context(request.context_id@).admin_id@ == caller@;
                &&& (!admin ==> r == Err::<(), Error>(Error::Unauthorized))
                &&& (admin && old(self).doc_pos(request.document_id@) >= 0 ==> r == Err::<(), Error>(Error::AlreadyExists))
                &&& (r is Ok <==> admin && old(self).doc_pos(request.document_id@) < 0)
                &&& (r is Ok ==> {
                    let d = final(self).documents@.last();
                    &&& final(self).documents@ == old(self).documents@.push(d)
                    &&& d.document_id == request.document_id
                    &&& d.context_id@ == request.context_id@
                    &&& d.original_hash@ == request.document_hash@
                    &&& d.final_hash is None
                    &&& d.current_signers@.len() == 0
                    &&& d.document_status == DocumentStatus::Pending
                    &&& final(self).only_context(*old(self), p)
                    &&& views(final(self).contexts@[p].document_ids@) == views(old(self).contexts@[p].document_ids@).push(request.document_id@)
                    &&& final(self).contexts@[p].participants == old(self).contexts@[p].participants
                    &&& final(self).audit@[p].entries@.len() == old(self).audit@[p].entries@.len() + 1
                    &&& entry_is(final(self).audit@[p].entries@.last(), AuditAction::DocumentUploaded, caller@, request.context_id@, Some(request.document_id@), now)
                })
            },
            r is Err ==> *final(self) == *old(self),
    {
        validate_id(request.context_id.as_str())?;
        validate_id(request.document_id.as_str())?;
        validate_hash(request.document_hash.as_str())?;
        let p = match self.find_context(&request.context_id) {
            Some(p) => p,
            None => {
                return Err(Error::Unauthorized);
            },
        };
        if self.contexts[p].admin_id != *caller {
            return Err(Error::Unauthorized);
        }
        if self.find_document(&request.document_id).is_some() {
            return Err(Error::AlreadyExists);
        }
        let entry = make_entry(
            caller,
            AuditAction::DocumentUploaded,
            now,
            &request.context_id,
            Some(&request.document_id),
            None,
            Some(request.document_hash.clone()),
        );
        let ghost old_contexts = self.contexts@;
        self.contexts[p].document_ids.push(request.document_id.clone());
        proof {
            assert(views(self.contexts@[p as int].document_ids@) =~= views(old_contexts[p as int].document_ids@).push(request.document_id@));
        }
        self.audit[p].add_entry(entry);
        let record = DocumentRecord {
            document_id: request.document_id,
            context_id: request.context_id,
            original_hash: request.document_hash,
            timestamp_original: now,
            final_hash: None,
            timestamp_final: None,
            current_signers: Vec::new(),
            document_status: DocumentStatus::Pending,
            created_at: now,
        };
        self.documents.push(record);
        Ok(())
    }

    /// Records `caller`'s consent to sign a document of a context. Recording
    /// it again changes nothing that any decision reads.
    pub fn record_consent_for_context(&mut self, caller: &String, now: u64, context_id: &String, document_id: &String) -> (r: Result<(), Error>)
        requires
            old(self).wf(),
        ensures
            final(self).wf(),
            !valid_id(context_id@) || !valid_id(document_id@) ==> r == Err::<(), Error>(Error::InvalidInput),
            valid_id(context_id@) && valid_id(document_id@) ==> {
                let known = old(self).doc_pos(document_id@) >= 0 && old(self).document(document_id@).context_id@ == context_id@;
                &&& (!old(self).participant(context_id@, caller@) ==> r == Err::<(), Error>(Error::Unauthorized))
                &&& (old(self).participant(context_id@, caller@) && !known ==> r == Err::<(), Error>(Error::NotFound))
                &&& (r is Ok <==> old(self).participant(context_id@, caller@) && known)
                &&& (r is Ok ==> {
                    &&& final(self).contexts == old(self).contexts
                    &&& final(self).documents == old(self).documents
                    &&& final(self).trail(context_id@).len() == old(self).trail(context_id@).len() + 1
                    &&& entry_is(final(self).trail(context_id@).last(), AuditAction::ConsentGiven, caller@, context_id@, Some(document_id@), now)
                    &&& final(self).consented(context_id@, caller@, document_id@)
                    &&& final(self).audit@.len() == old(self).audit@.len()
                    &&& final(self).ctx_pos(context_id@) == old(self).ctx_pos(context_id@)
                    &&& final(self).trail(context_id@) == old(self).trail(context_id@).push(final(self).trail(context_id@).last())
                    &&& (forall|j: int| 0 <= j < old(self).audit@.len() && j != old(self).ctx_pos(context_id@)
                        ==> final(self).audit@[j] == old(self).audit@[j])
                    &&& forall|u: Seq<char>, d: Seq<char>| #[trigger] final(self).consented(context_id@, u, d)
                        <==> old(self).consented(context_id@, u, d) || (u == caller@ && d == document_id@)
                })
            },
            r is Err ==> *final(self) == *old(self),
    {
        validate_id(context_id.as_str())?;
        validate_id(document_id.as_str())?;
        if !self.is_context_participant(context_id, caller) {
            return Err(Error::Unauthorized);
        }
        let known = match self.find_document(document_id) {
            Some(q) => self.documents[q].context_id == *context_id,
            None => false,
        };
        if !known {
            return Err(Error::NotFound);
        }
        let entry = make_entry(caller, AuditAction::ConsentGiven, now, context_id, Some(document_id), Some(true), None);
        let ghost before = *self;
        self.add_audit_entry(context_id, entry);
        proof {
            let t = self.trail(context_id@);
            let last = t[t.len() - 1];
            assert(consent_entry(last, caller@, document_id@));
            assert(self.ctx_pos(context_id@) == before.ctx_pos(context_id@));
            assert(t == before.trail(context_id@).push(t.last()));
            let p = before.ctx_pos(context_id@);
            lemma_first_pos(context_ids(before.contexts@), context_id@);
            assert(0 <= p < before.audit@.len());
            assert forall|j: int| 0 <= j < before.audit@.len() && j != p implies self.audit@[j] == before.audit@[j] by {
                assert(self.audit@ == before.audit@.update(p, self.audit@[p]));
                assert(before.audit@.update(p, self.audit@[p])[j] == before.audit@[j]);
            }
            assert forall|u: Seq<char>, d: Seq<char>| #[trigger] self.consented(context_id@, u, d)
                <==> before.consented(context_id@, u, d) || (u == caller@ && d == document_id@) by {
                if before.consented(context_id@, u, d) {
                    let k = choose|k: int| 0 <= k < before.trail(context_id@).len() && consent_entry(#[trigger] before.trail(context_id@)[k], u, d);
                    assert(t[k] == before.trail(context_id@)[k]);
                }
                if u == caller@ && d == document_id@ {
                    assert(consent_entry(t[t.len() - 1], u, d));
                }
                if self.consented(context_id@, u, d) {
                    let k = choose|k: int| 0 <= k < t.len() && consent_entry(#[trigger] t[k], u, d);
                    if k < t.len() - 1 {
                        assert(before.trail(context_id@)[k] == t[k]);
                    } else {
                        assert(t[k] == last);
                    }
                }
            }
        }
        Ok(())
    }
}

/// The signing status that a document's signers give it in its context:
/// fully signed once every required signer has signed, partially otherwise.
pub open spec fn status_after_signing(c: ContextRecord, signers: Seq<String>) -> DocumentStatus {
    if signed_by_required(c, signers) {
        DocumentStatus::FullySigned
    } else {
        DocumentStatus::PartiallySigned
    }
}

/// Whether every required signer of `c` is among `signers`.
pub fn all_required_signed(c: &ContextRecord, signers: &Vec<String>) -> (r: bool)
    ensures
        r == signed_by_required(*c, signers@),
{
    if !contains_str(signers, &c.admin_id) {
        assert(required_signer(*c, c.admin_id@));
        return false;
    }
    let mut i: usize = 0;
    while i < c.participants.len()
        invariant
            0 <= i <= c.participants@.len(),
            views(signers@).contains(c.admin_id@),
            forall|j: int| 0 <= j < i ==> views(signers@).contains(#[trigger] views(c.participants@)[j]),
        decreases c.participants@.len() - i,
    {
        if !contains_str(signers, &c.participants[i]) {
            assert(required_signer(*c, views(c.participants@)[i as int]));
            return false;
        }
        i = i + 1;
    }
    assert forall|u: Seq<char>| required_signer(*c, u) implies views(signers@).contains(u) by {
        if views(c.participants@).contains(u) {
            let j = choose|j: int| 0 <= j < views(c.participants@).len() && views(c.participants@)[j] == u;
        }
    }
    true
}

impl Registry {
    /// What a signature by `user` on the document comes to, once the request is well formed.
    pub open spec fn sign_outcome(self, user: Seq<char>, doc: Seq<char>) -> Result<(), Error> {
        if self.doc_pos(doc) < 0 {
            Err(Error::NotFound)
        } else if !self.participant(self.document(doc).context_id@, user) {
            Err(Error::Unauthorized)
        } else if views(self.document(doc).current_signers@).contains(user) {
            Err(Error::AlreadySigned)
        } else if !self.consented(self.document(doc).context_id@, user, doc) {
            Err(Error::ConsentRequired)
        } else {
            Ok(())
        }
    }

    /// Signs a document on behalf of `caller`, who must take part in its
    /// context, must not have signed it, and must have consented to it.
    /// The document becomes fully signed once every participant and the
    /// administrator have signed, partially signed otherwise; the trail
    /// records the signature, and the completion where there is one.
    pub fn sign_document(&mut self, caller: &String, now: u64, request: SigningRequest) -> (r: Result<(), Error>)
        requires
            old(self).wf(),
        ensures
            final(self).wf(),
            !valid_id(request.document_id@) ==> r == Err::<(), Error>(Error::InvalidInput),
            valid_id(request.document_id@) && !request.consent_acknowledged ==> r == Err::<(), Error>(Error::ConsentRequired),
            valid_id(request.document_id@) && request.consent_acknowledged ==> {
                let doc = request.document_id@;
                &&& (old(self).sign_outcome(caller@, doc) matches Err(e) ==> r == Err::<(), Error>(e))
                &&& (r is Ok <==> old(self).sign_outcome(caller@, doc) is Ok)
                &&& (r is Ok ==> {
                    let q = old(self).doc_pos(doc);
                    let d = old(self).documents@[q];
                    let nd = final(self).documents@[q];
                    let c = old(self).context(d.context_id@);
                    let p = old(self).ctx_pos(d.context_id@);
                    let complete = signed_by_required(c, nd.current_signers@);
                    &&& final(self).documents@ == old(self).documents@.update(q, nd)
                    &&& views(nd.current_signers@) == views(d.current_signers@).push(caller@)
                    &&& nd.document_status == status_after_signing(c, nd.current_signers@)
                    &&& nd.timestamp_final == (if complete { Some(now) } else { d.timestamp_final })
                    &&& nd.document_id == d.document_id
                    &&& nd.context_id == d.context_id
                    &&& nd.original_hash == d.original_hash
                    &&& nd.final_hash == d.final_hash
                    &&& final(self).contexts == old(self).contexts
                    &&& final(self).audit@.len() == old(self).audit@.len()
                    &&& forall|j: int| 0 <= j < old(self).audit@.len() && j != p ==> final(self).audit@[j] == old(self).audit@[j]
                    &&& final(self).audit@[p].entries@.len() == old(self).audit@[p].entries@.len() + (if complete { 2int } else { 1int })
                    &&& entry_is(final(self).audit@[p].entries@[old(self).audit@[p].entries@.len() as int], AuditAction::SignatureApplied, caller@, d.context_id@, Some(doc), now)
                    &&& complete ==> entry_is(final(self).audit@[p].entries@.last(), AuditAction::DocumentCompleted, system_user(), d.context_id@, Some(doc), now)
                })
            },
            r is Err ==> *final(self) == *old(self),
    {
        validate_id(request.document_id.as_str())?;
        if !request.consent_acknowledged {
            return Err(Error::ConsentRequired);
        }
        let q = match self.find_document(&request.document_id) {
            Some(q) => q,
            None => {
                return Err(Error::NotFound);
            },
        };
        let context_id = self.documents[q].context_id.clone();
        if !self.is_context_participant(&context_id, caller) {
            return Err(Error::Unauthorized);
        }
        if contains_str(&self.documents[q].current_signers, caller) {
            return Err(Error::AlreadySigned);
        }
        if !self.has_user_given_consent(&context_id, caller, &request.document_id) {
            return Err(Error::ConsentRequired);
        }
        let p = match self.find_context(&context_id) {
            Some(p) => p,
            None => {
                return Err(Error::NotFound);
            },
        };
        let ghost old_docs = self.documents@;
        self.documents[q].current_signers.push(caller.clone());
        proof {
            assert(views(self.documents@[q as int].current_signers@) =~= views(old_docs[q as int].current_signers@).push(caller@));
        }
        let complete = all_required_signed(&self.contexts[p], &self.documents[q].current_signers);
        if complete {
            self.documents[q].document_status = DocumentStatus::FullySigned;
            self.documents[q].timestamp_final = Some(now);
        } else {
            self.documents[q].document_status = DocumentStatus::PartiallySigned;
        }
        let signed = make_entry(caller, AuditAction::SignatureApplied, now, &context_id, Some(&request.document_id), Some(true), None);
        self.audit[p].add_entry(signed);
        if complete {
            let system = String::from_str("system");
            proof {
                reveal_strlit("system");
                assert(system@ =~= system_user());
            }
            let done = make_entry(&system, AuditAction::DocumentCompleted, now, &context_id, Some(&request.document_id), None, None);
            self.audit[p].add_entry(done);
        }
        Ok(())
    }

    /// Records the final hash of a document; only the administrator of its
    /// context may, and only once.
    pub fn record_final_hash(&mut self, caller: &String, now: u64, document_id: &String, hash: &String) -> (r: Result<(), Error>)
        requires
            old(self).wf(),
        ensures
            final(self).wf(),
            !valid_id(document_id@) || !valid_hash(hash@) ==> r == Err::<(), Error>(Error::InvalidInput),
            valid_id(document_id@) && valid_hash(hash@) ==> {
                let q = old(self).doc_pos(document_id@);
                let d = old(self).documents@[q];
                let admin = old(self).ctx_pos(d.context_id@) >= 0 && old(self).context(d.context_id@).admin_id@ == caller@;
                &&& (q < 0 ==> r == Err::<(), Error>(Error::NotFound))
                &&& (q >= 0 && !admin ==> r == Err::<(), Error>(Error::Unauthorized))
                &&& (q >= 0 && admin && d.final_hash is Some ==> r == Err::<(), Error>(Error::AlreadyExists))
                &&& (r is Ok <==> q >= 0 && admin && d.final_hash is None)
                &&& (r is Ok ==> {
                    let nd = final(self).documents@[q];
                    let p = old(self).ctx_pos(d.context_id@);
                    &&& final(self).documents@ == old(self).documents@.update(q, nd)
                    &&& (nd.final_hash matches Some(h) && h@ == hash@)
                    &&& nd.timestamp_final == Some(now)
                    &&& nd.current_signers == d.current_signers
                    &&& nd.document_status == d.document_status
                    &&& nd.original_hash == d.original_hash
                    &&& nd.document_id == d.document_id
                    &&& final(self).contexts == old(self).contexts
                    &&& final(self).audit@.len() == old(self).audit@.len()
                    &&& final(self).audit@[p].entries@.len() == old(self).audit@[p].entries@.len() + 1
                    &&& entry_is(final(self).audit@[p].entries@.last(), AuditAction::DocumentCompleted, caller@, d.context_id@, Some(document_id@), now)
                })
            },
            r is Err ==> *final(self) == *old(self),
    {
        validate_id(document_id.as_str())?;
        validate_hash(hash.as_str())?;
        let q = match self.find_document(document_id) {
            Some(q) => q,
            None => {
                return Err(Error::NotFound);
            },
        };
        let context_id = self.documents[q].context_id.clone();
        let p = match self.find_context(&context_id) {
            Some(p) => p,
            None => {
                return Err(Error::Unauthorized);
            },
        };
        if self.contexts[p].admin_id != *caller {
            return Err(Error::Unauthorized);
        }
        if self.documents[q].final_hash.is_some() {
            return Err(Error::AlreadyExists);
        }
        self.documents[q].final_hash = Some(hash.clone());
        self.documents[q].timestamp_final = Some(now);
        let entry = make_entry(caller, AuditAction::DocumentCompleted, now, &context_id, Some(document_id), None, Some(hash.clone()));
        self.audit[p].add_entry(entry);
        Ok(())
    }

    /// How `hash_to_check` compares with the hashes recorded for a document.
    pub fn verify_document_hash(&self, document_id: &String, hash_to_check: &String) -> (r: VerificationStatus)
        ensures
            !valid_id(document_id@) || !valid_hash(hash_to_check@) || self.doc_pos(document_id@) < 0
                ==> r == VerificationStatus::Unrecorded,
            valid_id(document_id@) && valid_hash(hash_to_check@) && self.doc_pos(document_id@) >= 0 ==> {
                let d = self.document(document_id@);
                r == if d.original_hash@ == hash_to_check@ {
                    VerificationStatus::OriginalMatch
                } else if d.final_hash matches Some(h) && h@ == hash_to_check@ {
                    VerificationStatus::FinalMatch
                } else {
                    VerificationStatus::NoMatch
                }
            },
    {
        if validate_id(document_id.as_str()).is_err() || validate_hash(hash_to_check.as_str()).is_err() {
            return VerificationStatus::Unrecorded;
        }
        let q = match self.find_document(document_id) {
            Some(q) => q,
            None => {
                return VerificationStatus::Unrecorded;
            },
        };
        let d = &self.documents[q];
        if d.original_hash == *hash_to_check {
            VerificationStatus::OriginalMatch
        } else {
            match &d.final_hash {
                Some(h) => if *h == *hash_to_check {
                    VerificationStatus::FinalMatch
                } else {
                    VerificationStatus::NoMatch
                },
                None => VerificationStatus::NoMatch,
            }
        }
    }

    /// The context with this id.
    pub fn get_context(&self, context_id: &String) -> (r: Result<&ContextRecord, Error>)
        ensures
            !valid_id(context_id@) ==> r is Err && r == Err::<&ContextRecord, Error>(Error::InvalidInput),
            valid_id(context_id@) && self.ctx_pos(context_id@) < 0 ==> r is Err && r == Err::<&ContextRecord, Error>(Error::NotFound),
            valid_id(context_id@) && self.ctx_pos(context_id@) >= 0 ==> (r matches Ok(c) && *c == self.context(context_id@)),
    {
        validate_id(context_id.as_str())?;
        match self.find_context(context_id) {
            Some(p) => Ok(&self.contexts[p]),
            None => Err(Error::NotFound),
        }
    }

    /// The document with this id.
    pub fn get_document(&self, document_id: &String) -> (r: Result<&DocumentRecord, Error>)
        ensures
            !valid_id(document_id@) ==> r is Err && r == Err::<&DocumentRecord, Error>(Error::InvalidInput),
            valid_id(document_id@) && self.doc_pos(document_id@) < 0 ==> r is Err && r == Err::<&DocumentRecord, Error>(Error::NotFound),
            valid_id(document_id@) && self.doc_pos(document_id@) >= 0 ==> (r matches Ok(d) && *d == self.document(document_id@)),
    {
        validate_id(document_id.as_str())?;
        match self.find_document(document_id) {
            Some(q) => Ok(&self.documents[q]),
            None => Err(Error::NotFound),
        }
    }

    /// The audit trail kept under a context id, oldest entry first.
    pub fn get_audit_trail(&self, context_id: &String) -> (r: Result<&[AuditEntry], Error>)
        requires
            self.wf(),
        ensures
            !valid_id(context_id@) ==> r is Err && r == Err::<&[AuditEntry], Error>(Error::InvalidInput),
            valid_id(context_id@) ==> (r matches Ok(t) && t@ == self.trail(context_id@)),
    {
        validate_id(context_id.as_str())?;
        Ok(self.trail_entries(context_id))
    }

    /// Whether `user_id` is the administrator or a participant of the context.
    pub fn is_user_context_participant(&self, context_id: &String, user_id: &String) -> (r: bool)
        ensures
            r == self.participant(context_id@, user_id@),
    {
        self.is_context_participant(context_id, user_id)
    }

    /// Whether the context's trail holds `user_id`'s consent to `document_id`.
    pub fn has_user_consented(&self, context_id: &String, user_id: &String, document_id: &String) -> (r: bool)
        requires
            self.wf(),
        ensures
            r == self.consented(context_id@, user_id@, document_id@),
    {
        self.has_user_given_consent(context_id, user_id, document_id)
    }
}

/// The texts of `v`, each once, in order of first appearance.
pub fn distinct_texts(v: &Vec<String>) -> (r: Vec<String>)
    ensures
        forall|t: Seq<char>| views(r@).contains(t) <==> views(v@).contains(t),
        views(r@).no_duplicates(),
{
    let mut r: Vec<String> = Vec::new();
    let mut i: usize = 0;
    while i < v.len()
        invariant
            0 <= i <= v@.len(),
            forall|t: Seq<char>| views(r@).contains(t) <==> views(v@.take(i as int)).contains(t),
            views(r@).no_duplicates(),
        decreases v@.len() - i,
    {
        let x = &v[i];
        let ghost before = r@;
        let ghost prev = views(v@.take(i as int));
        let ghost next = views(v@.take(i as int + 1));
        proof {
            assert(next =~= prev.push(x@));
        }
        if !contains_str(&r, x) {
            r.push(x.clone());
            proof {
                assert(views(r@) =~= views(before).push(x@));
            }
        }
        proof {
            assert forall|t: Seq<char>| views(r@).contains(t) <==> next.contains(t) by {
                if next.contains(t) && t != x@ {
                    let q = choose|q: int| 0 <= q < next.len() && next[q] == t;
                    assert(prev[q] == t);
                    assert(prev.contains(t));
                    assert(views(before).contains(t));
                }
                if t == x@ && views(r@).len() > views(before).len() {
                    assert(views(r@)[views(r@).len() - 1] == t);
                }
                if prev.contains(t) {
                    let q = choose|q: int| 0 <= q < prev.len() && prev[q] == t;
                    assert(next[q] == t);
                }
                if t == x@ {
                    assert(next[i as int] == t);
                }
                if views(r@).contains(t) && t != x@ {
                    let q = choose|q: int| 0 <= q < views(r@).len() && views(r@)[q] == t;
                    assert(views(before)[q] == t);
                    assert(views(before).contains(t));
                    assert(prev.contains(t));
                }
                if views(before).contains(t) {
                    let q = choose|q: int| 0 <= q < views(before).len() && views(before)[q] == t;
                    assert(views(r@)[q] == t);
                }
            }
        }
        i = i + 1;
    }
    assert(v@.take(i as int) =~= v@);
    r
}

/// The registered documents with these ids, in the order of the ids; ids
/// without a document are skipped.
pub open spec fn docs_of(docs: Seq<DocumentRecord>, ids: Seq<Seq<char>>) -> Seq<DocumentRecord>
    decreases ids.len(),
{
    if ids.len() == 0 {
        Seq::empty()
    } else {
        let rest = docs_of(docs, ids.drop_last());
        let p = first_pos(document_ids(docs), ids.last());
        if p >= 0 {
            rest.push(docs[p])
        } else {
            rest
        }
    }
}

/// The entries about document `doc`, in order.
pub open spec fn entries_about(es: Seq<AuditEntry>, doc: Seq<char>) -> Seq<AuditEntry>
    decreases es.len(),
{
    if es.len() == 0 {
        Seq::empty()
    } else {
        let rest = entries_about(es.drop_last(), doc);
        if es.last().document_id matches Some(d) && d@ == doc {
            rest.push(es.last())
        } else {
            rest
        }
    }
}

/// The users with a recorded consent to some document.
pub open spec fn consenting_user(es: Seq<AuditEntry>, u: Seq<char>) -> bool {
    exists|k: int| 0 <= k < es.len() && (#[trigger] es[k]).user_id@ == u && es[k].action == AuditAction::ConsentGiven
        && es[k].consent_given == Some(true) && es[k].document_id is Some
}

impl Registry {
    /// The documents of a context, in order of upload.
    pub fn get_context_documents(&self, context_id: &String) -> (r: Result<Vec<&DocumentRecord>, Error>)
        ensures
            !valid_id(context_id@) ==> r is Err && r == Err::<Vec<&DocumentRecord>, Error>(Error::InvalidInput),
            valid_id(context_id@) && self.ctx_pos(context_id@) < 0 ==> r is Err && r == Err::<Vec<&DocumentRecord>, Error>(Error::NotFound),
            valid_id(context_id@) && self.ctx_pos(context_id@) >= 0 ==> (r matches Ok(v)
                && v@.map_values(|d: &DocumentRecord| *d) == docs_of(self.documents@, views(self.context(context_id@).document_ids@))),
    {
        validate_id(context_id.as_str())?;
        let p = match self.find_context(context_id) {
            Some(p) => p,
            None => {
                return Err(Error::NotFound);
            },
        };
        let ids = &self.contexts[p].document_ids;
        let mut out: Vec<&DocumentRecord> = Vec::new();
        let mut i: usize = 0;
        while i < ids.len()
            invariant
                0 <= i <= ids@.len(),
                out@.map_values(|d: &DocumentRecord| *d) == docs_of(self.documents@, views(ids@.take(i as int))),
            decreases ids@.len() - i,
        {
            proof {
                assert(views(ids@.take(i as int + 1)).drop_last() =~= views(ids@.take(i as int)));
                assert(views(ids@.take(i as int + 1)).last() == ids@[i as int]@);
            }
            match self.find_document(&ids[i]) {
                Some(q) => {
                    out.push(&self.documents[q]);
                    proof {
                        assert(out@.map_values(|d: &DocumentRecord| *d) =~= docs_of(self.documents@, views(ids@.take(i as int + 1))));
                    }
                },
                None => {},
            }
            i = i + 1;
        }
        assert(ids@.take(i as int) =~= ids@);
        Ok(out)
    }

    /// The entries of a context's trail about one document, oldest first.
    pub fn get_audit_trail_for_document(&self, context_id: &String, document_id: &String) -> (r: Result<Vec<&AuditEntry>, Error>)
        requires
            self.wf(),
        ensures
            !valid_id(context_id@) || !valid_id(document_id@) ==> r is Err && r == Err::<Vec<&AuditEntry>, Error>(Error::InvalidInput),
            valid_id(context_id@) && valid_id(document_id@) ==> (r matches Ok(v)
                && v@.map_values(|e: &AuditEntry| *e) == entries_about(self.trail(context_id@), document_id@)),
    {
        validate_id(context_id.as_str())?;
        validate_id(document_id.as_str())?;
        let mut out: Vec<&AuditEntry> = Vec::new();
        let es = self.trail_entries(context_id);
        let mut i: usize = 0;
        while i < es.len()
            invariant
                0 <= i <= es@.len(),
                out@.map_values(|e: &AuditEntry| *e) == entries_about(es@.take(i as int), document_id@),
            decreases es@.len() - i,
        {
            proof {
                assert(es@.take(i as int + 1).drop_last() =~= es@.take(i as int));
            }
            let about = match &es[i].document_id {
                Some(d) => *d == *document_id,
                None => false,
            };
            if about {
                out.push(&es[i]);
                proof {
                    assert(out@.map_values(|e: &AuditEntry| *e) =~= entries_about(es@.take(i as int + 1), document_id@));
                }
            }
            i = i + 1;
        }
        assert(es@.take(i as int) =~= es@);
        Ok(out)
    }

    /// Where the signing of a context stands: who has to sign (each once, in ascending order),
    /// who has recorded a consent (each once), and the status of each of
    /// its documents.
    pub fn get_context_signing_progress(&self, context_id: &String) -> (r: Result<(Vec<String>, Vec<String>, Vec<(String, DocumentStatus)>), Error>)
        requires
            self.wf(),
        ensures
            !valid_id(context_id@) ==> r is Err && r == Err::<(Vec<String>, Vec<String>, Vec<(String, DocumentStatus)>), Error>(Error::InvalidInput),
            valid_id(context_id@) && self.ctx_pos(context_id@) < 0
                ==> r is Err && r == Err::<(Vec<String>, Vec<String>, Vec<(String, DocumentStatus)>), Error>(Error::NotFound),
            valid_id(context_id@) && self.ctx_pos(context_id@) >= 0 ==> (r matches Ok((required, consented, statuses)) && {
                let c = self.context(context_id@);
                let ds = docs_of(self.documents@, views(c.document_ids@));
                &&& views(required@).no_duplicates()
                &&& (forall|u: Seq<char>| views(required@).contains(u) <==> required_signer(c, u))
                &&& (forall|j: int| 0 <= j < required@.len() - 1 ==> text_lt(#[trigger] required@[j]@, required@[j + 1]@))
                &&& views(consented@).no_duplicates()
                &&& (forall|u: Seq<char>| views(consented@).contains(u) <==> consenting_user(self.trail(context_id@), u))
                &&& statuses@.len() == ds.len()
                &&& (forall|k: int| 0 <= k < ds.len() ==> (#[trigger] statuses@[k]).0@ == ds[k].document_id@ && statuses@[k].1 == ds[k].document_status)
            }),
    {
        validate_id(context_id.as_str())?;
        let p = match self.find_context(context_id) {
            Some(p) => p,
            None => {
                return Err(Error::NotFound);
            },
        };
        let c = &self.contexts[p];
        let mut everyone: Vec<String> = Vec::new();
        let mut i: usize = 0;
        while i < c.participants.len()
            invariant
                0 <= i <= c.participants@.len(),
                views(everyone@) == views(c.participants@.take(i as int)),
            decreases c.participants@.len() - i,
        {
            let ghost before = everyone@;
            everyone.push(c.participants[i].clone());
            proof {
                assert(c.participants@.take(i as int + 1) =~= c.participants@.take(i as int).push(c.participants@[i as int]));
                assert(views(everyone@) =~= views(before).push(c.participants@[i as int]@));
                assert(views(everyone@) =~= views(c.participants@.take(i as int + 1)));
            }
            i = i + 1;
        }
        everyone.push(c.admin_id.clone());
        proof {
            assert(c.participants@.take(i as int) =~= c.participants@);
            assert(views(everyone@) =~= views(c.participants@).push(c.admin_id@));
            assert forall|u: Seq<char>| views(everyone@).contains(u) <==> required_signer(*c, u) by {
                if views(everyone@).contains(u) && u != c.admin_id@ {
                    let q = choose|q: int| 0 <= q < views(everyone@).len() && views(everyone@)[q] == u;
                    assert(views(c.participants@)[q] == u);
                }
                if views(c.participants@).contains(u) {
                    let q = choose|q: int| 0 <= q < views(c.participants@).len() && views(c.participants@)[q] == u;
                    assert(views(everyone@)[q] == u);
                }
                if u == c.admin_id@ {
                    assert(views(everyone@)[views(everyone@).len() - 1] == u);
                }
            }
        }
        let required = sorted_texts(&distinct_texts(&everyone));
        let es = &self.audit[p].entries;
        let mut users: Vec<String> = Vec::new();
        let mut k: usize = 0;
        while k < es.len()
            invariant
                0 <= k <= es@.len(),
                forall|u: Seq<char>| views(users@).contains(u) <==> consenting_user(es@.take(k as int), u),
            decreases es@.len() - k,
        {
            let e = &es[k];
            let ghost before = users@;
            let ghost prev = es@.take(k as int);
            let ghost next = es@.take(k as int + 1);
            let counts = e.action == AuditAction::ConsentGiven && e.consent_given == Some(true) && e.document_id.is_some();
            if counts {
                users.push(e.user_id.clone());
            }
            proof {
                assert forall|u: Seq<char>| views(users@).contains(u) <==> consenting_user(next, u) by {
                    if views(users@).contains(u) {
                        let q = choose|q: int| 0 <= q < views(users@).len() && views(users@)[q] == u;
                        if q < before.len() {
                            assert(views(before)[q] == u);
                            assert(views(before).contains(u));
                            let w = choose|w: int| 0 <= w < prev.len() && (#[trigger] prev[w]).user_id@ == u && prev[w].action == AuditAction::ConsentGiven
                                && prev[w].consent_given == Some(true) && prev[w].document_id is Some;
                            assert(next[w] == prev[w]);
                        } else {
                            assert(next[k as int] == es@[k as int]);
                        }
                    }
                    if consenting_user(next, u) {
                        let w = choose|w: int| 0 <= w < next.len() && (#[trigger] next[w]).user_id@ == u && next[w].action == AuditAction::ConsentGiven
                            && next[w].consent_given == Some(true) && next[w].document_id is Some;
                        if w < k {
                            assert(prev[w] == next[w]);
                            assert(consenting_user(prev, u));
                            assert(views(before).contains(u));
                            let q = choose|q: int| 0 <= q < views(before).len() && views(before)[q] == u;
                            assert(views(users@)[q] == u);
                        } else {
                            assert(views(users@)[views(users@).len() - 1] == u);
                        }
                    }
                }
            }
            k = k + 1;
        }
        proof {
            assert(es@.take(k as int) =~= es@);
        }
        let consented = distinct_texts(&users);
        let docs = match self.get_context_documents(context_id) {
            Ok(d) => d,
            Err(e) => {
                return Err(e);
            },
        };
        let mut statuses: Vec<(String, DocumentStatus)> = Vec::new();
        let mut j: usize = 0;
        while j < docs.len()
            invariant
                0 <= j <= docs@.len(),
                statuses@.len() == j,
                forall|q: int| 0 <= q < j ==> (#[trigger] statuses@[q]).0@ == docs@[q].document_id@ && statuses@[q].1 == docs@[q].document_status,
            decreases docs@.len() - j,
        {
            statuses.push((docs[j].document_id.clone(), docs[j].document_status));
            j = j + 1;
        }
        proof {
            let ds = docs_of(self.documents@, views(self.context(context_id@).document_ids@));
            assert(docs@.map_values(|d: &DocumentRecord| *d) == ds);
            assert forall|q: int| 0 <= q < ds.len() implies (#[trigger] statuses@[q]).0@ == ds[q].document_id@ && statuses@[q].1 == ds[q].document_status by {
                assert(docs@.map_values(|d: &DocumentRecord| *d)[q] == *docs@[q]);
            }
        }
        Ok((required, consented, statuses))
    }
}

/// The two records agree on everything but the signing status.
pub open spec fn same_record(d: DocumentRecord, nd: DocumentRecord) -> bool {
    &&& nd.document_id == d.document_id
    &&& nd.context_id == d.context_id
    &&& nd.original_hash == d.original_hash
    &&& nd.timestamp_original == d.timestamp_original
    &&& nd.final_hash == d.final_hash
    &&& nd.timestamp_final == d.timestamp_final
    &&& nd.current_signers == d.current_signers
    &&& nd.created_at == d.created_at
}

/// The status of `d` once the required signers of context `c` may have grown:
/// a fully signed document of `c` that its signers no longer complete is
/// partially signed again.
pub open spec fn reopened_status(d: DocumentRecord, c: ContextRecord) -> DocumentStatus {
    if d.document_status == DocumentStatus::FullySigned && d.context_id@ == c.context_id@
        && !signed_by_required(c, d.current_signers@) {
        DocumentStatus::PartiallySigned
    } else {
        d.document_status
    }
}

/// Every document is as before but for its status, which is `reopened_status`.
pub open spec fn reopened(old_docs: Seq<DocumentRecord>, docs: Seq<DocumentRecord>, c: ContextRecord) -> bool {
    &&& docs.len() == old_docs.len()
    &&& forall|k: int| 0 <= k < old_docs.len() ==> same_record(old_docs[k], #[trigger] docs[k])
        && docs[k].document_status == reopened_status(old_docs[k], c)
}

/// Where `x` goes among the ascending texts `r`: after every text that it does not come before.
fn text_insertion_point(r: &Vec<String>, x: &String) -> (k: usize)
    ensures
        k <= r@.len(),
        forall|j: int| 0 <= j < k ==> !text_lt(x@, #[trigger] r@[j]@),
        k < r@.len() ==> text_lt(x@, r@[k as int]@),
{
    let mut k: usize = 0;
    while k < r.len()
        invariant
            0 <= k <= r@.len(),
            forall|j: int| 0 <= j < k ==> !text_lt(x@, #[trigger] r@[j]@),
        decreases r@.len() - k,
    {
        if text_less(x.as_str(), r[k].as_str()) {
            return k;
        }
        k = k + 1;
    }
    k
}

/// The distinct texts `v` in ascending order.
pub fn sorted_texts(v: &Vec<String>) -> (r: Vec<String>)
    requires
        views(v@).no_duplicates(),
    ensures
        forall|t: Seq<char>| views(r@).contains(t) <==> views(v@).contains(t),
        views(r@).no_duplicates(),
        forall|j: int| 0 <= j < r@.len() - 1 ==> text_lt(#[trigger] r@[j]@, r@[j + 1]@),
{
    let mut r: Vec<String> = Vec::new();
    let mut i: usize = 0;
    while i < v.len()
        invariant
            0 <= i <= v@.len(),
            views(v@).no_duplicates(),
            forall|t: Seq<char>| views(r@).contains(t) <==> views(v@.take(i as int)).contains(t),
            views(r@).no_duplicates(),
            forall|j: int| 0 <= j < r@.len() - 1 ==> text_lt(#[trigger] r@[j]@, r@[j + 1]@),
        decreases v@.len() - i,
    {
        let x = &v[i];
        let ghost before = r@;
        let ghost prev = views(v@.take(i as int));
        let ghost next = views(v@.take(i as int + 1));
        proof {
            assert(next =~= prev.push(x@));
            assert(!prev.contains(x@)) by {
                if prev.contains(x@) {
                    let q = choose|q: int| 0 <= q < prev.len() && prev[q] == x@;
                    assert(views(v@)[q] == views(v@)[i as int]);
                }
            }
            assert(!views(before).contains(x@));
        }
        let k = text_insertion_point(&r, x);
        r.insert(k, x.clone());
        proof {
            assert(views(r@) =~= views(before).insert(k as int, x@));
            assert forall|t: Seq<char>| views(r@).contains(t) <==> next.contains(t) by {
                if views(r@).contains(t) && t != x@ {
                    let q = choose|q: int| 0 <= q < views(r@).len() && views(r@)[q] == t;
                    let q2 = if q < k { q } else { q - 1 };
                    assert(views(before)[q2] == t);
                    assert(views(before).contains(t));
                    assert(prev.contains(t));
                    let w = choose|w: int| 0 <= w < prev.len() && prev[w] == t;
                    assert(next[w] == t);
                }
                if t == x@ {
                    assert(views(r@)[k as int] == t);
                    assert(next[i as int] == t);
                }
                if next.contains(t) && t != x@ {
                    let w = choose|w: int| 0 <= w < next.len() && next[w] == t;
                    assert(prev[w] == t);
                    assert(prev.contains(t));
                    assert(views(before).contains(t));
                    let q = choose|q: int| 0 <= q < views(before).len() && views(before)[q] == t;
                    let q2 = if q < k { q } else { q + 1 };
                    assert(views(r@)[q2] == t);
                }
            }
            assert forall|a: int, b: int| 0 <= a < b < views(r@).len() implies views(r@)[a] != views(r@)[b] by {
                if a == k {
                    assert(views(before)[b - 1] == views(r@)[b]);
                } else if b == k {
                    assert(views(before)[a] == views(r@)[a]);
                } else {
                    let a2 = if a < k { a } else { a - 1 };
                    let b2 = if b < k { b } else { b - 1 };
                    assert(views(before)[a2] == views(r@)[a]);
                    assert(views(before)[b2] == views(r@)[b]);
                }
            }
            assert forall|j: int| 0 <= j < r@.len() - 1 implies text_lt(#[trigger] r@[j]@, r@[j + 1]@) by {
                if j + 1 < k {
                    assert(r@[j] == before[j] && r@[j + 1] == before[j + 1]);
                } else if j + 1 == k {
                    assert(r@[j] == before[j] && r@[j + 1] == *x);
                    assert(!text_lt(x@, before[j]@));
                    assert(views(before)[j] == before[j]@);
                    lemma_text_lt_total(before[j]@, x@);
                } else if j == k {
                    assert(r@[j] == *x && r@[j + 1] == before[k as int]);
                } else {
                    let jj = j - 1;
                    assert(r@[j] == before[jj] && r@[j + 1] == before[jj + 1]);
                    assert(text_lt(before[jj]@, before[jj + 1]@));
                }
            }
        }
        i = i + 1;
    }
    assert(v@.take(i as int) =~= v@);
    r
}

/// Recording the same consent a second time leaves every consent of the
/// context as the first recording left it.
pub proof fn repeated_consent_changes_no_consent(once: Registry, twice: Registry, ctx: Seq<char>, user: Seq<char>, doc: Seq<char>)
    requires
        once.consented(ctx, user, doc),
        forall|u: Seq<char>, d: Seq<char>| #[trigger] twice.consented(ctx, u, d)
            <==> once.consented(ctx, u, d) || (u == user && d == doc),
    ensures
        forall|u: Seq<char>, d: Seq<char>| #[trigger] twice.consented(ctx, u, d) == once.consented(ctx, u, d),
{
}

} // verus!
