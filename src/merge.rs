use vstd::prelude::*;
use crate::ids::UserId;
use crate::merodocs::{
    consent_key, consent_view, derive_status, doc_ids, has_signed, required_set, signed_set, signing_status,
    ConsentRecord, DocumentInfo, DocumentSignature, MeroDocsState, ParticipantInfo,
};
use crate::agreement::{lemma_reserved_update, milestone_ids, same_terms, DaoAgreement, DaoMilestone};
use crate::error::Error;
use crate::milestone::{
    approvals, quorum_status, record_vote, rejections, tally, upsert_vote, voters, voters_unique, MilestoneStatus, Vote,
};
use crate::lookup::{
    bytes_less, bytes_lt, first_pos, lemma_bytes_lt_asymmetric, lemma_bytes_lt_total, lemma_first_pos, lemma_first_pos_at,
    lemma_text_lt_asymmetric, lemma_text_lt_total, text_less, text_lt,
};

verus! {

/// The consent ledgers of two replicas joined: a flag is set where either
/// replica set it, so that a consent is never withdrawn by a merge.
pub open spec fn join_consents(
    m1: Map<(UserId, Seq<char>), bool>,
    m2: Map<(UserId, Seq<char>), bool>,
) -> Map<(UserId, Seq<char>), bool> {
    Map::new(
        |k: (UserId, Seq<char>)| m1.contains_key(k) || m2.contains_key(k),
        |k: (UserId, Seq<char>)| (m1.contains_key(k) && m1[k]) || (m2.contains_key(k) && m2[k]),
    )
}

/// Joining consent ledgers is commutative, associative and idempotent, so
/// replicas that exchange their ledgers in any order and any number of
/// times agree.
pub proof fn join_consents_laws(
    m1: Map<(UserId, Seq<char>), bool>,
    m2: Map<(UserId, Seq<char>), bool>,
    m3: Map<(UserId, Seq<char>), bool>,
)
    ensures
        join_consents(m1, m2) == join_consents(m2, m1),
        join_consents(join_consents(m1, m2), m2) == join_consents(m1, m2),
        join_consents(join_consents(m1, m2), m3) == join_consents(m1, join_consents(m2, m3)),
{
    assert(join_consents(m1, m2) =~= join_consents(m2, m1));
    assert(join_consents(join_consents(m1, m2), m2) =~= join_consents(m1, m2));
    assert(join_consents(join_consents(m1, m2), m3) =~= join_consents(m1, join_consents(m2, m3)));
}

/// A consent set on either side stays set after the join.
pub proof fn join_keeps_consent(
    m1: Map<(UserId, Seq<char>), bool>,
    m2: Map<(UserId, Seq<char>), bool>,
    k: (UserId, Seq<char>),
)
    requires
        m1.contains_key(k) && m1[k],
    ensures
        join_consents(m1, m2).contains_key(k) && join_consents(m1, m2)[k],
        join_consents(m2, m1).contains_key(k) && join_consents(m2, m1)[k],
{
}

/// The flag that `cs` holds for `(user, doc)`, if any.
pub fn lookup_consent(cs: &Vec<ConsentRecord>, user: UserId, doc: &String) -> (r: Option<bool>)
    ensures
        r == (if consent_view(cs@).contains_key((user, doc@)) {
            Some(consent_view(cs@)[(user, doc@)])
        } else {
            None::<bool>
        }),
{
    let mut found: Option<bool> = None;
    let mut i: usize = 0;
    while i < cs.len()
        invariant
            0 <= i <= cs@.len(),
            found == (if consent_view(cs@.take(i as int)).contains_key((user, doc@)) {
                Some(consent_view(cs@.take(i as int))[(user, doc@)])
            } else {
                None::<bool>
            }),
        decreases cs@.len() - i,
    {
        assert(cs@.take(i as int + 1).drop_last() =~= cs@.take(i as int));
        let c = &cs[i];
        if c.user_id == user && c.document_id == *doc {
            found = Some(c.consented);
        }
        i = i + 1;
    }
    assert(cs@.take(i as int) =~= cs@);
    found
}

/// The joined flag of `k`.
pub open spec fn joined_flag(m1: Map<(UserId, Seq<char>), bool>, m2: Map<(UserId, Seq<char>), bool>, k: (UserId, Seq<char>)) -> bool {
    (m1.contains_key(k) && m1[k]) || (m2.contains_key(k) && m2[k])
}

/// The joined flags over the keys of `m`.
pub open spec fn restrict(
    m1: Map<(UserId, Seq<char>), bool>,
    m2: Map<(UserId, Seq<char>), bool>,
    m: Map<(UserId, Seq<char>), bool>,
) -> Map<(UserId, Seq<char>), bool> {
    Map::new(|k: (UserId, Seq<char>)| m.contains_key(k), |k: (UserId, Seq<char>)| joined_flag(m1, m2, k))
}

/// Appends to `out` the joined flag of every key of `src`.
fn merge_keys_of(out: &mut Vec<ConsentRecord>, src: &Vec<ConsentRecord>, a: &Vec<ConsentRecord>, b: &Vec<ConsentRecord>)
    ensures
        consent_view(final(out)@) == consent_view(old(out)@).union_prefer_right(
            restrict(consent_view(a@), consent_view(b@), consent_view(src@))),
{
    let ghost ma = consent_view(a@);
    let ghost mb = consent_view(b@);
    let mut i: usize = 0;
    while i < src.len()
        invariant
            0 <= i <= src@.len(),
            ma == consent_view(a@),
            mb == consent_view(b@),
            consent_view(out@) == consent_view(old(out)@).union_prefer_right(restrict(ma, mb, consent_view(src@.take(i as int)))),
        decreases src@.len() - i,
    {
        let c = &src[i];
        let fa = lookup_consent(a, c.user_id, &c.document_id);
        let fb = lookup_consent(b, c.user_id, &c.document_id);
        let flag = match (fa, fb) {
            (Some(x), Some(y)) => x || y,
            (Some(x), None) => x,
            (None, Some(y)) => y,
            (None, None) => false,
        };
        let ghost before = out@;
        out.push(ConsentRecord { user_id: c.user_id, document_id: c.document_id.clone(), consented: flag });
        proof {
            let key = consent_key(src@[i as int]);
            assert(out@.drop_last() =~= before);
            assert(consent_key(out@.last()) == key);
            assert(flag == joined_flag(ma, mb, key));
            lemma_view_prefix_keys(src@, i as int);
            assert(consent_view(out@) =~= consent_view(old(out)@).union_prefer_right(restrict(ma, mb, consent_view(src@.take(i as int + 1)))));
        }
        i = i + 1;
    }
    assert(src@.take(i as int) =~= src@);
}

/// The keys of a ledger grown by one record are the old keys and the record's.
proof fn lemma_view_prefix_keys(s: Seq<ConsentRecord>, i: int)
    requires
        0 <= i < s.len(),
    ensures
        consent_view(s.take(i + 1)) == consent_view(s.take(i)).insert(consent_key(s[i]), s[i].consented),
{
    assert(s.take(i + 1).drop_last() =~= s.take(i));
}

/// Joins the consent ledgers of two replicas.
pub fn merge_consents(a: &Vec<ConsentRecord>, b: &Vec<ConsentRecord>) -> (r: Vec<ConsentRecord>)
    ensures
        consent_view(r@) == join_consents(consent_view(a@), consent_view(b@)),
{
    let ghost j = join_consents(consent_view(a@), consent_view(b@));
    let mut out: Vec<ConsentRecord> = Vec::new();
    proof {
        assert(consent_view(out@) =~= Map::empty());
    }
    merge_keys_of(&mut out, a, a, b);
    merge_keys_of(&mut out, b, a, b);
    proof {
        assert(consent_view(out@) =~= j);
    }
    out
}

/// Of two votes of one member, the one that counts: the later one; at the
/// same time, a rejection.
pub open spec fn later_vote(x: Vote, y: Vote) -> Vote {
    if x.cast_at > y.cast_at {
        x
    } else if y.cast_at > x.cast_at {
        y
    } else if !x.approve {
        x
    } else {
        y
    }
}

/// The votes as a map from member to the vote that stands.
pub open spec fn vote_map(s: Seq<Vote>) -> Map<UserId, Vote>
    decreases s.len(),
{
    if s.len() == 0 {
        Map::empty()
    } else {
        vote_map(s.drop_last()).insert(s.last().voter, s.last())
    }
}

/// Every vote is filed under its own voter.
pub open spec fn keyed_by_voter(m: Map<UserId, Vote>) -> bool {
    forall|u: UserId| #[trigger] m.contains_key(u) ==> m[u].voter == u
}

/// The vote of `u` after two replicas' votes are joined.
pub open spec fn joined_vote(m1: Map<UserId, Vote>, m2: Map<UserId, Vote>, u: UserId) -> Vote {
    if m1.contains_key(u) && m2.contains_key(u) {
        later_vote(m1[u], m2[u])
    } else if m1.contains_key(u) {
        m1[u]
    } else {
        m2[u]
    }
}

/// Two replicas' votes joined member by member: the later vote stands.
pub open spec fn join_votes(m1: Map<UserId, Vote>, m2: Map<UserId, Vote>) -> Map<UserId, Vote> {
    Map::new(|u: UserId| m1.contains_key(u) || m2.contains_key(u), |u: UserId| joined_vote(m1, m2, u))
}

/// Joining votes is commutative, associative and idempotent, so replicas
/// that exchange their votes in any order and any number of times agree.
pub proof fn join_votes_laws(m1: Map<UserId, Vote>, m2: Map<UserId, Vote>, m3: Map<UserId, Vote>)
    requires
        keyed_by_voter(m1),
        keyed_by_voter(m2),
        keyed_by_voter(m3),
    ensures
        join_votes(m1, m2) == join_votes(m2, m1),
        join_votes(join_votes(m1, m2), m2) == join_votes(m1, m2),
        join_votes(join_votes(m1, m2), m3) == join_votes(m1, join_votes(m2, m3)),
        keyed_by_voter(join_votes(m1, m2)),
{
    assert(join_votes(m1, m2) =~= join_votes(m2, m1));
    assert(join_votes(join_votes(m1, m2), m2) =~= join_votes(m1, m2));
    assert(join_votes(join_votes(m1, m2), m3) =~= join_votes(m1, join_votes(m2, m3)));
}

pub proof fn lemma_vote_map_keyed(s: Seq<Vote>)
    ensures
        keyed_by_voter(vote_map(s)),
    decreases s.len(),
{
    if s.len() > 0 {
        lemma_vote_map_keyed(s.drop_last());
    }
}

/// The map of the votes holds exactly their voters.
pub proof fn lemma_vote_map_dom(s: Seq<Vote>, u: UserId)
    ensures
        vote_map(s).contains_key(u) <==> first_pos(voters(s), u) >= 0,
    decreases s.len(),
{
    lemma_first_pos(voters(s), u);
    if s.len() > 0 {
        lemma_vote_map_dom(s.drop_last(), u);
        lemma_first_pos(voters(s.drop_last()), u);
        assert(voters(s.drop_last()) =~= voters(s).drop_last());
        if vote_map(s).contains_key(u) && u != s.last().voter {
            let p = first_pos(voters(s.drop_last()), u);
            assert(voters(s)[p] == u);
        }
        if u == s.last().voter {
            assert(voters(s)[s.len() - 1] == u);
        }
        if first_pos(voters(s), u) >= 0 && u != s.last().voter {
            let p = first_pos(voters(s), u);
            assert(p < s.len() - 1);
            assert(voters(s.drop_last())[p] == u);
        }
    }
}

/// Replacing a member's vote where the votes hold one per member replaces it in the map.
pub proof fn lemma_vote_map_update(s: Seq<Vote>, p: int, v: Vote)
    requires
        voters_unique(s),
        0 <= p < s.len(),
        s[p].voter == v.voter,
    ensures
        vote_map(s.update(p, v)) == vote_map(s).insert(v.voter, v),
    decreases s.len(),
{
    let u = s.update(p, v);
    if p == s.len() - 1 {
        assert(u.drop_last() =~= s.drop_last());
        assert(vote_map(u) =~= vote_map(s).insert(v.voter, v));
    } else {
        assert(u.drop_last() =~= s.drop_last().update(p, v));
        assert(voters_unique(s.drop_last()));
        lemma_vote_map_update(s.drop_last(), p, v);
        assert(s.last().voter != v.voter);
        assert(vote_map(u) =~= vote_map(s).insert(v.voter, v));
    }
}

/// Casting a vote files it under its voter.
pub proof fn lemma_vote_map_upsert(s: Seq<Vote>, v: Vote)
    requires
        voters_unique(s),
    ensures
        vote_map(upsert_vote(s, v)) == vote_map(s).insert(v.voter, v),
{
    lemma_first_pos(voters(s), v.voter);
    let p = first_pos(voters(s), v.voter);
    if p >= 0 {
        assert(voters(s)[p] == v.voter);
        lemma_vote_map_update(s, p, v);
    } else {
        assert(s.push(v).drop_last() =~= s);
    }
}

/// The vote that stands for `u` in `votes`, if any.
pub fn lookup_vote(votes: &Vec<Vote>, u: &UserId) -> (r: Option<Vote>)
    ensures
        r == (if vote_map(votes@).contains_key(*u) { Some(vote_map(votes@)[*u]) } else { None::<Vote> }),
{
    let mut found: Option<Vote> = None;
    let mut i: usize = 0;
    while i < votes.len()
        invariant
            0 <= i <= votes@.len(),
            found == (if vote_map(votes@.take(i as int)).contains_key(*u) {
                Some(vote_map(votes@.take(i as int))[*u])
            } else {
                None::<Vote>
            }),
        decreases votes@.len() - i,
    {
        assert(votes@.take(i as int + 1).drop_last() =~= votes@.take(i as int));
        if votes[i].voter == *u {
            found = Some(votes[i]);
        }
        i = i + 1;
    }
    assert(votes@.take(i as int) =~= votes@);
    found
}

/// The joined votes over the voters of `m`.
pub open spec fn joined_over(m1: Map<UserId, Vote>, m2: Map<UserId, Vote>, m: Map<UserId, Vote>) -> Map<UserId, Vote> {
    Map::new(|u: UserId| m.contains_key(u), |u: UserId| joined_vote(m1, m2, u))
}

/// Casts into `out` the joined vote of every voter of `src`.
fn merge_voters_of(out: &mut Vec<Vote>, src: &Vec<Vote>, a: &Vec<Vote>, b: &Vec<Vote>)
    requires
        voters_unique(old(out)@),
        forall|u: UserId| #[trigger] vote_map(src@).contains_key(u) ==> vote_map(a@).contains_key(u) || vote_map(b@).contains_key(u),
    ensures
        voters_unique(final(out)@),
        vote_map(final(out)@) == vote_map(old(out)@).union_prefer_right(joined_over(vote_map(a@), vote_map(b@), vote_map(src@))),
{
    let ghost ma = vote_map(a@);
    let ghost mb = vote_map(b@);
    proof {
        lemma_vote_map_keyed(a@);
        lemma_vote_map_keyed(b@);
        lemma_vote_map_keyed(src@);
    }
    let mut i: usize = 0;
    while i < src.len()
        invariant
            0 <= i <= src@.len(),
            ma == vote_map(a@),
            mb == vote_map(b@),
            keyed_by_voter(ma),
            keyed_by_voter(mb),
            forall|u: UserId| #[trigger] vote_map(src@).contains_key(u) ==> ma.contains_key(u) || mb.contains_key(u),
            voters_unique(out@),
            vote_map(out@) == vote_map(old(out)@).union_prefer_right(joined_over(ma, mb, vote_map(src@.take(i as int)))),
        decreases src@.len() - i,
    {
        let voter = src[i].voter;
        let va = lookup_vote(a, &voter);
        let vb = lookup_vote(b, &voter);
        let v = match (va, vb) {
            (Some(x), Some(y)) => if x.cast_at > y.cast_at {
                x
            } else if y.cast_at > x.cast_at {
                y
            } else if !x.approve {
                x
            } else {
                y
            },
            (Some(x), None) => x,
            (None, Some(y)) => y,
            (None, None) => src[i],
        };
        let ghost before = out@;
        proof {
            assert(src@.take(i as int + 1).drop_last() =~= src@.take(i as int));
            lemma_vote_map_dom(src@, voter);
            lemma_first_pos(voters(src@), voter);
            assert(voters(src@)[i as int] == voter);
            assert(vote_map(src@).contains_key(voter));
            assert(v == joined_vote(ma, mb, voter));
            assert(v.voter == voter);
        }
        record_vote(out, v);
        proof {
            lemma_vote_map_upsert(before, v);
            let m_next = vote_map(src@.take(i as int + 1));
            assert(m_next == vote_map(src@.take(i as int)).insert(voter, src@[i as int]));
            assert(vote_map(out@) =~= vote_map(old(out)@).union_prefer_right(joined_over(ma, mb, m_next)));
        }
        i = i + 1;
    }
    assert(src@.take(i as int) =~= src@);
}

/// Joins two replicas' votes on one milestone, one vote per member.
pub fn merge_votes(a: &Vec<Vote>, b: &Vec<Vote>) -> (r: Vec<Vote>)
    ensures
        voters_unique(r@),
        vote_map(r@) == join_votes(vote_map(a@), vote_map(b@)),
{
    let mut out: Vec<Vote> = Vec::new();
    proof {
        assert(vote_map(out@) =~= Map::empty());
    }
    proof {
        assert forall|u: UserId| #[trigger] vote_map(b@).contains_key(u) implies vote_map(a@).contains_key(u) || vote_map(b@).contains_key(u) by {}
    }
    merge_voters_of(&mut out, a, a, b);
    merge_voters_of(&mut out, b, a, b);
    proof {
        assert(vote_map(out@) =~= join_votes(vote_map(a@), vote_map(b@)));
    }
    out
}

/// The content fields of a document version: hash, name, blob, size, and
/// the time they were written.
pub open spec fn doc_content(d: DocumentInfo) -> (Seq<char>, Seq<char>, Seq<u8>, u64, u64) {
    (d.hash@, d.name@, d.pdf_blob_id@, d.size, d.updated_at)
}

/// The order in which content versions supersede each other: by write
/// time, and between versions written at the same time by hash, then name,
/// then size, then blob id, so that every two different versions are ordered.
pub open spec fn content_lt(
    c1: (Seq<char>, Seq<char>, Seq<u8>, u64, u64),
    c2: (Seq<char>, Seq<char>, Seq<u8>, u64, u64),
) -> bool {
    c1.4 < c2.4 || (c1.4 == c2.4 && (text_lt(c1.0, c2.0) || (c1.0 == c2.0 && (text_lt(c1.1, c2.1)
        || (c1.1 == c2.1 && (c1.3 < c2.3 || (c1.3 == c2.3 && bytes_lt(c1.2, c2.2))))))))
}

/// Of two versions' content, the later one wins whole.
pub open spec fn lww_content(
    c1: (Seq<char>, Seq<char>, Seq<u8>, u64, u64),
    c2: (Seq<char>, Seq<char>, Seq<u8>, u64, u64),
) -> (Seq<char>, Seq<char>, Seq<u8>, u64, u64) {
    if content_lt(c1, c2) {
        c2
    } else {
        c1
    }
}

/// Choosing the later content is commutative and idempotent: replicas that
/// exchange versions in either order, any number of times, agree.
pub proof fn lww_content_laws(
    c1: (Seq<char>, Seq<char>, Seq<u8>, u64, u64),
    c2: (Seq<char>, Seq<char>, Seq<u8>, u64, u64),
)
    ensures
        lww_content(c1, c2) == lww_content(c2, c1),
        lww_content(lww_content(c1, c2), c2) == lww_content(c1, c2),
        lww_content(c1, c1) == c1,
{
    lemma_text_lt_asymmetric(c1.0, c2.0);
    lemma_text_lt_asymmetric(c2.0, c1.0);
    lemma_text_lt_total(c1.0, c2.0);
    lemma_text_lt_asymmetric(c1.1, c2.1);
    lemma_text_lt_asymmetric(c2.1, c1.1);
    lemma_text_lt_total(c1.1, c2.1);
    lemma_bytes_lt_asymmetric(c1.2, c2.2);
    lemma_bytes_lt_asymmetric(c2.2, c1.2);
    lemma_bytes_lt_total(c1.2, c2.2);
    lemma_text_lt_asymmetric(c1.0, c1.0);
    lemma_text_lt_asymmetric(c1.1, c1.1);
    lemma_bytes_lt_asymmetric(c1.2, c1.2);
    lemma_text_lt_asymmetric(c2.0, c2.0);
    lemma_text_lt_asymmetric(c2.1, c2.1);
    lemma_bytes_lt_asymmetric(c2.2, c2.2);
}

/// Joining signer sets is commutative, associative and idempotent: a
/// signature made on either replica survives every merge.
pub proof fn signer_union_laws(s1: Set<UserId>, s2: Set<UserId>, s3: Set<UserId>)
    ensures
        s1.union(s2) == s2.union(s1),
        s1.union(s2).union(s2) == s1.union(s2),
        s1.union(s2).union(s3) == s1.union(s2.union(s3)),
        s1.subset_of(s1.union(s2)) && s2.subset_of(s1.union(s2)),
{
    assert(s1.union(s2) =~= s2.union(s1));
    assert(s1.union(s2).union(s2) =~= s1.union(s2));
    assert(s1.union(s2).union(s3) =~= s1.union(s2.union(s3)));
}

/// The signatures of two versions of a document joined: one per signer,
/// every signer of either version kept.
pub fn merge_signatures(a: &Vec<DocumentSignature>, b: &Vec<DocumentSignature>) -> (r: Vec<DocumentSignature>)
    ensures
        signed_set(r@) == signed_set(a@).union(signed_set(b@)),
{
    let mut out: Vec<DocumentSignature> = Vec::new();
    let mut i: usize = 0;
    while i < a.len()
        invariant
            0 <= i <= a@.len(),
            out@ == a@.take(i as int),
        decreases a@.len() - i,
    {
        out.push(a[i]);
        assert(a@.take(i as int + 1) =~= a@.take(i as int).push(a@[i as int]));
        i = i + 1;
    }
    assert(a@.take(i as int) =~= a@);
    let mut j: usize = 0;
    while j < b.len()
        invariant
            0 <= j <= b@.len(),
            signed_set(out@) == signed_set(a@).union(signed_set(b@.take(j as int))),
        decreases b@.len() - j,
    {
        let ghost before = out@;
        let sig = b[j];
        if !has_signed(&out, &sig.signer) {
            out.push(sig);
        }
        proof {
            assert forall|u: UserId| signed_set(out@).contains(u) <==> signed_set(a@).union(signed_set(b@.take(j as int + 1))).contains(u) by {
                let tb = b@.take(j as int + 1);
                if signed_set(out@).contains(u) {
                    let k = choose|k: int| 0 <= k < out@.len() && (#[trigger] out@[k]).signer == u;
                    if k < before.len() {
                        assert(before[k] == out@[k]);
                        assert(signed_set(before).contains(u));
                        if signed_set(b@.take(j as int)).contains(u) {
                            let m = choose|m: int| 0 <= m < j && (#[trigger] b@.take(j as int)[m]).signer == u;
                            assert(tb[m] == b@.take(j as int)[m]);
                        }
                    } else {
                        assert(tb[j as int].signer == u);
                    }
                }
                if signed_set(a@).union(signed_set(tb)).contains(u) {
                    if signed_set(tb).contains(u) {
                        let m = choose|m: int| 0 <= m < tb.len() && (#[trigger] tb[m]).signer == u;
                        if m < j {
                            assert(b@.take(j as int)[m] == tb[m]);
                            assert(signed_set(b@.take(j as int)).contains(u));
                        }
                    }
                    if signed_set(before).contains(u) {
                        let k = choose|k: int| 0 <= k < before.len() && (#[trigger] before[k]).signer == u;
                        assert(out@[k] == before[k]);
                    }
                    if u == sig.signer && out@.len() > before.len() {
                        assert(out@[before.len() as int].signer == u);
                    }
                }
            }
            assert(signed_set(out@) =~= signed_set(a@).union(signed_set(b@.take(j as int + 1))));
        }
        j = j + 1;
    }
    assert(b@.take(j as int) =~= b@);
    out
}

/// Joins two versions of one document. The later content wins whole (see
/// `content_lt` for versions written at the same time); the
/// signatures of both versions are kept, so that a signature made while the
/// other replica changed the content is not lost; the status is the one the
/// joined signatures give under the participants `ps`.
pub fn merge_document(a: &DocumentInfo, b: &DocumentInfo, ps: &Vec<ParticipantInfo>) -> (r: DocumentInfo)
    ensures
        doc_content(r) == lww_content(doc_content(*a), doc_content(*b)),
        r.id == a.id,
        signed_set(r.signatures@) == signed_set(a.signatures@).union(signed_set(b.signatures@)),
        r.status == signing_status(required_set(ps@), signed_set(r.signatures@)),
{
    let signatures = merge_signatures(&a.signatures, &b.signatures);
    let status = derive_status(ps, &signatures);
    let later = if a.updated_at != b.updated_at {
        a.updated_at < b.updated_at
    } else if !(a.hash == b.hash) {
        text_less(a.hash.as_str(), b.hash.as_str())
    } else if !(a.name == b.name) {
        text_less(a.name.as_str(), b.name.as_str())
    } else if a.size != b.size {
        a.size < b.size
    } else {
        bytes_less(&a.pdf_blob_id, &b.pdf_blob_id)
    };
    proof {
        lemma_text_lt_asymmetric(a.hash@, a.hash@);
        lemma_text_lt_asymmetric(a.name@, a.name@);
    }
    assert(later == content_lt(doc_content(*a), doc_content(*b)));
    let w = if later { b } else { a };
    DocumentInfo {
        id: a.id.clone(),
        name: w.name.clone(),
        hash: w.hash.clone(),
        uploaded_by: a.uploaded_by,
        uploaded_at: a.uploaded_at,
        status,
        pdf_blob_id: w.pdf_blob_id,
        size: w.size,
        signatures,
        updated_at: w.updated_at,
    }
}

/// The status of a milestone after its votes were joined: one that is open
/// to the vote or was decided by it is decided afresh from the joined
/// votes; a pending one, or one whose payout has started, keeps its status.
pub open spec fn reconciled_status(st: MilestoneStatus, votes: Seq<Vote>, n: int, threshold: int) -> MilestoneStatus {
    if votes.len() > 0 && (st == MilestoneStatus::ReadyForVoting || st == MilestoneStatus::VotingActive
        || st == MilestoneStatus::Approved || st == MilestoneStatus::Rejected) {
        quorum_status(approvals(votes) as int, rejections(votes) as int, n, threshold)
    } else {
        st
    }
}

impl DaoAgreement {
    /// Joins another replica's votes on a milestone into this one and
    /// decides the milestone's status afresh from the joined votes.
    pub fn merge_milestone_votes(&mut self, milestone_id: u64, other: &Vec<Vote>) -> (r: Result<MilestoneStatus, Error>)
        requires
            old(self).wf(),
        ensures
            final(self).wf(),
            old(self).milestone_pos(milestone_id) < 0 ==> r == Err::<MilestoneStatus, Error>(Error::NotFound)
                && *final(self) == *old(self),
            old(self).milestone_pos(milestone_id) >= 0 ==> {
                let p = old(self).milestone_pos(milestone_id);
                let m = old(self).milestones@[p];
                let nm = final(self).milestones@[p];
                &&& vote_map(nm.votes@) == join_votes(vote_map(m.votes@), vote_map(other@))
                &&& nm.status == reconciled_status(m.status, nm.votes@, old(self).voter_count(), old(self).voting_threshold as int)
                &&& r == Ok::<MilestoneStatus, Error>(nm.status)
                &&& same_terms(nm, m)
                &&& nm.completed_at == m.completed_at
                &&& final(self).milestones@ == old(self).milestones@.update(p, nm)
                &&& final(self).same_frame(*old(self))
                &&& final(self).total_funding == old(self).total_funding
                &&& final(self).remaining_balance == old(self).remaining_balance
            },
    {
        let p = match self.find_milestone(milestone_id) {
            Some(p) => p,
            None => {
                return Err(Error::NotFound);
            },
        };
        proof {
            crate::lookup::lemma_first_pos(milestone_ids(self.milestones@), milestone_id);
        }
        let ghost old_ms = self.milestones@;
        let merged = merge_votes(&self.milestones[p].votes, other);
        let n: u64 = self.participants.len() as u64 + 1;
        let threshold = self.voting_threshold;
        let st = self.milestones[p].status;
        let open = st == MilestoneStatus::ReadyForVoting || st == MilestoneStatus::VotingActive
            || st == MilestoneStatus::Approved || st == MilestoneStatus::Rejected;
        let new_status = if merged.len() > 0 && open {
            tally(&merged, n, threshold)
        } else {
            st
        };
        self.milestones[p].votes = merged;
        self.milestones[p].status = new_status;
        proof {
            let ms = self.milestones@;
            assert(ms =~= old_ms.update(p as int, ms[p as int]));
            lemma_reserved_update(old_ms, p as int, ms[p as int]);
            assert(milestone_ids(ms) =~= milestone_ids(old_ms));
            assert forall|i: int| 0 <= i < ms.len() implies voters_unique(#[trigger] ms[i].votes@) by {
                if i != p {
                    assert(ms[i] == old_ms[i]);
                }
            }
        }
        Ok(new_status)
    }
}

/// A copy of a document version.
pub fn copy_document(d: &DocumentInfo) -> (r: DocumentInfo)
    ensures
        r.id == d.id,
        doc_content(r) == doc_content(*d),
        r.signatures@ == d.signatures@,
        r.status == d.status,
{
    let mut signatures: Vec<DocumentSignature> = Vec::new();
    let mut i: usize = 0;
    while i < d.signatures.len()
        invariant
            0 <= i <= d.signatures@.len(),
            signatures@ == d.signatures@.take(i as int),
        decreases d.signatures@.len() - i,
    {
        signatures.push(d.signatures[i]);
        assert(d.signatures@.take(i as int + 1) =~= d.signatures@.take(i as int).push(d.signatures@[i as int]));
        i = i + 1;
    }
    assert(d.signatures@.take(i as int) =~= d.signatures@);
    DocumentInfo {
        id: d.id.clone(),
        name: d.name.clone(),
        hash: d.hash.clone(),
        uploaded_by: d.uploaded_by,
        uploaded_at: d.uploaded_at,
        status: d.status,
        pdf_blob_id: d.pdf_blob_id,
        size: d.size,
        signatures,
        updated_at: d.updated_at,
    }
}

/// The document version `nd` is `d` joined with the other replica's
/// version of it, where there is one.
pub open spec fn merged_version(nd: DocumentInfo, d: DocumentInfo, others: Seq<DocumentInfo>) -> bool {
    let q = first_pos(doc_ids(others), d.id@);
    &&& nd.id@ == d.id@
    &&& (q >= 0 ==> doc_content(nd) == lww_content(doc_content(d), doc_content(others[q]))
        && signed_set(nd.signatures@) == signed_set(d.signatures@).union(signed_set(others[q].signatures@)))
    &&& (q < 0 ==> doc_content(nd) == doc_content(d) && signed_set(nd.signatures@) == signed_set(d.signatures@))
}

impl MeroDocsState {
    /// Reconciles this replica with another copy of the same context: the
    /// votes of every milestone that both hold are joined and its status
    /// decided afresh, the consent ledgers are joined, every document that
    /// both hold is joined version by version, and the documents that only
    /// the other holds are added. Every document status is then the one the
    /// joined signatures give.
    pub fn merge_replica(&mut self, other: &MeroDocsState)
        requires
            old(self).wf(),
            other.wf(),
        ensures
            final(self).wf(),
            consent_view(final(self).consents@) == join_consents(consent_view(old(self).consents@), consent_view(other.consents@)),
            final(self).participants == old(self).participants,
            final(self).identity_mappings == old(self).identity_mappings,
            final(self).dao_agreements@.len() == old(self).dao_agreements@.len(),
            forall|i: int| 0 <= i < old(self).dao_agreements@.len() ==> {
                let a = old(self).dao_agreements@[i];
                let q = other.agreement_pos(a.id@);
                &&& (q >= 0 ==> votes_merged(a, #[trigger] final(self).dao_agreements@[i], other.dao_agreements@[q]))
                &&& (q < 0 ==> final(self).dao_agreements@[i] == a)
            },
            final(self).documents@.len() >= old(self).documents@.len(),
            forall|i: int| 0 <= i < old(self).documents@.len()
                ==> merged_version(#[trigger] final(self).documents@[i], old(self).documents@[i], other.documents@),
            forall|j: int| 0 <= j < other.documents@.len() ==> final(self).doc_pos((#[trigger] other.documents@[j]).id@) >= 0,
    {
        let mut g: usize = 0;
        while g < self.dao_agreements.len()
            invariant
                0 <= g <= self.dao_agreements@.len(),
                other.wf(),
                self.dao_agreements@.len() == old(self).dao_agreements@.len(),
                forall|i: int| 0 <= i < self.dao_agreements@.len() ==> (#[trigger] self.dao_agreements@[i]).wf(),
                forall|i: int| 0 <= i < old(self).dao_agreements@.len() ==> {
                    let a = old(self).dao_agreements@[i];
                    let q = other.agreement_pos(a.id@);
                    let b = #[trigger] self.dao_agreements@[i];
                    &&& (i < g && q >= 0 ==> votes_merged(a, b, other.dao_agreements@[q]))
                    &&& (i >= g || q < 0 ==> b == a)
                },
                self.documents == old(self).documents,
                self.consents == old(self).consents,
                self.participants == old(self).participants,
                self.identity_mappings == old(self).identity_mappings,
                self.joined_contexts == old(self).joined_contexts,
                self.is_private == old(self).is_private,
                self.owner == old(self).owner,
            decreases self.dao_agreements@.len() - g,
        {
            let ghost before = self.dao_agreements@;
            match other.find_agreement(&self.dao_agreements[g].id) {
                Some(q) => {
                    self.dao_agreements[g].merge_votes_from(&other.dao_agreements[q]);
                    proof {
                        assert forall|i: int| 0 <= i < self.dao_agreements@.len() && i != g implies self.dao_agreements@[i] == before[i] by {}
                    }
                },
                None => {},
            }
            g = g + 1;
        }
        let ghost ags = self.dao_agreements;
        let merged_consents = merge_consents(&self.consents, &other.consents);
        self.consents = merged_consents;
        let ghost old_docs = self.documents@;
        let ghost others = other.documents@;
        let n0 = self.documents.len();
        let mut j: usize = 0;
        while j < other.documents.len()
            invariant
                0 <= j <= others.len(),
                others == other.documents@,
                doc_ids(others).no_duplicates(),
                old_docs == old(self).documents@,
                n0 == old_docs.len(),
                self.documents@.len() >= n0,
                doc_ids(self.documents@).no_duplicates(),
                consent_view(self.consents@) == join_consents(consent_view(old(self).consents@), consent_view(other.consents@)),
                self.participants == old(self).participants,
                self.dao_agreements == ags,
                forall|i: int| 0 <= i < self.dao_agreements@.len() ==> (#[trigger] self.dao_agreements@[i]).wf(),
                self.identity_mappings == old(self).identity_mappings,
                self.joined_contexts == old(self).joined_contexts,
                forall|i: int| 0 <= i < n0 ==> (#[trigger] self.documents@[i]).id@ == old_docs[i].id@,
                forall|i: int| 0 <= i < n0 ==> version_so_far(#[trigger] self.documents@[i], old_docs[i], others, j as int),
                forall|jj: int| 0 <= jj < j ==> first_pos(doc_ids(self.documents@), (#[trigger] others[jj]).id@) >= 0,
            decreases others.len() - j,
        {
            let d = &other.documents[j];
            let ghost before = self.documents@;
            proof {
                lemma_first_pos_at(doc_ids(others), d.id@, j as int);
                lemma_first_pos(doc_ids(before), d.id@);
            }
            match self.find_document(&d.id) {
                Some(p) => {
                    let m = merge_document(&self.documents[p], d, &self.participants);
                    self.documents.set(p, m);
                    proof {
                        assert(doc_ids(before)[p as int] == d.id@);
                        assert(doc_ids(self.documents@) =~= doc_ids(before));
                        assert forall|i: int| 0 <= i < n0 implies version_so_far(#[trigger] self.documents@[i], old_docs[i], others, j + 1) by {
                            assert(version_so_far(before[i], old_docs[i], others, j as int));
                            lemma_first_pos(doc_ids(others), old_docs[i].id@);
                            assert(doc_ids(others)[j as int] == d.id@);
                            if i == p {
                                assert(old_docs[i].id@ == d.id@);
                                assert(first_pos(doc_ids(others), old_docs[i].id@) == j);
                                assert(others[j as int] == *d);
                            } else {
                                assert(doc_ids(before)[i] != doc_ids(before)[p as int]);
                                assert(self.documents@[i] == before[i]);
                                assert(old_docs[i].id@ != d.id@);
                                assert(first_pos(doc_ids(others), old_docs[i].id@) != j);
                            }
                        }
                    }
                },
                None => {
                    let c = copy_document(d);
                    self.documents.push(c);
                    proof {
                        assert(doc_ids(self.documents@) =~= doc_ids(before).push(d.id@));
                        assert(self.documents@.drop_last() =~= before);
                        assert forall|i: int| 0 <= i < n0 implies version_so_far(#[trigger] self.documents@[i], old_docs[i], others, j + 1) by {
                            assert(version_so_far(before[i], old_docs[i], others, j as int));
                            assert(doc_ids(before)[i] == old_docs[i].id@);
                            assert(self.documents@[i] == before[i]);
                            lemma_first_pos(doc_ids(others), old_docs[i].id@);
                            assert(doc_ids(others)[j as int] == d.id@);
                            assert(old_docs[i].id@ != d.id@);
                            assert(first_pos(doc_ids(others), old_docs[i].id@) != j);
                        }
                    }
                },
            }
            proof {
                assert(doc_ids(self.documents@).drop_last() =~= doc_ids(before) || doc_ids(self.documents@) =~= doc_ids(before));
                assert forall|jj: int| 0 <= jj < j + 1 implies first_pos(doc_ids(self.documents@), (#[trigger] others[jj]).id@) >= 0 by {
                    lemma_first_pos(doc_ids(self.documents@), others[jj].id@);
                    if jj < j {
                        lemma_first_pos(doc_ids(before), others[jj].id@);
                        let q = first_pos(doc_ids(before), others[jj].id@);
                        assert(doc_ids(self.documents@)[q] == others[jj].id@);
                    } else {
                        lemma_first_pos(doc_ids(before), d.id@);
                        let q = if first_pos(doc_ids(before), d.id@) >= 0 { first_pos(doc_ids(before), d.id@) } else { before.len() as int };
                        assert(doc_ids(self.documents@)[q] == d.id@);
                    }
                }
            }
            j = j + 1;
        }
        let ghost joined = self.documents@;
        self.recompute_statuses();
        proof {
            assert forall|i: int| 0 <= i < old_docs.len() implies merged_version(#[trigger] self.documents@[i], old_docs[i], others) by {
                assert(version_so_far(joined[i], old_docs[i], others, others.len() as int));
                lemma_first_pos(doc_ids(others), old_docs[i].id@);
                assert(doc_content(self.documents@[i]) == doc_content(joined[i]));
                assert(self.documents@[i].signatures == joined[i].signatures);
            }
            assert forall|jj: int| 0 <= jj < others.len() implies self.doc_pos((#[trigger] others[jj]).id@) >= 0 by {
                assert(first_pos(doc_ids(joined), others[jj].id@) >= 0);
            }
        }
    }
}

/// The version `nd` of `d` after the first `j` documents of the other
/// replica have been joined in.
pub open spec fn version_so_far(nd: DocumentInfo, d: DocumentInfo, others: Seq<DocumentInfo>, j: int) -> bool {
    let q = first_pos(doc_ids(others), d.id@);
    &&& (0 <= q < j ==> doc_content(nd) == lww_content(doc_content(d), doc_content(others[q]))
        && signed_set(nd.signatures@) == signed_set(d.signatures@).union(signed_set(others[q].signatures@)))
    &&& (!(0 <= q < j) ==> doc_content(nd) == doc_content(d) && signed_set(nd.signatures@) == signed_set(d.signatures@))
}
/// Milestone `nm` is `m` with the other replica's votes on it joined in,
/// where the other agreement `o` has a milestone with the same id.
pub open spec fn milestone_merged(nm: DaoMilestone, m: DaoMilestone, o: DaoAgreement, n: int, threshold: int) -> bool {
    let q = o.milestone_pos(m.id);
    &&& same_terms(nm, m)
    &&& nm.completed_at == m.completed_at
    &&& (q >= 0 ==> vote_map(nm.votes@) == join_votes(vote_map(m.votes@), vote_map(o.milestones@[q].votes@))
        && nm.status == reconciled_status(m.status, nm.votes@, n, threshold))
    &&& (q < 0 ==> nm.votes == m.votes && nm.status == m.status)
}

/// `b` is `a` with the votes of the other replica's agreement `o` joined into
/// every milestone that both hold.
pub open spec fn votes_merged(a: DaoAgreement, b: DaoAgreement, o: DaoAgreement) -> bool {
    &&& b.same_frame(a)
    &&& b.total_funding == a.total_funding
    &&& b.remaining_balance == a.remaining_balance
    &&& b.milestones@.len() == a.milestones@.len()
    &&& forall|i: int| 0 <= i < a.milestones@.len() ==> milestone_merged(
        #[trigger] b.milestones@[i], a.milestones@[i], o, a.voter_count(), a.voting_threshold as int)
}

impl DaoAgreement {
    /// Joins the votes of another replica's copy of this agreement into
    /// every milestone that both hold, deciding each status afresh.
    pub fn merge_votes_from(&mut self, other: &DaoAgreement)
        requires
            old(self).wf(),
            other.wf(),
        ensures
            final(self).wf(),
            votes_merged(*old(self), *final(self), *other),
    {
        let ghost a = *self;
        let mut k: usize = 0;
        while k < other.milestones.len()
            invariant
                0 <= k <= other.milestones@.len(),
                self.wf(),
                other.wf(),
                self.same_frame(a),
                self.total_funding == a.total_funding,
                self.remaining_balance == a.remaining_balance,
                self.milestones@.len() == a.milestones@.len(),
                forall|i: int| 0 <= i < a.milestones@.len() ==> (#[trigger] self.milestones@[i]).id == a.milestones@[i].id,
                forall|i: int| 0 <= i < a.milestones@.len() ==> {
                    let m = a.milestones@[i];
                    let nm = #[trigger] self.milestones@[i];
                    let q = other.milestone_pos(m.id);
                    &&& same_terms(nm, m)
                    &&& nm.completed_at == m.completed_at
                    &&& (0 <= q < k ==> vote_map(nm.votes@) == join_votes(vote_map(m.votes@), vote_map(other.milestones@[q].votes@))
                        && nm.status == reconciled_status(m.status, nm.votes@, a.voter_count(), a.voting_threshold as int))
                    &&& (!(0 <= q < k) ==> nm.votes == m.votes && nm.status == m.status)
                },
            decreases other.milestones@.len() - k,
        {
            let id = other.milestones[k].id;
            let ghost before = *self;
            proof {
                lemma_first_pos_at(milestone_ids(other.milestones@), id, k as int);
                lemma_first_pos(milestone_ids(before.milestones@), id);
                assert(milestone_ids(before.milestones@) =~= milestone_ids(a.milestones@));
            }
            let _ = self.merge_milestone_votes(id, &other.milestones[k].votes);
            proof {
                assert forall|i: int| 0 <= i < a.milestones@.len() implies (#[trigger] self.milestones@[i]).id == a.milestones@[i].id by {
                    if before.milestone_pos(id) >= 0 && i == before.milestone_pos(id) {
                    } else {
                        assert(self.milestones@[i] == before.milestones@[i]);
                    }
                }
                assert forall|i: int| 0 <= i < a.milestones@.len() implies {
                    let m = a.milestones@[i];
                    let nm = #[trigger] self.milestones@[i];
                    let q = other.milestone_pos(m.id);
                    &&& same_terms(nm, m)
                    &&& nm.completed_at == m.completed_at
                    &&& (0 <= q < k + 1 ==> vote_map(nm.votes@) == join_votes(vote_map(m.votes@), vote_map(other.milestones@[q].votes@))
                        && nm.status == reconciled_status(m.status, nm.votes@, a.voter_count(), a.voting_threshold as int))
                    &&& (!(0 <= q < k + 1) ==> nm.votes == m.votes && nm.status == m.status)
                } by {
                    let m = a.milestones@[i];
                    lemma_first_pos(milestone_ids(other.milestones@), m.id);
                    assert(milestone_ids(a.milestones@)[i] == m.id);
                    if m.id == id {
                        assert(milestone_ids(before.milestones@)[i] == id);
                        lemma_first_pos(milestone_ids(before.milestones@), id);
                        assert(before.milestone_pos(id) == i) by {
                            let p = before.milestone_pos(id);
                            assert(milestone_ids(before.milestones@)[p] == id);
                        }
                    } else {
                        if before.milestone_pos(id) >= 0 {
                            let p = before.milestone_pos(id);
                            assert(milestone_ids(before.milestones@)[p] == id);
                            assert(p != i);
                        }
                        assert(self.milestones@[i] == before.milestones@[i]);
                        if other.milestone_pos(m.id) == k {
                            assert(milestone_ids(other.milestones@)[k as int] == m.id);
                        }
                    }
                }
            }
            k = k + 1;
        }
        proof {
            assert forall|i: int| 0 <= i < a.milestones@.len() implies milestone_merged(
                #[trigger] self.milestones@[i], a.milestones@[i], *other, a.voter_count(), a.voting_threshold as int) by {
                lemma_first_pos(milestone_ids(other.milestones@), a.milestones@[i].id);
            }
        }
    }
}

} // verus!
