use crate::conditions::{check_milestone_conditions, condition_met};
use crate::identity::{
    all_listed_in, contains_identity, identity_set, insert_identity,
    lists_identity, Identity,
};
use crate::search::{first_match, lemma_first_match_at, lemma_first_match_none};
use crate::types::{
    ballot_voters, has_voted, Agreement, AgreementError, Ballot, DocumentRef, Milestone,
    MilestoneStatus, MilestoneType, MilestoneVotingInfo, Missing,
};
use crate::voting::{
    approvals_of, rejections_of, required_for, required_votes, resolved_status, tally,
};
use vstd::prelude::*;

verus! {

/// The number of distinct voters: the participants and the creator, counted once.
pub open spec fn voters_of(a: Agreement) -> int {
    a.participants@.len() + if lists_identity(a.participants@, a.creator@) {
        0int
    } else {
        1int
    }
}

/// Whether `who` created the agreement or takes part in it.
pub open spec fn involves(a: Agreement, who: Seq<u8>) -> bool {
    a.creator@ == who || lists_identity(a.participants@, who)
}

/// The position of the milestone with id `id`.
pub open spec fn milestone_position(a: Agreement, id: u64) -> Option<int> {
    first_match(a.milestones@, |m: Milestone| m.id == id)
}

/// The position of the first document with id `doc_id`.
pub open spec fn document_position(a: Agreement, doc_id: Seq<char>) -> Option<int> {
    first_match(a.documents@, |d: DocumentRef| d.doc_id@ == doc_id)
}

/// Where a pending milestone goes once its condition holds: straight to `Approved` for a
/// document-signature milestone, to `ReadyForVoting` for every other kind.
pub open spec fn promoted_status(t: MilestoneType) -> MilestoneStatus {
    match t {
        MilestoneType::DocumentSignature { .. } => MilestoneStatus::Approved,
        _ => MilestoneStatus::ReadyForVoting,
    }
}

pub open spec fn becomes_ready(m: Milestone, docs: Seq<DocumentRef>, now: u64) -> bool {
    m.status == MilestoneStatus::Pending && condition_met(m.milestone_type, docs, now)
}

/// A milestone after the conditions were evaluated again.
pub open spec fn promoted(m: Milestone, docs: Seq<DocumentRef>, now: u64) -> Milestone {
    if becomes_ready(m, docs, now) {
        Milestone { status: promoted_status(m.milestone_type), ..m }
    } else {
        m
    }
}

/// The ids of the milestones that become ready, in order.
pub open spec fn promoted_ids(ms: Seq<Milestone>, docs: Seq<DocumentRef>, now: u64) -> Seq<u64>
    decreases ms.len(),
{
    if ms.len() == 0 {
        Seq::empty()
    } else {
        let rest = promoted_ids(ms.drop_last(), docs, now);
        if becomes_ready(ms.last(), docs, now) {
            rest.push(ms.last().id)
        } else {
            rest
        }
    }
}

/// Everything but the milestones and the documents is the same.
pub open spec fn same_header(a: Agreement, b: Agreement) -> bool {
    &&& a.id == b.id
    &&& a.title == b.title
    &&& a.description == b.description
    &&& a.creator == b.creator
    &&& a.participants == b.participants
    &&& a.voting_threshold == b.voting_threshold
    &&& a.status == b.status
    &&& a.created_at == b.created_at
}

/// A document after `signer` signed it.
pub open spec fn signed_by(before: DocumentRef, after: DocumentRef, signer: Seq<u8>) -> bool {
    &&& after.doc_id == before.doc_id
    &&& after.title == before.title
    &&& after.required_signers == before.required_signers
    &&& identity_set(after.current_signers@) == identity_set(before.current_signers@).insert(signer)
    &&& after.is_signed_by_all == identity_set(before.required_signers@).subset_of(
        identity_set(after.current_signers@),
    )
}

/// `a1` is `a0` after a ballot (`voter`, `approve`) was added to milestone `j` and the vote
/// resolved; `info` is the tally reported.
pub open spec fn vote_recorded(
    a0: Agreement,
    a1: Agreement,
    j: int,
    voter: Seq<u8>,
    approve: bool,
    info: MilestoneVotingInfo,
) -> bool {
    let m0 = a0.milestones@[j];
    let m1 = a1.milestones@[j];
    let n = voters_of(a0);
    let required = required_for(n, a0.voting_threshold as int);
    &&& same_header(a1, a0)
    &&& a1.documents == a0.documents
    &&& a1.milestones@.len() == a0.milestones@.len()
    &&& forall|i: int|
        0 <= i < a0.milestones@.len() && i != j ==> (#[trigger] a1.milestones@[i]) == a0.milestones@[i]
    &&& m1 == Milestone { votes: m1.votes, status: m1.status, ..m0 }
    &&& m1.votes@.len() == m0.votes@.len() + 1
    &&& m1.votes@.subrange(0, m0.votes@.len() as int) == m0.votes@
    &&& m1.votes@.last().voter@ == voter
    &&& m1.votes@.last().approve == approve
    &&& m1.status == resolved_status(approvals_of(m1.votes@), rejections_of(m1.votes@), n, required)
    &&& info == MilestoneVotingInfo {
        milestone_id: m0.id,
        status: m1.status,
        approval_votes: approvals_of(m1.votes@) as u64,
        rejection_votes: rejections_of(m1.votes@) as u64,
        total_participants: n as u64,
        required_votes: required as u64,
        voting_threshold: a0.voting_threshold,
    }
}

pub fn has_ballot_from(votes: &Vec<Ballot>, who: &Identity) -> (r: bool)
    ensures
        r == has_voted(votes@, who@),
{
    let mut k: usize = 0;
    while k < votes.len()
        invariant
            k <= votes@.len(),
            forall|i: int| 0 <= i < k ==> (#[trigger] votes@[i]).voter@ != who@,
        decreases votes@.len() - k,
    {
        if votes[k].voter.same_as(who) {
            return true;
        }
        k = k + 1;
    }
    false
}

impl Agreement {
    pub fn involves(&self, who: &Identity) -> (r: bool)
        ensures
            r == involves(*self, who@),
    {
        self.creator.same_as(who) || contains_identity(&self.participants, who)
    }

    pub fn voter_count(&self) -> (r: usize)
        requires
            self.participants@.len() < usize::MAX,
        ensures
            r == voters_of(*self),
    {
        if contains_identity(&self.participants, &self.creator) {
            self.participants.len()
        } else {
            self.participants.len() + 1
        }
    }

    pub fn find_milestone(&self, id: u64) -> (r: Option<usize>)
        ensures
            match r {
                Some(j) => milestone_position(*self, id) == Some(j as int) && j < self.milestones@.len()
                    && self.milestones@[j as int].id == id,
                None => milestone_position(*self, id) is None,
            },
    {
        let ghost p = |m: Milestone| m.id == id;
        let mut j: usize = 0;
        while j < self.milestones.len()
            invariant
                j <= self.milestones@.len(),
                p == (|m: Milestone| m.id == id),
                forall|k: int| 0 <= k < j ==> !p(#[trigger] self.milestones@[k]),
            decreases self.milestones@.len() - j,
        {
            if self.milestones[j].id == id {
                proof {
                    lemma_first_match_at(self.milestones@, p, j as int);
                }
                return Some(j);
            }
            j = j + 1;
        }
        proof {
            lemma_first_match_none(self.milestones@, p);
        }
        None
    }

    pub fn find_document(&self, doc_id: &String) -> (r: Option<usize>)
        ensures
            match r {
                Some(k) => document_position(*self, doc_id@) == Some(k as int) && k
                    < self.documents@.len() && self.documents@[k as int].doc_id@ == doc_id@,
                None => document_position(*self, doc_id@) is None,
            },
    {
        let ghost p = |d: DocumentRef| d.doc_id@ == doc_id@;
        let mut k: usize = 0;
        while k < self.documents.len()
            invariant
                k <= self.documents@.len(),
                p == (|d: DocumentRef| d.doc_id@ == doc_id@),
                forall|i: int| 0 <= i < k ==> !p(#[trigger] self.documents@[i]),
            decreases self.documents@.len() - k,
        {
            if self.documents[k].doc_id == *doc_id {
                proof {
                    lemma_first_match_at(self.documents@, p, k as int);
                }
                return Some(k);
            }
            k = k + 1;
        }
        proof {
            lemma_first_match_none(self.documents@, p);
        }
        None
    }

    /// Records `voter`'s ballot on milestone `j` and resolves the vote: approved once the
    /// approvals reach the required number, rejected once too many have rejected.
    pub fn cast_vote(&mut self, j: usize, voter: Identity, approve: bool) -> (r: MilestoneVotingInfo)
        requires
            old(self).wf(),
            old(self).participants@.len() < usize::MAX,
            j < old(self).milestones@.len(),
            !has_voted(old(self).milestones@[j as int].votes@, voter@),
        ensures
            final(self).wf(),
            vote_recorded(*old(self), *final(self), j as int, voter@, approve, r),
    {
        let voters = self.voter_count();
        let threshold = self.voting_threshold;
        let required = required_votes(voters, threshold);
        let ghost voter_g = voter;
        let ghost old_votes = self.milestones@[j as int].votes@;
        let m = &mut self.milestones[j];
        let milestone_id = m.id;
        m.votes.push(Ballot { voter, approve });
        let (approvals, rejections) = tally(&m.votes);
        let status = if approvals >= required {
            MilestoneStatus::Approved
        } else if rejections > voters - required {
            MilestoneStatus::Rejected
        } else {
            MilestoneStatus::VotingActive
        };
        m.status = status;
        proof {
            let vs = ballot_voters(m.votes@);
            assert(vs =~= ballot_voters(old_votes).push(voter_g)) by {
                assert(vs.len() == old_votes.len() + 1);
            }
            assert forall|a: int, b: int| 0 <= a < b < vs.len() implies vs[a]@ != vs[b]@ by {
                if b == vs.len() - 1 {
                    assert(old_votes[a].voter@ == vs[a]@);
                }
            }
            assert(m.wf());
            assert(m.votes@.subrange(0, old_votes.len() as int) =~= old_votes);
        }
        MilestoneVotingInfo {
            milestone_id,
            status,
            approval_votes: approvals as u64,
            rejection_votes: rejections as u64,
            total_participants: voters as u64,
            required_votes: required as u64,
            voting_threshold: threshold,
        }
    }
}

/// `r` and `a1` are what signing document `doc_id` of `a0` by `signer` at `now` gives.
pub open spec fn sign_outcome(
    a0: Agreement,
    a1: Agreement,
    signer: Seq<u8>,
    doc_id: Seq<char>,
    now: u64,
    r: Result<Vec<u64>, AgreementError>,
) -> bool {
    match document_position(a0, doc_id) {
        None => r == Err::<Vec<u64>, AgreementError>(AgreementError::NotFound(Missing::Document))
            && a1 == a0,
        Some(k) => if !lists_identity(a0.documents@[k].required_signers@, signer) {
            r == Err::<Vec<u64>, AgreementError>(AgreementError::Unauthorized) && a1
                == a0
        } else {
            &&& same_header(a1, a0)
            &&& a1.documents@.len() == a0.documents@.len()
            &&& forall|i: int|
                0 <= i < a0.documents@.len() && i != k ==> (#[trigger] a1.documents@[i])
                    == a0.documents@[i]
            &&& signed_by(a0.documents@[k], a1.documents@[k], signer)
            &&& a1.milestones@.len() == a0.milestones@.len()
            &&& forall|j: int|
                0 <= j < a0.milestones@.len() ==> (#[trigger] a1.milestones@[j])
                    == promoted(a0.milestones@[j], a1.documents@, now)
            &&& r matches Ok(ids) && ids@ == promoted_ids(
                a0.milestones@,
                a1.documents@,
                now,
            )
        },
    }
}

impl Agreement {
    /// Evaluates the condition of every pending milestone against the current documents
    /// and promotes those whose condition holds; returns their ids.
    pub fn promote_ready_milestones(&mut self, now: u64) -> (r: Vec<u64>)
        requires
            old(self).wf(),
        ensures
            final(self).wf(),
            same_header(*final(self), *old(self)),
            final(self).documents == old(self).documents,
            final(self).milestones@.len() == old(self).milestones@.len(),
            forall|j: int|
                0 <= j < old(self).milestones@.len() ==> (#[trigger] final(self).milestones@[j])
                    == promoted(old(self).milestones@[j], old(self).documents@, now),
            r@ == promoted_ids(old(self).milestones@, old(self).documents@, now),
    {
        let mut ready: Vec<u64> = Vec::new();
        let mut j: usize = 0;
        while j < self.milestones.len()
            invariant
                j <= self.milestones@.len(),
                self.milestones@.len() == old(self).milestones@.len(),
                old(self).wf(),
                same_header(*self, *old(self)),
                self.documents == old(self).documents,
                forall|i: int|
                    0 <= i < j ==> (#[trigger] self.milestones@[i]) == promoted(
                        old(self).milestones@[i],
                        old(self).documents@,
                        now,
                    ),
                forall|i: int|
                    j <= i < self.milestones@.len() ==> (#[trigger] self.milestones@[i])
                        == old(self).milestones@[i],
                ready@ == promoted_ids(
                    old(self).milestones@.subrange(0, j as int),
                    old(self).documents@,
                    now,
                ),
            decreases self.milestones@.len() - j,
        {
            let ghost prefix = old(self).milestones@.subrange(0, j as int + 1);
            assert(prefix.drop_last() =~= old(self).milestones@.subrange(0, j as int));
            assert(prefix.last() == old(self).milestones@[j as int]);
            if self.milestones[j].status == MilestoneStatus::Pending && check_milestone_conditions(
                &self.milestones[j].milestone_type,
                &self.documents,
                now,
            ) {
                let status = match &self.milestones[j].milestone_type {
                    MilestoneType::DocumentSignature { .. } => MilestoneStatus::Approved,
                    _ => MilestoneStatus::ReadyForVoting,
                };
                let id = self.milestones[j].id;
                self.milestones[j].status = status;
                ready.push(id);
            }
            j = j + 1;
        }
        assert(old(self).milestones@.subrange(0, j as int) =~= old(self).milestones@);
        proof {
            assert forall|i: int| 0 <= i < self.milestones@.len() implies (#[trigger] self.milestones@[i]).wf() by {
                assert(old(self).milestones@[i].wf());
            }
            assert forall|a: int, b: int| 0 <= a < b < self.milestones@.len() implies self.milestones@[a].id
                != self.milestones@[b].id by {
                assert(old(self).milestones@[a].id != old(self).milestones@[b].id);
            }
        }
        ready
    }

    /// `signer` signs document `doc_id`: the document's signers gain `signer`, its
    /// fully-signed flag is computed again, and pending milestones whose condition now
    /// holds are promoted. Returns the ids of the promoted milestones.
    pub fn sign_document(&mut self, signer: &Identity, doc_id: &String, now: u64) -> (r: Result<Vec<u64>, AgreementError>)
        requires
            old(self).wf(),
        ensures
            final(self).wf(),
            sign_outcome(*old(self), *final(self), signer@, doc_id@, now, r),
    {
        let k = match self.find_document(doc_id) {
            Some(k) => k,
            None => {
                return Err(AgreementError::NotFound(Missing::Document));
            },
        };
        if !contains_identity(&self.documents[k].required_signers, signer) {
            return Err(AgreementError::Unauthorized);
        }
        let ghost before = self.documents@[k as int];
        let doc = &mut self.documents[k];
        insert_identity(&mut doc.current_signers, signer);
        doc.is_signed_by_all = all_listed_in(&doc.required_signers, &doc.current_signers);
        assert(signed_by(before, self.documents@[k as int], signer@));
        let ready = self.promote_ready_milestones(now);
        Ok(ready)
    }
}

} // verus!
