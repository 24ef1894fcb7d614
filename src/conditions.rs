use crate::search::{first_match, lemma_first_match_at, lemma_first_match_none};
use crate::types::{DocumentRef, MilestoneType};
use vstd::prelude::*;

verus! {

/// Whether the first document with id `doc_id` is signed by all its required signers;
/// false where there is none.
pub open spec fn doc_signed(docs: Seq<DocumentRef>, doc_id: Seq<char>) -> bool {
    match first_match(docs, |d: DocumentRef| d.doc_id@ == doc_id) {
        Some(k) => docs[k].is_signed_by_all,
        None => false,
    }
}

/// Whether a release condition holds against the agreement's documents at time `now`.
pub open spec fn condition_met(t: MilestoneType, docs: Seq<DocumentRef>, now: u64) -> bool {
    match t {
        MilestoneType::DocumentSignature { required_doc_id } => doc_signed(docs, required_doc_id@),
        MilestoneType::ManualApproval => true,
        MilestoneType::TimeRelease { release_time } => now >= release_time,
        MilestoneType::MultiCondition { required_docs, min_time, .. } => {
            &&& forall|i: int|
                0 <= i < required_docs@.len() ==> doc_signed(docs, (#[trigger] required_docs@[i])@)
            &&& match min_time {
                Some(t) => now >= t,
                None => true,
            }
        },
    }
}

pub fn document_signed(docs: &Vec<DocumentRef>, doc_id: &String) -> (r: bool)
    ensures
        r == doc_signed(docs@, doc_id@),
{
    let ghost p = |d: DocumentRef| d.doc_id@ == doc_id@;
    let mut i: usize = 0;
    while i < docs.len()
        invariant
            i <= docs@.len(),
            p == (|d: DocumentRef| d.doc_id@ == doc_id@),
            forall|k: int| 0 <= k < i ==> !p(#[trigger] docs@[k]),
        decreases docs@.len() - i,
    {
        if docs[i].doc_id == *doc_id {
            proof {
                lemma_first_match_at(docs@, p, i as int);
            }
            return docs[i].is_signed_by_all;
        }
        i = i + 1;
    }
    proof {
        lemma_first_match_none(docs@, p);
    }
    false
}

/// Decides whether a milestone's release condition currently holds.
pub fn check_milestone_conditions(milestone_type: &MilestoneType, docs: &Vec<DocumentRef>, now: u64) -> (r: bool)
    ensures
        r == condition_met(*milestone_type, docs@, now),
{
    match milestone_type {
        MilestoneType::DocumentSignature { required_doc_id } => document_signed(docs, required_doc_id),
        MilestoneType::ManualApproval => true,
        MilestoneType::TimeRelease { release_time } => now >= *release_time,
        MilestoneType::MultiCondition { required_docs, min_time, .. } => {
            let mut i: usize = 0;
            while i < required_docs.len()
                invariant
                    i <= required_docs@.len(),
                    milestone_type is MultiCondition,
                    milestone_type->required_docs == *required_docs,
                    milestone_type->min_time == *min_time,
                    forall|k: int| 0 <= k < i ==> doc_signed(docs@, (#[trigger] required_docs@[k])@),
                decreases required_docs@.len() - i,
            {
                if !document_signed(docs, &required_docs[i]) {
                    assert(!doc_signed(docs@, required_docs@[i as int]@));
                    return false;
                }
                i = i + 1;
            }
            match min_time {
                Some(t) => now >= *t,
                None => true,
            }
        },
    }
}

} // verus!
