use crate::types::{Ballot, MilestoneStatus};
use vstd::prelude::*;

verus! {

/// The approvals a milestone needs: `ceil(voters * threshold / 100)`, by integer division.
pub open spec fn required_for(voters: int, threshold: int) -> int {
    (voters * threshold + 99) / 100
}

pub open spec fn approvals_of(votes: Seq<Ballot>) -> int {
    votes.filter(|b: Ballot| b.approve).len() as int
}

pub open spec fn rejections_of(votes: Seq<Ballot>) -> int {
    votes.filter(|b: Ballot| !b.approve).len() as int
}

/// Where a vote leaves a milestone: approved once the approvals reach `required`, rejected
/// once the rejections exceed `voters - required`, else still open.
pub open spec fn resolved_status(approvals: int, rejections: int, voters: int, required: int) -> MilestoneStatus {
    if approvals >= required {
        MilestoneStatus::Approved
    } else if rejections > voters - required {
        MilestoneStatus::Rejected
    } else {
        MilestoneStatus::VotingActive
    }
}

/// The number of approvals required is the ceiling of `voters * threshold / 100`,
/// and never more than the number of voters.
pub proof fn lemma_required_is_ceiling(voters: nat, threshold: nat)
    requires
        threshold <= 100,
    ensures
        required_for(voters as int, threshold as int) * 100 >= voters * threshold,
        (required_for(voters as int, threshold as int) - 1) * 100 < voters * threshold,
        0 <= required_for(voters as int, threshold as int) <= voters,
{
    let r = required_for(voters as int, threshold as int);
    let x = voters * threshold;
    assert(0 <= voters * threshold <= voters * 100) by (nonlinear_arith)
        requires
            threshold <= 100,
    ;
    assert(r * 100 <= x + 99 && r * 100 > x + 99 - 100);
}

/// A milestone is approved exactly when its approvals reach `ceil(voters * threshold / 100)`;
/// it is rejected exactly when it is not approved and even approvals from every voter who has
/// not rejected it could no longer reach that number.
pub proof fn lemma_vote_resolution(approvals: nat, rejections: nat, voters: nat, threshold: nat)
    requires
        threshold <= 100,
    ensures
        ({
            let required = required_for(voters as int, threshold as int);
            let s = resolved_status(approvals as int, rejections as int, voters as int, required);
            &&& (s == MilestoneStatus::Approved) <==> approvals * 100 >= voters * threshold
            &&& (s == MilestoneStatus::Rejected) <==> (approvals < required && voters - rejections
                < required)
            &&& (s == MilestoneStatus::VotingActive) <==> (approvals < required && voters
                - rejections >= required)
        }),
{
    lemma_required_is_ceiling(voters, threshold);
    let required = required_for(voters as int, threshold as int);
    if approvals >= required {
        assert(approvals * 100 >= required * 100) by (nonlinear_arith)
            requires
                approvals >= required,
        ;
    } else {
        assert(approvals * 100 <= (required - 1) * 100) by (nonlinear_arith)
            requires
                approvals <= required - 1,
        ;
    }
}

/// `ceil(voters * threshold / 100)`, computed without overflow.
pub fn required_votes(voters: usize, threshold: u8) -> (r: usize)
    requires
        threshold <= 100,
    ensures
        r == required_for(voters as int, threshold as int),
        r <= voters,
{
    proof {
        lemma_required_is_ceiling(voters as nat, threshold as nat);
    }
    let n = voters as u128;
    let t = threshold as u128;
    assert(n * t <= n * 100) by (nonlinear_arith)
        requires
            t <= 100,
    ;
    let r = (n * t + 99) / 100;
    r as usize
}

/// Counts the approving and the rejecting ballots.
pub fn tally(votes: &Vec<Ballot>) -> (r: (usize, usize))
    ensures
        r.0 == approvals_of(votes@),
        r.1 == rejections_of(votes@),
{
    let ghost ap = |b: Ballot| b.approve;
    let ghost rp = |b: Ballot| !b.approve;
    let mut approvals: usize = 0;
    let mut rejections: usize = 0;
    let mut i: usize = 0;
    while i < votes.len()
        invariant
            i <= votes@.len(),
            ap == (|b: Ballot| b.approve),
            rp == (|b: Ballot| !b.approve),
            approvals == votes@.subrange(0, i as int).filter(ap).len(),
            rejections == votes@.subrange(0, i as int).filter(rp).len(),
            approvals + rejections == i,
        decreases votes@.len() - i,
    {
        let ghost prefix = votes@.subrange(0, i as int);
        let ghost next = votes@.subrange(0, i as int + 1);
        assert(next.drop_last() =~= prefix);
        assert(next.last() == votes@[i as int]);
        proof {
            reveal(Seq::filter);
        }
        if votes[i].approve {
            approvals = approvals + 1;
        } else {
            rejections = rejections + 1;
        }
        i = i + 1;
    }
    assert(votes@.subrange(0, votes@.len() as int) =~= votes@);
    (approvals, rejections)
}

} // verus!
