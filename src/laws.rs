use crate::agreement::{milestone_position, vote_recorded};
use crate::escrow::Reservation;
use crate::guard::KeyView;
use crate::identity::Identity;
use crate::ledger::ICRC1TransferError;
use crate::search::{lemma_first_match_at, lemma_first_match_found};
use crate::state::{began, settled, CanisterState, ExecutionReceipt, Settlement};
use crate::types::{has_voted, Agreement, AgreementError, Milestone, MilestoneVotingInfo};
use crate::validation::{amount_sum, creation_problem, lemma_accepted_milestones};
use vstd::prelude::*;

verus! {

/// Whatever the inputs, an agreement whose inputs pass validation has milestone amounts
/// whose sum fits in a `u128`, and inputs whose sum does not fit never pass.
pub proof fn lemma_creation_total_fits(
    id: Seq<char>,
    title: Seq<char>,
    description: Seq<char>,
    participants: Seq<Identity>,
    milestones: Seq<Milestone>,
    threshold: u8,
)
    ensures
        creation_problem(id, title, description, participants, milestones, threshold) is None
            ==> amount_sum(milestones) <= u128::MAX,
        amount_sum(milestones) > u128::MAX ==> creation_problem(
            id,
            title,
            description,
            participants,
            milestones,
            threshold,
        ) is Some,
{
    lemma_accepted_milestones(milestones);
}

/// Once a voter's ballot on a milestone is recorded, the voter counts as having voted on it,
/// so every later ballot of theirs on it is refused as a duplicate vote (or, once the vote is
/// resolved, because voting has closed).
pub proof fn lemma_ballot_recorded_once(
    a0: Agreement,
    a1: Agreement,
    j: int,
    voter: Seq<u8>,
    approve: bool,
    info: MilestoneVotingInfo,
)
    requires
        0 <= j < a0.milestones@.len(),
        vote_recorded(a0, a1, j, voter, approve, info),
    ensures
        has_voted(a1.milestones@[j].votes@, voter),
        a1.milestones@[j].votes@.len() == a0.milestones@[j].votes@.len() + 1,
{
    let votes = a1.milestones@[j].votes@;
    assert(votes[votes.len() - 1].voter@ == voter);
}

/// While a milestone's payment is in flight, every other attempt to pay it is refused as a
/// duplicate operation, whoever makes it.
pub proof fn lemma_execution_in_flight_refused(s: CanisterState, caller: Seq<u8>, id: Seq<char>, milestone_id: u64)
    requires
        s.wf(),
        s.reservation_position(id, milestone_id) is Some,
    ensures
        s.execution_refusal(caller, id, milestone_id) == Some(AgreementError::DuplicateOperation),
{
    let p = |r: Reservation| r.agreement_id@ == id && r.milestone_id == milestone_id;
    lemma_first_match_found(s.reservations@, p);
    let k = s.reservation_position(id, milestone_id)->0;
    assert(s.guard.held().contains(KeyView::Execute(s.reservations@[k].agreement_id@, s.reservations@[k].milestone_id)));
}

/// The reservation that `begin_execution` made is the one a later resolution finds.
proof fn lemma_began_reservation_found(s0: CanisterState, s1: CanisterState, caller: Seq<u8>, id: Seq<char>, milestone_id: u64, st: Settlement)
    requires
        s0.wf(),
        s0.execution_refusal(caller, id, milestone_id) is None,
        began(s0, s1, id, milestone_id, st),
    ensures
        s1.reservation_position(id, milestone_id) == Some(s0.reservations@.len() as int),
        s1.reservations@[s0.reservations@.len() as int].amount == st.amount,
{
    let p = |r: Reservation| r.agreement_id@ == id && r.milestone_id == milestone_id;
    let n = s0.reservations@.len() as int;
    assert forall|k: int| 0 <= k < n implies !p(#[trigger] s1.reservations@[k]) by {
        assert(s1.reservations@[k] == s0.reservations@[k]);
        assert(s0.guard.held().contains(KeyView::Execute(s0.reservations@[k].agreement_id@, s0.reservations@[k].milestone_id)));
    }
    lemma_first_match_at(s1.reservations@, p, n);
}

/// A payment whose transfer fails leaves the agreement's balance as it was before the
/// attempt, and the milestone as it was: approved, ready to be paid again.
pub proof fn lemma_failed_settlement_restores_balance(
    s0: CanisterState,
    s1: CanisterState,
    s2: CanisterState,
    caller: Seq<u8>,
    actor: Seq<u8>,
    now: u64,
    id: Seq<char>,
    milestone_id: u64,
    st: Settlement,
    e: ICRC1TransferError,
    r: Result<ExecutionReceipt, AgreementError>,
)
    requires
        s0.wf(),
        s0.execution_refusal(caller, id, milestone_id) is None,
        began(s0, s1, id, milestone_id, st),
        settled(s1, s2, actor, now, id, milestone_id, Err(e), r),
    ensures
        s2.balance_of(id) == s0.balance_of(id),
        s2.escrow_total(id) == s0.escrow_total(id),
        s2.agreements == s0.agreements,
        r == Err::<ExecutionReceipt, AgreementError>(AgreementError::SettlementFailure(e)),
{
    lemma_began_reservation_found(s0, s1, caller, id, milestone_id, st);
}

/// A payment whose transfer succeeds takes exactly the milestone's amount from the balance,
/// and from then on every attempt to pay the milestone again is refused.
pub proof fn lemma_settlement_pays_once(
    s0: CanisterState,
    s1: CanisterState,
    s2: CanisterState,
    caller: Seq<u8>,
    actor: Seq<u8>,
    now: u64,
    id: Seq<char>,
    milestone_id: u64,
    st: Settlement,
    block: u128,
    r: Result<ExecutionReceipt, AgreementError>,
    anyone: Seq<u8>,
)
    requires
        s0.wf(),
        s0.execution_refusal(caller, id, milestone_id) is None,
        began(s0, s1, id, milestone_id, st),
        settled(s1, s2, actor, now, id, milestone_id, Ok(block), r),
    ensures
        s2.balance_of(id) == s0.balance_of(id) - st.amount,
        s2.escrow_total(id) == s0.escrow_total(id) - st.amount,
        s2.execution_refusal(anyone, id, milestone_id) is Some,
{
    lemma_began_reservation_found(s0, s1, caller, id, milestone_id, st);
    let pa = |a: Agreement| a.id@ == id;
    lemma_first_match_found(s0.agreements@, pa);
    let pos = s0.position(id)->0;
    let a0 = s1.agreements@[pos];
    let a1 = s2.agreements@[pos];
    assert forall|k: int| 0 <= k < pos implies !pa(#[trigger] s2.agreements@[k]) by {
        assert(s2.agreements@[k] == s1.agreements@[k]);
    }
    lemma_first_match_at(s2.agreements@, pa, pos);
    let pm = |m: Milestone| m.id == milestone_id;
    lemma_first_match_found(a0.milestones@, pm);
    let j = milestone_position(a0, milestone_id)->0;
    assert forall|k: int| 0 <= k < j implies !pm(#[trigger] a1.milestones@[k]) by {
        assert(a1.milestones@[k] == a0.milestones@[k]);
    }
    lemma_first_match_at(a1.milestones@, pm, j);
    assert(a1.milestones@[j].executed_at is Some);
}

} // verus!
