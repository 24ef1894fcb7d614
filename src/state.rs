use crate::agreement::{
    has_ballot_from, involves, milestone_position, same_header, sign_outcome, vote_recorded,
    voters_of,
};
use crate::escrow::{
    lemma_reserved_nonneg, lemma_reserved_push, lemma_reserved_remove, lemma_reserved_zero,
    reserved_for, reserved_total, Reservation,
};
use crate::guard::{KeyView, OperationKey, ReentrancyGuard};
use crate::identity::{
    anonymous_bytes, contains_identity, identities_distinct, identity_set, insert_identity,
    lists_identity, Identity,
};
use crate::ledger::{
    mainnet_ledger_id, principal_of_text, ICRC1TransferError, MAINNET_LEDGER_CANISTER_ID,
};
use crate::search::{
    first_match, lemma_first_match_at, lemma_first_match_found, lemma_first_match_none,
};
use crate::types::{
    has_voted, Agreement, AgreementError, AgreementStatus, DocumentRef, Event, EventKind,
    InputProblem, Milestone, MilestoneStatus, MilestoneVotingInfo, Missing,
};
use crate::validation::{
    amount_sum, byte_len, check_milestones, creation_problem, lemma_accepted_milestones,
};
use crate::voting::{approvals_of, rejections_of, required_for, required_votes, tally};
use vstd::prelude::*;

verus! {

/// Everything the orchestrator owns: the agreements, one escrow balance for each (at the
/// same position), the event log, the ledger to pay through, the admin, the operations in
/// flight and the amounts reserved for transfers in flight.
pub struct CanisterState {
    pub agreements: Vec<Agreement>,
    pub agreement_balances: Vec<u128>,
    pub events: Vec<Event>,
    pub ledger_canister_id: Identity,
    pub admin: Identity,
    pub guard: ReentrancyGuard,
    pub reservations: Vec<Reservation>,
}

/// The last event of `events` is new, after `before`, and names this agreement, milestone,
/// actor and time.
pub open spec fn logged(
    events: Seq<Event>,
    before: Seq<Event>,
    agreement_id: Seq<char>,
    milestone_id: Option<u64>,
    actor: Seq<u8>,
    now: u64,
) -> bool {
    &&& events.len() == before.len() + 1
    &&& events.subrange(0, before.len() as int) == before
    &&& events.last().agreement_id@ == agreement_id
    &&& events.last().milestone_id == milestone_id
    &&& events.last().actor@ == actor
    &&& events.last().timestamp == now
}

impl CanisterState {
    pub open spec fn position(&self, id: Seq<char>) -> Option<int> {
        first_match(self.agreements@, |a: Agreement| a.id@ == id)
    }

    /// The escrow balance of agreement `id`; zero where there is no such agreement.
    pub open spec fn balance_of(&self, id: Seq<char>) -> int {
        match self.position(id) {
            Some(i) => self.agreement_balances@[i] as int,
            None => 0,
        }
    }

    /// What the escrow holds for agreement `id`: its balance and its reserved amounts.
    pub open spec fn escrow_total(&self, id: Seq<char>) -> int {
        self.balance_of(id) + reserved_for(self.reservations@, id)
    }

    pub open spec fn reservation_keys_distinct(&self) -> bool {
        forall|a: int, b: int|
            0 <= a < b < self.reservations@.len() ==> !(self.reservations@[a].agreement_id@
                == self.reservations@[b].agreement_id@ && self.reservations@[a].milestone_id
                == self.reservations@[b].milestone_id)
    }

    pub open spec fn wf(&self) -> bool {
        &&& self.agreement_balances@.len() == self.agreements@.len()
        &&& forall|i: int, j: int|
            0 <= i < j < self.agreements@.len() ==> self.agreements@[i].id@
                != self.agreements@[j].id@
        &&& forall|i: int|
            0 <= i < self.agreements@.len() ==> (#[trigger] self.agreements@[i]).wf()
                && self.agreements@[i].participants@.len() < usize::MAX
        &&& forall|i: int|
            0 <= i < self.agreements@.len() ==> self.agreement_balances@[i] + reserved_for(
                self.reservations@,
                (#[trigger] self.agreements@[i]).id@,
            ) <= u128::MAX
        &&& self.guard.wf()
        &&& self.reservation_keys_distinct()
        &&& forall|k: int|
            0 <= k < self.reservations@.len() ==> self.position(
                (#[trigger] self.reservations@[k]).agreement_id@,
            ) is Some
        &&& forall|k: int|
            0 <= k < self.reservations@.len() ==> self.guard.held().contains(
                KeyView::Execute(
                    (#[trigger] self.reservations@[k]).agreement_id@,
                    self.reservations@[k].milestone_id,
                ),
            )
    }

    /// An empty orchestrator run by `admin`, paying through `ledger_canister_id`.
    pub fn new(admin: Identity, ledger_canister_id: Identity) -> (r: CanisterState)
        ensures
            r.wf(),
            r.agreements@.len() == 0,
            r.events@.len() == 0,
            r.reservations@.len() == 0,
            r.admin == admin,
            r.ledger_canister_id == ledger_canister_id,
            r.guard.held() == Set::<KeyView>::empty(),
    {
        CanisterState {
            agreements: Vec::new(),
            agreement_balances: Vec::new(),
            events: Vec::new(),
            ledger_canister_id,
            admin,
            guard: ReentrancyGuard::new(),
            reservations: Vec::new(),
        }
    }

    pub fn find_agreement(&self, id: &String) -> (r: Option<usize>)
        ensures
            match r {
                Some(i) => self.position(id@) == Some(i as int) && i < self.agreements@.len()
                    && self.agreements@[i as int].id@ == id@,
                None => self.position(id@) is None,
            },
    {
        let ghost p = |a: Agreement| a.id@ == id@;
        let mut i: usize = 0;
        while i < self.agreements.len()
            invariant
                i <= self.agreements@.len(),
                p == (|a: Agreement| a.id@ == id@),
                forall|k: int| 0 <= k < i ==> !p(#[trigger] self.agreements@[k]),
            decreases self.agreements@.len() - i,
        {
            if self.agreements[i].id == *id {
                proof {
                    lemma_first_match_at(self.agreements@, p, i as int);
                }
                return Some(i);
            }
            i = i + 1;
        }
        proof {
            lemma_first_match_none(self.agreements@, p);
        }
        None
    }

    pub fn get_agreement(&self, agreement_id: &String) -> (r: Option<&Agreement>)
        ensures
            match self.position(agreement_id@) {
                Some(i) => r == Some(&self.agreements@[i]),
                None => r is None,
            },
    {
        match self.find_agreement(agreement_id) {
            Some(i) => Some(&self.agreements[i]),
            None => None,
        }
    }

    /// The escrow balance of an agreement; zero where there is none.
    pub fn get_agreement_balance(&self, agreement_id: &String) -> (r: u128)
        requires
            self.wf(),
        ensures
            r == self.balance_of(agreement_id@),
    {
        match self.find_agreement(agreement_id) {
            Some(i) => self.agreement_balances[i],
            None => 0,
        }
    }

    pub fn list_events(&self) -> (r: &Vec<Event>)
        ensures
            r == &self.events,
    {
        &self.events
    }

    /// Adds `amount` to the escrow balance of agreement `agreement_id`, on behalf of its
    /// creator or one of its participants. Refused as an overflow where the agreement's escrow
    /// total, its balance and the amounts reserved for payments in flight, would pass
    /// `u128::MAX`, so that a failed payment can always be given back.
    pub fn fund_agreement(&mut self, caller: &Identity, now: u64, agreement_id: String, amount: u128) -> (r: Result<u128, AgreementError>)
        requires
            old(self).wf(),
        ensures
            final(self).wf(),
            final(self).guard.held() == old(self).guard.held(),
            final(self).reservations == old(self).reservations,
            r is Err ==> *final(self) == *old(self),
            amount == 0 ==> r == Err::<u128, AgreementError>(AgreementError::InvalidInput(InputProblem::ZeroAmount)),
            amount != 0 && amount > u128::MAX / 2 ==> r == Err::<u128, AgreementError>(AgreementError::InvalidInput(InputProblem::AmountTooLarge)),
            ({
                let key = KeyView::Fund(agreement_id@);
                let pos = old(self).position(agreement_id@);
                0 < amount <= u128::MAX / 2 ==> if old(self).guard.held().contains(key) {
                    r == Err::<u128, AgreementError>(AgreementError::DuplicateOperation)
                } else if pos is None {
                    r == Err::<u128, AgreementError>(AgreementError::NotFound(Missing::Agreement))
                } else if !involves(old(self).agreements@[pos->0], caller@) {
                    r == Err::<u128, AgreementError>(AgreementError::Unauthorized)
                } else if old(self).escrow_total(agreement_id@) + amount > u128::MAX {
                    r == Err::<u128, AgreementError>(AgreementError::Overflow)
                } else {
                    &&& r == Ok::<u128, AgreementError>((old(self).balance_of(agreement_id@) + amount) as u128)
                    &&& final(self).agreements == old(self).agreements
                    &&& final(self).agreement_balances@ == old(self).agreement_balances@.update(
                        pos->0,
                        (old(self).balance_of(agreement_id@) + amount) as u128,
                    )
                    &&& final(self).escrow_total(agreement_id@) == old(self).escrow_total(agreement_id@) + amount
                    &&& logged(final(self).events@, old(self).events@, agreement_id@, None, caller@, now)
                    &&& final(self).events@.last().event_type == EventKind::FundAgreement { amount }
                }
            }),
    {
        if amount == 0 {
            return Err(AgreementError::InvalidInput(InputProblem::ZeroAmount));
        }
        if amount > u128::MAX / 2 {
            return Err(AgreementError::InvalidInput(InputProblem::AmountTooLarge));
        }
        // Funding runs to completion under the exclusive borrow of the state, so the key
        // only has to be free; it never needs to stay held.
        let key = OperationKey::Fund { agreement_id: agreement_id.clone() };
        if self.guard.is_held(&key) {
            return Err(AgreementError::DuplicateOperation);
        }
        self.apply_funding(caller, now, &agreement_id, amount)
    }

    fn apply_funding(&mut self, caller: &Identity, now: u64, agreement_id: &String, amount: u128) -> (r: Result<u128, AgreementError>)
        requires
            old(self).wf(),
        ensures
            final(self).guard == old(self).guard,
            final(self).reservations == old(self).reservations,
            final(self).ledger_canister_id == old(self).ledger_canister_id,
            final(self).admin == old(self).admin,
            r is Err ==> *final(self) == *old(self),
            ({
                let pos = old(self).position(agreement_id@);
                if pos is None {
                    r == Err::<u128, AgreementError>(AgreementError::NotFound(Missing::Agreement))
                } else if !involves(old(self).agreements@[pos->0], caller@) {
                    r == Err::<u128, AgreementError>(AgreementError::Unauthorized)
                } else if old(self).escrow_total(agreement_id@) + amount > u128::MAX {
                    r == Err::<u128, AgreementError>(AgreementError::Overflow)
                } else {
                    &&& final(self).wf()
                    &&& r == Ok::<u128, AgreementError>((old(self).balance_of(agreement_id@) + amount) as u128)
                    &&& final(self).agreements == old(self).agreements
                    &&& final(self).agreement_balances@ == old(self).agreement_balances@.update(
                        pos->0,
                        (old(self).balance_of(agreement_id@) + amount) as u128,
                    )
                    &&& final(self).escrow_total(agreement_id@) == old(self).escrow_total(agreement_id@) + amount
                    &&& logged(final(self).events@, old(self).events@, agreement_id@, None, caller@, now)
                    &&& final(self).events@.last().event_type == EventKind::FundAgreement { amount }
                }
            }),
    {
        let i = match self.find_agreement(agreement_id) {
            Some(i) => i,
            None => {
                return Err(AgreementError::NotFound(Missing::Agreement));
            },
        };
        if !self.agreements[i].involves(caller) {
            return Err(AgreementError::Unauthorized);
        }
        proof {
            assert(self.agreements@[i as int].id@ == agreement_id@);
        }
        let reserved = reserved_total(&self.reservations, agreement_id);
        let balance = self.agreement_balances[i];
        let new_balance = match balance.checked_add(amount) {
            Some(b) => b,
            None => {
                return Err(AgreementError::Overflow);
            },
        };
        if new_balance.checked_add(reserved).is_none() {
            return Err(AgreementError::Overflow);
        }
        let ghost before = *self;
        self.agreement_balances.set(i, new_balance);
        self.events.push(
            Event {
                event_type: EventKind::FundAgreement { amount },
                agreement_id: agreement_id.clone(),
                milestone_id: None,
                document_id: None,
                actor: caller.clone(),
                timestamp: now,
            },
        );
        proof {
            assert(self.events@.subrange(0, before.events@.len() as int) =~= before.events@);
            assert forall|j: int| 0 <= j < self.agreements@.len() implies self.agreement_balances@[j]
                + reserved_for(self.reservations@, (#[trigger] self.agreements@[j]).id@) <= u128::MAX by {
                if j != i {
                    assert(self.agreement_balances@[j] == before.agreement_balances@[j]);
                }
            }
        }
        Ok(new_balance)
    }

    /// Records the caller's ballot on a milestone and resolves the vote.
    pub fn vote_milestone(&mut self, caller: &Identity, now: u64, agreement_id: &String, milestone_id: u64, approve: bool) -> (r: Result<MilestoneVotingInfo, AgreementError>)
        requires
            old(self).wf(),
        ensures
            final(self).wf(),
            r is Err ==> *final(self) == *old(self),
            ({
                let pos = old(self).position(agreement_id@);
                let a0 = old(self).agreements@[pos->0];
                let mpos = milestone_position(a0, milestone_id);
                let m0 = a0.milestones@[mpos->0];
                if old(self).guard.held().contains(KeyView::Vote(agreement_id@, milestone_id, caller@)) {
                    r == Err::<MilestoneVotingInfo, AgreementError>(AgreementError::DuplicateOperation)
                } else if pos is None {
                    r == Err::<MilestoneVotingInfo, AgreementError>(AgreementError::NotFound(Missing::Agreement))
                } else if !involves(a0, caller@) {
                    r == Err::<MilestoneVotingInfo, AgreementError>(AgreementError::Unauthorized)
                } else if mpos is None {
                    r == Err::<MilestoneVotingInfo, AgreementError>(AgreementError::NotFound(Missing::Milestone))
                } else if m0.status != MilestoneStatus::ReadyForVoting && m0.status != MilestoneStatus::VotingActive {
                    r == Err::<MilestoneVotingInfo, AgreementError>(AgreementError::InvalidState)
                } else if has_voted(m0.votes@, caller@) {
                    r == Err::<MilestoneVotingInfo, AgreementError>(AgreementError::DuplicateVote)
                } else {
                    &&& r matches Ok(info) && vote_recorded(a0, final(self).agreements@[pos->0], mpos->0, caller@, approve, info)
                    &&& final(self).agreements@.len() == old(self).agreements@.len()
                    &&& forall|j: int| 0 <= j < old(self).agreements@.len() && j != pos->0
                        ==> (#[trigger] final(self).agreements@[j]) == old(self).agreements@[j]
                    &&& final(self).agreement_balances == old(self).agreement_balances
                    &&& final(self).guard == old(self).guard
                    &&& final(self).reservations == old(self).reservations
                    &&& logged(final(self).events@, old(self).events@, agreement_id@, Some(milestone_id), caller@, now)
                    &&& final(self).events@.last().event_type == EventKind::VoteMilestone { approve }
                }
            }),
    {
        // A vote runs to completion under the exclusive borrow of the state, so its key
        // only has to be free; it never needs to stay held.
        let key = OperationKey::Vote { agreement_id: agreement_id.clone(), milestone_id, voter: caller.clone() };
        if self.guard.is_held(&key) {
            return Err(AgreementError::DuplicateOperation);
        }
        let i = match self.find_agreement(agreement_id) {
            Some(i) => i,
            None => {
                return Err(AgreementError::NotFound(Missing::Agreement));
            },
        };
        if !self.agreements[i].involves(caller) {
            return Err(AgreementError::Unauthorized);
        }
        let j = match self.agreements[i].find_milestone(milestone_id) {
            Some(j) => j,
            None => {
                return Err(AgreementError::NotFound(Missing::Milestone));
            },
        };
        let status = self.agreements[i].milestones[j].status;
        if status != MilestoneStatus::ReadyForVoting && status != MilestoneStatus::VotingActive {
            return Err(AgreementError::InvalidState);
        }
        if has_ballot_from(&self.agreements[i].milestones[j].votes, caller) {
            return Err(AgreementError::DuplicateVote);
        }
        let ghost s0 = *self;
        let info = self.agreements[i].cast_vote(j, caller.clone(), approve);
        proof {
            lemma_replace_agreement(s0, *self, i as int);
        }
        let ghost s1 = *self;
        self.events.push(
            Event {
                event_type: EventKind::VoteMilestone { approve },
                agreement_id: agreement_id.clone(),
                milestone_id: Some(milestone_id),
                document_id: None,
                actor: caller.clone(),
                timestamp: now,
            },
        );
        proof {
            assert(self.events@.subrange(0, s1.events@.len() as int) =~= s1.events@);
        }
        Ok(info)
    }

    /// The caller, who must take part in the agreement or be the admin, signs one of its
    /// documents; pending milestones whose condition now holds are promoted. Returns the ids
    /// of the promoted milestones.
    #[verifier::rlimit(80)]
    pub fn sign_document(&mut self, caller: &Identity, now: u64, agreement_id: &String, doc_id: &String) -> (r: Result<Vec<u64>, AgreementError>)
        requires
            old(self).wf(),
        ensures
            final(self).wf(),
            r is Err ==> *final(self) == *old(self),
            ({
                let pos = old(self).position(agreement_id@);
                let a0 = old(self).agreements@[pos->0];
                if pos is None || !(involves(a0, caller@) || old(self).admin@ == caller@) {
                    r == Err::<Vec<u64>, AgreementError>(AgreementError::Unauthorized)
                } else {
                    &&& sign_outcome(a0, final(self).agreements@[pos->0], caller@, doc_id@, now, r)
                    &&& final(self).agreements@.len() == old(self).agreements@.len()
                    &&& forall|j: int| 0 <= j < old(self).agreements@.len() && j != pos->0
                        ==> (#[trigger] final(self).agreements@[j]) == old(self).agreements@[j]
                    &&& final(self).agreement_balances == old(self).agreement_balances
                    &&& final(self).guard == old(self).guard
                    &&& final(self).reservations == old(self).reservations
                    &&& r is Ok ==> {
                        &&& logged(final(self).events@, old(self).events@, agreement_id@, None, caller@, now)
                        &&& final(self).events@.last().document_id matches Some(d) && d@ == doc_id@
                        &&& final(self).events@.last().event_type is SignDocument
                    }
                }
            }),
    {
        let i = match self.find_agreement(agreement_id) {
            Some(i) => i,
            None => {
                return Err(AgreementError::Unauthorized);
            },
        };
        if !(self.agreements[i].involves(caller) || self.admin.same_as(caller)) {
            return Err(AgreementError::Unauthorized);
        }
        let k = match self.agreements[i].find_document(doc_id) {
            Some(k) => k,
            None => {
                return Err(AgreementError::NotFound(Missing::Document));
            },
        };
        if !contains_identity(&self.agreements[i].documents[k].required_signers, caller) {
            return Err(AgreementError::Unauthorized);
        }
        let title = self.agreements[i].documents[k].title.clone();
        let ghost s0 = *self;
        let result = self.agreements[i].sign_document(caller, doc_id, now);
        assert(result is Ok);
        match result {
            Ok(ready) => {
                proof {
                    lemma_replace_agreement(s0, *self, i as int);
                }
                let ghost s1 = *self;
                self.events.push(
                    Event {
                        event_type: EventKind::SignDocument { title },
                        agreement_id: agreement_id.clone(),
                        milestone_id: None,
                        document_id: Some(doc_id.clone()),
                        actor: caller.clone(),
                        timestamp: now,
                    },
                );
                proof {
                    assert(self.events@.subrange(0, s1.events@.len() as int) =~= s1.events@);
                }
                Ok(ready)
            },
            Err(e) => Err(e),
        }
    }

    /// The agreement's creator or the admin adds a participant.
    pub fn add_participant(&mut self, caller: &Identity, now: u64, agreement_id: &String, participant: Identity) -> (r: Result<(), AgreementError>)
        requires
            old(self).wf(),
        ensures
            final(self).wf(),
            r is Err ==> *final(self) == *old(self),
            ({
                let pos = old(self).position(agreement_id@);
                let a0 = old(self).agreements@[pos->0];
                if pos is None {
                    r == Err::<(), AgreementError>(AgreementError::NotFound(Missing::Agreement))
                } else if a0.creator@ != caller@ && old(self).admin@ != caller@ {
                    r == Err::<(), AgreementError>(AgreementError::Unauthorized)
                } else if participant@ == anonymous_bytes() {
                    r == Err::<(), AgreementError>(AgreementError::InvalidInput(InputProblem::AnonymousParticipant))
                } else if lists_identity(a0.participants@, participant@) {
                    r == Err::<(), AgreementError>(AgreementError::AlreadyExists)
                } else if a0.participants@.len() + 1 >= usize::MAX {
                    r == Err::<(), AgreementError>(AgreementError::Overflow)
                } else {
                    let a1 = final(self).agreements@[pos->0];
                    &&& r is Ok
                    &&& a1 == Agreement { participants: a1.participants, ..a0 }
                    &&& identity_set(a1.participants@) == identity_set(a0.participants@).insert(participant@)
                    &&& final(self).agreements@.len() == old(self).agreements@.len()
                    &&& forall|j: int| 0 <= j < old(self).agreements@.len() && j != pos->0
                        ==> (#[trigger] final(self).agreements@[j]) == old(self).agreements@[j]
                    &&& final(self).agreement_balances == old(self).agreement_balances
                    &&& final(self).guard == old(self).guard
                    &&& final(self).reservations == old(self).reservations
                    &&& logged(final(self).events@, old(self).events@, agreement_id@, None, caller@, now)
                    &&& final(self).events@.last().event_type matches EventKind::AddParticipant { participant: p } && p@ == participant@
                }
            }),
    {
        let i = match self.find_agreement(agreement_id) {
            Some(i) => i,
            None => {
                return Err(AgreementError::NotFound(Missing::Agreement));
            },
        };
        if !self.agreements[i].creator.same_as(caller) && !self.admin.same_as(caller) {
            return Err(AgreementError::Unauthorized);
        }
        if participant.is_anonymous() {
            return Err(AgreementError::InvalidInput(InputProblem::AnonymousParticipant));
        }
        if contains_identity(&self.agreements[i].participants, &participant) {
            return Err(AgreementError::AlreadyExists);
        }
        if self.agreements[i].participants.len() >= usize::MAX - 1 {
            return Err(AgreementError::Overflow);
        }
        let ghost s0 = *self;
        let a = &mut self.agreements[i];
        insert_identity(&mut a.participants, &participant);
        proof {
            let ps = self.agreements@[i as int].participants@;
            let ps0 = s0.agreements@[i as int].participants@;
            assert forall|k: int| 0 <= k < ps.len() implies (#[trigger] ps[k])@ != anonymous_bytes() by {
                if k < ps0.len() {
                    assert(ps[k] == ps0[k]);
                }
            }
            lemma_replace_agreement(s0, *self, i as int);
        }
        let ghost s1 = *self;
        self.events.push(
            Event {
                event_type: EventKind::AddParticipant { participant },
                agreement_id: agreement_id.clone(),
                milestone_id: None,
                document_id: None,
                actor: caller.clone(),
                timestamp: now,
            },
        );
        proof {
            assert(self.events@.subrange(0, s1.events@.len() as int) =~= s1.events@);
        }
        Ok(())
    }

    /// Validates and stores a new agreement created by `caller`; returns its number of
    /// milestones. The milestones are stored ready for voting, with no ballots and no
    /// completion or execution time.
    #[verifier::rlimit(80)]
    pub fn create_agreement(
        &mut self,
        caller: &Identity,
        now: u64,
        id: String,
        title: String,
        description: String,
        participants: Vec<Identity>,
        documents: Vec<DocumentRef>,
        milestones: Vec<Milestone>,
        voting_threshold: u8,
    ) -> (r: Result<usize, AgreementError>)
        requires
            old(self).wf(),
        ensures
            final(self).wf(),
            r is Err ==> *final(self) == *old(self),
            match creation_problem(id@, title@, description@, participants@, milestones@, voting_threshold) {
                Some(p) => r == Err::<usize, AgreementError>(AgreementError::InvalidInput(p)),
                None => if old(self).position(id@) is Some {
                    r == Err::<usize, AgreementError>(AgreementError::InvalidInput(InputProblem::AgreementIdTaken))
                } else if exists|k: int| 0 <= k < participants@.len() && (#[trigger] participants@[k])@ == anonymous_bytes() {
                    r == Err::<usize, AgreementError>(AgreementError::InvalidInput(InputProblem::AnonymousParticipant))
                } else if caller@ == anonymous_bytes() {
                    r == Err::<usize, AgreementError>(AgreementError::InvalidInput(InputProblem::AnonymousCaller))
                } else {
                    &&& r == Ok::<usize, AgreementError>(milestones@.len() as usize)
                    &&& amount_sum(milestones@) <= u128::MAX
                    &&& final(self).agreements@.len() == old(self).agreements@.len() + 1
                    &&& final(self).agreements@.subrange(0, old(self).agreements@.len() as int) == old(self).agreements@
                    &&& created(final(self).agreements@.last(), id, title, description, caller@, participants@,
                        documents, milestones@, voting_threshold, now)
                    &&& final(self).agreement_balances@ == old(self).agreement_balances@.push(0)
                    &&& final(self).guard == old(self).guard
                    &&& final(self).reservations == old(self).reservations
                    &&& final(self).admin == old(self).admin
                    &&& final(self).ledger_canister_id == old(self).ledger_canister_id
                    &&& logged(final(self).events@, old(self).events@, id@, None, caller@, now)
                    &&& final(self).events@.last().event_type == EventKind::CreateAgreement {
                        milestone_count: milestones@.len() as u64,
                        total_amount: amount_sum(milestones@) as u128,
                    }
                }
            },
    {
        if id.as_str().is_empty() || title.as_str().is_empty() {
            return Err(AgreementError::InvalidInput(InputProblem::EmptyIdOrTitle));
        }
        let id_len = id.as_str().as_bytes().len();
        assert(id_len == byte_len(id@));
        if id_len > 256 {
            return Err(AgreementError::InvalidInput(InputProblem::IdTooLong));
        }
        let title_len = title.as_str().as_bytes().len();
        assert(title_len == byte_len(title@));
        if title_len > 256 {
            return Err(AgreementError::InvalidInput(InputProblem::TitleTooLong));
        }
        let description_len = description.as_str().as_bytes().len();
        assert(description_len == byte_len(description@));
        if description_len > 1024 {
            return Err(AgreementError::InvalidInput(InputProblem::DescriptionTooLong));
        }
        if voting_threshold < 50 || voting_threshold > 100 {
            return Err(AgreementError::InvalidInput(InputProblem::ThresholdOutOfRange));
        }
        if milestones.len() == 0 {
            return Err(AgreementError::InvalidInput(InputProblem::NoMilestones));
        }
        if milestones.len() > 100 {
            return Err(AgreementError::InvalidInput(InputProblem::TooManyMilestones));
        }
        if participants.len() > 50 {
            return Err(AgreementError::InvalidInput(InputProblem::TooManyParticipants));
        }
        let total = match check_milestones(&milestones) {
            Ok(t) => t,
            Err(p) => {
                return Err(AgreementError::InvalidInput(p));
            },
        };
        proof {
            lemma_accepted_milestones(milestones@);
        }
        if self.find_agreement(&id).is_some() {
            return Err(AgreementError::InvalidInput(InputProblem::AgreementIdTaken));
        }
        let mut participant_set: Vec<Identity> = Vec::new();
        let mut k: usize = 0;
        while k < participants.len()
            invariant
                *self == *old(self),
                old(self).wf(),
                creation_problem(id@, title@, description@, participants@, milestones@, voting_threshold) is None,
                old(self).position(id@) is None,
                k <= participants@.len() <= 50,
                participant_set@.len() <= k,
                identities_distinct(participant_set@),
                identity_set(participant_set@) == identity_set(participants@.subrange(0, k as int)),
                forall|q: int| 0 <= q < k ==> (#[trigger] participants@[q])@ != anonymous_bytes(),
                forall|q: int| 0 <= q < participant_set@.len() ==> (#[trigger] participant_set@[q])@ != anonymous_bytes(),
            decreases participants@.len() - k,
        {
            if participants[k].is_anonymous() {
                return Err(AgreementError::InvalidInput(InputProblem::AnonymousParticipant));
            }
            let ghost before = participant_set@;
            insert_identity(&mut participant_set, &participants[k]);
            proof {
                assert(identity_set(participants@.subrange(0, k as int + 1)) =~= identity_set(
                    participants@.subrange(0, k as int),
                ).insert(participants@[k as int]@)) by {
                    let s1 = participants@.subrange(0, k as int + 1);
                    let s0 = participants@.subrange(0, k as int);
                    assert forall|b: Seq<u8>| identity_set(s1).contains(b) implies identity_set(s0).insert(participants@[k as int]@).contains(b) by {
                        let q = choose|q: int| 0 <= q < s1.len() && s1[q]@ == b;
                        if q < k {
                            assert(s0[q] == s1[q]);
                        }
                    }
                    assert forall|b: Seq<u8>| identity_set(s0).insert(participants@[k as int]@).contains(b) implies identity_set(s1).contains(b) by {
                        if b != participants@[k as int]@ {
                            let q = choose|q: int| 0 <= q < s0.len() && s0[q]@ == b;
                            assert(s1[q] == s0[q]);
                        } else {
                            assert(s1[k as int] == participants@[k as int]);
                        }
                    }
                }
                assert forall|q: int| 0 <= q < participant_set@.len() implies (#[trigger] participant_set@[q])@ != anonymous_bytes() by {
                    if q < before.len() {
                        assert(participant_set@[q] == before[q]);
                    }
                }
            }
            k = k + 1;
        }
        assert(participants@.subrange(0, participants@.len() as int) =~= participants@);
        if caller.is_anonymous() {
            return Err(AgreementError::InvalidInput(InputProblem::AnonymousCaller));
        }
        let count = milestones.len();
        let mut milestones = milestones;
        let ghost given = milestones@;
        let mut j: usize = 0;
        while j < milestones.len()
            invariant
                j <= milestones@.len(),
                milestones@.len() == given.len(),
                forall|q: int| 0 <= q < j ==> normalized(given[q], #[trigger] milestones@[q], now),
                forall|q: int| j <= q < milestones@.len() ==> (#[trigger] milestones@[q]) == given[q],
            decreases milestones@.len() - j,
        {
            let m = &mut milestones[j];
            m.executed_at = None;
            m.created_at = now;
            m.completed_at = None;
            m.votes = Vec::new();
            m.status = MilestoneStatus::ReadyForVoting;
            j = j + 1;
        }
        let agreement = Agreement {
            id: id.clone(),
            title,
            description,
            creator: caller.clone(),
            participants: participant_set,
            documents,
            milestones,
            voting_threshold,
            status: AgreementStatus::Active,
            created_at: now,
        };
        proof {
            assert forall|a: int, b: int| 0 <= a < b < agreement.milestones@.len() implies agreement.milestones@[a].id
                != agreement.milestones@[b].id by {
                assert(normalized(given[a], agreement.milestones@[a], now));
                assert(normalized(given[b], agreement.milestones@[b], now));
            }
            assert forall|q: int| 0 <= q < agreement.milestones@.len() implies (#[trigger] agreement.milestones@[q]).wf() by {
                assert(normalized(given[q], agreement.milestones@[q], now));
            }
            assert(agreement.wf());
        }
        let ghost s0 = *self;
        self.agreements.push(agreement);
        self.agreement_balances.push(0);
        self.events.push(
            Event {
                event_type: EventKind::CreateAgreement { milestone_count: count as u64, total_amount: total },
                agreement_id: id,
                milestone_id: None,
                document_id: None,
                actor: caller.clone(),
                timestamp: now,
            },
        );
        proof {
            let n = s0.agreements@.len() as int;
            assert(self.events@.subrange(0, s0.events@.len() as int) =~= s0.events@);
            assert(self.agreements@.subrange(0, n) =~= s0.agreements@);
            lemma_push_agreement(s0, *self);
        }
        Ok(count)
    }
}

impl CanisterState {
    /// The agreements that `caller` created or takes part in, in the order they were created.
    pub fn get_my_agreements(&self, caller: &Identity) -> (r: Vec<&Agreement>)
        ensures
            r@.len() == self.agreements@.filter(|a: Agreement| involves(a, caller@)).len(),
            forall|k: int|
                0 <= k < r@.len() ==> *r@[k] == self.agreements@.filter(
                    |a: Agreement| involves(a, caller@),
                )[k],
    {
        let ghost p = |a: Agreement| involves(a, caller@);
        let mut mine: Vec<&Agreement> = Vec::new();
        let mut i: usize = 0;
        while i < self.agreements.len()
            invariant
                i <= self.agreements@.len(),
                p == (|a: Agreement| involves(a, caller@)),
                mine@.len() == self.agreements@.subrange(0, i as int).filter(p).len(),
                forall|k: int|
                    0 <= k < mine@.len() ==> *mine@[k] == self.agreements@.subrange(0, i as int).filter(p)[k],
            decreases self.agreements@.len() - i,
        {
            let ghost prefix = self.agreements@.subrange(0, i as int + 1);
            assert(prefix.drop_last() =~= self.agreements@.subrange(0, i as int));
            assert(prefix.last() == self.agreements@[i as int]);
            proof {
                reveal(Seq::filter);
            }
            if self.agreements[i].involves(caller) {
                mine.push(&self.agreements[i]);
            }
            i = i + 1;
        }
        assert(self.agreements@.subrange(0, i as int) =~= self.agreements@);
        mine
    }

    /// The tally of a milestone's vote, without voting.
    pub fn get_milestone_voting_status(&self, agreement_id: &String, milestone_id: u64) -> (r: Result<MilestoneVotingInfo, AgreementError>)
        requires
            self.wf(),
        ensures
            ({
                let pos = self.position(agreement_id@);
                let a = self.agreements@[pos->0];
                let mpos = milestone_position(a, milestone_id);
                let m = a.milestones@[mpos->0];
                let n = voters_of(a);
                let required = required_for(n, a.voting_threshold as int);
                if pos is None {
                    r == Err::<MilestoneVotingInfo, AgreementError>(AgreementError::NotFound(Missing::Agreement))
                } else if mpos is None {
                    r == Err::<MilestoneVotingInfo, AgreementError>(AgreementError::NotFound(Missing::Milestone))
                } else {
                    r == Ok::<MilestoneVotingInfo, AgreementError>(MilestoneVotingInfo {
                        milestone_id,
                        status: m.status,
                        approval_votes: approvals_of(m.votes@) as u64,
                        rejection_votes: rejections_of(m.votes@) as u64,
                        total_participants: n as u64,
                        required_votes: required as u64,
                        voting_threshold: a.voting_threshold,
                    })
                }
            }),
    {
        let i = match self.find_agreement(agreement_id) {
            Some(i) => i,
            None => {
                return Err(AgreementError::NotFound(Missing::Agreement));
            },
        };
        let a = &self.agreements[i];
        let j = match a.find_milestone(milestone_id) {
            Some(j) => j,
            None => {
                return Err(AgreementError::NotFound(Missing::Milestone));
            },
        };
        let voters = a.voter_count();
        let required = required_votes(voters, a.voting_threshold);
        let (approvals, rejections) = tally(&a.milestones[j].votes);
        Ok(
            MilestoneVotingInfo {
                milestone_id,
                status: a.milestones[j].status,
                approval_votes: approvals as u64,
                rejection_votes: rejections as u64,
                total_participants: voters as u64,
                required_votes: required as u64,
                voting_threshold: a.voting_threshold,
            },
        )
    }

    /// Whether `who` created or takes part in agreement `agreement_id`, or is the admin.
    pub fn is_participant(&self, agreement_id: &String, who: &Identity) -> (r: bool)
        ensures
            r == (self.position(agreement_id@) matches Some(i) && (involves(self.agreements@[i], who@)
                || self.admin@ == who@)),
    {
        match self.find_agreement(agreement_id) {
            Some(i) => self.agreements[i].involves(who) || self.admin.same_as(who),
            None => false,
        }
    }

    /// The state a fresh orchestrator starts from: run by `admin`, paying through
    /// `ledger_canister_id`, or through the mainnet ledger where that is the anonymous
    /// principal.
    pub fn init(admin: Identity, ledger_canister_id: Identity) -> (r: CanisterState)
        ensures
            r.wf(),
            r.agreements@.len() == 0,
            r.events@.len() == 0,
            r.reservations@.len() == 0,
            r.admin == admin,
            r.guard.held() == Set::<KeyView>::empty(),
            ledger_canister_id@ != anonymous_bytes() ==> r.ledger_canister_id == ledger_canister_id,
            ledger_canister_id@ == anonymous_bytes() ==> match principal_of_text(MAINNET_LEDGER_CANISTER_ID@) {
                Some(b) => r.ledger_canister_id@ == b,
                None => r.ledger_canister_id == ledger_canister_id,
            },
    {
        if ledger_canister_id.is_anonymous() {
            match mainnet_ledger_id() {
                Some(mainnet) => CanisterState::new(admin, mainnet),
                None => CanisterState::new(admin, ledger_canister_id),
            }
        } else {
            CanisterState::new(admin, ledger_canister_id)
        }
    }

    /// The admin points the orchestrator at the mainnet ledger.
    pub fn use_mainnet_ledger(&mut self, caller: &Identity) -> (r: Result<(), AgreementError>)
        requires
            old(self).wf(),
        ensures
            final(self).wf(),
            r is Err ==> *final(self) == *old(self),
            principal_of_text(MAINNET_LEDGER_CANISTER_ID@) is None ==> r == Err::<(), AgreementError>(
                AgreementError::InvalidInput(InputProblem::MalformedPrincipal),
            ),
            principal_of_text(MAINNET_LEDGER_CANISTER_ID@) matches Some(b) ==> if caller@ != old(self).admin@ {
                r == Err::<(), AgreementError>(AgreementError::Unauthorized)
            } else {
                &&& r is Ok
                &&& final(self).ledger_canister_id@ == b
                &&& *final(self) == (CanisterState { ledger_canister_id: final(self).ledger_canister_id, ..*old(self) })
            },
    {
        let mainnet = match mainnet_ledger_id() {
            Some(id) => id,
            None => {
                return Err(AgreementError::InvalidInput(InputProblem::MalformedPrincipal));
            },
        };
        if !self.admin.same_as(caller) {
            return Err(AgreementError::Unauthorized);
        }
        self.ledger_canister_id = mainnet;
        Ok(())
    }

    pub fn get_ledger_canister_id(&self) -> (r: &Identity)
        ensures
            r == &self.ledger_canister_id,
    {
        &self.ledger_canister_id
    }

    /// The admin points the orchestrator at another ledger.
    pub fn set_ledger_canister_id(&mut self, caller: &Identity, canister_id: Identity) -> (r: Result<(), AgreementError>)
        requires
            old(self).wf(),
        ensures
            final(self).wf(),
            caller@ != old(self).admin@ ==> r == Err::<(), AgreementError>(AgreementError::Unauthorized)
                && *final(self) == *old(self),
            caller@ == old(self).admin@ ==> r is Ok && *final(self) == (CanisterState {
                ledger_canister_id: canister_id,
                ..*old(self)
            }),
    {
        if !self.admin.same_as(caller) {
            return Err(AgreementError::Unauthorized);
        }
        self.ledger_canister_id = canister_id;
        Ok(())
    }
}

/// What `begin_execution` hands back: the milestone's amount and recipient, taken out of
/// the agreement's balance and reserved until the transfer is resolved.
pub struct Settlement {
    pub agreement_id: String,
    pub milestone_id: u64,
    pub amount: u128,
    pub recipient: Identity,
    pub balance_before: u128,
    pub title: String,
}

/// What a successful settlement reports.
#[derive(PartialEq, Eq, Structural, Clone, Copy, Debug)]
pub struct ExecutionReceipt {
    pub block_index: u128,
    pub amount: u128,
    pub remaining_balance: u128,
}

impl CanisterState {
    pub open spec fn reservation_position(&self, id: Seq<char>, milestone_id: u64) -> Option<int> {
        first_match(
            self.reservations@,
            |r: Reservation| r.agreement_id@ == id && r.milestone_id == milestone_id,
        )
    }

    /// Why `caller` may not start paying milestone `milestone_id` of agreement `id` now, in
    /// the order the checks are made; `None` where it may.
    pub open spec fn execution_refusal(&self, caller: Seq<u8>, id: Seq<char>, milestone_id: u64) -> Option<AgreementError> {
        let pos = self.position(id);
        let a = self.agreements@[pos->0];
        let mpos = milestone_position(a, milestone_id);
        let m = a.milestones@[mpos->0];
        if self.guard.held().contains(KeyView::Execute(id, milestone_id)) {
            Some(AgreementError::DuplicateOperation)
        } else if pos is None {
            Some(AgreementError::NotFound(Missing::Agreement))
        } else if !involves(a, caller) {
            Some(AgreementError::Unauthorized)
        } else if mpos is None {
            Some(AgreementError::NotFound(Missing::Milestone))
        } else if m.executed_at is Some {
            Some(AgreementError::AlreadyExecuted)
        } else if m.status != MilestoneStatus::Approved {
            Some(AgreementError::InvalidState)
        } else if self.balance_of(id) < m.amount {
            Some(AgreementError::InsufficientFunds { required: m.amount, available: self.balance_of(id) as u128 })
        } else {
            None
        }
    }
}

impl CanisterState {
    pub fn find_reservation(&self, agreement_id: &String, milestone_id: u64) -> (r: Option<usize>)
        ensures
            match r {
                Some(k) => self.reservation_position(agreement_id@, milestone_id) == Some(k as int)
                    && k < self.reservations@.len() && self.reservations@[k as int].agreement_id@
                    == agreement_id@ && self.reservations@[k as int].milestone_id == milestone_id,
                None => self.reservation_position(agreement_id@, milestone_id) is None,
            },
    {
        let ghost p = |r: Reservation| r.agreement_id@ == agreement_id@ && r.milestone_id == milestone_id;
        let mut k: usize = 0;
        while k < self.reservations.len()
            invariant
                k <= self.reservations@.len(),
                p == (|r: Reservation| r.agreement_id@ == agreement_id@ && r.milestone_id == milestone_id),
                forall|q: int| 0 <= q < k ==> !p(#[trigger] self.reservations@[q]),
            decreases self.reservations@.len() - k,
        {
            if self.reservations[k].agreement_id == *agreement_id && self.reservations[k].milestone_id == milestone_id {
                proof {
                    lemma_first_match_at(self.reservations@, p, k as int);
                }
                return Some(k);
            }
            k = k + 1;
        }
        proof {
            lemma_first_match_none(self.reservations@, p);
        }
        None
    }

    /// First half of paying a milestone: checks that `caller` may pay it now, then takes its
    /// amount out of the balance and reserves it before any transfer is attempted, so a second
    /// attempt sees either the smaller balance or the execution in flight.
    pub fn begin_execution(&mut self, caller: &Identity, agreement_id: &String, milestone_id: u64) -> (r: Result<Settlement, AgreementError>)
        requires
            old(self).wf(),
        ensures
            final(self).wf(),
            match old(self).execution_refusal(caller@, agreement_id@, milestone_id) {
                Some(e) => r == Err::<Settlement, AgreementError>(e) && *final(self) == *old(self),
                None => r matches Ok(st) && began(*old(self), *final(self), agreement_id@, milestone_id, st),
            },
    {
        let key = OperationKey::Execute { agreement_id: agreement_id.clone(), milestone_id };
        if self.guard.is_held(&key) {
            return Err(AgreementError::DuplicateOperation);
        }
        let i = match self.find_agreement(agreement_id) {
            Some(i) => i,
            None => {
                return Err(AgreementError::NotFound(Missing::Agreement));
            },
        };
        if !self.agreements[i].involves(caller) {
            return Err(AgreementError::Unauthorized);
        }
        let j = match self.agreements[i].find_milestone(milestone_id) {
            Some(j) => j,
            None => {
                return Err(AgreementError::NotFound(Missing::Milestone));
            },
        };
        let m = &self.agreements[i].milestones[j];
        if m.executed_at.is_some() {
            return Err(AgreementError::AlreadyExecuted);
        }
        if m.status != MilestoneStatus::Approved {
            return Err(AgreementError::InvalidState);
        }
        let balance = self.agreement_balances[i];
        if balance < m.amount {
            return Err(AgreementError::InsufficientFunds { required: m.amount, available: balance });
        }
        let amount = m.amount;
        let settlement = Settlement {
            agreement_id: agreement_id.clone(),
            milestone_id,
            amount,
            recipient: m.recipient.clone(),
            balance_before: balance,
            title: m.title.clone(),
        };
        let ghost s0 = *self;
        self.agreement_balances.set(i, balance - amount);
        let reservation = Reservation { agreement_id: agreement_id.clone(), milestone_id, amount };
        let ghost rv = reservation;
        self.reservations.push(reservation);
        self.guard.acquire(key);
        proof {
            assert(self.reservations@ == s0.reservations@.push(rv));
            lemma_settlement_reserved(s0, *self, i as int, rv);
        }
        Ok(settlement)
    }

    /// Second half of paying a milestone: resolves its reservation with the transfer's
    /// outcome. On success the milestone is executed and the payment logged; on any failure
    /// the reserved amount returns to the balance and the milestone stays approved, so the
    /// payment can be tried again. Either way the execution key is released.
    #[verifier::rlimit(80)]
    pub fn finish_execution(
        &mut self,
        actor: &Identity,
        now: u64,
        agreement_id: &String,
        milestone_id: u64,
        outcome: Result<u128, ICRC1TransferError>,
    ) -> (r: Result<ExecutionReceipt, AgreementError>)
        requires
            old(self).wf(),
        ensures
            final(self).wf(),
            settled(*old(self), *final(self), actor@, now, agreement_id@, milestone_id, outcome, r),
    {
        let k = match self.find_reservation(agreement_id, milestone_id) {
            Some(k) => k,
            None => {
                return Err(AgreementError::NotFound(Missing::Settlement));
            },
        };
        let ghost s0 = *self;
        let i = match self.find_agreement(agreement_id) {
            Some(i) => i,
            None => {
                proof {
                    assert(s0.position(s0.reservations@[k as int].agreement_id@) is Some);
                }
                return Err(AgreementError::NotFound(Missing::Agreement));
            },
        };
        proof {
            lemma_reserved_remove(s0.reservations@, k as int, agreement_id@);
            lemma_reserved_nonneg(s0.reservations@.remove(k as int), agreement_id@);
            assert(s0.agreement_balances@[i as int] + reserved_for(s0.reservations@, s0.agreements@[i as int].id@) <= u128::MAX);
        }
        let reservation = self.reservations.remove(k);
        let amount = reservation.amount;
        let key = OperationKey::Execute { agreement_id: agreement_id.clone(), milestone_id };
        self.guard.release(&key);
        let ghost s1 = *self;
        proof {
            lemma_reservation_released(s0, s1, k as int, i as int);
        }
        match outcome {
            Ok(block_index) => {
                let remaining = self.agreement_balances[i];
                let title = match self.agreements[i].find_milestone(milestone_id) {
                    Some(j) => {
                        let m = &mut self.agreements[i].milestones[j];
                        m.status = MilestoneStatus::Executed;
                        m.completed_at = Some(now);
                        m.executed_at = Some(now);
                        m.title.clone()
                    },
                    None => String::new(),
                };
                proof {
                    lemma_milestone_executed(s1, *self, i as int);
                }
                let ghost s2 = *self;
                self.events.push(
                    Event {
                        event_type: EventKind::ExecuteMilestone { title, amount },
                        agreement_id: agreement_id.clone(),
                        milestone_id: Some(milestone_id),
                        document_id: None,
                        actor: actor.clone(),
                        timestamp: now,
                    },
                );
                proof {
                    assert(self.events@.subrange(0, s2.events@.len() as int) =~= s2.events@);
                    assert(self.reservations@ == s0.reservations@.remove(k as int));
                    assert(self.escrow_total(agreement_id@) == s0.escrow_total(agreement_id@) - amount);
                    assert(s0.position(agreement_id@) == Some(i as int));
                    assert forall|other: Seq<char>| other != agreement_id@ implies #[trigger] self.escrow_total(other)
                        == s0.escrow_total(other) by {
                        assert(s1.escrow_total(other) == s0.escrow_total(other));
                        assert(s2.escrow_total(other) == s1.escrow_total(other));
                    }
                }
                Ok(ExecutionReceipt { block_index, amount, remaining_balance: remaining })
            },
            Err(e) => {
                let balance = self.agreement_balances[i];
                self.agreement_balances.set(i, balance + amount);
                proof {
                    lemma_balance_restored(s1, *self, i as int, amount);
                    assert(self.reservations@ == s0.reservations@.remove(k as int));
                    assert(self.escrow_total(agreement_id@) == s0.escrow_total(agreement_id@));
                    assert forall|other: Seq<char>| other != agreement_id@ implies #[trigger] self.escrow_total(other)
                        == s0.escrow_total(other) by {
                        assert(s1.escrow_total(other) == s0.escrow_total(other));
                    }
                    assert(self.balance_of(agreement_id@) == s0.balance_of(agreement_id@) + amount);
                }
                Err(AgreementError::SettlementFailure(e))
            },
        }
    }
}

/// `s1` is `s0` after the milestone's amount was taken from the balance and reserved, and
/// its execution key entered; `st` describes the reservation.
pub open spec fn began(s0: CanisterState, s1: CanisterState, id: Seq<char>, milestone_id: u64, st: Settlement) -> bool {
    let pos = s0.position(id);
    let a = s0.agreements@[pos->0];
    let m = a.milestones@[milestone_position(a, milestone_id)->0];
    &&& st.agreement_id@ == id
    &&& st.milestone_id == milestone_id
    &&& st.amount == m.amount
    &&& st.recipient@ == m.recipient@
    &&& st.title == m.title
    &&& st.balance_before == s0.balance_of(id)
    &&& s1.agreements == s0.agreements
    &&& s1.events == s0.events
    &&& s1.agreement_balances@ == s0.agreement_balances@.update(pos->0, (s0.balance_of(id) - m.amount) as u128)
    &&& s1.balance_of(id) == s0.balance_of(id) - m.amount
    &&& s1.reservations@ == s0.reservations@.push(Reservation { agreement_id: st.agreement_id, milestone_id, amount: m.amount })
    &&& s1.guard.held() == s0.guard.held().insert(KeyView::Execute(id, milestone_id))
    &&& forall|other: Seq<char>| #[trigger] s1.escrow_total(other) == s0.escrow_total(other)
}

/// `s1` and `r` are what resolving the reservation of milestone `milestone_id` of agreement
/// `id` with the transfer's `outcome` gives: on success the milestone is executed at `now`
/// and the reserved amount leaves the escrow; on failure it goes back to the balance.
pub open spec fn settled(
    s0: CanisterState,
    s1: CanisterState,
    actor: Seq<u8>,
    now: u64,
    id: Seq<char>,
    milestone_id: u64,
    outcome: Result<u128, ICRC1TransferError>,
    r: Result<ExecutionReceipt, AgreementError>,
) -> bool {
    match s0.reservation_position(id, milestone_id) {
        None => r == Err::<ExecutionReceipt, AgreementError>(AgreementError::NotFound(Missing::Settlement)) && s1 == s0,
        Some(k) => {
            let amount = s0.reservations@[k].amount;
            let pos = s0.position(id)->0;
            let a0 = s0.agreements@[pos];
            let a1 = s1.agreements@[pos];
            let mpos = milestone_position(a0, milestone_id);
            &&& s1.reservations@ == s0.reservations@.remove(k)
            &&& s1.guard.held() == s0.guard.held().remove(KeyView::Execute(id, milestone_id))
            &&& s1.agreements@.len() == s0.agreements@.len()
            &&& forall|j: int| 0 <= j < s0.agreements@.len() && j != pos ==> (#[trigger] s1.agreements@[j]) == s0.agreements@[j]
            &&& forall|other: Seq<char>| other != id ==> #[trigger] s1.escrow_total(other) == s0.escrow_total(other)
            &&& match outcome {
                Ok(block) => {
                    &&& s1.escrow_total(id) == s0.escrow_total(id) - amount
                    &&& s1.agreement_balances == s0.agreement_balances
                    &&& same_header(a1, a0)
                    &&& a1.documents == a0.documents
                    &&& a1.milestones@.len() == a0.milestones@.len()
                    &&& forall|j: int| 0 <= j < a0.milestones@.len() && Some(j) != mpos ==> (#[trigger] a1.milestones@[j]) == a0.milestones@[j]
                    &&& mpos matches Some(j) ==> a1.milestones@[j] == Milestone {
                        status: MilestoneStatus::Executed,
                        completed_at: Some(now),
                        executed_at: Some(now),
                        ..a0.milestones@[j]
                    }
                    &&& r == Ok::<ExecutionReceipt, AgreementError>(ExecutionReceipt {
                        block_index: block,
                        amount,
                        remaining_balance: s0.balance_of(id) as u128,
                    })
                    &&& logged(s1.events@, s0.events@, id, Some(milestone_id), actor, now)
                    &&& s1.events@.last().event_type matches EventKind::ExecuteMilestone { amount: paid, .. } && paid == amount
                }
                Err(e) => {
                    &&& r == Err::<ExecutionReceipt, AgreementError>(AgreementError::SettlementFailure(e))
                    &&& s1.escrow_total(id) == s0.escrow_total(id)
                    &&& s1.balance_of(id) == s0.balance_of(id) + amount
                    &&& s1.agreements == s0.agreements
                    &&& s1.events == s0.events
                }
            }
        },
    }
}

/// Moving `amount` from agreement `i`'s balance into a new reservation keeps the state well
/// formed and every agreement's escrow total unchanged.
proof fn lemma_settlement_reserved(s0: CanisterState, s1: CanisterState, i: int, rv: Reservation)
    requires
        s0.wf(),
        0 <= i < s0.agreements@.len(),
        rv.agreement_id@ == s0.agreements@[i].id@,
        rv.amount <= s0.agreement_balances@[i],
        !s0.guard.held().contains(KeyView::Execute(rv.agreement_id@, rv.milestone_id)),
        s1.agreements == s0.agreements,
        s1.events == s0.events,
        s1.agreement_balances@ == s0.agreement_balances@.update(i, (s0.agreement_balances@[i] - rv.amount) as u128),
        s1.reservations@ == s0.reservations@.push(rv),
        s1.guard.wf(),
        s1.guard.held() == s0.guard.held().insert(KeyView::Execute(rv.agreement_id@, rv.milestone_id)),
    ensures
        s1.wf(),
        forall|other: Seq<char>| #[trigger] s1.escrow_total(other) == s0.escrow_total(other),
        s1.balance_of(rv.agreement_id@) == s0.balance_of(rv.agreement_id@) - rv.amount,
{
    let p = |a: Agreement| a.id@ == rv.agreement_id@;
    lemma_first_match_at(s0.agreements@, p, i);
    assert forall|other: Seq<char>| #[trigger] s1.escrow_total(other) == s0.escrow_total(other) by {
        lemma_reserved_push(s0.reservations@, rv, other);
        if s0.position(other) is Some {
            let q = |a: Agreement| a.id@ == other;
            lemma_first_match_found(s0.agreements@, q);
            if s0.position(other)->0 == i {
                assert(other == rv.agreement_id@);
            }
        } else if other == rv.agreement_id@ {
            assert(s0.position(other) is Some);
        }
    }
    assert forall|j: int| 0 <= j < s1.agreements@.len() implies s1.agreement_balances@[j] + reserved_for(
        s1.reservations@, (#[trigger] s1.agreements@[j]).id@) <= u128::MAX by {
        lemma_reserved_push(s0.reservations@, rv, s0.agreements@[j].id@);
        if j != i && s0.agreements@[j].id@ == rv.agreement_id@ {
            assert(s0.agreements@[j].id@ != s0.agreements@[i].id@);
        }
    }
    assert forall|k: int| 0 <= k < s1.reservations@.len() implies s1.position((#[trigger] s1.reservations@[k]).agreement_id@) is Some by {
        if k < s0.reservations@.len() {
            assert(s1.reservations@[k] == s0.reservations@[k]);
        }
    }
    assert forall|k: int| 0 <= k < s1.reservations@.len() implies s1.guard.held().contains(
        KeyView::Execute((#[trigger] s1.reservations@[k]).agreement_id@, s1.reservations@[k].milestone_id)) by {
        if k < s0.reservations@.len() {
            assert(s1.reservations@[k] == s0.reservations@[k]);
        }
    }
    assert forall|a: int, b: int| 0 <= a < b < s1.reservations@.len() implies !(s1.reservations@[a].agreement_id@
        == s1.reservations@[b].agreement_id@ && s1.reservations@[a].milestone_id == s1.reservations@[b].milestone_id) by {
        if b == s0.reservations@.len() {
            assert(s1.reservations@[a] == s0.reservations@[a]);
            assert(s0.guard.held().contains(KeyView::Execute(s0.reservations@[a].agreement_id@, s0.reservations@[a].milestone_id)));
        } else {
            assert(s1.reservations@[a] == s0.reservations@[a]);
            assert(s1.reservations@[b] == s0.reservations@[b]);
        }
    }
}

/// Dropping reservation `k` (of agreement `i`) and its key keeps the state well formed, but
/// for the reserved amount, which the escrow total of that agreement loses.
proof fn lemma_reservation_released(s0: CanisterState, s1: CanisterState, k: int, i: int)
    requires
        s0.wf(),
        0 <= k < s0.reservations@.len(),
        0 <= i < s0.agreements@.len(),
        s0.agreements@[i].id@ == s0.reservations@[k].agreement_id@,
        s1.agreements == s0.agreements,
        s1.events == s0.events,
        s1.agreement_balances == s0.agreement_balances,
        s1.reservations@ == s0.reservations@.remove(k),
        s1.guard.wf(),
        s1.guard.held() == s0.guard.held().remove(KeyView::Execute(s0.reservations@[k].agreement_id@, s0.reservations@[k].milestone_id)),
    ensures
        s1.wf(),
        s1.position(s0.reservations@[k].agreement_id@) == Some(i),
        s1.escrow_total(s0.reservations@[k].agreement_id@) == s0.escrow_total(s0.reservations@[k].agreement_id@) - s0.reservations@[k].amount,
        forall|other: Seq<char>| other != s0.reservations@[k].agreement_id@ ==> #[trigger] s1.escrow_total(other) == s0.escrow_total(other),
{
    let rv = s0.reservations@[k];
    let p = |a: Agreement| a.id@ == rv.agreement_id@;
    assert forall|q: int| 0 <= q < i implies !p(#[trigger] s0.agreements@[q]) by {
        assert(s0.agreements@[q].id@ != s0.agreements@[i].id@);
    }
    lemma_first_match_at(s0.agreements@, p, i);
    assert forall|other: Seq<char>| #[trigger] s1.escrow_total(other) == s0.escrow_total(other) - if other == rv.agreement_id@ { rv.amount as int } else { 0 } by {
        lemma_reserved_remove(s0.reservations@, k, other);
    }
    assert forall|j: int| 0 <= j < s1.agreements@.len() implies s1.agreement_balances@[j] + reserved_for(
        s1.reservations@, (#[trigger] s1.agreements@[j]).id@) <= u128::MAX by {
        lemma_reserved_remove(s0.reservations@, k, s0.agreements@[j].id@);
    }
    assert forall|q: int| 0 <= q < s1.reservations@.len() implies s1.position((#[trigger] s1.reservations@[q]).agreement_id@) is Some by {
        let q0 = if q < k { q } else { q + 1 };
        assert(s1.reservations@[q] == s0.reservations@[q0]);
    }
    assert forall|q: int| 0 <= q < s1.reservations@.len() implies s1.guard.held().contains(
        KeyView::Execute((#[trigger] s1.reservations@[q]).agreement_id@, s1.reservations@[q].milestone_id)) by {
        let q0 = if q < k { q } else { q + 1 };
        assert(s1.reservations@[q] == s0.reservations@[q0]);
        assert(s0.guard.held().contains(KeyView::Execute(s0.reservations@[q0].agreement_id@, s0.reservations@[q0].milestone_id)));
    }
    assert forall|a: int, b: int| 0 <= a < b < s1.reservations@.len() implies !(s1.reservations@[a].agreement_id@
        == s1.reservations@[b].agreement_id@ && s1.reservations@[a].milestone_id == s1.reservations@[b].milestone_id) by {
        let a0 = if a < k { a } else { a + 1 };
        let b0 = if b < k { b } else { b + 1 };
        assert(s1.reservations@[a] == s0.reservations@[a0]);
        assert(s1.reservations@[b] == s0.reservations@[b0]);
    }
}

/// Marking a milestone of agreement `i` executed changes neither ids nor participants.
proof fn lemma_milestone_executed(s0: CanisterState, s1: CanisterState, i: int)
    requires
        s0.wf(),
        0 <= i < s0.agreements@.len(),
        s1.agreements@.len() == s0.agreements@.len(),
        forall|j: int| 0 <= j < s0.agreements@.len() && j != i ==> s1.agreements@[j] == s0.agreements@[j],
        same_header(s1.agreements@[i], s0.agreements@[i]),
        s1.agreements@[i].milestones@.len() == s0.agreements@[i].milestones@.len(),
        forall|j: int| 0 <= j < s0.agreements@[i].milestones@.len() ==> (#[trigger] s1.agreements@[i].milestones@[j]).id
            == s0.agreements@[i].milestones@[j].id && s1.agreements@[i].milestones@[j].votes
            == s0.agreements@[i].milestones@[j].votes,
        s1.agreement_balances == s0.agreement_balances,
        s1.guard == s0.guard,
        s1.reservations == s0.reservations,
    ensures
        s1.wf(),
        forall|id: Seq<char>| #[trigger] s1.escrow_total(id) == s0.escrow_total(id),
{
    let a1 = s1.agreements@[i];
    let a0 = s0.agreements@[i];
    assert forall|x: int, y: int| 0 <= x < y < a1.milestones@.len() implies a1.milestones@[x].id != a1.milestones@[y].id by {
        assert(a1.milestones@[x].id == a0.milestones@[x].id);
        assert(a1.milestones@[y].id == a0.milestones@[y].id);
    }
    assert forall|x: int| 0 <= x < a1.milestones@.len() implies (#[trigger] a1.milestones@[x]).wf() by {
        assert(a1.milestones@[x].votes == a0.milestones@[x].votes);
        assert(a0.milestones@[x].wf());
    }
    lemma_replace_agreement(s0, s1, i);
}

/// Giving a reserved amount back to agreement `i`'s balance keeps the state well formed.
proof fn lemma_balance_restored(s0: CanisterState, s1: CanisterState, i: int, amount: u128)
    requires
        s0.wf(),
        0 <= i < s0.agreements@.len(),
        s0.agreement_balances@[i] + amount + reserved_for(s0.reservations@, s0.agreements@[i].id@) <= u128::MAX,
        s1.agreements == s0.agreements,
        s1.events == s0.events,
        s1.agreement_balances@ == s0.agreement_balances@.update(i, (s0.agreement_balances@[i] + amount) as u128),
        s1.guard == s0.guard,
        s1.reservations == s0.reservations,
    ensures
        s1.wf(),
        s1.balance_of(s0.agreements@[i].id@) == s0.balance_of(s0.agreements@[i].id@) + amount,
        s1.escrow_total(s0.agreements@[i].id@) == s0.escrow_total(s0.agreements@[i].id@) + amount,
        forall|other: Seq<char>| other != s0.agreements@[i].id@ ==> #[trigger] s1.escrow_total(other) == s0.escrow_total(other),
{
    let id = s0.agreements@[i].id@;
    lemma_reserved_nonneg(s0.reservations@, id);
    let p = |a: Agreement| a.id@ == id;
    assert forall|q: int| 0 <= q < i implies !p(#[trigger] s0.agreements@[q]) by {
        assert(s0.agreements@[q].id@ != s0.agreements@[i].id@);
    }
    lemma_first_match_at(s0.agreements@, p, i);
    assert forall|other: Seq<char>| other != id implies #[trigger] s1.escrow_total(other) == s0.escrow_total(other) by {
        if s0.position(other) is Some {
            let q = |a: Agreement| a.id@ == other;
            lemma_first_match_found(s0.agreements@, q);
        }
    }
    assert forall|j: int| 0 <= j < s1.agreements@.len() implies s1.agreement_balances@[j] + reserved_for(
        s1.reservations@, (#[trigger] s1.agreements@[j]).id@) <= u128::MAX by {
        if j != i {
            assert(s1.agreement_balances@[j] == s0.agreement_balances@[j]);
        }
    }
}

/// `m1` is `m0` made ready for a fresh vote at `now`: no ballots, no completion or
/// execution time, status `ReadyForVoting`.
pub open spec fn normalized(m0: Milestone, m1: Milestone, now: u64) -> bool {
    &&& m1 == Milestone {
        votes: m1.votes,
        status: MilestoneStatus::ReadyForVoting,
        created_at: now,
        completed_at: None,
        executed_at: None,
        ..m0
    }
    &&& m1.votes@.len() == 0
}

/// `a` is the agreement that `create_agreement` stores for these inputs.
pub open spec fn created(
    a: Agreement,
    id: String,
    title: String,
    description: String,
    creator: Seq<u8>,
    participants: Seq<Identity>,
    documents: Vec<DocumentRef>,
    milestones: Seq<Milestone>,
    voting_threshold: u8,
    now: u64,
) -> bool {
    &&& a.id == id
    &&& a.title == title
    &&& a.description == description
    &&& a.creator@ == creator
    &&& identity_set(a.participants@) == identity_set(participants)
    &&& a.documents == documents
    &&& a.voting_threshold == voting_threshold
    &&& a.status == AgreementStatus::Active
    &&& a.created_at == now
    &&& a.milestones@.len() == milestones.len()
    &&& forall|j: int|
        0 <= j < milestones.len() ==> normalized(milestones[j], #[trigger] a.milestones@[j], now)
}

/// Appending a well formed agreement with a new id and a zero balance keeps the state well
/// formed, and every agreement already there keeps its position.
proof fn lemma_push_agreement(s0: CanisterState, s1: CanisterState)
    requires
        s0.wf(),
        s1.agreements@.len() == s0.agreements@.len() + 1,
        s1.agreements@.subrange(0, s0.agreements@.len() as int) == s0.agreements@,
        s0.position(s1.agreements@.last().id@) is None,
        s1.agreements@.last().wf(),
        s1.agreements@.last().participants@.len() < usize::MAX,
        s1.agreement_balances@ == s0.agreement_balances@.push(0),
        s1.guard == s0.guard,
        s1.reservations == s0.reservations,
    ensures
        s1.wf(),
{
    let n = s0.agreements@.len() as int;
    let new_id = s1.agreements@.last().id@;
    assert forall|j: int| 0 <= j < n implies s1.agreements@[j] == s0.agreements@[j] by {
        assert(s1.agreements@.subrange(0, n)[j] == s1.agreements@[j]);
    }
    let p = |a: Agreement| a.id@ == new_id;
    assert forall|j: int| 0 <= j < n implies s0.agreements@[j].id@ != new_id by {
        if s0.agreements@[j].id@ == new_id {
            assert(p(s0.agreements@[j]));
            assert(exists|i: int| 0 <= i < s0.agreements@.len() && p(s0.agreements@[i]));
        }
    }
    assert forall|id: Seq<char>| s0.position(id) is Some implies s1.position(id) == s0.position(id) by {
        let q = |a: Agreement| a.id@ == id;
        lemma_first_match_found(s0.agreements@, q);
        let i = s0.position(id)->0;
        assert forall|k: int| 0 <= k < i implies !q(#[trigger] s1.agreements@[k]) by {
            assert(s1.agreements@[k] == s0.agreements@[k]);
            assert(!q(s0.agreements@[k]));
        }
        assert(s1.agreements@[i] == s0.agreements@[i]);
        lemma_first_match_at(s1.agreements@, q, i);
    }
    assert forall|k: int| 0 <= k < s1.reservations@.len() implies s1.position(
        (#[trigger] s1.reservations@[k]).agreement_id@) is Some by {
        assert(s0.position(s0.reservations@[k].agreement_id@) is Some);
    }
    assert forall|k: int| 0 <= k < s1.reservations@.len() implies (#[trigger] s1.reservations@[k]).agreement_id@ != new_id by {
        assert(s0.position(s0.reservations@[k].agreement_id@) is Some);
    }
    lemma_reserved_zero(s1.reservations@, new_id);
    assert forall|j: int| 0 <= j < s1.agreements@.len() implies (#[trigger] s1.agreements@[j]).wf()
        && s1.agreements@[j].participants@.len() < usize::MAX
        && s1.agreement_balances@[j] + reserved_for(s1.reservations@, s1.agreements@[j].id@) <= u128::MAX by {
        if j < n {
            assert(s1.agreements@[j] == s0.agreements@[j]);
            assert(s1.agreement_balances@[j] == s0.agreement_balances@[j]);
        }
    }
    assert forall|a: int, b: int| 0 <= a < b < s1.agreements@.len() implies s1.agreements@[a].id@
        != s1.agreements@[b].id@ by {
        if b < n {
            assert(s1.agreements@[a] == s0.agreements@[a]);
            assert(s1.agreements@[b] == s0.agreements@[b]);
        } else {
            assert(s1.agreements@[a] == s0.agreements@[a]);
        }
    }
}

/// Replacing agreement `i` by one with the same id that is itself well formed keeps the
/// state well formed.
proof fn lemma_replace_agreement(s0: CanisterState, s1: CanisterState, i: int)
    requires
        s0.wf(),
        0 <= i < s0.agreements@.len(),
        s1.agreements@.len() == s0.agreements@.len(),
        forall|j: int| 0 <= j < s0.agreements@.len() && j != i ==> s1.agreements@[j] == s0.agreements@[j],
        s1.agreements@[i].id == s0.agreements@[i].id,
        s1.agreements@[i].wf(),
        s1.agreements@[i].participants@.len() < usize::MAX,
        s1.agreement_balances == s0.agreement_balances,
        s1.guard == s0.guard,
        s1.reservations == s0.reservations,
    ensures
        s1.wf(),
        forall|id: Seq<char>| s1.position(id) == s0.position(id),
{
    assert forall|j: int| 0 <= j < s1.agreements@.len() implies (#[trigger] s1.agreements@[j]).id@ == s0.agreements@[j].id@ by {
        if j != i {
            assert(s1.agreements@[j] == s0.agreements@[j]);
        }
    }
    assert forall|j: int| 0 <= j < s1.agreements@.len() implies (#[trigger] s1.agreements@[j]).wf()
        && s1.agreements@[j].participants@.len() < usize::MAX by {
        if j != i {
            assert(s1.agreements@[j] == s0.agreements@[j]);
        }
    }
    assert forall|j: int| 0 <= j < s1.agreements@.len() implies s1.agreement_balances@[j] + reserved_for(
        s1.reservations@, (#[trigger] s1.agreements@[j]).id@) <= u128::MAX by {
        assert(s1.agreements@[j].id@ == s0.agreements@[j].id@);
        assert(s0.agreement_balances@[j] + reserved_for(s0.reservations@, s0.agreements@[j].id@) <= u128::MAX);
    }
    assert forall|id: Seq<char>| s1.position(id) == s0.position(id) by {
        let p = |a: Agreement| a.id@ == id;
        assert forall|j: int| 0 <= j < s1.agreements@.len() implies p(#[trigger] s1.agreements@[j]) == p(s0.agreements@[j]) by {
            assert(s1.agreements@[j].id@ == s0.agreements@[j].id@);
        }
        if s0.position(id) is Some {
            lemma_first_match_found(s0.agreements@, p);
            lemma_first_match_at(s1.agreements@, p, s0.position(id)->0);
        } else {
            assert forall|j: int| 0 <= j < s1.agreements@.len() implies !p(#[trigger] s1.agreements@[j]) by {
                if p(s1.agreements@[j]) {
                    assert(p(s0.agreements@[j]));
                }
            }
            lemma_first_match_none(s1.agreements@, p);
        }
    }
}

} // verus!
