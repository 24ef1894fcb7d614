use crate::identity::{identities_distinct, Identity};
use crate::ledger::ICRC1TransferError;
use vstd::prelude::*;

verus! {

/// The condition that releases a milestone's payment.
pub enum MilestoneType {
    /// Released once the named document is signed by all its required signers.
    DocumentSignature { required_doc_id: String },
    /// Released by the participants' vote alone.
    ManualApproval,
    /// Released once the clock reaches `release_time`.
    TimeRelease { release_time: u64 },
    /// Released once every listed document is fully signed and `min_time`, if any, has passed.
    MultiCondition { required_docs: Vec<String>, requires_vote: bool, min_time: Option<u64> },
}

#[derive(PartialEq, Eq, Structural, Clone, Copy, Debug)]
pub enum MilestoneStatus {
    Pending,
    ReadyForVoting,
    VotingActive,
    Approved,
    Executed,
    Rejected,
}

#[derive(PartialEq, Eq, Structural, Clone, Copy, Debug)]
pub enum AgreementStatus {
    Active,
    Completed,
    Cancelled,
}

/// One participant's vote on a milestone.
pub struct Ballot {
    pub voter: Identity,
    pub approve: bool,
}

pub struct Milestone {
    pub id: u64,
    pub title: String,
    pub description: String,
    pub milestone_type: MilestoneType,
    pub recipient: Identity,
    pub amount: u128,
    pub status: MilestoneStatus,
    pub votes: Vec<Ballot>,
    pub created_at: u64,
    pub completed_at: Option<u64>,
    pub executed_at: Option<u64>,
}

pub struct DocumentRef {
    pub doc_id: String,
    pub title: String,
    pub required_signers: Vec<Identity>,
    pub current_signers: Vec<Identity>,
    pub is_signed_by_all: bool,
}

pub struct Agreement {
    pub id: String,
    pub title: String,
    pub description: String,
    pub creator: Identity,
    pub participants: Vec<Identity>,
    pub documents: Vec<DocumentRef>,
    pub milestones: Vec<Milestone>,
    pub voting_threshold: u8,
    pub status: AgreementStatus,
    pub created_at: u64,
}

/// What an event records, beyond its agreement, actor and time.
pub enum EventKind {
    CreateAgreement { milestone_count: u64, total_amount: u128 },
    AddParticipant { participant: Identity },
    SignDocument { title: String },
    FundAgreement { amount: u128 },
    VoteMilestone { approve: bool },
    ExecuteMilestone { title: String, amount: u128 },
}

pub struct Event {
    pub event_type: EventKind,
    pub agreement_id: String,
    pub milestone_id: Option<u64>,
    pub document_id: Option<String>,
    pub actor: Identity,
    pub timestamp: u64,
}

/// Which kind of record a lookup did not find.
#[derive(PartialEq, Eq, Structural, Clone, Copy, Debug)]
pub enum Missing {
    Agreement,
    Milestone,
    Document,
    Settlement,
}

/// Why the inputs of `create_agreement` or `fund_agreement` were refused.
#[derive(PartialEq, Eq, Structural, Clone, Copy, Debug)]
pub enum InputProblem {
    EmptyIdOrTitle,
    IdTooLong,
    TitleTooLong,
    DescriptionTooLong,
    ThresholdOutOfRange,
    NoMilestones,
    TooManyMilestones,
    TooManyParticipants,
    DuplicateMilestoneId(u64),
    ZeroAmount,
    TotalAmountOverflow,
    AgreementIdTaken,
    AnonymousParticipant,
    AnonymousCaller,
    AmountTooLarge,
    MalformedPrincipal,
}

#[derive(PartialEq, Eq, Debug)]
pub enum AgreementError {
    InvalidInput(InputProblem),
    Unauthorized,
    NotFound(Missing),
    AlreadyExists,
    InvalidState,
    AlreadyExecuted,
    DuplicateOperation,
    DuplicateVote,
    Overflow,
    InsufficientFunds { required: u128, available: u128 },
    SettlementFailure(ICRC1TransferError),
}

/// The tally of a milestone's vote, as a query or a vote reports it.
#[derive(PartialEq, Eq, Structural, Clone, Copy, Debug)]
pub struct MilestoneVotingInfo {
    pub milestone_id: u64,
    pub status: MilestoneStatus,
    pub approval_votes: u64,
    pub rejection_votes: u64,
    pub total_participants: u64,
    pub required_votes: u64,
    pub voting_threshold: u8,
}

pub open spec fn ballot_voters(votes: Seq<Ballot>) -> Seq<Identity> {
    votes.map_values(|b: Ballot| b.voter)
}

pub open spec fn has_voted(votes: Seq<Ballot>, who: Seq<u8>) -> bool {
    exists|k: int| 0 <= k < votes.len() && (#[trigger] votes[k]).voter@ == who
}

impl Milestone {
    /// Each identity votes at most once.
    pub open spec fn wf(&self) -> bool {
        identities_distinct(ballot_voters(self.votes@))
    }
}

impl Agreement {
    /// Every participant listed once, none anonymous; a threshold in 50..=100;
    /// milestone ids distinct and each milestone's ballots well formed.
    pub open spec fn wf(&self) -> bool {
        &&& identities_distinct(self.participants@)
        &&& forall|i: int|
            0 <= i < self.participants@.len() ==> (#[trigger] self.participants@[i])@
                != crate::identity::anonymous_bytes()
        &&& 50 <= self.voting_threshold <= 100
        &&& forall|i: int, j: int|
            0 <= i < j < self.milestones@.len() ==> self.milestones@[i].id
                != self.milestones@[j].id
        &&& forall|i: int| 0 <= i < self.milestones@.len() ==> (#[trigger] self.milestones@[i]).wf()
    }
}

} // verus!
