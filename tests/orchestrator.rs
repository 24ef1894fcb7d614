use dao_agreement::agreement::has_ballot_from;
use dao_agreement::identity::Identity;
use dao_agreement::ledger::{
    mainnet_ledger_id, transfer_outcome, transfer_request, ICRC1TransferError, ICRC1TransferResult,
};
use dao_agreement::state::CanisterState;
use dao_agreement::types::{
    Agreement, AgreementError, AgreementStatus, DocumentRef, EventKind, InputProblem, Milestone,
    MilestoneStatus, MilestoneType, Missing,
};

fn who(b: u8) -> Identity {
    Identity::from_bytes(vec![b, b, 1])
}

fn milestone(id: u64, amount: u128, milestone_type: MilestoneType) -> Milestone {
    Milestone {
        id,
        title: format!("milestone {}", id),
        description: String::new(),
        milestone_type,
        recipient: who(9),
        amount,
        status: MilestoneStatus::Pending,
        votes: Vec::new(),
        created_at: 0,
        completed_at: None,
        executed_at: None,
    }
}

fn store() -> CanisterState {
    CanisterState::new(who(100), who(200))
}

/// Creator 1 with participants 2 and 3, one manual milestone of `amount`.
fn store_with_agreement(threshold: u8, amount: u128) -> CanisterState {
    let mut s = store();
    let r = s.create_agreement(
        &who(1),
        10,
        "ag".to_string(),
        "Agreement".to_string(),
        "desc".to_string(),
        vec![who(2), who(3)],
        Vec::new(),
        vec![milestone(7, amount, MilestoneType::ManualApproval)],
        threshold,
    );
    assert_eq!(r, Ok(1));
    s
}

fn ag() -> String {
    "ag".to_string()
}

#[test]
fn two_thirds_threshold_needs_two_approvals() {
    let mut s = store_with_agreement(66, 50);
    let first = s.vote_milestone(&who(1), 11, &ag(), 7, true).unwrap();
    assert_eq!(first.total_participants, 3);
    assert_eq!(first.required_votes, 2);
    assert_eq!(first.approval_votes, 1);
    assert_eq!(first.status, MilestoneStatus::VotingActive);
    let second = s.vote_milestone(&who(2), 12, &ag(), 7, true).unwrap();
    assert_eq!(second.approval_votes, 2);
    assert_eq!(second.status, MilestoneStatus::Approved);
    assert_eq!(s.get_agreement(&ag()).unwrap().milestones[0].status, MilestoneStatus::Approved);
}

#[test]
fn failed_settlement_restores_balance() {
    let mut s = store_with_agreement(50, 100);
    assert_eq!(s.fund_agreement(&who(2), 11, ag(), 100), Ok(100));
    s.vote_milestone(&who(1), 12, &ag(), 7, true).unwrap();
    s.vote_milestone(&who(2), 13, &ag(), 7, true).unwrap();
    let st = s.begin_execution(&who(1), &ag(), 7).unwrap();
    assert_eq!(st.amount, 100);
    assert_eq!(st.balance_before, 100);
    assert_eq!(s.get_agreement_balance(&ag()), 0);
    let r = s.finish_execution(&who(1), 14, &ag(), 7, Err(ICRC1TransferError::TemporarilyUnavailable));
    assert_eq!(r, Err(AgreementError::SettlementFailure(ICRC1TransferError::TemporarilyUnavailable)));
    assert_eq!(s.get_agreement_balance(&ag()), 100);
    let m = &s.get_agreement(&ag()).unwrap().milestones[0];
    assert_eq!(m.status, MilestoneStatus::Approved);
    assert!(m.executed_at.is_none());
    // the payment can be tried again
    assert!(s.begin_execution(&who(1), &ag(), 7).is_ok());
}

#[test]
fn signing_sole_document_approves_directly() {
    let doc = DocumentRef {
        doc_id: "contract".to_string(),
        title: "Contract".to_string(),
        required_signers: vec![who(1)],
        current_signers: Vec::new(),
        is_signed_by_all: false,
    };
    let mut a = Agreement {
        id: "ag".to_string(),
        title: "Agreement".to_string(),
        description: String::new(),
        creator: who(1),
        participants: vec![who(2)],
        documents: vec![doc],
        milestones: vec![
            milestone(1, 10, MilestoneType::DocumentSignature { required_doc_id: "contract".to_string() }),
            milestone(2, 10, MilestoneType::TimeRelease { release_time: 1000 }),
        ],
        voting_threshold: 50,
        status: AgreementStatus::Active,
        created_at: 0,
    };
    let r = a.sign_document(&who(1), &"contract".to_string(), 5);
    assert_eq!(r, Ok(vec![1]));
    assert_eq!(a.milestones[0].status, MilestoneStatus::Approved);
    assert_eq!(a.milestones[1].status, MilestoneStatus::Pending);
    assert!(a.documents[0].is_signed_by_all);
}

#[test]
fn time_and_multi_conditions_become_ready_for_voting() {
    let mut a = Agreement {
        id: "ag".to_string(),
        title: "Agreement".to_string(),
        description: String::new(),
        creator: who(1),
        participants: Vec::new(),
        documents: vec![DocumentRef {
            doc_id: "d".to_string(),
            title: "D".to_string(),
            required_signers: vec![who(1), who(2)],
            current_signers: vec![who(2)],
            is_signed_by_all: false,
        }],
        milestones: vec![
            milestone(1, 10, MilestoneType::TimeRelease { release_time: 5 }),
            milestone(2, 10, MilestoneType::MultiCondition {
                required_docs: vec!["d".to_string()],
                requires_vote: true,
                min_time: Some(3),
            }),
            milestone(3, 10, MilestoneType::MultiCondition {
                required_docs: vec!["d".to_string()],
                requires_vote: true,
                min_time: Some(100),
            }),
        ],
        voting_threshold: 50,
        status: AgreementStatus::Active,
        created_at: 0,
    };
    assert_eq!(a.sign_document(&who(1), &"d".to_string(), 5), Ok(vec![1, 2]));
    assert_eq!(a.milestones[0].status, MilestoneStatus::ReadyForVoting);
    assert_eq!(a.milestones[1].status, MilestoneStatus::ReadyForVoting);
    assert_eq!(a.milestones[2].status, MilestoneStatus::Pending);
}

#[test]
fn signing_errors() {
    let mut s = store();
    let doc = DocumentRef {
        doc_id: "d".to_string(),
        title: "D".to_string(),
        required_signers: vec![who(1)],
        current_signers: Vec::new(),
        is_signed_by_all: false,
    };
    s.create_agreement(&who(1), 1, ag(), "T".to_string(), String::new(), vec![who(2)], vec![doc],
        vec![milestone(1, 5, MilestoneType::ManualApproval)], 60).unwrap();
    assert_eq!(s.sign_document(&who(5), 2, &ag(), &"d".to_string()), Err(AgreementError::Unauthorized));
    assert_eq!(s.sign_document(&who(1), 2, &"nope".to_string(), &"d".to_string()), Err(AgreementError::Unauthorized));
    assert_eq!(s.sign_document(&who(1), 2, &ag(), &"x".to_string()), Err(AgreementError::NotFound(Missing::Document)));
    assert_eq!(s.sign_document(&who(2), 2, &ag(), &"d".to_string()), Err(AgreementError::Unauthorized));
    assert_eq!(s.sign_document(&who(1), 2, &ag(), &"d".to_string()), Ok(vec![]));
    assert!(s.get_agreement(&ag()).unwrap().documents[0].is_signed_by_all);
    assert!(matches!(s.list_events().last().unwrap().event_type, EventKind::SignDocument { .. }));
}

#[test]
fn creation_normalizes_milestones() {
    let mut s = store();
    let mut m = milestone(3, 40, MilestoneType::ManualApproval);
    m.status = MilestoneStatus::Executed;
    m.executed_at = Some(1);
    m.completed_at = Some(1);
    m.created_at = 1;
    let r = s.create_agreement(&who(1), 77, ag(), "T".to_string(), String::new(),
        vec![who(2), who(2), who(3)], Vec::new(), vec![m, milestone(4, 60, MilestoneType::ManualApproval)], 75);
    assert_eq!(r, Ok(2));
    let a = s.get_agreement(&ag()).unwrap();
    assert_eq!(a.participants.len(), 2);
    assert_eq!(a.status, AgreementStatus::Active);
    assert_eq!(a.created_at, 77);
    for m in a.milestones.iter() {
        assert_eq!(m.status, MilestoneStatus::ReadyForVoting);
        assert_eq!(m.executed_at, None);
        assert_eq!(m.completed_at, None);
        assert_eq!(m.created_at, 77);
        assert!(m.votes.is_empty());
    }
    assert_eq!(s.get_agreement_balance(&ag()), 0);
    match &s.list_events()[0].event_type {
        EventKind::CreateAgreement { milestone_count, total_amount } => {
            assert_eq!(*milestone_count, 2);
            assert_eq!(*total_amount, 100);
        }
        _ => panic!("wrong event"),
    }
}

fn create(s: &mut CanisterState, caller: u8, id: &str, title: &str, participants: Vec<Identity>,
          milestones: Vec<Milestone>, threshold: u8) -> Result<usize, AgreementError> {
    s.create_agreement(&who(caller), 1, id.to_string(), title.to_string(), String::new(), participants,
        Vec::new(), milestones, threshold)
}

fn bad(p: InputProblem) -> Result<usize, AgreementError> {
    Err(AgreementError::InvalidInput(p))
}

#[test]
fn creation_errors() {
    let mut s = store();
    let one = || vec![milestone(1, 5, MilestoneType::ManualApproval)];
    assert_eq!(create(&mut s, 1, "", "T", vec![], one(), 60), bad(InputProblem::EmptyIdOrTitle));
    assert_eq!(create(&mut s, 1, "a", "", vec![], one(), 60), bad(InputProblem::EmptyIdOrTitle));
    assert_eq!(create(&mut s, 1, &"x".repeat(257), "T", vec![], one(), 60), bad(InputProblem::IdTooLong));
    assert_eq!(create(&mut s, 1, &"x".repeat(256), "T", vec![], one(), 60), Ok(1));
    assert_eq!(create(&mut s, 1, "a", &"é".repeat(129), vec![], one(), 60), bad(InputProblem::TitleTooLong));
    let long = s.create_agreement(&who(1), 1, "a".to_string(), "T".to_string(), "d".repeat(1025), vec![],
        Vec::new(), one(), 60);
    assert_eq!(long, bad(InputProblem::DescriptionTooLong));
    assert_eq!(create(&mut s, 1, "a", "T", vec![], one(), 49), bad(InputProblem::ThresholdOutOfRange));
    assert_eq!(create(&mut s, 1, "a", "T", vec![], one(), 101), bad(InputProblem::ThresholdOutOfRange));
    assert_eq!(create(&mut s, 1, "a", "T", vec![], vec![], 60), bad(InputProblem::NoMilestones));
    let many: Vec<Milestone> = (0..101).map(|i| milestone(i, 1, MilestoneType::ManualApproval)).collect();
    assert_eq!(create(&mut s, 1, "a", "T", vec![], many, 60), bad(InputProblem::TooManyMilestones));
    let crowd: Vec<Identity> = (10..61).map(who).collect();
    assert_eq!(create(&mut s, 1, "a", "T", crowd, one(), 60), bad(InputProblem::TooManyParticipants));
    let dup = vec![milestone(1, 5, MilestoneType::ManualApproval), milestone(1, 6, MilestoneType::ManualApproval)];
    assert_eq!(create(&mut s, 1, "a", "T", vec![], dup, 60), bad(InputProblem::DuplicateMilestoneId(1)));
    let zero = vec![milestone(1, 0, MilestoneType::ManualApproval)];
    assert_eq!(create(&mut s, 1, "a", "T", vec![], zero, 60), bad(InputProblem::ZeroAmount));
    assert_eq!(create(&mut s, 1, "a", "T", vec![Identity::anonymous()], one(), 60), bad(InputProblem::AnonymousParticipant));
    assert_eq!(create(&mut s, 4, "a", "T", vec![], one(), 60).is_ok(), true);
    assert_eq!(create(&mut s, 1, "a", "T", vec![], one(), 60), bad(InputProblem::AgreementIdTaken));
    let anon = s.create_agreement(&Identity::anonymous(), 1, "b".to_string(), "T".to_string(), String::new(),
        vec![], Vec::new(), one(), 60);
    assert_eq!(anon, bad(InputProblem::AnonymousCaller));
    assert_eq!(s.list_events().len(), 2);
}

#[test]
fn milestone_total_overflow_is_refused() {
    let mut s = store();
    let big = vec![milestone(1, u128::MAX, MilestoneType::ManualApproval), milestone(2, 1, MilestoneType::ManualApproval)];
    assert_eq!(create(&mut s, 1, "a", "T", vec![], big, 60), bad(InputProblem::TotalAmountOverflow));
    let fits = vec![milestone(1, u128::MAX - 1, MilestoneType::ManualApproval), milestone(2, 1, MilestoneType::ManualApproval)];
    assert_eq!(create(&mut s, 1, "a", "T", vec![], fits, 60), Ok(2));
    assert!(s.get_agreement(&"a".to_string()).is_some());
}

#[test]
fn duplicate_vote_is_refused() {
    let mut s = store_with_agreement(100, 5);
    s.vote_milestone(&who(2), 11, &ag(), 7, true).unwrap();
    assert_eq!(s.vote_milestone(&who(2), 12, &ag(), 7, false), Err(AgreementError::DuplicateVote));
    let v = &s.get_agreement(&ag()).unwrap().milestones[0].votes;
    assert_eq!(v.len(), 1);
    assert!(has_ballot_from(v, &who(2)));
}

#[test]
fn one_rejection_rejects_under_unanimity() {
    let mut s = store_with_agreement(100, 5);
    let info = s.vote_milestone(&who(3), 11, &ag(), 7, false).unwrap();
    assert_eq!(info.required_votes, 3);
    assert_eq!(info.rejection_votes, 1);
    assert_eq!(info.status, MilestoneStatus::Rejected);
    assert_eq!(s.vote_milestone(&who(1), 12, &ag(), 7, true), Err(AgreementError::InvalidState));
}

#[test]
fn vote_errors() {
    let mut s = store_with_agreement(60, 5);
    assert_eq!(s.vote_milestone(&who(1), 1, &"zz".to_string(), 7, true), Err(AgreementError::NotFound(Missing::Agreement)));
    assert_eq!(s.vote_milestone(&who(8), 1, &ag(), 7, true), Err(AgreementError::Unauthorized));
    assert_eq!(s.vote_milestone(&who(100), 1, &ag(), 7, true), Err(AgreementError::Unauthorized));
    assert_eq!(s.vote_milestone(&who(1), 1, &ag(), 8, true), Err(AgreementError::NotFound(Missing::Milestone)));
}

#[test]
fn creator_listed_as_participant_counts_once() {
    let mut s = store();
    create(&mut s, 1, "a", "T", vec![who(1), who(2)], vec![milestone(1, 5, MilestoneType::ManualApproval)], 100).unwrap();
    let info = s.get_milestone_voting_status(&"a".to_string(), 1).unwrap();
    assert_eq!(info.total_participants, 2);
    assert_eq!(info.required_votes, 2);
    assert_eq!(info.status, MilestoneStatus::ReadyForVoting);
    assert_eq!(s.get_milestone_voting_status(&"a".to_string(), 2), Err(AgreementError::NotFound(Missing::Milestone)));
    assert_eq!(s.get_milestone_voting_status(&"b".to_string(), 1), Err(AgreementError::NotFound(Missing::Agreement)));
}

#[test]
fn funding_rules() {
    let mut s = store_with_agreement(60, 5);
    assert_eq!(s.fund_agreement(&who(1), 1, ag(), 0), Err(AgreementError::InvalidInput(InputProblem::ZeroAmount)));
    assert_eq!(s.fund_agreement(&who(1), 1, ag(), u128::MAX / 2 + 1), Err(AgreementError::InvalidInput(InputProblem::AmountTooLarge)));
    assert_eq!(s.fund_agreement(&who(1), 1, "zz".to_string(), 5), Err(AgreementError::NotFound(Missing::Agreement)));
    assert_eq!(s.fund_agreement(&who(100), 1, ag(), 5), Err(AgreementError::Unauthorized));
    assert_eq!(s.fund_agreement(&who(1), 1, ag(), u128::MAX / 2), Ok(u128::MAX / 2));
    assert_eq!(s.fund_agreement(&who(3), 2, ag(), u128::MAX / 2), Ok(u128::MAX / 2 * 2));
    assert_eq!(s.fund_agreement(&who(3), 3, ag(), 2), Err(AgreementError::Overflow));
    assert_eq!(s.get_agreement_balance(&ag()), u128::MAX / 2 * 2);
    assert_eq!(s.get_agreement_balance(&"zz".to_string()), 0);
    match s.list_events().last().unwrap().event_type {
        EventKind::FundAgreement { amount } => assert_eq!(amount, u128::MAX / 2),
        _ => panic!("wrong event"),
    }
}

fn approved_and_funded(amount: u128, funds: u128) -> CanisterState {
    let mut s = store_with_agreement(50, amount);
    s.fund_agreement(&who(1), 1, ag(), funds).unwrap();
    s.vote_milestone(&who(1), 2, &ag(), 7, true).unwrap();
    s.vote_milestone(&who(3), 3, &ag(), 7, true).unwrap();
    s
}

#[test]
fn successful_settlement_pays_once() {
    let mut s = approved_and_funded(30, 100);
    let st = s.begin_execution(&who(2), &ag(), 7).unwrap();
    assert_eq!(st.recipient.bytes, who(9).bytes);
    assert_eq!(s.begin_execution(&who(2), &ag(), 7).err(), Some(AgreementError::DuplicateOperation));
    let receipt = s.finish_execution(&who(2), 50, &ag(), 7, Ok(12)).unwrap();
    assert_eq!(receipt.block_index, 12);
    assert_eq!(receipt.amount, 30);
    assert_eq!(receipt.remaining_balance, 70);
    assert_eq!(s.get_agreement_balance(&ag()), 70);
    let m = &s.get_agreement(&ag()).unwrap().milestones[0];
    assert_eq!(m.status, MilestoneStatus::Executed);
    assert_eq!(m.executed_at, Some(50));
    assert_eq!(m.completed_at, Some(50));
    assert_eq!(s.begin_execution(&who(2), &ag(), 7).err(), Some(AgreementError::AlreadyExecuted));
    assert_eq!(s.finish_execution(&who(2), 51, &ag(), 7, Ok(13)), Err(AgreementError::NotFound(Missing::Settlement)));
    assert_eq!(s.get_agreement_balance(&ag()), 70);
}

#[test]
fn execution_errors() {
    let mut s = approved_and_funded(300, 100);
    assert_eq!(s.begin_execution(&who(1), &ag(), 7).err(),
        Some(AgreementError::InsufficientFunds { required: 300, available: 100 }));
    assert_eq!(s.begin_execution(&who(8), &ag(), 7).err(), Some(AgreementError::Unauthorized));
    assert_eq!(s.begin_execution(&who(1), &ag(), 9).err(), Some(AgreementError::NotFound(Missing::Milestone)));
    assert_eq!(s.begin_execution(&who(1), &"zz".to_string(), 7).err(), Some(AgreementError::NotFound(Missing::Agreement)));
    let mut t = store_with_agreement(50, 5);
    t.fund_agreement(&who(1), 1, ag(), 10).unwrap();
    assert_eq!(t.begin_execution(&who(1), &ag(), 7).err(), Some(AgreementError::InvalidState));
}

#[test]
fn participants_are_added_by_creator_or_admin() {
    let mut s = store_with_agreement(60, 5);
    assert_eq!(s.add_participant(&who(2), 1, &ag(), who(4)), Err(AgreementError::Unauthorized));
    assert_eq!(s.add_participant(&who(1), 1, &"zz".to_string(), who(4)), Err(AgreementError::NotFound(Missing::Agreement)));
    assert_eq!(s.add_participant(&who(1), 1, &ag(), who(2)), Err(AgreementError::AlreadyExists));
    assert_eq!(s.add_participant(&who(1), 1, &ag(), Identity::anonymous()),
        Err(AgreementError::InvalidInput(InputProblem::AnonymousParticipant)));
    assert_eq!(s.add_participant(&who(1), 1, &ag(), who(4)), Ok(()));
    assert_eq!(s.add_participant(&who(100), 1, &ag(), who(5)), Ok(()));
    assert_eq!(s.get_agreement(&ag()).unwrap().participants.len(), 4);
    assert_eq!(s.get_my_agreements(&who(5)).len(), 1);
    assert_eq!(s.get_my_agreements(&who(6)).len(), 0);
    assert!(s.is_participant(&ag(), &who(100)));
    assert!(!s.is_participant(&ag(), &who(6)));
}

#[test]
fn ledger_requests_and_outcomes() {
    let r = transfer_request(&Identity::anonymous(), &who(9), 5, vec![1], 3);
    assert!(matches!(r, Err(ICRC1TransferError::GenericError { error_code: 1, .. })));
    let args = transfer_request(&who(200), &who(9), 5, vec![1, 2], 3).ok().unwrap();
    assert_eq!(args.amount, 5);
    assert_eq!(args.to.owner.bytes, who(9).bytes);
    assert_eq!(args.memo, Some(vec![1, 2]));
    assert_eq!(args.created_at_time, Some(3));
    assert_eq!(transfer_outcome(Some(ICRC1TransferResult::Completed(4))), Ok(4));
    assert_eq!(transfer_outcome(Some(ICRC1TransferResult::Refused(ICRC1TransferError::TooOld))), Err(ICRC1TransferError::TooOld));
    assert_eq!(transfer_outcome(None), Err(ICRC1TransferError::TemporarilyUnavailable));
}

#[test]
fn mainnet_ledger_and_admin() {
    assert_eq!(Identity::anonymous().bytes, vec![4u8]);
    let mainnet = mainnet_ledger_id().unwrap();
    assert!(!mainnet.is_anonymous());
    let s = CanisterState::init(who(100), Identity::anonymous());
    assert!(s.get_ledger_canister_id().same_as(&mainnet));
    let mut t = CanisterState::init(who(100), who(200));
    assert!(t.get_ledger_canister_id().same_as(&who(200)));
    assert_eq!(t.use_mainnet_ledger(&who(1)), Err(AgreementError::Unauthorized));
    assert_eq!(t.use_mainnet_ledger(&who(100)), Ok(()));
    assert!(t.get_ledger_canister_id().same_as(&mainnet));
    assert_eq!(t.set_ledger_canister_id(&who(1), who(3)), Err(AgreementError::Unauthorized));
    assert_eq!(t.set_ledger_canister_id(&who(100), who(3)), Ok(()));
    assert!(t.get_ledger_canister_id().same_as(&who(3)));
}

#[test]
fn interleaved_payments_and_funding_stay_consistent() {
    let mut s = store();
    let ms = vec![milestone(7, 30, MilestoneType::ManualApproval), milestone(8, 50, MilestoneType::ManualApproval)];
    create(&mut s, 1, "ag", "T", vec![who(2)], ms, 50).unwrap();
    s.fund_agreement(&who(1), 1, ag(), 100).unwrap();
    for id in [7u64, 8] {
        s.vote_milestone(&who(1), 2, &ag(), id, true).unwrap();
    }
    s.begin_execution(&who(1), &ag(), 7).unwrap();
    s.begin_execution(&who(2), &ag(), 8).unwrap();
    assert_eq!(s.get_agreement_balance(&ag()), 20);
    assert_eq!(s.begin_execution(&who(1), &ag(), 7).err(), Some(AgreementError::DuplicateOperation));
    assert_eq!(s.fund_agreement(&who(2), 3, ag(), 10), Ok(30));
    let failed = s.finish_execution(&who(1), 4, &ag(), 7, Err(ICRC1TransferError::TooOld));
    assert_eq!(failed, Err(AgreementError::SettlementFailure(ICRC1TransferError::TooOld)));
    assert_eq!(s.get_agreement_balance(&ag()), 60);
    let paid = s.finish_execution(&who(2), 5, &ag(), 8, Ok(99)).unwrap();
    assert_eq!(paid.remaining_balance, 60);
    assert_eq!(s.get_agreement_balance(&ag()), 60);
    let a = s.get_agreement(&ag()).unwrap();
    assert_eq!(a.milestones[0].status, MilestoneStatus::Approved);
    assert_eq!(a.milestones[1].status, MilestoneStatus::Executed);
    assert!(s.begin_execution(&who(1), &ag(), 7).is_ok());
}

#[test]
fn funding_counts_reserved_amounts_against_overflow() {
    let mut s = store();
    create(&mut s, 1, "ag", "T", vec![], vec![milestone(7, u128::MAX / 2, MilestoneType::ManualApproval)], 50).unwrap();
    s.fund_agreement(&who(1), 1, ag(), u128::MAX / 2).unwrap();
    s.fund_agreement(&who(1), 1, ag(), u128::MAX / 2).unwrap();
    s.vote_milestone(&who(1), 2, &ag(), 7, true).unwrap();
    s.begin_execution(&who(1), &ag(), 7).unwrap();
    assert_eq!(s.get_agreement_balance(&ag()), u128::MAX / 2);
    assert_eq!(s.fund_agreement(&who(1), 3, ag(), 2), Err(AgreementError::Overflow));
    assert_eq!(s.fund_agreement(&who(1), 3, ag(), 1), Ok(u128::MAX / 2 + 1));
    s.finish_execution(&who(1), 4, &ag(), 7, Err(ICRC1TransferError::TemporarilyUnavailable)).unwrap_err();
    assert_eq!(s.get_agreement_balance(&ag()), u128::MAX);
}
