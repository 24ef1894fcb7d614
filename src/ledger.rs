use crate::identity::Identity;
use vstd::prelude::*;

verus! {

/// The textual id of the ICP ledger on mainnet.
pub const MAINNET_LEDGER_CANISTER_ID: &'static str = "ryjl3-tyaaa-aaaaa-aaaba-cai";

/// The bytes of the principal that a text denotes, if it denotes one.
pub uninterp spec fn principal_of_text(text: Seq<char>) -> Option<Seq<u8>>;

/// Relies on candid's `Principal::from_text` and `Principal::as_slice`: parses the textual
/// form of a principal, checksum included.
#[verifier::external_body]
fn principal_from_text(text: &str) -> (r: Option<Vec<u8>>)
    ensures
        match r {
            Some(b) => principal_of_text(text@) == Some(b@),
            None => principal_of_text(text@) is None,
        },
{
    match candid::Principal::from_text(text) {
        Ok(p) => Some(p.as_slice().to_vec()),
        Err(_) => None,
    }
}

/// The mainnet ledger's principal.
pub fn mainnet_ledger_id() -> (r: Option<Identity>)
    ensures
        match r {
            Some(id) => principal_of_text(MAINNET_LEDGER_CANISTER_ID@) == Some(id@),
            None => principal_of_text(MAINNET_LEDGER_CANISTER_ID@) is None,
        },
{
    match principal_from_text(MAINNET_LEDGER_CANISTER_ID) {
        Some(bytes) => Some(Identity::from_bytes(bytes)),
        None => None,
    }
}

pub struct ICRC1Account {
    pub owner: Identity,
    pub subaccount: Option<Vec<u8>>,
}

pub struct ICRC1TransferArgs {
    pub from_subaccount: Option<Vec<u8>>,
    pub to: ICRC1Account,
    pub amount: u128,
    pub fee: Option<u128>,
    pub memo: Option<Vec<u8>>,
    pub created_at_time: Option<u64>,
}

#[derive(PartialEq, Eq, Debug)]
pub enum ICRC1TransferResult {
    /// The block index of the transfer.
    Completed(u128),
    Refused(ICRC1TransferError),
}

#[derive(PartialEq, Eq, Debug)]
pub enum ICRC1TransferError {
    BadFee { expected_fee: u128 },
    BadBurn { min_burn_amount: u128 },
    InsufficientFunds { balance: u128 },
    TooOld,
    CreatedInFuture { ledger_time: u64 },
    Duplicate { duplicate_of: u128 },
    TemporarilyUnavailable,
    GenericError { error_code: u128, message: String },
}

/// The transfer to ask the ledger for: `amount` to `to`'s default account, with `memo`,
/// stamped `now`. Refused, with error code 1, while no ledger is set (the anonymous
/// principal stands for none).
pub fn transfer_request(ledger: &Identity, to: &Identity, amount: u128, memo: Vec<u8>, now: u64) -> (r: Result<ICRC1TransferArgs, ICRC1TransferError>)
    ensures
        ledger@ == crate::identity::anonymous_bytes() ==> (r matches Err(
            ICRC1TransferError::GenericError { error_code, .. },
        ) && error_code == 1),
        ledger@ != crate::identity::anonymous_bytes() ==> (r matches Ok(args) && {
            &&& args.from_subaccount is None
            &&& args.to.owner@ == to@
            &&& args.to.subaccount is None
            &&& args.amount == amount
            &&& args.fee is None
            &&& args.memo == Some(memo)
            &&& args.created_at_time == Some(now)
        }),
{
    if ledger.is_anonymous() {
        return Err(
            ICRC1TransferError::GenericError {
                error_code: 1,
                message: String::from_str("Ledger canister ID not set"),
            },
        );
    }
    Ok(
        ICRC1TransferArgs {
            from_subaccount: None,
            to: ICRC1Account { owner: to.clone(), subaccount: None },
            amount,
            fee: None,
            memo: Some(memo),
            created_at_time: Some(now),
        },
    )
}

/// What a transfer came to: the ledger's block index, the ledger's own error, or, where the
/// call itself failed (`None`), a temporarily unavailable ledger.
pub fn transfer_outcome(reply: Option<ICRC1TransferResult>) -> (r: Result<u128, ICRC1TransferError>)
    ensures
        match reply {
            Some(ICRC1TransferResult::Completed(block)) => r == Ok::<u128, ICRC1TransferError>(block),
            Some(ICRC1TransferResult::Refused(e)) => r == Err::<u128, ICRC1TransferError>(e),
            None => r == Err::<u128, ICRC1TransferError>(ICRC1TransferError::TemporarilyUnavailable),
        },
{
    match reply {
        Some(ICRC1TransferResult::Completed(block)) => Ok(block),
        Some(ICRC1TransferResult::Refused(e)) => Err(e),
        None => Err(ICRC1TransferError::TemporarilyUnavailable),
    }
}

} // verus!
