//! Multi-party agreements whose milestones are paid out of an escrow balance
//! once their release conditions hold and the participants have voted.

pub mod agreement;
pub mod analysis;
pub mod conditions;
pub mod documents;
pub mod escrow;
pub mod guard;
pub mod identity;
pub mod laws;
pub mod ledger;
pub mod registry;
pub mod search;
pub mod state;
pub mod types;
pub mod validation;
pub mod voting;
