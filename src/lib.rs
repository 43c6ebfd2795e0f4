//! Per-client account balances driven by a stream of deposits, withdrawals,
//! disputes, resolutions and chargebacks.

pub mod account;
pub mod amount;
pub mod lemmas;
pub mod parse;
pub mod transaction;
