//! Replay of a ledger of client transactions into final account balances.

pub mod account;
pub mod amount;
pub mod processor;
pub mod transaction;
