//! A sharded ledger of client accounts: deposits, withdrawals and the
//! dispute lifecycle, routed to independent lanes by client.

pub mod amount;
pub mod engine;
pub mod shard;
pub mod export;
pub mod record;
