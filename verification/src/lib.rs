//! A sharded transaction ledger: deposits, withdrawals and the
//! dispute lifecycle (dispute, resolve, chargeback) applied to
//! per-client accounts, with overflow-checked fixed-point balances.
//!
//! The state machine that applies one transaction to one account and
//! its transaction history is fully specified and verified; queues,
//! threads and input/output adapters live outside this crate and hand
//! it plain values.

pub mod account_service;
pub mod shard;
pub mod tx;
pub mod tx_processor;
pub mod tx_service;
