//! The per-shard transaction history: every accepted deposit, with
//! its place in the dispute lifecycle.

use vstd::prelude::*;

use std::collections::HashMap;

use crate::account_service::AccountServiceError;
use crate::tx::{Transaction, TransactionId};

verus! {

/// Where a stored deposit stands in the dispute lifecycle:
/// `Valid -> Disputed -> Valid` can repeat, `Refunded` is terminal.
#[derive(Debug, Copy, Clone, PartialEq, Eq, Structural)]
pub enum TransactionState {
    Valid,
    Disputed,
    Refunded,
}

/// A stored transaction together with its lifecycle state.
#[derive(Debug, Copy, Clone)]
pub struct TransactionWithState {
    pub tx: Transaction,
    pub state: TransactionState,
}

/// The in-memory transaction history, keyed by transaction identity.
/// Only accepted deposits are recorded: withdrawals cannot be
/// disputed in this design, so nothing retains them.
pub struct TransactionService {
    pub trans: HashMap<TransactionId, TransactionWithState>,
}

impl View for TransactionService {
    type V = Map<TransactionId, TransactionWithState>;

    open spec fn view(&self) -> Map<TransactionId, TransactionWithState> {
        self.trans@
    }
}

impl TransactionService {
    pub fn new() -> (s: TransactionService)
        ensures
            s@ == Map::<TransactionId, TransactionWithState>::empty(),
    {
        Self { trans: HashMap::new() }
    }

    /// Looks a stored transaction up by identity, handing back a copy
    /// of the record; `TransactionNotFound` names the only way it can
    /// fail. Updates go back in through `set`.
    pub fn get_mut(&mut self, transaction_id: TransactionId) -> (r: Result<
        TransactionWithState,
        AccountServiceError,
    >)
        ensures
            *final(self) == *old(self),
            old(self)@.contains_key(transaction_id) ==> r == Ok::<
                TransactionWithState,
                AccountServiceError,
            >(old(self)@[transaction_id]),
            !old(self)@.contains_key(transaction_id) ==> r == Err::<
                TransactionWithState,
                AccountServiceError,
            >(AccountServiceError::TransactionNotFound),
    {
        match self.trans.get(&transaction_id) {
            Some(t) => Ok(*t),
            None => Err(AccountServiceError::TransactionNotFound),
        }
    }

    /// Stores `record` under `transaction_id`, replacing any previous
    /// record with that identity.
    pub fn set(&mut self, transaction_id: TransactionId, record: TransactionWithState)
        ensures
            final(self)@ == old(self)@.insert(transaction_id, record),
    {
        self.trans.insert(transaction_id, record);
    }
}

} // verus!
