//! The transaction state machine: applies one transaction to one
//! account and its transaction history.
//!
//! The spec functions below state, per transaction kind, exactly
//! which new account, which new history and which outcome a
//! transaction produces; `TransactionProcessor::process` is verified
//! to match them on every input. Every rejection leaves all state as
//! it was, except that looking a client up creates its empty account.

use vstd::prelude::*;

use crate::account_service::{
    account_new_spec, accounts_bounded, Account, AccountService, AccountServiceError,
};
use crate::tx::{AmountDecimal, ClientId, Transaction, TransactionId, TransactionType};
use crate::tx_service::{TransactionService, TransactionState, TransactionWithState};

verus! {

/// What one step of the machine leaves behind: the account, the
/// transaction history, and the outcome reported for the transaction.
pub type StepResult = (Account, Map<TransactionId, TransactionWithState>, Result<
    (),
    AccountServiceError,
>);

/// A deposit: requires an amount and a fresh transaction identity,
/// then credits `available`, rejecting a sum that would leave the
/// representable range. Only accepted deposits enter the history.
pub open spec fn deposit_spec(
    acc: Account,
    txs: Map<TransactionId, TransactionWithState>,
    tx: Transaction,
) -> StepResult {
    match tx.amount {
        None => (acc, txs, Err(AccountServiceError::EmptyTransactionAmount)),
        Some(amount) => if txs.contains_key(tx.tx_id) {
            (acc, txs, Err(AccountServiceError::TransactionDuplicate))
        } else if acc.available + acc.held + amount > u64::MAX {
            (acc, txs, Err(AccountServiceError::BalanceOverflow))
        } else {
            (
                Account { available: (acc.available + amount) as u64, ..acc },
                txs.insert(tx.tx_id, TransactionWithState { tx, state: TransactionState::Valid }),
                Ok(()),
            )
        },
    }
}

/// A withdrawal: requires an amount, a fresh transaction identity and
/// sufficient `available` funds, then debits `available`. It is never
/// recorded: withdrawals cannot be disputed in this design.
pub open spec fn withdrawal_spec(
    acc: Account,
    txs: Map<TransactionId, TransactionWithState>,
    tx: Transaction,
) -> StepResult {
    match tx.amount {
        None => (acc, txs, Err(AccountServiceError::EmptyTransactionAmount)),
        Some(amount) => if txs.contains_key(tx.tx_id) {
            (acc, txs, Err(AccountServiceError::TransactionDuplicate))
        } else if acc.available < amount {
            (acc, txs, Err(AccountServiceError::InsufficientBalance))
        } else {
            (Account { available: (acc.available - amount) as u64, ..acc }, txs, Ok(()))
        },
    }
}

/// A dispute: must carry no amount and reference a stored deposit of
/// the same client. Re-disputing a disputed record succeeds without
/// effect; a refunded record can never be disputed again; otherwise
/// the deposit's amount moves from `available` to `held` and the
/// record becomes `Disputed`.
pub open spec fn dispute_spec(
    acc: Account,
    txs: Map<TransactionId, TransactionWithState>,
    tx: Transaction,
) -> StepResult {
    if tx.amount is Some {
        (acc, txs, Err(AccountServiceError::TransactionAmountShouldBeEmpty))
    } else if !txs.contains_key(tx.tx_id) {
        (acc, txs, Err(AccountServiceError::TransactionNotFound))
    } else {
        let prev = txs[tx.tx_id];
        if prev.tx.client_id != tx.client_id {
            (acc, txs, Err(AccountServiceError::MismatchedClient(tx.client_id, prev.tx.client_id)))
        } else {
            match prev.state {
                TransactionState::Disputed => (acc, txs, Ok(())),
                TransactionState::Refunded => (acc, txs, Err(AccountServiceError::AlreadyRefunded)),
                TransactionState::Valid => if prev.tx.tx_type != TransactionType::Deposit {
                    (
                        acc,
                        txs,
                        Err(AccountServiceError::DisputeWrongTransactionType(prev.tx.tx_type)),
                    )
                } else {
                    match prev.tx.amount {
                        None => (acc, txs, Err(AccountServiceError::EmptyTransactionAmount)),
                        Some(amount) => if acc.available < amount {
                            (acc, txs, Err(AccountServiceError::InsufficientBalance))
                        } else if acc.held + amount > u64::MAX {
                            (acc, txs, Err(AccountServiceError::BalanceOverflow))
                        } else {
                            (
                                Account {
                                    available: (acc.available - amount) as u64,
                                    held: (acc.held + amount) as u64,
                                    ..acc
                                },
                                txs.insert(
                                    tx.tx_id,
                                    TransactionWithState {
                                        tx: prev.tx,
                                        state: TransactionState::Disputed,
                                    },
                                ),
                                Ok(()),
                            )
                        },
                    }
                },
            }
        }
    }
}

/// A resolve: must carry no amount and reference a stored deposit of
/// the same client. A record not under dispute is left alone with
/// success; otherwise the held amount returns to `available` and the
/// record becomes `Valid` again, open to a later dispute.
pub open spec fn resolve_spec(
    acc: Account,
    txs: Map<TransactionId, TransactionWithState>,
    tx: Transaction,
) -> StepResult {
    if tx.amount is Some {
        (acc, txs, Err(AccountServiceError::TransactionAmountShouldBeEmpty))
    } else if !txs.contains_key(tx.tx_id) {
        (acc, txs, Err(AccountServiceError::TransactionNotFound))
    } else {
        let prev = txs[tx.tx_id];
        if prev.tx.client_id != tx.client_id {
            (acc, txs, Err(AccountServiceError::MismatchedClient(tx.client_id, prev.tx.client_id)))
        } else if prev.state != TransactionState::Disputed {
            (acc, txs, Ok(()))
        } else {
            match prev.tx.amount {
                None => (acc, txs, Err(AccountServiceError::EmptyTransactionAmount)),
                Some(amount) => if acc.held < amount {
                    (acc, txs, Err(AccountServiceError::InsufficientHeldBalance))
                } else if acc.available + amount > u64::MAX {
                    (acc, txs, Err(AccountServiceError::BalanceOverflow))
                } else {
                    (
                        Account {
                            available: (acc.available + amount) as u64,
                            held: (acc.held - amount) as u64,
                            ..acc
                        },
                        txs.insert(
                            tx.tx_id,
                            TransactionWithState { tx: prev.tx, state: TransactionState::Valid },
                        ),
                        Ok(()),
                    )
                },
            }
        }
    }
}

/// A chargeback: must carry no amount and reference a stored deposit
/// of the same client. A record not under dispute is left alone with
/// success; otherwise the held amount is taken out for good, the
/// record becomes the terminal `Refunded`, and the account is locked
/// for the remainder of the run.
pub open spec fn chargeback_spec(
    acc: Account,
    txs: Map<TransactionId, TransactionWithState>,
    tx: Transaction,
) -> StepResult {
    if tx.amount is Some {
        (acc, txs, Err(AccountServiceError::TransactionAmountShouldBeEmpty))
    } else if !txs.contains_key(tx.tx_id) {
        (acc, txs, Err(AccountServiceError::TransactionNotFound))
    } else {
        let prev = txs[tx.tx_id];
        if prev.tx.client_id != tx.client_id {
            (acc, txs, Err(AccountServiceError::MismatchedClient(tx.client_id, prev.tx.client_id)))
        } else if prev.state != TransactionState::Disputed {
            (acc, txs, Ok(()))
        } else {
            match prev.tx.amount {
                None => (acc, txs, Err(AccountServiceError::EmptyTransactionAmount)),
                Some(amount) => if acc.held < amount {
                    (acc, txs, Err(AccountServiceError::InsufficientHeldBalance))
                } else {
                    (
                        Account { held: (acc.held - amount) as u64, locked: true, ..acc },
                        txs.insert(
                            tx.tx_id,
                            TransactionWithState { tx: prev.tx, state: TransactionState::Refunded },
                        ),
                        Ok(()),
                    )
                },
            }
        }
    }
}

/// One step of the machine on an already-looked-up account: a locked
/// account rejects every transaction outright; otherwise the step is
/// dispatched on the transaction's kind.
pub open spec fn step_spec(
    acc: Account,
    txs: Map<TransactionId, TransactionWithState>,
    tx: Transaction,
) -> StepResult {
    if acc.locked {
        (acc, txs, Err(AccountServiceError::AccountLocked))
    } else {
        match tx.tx_type {
            TransactionType::Deposit => deposit_spec(acc, txs, tx),
            TransactionType::Withdrawal => withdrawal_spec(acc, txs, tx),
            TransactionType::Dispute => dispute_spec(acc, txs, tx),
            TransactionType::Resolve => resolve_spec(acc, txs, tx),
            TransactionType::Chargeback => chargeback_spec(acc, txs, tx),
        }
    }
}

/// The account map after the lazily-created account for `client_id`
/// is in place: unchanged if the client is known, otherwise extended
/// with a fresh empty account.
pub open spec fn ensured_accounts(accs: Map<ClientId, Account>, client_id: ClientId) -> Map<
    ClientId,
    Account,
> {
    if accs.contains_key(client_id) {
        accs
    } else {
        accs.insert(client_id, account_new_spec(client_id, 0))
    }
}

/// What processing one transaction does to the whole store pair: the
/// client's account is created if need be, then one step of the
/// machine runs against it and the shared history.
pub open spec fn apply_spec(
    accs: Map<ClientId, Account>,
    txs: Map<TransactionId, TransactionWithState>,
    tx: Transaction,
) -> (Map<ClientId, Account>, Map<TransactionId, TransactionWithState>, Result<
    (),
    AccountServiceError,
>) {
    let pre = ensured_accounts(accs, tx.client_id);
    let stepped = step_spec(pre[tx.client_id], txs, tx);
    (pre.insert(tx.client_id, stepped.0), stepped.1, stepped.2)
}

/// The business logic: dispatches one transaction against the stores.
pub struct TransactionProcessor {}

/// A dispute-lifecycle transaction may only reference a record of its
/// own client; anything else is a data error.
fn check_client(prev_tx: &Transaction, tx: &Transaction) -> (r: Result<(), AccountServiceError>)
    ensures
        prev_tx.client_id == tx.client_id ==> r == Ok::<(), AccountServiceError>(()),
        prev_tx.client_id != tx.client_id ==> r == Err::<(), AccountServiceError>(
            AccountServiceError::MismatchedClient(tx.client_id, prev_tx.client_id),
        ),
{
    if prev_tx.client_id != tx.client_id {
        return Err(AccountServiceError::MismatchedClient(tx.client_id, prev_tx.client_id));
    }
    Ok(())
}

impl TransactionProcessor {
    /// Applies `tx` to its client's account and the shared history,
    /// exactly as `apply_spec` states, keeping the account store
    /// well-formed.
    pub fn process(
        account_service: &mut AccountService,
        tx_service: &mut TransactionService,
        tx: Transaction,
    ) -> (r: Result<(), AccountServiceError>)
        requires
            old(account_service).wf(),
        ensures
            final(account_service).wf(),
            ({
                let s = apply_spec(old(account_service)@, old(tx_service)@, tx);
                final(account_service)@ == s.0 && final(tx_service)@ == s.1 && r == s.2
            }),
            final(account_service).clients() == (if old(account_service)@.contains_key(
                tx.client_id,
            ) {
                old(account_service).clients()
            } else {
                old(account_service).clients().push(tx.client_id)
            }),
    {
        let ghost accs0 = *account_service;
        let ghost txs0 = *tx_service;
        let account = account_service.ensure_account(tx.client_id);
        if account.locked {
            proof {
                let pre = ensured_accounts(accs0@, tx.client_id);
                assert(pre.insert(tx.client_id, pre[tx.client_id]) =~= accs0@.insert(
                    tx.client_id,
                    pre[tx.client_id],
                ));
            }
            return Err(AccountServiceError::AccountLocked);
        }
        let r = match tx.tx_type {
            TransactionType::Deposit => TransactionProcessor::deposit(account, tx_service, tx),
            TransactionType::Withdrawal => TransactionProcessor::withdrawal(
                account,
                tx_service,
                tx,
            ),
            TransactionType::Dispute => TransactionProcessor::dispute(account, tx_service, tx),
            TransactionType::Resolve => TransactionProcessor::resolve(account, tx_service, tx),
            TransactionType::Chargeback => TransactionProcessor::chargeback(
                account,
                tx_service,
                tx,
            ),
        };
        proof {
            let pre = ensured_accounts(accs0@, tx.client_id);
            let stepped = step_spec(pre[tx.client_id], txs0@, tx);
            assert(pre.insert(tx.client_id, stepped.0) =~= accs0@.insert(
                tx.client_id,
                stepped.0,
            ));
            lemma_step_keeps_account_sound(pre[tx.client_id], txs0@, tx);
        }
        r
    }

    fn deposit(
        account: &mut Account,
        tx_service: &mut TransactionService,
        tx: Transaction,
    ) -> (r: Result<(), AccountServiceError>)
        ensures
            ({
                let s = deposit_spec(*old(account), old(tx_service)@, tx);
                *final(account) == s.0 && final(tx_service)@ == s.1 && r == s.2
            }),
    {
        let amount = match tx.amount {
            Some(v) => v,
            None => return Err(AccountServiceError::EmptyTransactionAmount),
        };
        if tx_service.trans.contains_key(&tx.tx_id) {
            return Err(AccountServiceError::TransactionDuplicate);
        }
        account.deposit(amount)?;
        // only accepted transactions are stored
        tx_service.set(tx.tx_id, TransactionWithState { tx, state: TransactionState::Valid });
        Ok(())
    }

    fn withdrawal(
        account: &mut Account,
        tx_service: &mut TransactionService,
        tx: Transaction,
    ) -> (r: Result<(), AccountServiceError>)
        ensures
            ({
                let s = withdrawal_spec(*old(account), old(tx_service)@, tx);
                *final(account) == s.0 && final(tx_service)@ == s.1 && r == s.2
            }),
    {
        let amount = match tx.amount {
            Some(v) => v,
            None => return Err(AccountServiceError::EmptyTransactionAmount),
        };
        if tx_service.trans.contains_key(&tx.tx_id) {
            return Err(AccountServiceError::TransactionDuplicate);
        }
        if account.available < amount {
            return Err(AccountServiceError::InsufficientBalance);
        }
        account.available -= amount;
        // withdrawals are not stored: they cannot be disputed here
        Ok(())
    }

    fn dispute(
        account: &mut Account,
        tx_service: &mut TransactionService,
        tx: Transaction,
    ) -> (r: Result<(), AccountServiceError>)
        ensures
            ({
                let s = dispute_spec(*old(account), old(tx_service)@, tx);
                *final(account) == s.0 && final(tx_service)@ == s.1 && r == s.2
            }),
    {
        if tx.amount.is_some() {
            return Err(AccountServiceError::TransactionAmountShouldBeEmpty);
        }
        let mut prev_tx_state = tx_service.get_mut(tx.tx_id)?;
        let prev_tx = prev_tx_state.tx;
        check_client(&prev_tx, &tx)?;
        match prev_tx_state.state {
            // a repeat dispute is harmless
            TransactionState::Disputed => return Ok(()),
            TransactionState::Refunded => return Err(AccountServiceError::AlreadyRefunded),
            TransactionState::Valid => {},
        }
        if prev_tx.tx_type != TransactionType::Deposit {
            return Err(AccountServiceError::DisputeWrongTransactionType(prev_tx.tx_type));
        }
        let amount = match prev_tx.amount {
            Some(v) => v,
            None => return Err(AccountServiceError::EmptyTransactionAmount),
        };
        account.held(amount)?;
        prev_tx_state.state = TransactionState::Disputed;
        tx_service.set(tx.tx_id, prev_tx_state);
        Ok(())
    }

    fn resolve(
        account: &mut Account,
        tx_service: &mut TransactionService,
        tx: Transaction,
    ) -> (r: Result<(), AccountServiceError>)
        ensures
            ({
                let s = resolve_spec(*old(account), old(tx_service)@, tx);
                *final(account) == s.0 && final(tx_service)@ == s.1 && r == s.2
            }),
    {
        if tx.amount.is_some() {
            return Err(AccountServiceError::TransactionAmountShouldBeEmpty);
        }
        let mut prev_tx_state = tx_service.get_mut(tx.tx_id)?;
        let prev_tx = prev_tx_state.tx;
        check_client(&prev_tx, &tx)?;
        // leave alone what is not under dispute
        if prev_tx_state.state != TransactionState::Disputed {
            return Ok(());
        }
        let amount = match prev_tx.amount {
            Some(v) => v,
            None => return Err(AccountServiceError::EmptyTransactionAmount),
        };
        account.resolve(amount)?;
        // the record can be disputed again
        prev_tx_state.state = TransactionState::Valid;
        tx_service.set(tx.tx_id, prev_tx_state);
        Ok(())
    }

    fn chargeback(
        account: &mut Account,
        tx_service: &mut TransactionService,
        tx: Transaction,
    ) -> (r: Result<(), AccountServiceError>)
        ensures
            ({
                let s = chargeback_spec(*old(account), old(tx_service)@, tx);
                *final(account) == s.0 && final(tx_service)@ == s.1 && r == s.2
            }),
    {
        if tx.amount.is_some() {
            return Err(AccountServiceError::TransactionAmountShouldBeEmpty);
        }
        let mut prev_tx_state = tx_service.get_mut(tx.tx_id)?;
        let prev_tx = prev_tx_state.tx;
        check_client(&prev_tx, &tx)?;
        // leave alone what is not under dispute
        if prev_tx_state.state != TransactionState::Disputed {
            return Ok(());
        }
        let amount = match prev_tx.amount {
            Some(v) => v,
            None => return Err(AccountServiceError::EmptyTransactionAmount),
        };
        if account.held < amount {
            return Err(AccountServiceError::InsufficientHeldBalance);
        }
        account.held -= amount;
        account.locked = true;
        prev_tx_state.state = TransactionState::Refunded;
        tx_service.set(tx.tx_id, prev_tx_state);
        Ok(())
    }
}

/// Replacing a key by the value it already has changes nothing.
proof fn lemma_insert_existing<K, V>(m: Map<K, V>, k: K)
    requires
        m.contains_key(k),
    ensures
        m.insert(k, m[k]) == m,
{
    assert(m.insert(k, m[k]) =~= m);
}

/// Only the last of two writes to one key is left.
proof fn lemma_insert_twice<K, V>(m: Map<K, V>, k: K, v1: V, v2: V)
    ensures
        m.insert(k, v1).insert(k, v2) == m.insert(k, v2),
{
    assert(m.insert(k, v1).insert(k, v2) =~= m.insert(k, v2));
}

/// An accepted deposit credits exactly its amount to `available` and
/// touches nothing else; a deposit whose sum would overflow is
/// rejected with `BalanceOverflow` and has no effect at all. Nothing
/// silently wraps.
pub proof fn lemma_deposit_exact(
    accs: Map<ClientId, Account>,
    txs: Map<TransactionId, TransactionWithState>,
    tx: Transaction,
    amount: AmountDecimal,
)
    requires
        tx.tx_type == TransactionType::Deposit,
        tx.amount == Some(amount),
        !ensured_accounts(accs, tx.client_id)[tx.client_id].locked,
        !txs.contains_key(tx.tx_id),
    ensures
        ({
            let pre = ensured_accounts(accs, tx.client_id);
            let s = apply_spec(accs, txs, tx);
            &&& pre[tx.client_id].available + pre[tx.client_id].held + amount <= u64::MAX ==> (s.2
                == Ok::<(), AccountServiceError>(()) && s.0[tx.client_id].available
                == pre[tx.client_id].available + amount && s.0[tx.client_id].held
                == pre[tx.client_id].held && s.0[tx.client_id].locked == pre[tx.client_id].locked)
            &&& pre[tx.client_id].available + pre[tx.client_id].held + amount > u64::MAX ==> (s.2
                == Err::<(), AccountServiceError>(AccountServiceError::BalanceOverflow) && s.0
                == pre && s.1 == txs)
        }),
{
    let pre = ensured_accounts(accs, tx.client_id);
    if pre[tx.client_id].available + pre[tx.client_id].held + amount > u64::MAX {
        lemma_insert_existing(pre, tx.client_id);
    }
}

/// Every account of every state the machine can produce keeps both
/// balances non-negative (they are unsigned) and their sum
/// representable, whatever the transaction was.
pub proof fn lemma_apply_preserves_bounds(
    accs: Map<ClientId, Account>,
    txs: Map<TransactionId, TransactionWithState>,
    tx: Transaction,
)
    requires
        accounts_bounded(accs),
    ensures
        accounts_bounded(apply_spec(accs, txs, tx).0),
        forall|c: ClientId|
            apply_spec(accs, txs, tx).0.contains_key(c) ==> (#[trigger] apply_spec(
                accs,
                txs,
                tx,
            ).0[c]).available >= 0 && apply_spec(accs, txs, tx).0[c].held >= 0,
{
    let pre = ensured_accounts(accs, tx.client_id);
    lemma_step_keeps_account_sound(pre[tx.client_id], txs, tx);
}

/// A deposit or withdrawal reusing a stored transaction identity is
/// always rejected with `TransactionDuplicate` and counted at most
/// once: account and history stay exactly as they were.
pub proof fn lemma_duplicate_rejected(
    accs: Map<ClientId, Account>,
    txs: Map<TransactionId, TransactionWithState>,
    tx: Transaction,
)
    requires
        tx.tx_type == TransactionType::Deposit || tx.tx_type == TransactionType::Withdrawal,
        tx.amount is Some,
        txs.contains_key(tx.tx_id),
        !ensured_accounts(accs, tx.client_id)[tx.client_id].locked,
    ensures
        apply_spec(accs, txs, tx).2 == Err::<(), AccountServiceError>(
            AccountServiceError::TransactionDuplicate,
        ),
        apply_spec(accs, txs, tx).0 == ensured_accounts(accs, tx.client_id),
        apply_spec(accs, txs, tx).1 == txs,
{
    lemma_insert_existing(ensured_accounts(accs, tx.client_id), tx.client_id);
}

/// Dispute then resolve on the same deposit is a round trip: both
/// succeed and the account and the history come back exactly to where
/// they stood before the dispute.
pub proof fn lemma_dispute_resolve_round_trip(
    accs: Map<ClientId, Account>,
    txs: Map<TransactionId, TransactionWithState>,
    d: Transaction,
    rs: Transaction,
    amount: AmountDecimal,
)
    requires
        accounts_bounded(accs),
        d.tx_type == TransactionType::Dispute,
        rs.tx_type == TransactionType::Resolve,
        d.amount is None,
        rs.amount is None,
        d.tx_id == rs.tx_id,
        d.client_id == rs.client_id,
        accs.contains_key(d.client_id),
        !accs[d.client_id].locked,
        txs.contains_key(d.tx_id),
        txs[d.tx_id].state == TransactionState::Valid,
        txs[d.tx_id].tx.tx_type == TransactionType::Deposit,
        txs[d.tx_id].tx.client_id == d.client_id,
        txs[d.tx_id].tx.amount == Some(amount),
        amount <= accs[d.client_id].available,
    ensures
        ({
            let s1 = apply_spec(accs, txs, d);
            let s2 = apply_spec(s1.0, s1.1, rs);
            s1.2 == Ok::<(), AccountServiceError>(()) && s2.2 == Ok::<(), AccountServiceError>(())
                && s2.0 == accs && s2.1 == txs
        }),
{
    let c = d.client_id;
    let acc = accs[c];
    let s1 = apply_spec(accs, txs, d);
    let disputed = Account {
        available: (acc.available - amount) as u64,
        held: (acc.held + amount) as u64,
        ..acc
    };
    assert(s1.0 == accs.insert(c, disputed));
    let s2 = apply_spec(s1.0, s1.1, rs);
    assert(s2.0 == accs.insert(c, disputed).insert(c, acc));
    lemma_insert_twice(accs, c, disputed, acc);
    lemma_insert_existing(accs, c);
    let rec = txs[d.tx_id];
    lemma_insert_twice(
        txs,
        d.tx_id,
        TransactionWithState { tx: rec.tx, state: TransactionState::Disputed },
        rec,
    );
    lemma_insert_existing(txs, d.tx_id);
}

/// A chargeback on a disputed deposit succeeds, removes the held
/// amount for good, marks the record `Refunded` and locks the
/// account.
pub proof fn lemma_chargeback_locks(
    accs: Map<ClientId, Account>,
    txs: Map<TransactionId, TransactionWithState>,
    tx: Transaction,
    amount: AmountDecimal,
)
    requires
        tx.tx_type == TransactionType::Chargeback,
        tx.amount is None,
        !ensured_accounts(accs, tx.client_id)[tx.client_id].locked,
        txs.contains_key(tx.tx_id),
        txs[tx.tx_id].state == TransactionState::Disputed,
        txs[tx.tx_id].tx.client_id == tx.client_id,
        txs[tx.tx_id].tx.amount == Some(amount),
        amount <= ensured_accounts(accs, tx.client_id)[tx.client_id].held,
    ensures
        apply_spec(accs, txs, tx).2 == Ok::<(), AccountServiceError>(()),
        apply_spec(accs, txs, tx).0[tx.client_id].locked,
        apply_spec(accs, txs, tx).0[tx.client_id].held == ensured_accounts(
            accs,
            tx.client_id,
        )[tx.client_id].held - amount,
        apply_spec(accs, txs, tx).0[tx.client_id].available == ensured_accounts(
            accs,
            tx.client_id,
        )[tx.client_id].available,
        apply_spec(accs, txs, tx).1[tx.tx_id].state == TransactionState::Refunded,
{
}

/// A locked account is locked for good: every transaction of every
/// kind addressed to it is rejected with `AccountLocked` and changes
/// nothing.
pub proof fn lemma_locked_rejects_all(
    accs: Map<ClientId, Account>,
    txs: Map<TransactionId, TransactionWithState>,
    tx: Transaction,
)
    requires
        accs.contains_key(tx.client_id),
        accs[tx.client_id].locked,
    ensures
        apply_spec(accs, txs, tx).2 == Err::<(), AccountServiceError>(
            AccountServiceError::AccountLocked,
        ),
        apply_spec(accs, txs, tx).0 == accs,
        apply_spec(accs, txs, tx).1 == txs,
{
    lemma_insert_existing(accs, tx.client_id);
}

/// Whatever one transaction does, an account that was locked before
/// it is still there and still locked after it.
pub proof fn lemma_apply_keeps_lock(
    accs: Map<ClientId, Account>,
    txs: Map<TransactionId, TransactionWithState>,
    tx: Transaction,
    c: ClientId,
)
    requires
        accs.contains_key(c),
        accs[c].locked,
    ensures
        apply_spec(accs, txs, tx).0.contains_key(c),
        apply_spec(accs, txs, tx).0[c].locked,
{
}

/// Re-disputing a record that is already under dispute is a no-op
/// success: no error, no balance moved, no record changed.
pub proof fn lemma_redispute_noop(
    accs: Map<ClientId, Account>,
    txs: Map<TransactionId, TransactionWithState>,
    tx: Transaction,
)
    requires
        tx.tx_type == TransactionType::Dispute,
        tx.amount is None,
        !ensured_accounts(accs, tx.client_id)[tx.client_id].locked,
        txs.contains_key(tx.tx_id),
        txs[tx.tx_id].state == TransactionState::Disputed,
        txs[tx.tx_id].tx.client_id == tx.client_id,
    ensures
        apply_spec(accs, txs, tx).2 == Ok::<(), AccountServiceError>(()),
        apply_spec(accs, txs, tx).0 == ensured_accounts(accs, tx.client_id),
        apply_spec(accs, txs, tx).1 == txs,
{
    lemma_insert_existing(ensured_accounts(accs, tx.client_id), tx.client_id);
}

/// Resolving or charging back a record that is not currently under
/// dispute is a no-op success: no error, no balance moved, no record
/// changed.
pub proof fn lemma_not_disputed_noop(
    accs: Map<ClientId, Account>,
    txs: Map<TransactionId, TransactionWithState>,
    tx: Transaction,
)
    requires
        tx.tx_type == TransactionType::Resolve || tx.tx_type == TransactionType::Chargeback,
        tx.amount is None,
        !ensured_accounts(accs, tx.client_id)[tx.client_id].locked,
        txs.contains_key(tx.tx_id),
        txs[tx.tx_id].state != TransactionState::Disputed,
        txs[tx.tx_id].tx.client_id == tx.client_id,
    ensures
        apply_spec(accs, txs, tx).2 == Ok::<(), AccountServiceError>(()),
        apply_spec(accs, txs, tx).0 == ensured_accounts(accs, tx.client_id),
        apply_spec(accs, txs, tx).1 == txs,
{
    lemma_insert_existing(ensured_accounts(accs, tx.client_id), tx.client_id);
}

/// One step never hands an account to another client and never makes
/// `available + held` unrepresentable.
pub proof fn lemma_step_keeps_account_sound(
    acc: Account,
    txs: Map<TransactionId, TransactionWithState>,
    tx: Transaction,
)
    requires
        acc.available + acc.held <= u64::MAX,
    ensures
        step_spec(acc, txs, tx).0.client_id == acc.client_id,
        step_spec(acc, txs, tx).0.available + step_spec(acc, txs, tx).0.held <= u64::MAX,
{
}

} // verus!
