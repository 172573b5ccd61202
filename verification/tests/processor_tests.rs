use tx::account_service::{AccountService, AccountServiceError};
use tx::tx::{Transaction, TransactionType};
use tx::tx_processor::TransactionProcessor;
use tx::tx_service::{TransactionService, TransactionState, TransactionWithState};

fn deposit(tx_id: u32, client_id: u16, amount: u64) -> Transaction {
    Transaction {
        tx_type: TransactionType::Deposit,
        client_id,
        tx_id,
        amount: Some(amount),
    }
}

fn lifecycle(tx_type: TransactionType, tx_id: u32, client_id: u16) -> Transaction {
    Transaction {
        tx_type,
        client_id,
        tx_id,
        amount: None,
    }
}

#[test]
fn resolve_dispute_and_open_dispute_again() {
    let mut accounts = AccountService::new();
    let mut tx_service = TransactionService::new();

    let deposit_trans = Transaction {
        tx_id: 13,
        tx_type: TransactionType::Deposit,
        client_id: 7,
        amount: Some(1000),
    };
    TransactionProcessor::process(&mut accounts, &mut tx_service, deposit_trans).unwrap();

    let dispute_trans = Transaction {
        tx_id: deposit_trans.tx_id,
        tx_type: TransactionType::Dispute,
        client_id: 7,
        amount: None,
    };
    TransactionProcessor::process(&mut accounts, &mut tx_service, dispute_trans).unwrap();
    let account = accounts.ensure_account(7);
    assert_eq!(0, account.available);
    assert_eq!(1000, account.held);

    let resolve_trans = Transaction {
        tx_id: deposit_trans.tx_id,
        tx_type: TransactionType::Resolve,
        client_id: 7,
        amount: None,
    };
    TransactionProcessor::process(&mut accounts, &mut tx_service, resolve_trans).unwrap();
    let account = accounts.ensure_account(7);
    assert_eq!(1000, account.available);
    assert_eq!(0, account.held);

    // dispute again
    TransactionProcessor::process(&mut accounts, &mut tx_service, dispute_trans).unwrap();
    TransactionProcessor::process(&mut accounts, &mut tx_service, dispute_trans).unwrap();

    let account = accounts.ensure_account(7);
    assert_eq!(0, account.available);
    assert_eq!(1000, account.held);

    let refound_trans = Transaction {
        tx_id: deposit_trans.tx_id,
        tx_type: TransactionType::Chargeback,
        client_id: 7,
        amount: None,
    };

    TransactionProcessor::process(&mut accounts, &mut tx_service, refound_trans).unwrap();

    let result = TransactionProcessor::process(&mut accounts, &mut tx_service, dispute_trans);
    let expected = Err(AccountServiceError::AccountLocked);
    assert_eq!(expected, result);

    let account = accounts.ensure_account(7);
    assert_eq!(0, account.available);
    assert_eq!(0, account.held);
}

#[test]
fn tx_not_found_error() {
    let mut accounts = AccountService::new();
    let mut tx_service = TransactionService::new();

    let refound_trans = Transaction {
        tx_id: 13,
        tx_type: TransactionType::Chargeback,
        client_id: 7,
        amount: None,
    };

    let result = TransactionProcessor::process(&mut accounts, &mut tx_service, refound_trans);
    let expected = Err(AccountServiceError::TransactionNotFound);
    assert_eq!(expected, result);

    let account = accounts.ensure_account(7);
    assert_eq!(0, account.available);
    assert_eq!(0, account.held);

    let deposit_trans = Transaction {
        tx_id: 13,
        tx_type: TransactionType::Deposit,
        client_id: 7,
        amount: Some(1000),
    };
    TransactionProcessor::process(&mut accounts, &mut tx_service, deposit_trans).unwrap();

    let account = accounts.ensure_account(7);
    assert_eq!(1000, account.available);
    assert_eq!(0, account.held);

    // should be skipped
    TransactionProcessor::process(&mut accounts, &mut tx_service, refound_trans).unwrap();
    let account = accounts.ensure_account(7);
    assert_eq!(1000, account.available);
    assert_eq!(0, account.held);

    let dispute_trans = Transaction {
        tx_id: deposit_trans.tx_id,
        tx_type: TransactionType::Dispute,
        client_id: 7,
        amount: None,
    };
    TransactionProcessor::process(&mut accounts, &mut tx_service, dispute_trans).unwrap();

    TransactionProcessor::process(&mut accounts, &mut tx_service, refound_trans).unwrap();
    let account = accounts.ensure_account(7);
    assert_eq!(0, account.available);
    assert_eq!(0, account.held);
    assert_eq!(true, account.locked);
}

#[test]
fn deposit_credits_available() {
    let mut accounts = AccountService::new();
    let mut tx_service = TransactionService::new();
    // 100.00 at a scale of 1000
    TransactionProcessor::process(&mut accounts, &mut tx_service, deposit(1, 7, 100_000)).unwrap();
    let account = accounts.ensure_account(7);
    assert_eq!(100_000, account.available);
    assert_eq!(0, account.held);
}

#[test]
fn dispute_moves_amount_to_held() {
    let mut accounts = AccountService::new();
    let mut tx_service = TransactionService::new();
    TransactionProcessor::process(&mut accounts, &mut tx_service, deposit(1, 7, 100_000)).unwrap();
    TransactionProcessor::process(
        &mut accounts,
        &mut tx_service,
        lifecycle(TransactionType::Dispute, 1, 7),
    )
    .unwrap();
    let account = accounts.ensure_account(7);
    assert_eq!(0, account.available);
    assert_eq!(100_000, account.held);
    assert_eq!(
        tx_service.get_mut(1).unwrap().state,
        TransactionState::Disputed
    );
}

#[test]
fn resolve_returns_amount_to_available() {
    let mut accounts = AccountService::new();
    let mut tx_service = TransactionService::new();
    TransactionProcessor::process(&mut accounts, &mut tx_service, deposit(1, 7, 100_000)).unwrap();
    TransactionProcessor::process(
        &mut accounts,
        &mut tx_service,
        lifecycle(TransactionType::Dispute, 1, 7),
    )
    .unwrap();
    TransactionProcessor::process(
        &mut accounts,
        &mut tx_service,
        lifecycle(TransactionType::Resolve, 1, 7),
    )
    .unwrap();
    let account = accounts.ensure_account(7);
    assert_eq!(100_000, account.available);
    assert_eq!(0, account.held);
    assert_eq!(
        tx_service.get_mut(1).unwrap().state,
        TransactionState::Valid
    );
}

#[test]
fn chargeback_locks_the_account() {
    let mut accounts = AccountService::new();
    let mut tx_service = TransactionService::new();
    TransactionProcessor::process(&mut accounts, &mut tx_service, deposit(1, 7, 100_000)).unwrap();
    TransactionProcessor::process(
        &mut accounts,
        &mut tx_service,
        lifecycle(TransactionType::Dispute, 1, 7),
    )
    .unwrap();
    TransactionProcessor::process(
        &mut accounts,
        &mut tx_service,
        lifecycle(TransactionType::Chargeback, 1, 7),
    )
    .unwrap();
    let account = accounts.ensure_account(7);
    assert_eq!(0, account.available);
    assert_eq!(0, account.held);
    assert_eq!(true, account.locked);
    assert_eq!(
        tx_service.get_mut(1).unwrap().state,
        TransactionState::Refunded
    );
    // locking is permanent: every later transaction is rejected
    assert_eq!(
        TransactionProcessor::process(&mut accounts, &mut tx_service, deposit(2, 7, 1)),
        Err(AccountServiceError::AccountLocked)
    );
}

#[test]
fn dispute_of_unknown_tx_changes_nothing() {
    let mut accounts = AccountService::new();
    let mut tx_service = TransactionService::new();
    TransactionProcessor::process(&mut accounts, &mut tx_service, deposit(1, 7, 100_000)).unwrap();
    assert_eq!(
        TransactionProcessor::process(
            &mut accounts,
            &mut tx_service,
            lifecycle(TransactionType::Dispute, 99, 7),
        ),
        Err(AccountServiceError::TransactionNotFound)
    );
    let account = accounts.ensure_account(7);
    assert_eq!(100_000, account.available);
    assert_eq!(0, account.held);
}

#[test]
fn withdrawal_beyond_available_is_rejected() {
    let mut accounts = AccountService::new();
    let mut tx_service = TransactionService::new();
    // 30.00 available, 50.00 asked for
    TransactionProcessor::process(&mut accounts, &mut tx_service, deposit(1, 7, 30_000)).unwrap();
    let withdrawal = Transaction {
        tx_type: TransactionType::Withdrawal,
        client_id: 7,
        tx_id: 2,
        amount: Some(50_000),
    };
    assert_eq!(
        TransactionProcessor::process(&mut accounts, &mut tx_service, withdrawal),
        Err(AccountServiceError::InsufficientBalance)
    );
    let account = accounts.ensure_account(7);
    assert_eq!(30_000, account.available);
    assert_eq!(0, account.held);
}

#[test]
fn withdrawal_debits_available() {
    let mut accounts = AccountService::new();
    let mut tx_service = TransactionService::new();
    TransactionProcessor::process(&mut accounts, &mut tx_service, deposit(1, 7, 100_000)).unwrap();
    let withdrawal = Transaction {
        tx_type: TransactionType::Withdrawal,
        client_id: 7,
        tx_id: 2,
        amount: Some(40_000),
    };
    TransactionProcessor::process(&mut accounts, &mut tx_service, withdrawal).unwrap();
    let account = accounts.ensure_account(7);
    assert_eq!(60_000, account.available);
}

#[test]
fn duplicate_tx_id_is_never_double_counted() {
    let mut accounts = AccountService::new();
    let mut tx_service = TransactionService::new();
    TransactionProcessor::process(&mut accounts, &mut tx_service, deposit(1, 7, 1000)).unwrap();
    assert_eq!(
        TransactionProcessor::process(&mut accounts, &mut tx_service, deposit(1, 7, 1000)),
        Err(AccountServiceError::TransactionDuplicate)
    );
    let duplicate_withdrawal = Transaction {
        tx_type: TransactionType::Withdrawal,
        client_id: 7,
        tx_id: 1,
        amount: Some(500),
    };
    assert_eq!(
        TransactionProcessor::process(&mut accounts, &mut tx_service, duplicate_withdrawal),
        Err(AccountServiceError::TransactionDuplicate)
    );
    let account = accounts.ensure_account(7);
    assert_eq!(1000, account.available);
}

#[test]
fn deposit_overflow_is_rejected_not_wrapped() {
    let mut accounts = AccountService::new();
    let mut tx_service = TransactionService::new();
    TransactionProcessor::process(&mut accounts, &mut tx_service, deposit(1, 7, u64::MAX))
        .unwrap();
    assert_eq!(
        TransactionProcessor::process(&mut accounts, &mut tx_service, deposit(2, 7, 1)),
        Err(AccountServiceError::BalanceOverflow)
    );
    let account = accounts.ensure_account(7);
    assert_eq!(u64::MAX, account.available);
}

#[test]
fn dispute_after_withdrawal_can_lack_funds() {
    let mut accounts = AccountService::new();
    let mut tx_service = TransactionService::new();
    TransactionProcessor::process(&mut accounts, &mut tx_service, deposit(1, 7, 100_000)).unwrap();
    let withdrawal = Transaction {
        tx_type: TransactionType::Withdrawal,
        client_id: 7,
        tx_id: 2,
        amount: Some(80_000),
    };
    TransactionProcessor::process(&mut accounts, &mut tx_service, withdrawal).unwrap();
    // the deposit's amount is no longer fully available
    assert_eq!(
        TransactionProcessor::process(
            &mut accounts,
            &mut tx_service,
            lifecycle(TransactionType::Dispute, 1, 7),
        ),
        Err(AccountServiceError::InsufficientBalance)
    );
    let account = accounts.ensure_account(7);
    assert_eq!(20_000, account.available);
    assert_eq!(0, account.held);
}

#[test]
fn redispute_of_disputed_record_is_noop_success() {
    let mut accounts = AccountService::new();
    let mut tx_service = TransactionService::new();
    TransactionProcessor::process(&mut accounts, &mut tx_service, deposit(1, 7, 100_000)).unwrap();
    TransactionProcessor::process(
        &mut accounts,
        &mut tx_service,
        lifecycle(TransactionType::Dispute, 1, 7),
    )
    .unwrap();
    TransactionProcessor::process(
        &mut accounts,
        &mut tx_service,
        lifecycle(TransactionType::Dispute, 1, 7),
    )
    .unwrap();
    let account = accounts.ensure_account(7);
    assert_eq!(0, account.available);
    assert_eq!(100_000, account.held);
}

#[test]
fn resolve_and_chargeback_of_undisputed_record_are_noop_success() {
    let mut accounts = AccountService::new();
    let mut tx_service = TransactionService::new();
    TransactionProcessor::process(&mut accounts, &mut tx_service, deposit(1, 7, 100_000)).unwrap();
    TransactionProcessor::process(
        &mut accounts,
        &mut tx_service,
        lifecycle(TransactionType::Resolve, 1, 7),
    )
    .unwrap();
    TransactionProcessor::process(
        &mut accounts,
        &mut tx_service,
        lifecycle(TransactionType::Chargeback, 1, 7),
    )
    .unwrap();
    let account = accounts.ensure_account(7);
    assert_eq!(100_000, account.available);
    assert_eq!(0, account.held);
    assert_eq!(false, account.locked);
}

#[test]
fn deposit_without_amount_is_rejected() {
    let mut accounts = AccountService::new();
    let mut tx_service = TransactionService::new();
    let tx = Transaction {
        tx_type: TransactionType::Deposit,
        client_id: 7,
        tx_id: 1,
        amount: None,
    };
    assert_eq!(
        TransactionProcessor::process(&mut accounts, &mut tx_service, tx),
        Err(AccountServiceError::EmptyTransactionAmount)
    );
}

#[test]
fn dispute_with_amount_is_rejected() {
    let mut accounts = AccountService::new();
    let mut tx_service = TransactionService::new();
    TransactionProcessor::process(&mut accounts, &mut tx_service, deposit(1, 7, 1000)).unwrap();
    let tx = Transaction {
        tx_type: TransactionType::Dispute,
        client_id: 7,
        tx_id: 1,
        amount: Some(1000),
    };
    assert_eq!(
        TransactionProcessor::process(&mut accounts, &mut tx_service, tx),
        Err(AccountServiceError::TransactionAmountShouldBeEmpty)
    );
}

// The client consistency guard compares the referenced record's
// client to the referencing transaction's client: a dispute arriving
// under another client identity is rejected, deliberately.
#[test]
fn dispute_from_other_client_is_rejected() {
    let mut accounts = AccountService::new();
    let mut tx_service = TransactionService::new();
    TransactionProcessor::process(&mut accounts, &mut tx_service, deposit(1, 7, 1000)).unwrap();
    assert_eq!(
        TransactionProcessor::process(
            &mut accounts,
            &mut tx_service,
            lifecycle(TransactionType::Dispute, 1, 8),
        ),
        Err(AccountServiceError::MismatchedClient(8, 7))
    );
    let account = accounts.ensure_account(7);
    assert_eq!(1000, account.available);
    assert_eq!(0, account.held);
}

#[test]
fn dispute_of_refunded_record_is_rejected() {
    let mut accounts = AccountService::new();
    let mut tx_service = TransactionService::new();
    // a refunded record whose account is not locked, put in place directly
    tx_service.trans.insert(
        1,
        TransactionWithState {
            tx: deposit(1, 7, 1000),
            state: TransactionState::Refunded,
        },
    );
    assert_eq!(
        TransactionProcessor::process(
            &mut accounts,
            &mut tx_service,
            lifecycle(TransactionType::Dispute, 1, 7),
        ),
        Err(AccountServiceError::AlreadyRefunded)
    );
}

#[test]
fn dispute_of_non_deposit_record_is_rejected() {
    let mut accounts = AccountService::new();
    let mut tx_service = TransactionService::new();
    let stored = Transaction {
        tx_type: TransactionType::Withdrawal,
        client_id: 7,
        tx_id: 1,
        amount: Some(1000),
    };
    tx_service.trans.insert(
        1,
        TransactionWithState {
            tx: stored,
            state: TransactionState::Valid,
        },
    );
    assert_eq!(
        TransactionProcessor::process(
            &mut accounts,
            &mut tx_service,
            lifecycle(TransactionType::Dispute, 1, 7),
        ),
        Err(AccountServiceError::DisputeWrongTransactionType(
            TransactionType::Withdrawal
        ))
    );
}

#[test]
fn chargeback_beyond_held_is_rejected() {
    let mut accounts = AccountService::new();
    let mut tx_service = TransactionService::new();
    // a disputed record whose amount was never actually held
    tx_service.trans.insert(
        1,
        TransactionWithState {
            tx: deposit(1, 7, 1000),
            state: TransactionState::Disputed,
        },
    );
    assert_eq!(
        TransactionProcessor::process(
            &mut accounts,
            &mut tx_service,
            lifecycle(TransactionType::Chargeback, 1, 7),
        ),
        Err(AccountServiceError::InsufficientHeldBalance)
    );
}
