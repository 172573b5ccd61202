//! Client accounts and the in-memory account store.

use vstd::prelude::*;

use std::collections::HashMap;

use crate::tx::{AmountDecimal, ClientId, TransactionType};

verus! {

/// One client account. `available` and `held` are scaled fixed-point
/// amounts; being unsigned they can never fall below zero.
#[derive(Debug, Copy, Clone, PartialEq, Eq, Structural)]
pub struct Account {
    pub client_id: ClientId,
    pub available: AmountDecimal,
    pub held: AmountDecimal,
    pub locked: bool,
}

/// Everything a transaction can be rejected for. Every rejection is
/// local to its transaction and leaves all state unchanged.
#[derive(Debug, Copy, Clone, PartialEq, Eq, Structural)]
pub enum AccountServiceError {
    BalanceOverflow,
    AccountLocked,
    TransactionNotFound,
    TransactionDuplicate,
    InsufficientBalance,
    AlreadyRefunded,
    DisputeWrongTransactionType(TransactionType),
    InsufficientHeldBalance,
    MismatchedClient(ClientId, ClientId),
    EmptyTransactionAmount,
    TransactionAmountShouldBeEmpty,
}

/// Adds two scaled amounts, rejecting any sum that would leave the
/// representable range instead of wrapping.
pub fn checked_add(balance: AmountDecimal, val: AmountDecimal) -> (r: Result<
    AmountDecimal,
    AccountServiceError,
>)
    ensures
        balance + val <= u64::MAX ==> r == Ok::<AmountDecimal, AccountServiceError>(
            (balance + val) as u64,
        ),
        balance + val > u64::MAX ==> r == Err::<AmountDecimal, AccountServiceError>(
            AccountServiceError::BalanceOverflow,
        ),
{
    let res = balance.checked_add(val);
    match res {
        None => Err(AccountServiceError::BalanceOverflow),
        Some(amount) => Ok(amount),
    }
}

/// Every account in the store belongs to the client it is filed
/// under, and its two balances sum to a representable amount, so
/// `available + held` can always be computed without overflow.
pub open spec fn accounts_bounded(m: Map<ClientId, Account>) -> bool {
    forall|c: ClientId|
        m.contains_key(c) ==> (#[trigger] m[c]).client_id == c && m[c].available + m[c].held
            <= u64::MAX
}

/// The in-memory account store: one account per known client,
/// created lazily on first reference.
pub struct AccountService {
    accounts: HashMap<ClientId, Account>,
    client_ids: Vec<ClientId>,
}

impl View for AccountService {
    type V = Map<ClientId, Account>;

    closed spec fn view(&self) -> Map<ClientId, Account> {
        self.accounts@
    }
}

impl AccountService {
    /// The clients known to the store, in the order their accounts
    /// were created.
    pub closed spec fn clients(&self) -> Seq<ClientId> {
        self.client_ids@
    }

    /// Well-formedness: the client list names each known account
    /// exactly once, and every stored account is bounded.
    pub open spec fn wf(&self) -> bool {
        &&& accounts_bounded(self@)
        &&& self.clients().no_duplicates()
        &&& self@.dom() == self.clients().to_set()
    }

    pub fn new() -> (s: AccountService)
        ensures
            s.wf(),
            s@ == Map::<ClientId, Account>::empty(),
            s.clients() == Seq::<ClientId>::empty(),
    {
        let s = Self { accounts: HashMap::new(), client_ids: Vec::new() };
        proof {
            assert(s@.dom() =~= s.clients().to_set());
        }
        s
    }

    /// Looks the client's account up, creating an empty one first if
    /// the client is new, and hands it out for mutation. The caller
    /// gets the store's well-formedness back as long as it leaves the
    /// account owned by the same client and with bounded balances.
    pub fn ensure_account(&mut self, client_id: ClientId) -> (account: &mut Account)
        ensures
            *account == (if old(self)@.contains_key(client_id) {
                old(self)@[client_id]
            } else {
                account_new_spec(client_id, 0)
            }),
            final(self)@ == old(self)@.insert(client_id, *final(account)),
            old(self)@.contains_key(client_id) ==> final(self).clients() == old(self).clients(),
            !old(self)@.contains_key(client_id) ==> final(self).clients() == old(
                self,
            ).clients().push(client_id),
            old(self).wf() ==> account.client_id == client_id && account.available + account.held
                <= u64::MAX,
            old(self).wf() && final(account).client_id == client_id && final(account).available
                + final(account).held <= u64::MAX ==> final(self).wf(),
    {
        proof {
            if old(self).wf() && old(self)@.contains_key(client_id) {
                assert(old(self)@[client_id].client_id == client_id);
            }
        }
        match self.accounts.entry(client_id) {
            std::collections::hash_map::Entry::Occupied(e) => {
                proof {
                    assert(old(self)@.dom().insert(client_id) =~= old(self)@.dom());
                }
                e.into_mut()
            },
            std::collections::hash_map::Entry::Vacant(e) => {
                self.client_ids.push(client_id);
                proof {
                    if old(self).wf() {
                        lemma_push_fresh_keeps_registry(
                            old(self).clients(),
                            old(self)@.dom(),
                            client_id,
                        );
                    }
                }
                e.insert(Account::new(client_id, 0))
            },
        }
    }
}

/// The output record derived from one account: same balances, their
/// total, and the lock flag.
pub open spec fn account_result_spec(a: Account) -> AccountResult {
    AccountResult {
        client: a.client_id,
        available: a.available,
        held: a.held,
        total: (a.available + a.held) as u64,
        locked: a.locked,
    }
}

/// One row of the final per-account output.
#[derive(Debug, Copy, Clone, PartialEq, Eq, Structural)]
pub struct AccountResult {
    pub client: ClientId,
    pub available: AmountDecimal,
    pub held: AmountDecimal,
    pub total: AmountDecimal,
    pub locked: bool,
}

/// A read-only walk over the store's output records, one per known
/// client, each visited exactly once.
pub struct AccountIter {
    pub results: Vec<AccountResult>,
    pub pos: usize,
}

impl AccountIter {
    /// Hands out the next output record, or `None` when every account
    /// has been visited.
    pub fn next(&mut self) -> (r: Option<AccountResult>)
        ensures
            old(self).pos < old(self).results@.len() ==> (r == Some(
                old(self).results@[old(self).pos as int],
            ) && final(self).pos == old(self).pos + 1 && final(self).results == old(self).results),
            old(self).pos >= old(self).results@.len() ==> (r == None::<AccountResult>
                && *final(self) == *old(self)),
    {
        if self.pos < self.results.len() {
            let r = self.results[self.pos];
            self.pos += 1;
            Some(r)
        } else {
            None
        }
    }
}

impl AccountService {
    /// Snapshots one output record per known client, in account
    /// creation order. Well-formedness makes every total
    /// representable and guarantees each client appears exactly once.
    pub fn iter(&self) -> (it: AccountIter)
        requires
            self.wf(),
        ensures
            it.pos == 0,
            it.results@.len() == self.clients().len(),
            forall|i: int|
                0 <= i < self.clients().len() ==> it.results@[i] == account_result_spec(
                    self@[self.clients()[i]],
                ),
    {
        let mut results: Vec<AccountResult> = Vec::new();
        let mut i: usize = 0;
        while i < self.client_ids.len()
            invariant
                self.wf(),
                i <= self.client_ids.len(),
                results@.len() == i,
                forall|j: int|
                    0 <= j < i ==> results@[j] == account_result_spec(self@[self.clients()[j]]),
            decreases self.client_ids.len() - i,
        {
            let c = self.client_ids[i];
            proof {
                assert(self.client_ids@.contains(c));
                assert(self.client_ids@.to_set().contains(c));
            }
            let a = *self.accounts.get(&c).unwrap();
            results.push(
                AccountResult {
                    client: a.client_id,
                    available: a.available,
                    held: a.held,
                    total: a.available + a.held,
                    locked: a.locked,
                },
            );
            i += 1;
        }
        AccountIter { results, pos: 0 }
    }
}

/// Pushing a client that the registry does not yet name keeps the
/// registry duplicate-free and in step with the account map's domain.
proof fn lemma_push_fresh_keeps_registry(ids: Seq<ClientId>, dom: Set<ClientId>, c: ClientId)
    requires
        ids.no_duplicates(),
        dom == ids.to_set(),
        !dom.contains(c),
    ensures
        ids.push(c).no_duplicates(),
        dom.insert(c) == ids.push(c).to_set(),
{
    assert(!ids.contains(c));
    assert forall|i: int, j: int|
        0 <= i < ids.push(c).len() && 0 <= j < ids.push(c).len() && i != j implies ids.push(c)[i]
        != ids.push(c)[j] by {
        if i < ids.len() && j < ids.len() {
            assert(ids[i] != ids[j]);
        } else if i < ids.len() {
            assert(ids.contains(ids[i]));
        } else if j < ids.len() {
            assert(ids.contains(ids[j]));
        }
    }
    assert forall|x: ClientId| #[trigger] ids.push(c).to_set().contains(x) implies dom.insert(
        c,
    ).contains(x) by {
        let i = choose|i: int| 0 <= i < ids.push(c).len() && ids.push(c)[i] == x;
        if i < ids.len() {
            assert(ids.contains(x));
        }
    }
    assert forall|x: ClientId| #[trigger] dom.insert(c).contains(x) implies ids.push(
        c,
    ).to_set().contains(x) by {
        if x == c {
            assert(ids.push(c)[ids.len() as int] == x);
        } else {
            let i = choose|i: int| 0 <= i < ids.len() && ids[i] == x;
            assert(ids.push(c)[i] == x);
        }
    }
    assert(dom.insert(c) =~= ids.push(c).to_set());
}

/// The account fresh for `client_id` with the given opening balance:
/// nothing held, not locked.
pub open spec fn account_new_spec(client_id: ClientId, available: AmountDecimal) -> Account {
    Account { client_id, available, held: 0, locked: false }
}

impl Account {
    /// A fresh account holding `available`, with nothing held and not
    /// locked.
    pub fn new(client_id: ClientId, available: AmountDecimal) -> (a: Account)
        ensures
            a == account_new_spec(client_id, available),
    {
        Self { client_id, available, held: 0, locked: false }
    }

    /// Credits `amount` to `available`. Rejected with
    /// `BalanceOverflow`, leaving the account unchanged, whenever
    /// `available + held + amount` would not be representable.
    pub fn deposit(&mut self, amount: AmountDecimal) -> (r: Result<(), AccountServiceError>)
        ensures
            old(self).available + old(self).held + amount <= u64::MAX ==> (r == Ok::<
                (),
                AccountServiceError,
            >(()) && *final(self) == (Account {
                available: (old(self).available + amount) as u64,
                ..*old(self)
            })),
            old(self).available + old(self).held + amount > u64::MAX ==> (r == Err::<
                (),
                AccountServiceError,
            >(AccountServiceError::BalanceOverflow) && *final(self) == *old(self)),
    {
        let total = checked_add(self.available, self.held)?;
        checked_add(total, amount)?;
        self.available += amount;
        Ok(())
    }

    /// Moves `amount` from `available` to `held`, as a dispute does.
    /// Rejected with `InsufficientBalance` when `available` is short,
    /// and with `BalanceOverflow` when `held + amount` would not be
    /// representable; either rejection leaves the account unchanged.
    pub fn held(&mut self, amount: AmountDecimal) -> (r: Result<(), AccountServiceError>)
        ensures
            old(self).available < amount ==> (r == Err::<(), AccountServiceError>(
                AccountServiceError::InsufficientBalance,
            ) && *final(self) == *old(self)),
            old(self).available >= amount && old(self).held + amount > u64::MAX ==> (r == Err::<
                (),
                AccountServiceError,
            >(AccountServiceError::BalanceOverflow) && *final(self) == *old(self)),
            old(self).available >= amount && old(self).held + amount <= u64::MAX ==> (r == Ok::<
                (),
                AccountServiceError,
            >(()) && *final(self) == (Account {
                available: (old(self).available - amount) as u64,
                held: (old(self).held + amount) as u64,
                ..*old(self)
            })),
    {
        if self.available < amount {
            return Err(AccountServiceError::InsufficientBalance);
        }
        self.held = checked_add(self.held, amount)?;
        self.available -= amount;
        Ok(())
    }

    /// Moves `amount` back from `held` to `available`, as resolving a
    /// dispute does. Rejected with `InsufficientHeldBalance` when
    /// `held` is short, and with `BalanceOverflow` when
    /// `available + amount` would not be representable; either
    /// rejection leaves the account unchanged.
    pub fn resolve(&mut self, amount: AmountDecimal) -> (r: Result<(), AccountServiceError>)
        ensures
            old(self).held < amount ==> (r == Err::<(), AccountServiceError>(
                AccountServiceError::InsufficientHeldBalance,
            ) && *final(self) == *old(self)),
            old(self).held >= amount && old(self).available + amount > u64::MAX ==> (r == Err::<
                (),
                AccountServiceError,
            >(AccountServiceError::BalanceOverflow) && *final(self) == *old(self)),
            old(self).held >= amount && old(self).available + amount <= u64::MAX ==> (r == Ok::<
                (),
                AccountServiceError,
            >(()) && *final(self) == (Account {
                available: (old(self).available + amount) as u64,
                held: (old(self).held - amount) as u64,
                ..*old(self)
            })),
    {
        if self.held < amount {
            return Err(AccountServiceError::InsufficientHeldBalance);
        }
        self.available = checked_add(self.available, amount)?;
        self.held -= amount;
        Ok(())
    }
}

} // verus!
