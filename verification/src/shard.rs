//! Sharding: the deterministic routing function and the state one
//! shard worker owns exclusively.
//!
//! Queues and threads live outside this crate; a worker owns a
//! `Shard` and feeds it the transactions it receives, in arrival
//! order. `process_all` states what draining a buffered batch in
//! order leaves behind.

use vstd::prelude::*;

use crate::account_service::{Account, AccountService, AccountServiceError};
use crate::tx::{ClientId, Transaction, TransactionId};
use crate::tx_processor::{apply_spec, lemma_apply_keeps_lock, TransactionProcessor};
use crate::tx_service::{TransactionService, TransactionWithState};

verus! {

/// The shard a client's transactions are routed to: a function of
/// the client identity alone, so one client's transactions all meet
/// the same shard.
pub open spec fn shard_index_spec(client_id: ClientId, shards: int) -> int {
    client_id as int % shards
}

/// Routes a client to its shard.
pub fn shard_index(client_id: ClientId, shards: usize) -> (i: usize)
    requires
        shards > 0,
    ensures
        i as int == shard_index_spec(client_id, shards as int),
        i < shards,
{
    (client_id as usize) % shards
}

/// Routing never separates a client from itself: two transactions
/// with the same client identity are assigned the same shard. Since
/// each shard's queue is first-in first-out and a shard applies what
/// it receives in order (`process_all`), the state machine observes
/// one client's transactions in their submission order.
pub proof fn lemma_same_client_same_shard(a: Transaction, b: Transaction, shards: int)
    requires
        a.client_id == b.client_id,
    ensures
        shard_index_spec(a.client_id, shards) == shard_index_spec(b.client_id, shards),
{
}

/// What a whole sequence of transactions, applied in order, leaves of
/// the account store and the transaction history.
pub open spec fn apply_all_spec(
    accs: Map<ClientId, Account>,
    txs: Map<TransactionId, TransactionWithState>,
    s: Seq<Transaction>,
) -> (Map<ClientId, Account>, Map<TransactionId, TransactionWithState>)
    decreases s.len(),
{
    if s.len() == 0 {
        (accs, txs)
    } else {
        let stepped = apply_spec(accs, txs, s[0]);
        apply_all_spec(stepped.0, stepped.1, s.skip(1))
    }
}

/// Applying one more transaction after a sequence is the same as
/// applying the extended sequence.
pub proof fn lemma_apply_all_snoc(
    accs: Map<ClientId, Account>,
    txs: Map<TransactionId, TransactionWithState>,
    s: Seq<Transaction>,
    tx: Transaction,
)
    ensures
        ({
            let m = apply_all_spec(accs, txs, s);
            let one = apply_spec(m.0, m.1, tx);
            apply_all_spec(accs, txs, s.push(tx)) == (one.0, one.1)
        }),
    decreases s.len(),
{
    if s.len() == 0 {
        let one = apply_spec(accs, txs, tx);
        assert(s.push(tx)[0] == tx);
        assert(s.push(tx).skip(1) =~= Seq::<Transaction>::empty());
        assert(apply_all_spec(one.0, one.1, Seq::<Transaction>::empty()) == (one.0, one.1));
        assert(apply_all_spec(accs, txs, s) == (accs, txs));
    } else {
        assert(s.push(tx)[0] == s[0]);
        assert(s.push(tx).skip(1) =~= s.skip(1).push(tx));
        let stepped = apply_spec(accs, txs, s[0]);
        assert(apply_all_spec(accs, txs, s.push(tx)) == apply_all_spec(
            stepped.0,
            stepped.1,
            s.skip(1).push(tx),
        ));
        assert(apply_all_spec(accs, txs, s) == apply_all_spec(stepped.0, stepped.1, s.skip(1)));
        lemma_apply_all_snoc(stepped.0, stepped.1, s.skip(1), tx);
    }
}

/// Once an account is locked, no later sequence of transactions, of
/// any kind and in any order, unlocks it or removes it.
pub proof fn lemma_locked_stays_locked(
    accs: Map<ClientId, Account>,
    txs: Map<TransactionId, TransactionWithState>,
    s: Seq<Transaction>,
    c: ClientId,
)
    requires
        accs.contains_key(c),
        accs[c].locked,
    ensures
        apply_all_spec(accs, txs, s).0.contains_key(c),
        apply_all_spec(accs, txs, s).0[c].locked,
    decreases s.len(),
{
    if s.len() > 0 {
        lemma_apply_keeps_lock(accs, txs, s[0], c);
        let stepped = apply_spec(accs, txs, s[0]);
        lemma_locked_stays_locked(stepped.0, stepped.1, s.skip(1), c);
    }
}

/// The state one shard worker owns exclusively: its partition's
/// accounts and transaction history. No other worker ever reads or
/// writes these.
pub struct Shard {
    pub accounts: AccountService,
    pub txs: TransactionService,
}

impl Shard {
    pub open spec fn wf(&self) -> bool {
        self.accounts.wf()
    }

    pub fn new() -> (s: Shard)
        ensures
            s.wf(),
            s.accounts@ == Map::<ClientId, Account>::empty(),
            s.txs@ == Map::<TransactionId, TransactionWithState>::empty(),
    {
        Shard { accounts: AccountService::new(), txs: TransactionService::new() }
    }

    /// Applies one received transaction; the outcome is reported to
    /// the caller and a rejection never stops the shard or changes
    /// any state.
    pub fn process(&mut self, tx: Transaction) -> (r: Result<(), AccountServiceError>)
        requires
            old(self).wf(),
        ensures
            final(self).wf(),
            ({
                let s = apply_spec(old(self).accounts@, old(self).txs@, tx);
                final(self).accounts@ == s.0 && final(self).txs@ == s.1 && r == s.2
            }),
            final(self).accounts.clients() == (if old(self).accounts@.contains_key(tx.client_id) {
                old(self).accounts.clients()
            } else {
                old(self).accounts.clients().push(tx.client_id)
            }),
    {
        TransactionProcessor::process(&mut self.accounts, &mut self.txs, tx)
    }

    /// Drains a buffered batch in order: the shard ends exactly in
    /// the state the transaction sequence prescribes, however its
    /// items interleaved with other shards' work.
    pub fn process_all(&mut self, list: &Vec<Transaction>)
        requires
            old(self).wf(),
        ensures
            final(self).wf(),
            ({
                let m = apply_all_spec(old(self).accounts@, old(self).txs@, list@);
                final(self).accounts@ == m.0 && final(self).txs@ == m.1
            }),
    {
        let ghost accs0 = self.accounts@;
        let ghost txs0 = self.txs@;
        let mut i: usize = 0;
        while i < list.len()
            invariant
                self.wf(),
                i <= list@.len(),
                ({
                    let m = apply_all_spec(accs0, txs0, list@.take(i as int));
                    self.accounts@ == m.0 && self.txs@ == m.1
                }),
            decreases list@.len() - i,
        {
            let tx = list[i];
            let _ = TransactionProcessor::process(&mut self.accounts, &mut self.txs, tx);
            proof {
                lemma_apply_all_snoc(accs0, txs0, list@.take(i as int), tx);
                assert(list@.take(i as int).push(tx) =~= list@.take(i + 1 as int));
            }
            i += 1;
        }
        proof {
            assert(list@.take(list@.len() as int) =~= list@);
        }
    }
}

} // verus!
