//! Input transaction records and their identifiers.

use vstd::prelude::*;
use vstd::string::StringExecFns;

verus! {

/// Identifies one client account.
pub type ClientId = u16;

/// Identifies one transaction; unique among deposits and withdrawals.
pub type TransactionId = u32;

/// Balances are stored as scaled integers: a value of `AMOUNT_BASE`
/// stands for one unit of currency, so no floating point is involved.
pub type AmountDecimal = u64;

/// The fixed scale factor of `AmountDecimal`.
pub const AMOUNT_BASE: u16 = 1000;

/// The closed set of transaction kinds the ledger understands.
#[derive(Debug, Copy, Clone, PartialEq, Eq, Structural)]
pub enum TransactionType {
    Deposit,
    Withdrawal,
    Dispute,
    Resolve,
    Chargeback,
}

/// What `TransactionType::from_str` returns for a given sequence of
/// characters: each kind is named by its lower-case snake-case name.
pub open spec fn transaction_type_of_str(s: Seq<char>) -> Result<TransactionType, ()> {
    if s == "deposit"@ {
        Ok(TransactionType::Deposit)
    } else if s == "withdrawal"@ {
        Ok(TransactionType::Withdrawal)
    } else if s == "dispute"@ {
        Ok(TransactionType::Dispute)
    } else if s == "resolve"@ {
        Ok(TransactionType::Resolve)
    } else if s == "chargeback"@ {
        Ok(TransactionType::Chargeback)
    } else {
        Err(())
    }
}

impl TransactionType {
    /// Parses the snake-case name of a transaction kind.
    pub fn from_str(s: &str) -> (r: Result<TransactionType, ()>)
        ensures
            r == transaction_type_of_str(s@),
    {
        let text = String::from_str(s);
        if text == String::from_str("deposit") {
            Ok(TransactionType::Deposit)
        } else if text == String::from_str("withdrawal") {
            Ok(TransactionType::Withdrawal)
        } else if text == String::from_str("dispute") {
            Ok(TransactionType::Dispute)
        } else if text == String::from_str("resolve") {
            Ok(TransactionType::Resolve)
        } else if text == String::from_str("chargeback") {
            Ok(TransactionType::Chargeback)
        } else {
            Err(())
        }
    }
}

/// One input record: immutable, with the amount present exactly for
/// deposits and withdrawals.
#[derive(Debug, Copy, Clone)]
pub struct Transaction {
    pub tx_type: TransactionType,
    pub client_id: ClientId,
    pub tx_id: TransactionId,
    pub amount: Option<AmountDecimal>,
}

} // verus!
