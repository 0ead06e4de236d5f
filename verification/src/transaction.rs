//! Transaction records and the errors the ledger can reject them with.

use vstd::prelude::*;

use crate::amount::Amount;

verus! {

/// Identifier of a client account.
pub type ClientId = u16;

/// Identifier of a transaction.
pub type TransactionId = u32;

/// The kind of a ledger event.  Only deposits and withdrawals move money and
/// carry an amount; the other three kinds reference an earlier deposit or
/// withdrawal by its transaction id.
#[derive(Copy, Clone, Debug, PartialEq, Eq)]
pub enum TransactionType {
    Deposit(Amount),
    Withdrawal(Amount),
    Dispute,
    Resolve,
    Chargeback,
}

/// Dispute-lifecycle state of a stored deposit or withdrawal.
#[derive(Copy, Clone, Debug, PartialEq, Eq)]
pub enum TransactionState {
    Settled,
    Disputed,
    Chargebacked,
}

/// Why the ledger rejected a transaction.  A rejected transaction never
/// changes the account it was addressed to.
#[derive(Copy, Clone, Debug, PartialEq, Eq)]
pub enum TransactionError {
    /// The transaction was routed to a ledger with a different client id.
    InvalidClient { expected: ClientId, actual: ClientId },
    /// The deposited amount was negative.
    InvalidDeposit { amount: Amount },
    /// The withdrawn amount was negative, or the withdrawal would have made
    /// the available balance negative; `resulting_amount` is the balance the
    /// withdrawal would have left.
    InvalidWithdrawal { resulting_amount: Amount },
    /// A dispute, resolve or chargeback referenced a transaction id with no
    /// stored deposit or withdrawal.
    NotFound { transaction_id: TransactionId },
    /// A dispute, resolve or chargeback found the referenced transaction in
    /// a state that does not permit the requested transition.
    Unprocessable { current_state: TransactionState, required_state: TransactionState },
    /// The account was frozen by an earlier chargeback.
    ClientLocked,
}

/// One ledger event: a kind, the client account it addresses, and its own
/// transaction id.
#[derive(Copy, Clone, Debug, PartialEq, Eq)]
pub struct Transaction {
    pub transaction_type: TransactionType,
    pub client: ClientId,
    pub id: TransactionId,
}

impl Transaction {
    /// The amount a transaction moves: the payload of a deposit or a
    /// withdrawal, and nothing for the three lifecycle kinds.
    pub open spec fn spec_amount(&self) -> Option<Amount> {
        match self.transaction_type {
            TransactionType::Deposit(amount) => Some(amount),
            TransactionType::Withdrawal(amount) => Some(amount),
            _ => None,
        }
    }

    /// Whether this transaction is a deposit or a withdrawal.
    pub open spec fn moves_money(&self) -> bool {
        self.spec_amount() is Some
    }

    /// Returns the amount for the given transaction.
    pub fn amount(&self) -> (r: Option<Amount>)
        ensures
            r == self.spec_amount(),
    {
        match self.transaction_type {
            TransactionType::Deposit(amount) => Some(amount),
            TransactionType::Withdrawal(amount) => Some(amount),
            _ => None,
        }
    }
}

} // verus!
