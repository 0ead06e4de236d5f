//! One client's account ledger: balances, the stored transaction history,
//! and the state machine that applies incoming transactions to them.
//!
//! The behaviour of the ledger is captured by the spec function [`step`]:
//! it maps a mathematical account state ([`ClientView`]) and a transaction
//! to the next state and the result the ledger reports.  The executable
//! [`Client`] is proved to follow `step` exactly, and the laws at the end
//! of this module are proved of `step` itself.

use vstd::prelude::*;

use crate::amount::{in_range, saturate, Amount};
use crate::transaction::{
    ClientId, Transaction, TransactionError, TransactionId, TransactionState, TransactionType,
};

verus! {

/// A stored history entry: a deposit or withdrawal together with its
/// dispute-lifecycle state.
#[derive(Copy, Clone, Debug, PartialEq, Eq)]
pub struct TransactionRecord {
    pub state: TransactionState,
    pub transaction: Transaction,
}

/// Mathematical model of one client account: the two balances as unbounded
/// integers, the frozen flag, and the stored history in insertion order.
#[verifier::ext_equal]
pub ghost struct ClientView {
    pub id: ClientId,
    pub available: int,
    pub held: int,
    pub locked: bool,
    pub records: Seq<TransactionRecord>,
}

impl ClientView {
    /// Balances of a real account always fit the scaled `i64`
    /// representation; the laws below ask this of their inputs.
    pub open spec fn wf(self) -> bool {
        in_range(self.available) && in_range(self.held)
    }
}

/// First-match lookup of a stored transaction, starting at position `i`.
///
/// Mirrors the ledger's search rule: the first record whose transaction id
/// matches decides the outcome, and it only counts if that record is a
/// deposit or a withdrawal.
pub open spec fn find_record_from(
    records: Seq<TransactionRecord>,
    id: TransactionId,
    i: int,
) -> Option<int>
    decreases records.len() - i,
{
    if i < 0 || i >= records.len() {
        None
    } else if records[i].transaction.id == id {
        if records[i].transaction.moves_money() {
            Some(i)
        } else {
            None
        }
    } else {
        find_record_from(records, id, i + 1)
    }
}

/// Position of the stored deposit or withdrawal with the given id, if any.
pub open spec fn find_record(records: Seq<TransactionRecord>, id: TransactionId) -> Option<int> {
    find_record_from(records, id, 0)
}

/// The amount a stored transaction put in play: its payload for a deposit
/// or withdrawal, and zero for the other kinds.
pub open spec fn disputed_amount(t: Transaction) -> int {
    match t.spec_amount() {
        Some(a) => a@,
        None => 0,
    }
}

/// Applies a deposit whose checks on client id and lock already passed.
pub open spec fn step_deposit(pre: ClientView, t: Transaction, a: Amount) -> (ClientView, Result<
    (),
    TransactionError,
>) {
    if a@ < 0 {
        (pre, Err(TransactionError::InvalidDeposit { amount: a }))
    } else {
        (
            ClientView {
                available: saturate(pre.available + a@),
                records: pre.records.push(
                    TransactionRecord { state: TransactionState::Settled, transaction: t },
                ),
                ..pre
            },
            Ok(()),
        )
    }
}

/// Applies a withdrawal whose checks on client id and lock already passed.
pub open spec fn step_withdrawal(pre: ClientView, t: Transaction, a: Amount) -> (ClientView, Result<
    (),
    TransactionError,
>) {
    let diff = saturate(pre.available - a@);
    if a@ < 0 || diff < 0 {
        (pre, Err(TransactionError::InvalidWithdrawal { resulting_amount: Amount::spec_new(diff) }))
    } else {
        (
            ClientView {
                available: diff,
                records: pre.records.push(
                    TransactionRecord { state: TransactionState::Settled, transaction: t },
                ),
                ..pre
            },
            Ok(()),
        )
    }
}

/// Applies a dispute: moves the referenced amount into `held` (for a
/// deposit, out of `available`; for a withdrawal, the funds already left
/// `available`, so only `held` grows) and marks the record Disputed.
pub open spec fn step_dispute(pre: ClientView, t: Transaction) -> (ClientView, Result<
    (),
    TransactionError,
>) {
    match find_record(pre.records, t.id) {
        None => (pre, Err(TransactionError::NotFound { transaction_id: t.id })),
        Some(i) => {
            let record = pre.records[i];
            if record.state is Settled {
                let amt = disputed_amount(record.transaction);
                (
                    ClientView {
                        available: if record.transaction.transaction_type is Deposit {
                            saturate(pre.available - amt)
                        } else {
                            pre.available
                        },
                        held: saturate(pre.held + amt),
                        records: pre.records.update(
                            i,
                            TransactionRecord { state: TransactionState::Disputed, ..record },
                        ),
                        ..pre
                    },
                    Ok(()),
                )
            } else {
                (
                    pre,
                    Err(
                        TransactionError::Unprocessable {
                            current_state: record.state,
                            required_state: TransactionState::Settled,
                        },
                    ),
                )
            }
        },
    }
}

/// Applies a resolve: reverses the hold of an active dispute (for a
/// deposit, the amount returns to `available`; for a withdrawal it simply
/// leaves `held`) and marks the record Settled again.
pub open spec fn step_resolve(pre: ClientView, t: Transaction) -> (ClientView, Result<
    (),
    TransactionError,
>) {
    match find_record(pre.records, t.id) {
        None => (pre, Err(TransactionError::NotFound { transaction_id: t.id })),
        Some(i) => {
            let record = pre.records[i];
            if record.state is Disputed {
                let amt = disputed_amount(record.transaction);
                (
                    ClientView {
                        available: if record.transaction.transaction_type is Deposit {
                            saturate(pre.available + amt)
                        } else {
                            pre.available
                        },
                        held: saturate(pre.held - amt),
                        records: pre.records.update(
                            i,
                            TransactionRecord { state: TransactionState::Settled, ..record },
                        ),
                        ..pre
                    },
                    Ok(()),
                )
            } else {
                (
                    pre,
                    Err(
                        TransactionError::Unprocessable {
                            current_state: record.state,
                            required_state: TransactionState::Disputed,
                        },
                    ),
                )
            }
        },
    }
}

/// Applies a chargeback: the held amount leaves the account for good, the
/// record becomes Chargebacked, and the account is frozen.
pub open spec fn step_chargeback(pre: ClientView, t: Transaction) -> (ClientView, Result<
    (),
    TransactionError,
>) {
    match find_record(pre.records, t.id) {
        None => (pre, Err(TransactionError::NotFound { transaction_id: t.id })),
        Some(i) => {
            let record = pre.records[i];
            if record.state is Disputed {
                let amt = disputed_amount(record.transaction);
                (
                    ClientView {
                        held: saturate(pre.held - amt),
                        locked: true,
                        records: pre.records.update(
                            i,
                            TransactionRecord { state: TransactionState::Chargebacked, ..record },
                        ),
                        ..pre
                    },
                    Ok(()),
                )
            } else {
                (
                    pre,
                    Err(
                        TransactionError::Unprocessable {
                            current_state: record.state,
                            required_state: TransactionState::Disputed,
                        },
                    ),
                )
            }
        },
    }
}

/// The ledger's transition function: the state after applying `t` to an
/// account in state `pre`, together with the reported result.  A rejected
/// transaction leaves the state untouched.
pub open spec fn step(pre: ClientView, t: Transaction) -> (ClientView, Result<
    (),
    TransactionError,
>) {
    if t.client != pre.id {
        (pre, Err(TransactionError::InvalidClient { expected: pre.id, actual: t.client }))
    } else if pre.locked {
        (pre, Err(TransactionError::ClientLocked))
    } else {
        match t.transaction_type {
            TransactionType::Deposit(a) => step_deposit(pre, t, a),
            TransactionType::Withdrawal(a) => step_withdrawal(pre, t, a),
            TransactionType::Dispute => step_dispute(pre, t),
            TransactionType::Resolve => step_resolve(pre, t),
            TransactionType::Chargeback => step_chargeback(pre, t),
        }
    }
}

/// A successful lookup points at a deposit or withdrawal, inside bounds,
/// whose id is the one searched for.
pub proof fn lemma_find_record_from_bounds(
    records: Seq<TransactionRecord>,
    id: TransactionId,
    i: int,
)
    ensures
        find_record_from(records, id, i) matches Some(j) ==> i <= j < records.len()
            && records[j].transaction.id == id && records[j].transaction.moves_money(),
    decreases records.len() - i,
{
    if 0 <= i < records.len() && records[i].transaction.id != id {
        lemma_find_record_from_bounds(records, id, i + 1);
    }
}

/// A successful lookup points at a deposit or withdrawal, inside bounds,
/// whose id is the one searched for.
pub proof fn lemma_find_record_bounds(records: Seq<TransactionRecord>, id: TransactionId)
    ensures
        find_record(records, id) matches Some(j) ==> 0 <= j < records.len()
            && records[j].transaction.id == id && records[j].transaction.moves_money(),
{
    lemma_find_record_from_bounds(records, id, 0);
}

proof fn lemma_find_record_from_update(
    records: Seq<TransactionRecord>,
    id: TransactionId,
    i: int,
    r2: TransactionRecord,
    j: int,
)
    requires
        0 <= i < records.len(),
        r2.transaction == records[i].transaction,
    ensures
        find_record_from(records.update(i, r2), id, j) == find_record_from(records, id, j),
    decreases records.len() - j,
{
    if 0 <= j < records.len() && records[j].transaction.id != id {
        lemma_find_record_from_update(records, id, i, r2, j + 1);
    }
}

/// Replacing a record's state (but not its transaction) does not change
/// where any lookup lands.
pub proof fn lemma_find_record_update(
    records: Seq<TransactionRecord>,
    id: TransactionId,
    i: int,
    r2: TransactionRecord,
)
    requires
        0 <= i < records.len(),
        r2.transaction == records[i].transaction,
    ensures
        find_record(records.update(i, r2), id) == find_record(records, id),
{
    lemma_find_record_from_update(records, id, i, r2, 0);
}

/// Whether the lookup for `id` in `pre` lands on a record in state `s`.
pub open spec fn found_state(pre: ClientView, id: TransactionId, s: TransactionState) -> bool {
    match find_record(pre.records, id) {
        Some(i) => pre.records[i].state == s,
        None => false,
    }
}

/// The amount of the record the lookup for `id` in `pre` lands on, and zero
/// when the lookup fails.
pub open spec fn found_amount(pre: ClientView, id: TransactionId) -> int {
    match find_record(pre.records, id) {
        Some(i) => disputed_amount(pre.records[i].transaction),
        None => 0,
    }
}

/// Applying any transaction to a well-formed account leaves the balances
/// representable and the client id unchanged.
pub proof fn lemma_step_preserves_wf(pre: ClientView, t: Transaction)
    requires
        pre.wf(),
    ensures
        step(pre, t).0.wf(),
        step(pre, t).0.id == pre.id,
{
}

/// A valid deposit increases `available` by exactly the deposited amount
/// and leaves `held`, `locked` and the history length unchanged apart from
/// the one appended record.
pub proof fn lemma_deposit_increases_available(pre: ClientView, t: Transaction, a: Amount)
    requires
        t.transaction_type == TransactionType::Deposit(a),
        t.client == pre.id,
        !pre.locked,
        a@ >= 0,
        in_range(pre.available + a@),
    ensures
        step(pre, t).1 == Ok::<(), TransactionError>(()),
        step(pre, t).0.available == pre.available + a@,
        step(pre, t).0.held == pre.held,
        step(pre, t).0.locked == pre.locked,
{
}

/// A withdrawal of a non-negative amount no larger than the available
/// balance succeeds and decreases `available` by exactly that amount,
/// leaving `held` and `locked` unchanged.
pub proof fn lemma_withdrawal_decreases_available(pre: ClientView, t: Transaction, a: Amount)
    requires
        pre.wf(),
        t.transaction_type == TransactionType::Withdrawal(a),
        t.client == pre.id,
        !pre.locked,
        0 <= a@ <= pre.available,
    ensures
        step(pre, t).1 == Ok::<(), TransactionError>(()),
        step(pre, t).0.available == pre.available - a@,
        step(pre, t).0.held == pre.held,
        step(pre, t).0.locked == pre.locked,
{
}

/// A withdrawal of a negative amount, or of more than the available
/// balance, is rejected and leaves the account untouched.
pub proof fn lemma_withdrawal_rejected(pre: ClientView, t: Transaction, a: Amount)
    requires
        t.transaction_type == TransactionType::Withdrawal(a),
        t.client == pre.id,
        !pre.locked,
        a@ < 0 || pre.available < a@,
    ensures
        step(pre, t).0 == pre,
        step(pre, t).1 matches Err(TransactionError::InvalidWithdrawal { .. }),
{
}

/// Disputing and then resolving the same stored transaction is a round
/// trip: it restores `available`, `held` and the record's state to their
/// pre-dispute values.
pub proof fn lemma_dispute_resolve_round_trip(
    pre: ClientView,
    dispute: Transaction,
    resolve: Transaction,
)
    requires
        pre.wf(),
        dispute.transaction_type is Dispute,
        resolve.transaction_type is Resolve,
        dispute.client == pre.id,
        resolve.client == pre.id,
        resolve.id == dispute.id,
        !pre.locked,
        found_state(pre, dispute.id, TransactionState::Settled),
        in_range(pre.available - found_amount(pre, dispute.id)),
        in_range(pre.available + found_amount(pre, dispute.id)),
        in_range(pre.held + found_amount(pre, dispute.id)),
    ensures
        step(pre, dispute).1 == Ok::<(), TransactionError>(()),
        step(step(pre, dispute).0, resolve).1 == Ok::<(), TransactionError>(()),
        step(step(pre, dispute).0, resolve).0 == pre,
{
    lemma_find_record_bounds(pre.records, dispute.id);
    match find_record(pre.records, dispute.id) {
        Some(i) => {
            let rec = pre.records[i];
            let rec_d = TransactionRecord { state: TransactionState::Disputed, ..rec };
            lemma_find_record_update(pre.records, dispute.id, i, rec_d);
            let s1 = step(pre, dispute).0;
            let rec_s = TransactionRecord { state: TransactionState::Settled, ..rec_d };
            assert(step(s1, resolve).0.records =~= pre.records) by {
                assert(pre.records.update(i, rec_d).update(i, rec_s) =~= pre.records);
            }
        },
        None => {},
    }
}

/// A chargeback of a disputed transaction permanently removes the disputed
/// amount from the total balance (available plus held) and freezes the
/// account.
pub proof fn lemma_chargeback_removes_total_and_locks(pre: ClientView, t: Transaction)
    requires
        pre.wf(),
        t.transaction_type is Chargeback,
        t.client == pre.id,
        !pre.locked,
        found_state(pre, t.id, TransactionState::Disputed),
        in_range(pre.held - found_amount(pre, t.id)),
    ensures
        step(pre, t).1 == Ok::<(), TransactionError>(()),
        step(pre, t).0.locked,
        step(pre, t).0.available == pre.available,
        step(pre, t).0.held == pre.held - found_amount(pre, t.id),
        step(pre, t).0.available + step(pre, t).0.held == pre.available + pre.held - found_amount(
            pre,
            t.id,
        ),
{
    lemma_find_record_bounds(pre.records, t.id);
}

/// A frozen account never changes again: every further transaction is
/// rejected, with `ClientLocked` whenever it is addressed to this client.
pub proof fn lemma_locked_rejects_all(s: ClientView, t: Transaction)
    requires
        s.locked,
    ensures
        step(s, t).0 == s,
        step(s, t).1 is Err,
        t.client == s.id ==> step(s, t).1 == Err::<(), TransactionError>(
            TransactionError::ClientLocked,
        ),
{
}

/// Rejection of a repeated dispute is idempotent: disputing an
/// already-disputed transaction again fails as Unprocessable and leaves the
/// state exactly as it was after the first, successful dispute.
pub proof fn lemma_second_dispute_rejected(pre: ClientView, t: Transaction)
    requires
        t.transaction_type is Dispute,
        t.client == pre.id,
        !pre.locked,
        found_state(pre, t.id, TransactionState::Settled),
    ensures
        step(pre, t).1 == Ok::<(), TransactionError>(()),
        step(step(pre, t).0, t).1 == Err::<(), TransactionError>(
            TransactionError::Unprocessable {
                current_state: TransactionState::Disputed,
                required_state: TransactionState::Settled,
            },
        ),
        step(step(pre, t).0, t).0 == step(pre, t).0,
{
    lemma_find_record_bounds(pre.records, t.id);
    match find_record(pre.records, t.id) {
        Some(i) => {
            let rec_d = TransactionRecord {
                state: TransactionState::Disputed,
                ..pre.records[i]
            };
            lemma_find_record_update(pre.records, t.id, i, rec_d);
        },
        None => {},
    }
}

/// Interface of a client account, as the registry drives it.  Every method
/// is specified against the account's mathematical model, and
/// `execute_transaction` is bound to the transition function [`step`].
pub trait ClientAccount: Clone {
    /// Mathematical model of the account.
    spec fn model(&self) -> ClientView;

    /// The id of the client.
    fn id(&self) -> (r: ClientId)
        ensures
            r == self.model().id,
    ;

    /// The amount of funds the client has available to use.
    fn available(&self) -> (r: Amount)
        ensures
            r@ == self.model().available,
    ;

    /// The amount of funds held due to disputes.
    fn held(&self) -> (r: Amount)
        ensures
            r@ == self.model().held,
    ;

    /// Whether the client is frozen or not.
    fn locked(&self) -> (r: bool)
        ensures
            r == self.model().locked,
    ;

    /// The total balance on the account: available plus held funds.
    fn total(&self) -> (r: Amount)
        ensures
            r@ == saturate(self.model().available + self.model().held),
    ;

    /// Attempts to execute a transaction for the client.
    fn execute_transaction(&mut self, transaction: Transaction) -> (r: Result<
        (),
        TransactionError,
    >)
        ensures
            final(self).model() == step(old(self).model(), transaction).0,
            r == step(old(self).model(), transaction).1,
    ;
}

/// A record that keeps track of a client's account.
#[derive(Clone, Debug, PartialEq)]
pub struct Client {
    id: ClientId,
    available: Amount,
    held: Amount,
    locked: bool,
    transactions: Vec<TransactionRecord>,
}

impl View for Client {
    type V = ClientView;

    closed spec fn view(&self) -> ClientView {
        ClientView {
            id: self.id,
            available: self.available@,
            held: self.held@,
            locked: self.locked,
            records: self.transactions@,
        }
    }
}

impl Client {
    /// Creates a new client with the given id: zero balances, unlocked,
    /// empty history.
    pub fn new(id: ClientId) -> (r: Client)
        ensures
            r@ == (ClientView {
                id,
                available: 0,
                held: 0,
                locked: false,
                records: Seq::<TransactionRecord>::empty(),
            }),
    {
        Client {
            id,
            available: Amount::zero(),
            held: Amount::zero(),
            locked: false,
            transactions: Vec::new(),
        }
    }

    /// Number of stored history records.
    pub fn transaction_count(&self) -> (r: usize)
        ensures
            r == self@.records.len(),
    {
        self.transactions.len()
    }

    /// The stored history record at the given position.
    pub fn record_at(&self, index: usize) -> (r: TransactionRecord)
        requires
            index < self@.records.len(),
        ensures
            r == self@.records[index as int],
    {
        self.transactions[index]
    }

    /// Position in the history of the stored deposit or withdrawal with the
    /// given transaction id, if any; the first record with a matching id
    /// decides, and only counts when it moves money.
    pub fn transaction_index(&self, transaction_id: TransactionId) -> (r: Option<usize>)
        ensures
            find_record(self@.records, transaction_id) == (match r {
                Some(i) => Some(i as int),
                None => None::<int>,
            }),
    {
        let mut i: usize = 0;
        while i < self.transactions.len()
            invariant
                i <= self.transactions@.len(),
                find_record_from(self.transactions@, transaction_id, 0) == find_record_from(
                    self.transactions@,
                    transaction_id,
                    i as int,
                ),
            decreases self.transactions@.len() - i,
        {
            let record = self.transactions[i];
            if record.transaction.id == transaction_id {
                match record.transaction.transaction_type {
                    TransactionType::Deposit(_) => {},
                    TransactionType::Withdrawal(_) => {},
                    _ => {
                        return None;
                    },
                }
                return Some(i);
            }
            i = i + 1;
        }
        None
    }
}

impl ClientAccount for Client {
    open spec fn model(&self) -> ClientView {
        self@
    }

    fn id(&self) -> (r: ClientId) {
        self.id
    }

    fn available(&self) -> (r: Amount) {
        self.available
    }

    fn held(&self) -> (r: Amount) {
        self.held
    }

    fn locked(&self) -> (r: bool) {
        self.locked
    }

    fn total(&self) -> (r: Amount) {
        self.available.add(self.held)
    }

    fn execute_transaction(&mut self, transaction: Transaction) -> (r: Result<
        (),
        TransactionError,
    >) {
        // Only apply if it matches this client
        if transaction.client != self.id {
            return Err(
                TransactionError::InvalidClient { actual: transaction.client, expected: self.id },
            );
        }
        // Check if frozen
        if self.locked {
            return Err(TransactionError::ClientLocked);
        }
        match transaction.transaction_type {
            TransactionType::Deposit(amount) => {
                if amount.less_than_zero() {
                    return Err(TransactionError::InvalidDeposit { amount });
                }
                self.available = self.available.add(amount);
                self.transactions.push(
                    TransactionRecord { state: TransactionState::Settled, transaction },
                );
                Ok(())
            },
            TransactionType::Withdrawal(amount) => {
                let diff = self.available.sub(amount);
                if amount.less_than_zero() || diff.less_than_zero() {
                    proof {
                        crate::amount::lemma_amount_from_view(diff);
                    }
                    return Err(TransactionError::InvalidWithdrawal { resulting_amount: diff });
                }
                self.available = diff;
                self.transactions.push(
                    TransactionRecord { state: TransactionState::Settled, transaction },
                );
                Ok(())
            },
            TransactionType::Dispute => {
                match self.transaction_index(transaction.id) {
                    Some(index) => {
                        proof {
                            lemma_find_record_bounds(self@.records, transaction.id);
                        }
                        let record = self.transactions[index];
                        match record.state {
                            TransactionState::Settled => {
                                let disputed = match record.transaction.amount() {
                                    Some(a) => a,
                                    None => Amount::zero(),
                                };
                                match record.transaction.transaction_type {
                                    TransactionType::Deposit(_) => {
                                        self.available = self.available.sub(disputed);
                                    },
                                    _ => {},
                                }
                                self.held = self.held.add(disputed);
                                self.transactions[index] = TransactionRecord {
                                    state: TransactionState::Disputed,
                                    transaction: record.transaction,
                                };
                                Ok(())
                            },
                            _ => Err(
                                TransactionError::Unprocessable {
                                    current_state: record.state,
                                    required_state: TransactionState::Settled,
                                },
                            ),
                        }
                    },
                    None => Err(TransactionError::NotFound { transaction_id: transaction.id }),
                }
            },
            TransactionType::Resolve => {
                match self.transaction_index(transaction.id) {
                    Some(index) => {
                        proof {
                            lemma_find_record_bounds(self@.records, transaction.id);
                        }
                        let record = self.transactions[index];
                        match record.state {
                            TransactionState::Disputed => {
                                let disputed = match record.transaction.amount() {
                                    Some(a) => a,
                                    None => Amount::zero(),
                                };
                                match record.transaction.transaction_type {
                                    TransactionType::Deposit(_) => {
                                        self.available = self.available.add(disputed);
                                    },
                                    _ => {},
                                }
                                self.held = self.held.sub(disputed);
                                self.transactions[index] = TransactionRecord {
                                    state: TransactionState::Settled,
                                    transaction: record.transaction,
                                };
                                Ok(())
                            },
                            _ => Err(
                                TransactionError::Unprocessable {
                                    current_state: record.state,
                                    required_state: TransactionState::Disputed,
                                },
                            ),
                        }
                    },
                    None => Err(TransactionError::NotFound { transaction_id: transaction.id }),
                }
            },
            TransactionType::Chargeback => {
                match self.transaction_index(transaction.id) {
                    Some(index) => {
                        proof {
                            lemma_find_record_bounds(self@.records, transaction.id);
                        }
                        let record = self.transactions[index];
                        match record.state {
                            TransactionState::Disputed => {
                                self.locked = true;
                                let disputed = match record.transaction.amount() {
                                    Some(a) => a,
                                    None => Amount::zero(),
                                };
                                self.held = self.held.sub(disputed);
                                self.transactions[index] = TransactionRecord {
                                    state: TransactionState::Chargebacked,
                                    transaction: record.transaction,
                                };
                                Ok(())
                            },
                            _ => Err(
                                TransactionError::Unprocessable {
                                    current_state: record.state,
                                    required_state: TransactionState::Disputed,
                                },
                            ),
                        }
                    },
                    None => Err(TransactionError::NotFound { transaction_id: transaction.id }),
                }
            },
        }
    }
}

} // verus!
