//! The account registry: a fixed-size table with one account ledger per
//! possible client id, routing each transaction to the right ledger and
//! remembering which accounts have ever been addressed.

use vstd::prelude::*;

use crate::amount::{saturate, Amount};
use crate::client::{step, Client, ClientAccount, ClientView, TransactionRecord};
use crate::transaction::{ClientId, Transaction, TransactionError};

verus! {

/// Number of account slots: one per possible `ClientId` value.
pub const CLIENT_SLOTS: usize = 65536;

/// Whether an account slot has ever received a transaction.
#[derive(Copy, Clone, Debug, PartialEq, Eq)]
enum Status {
    Valid,
    Invalid,
}

/// One line of the registry's report: the balances of a single account.
#[derive(Copy, Clone, Debug, PartialEq, Eq)]
pub struct ReportRow {
    pub client: ClientId,
    pub available: Amount,
    pub held: Amount,
    pub total: Amount,
    pub locked: bool,
}

/// The report row describing an account in state `c`.
pub open spec fn spec_row(c: ClientView) -> ReportRow {
    ReportRow {
        client: c.id,
        available: Amount::spec_new(c.available),
        held: Amount::spec_new(c.held),
        total: Amount::spec_new(saturate(c.available + c.held)),
        locked: c.locked,
    }
}

/// The rows the registry reports for the account table `accounts`: one row
/// per touched slot, in slot order.
pub open spec fn spec_report(accounts: Seq<(ClientView, bool)>) -> Seq<ReportRow>
    decreases accounts.len(),
{
    if accounts.len() == 0 {
        Seq::empty()
    } else {
        let rest = spec_report(accounts.drop_last());
        let last = accounts.last();
        if last.1 {
            rest.push(spec_row(last.0))
        } else {
            rest
        }
    }
}

/// A fixed-capacity table of account ledgers, indexed directly by client
/// id and pre-populated at startup, together with a touched flag per slot.
pub struct Database<Account> where Account: ClientAccount {
    clients: Vec<(Account, Status)>,
}

impl<Account> Database<Account> where Account: ClientAccount {
    /// Model of the registry: each slot's account model, paired with
    /// whether the slot has ever received a transaction.
    pub closed spec fn model(&self) -> Seq<(ClientView, bool)> {
        Seq::new(
            self.clients@.len() as nat,
            |i: int| (self.clients@[i].0.model(), self.clients@[i].1 is Valid),
        )
    }

    /// A well-formed registry has one slot per possible client id, and the
    /// account in each slot carries that slot's id.
    pub open spec fn wf(&self) -> bool {
        &&& self.model().len() == CLIENT_SLOTS
        &&& forall|i: int|
            0 <= i < self.model().len() ==> (#[trigger] self.model()[i]).0.id == i
    }

    /// Routes `transaction` to the account at its client id and applies it
    /// there; the slot counts as touched from now on even when the account
    /// rejects the transaction.
    pub fn apply_transaction(&mut self, transaction: Transaction) -> (r: Result<
        (),
        TransactionError,
    >)
        requires
            old(self).wf(),
        ensures
            final(self).wf(),
            final(self).model() == old(self).model().update(
                transaction.client as int,
                (step(old(self).model()[transaction.client as int].0, transaction).0, true),
            ),
            r == step(old(self).model()[transaction.client as int].0, transaction).1,
    {
        let client_index = transaction.client as usize;
        let entry = &mut self.clients[client_index];
        entry.1 = Status::Valid;
        let r = entry.0.execute_transaction(transaction);
        proof {
            assert(self.model() =~= old(self).model().update(
                transaction.client as int,
                (step(old(self).model()[transaction.client as int].0, transaction).0, true),
            ));
        }
        r
    }

    /// Report rows for every account that has received at least one
    /// transaction, in ascending client id order.
    pub fn report(&self) -> (rows: Vec<ReportRow>)
        requires
            self.wf(),
        ensures
            rows@ == spec_report(self.model()),
    {
        let mut rows: Vec<ReportRow> = Vec::new();
        let mut i: usize = 0;
        while i < self.clients.len()
            invariant
                i <= self.clients@.len(),
                self.clients@.len() == self.model().len(),
                rows@ == spec_report(self.model().take(i as int)),
            decreases self.clients@.len() - i,
        {
            let entry = &self.clients[i];
            match entry.1 {
                Status::Valid => {
                    let account = &entry.0;
                    let available = account.available();
                    let held = account.held();
                    let total = account.total();
                    let row = ReportRow {
                        client: account.id(),
                        available,
                        held,
                        total,
                        locked: account.locked(),
                    };
                    proof {
                        crate::amount::lemma_amount_from_view(available);
                        crate::amount::lemma_amount_from_view(held);
                        crate::amount::lemma_amount_from_view(total);
                        assert(row == spec_row(self.model()[i as int].0));
                    }
                    rows.push(row);
                },
                Status::Invalid => {},
            }
            proof {
                assert(self.model().take(i + 1 as int).drop_last() =~= self.model().take(i as int));
                assert(self.model().take(i + 1 as int).last() == self.model()[i as int]);
            }
            i = i + 1;
        }
        proof {
            assert(self.model().take(self.model().len() as int) =~= self.model());
        }
        rows
    }
}

impl Database<Client> {
    /// Creates a registry pre-populated with one empty, untouched account
    /// per possible client id, so that routing never fails.
    pub fn new() -> (r: Database<Client>)
        ensures
            r.wf(),
            forall|i: int|
                0 <= i < CLIENT_SLOTS ==> #[trigger] r.model()[i] == ((
                    ClientView {
                        id: i as ClientId,
                        available: 0,
                        held: 0,
                        locked: false,
                        records: Seq::<TransactionRecord>::empty(),
                    },
                    false,
                )),
    {
        let mut clients: Vec<(Client, Status)> = Vec::with_capacity(CLIENT_SLOTS);
        let mut client_id: usize = 0;
        while client_id < CLIENT_SLOTS
            invariant
                client_id <= CLIENT_SLOTS,
                clients@.len() == client_id,
                forall|i: int|
                    0 <= i < client_id ==> (#[trigger] clients@[i]).0@ == (ClientView {
                        id: i as ClientId,
                        available: 0,
                        held: 0,
                        locked: false,
                        records: Seq::<TransactionRecord>::empty(),
                    }) && clients@[i].1 is Invalid,
            decreases CLIENT_SLOTS - client_id,
        {
            clients.push((Client::new(client_id as ClientId), Status::Invalid));
            client_id = client_id + 1;
        }
        Database { clients }
    }
}

} // verus!
