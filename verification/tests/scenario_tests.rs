use payments::amount::Amount;
use payments::client::{Client, ClientAccount};
use payments::database::Database;
use payments::transaction::{
    Transaction, TransactionError, TransactionId, TransactionState, TransactionType,
};

fn deposit(client: u16, id: TransactionId, amount: i64) -> Transaction {
    Transaction {
        transaction_type: TransactionType::Deposit(Amount::new(amount)),
        client,
        id,
    }
}

fn withdrawal(client: u16, id: TransactionId, amount: i64) -> Transaction {
    Transaction {
        transaction_type: TransactionType::Withdrawal(Amount::new(amount)),
        client,
        id,
    }
}

fn lifecycle(client: u16, id: TransactionId, kind: TransactionType) -> Transaction {
    Transaction {
        transaction_type: kind,
        client,
        id,
    }
}

#[test]
fn scenario_withdrawal_dispute_chargeback_locks_account() {
    let mut client = Client::new(1);

    client.execute_transaction(deposit(1, 1, 10000)).unwrap();
    assert_eq!(Amount::new(10000), client.available());
    assert_eq!(Amount::new(10000), client.total());

    client.execute_transaction(withdrawal(1, 2, 4000)).unwrap();
    assert_eq!(Amount::new(6000), client.available());

    client
        .execute_transaction(lifecycle(1, 2, TransactionType::Dispute))
        .unwrap();
    assert_eq!(Amount::new(4000), client.held());
    assert_eq!(Amount::new(6000), client.available());
    assert_eq!(Amount::new(10000), client.total());

    client
        .execute_transaction(lifecycle(1, 2, TransactionType::Chargeback))
        .unwrap();
    assert_eq!(Amount::new(0), client.held());
    assert_eq!(Amount::new(6000), client.available());
    assert_eq!(Amount::new(6000), client.total());
    assert_eq!(true, client.locked());

    let result = client.execute_transaction(deposit(1, 3, 1));
    assert_eq!(Err(TransactionError::ClientLocked), result);
}

#[test]
fn scenario_dispute_resolve_repeats_for_same_transaction() {
    let mut client = Client::new(1);

    client.execute_transaction(deposit(1, 5, 20000)).unwrap();

    client
        .execute_transaction(lifecycle(1, 5, TransactionType::Dispute))
        .unwrap();
    assert_eq!(Amount::new(0), client.available());
    assert_eq!(Amount::new(20000), client.held());

    client
        .execute_transaction(lifecycle(1, 5, TransactionType::Resolve))
        .unwrap();
    assert_eq!(Amount::new(20000), client.available());
    assert_eq!(Amount::new(0), client.held());
    let index = client.transaction_index(5).unwrap();
    assert_eq!(TransactionState::Settled, client.record_at(index).state);

    // the same transaction can be disputed and resolved again
    client
        .execute_transaction(lifecycle(1, 5, TransactionType::Dispute))
        .unwrap();
    assert_eq!(Amount::new(0), client.available());
    assert_eq!(Amount::new(20000), client.held());

    client
        .execute_transaction(lifecycle(1, 5, TransactionType::Resolve))
        .unwrap();
    assert_eq!(Amount::new(20000), client.available());
    assert_eq!(Amount::new(0), client.held());
}

#[test]
fn scenario_deposit_increases_only_available() {
    let mut client = Client::new(7);
    client.execute_transaction(deposit(7, 1, 1500)).unwrap();
    let result = client.execute_transaction(deposit(7, 2, 250));

    assert_eq!(Ok(()), result);
    assert_eq!(Amount::new(1750), client.available());
    assert_eq!(Amount::new(0), client.held());
    assert_eq!(false, client.locked());
}

#[test]
fn scenario_rejected_withdrawal_leaves_state_unchanged() {
    let mut client = Client::new(7);
    client.execute_transaction(deposit(7, 1, 1500)).unwrap();
    let snapshot = client.clone();

    let result = client.execute_transaction(withdrawal(7, 2, 1501));
    assert_eq!(
        Err(TransactionError::InvalidWithdrawal {
            resulting_amount: Amount::new(-1)
        }),
        result
    );
    assert_eq!(snapshot, client);

    let result = client.execute_transaction(withdrawal(7, 2, 1500));
    assert_eq!(Ok(()), result);
    assert_eq!(Amount::new(0), client.available());
}

#[test]
fn scenario_report_lists_touched_accounts_in_ascending_order() {
    let mut db = Database::<Client>::new();

    db.apply_transaction(deposit(40, 1, 500)).unwrap();
    db.apply_transaction(deposit(3, 2, 700)).unwrap();
    db.apply_transaction(withdrawal(40, 3, 100)).unwrap();
    db.apply_transaction(lifecycle(3, 2, TransactionType::Dispute))
        .unwrap();

    let rows = db.report();
    assert_eq!(2, rows.len());

    assert_eq!(3, rows[0].client);
    assert_eq!(Amount::new(0), rows[0].available);
    assert_eq!(Amount::new(700), rows[0].held);
    assert_eq!(Amount::new(700), rows[0].total);
    assert_eq!(false, rows[0].locked);

    assert_eq!(40, rows[1].client);
    assert_eq!(Amount::new(400), rows[1].available);
    assert_eq!(Amount::new(0), rows[1].held);
    assert_eq!(Amount::new(400), rows[1].total);
    assert_eq!(false, rows[1].locked);
}
