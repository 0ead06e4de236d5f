use payments::amount::{Amount, ParseAmountError};
use payments::parse_csv::{CsvTransaction, CsvTransactionError};
use payments::text::trim;
use payments::transaction::{Transaction, TransactionType};

fn row(kind: &str, client: &str, tx: u32, amount: Option<&str>) -> CsvTransaction {
    CsvTransaction {
        transaction_type: String::from(kind),
        client: String::from(client),
        tx,
        amount: amount.map(String::from),
    }
}

#[test]
fn into_transaction_builds_deposit() {
    let record = row("deposit", "45", 23, Some("1.5"));
    let expected = Transaction {
        transaction_type: TransactionType::Deposit(Amount::new(15000)),
        client: 45,
        id: 23,
    };
    assert_eq!(Ok(Some(expected)), record.into_transaction());
}

#[test]
fn into_transaction_builds_withdrawal_with_padded_fields() {
    let record = row(" withdrawal ", "45", 24, Some("0.25"));
    let expected = Transaction {
        transaction_type: TransactionType::Withdrawal(Amount::new(2500)),
        client: 45,
        id: 24,
    };
    assert_eq!(Ok(Some(expected)), record.into_transaction());
}

#[test]
fn into_transaction_builds_lifecycle_kinds_without_amount() {
    for (kind, expected_type) in [
        ("dispute", TransactionType::Dispute),
        ("resolve", TransactionType::Resolve),
        ("chargeback", TransactionType::Chargeback),
    ] {
        let record = row(kind, "7", 99, None);
        let expected = Transaction {
            transaction_type: expected_type,
            client: 7,
            id: 99,
        };
        assert_eq!(Ok(Some(expected)), record.into_transaction());
    }
}

#[test]
fn into_transaction_drops_unknown_kinds_and_missing_amounts() {
    assert_eq!(Ok(None), row("transfer", "1", 1, Some("1.0")).into_transaction());
    assert_eq!(Ok(None), row("deposit", "1", 1, None).into_transaction());
    assert_eq!(Ok(None), row("withdrawal", "1", 1, Some("  ")).into_transaction());
}

#[test]
fn into_transaction_rejects_bad_amounts() {
    assert_eq!(
        Err(CsvTransactionError::InvalidAmount(ParseAmountError::Invalid)),
        row("deposit", "1", 1, Some("pennies")).into_transaction()
    );
    assert_eq!(
        Err(CsvTransactionError::InvalidAmount(ParseAmountError::OutOfRange)),
        row("deposit", "1", 1, Some("99999999999999999")).into_transaction()
    );
}

#[test]
fn into_transaction_rejects_bad_client_ids() {
    assert_eq!(
        Err(CsvTransactionError::InvalidClientId),
        row("deposit", "70000", 1, Some("1.0")).into_transaction()
    );
    assert_eq!(
        Err(CsvTransactionError::InvalidClientId),
        row("dispute", "four", 1, None).into_transaction()
    );
    assert_eq!(
        Err(CsvTransactionError::InvalidClientId),
        row("resolve", "", 1, None).into_transaction()
    );
}

#[test]
fn trim_strips_ascii_whitespace_on_both_sides() {
    assert_eq!("a b", trim(" \t a b \r\n"));
    assert_eq!("", trim("   "));
    assert_eq!("x", trim("x"));
    assert_eq!("", trim(""));
}
