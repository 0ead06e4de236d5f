//! Turning a raw CSV row, already split into its four text fields, into a
//! ledger [`Transaction`].
//!
//! Reading the file and splitting rows is I/O and stays outside the
//! library; what arrives here are the plain field values of one row.

use vstd::prelude::*;
use vstd::string::StrSliceExecFns;

use crate::amount::{
    all_digits, digits_val, is_digit, parse_amount, well_formed_decimal, Amount, ParseAmountError,
};
use crate::text::{str_eq, trim, trimmed};
use crate::transaction::{ClientId, Transaction, TransactionId, TransactionType};

verus! {

/// Why a CSV row could not be turned into a transaction.
#[derive(Copy, Clone, Debug, PartialEq, Eq)]
pub enum CsvTransactionError {
    /// The amount field of a deposit or withdrawal does not parse.
    InvalidAmount(ParseAmountError),
    /// The client field is not a decimal number that fits a client id.
    InvalidClientId,
}

/// One raw CSV row: the four column values as they appeared in the file.
pub struct CsvTransaction {
    pub transaction_type: String,
    pub client: String,
    pub tx: TransactionId,
    pub amount: Option<String>,
}

/// What parsing a client id field yields: the number its digits denote,
/// after an optional `+`, when that fits a `ClientId`.
pub open spec fn spec_parse_client_id(s: Seq<char>) -> Option<ClientId> {
    let b = s.skip(
        if s.len() > 0 && s[0] == '+' {
            1
        } else {
            0
        },
    );
    if b.len() == 0 || !all_digits(b) {
        None
    } else if digits_val(b) > ClientId::MAX {
        None
    } else {
        Some(digits_val(b) as ClientId)
    }
}

/// Parses a client id field: an optional `+` followed by decimal digits
/// whose value fits a `ClientId`.
#[verifier::loop_isolation(false)]
pub fn parse_client_id(s: &str) -> (r: Option<ClientId>)
    ensures
        r == spec_parse_client_id(s@),
{
    let n = s.unicode_len();
    let mut off: usize = 0;
    if n > 0 {
        if s.get_char(0) == '+' {
            off = 1;
        }
    }
    let ghost b = s@.skip(off as int);
    if n == off {
        return None;
    }
    let mut value: u32 = 0;
    let mut i = off;
    while i < n
        invariant
            off <= i <= n,
            value as int == digits_val(b.take(i - off as int)),
            value <= ClientId::MAX,
            forall|k: int| off <= k < i ==> is_digit(s@[k]),
        decreases n - i,
    {
        let c = s.get_char(i);
        let u = c as u32;
        if u < 48 || 57 < u {
            proof {
                assert(b[i - off] == s@[i as int]);
            }
            return None;
        }
        proof {
            crate::amount::lemma_digits_val_take_step(b, i - off as int);
        }
        value = value * 10 + (u - 48);
        i = i + 1;
        if value > 65535 {
            proof {
                if all_digits(b) {
                    crate::amount::lemma_digits_val_take_le(b, i - off as int);
                }
            }
            return None;
        }
    }
    proof {
        assert(b.take(n - off as int) =~= b);
        assert forall|k: int| 0 <= k < b.len() implies is_digit(#[trigger] b[k]) by {
            assert(b[k] == s@[k + off]);
        }
    }
    Some(value as ClientId)
}

/// The transaction a raw CSV row denotes, if any: rows of an unknown kind,
/// and money-moving rows without an amount, are dropped (`Ok(None)`);
/// a bad amount or client field is an error.
pub open spec fn spec_into_transaction(
    tt: Seq<char>,
    amount: Option<Seq<char>>,
    client: Seq<char>,
    tx: TransactionId,
) -> Result<Option<Transaction>, CsvTransactionError> {
    let amount_text = match amount {
        Some(a) => a,
        None => Seq::<char>::empty(),
    };
    let amount_is_empty = trimmed(amount_text).len() == 0;
    let kind = trimmed(tt);
    if kind == "deposit"@ || kind == "withdrawal"@ {
        if amount_is_empty {
            Ok(None)
        } else {
            match parse_amount(amount_text) {
                None => Err(
                    CsvTransactionError::InvalidAmount(
                        if !well_formed_decimal(amount_text) {
                            ParseAmountError::Invalid
                        } else {
                            ParseAmountError::OutOfRange
                        },
                    ),
                ),
                Some(v) => match spec_parse_client_id(client) {
                    None => Err(CsvTransactionError::InvalidClientId),
                    Some(cid) => Ok(
                        Some(
                            Transaction {
                                transaction_type: if kind == "deposit"@ {
                                    TransactionType::Deposit(Amount::spec_new(v))
                                } else {
                                    TransactionType::Withdrawal(Amount::spec_new(v))
                                },
                                client: cid,
                                id: tx,
                            },
                        ),
                    ),
                },
            }
        }
    } else if kind == "dispute"@ || kind == "resolve"@ || kind == "chargeback"@ {
        match spec_parse_client_id(client) {
            None => Err(CsvTransactionError::InvalidClientId),
            Some(cid) => Ok(
                Some(
                    Transaction {
                        transaction_type: if kind == "dispute"@ {
                            TransactionType::Dispute
                        } else if kind == "resolve"@ {
                            TransactionType::Resolve
                        } else {
                            TransactionType::Chargeback
                        },
                        client: cid,
                        id: tx,
                    },
                ),
            ),
        }
    } else {
        Ok(None)
    }
}

impl CsvTransaction {
    /// Turns this raw row into a ledger transaction, as
    /// [`spec_into_transaction`] describes.
    pub fn into_transaction(&self) -> (r: Result<Option<Transaction>, CsvTransactionError>)
        ensures
            r == spec_into_transaction(
                self.transaction_type@,
                match self.amount {
                    Some(a) => Some(a@),
                    None => None::<Seq<char>>,
                },
                self.client@,
                self.tx,
            ),
    {
        let amount_str: &str = match &self.amount {
            Some(a) => a.as_str(),
            None => "",
        };
        proof {
            reveal_strlit("");
            assert(""@ =~= Seq::<char>::empty());
        }
        let amount_is_empty = trim(amount_str).unicode_len() == 0;
        let kind = trim(self.transaction_type.as_str());
        let is_deposit = str_eq(kind, "deposit");
        let is_withdrawal = str_eq(kind, "withdrawal");
        let transaction_type = if is_deposit || is_withdrawal {
            if amount_is_empty {
                return Ok(None);
            }
            match Amount::from_str(amount_str) {
                Ok(a) => {
                    proof {
                        crate::amount::lemma_amount_from_view(a);
                    }
                    if is_deposit {
                        TransactionType::Deposit(a)
                    } else {
                        TransactionType::Withdrawal(a)
                    }
                },
                Err(e) => {
                    return Err(CsvTransactionError::InvalidAmount(e));
                },
            }
        } else if str_eq(kind, "dispute") {
            TransactionType::Dispute
        } else if str_eq(kind, "resolve") {
            TransactionType::Resolve
        } else if str_eq(kind, "chargeback") {
            TransactionType::Chargeback
        } else {
            return Ok(None);
        };
        let client_id = match parse_client_id(self.client.as_str()) {
            Some(cid) => cid,
            None => {
                return Err(CsvTransactionError::InvalidClientId);
            },
        };
        Ok(Some(Transaction { transaction_type, client: client_id, id: self.tx }))
    }
}

} // verus!
