//! The transactions that can be applied to an account.

use crate::amount::Amount;
use vstd::prelude::*;

verus! {

/// Identifies a client, and so the account that a transaction applies to.
pub type ClientId = u16;

/// Identifies a transaction; ids are given by the source of the transactions.
pub type TransactionId = u32;

/// A transaction together with the client whose account it applies to.
#[derive(Clone, Copy, Debug, PartialEq, Eq, Structural)]
pub struct ClientTransaction {
    pub client: ClientId,
    pub tx: Transaction,
}

/// Whether a balance change adds funds to or takes funds from an account.
#[derive(Clone, Copy, Debug, PartialEq, Eq, Structural)]
pub enum ChangeKind {
    Deposit,
    Withdrawal,
}

/// A deposit or withdrawal of some amount.
#[derive(Clone, Copy, Debug, PartialEq, Eq, Structural)]
pub struct AmountChange {
    pub kind: ChangeKind,
    pub amount: Amount,
}

/// A transaction type for disputes.
#[derive(Clone, Copy, Debug, PartialEq, Eq, Structural)]
pub enum DisputeKind {
    /// Initiate a dispute on an earlier deposit. Disputed funds go into holding.
    Initiate,
    /// Resolve a dispute. Funds held by the dispute become available again.
    Resolve,
    /// Charge back a disputed deposit. Funds held by the dispute are removed
    /// and the account is frozen.
    Chargeback,
}

/// A type of transaction.
#[derive(Clone, Copy, Debug, PartialEq, Eq, Structural)]
pub enum Transaction {
    /// A deposit or withdrawal into an account.
    Change { tx_id: TransactionId, change: AmountChange },
    /// A dispute, or the resolution or chargeback of one.
    Dispute { kind: DisputeKind, tx_id: TransactionId },
}

impl Transaction {
    /// A deposit or withdrawal of `amount` under the id `tx_id`.
    pub fn change(tx_id: TransactionId, kind: ChangeKind, amount: Amount) -> (r: Transaction)
        ensures
            r == (Transaction::Change { tx_id, change: AmountChange { kind, amount } }),
    {
        Transaction::Change { tx_id, change: AmountChange { kind, amount } }
    }

    /// A deposit of `amount` under the id `tx_id`.
    pub fn deposit(tx_id: TransactionId, amount: Amount) -> (r: Transaction)
        ensures
            r == (Transaction::Change {
                tx_id,
                change: AmountChange { kind: ChangeKind::Deposit, amount },
            }),
    {
        Transaction::change(tx_id, ChangeKind::Deposit, amount)
    }

    /// A withdrawal of `amount` under the id `tx_id`.
    pub fn withdrawal(tx_id: TransactionId, amount: Amount) -> (r: Transaction)
        ensures
            r == (Transaction::Change {
                tx_id,
                change: AmountChange { kind: ChangeKind::Withdrawal, amount },
            }),
    {
        Transaction::change(tx_id, ChangeKind::Withdrawal, amount)
    }

    /// A dispute step of the given kind on the transaction `tx_id`.
    pub fn dispute(kind: DisputeKind, tx_id: TransactionId) -> (r: Transaction)
        ensures
            r == (Transaction::Dispute { kind, tx_id }),
    {
        Transaction::Dispute { kind, tx_id }
    }
}

/// An error in the text of a transaction record.
#[derive(Clone, Debug, PartialEq, Eq)]
pub enum TransactionParseError {
    MissingTransactionType,
    InvalidTransactionType(String),
    MissingClientId,
    InvalidClientId(String),
    MissingTransactionId,
    InvalidTransactionId(String),
    MissingAmount,
    InvalidAmount(String),
}

/// What a [`TransactionParseError`] says, with the offending field as
/// characters.
pub enum ParseFailure {
    MissingTransactionType,
    InvalidTransactionType(Seq<char>),
    MissingClientId,
    InvalidClientId(Seq<char>),
    MissingTransactionId,
    InvalidTransactionId(Seq<char>),
    MissingAmount,
    InvalidAmount(Seq<char>),
}

impl View for TransactionParseError {
    type V = ParseFailure;

    open spec fn view(&self) -> ParseFailure {
        match self {
            TransactionParseError::MissingTransactionType => ParseFailure::MissingTransactionType,
            TransactionParseError::InvalidTransactionType(s) => ParseFailure::InvalidTransactionType(s@),
            TransactionParseError::MissingClientId => ParseFailure::MissingClientId,
            TransactionParseError::InvalidClientId(s) => ParseFailure::InvalidClientId(s@),
            TransactionParseError::MissingTransactionId => ParseFailure::MissingTransactionId,
            TransactionParseError::InvalidTransactionId(s) => ParseFailure::InvalidTransactionId(s@),
            TransactionParseError::MissingAmount => ParseFailure::MissingAmount,
            TransactionParseError::InvalidAmount(s) => ParseFailure::InvalidAmount(s@),
        }
    }
}

} // verus!
