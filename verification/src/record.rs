//! One entry of the transaction log, and what the processor made of it.

use vstd::prelude::*;

verus! {

/// The five kinds of transaction, and one for every other name.
#[derive(Clone, Copy, Debug, PartialEq, Eq, Structural)]
pub enum TransactionType {
    Deposit,
    Withdrawal,
    Dispute,
    Resolve,
    Chargeback,
    /// A name that is none of the five; such a record changes nothing.
    Unknown,
}

/// One entry of the transaction log.
#[derive(Clone, Copy, Debug, PartialEq, Eq, Structural)]
pub struct Record {
    pub transaction_type: TransactionType,
    pub client: u16,
    pub tx: u32,
    /// In ten-thousandths of a unit; zero where the entry names no amount.
    pub amount: i64,
}

/// What became of a record. Every rejection leaves the state as it was.
#[derive(Clone, Copy, Debug, PartialEq, Eq, Structural)]
pub enum Outcome {
    /// The record changed the state as its kind prescribes.
    Applied,
    /// No account exists for the client.
    RejectedUnknownClient,
    /// The withdrawal asks for more than is available.
    RejectedInsufficientFunds,
    /// The dispute names a transaction that the ledger does not hold.
    RejectedUnknownTransaction,
    /// The resolve or chargeback names a transaction that is not under dispute.
    RejectedNotDisputed,
    /// The record's kind is none of the five.
    RejectedUnknownType,
    /// A balance would leave the range of a 64-bit fixed-point amount.
    RejectedOverflow,
}

} // verus!
