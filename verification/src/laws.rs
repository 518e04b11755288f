//! Laws of the state machine, proved over its model.

use crate::books::{fits, Books};
use crate::record::{Outcome, Record, TransactionType};
use vstd::prelude::*;

verus! {

/// A record applied to a well-formed state leaves a well-formed state: every
/// account stays balanced, with its total the sum of available and held, and
/// every disputed transaction stays in the ledger.
pub proof fn lemma_step_keeps_wf(books: Books, record: Record)
    requires
        books.wf(),
    ensures
        books.step(record).wf(),
{
}

/// Whatever log is replayed from the empty state, every account of the
/// resulting state is balanced: its total is the sum of available and held.
pub proof fn lemma_run_keeps_balance(log: Seq<Record>)
    ensures
        Books::empty().run(log).wf(),
        forall|id: u16| #[trigger]
            Books::empty().run(log).accounts.contains_key(id) ==> Books::empty().run(
                log,
            ).accounts[id].balanced(),
    decreases log.len(),
{
    if log.len() > 0 {
        lemma_run_keeps_balance(log.drop_last());
        lemma_step_keeps_wf(Books::empty().run(log.drop_last()), log.last());
    }
}

/// A rejected record leaves the state as it was.
pub proof fn lemma_rejection_changes_nothing(books: Books, record: Record)
    requires
        books.outcome(record) != Outcome::Applied,
    ensures
        books.step(record) == books,
{
}

/// Resolving or charging back the same transaction twice leaves the state
/// that doing it once leaves: the second application is rejected, because the
/// transaction is no longer under dispute.
pub proof fn lemma_settling_twice_is_settling_once(books: Books, record: Record)
    requires
        record.transaction_type == TransactionType::Resolve || record.transaction_type
            == TransactionType::Chargeback,
    ensures
        books.step(record).step(record) == books.step(record),
        books.outcome(record) == Outcome::Applied ==> books.step(record).outcome(record)
            == Outcome::RejectedNotDisputed,
{
}

/// The tracker holds a transaction at most once: a dispute of a transaction
/// that is already under dispute leaves the set of disputed transactions as
/// it was.
pub proof fn lemma_dispute_is_open_at_most_once(books: Books, record: Record)
    requires
        record.transaction_type == TransactionType::Dispute,
        books.disputes.contains(record.tx),
    ensures
        books.step(record).disputes == books.disputes,
{
    assert(books.disputes.insert(record.tx) =~= books.disputes);
}

/// One resolve or chargeback that is applied ends the dispute of its
/// transaction, however often the dispute was raised.
pub proof fn lemma_settling_ends_the_dispute(books: Books, record: Record)
    requires
        record.transaction_type == TransactionType::Resolve || record.transaction_type
            == TransactionType::Chargeback,
        books.outcome(record) == Outcome::Applied,
    ensures
        !books.step(record).disputes.contains(record.tx),
        books.step(record).disputes == books.disputes.remove(record.tx),
{
}

/// A dispute does not look at what is available: where the client is known,
/// the ledger holds the transaction and the two new balances are within
/// range, the recorded amount moves from available to held, even if that
/// leaves a negative amount available.
pub proof fn lemma_dispute_ignores_available(books: Books, record: Record)
    requires
        record.transaction_type == TransactionType::Dispute,
        books.accounts.contains_key(record.client),
        books.ledger.contains_key(record.tx),
        fits(books.accounts[record.client].available - books.ledger[record.tx]),
        fits(books.accounts[record.client].held + books.ledger[record.tx]),
    ensures
        books.outcome(record) == Outcome::Applied,
        books.step(record).disputes.contains(record.tx),
        books.step(record).accounts[record.client].available == books.accounts[record.client].available
            - books.ledger[record.tx],
        books.step(record).accounts[record.client].held == books.accounts[record.client].held
            + books.ledger[record.tx],
        books.step(record).accounts[record.client].total == books.accounts[record.client].total,
{
}

} // verus!
