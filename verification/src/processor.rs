//! The transaction processor: one function for each kind of record, and the
//! processor that owns the state and hands each record to the right one.

use crate::books::Books;
use crate::client::{get_updated_client, Client};
use crate::record::{Outcome, Record, TransactionType};
use crate::report::{render_report, report_text};
use crate::store::{AccountStore, DisputeTracker, TransactionLedger};
use vstd::prelude::*;

verus! {

/// Opens the account of `client_id` with the record's amount and enters the
/// amount in the ledger. An account already stored there is replaced.
pub fn add_to_map(
    record: &Record,
    map: &mut AccountStore,
    client_id: u16,
    transaction_map: &mut TransactionLedger,
)
    ensures
        final(map)@ == old(map)@.insert(
            client_id,
            Client {
                id: client_id,
                available: record.amount,
                held: 0,
                total: record.amount,
                locked: false,
            },
        ),
        final(transaction_map)@ == old(transaction_map)@.insert(record.tx, record.amount),
{
    let client = Client {
        id: client_id,
        available: record.amount,
        held: 0,
        total: record.amount,
        locked: false,
    };
    map.upsert(client);
    transaction_map.record(record.tx, record.amount);
}

/// Adds the record's amount to the account of `client_id`, which must exist,
/// and enters the amount in the ledger. A deposit neither reads nor changes
/// the disputes, so the contract is stated over a state without any.
pub fn update_deposit_map(
    map: &mut AccountStore,
    client_id: u16,
    record: &Record,
    transaction_map: &mut TransactionLedger,
) -> (outcome: Outcome)
    requires
        old(map)@.contains_key(client_id),
    ensures
        ({
            let before = Books {
                accounts: old(map)@,
                ledger: old(transaction_map)@,
                disputes: Set::empty(),
            };
            &&& outcome == before.top_up_outcome(client_id, record.amount)
            &&& final(map)@ == before.topped_up(client_id, record.tx, record.amount).accounts
            &&& final(transaction_map)@ == before.topped_up(
                client_id,
                record.tx,
                record.amount,
            ).ledger
        }),
{
    let client = match map.get(client_id) {
        Some(client) => client,
        None => { return Outcome::RejectedUnknownClient; },
    };
    let available = match client.available.checked_add(record.amount) {
        Some(available) => available,
        None => { return Outcome::RejectedOverflow; },
    };
    let total = match client.total.checked_add(record.amount) {
        Some(total) => total,
        None => { return Outcome::RejectedOverflow; },
    };
    let updated_client = get_updated_client(client_id, available, client.held, total, client.locked);
    map.upsert(updated_client);
    transaction_map.record(record.tx, record.amount);
    Outcome::Applied
}

/// Takes the record's amount from the account of `client_id`, which must
/// exist, unless it exceeds what is available, and enters it in the ledger.
/// A withdrawal neither reads nor changes the disputes, so the contract is
/// stated over a state without any.
pub fn update_withdrawal_map(
    map: &mut AccountStore,
    client_id: u16,
    record: &Record,
    transaction_map: &mut TransactionLedger,
) -> (outcome: Outcome)
    requires
        old(map)@.contains_key(client_id),
    ensures
        ({
            let before = Books {
                accounts: old(map)@,
                ledger: old(transaction_map)@,
                disputes: Set::empty(),
            };
            &&& outcome == before.draw_outcome(client_id, record.amount)
            &&& final(map)@ == before.drawn(client_id, record.tx, record.amount).accounts
            &&& final(transaction_map)@ == before.drawn(client_id, record.tx, record.amount).ledger
        }),
{
    let client = match map.get(client_id) {
        Some(client) => client,
        None => { return Outcome::RejectedUnknownClient; },
    };
    if record.amount > client.available {
        return Outcome::RejectedInsufficientFunds;
    }
    let available = match client.available.checked_sub(record.amount) {
        Some(available) => available,
        None => { return Outcome::RejectedOverflow; },
    };
    let total = match client.total.checked_sub(record.amount) {
        Some(total) => total,
        None => { return Outcome::RejectedOverflow; },
    };
    let updated_client = get_updated_client(client_id, available, client.held, total, client.locked);
    map.upsert(updated_client);
    transaction_map.record(record.tx, record.amount);
    Outcome::Applied
}

/// Opens a dispute of the record's transaction: the amount that the ledger
/// holds for it moves from available to held in the account of `client_id`.
pub fn update_dispute_map(
    map: &mut AccountStore,
    client_id: u16,
    transaction_map: &TransactionLedger,
    record: &Record,
    dispute_list: &mut DisputeTracker,
) -> (outcome: Outcome)
    ensures
        ({
            let before = Books {
                accounts: old(map)@,
                ledger: transaction_map@,
                disputes: old(dispute_list)@,
            };
            &&& outcome == before.dispute_outcome(client_id, record.tx)
            &&& final(map)@ == before.disputed(client_id, record.tx).accounts
            &&& final(dispute_list)@ == before.disputed(client_id, record.tx).disputes
        }),
{
    let client = match map.get(client_id) {
        Some(client) => client,
        None => { return Outcome::RejectedUnknownClient; },
    };
    let dispute_amount = match transaction_map.lookup(record.tx) {
        Some(amount) => amount,
        None => { return Outcome::RejectedUnknownTransaction; },
    };
    let available = match client.available.checked_sub(dispute_amount) {
        Some(available) => available,
        None => { return Outcome::RejectedOverflow; },
    };
    let held_amount = match client.held.checked_add(dispute_amount) {
        Some(held) => held,
        None => { return Outcome::RejectedOverflow; },
    };
    let updated_client = get_updated_client(
        client_id,
        available,
        held_amount,
        client.total,
        client.locked,
    );
    map.upsert(updated_client);
    dispute_list.open(record.tx);
    Outcome::Applied
}

/// Resolves the dispute of the record's transaction: the amount that the
/// ledger holds for it moves back from held to available in the account of
/// `client_id`, and the dispute ends. The ledger must hold the transaction if
/// it is under dispute.
pub fn update_resolve_map(
    map: &mut AccountStore,
    client_id: u16,
    dispute_list: &mut DisputeTracker,
    record: &Record,
    transaction_map: &TransactionLedger,
) -> (outcome: Outcome)
    requires
        old(dispute_list)@.contains(record.tx) ==> transaction_map@.contains_key(record.tx),
    ensures
        ({
            let before = Books {
                accounts: old(map)@,
                ledger: transaction_map@,
                disputes: old(dispute_list)@,
            };
            &&& outcome == before.resolve_outcome(client_id, record.tx)
            &&& final(map)@ == before.resolved(client_id, record.tx).accounts
            &&& final(dispute_list)@ == before.resolved(client_id, record.tx).disputes
        }),
{
    let client = match map.get(client_id) {
        Some(client) => client,
        None => { return Outcome::RejectedUnknownClient; },
    };
    if !dispute_list.is_open(record.tx) {
        return Outcome::RejectedNotDisputed;
    }
    let dispute_amount = match transaction_map.lookup(record.tx) {
        Some(amount) => amount,
        None => { return Outcome::RejectedNotDisputed; },
    };
    let available = match client.available.checked_add(dispute_amount) {
        Some(available) => available,
        None => { return Outcome::RejectedOverflow; },
    };
    let held = match client.held.checked_sub(dispute_amount) {
        Some(held) => held,
        None => { return Outcome::RejectedOverflow; },
    };
    let updated_client = get_updated_client(client_id, available, held, client.total, client.locked);
    map.upsert(updated_client);
    dispute_list.close(record.tx);
    Outcome::Applied
}

/// Charges back the record's transaction: the amount that the ledger holds
/// for it leaves held and total in the account of `client_id`, the account is
/// locked, and the dispute ends. The ledger must hold the transaction if it
/// is under dispute.
pub fn update_chargeback_map(
    map: &mut AccountStore,
    client_id: u16,
    dispute_list: &mut DisputeTracker,
    record: &Record,
    transaction_map: &TransactionLedger,
) -> (outcome: Outcome)
    requires
        old(dispute_list)@.contains(record.tx) ==> transaction_map@.contains_key(record.tx),
    ensures
        ({
            let before = Books {
                accounts: old(map)@,
                ledger: transaction_map@,
                disputes: old(dispute_list)@,
            };
            &&& outcome == before.chargeback_outcome(client_id, record.tx)
            &&& final(map)@ == before.charged_back(client_id, record.tx).accounts
            &&& final(dispute_list)@ == before.charged_back(client_id, record.tx).disputes
        }),
{
    let client = match map.get(client_id) {
        Some(client) => client,
        None => { return Outcome::RejectedUnknownClient; },
    };
    if !dispute_list.is_open(record.tx) {
        return Outcome::RejectedNotDisputed;
    }
    let dispute_amount = match transaction_map.lookup(record.tx) {
        Some(amount) => amount,
        None => { return Outcome::RejectedNotDisputed; },
    };
    let held = match client.held.checked_sub(dispute_amount) {
        Some(held) => held,
        None => { return Outcome::RejectedOverflow; },
    };
    let total = match client.total.checked_sub(dispute_amount) {
        Some(total) => total,
        None => { return Outcome::RejectedOverflow; },
    };
    let updated_client = get_updated_client(client_id, client.available, held, total, true);
    map.upsert(updated_client);
    dispute_list.close(record.tx);
    Outcome::Applied
}

} // verus!

verus! {

/// The transaction processor with the state it owns.
pub struct Processor {
    accounts: AccountStore,
    ledger: TransactionLedger,
    disputes: DisputeTracker,
}

impl View for Processor {
    type V = Books;

    closed spec fn view(&self) -> Books {
        Books { accounts: self.accounts@, ledger: self.ledger@, disputes: self.disputes@ }
    }
}

impl Processor {
    /// The invariant of the processor: that of its state.
    pub open spec fn wf(&self) -> bool {
        self@.wf()
    }

    /// A processor that has seen no record.
    pub fn new() -> (processor: Processor)
        ensures
            processor.wf(),
            processor@ == Books::empty(),
    {
        Processor {
            accounts: AccountStore::new(),
            ledger: TransactionLedger::new(),
            disputes: DisputeTracker::new(),
        }
    }

    /// Applies one record of the log and says what became of it.
    pub fn apply(&mut self, record: &Record) -> (outcome: Outcome)
        requires
            old(self).wf(),
        ensures
            final(self).wf(),
            final(self)@ == old(self)@.step(*record),
            outcome == old(self)@.outcome(*record),
    {
        proof {
            crate::laws::lemma_step_keeps_wf(self@, *record);
        }
        let client_id = record.client;
        match record.transaction_type {
            TransactionType::Deposit => {
                if !self.accounts.contains_key(client_id) {
                    add_to_map(record, &mut self.accounts, client_id, &mut self.ledger);
                    Outcome::Applied
                } else {
                    update_deposit_map(&mut self.accounts, client_id, record, &mut self.ledger)
                }
            },
            TransactionType::Withdrawal => {
                if !self.accounts.contains_key(client_id) {
                    Outcome::RejectedUnknownClient
                } else {
                    update_withdrawal_map(&mut self.accounts, client_id, record, &mut self.ledger)
                }
            },
            TransactionType::Dispute => update_dispute_map(
                &mut self.accounts,
                client_id,
                &self.ledger,
                record,
                &mut self.disputes,
            ),
            TransactionType::Resolve => update_resolve_map(
                &mut self.accounts,
                client_id,
                &mut self.disputes,
                record,
                &self.ledger,
            ),
            TransactionType::Chargeback => update_chargeback_map(
                &mut self.accounts,
                client_id,
                &mut self.disputes,
                record,
                &self.ledger,
            ),
            TransactionType::Unknown => Outcome::RejectedUnknownType,
        }
    }

    /// Applies the records of `log` in order.
    pub fn replay(&mut self, log: &Vec<Record>)
        requires
            old(self).wf(),
        ensures
            final(self).wf(),
            final(self)@ == old(self)@.run(log@),
    {
        let mut i: usize = 0;
        while i < log.len()
            invariant
                i <= log.len(),
                self.wf(),
                self@ == old(self)@.run(log@.take(i as int)),
            decreases log.len() - i,
        {
            proof {
                let longer = log@.take(i + 1);
                assert(longer.drop_last() =~= log@.take(i as int));
                assert(longer.last() == log@[i as int]);
            }
            self.apply(&log[i]);
            i += 1;
        }
        assert(log@.take(i as int) =~= log@);
    }

    /// The report of the accounts as they stand.
    pub fn report(&self) -> (report: Vec<u8>)
        ensures
            report@ == report_text(self@.accounts),
    {
        render_report(&self.accounts)
    }

    /// The account of `client_id`, if the client is known.
    pub fn account(&self, client_id: u16) -> (found: Option<Client>)
        ensures
            found == (if self@.accounts.contains_key(client_id) {
                Some(self@.accounts[client_id])
            } else {
                None
            }),
    {
        self.accounts.get(client_id)
    }

    /// The amount that the ledger holds for `tx_id`, if any.
    pub fn recorded_amount(&self, tx_id: u32) -> (found: Option<i64>)
        ensures
            found == (if self@.ledger.contains_key(tx_id) {
                Some(self@.ledger[tx_id])
            } else {
                None
            }),
    {
        self.ledger.lookup(tx_id)
    }

    /// Whether `tx_id` is under dispute.
    pub fn is_disputed(&self, tx_id: u32) -> (disputed: bool)
        ensures
            disputed == self@.disputes.contains(tx_id),
    {
        self.disputes.is_open(tx_id)
    }
}

} // verus!
