use payments_engine::client::{get_updated_client, Client};
use payments_engine::processor::{
    add_to_map, update_chargeback_map, update_deposit_map, update_dispute_map,
    update_resolve_map, update_withdrawal_map, Processor,
};
use payments_engine::record::{Outcome, Record, TransactionType};
use payments_engine::store::{AccountStore, DisputeTracker, TransactionLedger};

fn record(transaction_type: TransactionType, client: u16, tx: u32, amount: i64) -> Record {
    Record { transaction_type, client, tx, amount }
}

fn deposit(client: u16, tx: u32, amount: i64) -> Record {
    record(TransactionType::Deposit, client, tx, amount)
}

fn withdrawal(client: u16, tx: u32, amount: i64) -> Record {
    record(TransactionType::Withdrawal, client, tx, amount)
}

fn dispute(client: u16, tx: u32) -> Record {
    record(TransactionType::Dispute, client, tx, 0)
}

fn resolve(client: u16, tx: u32) -> Record {
    record(TransactionType::Resolve, client, tx, 0)
}

fn chargeback(client: u16, tx: u32) -> Record {
    record(TransactionType::Chargeback, client, tx, 0)
}

fn account(id: u16, available: i64, held: i64, total: i64, locked: bool) -> Client {
    Client { id, available, held, total, locked }
}

#[test]
fn first_deposit_opens_the_account() {
    let mut p = Processor::new();
    assert_eq!(p.apply(&deposit(1, 1, 100_000)), Outcome::Applied);
    assert_eq!(p.account(1), Some(account(1, 100_000, 0, 100_000, false)));
    assert_eq!(p.recorded_amount(1), Some(100_000));
    assert!(!p.is_disputed(1));
}

#[test]
fn second_deposit_adds_to_the_account() {
    let mut p = Processor::new();
    p.apply(&deposit(1, 1, 100_000));
    assert_eq!(p.apply(&deposit(1, 2, 25_000)), Outcome::Applied);
    assert_eq!(p.account(1), Some(account(1, 125_000, 0, 125_000, false)));
    assert_eq!(p.recorded_amount(2), Some(25_000));
}

#[test]
fn withdrawal_beyond_available_is_rejected() {
    let mut p = Processor::new();
    p.apply(&deposit(1, 1, 100_000));
    assert_eq!(p.apply(&withdrawal(1, 2, 150_000)), Outcome::RejectedInsufficientFunds);
    assert_eq!(p.account(1), Some(account(1, 100_000, 0, 100_000, false)));
    assert_eq!(p.recorded_amount(2), None);
}

#[test]
fn withdrawal_of_all_that_is_available_succeeds() {
    let mut p = Processor::new();
    p.apply(&deposit(1, 1, 100_000));
    assert_eq!(p.apply(&withdrawal(1, 2, 100_000)), Outcome::Applied);
    assert_eq!(p.account(1), Some(account(1, 0, 0, 0, false)));
    assert_eq!(p.recorded_amount(2), Some(100_000));
}

#[test]
fn withdrawal_of_unknown_client_is_rejected() {
    let mut p = Processor::new();
    assert_eq!(p.apply(&withdrawal(7, 1, 1)), Outcome::RejectedUnknownClient);
    assert_eq!(p.account(7), None);
    assert_eq!(p.recorded_amount(1), None);
}

#[test]
fn dispute_holds_the_recorded_amount() {
    let mut p = Processor::new();
    p.apply(&deposit(1, 1, 100_000));
    assert_eq!(p.apply(&dispute(1, 1)), Outcome::Applied);
    assert_eq!(p.account(1), Some(account(1, 0, 100_000, 100_000, false)));
    assert!(p.is_disputed(1));
}

#[test]
fn resolve_releases_the_held_amount() {
    let mut p = Processor::new();
    p.apply(&deposit(1, 1, 100_000));
    p.apply(&dispute(1, 1));
    assert_eq!(p.apply(&resolve(1, 1)), Outcome::Applied);
    assert_eq!(p.account(1), Some(account(1, 100_000, 0, 100_000, false)));
    assert!(!p.is_disputed(1));
}

#[test]
fn chargeback_removes_the_funds_and_locks() {
    let mut p = Processor::new();
    p.apply(&deposit(1, 1, 100_000));
    p.apply(&dispute(1, 1));
    assert_eq!(p.apply(&chargeback(1, 1)), Outcome::Applied);
    assert_eq!(p.account(1), Some(account(1, 0, 0, 0, true)));
    assert!(!p.is_disputed(1));
}

#[test]
fn dispute_of_unknown_transaction_changes_nothing() {
    let mut p = Processor::new();
    p.apply(&deposit(1, 1, 100_000));
    assert_eq!(p.apply(&dispute(1, 99)), Outcome::RejectedUnknownTransaction);
    assert_eq!(p.account(1), Some(account(1, 100_000, 0, 100_000, false)));
    assert!(!p.is_disputed(99));
}

#[test]
fn dispute_by_unknown_client_changes_nothing() {
    let mut p = Processor::new();
    p.apply(&deposit(1, 1, 100_000));
    assert_eq!(p.apply(&dispute(2, 1)), Outcome::RejectedUnknownClient);
    assert_eq!(p.account(1), Some(account(1, 100_000, 0, 100_000, false)));
    assert_eq!(p.account(2), None);
    assert!(!p.is_disputed(1));
}

#[test]
fn resolve_and_chargeback_need_an_open_dispute() {
    let mut p = Processor::new();
    p.apply(&deposit(1, 1, 100_000));
    assert_eq!(p.apply(&resolve(1, 1)), Outcome::RejectedNotDisputed);
    assert_eq!(p.apply(&chargeback(1, 1)), Outcome::RejectedNotDisputed);
    assert_eq!(p.apply(&resolve(2, 1)), Outcome::RejectedUnknownClient);
    assert_eq!(p.apply(&chargeback(2, 1)), Outcome::RejectedUnknownClient);
    assert_eq!(p.account(1), Some(account(1, 100_000, 0, 100_000, false)));
}

#[test]
fn dispute_does_not_look_at_what_is_available() {
    let mut p = Processor::new();
    p.apply(&deposit(1, 1, 100_000));
    assert_eq!(p.apply(&withdrawal(1, 2, 100_000)), Outcome::Applied);
    assert_eq!(p.apply(&dispute(1, 1)), Outcome::Applied);
    assert_eq!(p.account(1), Some(account(1, -100_000, 100_000, 0, false)));
    assert!(p.is_disputed(1));
}

#[test]
fn resolving_twice_is_resolving_once() {
    let mut p = Processor::new();
    p.apply(&deposit(1, 1, 100_000));
    p.apply(&deposit(1, 2, 30_000));
    p.apply(&dispute(1, 1));
    assert_eq!(p.apply(&resolve(1, 1)), Outcome::Applied);
    let once = p.account(1);
    assert_eq!(p.apply(&resolve(1, 1)), Outcome::RejectedNotDisputed);
    assert_eq!(p.account(1), once);
    assert_eq!(once, Some(account(1, 130_000, 0, 130_000, false)));
}

#[test]
fn charging_back_twice_is_charging_back_once() {
    let mut p = Processor::new();
    p.apply(&deposit(1, 1, 100_000));
    p.apply(&deposit(1, 2, 30_000));
    p.apply(&dispute(1, 1));
    assert_eq!(p.apply(&chargeback(1, 1)), Outcome::Applied);
    let once = p.account(1);
    assert_eq!(p.apply(&chargeback(1, 1)), Outcome::RejectedNotDisputed);
    assert_eq!(p.account(1), once);
    assert_eq!(once, Some(account(1, 30_000, 0, 30_000, true)));
}

#[test]
fn a_second_dispute_of_an_open_one_keeps_one_entry() {
    let mut p = Processor::new();
    p.apply(&deposit(1, 1, 100_000));
    assert_eq!(p.apply(&dispute(1, 1)), Outcome::Applied);
    assert_eq!(p.apply(&dispute(1, 1)), Outcome::Applied);
    assert_eq!(p.account(1), Some(account(1, -100_000, 200_000, 100_000, false)));
    assert_eq!(p.apply(&resolve(1, 1)), Outcome::Applied);
    assert!(!p.is_disputed(1));
    assert_eq!(p.apply(&resolve(1, 1)), Outcome::RejectedNotDisputed);
    assert_eq!(p.account(1), Some(account(1, 0, 100_000, 100_000, false)));
}

#[test]
fn total_is_available_plus_held_after_every_record() {
    let log = [
        deposit(1, 1, 100_000),
        deposit(2, 2, 5),
        withdrawal(1, 3, 40_000),
        dispute(1, 1),
        deposit(1, 4, 7),
        withdrawal(2, 5, 6),
        dispute(2, 2),
        chargeback(2, 2),
        resolve(1, 1),
        dispute(1, 3),
        record(TransactionType::Unknown, 1, 9, 1),
    ];
    let mut p = Processor::new();
    for r in log.iter() {
        p.apply(r);
        for id in [1u16, 2u16] {
            if let Some(a) = p.account(id) {
                assert_eq!(a.id, id);
                assert_eq!(a.total, a.available + a.held);
            }
        }
    }
    assert_eq!(p.account(1), Some(account(1, 20_007, 40_000, 60_007, false)));
    assert_eq!(p.account(2), Some(account(2, 0, 0, 0, true)));
}

#[test]
fn held_stays_non_negative_in_an_orderly_log() {
    let log = [
        deposit(1, 1, 100),
        deposit(1, 2, 50),
        deposit(2, 3, 70),
        dispute(1, 1),
        dispute(1, 2),
        dispute(2, 3),
        resolve(1, 2),
        chargeback(1, 1),
        resolve(2, 3),
    ];
    let mut p = Processor::new();
    for r in log.iter() {
        p.apply(r);
        for id in [1u16, 2u16] {
            if let Some(a) = p.account(id) {
                assert!(a.held >= 0);
            }
        }
    }
    assert_eq!(p.account(1), Some(account(1, 50, 0, 50, true)));
    assert_eq!(p.account(2), Some(account(2, 70, 0, 70, false)));
}

#[test]
fn held_can_go_negative_when_another_client_resolves() {
    let mut p = Processor::new();
    p.apply(&deposit(1, 1, 100));
    p.apply(&deposit(2, 2, 50));
    p.apply(&dispute(1, 1));
    assert_eq!(p.apply(&resolve(2, 1)), Outcome::Applied);
    assert_eq!(p.account(2), Some(account(2, 150, -100, 50, false)));
}

#[test]
fn unknown_type_is_rejected() {
    let mut p = Processor::new();
    p.apply(&deposit(1, 1, 100));
    assert_eq!(
        p.apply(&record(TransactionType::Unknown, 1, 2, 50)),
        Outcome::RejectedUnknownType
    );
    assert_eq!(p.account(1), Some(account(1, 100, 0, 100, false)));
    assert_eq!(p.recorded_amount(2), None);
}

#[test]
fn deposit_that_would_overflow_is_rejected() {
    let mut p = Processor::new();
    p.apply(&deposit(1, 1, i64::MAX));
    assert_eq!(p.apply(&deposit(1, 2, 1)), Outcome::RejectedOverflow);
    assert_eq!(p.account(1), Some(account(1, i64::MAX, 0, i64::MAX, false)));
    assert_eq!(p.recorded_amount(2), None);
}

#[test]
fn withdrawal_that_would_overflow_is_rejected() {
    let mut p = Processor::new();
    p.apply(&deposit(1, 1, i64::MAX));
    assert_eq!(p.apply(&withdrawal(1, 2, -1)), Outcome::RejectedOverflow);
    assert_eq!(p.account(1), Some(account(1, i64::MAX, 0, i64::MAX, false)));
}

#[test]
fn dispute_that_would_overflow_is_rejected() {
    let mut p = Processor::new();
    p.apply(&deposit(1, 1, i64::MAX));
    p.apply(&dispute(1, 1));
    assert_eq!(p.account(1), Some(account(1, 0, i64::MAX, i64::MAX, false)));
    p.apply(&deposit(2, 3, 1));
    assert_eq!(p.apply(&dispute(1, 3)), Outcome::RejectedOverflow);
    assert!(!p.is_disputed(3));
    assert_eq!(p.account(1), Some(account(1, 0, i64::MAX, i64::MAX, false)));
}

#[test]
fn resolve_and_chargeback_that_would_overflow_are_rejected() {
    let mut p = Processor::new();
    p.apply(&deposit(1, 1, -2));
    p.apply(&dispute(1, 1));
    p.apply(&deposit(1, 2, i64::MAX));
    p.apply(&dispute(1, 2));
    assert_eq!(p.account(1), Some(account(1, 0, i64::MAX - 2, i64::MAX - 2, false)));
    p.apply(&deposit(1, 1, -3));
    assert_eq!(p.account(1), Some(account(1, -3, i64::MAX - 2, i64::MAX - 5, false)));
    assert_eq!(p.apply(&resolve(1, 1)), Outcome::RejectedOverflow);
    assert_eq!(p.apply(&chargeback(1, 1)), Outcome::RejectedOverflow);
    assert!(p.is_disputed(1));
    assert_eq!(p.account(1), Some(account(1, -3, i64::MAX - 2, i64::MAX - 5, false)));
}

#[test]
fn reused_transaction_id_overwrites_the_ledger() {
    let mut p = Processor::new();
    p.apply(&deposit(1, 1, 100));
    p.apply(&deposit(1, 1, 30));
    assert_eq!(p.recorded_amount(1), Some(30));
    p.apply(&dispute(1, 1));
    assert_eq!(p.account(1), Some(account(1, 100, 30, 130, false)));
}

#[test]
fn locked_account_still_takes_deposits() {
    let mut p = Processor::new();
    p.apply(&deposit(1, 1, 100));
    p.apply(&dispute(1, 1));
    p.apply(&chargeback(1, 1));
    assert_eq!(p.apply(&deposit(1, 2, 40)), Outcome::Applied);
    assert_eq!(p.account(1), Some(account(1, 40, 0, 40, true)));
}

#[test]
fn replay_applies_the_log_in_order() {
    let log = vec![deposit(1, 1, 100), withdrawal(1, 2, 30), dispute(1, 2)];
    let mut p = Processor::new();
    p.replay(&log);
    assert_eq!(p.account(1), Some(account(1, 40, 30, 70, false)));
    assert!(p.is_disputed(2));
}

#[test]
fn get_updated_client_sets_each_field() {
    assert_eq!(get_updated_client(3, 1, 2, 3, true), account(3, 1, 2, 3, true));
}

#[test]
fn default_client_is_all_zero() {
    assert_eq!(Client::default(), account(0, 0, 0, 0, false));
}

#[test]
fn the_functions_on_the_three_stores() {
    let mut map = AccountStore::new();
    let mut ledger = TransactionLedger::new();
    let mut disputes = DisputeTracker::new();
    add_to_map(&deposit(5, 1, 100), &mut map, 5, &mut ledger);
    assert_eq!(map.get(5), Some(account(5, 100, 0, 100, false)));
    assert!(map.contains_key(5));
    assert_eq!(ledger.lookup(1), Some(100));
    assert_eq!(update_deposit_map(&mut map, 5, &deposit(5, 2, 20), &mut ledger), Outcome::Applied);
    assert_eq!(
        update_withdrawal_map(&mut map, 5, &withdrawal(5, 3, 50), &mut ledger),
        Outcome::Applied
    );
    assert_eq!(map.get(5), Some(account(5, 70, 0, 70, false)));
    assert_eq!(
        update_dispute_map(&mut map, 5, &ledger, &dispute(5, 2), &mut disputes),
        Outcome::Applied
    );
    assert!(disputes.is_open(2));
    assert_eq!(map.get(5), Some(account(5, 50, 20, 70, false)));
    assert_eq!(
        update_resolve_map(&mut map, 5, &mut disputes, &resolve(5, 2), &ledger),
        Outcome::Applied
    );
    assert!(!disputes.is_open(2));
    assert_eq!(map.get(5), Some(account(5, 70, 0, 70, false)));
    update_dispute_map(&mut map, 5, &ledger, &dispute(5, 3), &mut disputes);
    assert_eq!(
        update_chargeback_map(&mut map, 5, &mut disputes, &chargeback(5, 3), &ledger),
        Outcome::Applied
    );
    assert_eq!(map.get(5), Some(account(5, 20, 0, 20, true)));
}

#[test]
fn the_stores_by_themselves() {
    let mut map = AccountStore::new();
    assert_eq!(map.get(1), None);
    map.upsert(account(1, 1, 2, 3, false));
    map.upsert(account(1, 4, 5, 9, true));
    assert_eq!(map.get(1), Some(account(1, 4, 5, 9, true)));
    let mut ledger = TransactionLedger::new();
    assert_eq!(ledger.lookup(1), None);
    ledger.record(1, 10);
    ledger.record(1, 20);
    assert_eq!(ledger.lookup(1), Some(20));
    let mut disputes = DisputeTracker::new();
    assert!(!disputes.is_open(1));
    disputes.open(1);
    disputes.open(1);
    assert!(disputes.is_open(1));
    disputes.close(1);
    assert!(!disputes.is_open(1));
    disputes.close(1);
    assert!(!disputes.is_open(1));
}
