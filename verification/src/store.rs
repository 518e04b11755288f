//! The three pieces of state that the processor owns: the account store, the
//! transaction ledger and the dispute tracker.

use crate::client::Client;
use std::collections::HashMap;
use std::collections::HashSet;
use vstd::prelude::*;

verus! {

broadcast use vstd::std_specs::hash::group_hash_axioms;

/// The accounts, keyed by client identifier.
pub struct AccountStore {
    accounts: HashMap<u16, Client>,
}

impl View for AccountStore {
    type V = Map<u16, Client>;

    closed spec fn view(&self) -> Map<u16, Client> {
        self.accounts@
    }
}

impl AccountStore {
    /// A store without accounts.
    pub fn new() -> (store: AccountStore)
        ensures
            store@ == Map::<u16, Client>::empty(),
    {
        AccountStore { accounts: HashMap::new() }
    }

    /// Whether an account is stored under `client_id`.
    pub fn contains_key(&self, client_id: u16) -> (known: bool)
        ensures
            known == self@.contains_key(client_id),
    {
        self.accounts.contains_key(&client_id)
    }

    /// The account stored under `client_id`, if there is one.
    pub fn get(&self, client_id: u16) -> (found: Option<Client>)
        ensures
            found == (if self@.contains_key(client_id) {
                Some(self@[client_id])
            } else {
                None
            }),
    {
        match self.accounts.get(&client_id) {
            Some(account) => Some(*account),
            None => None,
        }
    }

    /// Stores `account` under its own identifier, replacing what was there.
    pub fn upsert(&mut self, account: Client)
        ensures
            final(self)@ == old(self)@.insert(account.id, account),
    {
        self.accounts.insert(account.id, account);
    }
}

/// The amount first applied under each transaction identifier.
pub struct TransactionLedger {
    amounts: HashMap<u32, i64>,
}

impl View for TransactionLedger {
    type V = Map<u32, i64>;

    closed spec fn view(&self) -> Map<u32, i64> {
        self.amounts@
    }
}

impl TransactionLedger {
    /// A ledger without entries.
    pub fn new() -> (ledger: TransactionLedger)
        ensures
            ledger@ == Map::<u32, i64>::empty(),
    {
        TransactionLedger { amounts: HashMap::new() }
    }

    /// Records `amount` under `tx_id`; an earlier entry of that identifier is overwritten.
    pub fn record(&mut self, tx_id: u32, amount: i64)
        ensures
            final(self)@ == old(self)@.insert(tx_id, amount),
    {
        self.amounts.insert(tx_id, amount);
    }

    /// The amount recorded under `tx_id`, if there is one.
    pub fn lookup(&self, tx_id: u32) -> (found: Option<i64>)
        ensures
            found == (if self@.contains_key(tx_id) {
                Some(self@[tx_id])
            } else {
                None
            }),
    {
        match self.amounts.get(&tx_id) {
            Some(amount) => Some(*amount),
            None => None,
        }
    }
}

/// The transactions that are under dispute. Being a set, it holds each
/// identifier at most once, however often a dispute of it is opened.
pub struct DisputeTracker {
    open: HashSet<u32>,
}

impl View for DisputeTracker {
    type V = Set<u32>;

    closed spec fn view(&self) -> Set<u32> {
        self.open@
    }
}

impl DisputeTracker {
    /// A tracker without open disputes.
    pub fn new() -> (tracker: DisputeTracker)
        ensures
            tracker@ == Set::<u32>::empty(),
    {
        DisputeTracker { open: HashSet::new() }
    }

    /// Marks `tx_id` as disputed.
    pub fn open(&mut self, tx_id: u32)
        ensures
            final(self)@ == old(self)@.insert(tx_id),
    {
        self.open.insert(tx_id);
    }

    /// Ends the dispute of `tx_id`, if one is open.
    pub fn close(&mut self, tx_id: u32)
        ensures
            final(self)@ == old(self)@.remove(tx_id),
    {
        self.open.remove(&tx_id);
    }

    /// Whether a dispute of `tx_id` is open.
    pub fn is_open(&self, tx_id: u32) -> (disputed: bool)
        ensures
            disputed == self@.contains(tx_id),
    {
        self.open.contains(&tx_id)
    }
}

} // verus!
