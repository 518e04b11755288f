//! The mathematical model of the processor: its state as two maps and a set,
//! and the effect of each kind of record on it.

use crate::client::Client;
use crate::record::{Outcome, Record, TransactionType};
use vstd::prelude::*;

verus! {

/// Whether `v` can be held as a 64-bit fixed-point amount.
pub open spec fn fits(v: int) -> bool {
    i64::MIN <= v <= i64::MAX
}

/// The state of the processor.
pub struct Books {
    /// The account of each known client.
    pub accounts: Map<u16, Client>,
    /// The amount recorded for each deposit and withdrawal that was applied.
    pub ledger: Map<u32, i64>,
    /// The transactions under dispute.
    pub disputes: Set<u32>,
}

impl Books {
    /// The state before any record.
    pub open spec fn empty() -> Books {
        Books { accounts: Map::empty(), ledger: Map::empty(), disputes: Set::empty() }
    }

    /// Every account is stored under its own identifier and is balanced, and
    /// every disputed transaction has its amount in the ledger.
    pub open spec fn wf(self) -> bool {
        &&& forall|id: u16| #[trigger]
            self.accounts.contains_key(id) ==> self.accounts[id].id == id
                && self.accounts[id].balanced()
        &&& forall|tx: u32| #[trigger] self.disputes.contains(tx) ==> self.ledger.contains_key(tx)
    }

    /// The state after a first deposit has opened the account of `client`.
    pub open spec fn opened(self, client: u16, tx: u32, amount: i64) -> Books {
        Books {
            accounts: self.accounts.insert(
                client,
                Client { id: client, available: amount, held: 0, total: amount, locked: false },
            ),
            ledger: self.ledger.insert(tx, amount),
            disputes: self.disputes,
        }
    }

    /// What becomes of a deposit to the existing account of `client`.
    pub open spec fn top_up_outcome(self, client: u16, amount: i64) -> Outcome {
        let account = self.accounts[client];
        if fits(account.available + amount) && fits(account.total + amount) {
            Outcome::Applied
        } else {
            Outcome::RejectedOverflow
        }
    }

    /// The state after a deposit to the existing account of `client`.
    pub open spec fn topped_up(self, client: u16, tx: u32, amount: i64) -> Books {
        let account = self.accounts[client];
        if self.top_up_outcome(client, amount) == Outcome::Applied {
            Books {
                accounts: self.accounts.insert(
                    client,
                    Client {
                        id: client,
                        available: (account.available + amount) as i64,
                        held: account.held,
                        total: (account.total + amount) as i64,
                        locked: account.locked,
                    },
                ),
                ledger: self.ledger.insert(tx, amount),
                disputes: self.disputes,
            }
        } else {
            self
        }
    }

    /// What becomes of a withdrawal from the existing account of `client`.
    pub open spec fn draw_outcome(self, client: u16, amount: i64) -> Outcome {
        let account = self.accounts[client];
        if amount > account.available {
            Outcome::RejectedInsufficientFunds
        } else if fits(account.available - amount) && fits(account.total - amount) {
            Outcome::Applied
        } else {
            Outcome::RejectedOverflow
        }
    }

    /// The state after a withdrawal from the existing account of `client`.
    pub open spec fn drawn(self, client: u16, tx: u32, amount: i64) -> Books {
        let account = self.accounts[client];
        if self.draw_outcome(client, amount) == Outcome::Applied {
            Books {
                accounts: self.accounts.insert(
                    client,
                    Client {
                        id: client,
                        available: (account.available - amount) as i64,
                        held: account.held,
                        total: (account.total - amount) as i64,
                        locked: account.locked,
                    },
                ),
                ledger: self.ledger.insert(tx, amount),
                disputes: self.disputes,
            }
        } else {
            self
        }
    }

    /// What becomes of a dispute of `tx` by `client`.
    pub open spec fn dispute_outcome(self, client: u16, tx: u32) -> Outcome {
        let account = self.accounts[client];
        let amount = self.ledger[tx];
        if !self.accounts.contains_key(client) {
            Outcome::RejectedUnknownClient
        } else if !self.ledger.contains_key(tx) {
            Outcome::RejectedUnknownTransaction
        } else if fits(account.available - amount) && fits(account.held + amount) {
            Outcome::Applied
        } else {
            Outcome::RejectedOverflow
        }
    }

    /// The state after a dispute of `tx` by `client`: the recorded amount
    /// moves from available to held, whatever is available.
    pub open spec fn disputed(self, client: u16, tx: u32) -> Books {
        let account = self.accounts[client];
        let amount = self.ledger[tx];
        if self.dispute_outcome(client, tx) == Outcome::Applied {
            Books {
                accounts: self.accounts.insert(
                    client,
                    Client {
                        id: client,
                        available: (account.available - amount) as i64,
                        held: (account.held + amount) as i64,
                        total: account.total,
                        locked: account.locked,
                    },
                ),
                ledger: self.ledger,
                disputes: self.disputes.insert(tx),
            }
        } else {
            self
        }
    }

    /// What becomes of a resolve of `tx` by `client`.
    pub open spec fn resolve_outcome(self, client: u16, tx: u32) -> Outcome {
        let account = self.accounts[client];
        let amount = self.ledger[tx];
        if !self.accounts.contains_key(client) {
            Outcome::RejectedUnknownClient
        } else if !self.disputes.contains(tx) {
            Outcome::RejectedNotDisputed
        } else if fits(account.available + amount) && fits(account.held - amount) {
            Outcome::Applied
        } else {
            Outcome::RejectedOverflow
        }
    }

    /// The state after a resolve of `tx` by `client`: the recorded amount
    /// moves back from held to available and the dispute ends.
    pub open spec fn resolved(self, client: u16, tx: u32) -> Books {
        let account = self.accounts[client];
        let amount = self.ledger[tx];
        if self.resolve_outcome(client, tx) == Outcome::Applied {
            Books {
                accounts: self.accounts.insert(
                    client,
                    Client {
                        id: client,
                        available: (account.available + amount) as i64,
                        held: (account.held - amount) as i64,
                        total: account.total,
                        locked: account.locked,
                    },
                ),
                ledger: self.ledger,
                disputes: self.disputes.remove(tx),
            }
        } else {
            self
        }
    }

    /// What becomes of a chargeback of `tx` by `client`.
    pub open spec fn chargeback_outcome(self, client: u16, tx: u32) -> Outcome {
        let account = self.accounts[client];
        let amount = self.ledger[tx];
        if !self.accounts.contains_key(client) {
            Outcome::RejectedUnknownClient
        } else if !self.disputes.contains(tx) {
            Outcome::RejectedNotDisputed
        } else if fits(account.held - amount) && fits(account.total - amount) {
            Outcome::Applied
        } else {
            Outcome::RejectedOverflow
        }
    }

    /// The state after a chargeback of `tx` by `client`: the recorded amount
    /// leaves held and total, the account is locked and the dispute ends.
    pub open spec fn charged_back(self, client: u16, tx: u32) -> Books {
        let account = self.accounts[client];
        let amount = self.ledger[tx];
        if self.chargeback_outcome(client, tx) == Outcome::Applied {
            Books {
                accounts: self.accounts.insert(
                    client,
                    Client {
                        id: client,
                        available: account.available,
                        held: (account.held - amount) as i64,
                        total: (account.total - amount) as i64,
                        locked: true,
                    },
                ),
                ledger: self.ledger,
                disputes: self.disputes.remove(tx),
            }
        } else {
            self
        }
    }

    /// What becomes of `record` in this state.
    pub open spec fn outcome(self, record: Record) -> Outcome {
        match record.transaction_type {
            TransactionType::Deposit => if self.accounts.contains_key(record.client) {
                self.top_up_outcome(record.client, record.amount)
            } else {
                Outcome::Applied
            },
            TransactionType::Withdrawal => if self.accounts.contains_key(record.client) {
                self.draw_outcome(record.client, record.amount)
            } else {
                Outcome::RejectedUnknownClient
            },
            TransactionType::Dispute => self.dispute_outcome(record.client, record.tx),
            TransactionType::Resolve => self.resolve_outcome(record.client, record.tx),
            TransactionType::Chargeback => self.chargeback_outcome(record.client, record.tx),
            TransactionType::Unknown => Outcome::RejectedUnknownType,
        }
    }

    /// The state after `record`.
    pub open spec fn step(self, record: Record) -> Books {
        match record.transaction_type {
            TransactionType::Deposit => if self.accounts.contains_key(record.client) {
                self.topped_up(record.client, record.tx, record.amount)
            } else {
                self.opened(record.client, record.tx, record.amount)
            },
            TransactionType::Withdrawal => if self.accounts.contains_key(record.client) {
                self.drawn(record.client, record.tx, record.amount)
            } else {
                self
            },
            TransactionType::Dispute => self.disputed(record.client, record.tx),
            TransactionType::Resolve => self.resolved(record.client, record.tx),
            TransactionType::Chargeback => self.charged_back(record.client, record.tx),
            TransactionType::Unknown => self,
        }
    }

    /// The state after the records of `log`, applied in order.
    pub open spec fn run(self, log: Seq<Record>) -> Books
        decreases log.len(),
    {
        if log.len() == 0 {
            self
        } else {
            self.run(log.drop_last()).step(log.last())
        }
    }
}

} // verus!
