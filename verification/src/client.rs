//! The per-client account record.

use vstd::prelude::*;

verus! {

/// The balances of one client. Amounts are in ten-thousandths of a unit.
#[derive(Clone, Copy, Debug, PartialEq, Eq, Structural)]
pub struct Client {
    /// The client identifier, which is also the key under which the account is stored.
    pub id: u16,
    /// Funds that no dispute holds.
    pub available: i64,
    /// Funds held by open disputes.
    pub held: i64,
    /// All funds of the client, available or held.
    pub total: i64,
    /// Set by a chargeback and never cleared.
    pub locked: bool,
}

impl Client {
    /// The total is the sum of what is available and what is held.
    pub open spec fn balanced(self) -> bool {
        self.total == self.available + self.held
    }
}

impl Default for Client {
    fn default() -> (c: Client)
        ensures
            c == (Client { id: 0, available: 0, held: 0, total: 0, locked: false }),
    {
        Client { id: 0, available: 0, held: 0, total: 0, locked: false }
    }
}

/// Builds an account record from its five fields.
pub fn get_updated_client(id: u16, available: i64, held: i64, total: i64, locked: bool) -> (c: Client)
    ensures
        c == (Client { id, available, held, total, locked }),
{
    Client { id, available, held, total, locked }
}

} // verus!
