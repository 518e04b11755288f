//! A single-pass payments ledger: a log of deposits, withdrawals, disputes,
//! resolutions and chargebacks is replayed against per-client balances.
//!
//! Amounts are fixed-point integers counted in ten-thousandths of a unit. A
//! record that would take a balance out of the range of 64 bits is rejected
//! like any other that cannot be applied: the state stays as it was.
//!
//! The state machine is modelled in `books`, run by `processor` and its laws
//! are proved in `laws` and `held`. `table` decodes the rows that the CSV
//! reader gives, `decimal` reads and writes numbers, `report` writes the
//! final report, and `payments` puts the whole run together.

pub mod books;
pub mod client;
pub mod decimal;
pub mod held;
pub mod laws;
pub mod payments;
pub mod processor;
pub mod record;
pub mod report;
pub mod store;
pub mod table;
