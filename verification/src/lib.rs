//! Proportional distribution of a pooled balance among weighted
//! beneficiaries.
//!
//! Value arrives in the pool without any call. An accumulator records the
//! accrual per unit of weight, brought up to date from the pool's balance
//! whenever it is read, and a ledger records for each beneficiary its weight
//! and what it was paid. A beneficiary can withdraw its share at any time; the
//! administrator can replace the set of beneficiaries, which settles the old
//! set in full first.
//!
//! - [`contract`]: the operations, each with what holds after it.
//! - [`state`], [`store`], [`querier`], [`msg`], [`error`]: the records, the
//!   store that keeps them, the balance oracle, the messages, the errors.
//! - [`util`]: transfers and the settlement of all beneficiaries.
//! - [`wide`]: the 256-bit arithmetic behind the share formulas.
//! - [`laws`], [`admission`], [`settling`], [`sums`]: what is proved of the
//!   operations over time.
pub mod admission;
pub mod contract;
pub mod error;
pub mod laws;
pub mod msg;
pub mod querier;
pub mod settling;
pub mod state;
pub mod store;
pub mod sums;
pub mod util;
pub mod wide;
