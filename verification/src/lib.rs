//! A two-phase fundraising-and-distribution ledger.
//!
//! The presale ledger collects contributions from whitelisted participants
//! under tier caps and a global hard cap; the distribution ledger turns
//! recorded contributions into a pro-rata allocation of a fixed token supply
//! and releases it through one-shot claims. Every operation is specified by
//! an exact contract — which error comes on which input, and what the state
//! looks like afterwards — and verified to preserve the ledgers' invariants:
//! the running total equals the sum of the records, caps are never exceeded,
//! and claims and refunds succeed at most once.

pub mod distribution;
pub mod errors;
pub mod events;
pub mod names;
pub mod presale;
pub mod sums;
