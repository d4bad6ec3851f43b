//! A verified batch-transfer ledger operation: one sender pays many
//! receivers in a single call, gated by a fan-out bound, overflow-checked
//! summation and a whole-batch solvency check before any balance moves.

pub mod ledger;
pub mod pallet;
pub mod laws;
