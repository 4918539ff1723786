//! Stake accounting and reward-accrual engine for a token-staking pool.
//!
//! Accounts deposit a fungible token during a bounded window; the pool
//! accrues a reward reserve, and depositors withdraw principal plus a
//! time- and utilization-dependent reward after a lock period.  This crate
//! holds the pure accounting core: admission rules, the per-account ledger
//! with its global invariants, and two interchangeable reward-accrual
//! strategies (a continuous reward-rate index and a one-shot snapshot APR).
//! The host shell that resolves identities, persists state and moves tokens
//! lives outside the crate; every operation here is a pure transition from
//! state and event to new state and a requested token movement.

pub mod admission;
pub mod apr;
pub mod config;
pub mod continuous;
pub mod engine;
pub mod errors;
pub mod laws;
pub mod ledger;
pub mod pool;
pub mod snapshot;
pub mod state;

pub use errors::Error;
