//! Mutable pool state, per-account ledger records, and the token movements
//! that successful transitions ask the host shell to perform.

use vstd::prelude::*;
use crate::config::{PoolConfig, RewardPolicy};

verus! {

/// Accrual state of the continuous reward-rate / reward-per-token strategy.
#[derive(Clone, Copy, Debug, PartialEq, Eq, Structural)]
pub struct ContinuousAccrual {
    /// Reward units distributed per unit of time over the current cycle.
    pub reward_rate: u64,
    /// Global reward-per-token index, scaled by `10^decimals`.
    pub reward_per_token_stored: u128,
    /// Instant up to which the index has been accumulated.
    pub last_update_time: u64,
    /// Instant at which the current reward cycle ends.
    pub finish_at: u64,
}

/// Accrual state of the snapshot APR strategy.
#[derive(Clone, Copy, Debug, PartialEq, Eq, Structural)]
pub struct SnapshotAccrual {
    /// APR in percent applied to stakes at maturity.
    pub current_apr: u64,
    /// Currently staked liquidity; mirrors the pool total.
    pub liquidity: u64,
}

/// Strategy-dependent part of the pool state.
#[derive(Clone, Copy, Debug, PartialEq, Eq, Structural)]
pub enum AccrualState {
    /// State of the continuous-index strategy.
    Continuous(ContinuousAccrual),
    /// State of the snapshot-APR strategy.
    Snapshot(SnapshotAccrual),
}

/// Mutable singleton state of the pool.
#[derive(Clone, Copy, Debug, PartialEq, Eq, Structural)]
pub struct PoolState {
    /// Sum of all accounts' staked amounts.
    pub total_staked: u64,
    /// Reward still held in custody for future payouts.
    pub total_reward_reserve: u64,
    /// Cumulative reward ever contributed at funding time; payouts never
    /// exceed it.
    pub total_funded: u64,
    /// Whether the pool has been funded; flips false to true exactly once
    /// per funding cycle.
    pub notified: bool,
    /// Strategy-dependent accrual state.
    pub accrual: AccrualState,
}

/// One account's ledger entry.  Records are created lazily on first stake
/// and never deleted: the balance decays to zero instead, preserving the
/// claim history.
#[derive(Clone, Copy, Debug, PartialEq, Eq, Structural)]
pub struct StakeRecord {
    /// Account this record belongs to.
    pub account: u64,
    /// Principal currently staked by the account.
    pub staked_amount: u64,
    /// Checkpoint into the global reward-per-token index at the account's
    /// last touch; continuous model only.
    pub reward_per_token_paid: u128,
    /// Reward accrued since the last checkpoint but not yet paid out;
    /// continuous model only.
    pub pending_reward: u64,
    /// Cumulative reward already paid to the account.
    pub claimed_amount: u64,
}

impl StakeRecord {
    /// Fresh, empty entry for an account, as created on its first stake.
    pub fn new(account: u64) -> (r: StakeRecord)
        ensures
            r == (StakeRecord {
                account,
                staked_amount: 0,
                reward_per_token_paid: 0,
                pending_reward: 0,
                claimed_amount: 0,
            }),
    {
        StakeRecord {
            account,
            staked_amount: 0,
            reward_per_token_paid: 0,
            pending_reward: 0,
            claimed_amount: 0,
        }
    }
}

/// Token movement the host shell must perform to commit a successful
/// transition.  The engine never moves tokens itself.
#[derive(Clone, Copy, Debug, PartialEq, Eq, Structural)]
pub enum TokenMovement {
    /// Pull `amount` from the caller into the pool's custody.
    PullFromCaller {
        /// Amount to transfer from the caller to the pool.
        amount: u64,
    },
    /// Return `principal` staked tokens and pay `reward` tokens to the
    /// caller out of the pool's custody.
    PayToCaller {
        /// Principal returned to the caller.
        principal: u64,
        /// Reward paid to the caller.
        reward: u64,
    },
}

impl PoolState {
    /// The accrual variant agrees with the configured policy.
    pub open spec fn matches_policy(self, cfg: PoolConfig) -> bool {
        match self.accrual {
            AccrualState::Continuous(_) => cfg.policy is ContinuousIndex,
            AccrualState::Snapshot(_) => cfg.is_snapshot(),
        }
    }

    /// Empty state for a freshly configured pool.
    pub open spec fn spec_initial(cfg: PoolConfig) -> PoolState {
        PoolState {
            total_staked: 0,
            total_reward_reserve: 0,
            total_funded: 0,
            notified: false,
            accrual: if cfg.policy is ContinuousIndex {
                AccrualState::Continuous(ContinuousAccrual {
                    reward_rate: 0,
                    reward_per_token_stored: 0,
                    last_update_time: 0,
                    finish_at: 0,
                })
            } else {
                AccrualState::Snapshot(SnapshotAccrual { current_apr: 0, liquidity: 0 })
            },
        }
    }

    /// Builds the empty state for a freshly configured pool.
    pub fn initial(cfg: &PoolConfig) -> (r: PoolState)
        ensures
            r == PoolState::spec_initial(*cfg),
            r.matches_policy(*cfg),
    {
        let accrual = match cfg.policy {
            RewardPolicy::ContinuousIndex => AccrualState::Continuous(ContinuousAccrual {
                reward_rate: 0,
                reward_per_token_stored: 0,
                last_update_time: 0,
                finish_at: 0,
            }),
            _ => AccrualState::Snapshot(SnapshotAccrual { current_apr: 0, liquidity: 0 }),
        };
        PoolState {
            total_staked: 0,
            total_reward_reserve: 0,
            total_funded: 0,
            notified: false,
            accrual,
        }
    }
}

} // verus!
