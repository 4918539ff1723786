//! Snapshot APR strategy: a one-shot funding step pulls a fixed prize into
//! custody; each stake snapshots an APR (fixed, or interpolated from
//! utilization or elapsed time), and the reward is paid once, at maturity.

use vstd::prelude::*;
use vstd::arithmetic::div_mod::{
    lemma_div_is_ordered, lemma_div_multiples_vanish, lemma_div_pos_is_pos,
};
use vstd::arithmetic::mul::{lemma_mul_inequality, lemma_mul_nonnegative};
use crate::config::PoolConfig;

verus! {

/// APR fixed at funding time: the configured `fixed_apr` when non-zero,
/// else `max_apr` (the rate offered before any utilization is known).
pub open spec fn spec_notify_apr(cfg: PoolConfig) -> int {
    if cfg.fixed_apr > 0 {
        cfg.fixed_apr as int
    } else {
        cfg.max_apr as int
    }
}

/// Prize pulled into custody at funding time: the reward owed if the pool
/// fills to capacity at the funding-time APR.
pub open spec fn spec_prize(cfg: PoolConfig) -> int {
    cfg.max_capacity * spec_notify_apr(cfg) / 100
}

/// The prize fits a machine word for any valid snapshot configuration.
pub proof fn lemma_prize_bounds(cfg: PoolConfig)
    requires
        cfg.wf(),
        cfg.is_snapshot(),
    ensures
        0 <= spec_prize(cfg) <= u64::MAX,
        cfg.max_capacity * spec_notify_apr(cfg) <= 100 * (u64::MAX as int),
{
    let apr0 = spec_notify_apr(cfg);
    lemma_mul_nonnegative(cfg.max_capacity as int, apr0);
    lemma_mul_inequality(apr0, cfg.apr_cap(), cfg.max_capacity as int);
    assert(cfg.max_capacity * apr0 == apr0 * cfg.max_capacity);
    assert(cfg.max_capacity * cfg.apr_cap() == cfg.apr_cap() * cfg.max_capacity);
    lemma_div_pos_is_pos(cfg.max_capacity * apr0, 100);
    lemma_div_is_ordered(cfg.max_capacity * apr0, 100 * (u64::MAX as int), 100);
    lemma_div_multiples_vanish(u64::MAX as int, 100);
}

/// Computes the funding-time prize.
pub fn compute_prize(cfg: &PoolConfig) -> (r: u64)
    requires
        cfg.wf(),
        cfg.is_snapshot(),
    ensures
        r == spec_prize(*cfg),
{
    proof {
        lemma_prize_bounds(*cfg);
    }
    let apr0: u64 = if cfg.fixed_apr > 0 {
        cfg.fixed_apr
    } else {
        cfg.max_apr
    };
    let prize: u128 = (cfg.max_capacity as u128) * (apr0 as u128) / 100;
    prize as u64
}

/// Reward owed to a matured stake: `staked * apr / 100`.
pub open spec fn spec_snapshot_reward(staked: u64, apr: u64) -> int {
    staked * apr / 100
}

/// The reward computation stays inside machine words whenever the stake
/// respects capacity and the APR respects its configured ceiling.
pub proof fn lemma_snapshot_reward_bounds(cfg: PoolConfig, staked: u64, apr: u64)
    requires
        cfg.wf(),
        cfg.is_snapshot(),
        staked <= cfg.max_capacity,
        apr <= cfg.apr_cap(),
    ensures
        0 <= staked * apr <= 100 * (u64::MAX as int),
        0 <= spec_snapshot_reward(staked, apr) <= u64::MAX,
{
    vstd::arithmetic::mul::lemma_mul_upper_bound(
        staked as int,
        cfg.max_capacity as int,
        apr as int,
        cfg.apr_cap(),
    );
    lemma_mul_nonnegative(staked as int, apr as int);
    lemma_div_pos_is_pos(staked * apr, 100);
    lemma_div_is_ordered(staked * apr, 100 * (u64::MAX as int), 100);
    lemma_div_multiples_vanish(u64::MAX as int, 100);
}

/// Computes the reward owed to a matured stake.
pub fn compute_snapshot_reward(cfg: &PoolConfig, staked: u64, apr: u64) -> (r: u64)
    requires
        cfg.wf(),
        cfg.is_snapshot(),
        staked <= cfg.max_capacity,
        apr <= cfg.apr_cap(),
    ensures
        r == spec_snapshot_reward(staked, apr),
{
    proof {
        lemma_snapshot_reward_bounds(*cfg, staked, apr);
    }
    let reward: u128 = (staked as u128) * (apr as u128) / 100;
    reward as u64
}

} // verus!
