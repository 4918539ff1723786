//! Admission control: the checks every mutating operation must pass before
//! any state change, each failure a distinct error, in a fixed order.

use vstd::prelude::*;
use crate::config::PoolConfig;
use crate::errors::Error;

verus! {

/// Outcome of the stake admission checks, in order: funding gate (snapshot
/// only), zero amount, deposit window, per-account amount limits, pool
/// capacity, caller's token balance.
pub open spec fn spec_stake_check(
    cfg: PoolConfig,
    notified: bool,
    total_staked: u64,
    account_staked: u64,
    now: u64,
    amount: u64,
    caller_balance: u64,
) -> Result<(), Error> {
    if cfg.is_snapshot() && !notified {
        Err(Error::WaitingNotify)
    } else if amount == 0 {
        Err(Error::AmountIsZero)
    } else if now < cfg.deposit_start_time {
        Err(Error::StakeIsNotStarted)
    } else if now > cfg.deposit_end_time {
        Err(Error::StakeIsCompleted)
    } else if amount < cfg.min_stake {
        Err(Error::AmountLimits)
    } else if account_staked + amount > cfg.max_stake {
        Err(Error::AmountLimits)
    } else if total_staked + amount > cfg.max_capacity {
        Err(Error::MaxCapacityError)
    } else if caller_balance < amount {
        Err(Error::InsufficientBalance)
    } else {
        Ok(())
    }
}

/// Runs the stake admission checks without touching any state.
pub fn check_stake(
    cfg: &PoolConfig,
    notified: bool,
    total_staked: u64,
    account_staked: u64,
    now: u64,
    amount: u64,
    caller_balance: u64,
) -> (r: Result<(), Error>)
    ensures
        r == spec_stake_check(*cfg, notified, total_staked, account_staked, now, amount, caller_balance),
{
    let snapshot = !matches!(cfg.policy, crate::config::RewardPolicy::ContinuousIndex);
    if snapshot && !notified {
        Err(Error::WaitingNotify)
    } else if amount == 0 {
        Err(Error::AmountIsZero)
    } else if now < cfg.deposit_start_time {
        Err(Error::StakeIsNotStarted)
    } else if now > cfg.deposit_end_time {
        Err(Error::StakeIsCompleted)
    } else if amount < cfg.min_stake {
        Err(Error::AmountLimits)
    } else if (account_staked as u128) + (amount as u128) > (cfg.max_stake as u128) {
        Err(Error::AmountLimits)
    } else if (total_staked as u128) + (amount as u128) > (cfg.max_capacity as u128) {
        Err(Error::MaxCapacityError)
    } else if caller_balance < amount {
        Err(Error::InsufficientBalance)
    } else {
        Ok(())
    }
}

/// True once the lock period after the deposit window has fully elapsed.
pub open spec fn spec_lock_expired(cfg: PoolConfig, now: u64) -> bool {
    now >= cfg.lock_expiry()
}

/// Outcome of the withdrawal admission checks, in order: lock expiry,
/// existence of a stake, and — for a partial withdrawal — a non-zero
/// amount within the balance that does not strand a remainder below
/// `min_stake`.  Returns the amount to withdraw; `None` requests the
/// full balance.
pub open spec fn spec_unstake_check(
    cfg: PoolConfig,
    now: u64,
    staked: u64,
    request: Option<u64>,
) -> Result<u64, Error> {
    if !spec_lock_expired(cfg, now) {
        Err(Error::StillLockPeriod)
    } else if staked == 0 {
        Err(Error::InsufficientStakeBalance)
    } else {
        match request {
            None => Ok(staked),
            Some(a) => {
                if a == 0 {
                    Err(Error::AmountIsZero)
                } else if a > staked {
                    Err(Error::InsufficientStakeBalance)
                } else if staked - a > 0 && staked - a < cfg.min_stake {
                    Err(Error::AmountLimits)
                } else {
                    Ok(a)
                }
            },
        }
    }
}

/// Runs the withdrawal admission checks without touching any state.
pub fn check_unstake(
    cfg: &PoolConfig,
    now: u64,
    staked: u64,
    request: Option<u64>,
) -> (r: Result<u64, Error>)
    requires
        cfg.deposit_end_time + cfg.lock_period <= u64::MAX,
    ensures
        r == spec_unstake_check(*cfg, now, staked, request),
{
    if now < cfg.deposit_end_time + cfg.lock_period {
        Err(Error::StillLockPeriod)
    } else if staked == 0 {
        Err(Error::InsufficientStakeBalance)
    } else {
        match request {
            None => Ok(staked),
            Some(a) => {
                if a == 0 {
                    Err(Error::AmountIsZero)
                } else if a > staked {
                    Err(Error::InsufficientStakeBalance)
                } else if staked - a > 0 && staked - a < cfg.min_stake {
                    Err(Error::AmountLimits)
                } else {
                    Ok(a)
                }
            },
        }
    }
}

/// Rejects a caller other than the recorded pool owner.
pub fn only_owner(cfg: &PoolConfig, caller: u64) -> (r: Result<(), Error>)
    ensures
        caller == cfg.owner ==> r == Ok::<(), Error>(()),
        caller != cfg.owner ==> r == Err::<(), Error>(Error::AdminError),
{
    if caller == cfg.owner {
        Ok(())
    } else {
        Err(Error::AdminError)
    }
}

} // verus!
